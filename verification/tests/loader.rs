use rpb3_lib::aux::AuxRegs;
use rpb3_lib::gpio::{GPIORegs, GPIO};
use rpb3_lib::loader::{
    begin_command, boot_signal, command_reply, finish_command, init_uart, receive_command, receive_payload, reply, CommandReceiver,
    LedCode,
};
use rpb3_lib::uart::{Uart, UartRegs};
use rpb3_lib::uart_command::{Command, CommandError, Reply, UartCommand, UartReply};
use rpb3_lib::utils::{DevRW, R, RW};
use rpb3_lib::{Peripherial, AUX_BASE, GPIO_BASE, UART_BASE};

fn ready_uart() -> UartRegs {
    let b = UART_BASE as u64;
    UartRegs {
        io: DevRW::new(b, 0),
        ier: RW::new(b + 0x04, 0),
        iir: RW::new(b + 0x08, 0),
        lcr: RW::new(b + 0x0C, 0),
        mcr: RW::new(b + 0x10, 0),
        lsr: R::new(b + 0x14, 0x21),
        msr: R::new(b + 0x18, 0),
        scratch: RW::new(b + 0x1C, 0),
        cntl: RW::new(b + 0x20, 0x80),
        stat: R::new(b + 0x24, 0),
        baud: RW::new(b + 0x28, 0),
    }
}

fn periph() -> Peripherial {
    Peripherial::new(AuxRegs::new(AUX_BASE), ready_uart(), GPIORegs::new(GPIO_BASE))
}

#[test]
fn led_codes() {
    assert_eq!(LedCode::WaitMagic.code(), 0b0001);
    assert_eq!(LedCode::ReadCommand.code(), 0b0010);
    assert_eq!(LedCode::DoCommand.code(), 0b0100);
    assert_eq!(LedCode::Jump.code(), 0b1000);
}

#[test]
fn write_refused_at_or_below_loader_end() {
    let end = 0x8_8000;
    assert_eq!(
        command_reply(&Command::Write { size: 4, addr: end }, end),
        Reply::Write(Err(CommandError::OverwriteLoader { loader_end: end }))
    );
    assert_eq!(
        command_reply(&Command::Write { size: 4, addr: 0 }, end),
        Reply::Write(Err(CommandError::OverwriteLoader { loader_end: end }))
    );
    assert_eq!(command_reply(&Command::Write { size: 4, addr: end + 1 }, end), Reply::Write(Ok(())));
}

#[test]
fn jump_refused_at_or_below_loader_end() {
    let end = 0x8_8000;
    assert_eq!(
        command_reply(&Command::Jump { addr: end }, end),
        Reply::Jump(Err(CommandError::JumpInsideLoader { loader_end: end }))
    );
    assert_eq!(command_reply(&Command::Jump { addr: 0x90000 }, end), Reply::Jump(Ok(())));
    assert_eq!(
        command_reply(&Command::Jump { addr: u32::MAX }, u32::MAX),
        Reply::Jump(Err(CommandError::JumpInsideLoader { loader_end: u32::MAX }))
    );
}

#[test]
fn host_and_loader_agree() {
    let end = 0x8_8000;
    let host_cmd = UartCommand::new(Command::Write { size: 10, addr: 0x90000 });
    let frame = host_cmd.byte_view();
    let got = UartCommand::from_bytes(&frame).unwrap();
    let answer = command_reply(&got.cmd, end);
    let back = UartReply::from_bytes(&UartReply::new(answer).byte_view()).unwrap();
    assert_eq!(back.reply, Reply::Write(Ok(())));
}

#[test]
fn reply_sends_the_frame() {
    let mut u = Uart::new(UART_BASE, ready_uart());
    reply(&mut u, &UartReply::new(Reply::Write(Err(CommandError::OverwriteLoader { loader_end: 0x0102_0304 }))));
    // the last byte of the frame is the top byte of loader_end
    assert_eq!(u.regs.io.current(), 0x01);
}

#[test]
fn finish_jump_shows_jump_code() {
    let mut p = periph();
    finish_command(&mut p, Reply::Jump(Ok(())));
    assert_eq!(p.gpio.regs.gpset[0].written(), 1 << 26);
    assert_eq!(p.gpio.regs.gpclr[0].written(), 1 << 19);
    assert_eq!(p.uart.regs.io.current(), 0);
    let mut p = periph();
    finish_command(&mut p, Reply::Jump(Err(CommandError::JumpInsideLoader { loader_end: 0xAB00_0000 })));
    assert_eq!(p.gpio.regs.gpset[0].written(), 0);
    assert_eq!(p.gpio.regs.gpclr[0].written(), 0);
    assert_eq!(p.uart.regs.io.current(), 0xAB);
}

#[test]
fn init_uart_sets_everything_up() {
    let mut p = periph();
    init_uart(&mut p);
    assert_eq!(p.uart.regs.cntl.current(), 3);
    assert_eq!(p.uart.regs.lcr.current(), 3);
    assert_eq!(p.uart.regs.iir.current(), 0xc6);
    assert_eq!(p.uart.regs.baud.current(), 270);
    assert_eq!(p.aux.regs.enables.current(), 1);
    assert_eq!(p.gpio.regs.gpfsel[1].current(), (0b010 << 12) | (0b010 << 15));
    assert_eq!(p.gpio.regs.gppud.current(), 0);
    assert_eq!(p.gpio.regs.gppudclk[0].current(), 0);
}

#[test]
fn loader_boot_signal_ends_dark() {
    let mut g = GPIO::new(GPIO_BASE, GPIORegs::new(GPIO_BASE));
    boot_signal(&mut g);
    assert_eq!(g.regs.gpclr[0].written(), 1 << 26);
    assert_eq!(g.regs.gpset[0].written(), 1 << 6);
}

#[test]
fn receiver_skips_noise_and_decodes_frame() {
    let mut rx = CommandReceiver::new();
    assert_eq!(rx.led_code(), 0b0001);
    assert_eq!(rx.push_byte(0x00), None);
    assert_eq!(rx.push_byte(0x53), None);
    assert_eq!(rx.led_code(), 0b0001);
    let frame = UartCommand::new(Command::Jump { addr: 0x90000 }).byte_view();
    for (k, b) in frame.iter().enumerate() {
        let got = rx.push_byte(*b);
        if k + 1 < frame.len() {
            assert_eq!(got, None);
            assert_eq!(rx.led_code(), 0b0010);
        } else {
            assert_eq!(got.unwrap().cmd, Command::Jump { addr: 0x90000 });
        }
    }
    assert_eq!(rx.led_code(), 0b0001);
}

#[test]
fn receiver_drops_undecodable_frame() {
    let mut rx = CommandReceiver::new();
    let mut frame = UartCommand::new(Command::Write { size: 1, addr: 2 }).byte_view();
    frame[4] = 7;
    let mut last = None;
    for b in frame.iter() {
        last = rx.push_byte(*b);
    }
    assert_eq!(last, None);
    assert_eq!(rx.led_code(), 0b0001);
}

fn uart_receiving(bytes: &[u8]) -> UartRegs {
    let mut regs = ready_uart();
    regs.io = DevRW::with_feed(UART_BASE as u64, 0, bytes.iter().map(|b| *b as u32).collect());
    regs
}

#[test]
fn receive_payload_takes_the_next_bytes() {
    let mut u = Uart::new(UART_BASE, uart_receiving(&[1, 2, 3, 4, 5]));
    assert_eq!(receive_payload(&mut u, 3), vec![1, 2, 3]);
    assert_eq!(receive_payload(&mut u, 2), vec![4, 5]);
    assert_eq!(receive_payload(&mut u, 0), Vec::<u8>::new());
}

#[test]
fn accepted_write_receives_its_data() {
    let end = 0x8_0000;
    let mut u = Uart::new(UART_BASE, uart_receiving(&[9, 8, 7, 6, 5]));
    let (rp, data) = begin_command(&mut u, &Command::Write { size: 4, addr: end + 4 }, end);
    assert_eq!(rp, Reply::Write(Ok(())));
    assert_eq!(data, vec![9, 8, 7, 6]);
}

#[test]
fn refused_write_receives_nothing() {
    let end = 0x8_0000;
    let mut u = Uart::new(UART_BASE, uart_receiving(&[9, 8, 7, 6]));
    let (rp, data) = begin_command(&mut u, &Command::Write { size: 4, addr: end }, end);
    assert_eq!(rp, Reply::Write(Err(CommandError::OverwriteLoader { loader_end: end })));
    assert!(data.is_empty());
    // the data are still waiting
    assert_eq!(receive_payload(&mut u, 1), vec![9]);
}

#[test]
fn jump_receives_nothing() {
    let end = 0x8_0000;
    let mut u = Uart::new(UART_BASE, uart_receiving(&[1]));
    let (rp, data) = begin_command(&mut u, &Command::Jump { addr: end + 1 }, end);
    assert_eq!(rp, Reply::Jump(Ok(())));
    assert!(data.is_empty());
}

#[test]
fn refused_write_reply_frame() {
    let mut p = periph();
    finish_command(&mut p, Reply::Write(Err(CommandError::OverwriteLoader { loader_end: 0x0008_0000 })));
    assert_eq!(p.uart.regs.io.current(), 0x00);
    assert_eq!(p.gpio.regs.gpset[0].written(), 0);
    let frame = UartReply::new(Reply::Write(Err(CommandError::OverwriteLoader { loader_end: 0x0008_0000 }))).byte_view();
    assert_eq!(frame, vec![0x53, 0, 0, 0, 0, 0, 0, 0, 1, 0, 0, 0, 0, 0, 0x08, 0]);
}

#[test]
fn receive_command_reads_a_frame() {
    let frame = UartCommand::new(Command::Jump { addr: 0x9_0000 }).byte_view();
    let mut p = Peripherial::new(AuxRegs::new(AUX_BASE), uart_receiving(&frame), GPIORegs::new(GPIO_BASE));
    let got = receive_command(&mut p).unwrap();
    assert_eq!(got.cmd, Command::Jump { addr: 0x9_0000 });
    // the do-command code is shown last
    assert_eq!(p.gpio.regs.gpset[0].written(), 1 << 19);
    assert_eq!(p.gpio.regs.gpclr[0].written(), 1 << 26);
}

#[test]
fn receive_command_drops_noise() {
    let mut p = Peripherial::new(AuxRegs::new(AUX_BASE), uart_receiving(&[0x00, 0x42]), GPIORegs::new(GPIO_BASE));
    assert!(receive_command(&mut p).is_none());
    // the wait-for-magic code is shown
    assert_eq!(p.gpio.regs.gpset[0].written(), 1 << 6);
    assert_eq!(p.gpio.regs.gpclr[0].written(), 1 << 26);
    assert_eq!(receive_payload(&mut p.uart, 1), vec![0x42]);
}
