use rpb3_lib::aux::{Aux, AuxRegs};
use rpb3_lib::gpio::GPIORegs;
use rpb3_lib::uart::{Uart, UartRegs};
use rpb3_lib::utils::{DevRW, R, RW};
use rpb3_lib::{Peripherial, AUX_BASE, GPIO_BASE, PERIPH_BASE, UART_BASE};

fn uart_regs(lsr: u32, io: u32, cntl: u32) -> UartRegs {
    let b = UART_BASE as u64;
    UartRegs {
        io: DevRW::new(b, io),
        ier: RW::new(b + 0x04, 0xFF),
        iir: RW::new(b + 0x08, 0),
        lcr: RW::new(b + 0x0C, 0),
        mcr: RW::new(b + 0x10, 0xFF),
        lsr: R::new(b + 0x14, lsr),
        msr: R::new(b + 0x18, 0),
        scratch: RW::new(b + 0x1C, 0x77),
        cntl: RW::new(b + 0x20, cntl),
        stat: R::new(b + 0x24, 0),
        baud: RW::new(b + 0x28, 0),
    }
}

#[test]
fn new_sets_the_uart_up() {
    let u = Uart::new(UART_BASE, uart_regs(0, 0, 0xFF));
    assert_eq!(u.base, UART_BASE);
    assert_eq!(u.regs.cntl.current(), 0);
    assert_eq!(u.regs.lcr.current(), 3);
    assert_eq!(u.regs.mcr.current(), 0);
    assert_eq!(u.regs.ier.current(), 0);
    assert_eq!(u.regs.iir.current(), 0xc6);
    assert_eq!(u.regs.baud.current(), 270);
    assert_eq!(u.regs.scratch.current(), 0x77);
}

#[test]
fn enable_tx_rx_sets_low_bits() {
    let mut u = Uart::new(UART_BASE, uart_regs(0, 0, 0b100));
    u.enable_tx_rx();
    assert_eq!(u.regs.cntl.current(), 3);
}

#[test]
fn status_bits() {
    let mut u = Uart::new(UART_BASE, uart_regs(0x20, 0, 0));
    assert!(u.transmitter_empty());
    assert!(!u.data_ready());
    let mut u = Uart::new(UART_BASE, uart_regs(0x01, 0, 0));
    assert!(!u.transmitter_empty());
    assert!(u.data_ready());
    let mut u = Uart::new(UART_BASE, uart_regs(0xDE, 0, 0));
    assert!(!u.data_ready());
    assert!(!u.transmitter_empty());
}

#[test]
fn status_reads_follow_the_device() {
    let mut regs = uart_regs(0, 0, 0);
    regs.lsr = R::with_feed(UART_BASE as u64 + 0x14, 0, vec![0x00, 0x20, 0x01]);
    let mut u = Uart::new(UART_BASE, regs);
    assert!(!u.transmitter_empty());
    assert!(u.transmitter_empty());
    assert!(u.data_ready());
    // Nothing new: the last value stays.
    assert!(u.data_ready());
}

#[test]
fn send_writes_the_byte() {
    let mut u = Uart::new(UART_BASE, uart_regs(0x20, 0, 0));
    u.send(b'A');
    assert_eq!(u.regs.io.current(), 65);
    u.send_str("hi");
    assert_eq!(u.regs.io.current(), b'i' as u32);
    u.send_bytes(&[1, 2, 0xFF]);
    assert_eq!(u.regs.io.current(), 0xFF);
}

#[test]
fn send_waits_for_the_transmitter() {
    // Busy twice, then free: the byte goes out after the third read.
    let mut regs = uart_regs(0, 0, 0);
    regs.lsr = R::with_feed(UART_BASE as u64 + 0x14, 0, vec![0x00, 0x00, 0x20]);
    let mut u = Uart::new(UART_BASE, regs);
    u.send(b'Z');
    assert_eq!(u.regs.io.current(), b'Z' as u32);
    assert_eq!(u.regs.lsr.current(), 0x20);
}

#[test]
fn recv_takes_the_low_byte() {
    let mut regs = uart_regs(0x01, 0, 0);
    regs.io = DevRW::with_feed(UART_BASE as u64, 0, vec![0x141]);
    let mut u = Uart::new(UART_BASE, regs);
    assert_eq!(u.recv(), 0x41);
    assert_eq!(u.regs.io.current(), 0x141);
}

#[test]
fn recv_consumes_the_input() {
    let mut regs = uart_regs(0, 0, 0);
    regs.lsr = R::with_feed(UART_BASE as u64 + 0x14, 0, vec![0x00, 0x01, 0x00, 0x01]);
    regs.io = DevRW::with_feed(UART_BASE as u64, 0, vec![b'A' as u32, b'B' as u32]);
    let mut u = Uart::new(UART_BASE, regs);
    assert_eq!(u.recv(), b'A');
    assert_eq!(u.recv(), b'B');
}

#[test]
fn aux_enable_sets_bit_zero() {
    let mut a = Aux::new(AUX_BASE, AuxRegs { irq: R::new(AUX_BASE as u64, 0), enables: RW::new(AUX_BASE as u64 + 4, 0b110) });
    a.enable_uart();
    assert_eq!(a.regs.enables.current(), 0b111);
    a.enable_uart();
    assert_eq!(a.regs.enables.current(), 0b111);
}

#[test]
fn peripherals_at_their_addresses() {
    assert_eq!(PERIPH_BASE, 0x3F00_0000);
    assert_eq!(AUX_BASE, 0x3F21_5000);
    assert_eq!(UART_BASE, 0x3F21_5040);
    assert_eq!(GPIO_BASE, 0x3F20_0000);
    let p = Peripherial::new(AuxRegs::new(AUX_BASE), uart_regs(0, 0, 5), GPIORegs::new(GPIO_BASE));
    assert_eq!(p.aux.base, AUX_BASE);
    assert_eq!(p.uart.base, UART_BASE);
    assert_eq!(p.gpio.base, GPIO_BASE);
    assert_eq!(p.uart.regs.baud.current(), 270);
    assert_eq!(p.uart.regs.cntl.current(), 0);
    assert_eq!(p.aux.regs.enables.current(), 0);
    assert_eq!(p.gpio.regs.gpfsel[0].current(), 0);
}
