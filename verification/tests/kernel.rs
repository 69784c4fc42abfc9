use rpb3_lib::aarch64::{current_el_field, daif_field};
use rpb3_lib::aux::AuxRegs;
use rpb3_lib::gpio::{GPIORegs, GPIO};
use rpb3_lib::kernel::{
    boot_signal, echo_byte, echo_once, echo_rounds, fill_buf, format_hex_into, panic_signal, report_exception, report_start, Info, Kind,
    Source, HEX_DIGITS,
};
use rpb3_lib::uart::{Uart, UartRegs};
use rpb3_lib::utils::{DevRW, R, RW};
use rpb3_lib::{Peripherial, AUX_BASE, GPIO_BASE, UART_BASE};

fn ready_uart() -> UartRegs {
    let b = UART_BASE as u64;
    UartRegs {
        io: DevRW::new(b, 0),
        ier: RW::new(b + 0x04, 0),
        iir: RW::new(b + 0x08, 0),
        lcr: RW::new(b + 0x0C, 0),
        mcr: RW::new(b + 0x10, 0),
        lsr: R::new(b + 0x14, 0x21),
        msr: R::new(b + 0x18, 0),
        scratch: RW::new(b + 0x1C, 0),
        cntl: RW::new(b + 0x20, 0),
        stat: R::new(b + 0x24, 0),
        baud: RW::new(b + 0x28, 0),
    }
}

fn periph() -> Peripherial {
    Peripherial::new(AuxRegs::new(AUX_BASE), ready_uart(), GPIORegs::new(GPIO_BASE))
}

/// The number that the hexadecimal digits `s` write.
fn parse_hex(s: &[u8]) -> u64 {
    let mut v = 0u64;
    for c in s {
        let d = match c {
            b'0'..=b'9' => c - b'0',
            b'a'..=b'f' => c - b'a' + 10,
            _ => panic!("not a hex digit"),
        };
        v = v * 16 + d as u64;
    }
    v
}

#[test]
fn fill_buf_fills_every_byte() {
    let mut buf = [1u8, 2, 3, 4, 5];
    fill_buf(&mut buf, 0xAB);
    assert_eq!(buf, [0xAB; 5]);
    let mut empty: [u8; 0] = [];
    fill_buf(&mut empty, 1);
}

#[test]
fn format_hex_right_aligned() {
    assert_eq!(&HEX_DIGITS, b"0123456789abcdef");
    let mut buf = [0u8; 8];
    assert!(format_hex_into(&mut buf, 0xdead_beef));
    assert_eq!(&buf, b"deadbeef");
    assert!(format_hex_into(&mut buf, 0x2a));
    assert_eq!(&buf, b"0000002a");
    let mut short = [0u8; 3];
    assert!(format_hex_into(&mut short, 0xdead_beef));
    assert_eq!(&short, b"eef");
    let mut long = [0u8; 10];
    assert!(format_hex_into(&mut long, 0xdead_beef));
    assert_eq!(&long, b"00deadbeef");
    let mut empty: [u8; 0] = [];
    assert!(!format_hex_into(&mut empty, 5));
}

#[test]
fn eight_hex_digits_read_back() {
    for v in [0u32, 1, 0x2a, 0x8000_0000, 0xdead_beef, u32::MAX] {
        let mut buf = [0u8; 8];
        format_hex_into(&mut buf, v);
        assert_eq!(parse_hex(&buf), v as u64);
    }
}

#[test]
fn exception_codes() {
    assert_eq!(Kind::Synchronous.code(), 0);
    assert_eq!(Kind::Irq.code(), 1);
    assert_eq!(Kind::Fiq.code(), 2);
    assert_eq!(Kind::SError.code(), 3);
    assert_eq!(Source::CurrentSpEl0.code(), 0);
    assert_eq!(Source::CurrentSpElx.code(), 1);
    assert_eq!(Source::LowerAArch64.code(), 2);
    assert_eq!(Source::LowerAArch32.code(), 3);
}

#[test]
fn echo_answers_carriage_return_with_line_end() {
    let mut u = Uart::new(UART_BASE, ready_uart());
    echo_byte(&mut u, b'\r');
    assert_eq!(u.regs.io.current(), b'\n' as u32);
    echo_byte(&mut u, b'x');
    assert_eq!(u.regs.io.current(), b'x' as u32);
}

#[test]
fn register_fields() {
    assert_eq!(current_el_field(0b1100), 3);
    assert_eq!(current_el_field(0b0100), 1);
    assert_eq!(current_el_field(0xFFFF_FFF3), 0);
    assert_eq!(daif_field(0x3C0), 0xF);
    assert_eq!(daif_field(0x140), 0b0101);
    assert_eq!(daif_field(!0x3C0), 0);
}

#[test]
fn start_report() {
    let mut p = periph();
    report_start(&mut p, 2, 0xF);
    // LEDs show 0b1010: the last switch-on is LED 3, the last switch-off LED 2.
    assert_eq!(p.gpio.regs.gpset[0].written(), 1 << 26);
    assert_eq!(p.gpio.regs.gpclr[0].written(), 1 << 19);
    assert_eq!(p.uart.regs.io.current(), b'\n' as u32);
}

#[test]
fn exception_report() {
    let mut p = periph();
    let info = Info { source: Source::LowerAArch64, kind: Kind::Irq };
    report_exception(&mut p, info, 0x5600_0002, 0b1111, 1);
    assert_eq!(p.gpio.regs.gpset[0].written(), 1 << 26);
    assert_eq!(p.gpio.regs.gpclr[0].written(), 1 << 6);
    assert_eq!(p.uart.regs.io.current(), b'\n' as u32);
}

#[test]
fn kernel_boot_signal_ends_dark() {
    let mut g = GPIO::new(GPIO_BASE, GPIORegs::new(GPIO_BASE));
    boot_signal(&mut g);
    assert_eq!(g.regs.gpclr[0].written(), 1 << 26);
    assert_eq!(g.regs.gpset[0].written(), 1 << 26);
}

#[test]
fn panic_lights_every_led() {
    let mut g = GPIO::new(GPIO_BASE, GPIORegs::new(GPIO_BASE));
    panic_signal(&mut g);
    assert_eq!(g.regs.gpset[0].written(), 1 << 26);
    assert_eq!(g.regs.gpclr[0].written(), 0);
}

#[test]
fn echo_once_receives_then_echoes() {
    let mut regs = ready_uart();
    regs.io = DevRW::with_feed(UART_BASE as u64, 0, vec![b'q' as u32, b'\r' as u32]);
    let mut u = Uart::new(UART_BASE, regs);
    assert_eq!(echo_once(&mut u), b'q');
    assert_eq!(u.regs.io.current(), b'q' as u32);
    assert_eq!(echo_once(&mut u), b'\r');
    assert_eq!(u.regs.io.current(), b'\n' as u32);
}

#[test]
fn echo_rounds_echo_each_byte_in_order() {
    let mut regs = ready_uart();
    regs.io = DevRW::with_feed(UART_BASE as u64, 0, vec![b'a' as u32, b'\r' as u32, 0x162]);
    let mut u = Uart::new(UART_BASE, regs);
    assert_eq!(echo_rounds(&mut u, 3), vec![b'a', b'\r', 0x62]);
    assert_eq!(u.regs.io.current(), 0x62);
    assert_eq!(echo_rounds(&mut u, 0), Vec::<u8>::new());
}
