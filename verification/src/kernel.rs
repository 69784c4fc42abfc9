use vstd::prelude::*;
use vstd::string::StringSliceAdditionalSpecFns;
use crate::{Peripherial, GPIO_BASE, UART_BASE};
use crate::gpio::GPIO;
use crate::gpio_leds::{display_code, led_events, leds_regs, leds_shown, show_codes, show_events, MAX_CODE};
use crate::uart::{io_after, lemma_bytes_sent_concat, lemma_can_send_after, lemma_can_send_split, received, sent, wait_for, waits, Uart, UartRegs};
use crate::utils::{feed_after_read, BusEvent};

verus! {

/// The kind of an exception, as the vector table numbers it.
#[derive(Debug, PartialEq, Eq, Copy, Clone)]
pub enum Kind {
    Synchronous,
    Irq,
    Fiq,
    SError,
}

/// Where an exception was taken from, as the vector table numbers it.
#[derive(Debug, PartialEq, Eq, Copy, Clone)]
pub enum Source {
    CurrentSpEl0,
    CurrentSpElx,
    LowerAArch64,
    LowerAArch32,
}

/// The source and kind of an exception.
#[derive(Debug, PartialEq, Eq, Copy, Clone)]
pub struct Info {
    pub source: Source,
    pub kind: Kind,
}

impl Kind {
    pub open spec fn spec_code(&self) -> u16 {
        match self {
            Kind::Synchronous => 0,
            Kind::Irq => 1,
            Kind::Fiq => 2,
            Kind::SError => 3,
        }
    }

    /// The number of the kind.
    pub fn code(&self) -> (c: u16)
        ensures
            c == self.spec_code(),
    {
        match self {
            Kind::Synchronous => 0,
            Kind::Irq => 1,
            Kind::Fiq => 2,
            Kind::SError => 3,
        }
    }
}

impl Source {
    pub open spec fn spec_code(&self) -> u16 {
        match self {
            Source::CurrentSpEl0 => 0,
            Source::CurrentSpElx => 1,
            Source::LowerAArch64 => 2,
            Source::LowerAArch32 => 3,
        }
    }

    /// The number of the source.
    pub fn code(&self) -> (c: u16)
        ensures
            c == self.spec_code(),
    {
        match self {
            Source::CurrentSpEl0 => 0,
            Source::CurrentSpElx => 1,
            Source::LowerAArch64 => 2,
            Source::LowerAArch32 => 3,
        }
    }
}

/// The hexadecimal digits, lower case: the ASCII codes of "0123456789abcdef".
pub const HEX_DIGITS: [u8; 16] = [
    0x30, 0x31, 0x32, 0x33, 0x34, 0x35, 0x36, 0x37, 0x38, 0x39, 0x61, 0x62, 0x63, 0x64, 0x65, 0x66,
];

/// The lower-case hexadecimal digit of `d` (below 16).
pub open spec fn hex_digit(d: u32) -> u8 {
    if d < 10 {
        (48 + d) as u8
    } else {
        (87 + d) as u8
    }
}

/// The last `n` hexadecimal digits of `v`, most significant first, with
/// leading zeros where `v` has fewer digits.
pub open spec fn hex_digits(v: u32, n: nat) -> Seq<u8>
    decreases n,
{
    if n == 0 {
        Seq::empty()
    } else {
        hex_digits(v / 16, (n - 1) as nat).push(hex_digit(v % 16))
    }
}

/// `v` divided by 16, `m` times.
pub open spec fn shr_nibbles(v: u32, m: nat) -> u32
    decreases m,
{
    if m == 0 {
        v
    } else {
        shr_nibbles(v, (m - 1) as nat) / 16
    }
}

proof fn lemma_shr_nibbles_shift(v: u32, m: nat)
    ensures
        shr_nibbles(v / 16, m) == shr_nibbles(v, m + 1),
    decreases m,
{
    assert(shr_nibbles(v, m + 1) == shr_nibbles(v, m) / 16);
    if m > 0 {
        lemma_shr_nibbles_shift(v, (m - 1) as nat);
        assert(shr_nibbles(v / 16, m) == shr_nibbles(v / 16, (m - 1) as nat) / 16);
    } else {
        assert(shr_nibbles(v, 0) == v);
    }
}

/// One more leading digit: the digits of `v` in `m + 1` places are the digit
/// of `v` in place `m` followed by the digits in `m` places.
proof fn lemma_hex_digits_front(v: u32, m: nat)
    ensures
        hex_digits(v, m + 1) == seq![hex_digit(shr_nibbles(v, m) % 16)] + hex_digits(v, m),
    decreases m,
{
    if m == 0 {
        assert(hex_digits(v / 16, 0) == Seq::<u8>::empty());
        assert(hex_digits(v, 1) =~= seq![hex_digit(v % 16)]);
        assert(hex_digits(v, 0) == Seq::<u8>::empty());
        assert(seq![hex_digit(v % 16)] + Seq::<u8>::empty() =~= seq![hex_digit(v % 16)]);
    } else {
        lemma_hex_digits_front(v / 16, (m - 1) as nat);
        lemma_shr_nibbles_shift(v, (m - 1) as nat);
        let x = hex_digit(shr_nibbles(v, m) % 16);
        let y = hex_digit(v % 16);
        assert(hex_digits(v, m + 1) == hex_digits(v / 16, m).push(y));
        assert(hex_digits(v / 16, m) == seq![x] + hex_digits(v / 16, (m - 1) as nat));
        assert(hex_digits(v, m) == hex_digits(v / 16, (m - 1) as nat).push(y));
        assert((seq![x] + hex_digits(v / 16, (m - 1) as nat)).push(y) =~= seq![x] + hex_digits(
            v / 16,
            (m - 1) as nat,
        ).push(y));
    }
}

/// The value of the hexadecimal digit `c` (zero for any other byte).
pub open spec fn hex_digit_value(c: u8) -> nat {
    if 48 <= c <= 57 {
        (c - 48) as nat
    } else if 97 <= c <= 102 {
        (c - 87) as nat
    } else {
        0
    }
}

/// The number that the hexadecimal digits `s` write, most significant first.
pub open spec fn hex_value(s: Seq<u8>) -> nat
    decreases s.len(),
{
    if s.len() == 0 {
        0
    } else {
        hex_value(s.drop_last()) * 16 + hex_digit_value(s.last())
    }
}

spec fn pow16(n: nat) -> nat
    decreases n,
{
    if n == 0 {
        1
    } else {
        16 * pow16((n - 1) as nat)
    }
}

proof fn lemma_hex_value_digits(v: u32, n: nat)
    ensures
        hex_value(hex_digits(v, n)) + pow16(n) * shr_nibbles(v, n) == v,
    decreases n,
{
    if n > 0 {
        let m = (n - 1) as nat;
        lemma_hex_value_digits(v / 16, m);
        lemma_shr_nibbles_shift(v, m);
        let s = hex_digits(v, n);
        assert(s == hex_digits(v / 16, m).push(hex_digit(v % 16)));
        assert(s.drop_last() =~= hex_digits(v / 16, m));
        assert(hex_digit_value(hex_digit(v % 16)) == v % 16);
        let hv = hex_value(hex_digits(v / 16, m));
        let p = pow16(m);
        let sh = shr_nibbles(v, n);
        assert(hv + p * sh == v / 16);
        assert(hv * 16 + (16 * p) * sh == 16 * (v / 16)) by (nonlinear_arith)
            requires
                hv + p * sh == v / 16,
        ;
        assert(s.last() == hex_digit(v % 16));
        assert(hex_value(s) == hv * 16 + v % 16);
        assert(pow16(n) == 16 * p);
        assert(v == 16 * (v / 16) + v % 16);
        let hs = hex_value(s);
        let pn = pow16(n);
        let vi = v as int;
        assert(hs + pn * sh == vi) by (nonlinear_arith)
            requires
                hv * 16 + (16 * p) * sh == 16 * (vi / 16),
                hs == hv * 16 + vi % 16,
                pn == 16 * p,
                vi == 16 * (vi / 16) + vi % 16,
        ;
    } else {
        assert(hex_digits(v, 0) == Seq::<u8>::empty());
        assert(hex_value(Seq::<u8>::empty()) == 0);
        assert(pow16(0) == 1);
        assert(shr_nibbles(v, 0) == v);
        assert(pow16(0) * shr_nibbles(v, 0) == v);
    }
}

/// Reading back eight hexadecimal digits of a 32-bit value gives the value.
pub proof fn lemma_hex_roundtrip(v: u32)
    ensures
        hex_value(hex_digits(v, 8)) == v,
{
    lemma_hex_value_digits(v, 8);
    assert(shr_nibbles(v, 0) == v);
    assert(shr_nibbles(v, 1) < 0x1000_0000);
    assert(shr_nibbles(v, 2) < 0x100_0000);
    assert(shr_nibbles(v, 3) < 0x10_0000);
    assert(shr_nibbles(v, 4) < 0x1_0000);
    assert(shr_nibbles(v, 5) < 0x1000);
    assert(shr_nibbles(v, 6) < 0x100);
    assert(shr_nibbles(v, 7) < 0x10);
    assert(shr_nibbles(v, 8) == 0);
}

/// Fills `buf` with `fill_byte`.
pub fn fill_buf(buf: &mut [u8], fill_byte: u8)
    ensures
        final(buf)@ == Seq::new(old(buf)@.len(), |i: int| fill_byte),
{
    let n = buf.len();
    let mut i: usize = 0;
    while i < n
        invariant
            n == buf@.len(),
            n == old(buf)@.len(),
            i <= n,
            forall|j: int| 0 <= j < i ==> buf@[j] == fill_byte,
        decreases n - i,
    {
        buf[i] = fill_byte;
        i = i + 1;
    }
    assert(buf@ =~= Seq::new(old(buf)@.len(), |i: int| fill_byte));
}

/// Writes `num` into `buf` in lower-case hexadecimal, right-aligned: the last
/// byte gets the lowest digit, and places beyond the digits of `num` get '0'
/// (digits that do not fit are dropped). Gives `false`, and leaves `buf` as it
/// is, when `buf` is empty.
pub fn format_hex_into(buf: &mut [u8], num: u32) -> (ok: bool)
    ensures
        ok == (old(buf)@.len() > 0),
        ok ==> final(buf)@ == hex_digits(num, old(buf)@.len()),
        !ok ==> final(buf)@ == old(buf)@,
{
    if buf.len() < 1 {
        return false;
    }
    let n = buf.len();
    let mut i: usize = n;
    let mut v: u32 = num;
    assert(hex_digits(num, 0) == Seq::<u8>::empty());
    assert(buf@.subrange(n as int, n as int) =~= Seq::<u8>::empty());
    while i > 0
        invariant
            n == buf@.len(),
            i <= n,
            v == shr_nibbles(num, (n - i) as nat),
            buf@.subrange(i as int, n as int) == hex_digits(num, (n - i) as nat),
        decreases i,
    {
        let ghost m = (n - i) as nat;
        i = i - 1;
        let d = v & 0x0f;
        assert(d == v % 16 && d < 16) by (bit_vector)
            requires
                d == v & 0x0f,
        ;
        let ch = HEX_DIGITS[d as usize];
        assert(ch == hex_digit(d));
        let ghost before = buf@;
        buf[i] = ch;
        proof {
            lemma_hex_digits_front(num, m);
            assert(buf@.subrange(i as int, n as int) =~= seq![ch] + before.subrange(i + 1, n as int));
        }
        let nv = v >> 4;
        assert(nv == v / 16) by (bit_vector)
            requires
                nv == v >> 4u32,
        ;
        v = nv;
    }
    assert(buf@ =~= buf@.subrange(0, n as int));
    true
}

/// The bytes that echoing the received byte `c` sends: a carriage return is
/// answered with a carriage return and a line feed, any other byte with itself.
pub open spec fn echo_bytes(c: u8) -> Seq<u8> {
    if c == 13 {
        "\r\n".spec_bytes()
    } else {
        seq![c]
    }
}

/// Echoes the received byte `c`.
pub fn echo_byte(uart: &mut Uart, c: u8)
    requires
        old(uart).wf(),
        old(uart).regs.can_send(echo_bytes(c).len()),
    ensures
        final(uart).wf(),
        Uart::bytes_sent(*old(uart), *final(uart), echo_bytes(c)),
{
    if c == 13 {  // carriage return
        uart.send_str("\r\n");
    } else {
        uart.send(c);
    }
}

/// Receives a byte and echoes it (see `echo_bytes`); gives the byte. The
/// transmitter is waited on from where the wait for the received byte left the
/// line status.
pub fn echo_once(uart: &mut Uart) -> (c: u8)
    requires
        old(uart).wf(),
        old(uart).regs.can_recv_n(1),
        waits(
            (old(uart).regs.lsr_after(0, 1)->0).0,
            (old(uart).regs.lsr_after(0, 1)->0).1,
            5,
            echo_bytes(old(uart).regs.incoming(1)[0]).len(),
        ) is Some,
    ensures
        c == old(uart).regs.incoming(1)[0],
        exists|mid: Uart| Uart::bytes_received(*old(uart), mid, 1) && #[trigger] Uart::bytes_sent(mid, *final(uart), echo_bytes(c)),
        final(uart).wf(),
        final(uart).base == old(uart).base,
        final(uart).trace() == old(uart).trace() + sent(old(uart).base, echo_bytes(c)),
        final(uart).regs.io.feed() == feed_after_read(old(uart).regs.io.feed()),
        final(uart).regs.lsr_is(
            waits(
                (old(uart).regs.lsr_after(0, 1)->0).0,
                (old(uart).regs.lsr_after(0, 1)->0).1,
                5,
                echo_bytes(c).len(),
            )->0,
        ),
{
    let ghost u0 = *uart;
    proof {
        assert(waits(u0.regs.lsr.value(), u0.regs.lsr.feed(), 0, 1) is Some);
        let st = wait_for(u0.regs.lsr.value(), u0.regs.lsr.feed(), 0)->0;
        assert(waits(st.0, st.1, 0, 0) == Some(st));
    }
    let c = uart.recv();
    let ghost mid = *uart;
    proof {
        let st = wait_for(u0.regs.lsr.value(), u0.regs.lsr.feed(), 0)->0;
        assert(waits(st.0, st.1, 0, 0) == Some(st));
        assert(u0.regs.lsr_after(0, 1) == Some(st));
        assert(io_after(u0.regs.io.value(), u0.regs.io.feed(), 0) == (u0.regs.io.value(), u0.regs.io.feed()));
        assert(received(u0.regs.io.value(), u0.regs.io.feed(), 0) =~= Seq::<u8>::empty());
        assert(u0.regs.incoming(1)[0] == c);
        assert(Uart::bytes_received(u0, mid, 1));
    }
    echo_byte(uart, c);
    c
}

/// What echoing each byte of `bytes` in turn sends.
pub open spec fn echo_text(bytes: Seq<u8>) -> Seq<u8>
    decreases bytes.len(),
{
    if bytes.len() == 0 {
        Seq::empty()
    } else {
        echo_text(bytes.drop_last()) + echo_bytes(bytes.last())
    }
}

/// Whether `n` rounds of the echo loop end, when the line status holds
/// `value` with the device to present `feed`, and `input` is what the device
/// will present at the data register: in each round a byte arrives (the next
/// of `input`), and the transmitter then becomes free once per byte of its
/// echo.
pub open spec fn echo_live(value: u32, feed: Seq<u32>, input: Seq<u32>, n: nat) -> bool
    decreases n,
{
    if n == 0 {
        true
    } else {
        match wait_for(value, feed, 0) {
            Some(r) => input.len() > 0 && match waits(r.0, r.1, 5, echo_bytes(input[0] as u8).len()) {
                Some(t) => echo_live(t.0, t.1, input.drop_first(), (n - 1) as nat),
                None => false,
            },
            None => false,
        }
    }
}

/// The low bytes of `vals`.
pub open spec fn low_bytes(vals: Seq<u32>) -> Seq<u8> {
    vals.map_values(|v: u32| v as u8)
}

/// Runs `n` rounds of the echo loop: each receives a byte and echoes it (see
/// `echo_once`); gives the bytes received. What is sent is exactly the echo
/// of each received byte, in the order received.
pub fn echo_rounds(uart: &mut Uart, n: u32) -> (got: Vec<u8>)
    requires
        old(uart).wf(),
        echo_live(old(uart).regs.lsr.value(), old(uart).regs.lsr.feed(), old(uart).regs.io.feed(), n as nat),
    ensures
        final(uart).wf(),
        final(uart).base == old(uart).base,
        got@ == low_bytes(old(uart).regs.io.feed().take(n as int)),
        final(uart).trace() == old(uart).trace() + sent(old(uart).base, echo_text(got@)),
{
    let ghost u0 = *uart;
    let mut got: Vec<u8> = Vec::new();
    let mut k: u32 = 0;
    proof {
        assert(u0.trace() + sent(u0.base, Seq::<u8>::empty()) =~= u0.trace());
        assert(low_bytes(u0.regs.io.feed().take(0)) =~= Seq::<u8>::empty());
    }
    while k < n
        invariant
            k <= n,
            uart.wf(),
            uart.base == u0.base,
            echo_live(uart.regs.lsr.value(), uart.regs.lsr.feed(), uart.regs.io.feed(), (n - k) as nat),
            k <= u0.regs.io.feed().len(),
            uart.regs.io.feed() == u0.regs.io.feed().skip(k as int),
            got@ == low_bytes(u0.regs.io.feed().take(k as int)),
            uart.trace() == u0.trace() + sent(u0.base, echo_text(got@)),
        decreases n - k,
    {
        let ghost before = *uart;
        let ghost input = before.regs.io.feed();
        proof {
            let r = wait_for(before.regs.lsr.value(), before.regs.lsr.feed(), 0)->0;
            assert(waits(r.0, r.1, 0, 0) == Some(r));
            assert(before.regs.lsr_after(0, 1) == Some(r));
            assert(input.len() > 0);
            assert(io_after(before.regs.io.value(), input, 0) == (before.regs.io.value(), input));
            assert(received(before.regs.io.value(), input, 0) =~= Seq::<u8>::empty());
            assert(before.regs.incoming(1)[0] == input[0] as u8);
        }
        let c = echo_once(uart);
        got.push(c);
        proof {
            let full = u0.regs.io.feed();
            assert(input[0] == full[k as int]);
            assert(full.take(k + 1) =~= full.take(k as int).push(full[k as int]));
            assert(low_bytes(full.take(k + 1)) =~= low_bytes(full.take(k as int)).push(full[k as int] as u8));
            assert(uart.regs.io.feed() =~= full.skip(k + 1));
            assert(got@.drop_last() =~= low_bytes(full.take(k as int)));
            assert(echo_text(got@) == echo_text(got@.drop_last()) + echo_bytes(c));
            assert(sent(u0.base, echo_text(got@)) =~= sent(u0.base, echo_text(got@.drop_last())) + sent(u0.base, echo_bytes(c)));
            assert(uart.trace() =~= u0.trace() + sent(u0.base, echo_text(got@)));
        }
        k = k + 1;
    }
    got
}

/// The codes the kernel shows when it starts.
pub open spec fn boot_codes() -> Seq<u32> {
    seq![0b1111, 0b1110, 0b1100, 0b1000, 0b0000]
}

/// Shows the kernel's start-up pattern on the LEDs, 100 ms per code.
pub fn boot_signal(gpio: &mut GPIO)
    requires
        old(gpio).wf(),
    ensures
        final(gpio).wf(),
        leds_shown(*old(gpio), *final(gpio), show_events(old(gpio).base, boot_codes(), 600000)),
{
    let codes: [u32; 5] = [0b1111, 0b1110, 0b1100, 0b1000, 0b0000];
    assert(codes@ =~= boot_codes());
    show_codes(gpio, codes.as_slice(), 100);
}

/// Each value of `vals` in eight hexadecimal digits followed by a carriage
/// return and a line feed.
pub open spec fn hex_lines(vals: Seq<u32>) -> Seq<u8>
    decreases vals.len(),
{
    if vals.len() == 0 {
        Seq::empty()
    } else {
        hex_lines(vals.drop_last()) + hex_digits(vals.last(), 8) + "\r\n".spec_bytes()
    }
}

/// Sends `val` in eight hexadecimal digits, then a carriage return and a line
/// feed.
fn send_hex_line(uart: &mut Uart, val: u32)
    requires
        old(uart).wf(),
        old(uart).regs.can_send((hex_digits(val, 8) + "\r\n".spec_bytes()).len()),
    ensures
        final(uart).wf(),
        Uart::bytes_sent(*old(uart), *final(uart), hex_digits(val, 8) + "\r\n".spec_bytes()),
{
    let ghost u0 = *uart;
    let mut fmt_buffer: [u8; 8] = [0, 0, 0, 0, 0, 0, 0, 0];
    format_hex_into(&mut fmt_buffer, val);
    proof {
        lemma_can_send_split(u0.regs, hex_digits(val, 8).len(), "\r\n".spec_bytes().len());
    }
    uart.send_bytes(fmt_buffer.as_slice());
    let ghost u1 = *uart;
    uart.send_str("\r\n");
    proof {
        lemma_bytes_sent_concat(u0, u1, *uart, hex_digits(val, 8), "\r\n".spec_bytes());
    }
}

/// What the kernel sends when it starts: "daif: ", the DAIF field `daif` in
/// eight hexadecimal digits, and a line end.
pub open spec fn start_message(daif: u64) -> Seq<u8> {
    "daif: ".spec_bytes() + (hex_digits(daif as u32, 8) + "\r\n".spec_bytes())
}

/// What the kernel reports when it starts: the LEDs show the exception level
/// `current_el` with the top LED lit, a wait of a second, then the UART sends
/// `start_message`.
pub fn report_start(periph: &mut Peripherial, current_el: u64, daif: u64)
    requires
        old(periph).wf(),
        old(periph).uart.regs.can_send(start_message(daif).len()),
    ensures
        final(periph).wf(),
        final(periph).trace() == old(periph).trace() + led_events(GPIO_BASE, (current_el as u32) | 0b1000, 4)
            + seq![BusEvent::Wait { cycles: 6000000 }] + sent(UART_BASE, start_message(daif)),
        final(periph).aux.regs == old(periph).aux.regs,
        leds_regs(old(periph).gpio.regs, final(periph).gpio.regs, GPIO_BASE, led_events(GPIO_BASE, (current_el as u32) | 0b1000, 4)),
        UartRegs::sent_regs(old(periph).uart.regs, final(periph).uart.regs, start_message(daif)),
{
    let ghost p0 = *periph;
    periph.swap_gpio_bus();
    display_code(&mut periph.gpio, (current_el as u32) | 0b1000);
    periph.gpio.bus.wait_s(1);
    periph.swap_gpio_bus();
    let ghost u0 = periph.uart;
    proof {
        lemma_can_send_split(u0.regs, "daif: ".spec_bytes().len(), (hex_digits(daif as u32, 8) + "\r\n".spec_bytes()).len());
    }
    periph.uart.send_str("daif: ");
    let ghost u1 = periph.uart;
    send_hex_line(&mut periph.uart, daif as u32);
    proof {
        lemma_bytes_sent_concat(u0, u1, periph.uart, "daif: ".spec_bytes(), hex_digits(daif as u32, 8) + "\r\n".spec_bytes());
    }
    proof {
        let code = (current_el as u32) | 0b1000;
        assert(periph.trace() =~= p0.trace() + led_events(GPIO_BASE, code, 4) + seq![BusEvent::Wait { cycles: 6000000 }] + sent(UART_BASE, start_message(daif)));
    }
}

/// The values an exception report lists: the source and kind numbers, the
/// syndrome `esr`, the DAIF field and the exception level.
pub open spec fn exception_values(info: Info, esr: u32, daif: u64, current_el: u64) -> Seq<u32> {
    seq![info.source.spec_code() as u32, info.kind.spec_code() as u32, esr, daif as u32, current_el as u32]
}

/// What the exception handler sends: a greeting, then each value of
/// `exception_values` on a line of its own in eight hexadecimal digits.
pub open spec fn exception_message(info: Info, esr: u32, daif: u64, current_el: u64) -> Seq<u8> {
    "hello from exception handler\r\n".spec_bytes() + hex_lines(exception_values(info, esr, daif, current_el))
}

/// What the exception handler reports: the LEDs show 0b1110, then the UART
/// sends `exception_message`.
pub fn report_exception(periph: &mut Peripherial, info: Info, esr: u32, daif: u64, current_el: u64)
    requires
        old(periph).wf(),
        old(periph).uart.regs.can_send(exception_message(info, esr, daif, current_el).len()),
    ensures
        final(periph).wf(),
        final(periph).trace() == old(periph).trace() + led_events(GPIO_BASE, 0b1110, 4) + sent(
            UART_BASE,
            exception_message(info, esr, daif, current_el),
        ),
        final(periph).aux.regs == old(periph).aux.regs,
        leds_regs(old(periph).gpio.regs, final(periph).gpio.regs, GPIO_BASE, led_events(GPIO_BASE, 0b1110, 4)),
        UartRegs::sent_regs(old(periph).uart.regs, final(periph).uart.regs, exception_message(info, esr, daif, current_el)),
{
    let ghost p0 = *periph;
    periph.swap_gpio_bus();
    display_code(&mut periph.gpio, 0b1110);
    periph.swap_gpio_bus();
    let ghost u0 = periph.uart;
    let ghost greeting = "hello from exception handler\r\n".spec_bytes();
    let ghost all = exception_values(info, esr, daif, current_el);
    proof {
        lemma_can_send_split(u0.regs, greeting.len(), hex_lines(all).len());
    }
    periph.uart.send_str("hello from exception handler\r\n");
    let vals: [u32; 5] = [info.source.code() as u32, info.kind.code() as u32, esr, daif as u32, current_el as u32];
    assert(vals@ =~= all);
    let ghost u1 = periph.uart;
    let ghost g1 = periph.gpio;
    let ghost a1 = periph.aux;
    let ghost c = "\r\n".spec_bytes().len();
    let ghost line_len: nat = 8 + c;
    proof {
        lemma_hex_lines_len(all);
        assert(hex_lines(all).len() == 5 * line_len);
        lemma_can_send_after(u0, u1, greeting, greeting.len() + hex_lines(all).len());
        assert(all.take(0) =~= Seq::<u32>::empty());
        assert(greeting + hex_lines(Seq::<u32>::empty()) =~= greeting);
    }
    let mut k: usize = 0;
    while k < 5
        invariant
            k <= 5,
            vals@ == all,
            all == exception_values(info, esr, daif, current_el),
            greeting == "hello from exception handler\r\n".spec_bytes(),
            c == "\r\n".spec_bytes().len(),
            line_len == 8 + c,
            periph.gpio == g1,
            periph.aux == a1,
            periph.uart.wf(),
            periph.uart.base == UART_BASE,
            Uart::bytes_sent(u0, periph.uart, greeting + hex_lines(all.take(k as int))),
            periph.uart.regs.can_send(((5 - k) * line_len) as nat),
        decreases 5 - k,
    {
        let ghost before = periph.uart;
        let ghost line = hex_digits(vals@[k as int], 8) + "\r\n".spec_bytes();
        proof {
            lemma_hex_digits_len(vals@[k as int], 8);
            assert(line.len() == line_len);
            assert((5 - k) * line_len == line_len + (4 - k) * line_len) by (nonlinear_arith)
                requires
                    k < 5,
            ;
            lemma_can_send_split(before.regs, line_len, ((4 - k) * line_len) as nat);
        }
        send_hex_line(&mut periph.uart, vals[k]);
        proof {
            let pre = all.take(k as int);
            let post = all.take(k + 1);
            assert(post.drop_last() =~= pre);
            assert(post.last() == vals@[k as int]);
            assert(hex_lines(post) == hex_lines(pre) + hex_digits(vals@[k as int], 8) + "\r\n".spec_bytes());
            lemma_bytes_sent_concat(u0, before, periph.uart, greeting + hex_lines(pre), line);
            assert(greeting + hex_lines(pre) + line =~= greeting + hex_lines(post));
            lemma_can_send_after(before, periph.uart, line, ((5 - k) * line_len) as nat);
            assert(((5 - k) * line_len) as nat - line.len() == ((4 - k) * line_len) as nat);
        }
        k = k + 1;
    }
    proof {
        assert(all.take(5) =~= all);
    }
    proof {
        assert(periph.trace() =~= p0.trace() + led_events(GPIO_BASE, 0b1110, 4) + sent(UART_BASE, exception_message(info, esr, daif, current_el)));
    }
}

proof fn lemma_hex_digits_len(v: u32, n: nat)
    ensures
        hex_digits(v, n).len() == n,
    decreases n,
{
    if n > 0 {
        lemma_hex_digits_len(v / 16, (n - 1) as nat);
    }
}

proof fn lemma_hex_lines_len(vals: Seq<u32>)
    ensures
        hex_lines(vals).len() == vals.len() * (8 + "\r\n".spec_bytes().len()),
    decreases vals.len(),
{
    if vals.len() > 0 {
        lemma_hex_lines_len(vals.drop_last());
        lemma_hex_digits_len(vals.last(), 8);
        let c = "\r\n".spec_bytes().len();
        assert(vals.len() * (8 + c) == (vals.len() - 1) * (8 + c) + (8 + c)) by (nonlinear_arith)
            requires
                vals.len() > 0,
        ;
    }
}

/// What the kernel shows when it panics: every LED lit.
pub fn panic_signal(gpio: &mut GPIO)
    requires
        old(gpio).wf(),
    ensures
        final(gpio).wf(),
        leds_shown(*old(gpio), *final(gpio), led_events(old(gpio).base, MAX_CODE, 4)),
{
    display_code(gpio, MAX_CODE);
}

} // verus!

verus! {

/// The bytes of a line end.
proof fn lemma_crlf_bytes()
    ensures
        "\r\n".spec_bytes() == seq![13u8, 10u8],
{
    reveal_strlit("\r\n");
    let s = "\r\n";
    assert(vstd::string::is_ascii(s));
    vstd::string::is_ascii_spec_bytes(s);
    assert(s.spec_bytes() =~= seq![13u8, 10u8]);
}

/// The bytes of the start message's head.
proof fn lemma_daif_head_bytes()
    ensures
        "daif: ".spec_bytes() == seq![100u8, 97u8, 105u8, 102u8, 58u8, 32u8],
{
    reveal_strlit("daif: ");
    let s = "daif: ";
    assert(vstd::string::is_ascii(s));
    vstd::string::is_ascii_spec_bytes(s);
    assert(s.spec_bytes() =~= seq![100u8, 97u8, 105u8, 102u8, 58u8, 32u8]);
}

/// The greeting of the exception report is 30 bytes long.
proof fn lemma_greeting_len()
    ensures
        "hello from exception handler\r\n".spec_bytes().len() == 30,
{
    reveal_strlit("hello from exception handler\r\n");
    let s = "hello from exception handler\r\n";
    assert(vstd::string::is_ascii(s));
    vstd::string::is_ascii_spec_bytes(s);
}

/// Line `i` of `hex_lines(vals)` holds the eight digits of `vals[i]`, at bytes
/// `10 * i` to `10 * i + 7`, followed by a carriage return and a line feed.
proof fn lemma_hex_lines_line(vals: Seq<u32>, i: int)
    requires
        0 <= i < vals.len(),
    ensures
        hex_lines(vals).len() == 10 * vals.len(),
        hex_lines(vals).subrange(10 * i, 10 * i + 8) == hex_digits(vals[i], 8),
        hex_lines(vals).subrange(10 * i + 8, 10 * i + 10) == seq![13u8, 10u8],
    decreases vals.len(),
{
    lemma_crlf_bytes();
    let crlf = "\r\n".spec_bytes();
    lemma_hex_lines_len(vals);
    let n = vals.len();
    let prev = vals.drop_last();
    lemma_hex_lines_len(prev);
    lemma_hex_digits_len(vals.last(), 8);
    let h = hex_lines(vals);
    let hp = hex_lines(prev);
    assert(h == hp + hex_digits(vals.last(), 8) + crlf);
    assert(prev.len() == n - 1);
    assert(crlf.len() == 2);
    assert(hp.len() == prev.len() * (8 + crlf.len()));
    assert(prev.len() * (8 + crlf.len()) == prev.len() * 10);
    assert(hp.len() == 10 * (n - 1)) by (nonlinear_arith)
        requires
            hp.len() == prev.len() * 10,
            prev.len() == n - 1,
    ;
    if i == n - 1 {
        assert(h.subrange(10 * i, 10 * i + 8) =~= hex_digits(vals.last(), 8));
        assert(h.subrange(10 * i + 8, 10 * i + 10) =~= crlf);
    } else {
        lemma_hex_lines_line(prev, i);
        assert(prev[i] == vals[i]);
        assert(h.subrange(10 * i, 10 * i + 8) =~= hp.subrange(10 * i, 10 * i + 8));
        assert(h.subrange(10 * i + 8, 10 * i + 10) =~= hp.subrange(10 * i + 8, 10 * i + 10));
    }
}

proof fn lemma_exception_line(m: Seq<u8>, g: Seq<u8>, h: Seq<u8>, vals: Seq<u32>, i: int)
    requires
        g.len() == 30,
        h == hex_lines(vals),
        m == g + h,
        0 <= i < vals.len(),
    ensures
        m.subrange(30 + 10 * i, 38 + 10 * i) == hex_digits(vals[i], 8),
        m.subrange(38 + 10 * i, 40 + 10 * i) == seq![13u8, 10u8],
{
    lemma_hex_lines_line(vals, i);
    assert(m.subrange(30 + 10 * i, 38 + 10 * i) =~= h.subrange(10 * i, 10 * i + 8));
    assert(m.subrange(38 + 10 * i, 40 + 10 * i) =~= h.subrange(10 * i + 8, 10 * i + 10));
}

/// Echoing a byte: a carriage return (13) is answered with a carriage return
/// and a line feed (10); any other byte `c` with exactly `c`, once.
pub proof fn law_echo(c: u8)
    ensures
        c != 13 ==> echo_bytes(c) == seq![c],
        c == 13 ==> echo_bytes(c) == seq![13u8, 10u8],
{
    lemma_crlf_bytes();
}

/// The start message is "daif: " (six bytes), eight hexadecimal digits that
/// read back to the low 32 bits of `daif`, and a carriage return and line
/// feed.
pub proof fn law_start_message(daif: u64)
    ensures
        start_message(daif).len() == 16,
        start_message(daif).subrange(0, 6) == seq![100u8, 97u8, 105u8, 102u8, 58u8, 32u8],
        hex_value(start_message(daif).subrange(6, 14)) == daif as u32,
        start_message(daif).subrange(14, 16) == seq![13u8, 10u8],
{
    lemma_daif_head_bytes();
    lemma_crlf_bytes();
    let head = "daif: ".spec_bytes();
    let crlf = "\r\n".spec_bytes();
    lemma_hex_digits_len(daif as u32, 8);
    let d = hex_digits(daif as u32, 8);
    let m = start_message(daif);
    assert(m.subrange(0, 6) =~= head);
    assert(m.subrange(6, 14) =~= d);
    assert(m.subrange(14, 16) =~= crlf);
    lemma_hex_roundtrip(daif as u32);
}

/// The exception report is the 30-byte greeting followed by five lines of ten
/// bytes; the eight hexadecimal digits of the lines read back, in order, to the
/// number of the exception's source (0 to 3 in the order of `Source`), the
/// number of its kind (0 to 3 in the order of `Kind`), `esr`, and the low 32
/// bits of `daif` and of `current_el`; each line ends with a carriage return
/// and a line feed.
pub proof fn law_exception_message(info: Info, esr: u32, daif: u64, current_el: u64)
    ensures
        exception_message(info, esr, daif, current_el).len() == 80,
        exception_message(info, esr, daif, current_el).subrange(0, 30) == "hello from exception handler\r\n".spec_bytes(),
        hex_value(exception_message(info, esr, daif, current_el).subrange(30, 38)) == (match info.source {
            Source::CurrentSpEl0 => 0nat,
            Source::CurrentSpElx => 1nat,
            Source::LowerAArch64 => 2nat,
            Source::LowerAArch32 => 3nat,
        }),
        hex_value(exception_message(info, esr, daif, current_el).subrange(40, 48)) == (match info.kind {
            Kind::Synchronous => 0nat,
            Kind::Irq => 1nat,
            Kind::Fiq => 2nat,
            Kind::SError => 3nat,
        }),
        hex_value(exception_message(info, esr, daif, current_el).subrange(50, 58)) == esr,
        hex_value(exception_message(info, esr, daif, current_el).subrange(60, 68)) == daif as u32,
        hex_value(exception_message(info, esr, daif, current_el).subrange(70, 78)) == current_el as u32,
        exception_message(info, esr, daif, current_el).subrange(38, 40) == seq![13u8, 10u8],
        exception_message(info, esr, daif, current_el).subrange(48, 50) == seq![13u8, 10u8],
        exception_message(info, esr, daif, current_el).subrange(58, 60) == seq![13u8, 10u8],
        exception_message(info, esr, daif, current_el).subrange(68, 70) == seq![13u8, 10u8],
        exception_message(info, esr, daif, current_el).subrange(78, 80) == seq![13u8, 10u8],
{
    lemma_greeting_len();
    let g = "hello from exception handler\r\n".spec_bytes();
    let vals = exception_values(info, esr, daif, current_el);
    let h = hex_lines(vals);
    let m = exception_message(info, esr, daif, current_el);
    lemma_hex_lines_line(vals, 0);
    assert(m.subrange(0, 30) =~= g);
    lemma_exception_line(m, g, h, vals, 0);
    lemma_exception_line(m, g, h, vals, 1);
    lemma_exception_line(m, g, h, vals, 2);
    lemma_exception_line(m, g, h, vals, 3);
    lemma_exception_line(m, g, h, vals, 4);
    lemma_hex_roundtrip(vals[0]);
    lemma_hex_roundtrip(vals[1]);
    lemma_hex_roundtrip(vals[2]);
    lemma_hex_roundtrip(vals[3]);
    lemma_hex_roundtrip(vals[4]);
}

} // verus!
