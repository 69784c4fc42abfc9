use vstd::prelude::*;
use crate::{Peripherial, AUX_BASE, GPIO_BASE, UART_BASE};
use crate::aux::enables_off;
use crate::gpio::{gpfsel_off, pin_mask, pull_events, with_field3, GPIOFunc, GPIOMiniUartRxPin, GPIOMiniUartTxPin, GPIOPullState, GPIO};
use crate::gpio_leds::{display_code, led_events, leds_regs, leds_shown, lemma_leds_shown_step, show_codes, show_events};
use crate::uart::{cntl_off, io_after, lemma_received_split, lemma_waits_split, received, sent, setup_events, wait_for, waits, Uart, UartRegs};
use crate::uart_command::{
    Command, CommandError, Reply, UartCommand, UartReply, COMMAND_MAGIC, FRAME_LEN, command_frame, command_of, frame_head, lemma_command_roundtrip,
    lemma_reply_frame_shape, lemma_reply_roundtrip, reply_frame, reply_of, REPLY_MAGIC,
};
use crate::utils::{
    bit, feed_after_read, lemma_writes_to_concat, lemma_writes_to_pushes, next_read, write_addr, write_at, write_of, writes_to,
    BusEvent,
};

verus! {

/// What the loader shows on the LEDs while it works.
pub enum LedCode {
    WaitMagic,
    ReadCommand,
    DoCommand,
    Jump,
}

impl LedCode {
    pub open spec fn spec_code(&self) -> u32 {
        match self {
            LedCode::WaitMagic => 0b0001,
            LedCode::ReadCommand => 0b0010,
            LedCode::DoCommand => 0b0100,
            LedCode::Jump => 0b1000,
        }
    }

    /// The code the LEDs show.
    pub fn code(&self) -> (c: u32)
        ensures
            c == self.spec_code(),
    {
        match self {
            LedCode::WaitMagic => 0b0001,
            LedCode::ReadCommand => 0b0010,
            LedCode::DoCommand => 0b0100,
            LedCode::Jump => 0b1000,
        }
    }
}

/// The loader's answer to `cmd` when the loader itself ends at `loader_end`:
/// a write or a jump to an address at or below the loader's end is refused
/// (it would overwrite the loader, or run inside it), any other is accepted.
pub open spec fn spec_command_reply(cmd: Command, loader_end: u32) -> Reply {
    match cmd {
        Command::Write { size, addr } => if addr <= loader_end {
            Reply::Write(Err(CommandError::OverwriteLoader { loader_end }))
        } else {
            Reply::Write(Ok(()))
        },
        Command::Jump { addr } => if addr <= loader_end {
            Reply::Jump(Err(CommandError::JumpInsideLoader { loader_end }))
        } else {
            Reply::Jump(Ok(()))
        },
    }
}

/// The address a command names.
pub open spec fn command_addr(cmd: Command) -> u32 {
    match cmd {
        Command::Write { addr, .. } => addr,
        Command::Jump { addr } => addr,
    }
}

/// Whether `r` accepts the command it answers.
pub open spec fn accepts(r: Reply) -> bool {
    r matches Reply::Write(Ok(_)) || r matches Reply::Jump(Ok(_))
}

/// A command at or below the loader's end is refused with an error that
/// carries the loader's end it was judged against (a write as overwriting the
/// loader, a jump as inside it); any other is accepted; the reply answers the
/// kind of command asked.
pub proof fn law_command_reply(cmd: Command, loader_end: u32)
    ensures
        cmd matches Command::Write { addr, .. } && addr <= loader_end ==> spec_command_reply(cmd, loader_end) == Reply::Write(
            Err(CommandError::OverwriteLoader { loader_end: loader_end }),
        ),
        cmd matches Command::Write { addr, .. } && addr > loader_end ==> spec_command_reply(cmd, loader_end) == Reply::Write(Ok(())),
        cmd matches Command::Jump { addr } && addr <= loader_end ==> spec_command_reply(cmd, loader_end) == Reply::Jump(
            Err(CommandError::JumpInsideLoader { loader_end: loader_end }),
        ),
        cmd matches Command::Jump { addr } && addr > loader_end ==> spec_command_reply(cmd, loader_end) == Reply::Jump(Ok(())),
{
}

/// Decides how to answer `cmd` when the loader ends at `loader_end`.
pub fn command_reply(cmd: &Command, loader_end: u32) -> (r: Reply)
    ensures
        r == spec_command_reply(*cmd, loader_end),
        accepts(r) <==> command_addr(*cmd) > loader_end,
        !accepts(r) ==> (r == Reply::Write(Err(CommandError::OverwriteLoader { loader_end: loader_end })) || r == Reply::Jump(
            Err(CommandError::JumpInsideLoader { loader_end: loader_end }),
        )),
        (r is Write) <==> (*cmd is Write),
{
    match cmd {
        Command::Write { size, addr } => {
            if *addr <= loader_end {
                Reply::Write(Err(CommandError::OverwriteLoader { loader_end }))
            } else {
                Reply::Write(Ok(()))
            }
        },
        Command::Jump { addr } => {
            if *addr <= loader_end {
                Reply::Jump(Err(CommandError::JumpInsideLoader { loader_end }))
            } else {
                Reply::Jump(Ok(()))
            }
        },
    }
}

/// A command the host frames reaches the loader as that command, and the
/// loader's reply to it reaches the host as that reply.
pub proof fn lemma_exchange(cmd: Command, loader_end: u32)
    ensures
        command_of(command_frame(cmd)) == Some(cmd),
        reply_of(reply_frame(spec_command_reply(cmd, loader_end))) == Some(spec_command_reply(cmd, loader_end)),
{
    lemma_command_roundtrip(cmd);
    lemma_reply_roundtrip(spec_command_reply(cmd, loader_end));
}

/// Sends the frame of the reply `rp`, waiting for the transmitter before each
/// byte.
pub fn reply(uart: &mut Uart, rp: &UartReply)
    requires
        old(uart).wf(),
        old(uart).regs.can_send(FRAME_LEN as nat),
    ensures
        final(uart).wf(),
        Uart::bytes_sent(*old(uart), *final(uart), frame_head(rp.magic_byte()) + rp.answer().wire()),
{
    proof {
        lemma_reply_frame_shape(rp.answer());
        assert(frame_head(rp.magic_byte()).len() == frame_head(REPLY_MAGIC).len());
    }
    let bytes = rp.byte_view();
    uart.send_bytes(bytes.as_slice());
}

/// What ending the handling of a command with the reply `rp` does on the bus:
/// the reply's frame is sent, and for an accepted jump the jump code is shown
/// on the LEDs after it.
pub open spec fn finish_events(rp: Reply) -> Seq<BusEvent> {
    sent(UART_BASE, reply_frame(rp)) + if rp matches Reply::Jump(Ok(_)) {
        led_events(GPIO_BASE, LedCode::Jump.spec_code(), 4)
    } else {
        Seq::empty()
    }
}

/// Ends the handling of a command once its reply `rp` is known (and, for an
/// accepted write, once the data has been received and stored): sends the
/// reply, then, for an accepted jump, shows the jump code on the LEDs.
pub fn finish_command(periph: &mut Peripherial, rp: Reply)
    requires
        old(periph).wf(),
        old(periph).uart.regs.can_send(FRAME_LEN as nat),
    ensures
        final(periph).wf(),
        final(periph).trace() == old(periph).trace() + finish_events(rp),
        final(periph).aux.regs == old(periph).aux.regs,
        UartRegs::sent_regs(old(periph).uart.regs, final(periph).uart.regs, reply_frame(rp)),
        rp matches Reply::Jump(Ok(_)) ==> leds_regs(
            old(periph).gpio.regs,
            final(periph).gpio.regs,
            GPIO_BASE,
            led_events(GPIO_BASE, LedCode::Jump.spec_code(), 4),
        ),
        !(rp matches Reply::Jump(Ok(_))) ==> final(periph).gpio.regs == old(periph).gpio.regs,
{
    let ghost p0 = *periph;
    let msg = UartReply::new(rp);
    reply(&mut periph.uart, &msg);
    let ghost p1 = *periph;
    match rp {
        Reply::Jump(Ok(_)) => {
            periph.swap_gpio_bus();
            display_code(&mut periph.gpio, LedCode::Jump.code());
            periph.swap_gpio_bus();
            assert(periph.trace() =~= p0.trace() + finish_events(rp));
        },
        _ => {
            assert(periph.trace() =~= p0.trace() + finish_events(rp));
        },
    }
}

/// Gathers the bytes of a command frame as the loader receives them: a byte
/// that is not the command magic is dropped while no frame has begun; once a
/// frame has begun, bytes are kept until there are 16 of them, which are then
/// decoded.
pub struct CommandReceiver {
    buf: Vec<u8>,
}

impl CommandReceiver {
    /// The bytes of the frame received so far.
    pub closed spec fn pending(self) -> Seq<u8> {
        self.buf@
    }

    /// A receiver waiting for the first byte of a frame.
    pub fn new() -> (r: CommandReceiver)
        ensures
            r.pending() == Seq::<u8>::empty(),
    {
        CommandReceiver { buf: Vec::new() }
    }

    /// What the LEDs show while the receiver waits for its next byte: the
    /// wait for the magic before a frame has begun, the reading of the command
    /// after.
    pub fn led_code(&self) -> (c: u32)
        ensures
            c == if self.pending().len() == 0 {
                LedCode::WaitMagic.spec_code()
            } else {
                LedCode::ReadCommand.spec_code()
            },
    {
        if self.buf.len() == 0 {
            LedCode::WaitMagic.code()
        } else {
            LedCode::ReadCommand.code()
        }
    }

    /// Takes the next received byte `b`; gives the command when `b` completes
    /// a frame that decodes to one (see `command_of`).
    pub fn push_byte(&mut self, b: u8) -> (r: Option<UartCommand>)
        requires
            old(self).pending().len() < FRAME_LEN,
        ensures
            final(self).pending().len() < FRAME_LEN,
            old(self).pending().len() == 0 && b != COMMAND_MAGIC ==> final(self).pending() == Seq::<u8>::empty() && r is None,
            (old(self).pending().len() > 0 || b == COMMAND_MAGIC) && old(self).pending().len() + 1 < FRAME_LEN
                ==> final(self).pending() == old(self).pending().push(b) && r is None,
            (old(self).pending().len() > 0 || b == COMMAND_MAGIC) && old(self).pending().len() + 1 == FRAME_LEN ==> {
                &&& final(self).pending() == Seq::<u8>::empty()
                &&& match r {
                    Some(c) => command_of(old(self).pending().push(b)) == Some(c.command()),
                    None => command_of(old(self).pending().push(b)) is None,
                }
            },
    {
        if self.buf.len() == 0 && !UartCommand::magic_match(b) {
            return None;
        }
        self.buf.push(b);
        if self.buf.len() < FRAME_LEN {
            return None;
        }
        let cmd = UartCommand::from_bytes(self.buf.as_slice());
        self.buf = Vec::new();
        cmd
    }
}

/// Receives `n` bytes, waiting for each; gives them oldest first.
pub fn receive_payload(uart: &mut Uart, n: u32) -> (data: Vec<u8>)
    requires
        old(uart).regs.can_recv_n(n as nat),
    ensures
        data@ == old(uart).regs.incoming(n as nat),
        data@.len() == n,
        final(uart).bus == old(uart).bus,
        Uart::bytes_received(*old(uart), *final(uart), n as nat),
{
    let ghost u0 = *uart;
    let ghost v0 = u0.regs.io.value();
    let ghost f0 = u0.regs.io.feed();
    let mut data: Vec<u8> = Vec::new();
    let mut k: u32 = 0;
    while k < n
        invariant
            k <= n,
            data@ == received(v0, f0, k as nat),
            data@.len() == k,
            (uart.regs.io.value(), uart.regs.io.feed()) == io_after(v0, f0, k as nat),
            waits(uart.regs.lsr.value(), uart.regs.lsr.feed(), 0, (n - k) as nat) == u0.regs.lsr_after(0, n as nat),
            u0.regs.lsr_after(0, n as nat) is Some,
            uart.base == u0.base,
            uart.bus == u0.bus,
            uart.regs == (UartRegs { io: uart.regs.io, lsr: uart.regs.lsr, ..u0.regs }),
            uart.regs.io.addr() == u0.regs.io.addr() && uart.regs.lsr.addr() == u0.regs.lsr.addr(),
            uart.regs.io.writes() == u0.regs.io.writes(),
        decreases n - k,
    {
        let ghost before = *uart;
        proof {
            assert(waits(before.regs.lsr.value(), before.regs.lsr.feed(), 0, (n - k) as nat) is Some);
            let st = wait_for(before.regs.lsr.value(), before.regs.lsr.feed(), 0)->0;
            assert(waits(st.0, st.1, 0, 0) == Some(st));
            assert(before.regs.can_recv());
        }
        let c = uart.recv();
        data.push(c);
        proof {
            let st = wait_for(before.regs.lsr.value(), before.regs.lsr.feed(), 0)->0;
            assert(waits(st.0, st.1, 0, 0) == Some(st));
            assert(uart.regs.lsr_is(st));
            assert(((n - k) as nat - 1) as nat == (n - (k + 1)) as nat);
        }
        k = k + 1;
    }
    proof {
        assert(waits(uart.regs.lsr.value(), uart.regs.lsr.feed(), 0, 0) == Some((uart.regs.lsr.value(), uart.regs.lsr.feed())));
    }
    data
}

/// How many data bytes follow `cmd` and are received when the loader ends at
/// `loader_end`: the size of an accepted write, none otherwise.
pub open spec fn payload_len(cmd: Command, loader_end: u32) -> nat {
    match cmd {
        Command::Write { size, addr } => if addr > loader_end {
            size as nat
        } else {
            0
        },
        Command::Jump { .. } => 0,
    }
}

/// Starts the handling of `cmd` when the loader ends at `loader_end`: decides
/// the reply (see `spec_command_reply`) and, for an accepted write, receives
/// the data that follow the command. Nothing is sent; `finish_command` sends
/// the reply once the data are stored.
pub fn begin_command(uart: &mut Uart, cmd: &Command, loader_end: u32) -> (res: (Reply, Vec<u8>))
    requires
        old(uart).regs.can_recv_n(payload_len(*cmd, loader_end)),
    ensures
        res.0 == spec_command_reply(*cmd, loader_end),
        res.1@ == old(uart).regs.incoming(payload_len(*cmd, loader_end)),
        final(uart).bus == old(uart).bus,
        Uart::bytes_received(*old(uart), *final(uart), payload_len(*cmd, loader_end)),
{
    let rp = command_reply(cmd, loader_end);
    match (cmd, rp) {
        (Command::Write { size, .. }, Reply::Write(Ok(_))) => {
            let data = receive_payload(uart, *size);
            (rp, data)
        },
        _ => {
            proof {
                assert(waits(uart.regs.lsr.value(), uart.regs.lsr.feed(), 0, 0) == Some((uart.regs.lsr.value(), uart.regs.lsr.feed())));
                assert(uart.regs.incoming(0) =~= Seq::<u8>::empty());
            }
            (rp, Vec::new())
        },
    }
}

/// The codes the loader shows when it starts.
pub open spec fn boot_codes() -> Seq<u32> {
    seq![0b1000, 0b0100, 0b0010, 0b0001, 0b0000]
}

/// Shows the loader's start-up pattern on the LEDs, 500 ms per code.
pub fn boot_signal(gpio: &mut GPIO)
    requires
        old(gpio).wf(),
    ensures
        final(gpio).wf(),
        leds_shown(*old(gpio), *final(gpio), show_events(old(gpio).base, boot_codes(), 3000000)),
{
    let codes: [u32; 5] = [0b1000, 0b0100, 0b0010, 0b0001, 0b0000];
    assert(codes@ =~= boot_codes());
    show_codes(gpio, codes.as_slice(), 500);
}

/// The values written to the function-select register of pins 10 to 19 when
/// pin 14 and then pin 15 are given to the mini UART, the register holding
/// `value`: each write is what the register holds with the pin's three bits
/// replaced by the Alt5 code.
pub open spec fn uart_pins_fsel(value: u32) -> (u32, u32) {
    let f14 = with_field3(value, 12, GPIOFunc::Alt5.spec_code());
    let f15 = with_field3(f14, 15, GPIOFunc::Alt5.spec_code());
    (f14, f15)
}

/// What setting the mini UART up does on the bus, in order, starting from the
/// peripherals `p`: the set-up writes, the UART enabled among the auxiliary
/// peripherals, pins 14 and 15 given the Alt5 function, their pulls switched
/// off, and last the transmitter and receiver switched on.
pub open spec fn init_uart_events(p: Peripherial) -> Seq<BusEvent> {
    let fs = uart_pins_fsel(p.gpio.regs.gpfsel[1].value());
    let pins = seq![14u32, 15u32];
    setup_events(UART_BASE) + seq![write_at(AUX_BASE, enables_off(), p.aux.regs.enables.value() | 1)] + seq![
        write_at(GPIO_BASE, gpfsel_off(1), fs.0),
        write_at(GPIO_BASE, gpfsel_off(1), fs.1),
    ] + pull_events(GPIO_BASE, GPIOPullState::Off.spec_code(), pin_mask(pins, 0), pin_mask(pins, 1)) + seq![
        write_at(UART_BASE, cntl_off(), 3),
    ]
}

/// Sets the mini UART up for the loader (see `init_uart_events`).
pub fn init_uart(periph: &mut Peripherial)
    requires
        old(periph).wf(),
    ensures
        final(periph).wf(),
        final(periph).trace() == old(periph).trace() + init_uart_events(*old(periph)),
        // the mini UART
        final(periph).uart.regs == (UartRegs {
            cntl: final(periph).uart.regs.cntl,
            lcr: final(periph).uart.regs.lcr,
            mcr: final(periph).uart.regs.mcr,
            ier: final(periph).uart.regs.ier,
            iir: final(periph).uart.regs.iir,
            baud: final(periph).uart.regs.baud,
            ..old(periph).uart.regs
        }),
        final(periph).uart.regs.cntl.value() == 3,
        final(periph).uart.regs.lcr.value() == 3,
        final(periph).uart.regs.mcr.value() == 0,
        final(periph).uart.regs.ier.value() == 0,
        final(periph).uart.regs.iir.value() == 0xc6,
        final(periph).uart.regs.baud.value() == 270,
        // the auxiliary peripherals
        final(periph).aux.regs.irq == old(periph).aux.regs.irq,
        final(periph).aux.regs.enables.value() == old(periph).aux.regs.enables.value() | 1,
        // the pins
        final(periph).gpio.regs == old(periph).gpio.regs.with_gpfsel(final(periph).gpio.regs.gpfsel).with_pull(
            final(periph).gpio.regs.gppud,
            final(periph).gpio.regs.gppudclk,
        ),
        forall|j: int| 0 <= j < 6 && j != 1 ==> final(periph).gpio.regs.gpfsel[j] == old(periph).gpio.regs.gpfsel[j],
        final(periph).gpio.regs.gpfsel[1].value() == uart_pins_fsel(old(periph).gpio.regs.gpfsel[1].value()).1,
        final(periph).gpio.regs.gppud.value() == 0,
        forall|b: int| 0 <= b < 2 ==> (#[trigger] final(periph).gpio.regs.gppudclk[b]).value() == 0,
        final(periph).gpio.regs.pin_func_is(14, GPIOFunc::Alt5.spec_code()),
        final(periph).gpio.regs.pin_func_is(15, GPIOFunc::Alt5.spec_code()),
        final(periph).gpio.regs.gppud.writes() == old(periph).gpio.regs.gppud.writes() + seq![0u32, 0u32],
        final(periph).gpio.regs.gppudclk[0].writes() == old(periph).gpio.regs.gppudclk[0].writes() + seq![0xC000u32, 0u32],
        final(periph).gpio.regs.gppudclk[1].writes() == old(periph).gpio.regs.gppudclk[1].writes() + seq![0u32, 0u32],
{
    let ghost p0 = *periph;
    periph.uart.write_setup();
    let ghost p1 = *periph;
    periph.swap_aux_bus();
    periph.aux.enable_uart();
    periph.swap_aux_bus();
    let ghost p2 = *periph;
    periph.swap_gpio_bus();
    periph.gpio.set_mini_uart_tx(GPIOMiniUartTxPin::GPIO14);
    let ghost g1 = periph.gpio;
    periph.gpio.set_mini_uart_rx(GPIOMiniUartRxPin::GPIO15);
    let ghost g2 = periph.gpio;
    let pins: [u32; 2] = [14, 15];
    assert(pins@ =~= seq![14u32, 15u32]);
    periph.gpio.set_pull_state(pins.as_slice(), GPIOPullState::Off);
    periph.swap_gpio_bus();
    let ghost p3 = *periph;
    periph.uart.enable_tx_rx();
    proof {
        lemma_uart_pin_masks();
        assert(0u32 | 3u32 == 3u32) by (bit_vector);
        let g3 = p3.gpio;
        assert(g3.regs.gpfsel == g2.regs.gpfsel);
        assert forall|k: u32| k < 3 implies g3.regs.fsel_bit(14, k) == bit(GPIOFunc::Alt5.spec_code(), k) by {
            assert(g1.regs.fsel_bit(14, k) == bit(GPIOFunc::Alt5.spec_code(), k));
            assert(g2.regs.fsel_bit(14, k) == g1.regs.fsel_bit(14, k));
        }
        assert forall|k: u32| k < 3 implies g3.regs.fsel_bit(15, k) == bit(GPIOFunc::Alt5.spec_code(), k) by {
            assert(g2.regs.fsel_bit(15, k) == bit(GPIOFunc::Alt5.spec_code(), k));
        }
        assert(g3.regs == p0.gpio.regs.with_gpfsel(g3.regs.gpfsel).with_pull(g3.regs.gppud, g3.regs.gppudclk));
        assert(periph.trace() =~= p0.trace() + init_uart_events(p0));
    }
}

/// Setting the mini UART up switches the pulls of pins 14 and 15 off: on the
/// bus, the pull-control register GPPUD (0x3F20_0094) gets the Off code 0 and
/// then 0 again, the pull clock of bank 0 (0x3F20_0098) gets the mask of pins
/// 14 and 15 (0xC000) and then 0, and that of bank 1 (0x3F20_009C) gets 0
/// twice.
pub proof fn law_init_uart_pulls(p: Peripherial)
    ensures
        writes_to(init_uart_events(p), 0x3F20_0094u64) == seq![0u32, 0u32],
        writes_to(init_uart_events(p), 0x3F20_0098u64) == seq![0xC000u32, 0u32],
        writes_to(init_uart_events(p), 0x3F20_009Cu64) == seq![0u32, 0u32],
{
    lemma_uart_pin_masks();
    let fs = uart_pins_fsel(p.gpio.regs.gpfsel[1].value());
    let pins = seq![14u32, 15u32];
    let e1 = setup_events(UART_BASE);
    let e2 = seq![write_at(AUX_BASE, enables_off(), p.aux.regs.enables.value() | 1)];
    let e3 = seq![write_at(GPIO_BASE, gpfsel_off(1), fs.0), write_at(GPIO_BASE, gpfsel_off(1), fs.1)];
    let e4 = pull_events(GPIO_BASE, GPIOPullState::Off.spec_code(), 0xC000, 0);
    let e5 = seq![write_at(UART_BASE, cntl_off(), 3)];
    assert(init_uart_events(p) == e1 + e2 + e3 + e4 + e5);
    lemma_writes_to_pushes();
    lemma_uart_init_writes(e1, e2, e3, e4, e5, 0x3F20_0094u64);
    lemma_uart_init_writes(e1, e2, e3, e4, e5, 0x3F20_0098u64);
    lemma_uart_init_writes(e1, e2, e3, e4, e5, 0x3F20_009Cu64);
    assert(writes_to(Seq::<BusEvent>::empty(), 0x3F20_0094u64) == Seq::<u32>::empty());
    assert(writes_to(Seq::<BusEvent>::empty(), 0x3F20_0098u64) == Seq::<u32>::empty());
    assert(writes_to(Seq::<BusEvent>::empty(), 0x3F20_009Cu64) == Seq::<u32>::empty());
    lemma_writes_to_events_seq(e4, 0x3F20_0094u64);
    lemma_writes_to_events_seq(e4, 0x3F20_0098u64);
    lemma_writes_to_events_seq(e4, 0x3F20_009Cu64);
    assert(writes_to(e4, 0x3F20_0094u64) =~= seq![0u32, 0u32]);
    assert(writes_to(e4, 0x3F20_0098u64) =~= seq![0xC000u32, 0u32]);
    assert(writes_to(e4, 0x3F20_009Cu64) =~= seq![0u32, 0u32]);
}

/// The writes to `x` among `events` are, in order, the writes to `x` of
/// each of the events.
proof fn lemma_writes_to_events_seq(events: Seq<BusEvent>, x: u64)
    ensures
        events.len() == 6 ==> writes_to(events, x) == write_of(events[0], x) + write_of(events[1], x) + write_of(events[2], x)
            + write_of(events[3], x) + write_of(events[4], x) + write_of(events[5], x),
        events.len() == 8 ==> writes_to(events, x) == write_of(events[0], x) + write_of(events[1], x) + write_of(events[2], x)
            + write_of(events[3], x) + write_of(events[4], x) + write_of(events[5], x) + write_of(events[6], x) + write_of(
            events[7],
            x,
        ),
{
    lemma_writes_to_prefix(events, x);
    let n = events.len() as int;
    assert(events.take(n) =~= events);
    let w0 = writes_to(events.take(0), x);
    let w1 = writes_to(events.take(1), x);
    let w2 = writes_to(events.take(2), x);
    let w3 = writes_to(events.take(3), x);
    let w4 = writes_to(events.take(4), x);
    let w5 = writes_to(events.take(5), x);
    let w6 = writes_to(events.take(6), x);
    if n == 6 || n == 8 {
        assert(w0 == Seq::<u32>::empty());
        assert(w6 =~= write_of(events[0], x) + write_of(events[1], x) + write_of(events[2], x) + write_of(events[3], x)
            + write_of(events[4], x) + write_of(events[5], x));
    }
    if n == 8 {
        let w7 = writes_to(events.take(7), x);
        let w8 = writes_to(events.take(8), x);
        assert(w8 =~= w6 + write_of(events[6], x) + write_of(events[7], x));
    }
}

/// The writes to `x` among the first events of `events`, one event at a time.
proof fn lemma_writes_to_prefix(events: Seq<BusEvent>, x: u64)
    ensures
        forall|n: int|
            0 <= n <= events.len() ==> #[trigger] writes_to(events.take(n), x) == if n == 0 {
                Seq::<u32>::empty()
            } else {
                writes_to(events.take(n - 1), x) + write_of(events[n - 1], x)
            },
{
    lemma_writes_to_pushes();
    assert forall|n: int| 0 <= n <= events.len() implies #[trigger] writes_to(events.take(n), x) == if n == 0 {
        Seq::<u32>::empty()
    } else {
        writes_to(events.take(n - 1), x) + write_of(events[n - 1], x)
    } by {
        if n > 0 {
            assert(events.take(n) =~= events.take(n - 1).push(events[n - 1]));
        } else {
            assert(writes_to(events.take(0), x) == Seq::<u32>::empty());
        }
    }
}

/// The writes that setting the UART up makes to a register of the GPIO
/// pull block are those of its pull step.
proof fn lemma_uart_init_writes(
    e1: Seq<BusEvent>,
    e2: Seq<BusEvent>,
    e3: Seq<BusEvent>,
    e4: Seq<BusEvent>,
    e5: Seq<BusEvent>,
    x: u64,
)
    requires
        0x3F20_0094 <= x <= 0x3F20_009C,
        e1 == setup_events(UART_BASE),
        e2.len() == 1 && e2[0] is Write && e2[0]->addr == write_addr(AUX_BASE, enables_off()),
        e3.len() == 2 && e3[0] is Write && e3[0]->addr == write_addr(GPIO_BASE, gpfsel_off(1)) && e3[1] is Write && e3[1]->addr
            == write_addr(GPIO_BASE, gpfsel_off(1)),
        e5 == seq![write_at(UART_BASE, cntl_off(), 3)],
    ensures
        writes_to(e1 + e2 + e3 + e4 + e5, x) == writes_to(e4, x),
{
    lemma_writes_to_pushes();
    assert(writes_to(Seq::<BusEvent>::empty(), x) == Seq::<u32>::empty());
    lemma_writes_to_events_seq(e1, x);
    assert(writes_to(e1, x) =~= Seq::<u32>::empty());
    assert(e2 =~= Seq::<BusEvent>::empty().push(e2[0]));
    assert(writes_to(e2, x) =~= Seq::<u32>::empty());
    assert(e3 =~= Seq::<BusEvent>::empty().push(e3[0]).push(e3[1]));
    assert(writes_to(e3, x) =~= Seq::<u32>::empty());
    assert(writes_to(e5, x) =~= Seq::<u32>::empty());
    lemma_writes_to_concat(e1, e2, x);
    lemma_writes_to_concat(e1 + e2, e3, x);
    lemma_writes_to_concat(e1 + e2 + e3, e4, x);
    lemma_writes_to_concat(e1 + e2 + e3 + e4, e5, x);
    assert(Seq::<u32>::empty() + Seq::<u32>::empty() + Seq::<u32>::empty() + writes_to(e4, x) + Seq::<u32>::empty() =~= writes_to(
        e4,
        x,
    ));
}

/// The bank masks of pins 14 and 15.
proof fn lemma_uart_pin_masks()
    ensures
        pin_mask(seq![14u32, 15u32], 0) == 0xC000,
        pin_mask(seq![14u32, 15u32], 1) == 0,
{
    let s = seq![14u32, 15u32];
    let s1 = seq![14u32];
    assert(s.drop_last() =~= s1);
    assert(s1.drop_last() =~= Seq::<u32>::empty());
    assert(pin_mask(Seq::<u32>::empty(), 0) == 0);
    assert(pin_mask(Seq::<u32>::empty(), 1) == 0);
    assert(pin_mask(s1, 0) == 0u32 | (1u32 << 14u32));
    assert(pin_mask(s1, 1) == 0);
    assert(pin_mask(s, 0) == (0u32 | (1u32 << 14u32)) | (1u32 << 15u32));
    assert((0u32 | (1u32 << 14u32)) | (1u32 << 15u32) == 0xC000u32) by (bit_vector);
}

/// What one round of the loader's main loop does on the bus before it handles
/// a command, when the first byte it receives is `first`: the wait-for-magic
/// code is shown; when `first` is the command magic, the read-command code and
/// then the do-command code follow.
pub open spec fn receive_events(first: u8) -> Seq<BusEvent> {
    led_events(GPIO_BASE, LedCode::WaitMagic.spec_code(), 4) + if first == COMMAND_MAGIC {
        led_events(GPIO_BASE, LedCode::ReadCommand.spec_code(), 4) + led_events(GPIO_BASE, LedCode::DoCommand.spec_code(), 4)
    } else {
        Seq::empty()
    }
}

/// How many bytes one round of the main loop receives when the first is
/// `first`: the whole frame when it starts with the command magic, else that
/// byte alone.
pub open spec fn receive_len(first: u8) -> nat {
    if first == COMMAND_MAGIC {
        FRAME_LEN as nat
    } else {
        1
    }
}

/// One round of the loader's main loop up to the command: shows the
/// wait-for-magic code and receives a byte; a byte other than the command
/// magic ends the round with `None`. Otherwise shows the read-command code,
/// receives the other 15 bytes of the frame, shows the do-command code and
/// decodes the frame (see `command_of`).
pub fn receive_command(periph: &mut Peripherial) -> (r: Option<UartCommand>)
    requires
        old(periph).wf(),
        old(periph).uart.regs.can_recv_n(1),
        old(periph).uart.regs.incoming(1)[0] == COMMAND_MAGIC ==> old(periph).uart.regs.can_recv_n(FRAME_LEN as nat),
    ensures
        final(periph).wf(),
        final(periph).trace() == old(periph).trace() + receive_events(old(periph).uart.regs.incoming(1)[0]),
        final(periph).aux.regs == old(periph).aux.regs,
        leds_regs(
            old(periph).gpio.regs,
            final(periph).gpio.regs,
            GPIO_BASE,
            receive_events(old(periph).uart.regs.incoming(1)[0]),
        ),
        Uart::bytes_received(old(periph).uart, final(periph).uart, receive_len(old(periph).uart.regs.incoming(1)[0])),
        old(periph).uart.regs.incoming(1)[0] != COMMAND_MAGIC ==> r is None,
        old(periph).uart.regs.incoming(1)[0] == COMMAND_MAGIC ==> match r {
            Some(c) => command_of(old(periph).uart.regs.incoming(FRAME_LEN as nat)) == Some(c.command()),
            None => command_of(old(periph).uart.regs.incoming(FRAME_LEN as nat)) is None,
        },
{
    let ghost p0 = *periph;
    let ghost first = p0.uart.regs.incoming(1)[0];
    periph.swap_gpio_bus();
    let ghost ga = periph.gpio;
    display_code(&mut periph.gpio, LedCode::WaitMagic.code());
    let ghost gb = periph.gpio;
    periph.swap_gpio_bus();
    let head = receive_payload(&mut periph.uart, 1);
    if !UartCommand::magic_match(head[0]) {
        proof {
            assert(periph.trace() =~= p0.trace() + receive_events(first));
        }
        return None;
    }
    periph.swap_gpio_bus();
    let ghost gc = periph.gpio;
    display_code(&mut periph.gpio, LedCode::ReadCommand.code());
    let ghost gd = periph.gpio;
    periph.swap_gpio_bus();
    proof {
        lemma_waits_split(p0.uart.regs.lsr.value(), p0.uart.regs.lsr.feed(), 0, 1, 15);
        lemma_received_split(p0.uart.regs.io.value(), p0.uart.regs.io.feed(), 1, 15);
    }
    let rest = receive_payload(&mut periph.uart, 15);
    periph.swap_gpio_bus();
    let ghost ge = periph.gpio;
    display_code(&mut periph.gpio, LedCode::DoCommand.code());
    let ghost gf = periph.gpio;
    periph.swap_gpio_bus();
    let mut frame = head;
    let mut k: usize = 0;
    while k < 15
        invariant
            k <= 15,
            rest@.len() == 15,
            frame@ == head@ + rest@.take(k as int),
        decreases 15 - k,
    {
        frame.push(rest[k]);
        proof {
            assert(rest@.take(k + 1) =~= rest@.take(k as int).push(rest@[k as int]));
        }
        k = k + 1;
    }
    proof {
        assert(rest@.take(15) =~= rest@);
        lemma_waits_split(p0.uart.regs.lsr.value(), p0.uart.regs.lsr.feed(), 0, 1, 15);
        let e1 = led_events(GPIO_BASE, LedCode::WaitMagic.spec_code(), 4);
        let e2 = led_events(GPIO_BASE, LedCode::ReadCommand.spec_code(), 4);
        let e3 = led_events(GPIO_BASE, LedCode::DoCommand.spec_code(), 4);
        assert(gc == gb);
        assert(ge == gd);
        lemma_leds_shown_step(ga, gb, gd, e1, e2);
        lemma_leds_shown_step(ga, gd, gf, e1 + e2, e3);
        assert(e1 + e2 + e3 =~= receive_events(first));
        assert(periph.trace() =~= p0.trace() + receive_events(first));
    }
    UartCommand::from_bytes(frame.as_slice())
}

} // verus!
