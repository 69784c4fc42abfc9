use vstd::prelude::*;
use vstd::string::StringSliceAdditionalSpecFns;
use crate::utils::{
    bit, bit_range_get, bit_range_set, feed_after_read, fits, lemma_bit_or, lemma_bits_eq, next_read, write_addr, write_at, writes_to,
    writes_within, Bus,
    BusEvent, DevRW, R, RW,
};

verus! {

/// The mini UART's register block.
pub struct UartRegs {
    pub io: DevRW<u32>,  // mini uart i/o data
    pub ier: RW<u32>,  // mini uart interrupt enable
    pub iir: RW<u32>,  // mini uart interrupt identity
    pub lcr: RW<u32>,  // mini uart line control
    pub mcr: RW<u32>,  // mini uart modem control
    pub lsr: R<u32>,  // mini uart line status
    pub msr: R<u32>,  // mini uart modem status
    pub scratch: RW<u32>,  // mini uart scratch
    pub cntl: RW<u32>,  // mini uart extra control
    pub stat: R<u32>,  // mini uart extra status
    pub baud: RW<u32>,  // mini uart baudrate
}

/// The mini UART: its register block `regs`, at bus address `base`, and the
/// record `bus` of what the driver has done on the bus.
pub struct Uart {
    pub base: u32,
    pub regs: UartRegs,
    pub bus: Bus,
}

// Offsets of the registers within the block.
pub open spec fn io_off() -> u32 {
    0x00
}

pub open spec fn ier_off() -> u32 {
    0x04
}

pub open spec fn iir_off() -> u32 {
    0x08
}

pub open spec fn lcr_off() -> u32 {
    0x0C
}

pub open spec fn mcr_off() -> u32 {
    0x10
}

pub open spec fn cntl_off() -> u32 {
    0x20
}

pub open spec fn baud_off() -> u32 {
    0x28
}

/// Where a wait for bit `b` of the line status ends, when the register holds
/// `value` and the device will present `feed`: the value then held and the
/// values still to come. The wait reads the register until a value with bit
/// `b` set is read; it never ends when no such value comes.
pub open spec fn wait_for(value: u32, feed: Seq<u32>, b: u32) -> Option<(u32, Seq<u32>)>
    decreases feed.len(),
{
    let v = next_read(value, feed);
    let f = feed_after_read(feed);
    if bit(v, b) {
        Some((v, f))
    } else if feed.len() == 0 {
        None
    } else {
        wait_for(v, f, b)
    }
}

/// Where `n` waits for bit `b` in a row end (see `wait_for`).
pub open spec fn waits(value: u32, feed: Seq<u32>, b: u32, n: nat) -> Option<(u32, Seq<u32>)>
    decreases n,
{
    if n == 0 {
        Some((value, feed))
    } else {
        match wait_for(value, feed, b) {
            Some((v, f)) => waits(v, f, b, (n - 1) as nat),
            None => None,
        }
    }
}

/// The writes to the data register of the block at `base` that sending
/// `bytes` makes.
pub open spec fn sent(base: u32, bytes: Seq<u8>) -> Seq<BusEvent> {
    bytes.map_values(|c: u8| write_at(base, io_off(), c as u32))
}

/// The set-up writes, in order: extra control 0, line control 3 (8-bit mode),
/// modem control 0, interrupt enable 0, interrupt identity 0xc6 (clear both
/// FIFOs), baud rate 270 (115200 baud).
pub open spec fn setup_events(base: u32) -> Seq<BusEvent> {
    seq![
        write_at(base, cntl_off(), 0),
        write_at(base, lcr_off(), 3),
        write_at(base, mcr_off(), 0),
        write_at(base, ier_off(), 0),
        write_at(base, iir_off(), 0xc6),
        write_at(base, baud_off(), 270),
    ]
}

/// The data register's value and the values still to come after `n` reads,
/// when it holds `value` and the device will present `feed`.
pub open spec fn io_after(value: u32, feed: Seq<u32>, n: nat) -> (u32, Seq<u32>)
    decreases n,
{
    if n == 0 {
        (value, feed)
    } else {
        let st = io_after(value, feed, (n - 1) as nat);
        (next_read(st.0, st.1), feed_after_read(st.1))
    }
}

/// The bytes that `n` reads of the data register give, oldest first: the low
/// byte of each value read.
pub open spec fn received(value: u32, feed: Seq<u32>, n: nat) -> Seq<u8>
    decreases n,
{
    if n == 0 {
        Seq::empty()
    } else {
        let st = io_after(value, feed, (n - 1) as nat);
        received(value, feed, (n - 1) as nat).push(next_read(st.0, st.1) as u8)
    }
}

impl UartRegs {
    /// Whether each register sits at its bus address in the block at `base`.
    pub open spec fn placed(self, base: u32) -> bool {
        &&& self.io.addr() == write_addr(base, io_off())
        &&& self.ier.addr() == write_addr(base, ier_off())
        &&& self.iir.addr() == write_addr(base, iir_off())
        &&& self.lcr.addr() == write_addr(base, lcr_off())
        &&& self.mcr.addr() == write_addr(base, mcr_off())
        &&& self.lsr.addr() == write_addr(base, 0x14)
        &&& self.msr.addr() == write_addr(base, 0x18)
        &&& self.scratch.addr() == write_addr(base, 0x1C)
        &&& self.cntl.addr() == write_addr(base, cntl_off())
        &&& self.stat.addr() == write_addr(base, 0x24)
        &&& self.baud.addr() == write_addr(base, baud_off())
    }

    /// Whether the values written to each writable register are the writes
    /// to its address among `events`.
    pub open spec fn recorded(self, events: Seq<BusEvent>) -> bool {
        &&& self.io.writes() == writes_to(events, self.io.addr())
        &&& self.ier.writes() == writes_to(events, self.ier.addr())
        &&& self.iir.writes() == writes_to(events, self.iir.addr())
        &&& self.lcr.writes() == writes_to(events, self.lcr.addr())
        &&& self.mcr.writes() == writes_to(events, self.mcr.addr())
        &&& self.scratch.writes() == writes_to(events, self.scratch.addr())
        &&& self.cntl.writes() == writes_to(events, self.cntl.addr())
        &&& self.baud.writes() == writes_to(events, self.baud.addr())
    }

    /// A register image of the block at bus address `base`, with every
    /// register zero and no device value queued.
    pub fn new(base: u32) -> (r: UartRegs)
        ensures
            r.placed(base),
            r.recorded(Seq::empty()),
            r.io.value() == 0 && r.io.feed().len() == 0,
            r.lsr.value() == 0 && r.lsr.feed().len() == 0,
            r.cntl.value() == 0,
    {
        let b = base as u64;
        UartRegs {
            io: DevRW::new(b, 0),
            ier: RW::new(b + 0x04, 0),
            iir: RW::new(b + 0x08, 0),
            lcr: RW::new(b + 0x0C, 0),
            mcr: RW::new(b + 0x10, 0),
            lsr: R::new(b + 0x14, 0),
            msr: R::new(b + 0x18, 0),
            scratch: RW::new(b + 0x1C, 0),
            cntl: RW::new(b + 0x20, 0),
            stat: R::new(b + 0x24, 0),
            baud: RW::new(b + 0x28, 0),
        }
    }

    /// Whether the registers `new` are `old` after sending `bytes`: the line
    /// status was waited on once per byte, the data register holds the last
    /// byte, nothing else changed.
    pub open spec fn sent_regs(old: UartRegs, new: UartRegs, bytes: Seq<u8>) -> bool {
        &&& old.lsr_after(5, bytes.len()) is Some
        &&& new.lsr_is(old.lsr_after(5, bytes.len())->0)
        &&& new == UartRegs { io: new.io, lsr: new.lsr, ..old }
        &&& new.io.feed() == old.io.feed()
        &&& new.io.addr() == old.io.addr() && new.lsr.addr() == old.lsr.addr()
        &&& new.io.writes() == old.io.writes() + bytes.map_values(|c: u8| c as u32)
        &&& new.io.value() == if bytes.len() > 0 {
            bytes.last() as u32
        } else {
            old.io.value()
        }
    }

    /// Whether the registers `new` are `old` after the set-up writes, with
    /// nothing else changed.
    pub open spec fn setup_regs(old: UartRegs, new: UartRegs) -> bool {
        &&& new == UartRegs {
            cntl: new.cntl,
            lcr: new.lcr,
            mcr: new.mcr,
            ier: new.ier,
            iir: new.iir,
            baud: new.baud,
            ..old
        }
        &&& new.cntl.value() == 0 && new.cntl.addr() == old.cntl.addr() && new.cntl.writes() == old.cntl.writes().push(0)
        &&& new.lcr.value() == 3 && new.lcr.addr() == old.lcr.addr() && new.lcr.writes() == old.lcr.writes().push(3)
        &&& new.mcr.value() == 0 && new.mcr.addr() == old.mcr.addr() && new.mcr.writes() == old.mcr.writes().push(0)
        &&& new.ier.value() == 0 && new.ier.addr() == old.ier.addr() && new.ier.writes() == old.ier.writes().push(0)
        &&& new.iir.value() == 0xc6 && new.iir.addr() == old.iir.addr() && new.iir.writes() == old.iir.writes().push(0xc6)
        &&& new.baud.value() == 270 && new.baud.addr() == old.baud.addr() && new.baud.writes() == old.baud.writes().push(270)
    }

    /// The line status after `n` waits for bit `b`, if they end.
    pub open spec fn lsr_after(self, b: u32, n: nat) -> Option<(u32, Seq<u32>)> {
        waits(self.lsr.value(), self.lsr.feed(), b, n)
    }

    /// Whether the transmitter becomes free `n` times in a row: `n` bytes can
    /// be sent.
    pub open spec fn can_send(self, n: nat) -> bool {
        self.lsr_after(5, n) is Some
    }

    /// Whether a byte arrives: one byte can be received.
    pub open spec fn can_recv(self) -> bool {
        self.lsr_after(0, 1) is Some
    }

    /// Whether a byte arrives `n` times in a row: `n` bytes can be received.
    pub open spec fn can_recv_n(self, n: nat) -> bool {
        self.lsr_after(0, n) is Some
    }

    /// The next `n` bytes that receiving gives.
    pub open spec fn incoming(self, n: nat) -> Seq<u8> {
        received(self.io.value(), self.io.feed(), n)
    }

    /// Whether the line status is `st`.
    pub open spec fn lsr_is(self, st: (u32, Seq<u32>)) -> bool {
        self.lsr.value() == st.0 && self.lsr.feed() == st.1
    }
}

impl Uart {
    /// Whether the registers sit at their bus addresses in the block at
    /// `base`, and each register's writes are the writes to its address in
    /// the record.
    pub open spec fn wf(&self) -> bool {
        self.regs.placed(self.base) && self.regs.recorded(self.trace())
    }

    /// Whether every write that `new` adds to the record of `old` is to the
    /// register block of `old`.
    pub open spec fn stays_in_block(old: Uart, new: Uart) -> bool {
        writes_within(old.trace(), new.trace(), write_addr(old.base, 0), write_addr(old.base, 0x2C))
    }

    /// What the driver has done on the bus, oldest first.
    pub open spec fn trace(&self) -> Seq<BusEvent> {
        self.bus.events()
    }

    /// Whether `new` is `old` after the set-up writes (`setup_events`), with
    /// nothing else changed.
    pub open spec fn setup_done(old: Uart, new: Uart) -> bool {
        &&& new.base == old.base
        &&& Uart::stays_in_block(old, new)
        &&& new.trace() == old.trace() + setup_events(old.base)
        &&& UartRegs::setup_regs(old.regs, new.regs)
    }

    /// Whether `new` is `old` after sending `bytes`: the record grew by the
    /// writes of the bytes, and the registers changed as `UartRegs::sent_regs`
    /// says.
    pub open spec fn bytes_sent(old: Uart, new: Uart, bytes: Seq<u8>) -> bool {
        &&& new.base == old.base
        &&& Uart::stays_in_block(old, new)
        &&& new.trace() == old.trace() + sent(old.base, bytes)
        &&& UartRegs::sent_regs(old.regs, new.regs, bytes)
    }

    /// Whether the registers of `new` are those of `old` after receiving `n`
    /// bytes: the line status was waited on once per byte, the data register
    /// read once per byte, and nothing else changed.
    pub open spec fn bytes_received(old: Uart, new: Uart, n: nat) -> bool {
        &&& new.base == old.base
        &&& new.regs == UartRegs { io: new.regs.io, lsr: new.regs.lsr, ..old.regs }
        &&& new.regs.io.addr() == old.regs.io.addr() && new.regs.lsr.addr() == old.regs.lsr.addr()
        &&& new.regs.io.writes() == old.regs.io.writes()
        &&& old.regs.lsr_after(0, n) is Some
        &&& new.regs.lsr_is(old.regs.lsr_after(0, n)->0)
        &&& (new.regs.io.value(), new.regs.io.feed()) == io_after(old.regs.io.value(), old.regs.io.feed(), n)
    }

    /// Writes the set-up values (see `setup_events`).
    pub fn write_setup(&mut self)
        requires
            old(self).wf(),
        ensures
            final(self).wf(),
            Uart::setup_done(*old(self), *final(self)),
    {
        let ghost base = self.base;
        let ghost old_self = *self;
        self.bus.write_rw(&mut self.regs.cntl, 0);
        self.bus.write_rw(&mut self.regs.lcr, 3);
        self.bus.write_rw(&mut self.regs.mcr, 0);
        self.bus.write_rw(&mut self.regs.ier, 0);
        self.bus.write_rw(&mut self.regs.iir, 0xc6);
        self.bus.write_rw(&mut self.regs.baud, 270);
        assert(self.trace() =~= old_self.trace() + setup_events(base));
    }

    /// The mini UART over the register block `regs` at bus address `base`, set
    /// up for 8-bit transfers at 115200 baud with transmitter and receiver
    /// still off.
    pub fn new(base: u32, regs: UartRegs) -> (uart: Uart)
        requires
            regs.placed(base),
            regs.recorded(Seq::empty()),
        ensures
            uart.wf(),
            uart.base == base,
            uart.trace() == setup_events(base),
            writes_within(Seq::empty(), uart.trace(), write_addr(base, 0), write_addr(base, 0x2C)),
            UartRegs::setup_regs(regs, uart.regs),
    {
        let mut uart = Uart { base, regs, bus: Bus::new() };
        uart.write_setup();
        assert(Seq::<BusEvent>::empty() + setup_events(base) =~= setup_events(base));
        uart
    }

    /// Turns the transmitter and receiver on: reads the extra control register
    /// and writes it back with bits 0 and 1 set.
    pub fn enable_tx_rx(&mut self)
        requires
            old(self).wf(),
        ensures
            final(self).wf(),
            final(self).base == old(self).base,
            final(self).regs == (UartRegs { cntl: final(self).regs.cntl, ..old(self).regs }),
            final(self).regs.cntl.value() == old(self).regs.cntl.value() | 3,
            final(self).regs.cntl.writes() == old(self).regs.cntl.writes().push(old(self).regs.cntl.value() | 3),
            Uart::stays_in_block(*old(self), *final(self)),
            final(self).trace() == old(self).trace().push(write_at(old(self).base, cntl_off(), old(self).regs.cntl.value() | 3)),
    {
        let val = self.regs.cntl.read();
        proof {
            assert forall|i: u32| 2 <= i < 32 implies !bit(0b11u32, i) by {
                assert(2 <= i < 32 ==> (0b11u32 >> i) & 1u32 != 1u32) by (bit_vector);
            }
        }
        let new_val = bit_range_set(val, 0b11, 1, 0);
        proof {
            assert forall|i: u32| i < 32 implies bit(new_val, i) == bit(val | 3, i) by {
                lemma_bit_or(val, 3, i);
                assert(((3u32 >> i) & 1u32 == 1u32) == (i < 2)) by (bit_vector)
                    requires
                        i < 32,
                ;
            }
            lemma_bits_eq(new_val, val | 3);
        }
        self.bus.write_rw(&mut self.regs.cntl, new_val);
    }

    /// Reads the line status once; gives whether the transmitter can take a
    /// byte (bit 5 of what was read).
    pub fn transmitter_empty(&mut self) -> (b: bool)
        ensures
            b == bit(old(self).regs.lsr.now(), 5),
            final(self).base == old(self).base,
            final(self).bus == old(self).bus,
            final(self).regs == (UartRegs { lsr: final(self).regs.lsr, ..old(self).regs }),
            final(self).regs.lsr.value() == old(self).regs.lsr.now(),
            final(self).regs.lsr.feed() == feed_after_read(old(self).regs.lsr.feed()),
            final(self).regs.lsr.addr() == old(self).regs.lsr.addr(),
    {
        let val = self.regs.lsr.read();
        let f = bit_range_get(val, 5, 5);
        proof {
            lemma_field_nonzero(f);
        }
        f > 0
    }

    /// Reads the line status once; gives whether a received byte is waiting
    /// (bit 0 of what was read).
    pub fn data_ready(&mut self) -> (b: bool)
        ensures
            b == bit(old(self).regs.lsr.now(), 0),
            final(self).base == old(self).base,
            final(self).bus == old(self).bus,
            final(self).regs == (UartRegs { lsr: final(self).regs.lsr, ..old(self).regs }),
            final(self).regs.lsr.value() == old(self).regs.lsr.now(),
            final(self).regs.lsr.feed() == feed_after_read(old(self).regs.lsr.feed()),
            final(self).regs.lsr.addr() == old(self).regs.lsr.addr(),
    {
        let val = self.regs.lsr.read();
        let f = bit_range_get(val, 0, 0);
        proof {
            lemma_field_nonzero(f);
        }
        f > 0
    }

    /// Reads the line status until bit `b` is set.
    fn wait_status(&mut self, b: u32)
        requires
            b == 0 || b == 5,
            wait_for(old(self).regs.lsr.value(), old(self).regs.lsr.feed(), b) is Some,
        ensures
            final(self).base == old(self).base,
            final(self).bus == old(self).bus,
            final(self).regs == (UartRegs { lsr: final(self).regs.lsr, ..old(self).regs }),
            final(self).regs.lsr_is(wait_for(old(self).regs.lsr.value(), old(self).regs.lsr.feed(), b)->0),
            final(self).regs.lsr.addr() == old(self).regs.lsr.addr(),
    {
        let ghost s0 = *self;
        let ghost target = wait_for(s0.regs.lsr.value(), s0.regs.lsr.feed(), b);
        loop
            invariant_except_break
                wait_for(self.regs.lsr.value(), self.regs.lsr.feed(), b) == target,
            invariant
                b == 0 || b == 5,
                target is Some,
                target == wait_for(s0.regs.lsr.value(), s0.regs.lsr.feed(), b),
                self.base == s0.base,
                self.bus == s0.bus,
                self.regs == (UartRegs { lsr: self.regs.lsr, ..s0.regs }),
                self.regs.lsr.addr() == s0.regs.lsr.addr(),
            ensures
                self.regs.lsr_is(target->0),
            decreases self.regs.lsr.feed().len(),
        {
            let ghost before = self.regs.lsr;
            let ready = if b == 5 {
                self.transmitter_empty()
            } else {
                self.data_ready()
            };
            if ready {
                break;
            }
            assert(before.feed().len() > 0);
        }
    }

    /// Sends the byte `c`: waits until the transmitter can take a byte, then
    /// writes `c` to the data register.
    pub fn send(&mut self, c: u8)
        requires
            old(self).wf(),
            old(self).regs.can_send(1),
        ensures
            final(self).wf(),
            Uart::bytes_sent(*old(self), *final(self), seq![c]),
    {
        let ghost s0 = *self;
        proof {
            let st = wait_for(s0.regs.lsr.value(), s0.regs.lsr.feed(), 5);
            assert(st is Some);
        }
        self.wait_status(5);
        let ghost base = self.base;
        self.bus.write_dev(&mut self.regs.io, c as u32);
        proof {
            let one = seq![c];
            assert(sent(base, one) =~= seq![write_at(base, io_off(), c as u32)]);
            assert(one.last() == c);
            let st = wait_for(s0.regs.lsr.value(), s0.regs.lsr.feed(), 5)->0;
            assert(waits(st.0, st.1, 5, 0) == Some(st));
            assert(one.len() == 1);
            assert(s0.regs.lsr_after(5, 1) == Some(st));
            assert(self.regs.lsr_is(st));
            assert(self.trace() =~= s0.trace() + sent(base, one));
            assert(self.regs.io.writes() =~= s0.regs.io.writes() + one.map_values(|b: u8| b as u32));
            assert(self.regs == (UartRegs { io: self.regs.io, lsr: self.regs.lsr, ..s0.regs }));
        }
    }

    /// Sends the bytes `bytes`, in order.
    pub fn send_bytes(&mut self, bytes: &[u8])
        requires
            old(self).wf(),
            old(self).regs.can_send(bytes@.len()),
        ensures
            final(self).wf(),
            Uart::bytes_sent(*old(self), *final(self), bytes@),
    {
        let ghost s0 = *self;
        let n = bytes.len();
        let mut k: usize = 0;
        proof {
            assert(bytes@.take(0) =~= Seq::<u8>::empty());
            assert(sent(s0.base, Seq::<u8>::empty()) =~= Seq::<BusEvent>::empty());
            assert(s0.regs.io.writes() + bytes@.take(0).map_values(|b: u8| b as u32) =~= s0.regs.io.writes());
            assert(s0.trace() + Seq::<BusEvent>::empty() =~= s0.trace());
        }
        while k < n
            invariant
                n == bytes@.len(),
                k <= n,
                s0.regs.can_send(n as nat),
                self.base == s0.base,
                self.wf(),
                Uart::stays_in_block(s0, *self),
                self.trace() == s0.trace() + sent(s0.base, bytes@.take(k as int)),
                self.regs == (UartRegs { io: self.regs.io, lsr: self.regs.lsr, ..s0.regs }),
                self.regs.io.feed() == s0.regs.io.feed(),
                self.regs.io.writes() == s0.regs.io.writes() + bytes@.take(k as int).map_values(|b: u8| b as u32),
                self.regs.io.addr() == s0.regs.io.addr() && self.regs.lsr.addr() == s0.regs.lsr.addr(),
                self.regs.io.value() == if k > 0 {
                    bytes@[k - 1] as u32
                } else {
                    s0.regs.io.value()
                },
                waits(self.regs.lsr.value(), self.regs.lsr.feed(), 5, (n - k) as nat) == s0.regs.lsr_after(5, n as nat),
            decreases n - k,
        {
            let ghost before = *self;
            proof {
                assert(waits(before.regs.lsr.value(), before.regs.lsr.feed(), 5, (n - k) as nat) is Some);
                assert(before.regs.can_send(1)) by {
                    assert(wait_for(before.regs.lsr.value(), before.regs.lsr.feed(), 5) is Some);
                    let st = wait_for(before.regs.lsr.value(), before.regs.lsr.feed(), 5)->0;
                    assert(waits(st.0, st.1, 5, 0) == Some(st));
                }
            }
            self.send(bytes[k]);
            proof {
                let st = wait_for(before.regs.lsr.value(), before.regs.lsr.feed(), 5)->0;
                assert(waits(st.0, st.1, 5, 0) == Some(st));
                assert(self.regs.lsr_is(st));
                let pre = bytes@.take(k as int);
                let post = bytes@.take(k + 1);
                assert(post =~= pre.push(bytes@[k as int]));
                assert(sent(s0.base, post) =~= sent(s0.base, pre) + sent(s0.base, seq![bytes@[k as int]]));
                assert(self.trace() =~= s0.trace() + sent(s0.base, post));
                assert(post.map_values(|b: u8| b as u32) =~= pre.map_values(|b: u8| b as u32).push(bytes@[k as int] as u32));
                assert(seq![bytes@[k as int]].map_values(|b: u8| b as u32) =~= seq![bytes@[k as int] as u32]);
                assert(self.regs.io.writes() =~= s0.regs.io.writes() + post.map_values(|b: u8| b as u32));
            }
            k = k + 1;
        }
        proof {
            assert(bytes@.take(n as int) =~= bytes@);
            assert(waits(self.regs.lsr.value(), self.regs.lsr.feed(), 5, 0) == Some((self.regs.lsr.value(), self.regs.lsr.feed())));
        }
    }

    /// Sends the bytes of `s`, in order.
    pub fn send_str(&mut self, s: &str)
        requires
            old(self).wf(),
            old(self).regs.can_send(s.spec_bytes().len()),
        ensures
            final(self).wf(),
            Uart::bytes_sent(*old(self), *final(self), s.spec_bytes()),
    {
        self.send_bytes(s.as_bytes());
    }

    /// Receives a byte: waits until one is waiting, then reads the data
    /// register and gives its low byte.
    pub fn recv(&mut self) -> (c: u8)
        requires
            old(self).regs.can_recv(),
        ensures
            c == old(self).regs.io.now() as u8,
            final(self).base == old(self).base,
            final(self).bus == old(self).bus,
            final(self).regs == (UartRegs { io: final(self).regs.io, lsr: final(self).regs.lsr, ..old(self).regs }),
            final(self).regs.io.value() == old(self).regs.io.now(),
            final(self).regs.io.feed() == feed_after_read(old(self).regs.io.feed()),
            final(self).regs.lsr_is(old(self).regs.lsr_after(0, 1)->0),
            final(self).regs.io.addr() == old(self).regs.io.addr() && final(self).regs.lsr.addr() == old(self).regs.lsr.addr(),
            final(self).regs.io.writes() == old(self).regs.io.writes(),
    {
        let ghost s0 = *self;
        proof {
            assert(wait_for(s0.regs.lsr.value(), s0.regs.lsr.feed(), 0) is Some);
            let st = wait_for(s0.regs.lsr.value(), s0.regs.lsr.feed(), 0)->0;
            assert(waits(st.0, st.1, 0, 0) == Some(st));
        }
        self.wait_status(0);
        self.regs.io.read() as u8
    }
}

/// `n` reads of the data register followed by `m` more are `n + m` reads.
pub proof fn lemma_received_split(value: u32, feed: Seq<u32>, n: nat, m: nat)
    ensures
        io_after(value, feed, n + m) == io_after(io_after(value, feed, n).0, io_after(value, feed, n).1, m),
        received(value, feed, n + m) == received(value, feed, n) + received(
            io_after(value, feed, n).0,
            io_after(value, feed, n).1,
            m,
        ),
    decreases m,
{
    let st = io_after(value, feed, n);
    if m == 0 {
        assert(received(value, feed, n) + received(st.0, st.1, 0) =~= received(value, feed, n));
    } else {
        lemma_received_split(value, feed, n, (m - 1) as nat);
        assert((n + m - 1) as nat == n + (m - 1) as nat);
        let prev = io_after(st.0, st.1, (m - 1) as nat);
        assert(received(value, feed, n + m) =~= received(value, feed, n) + received(st.0, st.1, m));
    }
}

/// `n` waits followed by `m` more are `n + m` waits.
pub proof fn lemma_waits_split(value: u32, feed: Seq<u32>, b: u32, n: nat, m: nat)
    ensures
        waits(value, feed, b, n + m) == match waits(value, feed, b, n) {
            Some((v, f)) => waits(v, f, b, m),
            None => None,
        },
    decreases n,
{
    if n > 0 {
        match wait_for(value, feed, b) {
            Some((v, f)) => {
                lemma_waits_split(v, f, b, (n - 1) as nat, m);
                assert((n + m - 1) as nat == (n - 1) as nat + m);
            },
            None => {},
        }
    } else {
        assert(waits(value, feed, b, 0) == Some((value, feed)));
    }
}

/// Sending `x` and then `y` is sending `x + y`.
pub proof fn lemma_bytes_sent_concat(a: Uart, b: Uart, c: Uart, x: Seq<u8>, y: Seq<u8>)
    requires
        Uart::bytes_sent(a, b, x),
        Uart::bytes_sent(b, c, y),
    ensures
        Uart::bytes_sent(a, c, x + y),
{
    lemma_waits_split(a.regs.lsr.value(), a.regs.lsr.feed(), 5, x.len(), y.len());
    assert(sent(a.base, x + y) =~= sent(a.base, x) + sent(a.base, y));
    assert(c.trace() =~= a.trace() + sent(a.base, x + y));
    assert((x + y).map_values(|b: u8| b as u32) =~= x.map_values(|b: u8| b as u32) + y.map_values(|b: u8| b as u32));
    assert(c.regs.io.writes() =~= a.regs.io.writes() + (x + y).map_values(|b: u8| b as u32));
    if y.len() > 0 {
        assert((x + y).last() == y.last());
    } else {
        assert(x + y =~= x);
    }
}

/// When `x + y` can be sent, `x` can, and after it `y` can.
pub proof fn lemma_can_send_split(r: UartRegs, x: nat, y: nat)
    requires
        r.can_send(x + y),
    ensures
        r.can_send(x),
        waits((r.lsr_after(5, x)->0).0, (r.lsr_after(5, x)->0).1, 5, y) is Some,
{
    lemma_waits_split(r.lsr.value(), r.lsr.feed(), 5, x, y);
}

/// After sending `x`, what was left of `total` sends can still be made.
pub proof fn lemma_can_send_after(u0: Uart, u1: Uart, x: Seq<u8>, total: nat)
    requires
        Uart::bytes_sent(u0, u1, x),
        u0.regs.can_send(total),
        x.len() <= total,
    ensures
        u1.regs.can_send((total - x.len()) as nat),
{
    lemma_waits_split(u0.regs.lsr.value(), u0.regs.lsr.feed(), 5, x.len(), (total - x.len()) as nat);
}

proof fn lemma_field_nonzero(r: u32)
    requires
        forall|i: u32| 0 < i < 32 ==> !bit(r, i),
    ensures
        (r > 0) == bit(r, 0),
{
    if bit(r, 0) {
        assert(((r >> 0u32) & 1u32 == 1u32) ==> r > 0) by (bit_vector);
    } else {
        assert forall|i: u32| i < 32 implies bit(r, i) == bit(0u32, i) by {
            assert((0u32 >> i) & 1u32 != 1u32) by (bit_vector);
        }
        lemma_bits_eq(r, 0u32);
    }
}

} // verus!
