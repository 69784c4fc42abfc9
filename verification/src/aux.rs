use vstd::prelude::*;
use crate::utils::{write_addr, write_at, writes_to, writes_within, Bus, BusEvent, R, RW};

verus! {

/// The auxiliary peripherals' register block.
pub struct AuxRegs {
    pub irq: R<u32>,  // aux interrupt status
    pub enables: RW<u32>,  // aux enables
}

/// The auxiliary peripherals (the mini UART among them): the register block
/// `regs` at bus address `base`, and the record `bus` of what the driver has
/// done on the bus.
pub struct Aux {
    pub base: u32,
    pub regs: AuxRegs,
    pub bus: Bus,
}

/// Offset of the enables register within the block.
pub open spec fn enables_off() -> u32 {
    4
}

impl AuxRegs {
    /// Whether each register sits at its bus address in the block at `base`.
    pub open spec fn placed(self, base: u32) -> bool {
        &&& self.irq.addr() == write_addr(base, 0)
        &&& self.enables.addr() == write_addr(base, enables_off())
    }

    /// Whether the values written to the enables register are the writes to
    /// its address among `events`.
    pub open spec fn recorded(self, events: Seq<BusEvent>) -> bool {
        self.enables.writes() == writes_to(events, self.enables.addr())
    }

    /// A register image of the block at bus address `base`, with both
    /// registers zero and no device value queued.
    pub fn new(base: u32) -> (r: AuxRegs)
        ensures
            r.placed(base),
            r.irq.value() == 0,
            r.irq.feed().len() == 0,
            r.enables.value() == 0,
            r.enables.writes() == Seq::<u32>::empty(),
    {
        AuxRegs { irq: R::new(base as u64, 0), enables: RW::new(base as u64 + 4, 0) }
    }
}

impl Aux {
    /// Whether the registers sit at their bus addresses in the block at
    /// `base`, and the enables register's writes are the writes to its
    /// address in the record.
    pub open spec fn wf(&self) -> bool {
        self.regs.placed(self.base) && self.regs.recorded(self.trace())
    }

    /// Whether every write that `new` adds to the record of `old` is to the
    /// register block of `old`.
    pub open spec fn stays_in_block(old: Aux, new: Aux) -> bool {
        writes_within(old.trace(), new.trace(), write_addr(old.base, 0), write_addr(old.base, 8))
    }

    /// What the driver has done on the bus, oldest first.
    pub open spec fn trace(&self) -> Seq<BusEvent> {
        self.bus.events()
    }

    /// The auxiliary peripherals over the register block `regs` at bus address
    /// `base`, with nothing done on the bus yet.
    pub fn new(base: u32, regs: AuxRegs) -> (a: Aux)
        ensures
            a.base == base,
            a.regs == regs,
            a.trace() == Seq::<BusEvent>::empty(),
    {
        Aux { base, regs, bus: Bus::new() }
    }

    /// Enables the mini UART: reads the enables register and writes it back
    /// with bit 0 set.
    pub fn enable_uart(&mut self)
        requires
            old(self).wf(),
        ensures
            final(self).wf(),
            Aux::stays_in_block(*old(self), *final(self)),
            final(self).base == old(self).base,
            final(self).regs.irq == old(self).regs.irq,
            final(self).regs.enables.value() == old(self).regs.enables.value() | 1,
            final(self).regs.enables.writes() == old(self).regs.enables.writes().push(old(self).regs.enables.value() | 1),
            final(self).trace() == old(self).trace().push(
                write_at(old(self).base, enables_off(), old(self).regs.enables.value() | 1),
            ),
    {
        let val = self.regs.enables.read();
        self.bus.write_rw(&mut self.regs.enables, val | 1);
    }
}

} // verus!
