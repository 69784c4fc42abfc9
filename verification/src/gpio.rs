use vstd::prelude::*;
use crate::utils::{
    bit, fits, lemma_bit_or, lemma_bit_shl, lemma_bits_eq, bit_range_set, write_addr, write_at, writes_to, writes_within, Bus, BusEvent, R,
    RW, W,
};

verus! {

/// The GPIO register block, field by field as the device lays it out.
pub struct GPIORegs {
    pub gpfsel: [RW<u32>; 6],  // function select
    pub reserved0: u32,
    pub gpset: [W<u32>; 2],  // set
    pub reserved1: u32,
    pub gpclr: [W<u32>; 2],  // clear
    pub reserved2: u32,
    pub gplev: [R<u32>; 2],  // level
    pub reserved3: u32,
    pub gpeds: [RW<u32>; 2],  // event detect status
    pub reserved4: u32,
    pub gpren: [RW<u32>; 2],  // rising edge detect enable
    pub reserved5: u32,
    pub gpfen: [RW<u32>; 2],  // falling edge detect enable
    pub reserved6: u32,
    pub gphen: [RW<u32>; 2],  // high detect enable
    pub reserved7: u32,
    pub gplen: [RW<u32>; 2],  // low detect enable
    pub reserved8: u32,
    pub gparen: [RW<u32>; 2],  // async rising edge detect
    pub reserved9: u32,
    pub gpafen: [RW<u32>; 2],  // async falling edge detect
    pub reserved10: u32,
    pub gppud: RW<u32>,  // pull-up/down enable
    pub gppudclk: [RW<u32>; 2],  // pull-up/down enable clock
    pub reserved12: [u32; 4],
    pub test: RW<u32>,
}

/// The GPIO controller: its register block `regs`, at bus address `base`, and
/// the record `bus` of what the driver has done on the bus.
pub struct GPIO {
    pub base: u32,
    pub regs: GPIORegs,
    pub bus: Bus,
}

/// The pins that can carry the mini UART's transmit line.
pub enum GPIOMiniUartTxPin {
    GPIO14,
    GPIO32,
    GPIO40,
}

/// The pins that can carry the mini UART's receive line.
pub enum GPIOMiniUartRxPin {
    GPIO15,
    GPIO33,
    GPIO41,
}

/// The function a pin can be given.
pub enum GPIOFunc {
    In,
    Out,
    Alt0,
    Alt1,
    Alt2,
    Alt3,
    Alt4,
    Alt5,
}

/// The pull-up / pull-down control states.
pub enum GPIOPullState {
    Off,
    PullDown,
    PullUp,
}

impl GPIOMiniUartTxPin {
    pub open spec fn spec_pin(&self) -> u32 {
        match self {
            GPIOMiniUartTxPin::GPIO14 => 14,
            GPIOMiniUartTxPin::GPIO32 => 32,
            GPIOMiniUartTxPin::GPIO40 => 40,
        }
    }

    /// The pin number.
    pub fn pin(&self) -> (p: u32)
        ensures
            p == self.spec_pin(),
    {
        match self {
            GPIOMiniUartTxPin::GPIO14 => 14,
            GPIOMiniUartTxPin::GPIO32 => 32,
            GPIOMiniUartTxPin::GPIO40 => 40,
        }
    }
}

impl GPIOMiniUartRxPin {
    pub open spec fn spec_pin(&self) -> u32 {
        match self {
            GPIOMiniUartRxPin::GPIO15 => 15,
            GPIOMiniUartRxPin::GPIO33 => 33,
            GPIOMiniUartRxPin::GPIO41 => 41,
        }
    }

    /// The pin number.
    pub fn pin(&self) -> (p: u32)
        ensures
            p == self.spec_pin(),
    {
        match self {
            GPIOMiniUartRxPin::GPIO15 => 15,
            GPIOMiniUartRxPin::GPIO33 => 33,
            GPIOMiniUartRxPin::GPIO41 => 41,
        }
    }
}

impl GPIOFunc {
    pub open spec fn spec_code(&self) -> u32 {
        match self {
            GPIOFunc::In => 0b000,
            GPIOFunc::Out => 0b001,
            GPIOFunc::Alt0 => 0b100,
            GPIOFunc::Alt1 => 0b101,
            GPIOFunc::Alt2 => 0b110,
            GPIOFunc::Alt3 => 0b111,
            GPIOFunc::Alt4 => 0b011,
            GPIOFunc::Alt5 => 0b010,
        }
    }

    /// The three-bit function-select code.
    pub fn code(&self) -> (c: u32)
        ensures
            c == self.spec_code(),
    {
        match self {
            GPIOFunc::In => 0b000,
            GPIOFunc::Out => 0b001,
            GPIOFunc::Alt0 => 0b100,
            GPIOFunc::Alt1 => 0b101,
            GPIOFunc::Alt2 => 0b110,
            GPIOFunc::Alt3 => 0b111,
            GPIOFunc::Alt4 => 0b011,
            GPIOFunc::Alt5 => 0b010,
        }
    }
}

impl GPIOPullState {
    pub open spec fn spec_code(&self) -> u32 {
        match self {
            GPIOPullState::Off => 0b00,
            GPIOPullState::PullDown => 0b01,
            GPIOPullState::PullUp => 0b10,
        }
    }

    /// The two-bit pull control code.
    pub fn code(&self) -> (c: u32)
        ensures
            c == self.spec_code(),
    {
        match self {
            GPIOPullState::Off => 0b00,
            GPIOPullState::PullDown => 0b01,
            GPIOPullState::PullUp => 0b10,
        }
    }
}

/// Whether `m` has exactly the bits of the pins of `pins` that lie in bank
/// `bank` (pins `32 * bank` to `32 * bank + 31`).
pub open spec fn is_pin_mask(pins: Seq<u32>, bank: int, m: u32) -> bool {
    forall|j: u32| j < 32 ==> (bit(m, j) <==> pins.contains((32 * bank + j) as u32))
}

/// The mask of the pins of `pins` that lie in bank `bank`: bit `p % 32` for
/// each pin `p` with `p / 32 == bank`.
pub open spec fn pin_mask(pins: Seq<u32>, bank: int) -> u32
    decreases pins.len(),
{
    if pins.len() == 0 {
        0
    } else {
        let prev = pin_mask(pins.drop_last(), bank);
        if pins.last() / 32 == bank {
            prev | (1u32 << (pins.last() % 32))
        } else {
            prev
        }
    }
}

/// `v` with bits `off..off + 2` replaced by the three bits of `code`.
pub open spec fn with_field3(v: u32, off: u32, code: u32) -> u32 {
    (v & !(7u32 << off)) | (code << off)
}

// Offsets of the registers within the block.
pub open spec fn gpfsel_off(i: int) -> u32 {
    (4 * i) as u32
}

pub open spec fn gpset_off(i: int) -> u32 {
    (0x1C + 4 * i) as u32
}

pub open spec fn gpclr_off(i: int) -> u32 {
    (0x28 + 4 * i) as u32
}

pub open spec fn gppud_off() -> u32 {
    0x94
}

pub open spec fn gppudclk_off(i: int) -> u32 {
    (0x98 + 4 * i) as u32
}

/// What applying pull code `code` to pins with bank masks `m0` and `m1` does
/// on the bus of the block at `base`: GPPUD gets the code, a wait, the clock
/// registers get the masks, a wait, the clock registers get zero, GPPUD gets
/// the `Off` code.
pub open spec fn pull_events(base: u32, code: u32, m0: u32, m1: u32) -> Seq<BusEvent> {
    seq![
        write_at(base, gppud_off(), code),
        BusEvent::Wait { cycles: 150 },
        write_at(base, gppudclk_off(0), m0),
        write_at(base, gppudclk_off(1), m1),
        BusEvent::Wait { cycles: 150 },
        write_at(base, gppudclk_off(0), 0),
        write_at(base, gppudclk_off(1), 0),
        write_at(base, gppud_off(), 0),
    ]
}

impl GPIORegs {
    /// Bit `k` (0 to 2) of the function-select code of `pin`.
    pub open spec fn fsel_bit(self, pin: u32, k: u32) -> bool {
        bit(self.gpfsel[(pin / 10) as int].value(), ((pin % 10) * 3 + k) as u32)
    }

    /// Whether the function-select code of `pin` is `code`.
    pub open spec fn pin_func_is(self, pin: u32, code: u32) -> bool {
        forall|k: u32| k < 3 ==> self.fsel_bit(pin, k) == bit(code, k)
    }

    pub open spec fn with_gpfsel(self, f: [RW<u32>; 6]) -> GPIORegs {
        GPIORegs { gpfsel: f, ..self }
    }

    pub open spec fn with_gpset(self, s: [W<u32>; 2]) -> GPIORegs {
        GPIORegs { gpset: s, ..self }
    }

    pub open spec fn with_gpclr(self, c: [W<u32>; 2]) -> GPIORegs {
        GPIORegs { gpclr: c, ..self }
    }

    pub open spec fn with_pull(self, pud: RW<u32>, clk: [RW<u32>; 2]) -> GPIORegs {
        GPIORegs { gppud: pud, gppudclk: clk, ..self }
    }

    /// Whether every register holds zero and no device value is queued.
    pub open spec fn is_zeroed(self) -> bool {
        &&& forall|j: int| 0 <= j < 6 ==> (#[trigger] self.gpfsel[j]).value() == 0
        &&& forall|j: int|
            0 <= j < 2 ==> {
                &&& (#[trigger] self.gpset[j]).value() == 0
                &&& self.gpclr[j].value() == 0
                &&& self.gplev[j].value() == 0 && self.gplev[j].feed().len() == 0
                &&& self.gpeds[j].value() == 0 && self.gpren[j].value() == 0 && self.gpfen[j].value() == 0
                &&& self.gphen[j].value() == 0 && self.gplen[j].value() == 0 && self.gparen[j].value() == 0
                &&& self.gpafen[j].value() == 0 && self.gppudclk[j].value() == 0
            }
        &&& self.gppud.value() == 0 && self.test.value() == 0
        &&& self.reserved0 == 0 && self.reserved1 == 0 && self.reserved2 == 0 && self.reserved3 == 0
        &&& self.reserved4 == 0 && self.reserved5 == 0 && self.reserved6 == 0 && self.reserved7 == 0
        &&& self.reserved8 == 0 && self.reserved9 == 0 && self.reserved10 == 0
        &&& self.reserved12@ == seq![0u32, 0u32, 0u32, 0u32]
    }

    /// Whether each register sits at its bus address in the block at `base`.
    pub open spec fn placed(self, base: u32) -> bool {
        &&& forall|j: int| 0 <= j < 6 ==> (#[trigger] self.gpfsel[j]).addr() == write_addr(base, gpfsel_off(j))
        &&& forall|j: int| 0 <= j < 2 ==> (#[trigger] self.gpset[j]).addr() == write_addr(base, gpset_off(j))
        &&& forall|j: int| 0 <= j < 2 ==> (#[trigger] self.gpclr[j]).addr() == write_addr(base, gpclr_off(j))
        &&& forall|j: int| 0 <= j < 2 ==> (#[trigger] self.gplev[j]).addr() == write_addr(base, (0x34 + 4 * j) as u32)
        &&& forall|j: int| 0 <= j < 2 ==> (#[trigger] self.gpeds[j]).addr() == write_addr(base, (0x40 + 4 * j) as u32)
        &&& forall|j: int| 0 <= j < 2 ==> (#[trigger] self.gpren[j]).addr() == write_addr(base, (0x4C + 4 * j) as u32)
        &&& forall|j: int| 0 <= j < 2 ==> (#[trigger] self.gpfen[j]).addr() == write_addr(base, (0x58 + 4 * j) as u32)
        &&& forall|j: int| 0 <= j < 2 ==> (#[trigger] self.gphen[j]).addr() == write_addr(base, (0x64 + 4 * j) as u32)
        &&& forall|j: int| 0 <= j < 2 ==> (#[trigger] self.gplen[j]).addr() == write_addr(base, (0x70 + 4 * j) as u32)
        &&& forall|j: int| 0 <= j < 2 ==> (#[trigger] self.gparen[j]).addr() == write_addr(base, (0x7C + 4 * j) as u32)
        &&& forall|j: int| 0 <= j < 2 ==> (#[trigger] self.gpafen[j]).addr() == write_addr(base, (0x88 + 4 * j) as u32)
        &&& forall|j: int| 0 <= j < 2 ==> (#[trigger] self.gppudclk[j]).addr() == write_addr(base, gppudclk_off(j))
        &&& self.gppud.addr() == write_addr(base, gppud_off())
        &&& self.test.addr() == write_addr(base, 0xB0)
    }

    /// Whether the values written to each writable register are the writes
    /// to its address among `events`.
    pub open spec fn recorded(self, events: Seq<BusEvent>) -> bool {
        &&& forall|j: int| 0 <= j < 6 ==> (#[trigger] self.gpfsel[j]).writes() == writes_to(events, self.gpfsel[j].addr())
        &&& forall|j: int| 0 <= j < 2 ==> (#[trigger] self.gpset[j]).writes() == writes_to(events, self.gpset[j].addr())
        &&& forall|j: int| 0 <= j < 2 ==> (#[trigger] self.gpclr[j]).writes() == writes_to(events, self.gpclr[j].addr())
        &&& forall|j: int| 0 <= j < 2 ==> (#[trigger] self.gpeds[j]).writes() == writes_to(events, self.gpeds[j].addr())
        &&& forall|j: int| 0 <= j < 2 ==> (#[trigger] self.gpren[j]).writes() == writes_to(events, self.gpren[j].addr())
        &&& forall|j: int| 0 <= j < 2 ==> (#[trigger] self.gpfen[j]).writes() == writes_to(events, self.gpfen[j].addr())
        &&& forall|j: int| 0 <= j < 2 ==> (#[trigger] self.gphen[j]).writes() == writes_to(events, self.gphen[j].addr())
        &&& forall|j: int| 0 <= j < 2 ==> (#[trigger] self.gplen[j]).writes() == writes_to(events, self.gplen[j].addr())
        &&& forall|j: int| 0 <= j < 2 ==> (#[trigger] self.gparen[j]).writes() == writes_to(events, self.gparen[j].addr())
        &&& forall|j: int| 0 <= j < 2 ==> (#[trigger] self.gpafen[j]).writes() == writes_to(events, self.gpafen[j].addr())
        &&& forall|j: int| 0 <= j < 2 ==> (#[trigger] self.gppudclk[j]).writes() == writes_to(events, self.gppudclk[j].addr())
        &&& self.gppud.writes() == writes_to(events, self.gppud.addr())
        &&& self.test.writes() == writes_to(events, self.test.addr())
    }

    /// A register image of the block at bus address `base`, with every
    /// register zero and no device value queued.
    pub fn new(base: u32) -> (r: GPIORegs)
        ensures
            r.is_zeroed(),
            r.placed(base),
            r.recorded(Seq::empty()),
    {
        let b = base as u64;
        let r = GPIORegs {
            gpfsel: [
                RW::new(b, 0u32),
                RW::new(b + 0x04, 0u32),
                RW::new(b + 0x08, 0u32),
                RW::new(b + 0x0C, 0u32),
                RW::new(b + 0x10, 0u32),
                RW::new(b + 0x14, 0u32),
            ],
            reserved0: 0,
            gpset: [W::new(b + 0x1C, 0u32), W::new(b + 0x20, 0u32)],
            reserved1: 0,
            gpclr: [W::new(b + 0x28, 0u32), W::new(b + 0x2C, 0u32)],
            reserved2: 0,
            gplev: [R::new(b + 0x34, 0u32), R::new(b + 0x38, 0u32)],
            reserved3: 0,
            gpeds: [RW::new(b + 0x40, 0u32), RW::new(b + 0x44, 0u32)],
            reserved4: 0,
            gpren: [RW::new(b + 0x4C, 0u32), RW::new(b + 0x50, 0u32)],
            reserved5: 0,
            gpfen: [RW::new(b + 0x58, 0u32), RW::new(b + 0x5C, 0u32)],
            reserved6: 0,
            gphen: [RW::new(b + 0x64, 0u32), RW::new(b + 0x68, 0u32)],
            reserved7: 0,
            gplen: [RW::new(b + 0x70, 0u32), RW::new(b + 0x74, 0u32)],
            reserved8: 0,
            gparen: [RW::new(b + 0x7C, 0u32), RW::new(b + 0x80, 0u32)],
            reserved9: 0,
            gpafen: [RW::new(b + 0x88, 0u32), RW::new(b + 0x8C, 0u32)],
            reserved10: 0,
            gppud: RW::new(b + 0x94, 0u32),
            gppudclk: [RW::new(b + 0x98, 0u32), RW::new(b + 0x9C, 0u32)],
            reserved12: [0, 0, 0, 0],
            test: RW::new(b + 0xB0, 0u32),
        };
        assert(r.reserved12@ =~= seq![0u32, 0u32, 0u32, 0u32]);
        r
    }
}

impl GPIO {
    /// Whether the registers sit at their bus addresses in the block at
    /// `base`, and each register's writes are the writes to its address in
    /// the record.
    pub open spec fn wf(&self) -> bool {
        self.regs.placed(self.base) && self.regs.recorded(self.trace())
    }

    /// Whether every write that `new` adds to the record of `old` is to the
    /// register block of `old`.
    pub open spec fn stays_in_block(old: GPIO, new: GPIO) -> bool {
        writes_within(old.trace(), new.trace(), write_addr(old.base, 0), write_addr(old.base, 0xB4))
    }

    /// What the driver has done on the bus, oldest first.
    pub open spec fn trace(&self) -> Seq<BusEvent> {
        self.bus.events()
    }

    /// Whether `new` is `old` after the read-modify-write of the
    /// function-select register of `pin` that sets the pin's code to `code`:
    /// the register is read, the pin's three bits of what was read are replaced
    /// by `code`, and the result is written back; nothing else changes.
    pub open spec fn func_set(old: GPIO, new: GPIO, pin: u32, code: u32) -> bool {
        let idx = (pin / 10) as int;
        let off = ((pin % 10) * 3) as u32;
        let r = old.regs.gpfsel[idx].value();
        let v = with_field3(r, off, code);
        &&& new.base == old.base
        &&& new.wf() == old.wf()
        &&& GPIO::stays_in_block(old, new)
        &&& new.regs == old.regs.with_gpfsel(new.regs.gpfsel)
        &&& forall|j: int| 0 <= j < 6 && j != idx ==> new.regs.gpfsel[j] == old.regs.gpfsel[j]
        &&& new.regs.gpfsel[idx].value() == v
        &&& new.regs.gpfsel[idx].writes() == old.regs.gpfsel[idx].writes().push(v)
        &&& new.trace() == old.trace().push(write_at(old.base, gpfsel_off(idx), v))
        &&& forall|i: u32|
            i < 32 ==> bit(v, i) == if off <= i <= off + 2 {
                bit(code, (i - off) as u32)
            } else {
                bit(r, i)
            }
        &&& new.regs.pin_func_is(pin, code)
        &&& forall|q: u32, k: u32|
            q <= 53 && q != pin && k < 3 ==> new.regs.fsel_bit(q, k) == old.regs.fsel_bit(q, k)
    }
}

proof fn lemma_fits3(v: u32)
    requires
        v < 8,
    ensures
        fits(v, 3),
{
    assert forall|i: u32| 3 <= i < 32 implies !bit(v, i) by {
        assert(v < 8 && 3 <= i < 32 ==> (v >> i) & 1u32 != 1u32) by (bit_vector);
    }
}

proof fn lemma_with_field3_bits(v: u32, off: u32, code: u32, i: u32)
    requires
        off <= 29,
        code < 8,
        i < 32,
    ensures
        bit(with_field3(v, off, code), i) == if off <= i <= off + 2 {
            bit(code, (i - off) as u32)
        } else {
            bit(v, i)
        },
{
    let j: u32 = (i - off) as u32;
    if off <= i <= off + 2 {
        assert(((((v & !(7u32 << off)) | (code << off)) >> i) & 1u32 == 1u32) == ((code >> j) & 1u32 == 1u32))
            by (bit_vector)
            requires
                off <= 29,
                code < 8,
                i < 32,
                off <= i <= off + 2,
                j == i - off,
        ;
    } else {
        assert(((((v & !(7u32 << off)) | (code << off)) >> i) & 1u32 == 1u32) == ((v >> i) & 1u32 == 1u32))
            by (bit_vector)
            requires
                off <= 29,
                code < 8,
                i < 32,
                !(off <= i <= off + 2),
        ;
    }
}

proof fn lemma_bit_one(x: u32)
    requires
        x < 32,
    ensures
        bit(1u32, x) == (x == 0),
{
    assert(((1u32 >> x) & 1u32 == 1u32) == (x == 0)) by (bit_vector)
        requires
            x < 32,
    ;
}

/// For each of the two banks, the mask with the bits of the pins in `pins`.
fn pin_masks(pins: &[u32]) -> (vals: [u32; 2])
    requires
        forall|k: int| 0 <= k < pins@.len() ==> pins@[k] <= 53,
    ensures
        vals[0] == pin_mask(pins@, 0),
        vals[1] == pin_mask(pins@, 1),
        is_pin_mask(pins@, 0, vals[0]),
        is_pin_mask(pins@, 1, vals[1]),
{
    let mut vals: [u32; 2] = [0, 0];
    let n = pins.len();
    let mut k: usize = 0;
    proof {
        assert forall|b: int, j: u32| 0 <= b < 2 && j < 32 implies !bit(vals[b], j) by {
            assert((0u32 >> j) & 1u32 != 1u32) by (bit_vector);
        }
        assert(pins@.take(0) =~= Seq::<u32>::empty());
    }
    while k < n
        invariant
            n == pins@.len(),
            k <= n,
            forall|t: int| 0 <= t < pins@.len() ==> pins@[t] <= 53,
            vals[0] == pin_mask(pins@.take(k as int), 0),
            vals[1] == pin_mask(pins@.take(k as int), 1),
            forall|b: int, j: u32|
                0 <= b < 2 && j < 32 ==> (#[trigger] bit(vals[b], j) <==> exists|t: int|
                    0 <= t < k && pins@[t] == (32 * b + j) as u32),
        decreases n - k,
    {
        let pin = pins[k];
        let pin_index = (pin / 32) as usize;
        let pin_offset = pin % 32;
        let ghost old_vals = vals;
        vals[pin_index] = vals[pin_index] | (1u32 << pin_offset);
        proof {
            let pre = pins@.take(k as int);
            let post = pins@.take(k + 1);
            assert(post.drop_last() =~= pre);
            assert(post.last() == pin);
            assert(vals[0] == pin_mask(post, 0));
            assert(vals[1] == pin_mask(post, 1));
            assert forall|b: int, j: u32|
                0 <= b < 2 && j < 32 implies (#[trigger] bit(vals[b], j) <==> exists|t: int|
                    0 <= t < k + 1 && pins@[t] == (32 * b + j) as u32) by {
                if b == pin_index as int {
                    lemma_bit_or(old_vals[b], 1u32 << pin_offset, j);
                    lemma_bit_shl(1u32, pin_offset, j);
                    if pin_offset <= j {
                        lemma_bit_one((j - pin_offset) as u32);
                    }
                    if j == pin_offset {
                        assert(pins@[k as int] == (32 * b + j) as u32);
                    }
                    if bit(vals[b], j) && j != pin_offset {
                        let t = choose|t: int| 0 <= t < k && pins@[t] == (32 * b + j) as u32;
                        assert(0 <= t < k + 1 && pins@[t] == (32 * b + j) as u32);
                    }
                    if exists|t: int| 0 <= t < k + 1 && pins@[t] == (32 * b + j) as u32 {
                        let t = choose|t: int| 0 <= t < k + 1 && pins@[t] == (32 * b + j) as u32;
                        if t < k {
                            assert(exists|t2: int| 0 <= t2 < k && pins@[t2] == (32 * b + j) as u32);
                        }
                    }
                } else {
                    assert(vals[b] == old_vals[b]);
                    if exists|t: int| 0 <= t < k + 1 && pins@[t] == (32 * b + j) as u32 {
                        let t = choose|t: int| 0 <= t < k + 1 && pins@[t] == (32 * b + j) as u32;
                        if t < k {
                            assert(exists|t2: int| 0 <= t2 < k && pins@[t2] == (32 * b + j) as u32);
                        }
                    }
                    if bit(vals[b], j) {
                        let t = choose|t: int| 0 <= t < k && pins@[t] == (32 * b + j) as u32;
                        assert(0 <= t < k + 1 && pins@[t] == (32 * b + j) as u32);
                    }
                }
            }
        }
        k = k + 1;
    }
    assert(pins@.take(n as int) =~= pins@);
    vals
}

impl GPIO {
    /// A controller over the register block `regs` at bus address `base`,
    /// with nothing done on the bus yet.
    pub fn new(base: u32, regs: GPIORegs) -> (g: GPIO)
        ensures
            g.base == base,
            g.regs == regs,
            g.trace() == Seq::<BusEvent>::empty(),
    {
        GPIO { base, regs, bus: Bus::new() }
    }

    /// Gives pin `pin` the function `func` (see `GPIO::func_set`).
    pub fn set_gpio_func(&mut self, pin: u32, func: GPIOFunc)
        requires
            old(self).wf(),
            pin <= 53,
        ensures
            final(self).wf(),
            GPIO::func_set(*old(self), *final(self), pin, func.spec_code()),
    {
        let fsel_index = (pin / 10) as usize;
        let fsel_offset = (pin % 10) * 3;
        let code = func.code();
        proof {
            lemma_fits3(code);
        }
        let ghost old_self = *self;
        let val = self.regs.gpfsel[fsel_index].read();
        let new_val = bit_range_set(val, code, fsel_offset + 2, fsel_offset);
        proof {
            assert forall|i: u32| i < 32 implies bit(new_val, i) == bit(with_field3(val, fsel_offset, code), i) by {
                lemma_with_field3_bits(val, fsel_offset, code, i);
            }
            lemma_bits_eq(new_val, with_field3(val, fsel_offset, code));
        }
        self.bus.write_rw(&mut self.regs.gpfsel[fsel_index], new_val);
        proof {
            let new_regs = self.regs;
            let old_regs = old_self.regs;
            assert(new_regs == old_regs.with_gpfsel(new_regs.gpfsel));
            assert(self.regs.placed(self.base));
            assert forall|i: u32|
                i < 32 implies bit(new_val, i) == if fsel_offset <= i <= fsel_offset + 2 {
                    bit(code, (i - fsel_offset) as u32)
                } else {
                    bit(val, i)
                } by {
                lemma_with_field3_bits(val, fsel_offset, code, i);
            }
            assert forall|k: u32| k < 3 implies new_regs.fsel_bit(pin, k) == bit(code, k) by {
                assert(((pin % 10) * 3 + k) as u32 - fsel_offset == k);
            }
            assert forall|q: u32, k: u32| q <= 53 && q != pin && k < 3 implies new_regs.fsel_bit(q, k) == old_regs.fsel_bit(q, k) by {
                if q / 10 == pin / 10 {
                    assert(q % 10 != pin % 10);
                    let i = ((q % 10) * 3 + k) as u32;
                    assert(!(fsel_offset <= i <= fsel_offset + 2));
                }
            }
        }
    }

    /// Routes the mini UART's transmit line to `pname`.
    pub fn set_mini_uart_tx(&mut self, pname: GPIOMiniUartTxPin)
        requires
            old(self).wf(),
        ensures
            final(self).wf(),
            GPIO::func_set(*old(self), *final(self), pname.spec_pin(), GPIOFunc::Alt5.spec_code()),
    {
        let pin = pname.pin();
        self.set_gpio_func(pin, GPIOFunc::Alt5);
    }

    /// Routes the mini UART's receive line to `pname`.
    pub fn set_mini_uart_rx(&mut self, pname: GPIOMiniUartRxPin)
        requires
            old(self).wf(),
        ensures
            final(self).wf(),
            GPIO::func_set(*old(self), *final(self), pname.spec_pin(), GPIOFunc::Alt5.spec_code()),
    {
        let pin = pname.pin();
        self.set_gpio_func(pin, GPIOFunc::Alt5);
    }

    /// Applies the pull state `state` to the pins `pins`: on the bus exactly
    /// `pull_events` with the pins' bank masks.
    pub fn set_pull_state(&mut self, pins: &[u32], state: GPIOPullState)
        requires
            old(self).wf(),
            forall|k: int| 0 <= k < pins@.len() ==> pins@[k] <= 53,
        ensures
            final(self).wf(),
            GPIO::stays_in_block(*old(self), *final(self)),
            final(self).base == old(self).base,
            final(self).trace() == old(self).trace() + pull_events(
                old(self).base,
                state.spec_code(),
                pin_mask(pins@, 0),
                pin_mask(pins@, 1),
            ),
            final(self).regs == old(self).regs.with_pull(final(self).regs.gppud, final(self).regs.gppudclk),
            final(self).regs.gppud.value() == 0,
            forall|b: int| 0 <= b < 2 ==> (#[trigger] final(self).regs.gppudclk[b]).value() == 0,
            final(self).regs.gppud.writes() == old(self).regs.gppud.writes() + seq![state.spec_code(), 0],
            final(self).regs.gppudclk[0].writes() == old(self).regs.gppudclk[0].writes() + seq![pin_mask(pins@, 0), 0],
            final(self).regs.gppudclk[1].writes() == old(self).regs.gppudclk[1].writes() + seq![pin_mask(pins@, 1), 0],
            is_pin_mask(pins@, 0, pin_mask(pins@, 0)),
            is_pin_mask(pins@, 1, pin_mask(pins@, 1)),
    {
        let ghost old_self = *self;
        let ghost base = self.base;
        self.bus.write_rw(&mut self.regs.gppud, state.code());
        self.bus.wait(150);
        let vals = pin_masks(pins);
        self.bus.write_rw(&mut self.regs.gppudclk[0], vals[0]);
        self.bus.write_rw(&mut self.regs.gppudclk[1], vals[1]);
        self.bus.wait(150);
        self.bus.write_rw(&mut self.regs.gppudclk[0], 0);
        self.bus.write_rw(&mut self.regs.gppudclk[1], 0);
        self.bus.write_rw(&mut self.regs.gppud, GPIOPullState::Off.code());
        proof {
            assert(self.regs == old_self.regs.with_pull(self.regs.gppud, self.regs.gppudclk));
            assert(self.regs.gppud.writes() =~= old_self.regs.gppud.writes() + seq![state.spec_code(), 0]);
            assert(self.regs.gppudclk[0].writes() =~= old_self.regs.gppudclk[0].writes() + seq![vals[0], 0]);
            assert(self.regs.gppudclk[1].writes() =~= old_self.regs.gppudclk[1].writes() + seq![vals[1], 0]);
            assert forall|j: int| 0 <= j < 2 implies (#[trigger] self.regs.gppudclk[j]).addr() == old_self.regs.gppudclk[j].addr() by {
                if j == 0 {
                } else {
                }
            }
            assert(self.regs.placed(base));
            assert(old_self.regs.gppudclk[0].addr() == write_addr(base, gppudclk_off(0)));
            assert(old_self.regs.gppudclk[1].addr() == write_addr(base, gppudclk_off(1)));
            assert(self.trace() =~= old_self.trace() + pull_events(base, state.spec_code(), vals[0], vals[1]));
        }
    }

    /// Drives the pins `pins` high: writes bank 0's mask of them to GPSET0,
    /// then bank 1's to GPSET1.
    pub fn set_pin_out(&mut self, pins: &[u32])
        requires
            old(self).wf(),
            forall|k: int| 0 <= k < pins@.len() ==> pins@[k] <= 53,
        ensures
            final(self).wf(),
            GPIO::stays_in_block(*old(self), *final(self)),
            final(self).base == old(self).base,
            final(self).trace() == old(self).trace() + seq![
                write_at(old(self).base, gpset_off(0), pin_mask(pins@, 0)),
                write_at(old(self).base, gpset_off(1), pin_mask(pins@, 1)),
            ],
            final(self).regs == old(self).regs.with_gpset(final(self).regs.gpset),
            final(self).regs.gpset[0].value() == pin_mask(pins@, 0),
            final(self).regs.gpset[1].value() == pin_mask(pins@, 1),
            final(self).regs.gpset[0].writes() == old(self).regs.gpset[0].writes().push(pin_mask(pins@, 0)),
            final(self).regs.gpset[1].writes() == old(self).regs.gpset[1].writes().push(pin_mask(pins@, 1)),
            is_pin_mask(pins@, 0, pin_mask(pins@, 0)),
            is_pin_mask(pins@, 1, pin_mask(pins@, 1)),
    {
        let ghost old_self = *self;
        let ghost base = self.base;
        let vals = pin_masks(pins);
        self.bus.write_w(&mut self.regs.gpset[0], vals[0]);
        self.bus.write_w(&mut self.regs.gpset[1], vals[1]);
        assert(self.regs == old_self.regs.with_gpset(self.regs.gpset));
        assert forall|j: int| 0 <= j < 2 implies (#[trigger] self.regs.gpset[j]).addr() == old_self.regs.gpset[j].addr() by {
            if j == 0 {
            } else {
            }
        }
        assert(self.regs.placed(base));
        assert(old_self.regs.gpset[0].addr() == write_addr(base, gpset_off(0)));
        assert(old_self.regs.gpset[1].addr() == write_addr(base, gpset_off(1)));
        assert(self.trace() =~= old_self.trace() + seq![
            write_at(base, gpset_off(0), vals[0]),
            write_at(base, gpset_off(1), vals[1]),
        ]);
    }

    /// Drives the pins `pins` low: writes bank 0's mask of them to GPCLR0,
    /// then bank 1's to GPCLR1.
    pub fn clear_pin_out(&mut self, pins: &[u32])
        requires
            old(self).wf(),
            forall|k: int| 0 <= k < pins@.len() ==> pins@[k] <= 53,
        ensures
            final(self).wf(),
            GPIO::stays_in_block(*old(self), *final(self)),
            final(self).base == old(self).base,
            final(self).trace() == old(self).trace() + seq![
                write_at(old(self).base, gpclr_off(0), pin_mask(pins@, 0)),
                write_at(old(self).base, gpclr_off(1), pin_mask(pins@, 1)),
            ],
            final(self).regs == old(self).regs.with_gpclr(final(self).regs.gpclr),
            final(self).regs.gpclr[0].value() == pin_mask(pins@, 0),
            final(self).regs.gpclr[1].value() == pin_mask(pins@, 1),
            final(self).regs.gpclr[0].writes() == old(self).regs.gpclr[0].writes().push(pin_mask(pins@, 0)),
            final(self).regs.gpclr[1].writes() == old(self).regs.gpclr[1].writes().push(pin_mask(pins@, 1)),
            is_pin_mask(pins@, 0, pin_mask(pins@, 0)),
            is_pin_mask(pins@, 1, pin_mask(pins@, 1)),
    {
        let ghost old_self = *self;
        let ghost base = self.base;
        let vals = pin_masks(pins);
        self.bus.write_w(&mut self.regs.gpclr[0], vals[0]);
        self.bus.write_w(&mut self.regs.gpclr[1], vals[1]);
        assert(self.regs == old_self.regs.with_gpclr(self.regs.gpclr));
        assert forall|j: int| 0 <= j < 2 implies (#[trigger] self.regs.gpclr[j]).addr() == old_self.regs.gpclr[j].addr() by {
            if j == 0 {
            } else {
            }
        }
        assert(self.regs.placed(base));
        assert(old_self.regs.gpclr[0].addr() == write_addr(base, gpclr_off(0)));
        assert(old_self.regs.gpclr[1].addr() == write_addr(base, gpclr_off(1)));
        assert(self.trace() =~= old_self.trace() + seq![
            write_at(base, gpclr_off(0), vals[0]),
            write_at(base, gpclr_off(1), vals[1]),
        ]);
    }
}

} // verus!
