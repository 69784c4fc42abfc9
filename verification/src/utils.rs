use vstd::prelude::*;

verus! {

// ---------------------------------------------------------------------------
// The bus
// ---------------------------------------------------------------------------

/// Something a driver does on the bus that the devices can observe: a write of
/// `val` to the register at bus address `addr`, or a busy wait of `cycles`
/// loop iterations.
pub enum BusEvent {
    Write { addr: u64, val: u32 },
    Wait { cycles: u64 },
}

/// The write of `val` to the register at offset `offset` of the block at
/// `base`.
pub open spec fn write_at(base: u32, offset: u32, val: u32) -> BusEvent {
    BusEvent::Write { addr: write_addr(base, offset), val }
}

/// The bus address of the register at offset `offset` of the block at `base`.
pub open spec fn write_addr(base: u32, offset: u32) -> u64 {
    (base + offset) as u64
}

/// The value of the last write to `addr` among `events`, or `dflt` if there
/// is none.
pub open spec fn last_write(events: Seq<BusEvent>, addr: u64, dflt: u32) -> u32
    decreases events.len(),
{
    if events.len() == 0 {
        dflt
    } else {
        match events.last() {
            BusEvent::Write { addr: a, val } => if a == addr {
                val
            } else {
                last_write(events.drop_last(), addr, dflt)
            },
            BusEvent::Wait { .. } => last_write(events.drop_last(), addr, dflt),
        }
    }
}

/// The last write among `a` followed by `b` is the last among `b`, if any,
/// and otherwise the last among `a`.
pub proof fn lemma_last_write_concat(a: Seq<BusEvent>, b: Seq<BusEvent>, addr: u64, dflt: u32)
    ensures
        last_write(a + b, addr, dflt) == last_write(b, addr, last_write(a, addr, dflt)),
    decreases b.len(),
{
    if b.len() == 0 {
        assert(a + b =~= a);
    } else {
        assert((a + b).drop_last() =~= a + b.drop_last());
        assert((a + b).last() == b.last());
        lemma_last_write_concat(a, b.drop_last(), addr, dflt);
    }
}

/// The values written to `addr` among `events`, oldest first.
pub open spec fn writes_to(events: Seq<BusEvent>, addr: u64) -> Seq<u32>
    decreases events.len(),
{
    if events.len() == 0 {
        Seq::empty()
    } else {
        let prev = writes_to(events.drop_last(), addr);
        match events.last() {
            BusEvent::Write { addr: a, val } => if a == addr {
                prev.push(val)
            } else {
                prev
            },
            BusEvent::Wait { .. } => prev,
        }
    }
}

/// Whether every write that `new` adds to `old` is to an address from `lo` up
/// to (not including) `hi`.
pub open spec fn writes_within(old: Seq<BusEvent>, new: Seq<BusEvent>, lo: u64, hi: u64) -> bool {
    forall|x: u64| (x < lo || hi <= x) ==> #[trigger] writes_to(new, x) == writes_to(old, x)
}

/// The value that the event `e` writes to `addr`, if it writes there.
pub open spec fn write_of(e: BusEvent, addr: u64) -> Seq<u32> {
    match e {
        BusEvent::Write { addr: a, val } => if a == addr {
            seq![val]
        } else {
            Seq::empty()
        },
        BusEvent::Wait { .. } => Seq::empty(),
    }
}

/// The writes to an address among events followed by one more event.
pub proof fn lemma_writes_to_pushes()
    ensures
        forall|s: Seq<BusEvent>, e: BusEvent, x: u64| #[trigger] writes_to(s.push(e), x) == writes_to(s, x) + write_of(e, x),
{
    assert forall|s: Seq<BusEvent>, e: BusEvent, x: u64| #[trigger] writes_to(s.push(e), x) == writes_to(s, x) + write_of(e, x) by {
        assert(s.push(e).drop_last() =~= s);
        assert(s.push(e).last() == e);
        let w = writes_to(s, x);
        match e {
            BusEvent::Write { addr: a, val } => {
                if a == x {
                    assert(w.push(val) =~= w + seq![val]);
                } else {
                    assert(w =~= w + Seq::<u32>::empty());
                }
            },
            BusEvent::Wait { .. } => {
                assert(w =~= w + Seq::<u32>::empty());
            },
        }
    }
}

/// The writes to `addr` among `a` followed by `b` are those among `a`
/// followed by those among `b`.
pub proof fn lemma_writes_to_concat(a: Seq<BusEvent>, b: Seq<BusEvent>, addr: u64)
    ensures
        writes_to(a + b, addr) == writes_to(a, addr) + writes_to(b, addr),
    decreases b.len(),
{
    if b.len() == 0 {
        assert(a + b =~= a);
        assert(writes_to(a, addr) + writes_to(b, addr) =~= writes_to(a, addr));
    } else {
        assert((a + b).drop_last() =~= a + b.drop_last());
        assert((a + b).last() == b.last());
        lemma_writes_to_concat(a, b.drop_last(), addr);
        let wa = writes_to(a, addr);
        let wb = writes_to(b.drop_last(), addr);
        match b.last() {
            BusEvent::Write { addr: x, val } => {
                if x == addr {
                    assert((wa + wb).push(val) =~= wa + wb.push(val));
                }
            },
            BusEvent::Wait { .. } => {},
        }
    }
}

proof fn lemma_writes_to_push(events: Seq<BusEvent>, e: BusEvent)
    ensures
        forall|x: u64|
            #[trigger] writes_to(events.push(e), x) == match e {
                BusEvent::Write { addr, val } => if addr == x {
                    writes_to(events, x).push(val)
                } else {
                    writes_to(events, x)
                },
                BusEvent::Wait { .. } => writes_to(events, x),
            },
{
    assert(events.push(e).drop_last() =~= events);
}

// ---------------------------------------------------------------------------
// Register cells
// ---------------------------------------------------------------------------

/// A read-write control register at bus address `addr`: a read gives what was
/// last written (or the value it started with).
pub struct RW<T> {
    reg: T,
    addr: Ghost<u64>,
    hist: Ghost<Seq<T>>,
}

/// A read-write register whose reads come from its device, such as a data
/// register: a read gives the next value the device presents, if it has one
/// queued (`feed`), and otherwise the value the register holds; the value read
/// is then the value held. A write hands a value to the device.
pub struct DevRW<T> {
    reg: T,
    feed: Vec<T>,
    addr: Ghost<u64>,
    hist: Ghost<Seq<T>>,
}

/// A read-only device register: the device sets it, drivers only read it,
/// with the same reading rule as `DevRW`.
pub struct R<T> {
    reg: T,
    feed: Vec<T>,
    addr: Ghost<u64>,
}

/// A write-only device register: drivers only write it.
#[derive(Clone, Copy)]
pub struct W<T> {
    reg: T,
    addr: Ghost<u64>,
    hist: Ghost<Seq<T>>,
}

/// The value a read of a register that holds `value` and has the queue `feed`
/// gives.
pub open spec fn next_read<T>(value: T, feed: Seq<T>) -> T {
    if feed.len() > 0 {
        feed[0]
    } else {
        value
    }
}

/// The queue left after one read of a register with the queue `feed`.
pub open spec fn feed_after_read<T>(feed: Seq<T>) -> Seq<T> {
    if feed.len() > 0 {
        feed.drop_first()
    } else {
        feed
    }
}

impl<T: Copy> RW<T> {
    /// The value the register holds.
    pub closed spec fn value(&self) -> T {
        self.reg
    }

    /// The register's bus address.
    pub closed spec fn addr(&self) -> u64 {
        self.addr@
    }

    /// The values written to the register, oldest first.
    pub closed spec fn writes(&self) -> Seq<T> {
        self.hist@
    }

    /// The register at bus address `addr`, holding `val`.
    pub fn new(addr: u64, val: T) -> (r: Self)
        ensures
            r.value() == val,
            r.addr() == addr,
            r.writes() == Seq::<T>::empty(),
    {
        RW { reg: val, addr: Ghost(addr), hist: Ghost(Seq::empty()) }
    }

    /// Reads the register.
    pub fn read(&self) -> (val: T)
        ensures
            val == self.value(),
    {
        self.reg
    }

    /// The value the register holds.
    pub fn current(&self) -> (val: T)
        ensures
            val == self.value(),
    {
        self.reg
    }

    fn write(&mut self, val: T)
        ensures
            final(self).value() == val,
            final(self).writes() == old(self).writes().push(val),
            final(self).addr() == old(self).addr(),
    {
        self.reg = val;
        self.hist = Ghost(self.hist@.push(val));
    }
}

impl<T: Copy> DevRW<T> {
    /// The value the register holds.
    pub closed spec fn value(&self) -> T {
        self.reg
    }

    /// The values the device will present at the next reads, in order.
    pub closed spec fn feed(&self) -> Seq<T> {
        self.feed@
    }

    /// The register's bus address.
    pub closed spec fn addr(&self) -> u64 {
        self.addr@
    }

    /// The values written to the register, oldest first.
    pub closed spec fn writes(&self) -> Seq<T> {
        self.hist@
    }

    /// The value the next read gives.
    pub open spec fn now(&self) -> T {
        next_read(self.value(), self.feed())
    }

    /// The register at bus address `addr`, holding `val`, whose device
    /// presents nothing new.
    pub fn new(addr: u64, val: T) -> (r: Self)
        ensures
            r.value() == val,
            r.feed() == Seq::<T>::empty(),
            r.addr() == addr,
            r.writes() == Seq::<T>::empty(),
    {
        DevRW { reg: val, feed: Vec::new(), addr: Ghost(addr), hist: Ghost(Seq::empty()) }
    }

    /// The register at bus address `addr`, holding `val`, whose device will
    /// present the values of `feed` at the next reads.
    pub fn with_feed(addr: u64, val: T, feed: Vec<T>) -> (r: Self)
        ensures
            r.value() == val,
            r.feed() == feed@,
            r.addr() == addr,
            r.writes() == Seq::<T>::empty(),
    {
        DevRW { reg: val, feed, addr: Ghost(addr), hist: Ghost(Seq::empty()) }
    }

    /// Reads the register: it then holds the next value its device presents,
    /// or keeps its value when the device presents nothing new.
    pub fn read(&mut self) -> (val: T)
        ensures
            val == old(self).now(),
            final(self).value() == val,
            final(self).feed() == feed_after_read(old(self).feed()),
            final(self).addr() == old(self).addr(),
            final(self).writes() == old(self).writes(),
    {
        if self.feed.len() > 0 {
            self.reg = self.feed.remove(0);
        }
        self.reg
    }

    /// The value the register holds, without reading the device.
    pub fn current(&self) -> (val: T)
        ensures
            val == self.value(),
    {
        self.reg
    }

    fn write(&mut self, val: T)
        ensures
            final(self).value() == val,
            final(self).writes() == old(self).writes().push(val),
            final(self).feed() == old(self).feed(),
            final(self).addr() == old(self).addr(),
    {
        self.reg = val;
        self.hist = Ghost(self.hist@.push(val));
    }
}

impl<T: Copy> R<T> {
    /// The value the register holds.
    pub closed spec fn value(&self) -> T {
        self.reg
    }

    /// The values the device will present at the next reads, in order.
    pub closed spec fn feed(&self) -> Seq<T> {
        self.feed@
    }

    /// The register's bus address.
    pub closed spec fn addr(&self) -> u64 {
        self.addr@
    }

    /// The value the next read gives.
    pub open spec fn now(&self) -> T {
        next_read(self.value(), self.feed())
    }

    /// The register at bus address `addr`, holding `val`, whose device
    /// presents nothing new.
    pub fn new(addr: u64, val: T) -> (r: Self)
        ensures
            r.value() == val,
            r.feed() == Seq::<T>::empty(),
            r.addr() == addr,
    {
        R { reg: val, feed: Vec::new(), addr: Ghost(addr) }
    }

    /// The register at bus address `addr`, holding `val`, whose device will
    /// present the values of `feed` at the next reads.
    pub fn with_feed(addr: u64, val: T, feed: Vec<T>) -> (r: Self)
        ensures
            r.value() == val,
            r.feed() == feed@,
            r.addr() == addr,
    {
        R { reg: val, feed, addr: Ghost(addr) }
    }

    /// Reads the register: it then holds the next value its device presents,
    /// or keeps its value when the device presents nothing new.
    pub fn read(&mut self) -> (val: T)
        ensures
            val == old(self).now(),
            final(self).value() == val,
            final(self).feed() == feed_after_read(old(self).feed()),
            final(self).addr() == old(self).addr(),
    {
        if self.feed.len() > 0 {
            self.reg = self.feed.remove(0);
        }
        self.reg
    }

    /// The value the register holds, without reading the device.
    pub fn current(&self) -> (val: T)
        ensures
            val == self.value(),
    {
        self.reg
    }
}

impl<T: Copy> W<T> {
    /// The value last written (or the initial value if none was).
    pub closed spec fn value(&self) -> T {
        self.reg
    }

    /// The register's bus address.
    pub closed spec fn addr(&self) -> u64 {
        self.addr@
    }

    /// The values written to the register, oldest first.
    pub closed spec fn writes(&self) -> Seq<T> {
        self.hist@
    }

    /// The register at bus address `addr`, holding `val`.
    pub fn new(addr: u64, val: T) -> (r: Self)
        ensures
            r.value() == val,
            r.addr() == addr,
            r.writes() == Seq::<T>::empty(),
    {
        W { reg: val, addr: Ghost(addr), hist: Ghost(Seq::empty()) }
    }

    fn write(&mut self, val: T)
        ensures
            final(self).value() == val,
            final(self).writes() == old(self).writes().push(val),
            final(self).addr() == old(self).addr(),
    {
        self.reg = val;
        self.hist = Ghost(self.hist@.push(val));
    }

    /// The value last written (what the device was last handed).
    pub fn written(&self) -> (val: T)
        ensures
            val == self.value(),
    {
        self.reg
    }
}

// ---------------------------------------------------------------------------
// The record of the bus
// ---------------------------------------------------------------------------

/// The record of what a driver has done on the bus, oldest first. It grows only
/// by the writes and waits below, each of which makes the write or the wait it
/// records: a register is written only through here.
pub struct Bus {
    log: Ghost<Seq<BusEvent>>,
}

impl Bus {
    /// What has been done, oldest first.
    pub closed spec fn events(&self) -> Seq<BusEvent> {
        self.log@
    }

    /// A record of nothing.
    pub fn new() -> (b: Bus)
        ensures
            b.events() == Seq::<BusEvent>::empty(),
    {
        Bus { log: Ghost(Seq::empty()) }
    }

    /// Writes `val` to the control register `cell`.
    pub fn write_rw(&mut self, cell: &mut RW<u32>, val: u32)
        ensures
            final(cell).value() == val,
            final(cell).addr() == old(cell).addr(),
            final(cell).writes() == old(cell).writes().push(val),
            final(self).events() == old(self).events().push(BusEvent::Write { addr: old(cell).addr(), val }),
            forall|x: u64|
                #[trigger] writes_to(final(self).events(), x) == if x == old(cell).addr() {
                    writes_to(old(self).events(), x).push(val)
                } else {
                    writes_to(old(self).events(), x)
                },
    {
        proof {
            lemma_writes_to_push(self.log@, BusEvent::Write { addr: cell.addr@, val });
        }
        cell.write(val);
        self.log = Ghost(self.log@.push(BusEvent::Write { addr: cell.addr@, val }));
    }

    /// Writes `val` to the device register `cell`.
    pub fn write_dev(&mut self, cell: &mut DevRW<u32>, val: u32)
        ensures
            final(cell).value() == val,
            final(cell).feed() == old(cell).feed(),
            final(cell).addr() == old(cell).addr(),
            final(cell).writes() == old(cell).writes().push(val),
            final(self).events() == old(self).events().push(BusEvent::Write { addr: old(cell).addr(), val }),
            forall|x: u64|
                #[trigger] writes_to(final(self).events(), x) == if x == old(cell).addr() {
                    writes_to(old(self).events(), x).push(val)
                } else {
                    writes_to(old(self).events(), x)
                },
    {
        proof {
            lemma_writes_to_push(self.log@, BusEvent::Write { addr: cell.addr@, val });
        }
        cell.write(val);
        self.log = Ghost(self.log@.push(BusEvent::Write { addr: cell.addr@, val }));
    }

    /// Writes `val` to the write-only register `cell`.
    pub fn write_w(&mut self, cell: &mut W<u32>, val: u32)
        ensures
            final(cell).value() == val,
            final(cell).addr() == old(cell).addr(),
            final(cell).writes() == old(cell).writes().push(val),
            final(self).events() == old(self).events().push(BusEvent::Write { addr: old(cell).addr(), val }),
            forall|x: u64|
                #[trigger] writes_to(final(self).events(), x) == if x == old(cell).addr() {
                    writes_to(old(self).events(), x).push(val)
                } else {
                    writes_to(old(self).events(), x)
                },
    {
        proof {
            lemma_writes_to_push(self.log@, BusEvent::Write { addr: cell.addr@, val });
        }
        cell.write(val);
        self.log = Ghost(self.log@.push(BusEvent::Write { addr: cell.addr@, val }));
    }

    /// Busy-waits for `cycles` iterations.
    pub fn wait(&mut self, cycles: u64)
        ensures
            final(self).events() == old(self).events().push(BusEvent::Wait { cycles }),
            forall|x: u64| #[trigger] writes_to(final(self).events(), x) == writes_to(old(self).events(), x),
    {
        let spun = delay(cycles);
        proof {
            lemma_writes_to_push(self.log@, BusEvent::Wait { cycles: spun@ as u64 });
        }
        self.log = Ghost(self.log@.push(BusEvent::Wait { cycles: spun@ as u64 }));
    }

    /// Busy-waits for about `ms` milliseconds (see `delay_ms`).
    pub fn wait_ms(&mut self, ms: u64)
        requires
            6000 * ms <= u64::MAX,
        ensures
            final(self).events() == old(self).events().push(BusEvent::Wait { cycles: (6000 * ms) as u64 }),
            forall|x: u64| #[trigger] writes_to(final(self).events(), x) == writes_to(old(self).events(), x),
    {
        let spun = delay_ms(ms);
        proof {
            lemma_writes_to_push(self.log@, BusEvent::Wait { cycles: spun@ as u64 });
        }
        self.log = Ghost(self.log@.push(BusEvent::Wait { cycles: spun@ as u64 }));
    }

    /// Busy-waits for about `s` seconds (see `delay_s`).
    pub fn wait_s(&mut self, s: u64)
        requires
            6000000 * s <= u64::MAX,
        ensures
            final(self).events() == old(self).events().push(BusEvent::Wait { cycles: (6000000 * s) as u64 }),
            forall|x: u64| #[trigger] writes_to(final(self).events(), x) == writes_to(old(self).events(), x),
    {
        let spun = delay_s(s);
        proof {
            lemma_writes_to_push(self.log@, BusEvent::Wait { cycles: spun@ as u64 });
        }
        self.log = Ghost(self.log@.push(BusEvent::Wait { cycles: spun@ as u64 }));
    }
}

} // verus!

verus! {

// ---------------------------------------------------------------------------
// Bit-level vocabulary
// ---------------------------------------------------------------------------

/// Whether bit `i` of `v` is set.
pub open spec fn bit(v: u32, i: u32) -> bool {
    (v >> i) & 1u32 == 1u32
}

/// Whether bit `i` of `v` is set.
pub open spec fn bit64(v: u64, i: u64) -> bool {
    (v >> i) & 1u64 == 1u64
}

/// Whether `v` has no bit set at position `width` or above.
pub open spec fn fits(v: u32, width: u32) -> bool {
    forall|i: u32| width <= i < 32 ==> !bit(v, i)
}

/// Bit `i` of `a & b` is set when it is set in both.
pub proof fn lemma_bit_and(a: u32, b: u32, i: u32)
    requires
        i < 32,
    ensures
        bit(a & b, i) == (bit(a, i) && bit(b, i)),
{
    assert((((a & b) >> i) & 1u32 == 1u32) == (((a >> i) & 1u32 == 1u32) && ((b >> i) & 1u32
        == 1u32))) by (bit_vector)
        requires
            i < 32,
    ;
}

/// Bit `i` of `a | b` is set when it is set in either.
pub proof fn lemma_bit_or(a: u32, b: u32, i: u32)
    requires
        i < 32,
    ensures
        bit(a | b, i) == (bit(a, i) || bit(b, i)),
{
    assert((((a | b) >> i) & 1u32 == 1u32) == (((a >> i) & 1u32 == 1u32) || ((b >> i) & 1u32
        == 1u32))) by (bit_vector)
        requires
            i < 32,
    ;
}

/// Bit `i` of `!a` is set when it is clear in `a`.
pub proof fn lemma_bit_not(a: u32, i: u32)
    requires
        i < 32,
    ensures
        bit(!a, i) == !bit(a, i),
{
    assert((((!a) >> i) & 1u32 == 1u32) == !((a >> i) & 1u32 == 1u32)) by (bit_vector)
        requires
            i < 32,
    ;
}

/// Bit `i` of `a >> s` is bit `i + s` of `a`, and clear from bit `32 - s` up.
pub proof fn lemma_bit_shr(a: u32, s: u32, i: u32)
    requires
        s < 32,
        i < 32,
    ensures
        bit(a >> s, i) == (i + s < 32 && bit(a, (i + s) as u32)),
{
    let j: u32 = (i + s) as u32;
    if i + s < 32 {
        assert((((a >> s) >> i) & 1u32 == 1u32) == ((a >> j) & 1u32 == 1u32)) by (bit_vector)
            requires
                s < 32,
                i < 32,
                j == i + s,
        ;
    } else {
        assert(((a >> s) >> i) & 1u32 == 0u32) by (bit_vector)
            requires
                s < 32,
                i < 32,
                i + s >= 32,
        ;
    }
}

/// Bit `i` of `a << s` is bit `i - s` of `a`, and clear below `s`.
pub proof fn lemma_bit_shl(a: u32, s: u32, i: u32)
    requires
        s < 32,
        i < 32,
    ensures
        bit(a << s, i) == (s <= i && bit(a, (i - s) as u32)),
{
    if s <= i {
        let j: u32 = (i - s) as u32;
        assert((((a << s) >> i) & 1u32 == 1u32) == ((a >> j) & 1u32 == 1u32)) by (bit_vector)
            requires
                s < 32,
                i < 32,
                j == i - s,
        ;
    } else {
        assert(((a << s) >> i) & 1u32 == 0u32) by (bit_vector)
            requires
                s < 32,
                i < 32,
                i < s,
        ;
    }
}

proof fn lemma_shr_eq_from(a: u32, b: u32, k: u32)
    requires
        k < 32,
        forall|i: u32| i < 32 ==> bit(a, i) == bit(b, i),
    ensures
        a >> k == b >> k,
    decreases 31 - k,
{
    if k == 31 {
        assert(bit(a, 31) == bit(b, 31));
        assert(((a >> 31u32) & 1u32 == 1u32) == ((b >> 31u32) & 1u32 == 1u32) ==> a >> 31u32 == b
            >> 31u32) by (bit_vector);
    } else {
        lemma_shr_eq_from(a, b, (k + 1) as u32);
        assert(bit(a, k) == bit(b, k));
        let k1: u32 = (k + 1) as u32;
        assert((a >> k1 == b >> k1 && (((a >> k) & 1u32 == 1u32) == ((b >> k) & 1u32 == 1u32)))
            ==> a >> k == b >> k) by (bit_vector)
            requires
                k < 31,
                k1 == k + 1,
        ;
    }
}

/// Two words with the same bits are the same word.
pub proof fn lemma_bits_eq(a: u32, b: u32)
    requires
        forall|i: u32| i < 32 ==> bit(a, i) == bit(b, i),
    ensures
        a == b,
{
    lemma_shr_eq_from(a, b, 0);
    assert(a >> 0u32 == a && b >> 0u32 == b) by (bit_vector);
}

// ---------------------------------------------------------------------------
// Bit ranges
// ---------------------------------------------------------------------------

/// Whether `m` has exactly the bits `lsb..=msb` set.
pub open spec fn is_range_mask(msb: u32, lsb: u32, m: u32) -> bool {
    forall|i: u32| i < 32 ==> (#[trigger] bit(m, i) <==> lsb <= i <= msb)
}

/// Whether `r` is `v` with bits `lsb..=msb` cleared.
pub open spec fn is_range_clear(v: u32, msb: u32, lsb: u32, r: u32) -> bool {
    forall|i: u32| i < 32 ==> #[trigger] bit(r, i) == (bit(v, i) && !(lsb <= i <= msb))
}

/// Whether `r` is `v` with bits `lsb..=msb` holding the low bits of `x`.
pub open spec fn is_range_set(v: u32, x: u32, msb: u32, lsb: u32, r: u32) -> bool {
    forall|i: u32|
        i < 32 ==> #[trigger] bit(r, i) == if lsb <= i <= msb {
            bit(x, (i - lsb) as u32)
        } else {
            bit(v, i)
        }
}

/// Whether `r` is bits `lsb..=msb` of `v`, moved down to bit 0.
pub open spec fn is_range_get(v: u32, msb: u32, lsb: u32, r: u32) -> bool {
    forall|i: u32| i < 32 ==> #[trigger] bit(r, i) == (i <= msb - lsb && bit(v, (i + lsb) as u32))
}

/// A mask whose bits `lsb..=msb` are set and whose other bits are clear.
pub fn bit_range_mask32(msb: u32, lsb: u32) -> (mask: u32)
    requires
        msb < 32,
        lsb <= msb,
    ensures
        is_range_mask(msb, lsb, mask),
{
    let width: u32 = 32;
    let val = (!0u32) >> (width - 1 - msb);
    let mask = ((!0u32) << lsb) & val;
    assert forall|i: u32| i < 32 implies (bit(mask, i) <==> lsb <= i <= msb) by {
        let sh: u32 = (31 - msb) as u32;
        assert(((((!0u32) << lsb) & ((!0u32) >> sh)) >> i) & 1u32 == 1u32 <==> lsb <= i <= msb)
            by (bit_vector)
            requires
                msb < 32,
                sh == 31 - msb,
                lsb <= msb,
                i < 32,
        ;
    }
    mask
}

/// `val` with bits `lsb..=msb` cleared.
pub fn bit_range_clear(val: u32, msb: u32, lsb: u32) -> (res: u32)
    requires
        msb < 32,
        lsb <= msb,
    ensures
        is_range_clear(val, msb, lsb, res),
{
    let mask = bit_range_mask32(msb, lsb);
    let res = val & (!mask);
    assert forall|i: u32| i < 32 implies bit(res, i) == (bit(val, i) && !(lsb <= i <= msb)) by {
        lemma_bit_and(val, !mask, i);
        lemma_bit_not(mask, i);
    }
    res
}

/// `old_val` with bits `lsb..=msb` replaced by the low bits of `set_val`.
pub fn bit_range_set(old_val: u32, set_val: u32, msb: u32, lsb: u32) -> (res: u32)
    requires
        msb < 32,
        lsb <= msb,
        fits(set_val, (msb - lsb + 1) as u32),
    ensures
        is_range_set(old_val, set_val, msb, lsb, res),
{
    let cleared_val = bit_range_clear(old_val, msb, lsb);
    let set_mask = bit_range_mask32(msb - lsb, 0);
    let final_set_val = set_val & set_mask;
    assert(final_set_val == set_val) by {
        assert forall|i: u32| i < 32 implies bit(final_set_val, i) == bit(set_val, i) by {
            lemma_bit_and(set_val, set_mask, i);
        }
        lemma_bits_eq(final_set_val, set_val);
    }
    let res = cleared_val | (final_set_val << lsb);
    assert forall|i: u32|
        i < 32 implies bit(res, i) == if lsb <= i <= msb {
            bit(set_val, (i - lsb) as u32)
        } else {
            bit(old_val, i)
        } by {
        lemma_bit_or(cleared_val, final_set_val << lsb, i);
        lemma_bit_shl(final_set_val, lsb, i);
    }
    res
}

/// The value of bits `lsb..=msb` of `val`, moved down to bit 0.
pub fn bit_range_get(val: u32, msb: u32, lsb: u32) -> (res: u32)
    requires
        msb < 32,
        lsb <= msb,
    ensures
        is_range_get(val, msb, lsb, res),
{
    let mask = bit_range_mask32(msb, lsb);
    let res = (val & mask) >> lsb;
    assert forall|i: u32| i < 32 implies bit(res, i) == (i <= msb - lsb && bit(val, (i + lsb) as u32)) by {
        lemma_bit_shr(val & mask, lsb, i);
        if i + lsb < 32 {
            lemma_bit_and(val, mask, (i + lsb) as u32);
        }
    }
    res
}

/// The value of bits `lsb..=msb` of `val`, moved down to bit 0.
pub fn bit_range_get64(val: u64, msb: u64, lsb: u64) -> (res: u64)
    requires
        msb < 64,
        lsb <= msb,
    ensures
        forall|i: u64|
            i < 64 ==> bit64(res, i) == (i <= msb - lsb && bit64(val, (i + lsb) as u64)),
{
    let width: u64 = msb - lsb;
    let sh: u64 = 63 - width;
    let res = (val >> lsb) & ((!0u64) >> sh);
    assert forall|i: u64| i < 64 implies bit64(res, i) == (i <= msb - lsb && bit64(val, (i + lsb) as u64)) by {
        let j: u64 = (i + lsb) as u64;
        if i + lsb < 64 {
            assert(((((val >> lsb) & ((!0u64) >> sh)) >> i) & 1u64 == 1u64) == (i <= width && (
            (val >> j) & 1u64 == 1u64))) by (bit_vector)
                requires
                    lsb < 64,
                    width < 64,
                    sh == 63 - width,
                    i < 64,
                    j == i + lsb,
                    j < 64,
            ;
        } else {
            assert(((((val >> lsb) & ((!0u64) >> sh)) >> i) & 1u64) == 0u64) by (bit_vector)
                requires
                    lsb < 64,
                    width < 64,
                    width + lsb < 64,
                    sh == 63 - width,
                    i < 64,
                    i + lsb >= 64,
            ;
        }
    }
    res
}


// ---------------------------------------------------------------------------
// Laws of bit ranges
// ---------------------------------------------------------------------------

/// A field read from a word has no bit above the field's width.
pub proof fn lemma_get_fits(v: u32, msb: u32, lsb: u32, g: u32)
    requires
        msb < 32,
        lsb <= msb,
        is_range_get(v, msb, lsb, g),
    ensures
        fits(g, (msb - lsb + 1) as u32),
{
    assert forall|i: u32| (msb - lsb + 1) as u32 <= i < 32 implies !bit(g, i) by {
        assert(bit(g, i) == (i <= msb - lsb && bit(v, (i + lsb) as u32)));
    }
}

/// Reading a field back after setting it to `x` gives `x`.
pub proof fn lemma_get_after_set(v: u32, x: u32, msb: u32, lsb: u32, s: u32, g: u32)
    requires
        msb < 32,
        lsb <= msb,
        fits(x, (msb - lsb + 1) as u32),
        is_range_set(v, x, msb, lsb, s),
        is_range_get(s, msb, lsb, g),
    ensures
        g == x,
{
    assert forall|i: u32| i < 32 implies bit(g, i) == bit(x, i) by {
        assert(bit(g, i) == (i <= msb - lsb && bit(s, (i + lsb) as u32)));
        if i <= msb - lsb {
            assert(bit(s, (i + lsb) as u32) == bit(x, ((i + lsb) as u32 - lsb) as u32));
        }
    }
    lemma_bits_eq(g, x);
}

/// Setting a field to the value it already holds leaves the word as it is.
pub proof fn lemma_set_to_get(v: u32, msb: u32, lsb: u32, g: u32, s: u32)
    requires
        msb < 32,
        lsb <= msb,
        is_range_get(v, msb, lsb, g),
        is_range_set(v, g, msb, lsb, s),
    ensures
        s == v,
{
    assert forall|i: u32| i < 32 implies bit(s, i) == bit(v, i) by {
        if lsb <= i <= msb {
            assert(bit(g, (i - lsb) as u32) == bit(v, ((i - lsb) as u32 + lsb) as u32));
        }
    }
    lemma_bits_eq(s, v);
}

/// Clearing a field is setting it to zero.
pub proof fn lemma_clear_is_set_zero(v: u32, msb: u32, lsb: u32, c: u32, s: u32)
    requires
        msb < 32,
        lsb <= msb,
        is_range_clear(v, msb, lsb, c),
        is_range_set(v, 0, msb, lsb, s),
    ensures
        c == s,
{
    assert forall|i: u32| i < 32 implies bit(c, i) == bit(s, i) by {
        if lsb <= i <= msb {
            let j = (i - lsb) as u32;
            assert((0u32 >> j) & 1u32 != 1u32) by (bit_vector);
        }
    }
    lemma_bits_eq(c, s);
}

/// Setting a field twice is setting it once, to the second value.
pub proof fn lemma_set_twice(v: u32, a: u32, b: u32, msb: u32, lsb: u32, s1: u32, s2: u32, s3: u32)
    requires
        msb < 32,
        lsb <= msb,
        is_range_set(v, a, msb, lsb, s1),
        is_range_set(s1, b, msb, lsb, s2),
        is_range_set(v, b, msb, lsb, s3),
    ensures
        s2 == s3,
{
    assert forall|i: u32| i < 32 implies bit(s2, i) == bit(s3, i) by {
        assert(bit(s2, i) == if lsb <= i <= msb { bit(b, (i - lsb) as u32) } else { bit(s1, i) });
        assert(bit(s1, i) == if lsb <= i <= msb { bit(a, (i - lsb) as u32) } else { bit(v, i) });
    }
    lemma_bits_eq(s2, s3);
}

proof fn lemma_shr_eq_from64(a: u64, b: u64, k: u64)
    requires
        k < 64,
        forall|i: u64| i < 64 ==> bit64(a, i) == bit64(b, i),
    ensures
        a >> k == b >> k,
    decreases 63 - k,
{
    if k == 63 {
        assert(bit64(a, 63) == bit64(b, 63));
        assert(((a >> 63u64) & 1u64 == 1u64) == ((b >> 63u64) & 1u64 == 1u64) ==> a >> 63u64 == b
            >> 63u64) by (bit_vector);
    } else {
        lemma_shr_eq_from64(a, b, (k + 1) as u64);
        assert(bit64(a, k) == bit64(b, k));
        let k1: u64 = (k + 1) as u64;
        assert((a >> k1 == b >> k1 && (((a >> k) & 1u64 == 1u64) == ((b >> k) & 1u64 == 1u64)))
            ==> a >> k == b >> k) by (bit_vector)
            requires
                k < 63,
                k1 == k + 1,
        ;
    }
}

/// Two 64-bit words with the same bits are the same word.
pub proof fn lemma_bits_eq64(a: u64, b: u64)
    requires
        forall|i: u64| i < 64 ==> bit64(a, i) == bit64(b, i),
    ensures
        a == b,
{
    lemma_shr_eq_from64(a, b, 0);
    assert(a >> 0u64 == a && b >> 0u64 == b) by (bit_vector);
}

// ---------------------------------------------------------------------------
// Busy waiting
// ---------------------------------------------------------------------------

/// Calls `core::hint::black_box` on the iteration count `i`, so that the
/// compiler keeps each iteration of a busy-wait loop. Nothing is claimed of it:
/// its result is dropped and it changes no state that the library models.
#[verifier::external_body]
fn spin_once(i: u64) {
    core::hint::black_box(i);
}

/// Busy-waits for `cycle_count` iterations; gives the number of iterations
/// made.
pub fn delay(cycle_count: u64) -> (spun: Ghost<nat>)
    ensures
        spun@ == cycle_count,
{
    let mut i: u64 = 0;
    while i < cycle_count
        invariant
            i <= cycle_count,
        decreases cycle_count - i,
    {
        spin_once(i);
        i = i + 1;
    }
    Ghost(i as nat)
}

/// Busy-waits for about `us` microseconds (six iterations each); gives the
/// number of iterations made.
pub fn delay_us(us: u64) -> (spun: Ghost<nat>)
    requires
        6 * us <= u64::MAX,
    ensures
        spun@ == 6 * us,
{
    delay(6 * us)
}

/// Busy-waits for about `ms` milliseconds; gives the number of iterations made.
pub fn delay_ms(ms: u64) -> (spun: Ghost<nat>)
    requires
        6000 * ms <= u64::MAX,
    ensures
        spun@ == 6000 * ms,
{
    delay_us(1000 * ms)
}

/// Busy-waits for about `s` seconds; gives the number of iterations made.
pub fn delay_s(s: u64) -> (spun: Ghost<nat>)
    requires
        6000000 * s <= u64::MAX,
    ensures
        spun@ == 6000000 * s,
{
    delay_ms(1000 * s)
}

} // verus!
