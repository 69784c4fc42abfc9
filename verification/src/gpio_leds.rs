use vstd::prelude::*;
use crate::gpio::{gpclr_off, gpset_off, pin_mask, GPIOFunc, GPIORegs, GPIO};
use crate::utils::{bit, bit_range_get, last_write, lemma_bits_eq, lemma_last_write_concat, write_addr, write_at, BusEvent};

verus! {

/// How many LEDs the board carries.
pub const LED_COUNT: usize = 4;

/// The largest code that the LEDs can show (all of them lit).
pub const MAX_CODE: u32 = 15;

/// The pin of each LED; LED `b` shows bit `b` of a code.
pub const LED_PINS: [u32; 4] = [6, 13, 19, 26];

/// The pin of LED `b`.
pub open spec fn led_pin(b: int) -> u32 {
    if b == 0 {
        6
    } else if b == 1 {
        13
    } else if b == 2 {
        19
    } else {
        26
    }
}

/// What showing `code` on the first `n` LEDs does on the bus of the GPIO block
/// at `base`, LED 0 first: LED `b` is switched on, when bit `b` of `code` is
/// set, by writing its mask to GPSET0 and zero to GPSET1, and switched off
/// otherwise by the same writes to GPCLR0 and GPCLR1.
pub open spec fn led_events(base: u32, code: u32, n: nat) -> Seq<BusEvent>
    decreases n,
{
    if n == 0 {
        Seq::empty()
    } else {
        let b = n - 1;
        let m = 1u32 << led_pin(b);
        led_events(base, code, (n - 1) as nat) + if bit(code, b as u32) {
            seq![write_at(base, gpset_off(0), m), write_at(base, gpset_off(1), 0)]
        } else {
            seq![write_at(base, gpclr_off(0), m), write_at(base, gpclr_off(1), 0)]
        }
    }
}

/// What showing each code of `codes` in turn, with a wait of `cycles` after
/// each, does on the bus of the GPIO block at `base`.
pub open spec fn show_events(base: u32, codes: Seq<u32>, cycles: u64) -> Seq<BusEvent>
    decreases codes.len(),
{
    if codes.len() == 0 {
        Seq::empty()
    } else {
        show_events(base, codes.drop_last(), cycles) + led_events(base, codes.last(), 4) + seq![
            BusEvent::Wait { cycles },
        ]
    }
}

/// Whether the GPIO registers `new` are `old` after the LED writes `events`
/// on the bus of the block at `base`: only GPSET and GPCLR changed, each to
/// the last value `events` write to it.
pub open spec fn leds_regs(old: GPIORegs, new: GPIORegs, base: u32, events: Seq<BusEvent>) -> bool {
    &&& new == old.with_gpset(new.gpset).with_gpclr(new.gpclr)
    &&& forall|b: int|
        0 <= b < 2 ==> {
            &&& (#[trigger] new.gpset[b]).value() == last_write(events, write_addr(base, gpset_off(b)), old.gpset[b].value())
            &&& new.gpclr[b].value() == last_write(events, write_addr(base, gpclr_off(b)), old.gpclr[b].value())
        }
}

/// Whether `new` is `old` after the LED writes `events`: the record grew by
/// `events`, and the registers changed as `leds_regs` says.
pub open spec fn leds_shown(old: GPIO, new: GPIO, events: Seq<BusEvent>) -> bool {
    &&& new.base == old.base
    &&& GPIO::stays_in_block(old, new)
    &&& new.trace() == old.trace() + events
    &&& leds_regs(old.regs, new.regs, old.base, events)
}

proof fn lemma_single_pin_mask(pin: u32)
    requires
        pin < 32,
    ensures
        pin_mask(seq![pin], 0) == 1u32 << pin,
        pin_mask(seq![pin], 1) == 0,
{
    let s = seq![pin];
    assert(s.drop_last() =~= Seq::<u32>::empty());
    assert(s.last() == pin);
    assert(pin_mask(Seq::<u32>::empty(), 0) == 0);
    assert(pin_mask(Seq::<u32>::empty(), 1) == 0);
    assert(0u32 | (1u32 << pin) == 1u32 << pin) by (bit_vector);
}

proof fn lemma_last_write_pair(a0: u64, v0: u32, a1: u64, v1: u32, x: u64, d: u32)
    requires
        a0 != a1,
    ensures
        last_write(seq![BusEvent::Write { addr: a0, val: v0 }, BusEvent::Write { addr: a1, val: v1 }], x, d)
            == if x == a1 {
            v1
        } else if x == a0 {
            v0
        } else {
            d
        },
{
    let s = seq![BusEvent::Write { addr: a0, val: v0 }, BusEvent::Write { addr: a1, val: v1 }];
    assert(s.drop_last() =~= seq![BusEvent::Write { addr: a0, val: v0 }]);
    let s1 = seq![BusEvent::Write { addr: a0, val: v0 }];
    assert(s1.drop_last() =~= Seq::<BusEvent>::empty());
    assert(last_write(Seq::<BusEvent>::empty(), x, d) == d);
    assert(s1.last() == BusEvent::Write { addr: a0, val: v0 });
    assert(last_write(s1, x, d) == if x == a0 { v0 } else { d });
    assert(s.last() == BusEvent::Write { addr: a1, val: v1 });
    assert(last_write(s, x, d) == if x == a1 { v1 } else { last_write(s1, x, d) });
}

/// Showing `e1` and then `e2` on the LEDs is showing `e1 + e2`.
pub proof fn lemma_leds_shown_step(g0: GPIO, g1: GPIO, g2: GPIO, e1: Seq<BusEvent>, e2: Seq<BusEvent>)
    requires
        leds_shown(g0, g1, e1),
        leds_shown(g1, g2, e2),
    ensures
        leds_shown(g0, g2, e1 + e2),
{
    assert(g2.trace() =~= g0.trace() + (e1 + e2));
    assert forall|b: int| 0 <= b < 2 implies {
        &&& (#[trigger] g2.regs.gpset[b]).value() == last_write(e1 + e2, write_addr(g0.base, gpset_off(b)), g0.regs.gpset[b].value())
        &&& g2.regs.gpclr[b].value() == last_write(e1 + e2, write_addr(g0.base, gpclr_off(b)), g0.regs.gpclr[b].value())
    } by {
        lemma_last_write_concat(e1, e2, write_addr(g0.base, gpset_off(b)), g0.regs.gpset[b].value());
        lemma_last_write_concat(e1, e2, write_addr(g0.base, gpclr_off(b)), g0.regs.gpclr[b].value());
    }
}

/// Whether `new` is `old` after the LED pins were given the output function,
/// LED 0 first, through `g1`, `g2` and `g3`.
pub open spec fn leds_init_chain(old: GPIO, g1: GPIO, g2: GPIO, g3: GPIO, new: GPIO) -> bool {
    &&& GPIO::func_set(old, g1, 6, GPIOFunc::Out.spec_code())
    &&& GPIO::func_set(g1, g2, 13, GPIOFunc::Out.spec_code())
    &&& GPIO::func_set(g2, g3, 19, GPIOFunc::Out.spec_code())
    &&& GPIO::func_set(g3, new, 26, GPIOFunc::Out.spec_code())
}

/// Gives every LED pin the output function, LED 0 first (see
/// `GPIO::func_set`). Each LED pin ends up an output.
pub fn init_leds(gpio: &mut GPIO)
    requires
        old(gpio).wf(),
    ensures
        final(gpio).wf(),
        exists|g1: GPIO, g2: GPIO, g3: GPIO| #[trigger] leds_init_chain(*old(gpio), g1, g2, g3, *final(gpio)),
        final(gpio).regs.pin_func_is(6, GPIOFunc::Out.spec_code()),
        final(gpio).regs.pin_func_is(13, GPIOFunc::Out.spec_code()),
        final(gpio).regs.pin_func_is(19, GPIOFunc::Out.spec_code()),
        final(gpio).regs.pin_func_is(26, GPIOFunc::Out.spec_code()),
{
    let ghost r0 = *gpio;
    gpio.set_gpio_func(LED_PINS[0], GPIOFunc::Out);
    let ghost r1 = *gpio;
    gpio.set_gpio_func(LED_PINS[1], GPIOFunc::Out);
    let ghost r2 = *gpio;
    gpio.set_gpio_func(LED_PINS[2], GPIOFunc::Out);
    let ghost r3 = *gpio;
    gpio.set_gpio_func(LED_PINS[3], GPIOFunc::Out);
    proof {
        let r4 = *gpio;
        assert(leds_init_chain(r0, r1, r2, r3, r4));
        assert forall|k: u32| k < 3 implies r4.regs.fsel_bit(6, k) == bit(1, k) by {
            assert(r1.regs.fsel_bit(6, k) == bit(1, k));
        }
        assert forall|k: u32| k < 3 implies r4.regs.fsel_bit(19, k) == bit(1, k) by {
            assert(r3.regs.fsel_bit(19, k) == bit(1, k));
        }
        assert forall|k: u32| k < 3 implies r4.regs.fsel_bit(13, k) == bit(1, k) by {
            assert(r2.regs.fsel_bit(13, k) == bit(1, k));
        }
    }
}

/// Shows `code` on the LEDs (see `led_events`).
pub fn display_code(gpio: &mut GPIO, code: u32)
    requires
        old(gpio).wf(),
    ensures
        final(gpio).wf(),
        leds_shown(*old(gpio), *final(gpio), led_events(old(gpio).base, code, 4)),
{
    let ghost g0 = *gpio;
    let mut b: usize = 0;
    proof {
        assert(g0.trace() + Seq::<BusEvent>::empty() =~= g0.trace());
        assert(led_events(g0.base, code, 0) == Seq::<BusEvent>::empty());
    }
    while b < LED_COUNT
        invariant
            b <= 4,
            gpio.wf(),
            leds_shown(g0, *gpio, led_events(g0.base, code, b as nat)),
        decreases 4 - b,
    {
        let pin = LED_PINS[b];
        assert(pin == led_pin(b as int));
        let one = [pin];
        let ghost before = *gpio;
        let field = bit_range_get(code, b as u32, b as u32);
        proof {
            assert(bit(field, 0) == bit(code, b as u32));
            if bit(field, 0) {
                assert(((field >> 0u32) & 1u32 == 1u32) ==> field > 0) by (bit_vector);
            } else {
                assert forall|i: u32| i < 32 implies bit(field, i) == bit(0u32, i) by {
                    assert((0u32 >> i) & 1u32 != 1u32) by (bit_vector);
                }
                lemma_bits_eq(field, 0u32);
            }
            assert(one@ =~= seq![pin]);
            lemma_single_pin_mask(pin);
        }
        let ghost step: Seq<BusEvent>;
        if field > 0 {
            gpio.set_pin_out(one.as_slice());
            proof {
                step = seq![write_at(g0.base, gpset_off(0), 1u32 << pin), write_at(g0.base, gpset_off(1), 0)];
            }
        } else {
            gpio.clear_pin_out(one.as_slice());
            proof {
                step = seq![write_at(g0.base, gpclr_off(0), 1u32 << pin), write_at(g0.base, gpclr_off(1), 0)];
            }
        }
        proof {
            let after = *gpio;
            assert(leds_shown(before, after, step)) by {
                assert(write_addr(g0.base, gpset_off(0)) != write_addr(g0.base, gpset_off(1)));
                assert(write_addr(g0.base, gpclr_off(0)) != write_addr(g0.base, gpclr_off(1)));
                assert(write_addr(g0.base, gpset_off(0)) != write_addr(g0.base, gpclr_off(0)));
                assert(write_addr(g0.base, gpset_off(0)) != write_addr(g0.base, gpclr_off(1)));
                assert(write_addr(g0.base, gpset_off(1)) != write_addr(g0.base, gpclr_off(0)));
                assert(write_addr(g0.base, gpset_off(1)) != write_addr(g0.base, gpclr_off(1)));
                assert forall|k: int| 0 <= k < 2 implies {
                    &&& (#[trigger] after.regs.gpset[k]).value() == last_write(step, write_addr(before.base, gpset_off(k)), before.regs.gpset[k].value())
                    &&& after.regs.gpclr[k].value() == last_write(step, write_addr(before.base, gpclr_off(k)), before.regs.gpclr[k].value())
                } by {
                    if field > 0 {
                        lemma_last_write_pair(write_addr(g0.base, gpset_off(0)), 1u32 << pin, write_addr(g0.base, gpset_off(1)), 0, write_addr(before.base, gpset_off(k)), before.regs.gpset[k].value());
                        lemma_last_write_pair(write_addr(g0.base, gpset_off(0)), 1u32 << pin, write_addr(g0.base, gpset_off(1)), 0, write_addr(before.base, gpclr_off(k)), before.regs.gpclr[k].value());
                    } else {
                        lemma_last_write_pair(write_addr(g0.base, gpclr_off(0)), 1u32 << pin, write_addr(g0.base, gpclr_off(1)), 0, write_addr(before.base, gpset_off(k)), before.regs.gpset[k].value());
                        lemma_last_write_pair(write_addr(g0.base, gpclr_off(0)), 1u32 << pin, write_addr(g0.base, gpclr_off(1)), 0, write_addr(before.base, gpclr_off(k)), before.regs.gpclr[k].value());
                    }
                }
            }
            lemma_leds_shown_step(g0, before, after, led_events(g0.base, code, b as nat), step);
            assert(led_events(g0.base, code, (b + 1) as nat) == led_events(g0.base, code, b as nat) + step);
        }
        b = b + 1;
    }
}

/// Shows each code of `codes` in turn, waiting `ms` milliseconds after each
/// (see `show_events`).
pub fn show_codes(gpio: &mut GPIO, codes: &[u32], ms: u64)
    requires
        old(gpio).wf(),
        6000 * ms <= u64::MAX,
    ensures
        final(gpio).wf(),
        leds_shown(*old(gpio), *final(gpio), show_events(old(gpio).base, codes@, (6000 * ms) as u64)),
{
    let ghost g0 = *gpio;
    let ghost cycles = (6000 * ms) as u64;
    let n = codes.len();
    let mut t: usize = 0;
    proof {
        assert(codes@.take(0) =~= Seq::<u32>::empty());
        assert(g0.trace() + Seq::<BusEvent>::empty() =~= g0.trace());
        assert(show_events(g0.base, Seq::<u32>::empty(), cycles) == Seq::<BusEvent>::empty());
    }
    while t < n
        invariant
            n == codes@.len(),
            t <= n,
            6000 * ms <= u64::MAX,
            cycles == (6000 * ms) as u64,
            gpio.wf(),
            leds_shown(g0, *gpio, show_events(g0.base, codes@.take(t as int), cycles)),
        decreases n - t,
    {
        let ghost before = *gpio;
        display_code(gpio, codes[t]);
        let ghost mid = *gpio;
        gpio.bus.wait_ms(ms);
        proof {
            let after = *gpio;
            let wait = seq![BusEvent::Wait { cycles }];
            assert(after.trace() =~= mid.trace() + wait);
            assert(leds_shown(mid, after, wait)) by {
                assert(wait.drop_last() =~= Seq::<BusEvent>::empty());
                assert forall|k: int| 0 <= k < 2 implies {
                    &&& (#[trigger] after.regs.gpset[k]).value() == last_write(wait, write_addr(mid.base, gpset_off(k)), mid.regs.gpset[k].value())
                    &&& after.regs.gpclr[k].value() == last_write(wait, write_addr(mid.base, gpclr_off(k)), mid.regs.gpclr[k].value())
                } by {
                    assert(last_write(Seq::<BusEvent>::empty(), write_addr(mid.base, gpset_off(k)), mid.regs.gpset[k].value()) == mid.regs.gpset[k].value());
                    assert(last_write(Seq::<BusEvent>::empty(), write_addr(mid.base, gpclr_off(k)), mid.regs.gpclr[k].value()) == mid.regs.gpclr[k].value());
                }
            }
            let pre = codes@.take(t as int);
            let post = codes@.take(t + 1);
            assert(post.drop_last() =~= pre);
            assert(post.last() == codes@[t as int]);
            lemma_leds_shown_step(g0, before, mid, show_events(g0.base, pre, cycles), led_events(g0.base, codes@[t as int], 4));
            lemma_leds_shown_step(g0, mid, after, show_events(g0.base, pre, cycles) + led_events(g0.base, codes@[t as int], 4), wait);
        }
        t = t + 1;
    }
    assert(codes@.take(n as int) =~= codes@);
}

} // verus!
