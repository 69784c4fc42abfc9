use rpb3_lib::utils::{
    bit_range_clear, bit_range_get, bit_range_get64, bit_range_mask32, bit_range_set, delay, delay_ms, delay_s,
    delay_us, Bus, DevRW, R, RW, W,
};

#[test]
fn mask_covers_exactly_the_range() {
    assert_eq!(bit_range_mask32(7, 4), 0xF0);
    assert_eq!(bit_range_mask32(31, 0), 0xFFFF_FFFF);
    assert_eq!(bit_range_mask32(0, 0), 1);
    assert_eq!(bit_range_mask32(31, 31), 0x8000_0000);
    assert_eq!(bit_range_mask32(14, 12), 0x7000);
}

#[test]
fn clear_clears_only_the_range() {
    assert_eq!(bit_range_clear(0xFFFF_FFFF, 7, 4), 0xFFFF_FF0F);
    assert_eq!(bit_range_clear(0x1234_5678, 31, 0), 0);
    assert_eq!(bit_range_clear(0x0000_000F, 31, 4), 0xF);
}

#[test]
fn set_replaces_only_the_range() {
    assert_eq!(bit_range_set(0xFFFF_FFFF, 0b010, 14, 12), 0xFFFF_AFFF);
    assert_eq!(bit_range_set(0, 0b11, 1, 0), 3);
    assert_eq!(bit_range_set(0x8000_0000, 0xFFFF, 15, 0), 0x8000_FFFF);
    assert_eq!(bit_range_set(0x1234_5678, 0xDEAD_BEEF, 31, 0), 0xDEAD_BEEF);
}

#[test]
fn get_reads_the_range() {
    assert_eq!(bit_range_get(0xABCD_1234, 15, 8), 0x12);
    assert_eq!(bit_range_get(0xABCD_1234, 31, 28), 0xA);
    assert_eq!(bit_range_get(0x20, 5, 5), 1);
    assert_eq!(bit_range_get(0xDF, 5, 5), 0);
}

#[test]
fn get_after_set_gives_the_value() {
    for v in [0u32, 0xFFFF_FFFF, 0x1234_5678] {
        for x in 0..8u32 {
            let s = bit_range_set(v, x, 20, 18);
            assert_eq!(bit_range_get(s, 20, 18), x);
        }
    }
}

#[test]
fn set_to_current_value_keeps_word() {
    let v = 0xCAFE_F00D;
    let g = bit_range_get(v, 23, 9);
    assert_eq!(bit_range_set(v, g, 23, 9), v);
}

#[test]
fn clear_is_set_to_zero() {
    let v = 0xCAFE_F00D;
    assert_eq!(bit_range_clear(v, 19, 3), bit_range_set(v, 0, 19, 3));
}

#[test]
fn set_twice_is_second_set() {
    let v = 0x0F0F_0F0F;
    let once = bit_range_set(v, 0b1010, 11, 8);
    let twice = bit_range_set(once, 0b0101, 11, 8);
    assert_eq!(twice, bit_range_set(v, 0b0101, 11, 8));
}

#[test]
fn get64_reads_the_range() {
    assert_eq!(bit_range_get64(0b1100, 3, 2), 3);
    assert_eq!(bit_range_get64(0xF000_0000_0000_0000, 63, 60), 0xF);
    assert_eq!(bit_range_get64(u64::MAX, 63, 0), u64::MAX);
}

#[test]
fn register_cells_hold_what_was_written() {
    let mut bus = Bus::new();
    let mut rw = RW::new(0x100, 5u32);
    assert_eq!(rw.read(), 5);
    bus.write_rw(&mut rw, 9);
    assert_eq!(rw.read(), 9);
    let mut w = W::new(0x104, 0u32);
    bus.write_w(&mut w, 0xAA);
    bus.write_w(&mut w, 0xBB);
    assert_eq!(w.written(), 0xBB);
    let mut r = R::new(0x108, 0x20u32);
    assert_eq!(r.read(), 0x20);
    let mut d = DevRW::with_feed(0x10C, 1u32, vec![7, 8]);
    assert_eq!(d.read(), 7);
    bus.write_dev(&mut d, 3);
    assert_eq!(d.current(), 3);
    assert_eq!(d.read(), 8);
    assert_eq!(d.read(), 8);
    bus.wait(10);
}

#[test]
fn delays_return() {
    delay(0);
    delay(1000);
    delay_us(10);
    delay_ms(1);
    delay_s(1);
}
