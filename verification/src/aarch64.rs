use vstd::prelude::*;
use crate::utils::{bit64, bit_range_get64, lemma_bits_eq64};

verus! {

/// The exception level held in a value read from the CurrentEL register
/// (bits 3:2).
pub fn current_el_field(raw: u64) -> (el: u64)
    ensures
        el == (raw >> 2u64) & 0b11,
{
    let el = bit_range_get64(raw, 3, 2);
    assert forall|i: u64| i < 64 implies bit64(el, i) == bit64((raw >> 2u64) & 0b11, i) by {
        let j: u64 = (i + 2) as u64;
        if i + 2 < 64 {
            assert((((((raw >> 2u64) & 0b11u64) >> i) & 1u64 == 1u64) == (i <= 1 && (raw >> j) & 1u64 == 1u64))) by (bit_vector)
                requires
                    i < 64,
                    j == i + 2,
            ;
        } else {
            assert(((((raw >> 2u64) & 0b11u64) >> i) & 1u64) != 1u64) by (bit_vector)
                requires
                    62 <= i < 64,
            ;
        }
    }
    proof {
        lemma_bits_eq64(el, (raw >> 2u64) & 0b11);
    }
    el
}

/// The D, A, I and F interrupt masks held in a value read from the DAIF
/// register (bits 9:6).
pub fn daif_field(raw: u64) -> (daif: u64)
    ensures
        daif == (raw >> 6u64) & 0b1111,
{
    let daif = bit_range_get64(raw, 9, 6);
    assert forall|i: u64| i < 64 implies bit64(daif, i) == bit64((raw >> 6u64) & 0b1111, i) by {
        let j: u64 = (i + 6) as u64;
        if i + 6 < 64 {
            assert((((((raw >> 6u64) & 0b1111u64) >> i) & 1u64 == 1u64) == (i <= 3 && (raw >> j) & 1u64 == 1u64))) by (bit_vector)
                requires
                    i < 64,
                    j == i + 6,
            ;
        } else {
            assert(((((raw >> 6u64) & 0b1111u64) >> i) & 1u64) != 1u64) by (bit_vector)
                requires
                    58 <= i < 64,
            ;
        }
    }
    proof {
        lemma_bits_eq64(daif, (raw >> 6u64) & 0b1111);
    }
    daif
}

} // verus!
