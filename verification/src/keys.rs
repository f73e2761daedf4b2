use vstd::prelude::*;

verus! {

/// The number of distinct `u64` values.
pub open spec fn word() -> int {
    0x1_0000_0000_0000_0000
}

/// A pair of `u64`s packed into one `u128`: the first in the high half, the second in the
/// low half.
pub open spec fn pair_key(a: u64, b: u64) -> u128 {
    (a * word() + b) as u128
}

/// Packing is one to one, so a map keyed by packed pairs is a map keyed by pairs.
pub proof fn lemma_pair_key_injective(a1: u64, b1: u64, a2: u64, b2: u64)
    ensures
        pair_key(a1, b1) == pair_key(a2, b2) <==> (a1 == a2 && b1 == b2),
{
    lemma_pair_key_value(a1, b1);
    lemma_pair_key_value(a2, b2);
    if pair_key(a1, b1) == pair_key(a2, b2) {
        let x1 = a1 as int;
        let x2 = a2 as int;
        let y1 = b1 as int;
        let y2 = b2 as int;
        assert(x1 == x2 && y1 == y2) by (nonlinear_arith)
            requires
                x1 * 0x1_0000_0000_0000_0000 + y1 == x2 * 0x1_0000_0000_0000_0000 + y2,
                0 <= y1 < 0x1_0000_0000_0000_0000,
                0 <= y2 < 0x1_0000_0000_0000_0000,
                0 <= x1,
                0 <= x2,
        ;
    }
}

/// The packed value fits in a `u128`, so the cast in [`pair_key`] loses nothing.
pub proof fn lemma_pair_key_value(a: u64, b: u64)
    ensures
        pair_key(a, b) as int == a * word() + b,
{
    let x = a as int;
    let y = b as int;
    assert(0 <= x * 0x1_0000_0000_0000_0000 + y <= 0xffff_ffff_ffff_ffff_ffff_ffff_ffff_ffff)
        by (nonlinear_arith)
        requires
            0 <= x <= 0xffff_ffff_ffff_ffff,
            0 <= y <= 0xffff_ffff_ffff_ffff,
    ;
}

/// Packs `(a, b)` into the key under which the pallet stores it.
pub fn pack_pair(a: u64, b: u64) -> (k: u128)
    ensures
        k == pair_key(a, b),
{
    proof {
        lemma_pair_key_value(a, b);
        let x = a as int;
        let y = b as int;
        assert(x * 0x1_0000_0000_0000_0000 + y <= 0xffff_ffff_ffff_ffff_ffff_ffff_ffff_ffff)
            by (nonlinear_arith)
            requires
                0 <= x <= 0xffff_ffff_ffff_ffff,
                0 <= y <= 0xffff_ffff_ffff_ffff,
        ;
        assert((a as u128) * 0x1_0000_0000_0000_0000u128 == x * 0x1_0000_0000_0000_0000);
    }
    (a as u128) * 0x1_0000_0000_0000_0000u128 + (b as u128)
}

} // verus!
