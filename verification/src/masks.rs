//! Bit masks in specifications and proofs.

use vstd::prelude::*;

verus! {

/// `bits` if `given`, and no bit otherwise.
pub open spec fn bits_if(given: bool, bits: u32) -> u32 {
    if given {
        bits
    } else {
        0
    }
}

/// How a mask combines with the empty one, the full one and itself.
pub proof fn lemma_mask_units()
    by (bit_vector)
    ensures
        forall|m: u32| #[trigger] (m | 0u32) == m,
        forall|m: u32| #[trigger] (0u32 | m) == m,
        forall|m: u32| #[trigger] (m & 0u32) == 0,
        forall|m: u32| #[trigger] (0u32 & m) == 0,
        forall|m: u32| #[trigger] (m & !0u32) == m,
        forall|m: u32| #[trigger] (m & m) == m,
        forall|m: u32| #[trigger] (m & !m) == 0,
        forall|m: u32, n: u32| #[trigger] ((m & n) & n) == m & n,
        forall|m: u32, n: u32| #[trigger] (m & (m | n)) == m,
{
}

/// Joined masks are empty only if both are.
pub proof fn lemma_join_empty(a: u32, b: u32)
    by (bit_vector)
    ensures
        a | b == 0 <==> a == 0 && b == 0,
{
}

/// How a single bit stands to combined masks.
pub proof fn lemma_one_bit(bit: u32, a: u32, b: u32)
    by (bit_vector)
    requires
        bit != 0,
        bit & ((bit - 1) as u32) == 0,
    ensures
        (a | b) & bit != 0 <==> a & bit != 0 || b & bit != 0,
        (a & b) & bit != 0 <==> a & bit != 0 && b & bit != 0,
        (a & !b) & bit != 0 <==> a & bit != 0 && b & bit == 0,
        (a & b == a) && a & bit != 0 ==> b & bit != 0,
        a & bit == bit & a,
{
}

/// A mask that shares no bit with another keeps all of its bits without it.
pub proof fn lemma_disjoint(a: u32, b: u32)
    by (bit_vector)
    requires
        a & b == 0,
    ensures
        a & !b == a,
{
}

/// Part of a mask that shares no bit with another shares none either.
pub proof fn lemma_part_of_disjoint(a: u32, part: u32, b: u32)
    by (bit_vector)
    requires
        a & b == 0,
    ensures
        (a & part) & b == 0,
        (part & a) & b == 0,
        b & (a & part) == 0,
{
}

} // verus!
