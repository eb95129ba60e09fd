//! Sets of validator indices, represented as 64-bit masks.
//!
//! Every model in this crate bounds the number of participants at 64, so a
//! set of validator indices fits in one machine word.  Masks compare
//! structurally, which keeps the state types cheap to deduplicate during
//! search.

use vstd::prelude::*;

verus! {

/// Membership of index `i` in the mask `m`.
pub open spec fn mask_has(m: u64, i: int) -> bool {
    0 <= i < 64 && (m >> (i as u64)) & 1u64 == 1u64
}

/// Number of members of `m` below index `k`.
pub open spec fn mask_count(m: u64, k: int) -> int
    decreases k,
{
    if k <= 0 {
        0
    } else {
        mask_count(m, k - 1) + if mask_has(m, k - 1) {
            1int
        } else {
            0int
        }
    }
}

pub proof fn lemma_mask_empty()
    ensures
        forall|j: int| !mask_has(0u64, j),
{
    assert forall|j: int| !mask_has(0u64, j) by {
        if 0 <= j < 64 {
            let ju = j as u64;
            assert((0u64 >> ju) & 1u64 == 0u64) by (bit_vector);
        }
    }
}

pub proof fn lemma_mask_or(a: u64, b: u64)
    ensures
        forall|j: int| #[trigger] mask_has(a | b, j) == (mask_has(a, j) || mask_has(b, j)),
{
    assert forall|j: int| #[trigger] mask_has(a | b, j) == (mask_has(a, j) || mask_has(b, j)) by {
        if 0 <= j < 64 {
            let ju = j as u64;
            assert(ju < 64 ==> ((((a | b) >> ju) & 1u64 == 1u64) == (((a >> ju) & 1u64 == 1u64)
                || ((b >> ju) & 1u64 == 1u64)))) by (bit_vector);
        }
    }
}

pub proof fn lemma_mask_and(a: u64, b: u64)
    ensures
        forall|j: int| #[trigger] mask_has(a & b, j) == (mask_has(a, j) && mask_has(b, j)),
{
    assert forall|j: int| #[trigger] mask_has(a & b, j) == (mask_has(a, j) && mask_has(b, j)) by {
        if 0 <= j < 64 {
            let ju = j as u64;
            assert(ju < 64 ==> ((((a & b) >> ju) & 1u64 == 1u64) == (((a >> ju) & 1u64 == 1u64)
                && ((b >> ju) & 1u64 == 1u64)))) by (bit_vector);
        }
    }
}

pub proof fn lemma_mask_single(i: u64)
    requires
        i < 64,
    ensures
        forall|j: int| #[trigger] mask_has(1u64 << i, j) == (j == i as int),
{
    assert forall|j: int| #[trigger] mask_has(1u64 << i, j) == (j == i as int) by {
        if 0 <= j < 64 {
            let ju = j as u64;
            assert(ju < 64 && i < 64 ==> ((((1u64 << i) >> ju) & 1u64 == 1u64) == (ju
                == i))) by (bit_vector);
        } else {
            assert(i < 64 ==> i as int != j);
        }
    }
}

pub proof fn lemma_mask_count_nonneg(m: u64, k: int)
    ensures
        0 <= mask_count(m, k) <= if k >= 0 {
            k
        } else {
            0int
        },
    decreases k,
{
    if k > 0 {
        lemma_mask_count_nonneg(m, k - 1);
    }
}

/// Whether index `i` is a member of the mask `m`.
pub fn mask_contains(m: u64, i: usize) -> (r: bool)
    requires
        i < 64,
    ensures
        r == mask_has(m, i as int),
{
    (m >> (i as u64)) & 1u64 == 1u64
}

/// Number of members of `m`.
pub fn mask_len(m: u64) -> (r: usize)
    ensures
        r == mask_count(m, 64),
{
    let mut count: usize = 0;
    let mut i: usize = 0;
    while i < 64
        invariant
            i <= 64,
            count == mask_count(m, i as int),
            count <= i,
        decreases 64 - i,
    {
        if mask_contains(m, i) {
            count = count + 1;
        }
        i = i + 1;
    }
    count
}

} // verus!
