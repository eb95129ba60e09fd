//! Stake arithmetic: per-validator stake vectors, stake sums over masks of
//! validators, and quorum thresholds.
//!
//! All thresholds in the protocol are floor divisions,
//! `total * percent / 100`; the floor choice matters exactly at the quorum
//! boundary and is kept uniform across the crate.

use crate::mask::{lemma_mask_and, lemma_mask_or, mask_contains, mask_has};
use vstd::prelude::*;

verus! {

/// Total stake of the validators below index `k` that are members of `m`.
pub open spec fn stake_in(stakes: Seq<u64>, m: u64, k: int) -> int
    decreases k,
{
    if k <= 0 {
        0
    } else {
        stake_in(stakes, m, k - 1) + if mask_has(m, k - 1) {
            stakes[k - 1] as int
        } else {
            0int
        }
    }
}

/// Total stake of all validators below index `k`.
pub open spec fn stake_total(stakes: Seq<u64>, k: int) -> int
    decreases k,
{
    if k <= 0 {
        0
    } else {
        stake_total(stakes, k - 1) + stakes[k - 1] as int
    }
}

/// The quorum threshold used throughout: `floor(total * percent / 100)`.
pub open spec fn spec_quorum_stake(total: u64, percent: u64) -> int {
    total * percent / 100
}

pub proof fn lemma_stake_in_nonneg(stakes: Seq<u64>, m: u64, k: int)
    ensures
        0 <= stake_in(stakes, m, k),
    decreases k,
{
    if k > 0 {
        lemma_stake_in_nonneg(stakes, m, k - 1);
    }
}

pub proof fn lemma_stake_in_le_total(stakes: Seq<u64>, m: u64, k: int)
    ensures
        stake_in(stakes, m, k) <= stake_total(stakes, k),
    decreases k,
{
    if k > 0 {
        lemma_stake_in_le_total(stakes, m, k - 1);
    }
}

/// A subset of validators carries no more stake than its superset.
pub proof fn lemma_stake_in_subset(stakes: Seq<u64>, a: u64, b: u64, k: int)
    requires
        forall|j: int| 0 <= j < k && #[trigger] mask_has(a, j) ==> mask_has(b, j),
    ensures
        stake_in(stakes, a, k) <= stake_in(stakes, b, k),
    decreases k,
{
    if k > 0 {
        lemma_stake_in_subset(stakes, a, b, k - 1);
    }
}

/// Inclusion-exclusion for stake sums over masks.
pub proof fn lemma_stake_in_union(stakes: Seq<u64>, a: u64, b: u64, k: int)
    ensures
        stake_in(stakes, a | b, k) + stake_in(stakes, a & b, k) == stake_in(stakes, a, k)
            + stake_in(stakes, b, k),
    decreases k,
{
    if k > 0 {
        lemma_stake_in_union(stakes, a, b, k - 1);
        lemma_mask_or(a, b);
        lemma_mask_and(a, b);
    }
}

/// Total stake of the members of `m`, over the whole stake vector.
pub fn stake_for_mask(stakes: &Vec<u64>, m: u64) -> (r: u64)
    requires
        stakes@.len() <= 64,
        stake_total(stakes@, stakes@.len() as int) <= u64::MAX,
    ensures
        r == stake_in(stakes@, m, stakes@.len() as int),
{
    let n = stakes.len();
    let mut acc: u64 = 0;
    let mut i: usize = 0;
    while i < n
        invariant
            i <= n,
            n == stakes@.len(),
            n <= 64,
            stake_total(stakes@, n as int) <= u64::MAX,
            acc == stake_in(stakes@, m, i as int),
        decreases n - i,
    {
        if mask_contains(m, i) {
            proof {
                lemma_stake_in_nonneg(stakes@, m, i as int);
                lemma_stake_in_le_total(stakes@, m, i as int + 1);
                lemma_stake_total_mono(stakes@, i as int + 1, n as int);
            }
            acc = acc + stakes[i];
        }
        i = i + 1;
    }
    acc
}

/// Total stake of all validators in the vector.
pub fn total_stake_of(stakes: &Vec<u64>) -> (r: u64)
    requires
        stake_total(stakes@, stakes@.len() as int) <= u64::MAX,
    ensures
        r == stake_total(stakes@, stakes@.len() as int),
{
    let n = stakes.len();
    let mut acc: u64 = 0;
    let mut i: usize = 0;
    while i < n
        invariant
            i <= n,
            n == stakes@.len(),
            stake_total(stakes@, n as int) <= u64::MAX,
            acc == stake_total(stakes@, i as int),
        decreases n - i,
    {
        proof {
            lemma_stake_total_nonneg(stakes@, i as int);
            lemma_stake_total_mono(stakes@, i as int + 1, n as int);
        }
        acc = acc + stakes[i];
        i = i + 1;
    }
    acc
}

pub proof fn lemma_stake_total_nonneg(stakes: Seq<u64>, k: int)
    ensures
        0 <= stake_total(stakes, k),
    decreases k,
{
    if k > 0 {
        lemma_stake_total_nonneg(stakes, k - 1);
    }
}

pub proof fn lemma_stake_total_mono(stakes: Seq<u64>, k1: int, k2: int)
    requires
        k1 <= k2,
    ensures
        stake_total(stakes, k1) <= stake_total(stakes, k2),
    decreases k2 - k1,
{
    if k1 < k2 {
        lemma_stake_total_mono(stakes, k1, k2 - 1);
    }
}

/// A uniform bound on the elements bounds the total.
pub proof fn lemma_stake_total_bound(stakes: Seq<u64>, k: int, c: u64)
    requires
        0 <= k,
        forall|j: int| 0 <= j < k ==> stakes[j] <= c,
    ensures
        stake_total(stakes, k) <= k * c,
    decreases k,
{
    if k > 0 {
        lemma_stake_total_bound(stakes, k - 1, c);
        assert((k - 1) * c + c == k * c) by (nonlinear_arith);
    }
}

/// Floor-division quorum threshold on executable values.
pub fn quorum_stake(total: u64, percent: u64) -> (r: u64)
    requires
        total * percent <= u64::MAX,
    ensures
        r == spec_quorum_stake(total, percent),
{
    total * percent / 100
}

} // verus!
