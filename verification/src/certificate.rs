//! Certificate aggregation model.
//!
//! Validators cast notarization or skip votes, broadcast them, and aggregate
//! delivered votes in per-validator pools.  A certificate for a `(slot,
//! candidate)` pair forms once the pool's backing stake reaches the quorum
//! threshold.  Byzantine validators may equivocate.  The transition system is
//! given a mathematical model (`cert_step`) and the executable functions are
//! proved to implement it exactly; the safety laws at the end of the module
//! are proved inductively over every reachable state.

use crate::mask::{lemma_mask_and, lemma_mask_empty, lemma_mask_or, lemma_mask_single, mask_has};
use crate::util::{copy_vec, set_vec};
use crate::stake::{
    lemma_stake_in_le_total, lemma_stake_in_nonneg, lemma_stake_in_subset, lemma_stake_in_union,
    lemma_stake_total_bound, quorum_stake, spec_quorum_stake, stake_for_mask, stake_in,
    stake_total,
};
use vstd::prelude::*;

verus! {

/// Stake held by all validators together.
pub const TOTAL_STAKE: u64 = 1000;

/// Percentage of the total stake needed to form a certificate.
pub const NOTARIZE_THRESHOLD_PERCENT: u64 = 60;

/// Messages exchanged while aggregating certificates.
#[derive(Clone, Copy, Debug, PartialEq, Eq, PartialOrd, Ord, Hash, Structural)]
pub enum CertificateMessage {
    /// A vote for a block in a slot.
    NotarVote { slot: u64, hash: u64, voter: usize },
    /// A vote to skip a slot.
    SkipVote { slot: u64, voter: usize },
    /// An already-formed certificate for a block.
    BlockCertificate { slot: u64, hash: u64, stake: u64 },
    /// An already-formed certificate for skipping a slot.
    SkipCertificate { slot: u64, stake: u64 },
}

/// A message addressed to one validator, waiting in the network.
#[derive(Clone, Copy, Debug, PartialEq, Eq, PartialOrd, Ord, Hash, Structural)]
pub struct MessageInTransit {
    pub dst: usize,
    pub msg: CertificateMessage,
}

/// What a vote is for: a slot together with a candidate.  `None` stands for
/// the skip candidate.
#[derive(Clone, Copy, Debug, PartialEq, Eq, PartialOrd, Ord, Hash, Structural)]
pub struct VoteKey {
    pub slot: u64,
    pub hash: Option<u64>,
}

/// One vote pool entry: the set of validators seen voting for a key.
#[derive(Clone, Copy, Debug, PartialEq, Eq, Hash, Structural)]
pub struct PoolEntry {
    pub key: VoteKey,
    pub voters: u64,
}

/// A certificate recorded in the global ledger, with its backing stake.
#[derive(Clone, Copy, Debug, PartialEq, Eq, Hash, Structural)]
pub struct CertRecord {
    pub key: VoteKey,
    pub stake: u64,
}

/// Actions enabled in the certificate model.
#[derive(Clone, Copy, Debug, PartialEq, Eq, PartialOrd, Ord, Hash, Structural)]
pub enum CertificateAction {
    CastNotarVote { slot: u64, hash: u64, voter: usize },
    CastSkipVote { slot: u64, voter: usize },
    DeliverMessage { msg: MessageInTransit },
    AdversaryEquivocate { slot: u64, hash1: u64, hash2: u64, adversary: usize },
}

/// Per-validator state.
#[derive(Clone, Debug, PartialEq, Eq, Hash)]
pub struct ValidatorState {
    /// Keys this validator has voted for.
    pub votes_cast: Vec<VoteKey>,
    /// Votes observed by this validator, keyed by what they are for.
    pub vote_pool: Vec<PoolEntry>,
    /// Keys for which this validator has observed a certificate.
    pub certificates: Vec<VoteKey>,
    /// Whether this validator may deviate from the protocol.
    pub is_adversary: bool,
    /// This validator's stake.
    pub stake: u64,
}

/// The whole world state of the certificate model.
#[derive(Clone, Debug, PartialEq, Eq, Hash)]
pub struct CertificateState {
    /// Messages in flight, kept without duplicates.
    pub network: Vec<MessageInTransit>,
    /// All validators, indexed by identity.
    pub validators: Vec<ValidatorState>,
    /// Global certificate ledger with backing stake.
    pub global_certificates: Vec<CertRecord>,
    /// Stake of each validator, indexed by identity.
    pub stake_distribution: Vec<u64>,
}

/// Configuration of the certificate model.
#[derive(Clone, Copy, Debug, PartialEq, Eq, Hash, Structural)]
pub struct CertificateModel {
    pub validator_count: usize,
    pub max_slot: u64,
    pub adversary_count: usize,
}

/// Mathematical view of a validator.
#[verifier::ext_equal]
pub struct ValidatorStateV {
    pub votes_cast: Seq<VoteKey>,
    pub vote_pool: Seq<PoolEntry>,
    pub certificates: Seq<VoteKey>,
    pub is_adversary: bool,
    pub stake: u64,
}

/// Mathematical view of the world state.
#[verifier::ext_equal]
pub struct CertificateStateV {
    pub network: Seq<MessageInTransit>,
    pub validators: Seq<ValidatorStateV>,
    pub global_certificates: Seq<CertRecord>,
    pub stake_distribution: Seq<u64>,
}

impl View for ValidatorState {
    type V = ValidatorStateV;

    open spec fn view(&self) -> ValidatorStateV {
        ValidatorStateV {
            votes_cast: self.votes_cast@,
            vote_pool: self.vote_pool@,
            certificates: self.certificates@,
            is_adversary: self.is_adversary,
            stake: self.stake,
        }
    }
}

impl View for CertificateState {
    type V = CertificateStateV;

    open spec fn view(&self) -> CertificateStateV {
        CertificateStateV {
            network: self.network@,
            validators: self.validators@.map_values(|v: ValidatorState| v@),
            global_certificates: self.global_certificates@,
            stake_distribution: self.stake_distribution@,
        }
    }
}

// ------------------------------------------------------------------
// Spec-level building blocks
// ------------------------------------------------------------------

/// A sequence without repeated elements (set semantics).
pub open spec fn seq_distinct<T>(s: Seq<T>) -> bool {
    forall|i: int, j: int| 0 <= i < s.len() && 0 <= j < s.len() && s[i] == s[j] ==> i == j
}

/// Insert into a duplicate-free sequence.
pub open spec fn net_insert(net: Seq<MessageInTransit>, m: MessageInTransit) -> Seq<
    MessageInTransit,
> {
    if net.contains(m) {
        net
    } else {
        net.push(m)
    }
}

/// Index of a message in the network (unique when the network is
/// duplicate-free).
pub open spec fn net_index(net: Seq<MessageInTransit>, m: MessageInTransit) -> int {
    choose|i: int| 0 <= i < net.len() && net[i] == m
}

/// The network after broadcasting `msg` to every validator below `n`.
pub open spec fn net_broadcast(net: Seq<MessageInTransit>, msg: CertificateMessage, n: int) -> Seq<
    MessageInTransit,
>
    decreases n,
{
    if n <= 0 {
        net
    } else {
        net_insert(net_broadcast(net, msg, n - 1), MessageInTransit { dst: (n - 1) as usize, msg })
    }
}

/// Insert a key into a duplicate-free key sequence.
pub open spec fn key_set_insert(keys: Seq<VoteKey>, k: VoteKey) -> Seq<VoteKey> {
    if keys.contains(k) {
        keys
    } else {
        keys.push(k)
    }
}

/// Whether the validator has already voted for anything in `slot`.
pub open spec fn votes_has_slot(votes: Seq<VoteKey>, slot: u64) -> bool {
    exists|i: int| 0 <= i < votes.len() && votes[i].slot == slot
}

/// Whether the pool holds an entry for `k`.
pub open spec fn pool_has(pool: Seq<PoolEntry>, k: VoteKey) -> bool {
    exists|i: int| 0 <= i < pool.len() && pool[i].key == k
}

/// Index of the entry for `k` (unique when pool keys are distinct).
pub open spec fn pool_index(pool: Seq<PoolEntry>, k: VoteKey) -> int {
    choose|i: int| 0 <= i < pool.len() && pool[i].key == k
}

/// The voter mask recorded for `k`, or the empty mask.
pub open spec fn pool_voters(pool: Seq<PoolEntry>, k: VoteKey) -> u64 {
    if pool_has(pool, k) {
        pool[pool_index(pool, k)].voters
    } else {
        0u64
    }
}

/// Keys of distinct entries differ.
pub open spec fn pool_keys_distinct(pool: Seq<PoolEntry>) -> bool {
    forall|i: int, j: int|
        0 <= i < pool.len() && 0 <= j < pool.len() && pool[i].key == pool[j].key ==> i == j
}

/// The pool after recording that `voter` voted for `k`.
pub open spec fn pool_add(pool: Seq<PoolEntry>, k: VoteKey, voter: int) -> Seq<PoolEntry> {
    if pool_has(pool, k) {
        let i = pool_index(pool, k);
        pool.update(i, PoolEntry { key: k, voters: pool[i].voters | (1u64 << voter as u64) })
    } else {
        pool.push(PoolEntry { key: k, voters: 1u64 << voter as u64 })
    }
}

/// Keys of distinct ledger records differ.
pub open spec fn certs_keys_distinct(gc: Seq<CertRecord>) -> bool {
    forall|i: int, j: int|
        0 <= i < gc.len() && 0 <= j < gc.len() && gc[i].key == gc[j].key ==> i == j
}

/// Whether the ledger holds a record for `k`.
pub open spec fn certs_has(gc: Seq<CertRecord>, k: VoteKey) -> bool {
    exists|i: int| 0 <= i < gc.len() && gc[i].key == k
}

/// Index of the record for `k` (unique when keys are distinct).
pub open spec fn certs_index(gc: Seq<CertRecord>, k: VoteKey) -> int {
    choose|i: int| 0 <= i < gc.len() && gc[i].key == k
}

/// The ledger after recording a certificate for `k` with the given stake.
pub open spec fn certs_update(gc: Seq<CertRecord>, k: VoteKey, stake: u64) -> Seq<CertRecord> {
    if certs_has(gc, k) {
        gc.update(certs_index(gc, k), CertRecord { key: k, stake })
    } else {
        gc.push(CertRecord { key: k, stake })
    }
}

/// The stake a certificate needs.
pub open spec fn spec_threshold() -> int {
    spec_quorum_stake(TOTAL_STAKE, NOTARIZE_THRESHOLD_PERCENT)
}

// ------------------------------------------------------------------
// Well-formedness
// ------------------------------------------------------------------

/// Whether a network message is a vote whose fields fit the model bounds.
pub open spec fn wf_message(m: CertificateModel, t: MessageInTransit) -> bool {
    &&& t.dst < m.validator_count
    &&& match t.msg {
        CertificateMessage::NotarVote { voter, .. } => voter < m.validator_count,
        CertificateMessage::SkipVote { voter, .. } => voter < m.validator_count,
        CertificateMessage::BlockCertificate { .. } => true,
        CertificateMessage::SkipCertificate { .. } => true,
    }
}

/// Structural well-formedness of a state on its own: bounded shape and
/// duplicate-free set-like sequences.
pub open spec fn cert_state_wf(s: CertificateStateV) -> bool {
    &&& 1 <= s.validators.len() <= 64
    &&& s.stake_distribution.len() == s.validators.len()
    &&& stake_total(s.stake_distribution, s.validators.len() as int) <= u64::MAX
    &&& seq_distinct(s.network)
    &&& forall|v: int|
        0 <= v < s.validators.len() ==> seq_distinct(#[trigger] s.validators[v].votes_cast)
    &&& forall|v: int|
        0 <= v < s.validators.len() ==> pool_keys_distinct(#[trigger] s.validators[v].vote_pool)
    &&& forall|v: int|
        0 <= v < s.validators.len() ==> seq_distinct(#[trigger] s.validators[v].certificates)
    &&& certs_keys_distinct(s.global_certificates)
}

/// Well-formedness of a state with respect to a configuration.
pub open spec fn wf_state(m: CertificateModel, s: CertificateStateV) -> bool {
    &&& cert_state_wf(s)
    &&& s.validators.len() == m.validator_count
    &&& forall|i: int| 0 <= i < s.network.len() ==> wf_message(m, #[trigger] s.network[i])
}

/// Whether an action refers only to validators that exist.
pub open spec fn wf_action(m: CertificateModel, a: CertificateAction) -> bool {
    match a {
        CertificateAction::CastNotarVote { voter, .. } => voter < m.validator_count,
        CertificateAction::CastSkipVote { voter, .. } => voter < m.validator_count,
        CertificateAction::DeliverMessage { msg } => wf_message(m, msg),
        CertificateAction::AdversaryEquivocate { adversary, .. } => adversary < m.validator_count,
    }
}

// ------------------------------------------------------------------
// The transition function, mathematically
// ------------------------------------------------------------------

/// Stake backing the pool entry for `k` at validator `d` once `voter` is
/// added, and the state that results if that stake reaches the threshold.
pub open spec fn cert_deliver_vote(
    m: CertificateModel,
    s: CertificateStateV,
    net1: Seq<MessageInTransit>,
    d: int,
    k: VoteKey,
    voter: int,
) -> CertificateStateV {
    let n = m.validator_count as int;
    let v = s.validators[d];
    let pool1 = pool_add(v.vote_pool, k, voter);
    let voters1 = pool_voters(pool1, k);
    let backing = stake_in(s.stake_distribution, voters1, n);
    if backing >= spec_threshold() {
        CertificateStateV {
            network: net1,
            validators: s.validators.update(
                d,
                ValidatorStateV {
                    votes_cast: v.votes_cast,
                    vote_pool: pool1,
                    certificates: key_set_insert(v.certificates, k),
                    is_adversary: v.is_adversary,
                    stake: v.stake,
                },
            ),
            global_certificates: certs_update(s.global_certificates, k, backing as u64),
            stake_distribution: s.stake_distribution,
        }
    } else {
        CertificateStateV {
            network: net1,
            validators: s.validators.update(
                d,
                ValidatorStateV {
                    votes_cast: v.votes_cast,
                    vote_pool: pool1,
                    certificates: v.certificates,
                    is_adversary: v.is_adversary,
                    stake: v.stake,
                },
            ),
            global_certificates: s.global_certificates,
            stake_distribution: s.stake_distribution,
        }
    }
}

/// The state after a validator casts a vote for `k` (if it still can) and
/// broadcasts it.
pub open spec fn cert_cast_vote(
    m: CertificateModel,
    s: CertificateStateV,
    voter: int,
    k: VoteKey,
    msg: CertificateMessage,
) -> CertificateStateV {
    let n = m.validator_count as int;
    let v = s.validators[voter];
    if !votes_has_slot(v.votes_cast, k.slot) {
        CertificateStateV {
            network: net_broadcast(s.network, msg, n),
            validators: s.validators.update(
                voter,
                ValidatorStateV {
                    votes_cast: v.votes_cast.push(k),
                    vote_pool: v.vote_pool,
                    certificates: v.certificates,
                    is_adversary: v.is_adversary,
                    stake: v.stake,
                },
            ),
            global_certificates: s.global_certificates,
            stake_distribution: s.stake_distribution,
        }
    } else {
        s
    }
}

/// One transition of the certificate model: the unique successor of `s`
/// under `a`, or `None` when the action is stale.
pub open spec fn cert_step(
    m: CertificateModel,
    s: CertificateStateV,
    a: CertificateAction,
) -> Option<CertificateStateV> {
    let n = m.validator_count as int;
    match a {
        CertificateAction::CastNotarVote { slot, hash, voter } => Some(
            cert_cast_vote(
                m,
                s,
                voter as int,
                VoteKey { slot, hash: Some(hash) },
                CertificateMessage::NotarVote { slot, hash, voter },
            ),
        ),
        CertificateAction::CastSkipVote { slot, voter } => Some(
            cert_cast_vote(
                m,
                s,
                voter as int,
                VoteKey { slot, hash: None },
                CertificateMessage::SkipVote { slot, voter },
            ),
        ),
        CertificateAction::DeliverMessage { msg } => {
            if !s.network.contains(msg) {
                None
            } else {
                let net1 = s.network.remove(net_index(s.network, msg));
                let d = msg.dst as int;
                match msg.msg {
                    CertificateMessage::NotarVote { slot, hash, voter } => Some(
                        cert_deliver_vote(
                            m,
                            s,
                            net1,
                            d,
                            VoteKey { slot, hash: Some(hash) },
                            voter as int,
                        ),
                    ),
                    CertificateMessage::SkipVote { slot, voter } => Some(
                        cert_deliver_vote(m, s, net1, d, VoteKey { slot, hash: None }, voter as int),
                    ),
                    CertificateMessage::BlockCertificate { slot, hash, stake } => {
                        let k = VoteKey { slot, hash: Some(hash) };
                        let v = s.validators[d];
                        Some(
                            CertificateStateV {
                                network: net1,
                                validators: s.validators.update(
                                    d,
                                    ValidatorStateV {
                                        votes_cast: v.votes_cast,
                                        vote_pool: v.vote_pool,
                                        certificates: key_set_insert(v.certificates, k),
                                        is_adversary: v.is_adversary,
                                        stake: v.stake,
                                    },
                                ),
                                global_certificates: certs_update(s.global_certificates, k, stake),
                                stake_distribution: s.stake_distribution,
                            },
                        )
                    },
                    CertificateMessage::SkipCertificate { slot, stake } => {
                        let k = VoteKey { slot, hash: None };
                        let v = s.validators[d];
                        Some(
                            CertificateStateV {
                                network: net1,
                                validators: s.validators.update(
                                    d,
                                    ValidatorStateV {
                                        votes_cast: v.votes_cast,
                                        vote_pool: v.vote_pool,
                                        certificates: key_set_insert(v.certificates, k),
                                        is_adversary: v.is_adversary,
                                        stake: v.stake,
                                    },
                                ),
                                global_certificates: certs_update(s.global_certificates, k, stake),
                                stake_distribution: s.stake_distribution,
                            },
                        )
                    },
                }
            }
        },
        CertificateAction::AdversaryEquivocate { slot, hash1, hash2, adversary } => {
            let v = s.validators[adversary as int];
            if v.is_adversary {
                let k1 = VoteKey { slot, hash: Some(hash1) };
                let k2 = VoteKey { slot, hash: Some(hash2) };
                Some(
                    CertificateStateV {
                        network: net_broadcast(
                            net_broadcast(
                                s.network,
                                CertificateMessage::NotarVote { slot, hash: hash1, voter: adversary },
                                n,
                            ),
                            CertificateMessage::NotarVote { slot, hash: hash2, voter: adversary },
                            n,
                        ),
                        validators: s.validators.update(
                            adversary as int,
                            ValidatorStateV {
                                votes_cast: key_set_insert(key_set_insert(v.votes_cast, k1), k2),
                                vote_pool: v.vote_pool,
                                certificates: v.certificates,
                                is_adversary: v.is_adversary,
                                stake: v.stake,
                            },
                        ),
                        global_certificates: s.global_certificates,
                        stake_distribution: s.stake_distribution,
                    },
                )
            } else {
                Some(s)
            }
        },
    }
}

/// Stake of each validator at construction: an even floor split.
pub open spec fn spec_per_validator_stake(n: u64) -> u64 {
    TOTAL_STAKE / n
}

/// The initial state for a configuration.
pub open spec fn cert_init(validator_count: int, adversary_count: int) -> CertificateStateV {
    let stake = spec_per_validator_stake(validator_count as u64);
    CertificateStateV {
        network: Seq::empty(),
        validators: Seq::new(
            validator_count as nat,
            |i: int|
                ValidatorStateV {
                    votes_cast: Seq::empty(),
                    vote_pool: Seq::empty(),
                    certificates: Seq::empty(),
                    is_adversary: i < adversary_count,
                    stake,
                },
        ),
        global_certificates: Seq::empty(),
        stake_distribution: Seq::new(validator_count as nat, |i: int| stake),
    }
}

// ------------------------------------------------------------------
// Executable set/map helpers on the model's vectors
// ------------------------------------------------------------------

pub proof fn lemma_distinct_remove<T>(s: Seq<T>, i: int)
    requires
        seq_distinct(s),
        0 <= i < s.len(),
    ensures
        seq_distinct(s.remove(i)),
{
    assert forall|a: int, b: int|
        0 <= a < s.remove(i).len() && 0 <= b < s.remove(i).len() && s.remove(i)[a] == s.remove(
            i,
        )[b] implies a == b by {
        let a0 = if a < i {
            a
        } else {
            a + 1
        };
        let b0 = if b < i {
            b
        } else {
            b + 1
        };
        assert(s[a0] == s[b0]);
    }
}

pub proof fn lemma_pool_add_distinct(pool: Seq<PoolEntry>, k: VoteKey, voter: int)
    requires
        pool_keys_distinct(pool),
    ensures
        pool_keys_distinct(pool_add(pool, k, voter)),
{
    let p2 = pool_add(pool, k, voter);
    if pool_has(pool, k) {
        let i = pool_index(pool, k);
        assert(0 <= i < pool.len() && pool[i].key == k);
        assert forall|a: int, b: int|
            0 <= a < p2.len() && 0 <= b < p2.len() && p2[a].key == p2[b].key implies a == b by {
            assert(p2[a].key == pool[a].key);
            assert(p2[b].key == pool[b].key);
        }
    } else {
        assert forall|a: int, b: int|
            0 <= a < p2.len() && 0 <= b < p2.len() && p2[a].key == p2[b].key implies a == b by {
            if a < pool.len() && b < pool.len() {
                assert(pool[a].key == pool[b].key);
            } else if a < pool.len() && b == pool.len() {
                assert(pool[a].key == k);
                assert(pool_has(pool, k));
            } else if a == pool.len() && b < pool.len() {
                assert(pool[b].key == k);
                assert(pool_has(pool, k));
            }
        }
    }
}

fn net_contains(net: &Vec<MessageInTransit>, m: MessageInTransit) -> (r: bool)
    ensures
        r == net@.contains(m),
{
    let mut i: usize = 0;
    while i < net.len()
        invariant
            i <= net@.len(),
            forall|j: int| 0 <= j < i ==> net@[j] != m,
        decreases net@.len() - i,
    {
        if net[i] == m {
            return true;
        }
        i = i + 1;
    }
    false
}

fn net_insert_exec(net: &mut Vec<MessageInTransit>, m: MessageInTransit)
    ensures
        final(net)@ == net_insert(old(net)@, m),
{
    if !net_contains(net, m) {
        net.push(m);
    }
}

fn net_remove_exec(net: &mut Vec<MessageInTransit>, m: MessageInTransit)
    requires
        seq_distinct(old(net)@),
        old(net)@.contains(m),
    ensures
        final(net)@ == old(net)@.remove(net_index(old(net)@, m)),
        seq_distinct(final(net)@),
{
    let ghost orig = net@;
    proof {
        assert(orig == old(net)@);
    }
    let mut i: usize = 0;
    while i < net.len()
        invariant
            net@ == orig,
            orig == old(net)@,
            seq_distinct(orig),
            i <= net@.len(),
            forall|j: int| 0 <= j < i ==> net@[j] != m,
            net@.contains(m),
        decreases net@.len() - i,
    {
        if net[i] == m {
            proof {
                let ii = net_index(orig, m);
                assert(0 <= ii < orig.len() && orig[ii] == m);
                assert(ii == i as int);
                lemma_distinct_remove(orig, ii);
            }
            net.remove(i);
            return ;
        }
        i = i + 1;
    }
    proof {
        let ii = choose|j: int| 0 <= j < orig.len() && orig[j] == m;
        assert(false);
    }
}

fn broadcast_exec(net: &mut Vec<MessageInTransit>, msg: CertificateMessage, n: usize)
    ensures
        final(net)@ == net_broadcast(old(net)@, msg, n as int),
{
    let mut i: usize = 0;
    while i < n
        invariant
            i <= n,
            net@ == net_broadcast(old(net)@, msg, i as int),
        decreases n - i,
    {
        net_insert_exec(net, MessageInTransit { dst: i, msg });
        i = i + 1;
    }
}

pub(crate) fn keys_contains(keys: &Vec<VoteKey>, k: VoteKey) -> (r: bool)
    ensures
        r == keys@.contains(k),
{
    let mut i: usize = 0;
    while i < keys.len()
        invariant
            i <= keys@.len(),
            forall|j: int| 0 <= j < i ==> keys@[j] != k,
        decreases keys@.len() - i,
    {
        if keys[i] == k {
            return true;
        }
        i = i + 1;
    }
    false
}

pub(crate) fn keys_insert_exec(keys: &mut Vec<VoteKey>, k: VoteKey)
    ensures
        final(keys)@ == key_set_insert(old(keys)@, k),
{
    if !keys_contains(keys, k) {
        keys.push(k);
    }
}

pub(crate) fn votes_has_slot_exec(keys: &Vec<VoteKey>, slot: u64) -> (r: bool)
    ensures
        r == votes_has_slot(keys@, slot),
{
    let mut i: usize = 0;
    while i < keys.len()
        invariant
            i <= keys@.len(),
            forall|j: int| 0 <= j < i ==> keys@[j].slot != slot,
        decreases keys@.len() - i,
    {
        if keys[i].slot == slot {
            return true;
        }
        i = i + 1;
    }
    false
}

pub(crate) fn pool_find(pool: &Vec<PoolEntry>, k: VoteKey) -> (r: Option<usize>)
    requires
        pool_keys_distinct(pool@),
    ensures
        match r {
            Some(i) => pool_has(pool@, k) && i as int == pool_index(pool@, k) && i < pool@.len()
                && pool@[i as int].key == k,
            None => !pool_has(pool@, k),
        },
{
    let mut i: usize = 0;
    while i < pool.len()
        invariant
            i <= pool@.len(),
            pool_keys_distinct(pool@),
            forall|j: int| 0 <= j < i ==> pool@[j].key != k,
        decreases pool@.len() - i,
    {
        if pool[i].key == k {
            proof {
                assert(pool_has(pool@, k));
                let ii = pool_index(pool@, k);
                assert(0 <= ii < pool@.len() && pool@[ii].key == k);
            }
            return Some(i);
        }
        i = i + 1;
    }
    None
}

pub(crate) fn pool_add_exec(pool: &mut Vec<PoolEntry>, k: VoteKey, voter: usize)
    requires
        voter < 64,
        pool_keys_distinct(old(pool)@),
    ensures
        final(pool)@ == pool_add(old(pool)@, k, voter as int),
{
    let r = pool_find(pool, k);
    match r {
        Some(i) => {
            let e = pool[i];
            set_vec(pool, i, PoolEntry { key: k, voters: e.voters | (1u64 << (voter as u64)) });
        },
        None => {
            pool.push(PoolEntry { key: k, voters: 1u64 << (voter as u64) });
        },
    }
}

fn gcerts_update_exec(gc: &mut Vec<CertRecord>, k: VoteKey, stake: u64)
    requires
        certs_keys_distinct(old(gc)@),
    ensures
        final(gc)@ == certs_update(old(gc)@, k, stake),
{
    let mut i: usize = 0;
    while i < gc.len()
        invariant
            i <= gc@.len(),
            certs_keys_distinct(gc@),
            gc@ == old(gc)@,
            forall|j: int| 0 <= j < i ==> gc@[j].key != k,
        decreases gc@.len() - i,
    {
        if gc[i].key == k {
            proof {
                assert(certs_has(gc@, k));
                let ii = certs_index(gc@, k);
                assert(0 <= ii < gc@.len() && gc@[ii].key == k);
            }
            set_vec(gc, i, CertRecord { key: k, stake });
            return ;
        }
        i = i + 1;
    }
    proof {
        assert(!certs_has(gc@, k));
    }
    gc.push(CertRecord { key: k, stake });
}

// ------------------------------------------------------------------
// Executable state
// ------------------------------------------------------------------

impl ValidatorState {
    /// A fresh copy with the same mathematical value.
    fn duplicate(&self) -> (r: ValidatorState)
        ensures
            r@ == self@,
    {
        ValidatorState {
            votes_cast: copy_vec(&self.votes_cast),
            vote_pool: copy_vec(&self.vote_pool),
            certificates: copy_vec(&self.certificates),
            is_adversary: self.is_adversary,
            stake: self.stake,
        }
    }
}

impl CertificateState {
    /// A fresh copy with the same mathematical value.
    pub fn duplicate(&self) -> (r: CertificateState)
        ensures
            r@ == self@,
    {
        let mut validators: Vec<ValidatorState> = Vec::new();
        let mut i: usize = 0;
        while i < self.validators.len()
            invariant
                i <= self.validators@.len(),
                validators@.len() == i,
                forall|j: int| 0 <= j < i ==> #[trigger] validators@[j]@ == self.validators@[j]@,
            decreases self.validators@.len() - i,
        {
            let v = self.validators[i].duplicate();
            validators.push(v);
            i = i + 1;
        }
        let r = CertificateState {
            network: copy_vec(&self.network),
            validators,
            global_certificates: copy_vec(&self.global_certificates),
            stake_distribution: copy_vec(&self.stake_distribution),
        };
        proof {
            assert(r@.validators =~= self@.validators);
            assert(r@ =~= self@);
        }
        r
    }

    /// The initial state: an even floor split of the total stake, the first
    /// `adversary_count` validators adversarial, nothing in flight.
    pub fn new(validator_count: usize, adversary_count: usize) -> (r: CertificateState)
        requires
            1 <= validator_count <= 64,
        ensures
            r@ == cert_init(validator_count as int, adversary_count as int),
    {
        let stake_per_validator = TOTAL_STAKE / (validator_count as u64);
        let mut validators: Vec<ValidatorState> = Vec::new();
        let mut stake_distribution: Vec<u64> = Vec::new();
        let mut i: usize = 0;
        while i < validator_count
            invariant
                i <= validator_count,
                validator_count <= 64,
                stake_per_validator == spec_per_validator_stake(validator_count as u64),
                validators@.len() == i,
                stake_distribution@.len() == i,
                forall|j: int|
                    0 <= j < i ==> #[trigger] validators@[j]@ == cert_init(
                        validator_count as int,
                        adversary_count as int,
                    ).validators[j],
                forall|j: int|
                    0 <= j < i ==> #[trigger] stake_distribution@[j] == stake_per_validator,
            decreases validator_count - i,
        {
            validators.push(
                ValidatorState {
                    votes_cast: Vec::new(),
                    vote_pool: Vec::new(),
                    certificates: Vec::new(),
                    is_adversary: i < adversary_count,
                    stake: stake_per_validator,
                },
            );
            stake_distribution.push(stake_per_validator);
            proof {
                let gi = cert_init(validator_count as int, adversary_count as int);
                assert(validators@[i as int]@ =~= gi.validators[i as int]);
            }
            i = i + 1;
        }
        let r = CertificateState {
            network: Vec::new(),
            validators,
            global_certificates: Vec::new(),
            stake_distribution,
        };
        proof {
            let gi = cert_init(validator_count as int, adversary_count as int);
            assert(r@.validators =~= gi.validators);
            assert(r@.stake_distribution =~= gi.stake_distribution);
            assert(r@ =~= gi);
        }
        r
    }

    /// Whether the first validator's pool holds a quorum for `(slot, hash)`.
    pub fn can_form_certificate(&self, slot: u64, hash: Option<u64>) -> (r: bool)
        requires
            cert_state_wf(self@),
        ensures
            r == spec_can_form_certificate(self@, VoteKey { slot, hash }),
    {
        let k = VoteKey { slot, hash };
        proof {
            assert(self@.validators[0] == self.validators@[0]@);
            assert(self@.validators[0].vote_pool == self.validators@[0].vote_pool@);
            assert(pool_keys_distinct(self.validators@[0].vote_pool@));
        }
        let found = pool_find(&self.validators[0].vote_pool, k);
        match found {
            Some(i) => {
                let voters = self.validators[0].vote_pool[i].voters;
                let backing = stake_for_mask(&self.stake_distribution, voters);
                let threshold = quorum_stake(TOTAL_STAKE, NOTARIZE_THRESHOLD_PERCENT);
                backing >= threshold
            },
            None => false,
        }
    }

    /// Total stake held by the voters in the mask.
    pub fn get_stake_for_voters(&self, voters: u64) -> (r: u64)
        requires
            cert_state_wf(self@),
        ensures
            r == stake_in(self@.stake_distribution, voters, self@.validators.len() as int),
    {
        stake_for_mask(&self.stake_distribution, voters)
    }
}

/// Quorum check over the first validator's pool, mathematically.
pub open spec fn spec_can_form_certificate(s: CertificateStateV, k: VoteKey) -> bool {
    &&& pool_has(s.validators[0].vote_pool, k)
    &&& stake_in(s.stake_distribution, pool_voters(s.validators[0].vote_pool, k), s.validators.len() as int)
        >= spec_threshold()
}

// ------------------------------------------------------------------
// The transition function, executably
// ------------------------------------------------------------------

impl CertificateModel {
    /// The single initial state of the model.
    pub fn init_states(&self) -> (r: Vec<CertificateState>)
        requires
            1 <= self.validator_count <= 64,
        ensures
            r@.len() == 1,
            r@[0]@ == cert_init(self.validator_count as int, self.adversary_count as int),
    {
        let mut r: Vec<CertificateState> = Vec::new();
        r.push(CertificateState::new(self.validator_count, self.adversary_count));
        r
    }

    /// A validator casts a vote for `k` (unless it already voted in the
    /// slot) and broadcasts the corresponding message.
    fn cast_vote(
        &self,
        last_state: &CertificateState,
        voter: usize,
        k: VoteKey,
        msg: CertificateMessage,
    ) -> (r: CertificateState)
        requires
            wf_state(*self, last_state@),
            voter < self.validator_count,
        ensures
            r@ == cert_cast_vote(*self, last_state@, voter as int, k, msg),
    {
        let mut s2 = last_state.duplicate();
        if !votes_has_slot_exec(&last_state.validators[voter].votes_cast, k.slot) {
            let vold = &last_state.validators[voter];
            let mut votes_cast = copy_vec(&vold.votes_cast);
            votes_cast.push(k);
            let nv = ValidatorState {
                votes_cast,
                vote_pool: copy_vec(&vold.vote_pool),
                certificates: copy_vec(&vold.certificates),
                is_adversary: vold.is_adversary,
                stake: vold.stake,
            };
            set_vec(&mut s2.validators, voter, nv);
            broadcast_exec(&mut s2.network, msg, self.validator_count);
            proof {
                let g = cert_cast_vote(*self, last_state@, voter as int, k, msg);
                assert(s2@.validators =~= g.validators);
                assert(s2@ =~= g);
            }
        } else {
            proof {
                assert(s2@ =~= cert_cast_vote(*self, last_state@, voter as int, k, msg));
            }
        }
        s2
    }

    /// Record a delivered vote in the recipient's pool and, once the quorum
    /// threshold is reached, form the certificate locally and globally.
    fn apply_vote(&self, s2: &mut CertificateState, d: usize, k: VoteKey, voter: usize)
        requires
            cert_state_wf(old(s2)@),
            old(s2)@.validators.len() == self.validator_count,
            d < self.validator_count,
            voter < 64,
        ensures
            final(s2)@ == cert_deliver_vote(
                *self,
                old(s2)@,
                old(s2)@.network,
                d as int,
                k,
                voter as int,
            ),
    {
        let vold = &s2.validators[d];
        let ghost oldv = vold@;
        proof {
            assert(old(s2)@.validators[d as int] == oldv);
            assert(pool_keys_distinct(oldv.vote_pool));
        }
        let mut pool = copy_vec(&vold.vote_pool);
        pool_add_exec(&mut pool, k, voter);
        proof {
            lemma_pool_add_distinct(oldv.vote_pool, k, voter as int);
        }
        let found = pool_find(&pool, k);
        proof {
            assert(pool_has(pool@, k)) by {
                let p0 = oldv.vote_pool;
                if pool_has(p0, k) {
                    let i = pool_index(p0, k);
                    assert(pool@[i].key == k);
                } else {
                    assert(pool@[p0.len() as int].key == k);
                }
            }
        }
        let i = match found {
            Some(i) => i,
            None => {
                proof {
                    assert(false);
                }
                0
            },
        };
        let voters1 = pool[i].voters;
        let backing = stake_for_mask(&s2.stake_distribution, voters1);
        let threshold = quorum_stake(TOTAL_STAKE, NOTARIZE_THRESHOLD_PERCENT);
        proof {
            lemma_stake_in_nonneg(s2@.stake_distribution, voters1, s2@.validators.len() as int);
        }
        let vold = &s2.validators[d];
        let nv = if backing >= threshold {
            ValidatorState {
                votes_cast: copy_vec(&vold.votes_cast),
                vote_pool: pool,
                certificates: {
                    let mut c = copy_vec(&vold.certificates);
                    keys_insert_exec(&mut c, k);
                    c
                },
                is_adversary: vold.is_adversary,
                stake: vold.stake,
            }
        } else {
            ValidatorState {
                votes_cast: copy_vec(&vold.votes_cast),
                vote_pool: pool,
                certificates: copy_vec(&vold.certificates),
                is_adversary: vold.is_adversary,
                stake: vold.stake,
            }
        };
        set_vec(&mut s2.validators, d, nv);
        if backing >= threshold {
            gcerts_update_exec(&mut s2.global_certificates, k, backing);
        }
        proof {
            let g = cert_deliver_vote(*self, old(s2)@, old(s2)@.network, d as int, k, voter as int);
            assert(s2@.validators =~= g.validators);
            assert(s2@ =~= g);
        }
    }

    /// The unique successor of `last_state` under `action`, or `None` when
    /// the action is stale (its message is no longer in flight).
    pub fn next_state(&self, last_state: &CertificateState, action: CertificateAction) -> (r:
        Option<CertificateState>)
        requires
            wf_state(*self, last_state@),
            wf_action(*self, action),
        ensures
            match r {
                Some(s2) => cert_step(*self, last_state@, action) == Some(s2@),
                None => cert_step(*self, last_state@, action) is None,
            },
    {
        match action {
            CertificateAction::CastNotarVote { slot, hash, voter } => {
                Some(
                    self.cast_vote(
                        last_state,
                        voter,
                        VoteKey { slot, hash: Some(hash) },
                        CertificateMessage::NotarVote { slot, hash, voter },
                    ),
                )
            },
            CertificateAction::CastSkipVote { slot, voter } => {
                Some(
                    self.cast_vote(
                        last_state,
                        voter,
                        VoteKey { slot, hash: None },
                        CertificateMessage::SkipVote { slot, voter },
                    ),
                )
            },
            CertificateAction::DeliverMessage { msg } => {
                if !net_contains(&last_state.network, msg) {
                    return None;
                }
                let mut s2 = last_state.duplicate();
                net_remove_exec(&mut s2.network, msg);
                let d = msg.dst;
                match msg.msg {
                    CertificateMessage::NotarVote { slot, hash, voter } => {
                        self.apply_vote(&mut s2, d, VoteKey { slot, hash: Some(hash) }, voter);
                        proof {
                            let g = cert_step(*self, last_state@, action);
                            assert(g == Some(s2@)) by {
                                assert(g is Some);
                                assert(s2@ =~= g->Some_0);
                            }
                        }
                        Some(s2)
                    },
                    CertificateMessage::SkipVote { slot, voter } => {
                        self.apply_vote(&mut s2, d, VoteKey { slot, hash: None }, voter);
                        proof {
                            let g = cert_step(*self, last_state@, action);
                            assert(g == Some(s2@)) by {
                                assert(g is Some);
                                assert(s2@ =~= g->Some_0);
                            }
                        }
                        Some(s2)
                    },
                    CertificateMessage::BlockCertificate { slot, hash, stake } => {
                        self.record_certificate(&mut s2, d, VoteKey { slot, hash: Some(hash) }, stake);
                        proof {
                            let g = cert_step(*self, last_state@, action);
                            assert(g == Some(s2@)) by {
                                assert(g is Some);
                                assert(s2@ =~= g->Some_0);
                            }
                        }
                        Some(s2)
                    },
                    CertificateMessage::SkipCertificate { slot, stake } => {
                        self.record_certificate(&mut s2, d, VoteKey { slot, hash: None }, stake);
                        proof {
                            let g = cert_step(*self, last_state@, action);
                            assert(g == Some(s2@)) by {
                                assert(g is Some);
                                assert(s2@ =~= g->Some_0);
                            }
                        }
                        Some(s2)
                    },
                }
            },
            CertificateAction::AdversaryEquivocate { slot, hash1, hash2, adversary } => {
                let mut s2 = last_state.duplicate();
                if last_state.validators[adversary].is_adversary {
                    let vold = &last_state.validators[adversary];
                    let mut votes_cast = copy_vec(&vold.votes_cast);
                    keys_insert_exec(&mut votes_cast, VoteKey { slot, hash: Some(hash1) });
                    keys_insert_exec(&mut votes_cast, VoteKey { slot, hash: Some(hash2) });
                    let nv = ValidatorState {
                        votes_cast,
                        vote_pool: copy_vec(&vold.vote_pool),
                        certificates: copy_vec(&vold.certificates),
                        is_adversary: vold.is_adversary,
                        stake: vold.stake,
                    };
                    set_vec(&mut s2.validators, adversary, nv);
                    broadcast_exec(
                        &mut s2.network,
                        CertificateMessage::NotarVote { slot, hash: hash1, voter: adversary },
                        self.validator_count,
                    );
                    broadcast_exec(
                        &mut s2.network,
                        CertificateMessage::NotarVote { slot, hash: hash2, voter: adversary },
                        self.validator_count,
                    );
                }
                proof {
                    let g = cert_step(*self, last_state@, action);
                    assert(g == Some(s2@)) by {
                        assert(s2@ =~= g->Some_0);
                    }
                }
                Some(s2)
            },
        }
    }

    /// Record a certificate received ready-made in a message.
    fn record_certificate(&self, s2: &mut CertificateState, d: usize, k: VoteKey, stake: u64)
        requires
            cert_state_wf(old(s2)@),
            old(s2)@.validators.len() == self.validator_count,
            d < self.validator_count,
        ensures
            final(s2)@.network == old(s2)@.network,
            final(s2)@.stake_distribution == old(s2)@.stake_distribution,
            final(s2)@.validators == old(s2)@.validators.update(
                d as int,
                ValidatorStateV {
                    certificates: key_set_insert(old(s2)@.validators[d as int].certificates, k),
                    ..old(s2)@.validators[d as int]
                },
            ),
            final(s2)@.global_certificates == certs_update(old(s2)@.global_certificates, k, stake),
    {
        let vold = &s2.validators[d];
        let nv = ValidatorState {
            votes_cast: copy_vec(&vold.votes_cast),
            vote_pool: copy_vec(&vold.vote_pool),
            certificates: {
                let mut c = copy_vec(&vold.certificates);
                keys_insert_exec(&mut c, k);
                c
            },
            is_adversary: vold.is_adversary,
            stake: vold.stake,
        };
        set_vec(&mut s2.validators, d, nv);
        gcerts_update_exec(&mut s2.global_certificates, k, stake);
        proof {
            assert(s2@.validators =~= old(s2)@.validators.update(
                d as int,
                ValidatorStateV {
                    certificates: key_set_insert(old(s2)@.validators[d as int].certificates, k),
                    ..old(s2)@.validators[d as int]
                },
            ));
        }
    }
}

// ------------------------------------------------------------------
// Action generation
// ------------------------------------------------------------------

/// Bounds under which the model's arithmetic cannot overflow.
pub open spec fn wf_model(m: CertificateModel) -> bool {
    &&& 1 <= m.validator_count <= 64
    &&& m.adversary_count <= m.validator_count
    &&& m.max_slot <= 1000000
}

/// One delivery action for every message in flight.
pub open spec fn deliver_actions(net: Seq<MessageInTransit>) -> Seq<CertificateAction> {
    Seq::new(net.len(), |i: int| CertificateAction::DeliverMessage { msg: net[i] })
}

/// Notarization votes for `(slot, hash)` offered to the voters below `k`
/// that have not yet cast exactly this vote.
pub open spec fn notar_actions_voters(
    s: CertificateStateV,
    slot: u64,
    hash: u64,
    k: int,
) -> Seq<CertificateAction>
    decreases k,
{
    if k <= 0 {
        Seq::empty()
    } else {
        notar_actions_voters(s, slot, hash, k - 1) + (
        if !s.validators[k - 1].votes_cast.contains(VoteKey { slot, hash: Some(hash) }) {
            seq![CertificateAction::CastNotarVote { slot, hash, voter: (k - 1) as usize }]
        } else {
            Seq::empty()
        })
    }
}

/// Notarization votes for the candidate hashes `1..=h` of a slot.
pub open spec fn notar_actions_hashes(
    s: CertificateStateV,
    slot: u64,
    h: int,
    n: int,
) -> Seq<CertificateAction>
    decreases h,
{
    if h <= 0 {
        Seq::empty()
    } else {
        notar_actions_hashes(s, slot, h - 1, n) + notar_actions_voters(s, slot, h as u64, n)
    }
}

/// Notarization votes for the slots `1..=sl`.
pub open spec fn notar_actions_slots(s: CertificateStateV, sl: int, n: int) -> Seq<
    CertificateAction,
>
    decreases sl,
{
    if sl <= 0 {
        Seq::empty()
    } else {
        notar_actions_slots(s, sl - 1, n) + notar_actions_hashes(s, sl as u64, 3, n)
    }
}

/// Skip votes for a slot offered to the voters below `k` that have not yet
/// cast exactly this vote.
pub open spec fn skip_actions_voters(s: CertificateStateV, slot: u64, k: int) -> Seq<
    CertificateAction,
>
    decreases k,
{
    if k <= 0 {
        Seq::empty()
    } else {
        skip_actions_voters(s, slot, k - 1) + (
        if !s.validators[k - 1].votes_cast.contains(VoteKey { slot, hash: None }) {
            seq![CertificateAction::CastSkipVote { slot, voter: (k - 1) as usize }]
        } else {
            Seq::empty()
        })
    }
}

/// Skip votes for the slots `1..=sl`.
pub open spec fn skip_actions_slots(s: CertificateStateV, sl: int, n: int) -> Seq<
    CertificateAction,
>
    decreases sl,
{
    if sl <= 0 {
        Seq::empty()
    } else {
        skip_actions_slots(s, sl - 1, n) + skip_actions_voters(s, sl as u64, n)
    }
}

/// Equivocation attempts for a slot by the adversaries below `k`.
pub open spec fn equiv_actions_advs(slot: u64, k: int) -> Seq<CertificateAction>
    decreases k,
{
    if k <= 0 {
        Seq::empty()
    } else {
        equiv_actions_advs(slot, k - 1) + seq![
            CertificateAction::AdversaryEquivocate {
                slot,
                hash1: (slot * 1000 + 1) as u64,
                hash2: (slot * 1000 + 2) as u64,
                adversary: (k - 1) as usize,
            },
        ]
    }
}

/// Equivocation attempts for the slots `1..=sl`.
pub open spec fn equiv_actions_slots(m: CertificateModel, sl: int) -> Seq<CertificateAction>
    decreases sl,
{
    if sl <= 0 {
        Seq::empty()
    } else {
        equiv_actions_slots(m, sl - 1) + equiv_actions_advs(sl as u64, m.adversary_count as int)
    }
}

/// Every action enabled in `s`, in generation order.
pub open spec fn cert_actions(m: CertificateModel, s: CertificateStateV) -> Seq<
    CertificateAction,
> {
    deliver_actions(s.network) + notar_actions_slots(s, m.max_slot as int, m.validator_count as int)
        + skip_actions_slots(s, m.max_slot as int, m.validator_count as int) + equiv_actions_slots(
        m,
        m.max_slot as int,
    )
}

impl CertificateModel {
    /// Append every enabled action to `actions`: a delivery per in-flight
    /// message, the votes each validator may still cast for each slot and
    /// candidate, and the adversaries' equivocation attempts.
    pub fn actions(&self, state: &CertificateState, actions: &mut Vec<CertificateAction>)
        requires
            wf_model(*self),
            wf_state(*self, state@),
        ensures
            final(actions)@ == old(actions)@ + cert_actions(*self, state@),
    {
        let ghost base = actions@;
        let ghost sv = state@;
        let n = self.validator_count;

        // 1. Deliver any message in the network.
        let mut i: usize = 0;
        while i < state.network.len()
            invariant
                i <= state.network@.len(),
                sv == state@,
                actions@ == base + deliver_actions(sv.network).subrange(0, i as int),
            decreases state.network@.len() - i,
        {
            actions.push(CertificateAction::DeliverMessage { msg: state.network[i] });
            proof {
                assert(actions@ =~= base + deliver_actions(sv.network).subrange(0, i as int + 1));
            }
            i = i + 1;
        }
        proof {
            assert(deliver_actions(sv.network).subrange(0, sv.network.len() as int) =~= deliver_actions(sv.network));
        }

        // 2. Cast votes for blocks.
        let ghost base1 = base + deliver_actions(sv.network);
        let mut slot: u64 = 1;
        while slot <= self.max_slot
            invariant
                1 <= slot <= self.max_slot + 1,
                wf_model(*self),
                wf_state(*self, state@),
                sv == state@,
                n == self.validator_count,
                actions@ == base1 + notar_actions_slots(sv, slot as int - 1, n as int),
            decreases self.max_slot + 1 - slot,
        {
            let mut hash: u64 = 1;
            while hash <= 3
                invariant
                    1 <= hash <= 4,
                    1 <= slot <= self.max_slot,
                    wf_model(*self),
                    wf_state(*self, state@),
                    sv == state@,
                    n == self.validator_count,
                    actions@ == base1 + notar_actions_slots(sv, slot as int - 1, n as int)
                        + notar_actions_hashes(sv, slot, hash as int - 1, n as int),
                decreases 4 - hash,
            {
                let mut voter: usize = 0;
                while voter < n
                    invariant
                        voter <= n,
                        1 <= hash <= 3,
                        1 <= slot <= self.max_slot,
                        wf_model(*self),
                        wf_state(*self, state@),
                        sv == state@,
                        n == self.validator_count,
                        actions@ == base1 + notar_actions_slots(sv, slot as int - 1, n as int)
                            + notar_actions_hashes(sv, slot, hash as int - 1, n as int)
                            + notar_actions_voters(sv, slot, hash, voter as int),
                    decreases n - voter,
                {
                    proof {
                        assert(sv.validators[voter as int] == state.validators@[voter as int]@);
                    }
                    if !keys_contains(
                        &state.validators[voter].votes_cast,
                        VoteKey { slot, hash: Some(hash) },
                    ) {
                        actions.push(CertificateAction::CastNotarVote { slot, hash, voter });
                    }
                    proof {
                        assert(actions@ =~= base1 + notar_actions_slots(sv, slot as int - 1, n as int)
                            + notar_actions_hashes(sv, slot, hash as int - 1, n as int)
                            + notar_actions_voters(sv, slot, hash, voter as int + 1));
                    }
                    voter = voter + 1;
                }
                hash = hash + 1;
            }
            slot = slot + 1;
        }

        // 3. Cast skip votes.
        let ghost base2 = base1 + notar_actions_slots(sv, self.max_slot as int, n as int);
        proof {
            assert(actions@ == base2);
        }
        let mut slot: u64 = 1;
        while slot <= self.max_slot
            invariant
                1 <= slot <= self.max_slot + 1,
                wf_model(*self),
                wf_state(*self, state@),
                sv == state@,
                n == self.validator_count,
                actions@ == base2 + skip_actions_slots(sv, slot as int - 1, n as int),
            decreases self.max_slot + 1 - slot,
        {
            let mut voter: usize = 0;
            while voter < n
                invariant
                    voter <= n,
                    1 <= slot <= self.max_slot,
                    wf_model(*self),
                    wf_state(*self, state@),
                    sv == state@,
                    n == self.validator_count,
                    actions@ == base2 + skip_actions_slots(sv, slot as int - 1, n as int)
                        + skip_actions_voters(sv, slot, voter as int),
                decreases n - voter,
            {
                proof {
                    assert(sv.validators[voter as int] == state.validators@[voter as int]@);
                }
                if !keys_contains(&state.validators[voter].votes_cast, VoteKey { slot, hash: None }) {
                    actions.push(CertificateAction::CastSkipVote { slot, voter });
                }
                proof {
                    assert(actions@ =~= base2 + skip_actions_slots(sv, slot as int - 1, n as int)
                        + skip_actions_voters(sv, slot, voter as int + 1));
                }
                voter = voter + 1;
            }
            slot = slot + 1;
        }

        // 4. Adversary equivocation attempts.
        let ghost base3 = base2 + skip_actions_slots(sv, self.max_slot as int, n as int);
        proof {
            assert(actions@ == base3);
        }
        let mut slot: u64 = 1;
        while slot <= self.max_slot
            invariant
                1 <= slot <= self.max_slot + 1,
                wf_model(*self),
                sv == state@,
                actions@ == base3 + equiv_actions_slots(*self, slot as int - 1),
            decreases self.max_slot + 1 - slot,
        {
            let mut adversary: usize = 0;
            while adversary < self.adversary_count
                invariant
                    adversary <= self.adversary_count,
                    1 <= slot <= self.max_slot,
                    wf_model(*self),
                    sv == state@,
                    actions@ == base3 + equiv_actions_slots(*self, slot as int - 1)
                        + equiv_actions_advs(slot, adversary as int),
                decreases self.adversary_count - adversary,
            {
                actions.push(
                    CertificateAction::AdversaryEquivocate {
                        slot,
                        hash1: slot * 1000 + 1,
                        hash2: slot * 1000 + 2,
                        adversary,
                    },
                );
                proof {
                    assert(actions@ =~= base3 + equiv_actions_slots(*self, slot as int - 1)
                        + equiv_actions_advs(slot, adversary as int + 1));
                }
                adversary = adversary + 1;
            }
            slot = slot + 1;
        }
        proof {
            assert(actions@ =~= old(actions)@ + cert_actions(*self, state@));
        }
    }
}

// ------------------------------------------------------------------
// Properties
// ------------------------------------------------------------------

/// No slot carries two entries in the global certificate ledger.
pub open spec fn prop_certificate_uniqueness(s: CertificateStateV) -> bool {
    forall|i: int, j: int|
        0 <= i < s.global_certificates.len() && 0 <= j < s.global_certificates.len()
            && #[trigger] s.global_certificates[i].key.slot
            == #[trigger] s.global_certificates[j].key.slot ==> i == j
}

/// No honest validator has voted twice in any slot.  Adversaries are exempt:
/// equivocation is their defining move, and the other properties show it
/// cannot break certificate uniqueness while their stake is bounded.
pub open spec fn prop_vote_uniqueness(s: CertificateStateV) -> bool {
    forall|v: int, i: int, j: int|
        0 <= v < s.validators.len() && !s.validators[v].is_adversary && 0 <= i
            < s.validators[v].votes_cast.len() && 0 <= j < s.validators[v].votes_cast.len()
            && #[trigger] s.validators[v].votes_cast[i].slot
            == #[trigger] s.validators[v].votes_cast[j].slot ==> i == j
}

/// Every ledger entry records at least the quorum threshold of stake.
pub open spec fn prop_certificate_threshold(s: CertificateStateV) -> bool {
    forall|i: int|
        0 <= i < s.global_certificates.len() ==> (#[trigger] s.global_certificates[i].stake)
            >= spec_threshold()
}

/// No slot carries both a block certificate and a skip certificate.
pub open spec fn prop_equivocation_detection(s: CertificateStateV) -> bool {
    forall|i: int, j: int|
        0 <= i < s.global_certificates.len() && 0 <= j < s.global_certificates.len()
            && #[trigger] s.global_certificates[i].key.slot
            == #[trigger] s.global_certificates[j].key.slot ==> (
        s.global_certificates[i].key.hash is Some <==> s.global_certificates[j].key.hash is Some)
}

/// The invariants checked at every visited state.
#[derive(Clone, Copy, Debug, PartialEq, Eq, PartialOrd, Ord, Hash, Structural)]
pub enum CertificateProperty {
    CertificateUniqueness,
    VoteUniqueness,
    CertificateThreshold,
    AdversaryEquivocationDetection,
}

/// The properties violated in `s`, in a fixed order.
pub open spec fn cert_violations(s: CertificateStateV) -> Seq<CertificateProperty> {
    (if !prop_certificate_uniqueness(s) {
        seq![CertificateProperty::CertificateUniqueness]
    } else {
        Seq::empty()
    }) + (if !prop_vote_uniqueness(s) {
        seq![CertificateProperty::VoteUniqueness]
    } else {
        Seq::empty()
    }) + (if !prop_certificate_threshold(s) {
        seq![CertificateProperty::CertificateThreshold]
    } else {
        Seq::empty()
    }) + (if !prop_equivocation_detection(s) {
        seq![CertificateProperty::AdversaryEquivocationDetection]
    } else {
        Seq::empty()
    })
}

impl CertificateModel {
    /// Whether no slot has two entries in the global ledger.
    pub fn certificate_uniqueness(&self, state: &CertificateState) -> (r: bool)
        ensures
            r == prop_certificate_uniqueness(state@),
    {
        let gc = &state.global_certificates;
        let mut i: usize = 0;
        while i < gc.len()
            invariant
                gc@ == state@.global_certificates,
                i <= gc@.len(),
                forall|a: int, b: int|
                    0 <= a < i && 0 <= b < gc@.len() && #[trigger] gc@[a].key.slot
                        == #[trigger] gc@[b].key.slot ==> a == b,
            decreases gc@.len() - i,
        {
            let mut j: usize = 0;
            while j < gc.len()
                invariant
                    gc@ == state@.global_certificates,
                    i < gc@.len(),
                    j <= gc@.len(),
                    forall|a: int, b: int|
                        0 <= a < i && 0 <= b < gc@.len() && #[trigger] gc@[a].key.slot
                            == #[trigger] gc@[b].key.slot ==> a == b,
                    forall|b: int|
                        0 <= b < j && (#[trigger] gc@[b].key.slot) == gc@[i as int].key.slot ==> b
                            == i as int,
                decreases gc@.len() - j,
            {
                if j != i && gc[j].key.slot == gc[i].key.slot {
                    proof {
                        let sv = state@;
                        assert(sv.global_certificates[j as int].key.slot == sv.global_certificates[i as int].key.slot);
                        assert(!prop_certificate_uniqueness(sv));
                    }
                    return false;
                }
                j = j + 1;
            }
            i = i + 1;
        }
        proof {
            assert(prop_certificate_uniqueness(state@)) by {
                let sv = state@;
                assert forall|a: int, b: int|
                    0 <= a < sv.global_certificates.len() && 0 <= b < sv.global_certificates.len()
                        && #[trigger] sv.global_certificates[a].key.slot
                        == #[trigger] sv.global_certificates[b].key.slot implies a == b by {
                    assert(gc@[a].key.slot == gc@[b].key.slot);
                }
            }
        }
        true
    }

    /// Whether every honest validator voted at most once per slot.
    pub fn vote_uniqueness(&self, state: &CertificateState) -> (r: bool)
        ensures
            r == prop_vote_uniqueness(state@),
    {
        let mut v: usize = 0;
        while v < state.validators.len()
            invariant
                v <= state.validators@.len(),
                forall|a: int, i: int, j: int|
                    0 <= a < v && !state@.validators[a].is_adversary && 0 <= i
                        < state@.validators[a].votes_cast.len() && 0 <= j
                        < state@.validators[a].votes_cast.len()
                        && #[trigger] state@.validators[a].votes_cast[i].slot
                        == #[trigger] state@.validators[a].votes_cast[j].slot ==> i == j,
            decreases state.validators@.len() - v,
        {
            proof {
                assert(state@.validators[v as int] == state.validators@[v as int]@);
            }
            if !state.validators[v].is_adversary {
                let votes = &state.validators[v].votes_cast;
                let mut i: usize = 0;
                while i < votes.len()
                    invariant
                        i <= votes@.len(),
                        votes@ == state@.validators[v as int].votes_cast,
                        !state@.validators[v as int].is_adversary,
                        v < state.validators@.len(),
                        forall|a: int, b: int|
                            0 <= a < i && 0 <= b < votes@.len() && #[trigger] votes@[a].slot
                                == #[trigger] votes@[b].slot ==> a == b,
                    decreases votes@.len() - i,
                {
                    let mut j: usize = 0;
                    while j < votes.len()
                        invariant
                            i < votes@.len(),
                            j <= votes@.len(),
                            votes@ == state@.validators[v as int].votes_cast,
                            !state@.validators[v as int].is_adversary,
                            v < state.validators@.len(),
                            forall|a: int, b: int|
                                0 <= a < i && 0 <= b < votes@.len() && #[trigger] votes@[a].slot
                                    == #[trigger] votes@[b].slot ==> a == b,
                            forall|b: int|
                                0 <= b < j && (#[trigger] votes@[b].slot) == votes@[i as int].slot
                                    ==> b == i as int,
                        decreases votes@.len() - j,
                    {
                        if j != i && votes[j].slot == votes[i].slot {
                            proof {
                                let sv = state@;
                                assert(sv.validators[v as int].votes_cast[j as int].slot
                                    == sv.validators[v as int].votes_cast[i as int].slot);
                                assert(!prop_vote_uniqueness(sv));
                            }
                            return false;
                        }
                        j = j + 1;
                    }
                    i = i + 1;
                }
            }
            v = v + 1;
        }
        proof {
            assert(prop_vote_uniqueness(state@)) by {
                let sv = state@;
                assert forall|a: int, i: int, j: int|
                    0 <= a < sv.validators.len() && !sv.validators[a].is_adversary && 0 <= i
                        < sv.validators[a].votes_cast.len() && 0 <= j
                        < sv.validators[a].votes_cast.len()
                        && #[trigger] sv.validators[a].votes_cast[i].slot
                        == #[trigger] sv.validators[a].votes_cast[j].slot implies i == j by {
                    assert(sv.validators[a].votes_cast[i].slot == sv.validators[a].votes_cast[j].slot);
                }
            }
        }
        true
    }

    /// Whether every ledger entry meets the quorum threshold.
    pub fn certificate_threshold(&self, state: &CertificateState) -> (r: bool)
        ensures
            r == prop_certificate_threshold(state@),
    {
        let threshold = quorum_stake(TOTAL_STAKE, NOTARIZE_THRESHOLD_PERCENT);
        let gc = &state.global_certificates;
        let mut i: usize = 0;
        while i < gc.len()
            invariant
                gc@ == state@.global_certificates,
                i <= gc@.len(),
                threshold == spec_threshold(),
                forall|a: int| 0 <= a < i ==> (#[trigger] gc@[a].stake) >= spec_threshold(),
            decreases gc@.len() - i,
        {
            if gc[i].stake < threshold {
                proof {
                    assert(state@.global_certificates[i as int].stake < spec_threshold());
                }
                return false;
            }
            i = i + 1;
        }
        true
    }

    /// Whether no slot has both a block and a skip certificate.
    pub fn adversary_equivocation_detection(&self, state: &CertificateState) -> (r: bool)
        ensures
            r == prop_equivocation_detection(state@),
    {
        let gc = &state.global_certificates;
        let mut i: usize = 0;
        while i < gc.len()
            invariant
                gc@ == state@.global_certificates,
                i <= gc@.len(),
                forall|a: int, b: int|
                    0 <= a < i && 0 <= b < gc@.len() && #[trigger] gc@[a].key.slot
                        == #[trigger] gc@[b].key.slot ==> (gc@[a].key.hash is Some <==> gc@[b].key.hash is Some),
            decreases gc@.len() - i,
        {
            let mut j: usize = 0;
            while j < gc.len()
                invariant
                    gc@ == state@.global_certificates,
                    i < gc@.len(),
                    j <= gc@.len(),
                    forall|a: int, b: int|
                        0 <= a < i && 0 <= b < gc@.len() && #[trigger] gc@[a].key.slot
                            == #[trigger] gc@[b].key.slot ==> (gc@[a].key.hash is Some <==> gc@[b].key.hash is Some),
                    forall|b: int|
                        0 <= b < j && (#[trigger] gc@[b].key.slot) == gc@[i as int].key.slot ==> (
                        gc@[i as int].key.hash is Some <==> gc@[b].key.hash is Some),
                decreases gc@.len() - j,
            {
                if gc[j].key.slot == gc[i].key.slot && (gc[j].key.hash.is_some()
                    != gc[i].key.hash.is_some()) {
                    proof {
                        let sv = state@;
                        assert(sv.global_certificates[j as int].key.slot == sv.global_certificates[i as int].key.slot);
                        assert(!prop_equivocation_detection(sv));
                    }
                    return false;
                }
                j = j + 1;
            }
            i = i + 1;
        }
        proof {
            assert(prop_equivocation_detection(state@)) by {
                let sv = state@;
                assert forall|a: int, b: int|
                    0 <= a < sv.global_certificates.len() && 0 <= b < sv.global_certificates.len()
                        && #[trigger] sv.global_certificates[a].key.slot
                        == #[trigger] sv.global_certificates[b].key.slot implies (
                    sv.global_certificates[a].key.hash is Some
                        <==> sv.global_certificates[b].key.hash is Some) by {
                    assert(gc@[a].key.slot == gc@[b].key.slot);
                }
            }
        }
        true
    }

    /// Evaluate every property on a state; the result lists the violated
    /// ones in a fixed order.
    pub fn check_properties(&self, state: &CertificateState) -> (r: Vec<CertificateProperty>)
        ensures
            r@ == cert_violations(state@),
    {
        let mut r: Vec<CertificateProperty> = Vec::new();
        if !self.certificate_uniqueness(state) {
            r.push(CertificateProperty::CertificateUniqueness);
        }
        if !self.vote_uniqueness(state) {
            r.push(CertificateProperty::VoteUniqueness);
        }
        if !self.certificate_threshold(state) {
            r.push(CertificateProperty::CertificateThreshold);
        }
        if !self.adversary_equivocation_detection(state) {
            r.push(CertificateProperty::AdversaryEquivocationDetection);
        }
        proof {
            assert(r@ =~= cert_violations(state@));
        }
        r
    }
}

// ------------------------------------------------------------------
// Reachability and the protocol invariant
// ------------------------------------------------------------------

/// Mask of the adversary validators below `k`.
pub open spec fn adv_mask(vals: Seq<ValidatorStateV>, k: int) -> u64
    decreases k,
{
    if k <= 0 {
        0u64
    } else {
        adv_mask(vals, k - 1) | (if vals[k - 1].is_adversary {
            1u64 << ((k - 1) as u64)
        } else {
            0u64
        })
    }
}

/// Stake held by adversaries.
pub open spec fn byz_stake(s: CertificateStateV) -> int {
    stake_in(
        s.stake_distribution,
        adv_mask(s.validators, s.validators.len() as int),
        s.validators.len() as int,
    )
}

pub proof fn lemma_adv_mask_has(vals: Seq<ValidatorStateV>, k: int)
    requires
        k <= 64,
    ensures
        forall|j: int|
            #[trigger] mask_has(adv_mask(vals, k), j) <==> (0 <= j < k && vals[j].is_adversary),
    decreases k,
{
    if k <= 0 {
        lemma_mask_empty();
    } else {
        lemma_adv_mask_has(vals, k - 1);
        if vals[k - 1].is_adversary {
            lemma_mask_or(adv_mask(vals, k - 1), 1u64 << ((k - 1) as u64));
            lemma_mask_single((k - 1) as u64);
        } else {
            lemma_mask_or(adv_mask(vals, k - 1), 0u64);
            lemma_mask_empty();
        }
    }
}

/// Every vote message in flight was recorded by its sender.
pub open spec fn msg_registered(m: CertificateModel, s: CertificateStateV, t: MessageInTransit) -> bool {
    match t.msg {
        CertificateMessage::NotarVote { slot, hash, voter } => voter < m.validator_count
            && s.validators[voter as int].votes_cast.contains(VoteKey { slot, hash: Some(hash) }),
        CertificateMessage::SkipVote { slot, voter } => voter < m.validator_count
            && s.validators[voter as int].votes_cast.contains(VoteKey { slot, hash: None }),
        CertificateMessage::BlockCertificate { .. } => false,
        CertificateMessage::SkipCertificate { .. } => false,
    }
}

/// A voter mask that justifies a certificate for `k`: it reaches the quorum
/// threshold and every member recorded exactly this vote.
pub open spec fn backing_ok(m: CertificateModel, s: CertificateStateV, k: VoteKey, vmask: u64) -> bool {
    let n = m.validator_count as int;
    &&& stake_in(s.stake_distribution, vmask, n) >= spec_threshold()
    &&& forall|j: int|
        #[trigger] mask_has(vmask, j) ==> 0 <= j < n && s.validators[j].votes_cast.contains(k)
}

/// A ledger record carries the threshold and is justified by some voter set.
pub open spec fn cert_backed(m: CertificateModel, s: CertificateStateV, rec: CertRecord) -> bool {
    &&& rec.stake >= spec_threshold()
    &&& exists|vmask: u64| #[trigger] backing_ok(m, s, rec.key, vmask)
}

/// The inductive invariant of the certificate model.  It holds of the
/// initial state, is preserved by every transition, and yields the safety
/// laws below.
pub open spec fn cert_inv(m: CertificateModel, s: CertificateStateV) -> bool {
    let n = m.validator_count as int;
    &&& wf_state(m, s)
    &&& forall|i: int|
        0 <= i < s.network.len() ==> msg_registered(m, s, #[trigger] s.network[i])
    &&& forall|v: int, e: int, j: int|
        0 <= v < n && 0 <= e < s.validators[v].vote_pool.len() && #[trigger] mask_has(
            s.validators[v].vote_pool[e].voters,
            j,
        ) ==> 0 <= j < n && s.validators[j].votes_cast.contains(s.validators[v].vote_pool[e].key)
    &&& prop_vote_uniqueness(s)
    &&& forall|c: int|
        0 <= c < s.global_certificates.len() ==> cert_backed(
            m,
            s,
            #[trigger] s.global_certificates[c],
        )
}

/// Run a sequence of actions from `s`; `None` when any of them is stale.
pub open spec fn cert_run(
    m: CertificateModel,
    s: CertificateStateV,
    acts: Seq<CertificateAction>,
) -> Option<CertificateStateV>
    decreases acts.len(),
{
    if acts.len() == 0 {
        Some(s)
    } else {
        match cert_step(m, s, acts[0]) {
            Some(s1) => cert_run(m, s1, acts.drop_first()),
            None => None,
        }
    }
}

/// The states the search can reach from the initial state.
pub open spec fn cert_reachable(m: CertificateModel, s: CertificateStateV) -> bool {
    exists|acts: Seq<CertificateAction>|
        (forall|i: int| 0 <= i < acts.len() ==> wf_action(m, #[trigger] acts[i]))
            && #[trigger] cert_run(m, cert_init(m.validator_count as int, m.adversary_count as int), acts)
            == Some(s)
}

// ------------------------------------------------------------------
// Helper lemmas about the spec-level operations
// ------------------------------------------------------------------

/// The broadcast copy of `msg` addressed to validator `i`.
pub open spec fn bcast_msg(msg: CertificateMessage, i: int) -> MessageInTransit {
    MessageInTransit { dst: i as usize, msg }
}

proof fn lemma_net_insert_props(net: Seq<MessageInTransit>, m: MessageInTransit)
    requires
        seq_distinct(net),
    ensures
        seq_distinct(net_insert(net, m)),
        forall|x: MessageInTransit|
            #[trigger] net_insert(net, m).contains(x) <==> (net.contains(x) || x == m),
{
    let r = net_insert(net, m);
    if !net.contains(m) {
        assert forall|x: MessageInTransit| #[trigger] r.contains(x) implies (net.contains(x) || x
            == m) by {
            let i = choose|i: int| 0 <= i < r.len() && r[i] == x;
            if i < net.len() {
                assert(net[i] == x);
            }
        }
        assert forall|x: MessageInTransit| net.contains(x) || x == m implies #[trigger] r.contains(
            x,
        ) by {
            if net.contains(x) {
                let i = choose|i: int| 0 <= i < net.len() && net[i] == x;
                assert(r[i] == x);
            } else {
                assert(r[net.len() as int] == x);
            }
        }
        assert forall|i: int, j: int|
            0 <= i < r.len() && 0 <= j < r.len() && r[i] == r[j] implies i == j by {
            if i < net.len() && j < net.len() {
                assert(net[i] == net[j]);
            } else if i < net.len() && j == net.len() {
                assert(net[i] == m);
                assert(net.contains(m));
            } else if i == net.len() && j < net.len() {
                assert(net[j] == m);
                assert(net.contains(m));
            }
        }
    }
}

proof fn lemma_net_broadcast_props(net: Seq<MessageInTransit>, msg: CertificateMessage, n: int)
    requires
        seq_distinct(net),
        n <= 64,
    ensures
        seq_distinct(net_broadcast(net, msg, n)),
        forall|x: MessageInTransit|
            #[trigger] net_broadcast(net, msg, n).contains(x) <==> (net.contains(x) || (
            exists|i: int| 0 <= i < n && x == #[trigger] bcast_msg(msg, i))),
    decreases n,
{
    if n <= 0 {
    } else {
        lemma_net_broadcast_props(net, msg, n - 1);
        let prev = net_broadcast(net, msg, n - 1);
        let mnew = MessageInTransit { dst: (n - 1) as usize, msg };
        lemma_net_insert_props(prev, mnew);
        assert forall|x: MessageInTransit|
            #[trigger] net_broadcast(net, msg, n).contains(x) implies (net.contains(x) || (
        exists|i: int| 0 <= i < n && x == #[trigger] bcast_msg(msg, i))) by {
            if prev.contains(x) {
                if !net.contains(x) {
                    let i = choose|i: int| 0 <= i < n - 1 && x == #[trigger] bcast_msg(msg, i);
                    assert(0 <= i < n && x == bcast_msg(msg, i));
                }
            } else {
                assert(x == mnew);
                assert(0 <= n - 1 < n && x == bcast_msg(msg, n - 1));
            }
        }
        assert forall|x: MessageInTransit|
            (net.contains(x) || (exists|i: int|
                0 <= i < n && x == #[trigger] bcast_msg(msg, i))) implies #[trigger] net_broadcast(
            net,
            msg,
            n,
        ).contains(x) by {
            if net.contains(x) {
            } else {
                let i = choose|i: int| 0 <= i < n && x == #[trigger] bcast_msg(msg, i);
                if i < n - 1 {
                    assert(prev.contains(x));
                } else {
                    assert(x == mnew);
                }
            }
        }
    }
}

pub proof fn lemma_key_set_insert_props(keys: Seq<VoteKey>, k: VoteKey)
    requires
        seq_distinct(keys),
    ensures
        seq_distinct(key_set_insert(keys, k)),
        forall|x: VoteKey| #[trigger] key_set_insert(keys, k).contains(x) <==> (keys.contains(x) || x == k),
{
    let r = key_set_insert(keys, k);
    if !keys.contains(k) {
        assert forall|x: VoteKey| #[trigger] r.contains(x) implies (keys.contains(x) || x == k) by {
            let i = choose|i: int| 0 <= i < r.len() && r[i] == x;
            if i < keys.len() {
                assert(keys[i] == x);
            }
        }
        assert forall|x: VoteKey| keys.contains(x) || x == k implies #[trigger] r.contains(x) by {
            if keys.contains(x) {
                let i = choose|i: int| 0 <= i < keys.len() && keys[i] == x;
                assert(r[i] == x);
            } else {
                assert(r[keys.len() as int] == x);
            }
        }
        assert forall|i: int, j: int|
            0 <= i < r.len() && 0 <= j < r.len() && r[i] == r[j] implies i == j by {
            if i < keys.len() && j < keys.len() {
                assert(keys[i] == keys[j]);
            } else if i < keys.len() && j == keys.len() {
                assert(keys.contains(k));
            } else if i == keys.len() && j < keys.len() {
                assert(keys.contains(k));
            }
        }
    }
}

/// After `pool_add`, an entry either is the updated entry for `k` or sits
/// unchanged at its old index.
pub open spec fn pool_add_frame(pool: Seq<PoolEntry>, k: VoteKey, voter: int, idx: int) -> bool {
    (pool_add(pool, k, voter)[idx].key == k && pool_add(pool, k, voter)[idx].voters == (
    pool_voters(pool, k) | (1u64 << voter as u64))) || (idx < pool.len() && pool_add(
        pool,
        k,
        voter,
    )[idx] == pool[idx])
}

pub proof fn lemma_pool_add_props(pool: Seq<PoolEntry>, k: VoteKey, voter: int)
    requires
        pool_keys_distinct(pool),
        0 <= voter < 64,
    ensures
        pool_keys_distinct(pool_add(pool, k, voter)),
        forall|idx: int|
            0 <= idx < pool_add(pool, k, voter).len() ==> #[trigger] pool_add_frame(
                pool,
                k,
                voter,
                idx,
            ),
        pool_has(pool_add(pool, k, voter), k),
        pool_voters(pool_add(pool, k, voter), k) == pool_voters(pool, k) | (1u64 << voter as u64),
{
    lemma_pool_add_distinct(pool, k, voter);
    let r = pool_add(pool, k, voter);
    lemma_mask_single(voter as u64);
    if pool_has(pool, k) {
        let i0 = pool_index(pool, k);
        assert(0 <= i0 < pool.len() && pool[i0].key == k);
        assert(r[i0].key == k);
        assert(pool_has(r, k));
        let i1 = pool_index(r, k);
        assert(0 <= i1 < r.len() && r[i1].key == k);
        assert(i1 == i0);
        assert(pool_voters(pool, k) == pool[i0].voters);
        assert forall|idx: int| 0 <= idx < r.len() implies #[trigger] pool_add_frame(
            pool,
            k,
            voter,
            idx,
        ) by {
            if idx == i0 {
                assert(r[idx].key == k);
                assert(r[idx].voters == pool[i0].voters | (1u64 << voter as u64));
            } else {
                assert(r[idx] == pool[idx]);
            }
        }
    } else {
        assert(r[pool.len() as int].key == k);
        assert(pool_has(r, k));
        let i1 = pool_index(r, k);
        assert(0 <= i1 < r.len() && r[i1].key == k);
        assert(i1 == pool.len() as int) by {
            if i1 < pool.len() {
                assert(pool[i1].key == k);
            }
        }
        let vu = voter as u64;
        assert(0u64 | (1u64 << vu) == 1u64 << vu) by (bit_vector);
        assert(pool_voters(r, k) == 1u64 << voter as u64);
        assert forall|idx: int| 0 <= idx < r.len() implies #[trigger] pool_add_frame(
            pool,
            k,
            voter,
            idx,
        ) by {
            if idx == pool.len() as int {
                assert(r[idx].key == k);
                assert(r[idx].voters == pool_voters(pool, k) | (1u64 << voter as u64));
            } else {
                assert(r[idx] == pool[idx]);
            }
        }
    }
}

/// After `certs_update`, a record either is the new record for `k` or sits
/// unchanged at its old index.
pub open spec fn certs_update_frame(gc: Seq<CertRecord>, k: VoteKey, stake: u64, idx: int) -> bool {
    certs_update(gc, k, stake)[idx] == (CertRecord { key: k, stake }) || (idx < gc.len()
        && certs_update(gc, k, stake)[idx] == gc[idx])
}

proof fn lemma_certs_update_props(gc: Seq<CertRecord>, k: VoteKey, stake: u64)
    requires
        certs_keys_distinct(gc),
    ensures
        certs_keys_distinct(certs_update(gc, k, stake)),
        forall|idx: int|
            0 <= idx < certs_update(gc, k, stake).len() ==> #[trigger] certs_update_frame(
                gc,
                k,
                stake,
                idx,
            ),
{
    let r = certs_update(gc, k, stake);
    if certs_has(gc, k) {
        let i0 = certs_index(gc, k);
        assert(0 <= i0 < gc.len() && gc[i0].key == k);
        assert forall|a: int, b: int|
            0 <= a < r.len() && 0 <= b < r.len() && r[a].key == r[b].key implies a == b by {
            assert(r[a].key == gc[a].key);
            assert(r[b].key == gc[b].key);
        }
        assert forall|idx: int| 0 <= idx < r.len() implies #[trigger] certs_update_frame(
            gc,
            k,
            stake,
            idx,
        ) by {
            if idx == i0 {
                assert(r[idx] == (CertRecord { key: k, stake }));
            } else {
                assert(r[idx] == gc[idx]);
            }
        }
    } else {
        assert forall|a: int, b: int|
            0 <= a < r.len() && 0 <= b < r.len() && r[a].key == r[b].key implies a == b by {
            if a < gc.len() && b < gc.len() {
                assert(gc[a].key == gc[b].key);
            } else if a < gc.len() && b == gc.len() {
                assert(gc[a].key == k);
                assert(certs_has(gc, k));
            } else if a == gc.len() && b < gc.len() {
                assert(gc[b].key == k);
                assert(certs_has(gc, k));
            }
        }
        assert forall|idx: int| 0 <= idx < r.len() implies #[trigger] certs_update_frame(
            gc,
            k,
            stake,
            idx,
        ) by {
            if idx == gc.len() as int {
                assert(r[idx] == (CertRecord { key: k, stake }));
            } else {
                assert(r[idx] == gc[idx]);
            }
        }
    }
}

// ------------------------------------------------------------------
// The invariant holds initially and is preserved by every transition
// ------------------------------------------------------------------

/// Validators keep every vote they ever cast, and nobody else changed.
pub open spec fn votes_superset(s: CertificateStateV, s2: CertificateStateV) -> bool {
    &&& s2.validators.len() == s.validators.len()
    &&& forall|v: int, x: VoteKey|
        0 <= v < s.validators.len() && #[trigger] s.validators[v].votes_cast.contains(x)
            ==> s2.validators[v].votes_cast.contains(x)
}

proof fn lemma_backed_preserved(m: CertificateModel, s: CertificateStateV, s2: CertificateStateV, rec: CertRecord)
    requires
        votes_superset(s, s2),
        s2.stake_distribution == s.stake_distribution,
        s.validators.len() == m.validator_count,
        cert_backed(m, s, rec),
    ensures
        cert_backed(m, s2, rec),
{
    let vm = choose|vm: u64| #[trigger] backing_ok(m, s, rec.key, vm);
    assert(backing_ok(m, s2, rec.key, vm)) by {
        assert forall|j: int| #[trigger] mask_has(vm, j) implies 0 <= j < m.validator_count
            && s2.validators[j].votes_cast.contains(rec.key) by {
            assert(s.validators[j].votes_cast.contains(rec.key));
        }
    }
}

proof fn lemma_inv_cast(
    m: CertificateModel,
    s: CertificateStateV,
    voter: int,
    k: VoteKey,
    msg: CertificateMessage,
)
    requires
        wf_model(m),
        cert_inv(m, s),
        0 <= voter < m.validator_count,
        match msg {
            CertificateMessage::NotarVote { slot, hash, voter: mv } => mv == voter && k == (VoteKey { slot, hash: Some(hash) }),
            CertificateMessage::SkipVote { slot, voter: mv } => mv == voter && k == (VoteKey { slot, hash: None }),
            _ => false,
        },
    ensures
        cert_inv(m, cert_cast_vote(m, s, voter, k, msg)),
{
    let n = m.validator_count as int;
    let v = s.validators[voter];
    let s2 = cert_cast_vote(m, s, voter, k, msg);
    if !votes_has_slot(v.votes_cast, k.slot) {
        lemma_net_broadcast_props(s.network, msg, n);
        // The new votes list has distinct elements and the slot appears once.
        assert(!v.votes_cast.contains(k)) by {
            if v.votes_cast.contains(k) {
                let i = choose|i: int| 0 <= i < v.votes_cast.len() && v.votes_cast[i] == k;
                assert(votes_has_slot(v.votes_cast, k.slot));
            }
        }
        let votes2 = v.votes_cast.push(k);
        assert(seq_distinct(votes2)) by {
            assert forall|a: int, b: int|
                0 <= a < votes2.len() && 0 <= b < votes2.len() && votes2[a] == votes2[b] implies a
                == b by {
                if a < v.votes_cast.len() && b < v.votes_cast.len() {
                    assert(v.votes_cast[a] == v.votes_cast[b]);
                } else if a < v.votes_cast.len() && b == v.votes_cast.len() {
                    assert(v.votes_cast[a] == k);
                    assert(v.votes_cast.contains(k));
                } else if a == v.votes_cast.len() && b < v.votes_cast.len() {
                    assert(v.votes_cast[b] == k);
                    assert(v.votes_cast.contains(k));
                }
            }
        }
        assert(votes_superset(s, s2)) by {
            assert forall|vv: int, x: VoteKey|
                0 <= vv < n && #[trigger] s.validators[vv].votes_cast.contains(x)
                    implies s2.validators[vv].votes_cast.contains(x) by {
                if vv == voter {
                    let i = choose|i: int|
                        0 <= i < v.votes_cast.len() && v.votes_cast[i] == x;
                    assert(votes2[i] == x);
                } else {
                    assert(s2.validators[vv] == s.validators[vv]);
                }
            }
        }
        // wf_state
        assert(wf_state(m, s2)) by {
            assert forall|i: int| 0 <= i < s2.network.len() implies wf_message(
                m,
                #[trigger] s2.network[i],
            ) by {
                assert(s2.network.contains(s2.network[i]));
                if s.network.contains(s2.network[i]) {
                    let i0 = choose|i0: int|
                        0 <= i0 < s.network.len() && s.network[i0] == s2.network[i];
                } else {
                    let bi = choose|bi: int| 0 <= bi < n && s2.network[i] == #[trigger] bcast_msg(msg, bi);
                }
            }
        }
        // messages registered
        assert forall|i: int| 0 <= i < s2.network.len() implies msg_registered(
            m,
            s2,
            #[trigger] s2.network[i],
        ) by {
            assert(s2.network.contains(s2.network[i]));
            if s.network.contains(s2.network[i]) {
                let i0 = choose|i0: int| 0 <= i0 < s.network.len() && s.network[i0] == s2.network[i];
                assert(msg_registered(m, s, s2.network[i]));
            } else {
                let bi = choose|bi: int| 0 <= bi < n && s2.network[i] == #[trigger] bcast_msg(msg, bi);
                assert(s2.validators[voter].votes_cast[v.votes_cast.len() as int] == k);
                assert(s2.validators[voter].votes_cast.contains(k));
            }
        }
        // pools registered
        assert forall|vv: int, e: int, j: int|
            0 <= vv < n && 0 <= e < s2.validators[vv].vote_pool.len() && #[trigger] mask_has(
                s2.validators[vv].vote_pool[e].voters,
                j,
            ) implies 0 <= j < n && s2.validators[j].votes_cast.contains(
            s2.validators[vv].vote_pool[e].key,
        ) by {
            assert(s2.validators[vv].vote_pool == s.validators[vv].vote_pool);
            assert(0 <= j < n && s.validators[j].votes_cast.contains(
                s.validators[vv].vote_pool[e].key,
            ));
        }
        // vote uniqueness
        assert(prop_vote_uniqueness(s2)) by {
            assert forall|vv: int, i: int, j: int|
                0 <= vv < s2.validators.len() && !s2.validators[vv].is_adversary && 0 <= i
                    < s2.validators[vv].votes_cast.len() && 0 <= j
                    < s2.validators[vv].votes_cast.len()
                    && #[trigger] s2.validators[vv].votes_cast[i].slot
                    == #[trigger] s2.validators[vv].votes_cast[j].slot implies i == j by {
                if vv == voter {
                    let old_len = v.votes_cast.len() as int;
                    if i < old_len && j < old_len {
                        assert(s.validators[vv].votes_cast[i].slot == s.validators[vv].votes_cast[j].slot);
                    } else if i < old_len && j == old_len {
                        assert(v.votes_cast[i].slot == k.slot);
                        assert(votes_has_slot(v.votes_cast, k.slot));
                    } else if i == old_len && j < old_len {
                        assert(v.votes_cast[j].slot == k.slot);
                        assert(votes_has_slot(v.votes_cast, k.slot));
                    }
                } else {
                    assert(s.validators[vv].votes_cast[i].slot == s.validators[vv].votes_cast[j].slot);
                }
            }
        }
        // certificates backed
        assert forall|c: int| 0 <= c < s2.global_certificates.len() implies cert_backed(
            m,
            s2,
            #[trigger] s2.global_certificates[c],
        ) by {
            lemma_backed_preserved(m, s, s2, s2.global_certificates[c]);
        }
    }
}

proof fn lemma_inv_deliver_vote(
    m: CertificateModel,
    s: CertificateStateV,
    msg: MessageInTransit,
    k: VoteKey,
    voter: int,
)
    requires
        wf_model(m),
        cert_inv(m, s),
        s.network.contains(msg),
        match msg.msg {
            CertificateMessage::NotarVote { slot, hash, voter: mv } => mv == voter && k == (VoteKey { slot, hash: Some(hash) }),
            CertificateMessage::SkipVote { slot, voter: mv } => mv == voter && k == (VoteKey { slot, hash: None }),
            _ => false,
        },
        msg.dst < m.validator_count,
    ensures
        cert_inv(
            m,
            cert_deliver_vote(
                m,
                s,
                s.network.remove(net_index(s.network, msg)),
                msg.dst as int,
                k,
                voter,
            ),
        ),
{
    let n = m.validator_count as int;
    let d = msg.dst as int;
    let net1 = s.network.remove(net_index(s.network, msg));
    let s2 = cert_deliver_vote(m, s, net1, d, k, voter);
    let v = s.validators[d];
    let pool1 = pool_add(v.vote_pool, k, voter);
    let voters1 = pool_voters(pool1, k);
    let backing = stake_in(s.stake_distribution, voters1, n);

    // The delivered message is a registered vote.
    let mi = net_index(s.network, msg);
    assert(0 <= mi < s.network.len() && s.network[mi] == msg);
    assert(msg_registered(m, s, msg));
    assert(0 <= voter < n);
    assert(s.validators[voter].votes_cast.contains(k));

    lemma_distinct_remove(s.network, mi);
    lemma_pool_add_props(v.vote_pool, k, voter);

    // The network shrank: every message of net1 was in the old network.
    assert forall|i: int| 0 <= i < net1.len() implies s.network.contains(#[trigger] net1[i]) by {
        if i < mi {
            assert(net1[i] == s.network[i]);
        } else {
            assert(net1[i] == s.network[i + 1]);
        }
    }

    // Votes did not change.
    assert(votes_superset(s, s2)) by {
        assert forall|vv: int, x: VoteKey|
            0 <= vv < n && #[trigger] s.validators[vv].votes_cast.contains(x)
                implies s2.validators[vv].votes_cast.contains(x) by {
            if vv != d {
                assert(s2.validators[vv] == s.validators[vv]);
            }
        }
    }

    // wf_state
    assert(wf_state(m, s2)) by {
        assert forall|i: int| 0 <= i < s2.network.len() implies wf_message(
            m,
            #[trigger] s2.network[i],
        ) by {
            assert(s.network.contains(s2.network[i]));
            let i0 = choose|i0: int| 0 <= i0 < s.network.len() && s.network[i0] == s2.network[i];
        }
        if backing >= spec_threshold() {
            lemma_key_set_insert_props(v.certificates, k);
            lemma_certs_update_props(s.global_certificates, k, backing as u64);
        }
    }

    // messages registered
    assert forall|i: int| 0 <= i < s2.network.len() implies msg_registered(
        m,
        s2,
        #[trigger] s2.network[i],
    ) by {
        assert(s.network.contains(s2.network[i]));
        let i0 = choose|i0: int| 0 <= i0 < s.network.len() && s.network[i0] == s2.network[i];
        assert(msg_registered(m, s, s2.network[i]));
        match s2.network[i].msg {
            CertificateMessage::NotarVote { slot, hash, voter: mv } => {
                assert(s2.validators[mv as int].votes_cast == s.validators[mv as int].votes_cast);
            },
            CertificateMessage::SkipVote { slot, voter: mv } => {
                assert(s2.validators[mv as int].votes_cast == s.validators[mv as int].votes_cast);
            },
            _ => {},
        }
    }

    // pools registered
    assert forall|vv: int, e: int, j: int|
        0 <= vv < n && 0 <= e < s2.validators[vv].vote_pool.len() && #[trigger] mask_has(
            s2.validators[vv].vote_pool[e].voters,
            j,
        ) implies 0 <= j < n && s2.validators[j].votes_cast.contains(
        s2.validators[vv].vote_pool[e].key,
    ) by {
        if vv == d {
            let entry = s2.validators[vv].vote_pool[e];
            assert(pool1[e] == entry);
            assert(pool_add_frame(v.vote_pool, k, voter, e));
            if entry.key == k && entry.voters == (pool_voters(v.vote_pool, k) | (1u64
                << voter as u64)) {
                lemma_mask_or(pool_voters(v.vote_pool, k), 1u64 << voter as u64);
                lemma_mask_single(voter as u64);
                assert(mask_has(pool_voters(v.vote_pool, k), j) || j == voter);
                if j == voter {
                    assert(s2.validators[j].votes_cast == s.validators[j].votes_cast);
                    assert(s.validators[j].votes_cast.contains(k));
                } else {
                    assert(mask_has(pool_voters(v.vote_pool, k), j));
                    if pool_has(v.vote_pool, k) {
                        let ei = pool_index(v.vote_pool, k);
                        assert(0 <= ei < v.vote_pool.len() && v.vote_pool[ei].key == k);
                        assert(mask_has(s.validators[d].vote_pool[ei].voters, j));
                        assert(0 <= j < n && s.validators[j].votes_cast.contains(k));
                        assert(s2.validators[j].votes_cast == s.validators[j].votes_cast);
                    } else {
                        lemma_mask_empty();
                    }
                }
            } else {
                assert(e < v.vote_pool.len() && pool1[e] == v.vote_pool[e]);
                assert(mask_has(s.validators[d].vote_pool[e].voters, j));
                assert(0 <= j < n && s.validators[j].votes_cast.contains(v.vote_pool[e].key));
                assert(s2.validators[j].votes_cast == s.validators[j].votes_cast);
            }
        } else {
            assert(s2.validators[vv].vote_pool == s.validators[vv].vote_pool);
            assert(mask_has(s.validators[vv].vote_pool[e].voters, j));
            assert(0 <= j < n && s.validators[j].votes_cast.contains(s.validators[vv].vote_pool[e].key));
            assert(s2.validators[j].votes_cast == s.validators[j].votes_cast);
        }
    }

    // vote uniqueness: votes unchanged
    assert(prop_vote_uniqueness(s2)) by {
        assert forall|vv: int, i: int, j: int|
            0 <= vv < s2.validators.len() && !s2.validators[vv].is_adversary && 0 <= i
                < s2.validators[vv].votes_cast.len() && 0 <= j < s2.validators[vv].votes_cast.len()
                && #[trigger] s2.validators[vv].votes_cast[i].slot
                == #[trigger] s2.validators[vv].votes_cast[j].slot implies i == j by {
            assert(s2.validators[vv].votes_cast == s.validators[vv].votes_cast);
            assert(s2.validators[vv].is_adversary == s.validators[vv].is_adversary);
            assert(s.validators[vv].votes_cast[i].slot == s.validators[vv].votes_cast[j].slot);
        }
    }

    // certificates backed
    if backing >= spec_threshold() {
        lemma_certs_update_props(s.global_certificates, k, backing as u64);
        lemma_stake_in_nonneg(s.stake_distribution, voters1, n);
        lemma_stake_in_le_total(s.stake_distribution, voters1, n);
        assert(backing as u64 == backing);
        assert(backing_ok(m, s2, k, voters1)) by {
            lemma_mask_or(pool_voters(v.vote_pool, k), 1u64 << voter as u64);
            lemma_mask_single(voter as u64);
            assert forall|j: int| #[trigger] mask_has(voters1, j) implies 0 <= j < n
                && s2.validators[j].votes_cast.contains(k) by {
                assert(mask_has(pool_voters(v.vote_pool, k), j) || j == voter);
                if j == voter {
                    assert(s2.validators[j].votes_cast == s.validators[j].votes_cast);
                } else {
                    assert(mask_has(pool_voters(v.vote_pool, k), j));
                    if pool_has(v.vote_pool, k) {
                        let ei = pool_index(v.vote_pool, k);
                        assert(0 <= ei < v.vote_pool.len() && v.vote_pool[ei].key == k);
                        assert(mask_has(s.validators[d].vote_pool[ei].voters, j));
                        assert(s2.validators[j].votes_cast == s.validators[j].votes_cast);
                    } else {
                        lemma_mask_empty();
                    }
                }
            }
        }
        assert forall|c: int| 0 <= c < s2.global_certificates.len() implies cert_backed(
            m,
            s2,
            #[trigger] s2.global_certificates[c],
        ) by {
            assert(certs_update_frame(s.global_certificates, k, backing as u64, c));
            if s2.global_certificates[c] == (CertRecord { key: k, stake: backing as u64 }) {
                assert(backing_ok(m, s2, k, voters1));
            } else {
                assert(c < s.global_certificates.len() && s2.global_certificates[c]
                    == s.global_certificates[c]);
                lemma_backed_preserved(m, s, s2, s.global_certificates[c]);
            }
        }
    } else {
        assert forall|c: int| 0 <= c < s2.global_certificates.len() implies cert_backed(
            m,
            s2,
            #[trigger] s2.global_certificates[c],
        ) by {
            lemma_backed_preserved(m, s, s2, s.global_certificates[c]);
        }
    }
}

proof fn lemma_inv_equivocate(
    m: CertificateModel,
    s: CertificateStateV,
    slot: u64,
    hash1: u64,
    hash2: u64,
    adversary: int,
)
    requires
        wf_model(m),
        cert_inv(m, s),
        0 <= adversary < m.validator_count,
    ensures
        cert_inv(
            m,
            match cert_step(
                m,
                s,
                CertificateAction::AdversaryEquivocate {
                    slot,
                    hash1,
                    hash2,
                    adversary: adversary as usize,
                },
            ) {
                Some(s2) => s2,
                None => s,
            },
        ),
{
    let n = m.validator_count as int;
    let v = s.validators[adversary];
    if v.is_adversary {
        let k1 = VoteKey { slot, hash: Some(hash1) };
        let k2 = VoteKey { slot, hash: Some(hash2) };
        let msg1 = CertificateMessage::NotarVote { slot, hash: hash1, voter: adversary as usize };
        let msg2 = CertificateMessage::NotarVote { slot, hash: hash2, voter: adversary as usize };
        let s2 = cert_step(
            m,
            s,
            CertificateAction::AdversaryEquivocate { slot, hash1, hash2, adversary: adversary as usize },
        )->Some_0;
        let votes1 = key_set_insert(v.votes_cast, k1);
        let votes2 = key_set_insert(votes1, k2);
        lemma_key_set_insert_props(v.votes_cast, k1);
        lemma_key_set_insert_props(votes1, k2);
        lemma_net_broadcast_props(s.network, msg1, n);
        lemma_net_broadcast_props(net_broadcast(s.network, msg1, n), msg2, n);
        assert(votes_superset(s, s2)) by {
            assert forall|vv: int, x: VoteKey|
                0 <= vv < n && #[trigger] s.validators[vv].votes_cast.contains(x)
                    implies s2.validators[vv].votes_cast.contains(x) by {
                if vv != adversary {
                    assert(s2.validators[vv] == s.validators[vv]);
                }
            }
        }
        assert(wf_state(m, s2)) by {
            assert forall|i: int| 0 <= i < s2.network.len() implies wf_message(
                m,
                #[trigger] s2.network[i],
            ) by {
                assert(s2.network.contains(s2.network[i]));
            }
        }
        assert forall|i: int| 0 <= i < s2.network.len() implies msg_registered(
            m,
            s2,
            #[trigger] s2.network[i],
        ) by {
            assert(s2.network.contains(s2.network[i]));
            if s.network.contains(s2.network[i]) {
                let i0 = choose|i0: int| 0 <= i0 < s.network.len() && s.network[i0] == s2.network[i];
                assert(msg_registered(m, s, s2.network[i]));
            } else {
                assert(s2.validators[adversary].votes_cast.contains(k1));
                assert(s2.validators[adversary].votes_cast.contains(k2));
            }
        }
        assert forall|vv: int, e: int, j: int|
            0 <= vv < n && 0 <= e < s2.validators[vv].vote_pool.len() && #[trigger] mask_has(
                s2.validators[vv].vote_pool[e].voters,
                j,
            ) implies 0 <= j < n && s2.validators[j].votes_cast.contains(
            s2.validators[vv].vote_pool[e].key,
        ) by {
            assert(s2.validators[vv].vote_pool == s.validators[vv].vote_pool);
            assert(mask_has(s.validators[vv].vote_pool[e].voters, j));
            assert(0 <= j < n && s.validators[j].votes_cast.contains(s.validators[vv].vote_pool[e].key));
        }
        assert(prop_vote_uniqueness(s2)) by {
            assert forall|vv: int, i: int, j: int|
                0 <= vv < s2.validators.len() && !s2.validators[vv].is_adversary && 0 <= i
                    < s2.validators[vv].votes_cast.len() && 0 <= j
                    < s2.validators[vv].votes_cast.len()
                    && #[trigger] s2.validators[vv].votes_cast[i].slot
                    == #[trigger] s2.validators[vv].votes_cast[j].slot implies i == j by {
                assert(vv != adversary);
                assert(s2.validators[vv].votes_cast == s.validators[vv].votes_cast);
                assert(s.validators[vv].votes_cast[i].slot == s.validators[vv].votes_cast[j].slot);
            }
        }
        assert forall|c: int| 0 <= c < s2.global_certificates.len() implies cert_backed(
            m,
            s2,
            #[trigger] s2.global_certificates[c],
        ) by {
            lemma_backed_preserved(m, s, s2, s2.global_certificates[c]);
        }
    }
}

/// The invariant holds of the initial state.
pub proof fn lemma_cert_init_inv(m: CertificateModel)
    requires
        wf_model(m),
    ensures
        cert_inv(m, cert_init(m.validator_count as int, m.adversary_count as int)),
{
    let s = cert_init(m.validator_count as int, m.adversary_count as int);
    let n = m.validator_count as int;
    assert(spec_per_validator_stake(m.validator_count as u64) <= TOTAL_STAKE) by {
        assert(TOTAL_STAKE / (m.validator_count as u64) <= TOTAL_STAKE);
    }
    lemma_stake_total_bound(s.stake_distribution, n, TOTAL_STAKE);
    assert(stake_total(s.stake_distribution, n) <= 64 * 1000);
}

/// The invariant is preserved by every non-stale transition.
pub proof fn lemma_cert_step_inv(
    m: CertificateModel,
    s: CertificateStateV,
    a: CertificateAction,
    s2: CertificateStateV,
)
    requires
        wf_model(m),
        cert_inv(m, s),
        wf_action(m, a),
        cert_step(m, s, a) == Some(s2),
    ensures
        cert_inv(m, s2),
{
    let n = m.validator_count as int;
    match a {
        CertificateAction::CastNotarVote { slot, hash, voter } => {
            lemma_inv_cast(
                m,
                s,
                voter as int,
                VoteKey { slot, hash: Some(hash) },
                CertificateMessage::NotarVote { slot, hash, voter },
            );
        },
        CertificateAction::CastSkipVote { slot, voter } => {
            lemma_inv_cast(
                m,
                s,
                voter as int,
                VoteKey { slot, hash: None },
                CertificateMessage::SkipVote { slot, voter },
            );
        },
        CertificateAction::DeliverMessage { msg } => {
            let mi = net_index(s.network, msg);
            assert(0 <= mi < s.network.len() && s.network[mi] == msg);
            assert(msg_registered(m, s, msg));
            match msg.msg {
                CertificateMessage::NotarVote { slot, hash, voter } => {
                    lemma_inv_deliver_vote(m, s, msg, VoteKey { slot, hash: Some(hash) }, voter as int);
                },
                CertificateMessage::SkipVote { slot, voter } => {
                    lemma_inv_deliver_vote(m, s, msg, VoteKey { slot, hash: None }, voter as int);
                },
                CertificateMessage::BlockCertificate { .. } => {
                    assert(false);
                },
                CertificateMessage::SkipCertificate { .. } => {
                    assert(false);
                },
            }
        },
        CertificateAction::AdversaryEquivocate { slot, hash1, hash2, adversary } => {
            lemma_inv_equivocate(m, s, slot, hash1, hash2, adversary as int);
        },
    }
}

/// The invariant holds after any run of non-stale transitions.
pub proof fn lemma_cert_run_inv(
    m: CertificateModel,
    s: CertificateStateV,
    acts: Seq<CertificateAction>,
    s2: CertificateStateV,
)
    requires
        wf_model(m),
        cert_inv(m, s),
        forall|i: int| 0 <= i < acts.len() ==> wf_action(m, #[trigger] acts[i]),
        cert_run(m, s, acts) == Some(s2),
    ensures
        cert_inv(m, s2),
    decreases acts.len(),
{
    if acts.len() == 0 {
    } else {
        let s1 = cert_step(m, s, acts[0])->Some_0;
        lemma_cert_step_inv(m, s, acts[0], s1);
        assert(forall|i: int|
            0 <= i < acts.drop_first().len() ==> wf_action(m, #[trigger] acts.drop_first()[i]));
        lemma_cert_run_inv(m, s1, acts.drop_first(), s2);
    }
}

/// Every reachable state satisfies the invariant.
pub proof fn lemma_cert_reachable_inv(m: CertificateModel, s: CertificateStateV)
    requires
        wf_model(m),
        cert_reachable(m, s),
    ensures
        cert_inv(m, s),
{
    let acts = choose|acts: Seq<CertificateAction>|
        (forall|i: int| 0 <= i < acts.len() ==> wf_action(m, #[trigger] acts[i]))
            && #[trigger] cert_run(m, cert_init(m.validator_count as int, m.adversary_count as int), acts)
            == Some(s);
    lemma_cert_init_inv(m);
    lemma_cert_run_inv(
        m,
        cert_init(m.validator_count as int, m.adversary_count as int),
        acts,
        s,
    );
}

// ------------------------------------------------------------------
// Safety laws
// ------------------------------------------------------------------

/// Certificate uniqueness: in every reachable state whose adversaries hold
/// less stake than the quorum-intersection margin (twice the threshold minus
/// the total), no slot has two entries in the global certificate ledger, and
/// in particular no slot has both a block and a skip certificate.  With
/// adversary stake at or above that margin the ledger can genuinely fork,
/// which the model is built to detect rather than exclude.
pub proof fn lemma_certificate_uniqueness(m: CertificateModel, s: CertificateStateV)
    requires
        wf_model(m),
        cert_reachable(m, s),
        2 * spec_threshold() > stake_total(s.stake_distribution, m.validator_count as int)
            + byz_stake(s),
    ensures
        prop_certificate_uniqueness(s),
        prop_equivocation_detection(s),
{
    lemma_cert_reachable_inv(m, s);
    let n = m.validator_count as int;
    let gc = s.global_certificates;
    let stakes = s.stake_distribution;
    let adv = adv_mask(s.validators, n);
    lemma_adv_mask_has(s.validators, n);
    assert forall|i: int, j: int|
        0 <= i < gc.len() && 0 <= j < gc.len() && #[trigger] gc[i].key.slot
            == #[trigger] gc[j].key.slot implies i == j by {
        if i != j {
            let k1 = gc[i].key;
            let k2 = gc[j].key;
            assert(k1 != k2);
            assert(cert_backed(m, s, gc[i]));
            assert(cert_backed(m, s, gc[j]));
            let v1 = choose|vm: u64| #[trigger] backing_ok(m, s, k1, vm);
            let v2 = choose|vm: u64| #[trigger] backing_ok(m, s, k2, vm);
            lemma_mask_and(v1, v2);
            assert forall|jj: int| 0 <= jj < n && #[trigger] mask_has(v1 & v2, jj) implies mask_has(
                adv,
                jj,
            ) by {
                assert(mask_has(v1, jj) && mask_has(v2, jj));
                assert(s.validators[jj].votes_cast.contains(k1));
                assert(s.validators[jj].votes_cast.contains(k2));
                if !s.validators[jj].is_adversary {
                    let votes = s.validators[jj].votes_cast;
                    let i1 = choose|ii: int| 0 <= ii < votes.len() && votes[ii] == k1;
                    let i2 = choose|ii: int| 0 <= ii < votes.len() && votes[ii] == k2;
                    assert(votes[i1].slot == votes[i2].slot);
                    assert(i1 == i2);
                    assert(false);
                }
            }
            lemma_stake_in_subset(stakes, v1 & v2, adv, n);
            lemma_stake_in_union(stakes, v1, v2, n);
            lemma_stake_in_le_total(stakes, v1 | v2, n);
            assert(stake_in(stakes, v1, n) + stake_in(stakes, v2, n) <= stake_total(stakes, n)
                + byz_stake(s));
            assert(false);
        }
    }
}

/// Non-equivocation of honest validators: in every reachable state, every
/// honest validator's vote record holds at most one vote per slot.
pub proof fn lemma_vote_uniqueness(m: CertificateModel, s: CertificateStateV)
    requires
        wf_model(m),
        cert_reachable(m, s),
    ensures
        prop_vote_uniqueness(s),
{
    lemma_cert_reachable_inv(m, s);
}

/// Quorum enforcement: in every reachable state, every entry of the global
/// certificate ledger records at least `floor(total * percent / 100)` stake,
/// and is justified by a voter set holding at least that much stake.
pub proof fn lemma_certificate_threshold(m: CertificateModel, s: CertificateStateV)
    requires
        wf_model(m),
        cert_reachable(m, s),
    ensures
        prop_certificate_threshold(s),
{
    lemma_cert_reachable_inv(m, s);
    assert forall|i: int| 0 <= i < s.global_certificates.len() implies (
    #[trigger] s.global_certificates[i].stake) >= spec_threshold() by {
        assert(cert_backed(m, s, s.global_certificates[i]));
    }
}

/// Idempotence of delivery: delivering an envelope consumes it, so a second
/// delivery of the same envelope has no successor.
pub proof fn lemma_delivery_idempotent(
    m: CertificateModel,
    s: CertificateStateV,
    msg: MessageInTransit,
    s1: CertificateStateV,
)
    requires
        wf_model(m),
        cert_inv(m, s),
        cert_step(m, s, CertificateAction::DeliverMessage { msg }) == Some(s1),
    ensures
        cert_step(m, s1, CertificateAction::DeliverMessage { msg }) is None,
{
    let mi = net_index(s.network, msg);
    assert(0 <= mi < s.network.len() && s.network[mi] == msg);
    let net1 = s.network.remove(mi);
    assert(s1.network == net1);
    assert(!net1.contains(msg)) by {
        if net1.contains(msg) {
            let j = choose|j: int| 0 <= j < net1.len() && net1[j] == msg;
            if j < mi {
                assert(s.network[j] == msg);
            } else {
                assert(s.network[j + 1] == msg);
            }
        }
    }
}

} // verus!
