//! Timeout handling and skip-certificate model.
//!
//! A validator that has not voted in a slot may receive a timeout event and
//! cast a skip vote instead; once skip votes for a slot gather the quorum
//! threshold of stake at a recipient, a skip certificate forms and the
//! recipient raises its bad-window flag.  Stake is split evenly, so a voter
//! mask's stake is its size times the per-validator share.

use crate::certificate::{
    key_set_insert, keys_insert_exec, lemma_distinct_remove, pool_add, pool_add_exec, pool_find,
    pool_has, pool_index, pool_keys_distinct, pool_voters, seq_distinct, PoolEntry, VoteKey,
};
use crate::mask::{lemma_mask_count_nonneg, mask_count, mask_len};
use crate::stake::spec_quorum_stake;
use crate::util::{copy_vec, set_vec};
use vstd::prelude::*;

verus! {

/// Stake held by all validators together.
pub const TOTAL_STAKE: u64 = 1000;

/// Percentage of the total stake needed to form a certificate.
pub const SKIP_CERTIFICATE_THRESHOLD_PERCENT: u64 = 60;

/// Messages exchanged in the timeout model.
#[derive(Clone, Copy, Debug, PartialEq, Eq, PartialOrd, Ord, Hash, Structural)]
pub enum TimeoutMessage {
    /// A block proposal from a leader.
    BlockProposal { slot: u64, hash: u64, proposer: usize },
    /// A vote for a block.
    NotarVote { slot: u64, hash: u64, voter: usize },
    /// A vote to skip a slot.
    SkipVote { slot: u64, voter: usize },
    /// A timeout event for a slot at a validator.
    TimeoutEvent { slot: u64, validator: usize },
}

/// A message addressed to one validator, waiting in the network.
#[derive(Clone, Copy, Debug, PartialEq, Eq, PartialOrd, Ord, Hash, Structural)]
pub struct MessageInTransit {
    pub dst: usize,
    pub msg: TimeoutMessage,
}

/// Actions enabled in the timeout model.
#[derive(Clone, Copy, Debug, PartialEq, Eq, PartialOrd, Ord, Hash, Structural)]
pub enum TimeoutAction {
    ProposeBlock { slot: u64, proposer: usize },
    DeliverMessage { msg: MessageInTransit },
    TriggerTimeout { slot: u64, validator: usize },
    AdvanceSlot,
}

/// A vote recorded by a validator: a block hash or the skip candidate.
#[derive(Clone, Copy, Debug, PartialEq, Eq, PartialOrd, Ord, Hash, Structural)]
pub struct VoteRecord {
    pub slot: u64,
    pub vote: Option<u64>,
}

/// A recorded block proposal.
#[derive(Clone, Copy, Debug, PartialEq, Eq, PartialOrd, Ord, Hash, Structural)]
pub struct SlotHash {
    pub slot: u64,
    pub hash: u64,
}

/// Per-validator state.
#[derive(Clone, Debug, PartialEq, Eq, Hash)]
pub struct ValidatorState {
    /// The vote this validator cast in each slot, at most one per slot.
    pub votes_cast: Vec<VoteRecord>,
    /// Votes observed, keyed by what they are for.
    pub vote_pool: Vec<PoolEntry>,
    /// Keys for which this validator observed a certificate.
    pub certificates: Vec<VoteKey>,
    /// Raised when a skip certificate was observed.
    pub bad_window: bool,
    /// This validator's view of the slot counter.
    pub current_slot: u64,
}

/// The whole world state of the timeout model.
#[derive(Clone, Debug, PartialEq, Eq, Hash)]
pub struct TimeoutState {
    /// Messages in flight, kept without duplicates.
    pub network: Vec<MessageInTransit>,
    /// All validators, indexed by identity.
    pub validators: Vec<ValidatorState>,
    /// Global slot counter.
    pub current_slot: u64,
    /// Slots for which a skip certificate has formed.
    pub skip_certificates: Vec<u64>,
    /// Proposed blocks, one hash per slot.
    pub block_proposals: Vec<SlotHash>,
}

/// Configuration of the timeout model.
#[derive(Clone, Copy, Debug, PartialEq, Eq, Hash, Structural)]
pub struct TimeoutModel {
    pub validator_count: usize,
    pub max_slot: u64,
}

/// Mathematical view of a validator.
#[verifier::ext_equal]
pub struct ValidatorStateV {
    pub votes_cast: Seq<VoteRecord>,
    pub vote_pool: Seq<PoolEntry>,
    pub certificates: Seq<VoteKey>,
    pub bad_window: bool,
    pub current_slot: u64,
}

/// Mathematical view of the world state.
#[verifier::ext_equal]
pub struct TimeoutStateV {
    pub network: Seq<MessageInTransit>,
    pub validators: Seq<ValidatorStateV>,
    pub current_slot: u64,
    pub skip_certificates: Seq<u64>,
    pub block_proposals: Seq<SlotHash>,
}

impl View for ValidatorState {
    type V = ValidatorStateV;

    open spec fn view(&self) -> ValidatorStateV {
        ValidatorStateV {
            votes_cast: self.votes_cast@,
            vote_pool: self.vote_pool@,
            certificates: self.certificates@,
            bad_window: self.bad_window,
            current_slot: self.current_slot,
        }
    }
}

impl View for TimeoutState {
    type V = TimeoutStateV;

    open spec fn view(&self) -> TimeoutStateV {
        TimeoutStateV {
            network: self.network@,
            validators: self.validators@.map_values(|v: ValidatorState| v@),
            current_slot: self.current_slot,
            skip_certificates: self.skip_certificates@,
            block_proposals: self.block_proposals@,
        }
    }
}

// ------------------------------------------------------------------
// Spec-level building blocks
// ------------------------------------------------------------------

/// Insert into a duplicate-free message sequence.
pub open spec fn net_insert(net: Seq<MessageInTransit>, m: MessageInTransit) -> Seq<
    MessageInTransit,
> {
    if net.contains(m) {
        net
    } else {
        net.push(m)
    }
}

/// Index of a message in the network.
pub open spec fn net_index(net: Seq<MessageInTransit>, m: MessageInTransit) -> int {
    choose|i: int| 0 <= i < net.len() && net[i] == m
}

/// The network after broadcasting `msg` to every validator below `n`,
/// except `skip` (pass `n` as `skip` to broadcast to everyone).
pub open spec fn net_broadcast_except(
    net: Seq<MessageInTransit>,
    msg: TimeoutMessage,
    n: int,
    skip: int,
) -> Seq<MessageInTransit>
    decreases n,
{
    if n <= 0 {
        net
    } else {
        let prev = net_broadcast_except(net, msg, n - 1, skip);
        if n - 1 == skip {
            prev
        } else {
            net_insert(prev, MessageInTransit { dst: (n - 1) as usize, msg })
        }
    }
}

/// Whether the validator has already voted in `slot`.
pub open spec fn votes_has_slot(votes: Seq<VoteRecord>, slot: u64) -> bool {
    exists|i: int| 0 <= i < votes.len() && votes[i].slot == slot
}

/// Record slots are pairwise distinct.
pub open spec fn votes_slots_distinct(votes: Seq<VoteRecord>) -> bool {
    forall|i: int, j: int|
        0 <= i < votes.len() && 0 <= j < votes.len() && votes[i].slot == votes[j].slot ==> i == j
}

/// Whether a block has been proposed for `slot`.
pub open spec fn props_has(bp: Seq<SlotHash>, slot: u64) -> bool {
    exists|i: int| 0 <= i < bp.len() && bp[i].slot == slot
}

/// Index of the proposal for `slot`.
pub open spec fn props_index(bp: Seq<SlotHash>, slot: u64) -> int {
    choose|i: int| 0 <= i < bp.len() && bp[i].slot == slot
}

/// Record or overwrite the proposal for a slot.
pub open spec fn props_update(bp: Seq<SlotHash>, slot: u64, hash: u64) -> Seq<SlotHash> {
    if props_has(bp, slot) {
        bp.update(props_index(bp, slot), SlotHash { slot, hash })
    } else {
        bp.push(SlotHash { slot, hash })
    }
}

/// Updating a slot-keyed list keeps its slots distinct.
pub proof fn lemma_props_update_distinct(bp: Seq<SlotHash>, slot: u64, hash: u64)
    requires
        props_slots_distinct(bp),
    ensures
        props_slots_distinct(props_update(bp, slot, hash)),
{
    let r = props_update(bp, slot, hash);
    if props_has(bp, slot) {
        let i0 = props_index(bp, slot);
        assert(0 <= i0 < bp.len() && bp[i0].slot == slot);
        assert forall|a: int, b: int|
            0 <= a < r.len() && 0 <= b < r.len() && r[a].slot == r[b].slot implies a == b by {
            assert(r[a].slot == bp[a].slot);
            assert(r[b].slot == bp[b].slot);
        }
    } else {
        assert forall|a: int, b: int|
            0 <= a < r.len() && 0 <= b < r.len() && r[a].slot == r[b].slot implies a == b by {
            if a < bp.len() && b < bp.len() {
                assert(bp[a].slot == bp[b].slot);
            } else if a < bp.len() && b == bp.len() {
                assert(bp[a].slot == slot);
                assert(props_has(bp, slot));
            } else if a == bp.len() && b < bp.len() {
                assert(bp[b].slot == slot);
                assert(props_has(bp, slot));
            }
        }
    }
}

/// Proposal slots are pairwise distinct.
pub open spec fn props_slots_distinct(bp: Seq<SlotHash>) -> bool {
    forall|i: int, j: int|
        0 <= i < bp.len() && 0 <= j < bp.len() && bp[i].slot == bp[j].slot ==> i == j
}

/// Insert a slot into a duplicate-free slot set.
pub open spec fn slots_insert(slots: Seq<u64>, slot: u64) -> Seq<u64> {
    if slots.contains(slot) {
        slots
    } else {
        slots.push(slot)
    }
}

/// Every validator's stake: an even floor split of the total.
pub open spec fn spec_per_validator_stake(n: u64) -> u64 {
    TOTAL_STAKE / n
}

/// Stake held by the members of a voter mask under the even split.
pub open spec fn spec_mask_stake(n: int, voters: u64) -> int {
    mask_count(voters, 64) * (spec_per_validator_stake(n as u64) as int)
}

/// The stake a certificate needs.
pub open spec fn spec_threshold() -> int {
    spec_quorum_stake(TOTAL_STAKE, SKIP_CERTIFICATE_THRESHOLD_PERCENT)
}

/// Whether a voter mask reaches the quorum under the even split.
pub open spec fn spec_quorum(n: int, voters: u64) -> bool {
    spec_mask_stake(n, voters) >= spec_threshold()
}

/// The deterministic hash a proposer assigns to its block.
pub open spec fn spec_block_hash(slot: u64, proposer: int) -> u64 {
    (slot * 1000 + proposer) as u64
}

// ------------------------------------------------------------------
// Well-formedness
// ------------------------------------------------------------------

/// Message fields fit the model bounds.
pub open spec fn wf_message(m: TimeoutModel, t: MessageInTransit) -> bool {
    &&& t.dst < m.validator_count
    &&& match t.msg {
        TimeoutMessage::BlockProposal { proposer, .. } => proposer < m.validator_count,
        TimeoutMessage::NotarVote { voter, .. } => voter < m.validator_count,
        TimeoutMessage::SkipVote { voter, .. } => voter < m.validator_count,
        TimeoutMessage::TimeoutEvent { validator, .. } => validator < m.validator_count,
    }
}

/// Structural well-formedness of a state.
pub open spec fn wf_state(m: TimeoutModel, s: TimeoutStateV) -> bool {
    &&& 1 <= m.validator_count <= 64
    &&& s.validators.len() == m.validator_count
    &&& seq_distinct(s.network)
    &&& forall|i: int| 0 <= i < s.network.len() ==> wf_message(m, #[trigger] s.network[i])
    &&& forall|v: int|
        0 <= v < s.validators.len() ==> votes_slots_distinct(#[trigger] s.validators[v].votes_cast)
    &&& forall|v: int|
        0 <= v < s.validators.len() ==> pool_keys_distinct(#[trigger] s.validators[v].vote_pool)
    &&& forall|v: int|
        0 <= v < s.validators.len() ==> seq_distinct(#[trigger] s.validators[v].certificates)
    &&& seq_distinct(s.skip_certificates)
    &&& props_slots_distinct(s.block_proposals)
}

/// Bounds under which the model's arithmetic cannot overflow.
pub open spec fn wf_model(m: TimeoutModel) -> bool {
    &&& 1 <= m.validator_count <= 64
    &&& m.max_slot <= 1000000
}

/// Whether an action refers only to validators and slots that exist.
pub open spec fn wf_action(m: TimeoutModel, a: TimeoutAction) -> bool {
    match a {
        TimeoutAction::ProposeBlock { slot, proposer } => proposer < m.validator_count && slot
            <= m.max_slot,
        TimeoutAction::DeliverMessage { msg } => wf_message(m, msg),
        TimeoutAction::TriggerTimeout { slot, validator } => validator < m.validator_count,
        TimeoutAction::AdvanceSlot => true,
    }
}

// ------------------------------------------------------------------
// The transition function, mathematically
// ------------------------------------------------------------------

/// Deliver a vote for `k` to validator `d`: record the voter in the pool
/// and, on a quorum, form the certificate; a skip quorum also records the
/// skip certificate and raises the bad-window flag.
pub open spec fn tm_deliver_vote(
    m: TimeoutModel,
    s: TimeoutStateV,
    net1: Seq<MessageInTransit>,
    d: int,
    k: VoteKey,
    voter: int,
) -> TimeoutStateV {
    let n = m.validator_count as int;
    let v = s.validators[d];
    let pool1 = pool_add(v.vote_pool, k, voter);
    let quorum = spec_quorum(n, pool_voters(pool1, k));
    let is_skip = k.hash is None;
    let v2 = ValidatorStateV {
        votes_cast: v.votes_cast,
        vote_pool: pool1,
        certificates: if quorum {
            key_set_insert(v.certificates, k)
        } else {
            v.certificates
        },
        bad_window: if quorum && is_skip {
            true
        } else {
            v.bad_window
        },
        current_slot: v.current_slot,
    };
    TimeoutStateV {
        network: net1,
        validators: s.validators.update(d, v2),
        current_slot: s.current_slot,
        skip_certificates: if quorum && is_skip {
            slots_insert(s.skip_certificates, k.slot)
        } else {
            s.skip_certificates
        },
        block_proposals: s.block_proposals,
    }
}

/// A validator that has not voted in the slot casts a vote and broadcasts
/// the corresponding message to everyone.
pub open spec fn tm_cast_vote(
    m: TimeoutModel,
    s: TimeoutStateV,
    net1: Seq<MessageInTransit>,
    d: int,
    rec: VoteRecord,
    msg: TimeoutMessage,
) -> TimeoutStateV {
    let n = m.validator_count as int;
    let v = s.validators[d];
    if !votes_has_slot(v.votes_cast, rec.slot) {
        TimeoutStateV {
            network: net_broadcast_except(net1, msg, n, n),
            validators: s.validators.update(
                d,
                ValidatorStateV {
                    votes_cast: v.votes_cast.push(rec),
                    vote_pool: v.vote_pool,
                    certificates: v.certificates,
                    bad_window: v.bad_window,
                    current_slot: v.current_slot,
                },
            ),
            current_slot: s.current_slot,
            skip_certificates: s.skip_certificates,
            block_proposals: s.block_proposals,
        }
    } else {
        TimeoutStateV { network: net1, ..s }
    }
}

/// One transition of the timeout model.
pub open spec fn tm_step(m: TimeoutModel, s: TimeoutStateV, a: TimeoutAction) -> Option<
    TimeoutStateV,
> {
    let n = m.validator_count as int;
    match a {
        TimeoutAction::ProposeBlock { slot, proposer } => {
            let hash = spec_block_hash(slot, proposer as int);
            Some(
                TimeoutStateV {
                    network: net_broadcast_except(
                        s.network,
                        TimeoutMessage::BlockProposal { slot, hash, proposer },
                        n,
                        proposer as int,
                    ),
                    validators: s.validators,
                    current_slot: s.current_slot,
                    skip_certificates: s.skip_certificates,
                    block_proposals: props_update(s.block_proposals, slot, hash),
                },
            )
        },
        TimeoutAction::DeliverMessage { msg } => {
            if !s.network.contains(msg) {
                None
            } else {
                let net1 = s.network.remove(net_index(s.network, msg));
                let d = msg.dst as int;
                match msg.msg {
                    TimeoutMessage::BlockProposal { slot, hash, proposer } => Some(
                        tm_cast_vote(
                            m,
                            s,
                            net1,
                            d,
                            VoteRecord { slot, vote: Some(hash) },
                            TimeoutMessage::NotarVote { slot, hash, voter: msg.dst },
                        ),
                    ),
                    TimeoutMessage::NotarVote { slot, hash, voter } => Some(
                        tm_deliver_vote(m, s, net1, d, VoteKey { slot, hash: Some(hash) }, voter as int),
                    ),
                    TimeoutMessage::SkipVote { slot, voter } => Some(
                        tm_deliver_vote(m, s, net1, d, VoteKey { slot, hash: None }, voter as int),
                    ),
                    TimeoutMessage::TimeoutEvent { slot, validator } => Some(
                        tm_cast_vote(
                            m,
                            s,
                            net1,
                            d,
                            VoteRecord { slot, vote: None },
                            TimeoutMessage::SkipVote { slot, voter: msg.dst },
                        ),
                    ),
                }
            }
        },
        TimeoutAction::TriggerTimeout { slot, validator } => Some(
            TimeoutStateV {
                network: net_insert(
                    s.network,
                    MessageInTransit { dst: validator, msg: TimeoutMessage::TimeoutEvent { slot, validator } },
                ),
                ..s
            },
        ),
        TimeoutAction::AdvanceSlot => {
            let slot2 = (s.current_slot + 1) as u64;
            Some(
                TimeoutStateV {
                    network: s.network,
                    validators: s.validators.map_values(
                        |v: ValidatorStateV|
                            ValidatorStateV {
                                votes_cast: v.votes_cast,
                                vote_pool: v.vote_pool,
                                certificates: v.certificates,
                                bad_window: v.bad_window,
                                current_slot: slot2,
                            },
                    ),
                    current_slot: slot2,
                    skip_certificates: s.skip_certificates,
                    block_proposals: s.block_proposals,
                },
            )
        },
    }
}

/// The initial state for a configuration.
pub open spec fn tm_init(validator_count: int) -> TimeoutStateV {
    TimeoutStateV {
        network: Seq::empty(),
        validators: Seq::new(
            validator_count as nat,
            |i: int|
                ValidatorStateV {
                    votes_cast: Seq::empty(),
                    vote_pool: Seq::empty(),
                    certificates: Seq::empty(),
                    bad_window: false,
                    current_slot: 0,
                },
        ),
        current_slot: 0,
        skip_certificates: Seq::empty(),
        block_proposals: Seq::empty(),
    }
}

// ------------------------------------------------------------------
// Executable helpers
// ------------------------------------------------------------------

fn net_contains(net: &Vec<MessageInTransit>, m: MessageInTransit) -> (r: bool)
    ensures
        r == net@.contains(m),
{
    let mut i: usize = 0;
    while i < net.len()
        invariant
            i <= net@.len(),
            forall|j: int| 0 <= j < i ==> net@[j] != m,
        decreases net@.len() - i,
    {
        if net[i] == m {
            return true;
        }
        i = i + 1;
    }
    false
}

fn net_insert_exec(net: &mut Vec<MessageInTransit>, m: MessageInTransit)
    ensures
        final(net)@ == net_insert(old(net)@, m),
{
    if !net_contains(net, m) {
        net.push(m);
    }
}

fn net_remove_exec(net: &mut Vec<MessageInTransit>, m: MessageInTransit)
    requires
        seq_distinct(old(net)@),
        old(net)@.contains(m),
    ensures
        final(net)@ == old(net)@.remove(net_index(old(net)@, m)),
{
    let ghost orig = net@;
    proof {
        assert(orig == old(net)@);
    }
    let mut i: usize = 0;
    while i < net.len()
        invariant
            net@ == orig,
            orig == old(net)@,
            seq_distinct(orig),
            i <= net@.len(),
            forall|j: int| 0 <= j < i ==> net@[j] != m,
            net@.contains(m),
        decreases net@.len() - i,
    {
        if net[i] == m {
            proof {
                let ii = net_index(orig, m);
                assert(0 <= ii < orig.len() && orig[ii] == m);
                assert(ii == i as int);
            }
            net.remove(i);
            return ;
        }
        i = i + 1;
    }
    proof {
        let ii = choose|j: int| 0 <= j < orig.len() && orig[j] == m;
        assert(false);
    }
}

fn broadcast_except_exec(net: &mut Vec<MessageInTransit>, msg: TimeoutMessage, n: usize, skip: usize)
    ensures
        final(net)@ == net_broadcast_except(old(net)@, msg, n as int, skip as int),
{
    let mut i: usize = 0;
    while i < n
        invariant
            i <= n,
            net@ == net_broadcast_except(old(net)@, msg, i as int, skip as int),
        decreases n - i,
    {
        if i != skip {
            net_insert_exec(net, MessageInTransit { dst: i, msg });
        }
        i = i + 1;
    }
}

fn votes_has_slot_exec(votes: &Vec<VoteRecord>, slot: u64) -> (r: bool)
    ensures
        r == votes_has_slot(votes@, slot),
{
    let mut i: usize = 0;
    while i < votes.len()
        invariant
            i <= votes@.len(),
            forall|j: int| 0 <= j < i ==> votes@[j].slot != slot,
        decreases votes@.len() - i,
    {
        if votes[i].slot == slot {
            return true;
        }
        i = i + 1;
    }
    false
}

fn props_update_exec(bp: &mut Vec<SlotHash>, slot: u64, hash: u64)
    requires
        props_slots_distinct(old(bp)@),
    ensures
        final(bp)@ == props_update(old(bp)@, slot, hash),
{
    let mut i: usize = 0;
    while i < bp.len()
        invariant
            i <= bp@.len(),
            bp@ == old(bp)@,
            props_slots_distinct(bp@),
            forall|j: int| 0 <= j < i ==> bp@[j].slot != slot,
        decreases bp@.len() - i,
    {
        if bp[i].slot == slot {
            proof {
                assert(props_has(bp@, slot));
                let ii = props_index(bp@, slot);
                assert(0 <= ii < bp@.len() && bp@[ii].slot == slot);
            }
            set_vec(bp, i, SlotHash { slot, hash });
            return ;
        }
        i = i + 1;
    }
    proof {
        assert(!props_has(bp@, slot));
    }
    bp.push(SlotHash { slot, hash });
}

fn slots_insert_exec(slots: &mut Vec<u64>, slot: u64)
    ensures
        final(slots)@ == slots_insert(old(slots)@, slot),
{
    let mut i: usize = 0;
    while i < slots.len()
        invariant
            i <= slots@.len(),
            slots@ == old(slots)@,
            forall|j: int| 0 <= j < i ==> slots@[j] != slot,
        decreases slots@.len() - i,
    {
        if slots[i] == slot {
            return ;
        }
        i = i + 1;
    }
    slots.push(slot);
}

/// Stake of a voter mask under the even split, executably.
fn mask_stake(validator_count: usize, voters: u64) -> (r: u64)
    requires
        1 <= validator_count,
    ensures
        r == spec_mask_stake(validator_count as int, voters),
{
    let count = mask_len(voters);
    let per = TOTAL_STAKE / (validator_count as u64);
    proof {
        lemma_mask_count_nonneg(voters, 64);
        assert(0 <= (count as int) * (per as int) <= 64000) by (nonlinear_arith)
            requires
                0 <= count <= 64,
                0 <= per <= 1000,
        ;
    }
    (count as u64) * per
}

// ------------------------------------------------------------------
// Executable state
// ------------------------------------------------------------------

impl ValidatorState {
    /// A fresh copy with the same mathematical value.
    fn duplicate(&self) -> (r: ValidatorState)
        ensures
            r@ == self@,
    {
        ValidatorState {
            votes_cast: copy_vec(&self.votes_cast),
            vote_pool: copy_vec(&self.vote_pool),
            certificates: copy_vec(&self.certificates),
            bad_window: self.bad_window,
            current_slot: self.current_slot,
        }
    }
}

impl TimeoutState {
    /// A fresh copy with the same mathematical value.
    pub fn duplicate(&self) -> (r: TimeoutState)
        ensures
            r@ == self@,
    {
        let mut validators: Vec<ValidatorState> = Vec::new();
        let mut i: usize = 0;
        while i < self.validators.len()
            invariant
                i <= self.validators@.len(),
                validators@.len() == i,
                forall|j: int| 0 <= j < i ==> #[trigger] validators@[j]@ == self.validators@[j]@,
            decreases self.validators@.len() - i,
        {
            let v = self.validators[i].duplicate();
            validators.push(v);
            i = i + 1;
        }
        let r = TimeoutState {
            network: copy_vec(&self.network),
            validators,
            current_slot: self.current_slot,
            skip_certificates: copy_vec(&self.skip_certificates),
            block_proposals: copy_vec(&self.block_proposals),
        };
        proof {
            assert(r@.validators =~= self@.validators);
            assert(r@ =~= self@);
        }
        r
    }

    /// The initial state: no votes, no certificates, slot counter zero.
    pub fn new(validator_count: usize) -> (r: TimeoutState)
        requires
            1 <= validator_count <= 64,
        ensures
            r@ == tm_init(validator_count as int),
    {
        let mut validators: Vec<ValidatorState> = Vec::new();
        let mut i: usize = 0;
        while i < validator_count
            invariant
                i <= validator_count,
                validators@.len() == i,
                forall|j: int|
                    0 <= j < i ==> #[trigger] validators@[j]@ == tm_init(
                        validator_count as int,
                    ).validators[j],
            decreases validator_count - i,
        {
            validators.push(
                ValidatorState {
                    votes_cast: Vec::new(),
                    vote_pool: Vec::new(),
                    certificates: Vec::new(),
                    bad_window: false,
                    current_slot: 0,
                },
            );
            proof {
                assert(validators@[i as int]@ =~= tm_init(validator_count as int).validators[i as int]);
            }
            i = i + 1;
        }
        let r = TimeoutState {
            network: Vec::new(),
            validators,
            current_slot: 0,
            skip_certificates: Vec::new(),
            block_proposals: Vec::new(),
        };
        proof {
            assert(r@.validators =~= tm_init(validator_count as int).validators);
            assert(r@ =~= tm_init(validator_count as int));
        }
        r
    }

    /// Whether the first validator's pool holds a skip quorum for `slot`.
    pub fn can_form_skip_certificate(&self, slot: u64) -> (r: bool)
        requires
            1 <= self@.validators.len() <= 64,
            pool_keys_distinct(self@.validators[0].vote_pool),
        ensures
            r == spec_can_form(self@, VoteKey { slot, hash: None }),
    {
        self.can_form(VoteKey { slot, hash: None })
    }

    /// Whether the first validator's pool holds a block quorum for
    /// `(slot, hash)`.
    pub fn can_form_block_certificate(&self, slot: u64, hash: u64) -> (r: bool)
        requires
            1 <= self@.validators.len() <= 64,
            pool_keys_distinct(self@.validators[0].vote_pool),
        ensures
            r == spec_can_form(self@, VoteKey { slot, hash: Some(hash) }),
    {
        self.can_form(VoteKey { slot, hash: Some(hash) })
    }

    fn can_form(&self, k: VoteKey) -> (r: bool)
        requires
            1 <= self@.validators.len() <= 64,
            pool_keys_distinct(self@.validators[0].vote_pool),
        ensures
            r == spec_can_form(self@, k),
    {
        proof {
            assert(self@.validators[0] == self.validators@[0]@);
            assert(self@.validators[0].vote_pool == self.validators@[0].vote_pool@);
        }
        let found = pool_find(&self.validators[0].vote_pool, k);
        match found {
            Some(i) => {
                let voters = self.validators[0].vote_pool[i].voters;
                let threshold = TOTAL_STAKE * SKIP_CERTIFICATE_THRESHOLD_PERCENT / 100;
                mask_stake(self.validators.len(), voters) >= threshold
            },
            None => false,
        }
    }
}

/// Quorum check over the first validator's pool, mathematically.
pub open spec fn spec_can_form(s: TimeoutStateV, k: VoteKey) -> bool {
    &&& pool_has(s.validators[0].vote_pool, k)
    &&& spec_quorum(s.validators.len() as int, pool_voters(s.validators[0].vote_pool, k))
}

// ------------------------------------------------------------------
// Action generation
// ------------------------------------------------------------------

/// One delivery action for every message in flight.
pub open spec fn deliver_actions(net: Seq<MessageInTransit>) -> Seq<TimeoutAction> {
    Seq::new(net.len(), |i: int| TimeoutAction::DeliverMessage { msg: net[i] })
}

/// Proposals by one proposer for the unproposed slots in `[cur, hi]`.
pub open spec fn propose_for(s: TimeoutStateV, proposer: int, cur: int, hi: int) -> Seq<
    TimeoutAction,
>
    decreases hi - cur + 1,
{
    if hi < cur {
        Seq::empty()
    } else {
        propose_for(s, proposer, cur, hi - 1) + (if !props_has(s.block_proposals, hi as u64) {
            seq![TimeoutAction::ProposeBlock { slot: hi as u64, proposer: proposer as usize }]
        } else {
            Seq::empty()
        })
    }
}

/// Proposals by the proposers below `k`.
pub open spec fn propose_all(s: TimeoutStateV, k: int, cur: int, hi: int) -> Seq<TimeoutAction>
    decreases k,
{
    if k <= 0 {
        Seq::empty()
    } else {
        propose_all(s, k - 1, cur, hi) + propose_for(s, k - 1, cur, hi)
    }
}

/// Timeout triggers for one validator for the slots `1..=hi`.
pub open spec fn touts_for(validator: int, hi: int) -> Seq<TimeoutAction>
    decreases hi,
{
    if hi <= 0 {
        Seq::empty()
    } else {
        touts_for(validator, hi - 1) + seq![
            TimeoutAction::TriggerTimeout { slot: hi as u64, validator: validator as usize },
        ]
    }
}

/// Timeout triggers for the validators below `k`.
pub open spec fn touts_all(k: int, hi: int) -> Seq<TimeoutAction>
    decreases k,
{
    if k <= 0 {
        Seq::empty()
    } else {
        touts_all(k - 1, hi) + touts_for(k - 1, hi)
    }
}

/// Every action enabled in `s`, in generation order.
pub open spec fn tm_actions(m: TimeoutModel, s: TimeoutStateV) -> Seq<TimeoutAction> {
    deliver_actions(s.network) + propose_all(
        s,
        m.validator_count as int,
        s.current_slot as int,
        m.max_slot as int,
    ) + touts_all(m.validator_count as int, m.max_slot as int) + (if s.current_slot < m.max_slot {
        seq![TimeoutAction::AdvanceSlot]
    } else {
        Seq::empty()
    })
}

// ------------------------------------------------------------------
// Properties
// ------------------------------------------------------------------

/// At most one skip certificate per slot explored so far.
pub open spec fn prop_skip_certificate_uniqueness(s: TimeoutStateV) -> bool {
    s.skip_certificates.len() <= s.current_slot as int + 1
}

/// A raised bad-window flag is justified by a recent skip certificate.
pub open spec fn prop_badwindow_consistency(s: TimeoutStateV) -> bool {
    forall|v: int|
        0 <= v < s.validators.len() && (#[trigger] s.validators[v]).bad_window ==> exists|i: int|
            0 <= i < s.skip_certificates.len() && s.current_slot as int - 10
                <= #[trigger] s.skip_certificates[i] as int <= s.current_slot as int
}

/// Each validator has at most one vote recorded per slot.
pub open spec fn prop_vote_uniqueness(s: TimeoutStateV) -> bool {
    forall|v: int, i: int, j: int|
        0 <= v < s.validators.len() && 0 <= i < s.validators[v].votes_cast.len() && 0 <= j
            < s.validators[v].votes_cast.len() && #[trigger] s.validators[v].votes_cast[i].slot
            == #[trigger] s.validators[v].votes_cast[j].slot ==> i == j
}

/// Every locally formed certificate is backed by a quorum in the pool.
pub open spec fn prop_certificate_threshold(s: TimeoutStateV) -> bool {
    forall|v: int, c: int|
        0 <= v < s.validators.len() && 0 <= c < s.validators[v].certificates.len() && pool_has(
            s.validators[v].vote_pool,
            #[trigger] s.validators[v].certificates[c],
        ) ==> spec_quorum(
            s.validators.len() as int,
            pool_voters(s.validators[v].vote_pool, s.validators[v].certificates[c]),
        )
}

/// The invariants checked at every visited state.
#[derive(Clone, Copy, Debug, PartialEq, Eq, PartialOrd, Ord, Hash, Structural)]
pub enum TimeoutProperty {
    SkipCertificateUniqueness,
    BadwindowConsistency,
    VoteUniqueness,
    CertificateThreshold,
}

/// The properties violated in `s`, in a fixed order.
pub open spec fn tm_violations(s: TimeoutStateV) -> Seq<TimeoutProperty> {
    (if !prop_skip_certificate_uniqueness(s) {
        seq![TimeoutProperty::SkipCertificateUniqueness]
    } else {
        Seq::empty()
    }) + (if !prop_badwindow_consistency(s) {
        seq![TimeoutProperty::BadwindowConsistency]
    } else {
        Seq::empty()
    }) + (if !prop_vote_uniqueness(s) {
        seq![TimeoutProperty::VoteUniqueness]
    } else {
        Seq::empty()
    }) + (if !prop_certificate_threshold(s) {
        seq![TimeoutProperty::CertificateThreshold]
    } else {
        Seq::empty()
    })
}

// ------------------------------------------------------------------
// The model, executably
// ------------------------------------------------------------------

impl TimeoutModel {
    /// The single initial state of the model.
    pub fn init_states(&self) -> (r: Vec<TimeoutState>)
        requires
            1 <= self.validator_count <= 64,
        ensures
            r@.len() == 1,
            r@[0]@ == tm_init(self.validator_count as int),
    {
        let mut r: Vec<TimeoutState> = Vec::new();
        r.push(TimeoutState::new(self.validator_count));
        r
    }

    /// Record a delivered vote at the recipient and form certificates on a
    /// quorum.
    fn apply_vote(&self, s2: &mut TimeoutState, d: usize, k: VoteKey, voter: usize)
        requires
            wf_state(*self, old(s2)@),
            d < self.validator_count,
            voter < 64,
        ensures
            final(s2)@ == tm_deliver_vote(*self, old(s2)@, old(s2)@.network, d as int, k, voter as int),
    {
        let vold = &s2.validators[d];
        let ghost oldv = vold@;
        proof {
            assert(old(s2)@.validators[d as int] == oldv);
            assert(pool_keys_distinct(oldv.vote_pool));
        }
        let mut pool = copy_vec(&vold.vote_pool);
        pool_add_exec(&mut pool, k, voter);
        proof {
            crate::certificate::lemma_pool_add_distinct(oldv.vote_pool, k, voter as int);
            assert(pool_has(pool@, k)) by {
                let p0 = oldv.vote_pool;
                if pool_has(p0, k) {
                    let i = pool_index(p0, k);
                    assert(pool@[i].key == k);
                } else {
                    assert(pool@[p0.len() as int].key == k);
                }
            }
        }
        let found = pool_find(&pool, k);
        let i = match found {
            Some(i) => i,
            None => {
                proof {
                    assert(false);
                }
                0
            },
        };
        let voters1 = pool[i].voters;
        let threshold = TOTAL_STAKE * SKIP_CERTIFICATE_THRESHOLD_PERCENT / 100;
        let quorum = mask_stake(self.validator_count, voters1) >= threshold;
        let is_skip = k.hash.is_none();
        let vold = &s2.validators[d];
        let nv = ValidatorState {
            votes_cast: copy_vec(&vold.votes_cast),
            vote_pool: pool,
            certificates: {
                let mut c = copy_vec(&vold.certificates);
                if quorum {
                    keys_insert_exec(&mut c, k);
                }
                c
            },
            bad_window: if quorum && is_skip {
                true
            } else {
                vold.bad_window
            },
            current_slot: vold.current_slot,
        };
        set_vec(&mut s2.validators, d, nv);
        if quorum && is_skip {
            slots_insert_exec(&mut s2.skip_certificates, k.slot);
        }
        proof {
            let g = tm_deliver_vote(*self, old(s2)@, old(s2)@.network, d as int, k, voter as int);
            assert(s2@.validators =~= g.validators);
            assert(s2@ =~= g);
        }
    }

    /// A validator votes in a slot it has not voted in and broadcasts the
    /// vote.
    fn apply_cast(&self, s2: &mut TimeoutState, d: usize, rec: VoteRecord, msg: TimeoutMessage)
        requires
            wf_state(*self, old(s2)@),
            d < self.validator_count,
        ensures
            final(s2)@ == tm_cast_vote(*self, old(s2)@, old(s2)@.network, d as int, rec, msg),
    {
        proof {
            assert(old(s2)@.validators[d as int] == s2.validators@[d as int]@);
        }
        if !votes_has_slot_exec(&s2.validators[d].votes_cast, rec.slot) {
            let vold = &s2.validators[d];
            let mut votes_cast = copy_vec(&vold.votes_cast);
            votes_cast.push(rec);
            let nv = ValidatorState {
                votes_cast,
                vote_pool: copy_vec(&vold.vote_pool),
                certificates: copy_vec(&vold.certificates),
                bad_window: vold.bad_window,
                current_slot: vold.current_slot,
            };
            set_vec(&mut s2.validators, d, nv);
            broadcast_except_exec(&mut s2.network, msg, self.validator_count, self.validator_count);
            proof {
                let g = tm_cast_vote(*self, old(s2)@, old(s2)@.network, d as int, rec, msg);
                assert(s2@.validators =~= g.validators);
                assert(s2@ =~= g);
            }
        } else {
            proof {
                let g = tm_cast_vote(*self, old(s2)@, old(s2)@.network, d as int, rec, msg);
                assert(s2@ =~= g);
            }
        }
    }

    /// The unique successor of `last_state` under `action`, or `None` when
    /// the action delivers a message no longer in flight.
    pub fn next_state(&self, last_state: &TimeoutState, action: TimeoutAction) -> (r: Option<
        TimeoutState,
    >)
        requires
            wf_model(*self),
            wf_state(*self, last_state@),
            wf_action(*self, action),
            action is AdvanceSlot ==> last_state@.current_slot < u64::MAX,
        ensures
            match r {
                Some(s2) => tm_step(*self, last_state@, action) == Some(s2@),
                None => tm_step(*self, last_state@, action) is None,
            },
    {
        match action {
            TimeoutAction::ProposeBlock { slot, proposer } => {
                let mut s2 = last_state.duplicate();
                let hash = slot * 1000 + (proposer as u64);
                props_update_exec(&mut s2.block_proposals, slot, hash);
                broadcast_except_exec(
                    &mut s2.network,
                    TimeoutMessage::BlockProposal { slot, hash, proposer },
                    self.validator_count,
                    proposer,
                );
                proof {
                    let g = tm_step(*self, last_state@, action);
                    assert(g == Some(s2@)) by {
                        assert(s2@ =~= g->Some_0);
                    }
                }
                Some(s2)
            },
            TimeoutAction::DeliverMessage { msg } => {
                if !net_contains(&last_state.network, msg) {
                    return None;
                }
                let mut s2 = last_state.duplicate();
                net_remove_exec(&mut s2.network, msg);
                proof {
                    lemma_distinct_remove(last_state@.network, net_index(last_state@.network, msg));
                }
                let d = msg.dst;
                match msg.msg {
                    TimeoutMessage::BlockProposal { slot, hash, proposer } => {
                        self.apply_cast(
                            &mut s2,
                            d,
                            VoteRecord { slot, vote: Some(hash) },
                            TimeoutMessage::NotarVote { slot, hash, voter: d },
                        );
                    },
                    TimeoutMessage::NotarVote { slot, hash, voter } => {
                        self.apply_vote(&mut s2, d, VoteKey { slot, hash: Some(hash) }, voter);
                    },
                    TimeoutMessage::SkipVote { slot, voter } => {
                        self.apply_vote(&mut s2, d, VoteKey { slot, hash: None }, voter);
                    },
                    TimeoutMessage::TimeoutEvent { slot, validator } => {
                        self.apply_cast(
                            &mut s2,
                            d,
                            VoteRecord { slot, vote: None },
                            TimeoutMessage::SkipVote { slot, voter: d },
                        );
                    },
                }
                proof {
                    let g = tm_step(*self, last_state@, action);
                    assert(g == Some(s2@)) by {
                        assert(g is Some);
                        assert(s2@ =~= g->Some_0);
                    }
                }
                Some(s2)
            },
            TimeoutAction::TriggerTimeout { slot, validator } => {
                let mut s2 = last_state.duplicate();
                net_insert_exec(
                    &mut s2.network,
                    MessageInTransit {
                        dst: validator,
                        msg: TimeoutMessage::TimeoutEvent { slot, validator },
                    },
                );
                proof {
                    let g = tm_step(*self, last_state@, action);
                    assert(g == Some(s2@)) by {
                        assert(s2@ =~= g->Some_0);
                    }
                }
                Some(s2)
            },
            TimeoutAction::AdvanceSlot => {
                let mut s2 = last_state.duplicate();
                let slot2 = s2.current_slot + 1;
                s2.current_slot = slot2;
                let mut i: usize = 0;
                while i < s2.validators.len()
                    invariant
                        i <= s2.validators@.len(),
                        s2.validators@.len() == last_state@.validators.len(),
                        s2@.network == last_state@.network,
                        s2@.skip_certificates == last_state@.skip_certificates,
                        s2@.block_proposals == last_state@.block_proposals,
                        s2@.current_slot == slot2,
                        slot2 == last_state@.current_slot + 1,
                        forall|j: int|
                            0 <= j < i ==> #[trigger] s2.validators@[j]@ == (ValidatorStateV {
                                current_slot: slot2,
                                ..last_state@.validators[j]
                            }),
                        forall|j: int|
                            i <= j < s2.validators@.len() ==> #[trigger] s2.validators@[j]@
                                == last_state@.validators[j],
                    decreases s2.validators@.len() - i,
                {
                    proof {
                        assert(s2.validators@[i as int]@ == last_state@.validators[i as int]);
                    }
                    let vold = &s2.validators[i];
                    let nv = ValidatorState {
                        votes_cast: copy_vec(&vold.votes_cast),
                        vote_pool: copy_vec(&vold.vote_pool),
                        certificates: copy_vec(&vold.certificates),
                        bad_window: vold.bad_window,
                        current_slot: slot2,
                    };
                    set_vec(&mut s2.validators, i, nv);
                    proof {
                        assert(s2.validators@[i as int]@ =~= (ValidatorStateV {
                            current_slot: slot2,
                            ..last_state@.validators[i as int]
                        }));
                    }
                    i = i + 1;
                }
                proof {
                    let g = tm_step(*self, last_state@, action);
                    assert forall|j: int| 0 <= j < s2.validators@.len() implies #[trigger] s2@.validators[j]
                        == g->Some_0.validators[j] by {
                        assert(s2@.validators[j] == s2.validators@[j]@);
                        assert(g->Some_0.validators[j] == (ValidatorStateV {
                            current_slot: slot2,
                            ..last_state@.validators[j]
                        }));
                        assert(s2.validators@[j]@ =~= g->Some_0.validators[j]);
                    }
                    assert(g == Some(s2@)) by {
                        assert(s2@.validators =~= g->Some_0.validators);
                        assert(s2@ =~= g->Some_0);
                    }
                }
                Some(s2)
            },
        }
    }

    /// Append every enabled action to `actions`: deliveries, proposals for
    /// slots still lacking one, timeout triggers, and the slot advance.
    pub fn actions(&self, state: &TimeoutState, actions: &mut Vec<TimeoutAction>)
        requires
            wf_model(*self),
            wf_state(*self, state@),
        ensures
            final(actions)@ == old(actions)@ + tm_actions(*self, state@),
    {
        let ghost base = actions@;
        let ghost sv = state@;
        let n = self.validator_count;

        let mut i: usize = 0;
        while i < state.network.len()
            invariant
                i <= state.network@.len(),
                sv == state@,
                actions@ == base + deliver_actions(sv.network).subrange(0, i as int),
            decreases state.network@.len() - i,
        {
            actions.push(TimeoutAction::DeliverMessage { msg: state.network[i] });
            proof {
                assert(actions@ =~= base + deliver_actions(sv.network).subrange(0, i as int + 1));
            }
            i = i + 1;
        }
        proof {
            assert(deliver_actions(sv.network).subrange(0, sv.network.len() as int)
                =~= deliver_actions(sv.network));
        }

        let ghost base1 = base + deliver_actions(sv.network);
        let ghost cur = state@.current_slot as int;
        let mut proposer: usize = 0;
        while proposer < n
            invariant
                proposer <= n,
                wf_model(*self),
                sv == state@,
                n == self.validator_count,
                cur == state@.current_slot as int,
                actions@ == base1 + propose_all(sv, proposer as int, cur, self.max_slot as int),
            decreases n - proposer,
        {
            let mut slot: u64 = state.current_slot;
            while slot <= self.max_slot
                invariant
                    state@.current_slot <= slot,
                    slot <= self.max_slot + 1 || slot == state@.current_slot,
                    wf_model(*self),
                    sv == state@,
                    proposer < n,
                    n == self.validator_count,
                    cur == state@.current_slot as int,
                    actions@ == base1 + propose_all(sv, proposer as int, cur, self.max_slot as int)
                        + propose_for(sv, proposer as int, cur, slot as int - 1),
                decreases self.max_slot + 1 - slot,
            {
                if !self.has_proposal(state, slot) {
                    actions.push(TimeoutAction::ProposeBlock { slot, proposer });
                }
                proof {
                    assert(actions@ =~= base1 + propose_all(
                        sv,
                        proposer as int,
                        cur,
                        self.max_slot as int,
                    ) + propose_for(sv, proposer as int, cur, slot as int));
                }
                slot = slot + 1;
            }
            proof {
                if cur > self.max_slot as int {
                    assert(propose_for(sv, proposer as int, cur, self.max_slot as int)
                        =~= propose_for(sv, proposer as int, cur, cur - 1));
                }
            }
            proposer = proposer + 1;
        }

        let ghost base2 = base1 + propose_all(
            sv,
            self.validator_count as int,
            cur,
            self.max_slot as int,
        );
        proof {
            assert(actions@ == base2);
        }
        let mut validator: usize = 0;
        while validator < n
            invariant
                validator <= n,
                wf_model(*self),
                sv == state@,
                n == self.validator_count,
                actions@ == base2 + touts_all(validator as int, self.max_slot as int),
            decreases n - validator,
        {
            let mut slot: u64 = 1;
            while slot <= self.max_slot
                invariant
                    1 <= slot <= self.max_slot + 1,
                    wf_model(*self),
                    sv == state@,
                    validator < n,
                    n == self.validator_count,
                    actions@ == base2 + touts_all(validator as int, self.max_slot as int)
                        + touts_for(validator as int, slot as int - 1),
                decreases self.max_slot + 1 - slot,
            {
                actions.push(TimeoutAction::TriggerTimeout { slot, validator });
                proof {
                    assert(actions@ =~= base2 + touts_all(validator as int, self.max_slot as int)
                        + touts_for(validator as int, slot as int));
                }
                slot = slot + 1;
            }
            validator = validator + 1;
        }

        if state.current_slot < self.max_slot {
            actions.push(TimeoutAction::AdvanceSlot);
        }
        proof {
            assert(actions@ =~= old(actions)@ + tm_actions(*self, state@));
        }
    }

    fn has_proposal(&self, state: &TimeoutState, slot: u64) -> (r: bool)
        ensures
            r == props_has(state@.block_proposals, slot),
    {
        let bp = &state.block_proposals;
        let mut i: usize = 0;
        while i < bp.len()
            invariant
                bp@ == state@.block_proposals,
                i <= bp@.len(),
                forall|j: int| 0 <= j < i ==> bp@[j].slot != slot,
            decreases bp@.len() - i,
        {
            if bp[i].slot == slot {
                return true;
            }
            i = i + 1;
        }
        false
    }

    /// Whether at most one skip certificate exists per slot explored.
    pub fn skip_certificate_uniqueness(&self, state: &TimeoutState) -> (r: bool)
        ensures
            r == prop_skip_certificate_uniqueness(state@),
    {
        state.skip_certificates.len() == 0 || ((state.skip_certificates.len() - 1) as u64)
            <= state.current_slot
    }

    /// Whether every raised bad-window flag has a recent skip certificate.
    pub fn badwindow_consistency(&self, state: &TimeoutState) -> (r: bool)
        ensures
            r == prop_badwindow_consistency(state@),
    {
        let mut has_recent = false;
        let sc = &state.skip_certificates;
        let mut i: usize = 0;
        while i < sc.len()
            invariant
                sc@ == state@.skip_certificates,
                i <= sc@.len(),
                has_recent == exists|j: int|
                    0 <= j < i && state@.current_slot as int - 10 <= #[trigger] sc@[j] as int
                        <= state@.current_slot as int,
            decreases sc@.len() - i,
        {
            let lo_ok = state.current_slot <= 10 || state.current_slot - 10 <= sc[i];
            if lo_ok && sc[i] <= state.current_slot {
                proof {
                    assert(state@.current_slot as int - 10 <= sc@[i as int] as int
                        <= state@.current_slot as int);
                }
                has_recent = true;
            }
            i = i + 1;
        }
        let mut v: usize = 0;
        while v < state.validators.len()
            invariant
                v <= state.validators@.len(),
                has_recent == exists|j: int|
                    0 <= j < state@.skip_certificates.len() && state@.current_slot as int - 10
                        <= #[trigger] state@.skip_certificates[j] as int
                        <= state@.current_slot as int,
                forall|a: int|
                    0 <= a < v ==> ((#[trigger] state@.validators[a]).bad_window ==> exists|j: int|
                        0 <= j < state@.skip_certificates.len() && state@.current_slot as int - 10
                            <= #[trigger] state@.skip_certificates[j] as int
                            <= state@.current_slot as int),
            decreases state.validators@.len() - v,
        {
            proof {
                assert(state@.validators[v as int] == state.validators@[v as int]@);
            }
            if state.validators[v].bad_window && !has_recent {
                return false;
            }
            v = v + 1;
        }
        true
    }

    /// Whether every validator voted at most once per slot.
    pub fn vote_uniqueness(&self, state: &TimeoutState) -> (r: bool)
        ensures
            r == prop_vote_uniqueness(state@),
    {
        let mut v: usize = 0;
        while v < state.validators.len()
            invariant
                v <= state.validators@.len(),
                forall|a: int, i: int, j: int|
                    0 <= a < v && 0 <= i < state@.validators[a].votes_cast.len() && 0 <= j
                        < state@.validators[a].votes_cast.len()
                        && #[trigger] state@.validators[a].votes_cast[i].slot
                        == #[trigger] state@.validators[a].votes_cast[j].slot ==> i == j,
            decreases state.validators@.len() - v,
        {
            proof {
                assert(state@.validators[v as int] == state.validators@[v as int]@);
            }
            let votes = &state.validators[v].votes_cast;
            let mut i: usize = 0;
            while i < votes.len()
                invariant
                    i <= votes@.len(),
                    votes@ == state@.validators[v as int].votes_cast,
                    v < state.validators@.len(),
                    forall|a: int, b: int|
                        0 <= a < i && 0 <= b < votes@.len() && #[trigger] votes@[a].slot
                            == #[trigger] votes@[b].slot ==> a == b,
                decreases votes@.len() - i,
            {
                let mut j: usize = 0;
                while j < votes.len()
                    invariant
                        i < votes@.len(),
                        j <= votes@.len(),
                        votes@ == state@.validators[v as int].votes_cast,
                        v < state.validators@.len(),
                        forall|a: int, b: int|
                            0 <= a < i && 0 <= b < votes@.len() && #[trigger] votes@[a].slot
                                == #[trigger] votes@[b].slot ==> a == b,
                        forall|b: int|
                            0 <= b < j && (#[trigger] votes@[b].slot) == votes@[i as int].slot
                                ==> b == i as int,
                    decreases votes@.len() - j,
                {
                    if j != i && votes[j].slot == votes[i].slot {
                        proof {
                            let sv = state@;
                            assert(sv.validators[v as int].votes_cast[j as int].slot
                                == sv.validators[v as int].votes_cast[i as int].slot);
                            assert(!prop_vote_uniqueness(sv));
                        }
                        return false;
                    }
                    j = j + 1;
                }
                i = i + 1;
            }
            v = v + 1;
        }
        proof {
            assert(prop_vote_uniqueness(state@)) by {
                let sv = state@;
                assert forall|a: int, i: int, j: int|
                    0 <= a < sv.validators.len() && 0 <= i < sv.validators[a].votes_cast.len() && 0
                        <= j < sv.validators[a].votes_cast.len()
                        && #[trigger] sv.validators[a].votes_cast[i].slot
                        == #[trigger] sv.validators[a].votes_cast[j].slot implies i == j by {
                    assert(sv.validators[a].votes_cast[i].slot
                        == sv.validators[a].votes_cast[j].slot);
                }
            }
        }
        true
    }

    /// Whether every local certificate with a pool entry meets the quorum.
    pub fn certificate_threshold(&self, state: &TimeoutState) -> (r: bool)
        requires
            1 <= state@.validators.len() <= 64,
            forall|v: int|
                0 <= v < state@.validators.len() ==> pool_keys_distinct(
                    #[trigger] state@.validators[v].vote_pool,
                ),
        ensures
            r == prop_certificate_threshold(state@),
    {
        let threshold = TOTAL_STAKE * SKIP_CERTIFICATE_THRESHOLD_PERCENT / 100;
        let n = state.validators.len();
        let mut v: usize = 0;
        while v < state.validators.len()
            invariant
                v <= state.validators@.len(),
                1 <= state@.validators.len() <= 64,
                n == state@.validators.len(),
                threshold == spec_threshold(),
                forall|a: int|
                    0 <= a < state@.validators.len() ==> pool_keys_distinct(
                        #[trigger] state@.validators[a].vote_pool,
                    ),
                forall|a: int, c: int|
                    0 <= a < v && 0 <= c < state@.validators[a].certificates.len() && pool_has(
                        state@.validators[a].vote_pool,
                        #[trigger] state@.validators[a].certificates[c],
                    ) ==> spec_quorum(
                        state@.validators.len() as int,
                        pool_voters(
                            state@.validators[a].vote_pool,
                            state@.validators[a].certificates[c],
                        ),
                    ),
            decreases state.validators@.len() - v,
        {
            proof {
                assert(state@.validators[v as int] == state.validators@[v as int]@);
                assert(state@.validators[v as int].vote_pool
                    == state.validators@[v as int].vote_pool@);
                assert(state@.validators[v as int].certificates
                    == state.validators@[v as int].certificates@);
            }
            let certs = &state.validators[v].certificates;
            let mut c: usize = 0;
            while c < certs.len()
                invariant
                    c <= certs@.len(),
                    v < state.validators@.len(),
                    1 <= state@.validators.len() <= 64,
                    n == state@.validators.len(),
                    threshold == spec_threshold(),
                    certs@ == state@.validators[v as int].certificates,
                    state.validators@[v as int].vote_pool@ == state@.validators[v as int].vote_pool,
                    pool_keys_distinct(state@.validators[v as int].vote_pool),
                    forall|a: int, cc: int|
                        0 <= a < v && 0 <= cc < state@.validators[a].certificates.len() && pool_has(
                            state@.validators[a].vote_pool,
                            #[trigger] state@.validators[a].certificates[cc],
                        ) ==> spec_quorum(
                            state@.validators.len() as int,
                            pool_voters(
                                state@.validators[a].vote_pool,
                                state@.validators[a].certificates[cc],
                            ),
                        ),
                    forall|cc: int|
                        0 <= cc < c && pool_has(
                            state@.validators[v as int].vote_pool,
                            #[trigger] state@.validators[v as int].certificates[cc],
                        ) ==> spec_quorum(
                            state@.validators.len() as int,
                            pool_voters(
                                state@.validators[v as int].vote_pool,
                                state@.validators[v as int].certificates[cc],
                            ),
                        ),
                decreases certs@.len() - c,
            {
                let k = certs[c];
                let found = pool_find(&state.validators[v].vote_pool, k);
                match found {
                    Some(pi) => {
                        let voters = state.validators[v].vote_pool[pi].voters;
                        if mask_stake(n, voters) < threshold {
                            proof {
                                let sv = state@;
                                assert(pool_has(sv.validators[v as int].vote_pool, sv.validators[v as int].certificates[c as int]));
                                assert(!prop_certificate_threshold(sv));
                            }
                            return false;
                        }
                    },
                    None => {},
                }
                c = c + 1;
            }
            v = v + 1;
        }
        proof {
            assert(prop_certificate_threshold(state@)) by {
                let sv = state@;
                assert forall|a: int, cc: int|
                    0 <= a < sv.validators.len() && 0 <= cc < sv.validators[a].certificates.len()
                        && pool_has(
                        sv.validators[a].vote_pool,
                        #[trigger] sv.validators[a].certificates[cc],
                    ) implies spec_quorum(
                    sv.validators.len() as int,
                    pool_voters(sv.validators[a].vote_pool, sv.validators[a].certificates[cc]),
                ) by {
                    assert(0 <= a < sv.validators.len());
                }
            }
        }
        true
    }

    /// Evaluate every property on a state; the result lists the violated
    /// ones in a fixed order.
    pub fn check_properties(&self, state: &TimeoutState) -> (r: Vec<TimeoutProperty>)
        requires
            1 <= state@.validators.len() <= 64,
            forall|v: int|
                0 <= v < state@.validators.len() ==> pool_keys_distinct(
                    #[trigger] state@.validators[v].vote_pool,
                ),
        ensures
            r@ == tm_violations(state@),
    {
        let mut r: Vec<TimeoutProperty> = Vec::new();
        if !self.skip_certificate_uniqueness(state) {
            r.push(TimeoutProperty::SkipCertificateUniqueness);
        }
        if !self.badwindow_consistency(state) {
            r.push(TimeoutProperty::BadwindowConsistency);
        }
        if !self.vote_uniqueness(state) {
            r.push(TimeoutProperty::VoteUniqueness);
        }
        if !self.certificate_threshold(state) {
            r.push(TimeoutProperty::CertificateThreshold);
        }
        proof {
            assert(r@ =~= tm_violations(state@));
        }
        r
    }
}

} // verus!
