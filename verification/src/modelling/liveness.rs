//! Liveness model: dual-path finalization under partial responsiveness.
//!
//! Responsive validators vote for proposed blocks.  A block is notarized at
//! a recipient once its responsive voters reach the slow-path threshold;
//! with the fast-path threshold it finalizes in one round, otherwise the
//! recipient casts a second-round vote and the slot finalizes in two rounds
//! once those votes reach the slow-path threshold.  A seeded, deterministic
//! bounded simulation drives one execution to a tick bound and reports
//! whether and in which round a slot finalized.

use crate::certificate::{
    lemma_distinct_remove, lemma_pool_add_distinct, pool_add, pool_add_exec, pool_find, pool_has,
    pool_index, pool_keys_distinct, pool_voters, seq_distinct, PoolEntry, VoteKey,
};
use crate::mask::mask_has;
use crate::stake::{
    lemma_stake_in_subset, spec_quorum_stake, stake_for_mask, stake_in, stake_total,
};
use crate::timeout::{
    lemma_props_update_distinct, props_has, props_index, props_slots_distinct, props_update,
    SlotHash,
};
use crate::util::{copy_vec, set_vec};
use vstd::prelude::*;

verus! {

/// Stake held by all validators together.
pub const TOTAL_STAKE: u64 = 1000;

/// Fast-path threshold: one-round finalization.
pub const FAST_PATH_THRESHOLD_PERCENT: u64 = 80;

/// Slow-path threshold: notarization and second-round finalization.
pub const SLOW_PATH_THRESHOLD_PERCENT: u64 = 60;

/// Messages exchanged in the liveness model.
#[derive(Clone, Copy, Debug, PartialEq, Eq, PartialOrd, Ord, Hash, Structural)]
pub enum LivenessMessage {
    /// A block proposal.
    BlockProposal { slot: u64, hash: u64, proposer: usize },
    /// A first-round vote for a block.
    NotarVote { slot: u64, hash: u64, voter: usize },
    /// A second-round vote towards slow-path finalization.
    FinalVote { slot: u64, voter: usize },
    /// A timeout event.
    TimeoutEvent { slot: u64, validator: usize },
}

/// A message addressed to one validator, waiting in the network.
#[derive(Clone, Copy, Debug, PartialEq, Eq, PartialOrd, Ord, Hash, Structural)]
pub struct MessageInTransit {
    pub dst: usize,
    pub msg: LivenessMessage,
}

/// Actions enabled in the liveness model.
#[derive(Clone, Copy, Debug, PartialEq, Eq, PartialOrd, Ord, Hash, Structural)]
pub enum LivenessAction {
    ProposeBlock { slot: u64, proposer: usize },
    DeliverMessage { msg: MessageInTransit },
    TriggerTimeout { slot: u64, validator: usize },
    AdvanceSlot,
}

/// The round in which a slot finalized.
#[derive(Clone, Copy, Debug, PartialEq, Eq, PartialOrd, Ord, Hash, Structural)]
pub struct SlotTime {
    pub slot: u64,
    pub rounds: u64,
}

/// Per-validator state.
#[derive(Clone, Debug, PartialEq, Eq, Hash)]
pub struct ValidatorState {
    /// Whether this validator answers in time.
    pub is_responsive: bool,
    /// First-round votes and second-round markers cast by this validator.
    pub votes_cast: Vec<VoteKey>,
    /// Votes observed, keyed by what they are for; the skip candidate
    /// collects second-round votes.
    pub vote_pool: Vec<PoolEntry>,
    /// Notarized block per slot, as seen locally.
    pub notarized_slots: Vec<SlotHash>,
    /// Finalized block per slot, as seen locally.
    pub finalized_slots: Vec<SlotHash>,
    /// This validator's view of the slot counter.
    pub current_slot: u64,
}

/// The whole world state of the liveness model.
#[derive(Clone, Debug, PartialEq, Eq, Hash)]
pub struct LivenessState {
    /// Messages in flight, kept without duplicates.
    pub network: Vec<MessageInTransit>,
    /// All validators, indexed by identity.
    pub validators: Vec<ValidatorState>,
    /// Global slot counter.
    pub current_slot: u64,
    /// Stake of each validator, indexed by identity.
    pub stake_distribution: Vec<u64>,
    /// Proposed blocks, one hash per slot.
    pub block_proposals: Vec<SlotHash>,
    /// The round in which each finalized slot finalized: one or two.
    pub finalization_times: Vec<SlotTime>,
}

/// Configuration of the liveness model.
#[derive(Clone, Copy, Debug, PartialEq, Eq, Hash, Structural)]
pub struct LivenessModel {
    pub validator_count: usize,
    pub max_slot: u64,
    pub responsive_count: usize,
}

/// Mathematical view of a validator.
#[verifier::ext_equal]
pub struct ValidatorStateV {
    pub is_responsive: bool,
    pub votes_cast: Seq<VoteKey>,
    pub vote_pool: Seq<PoolEntry>,
    pub notarized_slots: Seq<SlotHash>,
    pub finalized_slots: Seq<SlotHash>,
    pub current_slot: u64,
}

/// Mathematical view of the world state.
#[verifier::ext_equal]
pub struct LivenessStateV {
    pub network: Seq<MessageInTransit>,
    pub validators: Seq<ValidatorStateV>,
    pub current_slot: u64,
    pub stake_distribution: Seq<u64>,
    pub block_proposals: Seq<SlotHash>,
    pub finalization_times: Seq<SlotTime>,
}

impl View for ValidatorState {
    type V = ValidatorStateV;

    open spec fn view(&self) -> ValidatorStateV {
        ValidatorStateV {
            is_responsive: self.is_responsive,
            votes_cast: self.votes_cast@,
            vote_pool: self.vote_pool@,
            notarized_slots: self.notarized_slots@,
            finalized_slots: self.finalized_slots@,
            current_slot: self.current_slot,
        }
    }
}

impl View for LivenessState {
    type V = LivenessStateV;

    open spec fn view(&self) -> LivenessStateV {
        LivenessStateV {
            network: self.network@,
            validators: self.validators@.map_values(|v: ValidatorState| v@),
            current_slot: self.current_slot,
            stake_distribution: self.stake_distribution@,
            block_proposals: self.block_proposals@,
            finalization_times: self.finalization_times@,
        }
    }
}

// ------------------------------------------------------------------
// Spec-level building blocks
// ------------------------------------------------------------------

/// Insert into a duplicate-free message sequence.
pub open spec fn net_insert(net: Seq<MessageInTransit>, m: MessageInTransit) -> Seq<
    MessageInTransit,
> {
    if net.contains(m) {
        net
    } else {
        net.push(m)
    }
}

/// Index of a message in the network.
pub open spec fn net_index(net: Seq<MessageInTransit>, m: MessageInTransit) -> int {
    choose|i: int| 0 <= i < net.len() && net[i] == m
}

/// Broadcast to every validator below `n`, except `skip` (pass `n` as
/// `skip` to broadcast to everyone).
pub open spec fn net_broadcast_except(
    net: Seq<MessageInTransit>,
    msg: LivenessMessage,
    n: int,
    skip: int,
) -> Seq<MessageInTransit>
    decreases n,
{
    if n <= 0 {
        net
    } else {
        let prev = net_broadcast_except(net, msg, n - 1, skip);
        if n - 1 == skip {
            prev
        } else {
            net_insert(prev, MessageInTransit { dst: (n - 1) as usize, msg })
        }
    }
}

/// Mask of responsive validators below `k`.
pub open spec fn responsive_mask(vals: Seq<ValidatorStateV>, k: int) -> u64
    decreases k,
{
    if k <= 0 {
        0u64
    } else {
        responsive_mask(vals, k - 1) | (if vals[k - 1].is_responsive {
            1u64 << ((k - 1) as u64)
        } else {
            0u64
        })
    }
}

/// The slow-path threshold stake.
pub open spec fn spec_slow_threshold() -> int {
    spec_quorum_stake(TOTAL_STAKE, SLOW_PATH_THRESHOLD_PERCENT)
}

/// The fast-path threshold stake.
pub open spec fn spec_fast_threshold() -> int {
    spec_quorum_stake(TOTAL_STAKE, FAST_PATH_THRESHOLD_PERCENT)
}

/// Responsive stake behind the pool entry for `k`.
pub open spec fn spec_backing(s: LivenessStateV, pool: Seq<PoolEntry>, k: VoteKey) -> int {
    let n = s.validators.len() as int;
    stake_in(s.stake_distribution, pool_voters(pool, k) & responsive_mask(s.validators, n), n)
}

/// The deterministic hash a proposer assigns to its block.
pub open spec fn spec_block_hash(slot: u64, proposer: int) -> u64 {
    (slot * 1000 + proposer) as u64
}

/// Mask of responsive validators that recorded a second-round vote for
/// `slot`, below `k`.
pub open spec fn final_vote_mask(vals: Seq<ValidatorStateV>, slot: u64, k: int) -> u64
    decreases k,
{
    if k <= 0 {
        0u64
    } else {
        final_vote_mask(vals, slot, k - 1) | (if vals[k - 1].is_responsive && vals[k
            - 1].votes_cast.contains(VoteKey { slot, hash: None }) {
            1u64 << ((k - 1) as u64)
        } else {
            0u64
        })
    }
}

// ------------------------------------------------------------------
// Well-formedness
// ------------------------------------------------------------------

/// Message fields fit the model bounds.
pub open spec fn wf_message(m: LivenessModel, t: MessageInTransit) -> bool {
    &&& t.dst < m.validator_count
    &&& match t.msg {
        LivenessMessage::BlockProposal { proposer, .. } => proposer < m.validator_count,
        LivenessMessage::NotarVote { voter, .. } => voter < m.validator_count,
        LivenessMessage::FinalVote { voter, .. } => voter < m.validator_count,
        LivenessMessage::TimeoutEvent { validator, .. } => validator < m.validator_count,
    }
}

/// Structural well-formedness of a state.
pub open spec fn wf_state(m: LivenessModel, s: LivenessStateV) -> bool {
    &&& 1 <= m.validator_count <= 64
    &&& s.validators.len() == m.validator_count
    &&& s.stake_distribution.len() == m.validator_count
    &&& stake_total(s.stake_distribution, m.validator_count as int) <= u64::MAX
    &&& seq_distinct(s.network)
    &&& forall|i: int| 0 <= i < s.network.len() ==> wf_message(m, #[trigger] s.network[i])
    &&& forall|v: int|
        0 <= v < s.validators.len() ==> seq_distinct(#[trigger] s.validators[v].votes_cast)
    &&& forall|v: int|
        0 <= v < s.validators.len() ==> pool_keys_distinct(#[trigger] s.validators[v].vote_pool)
    &&& forall|v: int|
        0 <= v < s.validators.len() ==> props_slots_distinct(
            #[trigger] s.validators[v].notarized_slots,
        )
    &&& forall|v: int|
        0 <= v < s.validators.len() ==> props_slots_distinct(
            #[trigger] s.validators[v].finalized_slots,
        )
    &&& props_slots_distinct(s.block_proposals)
    &&& forall|i: int, j: int|
        0 <= i < s.finalization_times.len() && 0 <= j < s.finalization_times.len()
            && #[trigger] s.finalization_times[i].slot == #[trigger] s.finalization_times[j].slot
            ==> i == j
}

/// Bounds under which the model's arithmetic cannot overflow.
pub open spec fn wf_model(m: LivenessModel) -> bool {
    &&& 1 <= m.validator_count <= 64
    &&& m.responsive_count <= m.validator_count
    &&& m.max_slot <= 1000000
}

/// Whether an action refers only to validators and slots that exist.
pub open spec fn wf_action(m: LivenessModel, a: LivenessAction) -> bool {
    match a {
        LivenessAction::ProposeBlock { slot, proposer } => proposer < m.validator_count && slot
            <= m.max_slot,
        LivenessAction::DeliverMessage { msg } => wf_message(m, msg),
        LivenessAction::TriggerTimeout { slot, validator } => validator < m.validator_count,
        LivenessAction::AdvanceSlot => true,
    }
}

// ------------------------------------------------------------------
// The transition function, mathematically
// ------------------------------------------------------------------

/// Deliver a first-round vote to validator `d`: pool it; on the slow-path
/// threshold notarize; on the fast-path threshold finalize in one round;
/// otherwise cast this validator's second-round vote once.
pub open spec fn lv_deliver_notar(
    m: LivenessModel,
    s: LivenessStateV,
    net1: Seq<MessageInTransit>,
    d: int,
    slot: u64,
    hash: u64,
    voter: int,
) -> LivenessStateV {
    let n = m.validator_count as int;
    let v = s.validators[d];
    let k = VoteKey { slot, hash: Some(hash) };
    let pool1 = pool_add(v.vote_pool, k, voter);
    let backing = spec_backing(s, pool1, k);
    if backing >= spec_slow_threshold() {
        let notarized = props_update(v.notarized_slots, slot, hash);
        if backing >= spec_fast_threshold() {
            LivenessStateV {
                network: net1,
                validators: s.validators.update(
                    d,
                    ValidatorStateV {
                        vote_pool: pool1,
                        notarized_slots: notarized,
                        finalized_slots: props_update(v.finalized_slots, slot, hash),
                        ..v
                    },
                ),
                finalization_times: if props_has_time(s.finalization_times, slot) {
                    s.finalization_times
                } else {
                    s.finalization_times.push(SlotTime { slot, rounds: 1 })
                },
                ..s
            }
        } else {
            let fk = VoteKey { slot, hash: None };
            if !v.votes_cast.contains(fk) {
                LivenessStateV {
                    network: net_broadcast_except(
                        net1,
                        LivenessMessage::FinalVote { slot, voter: d as usize },
                        n,
                        n,
                    ),
                    validators: s.validators.update(
                        d,
                        ValidatorStateV {
                            votes_cast: v.votes_cast.push(fk),
                            vote_pool: pool1,
                            notarized_slots: notarized,
                            ..v
                        },
                    ),
                    ..s
                }
            } else {
                LivenessStateV {
                    network: net1,
                    validators: s.validators.update(
                        d,
                        ValidatorStateV { vote_pool: pool1, notarized_slots: notarized, ..v },
                    ),
                    ..s
                }
            }
        }
    } else {
        LivenessStateV {
            network: net1,
            validators: s.validators.update(d, ValidatorStateV { vote_pool: pool1, ..v }),
            ..s
        }
    }
}

/// Whether a finalization time is recorded for `slot`.
pub open spec fn props_has_time(ts: Seq<SlotTime>, slot: u64) -> bool {
    exists|i: int| 0 <= i < ts.len() && ts[i].slot == slot
}

/// Deliver a second-round vote to validator `d`: pool it; on the
/// slow-path threshold over responsive second-round voters, finalize the
/// notarized block in two rounds.
pub open spec fn lv_deliver_final(
    m: LivenessModel,
    s: LivenessStateV,
    net1: Seq<MessageInTransit>,
    d: int,
    slot: u64,
    voter: int,
) -> LivenessStateV {
    let n = m.validator_count as int;
    let v = s.validators[d];
    if s.validators[voter].is_responsive {
        let fk = VoteKey { slot, hash: None };
        let pool1 = pool_add(v.vote_pool, fk, voter);
        let backing = spec_backing(s, pool1, fk);
        if backing >= spec_slow_threshold() && props_has(v.notarized_slots, slot)
            && !props_has_time(s.finalization_times, slot) {
            let hash = v.notarized_slots[props_index(v.notarized_slots, slot)].hash;
            LivenessStateV {
                network: net1,
                validators: s.validators.update(
                    d,
                    ValidatorStateV {
                        vote_pool: pool1,
                        finalized_slots: props_update(v.finalized_slots, slot, hash),
                        ..v
                    },
                ),
                finalization_times: s.finalization_times.push(SlotTime { slot, rounds: 2 }),
                ..s
            }
        } else {
            LivenessStateV {
                network: net1,
                validators: s.validators.update(d, ValidatorStateV { vote_pool: pool1, ..v }),
                ..s
            }
        }
    } else {
        LivenessStateV { network: net1, ..s }
    }
}

/// One transition of the liveness model.
pub open spec fn lv_step(m: LivenessModel, s: LivenessStateV, a: LivenessAction) -> Option<
    LivenessStateV,
> {
    let n = m.validator_count as int;
    match a {
        LivenessAction::ProposeBlock { slot, proposer } => {
            let hash = spec_block_hash(slot, proposer as int);
            Some(
                LivenessStateV {
                    network: net_broadcast_except(
                        s.network,
                        LivenessMessage::BlockProposal { slot, hash, proposer },
                        n,
                        proposer as int,
                    ),
                    block_proposals: props_update(s.block_proposals, slot, hash),
                    ..s
                },
            )
        },
        LivenessAction::DeliverMessage { msg } => {
            if !s.network.contains(msg) {
                None
            } else {
                let net1 = s.network.remove(net_index(s.network, msg));
                let d = msg.dst as int;
                let v = s.validators[d];
                match msg.msg {
                    LivenessMessage::BlockProposal { slot, hash, proposer } => {
                        let k = VoteKey { slot, hash: Some(hash) };
                        if v.is_responsive && !v.votes_cast.contains(k) {
                            Some(
                                LivenessStateV {
                                    network: net_broadcast_except(
                                        net1,
                                        LivenessMessage::NotarVote { slot, hash, voter: msg.dst },
                                        n,
                                        n,
                                    ),
                                    validators: s.validators.update(
                                        d,
                                        ValidatorStateV { votes_cast: v.votes_cast.push(k), ..v },
                                    ),
                                    ..s
                                },
                            )
                        } else {
                            Some(LivenessStateV { network: net1, ..s })
                        }
                    },
                    LivenessMessage::NotarVote { slot, hash, voter } => Some(
                        lv_deliver_notar(m, s, net1, d, slot, hash, voter as int),
                    ),
                    LivenessMessage::FinalVote { slot, voter } => Some(
                        lv_deliver_final(m, s, net1, d, slot, voter as int),
                    ),
                    LivenessMessage::TimeoutEvent { .. } => Some(LivenessStateV { network: net1, ..s }),
                }
            }
        },
        LivenessAction::TriggerTimeout { slot, validator } => Some(
            LivenessStateV {
                network: net_insert(
                    s.network,
                    MessageInTransit {
                        dst: validator,
                        msg: LivenessMessage::TimeoutEvent { slot, validator },
                    },
                ),
                ..s
            },
        ),
        LivenessAction::AdvanceSlot => {
            let slot2 = (s.current_slot + 1) as u64;
            Some(
                LivenessStateV {
                    validators: s.validators.map_values(
                        |v: ValidatorStateV| ValidatorStateV { current_slot: slot2, ..v },
                    ),
                    current_slot: slot2,
                    ..s
                },
            )
        },
    }
}

/// The initial state for a configuration.
pub open spec fn lv_init(validator_count: int, responsive_count: int) -> LivenessStateV {
    let stake = TOTAL_STAKE / validator_count as u64;
    LivenessStateV {
        network: Seq::empty(),
        validators: Seq::new(
            validator_count as nat,
            |i: int|
                ValidatorStateV {
                    is_responsive: i < responsive_count,
                    votes_cast: Seq::empty(),
                    vote_pool: Seq::empty(),
                    notarized_slots: Seq::empty(),
                    finalized_slots: Seq::empty(),
                    current_slot: 0,
                },
        ),
        current_slot: 0,
        stake_distribution: Seq::new(validator_count as nat, |i: int| stake),
        block_proposals: Seq::empty(),
        finalization_times: Seq::empty(),
    }
}

// ------------------------------------------------------------------
// Executable helpers
// ------------------------------------------------------------------

fn net_contains(net: &Vec<MessageInTransit>, m: MessageInTransit) -> (r: bool)
    ensures
        r == net@.contains(m),
{
    let mut i: usize = 0;
    while i < net.len()
        invariant
            i <= net@.len(),
            forall|j: int| 0 <= j < i ==> net@[j] != m,
        decreases net@.len() - i,
    {
        if net[i] == m {
            return true;
        }
        i = i + 1;
    }
    false
}

fn net_insert_exec(net: &mut Vec<MessageInTransit>, m: MessageInTransit)
    ensures
        final(net)@ == net_insert(old(net)@, m),
{
    if !net_contains(net, m) {
        net.push(m);
    }
}

fn net_remove_exec(net: &mut Vec<MessageInTransit>, m: MessageInTransit)
    requires
        seq_distinct(old(net)@),
        old(net)@.contains(m),
    ensures
        final(net)@ == old(net)@.remove(net_index(old(net)@, m)),
{
    let ghost orig = net@;
    proof {
        assert(orig == old(net)@);
    }
    let mut i: usize = 0;
    while i < net.len()
        invariant
            net@ == orig,
            orig == old(net)@,
            seq_distinct(orig),
            i <= net@.len(),
            forall|j: int| 0 <= j < i ==> net@[j] != m,
            net@.contains(m),
        decreases net@.len() - i,
    {
        if net[i] == m {
            proof {
                let ii = net_index(orig, m);
                assert(0 <= ii < orig.len() && orig[ii] == m);
                assert(ii == i as int);
            }
            net.remove(i);
            return ;
        }
        i = i + 1;
    }
    proof {
        let ii = choose|j: int| 0 <= j < orig.len() && orig[j] == m;
        assert(false);
    }
}

fn broadcast_except_exec(
    net: &mut Vec<MessageInTransit>,
    msg: LivenessMessage,
    n: usize,
    skip: usize,
)
    ensures
        final(net)@ == net_broadcast_except(old(net)@, msg, n as int, skip as int),
{
    let mut i: usize = 0;
    while i < n
        invariant
            i <= n,
            net@ == net_broadcast_except(old(net)@, msg, i as int, skip as int),
        decreases n - i,
    {
        if i != skip {
            net_insert_exec(net, MessageInTransit { dst: i, msg });
        }
        i = i + 1;
    }
}

fn keys_contains(keys: &Vec<VoteKey>, k: VoteKey) -> (r: bool)
    ensures
        r == keys@.contains(k),
{
    let mut i: usize = 0;
    while i < keys.len()
        invariant
            i <= keys@.len(),
            forall|j: int| 0 <= j < i ==> keys@[j] != k,
        decreases keys@.len() - i,
    {
        if keys[i] == k {
            return true;
        }
        i = i + 1;
    }
    false
}

fn props_update_exec(bp: &mut Vec<SlotHash>, slot: u64, hash: u64)
    requires
        props_slots_distinct(old(bp)@),
    ensures
        final(bp)@ == props_update(old(bp)@, slot, hash),
{
    let mut i: usize = 0;
    while i < bp.len()
        invariant
            i <= bp@.len(),
            bp@ == old(bp)@,
            props_slots_distinct(bp@),
            forall|j: int| 0 <= j < i ==> bp@[j].slot != slot,
        decreases bp@.len() - i,
    {
        if bp[i].slot == slot {
            proof {
                assert(props_has(bp@, slot));
                let ii = props_index(bp@, slot);
                assert(0 <= ii < bp@.len() && bp@[ii].slot == slot);
            }
            set_vec(bp, i, SlotHash { slot, hash });
            return ;
        }
        i = i + 1;
    }
    proof {
        assert(!props_has(bp@, slot));
    }
    bp.push(SlotHash { slot, hash });
}

fn sh_get(bp: &Vec<SlotHash>, slot: u64) -> (r: Option<u64>)
    requires
        props_slots_distinct(bp@),
    ensures
        match r {
            Some(h) => props_has(bp@, slot) && h == bp@[props_index(bp@, slot)].hash,
            None => !props_has(bp@, slot),
        },
{
    let mut i: usize = 0;
    while i < bp.len()
        invariant
            i <= bp@.len(),
            props_slots_distinct(bp@),
            forall|j: int| 0 <= j < i ==> bp@[j].slot != slot,
        decreases bp@.len() - i,
    {
        if bp[i].slot == slot {
            proof {
                assert(props_has(bp@, slot));
                let ii = props_index(bp@, slot);
                assert(0 <= ii < bp@.len() && bp@[ii].slot == slot);
                assert(ii == i as int);
            }
            return Some(bp[i].hash);
        }
        i = i + 1;
    }
    None
}

fn has_time(ts: &Vec<SlotTime>, slot: u64) -> (r: bool)
    ensures
        r == props_has_time(ts@, slot),
{
    let mut i: usize = 0;
    while i < ts.len()
        invariant
            i <= ts@.len(),
            forall|j: int| 0 <= j < i ==> ts@[j].slot != slot,
        decreases ts@.len() - i,
    {
        if ts[i].slot == slot {
            return true;
        }
        i = i + 1;
    }
    false
}

fn responsive_mask_exec(validators: &Vec<ValidatorState>) -> (r: u64)
    requires
        validators@.len() <= 64,
    ensures
        r == responsive_mask(
            validators@.map_values(|v: ValidatorState| v@),
            validators@.len() as int,
        ),
{
    let ghost vals = validators@.map_values(|v: ValidatorState| v@);
    let mut m: u64 = 0;
    let mut i: usize = 0;
    while i < validators.len()
        invariant
            i <= validators@.len(),
            validators@.len() <= 64,
            vals == validators@.map_values(|v: ValidatorState| v@),
            m == responsive_mask(vals, i as int),
        decreases validators@.len() - i,
    {
        proof {
            assert(vals[i as int] == validators@[i as int]@);
        }
        if validators[i].is_responsive {
            m = m | (1u64 << (i as u64));
        } else {
            proof {
                assert(m | 0u64 == m) by (bit_vector);
            }
        }
        i = i + 1;
    }
    m
}

// ------------------------------------------------------------------
// Executable state
// ------------------------------------------------------------------

impl ValidatorState {
    fn duplicate(&self) -> (r: ValidatorState)
        ensures
            r@ == self@,
    {
        ValidatorState {
            is_responsive: self.is_responsive,
            votes_cast: copy_vec(&self.votes_cast),
            vote_pool: copy_vec(&self.vote_pool),
            notarized_slots: copy_vec(&self.notarized_slots),
            finalized_slots: copy_vec(&self.finalized_slots),
            current_slot: self.current_slot,
        }
    }
}

impl LivenessState {
    /// A fresh copy with the same mathematical value.
    pub fn duplicate(&self) -> (r: LivenessState)
        ensures
            r@ == self@,
    {
        let mut validators: Vec<ValidatorState> = Vec::new();
        let mut i: usize = 0;
        while i < self.validators.len()
            invariant
                i <= self.validators@.len(),
                validators@.len() == i,
                forall|j: int| 0 <= j < i ==> #[trigger] validators@[j]@ == self.validators@[j]@,
            decreases self.validators@.len() - i,
        {
            let v = self.validators[i].duplicate();
            validators.push(v);
            i = i + 1;
        }
        let r = LivenessState {
            network: copy_vec(&self.network),
            validators,
            current_slot: self.current_slot,
            stake_distribution: copy_vec(&self.stake_distribution),
            block_proposals: copy_vec(&self.block_proposals),
            finalization_times: copy_vec(&self.finalization_times),
        };
        proof {
            assert(r@.validators =~= self@.validators);
            assert(r@ =~= self@);
        }
        r
    }

    /// The initial state: the first `responsive_count` validators are
    /// responsive, stake is split evenly, nothing proposed or finalized.
    pub fn new(validator_count: usize, responsive_count: usize) -> (r: LivenessState)
        requires
            1 <= validator_count <= 64,
        ensures
            r@ == lv_init(validator_count as int, responsive_count as int),
    {
        let stake = TOTAL_STAKE / (validator_count as u64);
        let mut validators: Vec<ValidatorState> = Vec::new();
        let mut stake_distribution: Vec<u64> = Vec::new();
        let mut i: usize = 0;
        while i < validator_count
            invariant
                i <= validator_count,
                stake == TOTAL_STAKE / (validator_count as u64),
                validators@.len() == i,
                stake_distribution@.len() == i,
                forall|j: int|
                    0 <= j < i ==> #[trigger] validators@[j]@ == lv_init(
                        validator_count as int,
                        responsive_count as int,
                    ).validators[j],
                forall|j: int| 0 <= j < i ==> #[trigger] stake_distribution@[j] == stake,
            decreases validator_count - i,
        {
            validators.push(
                ValidatorState {
                    is_responsive: i < responsive_count,
                    votes_cast: Vec::new(),
                    vote_pool: Vec::new(),
                    notarized_slots: Vec::new(),
                    finalized_slots: Vec::new(),
                    current_slot: 0,
                },
            );
            stake_distribution.push(stake);
            proof {
                assert(validators@[i as int]@ =~= lv_init(
                    validator_count as int,
                    responsive_count as int,
                ).validators[i as int]);
            }
            i = i + 1;
        }
        let r = LivenessState {
            network: Vec::new(),
            validators,
            current_slot: 0,
            stake_distribution,
            block_proposals: Vec::new(),
            finalization_times: Vec::new(),
        };
        proof {
            let gi = lv_init(validator_count as int, responsive_count as int);
            assert(r@.validators =~= gi.validators);
            assert(r@.stake_distribution =~= gi.stake_distribution);
            assert(r@ =~= gi);
        }
        r
    }

    /// Whether the responsive voters behind `(slot, hash)` in the first
    /// validator's pool reach the slow-path threshold.
    pub fn can_notarize(&self, slot: u64, hash: u64) -> (r: bool)
        requires
            1 <= self@.validators.len() <= 64,
            self@.stake_distribution.len() == self@.validators.len(),
            stake_total(self@.stake_distribution, self@.validators.len() as int) <= u64::MAX,
            pool_keys_distinct(self@.validators[0].vote_pool),
        ensures
            r == (pool_has(self@.validators[0].vote_pool, VoteKey { slot, hash: Some(hash) })
                && spec_backing(
                self@,
                self@.validators[0].vote_pool,
                VoteKey { slot, hash: Some(hash) },
            ) >= spec_slow_threshold()),
    {
        self.backing_reaches(slot, hash, TOTAL_STAKE * SLOW_PATH_THRESHOLD_PERCENT / 100)
    }

    /// Whether the responsive voters behind `(slot, hash)` in the first
    /// validator's pool reach the fast-path threshold.
    pub fn can_fast_finalize(&self, slot: u64, hash: u64) -> (r: bool)
        requires
            1 <= self@.validators.len() <= 64,
            self@.stake_distribution.len() == self@.validators.len(),
            stake_total(self@.stake_distribution, self@.validators.len() as int) <= u64::MAX,
            pool_keys_distinct(self@.validators[0].vote_pool),
        ensures
            r == (pool_has(self@.validators[0].vote_pool, VoteKey { slot, hash: Some(hash) })
                && spec_backing(
                self@,
                self@.validators[0].vote_pool,
                VoteKey { slot, hash: Some(hash) },
            ) >= spec_fast_threshold()),
    {
        self.backing_reaches(slot, hash, TOTAL_STAKE * FAST_PATH_THRESHOLD_PERCENT / 100)
    }

    fn backing_reaches(&self, slot: u64, hash: u64, threshold: u64) -> (r: bool)
        requires
            1 <= self@.validators.len() <= 64,
            self@.stake_distribution.len() == self@.validators.len(),
            stake_total(self@.stake_distribution, self@.validators.len() as int) <= u64::MAX,
            pool_keys_distinct(self@.validators[0].vote_pool),
        ensures
            r == (pool_has(self@.validators[0].vote_pool, VoteKey { slot, hash: Some(hash) })
                && spec_backing(
                self@,
                self@.validators[0].vote_pool,
                VoteKey { slot, hash: Some(hash) },
            ) >= threshold),
    {
        let k = VoteKey { slot, hash: Some(hash) };
        proof {
            assert(self@.validators[0] == self.validators@[0]@);
            assert(self@.validators[0].vote_pool == self.validators@[0].vote_pool@);
        }
        let found = pool_find(&self.validators[0].vote_pool, k);
        match found {
            Some(i) => {
                let voters = self.validators[0].vote_pool[i].voters;
                let resp = responsive_mask_exec(&self.validators);
                let backing = stake_for_mask(&self.stake_distribution, voters & resp);
                backing >= threshold
            },
            None => false,
        }
    }

    /// Whether the responsive validators that recorded a second-round vote
    /// for `slot` reach the slow-path threshold.
    pub fn can_slow_finalize(&self, slot: u64) -> (r: bool)
        requires
            1 <= self@.validators.len() <= 64,
            self@.stake_distribution.len() == self@.validators.len(),
            stake_total(self@.stake_distribution, self@.validators.len() as int) <= u64::MAX,
        ensures
            r == (stake_in(
                self@.stake_distribution,
                final_vote_mask(self@.validators, slot, self@.validators.len() as int),
                self@.validators.len() as int,
            ) >= spec_slow_threshold()),
    {
        let ghost vals = self@.validators;
        let fk = VoteKey { slot, hash: None };
        let mut m: u64 = 0;
        let mut i: usize = 0;
        while i < self.validators.len()
            invariant
                i <= self.validators@.len(),
                self.validators@.len() <= 64,
                vals == self@.validators,
                fk == (VoteKey { slot, hash: None }),
                m == final_vote_mask(vals, slot, i as int),
            decreases self.validators@.len() - i,
        {
            proof {
                assert(vals[i as int] == self.validators@[i as int]@);
            }
            if self.validators[i].is_responsive && keys_contains(
                &self.validators[i].votes_cast,
                fk,
            ) {
                m = m | (1u64 << (i as u64));
            } else {
                proof {
                    assert(m | 0u64 == m) by (bit_vector);
                }
            }
            i = i + 1;
        }
        let backing = stake_for_mask(&self.stake_distribution, m);
        backing >= TOTAL_STAKE * SLOW_PATH_THRESHOLD_PERCENT / 100
    }
}

// ------------------------------------------------------------------
// The model, executably
// ------------------------------------------------------------------

impl LivenessModel {
    /// The single initial state of the model.
    pub fn init_states(&self) -> (r: Vec<LivenessState>)
        requires
            1 <= self.validator_count <= 64,
        ensures
            r@.len() == 1,
            r@[0]@ == lv_init(self.validator_count as int, self.responsive_count as int),
    {
        let mut r: Vec<LivenessState> = Vec::new();
        r.push(LivenessState::new(self.validator_count, self.responsive_count));
        r
    }

    /// Deliver a first-round vote; see `lv_deliver_notar`.
    fn apply_notar(&self, s2: &mut LivenessState, d: usize, slot: u64, hash: u64, voter: usize)
        requires
            wf_state(*self, old(s2)@),
            d < self.validator_count,
            voter < 64,
        ensures
            final(s2)@ == lv_deliver_notar(
                *self,
                old(s2)@,
                old(s2)@.network,
                d as int,
                slot,
                hash,
                voter as int,
            ),
    {
        let k = VoteKey { slot, hash: Some(hash) };
        let vold = &s2.validators[d];
        let ghost oldv = vold@;
        proof {
            assert(old(s2)@.validators[d as int] == oldv);
            assert(pool_keys_distinct(oldv.vote_pool));
            assert(props_slots_distinct(old(s2)@.validators[d as int].notarized_slots));
            assert(props_slots_distinct(old(s2)@.validators[d as int].finalized_slots));
            assert(seq_distinct(old(s2)@.validators[d as int].votes_cast));
        }
        let mut pool = copy_vec(&vold.vote_pool);
        pool_add_exec(&mut pool, k, voter);
        proof {
            lemma_pool_add_distinct(oldv.vote_pool, k, voter as int);
            assert(pool_has(pool@, k)) by {
                let p0 = oldv.vote_pool;
                if pool_has(p0, k) {
                    let i = pool_index(p0, k);
                    assert(pool@[i].key == k);
                } else {
                    assert(pool@[p0.len() as int].key == k);
                }
            }
        }
        let found = pool_find(&pool, k);
        let i = match found {
            Some(i) => i,
            None => {
                proof {
                    assert(false);
                }
                0
            },
        };
        let voters = pool[i].voters;
        let resp = responsive_mask_exec(&s2.validators);
        proof {
            assert(s2@.validators == old(s2)@.validators);
        }
        let backing = stake_for_mask(&s2.stake_distribution, voters & resp);
        let slow = TOTAL_STAKE * SLOW_PATH_THRESHOLD_PERCENT / 100;
        let fast = TOTAL_STAKE * FAST_PATH_THRESHOLD_PERCENT / 100;
        let fk = VoteKey { slot, hash: None };
        let vold = &s2.validators[d];
        if backing >= slow {
            if backing >= fast {
                let nv = ValidatorState {
                    is_responsive: vold.is_responsive,
                    votes_cast: copy_vec(&vold.votes_cast),
                    vote_pool: pool,
                    notarized_slots: {
                        let mut c = copy_vec(&vold.notarized_slots);
                        props_update_exec(&mut c, slot, hash);
                        c
                    },
                    finalized_slots: {
                        let mut c = copy_vec(&vold.finalized_slots);
                        props_update_exec(&mut c, slot, hash);
                        c
                    },
                    current_slot: vold.current_slot,
                };
                set_vec(&mut s2.validators, d, nv);
                if !has_time(&s2.finalization_times, slot) {
                    s2.finalization_times.push(SlotTime { slot, rounds: 1 });
                }
            } else if !keys_contains(&vold.votes_cast, fk) {
                let nv = ValidatorState {
                    is_responsive: vold.is_responsive,
                    votes_cast: {
                        let mut c = copy_vec(&vold.votes_cast);
                        c.push(fk);
                        c
                    },
                    vote_pool: pool,
                    notarized_slots: {
                        let mut c = copy_vec(&vold.notarized_slots);
                        props_update_exec(&mut c, slot, hash);
                        c
                    },
                    finalized_slots: copy_vec(&vold.finalized_slots),
                    current_slot: vold.current_slot,
                };
                set_vec(&mut s2.validators, d, nv);
                broadcast_except_exec(
                    &mut s2.network,
                    LivenessMessage::FinalVote { slot, voter: d },
                    self.validator_count,
                    self.validator_count,
                );
            } else {
                let nv = ValidatorState {
                    is_responsive: vold.is_responsive,
                    votes_cast: copy_vec(&vold.votes_cast),
                    vote_pool: pool,
                    notarized_slots: {
                        let mut c = copy_vec(&vold.notarized_slots);
                        props_update_exec(&mut c, slot, hash);
                        c
                    },
                    finalized_slots: copy_vec(&vold.finalized_slots),
                    current_slot: vold.current_slot,
                };
                set_vec(&mut s2.validators, d, nv);
            }
        } else {
            let nv = ValidatorState {
                is_responsive: vold.is_responsive,
                votes_cast: copy_vec(&vold.votes_cast),
                vote_pool: pool,
                notarized_slots: copy_vec(&vold.notarized_slots),
                finalized_slots: copy_vec(&vold.finalized_slots),
                current_slot: vold.current_slot,
            };
            set_vec(&mut s2.validators, d, nv);
        }
        proof {
            let g = lv_deliver_notar(
                *self,
                old(s2)@,
                old(s2)@.network,
                d as int,
                slot,
                hash,
                voter as int,
            );
            assert(s2@.validators =~= g.validators);
            assert(s2@ =~= g);
        }
    }

    /// Deliver a second-round vote; see `lv_deliver_final`.
    fn apply_final(&self, s2: &mut LivenessState, d: usize, slot: u64, voter: usize)
        requires
            wf_state(*self, old(s2)@),
            d < self.validator_count,
            voter < self.validator_count,
            voter < 64,
        ensures
            final(s2)@ == lv_deliver_final(
                *self,
                old(s2)@,
                old(s2)@.network,
                d as int,
                slot,
                voter as int,
            ),
    {
        proof {
            assert(old(s2)@.validators[voter as int] == s2.validators@[voter as int]@);
            assert(old(s2)@.validators[d as int] == s2.validators@[d as int]@);
        }
        if !s2.validators[voter].is_responsive {
            return ;
        }
        let fk = VoteKey { slot, hash: None };
        let vold = &s2.validators[d];
        let ghost oldv = vold@;
        proof {
            assert(old(s2)@.validators[d as int] == oldv);
            assert(pool_keys_distinct(oldv.vote_pool));
            assert(props_slots_distinct(old(s2)@.validators[d as int].notarized_slots));
            assert(props_slots_distinct(old(s2)@.validators[d as int].finalized_slots));
        }
        let mut pool = copy_vec(&vold.vote_pool);
        pool_add_exec(&mut pool, fk, voter);
        proof {
            lemma_pool_add_distinct(oldv.vote_pool, fk, voter as int);
            assert(pool_has(pool@, fk)) by {
                let p0 = oldv.vote_pool;
                if pool_has(p0, fk) {
                    let i = pool_index(p0, fk);
                    assert(pool@[i].key == fk);
                } else {
                    assert(pool@[p0.len() as int].key == fk);
                }
            }
        }
        let found = pool_find(&pool, fk);
        let i = match found {
            Some(i) => i,
            None => {
                proof {
                    assert(false);
                }
                0
            },
        };
        let voters = pool[i].voters;
        let resp = responsive_mask_exec(&s2.validators);
        proof {
            assert(s2@.validators == old(s2)@.validators);
        }
        let backing = stake_for_mask(&s2.stake_distribution, voters & resp);
        let slow = TOTAL_STAKE * SLOW_PATH_THRESHOLD_PERCENT / 100;
        let vold = &s2.validators[d];
        let notarized = sh_get(&vold.notarized_slots, slot);
        let finalize = backing >= slow && notarized.is_some() && !has_time(
            &s2.finalization_times,
            slot,
        );
        if finalize {
            let hash = match notarized {
                Some(h) => h,
                None => {
                    proof {
                        assert(false);
                    }
                    0
                },
            };
            let nv = ValidatorState {
                is_responsive: vold.is_responsive,
                votes_cast: copy_vec(&vold.votes_cast),
                vote_pool: pool,
                notarized_slots: copy_vec(&vold.notarized_slots),
                finalized_slots: {
                    let mut c = copy_vec(&vold.finalized_slots);
                    props_update_exec(&mut c, slot, hash);
                    c
                },
                current_slot: vold.current_slot,
            };
            set_vec(&mut s2.validators, d, nv);
            s2.finalization_times.push(SlotTime { slot, rounds: 2 });
        } else {
            let nv = ValidatorState {
                is_responsive: vold.is_responsive,
                votes_cast: copy_vec(&vold.votes_cast),
                vote_pool: pool,
                notarized_slots: copy_vec(&vold.notarized_slots),
                finalized_slots: copy_vec(&vold.finalized_slots),
                current_slot: vold.current_slot,
            };
            set_vec(&mut s2.validators, d, nv);
        }
        proof {
            let g = lv_deliver_final(*self, old(s2)@, old(s2)@.network, d as int, slot, voter as int);
            assert(s2@.validators =~= g.validators);
            assert(s2@ =~= g);
        }
    }

    /// The unique successor of `last_state` under `action`, or `None` when
    /// the action delivers a message no longer in flight.
    pub fn next_state(&self, last_state: &LivenessState, action: LivenessAction) -> (r: Option<
        LivenessState,
    >)
        requires
            wf_model(*self),
            wf_state(*self, last_state@),
            wf_action(*self, action),
            action is AdvanceSlot ==> last_state@.current_slot < u64::MAX,
        ensures
            match r {
                Some(s2) => lv_step(*self, last_state@, action) == Some(s2@),
                None => lv_step(*self, last_state@, action) is None,
            },
    {
        match action {
            LivenessAction::ProposeBlock { slot, proposer } => {
                let mut s2 = last_state.duplicate();
                let hash = slot * 1000 + (proposer as u64);
                props_update_exec(&mut s2.block_proposals, slot, hash);
                broadcast_except_exec(
                    &mut s2.network,
                    LivenessMessage::BlockProposal { slot, hash, proposer },
                    self.validator_count,
                    proposer,
                );
                proof {
                    let g = lv_step(*self, last_state@, action);
                    assert(g == Some(s2@)) by {
                        assert(s2@ =~= g->Some_0);
                    }
                }
                Some(s2)
            },
            LivenessAction::DeliverMessage { msg } => {
                if !net_contains(&last_state.network, msg) {
                    return None;
                }
                let mut s2 = last_state.duplicate();
                net_remove_exec(&mut s2.network, msg);
                proof {
                    lemma_distinct_remove(last_state@.network, net_index(last_state@.network, msg));
                }
                let d = msg.dst;
                match msg.msg {
                    LivenessMessage::BlockProposal { slot, hash, proposer } => {
                        proof {
                            assert(last_state@.validators[d as int] == s2.validators@[d as int]@);
                        }
                        let k = VoteKey { slot, hash: Some(hash) };
                        if s2.validators[d].is_responsive && !keys_contains(
                            &s2.validators[d].votes_cast,
                            k,
                        ) {
                            let vold = &s2.validators[d];
                            let mut votes_cast = copy_vec(&vold.votes_cast);
                            votes_cast.push(k);
                            let nv = ValidatorState {
                                is_responsive: vold.is_responsive,
                                votes_cast,
                                vote_pool: copy_vec(&vold.vote_pool),
                                notarized_slots: copy_vec(&vold.notarized_slots),
                                finalized_slots: copy_vec(&vold.finalized_slots),
                                current_slot: vold.current_slot,
                            };
                            set_vec(&mut s2.validators, d, nv);
                            broadcast_except_exec(
                                &mut s2.network,
                                LivenessMessage::NotarVote { slot, hash, voter: d },
                                self.validator_count,
                                self.validator_count,
                            );
                        }
                    },
                    LivenessMessage::NotarVote { slot, hash, voter } => {
                        self.apply_notar(&mut s2, d, slot, hash, voter);
                    },
                    LivenessMessage::FinalVote { slot, voter } => {
                        self.apply_final(&mut s2, d, slot, voter);
                    },
                    LivenessMessage::TimeoutEvent { .. } => {},
                }
                proof {
                    let g = lv_step(*self, last_state@, action);
                    assert(g == Some(s2@)) by {
                        assert(g is Some);
                        assert(s2@ =~= g->Some_0);
                    }
                }
                Some(s2)
            },
            LivenessAction::TriggerTimeout { slot, validator } => {
                let mut s2 = last_state.duplicate();
                net_insert_exec(
                    &mut s2.network,
                    MessageInTransit {
                        dst: validator,
                        msg: LivenessMessage::TimeoutEvent { slot, validator },
                    },
                );
                proof {
                    let g = lv_step(*self, last_state@, action);
                    assert(g == Some(s2@)) by {
                        assert(s2@ =~= g->Some_0);
                    }
                }
                Some(s2)
            },
            LivenessAction::AdvanceSlot => {
                let mut s2 = last_state.duplicate();
                let slot2 = s2.current_slot + 1;
                s2.current_slot = slot2;
                let mut i: usize = 0;
                while i < s2.validators.len()
                    invariant
                        i <= s2.validators@.len(),
                        s2.validators@.len() == last_state@.validators.len(),
                        s2@.network == last_state@.network,
                        s2@.stake_distribution == last_state@.stake_distribution,
                        s2@.block_proposals == last_state@.block_proposals,
                        s2@.finalization_times == last_state@.finalization_times,
                        s2@.current_slot == slot2,
                        slot2 == last_state@.current_slot + 1,
                        forall|j: int|
                            0 <= j < i ==> #[trigger] s2.validators@[j]@ == (ValidatorStateV {
                                current_slot: slot2,
                                ..last_state@.validators[j]
                            }),
                        forall|j: int|
                            i <= j < s2.validators@.len() ==> #[trigger] s2.validators@[j]@
                                == last_state@.validators[j],
                    decreases s2.validators@.len() - i,
                {
                    proof {
                        assert(s2.validators@[i as int]@ == last_state@.validators[i as int]);
                    }
                    let vold = &s2.validators[i];
                    let nv = ValidatorState {
                        is_responsive: vold.is_responsive,
                        votes_cast: copy_vec(&vold.votes_cast),
                        vote_pool: copy_vec(&vold.vote_pool),
                        notarized_slots: copy_vec(&vold.notarized_slots),
                        finalized_slots: copy_vec(&vold.finalized_slots),
                        current_slot: slot2,
                    };
                    set_vec(&mut s2.validators, i, nv);
                    proof {
                        assert(s2.validators@[i as int]@ =~= (ValidatorStateV {
                            current_slot: slot2,
                            ..last_state@.validators[i as int]
                        }));
                    }
                    i = i + 1;
                }
                proof {
                    let g = lv_step(*self, last_state@, action);
                    assert(g == Some(s2@)) by {
                        assert(s2@.validators =~= g->Some_0.validators);
                        assert(s2@ =~= g->Some_0);
                    }
                }
                Some(s2)
            },
        }
    }
}

// ------------------------------------------------------------------
// Properties
// ------------------------------------------------------------------

/// Progress under sufficient responsive stake.  A single state cannot
/// refute bounded-horizon progress, so as a state predicate this check
/// holds degenerately; progress itself is exercised by the bounded
/// simulation.
pub open spec fn prop_progress_guarantee(s: LivenessStateV) -> bool {
    true
}

/// Fast-path completion under high responsive stake; degenerate as a
/// state predicate for the same reason, exercised by the simulation.
pub open spec fn prop_fast_path_completion(s: LivenessStateV) -> bool {
    true
}

/// Every recorded finalization took one round (fast path) or two rounds
/// (slow path), never more.
pub open spec fn prop_bounded_finalization(s: LivenessStateV) -> bool {
    forall|i: int|
        0 <= i < s.finalization_times.len() ==> 1 <= (#[trigger] s.finalization_times[i]).rounds
            <= 2
}

/// With a strict majority of responsive stake past the slow-path
/// threshold, every slot up to the third that the search has passed shows
/// progress at some validator.
/// Some validator has notarized or finalized `slot`.
pub open spec fn slot_progress(s: LivenessStateV, slot: u64) -> bool {
    exists|v: int|
        0 <= v < s.validators.len() && (props_has(
            (#[trigger] s.validators[v]).notarized_slots,
            slot,
        ) || props_has(s.validators[v].finalized_slots, slot))
}

pub open spec fn prop_liveness_partial_sync(s: LivenessStateV) -> bool {
    let n = s.validators.len() as int;
    stake_in(s.stake_distribution, responsive_mask(s.validators, n), n) > spec_slow_threshold()
        ==> forall|slot: u64|
        1 <= slot <= 3 && slot <= s.current_slot ==> #[trigger] slot_progress(s, slot)
}

/// The invariants checked at every visited state.
#[derive(Clone, Copy, Debug, PartialEq, Eq, PartialOrd, Ord, Hash, Structural)]
pub enum LivenessProperty {
    ProgressGuarantee,
    FastPathCompletion,
    BoundedFinalization,
    LivenessPartialSync,
}

/// The properties violated in `s`, in a fixed order.
pub open spec fn lv_violations(s: LivenessStateV) -> Seq<LivenessProperty> {
    (if !prop_bounded_finalization(s) {
        seq![LivenessProperty::BoundedFinalization]
    } else {
        Seq::empty()
    }) + (if !prop_liveness_partial_sync(s) {
        seq![LivenessProperty::LivenessPartialSync]
    } else {
        Seq::empty()
    })
}

impl LivenessModel {
    /// Progress under sufficient responsive stake; see
    /// `prop_progress_guarantee`.
    pub fn progress_guarantee(&self, state: &LivenessState) -> (r: bool)
        ensures
            r == prop_progress_guarantee(state@),
    {
        true
    }

    /// Fast-path completion under high responsive stake; see
    /// `prop_fast_path_completion`.
    pub fn fast_path_completion(&self, state: &LivenessState) -> (r: bool)
        ensures
            r == prop_fast_path_completion(state@),
    {
        true
    }

    /// Whether every recorded finalization took one or two rounds.
    pub fn bounded_finalization(&self, state: &LivenessState) -> (r: bool)
        ensures
            r == prop_bounded_finalization(state@),
    {
        let ts = &state.finalization_times;
        let mut i: usize = 0;
        while i < ts.len()
            invariant
                ts@ == state@.finalization_times,
                i <= ts@.len(),
                forall|j: int| 0 <= j < i ==> 1 <= (#[trigger] ts@[j]).rounds <= 2,
            decreases ts@.len() - i,
        {
            if ts[i].rounds < 1 || ts[i].rounds > 2 {
                return false;
            }
            i = i + 1;
        }
        true
    }

    /// Whether every early slot the search has passed shows progress,
    /// under a strict responsive majority.
    pub fn liveness_partial_sync(&self, state: &LivenessState) -> (r: bool)
        requires
            state@.validators.len() <= 64,
            state@.stake_distribution.len() == state@.validators.len(),
            stake_total(state@.stake_distribution, state@.validators.len() as int) <= u64::MAX,
        ensures
            r == prop_liveness_partial_sync(state@),
    {
        let resp = responsive_mask_exec(&state.validators);
        let responsive_stake = stake_for_mask(&state.stake_distribution, resp);
        if responsive_stake <= TOTAL_STAKE * SLOW_PATH_THRESHOLD_PERCENT / 100 {
            return true;
        }
        let mut slot: u64 = 1;
        while slot <= 3
            invariant
                1 <= slot <= 4,
                state@.validators.len() <= 64,
                stake_in(
                    state@.stake_distribution,
                    responsive_mask(state@.validators, state@.validators.len() as int),
                    state@.validators.len() as int,
                ) > spec_slow_threshold(),
                forall|sl: u64|
                    1 <= sl < slot && sl <= state@.current_slot ==> #[trigger] slot_progress(
                        state@,
                        sl,
                    ),
            decreases 4 - slot,
        {
            if slot <= state.current_slot {
                let mut found = false;
                let mut v: usize = 0;
                while v < state.validators.len()
                    invariant
                        v <= state.validators@.len(),
                        1 <= slot <= 3,
                        found ==> slot_progress(state@, slot),
                        !found ==> forall|a: int|
                            0 <= a < v ==> !props_has(
                                (#[trigger] state@.validators[a]).notarized_slots,
                                slot,
                            ) && !props_has(state@.validators[a].finalized_slots, slot),
                    decreases state.validators@.len() - v,
                {
                    proof {
                        assert(state@.validators[v as int] == state.validators@[v as int]@);
                    }
                    if !found {
                        let has_n = self.slots_contain(&state.validators[v].notarized_slots, slot);
                        let has_f = self.slots_contain(&state.validators[v].finalized_slots, slot);
                        if has_n || has_f {
                            found = true;
                        }
                    }
                    v = v + 1;
                }
                if !found {
                    proof {
                        assert(!slot_progress(state@, slot)) by {
                            if slot_progress(state@, slot) {
                                let a = choose|a: int|
                                    0 <= a < state@.validators.len() && (props_has(
                                        (#[trigger] state@.validators[a]).notarized_slots,
                                        slot,
                                    ) || props_has(state@.validators[a].finalized_slots, slot));
                                assert(false);
                            }
                        }
                        assert(!prop_liveness_partial_sync(state@));
                    }
                    return false;
                }
            }
            slot = slot + 1;
        }
        proof {
            assert(prop_liveness_partial_sync(state@)) by {
                assert forall|sl: u64|
                    1 <= sl <= 3 && sl <= state@.current_slot implies #[trigger] slot_progress(
                    state@,
                    sl,
                ) by {
                    assert(1 <= sl < 4);
                }
            }
        }
        true
    }

    fn slots_contain(&self, bp: &Vec<SlotHash>, slot: u64) -> (r: bool)
        ensures
            r == props_has(bp@, slot),
    {
        let mut i: usize = 0;
        while i < bp.len()
            invariant
                i <= bp@.len(),
                forall|j: int| 0 <= j < i ==> bp@[j].slot != slot,
            decreases bp@.len() - i,
        {
            if bp[i].slot == slot {
                return true;
            }
            i = i + 1;
        }
        false
    }

    /// Evaluate every property on a state; the result lists the violated
    /// ones in a fixed order.  The two degenerate progress checks can
    /// never fire and contribute nothing.
    pub fn check_properties(&self, state: &LivenessState) -> (r: Vec<LivenessProperty>)
        requires
            state@.validators.len() <= 64,
            state@.stake_distribution.len() == state@.validators.len(),
            stake_total(state@.stake_distribution, state@.validators.len() as int) <= u64::MAX,
        ensures
            r@ == lv_violations(state@),
    {
        let mut r: Vec<LivenessProperty> = Vec::new();
        if !self.bounded_finalization(state) {
            r.push(LivenessProperty::BoundedFinalization);
        }
        if !self.liveness_partial_sync(state) {
            r.push(LivenessProperty::LivenessPartialSync);
        }
        proof {
            assert(r@ =~= lv_violations(state@));
        }
        r
    }
}

// ------------------------------------------------------------------
// Action generation
// ------------------------------------------------------------------

/// One delivery action for every message in flight.
pub open spec fn deliver_actions(net: Seq<MessageInTransit>) -> Seq<LivenessAction> {
    Seq::new(net.len(), |i: int| LivenessAction::DeliverMessage { msg: net[i] })
}

/// Proposals for one slot by the proposers below `k`, offered only while
/// the slot has no proposal.
pub open spec fn propose_props(s: LivenessStateV, slot: u64, k: int) -> Seq<LivenessAction>
    decreases k,
{
    if k <= 0 {
        Seq::empty()
    } else {
        propose_props(s, slot, k - 1) + (if !props_has(s.block_proposals, slot) {
            seq![LivenessAction::ProposeBlock { slot, proposer: (k - 1) as usize }]
        } else {
            Seq::empty()
        })
    }
}

/// Proposals for the slots in `[cur, hi]`.
pub open spec fn propose_slots(s: LivenessStateV, n: int, cur: int, hi: int) -> Seq<LivenessAction>
    decreases hi - cur + 1,
{
    if hi < cur {
        Seq::empty()
    } else {
        propose_slots(s, n, cur, hi - 1) + propose_props(s, hi as u64, n)
    }
}

/// Timeout triggers for one slot at the validators below `k`.
pub open spec fn touts_vals(slot: u64, k: int) -> Seq<LivenessAction>
    decreases k,
{
    if k <= 0 {
        Seq::empty()
    } else {
        touts_vals(slot, k - 1) + seq![
            LivenessAction::TriggerTimeout { slot, validator: (k - 1) as usize },
        ]
    }
}

/// Timeout triggers for the slots `1..=sl`.
pub open spec fn touts_slots(n: int, sl: int) -> Seq<LivenessAction>
    decreases sl,
{
    if sl <= 0 {
        Seq::empty()
    } else {
        touts_slots(n, sl - 1) + touts_vals(sl as u64, n)
    }
}

/// Every action enabled in `s`, in generation order.
pub open spec fn lv_actions(m: LivenessModel, s: LivenessStateV) -> Seq<LivenessAction> {
    deliver_actions(s.network) + propose_slots(
        s,
        m.validator_count as int,
        s.current_slot as int,
        m.max_slot as int,
    ) + touts_slots(m.validator_count as int, m.max_slot as int) + (if s.current_slot < m.max_slot {
        seq![LivenessAction::AdvanceSlot]
    } else {
        Seq::empty()
    })
}

impl LivenessModel {
    /// Append every enabled action to `actions`: deliveries, proposals,
    /// timeout triggers, and the slot advance.
    pub fn actions(&self, state: &LivenessState, actions: &mut Vec<LivenessAction>)
        requires
            wf_model(*self),
            wf_state(*self, state@),
        ensures
            final(actions)@ == old(actions)@ + lv_actions(*self, state@),
    {
        let ghost base = actions@;
        let ghost sv = state@;
        let n = self.validator_count;

        let mut i: usize = 0;
        while i < state.network.len()
            invariant
                i <= state.network@.len(),
                sv == state@,
                actions@ == base + deliver_actions(sv.network).subrange(0, i as int),
            decreases state.network@.len() - i,
        {
            actions.push(LivenessAction::DeliverMessage { msg: state.network[i] });
            proof {
                assert(actions@ =~= base + deliver_actions(sv.network).subrange(0, i as int + 1));
            }
            i = i + 1;
        }
        proof {
            assert(deliver_actions(sv.network).subrange(0, sv.network.len() as int)
                =~= deliver_actions(sv.network));
        }

        let ghost base1 = base + deliver_actions(sv.network);
        let ghost cur = state@.current_slot as int;
        let mut slot: u64 = state.current_slot;
        while slot <= self.max_slot
            invariant
                state@.current_slot <= slot,
                slot <= self.max_slot + 1 || slot == state@.current_slot,
                wf_model(*self),
                wf_state(*self, state@),
                sv == state@,
                n == self.validator_count,
                cur == state@.current_slot as int,
                actions@ == base1 + propose_slots(sv, n as int, cur, slot as int - 1),
            decreases self.max_slot + 1 - slot,
        {
            let mut proposer: usize = 0;
            while proposer < n
                invariant
                    proposer <= n,
                    state@.current_slot <= slot <= self.max_slot,
                    wf_model(*self),
                    wf_state(*self, state@),
                    sv == state@,
                    n == self.validator_count,
                    cur == state@.current_slot as int,
                    actions@ == base1 + propose_slots(sv, n as int, cur, slot as int - 1)
                        + propose_props(sv, slot, proposer as int),
                decreases n - proposer,
            {
                if !self.slot_proposed(state, slot) {
                    actions.push(LivenessAction::ProposeBlock { slot, proposer });
                }
                proof {
                    assert(actions@ =~= base1 + propose_slots(sv, n as int, cur, slot as int - 1)
                        + propose_props(sv, slot, proposer as int + 1));
                }
                proposer = proposer + 1;
            }
            proof {
                assert(actions@ =~= base1 + propose_slots(sv, n as int, cur, slot as int));
            }
            slot = slot + 1;
        }
        proof {
            if cur > self.max_slot as int {
                assert(propose_slots(sv, n as int, cur, self.max_slot as int) =~= propose_slots(
                    sv,
                    n as int,
                    cur,
                    cur - 1,
                ));
            }
        }

        let ghost base2 = base1 + propose_slots(sv, n as int, cur, self.max_slot as int);
        proof {
            assert(actions@ == base2);
        }
        let mut slot: u64 = 1;
        while slot <= self.max_slot
            invariant
                1 <= slot <= self.max_slot + 1,
                wf_model(*self),
                sv == state@,
                n == self.validator_count,
                actions@ == base2 + touts_slots(n as int, slot as int - 1),
            decreases self.max_slot + 1 - slot,
        {
            let mut validator: usize = 0;
            while validator < n
                invariant
                    validator <= n,
                    1 <= slot <= self.max_slot,
                    wf_model(*self),
                    sv == state@,
                    n == self.validator_count,
                    actions@ == base2 + touts_slots(n as int, slot as int - 1) + touts_vals(
                        slot,
                        validator as int,
                    ),
                decreases n - validator,
            {
                actions.push(LivenessAction::TriggerTimeout { slot, validator });
                proof {
                    assert(actions@ =~= base2 + touts_slots(n as int, slot as int - 1) + touts_vals(
                        slot,
                        validator as int + 1,
                    ));
                }
                validator = validator + 1;
            }
            proof {
                assert(actions@ =~= base2 + touts_slots(n as int, slot as int));
            }
            slot = slot + 1;
        }

        if state.current_slot < self.max_slot {
            actions.push(LivenessAction::AdvanceSlot);
        }
        proof {
            assert(actions@ =~= old(actions)@ + lv_actions(*self, state@));
        }
    }

    fn slot_proposed(&self, state: &LivenessState, slot: u64) -> (r: bool)
        ensures
            r == props_has(state@.block_proposals, slot),
    {
        let bp = &state.block_proposals;
        let mut i: usize = 0;
        while i < bp.len()
            invariant
                bp@ == state@.block_proposals,
                i <= bp@.len(),
                forall|j: int| 0 <= j < i ==> bp@[j].slot != slot,
            decreases bp@.len() - i,
        {
            if bp[i].slot == slot {
                return true;
            }
            i = i + 1;
        }
        false
    }
}

// ------------------------------------------------------------------
// Transitions preserve well-formedness
// ------------------------------------------------------------------

proof fn lemma_lv_net_insert_props(net: Seq<MessageInTransit>, m: MessageInTransit)
    requires
        seq_distinct(net),
    ensures
        seq_distinct(net_insert(net, m)),
        forall|x: MessageInTransit|
            #[trigger] net_insert(net, m).contains(x) <==> (net.contains(x) || x == m),
{
    let r = net_insert(net, m);
    if !net.contains(m) {
        assert forall|x: MessageInTransit| #[trigger] r.contains(x) implies (net.contains(x) || x
            == m) by {
            let i = choose|i: int| 0 <= i < r.len() && r[i] == x;
            if i < net.len() {
                assert(net[i] == x);
            }
        }
        assert forall|x: MessageInTransit| net.contains(x) || x == m implies #[trigger] r.contains(
            x,
        ) by {
            if net.contains(x) {
                let i = choose|i: int| 0 <= i < net.len() && net[i] == x;
                assert(r[i] == x);
            } else {
                assert(r[net.len() as int] == x);
            }
        }
        assert forall|i: int, j: int|
            0 <= i < r.len() && 0 <= j < r.len() && r[i] == r[j] implies i == j by {
            if i < net.len() && j < net.len() {
                assert(net[i] == net[j]);
            } else if i < net.len() && j == net.len() {
                assert(net.contains(m));
            } else if i == net.len() && j < net.len() {
                assert(net.contains(m));
            }
        }
    }
}

/// The broadcast copy of `msg` addressed to validator `i`.
pub open spec fn lv_bcast_msg(msg: LivenessMessage, i: int) -> MessageInTransit {
    MessageInTransit { dst: i as usize, msg }
}

proof fn lemma_lv_broadcast_props(
    net: Seq<MessageInTransit>,
    msg: LivenessMessage,
    n: int,
    skip: int,
)
    requires
        seq_distinct(net),
        n <= 64,
    ensures
        seq_distinct(net_broadcast_except(net, msg, n, skip)),
        forall|x: MessageInTransit|
            #[trigger] net_broadcast_except(net, msg, n, skip).contains(x) <==> (net.contains(x)
                || (exists|i: int| 0 <= i < n && i != skip && x == #[trigger] lv_bcast_msg(msg, i))),
    decreases n,
{
    if n <= 0 {
    } else {
        lemma_lv_broadcast_props(net, msg, n - 1, skip);
        let prev = net_broadcast_except(net, msg, n - 1, skip);
        let r = net_broadcast_except(net, msg, n, skip);
        if n - 1 == skip {
            assert forall|x: MessageInTransit| #[trigger] r.contains(x) implies (net.contains(x)
                || (exists|i: int|
                0 <= i < n && i != skip && x == #[trigger] lv_bcast_msg(msg, i))) by {
                if !net.contains(x) {
                    let i = choose|i: int|
                        0 <= i < n - 1 && i != skip && x == #[trigger] lv_bcast_msg(msg, i);
                    assert(0 <= i < n && i != skip && x == lv_bcast_msg(msg, i));
                }
            }
            assert forall|x: MessageInTransit|
                (net.contains(x) || (exists|i: int|
                    0 <= i < n && i != skip && x == #[trigger] lv_bcast_msg(msg, i))) implies #[trigger] r.contains(
                x,
            ) by {
                if !net.contains(x) {
                    let i = choose|i: int|
                        0 <= i < n && i != skip && x == #[trigger] lv_bcast_msg(msg, i);
                    assert(i < n - 1);
                    assert(prev.contains(x));
                }
            }
        } else {
            let mnew = lv_bcast_msg(msg, n - 1);
            lemma_lv_net_insert_props(prev, mnew);
            assert forall|x: MessageInTransit| #[trigger] r.contains(x) implies (net.contains(x)
                || (exists|i: int|
                0 <= i < n && i != skip && x == #[trigger] lv_bcast_msg(msg, i))) by {
                if prev.contains(x) {
                    if !net.contains(x) {
                        let i = choose|i: int|
                            0 <= i < n - 1 && i != skip && x == #[trigger] lv_bcast_msg(msg, i);
                        assert(0 <= i < n && i != skip && x == lv_bcast_msg(msg, i));
                    }
                } else {
                    assert(x == mnew);
                    assert(0 <= n - 1 < n && n - 1 != skip && x == lv_bcast_msg(msg, n - 1));
                }
            }
            assert forall|x: MessageInTransit|
                (net.contains(x) || (exists|i: int|
                    0 <= i < n && i != skip && x == #[trigger] lv_bcast_msg(msg, i))) implies #[trigger] r.contains(
                x,
            ) by {
                if !net.contains(x) {
                    let i = choose|i: int|
                        0 <= i < n && i != skip && x == #[trigger] lv_bcast_msg(msg, i);
                    if i < n - 1 {
                        assert(prev.contains(x));
                    } else {
                        assert(x == mnew);
                    }
                }
            }
        }
    }
}

proof fn lemma_push_distinct<T>(s: Seq<T>, x: T)
    requires
        seq_distinct(s),
        !s.contains(x),
    ensures
        seq_distinct(s.push(x)),
{
    let r = s.push(x);
    assert forall|i: int, j: int|
        0 <= i < r.len() && 0 <= j < r.len() && r[i] == r[j] implies i == j by {
        if i < s.len() && j < s.len() {
            assert(s[i] == s[j]);
        } else if i < s.len() && j == s.len() {
            assert(s[i] == x);
            assert(s.contains(x));
        } else if i == s.len() && j < s.len() {
            assert(s[j] == x);
            assert(s.contains(x));
        }
    }
}

/// Every transition of the liveness model preserves well-formedness.
pub proof fn lemma_lv_step_wf(
    m: LivenessModel,
    s: LivenessStateV,
    a: LivenessAction,
    s2: LivenessStateV,
)
    requires
        wf_model(m),
        wf_state(m, s),
        wf_action(m, a),
        lv_step(m, s, a) == Some(s2),
    ensures
        wf_state(m, s2),
{
    let n = m.validator_count as int;
    match a {
        LivenessAction::ProposeBlock { slot, proposer } => {
            let hash = spec_block_hash(slot, proposer as int);
            let msg = LivenessMessage::BlockProposal { slot, hash, proposer };
            lemma_lv_broadcast_props(s.network, msg, n, proposer as int);
            lemma_props_update_distinct(s.block_proposals, slot, hash);
            assert forall|i: int| 0 <= i < s2.network.len() implies wf_message(
                m,
                #[trigger] s2.network[i],
            ) by {
                assert(s2.network.contains(s2.network[i]));
                if s.network.contains(s2.network[i]) {
                    let i0 = choose|i0: int|
                        0 <= i0 < s.network.len() && s.network[i0] == s2.network[i];
                } else {
                    let bi = choose|bi: int|
                        0 <= bi < n && bi != proposer && s2.network[i] == #[trigger] lv_bcast_msg(
                            msg,
                            bi,
                        );
                }
            }
        },
        LivenessAction::DeliverMessage { msg } => {
            let mi = net_index(s.network, msg);
            assert(0 <= mi < s.network.len() && s.network[mi] == msg);
            let net1 = s.network.remove(mi);
            lemma_distinct_remove(s.network, mi);
            assert forall|i: int| 0 <= i < net1.len() implies s.network.contains(
                #[trigger] net1[i],
            ) by {
                if i < mi {
                    assert(net1[i] == s.network[i]);
                } else {
                    assert(net1[i] == s.network[i + 1]);
                }
            }
            let d = msg.dst as int;
            let v = s.validators[d];
            match msg.msg {
                LivenessMessage::BlockProposal { slot, hash, proposer } => {
                    let k = VoteKey { slot, hash: Some(hash) };
                    if v.is_responsive && !v.votes_cast.contains(k) {
                        let vote = LivenessMessage::NotarVote { slot, hash, voter: msg.dst };
                        lemma_lv_broadcast_props(net1, vote, n, n);
                        lemma_push_distinct(v.votes_cast, k);
                        assert forall|i: int| 0 <= i < s2.network.len() implies wf_message(
                            m,
                            #[trigger] s2.network[i],
                        ) by {
                            assert(s2.network.contains(s2.network[i]));
                            if net1.contains(s2.network[i]) {
                                let i0 = choose|i0: int|
                                    0 <= i0 < net1.len() && net1[i0] == s2.network[i];
                            } else {
                                let bi = choose|bi: int|
                                    0 <= bi < n && bi != n && s2.network[i]
                                        == #[trigger] lv_bcast_msg(vote, bi);
                            }
                        }
                    }
                },
                LivenessMessage::NotarVote { slot, hash, voter } => {
                    let k = VoteKey { slot, hash: Some(hash) };
                    let pool1 = pool_add(v.vote_pool, k, voter as int);
                    lemma_pool_add_distinct(v.vote_pool, k, voter as int);
                    lemma_props_update_distinct(v.notarized_slots, slot, hash);
                    lemma_props_update_distinct(v.finalized_slots, slot, hash);
                    let backing = spec_backing(s, pool1, k);
                    if backing >= spec_slow_threshold() && !(backing >= spec_fast_threshold())
                        && !v.votes_cast.contains(VoteKey { slot, hash: None }) {
                        let fv = LivenessMessage::FinalVote { slot, voter: msg.dst };
                        lemma_lv_broadcast_props(net1, fv, n, n);
                        lemma_push_distinct(v.votes_cast, VoteKey { slot, hash: None });
                        assert forall|i: int| 0 <= i < s2.network.len() implies wf_message(
                            m,
                            #[trigger] s2.network[i],
                        ) by {
                            assert(s2.network.contains(s2.network[i]));
                            if net1.contains(s2.network[i]) {
                                let i0 = choose|i0: int|
                                    0 <= i0 < net1.len() && net1[i0] == s2.network[i];
                            } else {
                                let bi = choose|bi: int|
                                    0 <= bi < n && bi != n && s2.network[i]
                                        == #[trigger] lv_bcast_msg(fv, bi);
                            }
                        }
                    }
                    if backing >= spec_fast_threshold() && !props_has_time(
                        s.finalization_times,
                        slot,
                    ) {
                        assert forall|i: int, j: int|
                            0 <= i < s2.finalization_times.len() && 0 <= j
                                < s2.finalization_times.len()
                                && #[trigger] s2.finalization_times[i].slot
                                == #[trigger] s2.finalization_times[j].slot implies i == j by {
                            let ts = s.finalization_times;
                            if i < ts.len() && j < ts.len() {
                                assert(ts[i].slot == ts[j].slot);
                            } else if i < ts.len() && j == ts.len() {
                                assert(ts[i].slot == slot);
                            } else if i == ts.len() && j < ts.len() {
                                assert(ts[j].slot == slot);
                            }
                        }
                    }
                },
                LivenessMessage::FinalVote { slot, voter } => {
                    if s.validators[voter as int].is_responsive {
                        let fk = VoteKey { slot, hash: None };
                        let pool1 = pool_add(v.vote_pool, fk, voter as int);
                        lemma_pool_add_distinct(v.vote_pool, fk, voter as int);
                        let backing = spec_backing(s, pool1, fk);
                        if backing >= spec_slow_threshold() && props_has(v.notarized_slots, slot)
                            && !props_has_time(s.finalization_times, slot) {
                            let hash = v.notarized_slots[props_index(v.notarized_slots, slot)].hash;
                            lemma_props_update_distinct(v.finalized_slots, slot, hash);
                            assert forall|i: int, j: int|
                                0 <= i < s2.finalization_times.len() && 0 <= j
                                    < s2.finalization_times.len()
                                    && #[trigger] s2.finalization_times[i].slot
                                    == #[trigger] s2.finalization_times[j].slot implies i == j by {
                                let ts = s.finalization_times;
                                if i < ts.len() && j < ts.len() {
                                    assert(ts[i].slot == ts[j].slot);
                                } else if i < ts.len() && j == ts.len() {
                                    assert(ts[i].slot == slot);
                                } else if i == ts.len() && j < ts.len() {
                                    assert(ts[j].slot == slot);
                                }
                            }
                        }
                    }
                },
                LivenessMessage::TimeoutEvent { .. } => {},
            }
        },
        LivenessAction::TriggerTimeout { slot, validator } => {
            let t = MessageInTransit {
                dst: validator,
                msg: LivenessMessage::TimeoutEvent { slot, validator },
            };
            lemma_lv_net_insert_props(s.network, t);
            assert forall|i: int| 0 <= i < s2.network.len() implies wf_message(
                m,
                #[trigger] s2.network[i],
            ) by {
                assert(s2.network.contains(s2.network[i]));
                if s.network.contains(s2.network[i]) {
                    let i0 = choose|i0: int|
                        0 <= i0 < s.network.len() && s.network[i0] == s2.network[i];
                }
            }
        },
        LivenessAction::AdvanceSlot => {},
    }
}

// ------------------------------------------------------------------
// The bounded simulation
// ------------------------------------------------------------------

/// The outcome of one bounded simulation run.
#[derive(Clone, Copy, Debug, PartialEq, Eq, Hash, Structural)]
pub struct SimulationOutcome {
    /// Whether some slot finalized within the tick bound.
    pub finalized: bool,
    /// The round that finalization took: one (fast path) or two (slow
    /// path).
    pub finalization_round: Option<u64>,
    /// Ticks consumed before the run stopped.
    pub ticks_elapsed: u64,
}

/// The deterministic scheduler: deliver the oldest message; otherwise
/// propose a block for the current slot (the seed picks the proposer);
/// otherwise advance the slot; otherwise stop.
pub open spec fn pick_action(m: LivenessModel, s: LivenessStateV, seed: u64) -> Option<
    LivenessAction,
> {
    if s.network.len() > 0 {
        Some(LivenessAction::DeliverMessage { msg: s.network[0] })
    } else if s.current_slot <= m.max_slot && !props_has(s.block_proposals, s.current_slot) {
        Some(
            LivenessAction::ProposeBlock {
                slot: s.current_slot,
                proposer: (seed % m.validator_count as u64) as usize,
            },
        )
    } else if s.current_slot < m.max_slot {
        Some(LivenessAction::AdvanceSlot)
    } else {
        None
    }
}

/// The outcome of running the scheduler from `s` for at most `ticks_left`
/// ticks, having already used `ticks_used`.
pub open spec fn sim_spec(
    m: LivenessModel,
    s: LivenessStateV,
    seed: u64,
    ticks_left: nat,
    ticks_used: u64,
) -> SimulationOutcome
    decreases ticks_left,
{
    if s.finalization_times.len() > 0 {
        SimulationOutcome {
            finalized: true,
            finalization_round: Some(s.finalization_times[0].rounds),
            ticks_elapsed: ticks_used,
        }
    } else if ticks_left == 0 {
        SimulationOutcome { finalized: false, finalization_round: None, ticks_elapsed: ticks_used }
    } else {
        match pick_action(m, s, seed) {
            None => SimulationOutcome {
                finalized: false,
                finalization_round: None,
                ticks_elapsed: ticks_used,
            },
            Some(a) => match lv_step(m, s, a) {
                Some(s1) => sim_spec(m, s1, seed, (ticks_left - 1) as nat, (ticks_used + 1) as u64),
                None => SimulationOutcome {
                    finalized: false,
                    finalization_round: None,
                    ticks_elapsed: ticks_used,
                },
            },
        }
    }
}

/// The initial state is well-formed.
pub proof fn lemma_lv_init_wf(m: LivenessModel)
    requires
        wf_model(m),
    ensures
        wf_state(m, lv_init(m.validator_count as int, m.responsive_count as int)),
{
    let gi = lv_init(m.validator_count as int, m.responsive_count as int);
    let n = m.validator_count as int;
    assert(stake_total(gi.stake_distribution, n) <= u64::MAX) by {
        assert(forall|j: int| 0 <= j < n ==> gi.stake_distribution[j] <= TOTAL_STAKE);
        crate::stake::lemma_stake_total_bound(gi.stake_distribution, n, TOTAL_STAKE);
    }
    assert forall|v: int| 0 <= v < gi.validators.len() implies seq_distinct(
        #[trigger] gi.validators[v].votes_cast,
    ) && pool_keys_distinct(gi.validators[v].vote_pool) && props_slots_distinct(
        gi.validators[v].notarized_slots,
    ) && props_slots_distinct(gi.validators[v].finalized_slots) by {
        assert(gi.validators[v].votes_cast.len() == 0);
        assert(gi.validators[v].vote_pool.len() == 0);
        assert(gi.validators[v].notarized_slots.len() == 0);
        assert(gi.validators[v].finalized_slots.len() == 0);
    }
}

/// Run one seeded, deterministic execution of the liveness model to a
/// tick bound.  The outcome is proved equal to a mathematical function of
/// the model, the seed and the bound alone, so a run is reproducible; it
/// reports whether a slot finalized and in which round (one for the fast
/// path, two for the slow path).
pub fn run_bounded_simulation(model: &LivenessModel, seed: u64, max_ticks: u64) -> (r:
    SimulationOutcome)
    requires
        wf_model(*model),
    ensures
        r == sim_spec(
            *model,
            lv_init(model.validator_count as int, model.responsive_count as int),
            seed,
            max_ticks as nat,
            0,
        ),
{
    let ghost m = *model;
    let ghost target = sim_spec(
        m,
        lv_init(model.validator_count as int, model.responsive_count as int),
        seed,
        max_ticks as nat,
        0,
    );
    let mut state = LivenessState::new(model.validator_count, model.responsive_count);
    let mut ticks_used: u64 = 0;
    let mut ticks_left: u64 = max_ticks;
    proof {
        lemma_lv_init_wf(m);
    }
    loop
        invariant
            wf_model(m),
            *model == m,
            wf_state(m, state@),
            ticks_used + ticks_left == max_ticks,
            target == sim_spec(
                m,
                lv_init(m.validator_count as int, m.responsive_count as int),
                seed,
                max_ticks as nat,
                0,
            ),
            sim_spec(m, state@, seed, ticks_left as nat, ticks_used) == target,
        decreases ticks_left,
    {
        if state.finalization_times.len() > 0 {
            let rounds = state.finalization_times[0].rounds;
            return SimulationOutcome {
                finalized: true,
                finalization_round: Some(rounds),
                ticks_elapsed: ticks_used,
            };
        }
        if ticks_left == 0 {
            return SimulationOutcome {
                finalized: false,
                finalization_round: None,
                ticks_elapsed: ticks_used,
            };
        }
        let action = if state.network.len() > 0 {
            Some(LivenessAction::DeliverMessage { msg: state.network[0] })
        } else if state.current_slot <= model.max_slot && !self_has_proposal(
            &state,
            state.current_slot,
        ) {
            Some(
                LivenessAction::ProposeBlock {
                    slot: state.current_slot,
                    proposer: (seed % (model.validator_count as u64)) as usize,
                },
            )
        } else if state.current_slot < model.max_slot {
            Some(LivenessAction::AdvanceSlot)
        } else {
            None
        };
        proof {
            assert(action == pick_action(m, state@, seed));
        }
        match action {
            None => {
                return SimulationOutcome {
                    finalized: false,
                    finalization_round: None,
                    ticks_elapsed: ticks_used,
                };
            },
            Some(a) => {
                proof {
                    assert(wf_action(m, a)) by {
                        match a {
                            LivenessAction::DeliverMessage { msg } => {
                                assert(msg == state@.network[0]);
                            },
                            _ => {},
                        }
                    }
                }
                match model.next_state(&state, a) {
                    Some(s1) => {
                        proof {
                            lemma_lv_step_wf(m, state@, a, s1@);
                        }
                        state = s1;
                        ticks_used = ticks_used + 1;
                        ticks_left = ticks_left - 1;
                    },
                    None => {
                        proof {
                            assert(state@.network.contains(state@.network[0]));
                            assert(false);
                        }
                        return SimulationOutcome {
                            finalized: false,
                            finalization_round: None,
                            ticks_elapsed: ticks_used,
                        };
                    },
                }
            },
        }
    }
}

fn self_has_proposal(state: &LivenessState, slot: u64) -> (r: bool)
    ensures
        r == props_has(state@.block_proposals, slot),
{
    let bp = &state.block_proposals;
    let mut i: usize = 0;
    while i < bp.len()
        invariant
            bp@ == state@.block_proposals,
            i <= bp@.len(),
            forall|j: int| 0 <= j < i ==> bp@[j].slot != slot,
        decreases bp@.len() - i,
    {
        if bp[i].slot == slot {
            return true;
        }
        i = i + 1;
    }
    false
}

} // verus!
