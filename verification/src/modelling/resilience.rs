//! Resilience model: Byzantine faults and network partitions.
//!
//! Partitioned validators receive no broadcasts and their votes are not
//! counted towards quorums.  A partition splitting the stake so that no
//! side keeps the quorum threshold of eligible stake blocks certification
//! entirely (`lemma_partition_blocks_certification`); healing the partition
//! restores it.

use crate::certificate::{
    lemma_distinct_remove, pool_add, pool_add_exec, pool_find, pool_has, pool_index,
    pool_keys_distinct, pool_voters, seq_distinct, PoolEntry, VoteKey,
};
use crate::mask::{lemma_mask_and, mask_contains, mask_has};
use crate::modelling::safety::{vio_insert, Violation};
use crate::stake::{
    lemma_stake_in_subset, spec_quorum_stake, stake_for_mask, stake_in, stake_total,
};
use crate::timeout::{props_has, props_index, props_slots_distinct, props_update, SlotHash};
use crate::util::{copy_vec, set_vec};
use vstd::prelude::*;

verus! {

/// Stake held by all validators together.
pub const TOTAL_STAKE: u64 = 1000;

/// Percentage of the total stake needed to certify a block.
pub const CERTIFICATE_THRESHOLD_PERCENT: u64 = 60;

/// Messages exchanged in the resilience model.
#[derive(Clone, Copy, Debug, PartialEq, Eq, PartialOrd, Ord, Hash, Structural)]
pub enum ResilienceMessage {
    /// A block proposal.
    BlockProposal { slot: u64, hash: u64, proposer: usize },
    /// A vote for a block.
    Vote { slot: u64, hash: u64, voter: usize },
    /// A conflicting vote injected by a Byzantine validator.
    ConflictingVote { slot: u64, hash: u64, voter: usize },
    /// A partition cutting off the members of a validator mask.
    PartitionEvent { partition_id: u64, members: u64 },
    /// A recovery notice for one validator.
    RecoveryMessage { slot: u64, validator: usize },
}

/// A message addressed to one validator, waiting in the network.
#[derive(Clone, Copy, Debug, PartialEq, Eq, PartialOrd, Ord, Hash, Structural)]
pub struct MessageInTransit {
    pub dst: usize,
    pub msg: ResilienceMessage,
}

/// Actions enabled in the resilience model.
#[derive(Clone, Copy, Debug, PartialEq, Eq, PartialOrd, Ord, Hash, Structural)]
pub enum ResilienceAction {
    ProposeBlock { slot: u64, proposer: usize },
    DeliverMessage { msg: MessageInTransit },
    CreateConflictingVote { slot: u64, byzantine_validator: usize },
    TriggerPartition { partition_id: u64, members: u64 },
    RecoverFromPartition { partition_id: u64 },
    AdvanceSlot,
}

/// An active partition: its identifier and the mask of its members.
#[derive(Clone, Copy, Debug, PartialEq, Eq, PartialOrd, Ord, Hash, Structural)]
pub struct PartitionRecord {
    pub partition_id: u64,
    pub members: u64,
}

/// Per-validator state.
#[derive(Clone, Debug, PartialEq, Eq, Hash)]
pub struct ValidatorState {
    /// This validator's identity.
    pub id: usize,
    /// Whether this validator may deviate from the protocol.
    pub is_byzantine: bool,
    /// Whether this validator answers in time.
    pub is_responsive: bool,
    /// Whether this validator is cut off by a partition.
    pub is_partitioned: bool,
    /// The block votes this validator has cast.
    pub votes_cast: Vec<VoteKey>,
    /// Votes observed, keyed by what they are for.
    pub vote_pool: Vec<PoolEntry>,
    /// Certified block per slot, as seen locally.
    pub certificates: Vec<SlotHash>,
    /// This validator's view of the slot counter.
    pub current_slot: u64,
}

/// The whole world state of the resilience model.
#[derive(Clone, Debug, PartialEq, Eq, Hash)]
pub struct ResilienceState {
    /// Messages in flight, kept without duplicates.
    pub network: Vec<MessageInTransit>,
    /// All validators, indexed by identity.
    pub validators: Vec<ValidatorState>,
    /// Global slot counter.
    pub current_slot: u64,
    /// Stake of each validator, indexed by identity.
    pub stake_distribution: Vec<u64>,
    /// Proposed blocks, one hash per slot.
    pub block_proposals: Vec<SlotHash>,
    /// Active partitions, keyed by identifier.
    pub active_partitions: Vec<PartitionRecord>,
    /// Conflicting certificate pairs found so far.
    pub safety_violations: Vec<Violation>,
}

/// Configuration of the resilience model.
#[derive(Clone, Copy, Debug, PartialEq, Eq, Hash, Structural)]
pub struct ResilienceModel {
    pub validator_count: usize,
    pub max_slot: u64,
    pub byzantine_count: usize,
}

/// Mathematical view of a validator.
#[verifier::ext_equal]
pub struct ValidatorStateV {
    pub id: usize,
    pub is_byzantine: bool,
    pub is_responsive: bool,
    pub is_partitioned: bool,
    pub votes_cast: Seq<VoteKey>,
    pub vote_pool: Seq<PoolEntry>,
    pub certificates: Seq<SlotHash>,
    pub current_slot: u64,
}

/// Mathematical view of the world state.
#[verifier::ext_equal]
pub struct ResilienceStateV {
    pub network: Seq<MessageInTransit>,
    pub validators: Seq<ValidatorStateV>,
    pub current_slot: u64,
    pub stake_distribution: Seq<u64>,
    pub block_proposals: Seq<SlotHash>,
    pub active_partitions: Seq<PartitionRecord>,
    pub safety_violations: Seq<Violation>,
}

impl View for ValidatorState {
    type V = ValidatorStateV;

    open spec fn view(&self) -> ValidatorStateV {
        ValidatorStateV {
            id: self.id,
            is_byzantine: self.is_byzantine,
            is_responsive: self.is_responsive,
            is_partitioned: self.is_partitioned,
            votes_cast: self.votes_cast@,
            vote_pool: self.vote_pool@,
            certificates: self.certificates@,
            current_slot: self.current_slot,
        }
    }
}

impl View for ResilienceState {
    type V = ResilienceStateV;

    open spec fn view(&self) -> ResilienceStateV {
        ResilienceStateV {
            network: self.network@,
            validators: self.validators@.map_values(|v: ValidatorState| v@),
            current_slot: self.current_slot,
            stake_distribution: self.stake_distribution@,
            block_proposals: self.block_proposals@,
            active_partitions: self.active_partitions@,
            safety_violations: self.safety_violations@,
        }
    }
}

// ------------------------------------------------------------------
// Spec-level building blocks
// ------------------------------------------------------------------

/// Insert into a duplicate-free message sequence.
pub open spec fn net_insert(net: Seq<MessageInTransit>, m: MessageInTransit) -> Seq<
    MessageInTransit,
> {
    if net.contains(m) {
        net
    } else {
        net.push(m)
    }
}

/// Index of a message in the network.
pub open spec fn net_index(net: Seq<MessageInTransit>, m: MessageInTransit) -> int {
    choose|i: int| 0 <= i < net.len() && net[i] == m
}

/// Broadcast to every non-partitioned validator below `n`, except `skip`.
pub open spec fn net_broadcast_unpartitioned(
    net: Seq<MessageInTransit>,
    vals: Seq<ValidatorStateV>,
    msg: ResilienceMessage,
    n: int,
    skip: int,
) -> Seq<MessageInTransit>
    decreases n,
{
    if n <= 0 {
        net
    } else {
        let prev = net_broadcast_unpartitioned(net, vals, msg, n - 1, skip);
        if n - 1 == skip || vals[n - 1].is_partitioned {
            prev
        } else {
            net_insert(prev, MessageInTransit { dst: (n - 1) as usize, msg })
        }
    }
}

/// Recovery notices for the members of `members` below `k`, in ascending
/// order.
pub open spec fn recovery_broadcast(
    net: Seq<MessageInTransit>,
    slot: u64,
    members: u64,
    k: int,
) -> Seq<MessageInTransit>
    decreases k,
{
    if k <= 0 {
        net
    } else {
        let prev = recovery_broadcast(net, slot, members, k - 1);
        if mask_has(members, k - 1) {
            net_insert(
                prev,
                MessageInTransit {
                    dst: (k - 1) as usize,
                    msg: ResilienceMessage::RecoveryMessage { slot, validator: (k - 1) as usize },
                },
            )
        } else {
            prev
        }
    }
}

/// Mask of validators whose votes count: honest, responsive, and not
/// partitioned.
pub open spec fn eligible_mask(vals: Seq<ValidatorStateV>, k: int) -> u64
    decreases k,
{
    if k <= 0 {
        0u64
    } else {
        eligible_mask(vals, k - 1) | (if !vals[k - 1].is_byzantine && vals[k - 1].is_responsive
            && !vals[k - 1].is_partitioned {
            1u64 << ((k - 1) as u64)
        } else {
            0u64
        })
    }
}

/// Whether a partition list holds an entry for `partition_id`.
pub open spec fn pr_has(ps: Seq<PartitionRecord>, partition_id: u64) -> bool {
    exists|i: int| 0 <= i < ps.len() && ps[i].partition_id == partition_id
}

/// Index of the entry for `partition_id`.
pub open spec fn pr_index(ps: Seq<PartitionRecord>, partition_id: u64) -> int {
    choose|i: int| 0 <= i < ps.len() && ps[i].partition_id == partition_id
}

/// Record or overwrite a partition.
pub open spec fn pr_update(ps: Seq<PartitionRecord>, partition_id: u64, members: u64) -> Seq<
    PartitionRecord,
> {
    if pr_has(ps, partition_id) {
        ps.update(pr_index(ps, partition_id), PartitionRecord { partition_id, members })
    } else {
        ps.push(PartitionRecord { partition_id, members })
    }
}

/// Partition identifiers are pairwise distinct.
pub open spec fn pr_ids_distinct(ps: Seq<PartitionRecord>) -> bool {
    forall|i: int, j: int|
        0 <= i < ps.len() && 0 <= j < ps.len() && ps[i].partition_id == ps[j].partition_id ==> i
            == j
}

/// Set or clear the partition flag of every member of `members`.
pub open spec fn set_partitioned(
    vals: Seq<ValidatorStateV>,
    members: u64,
    flag: bool,
) -> Seq<ValidatorStateV> {
    Seq::new(
        vals.len(),
        |i: int|
            if mask_has(members, i) {
                ValidatorStateV { is_partitioned: flag, ..vals[i] }
            } else {
                vals[i]
            },
    )
}

/// The stake a certificate needs.
pub open spec fn spec_threshold() -> int {
    spec_quorum_stake(TOTAL_STAKE, CERTIFICATE_THRESHOLD_PERCENT)
}

/// Whether the eligible voters for `k` in a pool reach the quorum.
pub open spec fn spec_quorum(s: ResilienceStateV, pool: Seq<PoolEntry>, k: VoteKey) -> bool {
    let n = s.validators.len() as int;
    stake_in(s.stake_distribution, pool_voters(pool, k) & eligible_mask(s.validators, n), n)
        >= spec_threshold()
}

/// Quorum check over the first validator's pool, mathematically.
pub open spec fn spec_can_certify(s: ResilienceStateV, k: VoteKey) -> bool {
    &&& pool_has(s.validators[0].vote_pool, k)
    &&& spec_quorum(s, s.validators[0].vote_pool, k)
}

/// Whether cutting off `members` removes more than a quorum of stake.
pub open spec fn spec_partition_critical(s: ResilienceStateV, members: u64) -> bool {
    stake_in(s.stake_distribution, members, s.validators.len() as int) > spec_threshold()
}

/// The deterministic hash a proposer assigns to its block.
pub open spec fn spec_block_hash(slot: u64, proposer: int) -> u64 {
    (slot * 1000 + proposer) as u64
}

/// The hash a Byzantine validator uses for its conflicting vote.
pub open spec fn spec_conflicting_hash(slot: u64) -> u64 {
    (slot * 1000 + 999) as u64
}

/// Violations found scanning one certificate list (as in the safety
/// model).
pub open spec fn scan_inner(certs: Seq<SlotHash>, acc: Seq<Violation>, i: int, j: int) -> Seq<
    Violation,
>
    decreases j,
{
    if j <= 0 {
        acc
    } else {
        let prev = scan_inner(certs, acc, i, j - 1);
        if certs[i].slot == certs[j - 1].slot && certs[i].hash != certs[j - 1].hash {
            vio_insert(
                prev,
                Violation { slot: certs[i].slot, hash1: certs[i].hash, hash2: certs[j - 1].hash },
            )
        } else {
            prev
        }
    }
}

/// Violations found scanning the first `i` entries of a list.
pub open spec fn scan_certs(certs: Seq<SlotHash>, acc: Seq<Violation>, i: int) -> Seq<Violation>
    decreases i,
{
    if i <= 0 {
        acc
    } else {
        scan_inner(certs, scan_certs(certs, acc, i - 1), i - 1, certs.len() as int)
    }
}

/// Violations found scanning the certificate lists of the first `k`
/// validators.
pub open spec fn scan_validators(vals: Seq<ValidatorStateV>, acc: Seq<Violation>, k: int) -> Seq<
    Violation,
>
    decreases k,
{
    if k <= 0 {
        acc
    } else {
        scan_certs(
            vals[k - 1].certificates,
            scan_validators(vals, acc, k - 1),
            vals[k - 1].certificates.len() as int,
        )
    }
}

/// The violation list after a full scan of a state.
pub open spec fn spec_scan_violations(s: ResilienceStateV) -> Seq<Violation> {
    scan_validators(s.validators, s.safety_violations, s.validators.len() as int)
}

// ------------------------------------------------------------------
// Well-formedness
// ------------------------------------------------------------------

/// Message fields fit the model bounds.
pub open spec fn wf_message(m: ResilienceModel, t: MessageInTransit) -> bool {
    &&& t.dst < m.validator_count
    &&& match t.msg {
        ResilienceMessage::BlockProposal { proposer, .. } => proposer < m.validator_count,
        ResilienceMessage::Vote { voter, .. } => voter < m.validator_count,
        ResilienceMessage::ConflictingVote { voter, .. } => voter < m.validator_count,
        ResilienceMessage::PartitionEvent { members, .. } => forall|j: int|
            #[trigger] mask_has(members, j) ==> j < m.validator_count,
        ResilienceMessage::RecoveryMessage { validator, .. } => validator < m.validator_count,
    }
}

/// Structural well-formedness of a state.
pub open spec fn wf_state(m: ResilienceModel, s: ResilienceStateV) -> bool {
    &&& 1 <= m.validator_count <= 64
    &&& s.validators.len() == m.validator_count
    &&& s.stake_distribution.len() == m.validator_count
    &&& stake_total(s.stake_distribution, m.validator_count as int) <= u64::MAX
    &&& seq_distinct(s.network)
    &&& forall|i: int| 0 <= i < s.network.len() ==> wf_message(m, #[trigger] s.network[i])
    &&& forall|v: int|
        0 <= v < s.validators.len() ==> seq_distinct(#[trigger] s.validators[v].votes_cast)
    &&& forall|v: int|
        0 <= v < s.validators.len() ==> pool_keys_distinct(#[trigger] s.validators[v].vote_pool)
    &&& forall|v: int|
        0 <= v < s.validators.len() ==> props_slots_distinct(
            #[trigger] s.validators[v].certificates,
        )
    &&& props_slots_distinct(s.block_proposals)
    &&& pr_ids_distinct(s.active_partitions)
    &&& seq_distinct(s.safety_violations)
}

/// Bounds under which the model's arithmetic cannot overflow.
pub open spec fn wf_model(m: ResilienceModel) -> bool {
    &&& 1 <= m.validator_count <= 64
    &&& m.byzantine_count <= m.validator_count
    &&& m.max_slot <= 1000000
}

/// Whether an action refers only to validators and slots that exist.
pub open spec fn wf_action(m: ResilienceModel, a: ResilienceAction) -> bool {
    match a {
        ResilienceAction::ProposeBlock { slot, proposer } => proposer < m.validator_count && slot
            <= m.max_slot,
        ResilienceAction::DeliverMessage { msg } => wf_message(m, msg),
        ResilienceAction::CreateConflictingVote { slot, byzantine_validator } => byzantine_validator
            < m.validator_count && slot <= m.max_slot,
        ResilienceAction::TriggerPartition { partition_id, members } => forall|j: int|
            #[trigger] mask_has(members, j) ==> j < m.validator_count,
        ResilienceAction::RecoverFromPartition { .. } => true,
        ResilienceAction::AdvanceSlot => true,
    }
}

// ------------------------------------------------------------------
// The transition function, mathematically
// ------------------------------------------------------------------

/// Pool a delivered vote at the recipient and certify on a quorum.
pub open spec fn rs_deliver_vote(
    m: ResilienceModel,
    s: ResilienceStateV,
    net1: Seq<MessageInTransit>,
    d: int,
    k: VoteKey,
    voter: int,
) -> ResilienceStateV {
    let v = s.validators[d];
    let pool1 = pool_add(v.vote_pool, k, voter);
    let quorum = spec_quorum(s, pool1, k);
    let v2 = ValidatorStateV {
        vote_pool: pool1,
        certificates: if quorum {
            props_update(v.certificates, k.slot, k.hash->0)
        } else {
            v.certificates
        },
        ..v
    };
    ResilienceStateV { network: net1, validators: s.validators.update(d, v2), ..s }
}

/// One transition of the resilience model, before the violation scan.
pub open spec fn rs_step_pre(m: ResilienceModel, s: ResilienceStateV, a: ResilienceAction) -> Option<
    ResilienceStateV,
> {
    let n = m.validator_count as int;
    match a {
        ResilienceAction::ProposeBlock { slot, proposer } => {
            let hash = spec_block_hash(slot, proposer as int);
            Some(
                ResilienceStateV {
                    network: net_broadcast_unpartitioned(
                        s.network,
                        s.validators,
                        ResilienceMessage::BlockProposal { slot, hash, proposer },
                        n,
                        proposer as int,
                    ),
                    block_proposals: props_update(s.block_proposals, slot, hash),
                    ..s
                },
            )
        },
        ResilienceAction::DeliverMessage { msg } => {
            if !s.network.contains(msg) {
                None
            } else {
                let net1 = s.network.remove(net_index(s.network, msg));
                let d = msg.dst as int;
                let v = s.validators[d];
                match msg.msg {
                    ResilienceMessage::BlockProposal { slot, hash, proposer } => {
                        if v.is_responsive && !v.is_partitioned && !v.votes_cast.contains(
                            VoteKey { slot, hash: Some(hash) },
                        ) {
                            Some(
                                ResilienceStateV {
                                    network: net_broadcast_unpartitioned(
                                        net1,
                                        s.validators,
                                        ResilienceMessage::Vote { slot, hash, voter: msg.dst },
                                        n,
                                        n,
                                    ),
                                    validators: s.validators.update(
                                        d,
                                        ValidatorStateV {
                                            votes_cast: v.votes_cast.push(
                                                VoteKey { slot, hash: Some(hash) },
                                            ),
                                            ..v
                                        },
                                    ),
                                    ..s
                                },
                            )
                        } else {
                            Some(ResilienceStateV { network: net1, ..s })
                        }
                    },
                    ResilienceMessage::Vote { slot, hash, voter } => Some(
                        rs_deliver_vote(m, s, net1, d, VoteKey { slot, hash: Some(hash) }, voter as int),
                    ),
                    ResilienceMessage::ConflictingVote { slot, hash, voter } => Some(
                        rs_deliver_vote(m, s, net1, d, VoteKey { slot, hash: Some(hash) }, voter as int),
                    ),
                    ResilienceMessage::PartitionEvent { partition_id, members } => Some(
                        ResilienceStateV {
                            network: net1,
                            validators: set_partitioned(s.validators, members, true),
                            active_partitions: pr_update(s.active_partitions, partition_id, members),
                            ..s
                        },
                    ),
                    ResilienceMessage::RecoveryMessage { slot, validator } => Some(
                        ResilienceStateV {
                            network: net1,
                            validators: s.validators.update(
                                validator as int,
                                ValidatorStateV {
                                    is_partitioned: false,
                                    ..s.validators[validator as int]
                                },
                            ),
                            ..s
                        },
                    ),
                }
            }
        },
        ResilienceAction::CreateConflictingVote { slot, byzantine_validator } => Some(
            ResilienceStateV {
                network: net_insert(
                    s.network,
                    MessageInTransit {
                        dst: byzantine_validator,
                        msg: ResilienceMessage::ConflictingVote {
                            slot,
                            hash: spec_conflicting_hash(slot),
                            voter: byzantine_validator,
                        },
                    },
                ),
                ..s
            },
        ),
        ResilienceAction::TriggerPartition { partition_id, members } => Some(
            ResilienceStateV {
                network: net_insert(
                    s.network,
                    MessageInTransit {
                        dst: 0,
                        msg: ResilienceMessage::PartitionEvent { partition_id, members },
                    },
                ),
                ..s
            },
        ),
        ResilienceAction::RecoverFromPartition { partition_id } => {
            if pr_has(s.active_partitions, partition_id) {
                let idx = pr_index(s.active_partitions, partition_id);
                let members = s.active_partitions[idx].members;
                Some(
                    ResilienceStateV {
                        network: recovery_broadcast(s.network, s.current_slot, members, n),
                        active_partitions: s.active_partitions.remove(idx),
                        ..s
                    },
                )
            } else {
                Some(s)
            }
        },
        ResilienceAction::AdvanceSlot => {
            let slot2 = (s.current_slot + 1) as u64;
            Some(
                ResilienceStateV {
                    validators: s.validators.map_values(
                        |v: ValidatorStateV| ValidatorStateV { current_slot: slot2, ..v },
                    ),
                    current_slot: slot2,
                    ..s
                },
            )
        },
    }
}

/// One transition of the resilience model, with the violation scan.
pub open spec fn rs_step(m: ResilienceModel, s: ResilienceStateV, a: ResilienceAction) -> Option<
    ResilienceStateV,
> {
    match rs_step_pre(m, s, a) {
        Some(s1) => Some(ResilienceStateV { safety_violations: spec_scan_violations(s1), ..s1 }),
        None => None,
    }
}

/// The initial state for a configuration.
pub open spec fn rs_init(validator_count: int, byzantine_count: int) -> ResilienceStateV {
    let stake = TOTAL_STAKE / validator_count as u64;
    ResilienceStateV {
        network: Seq::empty(),
        validators: Seq::new(
            validator_count as nat,
            |i: int|
                ValidatorStateV {
                    id: i as usize,
                    is_byzantine: i < byzantine_count,
                    is_responsive: true,
                    is_partitioned: false,
                    votes_cast: Seq::empty(),
                    vote_pool: Seq::empty(),
                    certificates: Seq::empty(),
                    current_slot: 0,
                },
        ),
        current_slot: 0,
        stake_distribution: Seq::new(validator_count as nat, |i: int| stake),
        block_proposals: Seq::empty(),
        active_partitions: Seq::empty(),
        safety_violations: Seq::empty(),
    }
}

// ------------------------------------------------------------------
// Executable helpers
// ------------------------------------------------------------------

fn net_contains(net: &Vec<MessageInTransit>, m: MessageInTransit) -> (r: bool)
    ensures
        r == net@.contains(m),
{
    let mut i: usize = 0;
    while i < net.len()
        invariant
            i <= net@.len(),
            forall|j: int| 0 <= j < i ==> net@[j] != m,
        decreases net@.len() - i,
    {
        if net[i] == m {
            return true;
        }
        i = i + 1;
    }
    false
}

fn net_insert_exec(net: &mut Vec<MessageInTransit>, m: MessageInTransit)
    ensures
        final(net)@ == net_insert(old(net)@, m),
{
    if !net_contains(net, m) {
        net.push(m);
    }
}

fn net_remove_exec(net: &mut Vec<MessageInTransit>, m: MessageInTransit)
    requires
        seq_distinct(old(net)@),
        old(net)@.contains(m),
    ensures
        final(net)@ == old(net)@.remove(net_index(old(net)@, m)),
{
    let ghost orig = net@;
    proof {
        assert(orig == old(net)@);
    }
    let mut i: usize = 0;
    while i < net.len()
        invariant
            net@ == orig,
            orig == old(net)@,
            seq_distinct(orig),
            i <= net@.len(),
            forall|j: int| 0 <= j < i ==> net@[j] != m,
            net@.contains(m),
        decreases net@.len() - i,
    {
        if net[i] == m {
            proof {
                let ii = net_index(orig, m);
                assert(0 <= ii < orig.len() && orig[ii] == m);
                assert(ii == i as int);
            }
            net.remove(i);
            return ;
        }
        i = i + 1;
    }
    proof {
        let ii = choose|j: int| 0 <= j < orig.len() && orig[j] == m;
        assert(false);
    }
}

fn keys_contains(keys: &Vec<VoteKey>, k: VoteKey) -> (r: bool)
    ensures
        r == keys@.contains(k),
{
    let mut i: usize = 0;
    while i < keys.len()
        invariant
            i <= keys@.len(),
            forall|j: int| 0 <= j < i ==> keys@[j] != k,
        decreases keys@.len() - i,
    {
        if keys[i] == k {
            return true;
        }
        i = i + 1;
    }
    false
}

fn props_update_exec(bp: &mut Vec<SlotHash>, slot: u64, hash: u64)
    requires
        props_slots_distinct(old(bp)@),
    ensures
        final(bp)@ == props_update(old(bp)@, slot, hash),
{
    let mut i: usize = 0;
    while i < bp.len()
        invariant
            i <= bp@.len(),
            bp@ == old(bp)@,
            props_slots_distinct(bp@),
            forall|j: int| 0 <= j < i ==> bp@[j].slot != slot,
        decreases bp@.len() - i,
    {
        if bp[i].slot == slot {
            proof {
                assert(props_has(bp@, slot));
                let ii = props_index(bp@, slot);
                assert(0 <= ii < bp@.len() && bp@[ii].slot == slot);
            }
            set_vec(bp, i, SlotHash { slot, hash });
            return ;
        }
        i = i + 1;
    }
    proof {
        assert(!props_has(bp@, slot));
    }
    bp.push(SlotHash { slot, hash });
}

fn vio_insert_exec(vs: &mut Vec<Violation>, v: Violation)
    ensures
        final(vs)@ == vio_insert(old(vs)@, v),
{
    let mut i: usize = 0;
    while i < vs.len()
        invariant
            i <= vs@.len(),
            vs@ == old(vs)@,
            forall|j: int| 0 <= j < i ==> vs@[j] != v,
        decreases vs@.len() - i,
    {
        if vs[i] == v {
            return ;
        }
        i = i + 1;
    }
    vs.push(v);
}

fn pr_update_exec(ps: &mut Vec<PartitionRecord>, partition_id: u64, members: u64)
    requires
        pr_ids_distinct(old(ps)@),
    ensures
        final(ps)@ == pr_update(old(ps)@, partition_id, members),
{
    let mut i: usize = 0;
    while i < ps.len()
        invariant
            i <= ps@.len(),
            ps@ == old(ps)@,
            pr_ids_distinct(ps@),
            forall|j: int| 0 <= j < i ==> ps@[j].partition_id != partition_id,
        decreases ps@.len() - i,
    {
        if ps[i].partition_id == partition_id {
            proof {
                assert(pr_has(ps@, partition_id));
                let ii = pr_index(ps@, partition_id);
                assert(0 <= ii < ps@.len() && ps@[ii].partition_id == partition_id);
            }
            set_vec(ps, i, PartitionRecord { partition_id, members });
            return ;
        }
        i = i + 1;
    }
    proof {
        assert(!pr_has(ps@, partition_id));
    }
    ps.push(PartitionRecord { partition_id, members });
}

fn eligible_mask_exec(validators: &Vec<ValidatorState>) -> (r: u64)
    requires
        validators@.len() <= 64,
    ensures
        r == eligible_mask(
            validators@.map_values(|v: ValidatorState| v@),
            validators@.len() as int,
        ),
{
    let ghost vals = validators@.map_values(|v: ValidatorState| v@);
    let mut m: u64 = 0;
    let mut i: usize = 0;
    while i < validators.len()
        invariant
            i <= validators@.len(),
            validators@.len() <= 64,
            vals == validators@.map_values(|v: ValidatorState| v@),
            m == eligible_mask(vals, i as int),
        decreases validators@.len() - i,
    {
        proof {
            assert(vals[i as int] == validators@[i as int]@);
        }
        if !validators[i].is_byzantine && validators[i].is_responsive
            && !validators[i].is_partitioned {
            m = m | (1u64 << (i as u64));
        } else {
            proof {
                assert(m | 0u64 == m) by (bit_vector);
            }
        }
        i = i + 1;
    }
    m
}

// ------------------------------------------------------------------
// Executable state
// ------------------------------------------------------------------

impl ValidatorState {
    fn duplicate(&self) -> (r: ValidatorState)
        ensures
            r@ == self@,
    {
        ValidatorState {
            id: self.id,
            is_byzantine: self.is_byzantine,
            is_responsive: self.is_responsive,
            is_partitioned: self.is_partitioned,
            votes_cast: copy_vec(&self.votes_cast),
            vote_pool: copy_vec(&self.vote_pool),
            certificates: copy_vec(&self.certificates),
            current_slot: self.current_slot,
        }
    }
}

impl ResilienceState {
    /// A fresh copy with the same mathematical value.
    pub fn duplicate(&self) -> (r: ResilienceState)
        ensures
            r@ == self@,
    {
        let mut validators: Vec<ValidatorState> = Vec::new();
        let mut i: usize = 0;
        while i < self.validators.len()
            invariant
                i <= self.validators@.len(),
                validators@.len() == i,
                forall|j: int| 0 <= j < i ==> #[trigger] validators@[j]@ == self.validators@[j]@,
            decreases self.validators@.len() - i,
        {
            let v = self.validators[i].duplicate();
            validators.push(v);
            i = i + 1;
        }
        let r = ResilienceState {
            network: copy_vec(&self.network),
            validators,
            current_slot: self.current_slot,
            stake_distribution: copy_vec(&self.stake_distribution),
            block_proposals: copy_vec(&self.block_proposals),
            active_partitions: copy_vec(&self.active_partitions),
            safety_violations: copy_vec(&self.safety_violations),
        };
        proof {
            assert(r@.validators =~= self@.validators);
            assert(r@ =~= self@);
        }
        r
    }

    /// The initial state: the first `byzantine_count` validators are
    /// Byzantine, everyone responsive and connected, stake split evenly.
    pub fn new(validator_count: usize, byzantine_count: usize) -> (r: ResilienceState)
        requires
            1 <= validator_count <= 64,
        ensures
            r@ == rs_init(validator_count as int, byzantine_count as int),
    {
        let stake = TOTAL_STAKE / (validator_count as u64);
        let mut validators: Vec<ValidatorState> = Vec::new();
        let mut stake_distribution: Vec<u64> = Vec::new();
        let mut i: usize = 0;
        while i < validator_count
            invariant
                i <= validator_count,
                stake == TOTAL_STAKE / (validator_count as u64),
                validators@.len() == i,
                stake_distribution@.len() == i,
                forall|j: int|
                    0 <= j < i ==> #[trigger] validators@[j]@ == rs_init(
                        validator_count as int,
                        byzantine_count as int,
                    ).validators[j],
                forall|j: int| 0 <= j < i ==> #[trigger] stake_distribution@[j] == stake,
            decreases validator_count - i,
        {
            validators.push(
                ValidatorState {
                    id: i,
                    is_byzantine: i < byzantine_count,
                    is_responsive: true,
                    is_partitioned: false,
                    votes_cast: Vec::new(),
                    vote_pool: Vec::new(),
                    certificates: Vec::new(),
                    current_slot: 0,
                },
            );
            stake_distribution.push(stake);
            proof {
                assert(validators@[i as int]@ =~= rs_init(
                    validator_count as int,
                    byzantine_count as int,
                ).validators[i as int]);
            }
            i = i + 1;
        }
        let r = ResilienceState {
            network: Vec::new(),
            validators,
            current_slot: 0,
            stake_distribution,
            block_proposals: Vec::new(),
            active_partitions: Vec::new(),
            safety_violations: Vec::new(),
        };
        proof {
            let gi = rs_init(validator_count as int, byzantine_count as int);
            assert(r@.validators =~= gi.validators);
            assert(r@.stake_distribution =~= gi.stake_distribution);
            assert(r@ =~= gi);
        }
        r
    }

    /// Whether the eligible voters behind `(slot, hash)` in the first
    /// validator's pool reach the quorum.
    pub fn can_certify(&self, slot: u64, hash: u64) -> (r: bool)
        requires
            1 <= self@.validators.len() <= 64,
            self@.stake_distribution.len() == self@.validators.len(),
            stake_total(self@.stake_distribution, self@.validators.len() as int) <= u64::MAX,
            pool_keys_distinct(self@.validators[0].vote_pool),
        ensures
            r == spec_can_certify(self@, VoteKey { slot, hash: Some(hash) }),
    {
        let k = VoteKey { slot, hash: Some(hash) };
        proof {
            assert(self@.validators[0] == self.validators@[0]@);
            assert(self@.validators[0].vote_pool == self.validators@[0].vote_pool@);
        }
        let found = pool_find(&self.validators[0].vote_pool, k);
        match found {
            Some(i) => {
                let voters = self.validators[0].vote_pool[i].voters;
                let eligible = eligible_mask_exec(&self.validators);
                let backing = stake_for_mask(&self.stake_distribution, voters & eligible);
                let threshold = TOTAL_STAKE * CERTIFICATE_THRESHOLD_PERCENT / 100;
                backing >= threshold
            },
            None => false,
        }
    }

    /// Whether cutting off the members of `affected` removes more than a
    /// quorum of stake.
    pub fn is_partition_critical(&self, affected: u64) -> (r: bool)
        requires
            self@.validators.len() <= 64,
            self@.stake_distribution.len() == self@.validators.len(),
            stake_total(self@.stake_distribution, self@.validators.len() as int) <= u64::MAX,
        ensures
            r == spec_partition_critical(self@, affected),
    {
        let affected_stake = stake_for_mask(&self.stake_distribution, affected);
        let threshold = TOTAL_STAKE * CERTIFICATE_THRESHOLD_PERCENT / 100;
        affected_stake > threshold
    }

    /// Scan every validator's certificate ledger for conflicting pairs and
    /// record each pair found.
    pub fn check_safety_violations(&mut self)
        ensures
            final(self)@ == (ResilienceStateV {
                safety_violations: spec_scan_violations(old(self)@),
                ..old(self)@
            }),
    {
        let n = self.validators.len();
        let mut v: usize = 0;
        while v < n
            invariant
                v <= n,
                n == self.validators@.len(),
                self@.network == old(self)@.network,
                self@.validators == old(self)@.validators,
                self@.current_slot == old(self)@.current_slot,
                self@.stake_distribution == old(self)@.stake_distribution,
                self@.block_proposals == old(self)@.block_proposals,
                self@.active_partitions == old(self)@.active_partitions,
                self@.safety_violations == scan_validators(
                    old(self)@.validators,
                    old(self)@.safety_violations,
                    v as int,
                ),
            decreases n - v,
        {
            proof {
                assert(self@.validators[v as int] == self.validators@[v as int]@);
            }
            let ghost certs_v = old(self)@.validators[v as int].certificates;
            let ghost acc_v = scan_validators(
                old(self)@.validators,
                old(self)@.safety_violations,
                v as int,
            );
            let c_len = self.validators[v].certificates.len();
            let mut i: usize = 0;
            while i < c_len
                invariant
                    i <= c_len,
                    v < n,
                    n == self.validators@.len(),
                    c_len == self.validators@[v as int].certificates@.len(),
                    certs_v == self.validators@[v as int].certificates@,
                    self@.network == old(self)@.network,
                    self@.validators == old(self)@.validators,
                    self@.current_slot == old(self)@.current_slot,
                    self@.stake_distribution == old(self)@.stake_distribution,
                    self@.block_proposals == old(self)@.block_proposals,
                    self@.active_partitions == old(self)@.active_partitions,
                    self@.safety_violations == scan_certs(certs_v, acc_v, i as int),
                decreases c_len - i,
            {
                let mut j: usize = 0;
                while j < c_len
                    invariant
                        i < c_len,
                        j <= c_len,
                        v < n,
                        n == self.validators@.len(),
                        c_len == self.validators@[v as int].certificates@.len(),
                        certs_v == self.validators@[v as int].certificates@,
                        self@.network == old(self)@.network,
                        self@.validators == old(self)@.validators,
                        self@.current_slot == old(self)@.current_slot,
                        self@.stake_distribution == old(self)@.stake_distribution,
                        self@.block_proposals == old(self)@.block_proposals,
                        self@.active_partitions == old(self)@.active_partitions,
                        self@.safety_violations == scan_inner(
                            certs_v,
                            scan_certs(certs_v, acc_v, i as int),
                            i as int,
                            j as int,
                        ),
                    decreases c_len - j,
                {
                    let a = self.validators[v].certificates[i];
                    let b = self.validators[v].certificates[j];
                    if a.slot == b.slot && a.hash != b.hash {
                        vio_insert_exec(
                            &mut self.safety_violations,
                            Violation { slot: a.slot, hash1: a.hash, hash2: b.hash },
                        );
                    }
                    j = j + 1;
                }
                i = i + 1;
            }
            proof {
                assert(self@.safety_violations == scan_validators(
                    old(self)@.validators,
                    old(self)@.safety_violations,
                    v as int + 1,
                ));
            }
            v = v + 1;
        }
        proof {
            assert(final(self)@ =~= (ResilienceStateV {
                safety_violations: spec_scan_violations(old(self)@),
                ..old(self)@
            }));
        }
    }
}

// ------------------------------------------------------------------
// Action generation
// ------------------------------------------------------------------

/// One delivery action for every message in flight.
pub open spec fn deliver_actions(net: Seq<MessageInTransit>) -> Seq<ResilienceAction> {
    Seq::new(net.len(), |i: int| ResilienceAction::DeliverMessage { msg: net[i] })
}

/// Proposals for one slot by the proposers below `k`.
pub open spec fn propose_props(s: ResilienceStateV, slot: u64, k: int) -> Seq<ResilienceAction>
    decreases k,
{
    if k <= 0 {
        Seq::empty()
    } else {
        propose_props(s, slot, k - 1) + (if !props_has(s.block_proposals, slot) {
            seq![ResilienceAction::ProposeBlock { slot, proposer: (k - 1) as usize }]
        } else {
            Seq::empty()
        })
    }
}

/// Proposals for the slots in `[cur, hi]`.
pub open spec fn propose_slots(s: ResilienceStateV, n: int, cur: int, hi: int) -> Seq<
    ResilienceAction,
>
    decreases hi - cur + 1,
{
    if hi < cur {
        Seq::empty()
    } else {
        propose_slots(s, n, cur, hi - 1) + propose_props(s, hi as u64, n)
    }
}

/// Conflicting-vote attempts for one slot by the Byzantine validators
/// below `k`.
pub open spec fn conflict_advs(slot: u64, k: int) -> Seq<ResilienceAction>
    decreases k,
{
    if k <= 0 {
        Seq::empty()
    } else {
        conflict_advs(slot, k - 1) + seq![
            ResilienceAction::CreateConflictingVote { slot, byzantine_validator: (k - 1) as usize },
        ]
    }
}

/// Conflicting-vote attempts for the slots `1..=sl`.
pub open spec fn conflict_slots(m: ResilienceModel, sl: int) -> Seq<ResilienceAction>
    decreases sl,
{
    if sl <= 0 {
        Seq::empty()
    } else {
        conflict_slots(m, sl - 1) + conflict_advs(sl as u64, m.byzantine_count as int)
    }
}

/// The mask holding the validators below `size`.
pub open spec fn low_mask(size: int) -> u64 {
    if size >= 64 {
        0xffff_ffff_ffff_ffffu64
    } else {
        ((1u64 << size as u64) - 1) as u64
    }
}

/// Partition triggers of one identifier for the prefix sizes `1..=k`.
pub open spec fn partition_sizes(partition_id: u64, k: int) -> Seq<ResilienceAction>
    decreases k,
{
    if k <= 0 {
        Seq::empty()
    } else {
        partition_sizes(partition_id, k - 1) + seq![
            ResilienceAction::TriggerPartition { partition_id, members: low_mask(k) },
        ]
    }
}

/// Partition triggers for the identifiers `1..=id`.
pub open spec fn partition_ids(n: int, id: int) -> Seq<ResilienceAction>
    decreases id,
{
    if id <= 0 {
        Seq::empty()
    } else {
        partition_ids(n, id - 1) + partition_sizes(id as u64, n)
    }
}

/// One recovery action for every active partition.
pub open spec fn recover_actions(ps: Seq<PartitionRecord>) -> Seq<ResilienceAction> {
    Seq::new(
        ps.len(),
        |i: int| ResilienceAction::RecoverFromPartition { partition_id: ps[i].partition_id },
    )
}

/// Every action enabled in `s`, in generation order.
pub open spec fn rs_actions(m: ResilienceModel, s: ResilienceStateV) -> Seq<ResilienceAction> {
    deliver_actions(s.network) + propose_slots(
        s,
        m.validator_count as int,
        s.current_slot as int,
        m.max_slot as int,
    ) + conflict_slots(m, m.max_slot as int) + partition_ids(m.validator_count as int, 3)
        + recover_actions(s.active_partitions) + (if s.current_slot < m.max_slot {
        seq![ResilienceAction::AdvanceSlot]
    } else {
        Seq::empty()
    })
}

// ------------------------------------------------------------------
// Properties
// ------------------------------------------------------------------

/// Mask of the Byzantine validators below `k`.
pub open spec fn rs_byz_mask(vals: Seq<ValidatorStateV>, k: int) -> u64
    decreases k,
{
    if k <= 0 {
        0u64
    } else {
        rs_byz_mask(vals, k - 1) | (if vals[k - 1].is_byzantine {
            1u64 << ((k - 1) as u64)
        } else {
            0u64
        })
    }
}

/// No conflicting pair of certificates has been recorded.
pub open spec fn prop_safety_byzantine(s: ResilienceStateV) -> bool {
    s.safety_violations.len() == 0
}

/// With Byzantine stake bounded by a fifth of the total, no conflicting
/// pair has been recorded.
pub open spec fn prop_safety_byzantine_threshold(s: ResilienceStateV) -> bool {
    let n = s.validators.len() as int;
    stake_in(s.stake_distribution, rs_byz_mask(s.validators, n), n) <= TOTAL_STAKE * 20 / 100
        ==> s.safety_violations.len() == 0
}

/// Progress under bounded non-responsive stake.  A single state cannot
/// refute bounded-horizon progress, so as a state predicate this check
/// holds degenerately; actual progress is exercised by the bounded
/// simulation of the liveness model.
pub open spec fn prop_liveness_non_responsive(s: ResilienceStateV) -> bool {
    true
}

/// Recovery from non-critical partitions.  The recovery action is enabled
/// for every active partition in every state, so as a state predicate this
/// check holds degenerately; the healing path is exercised by scenario
/// tests.
pub open spec fn prop_partition_recovery(s: ResilienceStateV) -> bool {
    true
}

/// No validator records two certificates for one slot.
pub open spec fn prop_certificate_uniqueness(s: ResilienceStateV) -> bool {
    forall|v: int, i: int, j: int|
        0 <= v < s.validators.len() && 0 <= i < s.validators[v].certificates.len() && 0 <= j
            < s.validators[v].certificates.len() && #[trigger] s.validators[v].certificates[i].slot
            == #[trigger] s.validators[v].certificates[j].slot ==> i == j
}

/// The invariants checked at every visited state.
#[derive(Clone, Copy, Debug, PartialEq, Eq, PartialOrd, Ord, Hash, Structural)]
pub enum ResilienceProperty {
    SafetyByzantine,
    SafetyByzantineThreshold,
    LivenessNonResponsive,
    PartitionRecovery,
    CertificateUniqueness,
}

/// The properties violated in `s`, in a fixed order.
pub open spec fn rs_violations(s: ResilienceStateV) -> Seq<ResilienceProperty> {
    (if !prop_safety_byzantine(s) {
        seq![ResilienceProperty::SafetyByzantine]
    } else {
        Seq::empty()
    }) + (if !prop_safety_byzantine_threshold(s) {
        seq![ResilienceProperty::SafetyByzantineThreshold]
    } else {
        Seq::empty()
    }) + (if !prop_certificate_uniqueness(s) {
        seq![ResilienceProperty::CertificateUniqueness]
    } else {
        Seq::empty()
    })
}

// ------------------------------------------------------------------
// The model, executably
// ------------------------------------------------------------------

fn broadcast_unpartitioned_exec(
    net: &mut Vec<MessageInTransit>,
    validators: &Vec<ValidatorState>,
    msg: ResilienceMessage,
    n: usize,
    skip: usize,
)
    requires
        n <= old(net)@.len() + usize::MAX,
        n <= validators@.len(),
    ensures
        final(net)@ == net_broadcast_unpartitioned(
            old(net)@,
            validators@.map_values(|v: ValidatorState| v@),
            msg,
            n as int,
            skip as int,
        ),
{
    let ghost vals = validators@.map_values(|v: ValidatorState| v@);
    let mut i: usize = 0;
    while i < n
        invariant
            i <= n,
            n <= validators@.len(),
            vals == validators@.map_values(|v: ValidatorState| v@),
            net@ == net_broadcast_unpartitioned(old(net)@, vals, msg, i as int, skip as int),
        decreases n - i,
    {
        proof {
            assert(vals[i as int] == validators@[i as int]@);
        }
        if i != skip && !validators[i].is_partitioned {
            net_insert_exec(net, MessageInTransit { dst: i, msg });
        }
        i = i + 1;
    }
}

fn recovery_broadcast_exec(net: &mut Vec<MessageInTransit>, slot: u64, members: u64, n: usize)
    requires
        n <= 64,
    ensures
        final(net)@ == recovery_broadcast(old(net)@, slot, members, n as int),
{
    let mut i: usize = 0;
    while i < n
        invariant
            i <= n,
            n <= 64,
            net@ == recovery_broadcast(old(net)@, slot, members, i as int),
        decreases n - i,
    {
        if mask_contains(members, i) {
            net_insert_exec(
                net,
                MessageInTransit {
                    dst: i,
                    msg: ResilienceMessage::RecoveryMessage { slot, validator: i },
                },
            );
        }
        i = i + 1;
    }
}

impl ResilienceModel {
    /// The single initial state of the model.
    pub fn init_states(&self) -> (r: Vec<ResilienceState>)
        requires
            1 <= self.validator_count <= 64,
        ensures
            r@.len() == 1,
            r@[0]@ == rs_init(self.validator_count as int, self.byzantine_count as int),
    {
        let mut r: Vec<ResilienceState> = Vec::new();
        r.push(ResilienceState::new(self.validator_count, self.byzantine_count));
        r
    }

    /// Pool a delivered vote at the recipient and certify on a quorum.
    fn apply_vote(&self, s2: &mut ResilienceState, d: usize, k: VoteKey, voter: usize)
        requires
            wf_state(*self, old(s2)@),
            d < self.validator_count,
            voter < 64,
            k.hash is Some,
        ensures
            final(s2)@ == rs_deliver_vote(*self, old(s2)@, old(s2)@.network, d as int, k, voter as int),
    {
        let vold = &s2.validators[d];
        let ghost oldv = vold@;
        proof {
            assert(old(s2)@.validators[d as int] == oldv);
            assert(pool_keys_distinct(oldv.vote_pool));
        }
        let mut pool = copy_vec(&vold.vote_pool);
        pool_add_exec(&mut pool, k, voter);
        proof {
            crate::certificate::lemma_pool_add_distinct(oldv.vote_pool, k, voter as int);
            assert(pool_has(pool@, k)) by {
                let p0 = oldv.vote_pool;
                if pool_has(p0, k) {
                    let i = pool_index(p0, k);
                    assert(pool@[i].key == k);
                } else {
                    assert(pool@[p0.len() as int].key == k);
                }
            }
        }
        let found = pool_find(&pool, k);
        let i = match found {
            Some(i) => i,
            None => {
                proof {
                    assert(false);
                }
                0
            },
        };
        let voters = pool[i].voters;
        let eligible = eligible_mask_exec(&s2.validators);
        proof {
            assert(s2@.validators == old(s2)@.validators);
        }
        let backing = stake_for_mask(&s2.stake_distribution, voters & eligible);
        let threshold = TOTAL_STAKE * CERTIFICATE_THRESHOLD_PERCENT / 100;
        let quorum = backing >= threshold;
        let hash = match k.hash {
            Some(h) => h,
            None => {
                proof {
                    assert(false);
                }
                0
            },
        };
        let vold = &s2.validators[d];
        let nv = ValidatorState {
            id: vold.id,
            is_byzantine: vold.is_byzantine,
            is_responsive: vold.is_responsive,
            is_partitioned: vold.is_partitioned,
            votes_cast: copy_vec(&vold.votes_cast),
            vote_pool: pool,
            certificates: {
                let mut c = copy_vec(&vold.certificates);
                if quorum {
                    props_update_exec(&mut c, k.slot, hash);
                }
                c
            },
            current_slot: vold.current_slot,
        };
        set_vec(&mut s2.validators, d, nv);
        proof {
            let g = rs_deliver_vote(*self, old(s2)@, old(s2)@.network, d as int, k, voter as int);
            assert(s2@.validators =~= g.validators);
            assert(s2@ =~= g);
        }
    }

    /// The unique successor of `last_state` under `action`, or `None` when
    /// the action delivers a message no longer in flight.  Every successor
    /// carries a freshly scanned violation list.
    pub fn next_state(&self, last_state: &ResilienceState, action: ResilienceAction) -> (r: Option<
        ResilienceState,
    >)
        requires
            wf_model(*self),
            wf_state(*self, last_state@),
            wf_action(*self, action),
            action is AdvanceSlot ==> last_state@.current_slot < u64::MAX,
        ensures
            match r {
                Some(s2) => rs_step(*self, last_state@, action) == Some(s2@),
                None => rs_step(*self, last_state@, action) is None,
            },
    {
        let mut s2 = match action {
            ResilienceAction::ProposeBlock { slot, proposer } => {
                let mut s2 = last_state.duplicate();
                let hash = slot * 1000 + (proposer as u64);
                props_update_exec(&mut s2.block_proposals, slot, hash);
                broadcast_unpartitioned_exec(
                    &mut s2.network,
                    &last_state.validators,
                    ResilienceMessage::BlockProposal { slot, hash, proposer },
                    self.validator_count,
                    proposer,
                );
                proof {
                    let g = rs_step_pre(*self, last_state@, action);
                    assert(g == Some(s2@)) by {
                        assert(s2@ =~= g->Some_0);
                    }
                }
                s2
            },
            ResilienceAction::DeliverMessage { msg } => {
                if !net_contains(&last_state.network, msg) {
                    return None;
                }
                let mut s2 = last_state.duplicate();
                net_remove_exec(&mut s2.network, msg);
                proof {
                    lemma_distinct_remove(last_state@.network, net_index(last_state@.network, msg));
                }
                let d = msg.dst;
                match msg.msg {
                    ResilienceMessage::BlockProposal { slot, hash, proposer } => {
                        proof {
                            assert(last_state@.validators[d as int] == s2.validators@[d as int]@);
                        }
                        let k = VoteKey { slot, hash: Some(hash) };
                        if s2.validators[d].is_responsive && !s2.validators[d].is_partitioned
                            && !keys_contains(&s2.validators[d].votes_cast, k) {
                            broadcast_unpartitioned_exec(
                                &mut s2.network,
                                &last_state.validators,
                                ResilienceMessage::Vote { slot, hash, voter: d },
                                self.validator_count,
                                self.validator_count,
                            );
                            let vold = &s2.validators[d];
                            let mut votes_cast = copy_vec(&vold.votes_cast);
                            votes_cast.push(k);
                            let nv = ValidatorState {
                                id: vold.id,
                                is_byzantine: vold.is_byzantine,
                                is_responsive: vold.is_responsive,
                                is_partitioned: vold.is_partitioned,
                                votes_cast,
                                vote_pool: copy_vec(&vold.vote_pool),
                                certificates: copy_vec(&vold.certificates),
                                current_slot: vold.current_slot,
                            };
                            set_vec(&mut s2.validators, d, nv);
                        }
                    },
                    ResilienceMessage::Vote { slot, hash, voter } => {
                        self.apply_vote(&mut s2, d, VoteKey { slot, hash: Some(hash) }, voter);
                    },
                    ResilienceMessage::ConflictingVote { slot, hash, voter } => {
                        self.apply_vote(&mut s2, d, VoteKey { slot, hash: Some(hash) }, voter);
                    },
                    ResilienceMessage::PartitionEvent { partition_id, members } => {
                        let mut i: usize = 0;
                        while i < s2.validators.len()
                            invariant
                                i <= s2.validators@.len(),
                                s2.validators@.len() == last_state@.validators.len(),
                                s2.validators@.len() <= 64,
                                s2@.network == last_state@.network.remove(
                                    net_index(last_state@.network, msg),
                                ),
                                s2@.current_slot == last_state@.current_slot,
                                s2@.stake_distribution == last_state@.stake_distribution,
                                s2@.block_proposals == last_state@.block_proposals,
                                s2@.active_partitions == last_state@.active_partitions,
                                s2@.safety_violations == last_state@.safety_violations,
                                pr_ids_distinct(s2@.active_partitions),
                                forall|j: int|
                                    0 <= j < i ==> #[trigger] s2.validators@[j]@ == set_partitioned(
                                        last_state@.validators,
                                        members,
                                        true,
                                    )[j],
                                forall|j: int|
                                    i <= j < s2.validators@.len() ==> #[trigger] s2.validators@[j]@
                                        == last_state@.validators[j],
                            decreases s2.validators@.len() - i,
                        {
                            proof {
                                assert(s2.validators@[i as int]@ == last_state@.validators[i as int]);
                            }
                            if mask_contains(members, i) {
                                let vold = &s2.validators[i];
                                let nv = ValidatorState {
                                    id: vold.id,
                                    is_byzantine: vold.is_byzantine,
                                    is_responsive: vold.is_responsive,
                                    is_partitioned: true,
                                    votes_cast: copy_vec(&vold.votes_cast),
                                    vote_pool: copy_vec(&vold.vote_pool),
                                    certificates: copy_vec(&vold.certificates),
                                    current_slot: vold.current_slot,
                                };
                                set_vec(&mut s2.validators, i, nv);
                                proof {
                                    assert(s2.validators@[i as int]@ =~= set_partitioned(
                                        last_state@.validators,
                                        members,
                                        true,
                                    )[i as int]);
                                }
                            } else {
                                proof {
                                    assert(s2.validators@[i as int]@ =~= set_partitioned(
                                        last_state@.validators,
                                        members,
                                        true,
                                    )[i as int]);
                                }
                            }
                            i = i + 1;
                        }
                        pr_update_exec(&mut s2.active_partitions, partition_id, members);
                    },
                    ResilienceMessage::RecoveryMessage { slot: _, validator } => {
                        proof {
                            assert(last_state@.validators[validator as int]
                                == s2.validators@[validator as int]@);
                        }
                        let vold = &s2.validators[validator];
                        let nv = ValidatorState {
                            id: vold.id,
                            is_byzantine: vold.is_byzantine,
                            is_responsive: vold.is_responsive,
                            is_partitioned: false,
                            votes_cast: copy_vec(&vold.votes_cast),
                            vote_pool: copy_vec(&vold.vote_pool),
                            certificates: copy_vec(&vold.certificates),
                            current_slot: vold.current_slot,
                        };
                        set_vec(&mut s2.validators, validator, nv);
                    },
                }
                proof {
                    let g = rs_step_pre(*self, last_state@, action);
                    assert(g == Some(s2@)) by {
                        assert(g is Some);
                        if msg.msg is PartitionEvent {
                            assert(s2@.validators =~= g->Some_0.validators);
                        }
                        if msg.msg is RecoveryMessage {
                            assert(s2@.validators =~= g->Some_0.validators);
                        }
                        assert(s2@ =~= g->Some_0);
                    }
                }
                s2
            },
            ResilienceAction::CreateConflictingVote { slot, byzantine_validator } => {
                let mut s2 = last_state.duplicate();
                let hash = slot * 1000 + 999;
                net_insert_exec(
                    &mut s2.network,
                    MessageInTransit {
                        dst: byzantine_validator,
                        msg: ResilienceMessage::ConflictingVote {
                            slot,
                            hash,
                            voter: byzantine_validator,
                        },
                    },
                );
                proof {
                    let g = rs_step_pre(*self, last_state@, action);
                    assert(g == Some(s2@)) by {
                        assert(s2@ =~= g->Some_0);
                    }
                }
                s2
            },
            ResilienceAction::TriggerPartition { partition_id, members } => {
                let mut s2 = last_state.duplicate();
                net_insert_exec(
                    &mut s2.network,
                    MessageInTransit {
                        dst: 0,
                        msg: ResilienceMessage::PartitionEvent { partition_id, members },
                    },
                );
                proof {
                    let g = rs_step_pre(*self, last_state@, action);
                    assert(g == Some(s2@)) by {
                        assert(s2@ =~= g->Some_0);
                    }
                }
                s2
            },
            ResilienceAction::RecoverFromPartition { partition_id } => {
                let mut s2 = last_state.duplicate();
                let found = self.find_partition(&s2, partition_id);
                match found {
                    Some(idx) => {
                        let members = s2.active_partitions[idx].members;
                        s2.active_partitions.remove(idx);
                        recovery_broadcast_exec(
                            &mut s2.network,
                            s2.current_slot,
                            members,
                            self.validator_count,
                        );
                    },
                    None => {},
                }
                proof {
                    let g = rs_step_pre(*self, last_state@, action);
                    assert(g == Some(s2@)) by {
                        assert(s2@ =~= g->Some_0);
                    }
                }
                s2
            },
            ResilienceAction::AdvanceSlot => {
                let mut s2 = last_state.duplicate();
                let slot2 = s2.current_slot + 1;
                s2.current_slot = slot2;
                let mut i: usize = 0;
                while i < s2.validators.len()
                    invariant
                        i <= s2.validators@.len(),
                        s2.validators@.len() == last_state@.validators.len(),
                        s2@.network == last_state@.network,
                        s2@.stake_distribution == last_state@.stake_distribution,
                        s2@.block_proposals == last_state@.block_proposals,
                        s2@.active_partitions == last_state@.active_partitions,
                        s2@.safety_violations == last_state@.safety_violations,
                        s2@.current_slot == slot2,
                        slot2 == last_state@.current_slot + 1,
                        forall|j: int|
                            0 <= j < i ==> #[trigger] s2.validators@[j]@ == (ValidatorStateV {
                                current_slot: slot2,
                                ..last_state@.validators[j]
                            }),
                        forall|j: int|
                            i <= j < s2.validators@.len() ==> #[trigger] s2.validators@[j]@
                                == last_state@.validators[j],
                    decreases s2.validators@.len() - i,
                {
                    proof {
                        assert(s2.validators@[i as int]@ == last_state@.validators[i as int]);
                    }
                    let vold = &s2.validators[i];
                    let nv = ValidatorState {
                        id: vold.id,
                        is_byzantine: vold.is_byzantine,
                        is_responsive: vold.is_responsive,
                        is_partitioned: vold.is_partitioned,
                        votes_cast: copy_vec(&vold.votes_cast),
                        vote_pool: copy_vec(&vold.vote_pool),
                        certificates: copy_vec(&vold.certificates),
                        current_slot: slot2,
                    };
                    set_vec(&mut s2.validators, i, nv);
                    proof {
                        assert(s2.validators@[i as int]@ =~= (ValidatorStateV {
                            current_slot: slot2,
                            ..last_state@.validators[i as int]
                        }));
                    }
                    i = i + 1;
                }
                proof {
                    let g = rs_step_pre(*self, last_state@, action);
                    assert(g == Some(s2@)) by {
                        assert(s2@.validators =~= g->Some_0.validators);
                        assert(s2@ =~= g->Some_0);
                    }
                }
                s2
            },
        };
        s2.check_safety_violations();
        proof {
            let g = rs_step(*self, last_state@, action);
            assert(g == Some(s2@)) by {
                assert(s2@ =~= g->Some_0);
            }
        }
        Some(s2)
    }

    fn find_partition(&self, state: &ResilienceState, partition_id: u64) -> (r: Option<usize>)
        requires
            pr_ids_distinct(state@.active_partitions),
        ensures
            match r {
                Some(i) => pr_has(state@.active_partitions, partition_id) && i as int == pr_index(
                    state@.active_partitions,
                    partition_id,
                ) && i < state@.active_partitions.len(),
                None => !pr_has(state@.active_partitions, partition_id),
            },
    {
        let ps = &state.active_partitions;
        let mut i: usize = 0;
        while i < ps.len()
            invariant
                ps@ == state@.active_partitions,
                pr_ids_distinct(ps@),
                i <= ps@.len(),
                forall|j: int| 0 <= j < i ==> ps@[j].partition_id != partition_id,
            decreases ps@.len() - i,
        {
            if ps[i].partition_id == partition_id {
                proof {
                    assert(pr_has(ps@, partition_id));
                    let ii = pr_index(ps@, partition_id);
                    assert(0 <= ii < ps@.len() && ps@[ii].partition_id == partition_id);
                    assert(ii == i as int);
                }
                return Some(i);
            }
            i = i + 1;
        }
        None
    }

    /// Whether no conflicting pair has been recorded.
    pub fn safety_byzantine(&self, state: &ResilienceState) -> (r: bool)
        ensures
            r == prop_safety_byzantine(state@),
    {
        state.safety_violations.len() == 0
    }

    /// Whether no conflicting pair has been recorded, under bounded
    /// Byzantine stake.
    pub fn safety_byzantine_threshold(&self, state: &ResilienceState) -> (r: bool)
        requires
            state@.validators.len() <= 64,
            state@.stake_distribution.len() == state@.validators.len(),
            stake_total(state@.stake_distribution, state@.validators.len() as int) <= u64::MAX,
        ensures
            r == prop_safety_byzantine_threshold(state@),
    {
        let mut m: u64 = 0;
        let mut i: usize = 0;
        while i < state.validators.len()
            invariant
                i <= state.validators@.len(),
                state.validators@.len() <= 64,
                m == rs_byz_mask(state@.validators, i as int),
            decreases state.validators@.len() - i,
        {
            proof {
                assert(state@.validators[i as int] == state.validators@[i as int]@);
            }
            if state.validators[i].is_byzantine {
                m = m | (1u64 << (i as u64));
            } else {
                proof {
                    assert(m | 0u64 == m) by (bit_vector);
                }
            }
            i = i + 1;
        }
        let byz_stake = stake_for_mask(&state.stake_distribution, m);
        if byz_stake > TOTAL_STAKE * 20 / 100 {
            true
        } else {
            state.safety_violations.len() == 0
        }
    }

    /// Progress under bounded non-responsive stake; see
    /// `prop_liveness_non_responsive`.
    pub fn liveness_non_responsive(&self, state: &ResilienceState) -> (r: bool)
        ensures
            r == prop_liveness_non_responsive(state@),
    {
        true
    }

    /// Recovery from non-critical partitions; see
    /// `prop_partition_recovery`.
    pub fn partition_recovery(&self, state: &ResilienceState) -> (r: bool)
        ensures
            r == prop_partition_recovery(state@),
    {
        true
    }

    /// Whether no validator records two certificates for one slot.
    pub fn certificate_uniqueness(&self, state: &ResilienceState) -> (r: bool)
        ensures
            r == prop_certificate_uniqueness(state@),
    {
        let mut v: usize = 0;
        while v < state.validators.len()
            invariant
                v <= state.validators@.len(),
                forall|a: int, i: int, j: int|
                    0 <= a < v && 0 <= i < state@.validators[a].certificates.len() && 0 <= j
                        < state@.validators[a].certificates.len()
                        && #[trigger] state@.validators[a].certificates[i].slot
                        == #[trigger] state@.validators[a].certificates[j].slot ==> i == j,
            decreases state.validators@.len() - v,
        {
            proof {
                assert(state@.validators[v as int] == state.validators@[v as int]@);
            }
            let certs = &state.validators[v].certificates;
            let mut i: usize = 0;
            while i < certs.len()
                invariant
                    i <= certs@.len(),
                    certs@ == state@.validators[v as int].certificates,
                    v < state.validators@.len(),
                    forall|a: int, b: int|
                        0 <= a < i && 0 <= b < certs@.len() && #[trigger] certs@[a].slot
                            == #[trigger] certs@[b].slot ==> a == b,
                decreases certs@.len() - i,
            {
                let mut j: usize = 0;
                while j < certs.len()
                    invariant
                        i < certs@.len(),
                        j <= certs@.len(),
                        certs@ == state@.validators[v as int].certificates,
                        v < state.validators@.len(),
                        forall|a: int, b: int|
                            0 <= a < i && 0 <= b < certs@.len() && #[trigger] certs@[a].slot
                                == #[trigger] certs@[b].slot ==> a == b,
                        forall|b: int|
                            0 <= b < j && (#[trigger] certs@[b].slot) == certs@[i as int].slot
                                ==> b == i as int,
                    decreases certs@.len() - j,
                {
                    if j != i && certs[j].slot == certs[i].slot {
                        proof {
                            let sv = state@;
                            assert(sv.validators[v as int].certificates[j as int].slot
                                == sv.validators[v as int].certificates[i as int].slot);
                            assert(!prop_certificate_uniqueness(sv));
                        }
                        return false;
                    }
                    j = j + 1;
                }
                i = i + 1;
            }
            v = v + 1;
        }
        proof {
            assert(prop_certificate_uniqueness(state@)) by {
                let sv = state@;
                assert forall|a: int, i: int, j: int|
                    0 <= a < sv.validators.len() && 0 <= i < sv.validators[a].certificates.len()
                        && 0 <= j < sv.validators[a].certificates.len()
                        && #[trigger] sv.validators[a].certificates[i].slot
                        == #[trigger] sv.validators[a].certificates[j].slot implies i == j by {
                    assert(sv.validators[a].certificates[i].slot
                        == sv.validators[a].certificates[j].slot);
                }
            }
        }
        true
    }

    /// Evaluate every property on a state; the result lists the violated
    /// ones in a fixed order.
    pub fn check_properties(&self, state: &ResilienceState) -> (r: Vec<ResilienceProperty>)
        requires
            state@.validators.len() <= 64,
            state@.stake_distribution.len() == state@.validators.len(),
            stake_total(state@.stake_distribution, state@.validators.len() as int) <= u64::MAX,
        ensures
            r@ == rs_violations(state@),
    {
        let mut r: Vec<ResilienceProperty> = Vec::new();
        if !self.safety_byzantine(state) {
            r.push(ResilienceProperty::SafetyByzantine);
        }
        if !self.safety_byzantine_threshold(state) {
            r.push(ResilienceProperty::SafetyByzantineThreshold);
        }
        if !self.certificate_uniqueness(state) {
            r.push(ResilienceProperty::CertificateUniqueness);
        }
        proof {
            assert(r@ =~= rs_violations(state@));
        }
        r
    }

    /// Append every enabled action to `actions`: deliveries, proposals,
    /// Byzantine conflicting votes, partition triggers and recoveries, and
    /// the slot advance.
    pub fn actions(&self, state: &ResilienceState, actions: &mut Vec<ResilienceAction>)
        requires
            wf_model(*self),
            wf_state(*self, state@),
        ensures
            final(actions)@ == old(actions)@ + rs_actions(*self, state@),
    {
        let ghost base = actions@;
        let ghost sv = state@;
        let n = self.validator_count;

        let mut i: usize = 0;
        while i < state.network.len()
            invariant
                i <= state.network@.len(),
                sv == state@,
                actions@ == base + deliver_actions(sv.network).subrange(0, i as int),
            decreases state.network@.len() - i,
        {
            actions.push(ResilienceAction::DeliverMessage { msg: state.network[i] });
            proof {
                assert(actions@ =~= base + deliver_actions(sv.network).subrange(0, i as int + 1));
            }
            i = i + 1;
        }
        proof {
            assert(deliver_actions(sv.network).subrange(0, sv.network.len() as int)
                =~= deliver_actions(sv.network));
        }

        let ghost base1 = base + deliver_actions(sv.network);
        let ghost cur = state@.current_slot as int;
        let mut slot: u64 = state.current_slot;
        while slot <= self.max_slot
            invariant
                state@.current_slot <= slot,
                slot <= self.max_slot + 1 || slot == state@.current_slot,
                wf_model(*self),
                wf_state(*self, state@),
                sv == state@,
                n == self.validator_count,
                cur == state@.current_slot as int,
                actions@ == base1 + propose_slots(sv, n as int, cur, slot as int - 1),
            decreases self.max_slot + 1 - slot,
        {
            let mut proposer: usize = 0;
            while proposer < n
                invariant
                    proposer <= n,
                    state@.current_slot <= slot <= self.max_slot,
                    wf_model(*self),
                    wf_state(*self, state@),
                    sv == state@,
                    n == self.validator_count,
                    cur == state@.current_slot as int,
                    actions@ == base1 + propose_slots(sv, n as int, cur, slot as int - 1)
                        + propose_props(sv, slot, proposer as int),
                decreases n - proposer,
            {
                if !self.has_proposal(state, slot) {
                    actions.push(ResilienceAction::ProposeBlock { slot, proposer });
                }
                proof {
                    assert(actions@ =~= base1 + propose_slots(sv, n as int, cur, slot as int - 1)
                        + propose_props(sv, slot, proposer as int + 1));
                }
                proposer = proposer + 1;
            }
            proof {
                assert(actions@ =~= base1 + propose_slots(sv, n as int, cur, slot as int));
            }
            slot = slot + 1;
        }
        proof {
            if cur > self.max_slot as int {
                assert(propose_slots(sv, n as int, cur, self.max_slot as int) =~= propose_slots(
                    sv,
                    n as int,
                    cur,
                    cur - 1,
                ));
            }
        }

        let ghost base2 = base1 + propose_slots(sv, n as int, cur, self.max_slot as int);
        proof {
            assert(actions@ == base2);
        }
        let mut slot: u64 = 1;
        while slot <= self.max_slot
            invariant
                1 <= slot <= self.max_slot + 1,
                wf_model(*self),
                sv == state@,
                actions@ == base2 + conflict_slots(*self, slot as int - 1),
            decreases self.max_slot + 1 - slot,
        {
            let mut b: usize = 0;
            while b < self.byzantine_count
                invariant
                    b <= self.byzantine_count,
                    1 <= slot <= self.max_slot,
                    wf_model(*self),
                    sv == state@,
                    actions@ == base2 + conflict_slots(*self, slot as int - 1) + conflict_advs(
                        slot,
                        b as int,
                    ),
                decreases self.byzantine_count - b,
            {
                actions.push(
                    ResilienceAction::CreateConflictingVote { slot, byzantine_validator: b },
                );
                proof {
                    assert(actions@ =~= base2 + conflict_slots(*self, slot as int - 1)
                        + conflict_advs(slot, b as int + 1));
                }
                b = b + 1;
            }
            proof {
                assert(actions@ =~= base2 + conflict_slots(*self, slot as int));
            }
            slot = slot + 1;
        }

        let ghost base3 = base2 + conflict_slots(*self, self.max_slot as int);
        proof {
            assert(actions@ == base3);
        }
        let mut partition_id: u64 = 1;
        while partition_id <= 3
            invariant
                1 <= partition_id <= 4,
                n == self.validator_count,
                1 <= n <= 64,
                sv == state@,
                actions@ == base3 + partition_ids(n as int, partition_id as int - 1),
            decreases 4 - partition_id,
        {
            let mut size: usize = 1;
            while size <= n
                invariant
                    1 <= size <= n + 1,
                    1 <= partition_id <= 3,
                    n == self.validator_count,
                    1 <= n <= 64,
                    sv == state@,
                    actions@ == base3 + partition_ids(n as int, partition_id as int - 1)
                        + partition_sizes(partition_id, size as int - 1),
                decreases n - size + 1,
            {
                let members = if size == 64 {
                    0xffff_ffff_ffff_ffffu64
                } else {
                    let su = size as u64;
                    proof {
                        assert(su < 64 ==> 1u64 << su >= 1) by (bit_vector);
                    }
                    (1u64 << su) - 1
                };
                proof {
                    assert(members == low_mask(size as int));
                }
                actions.push(ResilienceAction::TriggerPartition { partition_id, members });
                proof {
                    assert(actions@ =~= base3 + partition_ids(n as int, partition_id as int - 1)
                        + partition_sizes(partition_id, size as int));
                }
                size = size + 1;
            }
            proof {
                assert(actions@ =~= base3 + partition_ids(n as int, partition_id as int));
            }
            partition_id = partition_id + 1;
        }

        let ghost base4 = base3 + partition_ids(n as int, 3);
        proof {
            assert(actions@ == base4);
        }
        let mut p: usize = 0;
        while p < state.active_partitions.len()
            invariant
                p <= state.active_partitions@.len(),
                sv == state@,
                actions@ == base4 + recover_actions(sv.active_partitions).subrange(0, p as int),
            decreases state.active_partitions@.len() - p,
        {
            actions.push(
                ResilienceAction::RecoverFromPartition {
                    partition_id: state.active_partitions[p].partition_id,
                },
            );
            proof {
                assert(actions@ =~= base4 + recover_actions(sv.active_partitions).subrange(
                    0,
                    p as int + 1,
                ));
            }
            p = p + 1;
        }
        proof {
            assert(recover_actions(sv.active_partitions).subrange(
                0,
                sv.active_partitions.len() as int,
            ) =~= recover_actions(sv.active_partitions));
        }

        if state.current_slot < self.max_slot {
            actions.push(ResilienceAction::AdvanceSlot);
        }
        proof {
            assert(actions@ =~= old(actions)@ + rs_actions(*self, state@));
        }
    }

    fn has_proposal(&self, state: &ResilienceState, slot: u64) -> (r: bool)
        ensures
            r == props_has(state@.block_proposals, slot),
    {
        let bp = &state.block_proposals;
        let mut i: usize = 0;
        while i < bp.len()
            invariant
                bp@ == state@.block_proposals,
                i <= bp@.len(),
                forall|j: int| 0 <= j < i ==> bp@[j].slot != slot,
            decreases bp@.len() - i,
        {
            if bp[i].slot == slot {
                return true;
            }
            i = i + 1;
        }
        false
    }
}

// ------------------------------------------------------------------
// The partition law
// ------------------------------------------------------------------

/// A partition that leaves the eligible validators with less than the
/// quorum threshold of stake blocks certification outright: no vote pool
/// can certify anything, whatever votes it has collected.  After healing,
/// the eligible stake rises again and the same pools may certify.
pub proof fn lemma_partition_blocks_certification(
    m: ResilienceModel,
    s: ResilienceStateV,
    k: VoteKey,
)
    requires
        s.validators.len() == m.validator_count,
        1 <= m.validator_count <= 64,
        stake_in(
            s.stake_distribution,
            eligible_mask(s.validators, m.validator_count as int),
            m.validator_count as int,
        ) < spec_threshold(),
    ensures
        !spec_can_certify(s, k),
{
    let n = m.validator_count as int;
    let eligible = eligible_mask(s.validators, n);
    let voters = pool_voters(s.validators[0].vote_pool, k);
    lemma_mask_and(voters, eligible);
    lemma_stake_in_subset(s.stake_distribution, voters & eligible, eligible, n);
}

} // verus!
