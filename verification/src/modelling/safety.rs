//! Safety model: certification under Byzantine validators.
//!
//! Honest validators vote for proposed blocks; Byzantine validators may
//! inject conflicting votes.  A block is certified only when the honest,
//! responsive voters behind it reach the quorum threshold of stake.  The
//! certificate and chain ledgers are keyed by slot, and a violation scan
//! records every pair of conflicting entries it finds.

use crate::certificate::{
    lemma_distinct_remove, pool_add, pool_add_exec, pool_find, pool_has, pool_index,
    pool_keys_distinct, pool_voters, seq_distinct, PoolEntry, VoteKey,
};
use crate::mask::mask_has;
use crate::stake::{
    lemma_stake_in_subset, spec_quorum_stake, stake_for_mask, stake_in, stake_total,
};
use crate::timeout::{props_has, props_index, props_slots_distinct, props_update, SlotHash};
use crate::util::{copy_vec, set_vec};
use vstd::prelude::*;

verus! {

/// Stake held by all validators together.
pub const TOTAL_STAKE: u64 = 1000;

/// Percentage of the total stake needed to certify a block.
pub const CERTIFICATE_THRESHOLD_PERCENT: u64 = 60;

/// Messages exchanged in the safety model.
#[derive(Clone, Copy, Debug, PartialEq, Eq, PartialOrd, Ord, Hash, Structural)]
pub enum SafetyMessage {
    /// A block proposal.
    BlockProposal { slot: u64, hash: u64, proposer: usize },
    /// A vote for a block.
    Vote { slot: u64, hash: u64, voter: usize },
    /// A conflicting vote injected by a Byzantine validator.
    ConflictingVote { slot: u64, hash: u64, voter: usize },
    /// An already-formed certificate.
    CertificateFormed { slot: u64, hash: u64, stake: u64 },
}

/// A message addressed to one validator, waiting in the network.
#[derive(Clone, Copy, Debug, PartialEq, Eq, PartialOrd, Ord, Hash, Structural)]
pub struct MessageInTransit {
    pub dst: usize,
    pub msg: SafetyMessage,
}

/// Actions enabled in the safety model.
#[derive(Clone, Copy, Debug, PartialEq, Eq, PartialOrd, Ord, Hash, Structural)]
pub enum SafetyAction {
    ProposeBlock { slot: u64, proposer: usize },
    DeliverMessage { msg: MessageInTransit },
    CreateConflictingVote { slot: u64, byzantine_validator: usize },
    FormCertificate { slot: u64, hash: u64, stake: u64 },
    AdvanceSlot,
}

/// A pair of conflicting certificates found for one slot.
#[derive(Clone, Copy, Debug, PartialEq, Eq, PartialOrd, Ord, Hash, Structural)]
pub struct Violation {
    pub slot: u64,
    pub hash1: u64,
    pub hash2: u64,
}

/// Per-validator state.
#[derive(Clone, Debug, PartialEq, Eq, Hash)]
pub struct ValidatorState {
    /// Whether this validator may deviate from the protocol.
    pub is_byzantine: bool,
    /// Whether this validator answers in time.
    pub is_responsive: bool,
    /// The block votes this validator has cast.
    pub votes_cast: Vec<VoteKey>,
    /// Votes observed, keyed by what they are for.
    pub vote_pool: Vec<PoolEntry>,
    /// Certified block per slot, as seen locally.
    pub certificates: Vec<SlotHash>,
    /// Finalized block per slot, as seen locally.
    pub finalized_chain: Vec<SlotHash>,
    /// This validator's view of the slot counter.
    pub current_slot: u64,
}

/// The whole world state of the safety model.
#[derive(Clone, Debug, PartialEq, Eq, Hash)]
pub struct SafetyState {
    /// Messages in flight, kept without duplicates.
    pub network: Vec<MessageInTransit>,
    /// All validators, indexed by identity.
    pub validators: Vec<ValidatorState>,
    /// Global slot counter.
    pub current_slot: u64,
    /// Stake of each validator, indexed by identity.
    pub stake_distribution: Vec<u64>,
    /// Proposed blocks, one hash per slot.
    pub block_proposals: Vec<SlotHash>,
    /// Globally certified block per slot.
    pub global_certificates: Vec<SlotHash>,
    /// Conflicting certificate pairs found so far.
    pub safety_violations: Vec<Violation>,
}

/// Configuration of the safety model.
#[derive(Clone, Copy, Debug, PartialEq, Eq, Hash, Structural)]
pub struct SafetyModel {
    pub validator_count: usize,
    pub max_slot: u64,
    pub byzantine_count: usize,
}

/// Mathematical view of a validator.
#[verifier::ext_equal]
pub struct ValidatorStateV {
    pub is_byzantine: bool,
    pub is_responsive: bool,
    pub votes_cast: Seq<VoteKey>,
    pub vote_pool: Seq<PoolEntry>,
    pub certificates: Seq<SlotHash>,
    pub finalized_chain: Seq<SlotHash>,
    pub current_slot: u64,
}

/// Mathematical view of the world state.
#[verifier::ext_equal]
pub struct SafetyStateV {
    pub network: Seq<MessageInTransit>,
    pub validators: Seq<ValidatorStateV>,
    pub current_slot: u64,
    pub stake_distribution: Seq<u64>,
    pub block_proposals: Seq<SlotHash>,
    pub global_certificates: Seq<SlotHash>,
    pub safety_violations: Seq<Violation>,
}

impl View for ValidatorState {
    type V = ValidatorStateV;

    open spec fn view(&self) -> ValidatorStateV {
        ValidatorStateV {
            is_byzantine: self.is_byzantine,
            is_responsive: self.is_responsive,
            votes_cast: self.votes_cast@,
            vote_pool: self.vote_pool@,
            certificates: self.certificates@,
            finalized_chain: self.finalized_chain@,
            current_slot: self.current_slot,
        }
    }
}

impl View for SafetyState {
    type V = SafetyStateV;

    open spec fn view(&self) -> SafetyStateV {
        SafetyStateV {
            network: self.network@,
            validators: self.validators@.map_values(|v: ValidatorState| v@),
            current_slot: self.current_slot,
            stake_distribution: self.stake_distribution@,
            block_proposals: self.block_proposals@,
            global_certificates: self.global_certificates@,
            safety_violations: self.safety_violations@,
        }
    }
}

// ------------------------------------------------------------------
// Spec-level building blocks
// ------------------------------------------------------------------

/// Insert into a duplicate-free message sequence.
pub open spec fn net_insert(net: Seq<MessageInTransit>, m: MessageInTransit) -> Seq<
    MessageInTransit,
> {
    if net.contains(m) {
        net
    } else {
        net.push(m)
    }
}

/// Index of a message in the network.
pub open spec fn net_index(net: Seq<MessageInTransit>, m: MessageInTransit) -> int {
    choose|i: int| 0 <= i < net.len() && net[i] == m
}

/// The network after broadcasting `msg` to every validator below `n`,
/// except `skip` (pass `n` as `skip` to broadcast to everyone).
pub open spec fn net_broadcast_except(
    net: Seq<MessageInTransit>,
    msg: SafetyMessage,
    n: int,
    skip: int,
) -> Seq<MessageInTransit>
    decreases n,
{
    if n <= 0 {
        net
    } else {
        let prev = net_broadcast_except(net, msg, n - 1, skip);
        if n - 1 == skip {
            prev
        } else {
            net_insert(prev, MessageInTransit { dst: (n - 1) as usize, msg })
        }
    }
}

/// Mask of validators that are honest and responsive, below `k`.
pub open spec fn eligible_mask(vals: Seq<ValidatorStateV>, k: int) -> u64
    decreases k,
{
    if k <= 0 {
        0u64
    } else {
        eligible_mask(vals, k - 1) | (if !vals[k - 1].is_byzantine && vals[k - 1].is_responsive {
            1u64 << ((k - 1) as u64)
        } else {
            0u64
        })
    }
}

/// The stake a certificate needs.
pub open spec fn spec_threshold() -> int {
    spec_quorum_stake(TOTAL_STAKE, CERTIFICATE_THRESHOLD_PERCENT)
}

/// Whether the honest responsive voters for `k` in a pool reach the
/// quorum.
pub open spec fn spec_quorum(s: SafetyStateV, pool: Seq<PoolEntry>, k: VoteKey) -> bool {
    let n = s.validators.len() as int;
    stake_in(s.stake_distribution, pool_voters(pool, k) & eligible_mask(s.validators, n), n)
        >= spec_threshold()
}

/// The deterministic hash a proposer assigns to its block.
pub open spec fn spec_block_hash(slot: u64, proposer: int) -> u64 {
    (slot * 1000 + proposer) as u64
}

/// The hash a Byzantine validator uses for its conflicting vote.
pub open spec fn spec_conflicting_hash(slot: u64) -> u64 {
    (slot * 1000 + 999) as u64
}

/// Insert a violation into a duplicate-free violation list.
pub open spec fn vio_insert(vs: Seq<Violation>, v: Violation) -> Seq<Violation> {
    if vs.contains(v) {
        vs
    } else {
        vs.push(v)
    }
}

/// Violations found scanning one certificate list against index `i`, with
/// the first `j` partners considered.
pub open spec fn scan_inner(certs: Seq<SlotHash>, acc: Seq<Violation>, i: int, j: int) -> Seq<
    Violation,
>
    decreases j,
{
    if j <= 0 {
        acc
    } else {
        let prev = scan_inner(certs, acc, i, j - 1);
        if certs[i].slot == certs[j - 1].slot && certs[i].hash != certs[j - 1].hash {
            vio_insert(
                prev,
                Violation { slot: certs[i].slot, hash1: certs[i].hash, hash2: certs[j - 1].hash },
            )
        } else {
            prev
        }
    }
}

/// Violations found scanning the first `i` entries of a certificate list
/// against every entry.
pub open spec fn scan_certs(certs: Seq<SlotHash>, acc: Seq<Violation>, i: int) -> Seq<Violation>
    decreases i,
{
    if i <= 0 {
        acc
    } else {
        scan_inner(certs, scan_certs(certs, acc, i - 1), i - 1, certs.len() as int)
    }
}

/// Violations found scanning the certificate lists of the first `k`
/// validators.
pub open spec fn scan_validators(vals: Seq<ValidatorStateV>, acc: Seq<Violation>, k: int) -> Seq<
    Violation,
>
    decreases k,
{
    if k <= 0 {
        acc
    } else {
        scan_certs(
            vals[k - 1].certificates,
            scan_validators(vals, acc, k - 1),
            vals[k - 1].certificates.len() as int,
        )
    }
}

/// The violation list after a full scan of a state.
pub open spec fn spec_scan_violations(s: SafetyStateV) -> Seq<Violation> {
    scan_validators(
        s.validators,
        scan_certs(
            s.global_certificates,
            s.safety_violations,
            s.global_certificates.len() as int,
        ),
        s.validators.len() as int,
    )
}

// ------------------------------------------------------------------
// Well-formedness
// ------------------------------------------------------------------

/// Message fields fit the model bounds.
pub open spec fn wf_message(m: SafetyModel, t: MessageInTransit) -> bool {
    &&& t.dst < m.validator_count
    &&& match t.msg {
        SafetyMessage::BlockProposal { proposer, .. } => proposer < m.validator_count,
        SafetyMessage::Vote { voter, .. } => voter < m.validator_count,
        SafetyMessage::ConflictingVote { voter, .. } => voter < m.validator_count,
        SafetyMessage::CertificateFormed { .. } => true,
    }
}

/// Structural well-formedness of a state.
pub open spec fn wf_state(m: SafetyModel, s: SafetyStateV) -> bool {
    &&& 1 <= m.validator_count <= 64
    &&& s.validators.len() == m.validator_count
    &&& s.stake_distribution.len() == m.validator_count
    &&& stake_total(s.stake_distribution, m.validator_count as int) <= u64::MAX
    &&& seq_distinct(s.network)
    &&& forall|i: int| 0 <= i < s.network.len() ==> wf_message(m, #[trigger] s.network[i])
    &&& forall|v: int|
        0 <= v < s.validators.len() ==> seq_distinct(#[trigger] s.validators[v].votes_cast)
    &&& forall|v: int|
        0 <= v < s.validators.len() ==> pool_keys_distinct(#[trigger] s.validators[v].vote_pool)
    &&& forall|v: int|
        0 <= v < s.validators.len() ==> props_slots_distinct(
            #[trigger] s.validators[v].certificates,
        )
    &&& forall|v: int|
        0 <= v < s.validators.len() ==> props_slots_distinct(
            #[trigger] s.validators[v].finalized_chain,
        )
    &&& props_slots_distinct(s.block_proposals)
    &&& props_slots_distinct(s.global_certificates)
    &&& seq_distinct(s.safety_violations)
}

/// Bounds under which the model's arithmetic cannot overflow.
pub open spec fn wf_model(m: SafetyModel) -> bool {
    &&& 1 <= m.validator_count <= 64
    &&& m.byzantine_count <= m.validator_count
    &&& m.max_slot <= 1000000
}

/// Whether an action refers only to validators and slots that exist.
pub open spec fn wf_action(m: SafetyModel, a: SafetyAction) -> bool {
    match a {
        SafetyAction::ProposeBlock { slot, proposer } => proposer < m.validator_count && slot
            <= m.max_slot,
        SafetyAction::DeliverMessage { msg } => wf_message(m, msg),
        SafetyAction::CreateConflictingVote { slot, byzantine_validator } => byzantine_validator
            < m.validator_count && slot <= m.max_slot,
        SafetyAction::FormCertificate { .. } => true,
        SafetyAction::AdvanceSlot => true,
    }
}

// ------------------------------------------------------------------
// The transition function, mathematically
// ------------------------------------------------------------------

/// Deliver a (possibly conflicting) vote to validator `d`: pool it and, on
/// an honest-responsive quorum, certify the block locally.
pub open spec fn sf_deliver_vote(
    m: SafetyModel,
    s: SafetyStateV,
    net1: Seq<MessageInTransit>,
    d: int,
    k: VoteKey,
    voter: int,
) -> SafetyStateV {
    let v = s.validators[d];
    let pool1 = pool_add(v.vote_pool, k, voter);
    let quorum = spec_quorum(s, pool1, k);
    let v2 = ValidatorStateV {
        vote_pool: pool1,
        certificates: if quorum {
            props_update(v.certificates, k.slot, k.hash->0)
        } else {
            v.certificates
        },
        finalized_chain: if quorum {
            props_update(v.finalized_chain, k.slot, k.hash->0)
        } else {
            v.finalized_chain
        },
        ..v
    };
    SafetyStateV { network: net1, validators: s.validators.update(d, v2), ..s }
}

/// One transition of the safety model, before the violation scan.
pub open spec fn sf_step_pre(m: SafetyModel, s: SafetyStateV, a: SafetyAction) -> Option<
    SafetyStateV,
> {
    let n = m.validator_count as int;
    match a {
        SafetyAction::ProposeBlock { slot, proposer } => {
            let hash = spec_block_hash(slot, proposer as int);
            Some(
                SafetyStateV {
                    network: net_broadcast_except(
                        s.network,
                        SafetyMessage::BlockProposal { slot, hash, proposer },
                        n,
                        proposer as int,
                    ),
                    block_proposals: props_update(s.block_proposals, slot, hash),
                    ..s
                },
            )
        },
        SafetyAction::DeliverMessage { msg } => {
            if !s.network.contains(msg) {
                None
            } else {
                let net1 = s.network.remove(net_index(s.network, msg));
                let d = msg.dst as int;
                let v = s.validators[d];
                match msg.msg {
                    SafetyMessage::BlockProposal { slot, hash, proposer } => {
                        if v.is_responsive && !v.votes_cast.contains(
                            VoteKey { slot, hash: Some(hash) },
                        ) {
                            Some(
                                SafetyStateV {
                                    network: net_broadcast_except(
                                        net1,
                                        SafetyMessage::Vote { slot, hash, voter: msg.dst },
                                        n,
                                        n,
                                    ),
                                    validators: s.validators.update(
                                        d,
                                        ValidatorStateV {
                                            votes_cast: v.votes_cast.push(
                                                VoteKey { slot, hash: Some(hash) },
                                            ),
                                            ..v
                                        },
                                    ),
                                    ..s
                                },
                            )
                        } else {
                            Some(SafetyStateV { network: net1, ..s })
                        }
                    },
                    SafetyMessage::Vote { slot, hash, voter } => Some(
                        sf_deliver_vote(
                            m,
                            s,
                            net1,
                            d,
                            VoteKey { slot, hash: Some(hash) },
                            voter as int,
                        ),
                    ),
                    SafetyMessage::ConflictingVote { slot, hash, voter } => Some(
                        sf_deliver_vote(
                            m,
                            s,
                            net1,
                            d,
                            VoteKey { slot, hash: Some(hash) },
                            voter as int,
                        ),
                    ),
                    SafetyMessage::CertificateFormed { slot, hash, stake } => Some(
                        SafetyStateV {
                            network: net1,
                            validators: s.validators.map_values(
                                |vv: ValidatorStateV|
                                    ValidatorStateV {
                                        certificates: props_update(vv.certificates, slot, hash),
                                        finalized_chain: props_update(
                                            vv.finalized_chain,
                                            slot,
                                            hash,
                                        ),
                                        ..vv
                                    },
                            ),
                            global_certificates: props_update(s.global_certificates, slot, hash),
                            ..s
                        },
                    ),
                }
            }
        },
        SafetyAction::CreateConflictingVote { slot, byzantine_validator } => Some(
            SafetyStateV {
                network: net_insert(
                    s.network,
                    MessageInTransit {
                        dst: byzantine_validator,
                        msg: SafetyMessage::ConflictingVote {
                            slot,
                            hash: spec_conflicting_hash(slot),
                            voter: byzantine_validator,
                        },
                    },
                ),
                ..s
            },
        ),
        SafetyAction::FormCertificate { slot, hash, stake } => Some(
            SafetyStateV {
                network: net_insert(
                    s.network,
                    MessageInTransit {
                        dst: 0,
                        msg: SafetyMessage::CertificateFormed { slot, hash, stake },
                    },
                ),
                ..s
            },
        ),
        SafetyAction::AdvanceSlot => {
            let slot2 = (s.current_slot + 1) as u64;
            Some(
                SafetyStateV {
                    validators: s.validators.map_values(
                        |v: ValidatorStateV| ValidatorStateV { current_slot: slot2, ..v },
                    ),
                    current_slot: slot2,
                    ..s
                },
            )
        },
    }
}

/// One transition of the safety model: the successor state with its
/// violation list refreshed by a full scan.
pub open spec fn sf_step(m: SafetyModel, s: SafetyStateV, a: SafetyAction) -> Option<SafetyStateV> {
    match sf_step_pre(m, s, a) {
        Some(s1) => Some(SafetyStateV { safety_violations: spec_scan_violations(s1), ..s1 }),
        None => None,
    }
}

/// The initial state for a configuration.
pub open spec fn sf_init(validator_count: int, byzantine_count: int) -> SafetyStateV {
    let stake = TOTAL_STAKE / validator_count as u64;
    SafetyStateV {
        network: Seq::empty(),
        validators: Seq::new(
            validator_count as nat,
            |i: int|
                ValidatorStateV {
                    is_byzantine: i < byzantine_count,
                    is_responsive: true,
                    votes_cast: Seq::empty(),
                    vote_pool: Seq::empty(),
                    certificates: Seq::empty(),
                    finalized_chain: Seq::empty(),
                    current_slot: 0,
                },
        ),
        current_slot: 0,
        stake_distribution: Seq::new(validator_count as nat, |i: int| stake),
        block_proposals: Seq::empty(),
        global_certificates: Seq::empty(),
        safety_violations: Seq::empty(),
    }
}

// ------------------------------------------------------------------
// Executable helpers
// ------------------------------------------------------------------

fn net_contains(net: &Vec<MessageInTransit>, m: MessageInTransit) -> (r: bool)
    ensures
        r == net@.contains(m),
{
    let mut i: usize = 0;
    while i < net.len()
        invariant
            i <= net@.len(),
            forall|j: int| 0 <= j < i ==> net@[j] != m,
        decreases net@.len() - i,
    {
        if net[i] == m {
            return true;
        }
        i = i + 1;
    }
    false
}

fn net_insert_exec(net: &mut Vec<MessageInTransit>, m: MessageInTransit)
    ensures
        final(net)@ == net_insert(old(net)@, m),
{
    if !net_contains(net, m) {
        net.push(m);
    }
}

fn net_remove_exec(net: &mut Vec<MessageInTransit>, m: MessageInTransit)
    requires
        seq_distinct(old(net)@),
        old(net)@.contains(m),
    ensures
        final(net)@ == old(net)@.remove(net_index(old(net)@, m)),
{
    let ghost orig = net@;
    proof {
        assert(orig == old(net)@);
    }
    let mut i: usize = 0;
    while i < net.len()
        invariant
            net@ == orig,
            orig == old(net)@,
            seq_distinct(orig),
            i <= net@.len(),
            forall|j: int| 0 <= j < i ==> net@[j] != m,
            net@.contains(m),
        decreases net@.len() - i,
    {
        if net[i] == m {
            proof {
                let ii = net_index(orig, m);
                assert(0 <= ii < orig.len() && orig[ii] == m);
                assert(ii == i as int);
            }
            net.remove(i);
            return ;
        }
        i = i + 1;
    }
    proof {
        let ii = choose|j: int| 0 <= j < orig.len() && orig[j] == m;
        assert(false);
    }
}

fn broadcast_except_exec(net: &mut Vec<MessageInTransit>, msg: SafetyMessage, n: usize, skip: usize)
    ensures
        final(net)@ == net_broadcast_except(old(net)@, msg, n as int, skip as int),
{
    let mut i: usize = 0;
    while i < n
        invariant
            i <= n,
            net@ == net_broadcast_except(old(net)@, msg, i as int, skip as int),
        decreases n - i,
    {
        if i != skip {
            net_insert_exec(net, MessageInTransit { dst: i, msg });
        }
        i = i + 1;
    }
}

fn vio_insert_exec(vs: &mut Vec<Violation>, v: Violation)
    ensures
        final(vs)@ == vio_insert(old(vs)@, v),
{
    let mut i: usize = 0;
    while i < vs.len()
        invariant
            i <= vs@.len(),
            vs@ == old(vs)@,
            forall|j: int| 0 <= j < i ==> vs@[j] != v,
        decreases vs@.len() - i,
    {
        if vs[i] == v {
            return ;
        }
        i = i + 1;
    }
    vs.push(v);
}

fn keys_contains(keys: &Vec<VoteKey>, k: VoteKey) -> (r: bool)
    ensures
        r == keys@.contains(k),
{
    let mut i: usize = 0;
    while i < keys.len()
        invariant
            i <= keys@.len(),
            forall|j: int| 0 <= j < i ==> keys@[j] != k,
        decreases keys@.len() - i,
    {
        if keys[i] == k {
            return true;
        }
        i = i + 1;
    }
    false
}

fn props_update_exec(bp: &mut Vec<SlotHash>, slot: u64, hash: u64)
    requires
        props_slots_distinct(old(bp)@),
    ensures
        final(bp)@ == props_update(old(bp)@, slot, hash),
{
    let mut i: usize = 0;
    while i < bp.len()
        invariant
            i <= bp@.len(),
            bp@ == old(bp)@,
            props_slots_distinct(bp@),
            forall|j: int| 0 <= j < i ==> bp@[j].slot != slot,
        decreases bp@.len() - i,
    {
        if bp[i].slot == slot {
            proof {
                assert(props_has(bp@, slot));
                let ii = props_index(bp@, slot);
                assert(0 <= ii < bp@.len() && bp@[ii].slot == slot);
            }
            set_vec(bp, i, SlotHash { slot, hash });
            return ;
        }
        i = i + 1;
    }
    proof {
        assert(!props_has(bp@, slot));
    }
    bp.push(SlotHash { slot, hash });
}

fn sh_get(bp: &Vec<SlotHash>, slot: u64) -> (r: Option<u64>)
    requires
        props_slots_distinct(bp@),
    ensures
        match r {
            Some(h) => props_has(bp@, slot) && h == bp@[props_index(bp@, slot)].hash,
            None => !props_has(bp@, slot),
        },
{
    let mut i: usize = 0;
    while i < bp.len()
        invariant
            i <= bp@.len(),
            props_slots_distinct(bp@),
            forall|j: int| 0 <= j < i ==> bp@[j].slot != slot,
        decreases bp@.len() - i,
    {
        if bp[i].slot == slot {
            proof {
                assert(props_has(bp@, slot));
                let ii = props_index(bp@, slot);
                assert(0 <= ii < bp@.len() && bp@[ii].slot == slot);
                assert(ii == i as int);
            }
            return Some(bp[i].hash);
        }
        i = i + 1;
    }
    None
}

fn eligible_mask_exec(validators: &Vec<ValidatorState>) -> (r: u64)
    requires
        validators@.len() <= 64,
    ensures
        r == eligible_mask(
            validators@.map_values(|v: ValidatorState| v@),
            validators@.len() as int,
        ),
{
    let ghost vals = validators@.map_values(|v: ValidatorState| v@);
    let mut m: u64 = 0;
    let mut i: usize = 0;
    while i < validators.len()
        invariant
            i <= validators@.len(),
            validators@.len() <= 64,
            vals == validators@.map_values(|v: ValidatorState| v@),
            m == eligible_mask(vals, i as int),
        decreases validators@.len() - i,
    {
        proof {
            assert(vals[i as int] == validators@[i as int]@);
        }
        if !validators[i].is_byzantine && validators[i].is_responsive {
            m = m | (1u64 << (i as u64));
        } else {
            proof {
                assert(m | 0u64 == m) by (bit_vector);
            }
        }
        i = i + 1;
    }
    m
}

// ------------------------------------------------------------------
// Executable state
// ------------------------------------------------------------------

impl ValidatorState {
    fn duplicate(&self) -> (r: ValidatorState)
        ensures
            r@ == self@,
    {
        ValidatorState {
            is_byzantine: self.is_byzantine,
            is_responsive: self.is_responsive,
            votes_cast: copy_vec(&self.votes_cast),
            vote_pool: copy_vec(&self.vote_pool),
            certificates: copy_vec(&self.certificates),
            finalized_chain: copy_vec(&self.finalized_chain),
            current_slot: self.current_slot,
        }
    }
}

impl SafetyState {
    /// A fresh copy with the same mathematical value.
    pub fn duplicate(&self) -> (r: SafetyState)
        ensures
            r@ == self@,
    {
        let mut validators: Vec<ValidatorState> = Vec::new();
        let mut i: usize = 0;
        while i < self.validators.len()
            invariant
                i <= self.validators@.len(),
                validators@.len() == i,
                forall|j: int| 0 <= j < i ==> #[trigger] validators@[j]@ == self.validators@[j]@,
            decreases self.validators@.len() - i,
        {
            let v = self.validators[i].duplicate();
            validators.push(v);
            i = i + 1;
        }
        let r = SafetyState {
            network: copy_vec(&self.network),
            validators,
            current_slot: self.current_slot,
            stake_distribution: copy_vec(&self.stake_distribution),
            block_proposals: copy_vec(&self.block_proposals),
            global_certificates: copy_vec(&self.global_certificates),
            safety_violations: copy_vec(&self.safety_violations),
        };
        proof {
            assert(r@.validators =~= self@.validators);
            assert(r@ =~= self@);
        }
        r
    }

    /// The initial state: the first `byzantine_count` validators are
    /// Byzantine, everyone is responsive, stake is split evenly.
    pub fn new(validator_count: usize, byzantine_count: usize) -> (r: SafetyState)
        requires
            1 <= validator_count <= 64,
        ensures
            r@ == sf_init(validator_count as int, byzantine_count as int),
    {
        let stake = TOTAL_STAKE / (validator_count as u64);
        let mut validators: Vec<ValidatorState> = Vec::new();
        let mut stake_distribution: Vec<u64> = Vec::new();
        let mut i: usize = 0;
        while i < validator_count
            invariant
                i <= validator_count,
                stake == TOTAL_STAKE / (validator_count as u64),
                validators@.len() == i,
                stake_distribution@.len() == i,
                forall|j: int|
                    0 <= j < i ==> #[trigger] validators@[j]@ == sf_init(
                        validator_count as int,
                        byzantine_count as int,
                    ).validators[j],
                forall|j: int| 0 <= j < i ==> #[trigger] stake_distribution@[j] == stake,
            decreases validator_count - i,
        {
            validators.push(
                ValidatorState {
                    is_byzantine: i < byzantine_count,
                    is_responsive: true,
                    votes_cast: Vec::new(),
                    vote_pool: Vec::new(),
                    certificates: Vec::new(),
                    finalized_chain: Vec::new(),
                    current_slot: 0,
                },
            );
            stake_distribution.push(stake);
            proof {
                assert(validators@[i as int]@ =~= sf_init(
                    validator_count as int,
                    byzantine_count as int,
                ).validators[i as int]);
            }
            i = i + 1;
        }
        let r = SafetyState {
            network: Vec::new(),
            validators,
            current_slot: 0,
            stake_distribution,
            block_proposals: Vec::new(),
            global_certificates: Vec::new(),
            safety_violations: Vec::new(),
        };
        proof {
            let gi = sf_init(validator_count as int, byzantine_count as int);
            assert(r@.validators =~= gi.validators);
            assert(r@.stake_distribution =~= gi.stake_distribution);
            assert(r@ =~= gi);
        }
        r
    }

    /// Whether the honest responsive voters behind `(slot, hash)` in the
    /// first validator's pool reach the quorum.
    pub fn can_certify(&self, slot: u64, hash: u64) -> (r: bool)
        requires
            1 <= self@.validators.len() <= 64,
            self@.stake_distribution.len() == self@.validators.len(),
            stake_total(self@.stake_distribution, self@.validators.len() as int) <= u64::MAX,
            pool_keys_distinct(self@.validators[0].vote_pool),
        ensures
            r == spec_can_certify(self@, VoteKey { slot, hash: Some(hash) }),
    {
        let k = VoteKey { slot, hash: Some(hash) };
        proof {
            assert(self@.validators[0] == self.validators@[0]@);
            assert(self@.validators[0].vote_pool == self.validators@[0].vote_pool@);
        }
        let found = pool_find(&self.validators[0].vote_pool, k);
        match found {
            Some(i) => {
                let voters = self.validators[0].vote_pool[i].voters;
                let eligible = eligible_mask_exec(&self.validators);
                let backing = stake_for_mask(&self.stake_distribution, voters & eligible);
                let threshold = TOTAL_STAKE * CERTIFICATE_THRESHOLD_PERCENT / 100;
                backing >= threshold
            },
            None => false,
        }
    }

    /// Scan every certificate ledger for pairs of conflicting entries and
    /// record each pair found, leaving the rest of the state unchanged.
    pub fn check_safety_violations(&mut self)
        ensures
            final(self)@ == (SafetyStateV {
                safety_violations: spec_scan_violations(old(self)@),
                ..old(self)@
            }),
    {
        let gc_len = self.global_certificates.len();
        let mut i: usize = 0;
        while i < gc_len
            invariant
                i <= gc_len,
                gc_len == self.global_certificates@.len(),
                self@.network == old(self)@.network,
                self@.validators == old(self)@.validators,
                self@.current_slot == old(self)@.current_slot,
                self@.stake_distribution == old(self)@.stake_distribution,
                self@.block_proposals == old(self)@.block_proposals,
                self@.global_certificates == old(self)@.global_certificates,
                self@.safety_violations == scan_certs(
                    old(self)@.global_certificates,
                    old(self)@.safety_violations,
                    i as int,
                ),
            decreases gc_len - i,
        {
            let mut j: usize = 0;
            while j < gc_len
                invariant
                    i < gc_len,
                    j <= gc_len,
                    gc_len == self.global_certificates@.len(),
                    self@.network == old(self)@.network,
                    self@.validators == old(self)@.validators,
                    self@.current_slot == old(self)@.current_slot,
                    self@.stake_distribution == old(self)@.stake_distribution,
                    self@.block_proposals == old(self)@.block_proposals,
                    self@.global_certificates == old(self)@.global_certificates,
                    self@.safety_violations == scan_inner(
                        old(self)@.global_certificates,
                        scan_certs(
                            old(self)@.global_certificates,
                            old(self)@.safety_violations,
                            i as int,
                        ),
                        i as int,
                        j as int,
                    ),
                decreases gc_len - j,
            {
                let a = self.global_certificates[i];
                let b = self.global_certificates[j];
                if a.slot == b.slot && a.hash != b.hash {
                    vio_insert_exec(
                        &mut self.safety_violations,
                        Violation { slot: a.slot, hash1: a.hash, hash2: b.hash },
                    );
                }
                j = j + 1;
            }
            i = i + 1;
        }

        let n = self.validators.len();
        let mut v: usize = 0;
        while v < n
            invariant
                v <= n,
                n == self.validators@.len(),
                self@.network == old(self)@.network,
                self@.validators == old(self)@.validators,
                self@.current_slot == old(self)@.current_slot,
                self@.stake_distribution == old(self)@.stake_distribution,
                self@.block_proposals == old(self)@.block_proposals,
                self@.global_certificates == old(self)@.global_certificates,
                self@.safety_violations == scan_validators(
                    old(self)@.validators,
                    scan_certs(
                        old(self)@.global_certificates,
                        old(self)@.safety_violations,
                        old(self)@.global_certificates.len() as int,
                    ),
                    v as int,
                ),
            decreases n - v,
        {
            proof {
                assert(self@.validators[v as int] == self.validators@[v as int]@);
            }
            let ghost certs_v = old(self)@.validators[v as int].certificates;
            let ghost acc_v = scan_validators(
                old(self)@.validators,
                scan_certs(
                    old(self)@.global_certificates,
                    old(self)@.safety_violations,
                    old(self)@.global_certificates.len() as int,
                ),
                v as int,
            );
            let c_len = self.validators[v].certificates.len();
            let mut i: usize = 0;
            while i < c_len
                invariant
                    i <= c_len,
                    v < n,
                    n == self.validators@.len(),
                    c_len == self.validators@[v as int].certificates@.len(),
                    certs_v == self.validators@[v as int].certificates@,
                    self@.network == old(self)@.network,
                    self@.validators == old(self)@.validators,
                    self@.current_slot == old(self)@.current_slot,
                    self@.stake_distribution == old(self)@.stake_distribution,
                    self@.block_proposals == old(self)@.block_proposals,
                    self@.global_certificates == old(self)@.global_certificates,
                    self@.safety_violations == scan_certs(certs_v, acc_v, i as int),
                decreases c_len - i,
            {
                let mut j: usize = 0;
                while j < c_len
                    invariant
                        i < c_len,
                        j <= c_len,
                        v < n,
                        n == self.validators@.len(),
                        c_len == self.validators@[v as int].certificates@.len(),
                        certs_v == self.validators@[v as int].certificates@,
                        self@.network == old(self)@.network,
                        self@.validators == old(self)@.validators,
                        self@.current_slot == old(self)@.current_slot,
                        self@.stake_distribution == old(self)@.stake_distribution,
                        self@.block_proposals == old(self)@.block_proposals,
                        self@.global_certificates == old(self)@.global_certificates,
                        self@.safety_violations == scan_inner(
                            certs_v,
                            scan_certs(certs_v, acc_v, i as int),
                            i as int,
                            j as int,
                        ),
                    decreases c_len - j,
                {
                    let a = self.validators[v].certificates[i];
                    let b = self.validators[v].certificates[j];
                    if a.slot == b.slot && a.hash != b.hash {
                        vio_insert_exec(
                            &mut self.safety_violations,
                            Violation { slot: a.slot, hash1: a.hash, hash2: b.hash },
                        );
                    }
                    j = j + 1;
                }
                i = i + 1;
            }
            proof {
                assert(self@.safety_violations == scan_validators(
                    old(self)@.validators,
                    scan_certs(
                        old(self)@.global_certificates,
                        old(self)@.safety_violations,
                        old(self)@.global_certificates.len() as int,
                    ),
                    v as int + 1,
                ));
            }
            v = v + 1;
        }
        proof {
            assert(final(self)@ =~= (SafetyStateV {
                safety_violations: spec_scan_violations(old(self)@),
                ..old(self)@
            }));
        }
    }

    /// Whether every validator's finalized chain agrees with the first
    /// non-empty one on the slots they share.
    pub fn check_chain_consistency(&self) -> (r: bool)
        requires
            forall|v: int|
                0 <= v < self@.validators.len() ==> props_slots_distinct(
                    #[trigger] self@.validators[v].finalized_chain,
                ),
        ensures
            r == spec_chain_consistent(self@),
    {
        let n = self.validators.len();
        let mut rf: usize = 0;
        let mut found = false;
        let mut i: usize = 0;
        while i < n
            invariant
                i <= n,
                n == self.validators@.len(),
                !found ==> spec_first_chain(self@.validators, i as int) == -1,
                found ==> rf < i && spec_first_chain(self@.validators, i as int) == rf as int,
            decreases n - i,
        {
            proof {
                assert(self@.validators[i as int] == self.validators@[i as int]@);
            }
            if !found && self.validators[i].finalized_chain.len() > 0 {
                rf = i;
                found = true;
            }
            i = i + 1;
        }
        if !found {
            return true;
        }
        proof {
            assert(self@.validators[rf as int] == self.validators@[rf as int]@);
        }
        let mut v: usize = 0;
        while v < n
            invariant
                v <= n,
                n == self.validators@.len(),
                found,
                rf < n,
                spec_first_chain(self@.validators, n as int) == rf as int,
                forall|vv: int|
                    0 <= vv < self@.validators.len() ==> props_slots_distinct(
                        #[trigger] self@.validators[vv].finalized_chain,
                    ),
                forall|a: int, e: int|
                    0 <= a < v && 0 <= e < self@.validators[a].finalized_chain.len() && props_has(
                        self@.validators[rf as int].finalized_chain,
                        (#[trigger] self@.validators[a].finalized_chain[e]).slot,
                    ) ==> self@.validators[rf as int].finalized_chain[props_index(
                        self@.validators[rf as int].finalized_chain,
                        self@.validators[a].finalized_chain[e].slot,
                    )].hash == self@.validators[a].finalized_chain[e].hash,
            decreases n - v,
        {
            proof {
                assert(self@.validators[v as int] == self.validators@[v as int]@);
                assert(self@.validators[rf as int] == self.validators@[rf as int]@);
            }
            let chain = &self.validators[v].finalized_chain;
            let mut e: usize = 0;
            while e < chain.len()
                invariant
                    e <= chain@.len(),
                    v < n,
                    rf < n,
                    n == self.validators@.len(),
                    chain@ == self@.validators[v as int].finalized_chain,
                    self.validators@[rf as int].finalized_chain@ == self@.validators[rf as int].finalized_chain,
                    props_slots_distinct(self@.validators[rf as int].finalized_chain),
                    spec_first_chain(self@.validators, n as int) == rf as int,
                    forall|ee: int|
                        0 <= ee < e && props_has(
                            self@.validators[rf as int].finalized_chain,
                            (#[trigger] chain@[ee]).slot,
                        ) ==> self@.validators[rf as int].finalized_chain[props_index(
                            self@.validators[rf as int].finalized_chain,
                            chain@[ee].slot,
                        )].hash == chain@[ee].hash,
                decreases chain@.len() - e,
            {
                let entry = chain[e];
                match sh_get(&self.validators[rf].finalized_chain, entry.slot) {
                    Some(h) => {
                        if h != entry.hash {
                            proof {
                                let sv = self@;
                                assert(sv.validators[rf as int].finalized_chain[props_index(
                                    sv.validators[rf as int].finalized_chain,
                                    sv.validators[v as int].finalized_chain[e as int].slot,
                                )].hash != sv.validators[v as int].finalized_chain[e as int].hash);
                                assert(!spec_chain_consistent(sv));
                            }
                            return false;
                        }
                    },
                    None => {},
                }
                e = e + 1;
            }
            v = v + 1;
        }
        proof {
            assert(spec_chain_consistent(self@)) by {
                let sv = self@;
                let r0 = spec_first_chain(sv.validators, sv.validators.len() as int);
                assert(r0 == rf as int);
            }
        }
        true
    }
}

/// Quorum check over the first validator's pool, mathematically.
pub open spec fn spec_can_certify(s: SafetyStateV, k: VoteKey) -> bool {
    &&& pool_has(s.validators[0].vote_pool, k)
    &&& spec_quorum(s, s.validators[0].vote_pool, k)
}

/// First validator with a non-empty finalized chain below `k`, or `-1`.
pub open spec fn spec_first_chain(vals: Seq<ValidatorStateV>, k: int) -> int
    decreases k,
{
    if k <= 0 {
        -1
    } else {
        let p = spec_first_chain(vals, k - 1);
        if p >= 0 {
            p
        } else if vals[k - 1].finalized_chain.len() > 0 {
            k - 1
        } else {
            -1
        }
    }
}

// ------------------------------------------------------------------
// Action generation
// ------------------------------------------------------------------

/// One delivery action for every message in flight.
pub open spec fn deliver_actions(net: Seq<MessageInTransit>) -> Seq<SafetyAction> {
    Seq::new(net.len(), |i: int| SafetyAction::DeliverMessage { msg: net[i] })
}

/// Proposals for one slot by the proposers below `k`, offered only while
/// the slot has no proposal.
pub open spec fn propose_props(s: SafetyStateV, slot: u64, k: int) -> Seq<SafetyAction>
    decreases k,
{
    if k <= 0 {
        Seq::empty()
    } else {
        propose_props(s, slot, k - 1) + (if !props_has(s.block_proposals, slot) {
            seq![SafetyAction::ProposeBlock { slot, proposer: (k - 1) as usize }]
        } else {
            Seq::empty()
        })
    }
}

/// Proposals for the slots in `[cur, hi]`.
pub open spec fn propose_slots(s: SafetyStateV, n: int, cur: int, hi: int) -> Seq<SafetyAction>
    decreases hi - cur + 1,
{
    if hi < cur {
        Seq::empty()
    } else {
        propose_slots(s, n, cur, hi - 1) + propose_props(s, hi as u64, n)
    }
}

/// Conflicting-vote attempts for one slot by the Byzantine validators
/// below `k`.
pub open spec fn conflict_advs(slot: u64, k: int) -> Seq<SafetyAction>
    decreases k,
{
    if k <= 0 {
        Seq::empty()
    } else {
        conflict_advs(slot, k - 1) + seq![
            SafetyAction::CreateConflictingVote { slot, byzantine_validator: (k - 1) as usize },
        ]
    }
}

/// Conflicting-vote attempts for the slots `1..=sl`.
pub open spec fn conflict_slots(m: SafetyModel, sl: int) -> Seq<SafetyAction>
    decreases sl,
{
    if sl <= 0 {
        Seq::empty()
    } else {
        conflict_slots(m, sl - 1) + conflict_advs(sl as u64, m.byzantine_count as int)
    }
}

/// Certificate formations offered by one validator's pool entries below
/// `e`: entries with an honest-responsive quorum for a slot not yet
/// globally certified.
pub open spec fn form_entries(s: SafetyStateV, v: int, e: int) -> Seq<SafetyAction>
    decreases e,
{
    if e <= 0 {
        Seq::empty()
    } else {
        let n = s.validators.len() as int;
        let entry = s.validators[v].vote_pool[e - 1];
        let backing = stake_in(
            s.stake_distribution,
            entry.voters & eligible_mask(s.validators, n),
            n,
        );
        form_entries(s, v, e - 1) + (if entry.key.hash is Some && backing >= spec_threshold()
            && !props_has(s.global_certificates, entry.key.slot) {
            seq![
                SafetyAction::FormCertificate {
                    slot: entry.key.slot,
                    hash: entry.key.hash->0,
                    stake: backing as u64,
                },
            ]
        } else {
            Seq::empty()
        })
    }
}

/// Certificate formations offered by the validators below `k`.
pub open spec fn form_vals(s: SafetyStateV, k: int) -> Seq<SafetyAction>
    decreases k,
{
    if k <= 0 {
        Seq::empty()
    } else {
        form_vals(s, k - 1) + form_entries(s, k - 1, s.validators[k - 1].vote_pool.len() as int)
    }
}

/// Every action enabled in `s`, in generation order.
pub open spec fn sf_actions(m: SafetyModel, s: SafetyStateV) -> Seq<SafetyAction> {
    deliver_actions(s.network) + propose_slots(
        s,
        m.validator_count as int,
        s.current_slot as int,
        m.max_slot as int,
    ) + conflict_slots(m, m.max_slot as int) + form_vals(s, m.validator_count as int) + (
    if s.current_slot < m.max_slot {
        seq![SafetyAction::AdvanceSlot]
    } else {
        Seq::empty()
    })
}

// ------------------------------------------------------------------
// Properties
// ------------------------------------------------------------------

/// Mask of the Byzantine validators below `k`.
pub open spec fn byz_mask(vals: Seq<ValidatorStateV>, k: int) -> u64
    decreases k,
{
    if k <= 0 {
        0u64
    } else {
        byz_mask(vals, k - 1) | (if vals[k - 1].is_byzantine {
            1u64 << ((k - 1) as u64)
        } else {
            0u64
        })
    }
}

/// No conflicting pair of certificates has been recorded.
pub open spec fn prop_no_conflicting_finalization(s: SafetyStateV) -> bool {
    s.safety_violations.len() == 0
}

/// With Byzantine stake bounded by a fifth of the total, the finalized
/// chains agree.
pub open spec fn prop_chain_consistency(s: SafetyStateV) -> bool {
    let n = s.validators.len() as int;
    stake_in(s.stake_distribution, byz_mask(s.validators, n), n) <= TOTAL_STAKE * 20 / 100
        ==> spec_chain_consistent(s)
}

/// No slot has two entries in the global certificate ledger.
pub open spec fn prop_certificate_uniqueness(s: SafetyStateV) -> bool {
    forall|i: int, j: int|
        0 <= i < s.global_certificates.len() && 0 <= j < s.global_certificates.len()
            && #[trigger] s.global_certificates[i].slot == #[trigger] s.global_certificates[j].slot
            ==> i == j
}

/// No validator's vote record holds two votes for one slot.
pub open spec fn prop_non_equivocation(s: SafetyStateV) -> bool {
    forall|v: int, i: int, j: int|
        0 <= v < s.validators.len() && 0 <= i < s.validators[v].votes_cast.len() && 0 <= j
            < s.validators[v].votes_cast.len() && #[trigger] s.validators[v].votes_cast[i].slot
            == #[trigger] s.validators[v].votes_cast[j].slot ==> i == j
}

/// The invariants checked at every visited state.
#[derive(Clone, Copy, Debug, PartialEq, Eq, PartialOrd, Ord, Hash, Structural)]
pub enum SafetyProperty {
    NoConflictingFinalization,
    ChainConsistency,
    CertificateUniqueness,
    NonEquivocation,
    SafetyByzantine,
}

/// The properties violated in `s`, in a fixed order.
pub open spec fn sf_violations(s: SafetyStateV) -> Seq<SafetyProperty> {
    (if !prop_no_conflicting_finalization(s) {
        seq![SafetyProperty::NoConflictingFinalization]
    } else {
        Seq::empty()
    }) + (if !prop_chain_consistency(s) {
        seq![SafetyProperty::ChainConsistency]
    } else {
        Seq::empty()
    }) + (if !prop_certificate_uniqueness(s) {
        seq![SafetyProperty::CertificateUniqueness]
    } else {
        Seq::empty()
    }) + (if !prop_non_equivocation(s) {
        seq![SafetyProperty::NonEquivocation]
    } else {
        Seq::empty()
    }) + (if !prop_no_conflicting_finalization(s) {
        seq![SafetyProperty::SafetyByzantine]
    } else {
        Seq::empty()
    })
}

// ------------------------------------------------------------------
// The model, executably
// ------------------------------------------------------------------

impl SafetyModel {
    /// The single initial state of the model.
    pub fn init_states(&self) -> (r: Vec<SafetyState>)
        requires
            1 <= self.validator_count <= 64,
        ensures
            r@.len() == 1,
            r@[0]@ == sf_init(self.validator_count as int, self.byzantine_count as int),
    {
        let mut r: Vec<SafetyState> = Vec::new();
        r.push(SafetyState::new(self.validator_count, self.byzantine_count));
        r
    }

    /// Pool a delivered vote at the recipient and certify on a quorum.
    fn apply_vote(&self, s2: &mut SafetyState, d: usize, k: VoteKey, voter: usize)
        requires
            wf_state(*self, old(s2)@),
            d < self.validator_count,
            voter < 64,
            k.hash is Some,
        ensures
            final(s2)@ == sf_deliver_vote(*self, old(s2)@, old(s2)@.network, d as int, k, voter as int),
    {
        let vold = &s2.validators[d];
        let ghost oldv = vold@;
        proof {
            assert(old(s2)@.validators[d as int] == oldv);
            assert(pool_keys_distinct(oldv.vote_pool));
        }
        let mut pool = copy_vec(&vold.vote_pool);
        pool_add_exec(&mut pool, k, voter);
        proof {
            crate::certificate::lemma_pool_add_distinct(oldv.vote_pool, k, voter as int);
            assert(pool_has(pool@, k)) by {
                let p0 = oldv.vote_pool;
                if pool_has(p0, k) {
                    let i = pool_index(p0, k);
                    assert(pool@[i].key == k);
                } else {
                    assert(pool@[p0.len() as int].key == k);
                }
            }
        }
        let found = pool_find(&pool, k);
        let i = match found {
            Some(i) => i,
            None => {
                proof {
                    assert(false);
                }
                0
            },
        };
        let voters = pool[i].voters;
        let eligible = eligible_mask_exec(&s2.validators);
        proof {
            assert(s2@.validators == old(s2)@.validators);
        }
        let backing = stake_for_mask(&s2.stake_distribution, voters & eligible);
        let threshold = TOTAL_STAKE * CERTIFICATE_THRESHOLD_PERCENT / 100;
        let quorum = backing >= threshold;
        let hash = match k.hash {
            Some(h) => h,
            None => {
                proof {
                    assert(false);
                }
                0
            },
        };
        let vold = &s2.validators[d];
        let nv = ValidatorState {
            is_byzantine: vold.is_byzantine,
            is_responsive: vold.is_responsive,
            votes_cast: copy_vec(&vold.votes_cast),
            vote_pool: pool,
            certificates: {
                let mut c = copy_vec(&vold.certificates);
                if quorum {
                    props_update_exec(&mut c, k.slot, hash);
                }
                c
            },
            finalized_chain: {
                let mut c = copy_vec(&vold.finalized_chain);
                if quorum {
                    props_update_exec(&mut c, k.slot, hash);
                }
                c
            },
            current_slot: vold.current_slot,
        };
        set_vec(&mut s2.validators, d, nv);
        proof {
            let g = sf_deliver_vote(*self, old(s2)@, old(s2)@.network, d as int, k, voter as int);
            assert(s2@.validators =~= g.validators);
            assert(s2@ =~= g);
        }
    }

    /// The unique successor of `last_state` under `action`, or `None` when
    /// the action delivers a message no longer in flight.  Every successor
    /// carries a freshly scanned violation list.
    pub fn next_state(&self, last_state: &SafetyState, action: SafetyAction) -> (r: Option<
        SafetyState,
    >)
        requires
            wf_model(*self),
            wf_state(*self, last_state@),
            wf_action(*self, action),
            action is AdvanceSlot ==> last_state@.current_slot < u64::MAX,
        ensures
            match r {
                Some(s2) => sf_step(*self, last_state@, action) == Some(s2@),
                None => sf_step(*self, last_state@, action) is None,
            },
    {
        let mut s2 = match action {
            SafetyAction::ProposeBlock { slot, proposer } => {
                let mut s2 = last_state.duplicate();
                let hash = slot * 1000 + (proposer as u64);
                props_update_exec(&mut s2.block_proposals, slot, hash);
                broadcast_except_exec(
                    &mut s2.network,
                    SafetyMessage::BlockProposal { slot, hash, proposer },
                    self.validator_count,
                    proposer,
                );
                proof {
                    let g = sf_step_pre(*self, last_state@, action);
                    assert(g == Some(s2@)) by {
                        assert(s2@ =~= g->Some_0);
                    }
                }
                s2
            },
            SafetyAction::DeliverMessage { msg } => {
                if !net_contains(&last_state.network, msg) {
                    return None;
                }
                let mut s2 = last_state.duplicate();
                net_remove_exec(&mut s2.network, msg);
                proof {
                    lemma_distinct_remove(last_state@.network, net_index(last_state@.network, msg));
                }
                let d = msg.dst;
                match msg.msg {
                    SafetyMessage::BlockProposal { slot, hash, proposer } => {
                        proof {
                            assert(last_state@.validators[d as int] == s2.validators@[d as int]@);
                        }
                        let k = VoteKey { slot, hash: Some(hash) };
                        if s2.validators[d].is_responsive && !keys_contains(
                            &s2.validators[d].votes_cast,
                            k,
                        ) {
                            let vold = &s2.validators[d];
                            let mut votes_cast = copy_vec(&vold.votes_cast);
                            votes_cast.push(k);
                            let nv = ValidatorState {
                                is_byzantine: vold.is_byzantine,
                                is_responsive: vold.is_responsive,
                                votes_cast,
                                vote_pool: copy_vec(&vold.vote_pool),
                                certificates: copy_vec(&vold.certificates),
                                finalized_chain: copy_vec(&vold.finalized_chain),
                                current_slot: vold.current_slot,
                            };
                            set_vec(&mut s2.validators, d, nv);
                            broadcast_except_exec(
                                &mut s2.network,
                                SafetyMessage::Vote { slot, hash, voter: d },
                                self.validator_count,
                                self.validator_count,
                            );
                        }
                    },
                    SafetyMessage::Vote { slot, hash, voter } => {
                        self.apply_vote(&mut s2, d, VoteKey { slot, hash: Some(hash) }, voter);
                    },
                    SafetyMessage::ConflictingVote { slot, hash, voter } => {
                        self.apply_vote(&mut s2, d, VoteKey { slot, hash: Some(hash) }, voter);
                    },
                    SafetyMessage::CertificateFormed { slot, hash, stake: _ } => {
                        let mut i: usize = 0;
                        while i < s2.validators.len()
                            invariant
                                i <= s2.validators@.len(),
                                s2.validators@.len() == last_state@.validators.len(),
                                s2@.network == last_state@.network.remove(
                                    net_index(last_state@.network, msg),
                                ),
                                s2@.current_slot == last_state@.current_slot,
                                s2@.stake_distribution == last_state@.stake_distribution,
                                s2@.block_proposals == last_state@.block_proposals,
                                s2@.global_certificates == last_state@.global_certificates,
                                s2@.safety_violations == last_state@.safety_violations,
                                props_slots_distinct(s2@.global_certificates),
                                forall|v: int|
                                    0 <= v < last_state@.validators.len()
                                        ==> props_slots_distinct(
                                        (#[trigger] last_state@.validators[v]).certificates,
                                    ) && props_slots_distinct(
                                        last_state@.validators[v].finalized_chain,
                                    ),
                                forall|j: int|
                                    0 <= j < i ==> #[trigger] s2.validators@[j]@
                                        == (ValidatorStateV {
                                        certificates: props_update(
                                            last_state@.validators[j].certificates,
                                            slot,
                                            hash,
                                        ),
                                        finalized_chain: props_update(
                                            last_state@.validators[j].finalized_chain,
                                            slot,
                                            hash,
                                        ),
                                        ..last_state@.validators[j]
                                    }),
                                forall|j: int|
                                    i <= j < s2.validators@.len() ==> #[trigger] s2.validators@[j]@
                                        == last_state@.validators[j],
                            decreases s2.validators@.len() - i,
                        {
                            proof {
                                assert(s2.validators@[i as int]@ == last_state@.validators[i as int]);
                            }
                            let vold = &s2.validators[i];
                            let nv = ValidatorState {
                                is_byzantine: vold.is_byzantine,
                                is_responsive: vold.is_responsive,
                                votes_cast: copy_vec(&vold.votes_cast),
                                vote_pool: copy_vec(&vold.vote_pool),
                                certificates: {
                                    let mut c = copy_vec(&vold.certificates);
                                    props_update_exec(&mut c, slot, hash);
                                    c
                                },
                                finalized_chain: {
                                    let mut c = copy_vec(&vold.finalized_chain);
                                    props_update_exec(&mut c, slot, hash);
                                    c
                                },
                                current_slot: vold.current_slot,
                            };
                            set_vec(&mut s2.validators, i, nv);
                            proof {
                                assert(s2.validators@[i as int]@ =~= (ValidatorStateV {
                                    certificates: props_update(
                                        last_state@.validators[i as int].certificates,
                                        slot,
                                        hash,
                                    ),
                                    finalized_chain: props_update(
                                        last_state@.validators[i as int].finalized_chain,
                                        slot,
                                        hash,
                                    ),
                                    ..last_state@.validators[i as int]
                                }));
                            }
                            i = i + 1;
                        }
                        props_update_exec(&mut s2.global_certificates, slot, hash);
                    },
                }
                proof {
                    let g = sf_step_pre(*self, last_state@, action);
                    assert(g == Some(s2@)) by {
                        assert(g is Some);
                        if msg.msg is CertificateFormed {
                            assert(s2@.validators =~= g->Some_0.validators);
                        }
                        assert(s2@ =~= g->Some_0);
                    }
                }
                s2
            },
            SafetyAction::CreateConflictingVote { slot, byzantine_validator } => {
                let mut s2 = last_state.duplicate();
                let hash = slot * 1000 + 999;
                net_insert_exec(
                    &mut s2.network,
                    MessageInTransit {
                        dst: byzantine_validator,
                        msg: SafetyMessage::ConflictingVote {
                            slot,
                            hash,
                            voter: byzantine_validator,
                        },
                    },
                );
                proof {
                    let g = sf_step_pre(*self, last_state@, action);
                    assert(g == Some(s2@)) by {
                        assert(s2@ =~= g->Some_0);
                    }
                }
                s2
            },
            SafetyAction::FormCertificate { slot, hash, stake } => {
                let mut s2 = last_state.duplicate();
                net_insert_exec(
                    &mut s2.network,
                    MessageInTransit {
                        dst: 0,
                        msg: SafetyMessage::CertificateFormed { slot, hash, stake },
                    },
                );
                proof {
                    let g = sf_step_pre(*self, last_state@, action);
                    assert(g == Some(s2@)) by {
                        assert(s2@ =~= g->Some_0);
                    }
                }
                s2
            },
            SafetyAction::AdvanceSlot => {
                let mut s2 = last_state.duplicate();
                let slot2 = s2.current_slot + 1;
                s2.current_slot = slot2;
                let mut i: usize = 0;
                while i < s2.validators.len()
                    invariant
                        i <= s2.validators@.len(),
                        s2.validators@.len() == last_state@.validators.len(),
                        s2@.network == last_state@.network,
                        s2@.stake_distribution == last_state@.stake_distribution,
                        s2@.block_proposals == last_state@.block_proposals,
                        s2@.global_certificates == last_state@.global_certificates,
                        s2@.safety_violations == last_state@.safety_violations,
                        s2@.current_slot == slot2,
                        slot2 == last_state@.current_slot + 1,
                        forall|j: int|
                            0 <= j < i ==> #[trigger] s2.validators@[j]@ == (ValidatorStateV {
                                current_slot: slot2,
                                ..last_state@.validators[j]
                            }),
                        forall|j: int|
                            i <= j < s2.validators@.len() ==> #[trigger] s2.validators@[j]@
                                == last_state@.validators[j],
                    decreases s2.validators@.len() - i,
                {
                    proof {
                        assert(s2.validators@[i as int]@ == last_state@.validators[i as int]);
                    }
                    let vold = &s2.validators[i];
                    let nv = ValidatorState {
                        is_byzantine: vold.is_byzantine,
                        is_responsive: vold.is_responsive,
                        votes_cast: copy_vec(&vold.votes_cast),
                        vote_pool: copy_vec(&vold.vote_pool),
                        certificates: copy_vec(&vold.certificates),
                        finalized_chain: copy_vec(&vold.finalized_chain),
                        current_slot: slot2,
                    };
                    set_vec(&mut s2.validators, i, nv);
                    proof {
                        assert(s2.validators@[i as int]@ =~= (ValidatorStateV {
                            current_slot: slot2,
                            ..last_state@.validators[i as int]
                        }));
                    }
                    i = i + 1;
                }
                proof {
                    let g = sf_step_pre(*self, last_state@, action);
                    assert(g == Some(s2@)) by {
                        assert(s2@.validators =~= g->Some_0.validators);
                        assert(s2@ =~= g->Some_0);
                    }
                }
                s2
            },
        };
        let ghost pre = s2@;
        s2.check_safety_violations();
        proof {
            let g = sf_step(*self, last_state@, action);
            assert(g == Some(s2@)) by {
                assert(s2@ =~= g->Some_0);
            }
        }
        Some(s2)
    }

    /// Whether no conflicting certificate pair has been recorded.
    pub fn no_conflicting_finalization(&self, state: &SafetyState) -> (r: bool)
        ensures
            r == prop_no_conflicting_finalization(state@),
    {
        state.safety_violations.len() == 0
    }

    /// Whether the chains agree whenever Byzantine stake is bounded.
    pub fn chain_consistency(&self, state: &SafetyState) -> (r: bool)
        requires
            state@.validators.len() <= 64,
            state@.stake_distribution.len() == state@.validators.len(),
            stake_total(state@.stake_distribution, state@.validators.len() as int) <= u64::MAX,
            forall|v: int|
                0 <= v < state@.validators.len() ==> props_slots_distinct(
                    #[trigger] state@.validators[v].finalized_chain,
                ),
        ensures
            r == prop_chain_consistency(state@),
    {
        let byz = self.byz_mask_exec(state);
        let byz_stake = stake_for_mask(&state.stake_distribution, byz);
        if byz_stake > TOTAL_STAKE * 20 / 100 {
            true
        } else {
            state.check_chain_consistency()
        }
    }

    fn byz_mask_exec(&self, state: &SafetyState) -> (r: u64)
        requires
            state@.validators.len() <= 64,
        ensures
            r == byz_mask(state@.validators, state@.validators.len() as int),
    {
        let mut m: u64 = 0;
        let mut i: usize = 0;
        while i < state.validators.len()
            invariant
                i <= state.validators@.len(),
                state.validators@.len() <= 64,
                m == byz_mask(state@.validators, i as int),
            decreases state.validators@.len() - i,
        {
            proof {
                assert(state@.validators[i as int] == state.validators@[i as int]@);
            }
            if state.validators[i].is_byzantine {
                m = m | (1u64 << (i as u64));
            } else {
                proof {
                    assert(m | 0u64 == m) by (bit_vector);
                }
            }
            i = i + 1;
        }
        m
    }

    /// Whether no slot has two entries in the global ledger.
    pub fn certificate_uniqueness(&self, state: &SafetyState) -> (r: bool)
        ensures
            r == prop_certificate_uniqueness(state@),
    {
        let gc = &state.global_certificates;
        let mut i: usize = 0;
        while i < gc.len()
            invariant
                gc@ == state@.global_certificates,
                i <= gc@.len(),
                forall|a: int, b: int|
                    0 <= a < i && 0 <= b < gc@.len() && #[trigger] gc@[a].slot
                        == #[trigger] gc@[b].slot ==> a == b,
            decreases gc@.len() - i,
        {
            let mut j: usize = 0;
            while j < gc.len()
                invariant
                    gc@ == state@.global_certificates,
                    i < gc@.len(),
                    j <= gc@.len(),
                    forall|a: int, b: int|
                        0 <= a < i && 0 <= b < gc@.len() && #[trigger] gc@[a].slot
                            == #[trigger] gc@[b].slot ==> a == b,
                    forall|b: int|
                        0 <= b < j && (#[trigger] gc@[b].slot) == gc@[i as int].slot ==> b
                            == i as int,
                decreases gc@.len() - j,
            {
                if j != i && gc[j].slot == gc[i].slot {
                    proof {
                        let sv = state@;
                        assert(sv.global_certificates[j as int].slot
                            == sv.global_certificates[i as int].slot);
                        assert(!prop_certificate_uniqueness(sv));
                    }
                    return false;
                }
                j = j + 1;
            }
            i = i + 1;
        }
        proof {
            assert(prop_certificate_uniqueness(state@)) by {
                let sv = state@;
                assert forall|a: int, b: int|
                    0 <= a < sv.global_certificates.len() && 0 <= b
                        < sv.global_certificates.len() && #[trigger] sv.global_certificates[a].slot
                        == #[trigger] sv.global_certificates[b].slot implies a == b by {
                    assert(gc@[a].slot == gc@[b].slot);
                }
            }
        }
        true
    }

    /// Whether every validator voted at most once per slot.
    pub fn non_equivocation(&self, state: &SafetyState) -> (r: bool)
        ensures
            r == prop_non_equivocation(state@),
    {
        let mut v: usize = 0;
        while v < state.validators.len()
            invariant
                v <= state.validators@.len(),
                forall|a: int, i: int, j: int|
                    0 <= a < v && 0 <= i < state@.validators[a].votes_cast.len() && 0 <= j
                        < state@.validators[a].votes_cast.len()
                        && #[trigger] state@.validators[a].votes_cast[i].slot
                        == #[trigger] state@.validators[a].votes_cast[j].slot ==> i == j,
            decreases state.validators@.len() - v,
        {
            proof {
                assert(state@.validators[v as int] == state.validators@[v as int]@);
            }
            let votes = &state.validators[v].votes_cast;
            let mut i: usize = 0;
            while i < votes.len()
                invariant
                    i <= votes@.len(),
                    votes@ == state@.validators[v as int].votes_cast,
                    v < state.validators@.len(),
                    forall|a: int, b: int|
                        0 <= a < i && 0 <= b < votes@.len() && #[trigger] votes@[a].slot
                            == #[trigger] votes@[b].slot ==> a == b,
                decreases votes@.len() - i,
            {
                let mut j: usize = 0;
                while j < votes.len()
                    invariant
                        i < votes@.len(),
                        j <= votes@.len(),
                        votes@ == state@.validators[v as int].votes_cast,
                        v < state.validators@.len(),
                        forall|a: int, b: int|
                            0 <= a < i && 0 <= b < votes@.len() && #[trigger] votes@[a].slot
                                == #[trigger] votes@[b].slot ==> a == b,
                        forall|b: int|
                            0 <= b < j && (#[trigger] votes@[b].slot) == votes@[i as int].slot
                                ==> b == i as int,
                    decreases votes@.len() - j,
                {
                    if j != i && votes[j].slot == votes[i].slot {
                        proof {
                            let sv = state@;
                            assert(sv.validators[v as int].votes_cast[j as int].slot
                                == sv.validators[v as int].votes_cast[i as int].slot);
                            assert(!prop_non_equivocation(sv));
                        }
                        return false;
                    }
                    j = j + 1;
                }
                i = i + 1;
            }
            v = v + 1;
        }
        proof {
            assert(prop_non_equivocation(state@)) by {
                let sv = state@;
                assert forall|a: int, i: int, j: int|
                    0 <= a < sv.validators.len() && 0 <= i < sv.validators[a].votes_cast.len() && 0
                        <= j < sv.validators[a].votes_cast.len()
                        && #[trigger] sv.validators[a].votes_cast[i].slot
                        == #[trigger] sv.validators[a].votes_cast[j].slot implies i == j by {
                    assert(sv.validators[a].votes_cast[i].slot
                        == sv.validators[a].votes_cast[j].slot);
                }
            }
        }
        true
    }

    /// Evaluate every property on a state; the result lists the violated
    /// ones in a fixed order.
    pub fn check_properties(&self, state: &SafetyState) -> (r: Vec<SafetyProperty>)
        requires
            state@.validators.len() <= 64,
            state@.stake_distribution.len() == state@.validators.len(),
            stake_total(state@.stake_distribution, state@.validators.len() as int) <= u64::MAX,
            forall|v: int|
                0 <= v < state@.validators.len() ==> props_slots_distinct(
                    #[trigger] state@.validators[v].finalized_chain,
                ),
        ensures
            r@ == sf_violations(state@),
    {
        let mut r: Vec<SafetyProperty> = Vec::new();
        let ok_violations = self.no_conflicting_finalization(state);
        if !ok_violations {
            r.push(SafetyProperty::NoConflictingFinalization);
        }
        if !self.chain_consistency(state) {
            r.push(SafetyProperty::ChainConsistency);
        }
        if !self.certificate_uniqueness(state) {
            r.push(SafetyProperty::CertificateUniqueness);
        }
        if !self.non_equivocation(state) {
            r.push(SafetyProperty::NonEquivocation);
        }
        if !ok_violations {
            r.push(SafetyProperty::SafetyByzantine);
        }
        proof {
            assert(r@ =~= sf_violations(state@));
        }
        r
    }

    /// Append every enabled action to `actions`: deliveries, proposals,
    /// Byzantine conflicting votes, certificate formations backed by a
    /// quorum, and the slot advance.
    pub fn actions(&self, state: &SafetyState, actions: &mut Vec<SafetyAction>)
        requires
            wf_model(*self),
            wf_state(*self, state@),
        ensures
            final(actions)@ == old(actions)@ + sf_actions(*self, state@),
    {
        let ghost base = actions@;
        let ghost sv = state@;
        let n = self.validator_count;

        let mut i: usize = 0;
        while i < state.network.len()
            invariant
                i <= state.network@.len(),
                sv == state@,
                actions@ == base + deliver_actions(sv.network).subrange(0, i as int),
            decreases state.network@.len() - i,
        {
            actions.push(SafetyAction::DeliverMessage { msg: state.network[i] });
            proof {
                assert(actions@ =~= base + deliver_actions(sv.network).subrange(0, i as int + 1));
            }
            i = i + 1;
        }
        proof {
            assert(deliver_actions(sv.network).subrange(0, sv.network.len() as int)
                =~= deliver_actions(sv.network));
        }

        let ghost base1 = base + deliver_actions(sv.network);
        let ghost cur = state@.current_slot as int;
        let mut slot: u64 = state.current_slot;
        while slot <= self.max_slot
            invariant
                state@.current_slot <= slot,
                slot <= self.max_slot + 1 || slot == state@.current_slot,
                wf_model(*self),
                wf_state(*self, state@),
                sv == state@,
                n == self.validator_count,
                cur == state@.current_slot as int,
                actions@ == base1 + propose_slots(sv, n as int, cur, slot as int - 1),
            decreases self.max_slot + 1 - slot,
        {
            let mut proposer: usize = 0;
            while proposer < n
                invariant
                    proposer <= n,
                    state@.current_slot <= slot <= self.max_slot,
                    wf_model(*self),
                    wf_state(*self, state@),
                    sv == state@,
                    n == self.validator_count,
                    cur == state@.current_slot as int,
                    actions@ == base1 + propose_slots(sv, n as int, cur, slot as int - 1)
                        + propose_props(sv, slot, proposer as int),
                decreases n - proposer,
            {
                if !self.has_proposal(state, slot) {
                    actions.push(SafetyAction::ProposeBlock { slot, proposer });
                }
                proof {
                    assert(actions@ =~= base1 + propose_slots(sv, n as int, cur, slot as int - 1)
                        + propose_props(sv, slot, proposer as int + 1));
                }
                proposer = proposer + 1;
            }
            proof {
                assert(actions@ =~= base1 + propose_slots(sv, n as int, cur, slot as int));
            }
            slot = slot + 1;
        }
        proof {
            if cur > self.max_slot as int {
                assert(propose_slots(sv, n as int, cur, self.max_slot as int) =~= propose_slots(
                    sv,
                    n as int,
                    cur,
                    cur - 1,
                ));
            }
        }

        let ghost base2 = base1 + propose_slots(sv, n as int, cur, self.max_slot as int);
        proof {
            assert(actions@ == base2);
        }
        let mut slot: u64 = 1;
        while slot <= self.max_slot
            invariant
                1 <= slot <= self.max_slot + 1,
                wf_model(*self),
                sv == state@,
                actions@ == base2 + conflict_slots(*self, slot as int - 1),
            decreases self.max_slot + 1 - slot,
        {
            let mut b: usize = 0;
            while b < self.byzantine_count
                invariant
                    b <= self.byzantine_count,
                    1 <= slot <= self.max_slot,
                    wf_model(*self),
                    sv == state@,
                    actions@ == base2 + conflict_slots(*self, slot as int - 1) + conflict_advs(
                        slot,
                        b as int,
                    ),
                decreases self.byzantine_count - b,
            {
                actions.push(SafetyAction::CreateConflictingVote { slot, byzantine_validator: b });
                proof {
                    assert(actions@ =~= base2 + conflict_slots(*self, slot as int - 1)
                        + conflict_advs(slot, b as int + 1));
                }
                b = b + 1;
            }
            proof {
                assert(actions@ =~= base2 + conflict_slots(*self, slot as int));
            }
            slot = slot + 1;
        }

        let ghost base3 = base2 + conflict_slots(*self, self.max_slot as int);
        proof {
            assert(actions@ == base3);
        }
        let eligible = eligible_mask_exec(&state.validators);
        let threshold = TOTAL_STAKE * CERTIFICATE_THRESHOLD_PERCENT / 100;
        let mut v: usize = 0;
        while v < n
            invariant
                v <= n,
                wf_model(*self),
                wf_state(*self, state@),
                sv == state@,
                n == self.validator_count,
                eligible == eligible_mask(sv.validators, n as int),
                threshold == spec_threshold(),
                actions@ == base3 + form_vals(sv, v as int),
            decreases n - v,
        {
            proof {
                assert(sv.validators[v as int] == state.validators@[v as int]@);
            }
            let pool_len = state.validators[v].vote_pool.len();
            let mut e: usize = 0;
            while e < pool_len
                invariant
                    e <= pool_len,
                    v < n,
                    wf_model(*self),
                    wf_state(*self, state@),
                    sv == state@,
                    n == self.validator_count,
                    pool_len == sv.validators[v as int].vote_pool.len(),
                    sv.validators[v as int] == state.validators@[v as int]@,
                    eligible == eligible_mask(sv.validators, n as int),
                    threshold == spec_threshold(),
                    actions@ == base3 + form_vals(sv, v as int) + form_entries(sv, v as int, e as int),
                decreases pool_len - e,
            {
                let entry = state.validators[v].vote_pool[e];
                let backing = stake_for_mask(&state.stake_distribution, entry.voters & eligible);
                let is_block = entry.key.hash.is_some();
                let slot_taken = self.has_global_certificate(state, entry.key.slot);
                if is_block && backing >= threshold && !slot_taken {
                    let hash = match entry.key.hash {
                        Some(h) => h,
                        None => 0,
                    };
                    actions.push(
                        SafetyAction::FormCertificate { slot: entry.key.slot, hash, stake: backing },
                    );
                }
                proof {
                    assert(actions@ =~= base3 + form_vals(sv, v as int) + form_entries(
                        sv,
                        v as int,
                        e as int + 1,
                    ));
                }
                e = e + 1;
            }
            proof {
                assert(actions@ =~= base3 + form_vals(sv, v as int + 1));
            }
            v = v + 1;
        }

        if state.current_slot < self.max_slot {
            actions.push(SafetyAction::AdvanceSlot);
        }
        proof {
            assert(actions@ =~= old(actions)@ + sf_actions(*self, state@));
        }
    }

    fn has_proposal(&self, state: &SafetyState, slot: u64) -> (r: bool)
        ensures
            r == props_has(state@.block_proposals, slot),
    {
        let bp = &state.block_proposals;
        let mut i: usize = 0;
        while i < bp.len()
            invariant
                bp@ == state@.block_proposals,
                i <= bp@.len(),
                forall|j: int| 0 <= j < i ==> bp@[j].slot != slot,
            decreases bp@.len() - i,
        {
            if bp[i].slot == slot {
                return true;
            }
            i = i + 1;
        }
        false
    }

    fn has_global_certificate(&self, state: &SafetyState, slot: u64) -> (r: bool)
        ensures
            r == props_has(state@.global_certificates, slot),
    {
        let gc = &state.global_certificates;
        let mut i: usize = 0;
        while i < gc.len()
            invariant
                gc@ == state@.global_certificates,
                i <= gc@.len(),
                forall|j: int| 0 <= j < i ==> gc@[j].slot != slot,
            decreases gc@.len() - i,
        {
            if gc[i].slot == slot {
                return true;
            }
            i = i + 1;
        }
        false
    }
}

/// Every finalized chain agrees with the first non-empty one on shared
/// slots.
pub open spec fn spec_chain_consistent(s: SafetyStateV) -> bool {
    let r = spec_first_chain(s.validators, s.validators.len() as int);
    r < 0 || forall|a: int, e: int|
        0 <= a < s.validators.len() && 0 <= e < s.validators[a].finalized_chain.len() && props_has(
            s.validators[r].finalized_chain,
            (#[trigger] s.validators[a].finalized_chain[e]).slot,
        ) ==> s.validators[r].finalized_chain[props_index(
            s.validators[r].finalized_chain,
            s.validators[a].finalized_chain[e].slot,
        )].hash == s.validators[a].finalized_chain[e].hash
}

} // verus!
