//! Leader rotation and window management model.
//!
//! Leaders are assigned to slots by stake-weighted deterministic selection.
//! A leader failure produces a skip certificate; a validator keeps its
//! bad-window flag raised exactly while some skip certificate's slot `t`
//! satisfies `t <= current_slot < t + LEADER_WINDOW_SIZE`, and the flag
//! falls automatically once the window has slid past every such slot.

use crate::certificate::{lemma_distinct_remove, seq_distinct};
use crate::stake::{stake_total, total_stake_of};
use crate::util::{copy_vec, set_vec};
use vstd::prelude::*;

verus! {

/// Number of slots a skip certificate keeps the bad-window flag raised.
pub const LEADER_WINDOW_SIZE: u64 = 5;

/// Stake held by all validators together.
pub const TOTAL_STAKE: u64 = 1000;

/// Messages exchanged in the leader model.
#[derive(Clone, Copy, Debug, PartialEq, Eq, PartialOrd, Ord, Hash, Structural)]
pub enum LeaderMessage {
    /// A leader was selected for a slot.
    LeaderSelection { slot: u64, leader: usize, stake: u64 },
    /// A skip certificate naming a failed leader.
    SkipCertificate { slot: u64, failed_leader: usize },
    /// An explicit bad-window flag update.
    BadWindowUpdate { slot: u64, validator: usize, bad_window: bool },
}

/// A message addressed to one validator, waiting in the network.
#[derive(Clone, Copy, Debug, PartialEq, Eq, PartialOrd, Ord, Hash, Structural)]
pub struct MessageInTransit {
    pub dst: usize,
    pub msg: LeaderMessage,
}

/// Actions enabled in the leader model.
#[derive(Clone, Copy, Debug, PartialEq, Eq, PartialOrd, Ord, Hash, Structural)]
pub enum LeaderAction {
    SelectLeader { slot: u64, leader: usize },
    DeliverMessage { msg: MessageInTransit },
    TriggerLeaderFailure { slot: u64, leader: usize },
    AdvanceSlot,
}

/// A slot mapped to a validator (an assignment, failure, or certificate).
#[derive(Clone, Copy, Debug, PartialEq, Eq, PartialOrd, Ord, Hash, Structural)]
pub struct SlotActor {
    pub slot: u64,
    pub actor: usize,
}

/// Per-validator state.
#[derive(Clone, Debug, PartialEq, Eq, Hash)]
pub struct ValidatorState {
    /// This validator's view of the slot counter.
    pub current_slot: u64,
    /// Raised while a skip certificate sits inside the leader window.
    pub bad_window: bool,
    /// The slot at which the flag was last raised.
    pub bad_window_triggered_at: Option<u64>,
    /// Leaders this validator has learnt, one per slot.
    pub known_leaders: Vec<SlotActor>,
    /// Skip certificates this validator has learnt, one per slot.
    pub skip_certificates: Vec<SlotActor>,
    /// This validator's stake.
    pub stake: u64,
}

/// The whole world state of the leader model.
#[derive(Clone, Debug, PartialEq, Eq, Hash)]
pub struct LeaderState {
    /// Messages in flight, kept without duplicates.
    pub network: Vec<MessageInTransit>,
    /// All validators, indexed by identity.
    pub validators: Vec<ValidatorState>,
    /// Global slot counter.
    pub current_slot: u64,
    /// Global leader assignments, one per slot.
    pub leader_assignments: Vec<SlotActor>,
    /// Recorded leader failures, one per slot.
    pub leader_failures: Vec<SlotActor>,
    /// Stake of each validator, indexed by identity.
    pub stake_distribution: Vec<u64>,
}

/// Configuration of the leader model.
#[derive(Clone, Copy, Debug, PartialEq, Eq, Hash, Structural)]
pub struct LeaderModel {
    pub validator_count: usize,
    pub max_slot: u64,
}

/// Mathematical view of a validator.
#[verifier::ext_equal]
pub struct ValidatorStateV {
    pub current_slot: u64,
    pub bad_window: bool,
    pub bad_window_triggered_at: Option<u64>,
    pub known_leaders: Seq<SlotActor>,
    pub skip_certificates: Seq<SlotActor>,
    pub stake: u64,
}

/// Mathematical view of the world state.
#[verifier::ext_equal]
pub struct LeaderStateV {
    pub network: Seq<MessageInTransit>,
    pub validators: Seq<ValidatorStateV>,
    pub current_slot: u64,
    pub leader_assignments: Seq<SlotActor>,
    pub leader_failures: Seq<SlotActor>,
    pub stake_distribution: Seq<u64>,
}

impl View for ValidatorState {
    type V = ValidatorStateV;

    open spec fn view(&self) -> ValidatorStateV {
        ValidatorStateV {
            current_slot: self.current_slot,
            bad_window: self.bad_window,
            bad_window_triggered_at: self.bad_window_triggered_at,
            known_leaders: self.known_leaders@,
            skip_certificates: self.skip_certificates@,
            stake: self.stake,
        }
    }
}

impl View for LeaderState {
    type V = LeaderStateV;

    open spec fn view(&self) -> LeaderStateV {
        LeaderStateV {
            network: self.network@,
            validators: self.validators@.map_values(|v: ValidatorState| v@),
            current_slot: self.current_slot,
            leader_assignments: self.leader_assignments@,
            leader_failures: self.leader_failures@,
            stake_distribution: self.stake_distribution@,
        }
    }
}

// ------------------------------------------------------------------
// Spec-level building blocks
// ------------------------------------------------------------------

/// Insert into a duplicate-free message sequence.
pub open spec fn net_insert(net: Seq<MessageInTransit>, m: MessageInTransit) -> Seq<
    MessageInTransit,
> {
    if net.contains(m) {
        net
    } else {
        net.push(m)
    }
}

/// Index of a message in the network.
pub open spec fn net_index(net: Seq<MessageInTransit>, m: MessageInTransit) -> int {
    choose|i: int| 0 <= i < net.len() && net[i] == m
}

/// The network after broadcasting `msg` to every validator below `n`.
pub open spec fn net_broadcast(net: Seq<MessageInTransit>, msg: LeaderMessage, n: int) -> Seq<
    MessageInTransit,
>
    decreases n,
{
    if n <= 0 {
        net
    } else {
        net_insert(net_broadcast(net, msg, n - 1), MessageInTransit { dst: (n - 1) as usize, msg })
    }
}

/// Whether a slot-to-actor list holds an entry for `slot`.
pub open spec fn sa_has(sa: Seq<SlotActor>, slot: u64) -> bool {
    exists|i: int| 0 <= i < sa.len() && sa[i].slot == slot
}

/// Index of the entry for `slot`.
pub open spec fn sa_index(sa: Seq<SlotActor>, slot: u64) -> int {
    choose|i: int| 0 <= i < sa.len() && sa[i].slot == slot
}

/// Record or overwrite the actor for a slot.
pub open spec fn sa_update(sa: Seq<SlotActor>, slot: u64, actor: usize) -> Seq<SlotActor> {
    if sa_has(sa, slot) {
        sa.update(sa_index(sa, slot), SlotActor { slot, actor })
    } else {
        sa.push(SlotActor { slot, actor })
    }
}

/// Slots are pairwise distinct.
pub open spec fn sa_slots_distinct(sa: Seq<SlotActor>) -> bool {
    forall|i: int, j: int|
        0 <= i < sa.len() && 0 <= j < sa.len() && sa[i].slot == sa[j].slot ==> i == j
}

/// Whether `current_slot` still lies in the window opened at `slot`.
pub open spec fn spec_within_window(slot: u64, current_slot: u64) -> bool {
    slot <= current_slot < slot + LEADER_WINDOW_SIZE
}

/// Whether any learnt skip certificate lies inside the validator's window.
pub open spec fn spec_has_skip_in_window(v: ValidatorStateV) -> bool {
    exists|i: int|
        0 <= i < v.skip_certificates.len() && spec_within_window(
            #[trigger] v.skip_certificates[i].slot,
            v.current_slot,
        )
}

/// Refresh one validator's bad-window flag from its skip certificates.
pub open spec fn spec_refresh_flag(v: ValidatorStateV) -> ValidatorStateV {
    let in_window = spec_has_skip_in_window(v);
    if in_window && !v.bad_window {
        ValidatorStateV { bad_window: true, bad_window_triggered_at: Some(v.current_slot), ..v }
    } else if !in_window && v.bad_window {
        ValidatorStateV { bad_window: false, bad_window_triggered_at: None, ..v }
    } else {
        v
    }
}

/// First index whose cumulative stake exceeds the seed, or `-1`.
pub open spec fn spec_first_hit(stakes: Seq<u64>, seed: int, k: int) -> int
    decreases k,
{
    if k <= 0 {
        -1
    } else {
        let p = spec_first_hit(stakes, seed, k - 1);
        if p >= 0 {
            p
        } else if seed < stake_total(stakes, k) {
            k - 1
        } else {
            -1
        }
    }
}

/// The pseudo-random seed a slot maps to.
pub open spec fn spec_slot_seed(s: LeaderStateV, slot: u64) -> int {
    (slot * 1234567891) % stake_total(s.stake_distribution, s.stake_distribution.len() as int)
}

/// The leader that stake-weighted selection assigns to a slot.
pub open spec fn spec_leader_for_slot(s: LeaderStateV, slot: u64) -> int {
    let n = s.stake_distribution.len() as int;
    let hit = spec_first_hit(s.stake_distribution, spec_slot_seed(s, slot), n);
    if hit >= 0 {
        hit
    } else {
        n - 1
    }
}

// ------------------------------------------------------------------
// Well-formedness
// ------------------------------------------------------------------

/// Message fields fit the model bounds.
pub open spec fn wf_message(m: LeaderModel, t: MessageInTransit) -> bool {
    &&& t.dst < m.validator_count
    &&& match t.msg {
        LeaderMessage::LeaderSelection { leader, .. } => leader < m.validator_count,
        LeaderMessage::SkipCertificate { failed_leader, .. } => failed_leader < m.validator_count,
        LeaderMessage::BadWindowUpdate { validator, .. } => validator < m.validator_count,
    }
}

/// Structural well-formedness of a state.
pub open spec fn wf_state(m: LeaderModel, s: LeaderStateV) -> bool {
    &&& 1 <= m.validator_count <= 64
    &&& s.validators.len() == m.validator_count
    &&& s.stake_distribution.len() == m.validator_count
    &&& 0 < stake_total(s.stake_distribution, m.validator_count as int) <= u64::MAX
    &&& seq_distinct(s.network)
    &&& forall|i: int| 0 <= i < s.network.len() ==> wf_message(m, #[trigger] s.network[i])
    &&& forall|v: int|
        0 <= v < s.validators.len() ==> sa_slots_distinct(#[trigger] s.validators[v].known_leaders)
    &&& forall|v: int|
        0 <= v < s.validators.len() ==> sa_slots_distinct(
            #[trigger] s.validators[v].skip_certificates,
        )
    &&& sa_slots_distinct(s.leader_assignments)
    &&& sa_slots_distinct(s.leader_failures)
}

/// Bounds under which the model's arithmetic cannot overflow.
pub open spec fn wf_model(m: LeaderModel) -> bool {
    &&& 1 <= m.validator_count <= 64
    &&& m.max_slot <= 1000000
}

/// Whether an action refers only to validators and slots that exist.
pub open spec fn wf_action(m: LeaderModel, a: LeaderAction) -> bool {
    match a {
        LeaderAction::SelectLeader { slot, leader } => leader < m.validator_count && slot
            <= m.max_slot,
        LeaderAction::DeliverMessage { msg } => wf_message(m, msg),
        LeaderAction::TriggerLeaderFailure { slot, leader } => leader < m.validator_count,
        LeaderAction::AdvanceSlot => true,
    }
}

// ------------------------------------------------------------------
// The transition function, mathematically
// ------------------------------------------------------------------

/// One transition of the leader model.
pub open spec fn lr_step(m: LeaderModel, s: LeaderStateV, a: LeaderAction) -> Option<LeaderStateV> {
    let n = m.validator_count as int;
    match a {
        LeaderAction::SelectLeader { slot, leader } => {
            let stake = s.stake_distribution[leader as int];
            Some(
                LeaderStateV {
                    network: net_broadcast(
                        s.network,
                        LeaderMessage::LeaderSelection { slot, leader, stake },
                        n,
                    ),
                    leader_assignments: sa_update(s.leader_assignments, slot, leader),
                    ..s
                },
            )
        },
        LeaderAction::DeliverMessage { msg } => {
            if !s.network.contains(msg) {
                None
            } else {
                let net1 = s.network.remove(net_index(s.network, msg));
                let d = msg.dst as int;
                let v = s.validators[d];
                let v2 = match msg.msg {
                    LeaderMessage::LeaderSelection { slot, leader, .. } => ValidatorStateV {
                        known_leaders: sa_update(v.known_leaders, slot, leader),
                        ..v
                    },
                    LeaderMessage::SkipCertificate { slot, failed_leader } => ValidatorStateV {
                        skip_certificates: sa_update(v.skip_certificates, slot, failed_leader),
                        ..v
                    },
                    LeaderMessage::BadWindowUpdate { bad_window, .. } => ValidatorStateV {
                        bad_window,
                        ..v
                    },
                };
                Some(LeaderStateV { network: net1, validators: s.validators.update(d, v2), ..s })
            }
        },
        LeaderAction::TriggerLeaderFailure { slot, leader } => Some(
            LeaderStateV {
                network: net_broadcast(
                    s.network,
                    LeaderMessage::SkipCertificate { slot, failed_leader: leader },
                    n,
                ),
                leader_failures: sa_update(s.leader_failures, slot, leader),
                ..s
            },
        ),
        LeaderAction::AdvanceSlot => {
            let slot2 = (s.current_slot + 1) as u64;
            Some(
                LeaderStateV {
                    validators: s.validators.map_values(
                        |v: ValidatorStateV|
                            spec_refresh_flag(ValidatorStateV { current_slot: slot2, ..v }),
                    ),
                    current_slot: slot2,
                    ..s
                },
            )
        },
    }
}

/// The initial state for a configuration.
pub open spec fn lr_init(validator_count: int) -> LeaderStateV {
    let stake = TOTAL_STAKE / validator_count as u64;
    LeaderStateV {
        network: Seq::empty(),
        validators: Seq::new(
            validator_count as nat,
            |i: int|
                ValidatorStateV {
                    current_slot: 0,
                    bad_window: false,
                    bad_window_triggered_at: None,
                    known_leaders: Seq::empty(),
                    skip_certificates: Seq::empty(),
                    stake,
                },
        ),
        current_slot: 0,
        leader_assignments: Seq::empty(),
        leader_failures: Seq::empty(),
        stake_distribution: Seq::new(validator_count as nat, |i: int| stake),
    }
}

// ------------------------------------------------------------------
// Executable helpers
// ------------------------------------------------------------------

fn net_contains(net: &Vec<MessageInTransit>, m: MessageInTransit) -> (r: bool)
    ensures
        r == net@.contains(m),
{
    let mut i: usize = 0;
    while i < net.len()
        invariant
            i <= net@.len(),
            forall|j: int| 0 <= j < i ==> net@[j] != m,
        decreases net@.len() - i,
    {
        if net[i] == m {
            return true;
        }
        i = i + 1;
    }
    false
}

fn net_insert_exec(net: &mut Vec<MessageInTransit>, m: MessageInTransit)
    ensures
        final(net)@ == net_insert(old(net)@, m),
{
    if !net_contains(net, m) {
        net.push(m);
    }
}

fn net_remove_exec(net: &mut Vec<MessageInTransit>, m: MessageInTransit)
    requires
        seq_distinct(old(net)@),
        old(net)@.contains(m),
    ensures
        final(net)@ == old(net)@.remove(net_index(old(net)@, m)),
{
    let ghost orig = net@;
    proof {
        assert(orig == old(net)@);
    }
    let mut i: usize = 0;
    while i < net.len()
        invariant
            net@ == orig,
            orig == old(net)@,
            seq_distinct(orig),
            i <= net@.len(),
            forall|j: int| 0 <= j < i ==> net@[j] != m,
            net@.contains(m),
        decreases net@.len() - i,
    {
        if net[i] == m {
            proof {
                let ii = net_index(orig, m);
                assert(0 <= ii < orig.len() && orig[ii] == m);
                assert(ii == i as int);
            }
            net.remove(i);
            return ;
        }
        i = i + 1;
    }
    proof {
        let ii = choose|j: int| 0 <= j < orig.len() && orig[j] == m;
        assert(false);
    }
}

fn broadcast_exec(net: &mut Vec<MessageInTransit>, msg: LeaderMessage, n: usize)
    ensures
        final(net)@ == net_broadcast(old(net)@, msg, n as int),
{
    let mut i: usize = 0;
    while i < n
        invariant
            i <= n,
            net@ == net_broadcast(old(net)@, msg, i as int),
        decreases n - i,
    {
        net_insert_exec(net, MessageInTransit { dst: i, msg });
        i = i + 1;
    }
}

fn sa_has_exec(sa: &Vec<SlotActor>, slot: u64) -> (r: bool)
    ensures
        r == sa_has(sa@, slot),
{
    let mut i: usize = 0;
    while i < sa.len()
        invariant
            i <= sa@.len(),
            forall|j: int| 0 <= j < i ==> sa@[j].slot != slot,
        decreases sa@.len() - i,
    {
        if sa[i].slot == slot {
            return true;
        }
        i = i + 1;
    }
    false
}

fn sa_update_exec(sa: &mut Vec<SlotActor>, slot: u64, actor: usize)
    requires
        sa_slots_distinct(old(sa)@),
    ensures
        final(sa)@ == sa_update(old(sa)@, slot, actor),
{
    let mut i: usize = 0;
    while i < sa.len()
        invariant
            i <= sa@.len(),
            sa@ == old(sa)@,
            sa_slots_distinct(sa@),
            forall|j: int| 0 <= j < i ==> sa@[j].slot != slot,
        decreases sa@.len() - i,
    {
        if sa[i].slot == slot {
            proof {
                assert(sa_has(sa@, slot));
                let ii = sa_index(sa@, slot);
                assert(0 <= ii < sa@.len() && sa@[ii].slot == slot);
            }
            set_vec(sa, i, SlotActor { slot, actor });
            return ;
        }
        i = i + 1;
    }
    proof {
        assert(!sa_has(sa@, slot));
    }
    sa.push(SlotActor { slot, actor });
}

// ------------------------------------------------------------------
// Executable state
// ------------------------------------------------------------------

impl ValidatorState {
    fn duplicate(&self) -> (r: ValidatorState)
        ensures
            r@ == self@,
    {
        ValidatorState {
            current_slot: self.current_slot,
            bad_window: self.bad_window,
            bad_window_triggered_at: self.bad_window_triggered_at,
            known_leaders: copy_vec(&self.known_leaders),
            skip_certificates: copy_vec(&self.skip_certificates),
            stake: self.stake,
        }
    }

    /// Whether any learnt skip certificate is inside this validator's
    /// window.
    fn has_skip_in_window(&self) -> (r: bool)
        ensures
            r == spec_has_skip_in_window(self@),
    {
        let sc = &self.skip_certificates;
        let mut i: usize = 0;
        while i < sc.len()
            invariant
                sc@ == self@.skip_certificates,
                i <= sc@.len(),
                forall|j: int|
                    0 <= j < i ==> !spec_within_window(
                        #[trigger] sc@[j].slot,
                        self@.current_slot,
                    ),
            decreases sc@.len() - i,
        {
            let t = sc[i].slot;
            if t <= self.current_slot && self.current_slot - t < LEADER_WINDOW_SIZE {
                proof {
                    assert(spec_within_window(sc@[i as int].slot, self@.current_slot));
                }
                return true;
            }
            i = i + 1;
        }
        false
    }
}

impl LeaderState {
    /// A fresh copy with the same mathematical value.
    pub fn duplicate(&self) -> (r: LeaderState)
        ensures
            r@ == self@,
    {
        let mut validators: Vec<ValidatorState> = Vec::new();
        let mut i: usize = 0;
        while i < self.validators.len()
            invariant
                i <= self.validators@.len(),
                validators@.len() == i,
                forall|j: int| 0 <= j < i ==> #[trigger] validators@[j]@ == self.validators@[j]@,
            decreases self.validators@.len() - i,
        {
            let v = self.validators[i].duplicate();
            validators.push(v);
            i = i + 1;
        }
        let r = LeaderState {
            network: copy_vec(&self.network),
            validators,
            current_slot: self.current_slot,
            leader_assignments: copy_vec(&self.leader_assignments),
            leader_failures: copy_vec(&self.leader_failures),
            stake_distribution: copy_vec(&self.stake_distribution),
        };
        proof {
            assert(r@.validators =~= self@.validators);
            assert(r@ =~= self@);
        }
        r
    }

    /// The initial state: an even floor split of the total stake, all
    /// flags down, nothing assigned.
    pub fn new(validator_count: usize) -> (r: LeaderState)
        requires
            1 <= validator_count <= 64,
        ensures
            r@ == lr_init(validator_count as int),
    {
        let stake = TOTAL_STAKE / (validator_count as u64);
        let mut validators: Vec<ValidatorState> = Vec::new();
        let mut stake_distribution: Vec<u64> = Vec::new();
        let mut i: usize = 0;
        while i < validator_count
            invariant
                i <= validator_count,
                stake == TOTAL_STAKE / (validator_count as u64),
                validators@.len() == i,
                stake_distribution@.len() == i,
                forall|j: int|
                    0 <= j < i ==> #[trigger] validators@[j]@ == lr_init(
                        validator_count as int,
                    ).validators[j],
                forall|j: int| 0 <= j < i ==> #[trigger] stake_distribution@[j] == stake,
            decreases validator_count - i,
        {
            validators.push(
                ValidatorState {
                    current_slot: 0,
                    bad_window: false,
                    bad_window_triggered_at: None,
                    known_leaders: Vec::new(),
                    skip_certificates: Vec::new(),
                    stake,
                },
            );
            stake_distribution.push(stake);
            proof {
                assert(validators@[i as int]@ =~= lr_init(validator_count as int).validators[i as int]);
            }
            i = i + 1;
        }
        let r = LeaderState {
            network: Vec::new(),
            validators,
            current_slot: 0,
            leader_assignments: Vec::new(),
            leader_failures: Vec::new(),
            stake_distribution,
        };
        proof {
            assert(r@.validators =~= lr_init(validator_count as int).validators);
            assert(r@.stake_distribution =~= lr_init(validator_count as int).stake_distribution);
            assert(r@ =~= lr_init(validator_count as int));
        }
        r
    }

    /// Stake-weighted deterministic leader selection, seeded by the slot.
    pub fn get_leader_for_slot(&self, slot: u64) -> (r: usize)
        requires
            1 <= self@.stake_distribution.len() <= 64,
            0 < stake_total(self@.stake_distribution, self@.stake_distribution.len() as int)
                <= u64::MAX,
            slot <= 1000000,
        ensures
            r == spec_leader_for_slot(self@, slot),
            r < self@.stake_distribution.len(),
    {
        let n = self.stake_distribution.len();
        let total = total_stake_of(&self.stake_distribution);
        let seed = (slot * 1234567891) % total;
        proof {
            assert(seed as int == spec_slot_seed(self@, slot));
        }
        let mut cumulative: u64 = 0;
        let mut i: usize = 0;
        while i < n
            invariant
                i <= n,
                n == self@.stake_distribution.len(),
                0 < stake_total(self@.stake_distribution, n as int) <= u64::MAX,
                cumulative == stake_total(self@.stake_distribution, i as int),
                spec_first_hit(self@.stake_distribution, seed as int, i as int) == -1,
                seed as int == spec_slot_seed(self@, slot),
            decreases n - i,
        {
            proof {
                crate::stake::lemma_stake_total_nonneg(self@.stake_distribution, i as int);
                crate::stake::lemma_stake_total_mono(
                    self@.stake_distribution,
                    i as int + 1,
                    n as int,
                );
            }
            cumulative = cumulative + self.stake_distribution[i];
            if seed < cumulative {
                proof {
                    assert(spec_first_hit(self@.stake_distribution, seed as int, i as int + 1)
                        == i as int);
                    lemma_first_hit_stable(
                        self@.stake_distribution,
                        seed as int,
                        i as int + 1,
                        n as int,
                    );
                }
                return i;
            }
            i = i + 1;
        }
        proof {
            assert(spec_first_hit(self@.stake_distribution, seed as int, n as int) == -1);
        }
        n - 1
    }

    /// Whether `current_slot` still lies inside the window opened at
    /// `slot`.
    pub fn is_within_window(&self, slot: u64, current_slot: u64) -> (r: bool)
        ensures
            r == spec_within_window(slot, current_slot),
    {
        slot <= current_slot && current_slot - slot < LEADER_WINDOW_SIZE
    }

    /// Refresh every validator's bad-window flag.  Afterwards a flag is
    /// raised exactly when some learnt skip certificate's slot `t`
    /// satisfies `t <= current_slot < t + LEADER_WINDOW_SIZE`: the flag
    /// rises with a skip certificate in the window and falls of itself
    /// once the window has slid past it.
    pub fn update_badwindow_flags(&mut self)
        ensures
            final(self)@.validators == old(self)@.validators.map_values(
                |v: ValidatorStateV| spec_refresh_flag(v),
            ),
            final(self)@.network == old(self)@.network,
            final(self)@.current_slot == old(self)@.current_slot,
            final(self)@.leader_assignments == old(self)@.leader_assignments,
            final(self)@.leader_failures == old(self)@.leader_failures,
            final(self)@.stake_distribution == old(self)@.stake_distribution,
            forall|v: int|
                0 <= v < final(self)@.validators.len() ==> (#[trigger] final(self)@.validators[v]).bad_window
                    == spec_has_skip_in_window(old(self)@.validators[v]),
    {
        let mut i: usize = 0;
        while i < self.validators.len()
            invariant
                i <= self.validators@.len(),
                self.validators@.len() == old(self)@.validators.len(),
                self@.network == old(self)@.network,
                self@.current_slot == old(self)@.current_slot,
                self@.leader_assignments == old(self)@.leader_assignments,
                self@.leader_failures == old(self)@.leader_failures,
                self@.stake_distribution == old(self)@.stake_distribution,
                forall|j: int|
                    0 <= j < i ==> #[trigger] self.validators@[j]@ == spec_refresh_flag(
                        old(self)@.validators[j],
                    ),
                forall|j: int|
                    i <= j < self.validators@.len() ==> #[trigger] self.validators@[j]@ == old(
                        self,
                    )@.validators[j],
            decreases self.validators@.len() - i,
        {
            proof {
                assert(self.validators@[i as int]@ == old(self)@.validators[i as int]);
            }
            let in_window = self.validators[i].has_skip_in_window();
            let vold = &self.validators[i];
            let nv = if in_window && !vold.bad_window {
                ValidatorState {
                    current_slot: vold.current_slot,
                    bad_window: true,
                    bad_window_triggered_at: Some(vold.current_slot),
                    known_leaders: copy_vec(&vold.known_leaders),
                    skip_certificates: copy_vec(&vold.skip_certificates),
                    stake: vold.stake,
                }
            } else if !in_window && vold.bad_window {
                ValidatorState {
                    current_slot: vold.current_slot,
                    bad_window: false,
                    bad_window_triggered_at: None,
                    known_leaders: copy_vec(&vold.known_leaders),
                    skip_certificates: copy_vec(&vold.skip_certificates),
                    stake: vold.stake,
                }
            } else {
                vold.duplicate()
            };
            set_vec(&mut self.validators, i, nv);
            proof {
                assert(self.validators@[i as int]@ =~= spec_refresh_flag(
                    old(self)@.validators[i as int],
                ));
            }
            i = i + 1;
        }
        proof {
            assert(self@.validators =~= old(self)@.validators.map_values(
                |v: ValidatorStateV| spec_refresh_flag(v),
            ));
            assert forall|v: int| 0 <= v < self@.validators.len() implies (
            #[trigger] self@.validators[v]).bad_window == spec_has_skip_in_window(
                old(self)@.validators[v],
            ) by {
                let vold = old(self)@.validators[v];
                assert(self@.validators[v] == spec_refresh_flag(vold));
                let in_w = spec_has_skip_in_window(vold);
                if in_w && !vold.bad_window {
                    assert(spec_refresh_flag(vold).bad_window);
                } else if !in_w && vold.bad_window {
                    assert(!spec_refresh_flag(vold).bad_window);
                } else {
                    assert(spec_refresh_flag(vold).bad_window == vold.bad_window);
                }
            }
        }
    }
}

// ------------------------------------------------------------------
// Action generation
// ------------------------------------------------------------------

/// One delivery action for every message in flight.
pub open spec fn deliver_actions(net: Seq<MessageInTransit>) -> Seq<LeaderAction> {
    Seq::new(net.len(), |i: int| LeaderAction::DeliverMessage { msg: net[i] })
}

/// The actor recorded for a slot.
pub open spec fn sa_actor(sa: Seq<SlotActor>, slot: u64) -> usize {
    sa[sa_index(sa, slot)].actor
}

/// Leader selections for the still-unassigned slots in `[cur, hi]`.
pub open spec fn select_actions(s: LeaderStateV, cur: int, hi: int) -> Seq<LeaderAction>
    decreases hi - cur + 1,
{
    if hi < cur {
        Seq::empty()
    } else {
        select_actions(s, cur, hi - 1) + (if !sa_has(s.leader_assignments, hi as u64) {
            seq![
                LeaderAction::SelectLeader {
                    slot: hi as u64,
                    leader: spec_leader_for_slot(s, hi as u64) as usize,
                },
            ]
        } else {
            Seq::empty()
        })
    }
}

/// Failure triggers for the already-assigned slots in `[1, hi]`.
pub open spec fn fail_actions(s: LeaderStateV, hi: int) -> Seq<LeaderAction>
    decreases hi,
{
    if hi <= 0 {
        Seq::empty()
    } else {
        fail_actions(s, hi - 1) + (if sa_has(s.leader_assignments, hi as u64) {
            seq![
                LeaderAction::TriggerLeaderFailure {
                    slot: hi as u64,
                    leader: sa_actor(s.leader_assignments, hi as u64),
                },
            ]
        } else {
            Seq::empty()
        })
    }
}

/// Every action enabled in `s`, in generation order.
pub open spec fn lr_actions(m: LeaderModel, s: LeaderStateV) -> Seq<LeaderAction> {
    deliver_actions(s.network) + select_actions(s, s.current_slot as int, m.max_slot as int)
        + fail_actions(s, m.max_slot as int) + (if s.current_slot < m.max_slot {
        seq![LeaderAction::AdvanceSlot]
    } else {
        Seq::empty()
    })
}

// ------------------------------------------------------------------
// Properties
// ------------------------------------------------------------------

/// Each slot explored so far has at most one leader.
pub open spec fn prop_leader_uniqueness(s: LeaderStateV) -> bool {
    s.leader_assignments.len() <= s.current_slot as int + 1
}

/// A raised bad-window flag is justified by a skip certificate inside the
/// window.
pub open spec fn prop_badwindow_consistency(s: LeaderStateV) -> bool {
    forall|v: int|
        0 <= v < s.validators.len() && (#[trigger] s.validators[v]).bad_window
            ==> spec_has_skip_in_window(s.validators[v])
}

/// Every assignment up to the current slot matches stake-weighted
/// selection.
pub open spec fn prop_stake_weighted_selection(s: LeaderStateV) -> bool {
    forall|i: int|
        0 <= i < s.leader_assignments.len() && (#[trigger] s.leader_assignments[i]).slot
            <= s.current_slot ==> s.leader_assignments[i].actor == spec_leader_for_slot(
            s,
            s.leader_assignments[i].slot,
        )
}

/// A flag kept raised while some certificate has left the window is still
/// justified by another certificate inside it.
pub open spec fn prop_window_management(s: LeaderStateV) -> bool {
    forall|v: int, c: int|
        0 <= v < s.validators.len() && 0 <= c < s.validators[v].skip_certificates.len()
            && (#[trigger] s.validators[v]).bad_window && !spec_within_window(
            (#[trigger] s.validators[v].skip_certificates[c]).slot,
            s.validators[v].current_slot,
        ) ==> spec_has_skip_in_window(s.validators[v])
}

/// The invariants checked at every visited state.
#[derive(Clone, Copy, Debug, PartialEq, Eq, PartialOrd, Ord, Hash, Structural)]
pub enum LeaderProperty {
    LeaderUniqueness,
    BadwindowConsistency,
    StakeWeightedSelection,
    WindowManagement,
}

/// The properties violated in `s`, in a fixed order.
pub open spec fn lr_violations(s: LeaderStateV) -> Seq<LeaderProperty> {
    (if !prop_leader_uniqueness(s) {
        seq![LeaderProperty::LeaderUniqueness]
    } else {
        Seq::empty()
    }) + (if !prop_badwindow_consistency(s) {
        seq![LeaderProperty::BadwindowConsistency]
    } else {
        Seq::empty()
    }) + (if !prop_stake_weighted_selection(s) {
        seq![LeaderProperty::StakeWeightedSelection]
    } else {
        Seq::empty()
    }) + (if !prop_window_management(s) {
        seq![LeaderProperty::WindowManagement]
    } else {
        Seq::empty()
    })
}

// ------------------------------------------------------------------
// The model, executably
// ------------------------------------------------------------------

impl LeaderModel {
    /// The single initial state of the model.
    pub fn init_states(&self) -> (r: Vec<LeaderState>)
        requires
            1 <= self.validator_count <= 64,
        ensures
            r@.len() == 1,
            r@[0]@ == lr_init(self.validator_count as int),
    {
        let mut r: Vec<LeaderState> = Vec::new();
        r.push(LeaderState::new(self.validator_count));
        r
    }

    /// The unique successor of `last_state` under `action`, or `None` when
    /// the action delivers a message no longer in flight.
    pub fn next_state(&self, last_state: &LeaderState, action: LeaderAction) -> (r: Option<
        LeaderState,
    >)
        requires
            wf_model(*self),
            wf_state(*self, last_state@),
            wf_action(*self, action),
            action is AdvanceSlot ==> last_state@.current_slot < u64::MAX,
        ensures
            match r {
                Some(s2) => lr_step(*self, last_state@, action) == Some(s2@),
                None => lr_step(*self, last_state@, action) is None,
            },
    {
        match action {
            LeaderAction::SelectLeader { slot, leader } => {
                let mut s2 = last_state.duplicate();
                let stake = last_state.stake_distribution[leader];
                sa_update_exec(&mut s2.leader_assignments, slot, leader);
                broadcast_exec(
                    &mut s2.network,
                    LeaderMessage::LeaderSelection { slot, leader, stake },
                    self.validator_count,
                );
                proof {
                    let g = lr_step(*self, last_state@, action);
                    assert(g == Some(s2@)) by {
                        assert(s2@ =~= g->Some_0);
                    }
                }
                Some(s2)
            },
            LeaderAction::DeliverMessage { msg } => {
                if !net_contains(&last_state.network, msg) {
                    return None;
                }
                let mut s2 = last_state.duplicate();
                net_remove_exec(&mut s2.network, msg);
                let d = msg.dst;
                proof {
                    assert(last_state@.validators[d as int] == s2.validators@[d as int]@);
                }
                let vold = &s2.validators[d];
                let nv = match msg.msg {
                    LeaderMessage::LeaderSelection { slot, leader, stake: _ } => {
                        let mut known_leaders = copy_vec(&vold.known_leaders);
                        sa_update_exec(&mut known_leaders, slot, leader);
                        ValidatorState {
                            current_slot: vold.current_slot,
                            bad_window: vold.bad_window,
                            bad_window_triggered_at: vold.bad_window_triggered_at,
                            known_leaders,
                            skip_certificates: copy_vec(&vold.skip_certificates),
                            stake: vold.stake,
                        }
                    },
                    LeaderMessage::SkipCertificate { slot, failed_leader } => {
                        let mut skip_certificates = copy_vec(&vold.skip_certificates);
                        sa_update_exec(&mut skip_certificates, slot, failed_leader);
                        ValidatorState {
                            current_slot: vold.current_slot,
                            bad_window: vold.bad_window,
                            bad_window_triggered_at: vold.bad_window_triggered_at,
                            known_leaders: copy_vec(&vold.known_leaders),
                            skip_certificates,
                            stake: vold.stake,
                        }
                    },
                    LeaderMessage::BadWindowUpdate { slot: _, validator: _, bad_window } => {
                        ValidatorState {
                            current_slot: vold.current_slot,
                            bad_window,
                            bad_window_triggered_at: vold.bad_window_triggered_at,
                            known_leaders: copy_vec(&vold.known_leaders),
                            skip_certificates: copy_vec(&vold.skip_certificates),
                            stake: vold.stake,
                        }
                    },
                };
                set_vec(&mut s2.validators, d, nv);
                proof {
                    let g = lr_step(*self, last_state@, action);
                    assert(g == Some(s2@)) by {
                        assert(g is Some);
                        assert(s2@.validators =~= g->Some_0.validators);
                        assert(s2@ =~= g->Some_0);
                    }
                }
                Some(s2)
            },
            LeaderAction::TriggerLeaderFailure { slot, leader } => {
                let mut s2 = last_state.duplicate();
                sa_update_exec(&mut s2.leader_failures, slot, leader);
                broadcast_exec(
                    &mut s2.network,
                    LeaderMessage::SkipCertificate { slot, failed_leader: leader },
                    self.validator_count,
                );
                proof {
                    let g = lr_step(*self, last_state@, action);
                    assert(g == Some(s2@)) by {
                        assert(s2@ =~= g->Some_0);
                    }
                }
                Some(s2)
            },
            LeaderAction::AdvanceSlot => {
                let mut s2 = last_state.duplicate();
                let slot2 = s2.current_slot + 1;
                s2.current_slot = slot2;
                let mut i: usize = 0;
                while i < s2.validators.len()
                    invariant
                        i <= s2.validators@.len(),
                        s2.validators@.len() == last_state@.validators.len(),
                        s2@.network == last_state@.network,
                        s2@.leader_assignments == last_state@.leader_assignments,
                        s2@.leader_failures == last_state@.leader_failures,
                        s2@.stake_distribution == last_state@.stake_distribution,
                        s2@.current_slot == slot2,
                        slot2 == last_state@.current_slot + 1,
                        forall|j: int|
                            0 <= j < i ==> #[trigger] s2.validators@[j]@ == (ValidatorStateV {
                                current_slot: slot2,
                                ..last_state@.validators[j]
                            }),
                        forall|j: int|
                            i <= j < s2.validators@.len() ==> #[trigger] s2.validators@[j]@
                                == last_state@.validators[j],
                    decreases s2.validators@.len() - i,
                {
                    proof {
                        assert(s2.validators@[i as int]@ == last_state@.validators[i as int]);
                    }
                    let vold = &s2.validators[i];
                    let nv = ValidatorState {
                        current_slot: slot2,
                        bad_window: vold.bad_window,
                        bad_window_triggered_at: vold.bad_window_triggered_at,
                        known_leaders: copy_vec(&vold.known_leaders),
                        skip_certificates: copy_vec(&vold.skip_certificates),
                        stake: vold.stake,
                    };
                    set_vec(&mut s2.validators, i, nv);
                    proof {
                        assert(s2.validators@[i as int]@ =~= (ValidatorStateV {
                            current_slot: slot2,
                            ..last_state@.validators[i as int]
                        }));
                    }
                    i = i + 1;
                }
                s2.update_badwindow_flags();
                proof {
                    let g = lr_step(*self, last_state@, action);
                    assert forall|j: int| 0 <= j < s2@.validators.len() implies #[trigger] s2@.validators[j]
                        == g->Some_0.validators[j] by {
                        assert(s2@.validators[j] == spec_refresh_flag(ValidatorStateV {
                            current_slot: slot2,
                            ..last_state@.validators[j]
                        }));
                        assert(g->Some_0.validators[j] == spec_refresh_flag(ValidatorStateV {
                            current_slot: slot2,
                            ..last_state@.validators[j]
                        }));
                    }
                    assert(g == Some(s2@)) by {
                        assert(s2@.validators =~= g->Some_0.validators);
                        assert(s2@ =~= g->Some_0);
                    }
                }
                Some(s2)
            },
        }
    }

    /// Append every enabled action to `actions`: deliveries, selections
    /// for still-unassigned slots, failure triggers for assigned slots,
    /// and the slot advance.
    pub fn actions(&self, state: &LeaderState, actions: &mut Vec<LeaderAction>)
        requires
            wf_model(*self),
            wf_state(*self, state@),
        ensures
            final(actions)@ == old(actions)@ + lr_actions(*self, state@),
    {
        let ghost base = actions@;
        let ghost sv = state@;

        let mut i: usize = 0;
        while i < state.network.len()
            invariant
                i <= state.network@.len(),
                sv == state@,
                actions@ == base + deliver_actions(sv.network).subrange(0, i as int),
            decreases state.network@.len() - i,
        {
            actions.push(LeaderAction::DeliverMessage { msg: state.network[i] });
            proof {
                assert(actions@ =~= base + deliver_actions(sv.network).subrange(0, i as int + 1));
            }
            i = i + 1;
        }
        proof {
            assert(deliver_actions(sv.network).subrange(0, sv.network.len() as int)
                =~= deliver_actions(sv.network));
        }

        let ghost base1 = base + deliver_actions(sv.network);
        let ghost cur = state@.current_slot as int;
        let mut slot: u64 = state.current_slot;
        while slot <= self.max_slot
            invariant
                state@.current_slot <= slot,
                slot <= self.max_slot + 1 || slot == state@.current_slot,
                wf_model(*self),
                wf_state(*self, state@),
                sv == state@,
                cur == state@.current_slot as int,
                actions@ == base1 + select_actions(sv, cur, slot as int - 1),
            decreases self.max_slot + 1 - slot,
        {
            if !sa_has_exec(&state.leader_assignments, slot) {
                let leader = state.get_leader_for_slot(slot);
                actions.push(LeaderAction::SelectLeader { slot, leader });
            }
            proof {
                assert(actions@ =~= base1 + select_actions(sv, cur, slot as int));
            }
            slot = slot + 1;
        }
        proof {
            if cur > self.max_slot as int {
                assert(select_actions(sv, cur, self.max_slot as int) =~= select_actions(
                    sv,
                    cur,
                    cur - 1,
                ));
            }
        }

        let ghost base2 = base1 + select_actions(sv, cur, self.max_slot as int);
        proof {
            assert(actions@ == base2);
        }
        let mut slot: u64 = 1;
        while slot <= self.max_slot
            invariant
                1 <= slot <= self.max_slot + 1,
                wf_model(*self),
                wf_state(*self, state@),
                sv == state@,
                actions@ == base2 + fail_actions(sv, slot as int - 1),
            decreases self.max_slot + 1 - slot,
        {
            match self.assigned_leader(state, slot) {
                Some(leader) => {
                    actions.push(LeaderAction::TriggerLeaderFailure { slot, leader });
                },
                None => {},
            }
            proof {
                assert(actions@ =~= base2 + fail_actions(sv, slot as int));
            }
            slot = slot + 1;
        }

        if state.current_slot < self.max_slot {
            actions.push(LeaderAction::AdvanceSlot);
        }
        proof {
            assert(actions@ =~= old(actions)@ + lr_actions(*self, state@));
        }
    }

    fn assigned_leader(&self, state: &LeaderState, slot: u64) -> (r: Option<usize>)
        requires
            sa_slots_distinct(state@.leader_assignments),
        ensures
            match r {
                Some(leader) => sa_has(state@.leader_assignments, slot) && leader == sa_actor(
                    state@.leader_assignments,
                    slot,
                ),
                None => !sa_has(state@.leader_assignments, slot),
            },
    {
        let sa = &state.leader_assignments;
        let mut i: usize = 0;
        while i < sa.len()
            invariant
                sa@ == state@.leader_assignments,
                sa_slots_distinct(sa@),
                i <= sa@.len(),
                forall|j: int| 0 <= j < i ==> sa@[j].slot != slot,
            decreases sa@.len() - i,
        {
            if sa[i].slot == slot {
                proof {
                    assert(sa_has(sa@, slot));
                    let ii = sa_index(sa@, slot);
                    assert(0 <= ii < sa@.len() && sa@[ii].slot == slot);
                    assert(ii == i as int);
                }
                return Some(sa[i].actor);
            }
            i = i + 1;
        }
        None
    }

    /// Whether each slot explored so far has at most one leader.
    pub fn leader_uniqueness(&self, state: &LeaderState) -> (r: bool)
        ensures
            r == prop_leader_uniqueness(state@),
    {
        state.leader_assignments.len() == 0 || ((state.leader_assignments.len() - 1) as u64)
            <= state.current_slot
    }

    /// Whether every raised bad-window flag is justified.
    pub fn badwindow_consistency(&self, state: &LeaderState) -> (r: bool)
        ensures
            r == prop_badwindow_consistency(state@),
    {
        let mut v: usize = 0;
        while v < state.validators.len()
            invariant
                v <= state.validators@.len(),
                forall|a: int|
                    0 <= a < v && (#[trigger] state@.validators[a]).bad_window
                        ==> spec_has_skip_in_window(state@.validators[a]),
            decreases state.validators@.len() - v,
        {
            proof {
                assert(state@.validators[v as int] == state.validators@[v as int]@);
            }
            if state.validators[v].bad_window && !state.validators[v].has_skip_in_window() {
                return false;
            }
            v = v + 1;
        }
        true
    }

    /// Whether every assignment up to the current slot matches
    /// stake-weighted selection.
    pub fn stake_weighted_selection(&self, state: &LeaderState) -> (r: bool)
        requires
            wf_state(*self, state@),
            forall|i: int|
                0 <= i < state@.leader_assignments.len()
                    ==> (#[trigger] state@.leader_assignments[i]).slot <= 1000000,
        ensures
            r == prop_stake_weighted_selection(state@),
    {
        let sa = &state.leader_assignments;
        let mut i: usize = 0;
        while i < sa.len()
            invariant
                sa@ == state@.leader_assignments,
                wf_state(*self, state@),
                forall|j: int| 0 <= j < sa@.len() ==> (#[trigger] sa@[j]).slot <= 1000000,
                i <= sa@.len(),
                forall|j: int|
                    0 <= j < i && (#[trigger] sa@[j]).slot <= state@.current_slot ==> sa@[j].actor
                        == spec_leader_for_slot(state@, sa@[j].slot),
            decreases sa@.len() - i,
    {
            if sa[i].slot <= state.current_slot {
                let expected = state.get_leader_for_slot(sa[i].slot);
                if expected != sa[i].actor {
                    proof {
                        assert(state@.leader_assignments[i as int].actor != spec_leader_for_slot(
                            state@,
                            state@.leader_assignments[i as int].slot,
                        ));
                        assert(!prop_stake_weighted_selection(state@));
                    }
                    return false;
                }
            }
            i = i + 1;
        }
        true
    }

    /// Whether flags outliving a certificate are justified by another one.
    pub fn window_management(&self, state: &LeaderState) -> (r: bool)
        ensures
            r == prop_window_management(state@),
    {
        let mut v: usize = 0;
        while v < state.validators.len()
            invariant
                v <= state.validators@.len(),
                forall|a: int, c: int|
                    0 <= a < v && 0 <= c < state@.validators[a].skip_certificates.len()
                        && (#[trigger] state@.validators[a]).bad_window && !spec_within_window(
                        (#[trigger] state@.validators[a].skip_certificates[c]).slot,
                        state@.validators[a].current_slot,
                    ) ==> spec_has_skip_in_window(state@.validators[a]),
            decreases state.validators@.len() - v,
        {
            proof {
                assert(state@.validators[v as int] == state.validators@[v as int]@);
            }
            if state.validators[v].bad_window && !state.validators[v].has_skip_in_window()
                && state.validators[v].skip_certificates.len() > 0 {
                proof {
                    let sv = state@;
                    let vv = sv.validators[v as int];
                    assert(!spec_within_window(vv.skip_certificates[0].slot, vv.current_slot));
                    assert(!prop_window_management(sv));
                }
                return false;
            }
            v = v + 1;
        }
        proof {
            assert(prop_window_management(state@)) by {
                let sv = state@;
                assert forall|a: int, c: int|
                    0 <= a < sv.validators.len() && 0 <= c
                        < sv.validators[a].skip_certificates.len()
                        && (#[trigger] sv.validators[a]).bad_window && !spec_within_window(
                        (#[trigger] sv.validators[a].skip_certificates[c]).slot,
                        sv.validators[a].current_slot,
                    ) implies spec_has_skip_in_window(sv.validators[a]) by {
                    assert(0 <= a < sv.validators.len());
                }
            }
        }
        true
    }

    /// Evaluate every property on a state; the result lists the violated
    /// ones in a fixed order.
    pub fn check_properties(&self, state: &LeaderState) -> (r: Vec<LeaderProperty>)
        requires
            wf_state(*self, state@),
            forall|i: int|
                0 <= i < state@.leader_assignments.len()
                    ==> (#[trigger] state@.leader_assignments[i]).slot <= 1000000,
        ensures
            r@ == lr_violations(state@),
    {
        let mut r: Vec<LeaderProperty> = Vec::new();
        if !self.leader_uniqueness(state) {
            r.push(LeaderProperty::LeaderUniqueness);
        }
        if !self.badwindow_consistency(state) {
            r.push(LeaderProperty::BadwindowConsistency);
        }
        if !self.stake_weighted_selection(state) {
            r.push(LeaderProperty::StakeWeightedSelection);
        }
        if !self.window_management(state) {
            r.push(LeaderProperty::WindowManagement);
        }
        proof {
            assert(r@ =~= lr_violations(state@));
        }
        r
    }
}

proof fn lemma_first_hit_stable(stakes: Seq<u64>, seed: int, k1: int, k2: int)
    requires
        k1 <= k2,
        spec_first_hit(stakes, seed, k1) >= 0,
    ensures
        spec_first_hit(stakes, seed, k2) == spec_first_hit(stakes, seed, k1),
    decreases k2 - k1,
{
    if k1 < k2 {
        lemma_first_hit_stable(stakes, seed, k1, k2 - 1);
    }
}

} // verus!
