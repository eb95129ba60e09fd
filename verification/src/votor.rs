//! Dual-path finality engine model.
//!
//! A proposed block extending the finalized parent gathers first-round
//! votes; at the fast-path threshold it finalizes at once, and at the
//! notarization threshold a node that voted for it and whose window is
//! clean casts a second-round vote, finalizing the block once those votes
//! reach the slow-path threshold.  Timeouts produce skip votes, which
//! raise the bad-window flag and suppress the second round.

use crate::certificate::{
    lemma_distinct_remove, pool_add, pool_add_exec, pool_find, pool_has, pool_index,
    pool_keys_distinct, pool_voters, seq_distinct, PoolEntry, VoteKey,
};
use crate::mask::{lemma_mask_count_nonneg, mask_count, mask_len};
use crate::timeout::{props_has, props_index, props_slots_distinct, props_update, SlotHash};
use crate::util::{copy_vec, set_vec};
use vstd::prelude::*;

verus! {

/// Number of validators the classic small configuration uses.
pub const VALIDATOR_COUNT: usize = 3;

/// Stake threshold for one-round finalization.
pub const FAST_FINALIZE_THRESHOLD: u64 = 80;

/// Stake threshold for notarization.
pub const NOTARIZE_THRESHOLD: u64 = 60;

/// Stake threshold for second-round finalization.
pub const SLOW_FINALIZE_THRESHOLD: u64 = 60;

/// Stake of each validator under the even split of 100.
pub const STAKE_PER_VALIDATOR: u64 = 100 / 3;

/// Messages exchanged in the engine model.
#[derive(Clone, Copy, Debug, PartialEq, Eq, PartialOrd, Ord, Hash, Structural)]
pub enum Message {
    /// A leader proposes a block.
    Block { slot: u64, hash: u64, parent_hash: u64 },
    /// A first-round vote for a block.
    NotarVote { slot: u64, hash: u64, voter: usize },
    /// A second-round vote towards slow-path finalization.
    FinalVote { slot: u64, voter: usize },
    /// A vote to skip a slot after a timeout.
    SkipVote { slot: u64, voter: usize },
}

/// A message addressed to one node, waiting in the network.
#[derive(Clone, Copy, Debug, PartialEq, Eq, PartialOrd, Ord, Hash, Structural)]
pub struct MessageInTransit {
    pub dst: usize,
    pub msg: Message,
}

/// Actions enabled in the engine model.
#[derive(Clone, Copy, Debug, PartialEq, Eq, PartialOrd, Ord, Hash, Structural)]
pub enum Action {
    Propose { slot: u64, proposer: usize },
    Deliver { msg: MessageInTransit },
    Timeout { slot: u64, node_id: usize },
}

/// A node's commitments for one slot.
#[derive(Clone, Copy, Debug, PartialEq, Eq, PartialOrd, Ord, Hash, Structural)]
pub struct SlotState {
    pub voted: bool,
    pub voted_notar: Option<u64>,
    pub block_notarized: Option<u64>,
    pub bad_window: bool,
    pub its_over: bool,
}

/// A slot's commitments record.
#[derive(Clone, Copy, Debug, PartialEq, Eq, PartialOrd, Ord, Hash, Structural)]
pub struct SlotEntry {
    pub slot: u64,
    pub state: SlotState,
}

/// Second-round voters for one slot.
#[derive(Clone, Copy, Debug, PartialEq, Eq, PartialOrd, Ord, Hash, Structural)]
pub struct FinalPoolEntry {
    pub slot: u64,
    pub voters: u64,
}

/// Per-node state.
#[derive(Clone, Debug, PartialEq, Eq, Hash)]
pub struct NodeState {
    /// Per-slot commitment flags.
    pub slot_states: Vec<SlotEntry>,
    /// First-round votes observed, keyed by what they are for.
    pub vote_pool: Vec<PoolEntry>,
    /// Second-round votes observed, keyed by slot.
    pub final_vote_pool: Vec<FinalPoolEntry>,
}

/// The whole world state of the engine model.
#[derive(Clone, Debug, PartialEq, Eq, Hash)]
pub struct VotorState {
    /// Messages in flight, kept without duplicates.
    pub network: Vec<MessageInTransit>,
    /// Finalized block per slot; the genesis block sits at slot zero.
    pub finalized_blocks: Vec<SlotHash>,
    /// All nodes, indexed by identity.
    pub node_states: Vec<NodeState>,
    /// Global slot counter.
    pub current_slot: u64,
}

/// Configuration of the engine model.
#[derive(Clone, Copy, Debug, PartialEq, Eq, Hash, Structural)]
pub struct VotorModel {
    pub honest_validators: usize,
    pub max_slot: u64,
}

/// Mathematical view of a node.
#[verifier::ext_equal]
pub struct NodeStateV {
    pub slot_states: Seq<SlotEntry>,
    pub vote_pool: Seq<PoolEntry>,
    pub final_vote_pool: Seq<FinalPoolEntry>,
}

/// Mathematical view of the world state.
#[verifier::ext_equal]
pub struct VotorStateV {
    pub network: Seq<MessageInTransit>,
    pub finalized_blocks: Seq<SlotHash>,
    pub node_states: Seq<NodeStateV>,
    pub current_slot: u64,
}

impl View for NodeState {
    type V = NodeStateV;

    open spec fn view(&self) -> NodeStateV {
        NodeStateV {
            slot_states: self.slot_states@,
            vote_pool: self.vote_pool@,
            final_vote_pool: self.final_vote_pool@,
        }
    }
}

impl View for VotorState {
    type V = VotorStateV;

    open spec fn view(&self) -> VotorStateV {
        VotorStateV {
            network: self.network@,
            finalized_blocks: self.finalized_blocks@,
            node_states: self.node_states@.map_values(|v: NodeState| v@),
            current_slot: self.current_slot,
        }
    }
}

// ------------------------------------------------------------------
// Spec-level building blocks
// ------------------------------------------------------------------

/// Insert into a duplicate-free message sequence.
pub open spec fn net_insert(net: Seq<MessageInTransit>, m: MessageInTransit) -> Seq<
    MessageInTransit,
> {
    if net.contains(m) {
        net
    } else {
        net.push(m)
    }
}

/// Index of a message in the network.
pub open spec fn net_index(net: Seq<MessageInTransit>, m: MessageInTransit) -> int {
    choose|i: int| 0 <= i < net.len() && net[i] == m
}

/// Broadcast to every node below `n`, except `skip` (pass `n` as `skip`
/// to broadcast to everyone).
pub open spec fn net_broadcast_except(
    net: Seq<MessageInTransit>,
    msg: Message,
    n: int,
    skip: int,
) -> Seq<MessageInTransit>
    decreases n,
{
    if n <= 0 {
        net
    } else {
        let prev = net_broadcast_except(net, msg, n - 1, skip);
        if n - 1 == skip {
            prev
        } else {
            net_insert(prev, MessageInTransit { dst: (n - 1) as usize, msg })
        }
    }
}

/// The flags of a slot nothing has happened in.
pub open spec fn default_slot_state() -> SlotState {
    SlotState {
        voted: false,
        voted_notar: None,
        block_notarized: None,
        bad_window: false,
        its_over: false,
    }
}

/// Whether the record list holds an entry for `slot`.
pub open spec fn ss_has(ss: Seq<SlotEntry>, slot: u64) -> bool {
    exists|i: int| 0 <= i < ss.len() && ss[i].slot == slot
}

/// Index of the entry for `slot`.
pub open spec fn ss_index(ss: Seq<SlotEntry>, slot: u64) -> int {
    choose|i: int| 0 <= i < ss.len() && ss[i].slot == slot
}

/// The slot's flags, or the defaults.
pub open spec fn ss_get(ss: Seq<SlotEntry>, slot: u64) -> SlotState {
    if ss_has(ss, slot) {
        ss[ss_index(ss, slot)].state
    } else {
        default_slot_state()
    }
}

/// Record or overwrite the flags of a slot.
pub open spec fn ss_update(ss: Seq<SlotEntry>, slot: u64, st: SlotState) -> Seq<SlotEntry> {
    if ss_has(ss, slot) {
        ss.update(ss_index(ss, slot), SlotEntry { slot, state: st })
    } else {
        ss.push(SlotEntry { slot, state: st })
    }
}

/// Record slots are pairwise distinct.
pub open spec fn ss_slots_distinct(ss: Seq<SlotEntry>) -> bool {
    forall|i: int, j: int|
        0 <= i < ss.len() && 0 <= j < ss.len() && ss[i].slot == ss[j].slot ==> i == j
}

/// Whether the second-round pool holds an entry for `slot`.
pub open spec fn fp_has(fp: Seq<FinalPoolEntry>, slot: u64) -> bool {
    exists|i: int| 0 <= i < fp.len() && fp[i].slot == slot
}

/// Index of the entry for `slot`.
pub open spec fn fp_index(fp: Seq<FinalPoolEntry>, slot: u64) -> int {
    choose|i: int| 0 <= i < fp.len() && fp[i].slot == slot
}

/// The second-round voters for `slot`, or the empty mask.
pub open spec fn fp_voters(fp: Seq<FinalPoolEntry>, slot: u64) -> u64 {
    if fp_has(fp, slot) {
        fp[fp_index(fp, slot)].voters
    } else {
        0u64
    }
}

/// Record that `voter` cast a second-round vote for `slot`.
pub open spec fn fp_add(fp: Seq<FinalPoolEntry>, slot: u64, voter: int) -> Seq<FinalPoolEntry> {
    if fp_has(fp, slot) {
        let i = fp_index(fp, slot);
        fp.update(i, FinalPoolEntry { slot, voters: fp[i].voters | (1u64 << voter as u64) })
    } else {
        fp.push(FinalPoolEntry { slot, voters: 1u64 << voter as u64 })
    }
}

/// Pool slots are pairwise distinct.
pub open spec fn fp_slots_distinct(fp: Seq<FinalPoolEntry>) -> bool {
    forall|i: int, j: int|
        0 <= i < fp.len() && 0 <= j < fp.len() && fp[i].slot == fp[j].slot ==> i == j
}

/// Stake of the members of a voter mask under the even split.
pub open spec fn spec_mask_stake(voters: u64) -> int {
    mask_count(voters, 64) * (STAKE_PER_VALIDATOR as int)
}

// ------------------------------------------------------------------
// Well-formedness
// ------------------------------------------------------------------

/// Message fields fit the model bounds.
pub open spec fn wf_message(m: VotorModel, t: MessageInTransit) -> bool {
    &&& t.dst < m.honest_validators
    &&& match t.msg {
        Message::Block { slot, .. } => 1 <= slot,
        Message::NotarVote { voter, .. } => voter < m.honest_validators,
        Message::FinalVote { voter, .. } => voter < m.honest_validators,
        Message::SkipVote { voter, .. } => voter < m.honest_validators,
    }
}

/// Structural well-formedness of a state.
pub open spec fn wf_state(m: VotorModel, s: VotorStateV) -> bool {
    &&& 1 <= m.honest_validators <= 64
    &&& s.node_states.len() == m.honest_validators
    &&& seq_distinct(s.network)
    &&& forall|i: int| 0 <= i < s.network.len() ==> wf_message(m, #[trigger] s.network[i])
    &&& forall|v: int|
        0 <= v < s.node_states.len() ==> ss_slots_distinct(#[trigger] s.node_states[v].slot_states)
    &&& forall|v: int|
        0 <= v < s.node_states.len() ==> pool_keys_distinct(#[trigger] s.node_states[v].vote_pool)
    &&& forall|v: int|
        0 <= v < s.node_states.len() ==> fp_slots_distinct(
            #[trigger] s.node_states[v].final_vote_pool,
        )
    &&& props_slots_distinct(s.finalized_blocks)
}

/// Bounds under which the model's arithmetic cannot overflow.
pub open spec fn wf_model(m: VotorModel) -> bool {
    &&& 1 <= m.honest_validators <= 64
    &&& m.max_slot <= 1000000
}

/// Whether an action refers only to nodes and slots that exist.
pub open spec fn wf_action(m: VotorModel, a: Action) -> bool {
    match a {
        Action::Propose { slot, proposer } => proposer < m.honest_validators && 1 <= slot
            <= m.max_slot,
        Action::Deliver { msg } => wf_message(m, msg),
        Action::Timeout { slot, node_id } => node_id < m.honest_validators,
    }
}

// ------------------------------------------------------------------
// The transition function, mathematically
// ------------------------------------------------------------------

/// One transition of the engine model.
pub open spec fn vt_step(m: VotorModel, s: VotorStateV, a: Action) -> Option<VotorStateV> {
    let n = m.honest_validators as int;
    match a {
        Action::Propose { slot, proposer } => {
            let parent_slot = (slot - 1) as u64;
            if props_has(s.finalized_blocks, parent_slot) {
                let parent_hash = s.finalized_blocks[props_index(
                    s.finalized_blocks,
                    parent_slot,
                )].hash;
                Some(
                    VotorStateV {
                        network: net_broadcast_except(
                            s.network,
                            Message::Block { slot, hash: slot, parent_hash },
                            n,
                            proposer as int,
                        ),
                        ..s
                    },
                )
            } else {
                Some(s)
            }
        },
        Action::Deliver { msg } => {
            if !s.network.contains(msg) {
                None
            } else {
                let net1 = s.network.remove(net_index(s.network, msg));
                let d = msg.dst as int;
                let v = s.node_states[d];
                match msg.msg {
                    Message::Block { slot, hash, parent_hash } => {
                        let ss = ss_get(v.slot_states, slot);
                        let parent_slot = (slot - 1) as u64;
                        let parent_ok = props_has(s.finalized_blocks, parent_slot)
                            && s.finalized_blocks[props_index(
                            s.finalized_blocks,
                            parent_slot,
                        )].hash == parent_hash;
                        if !ss.voted && parent_ok {
                            let ss2 = SlotState { voted: true, voted_notar: Some(hash), ..ss };
                            Some(
                                VotorStateV {
                                    network: net_broadcast_except(
                                        net1,
                                        Message::NotarVote { slot, hash, voter: msg.dst },
                                        n,
                                        n,
                                    ),
                                    node_states: s.node_states.update(
                                        d,
                                        NodeStateV {
                                            slot_states: ss_update(v.slot_states, slot, ss2),
                                            ..v
                                        },
                                    ),
                                    ..s
                                },
                            )
                        } else {
                            Some(
                                VotorStateV {
                                    network: net1,
                                    node_states: s.node_states.update(
                                        d,
                                        NodeStateV {
                                            slot_states: ss_update(v.slot_states, slot, ss),
                                            ..v
                                        },
                                    ),
                                    ..s
                                },
                            )
                        }
                    },
                    Message::NotarVote { slot, hash, voter } => {
                        let k = VoteKey { slot, hash: Some(hash) };
                        let pool1 = pool_add(v.vote_pool, k, voter as int);
                        let total = spec_mask_stake(pool_voters(pool1, k));
                        let fin2 = if total >= FAST_FINALIZE_THRESHOLD {
                            props_update(s.finalized_blocks, slot, hash)
                        } else {
                            s.finalized_blocks
                        };
                        if total >= NOTARIZE_THRESHOLD {
                            let ss = ss_get(v.slot_states, slot);
                            if ss.block_notarized is None {
                                let cast_final = ss.voted_notar == Some(hash) && !ss.bad_window;
                                let ss2 = SlotState {
                                    block_notarized: Some(hash),
                                    its_over: ss.its_over || cast_final,
                                    ..ss
                                };
                                Some(
                                    VotorStateV {
                                        network: if cast_final {
                                            net_broadcast_except(
                                                net1,
                                                Message::FinalVote { slot, voter: msg.dst },
                                                n,
                                                n,
                                            )
                                        } else {
                                            net1
                                        },
                                        finalized_blocks: fin2,
                                        node_states: s.node_states.update(
                                            d,
                                            NodeStateV {
                                                slot_states: ss_update(v.slot_states, slot, ss2),
                                                vote_pool: pool1,
                                                ..v
                                            },
                                        ),
                                        ..s
                                    },
                                )
                            } else {
                                Some(
                                    VotorStateV {
                                        network: net1,
                                        finalized_blocks: fin2,
                                        node_states: s.node_states.update(
                                            d,
                                            NodeStateV { vote_pool: pool1, ..v },
                                        ),
                                        ..s
                                    },
                                )
                            }
                        } else {
                            Some(
                                VotorStateV {
                                    network: net1,
                                    finalized_blocks: fin2,
                                    node_states: s.node_states.update(
                                        d,
                                        NodeStateV { vote_pool: pool1, ..v },
                                    ),
                                    ..s
                                },
                            )
                        }
                    },
                    Message::FinalVote { slot, voter } => {
                        let fp1 = fp_add(v.final_vote_pool, slot, voter as int);
                        let total = spec_mask_stake(fp_voters(fp1, slot));
                        let notarized = ss_get(v.slot_states, slot).block_notarized;
                        if total >= SLOW_FINALIZE_THRESHOLD && notarized is Some {
                            Some(
                                VotorStateV {
                                    network: net1,
                                    finalized_blocks: props_update(
                                        s.finalized_blocks,
                                        slot,
                                        notarized->0,
                                    ),
                                    node_states: s.node_states.update(
                                        d,
                                        NodeStateV { final_vote_pool: fp1, ..v },
                                    ),
                                    ..s
                                },
                            )
                        } else {
                            Some(
                                VotorStateV {
                                    network: net1,
                                    node_states: s.node_states.update(
                                        d,
                                        NodeStateV { final_vote_pool: fp1, ..v },
                                    ),
                                    ..s
                                },
                            )
                        }
                    },
                    Message::SkipVote { slot, voter } => {
                        let ss = ss_get(v.slot_states, slot);
                        let ss2 = SlotState { bad_window: true, ..ss };
                        Some(
                            VotorStateV {
                                network: net1,
                                node_states: s.node_states.update(
                                    d,
                                    NodeStateV {
                                        slot_states: ss_update(v.slot_states, slot, ss2),
                                        ..v
                                    },
                                ),
                                ..s
                            },
                        )
                    },
                }
            }
        },
        Action::Timeout { slot, node_id } => {
            let v = s.node_states[node_id as int];
            let ss = ss_get(v.slot_states, slot);
            if !ss.voted {
                let ss2 = SlotState { voted: true, bad_window: true, ..ss };
                Some(
                    VotorStateV {
                        network: net_broadcast_except(
                            s.network,
                            Message::SkipVote { slot, voter: node_id },
                            n,
                            n,
                        ),
                        node_states: s.node_states.update(
                            node_id as int,
                            NodeStateV { slot_states: ss_update(v.slot_states, slot, ss2), ..v },
                        ),
                        ..s
                    },
                )
            } else {
                Some(
                    VotorStateV {
                        network: s.network,
                        node_states: s.node_states.update(
                            node_id as int,
                            NodeStateV { slot_states: ss_update(v.slot_states, slot, ss), ..v },
                        ),
                        ..s
                    },
                )
            }
        },
    }
}

/// The initial state: the genesis block finalized at slot zero.
pub open spec fn vt_init(validator_count: int) -> VotorStateV {
    VotorStateV {
        network: Seq::empty(),
        finalized_blocks: seq![SlotHash { slot: 0, hash: 0 }],
        node_states: Seq::new(
            validator_count as nat,
            |i: int|
                NodeStateV {
                    slot_states: Seq::empty(),
                    vote_pool: Seq::empty(),
                    final_vote_pool: Seq::empty(),
                },
        ),
        current_slot: 0,
    }
}

// ------------------------------------------------------------------
// Action generation
// ------------------------------------------------------------------

/// One delivery action for every message in flight.
pub open spec fn deliver_actions(net: Seq<MessageInTransit>) -> Seq<Action> {
    Seq::new(net.len(), |i: int| Action::Deliver { msg: net[i] })
}

/// The highest finalized slot among the first `k` records.
pub open spec fn max_finalized(fb: Seq<SlotHash>, k: int) -> u64
    decreases k,
{
    if k <= 0 {
        0u64
    } else {
        let p = max_finalized(fb, k - 1);
        if fb[k - 1].slot > p {
            fb[k - 1].slot
        } else {
            p
        }
    }
}

/// Proposals of the next unfinalized slot by the proposers below `k`.
pub open spec fn propose_all(m: VotorModel, s: VotorStateV, k: int) -> Seq<Action>
    decreases k,
{
    if k <= 0 {
        Seq::empty()
    } else {
        let last = max_finalized(s.finalized_blocks, s.finalized_blocks.len() as int);
        propose_all(m, s, k - 1) + (if last < m.max_slot {
            seq![Action::Propose { slot: (last + 1) as u64, proposer: (k - 1) as usize }]
        } else {
            Seq::empty()
        })
    }
}

/// Timeouts of one node for the unfinalized slots `1..=sl`.
pub open spec fn touts_for(s: VotorStateV, node: int, sl: int) -> Seq<Action>
    decreases sl,
{
    if sl <= 0 {
        Seq::empty()
    } else {
        touts_for(s, node, sl - 1) + (if !props_has(s.finalized_blocks, sl as u64) {
            seq![Action::Timeout { slot: sl as u64, node_id: node as usize }]
        } else {
            Seq::empty()
        })
    }
}

/// Timeouts of the nodes below `k`.
pub open spec fn touts_all(s: VotorStateV, k: int, sl: int) -> Seq<Action>
    decreases k,
{
    if k <= 0 {
        Seq::empty()
    } else {
        touts_all(s, k - 1, sl) + touts_for(s, k - 1, sl)
    }
}

/// Every action enabled in `s`, in generation order.
pub open spec fn vt_actions(m: VotorModel, s: VotorStateV) -> Seq<Action> {
    deliver_actions(s.network) + propose_all(m, s, m.honest_validators as int) + touts_all(
        s,
        m.honest_validators as int,
        m.max_slot as int,
    )
}

/// No two finalized blocks share a slot with different hashes.
pub open spec fn prop_safety(s: VotorStateV) -> bool {
    forall|i: int, j: int|
        0 <= i < s.finalized_blocks.len() && 0 <= j < s.finalized_blocks.len()
            && #[trigger] s.finalized_blocks[i].slot == #[trigger] s.finalized_blocks[j].slot
            ==> s.finalized_blocks[i].hash == s.finalized_blocks[j].hash
}

// ------------------------------------------------------------------
// Executable helpers
// ------------------------------------------------------------------

fn net_contains(net: &Vec<MessageInTransit>, m: MessageInTransit) -> (r: bool)
    ensures
        r == net@.contains(m),
{
    let mut i: usize = 0;
    while i < net.len()
        invariant
            i <= net@.len(),
            forall|j: int| 0 <= j < i ==> net@[j] != m,
        decreases net@.len() - i,
    {
        if net[i] == m {
            return true;
        }
        i = i + 1;
    }
    false
}

fn net_insert_exec(net: &mut Vec<MessageInTransit>, m: MessageInTransit)
    ensures
        final(net)@ == net_insert(old(net)@, m),
{
    if !net_contains(net, m) {
        net.push(m);
    }
}

fn net_remove_exec(net: &mut Vec<MessageInTransit>, m: MessageInTransit)
    requires
        seq_distinct(old(net)@),
        old(net)@.contains(m),
    ensures
        final(net)@ == old(net)@.remove(net_index(old(net)@, m)),
{
    let ghost orig = net@;
    proof {
        assert(orig == old(net)@);
    }
    let mut i: usize = 0;
    while i < net.len()
        invariant
            net@ == orig,
            orig == old(net)@,
            seq_distinct(orig),
            i <= net@.len(),
            forall|j: int| 0 <= j < i ==> net@[j] != m,
            net@.contains(m),
        decreases net@.len() - i,
    {
        if net[i] == m {
            proof {
                let ii = net_index(orig, m);
                assert(0 <= ii < orig.len() && orig[ii] == m);
                assert(ii == i as int);
            }
            net.remove(i);
            return ;
        }
        i = i + 1;
    }
    proof {
        let ii = choose|j: int| 0 <= j < orig.len() && orig[j] == m;
        assert(false);
    }
}

fn broadcast_except_exec(net: &mut Vec<MessageInTransit>, msg: Message, n: usize, skip: usize)
    ensures
        final(net)@ == net_broadcast_except(old(net)@, msg, n as int, skip as int),
{
    let mut i: usize = 0;
    while i < n
        invariant
            i <= n,
            net@ == net_broadcast_except(old(net)@, msg, i as int, skip as int),
        decreases n - i,
    {
        if i != skip {
            net_insert_exec(net, MessageInTransit { dst: i, msg });
        }
        i = i + 1;
    }
}

fn ss_get_exec(ss: &Vec<SlotEntry>, slot: u64) -> (r: SlotState)
    requires
        ss_slots_distinct(ss@),
    ensures
        r == ss_get(ss@, slot),
{
    let mut i: usize = 0;
    while i < ss.len()
        invariant
            i <= ss@.len(),
            ss_slots_distinct(ss@),
            forall|j: int| 0 <= j < i ==> ss@[j].slot != slot,
        decreases ss@.len() - i,
    {
        if ss[i].slot == slot {
            proof {
                assert(ss_has(ss@, slot));
                let ii = ss_index(ss@, slot);
                assert(0 <= ii < ss@.len() && ss@[ii].slot == slot);
                assert(ii == i as int);
            }
            return ss[i].state;
        }
        i = i + 1;
    }
    proof {
        assert(!ss_has(ss@, slot));
    }
    SlotState { voted: false, voted_notar: None, block_notarized: None, bad_window: false, its_over: false }
}

fn ss_update_exec(ss: &mut Vec<SlotEntry>, slot: u64, st: SlotState)
    requires
        ss_slots_distinct(old(ss)@),
    ensures
        final(ss)@ == ss_update(old(ss)@, slot, st),
{
    let mut i: usize = 0;
    while i < ss.len()
        invariant
            i <= ss@.len(),
            ss@ == old(ss)@,
            ss_slots_distinct(ss@),
            forall|j: int| 0 <= j < i ==> ss@[j].slot != slot,
        decreases ss@.len() - i,
    {
        if ss[i].slot == slot {
            proof {
                assert(ss_has(ss@, slot));
                let ii = ss_index(ss@, slot);
                assert(0 <= ii < ss@.len() && ss@[ii].slot == slot);
            }
            set_vec(ss, i, SlotEntry { slot, state: st });
            return ;
        }
        i = i + 1;
    }
    proof {
        assert(!ss_has(ss@, slot));
    }
    ss.push(SlotEntry { slot, state: st });
}

fn fp_add_exec(fp: &mut Vec<FinalPoolEntry>, slot: u64, voter: usize) -> (r: u64)
    requires
        fp_slots_distinct(old(fp)@),
        voter < 64,
    ensures
        final(fp)@ == fp_add(old(fp)@, slot, voter as int),
        r == fp_voters(fp_add(old(fp)@, slot, voter as int), slot),
{
    let mut i: usize = 0;
    while i < fp.len()
        invariant
            i <= fp@.len(),
            fp@ == old(fp)@,
            fp_slots_distinct(fp@),
            voter < 64,
            forall|j: int| 0 <= j < i ==> fp@[j].slot != slot,
        decreases fp@.len() - i,
    {
        if fp[i].slot == slot {
            proof {
                assert(fp_has(fp@, slot));
                let ii = fp_index(fp@, slot);
                assert(0 <= ii < fp@.len() && fp@[ii].slot == slot);
            }
            let voters = fp[i].voters | (1u64 << (voter as u64));
            set_vec(fp, i, FinalPoolEntry { slot, voters });
            proof {
                assert(old(fp)@[i as int].slot == slot);
                assert(fp_has(old(fp)@, slot));
                let i0 = fp_index(old(fp)@, slot);
                assert(0 <= i0 < old(fp)@.len() && old(fp)@[i0].slot == slot);
                assert(i0 == i as int);
                let r2 = fp_add(old(fp)@, slot, voter as int);
                assert(r2[i0].slot == slot);
                assert(fp_has(r2, slot));
                let jj = fp_index(r2, slot);
                assert(0 <= jj < r2.len() && r2[jj].slot == slot);
                assert(jj == i as int) by {
                    if jj != i as int {
                        assert(old(fp)@[jj].slot == slot);
                    }
                }
            }
            return voters;
        }
        i = i + 1;
    }
    proof {
        assert(!fp_has(fp@, slot));
    }
    let voters = 1u64 << (voter as u64);
    fp.push(FinalPoolEntry { slot, voters });
    proof {
        let r2 = fp_add(old(fp)@, slot, voter as int);
        assert(r2[old(fp)@.len() as int].slot == slot);
        assert(fp_has(r2, slot));
        let jj = fp_index(r2, slot);
        assert(0 <= jj < r2.len() && r2[jj].slot == slot);
        assert(jj == old(fp)@.len() as int) by {
            if jj < old(fp)@.len() {
                assert(old(fp)@[jj].slot == slot);
                assert(fp_has(old(fp)@, slot));
            }
        }
    }
    voters
}

/// Stake of a voter mask under the even split, executably.
fn mask_stake(voters: u64) -> (r: u64)
    ensures
        r == spec_mask_stake(voters),
{
    let count = mask_len(voters);
    proof {
        lemma_mask_count_nonneg(voters, 64);
        assert(0 <= (count as int) * (STAKE_PER_VALIDATOR as int) <= 64 * 33) by (nonlinear_arith)
            requires
                0 <= count <= 64,
        ;
    }
    (count as u64) * STAKE_PER_VALIDATOR
}

fn finalized_get(bp: &Vec<SlotHash>, slot: u64) -> (r: Option<u64>)
    requires
        props_slots_distinct(bp@),
    ensures
        match r {
            Some(h) => props_has(bp@, slot) && h == bp@[props_index(bp@, slot)].hash,
            None => !props_has(bp@, slot),
        },
{
    let mut i: usize = 0;
    while i < bp.len()
        invariant
            i <= bp@.len(),
            props_slots_distinct(bp@),
            forall|j: int| 0 <= j < i ==> bp@[j].slot != slot,
        decreases bp@.len() - i,
    {
        if bp[i].slot == slot {
            proof {
                assert(props_has(bp@, slot));
                let ii = props_index(bp@, slot);
                assert(0 <= ii < bp@.len() && bp@[ii].slot == slot);
                assert(ii == i as int);
            }
            return Some(bp[i].hash);
        }
        i = i + 1;
    }
    None
}

fn props_update_exec(bp: &mut Vec<SlotHash>, slot: u64, hash: u64)
    requires
        props_slots_distinct(old(bp)@),
    ensures
        final(bp)@ == props_update(old(bp)@, slot, hash),
{
    let mut i: usize = 0;
    while i < bp.len()
        invariant
            i <= bp@.len(),
            bp@ == old(bp)@,
            props_slots_distinct(bp@),
            forall|j: int| 0 <= j < i ==> bp@[j].slot != slot,
        decreases bp@.len() - i,
    {
        if bp[i].slot == slot {
            proof {
                assert(props_has(bp@, slot));
                let ii = props_index(bp@, slot);
                assert(0 <= ii < bp@.len() && bp@[ii].slot == slot);
            }
            set_vec(bp, i, SlotHash { slot, hash });
            return ;
        }
        i = i + 1;
    }
    proof {
        assert(!props_has(bp@, slot));
    }
    bp.push(SlotHash { slot, hash });
}

// ------------------------------------------------------------------
// Executable state
// ------------------------------------------------------------------

impl NodeState {
    fn duplicate(&self) -> (r: NodeState)
        ensures
            r@ == self@,
    {
        NodeState {
            slot_states: copy_vec(&self.slot_states),
            vote_pool: copy_vec(&self.vote_pool),
            final_vote_pool: copy_vec(&self.final_vote_pool),
        }
    }
}

impl VotorState {
    /// A fresh copy with the same mathematical value.
    pub fn duplicate(&self) -> (r: VotorState)
        ensures
            r@ == self@,
    {
        let mut node_states: Vec<NodeState> = Vec::new();
        let mut i: usize = 0;
        while i < self.node_states.len()
            invariant
                i <= self.node_states@.len(),
                node_states@.len() == i,
                forall|j: int| 0 <= j < i ==> #[trigger] node_states@[j]@ == self.node_states@[j]@,
            decreases self.node_states@.len() - i,
        {
            let v = self.node_states[i].duplicate();
            node_states.push(v);
            i = i + 1;
        }
        let r = VotorState {
            network: copy_vec(&self.network),
            finalized_blocks: copy_vec(&self.finalized_blocks),
            node_states,
            current_slot: self.current_slot,
        };
        proof {
            assert(r@.node_states =~= self@.node_states);
            assert(r@ =~= self@);
        }
        r
    }

    /// The initial state: the genesis block finalized at slot zero,
    /// every node empty.
    pub fn new(validator_count: usize) -> (r: VotorState)
        requires
            1 <= validator_count <= 64,
        ensures
            r@ == vt_init(validator_count as int),
    {
        let mut finalized_blocks: Vec<SlotHash> = Vec::new();
        finalized_blocks.push(SlotHash { slot: 0, hash: 0 });
        let mut node_states: Vec<NodeState> = Vec::new();
        let mut i: usize = 0;
        while i < validator_count
            invariant
                i <= validator_count,
                node_states@.len() == i,
                forall|j: int|
                    0 <= j < i ==> #[trigger] node_states@[j]@ == vt_init(
                        validator_count as int,
                    ).node_states[j],
            decreases validator_count - i,
        {
            node_states.push(
                NodeState {
                    slot_states: Vec::new(),
                    vote_pool: Vec::new(),
                    final_vote_pool: Vec::new(),
                },
            );
            proof {
                assert(node_states@[i as int]@ =~= vt_init(validator_count as int).node_states[i as int]);
            }
            i = i + 1;
        }
        let r = VotorState { network: Vec::new(), finalized_blocks, node_states, current_slot: 0 };
        proof {
            assert(r@.node_states =~= vt_init(validator_count as int).node_states);
            assert(r@.finalized_blocks =~= vt_init(validator_count as int).finalized_blocks);
            assert(r@ =~= vt_init(validator_count as int));
        }
        r
    }
}

// ------------------------------------------------------------------
// The model, executably
// ------------------------------------------------------------------

impl VotorModel {
    /// The single initial state of the model.
    pub fn init_states(&self) -> (r: Vec<VotorState>)
        requires
            1 <= self.honest_validators <= 64,
        ensures
            r@.len() == 1,
            r@[0]@ == vt_init(self.honest_validators as int),
    {
        let mut r: Vec<VotorState> = Vec::new();
        r.push(VotorState::new(self.honest_validators));
        r
    }

    /// The unique successor of `last_state` under `action`, or `None` when
    /// the action delivers a message no longer in flight.
    pub fn next_state(&self, last_state: &VotorState, action: Action) -> (r: Option<VotorState>)
        requires
            wf_model(*self),
            wf_state(*self, last_state@),
            wf_action(*self, action),
        ensures
            match r {
                Some(s2) => vt_step(*self, last_state@, action) == Some(s2@),
                None => vt_step(*self, last_state@, action) is None,
            },
    {
        match action {
            Action::Propose { slot, proposer } => {
                let mut s2 = last_state.duplicate();
                let parent_slot = slot - 1;
                match finalized_get(&last_state.finalized_blocks, parent_slot) {
                    Some(parent_hash) => {
                        broadcast_except_exec(
                            &mut s2.network,
                            Message::Block { slot, hash: slot, parent_hash },
                            self.honest_validators,
                            proposer,
                        );
                    },
                    None => {},
                }
                proof {
                    let g = vt_step(*self, last_state@, action);
                    assert(g == Some(s2@)) by {
                        assert(s2@ =~= g->Some_0);
                    }
                }
                Some(s2)
            },
            Action::Deliver { msg } => {
                if !net_contains(&last_state.network, msg) {
                    return None;
                }
                let mut s2 = last_state.duplicate();
                net_remove_exec(&mut s2.network, msg);
                proof {
                    lemma_distinct_remove(last_state@.network, net_index(last_state@.network, msg));
                }
                let d = msg.dst;
                proof {
                    assert(last_state@.node_states[d as int] == s2.node_states@[d as int]@);
                }
                match msg.msg {
                    Message::Block { slot, hash, parent_hash } => {
                        let ss = ss_get_exec(&s2.node_states[d].slot_states, slot);
                        let parent_ok = match finalized_get(&s2.finalized_blocks, slot - 1) {
                            Some(h) => h == parent_hash,
                            None => false,
                        };
                        let cast = !ss.voted && parent_ok;
                        let ss2 = if cast {
                            SlotState { voted: true, voted_notar: Some(hash), ..ss }
                        } else {
                            ss
                        };
                        let vold = &s2.node_states[d];
                        let nv = NodeState {
                            slot_states: {
                                let mut c = copy_vec(&vold.slot_states);
                                ss_update_exec(&mut c, slot, ss2);
                                c
                            },
                            vote_pool: copy_vec(&vold.vote_pool),
                            final_vote_pool: copy_vec(&vold.final_vote_pool),
                        };
                        set_vec(&mut s2.node_states, d, nv);
                        if cast {
                            broadcast_except_exec(
                                &mut s2.network,
                                Message::NotarVote { slot, hash, voter: d },
                                self.honest_validators,
                                self.honest_validators,
                            );
                        }
                        proof {
                            let g = vt_step(*self, last_state@, action);
                            assert(g == Some(s2@)) by {
                                assert(g is Some);
                                assert(s2@.node_states =~= g->Some_0.node_states);
                                assert(s2@ =~= g->Some_0);
                            }
                        }
                        Some(s2)
                    },
                    Message::NotarVote { slot, hash, voter } => {
                        let k = VoteKey { slot, hash: Some(hash) };
                        let vold = &s2.node_states[d];
                        let ghost oldv = vold@;
                        let mut pool = copy_vec(&vold.vote_pool);
                        pool_add_exec(&mut pool, k, voter);
                        proof {
                            crate::certificate::lemma_pool_add_distinct(
                                oldv.vote_pool,
                                k,
                                voter as int,
                            );
                            assert(pool_has(pool@, k)) by {
                                let p0 = oldv.vote_pool;
                                if pool_has(p0, k) {
                                    let i = pool_index(p0, k);
                                    assert(pool@[i].key == k);
                                } else {
                                    assert(pool@[p0.len() as int].key == k);
                                }
                            }
                        }
                        let found = pool_find(&pool, k);
                        let i = match found {
                            Some(i) => i,
                            None => {
                                proof {
                                    assert(false);
                                }
                                0
                            },
                        };
                        let total = mask_stake(pool[i].voters);
                        if total >= FAST_FINALIZE_THRESHOLD {
                            props_update_exec(&mut s2.finalized_blocks, slot, hash);
                        }
                        let ss = ss_get_exec(&s2.node_states[d].slot_states, slot);
                        let notarize = total >= NOTARIZE_THRESHOLD && ss.block_notarized.is_none();
                        let cast_final = notarize && ss.voted_notar == Some(hash) && !ss.bad_window;
                        let vold = &s2.node_states[d];
                        let nv = if notarize {
                            NodeState {
                                slot_states: {
                                    let mut c = copy_vec(&vold.slot_states);
                                    ss_update_exec(
                                        &mut c,
                                        slot,
                                        SlotState {
                                            block_notarized: Some(hash),
                                            its_over: ss.its_over || cast_final,
                                            ..ss
                                        },
                                    );
                                    c
                                },
                                vote_pool: pool,
                                final_vote_pool: copy_vec(&vold.final_vote_pool),
                            }
                        } else {
                            NodeState {
                                slot_states: copy_vec(&vold.slot_states),
                                vote_pool: pool,
                                final_vote_pool: copy_vec(&vold.final_vote_pool),
                            }
                        };
                        set_vec(&mut s2.node_states, d, nv);
                        if cast_final {
                            broadcast_except_exec(
                                &mut s2.network,
                                Message::FinalVote { slot, voter: d },
                                self.honest_validators,
                                self.honest_validators,
                            );
                        }
                        proof {
                            let g = vt_step(*self, last_state@, action);
                            assert(g == Some(s2@)) by {
                                assert(g is Some);
                                assert(s2@.node_states =~= g->Some_0.node_states);
                                assert(s2@ =~= g->Some_0);
                            }
                        }
                        Some(s2)
                    },
                    Message::FinalVote { slot, voter } => {
                        let vold = &s2.node_states[d];
                        let ghost oldv = vold@;
                        let mut fpool = copy_vec(&vold.final_vote_pool);
                        let voters = fp_add_exec(&mut fpool, slot, voter);
                        let total = mask_stake(voters);
                        let notarized = {
                            let ss = ss_get_exec(&vold.slot_states, slot);
                            ss.block_notarized
                        };
                        if total >= SLOW_FINALIZE_THRESHOLD && notarized.is_some() {
                            let h = match notarized {
                                Some(h) => h,
                                None => {
                                    proof {
                                        assert(false);
                                    }
                                    0
                                },
                            };
                            props_update_exec(&mut s2.finalized_blocks, slot, h);
                        }
                        let vold = &s2.node_states[d];
                        let nv = NodeState {
                            slot_states: copy_vec(&vold.slot_states),
                            vote_pool: copy_vec(&vold.vote_pool),
                            final_vote_pool: fpool,
                        };
                        set_vec(&mut s2.node_states, d, nv);
                        proof {
                            let g = vt_step(*self, last_state@, action);
                            assert(g == Some(s2@)) by {
                                assert(g is Some);
                                assert(s2@.node_states =~= g->Some_0.node_states);
                                assert(s2@ =~= g->Some_0);
                            }
                        }
                        Some(s2)
                    },
                    Message::SkipVote { slot, voter: _ } => {
                        let ss = ss_get_exec(&s2.node_states[d].slot_states, slot);
                        let vold = &s2.node_states[d];
                        let nv = NodeState {
                            slot_states: {
                                let mut c = copy_vec(&vold.slot_states);
                                ss_update_exec(&mut c, slot, SlotState { bad_window: true, ..ss });
                                c
                            },
                            vote_pool: copy_vec(&vold.vote_pool),
                            final_vote_pool: copy_vec(&vold.final_vote_pool),
                        };
                        set_vec(&mut s2.node_states, d, nv);
                        proof {
                            let g = vt_step(*self, last_state@, action);
                            assert(g == Some(s2@)) by {
                                assert(g is Some);
                                assert(s2@.node_states =~= g->Some_0.node_states);
                                assert(s2@ =~= g->Some_0);
                            }
                        }
                        Some(s2)
                    },
                }
            },
            Action::Timeout { slot, node_id } => {
                let mut s2 = last_state.duplicate();
                proof {
                    assert(last_state@.node_states[node_id as int]
                        == s2.node_states@[node_id as int]@);
                }
                let ss = ss_get_exec(&s2.node_states[node_id].slot_states, slot);
                let cast = !ss.voted;
                let ss2 = if cast {
                    SlotState { voted: true, bad_window: true, ..ss }
                } else {
                    ss
                };
                let vold = &s2.node_states[node_id];
                let nv = NodeState {
                    slot_states: {
                        let mut c = copy_vec(&vold.slot_states);
                        ss_update_exec(&mut c, slot, ss2);
                        c
                    },
                    vote_pool: copy_vec(&vold.vote_pool),
                    final_vote_pool: copy_vec(&vold.final_vote_pool),
                };
                set_vec(&mut s2.node_states, node_id, nv);
                if cast {
                    broadcast_except_exec(
                        &mut s2.network,
                        Message::SkipVote { slot, voter: node_id },
                        self.honest_validators,
                        self.honest_validators,
                    );
                }
                proof {
                    let g = vt_step(*self, last_state@, action);
                    assert(g == Some(s2@)) by {
                        assert(s2@.node_states =~= g->Some_0.node_states);
                        assert(s2@ =~= g->Some_0);
                    }
                }
                Some(s2)
            },
        }
    }

    /// Append every enabled action to `actions`: deliveries, proposals of
    /// the next unfinalized slot, and timeouts for unfinalized slots.
    pub fn actions(&self, state: &VotorState, actions: &mut Vec<Action>)
        requires
            wf_model(*self),
            wf_state(*self, state@),
        ensures
            final(actions)@ == old(actions)@ + vt_actions(*self, state@),
    {
        let ghost base = actions@;
        let ghost sv = state@;
        let n = self.honest_validators;

        let mut i: usize = 0;
        while i < state.network.len()
            invariant
                i <= state.network@.len(),
                sv == state@,
                actions@ == base + deliver_actions(sv.network).subrange(0, i as int),
            decreases state.network@.len() - i,
        {
            actions.push(Action::Deliver { msg: state.network[i] });
            proof {
                assert(actions@ =~= base + deliver_actions(sv.network).subrange(0, i as int + 1));
            }
            i = i + 1;
        }
        proof {
            assert(deliver_actions(sv.network).subrange(0, sv.network.len() as int)
                =~= deliver_actions(sv.network));
        }

        let ghost base1 = base + deliver_actions(sv.network);
        let fb = &state.finalized_blocks;
        let mut last: u64 = 0;
        let mut i: usize = 0;
        while i < fb.len()
            invariant
                i <= fb@.len(),
                fb@ == sv.finalized_blocks,
                last == max_finalized(sv.finalized_blocks, i as int),
            decreases fb@.len() - i,
        {
            if fb[i].slot > last {
                last = fb[i].slot;
            }
            i = i + 1;
        }
        let mut proposer: usize = 0;
        while proposer < n
            invariant
                proposer <= n,
                wf_model(*self),
                sv == state@,
                n == self.honest_validators,
                last == max_finalized(sv.finalized_blocks, sv.finalized_blocks.len() as int),
                actions@ == base1 + propose_all(*self, sv, proposer as int),
            decreases n - proposer,
        {
            if last < self.max_slot {
                actions.push(Action::Propose { slot: last + 1, proposer });
            }
            proof {
                assert(actions@ =~= base1 + propose_all(*self, sv, proposer as int + 1));
            }
            proposer = proposer + 1;
        }

        let ghost base2 = base1 + propose_all(*self, sv, n as int);
        proof {
            assert(actions@ == base2);
        }
        let mut node_id: usize = 0;
        while node_id < n
            invariant
                node_id <= n,
                wf_model(*self),
                sv == state@,
                n == self.honest_validators,
                actions@ == base2 + touts_all(sv, node_id as int, self.max_slot as int),
            decreases n - node_id,
        {
            let mut slot: u64 = 1;
            while slot <= self.max_slot
                invariant
                    1 <= slot <= self.max_slot + 1,
                    node_id < n,
                    wf_model(*self),
                    sv == state@,
                    n == self.honest_validators,
                    actions@ == base2 + touts_all(sv, node_id as int, self.max_slot as int)
                        + touts_for(sv, node_id as int, slot as int - 1),
                decreases self.max_slot + 1 - slot,
            {
                if !self.slot_finalized(state, slot) {
                    actions.push(Action::Timeout { slot, node_id });
                }
                proof {
                    assert(actions@ =~= base2 + touts_all(sv, node_id as int, self.max_slot as int)
                        + touts_for(sv, node_id as int, slot as int));
                }
                slot = slot + 1;
            }
            node_id = node_id + 1;
        }
        proof {
            assert(actions@ =~= old(actions)@ + vt_actions(*self, state@));
        }
    }

    fn slot_finalized(&self, state: &VotorState, slot: u64) -> (r: bool)
        ensures
            r == props_has(state@.finalized_blocks, slot),
    {
        let fb = &state.finalized_blocks;
        let mut i: usize = 0;
        while i < fb.len()
            invariant
                fb@ == state@.finalized_blocks,
                i <= fb@.len(),
                forall|j: int| 0 <= j < i ==> fb@[j].slot != slot,
            decreases fb@.len() - i,
        {
            if fb[i].slot == slot {
                return true;
            }
            i = i + 1;
        }
        false
    }

    /// Whether no two finalized blocks share a slot with different
    /// hashes.
    pub fn safety(&self, state: &VotorState) -> (r: bool)
        ensures
            r == prop_safety(state@),
    {
        let fb = &state.finalized_blocks;
        let mut i: usize = 0;
        while i < fb.len()
            invariant
                fb@ == state@.finalized_blocks,
                i <= fb@.len(),
                forall|a: int, b: int|
                    0 <= a < i && 0 <= b < fb@.len() && #[trigger] fb@[a].slot
                        == #[trigger] fb@[b].slot ==> fb@[a].hash == fb@[b].hash,
            decreases fb@.len() - i,
        {
            let mut j: usize = 0;
            while j < fb.len()
                invariant
                    fb@ == state@.finalized_blocks,
                    i < fb@.len(),
                    j <= fb@.len(),
                    forall|a: int, b: int|
                        0 <= a < i && 0 <= b < fb@.len() && #[trigger] fb@[a].slot
                            == #[trigger] fb@[b].slot ==> fb@[a].hash == fb@[b].hash,
                    forall|b: int|
                        0 <= b < j && (#[trigger] fb@[b].slot) == fb@[i as int].slot ==> fb@[b].hash
                            == fb@[i as int].hash,
                decreases fb@.len() - j,
            {
                if fb[j].slot == fb[i].slot && fb[j].hash != fb[i].hash {
                    proof {
                        let sv = state@;
                        assert(sv.finalized_blocks[j as int].slot
                            == sv.finalized_blocks[i as int].slot);
                        assert(!prop_safety(sv));
                    }
                    return false;
                }
                j = j + 1;
            }
            i = i + 1;
        }
        proof {
            assert(prop_safety(state@)) by {
                let sv = state@;
                assert forall|a: int, b: int|
                    0 <= a < sv.finalized_blocks.len() && 0 <= b < sv.finalized_blocks.len()
                        && #[trigger] sv.finalized_blocks[a].slot
                        == #[trigger] sv.finalized_blocks[b].slot implies sv.finalized_blocks[a].hash
                    == sv.finalized_blocks[b].hash by {
                    assert(fb@[a].slot == fb@[b].slot);
                }
            }
        }
        true
    }
}

} // verus!