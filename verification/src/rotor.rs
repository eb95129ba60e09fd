//! Dissemination sampling model.
//!
//! Data is relayed through a bounded, stake-weighted sample of peers,
//! chosen deterministically from the slot and the sampler so that runs are
//! reproducible.  The sample never includes the sampler, never exceeds the
//! fanout, and degrades gracefully to a plain prefix of peers when the
//! seeded scan selects nobody.

use crate::certificate::{lemma_distinct_remove, seq_distinct};
use crate::mask::{lemma_mask_count_nonneg, mask_contains, mask_count, mask_has, mask_len};
use crate::stake::{
    lemma_stake_total_mono, lemma_stake_total_nonneg, stake_total, total_stake_of,
};
use crate::util::{copy_vec, set_vec};
use vstd::prelude::*;

verus! {

/// Stake held by all nodes together.
pub const TOTAL_STAKE: u64 = 1000;

/// Number of peers a sample aims for.
pub const FANOUT_SIZE: usize = 3;

/// Messages exchanged in the dissemination model.
#[derive(Clone, Copy, Debug, PartialEq, Eq, PartialOrd, Ord, Hash, Structural)]
pub enum RotorMessage {
    /// A data message to disseminate.
    DataMessage { slot: u64, data_id: u64, sender: usize },
    /// A data message relayed by a sampled peer.
    ForwardedMessage { slot: u64, data_id: u64, original_sender: usize, forwarder: usize },
    /// A request to sample relay peers for a slot.
    SamplingRequest { slot: u64, requester: usize },
    /// The sampled peer set.
    SamplingResponse { slot: u64, selected_nodes: u64, responder: usize },
}

/// A message addressed to one node, waiting in the network.
#[derive(Clone, Copy, Debug, PartialEq, Eq, PartialOrd, Ord, Hash, Structural)]
pub struct MessageInTransit {
    pub dst: usize,
    pub msg: RotorMessage,
}

/// Actions enabled in the dissemination model.
#[derive(Clone, Copy, Debug, PartialEq, Eq, PartialOrd, Ord, Hash, Structural)]
pub enum RotorAction {
    SendData { slot: u64, data_id: u64, sender: usize },
    DeliverMessage { msg: MessageInTransit },
    RequestSampling { slot: u64, requester: usize },
    PerformSampling { slot: u64, sampler: usize },
    AdvanceSlot,
}

/// A datum identified by its slot and identifier.
#[derive(Clone, Copy, Debug, PartialEq, Eq, PartialOrd, Ord, Hash, Structural)]
pub struct SlotData {
    pub slot: u64,
    pub data_id: u64,
}

/// A sampled peer set for a slot.
#[derive(Clone, Copy, Debug, PartialEq, Eq, PartialOrd, Ord, Hash, Structural)]
pub struct SlotMask {
    pub slot: u64,
    pub nodes: u64,
}

/// Which nodes a datum has reached.
#[derive(Clone, Copy, Debug, PartialEq, Eq, PartialOrd, Ord, Hash, Structural)]
pub struct ReachRecord {
    pub slot: u64,
    pub data_id: u64,
    pub nodes: u64,
}

/// Per-node state.
#[derive(Clone, Debug, PartialEq, Eq, Hash)]
pub struct NodeState {
    /// This node's stake.
    pub stake: u64,
    /// Whether the node is online.
    pub is_online: bool,
    /// Data this node has received.
    pub received_messages: Vec<SlotData>,
    /// Data this node has relayed.
    pub forwarded_messages: Vec<SlotData>,
    /// The peer set sampled for each slot.
    pub sampling_history: Vec<SlotMask>,
    /// This node's view of the slot counter.
    pub current_slot: u64,
}

/// The whole world state of the dissemination model.
#[derive(Clone, Debug, PartialEq, Eq, Hash)]
pub struct RotorState {
    /// Messages in flight, kept without duplicates.
    pub network: Vec<MessageInTransit>,
    /// All nodes, indexed by identity.
    pub nodes: Vec<NodeState>,
    /// Global slot counter.
    pub current_slot: u64,
    /// Stake of each node, indexed by identity.
    pub stake_distribution: Vec<u64>,
    /// Which nodes each datum has reached.
    pub message_reach: Vec<ReachRecord>,
}

/// Configuration of the dissemination model.
#[derive(Clone, Copy, Debug, PartialEq, Eq, Hash, Structural)]
pub struct RotorModel {
    pub node_count: usize,
    pub max_slot: u64,
}

/// Mathematical view of a node.
#[verifier::ext_equal]
pub struct NodeStateV {
    pub stake: u64,
    pub is_online: bool,
    pub received_messages: Seq<SlotData>,
    pub forwarded_messages: Seq<SlotData>,
    pub sampling_history: Seq<SlotMask>,
    pub current_slot: u64,
}

/// Mathematical view of the world state.
#[verifier::ext_equal]
pub struct RotorStateV {
    pub network: Seq<MessageInTransit>,
    pub nodes: Seq<NodeStateV>,
    pub current_slot: u64,
    pub stake_distribution: Seq<u64>,
    pub message_reach: Seq<ReachRecord>,
}

impl View for NodeState {
    type V = NodeStateV;

    open spec fn view(&self) -> NodeStateV {
        NodeStateV {
            stake: self.stake,
            is_online: self.is_online,
            received_messages: self.received_messages@,
            forwarded_messages: self.forwarded_messages@,
            sampling_history: self.sampling_history@,
            current_slot: self.current_slot,
        }
    }
}

impl View for RotorState {
    type V = RotorStateV;

    open spec fn view(&self) -> RotorStateV {
        RotorStateV {
            network: self.network@,
            nodes: self.nodes@.map_values(|v: NodeState| v@),
            current_slot: self.current_slot,
            stake_distribution: self.stake_distribution@,
            message_reach: self.message_reach@,
        }
    }
}

// ------------------------------------------------------------------
// Spec-level building blocks
// ------------------------------------------------------------------

/// Insert into a duplicate-free message sequence.
pub open spec fn net_insert(net: Seq<MessageInTransit>, m: MessageInTransit) -> Seq<
    MessageInTransit,
> {
    if net.contains(m) {
        net
    } else {
        net.push(m)
    }
}

/// Index of a message in the network.
pub open spec fn net_index(net: Seq<MessageInTransit>, m: MessageInTransit) -> int {
    choose|i: int| 0 <= i < net.len() && net[i] == m
}

/// Insert a datum into a duplicate-free data list.
pub open spec fn sd_insert(ds: Seq<SlotData>, d: SlotData) -> Seq<SlotData> {
    if ds.contains(d) {
        ds
    } else {
        ds.push(d)
    }
}

/// Whether a sampling history holds an entry for `slot`.
pub open spec fn sm_has(sm: Seq<SlotMask>, slot: u64) -> bool {
    exists|i: int| 0 <= i < sm.len() && sm[i].slot == slot
}

/// Index of the entry for `slot`.
pub open spec fn sm_index(sm: Seq<SlotMask>, slot: u64) -> int {
    choose|i: int| 0 <= i < sm.len() && sm[i].slot == slot
}

/// Record or overwrite the sampled peer set for a slot.
pub open spec fn sm_update(sm: Seq<SlotMask>, slot: u64, nodes: u64) -> Seq<SlotMask> {
    if sm_has(sm, slot) {
        sm.update(sm_index(sm, slot), SlotMask { slot, nodes })
    } else {
        sm.push(SlotMask { slot, nodes })
    }
}

/// History slots are pairwise distinct.
pub open spec fn sm_slots_distinct(sm: Seq<SlotMask>) -> bool {
    forall|i: int, j: int|
        0 <= i < sm.len() && 0 <= j < sm.len() && sm[i].slot == sm[j].slot ==> i == j
}

/// Whether the reach ledger holds a record for `(slot, data_id)`.
pub open spec fn rr_has(rs: Seq<ReachRecord>, slot: u64, data_id: u64) -> bool {
    exists|i: int| 0 <= i < rs.len() && rs[i].slot == slot && rs[i].data_id == data_id
}

/// Index of the record for `(slot, data_id)`.
pub open spec fn rr_index(rs: Seq<ReachRecord>, slot: u64, data_id: u64) -> int {
    choose|i: int| 0 <= i < rs.len() && rs[i].slot == slot && rs[i].data_id == data_id
}

/// Record that `node` has seen `(slot, data_id)`.
pub open spec fn rr_add(rs: Seq<ReachRecord>, slot: u64, data_id: u64, node: int) -> Seq<
    ReachRecord,
> {
    if rr_has(rs, slot, data_id) {
        let i = rr_index(rs, slot, data_id);
        rs.update(i, ReachRecord { slot, data_id, nodes: rs[i].nodes | (1u64 << node as u64) })
    } else {
        rs.push(ReachRecord { slot, data_id, nodes: 1u64 << node as u64 })
    }
}

/// Reach keys are pairwise distinct.
pub open spec fn rr_keys_distinct(rs: Seq<ReachRecord>) -> bool {
    forall|i: int, j: int|
        0 <= i < rs.len() && 0 <= j < rs.len() && rs[i].slot == rs[j].slot && rs[i].data_id
            == rs[j].data_id ==> i == j
}

/// The seeded cumulative-stake scan: mask selected, members selected, and
/// cumulative stake consumed, over the nodes below `k`.
pub open spec fn sample_scan(stakes: Seq<u64>, sampler: int, seed: int, k: int) -> (u64, int, int)
    decreases k,
{
    if k <= 0 {
        (0u64, 0int, 0int)
    } else {
        let prev = sample_scan(stakes, sampler, seed, k - 1);
        if k - 1 != sampler && prev.1 < FANOUT_SIZE {
            let cum2 = prev.2 + stakes[k - 1];
            if seed < cum2 {
                ((prev.0 | (1u64 << ((k - 1) as u64))), prev.1 + 1, cum2)
            } else {
                (prev.0, prev.1, cum2)
            }
        } else {
            prev
        }
    }
}

/// The graceful fallback: the first peers other than the sampler, up to
/// the fanout.
pub open spec fn fallback_scan(sampler: int, k: int) -> (u64, int)
    decreases k,
{
    if k <= 0 {
        (0u64, 0int)
    } else {
        let prev = fallback_scan(sampler, k - 1);
        if k - 1 != sampler && prev.1 < FANOUT_SIZE {
            ((prev.0 | (1u64 << ((k - 1) as u64))), prev.1 + 1)
        } else {
            prev
        }
    }
}

/// The sampled peer set for `(slot, sampler)`.
pub open spec fn spec_sample(s: RotorStateV, slot: u64, sampler: int) -> u64 {
    let n = s.stake_distribution.len() as int;
    let total = stake_total(s.stake_distribution, n);
    let seed = (slot * 1000 + sampler) % total;
    let scanned = sample_scan(s.stake_distribution, sampler, seed, n);
    if scanned.1 == 0 {
        fallback_scan(sampler, n).0
    } else {
        scanned.0
    }
}

/// Relay a datum to every member of `targets` below `k` other than the
/// forwarder itself.
pub open spec fn forward_broadcast(
    net: Seq<MessageInTransit>,
    slot: u64,
    data_id: u64,
    original_sender: usize,
    forwarder: usize,
    targets: u64,
    k: int,
) -> Seq<MessageInTransit>
    decreases k,
{
    if k <= 0 {
        net
    } else {
        let prev = forward_broadcast(net, slot, data_id, original_sender, forwarder, targets, k - 1);
        if mask_has(targets, k - 1) && k - 1 != forwarder {
            net_insert(
                prev,
                MessageInTransit {
                    dst: (k - 1) as usize,
                    msg: RotorMessage::ForwardedMessage {
                        slot,
                        data_id,
                        original_sender,
                        forwarder,
                    },
                },
            )
        } else {
            prev
        }
    }
}

// ------------------------------------------------------------------
// Well-formedness
// ------------------------------------------------------------------

/// Message fields fit the model bounds.
pub open spec fn wf_message(m: RotorModel, t: MessageInTransit) -> bool {
    &&& t.dst < m.node_count
    &&& match t.msg {
        RotorMessage::DataMessage { sender, .. } => sender < m.node_count,
        RotorMessage::ForwardedMessage { original_sender, forwarder, .. } => original_sender
            < m.node_count && forwarder < m.node_count,
        RotorMessage::SamplingRequest { requester, .. } => requester < m.node_count,
        RotorMessage::SamplingResponse { responder, .. } => responder < m.node_count,
    }
}

/// Structural well-formedness of a state.
pub open spec fn wf_state(m: RotorModel, s: RotorStateV) -> bool {
    &&& 1 <= m.node_count <= 64
    &&& s.nodes.len() == m.node_count
    &&& s.stake_distribution.len() == m.node_count
    &&& 0 < stake_total(s.stake_distribution, m.node_count as int) <= u64::MAX
    &&& seq_distinct(s.network)
    &&& forall|i: int| 0 <= i < s.network.len() ==> wf_message(m, #[trigger] s.network[i])
    &&& forall|v: int|
        0 <= v < s.nodes.len() ==> seq_distinct(#[trigger] s.nodes[v].received_messages)
    &&& forall|v: int|
        0 <= v < s.nodes.len() ==> seq_distinct(#[trigger] s.nodes[v].forwarded_messages)
    &&& forall|v: int|
        0 <= v < s.nodes.len() ==> sm_slots_distinct(#[trigger] s.nodes[v].sampling_history)
    &&& rr_keys_distinct(s.message_reach)
}

/// Bounds under which the model's arithmetic cannot overflow.
pub open spec fn wf_model(m: RotorModel) -> bool {
    &&& 1 <= m.node_count <= 64
    &&& m.max_slot <= 1000000
}

/// Whether an action refers only to nodes and slots that exist.
pub open spec fn wf_action(m: RotorModel, a: RotorAction) -> bool {
    match a {
        RotorAction::SendData { slot, data_id, sender } => sender < m.node_count && slot
            <= m.max_slot,
        RotorAction::DeliverMessage { msg } => wf_message(m, msg) && (match msg.msg {
            RotorMessage::SamplingRequest { slot, .. } => slot <= m.max_slot,
            _ => true,
        }),
        RotorAction::RequestSampling { slot, requester } => requester < m.node_count && slot
            <= m.max_slot,
        RotorAction::PerformSampling { slot, sampler } => sampler < m.node_count && slot
            <= m.max_slot,
        RotorAction::AdvanceSlot => true,
    }
}

// ------------------------------------------------------------------
// The transition function, mathematically
// ------------------------------------------------------------------

/// One transition of the dissemination model.
pub open spec fn rt_step(m: RotorModel, s: RotorStateV, a: RotorAction) -> Option<RotorStateV> {
    let n = m.node_count as int;
    match a {
        RotorAction::SendData { slot, data_id, sender } => {
            let v = s.nodes[sender as int];
            Some(
                RotorStateV {
                    network: net_insert(
                        s.network,
                        MessageInTransit {
                            dst: sender,
                            msg: RotorMessage::SamplingRequest { slot, requester: sender },
                        },
                    ),
                    nodes: s.nodes.update(
                        sender as int,
                        NodeStateV {
                            received_messages: sd_insert(
                                v.received_messages,
                                SlotData { slot, data_id },
                            ),
                            ..v
                        },
                    ),
                    message_reach: rr_add(s.message_reach, slot, data_id, sender as int),
                    ..s
                },
            )
        },
        RotorAction::DeliverMessage { msg } => {
            if !s.network.contains(msg) {
                None
            } else {
                let net1 = s.network.remove(net_index(s.network, msg));
                let d = msg.dst as int;
                let v = s.nodes[d];
                match msg.msg {
                    RotorMessage::DataMessage { slot, data_id, sender } => {
                        let targets = if sm_has(v.sampling_history, slot) {
                            v.sampling_history[sm_index(v.sampling_history, slot)].nodes
                        } else {
                            0u64
                        };
                        Some(
                            RotorStateV {
                                network: forward_broadcast(
                                    net1,
                                    slot,
                                    data_id,
                                    sender,
                                    msg.dst,
                                    targets,
                                    n,
                                ),
                                nodes: s.nodes.update(
                                    d,
                                    NodeStateV {
                                        received_messages: sd_insert(
                                            v.received_messages,
                                            SlotData { slot, data_id },
                                        ),
                                        ..v
                                    },
                                ),
                                message_reach: rr_add(s.message_reach, slot, data_id, d),
                                ..s
                            },
                        )
                    },
                    RotorMessage::ForwardedMessage { slot, data_id, original_sender, forwarder } => {
                        let vals1 = s.nodes.update(
                            forwarder as int,
                            NodeStateV {
                                forwarded_messages: sd_insert(
                                    s.nodes[forwarder as int].forwarded_messages,
                                    SlotData { slot, data_id },
                                ),
                                ..s.nodes[forwarder as int]
                            },
                        );
                        Some(
                            RotorStateV {
                                network: net1,
                                nodes: vals1.update(
                                    d,
                                    NodeStateV {
                                        received_messages: sd_insert(
                                            v.received_messages,
                                            SlotData { slot, data_id },
                                        ),
                                        ..v
                                    },
                                ),
                                message_reach: rr_add(s.message_reach, slot, data_id, d),
                                ..s
                            },
                        )
                    },
                    RotorMessage::SamplingRequest { slot, requester } => {
                        let selected = spec_sample(s, slot, requester as int);
                        Some(
                            RotorStateV {
                                network: net_insert(
                                    net1,
                                    MessageInTransit {
                                        dst: requester,
                                        msg: RotorMessage::SamplingResponse {
                                            slot,
                                            selected_nodes: selected,
                                            responder: msg.dst,
                                        },
                                    },
                                ),
                                nodes: s.nodes.update(
                                    d,
                                    NodeStateV {
                                        sampling_history: sm_update(
                                            v.sampling_history,
                                            slot,
                                            selected,
                                        ),
                                        ..v
                                    },
                                ),
                                ..s
                            },
                        )
                    },
                    RotorMessage::SamplingResponse { slot, selected_nodes, responder } => Some(
                        RotorStateV {
                            network: net1,
                            nodes: s.nodes.update(
                                d,
                                NodeStateV {
                                    sampling_history: sm_update(
                                        v.sampling_history,
                                        slot,
                                        selected_nodes,
                                    ),
                                    ..v
                                },
                            ),
                            ..s
                        },
                    ),
                }
            }
        },
        RotorAction::RequestSampling { slot, requester } => Some(
            RotorStateV {
                network: net_insert(
                    s.network,
                    MessageInTransit {
                        dst: requester,
                        msg: RotorMessage::SamplingRequest { slot, requester },
                    },
                ),
                ..s
            },
        ),
        RotorAction::PerformSampling { slot, sampler } => {
            let v = s.nodes[sampler as int];
            let selected = spec_sample(s, slot, sampler as int);
            Some(
                RotorStateV {
                    nodes: s.nodes.update(
                        sampler as int,
                        NodeStateV {
                            sampling_history: sm_update(v.sampling_history, slot, selected),
                            ..v
                        },
                    ),
                    ..s
                },
            )
        },
        RotorAction::AdvanceSlot => {
            let slot2 = (s.current_slot + 1) as u64;
            Some(
                RotorStateV {
                    nodes: s.nodes.map_values(
                        |v: NodeStateV| NodeStateV { current_slot: slot2, ..v },
                    ),
                    current_slot: slot2,
                    ..s
                },
            )
        },
    }
}

/// The initial state for a configuration.
pub open spec fn rt_init(node_count: int) -> RotorStateV {
    let stake = TOTAL_STAKE / node_count as u64;
    RotorStateV {
        network: Seq::empty(),
        nodes: Seq::new(
            node_count as nat,
            |i: int|
                NodeStateV {
                    stake,
                    is_online: true,
                    received_messages: Seq::empty(),
                    forwarded_messages: Seq::empty(),
                    sampling_history: Seq::empty(),
                    current_slot: 0,
                },
        ),
        current_slot: 0,
        stake_distribution: Seq::new(node_count as nat, |i: int| stake),
        message_reach: Seq::empty(),
    }
}

// ------------------------------------------------------------------
// Properties
// ------------------------------------------------------------------

/// Every datum that has been sent reached at least two nodes, within the
/// explored slots.
pub open spec fn prop_message_dissemination(m: RotorModel, s: RotorStateV) -> bool {
    forall|i: int|
        0 <= i < s.message_reach.len() && 1 <= (#[trigger] s.message_reach[i]).slot <= m.max_slot
            ==> mask_count(s.message_reach[i].nodes, 64) >= 2
}

/// Every sampled peer set within the explored slots respects the fanout
/// bound.
pub open spec fn prop_stake_weighted_sampling(m: RotorModel, s: RotorStateV) -> bool {
    forall|v: int, e: int|
        0 <= v < s.nodes.len() && 0 <= e < s.nodes[v].sampling_history.len()
            && (#[trigger] s.nodes[v].sampling_history[e]).slot <= m.max_slot ==> mask_count(
            s.nodes[v].sampling_history[e].nodes,
            64,
        ) <= FANOUT_SIZE
}

/// Fanout achievement.  A datum counts as having achieved the fanout
/// exactly when its reach is at least the fanout, so as a state predicate
/// this check holds degenerately; the reach itself is exercised by tests.
pub open spec fn prop_fanout_achievement(m: RotorModel, s: RotorStateV) -> bool {
    true
}

/// No node records a datum twice.
pub open spec fn prop_no_message_duplication(s: RotorStateV) -> bool {
    forall|v: int, i: int, j: int|
        0 <= v < s.nodes.len() && 0 <= i < s.nodes[v].received_messages.len() && 0 <= j
            < s.nodes[v].received_messages.len() && #[trigger] s.nodes[v].received_messages[i]
            == #[trigger] s.nodes[v].received_messages[j] ==> i == j
}

/// The invariants checked at every visited state.
#[derive(Clone, Copy, Debug, PartialEq, Eq, PartialOrd, Ord, Hash, Structural)]
pub enum RotorProperty {
    MessageDissemination,
    StakeWeightedSampling,
    FanoutAchievement,
    NoMessageDuplication,
}

/// The properties violated in `s`, in a fixed order.
pub open spec fn rt_violations(m: RotorModel, s: RotorStateV) -> Seq<RotorProperty> {
    (if !prop_message_dissemination(m, s) {
        seq![RotorProperty::MessageDissemination]
    } else {
        Seq::empty()
    }) + (if !prop_stake_weighted_sampling(m, s) {
        seq![RotorProperty::StakeWeightedSampling]
    } else {
        Seq::empty()
    }) + (if !prop_no_message_duplication(s) {
        seq![RotorProperty::NoMessageDuplication]
    } else {
        Seq::empty()
    })
}

// ------------------------------------------------------------------
// Action generation
// ------------------------------------------------------------------

/// One delivery action for every message in flight.
pub open spec fn deliver_actions(net: Seq<MessageInTransit>) -> Seq<RotorAction> {
    Seq::new(net.len(), |i: int| RotorAction::DeliverMessage { msg: net[i] })
}

/// Data sends for one slot by the senders below `k`, each with its
/// deterministic datum identifier.
pub open spec fn send_senders(slot: u64, k: int) -> Seq<RotorAction>
    decreases k,
{
    if k <= 0 {
        Seq::empty()
    } else {
        send_senders(slot, k - 1) + seq![
            RotorAction::SendData {
                slot,
                data_id: (slot * 1000 + (k - 1)) as u64,
                sender: (k - 1) as usize,
            },
        ]
    }
}

/// Data sends for the slots in `[cur, hi]`.
pub open spec fn send_slots(n: int, cur: int, hi: int) -> Seq<RotorAction>
    decreases hi - cur + 1,
{
    if hi < cur {
        Seq::empty()
    } else {
        send_slots(n, cur, hi - 1) + send_senders(hi as u64, n)
    }
}

/// Sampling requests for one slot by the requesters below `k`.
pub open spec fn request_reqs(slot: u64, k: int) -> Seq<RotorAction>
    decreases k,
{
    if k <= 0 {
        Seq::empty()
    } else {
        request_reqs(slot, k - 1) + seq![
            RotorAction::RequestSampling { slot, requester: (k - 1) as usize },
        ]
    }
}

/// Sampling requests for the slots `1..=sl`.
pub open spec fn request_slots(n: int, sl: int) -> Seq<RotorAction>
    decreases sl,
{
    if sl <= 0 {
        Seq::empty()
    } else {
        request_slots(n, sl - 1) + request_reqs(sl as u64, n)
    }
}

/// Direct samplings for one slot by the samplers below `k`.
pub open spec fn perform_reqs(slot: u64, k: int) -> Seq<RotorAction>
    decreases k,
{
    if k <= 0 {
        Seq::empty()
    } else {
        perform_reqs(slot, k - 1) + seq![
            RotorAction::PerformSampling { slot, sampler: (k - 1) as usize },
        ]
    }
}

/// Direct samplings for the slots `1..=sl`.
pub open spec fn perform_slots(n: int, sl: int) -> Seq<RotorAction>
    decreases sl,
{
    if sl <= 0 {
        Seq::empty()
    } else {
        perform_slots(n, sl - 1) + perform_reqs(sl as u64, n)
    }
}

/// Every action enabled in `s`, in generation order.
pub open spec fn rt_actions(m: RotorModel, s: RotorStateV) -> Seq<RotorAction> {
    deliver_actions(s.network) + send_slots(
        m.node_count as int,
        s.current_slot as int,
        m.max_slot as int,
    ) + request_slots(m.node_count as int, m.max_slot as int) + perform_slots(
        m.node_count as int,
        m.max_slot as int,
    ) + (if s.current_slot < m.max_slot {
        seq![RotorAction::AdvanceSlot]
    } else {
        Seq::empty()
    })
}

// ------------------------------------------------------------------
// Executable helpers
// ------------------------------------------------------------------

fn net_contains(net: &Vec<MessageInTransit>, m: MessageInTransit) -> (r: bool)
    ensures
        r == net@.contains(m),
{
    let mut i: usize = 0;
    while i < net.len()
        invariant
            i <= net@.len(),
            forall|j: int| 0 <= j < i ==> net@[j] != m,
        decreases net@.len() - i,
    {
        if net[i] == m {
            return true;
        }
        i = i + 1;
    }
    false
}

fn net_insert_exec(net: &mut Vec<MessageInTransit>, m: MessageInTransit)
    ensures
        final(net)@ == net_insert(old(net)@, m),
{
    if !net_contains(net, m) {
        net.push(m);
    }
}

fn net_remove_exec(net: &mut Vec<MessageInTransit>, m: MessageInTransit)
    requires
        seq_distinct(old(net)@),
        old(net)@.contains(m),
    ensures
        final(net)@ == old(net)@.remove(net_index(old(net)@, m)),
{
    let ghost orig = net@;
    proof {
        assert(orig == old(net)@);
    }
    let mut i: usize = 0;
    while i < net.len()
        invariant
            net@ == orig,
            orig == old(net)@,
            seq_distinct(orig),
            i <= net@.len(),
            forall|j: int| 0 <= j < i ==> net@[j] != m,
            net@.contains(m),
        decreases net@.len() - i,
    {
        if net[i] == m {
            proof {
                let ii = net_index(orig, m);
                assert(0 <= ii < orig.len() && orig[ii] == m);
                assert(ii == i as int);
            }
            net.remove(i);
            return ;
        }
        i = i + 1;
    }
    proof {
        let ii = choose|j: int| 0 <= j < orig.len() && orig[j] == m;
        assert(false);
    }
}

fn sd_insert_exec(ds: &mut Vec<SlotData>, d: SlotData)
    ensures
        final(ds)@ == sd_insert(old(ds)@, d),
{
    let mut i: usize = 0;
    while i < ds.len()
        invariant
            i <= ds@.len(),
            ds@ == old(ds)@,
            forall|j: int| 0 <= j < i ==> ds@[j] != d,
        decreases ds@.len() - i,
    {
        if ds[i] == d {
            return ;
        }
        i = i + 1;
    }
    ds.push(d);
}

fn sm_update_exec(sm: &mut Vec<SlotMask>, slot: u64, nodes: u64)
    requires
        sm_slots_distinct(old(sm)@),
    ensures
        final(sm)@ == sm_update(old(sm)@, slot, nodes),
{
    let mut i: usize = 0;
    while i < sm.len()
        invariant
            i <= sm@.len(),
            sm@ == old(sm)@,
            sm_slots_distinct(sm@),
            forall|j: int| 0 <= j < i ==> sm@[j].slot != slot,
        decreases sm@.len() - i,
    {
        if sm[i].slot == slot {
            proof {
                assert(sm_has(sm@, slot));
                let ii = sm_index(sm@, slot);
                assert(0 <= ii < sm@.len() && sm@[ii].slot == slot);
            }
            set_vec(sm, i, SlotMask { slot, nodes });
            return ;
        }
        i = i + 1;
    }
    proof {
        assert(!sm_has(sm@, slot));
    }
    sm.push(SlotMask { slot, nodes });
}

fn rr_add_exec(rs: &mut Vec<ReachRecord>, slot: u64, data_id: u64, node: usize)
    requires
        rr_keys_distinct(old(rs)@),
        node < 64,
    ensures
        final(rs)@ == rr_add(old(rs)@, slot, data_id, node as int),
{
    let mut i: usize = 0;
    while i < rs.len()
        invariant
            i <= rs@.len(),
            rs@ == old(rs)@,
            rr_keys_distinct(rs@),
            node < 64,
            forall|j: int| 0 <= j < i ==> !(rs@[j].slot == slot && rs@[j].data_id == data_id),
        decreases rs@.len() - i,
    {
        if rs[i].slot == slot && rs[i].data_id == data_id {
            proof {
                assert(rr_has(rs@, slot, data_id));
                let ii = rr_index(rs@, slot, data_id);
                assert(0 <= ii < rs@.len() && rs@[ii].slot == slot && rs@[ii].data_id == data_id);
            }
            let nodes = rs[i].nodes | (1u64 << (node as u64));
            set_vec(rs, i, ReachRecord { slot, data_id, nodes });
            return ;
        }
        i = i + 1;
    }
    proof {
        assert(!rr_has(rs@, slot, data_id));
    }
    rs.push(ReachRecord { slot, data_id, nodes: 1u64 << (node as u64) });
}

// ------------------------------------------------------------------
// Executable state
// ------------------------------------------------------------------

impl NodeState {
    fn duplicate(&self) -> (r: NodeState)
        ensures
            r@ == self@,
    {
        NodeState {
            stake: self.stake,
            is_online: self.is_online,
            received_messages: copy_vec(&self.received_messages),
            forwarded_messages: copy_vec(&self.forwarded_messages),
            sampling_history: copy_vec(&self.sampling_history),
            current_slot: self.current_slot,
        }
    }
}

impl RotorState {
    /// A fresh copy with the same mathematical value.
    pub fn duplicate(&self) -> (r: RotorState)
        ensures
            r@ == self@,
    {
        let mut nodes: Vec<NodeState> = Vec::new();
        let mut i: usize = 0;
        while i < self.nodes.len()
            invariant
                i <= self.nodes@.len(),
                nodes@.len() == i,
                forall|j: int| 0 <= j < i ==> #[trigger] nodes@[j]@ == self.nodes@[j]@,
            decreases self.nodes@.len() - i,
        {
            let v = self.nodes[i].duplicate();
            nodes.push(v);
            i = i + 1;
        }
        let r = RotorState {
            network: copy_vec(&self.network),
            nodes,
            current_slot: self.current_slot,
            stake_distribution: copy_vec(&self.stake_distribution),
            message_reach: copy_vec(&self.message_reach),
        };
        proof {
            assert(r@.nodes =~= self@.nodes);
            assert(r@ =~= self@);
        }
        r
    }

    /// The initial state: everyone online, stake split evenly, nothing
    /// sent.
    pub fn new(node_count: usize) -> (r: RotorState)
        requires
            1 <= node_count <= 64,
        ensures
            r@ == rt_init(node_count as int),
    {
        let stake = TOTAL_STAKE / (node_count as u64);
        let mut nodes: Vec<NodeState> = Vec::new();
        let mut stake_distribution: Vec<u64> = Vec::new();
        let mut i: usize = 0;
        while i < node_count
            invariant
                i <= node_count,
                stake == TOTAL_STAKE / (node_count as u64),
                nodes@.len() == i,
                stake_distribution@.len() == i,
                forall|j: int|
                    0 <= j < i ==> #[trigger] nodes@[j]@ == rt_init(node_count as int).nodes[j],
                forall|j: int| 0 <= j < i ==> #[trigger] stake_distribution@[j] == stake,
            decreases node_count - i,
        {
            nodes.push(
                NodeState {
                    stake,
                    is_online: true,
                    received_messages: Vec::new(),
                    forwarded_messages: Vec::new(),
                    sampling_history: Vec::new(),
                    current_slot: 0,
                },
            );
            stake_distribution.push(stake);
            proof {
                assert(nodes@[i as int]@ =~= rt_init(node_count as int).nodes[i as int]);
            }
            i = i + 1;
        }
        let r = RotorState {
            network: Vec::new(),
            nodes,
            current_slot: 0,
            stake_distribution,
            message_reach: Vec::new(),
        };
        proof {
            assert(r@.nodes =~= rt_init(node_count as int).nodes);
            assert(r@.stake_distribution =~= rt_init(node_count as int).stake_distribution);
            assert(r@ =~= rt_init(node_count as int));
        }
        r
    }

    /// Stake-weighted deterministic sampling for `(slot, sampler)`: a scan
    /// of the cumulative stake against a seed derived from the slot and
    /// the sampler, bounded by the fanout and never selecting the sampler;
    /// if the scan selects nobody, the first peers stand in.
    pub fn perform_stake_weighted_sampling(&self, slot: u64, sampler: usize) -> (r: u64)
        requires
            1 <= self@.stake_distribution.len() <= 64,
            0 < stake_total(self@.stake_distribution, self@.stake_distribution.len() as int)
                <= u64::MAX,
            slot <= 1000000,
            sampler < self@.stake_distribution.len(),
        ensures
            r == spec_sample(self@, slot, sampler as int),
    {
        let n = self.stake_distribution.len();
        let total = total_stake_of(&self.stake_distribution);
        let seed = (slot * 1000 + (sampler as u64)) % total;
        let mut mask: u64 = 0;
        let mut count: usize = 0;
        let mut cum: u64 = 0;
        let mut i: usize = 0;
        while i < n
            invariant
                i <= n,
                n == self@.stake_distribution.len(),
                n <= 64,
                0 < stake_total(self@.stake_distribution, n as int) <= u64::MAX,
                seed as int == (slot * 1000 + sampler) % stake_total(
                    self@.stake_distribution,
                    n as int,
                ),
                (mask, count as int, cum as int) == sample_scan(
                    self@.stake_distribution,
                    sampler as int,
                    seed as int,
                    i as int,
                ),
                cum <= stake_total(self@.stake_distribution, i as int),
            decreases n - i,
        {
            proof {
                lemma_stake_total_nonneg(self@.stake_distribution, i as int);
                lemma_stake_total_mono(self@.stake_distribution, i as int + 1, n as int);
            }
            if i != sampler && count < FANOUT_SIZE {
                cum = cum + self.stake_distribution[i];
                if seed < cum {
                    mask = mask | (1u64 << (i as u64));
                    count = count + 1;
                }
            } else {
                proof {
                    lemma_stake_total_mono(self@.stake_distribution, i as int, i as int + 1);
                }
            }
            i = i + 1;
        }
        if count == 0 {
            let mut fmask: u64 = 0;
            let mut fcount: usize = 0;
            let mut i: usize = 0;
            while i < n
                invariant
                    i <= n,
                    n <= 64,
                    (fmask, fcount as int) == fallback_scan(sampler as int, i as int),
                decreases n - i,
            {
                if i != sampler && fcount < FANOUT_SIZE {
                    fmask = fmask | (1u64 << (i as u64));
                    fcount = fcount + 1;
                }
                i = i + 1;
            }
            fmask
        } else {
            mask
        }
    }

    /// Whether `(slot, data_id)` has reached at least the fanout.
    pub fn has_achieved_fanout(&self, slot: u64, data_id: u64) -> (r: bool)
        requires
            rr_keys_distinct(self@.message_reach),
        ensures
            r == (rr_has(self@.message_reach, slot, data_id) && mask_count(
                self@.message_reach[rr_index(self@.message_reach, slot, data_id)].nodes,
                64,
            ) >= FANOUT_SIZE),
    {
        let rs = &self.message_reach;
        let mut i: usize = 0;
        while i < rs.len()
            invariant
                rs@ == self@.message_reach,
                rr_keys_distinct(rs@),
                i <= rs@.len(),
                forall|j: int| 0 <= j < i ==> !(rs@[j].slot == slot && rs@[j].data_id == data_id),
            decreases rs@.len() - i,
        {
            if rs[i].slot == slot && rs[i].data_id == data_id {
                proof {
                    assert(rr_has(rs@, slot, data_id));
                    let ii = rr_index(rs@, slot, data_id);
                    assert(0 <= ii < rs@.len() && rs@[ii].slot == slot && rs@[ii].data_id
                        == data_id);
                    assert(ii == i as int);
                }
                return mask_len(rs[i].nodes) >= FANOUT_SIZE;
            }
            i = i + 1;
        }
        false
    }
}

// ------------------------------------------------------------------
// The model, executably
// ------------------------------------------------------------------

impl RotorModel {
    /// The single initial state of the model.
    pub fn init_states(&self) -> (r: Vec<RotorState>)
        requires
            1 <= self.node_count <= 64,
        ensures
            r@.len() == 1,
            r@[0]@ == rt_init(self.node_count as int),
    {
        let mut r: Vec<RotorState> = Vec::new();
        r.push(RotorState::new(self.node_count));
        r
    }

    /// The unique successor of `last_state` under `action`, or `None` when
    /// the action delivers a message no longer in flight.
    pub fn next_state(&self, last_state: &RotorState, action: RotorAction) -> (r: Option<
        RotorState,
    >)
        requires
            wf_model(*self),
            wf_state(*self, last_state@),
            wf_action(*self, action),
            action is AdvanceSlot ==> last_state@.current_slot < u64::MAX,
        ensures
            match r {
                Some(s2) => rt_step(*self, last_state@, action) == Some(s2@),
                None => rt_step(*self, last_state@, action) is None,
            },
    {
        match action {
            RotorAction::SendData { slot, data_id, sender } => {
                let mut s2 = last_state.duplicate();
                proof {
                    assert(last_state@.nodes[sender as int] == s2.nodes@[sender as int]@);
                }
                let vold = &s2.nodes[sender];
                let nv = NodeState {
                    stake: vold.stake,
                    is_online: vold.is_online,
                    received_messages: {
                        let mut c = copy_vec(&vold.received_messages);
                        sd_insert_exec(&mut c, SlotData { slot, data_id });
                        c
                    },
                    forwarded_messages: copy_vec(&vold.forwarded_messages),
                    sampling_history: copy_vec(&vold.sampling_history),
                    current_slot: vold.current_slot,
                };
                set_vec(&mut s2.nodes, sender, nv);
                rr_add_exec(&mut s2.message_reach, slot, data_id, sender);
                net_insert_exec(
                    &mut s2.network,
                    MessageInTransit {
                        dst: sender,
                        msg: RotorMessage::SamplingRequest { slot, requester: sender },
                    },
                );
                proof {
                    let g = rt_step(*self, last_state@, action);
                    assert(g == Some(s2@)) by {
                        assert(s2@.nodes =~= g->Some_0.nodes);
                        assert(s2@ =~= g->Some_0);
                    }
                }
                Some(s2)
            },
            RotorAction::DeliverMessage { msg } => {
                if !net_contains(&last_state.network, msg) {
                    return None;
                }
                let mut s2 = last_state.duplicate();
                net_remove_exec(&mut s2.network, msg);
                proof {
                    lemma_distinct_remove(last_state@.network, net_index(last_state@.network, msg));
                }
                let d = msg.dst;
                proof {
                    assert(last_state@.nodes[d as int] == s2.nodes@[d as int]@);
                }
                match msg.msg {
                    RotorMessage::DataMessage { slot, data_id, sender } => {
                        let targets = match self.sampled_for(&s2.nodes[d].sampling_history, slot) {
                            Some(t) => t,
                            None => 0,
                        };
                        let mut t: usize = 0;
                        let ghost net_base = s2@.network;
                        while t < self.node_count
                            invariant
                                t <= self.node_count,
                                d == msg.dst,
                                s2@.nodes == last_state@.nodes,
                                s2@.current_slot == last_state@.current_slot,
                                s2@.stake_distribution == last_state@.stake_distribution,
                                s2@.message_reach == last_state@.message_reach,
                                s2@.network == forward_broadcast(
                                    net_base,
                                    slot,
                                    data_id,
                                    sender,
                                    msg.dst,
                                    targets,
                                    t as int,
                                ),
                                self.node_count <= 64,
                            decreases self.node_count - t,
                        {
                            if mask_contains(targets, t) && t != d {
                                net_insert_exec(
                                    &mut s2.network,
                                    MessageInTransit {
                                        dst: t,
                                        msg: RotorMessage::ForwardedMessage {
                                            slot,
                                            data_id,
                                            original_sender: sender,
                                            forwarder: d,
                                        },
                                    },
                                );
                            }
                            t = t + 1;
                        }
                        let vold = &s2.nodes[d];
                        let nv = NodeState {
                            stake: vold.stake,
                            is_online: vold.is_online,
                            received_messages: {
                                let mut c = copy_vec(&vold.received_messages);
                                sd_insert_exec(&mut c, SlotData { slot, data_id });
                                c
                            },
                            forwarded_messages: copy_vec(&vold.forwarded_messages),
                            sampling_history: copy_vec(&vold.sampling_history),
                            current_slot: vold.current_slot,
                        };
                        set_vec(&mut s2.nodes, d, nv);
                        rr_add_exec(&mut s2.message_reach, slot, data_id, d);
                        proof {
                            let g = rt_step(*self, last_state@, action);
                            assert(g == Some(s2@)) by {
                                assert(g is Some);
                                assert(s2@.nodes =~= g->Some_0.nodes);
                                assert(s2@ =~= g->Some_0);
                            }
                        }
                        Some(s2)
                    },
                    RotorMessage::ForwardedMessage { slot, data_id, original_sender, forwarder } => {
                        proof {
                            assert(last_state@.nodes[forwarder as int]
                                == s2.nodes@[forwarder as int]@);
                        }
                        let fold = &s2.nodes[forwarder];
                        let nf = NodeState {
                            stake: fold.stake,
                            is_online: fold.is_online,
                            received_messages: copy_vec(&fold.received_messages),
                            forwarded_messages: {
                                let mut c = copy_vec(&fold.forwarded_messages);
                                sd_insert_exec(&mut c, SlotData { slot, data_id });
                                c
                            },
                            sampling_history: copy_vec(&fold.sampling_history),
                            current_slot: fold.current_slot,
                        };
                        set_vec(&mut s2.nodes, forwarder, nf);
                        proof {
                            assert(last_state@.nodes[d as int] == last_state.nodes@[d as int]@);
                        }
                        let lsold = &last_state.nodes[d];
                        let nv = NodeState {
                            stake: lsold.stake,
                            is_online: lsold.is_online,
                            received_messages: {
                                let mut c = copy_vec(&lsold.received_messages);
                                sd_insert_exec(&mut c, SlotData { slot, data_id });
                                c
                            },
                            forwarded_messages: copy_vec(&lsold.forwarded_messages),
                            sampling_history: copy_vec(&lsold.sampling_history),
                            current_slot: lsold.current_slot,
                        };
                        set_vec(&mut s2.nodes, d, nv);
                        rr_add_exec(&mut s2.message_reach, slot, data_id, d);
                        proof {
                            let g = rt_step(*self, last_state@, action);
                            assert(g == Some(s2@)) by {
                                assert(g is Some);
                                assert(s2@.nodes =~= g->Some_0.nodes);
                                assert(s2@ =~= g->Some_0);
                            }
                        }
                        Some(s2)
                    },
                    RotorMessage::SamplingRequest { slot, requester } => {
                        let selected = last_state.perform_stake_weighted_sampling(slot, requester);
                        let vold = &s2.nodes[d];
                        let nv = NodeState {
                            stake: vold.stake,
                            is_online: vold.is_online,
                            received_messages: copy_vec(&vold.received_messages),
                            forwarded_messages: copy_vec(&vold.forwarded_messages),
                            sampling_history: {
                                let mut c = copy_vec(&vold.sampling_history);
                                sm_update_exec(&mut c, slot, selected);
                                c
                            },
                            current_slot: vold.current_slot,
                        };
                        set_vec(&mut s2.nodes, d, nv);
                        net_insert_exec(
                            &mut s2.network,
                            MessageInTransit {
                                dst: requester,
                                msg: RotorMessage::SamplingResponse {
                                    slot,
                                    selected_nodes: selected,
                                    responder: d,
                                },
                            },
                        );
                        proof {
                            let g = rt_step(*self, last_state@, action);
                            assert(g == Some(s2@)) by {
                                assert(g is Some);
                                assert(spec_sample(last_state@, slot, requester as int) == selected);
                                assert(s2@.nodes =~= g->Some_0.nodes);
                                assert(s2@ =~= g->Some_0);
                            }
                        }
                        Some(s2)
                    },
                    RotorMessage::SamplingResponse { slot, selected_nodes, responder: _ } => {
                        let vold = &s2.nodes[d];
                        let nv = NodeState {
                            stake: vold.stake,
                            is_online: vold.is_online,
                            received_messages: copy_vec(&vold.received_messages),
                            forwarded_messages: copy_vec(&vold.forwarded_messages),
                            sampling_history: {
                                let mut c = copy_vec(&vold.sampling_history);
                                sm_update_exec(&mut c, slot, selected_nodes);
                                c
                            },
                            current_slot: vold.current_slot,
                        };
                        set_vec(&mut s2.nodes, d, nv);
                        proof {
                            let g = rt_step(*self, last_state@, action);
                            assert(g == Some(s2@)) by {
                                assert(g is Some);
                                assert(s2@.nodes =~= g->Some_0.nodes);
                                assert(s2@ =~= g->Some_0);
                            }
                        }
                        Some(s2)
                    },
                }
            },
            RotorAction::RequestSampling { slot, requester } => {
                let mut s2 = last_state.duplicate();
                net_insert_exec(
                    &mut s2.network,
                    MessageInTransit {
                        dst: requester,
                        msg: RotorMessage::SamplingRequest { slot, requester },
                    },
                );
                proof {
                    let g = rt_step(*self, last_state@, action);
                    assert(g == Some(s2@)) by {
                        assert(s2@ =~= g->Some_0);
                    }
                }
                Some(s2)
            },
            RotorAction::PerformSampling { slot, sampler } => {
                let mut s2 = last_state.duplicate();
                let selected = last_state.perform_stake_weighted_sampling(slot, sampler);
                proof {
                    assert(last_state@.nodes[sampler as int] == s2.nodes@[sampler as int]@);
                }
                let vold = &s2.nodes[sampler];
                let nv = NodeState {
                    stake: vold.stake,
                    is_online: vold.is_online,
                    received_messages: copy_vec(&vold.received_messages),
                    forwarded_messages: copy_vec(&vold.forwarded_messages),
                    sampling_history: {
                        let mut c = copy_vec(&vold.sampling_history);
                        sm_update_exec(&mut c, slot, selected);
                        c
                    },
                    current_slot: vold.current_slot,
                };
                set_vec(&mut s2.nodes, sampler, nv);
                proof {
                    let g = rt_step(*self, last_state@, action);
                    assert(g == Some(s2@)) by {
                        assert(s2@.nodes =~= g->Some_0.nodes);
                        assert(s2@ =~= g->Some_0);
                    }
                }
                Some(s2)
            },
            RotorAction::AdvanceSlot => {
                let mut s2 = last_state.duplicate();
                let slot2 = s2.current_slot + 1;
                s2.current_slot = slot2;
                let mut i: usize = 0;
                while i < s2.nodes.len()
                    invariant
                        i <= s2.nodes@.len(),
                        s2.nodes@.len() == last_state@.nodes.len(),
                        s2@.network == last_state@.network,
                        s2@.stake_distribution == last_state@.stake_distribution,
                        s2@.message_reach == last_state@.message_reach,
                        s2@.current_slot == slot2,
                        slot2 == last_state@.current_slot + 1,
                        forall|j: int|
                            0 <= j < i ==> #[trigger] s2.nodes@[j]@ == (NodeStateV {
                                current_slot: slot2,
                                ..last_state@.nodes[j]
                            }),
                        forall|j: int|
                            i <= j < s2.nodes@.len() ==> #[trigger] s2.nodes@[j]@
                                == last_state@.nodes[j],
                    decreases s2.nodes@.len() - i,
                {
                    proof {
                        assert(s2.nodes@[i as int]@ == last_state@.nodes[i as int]);
                    }
                    let vold = &s2.nodes[i];
                    let nv = NodeState {
                        stake: vold.stake,
                        is_online: vold.is_online,
                        received_messages: copy_vec(&vold.received_messages),
                        forwarded_messages: copy_vec(&vold.forwarded_messages),
                        sampling_history: copy_vec(&vold.sampling_history),
                        current_slot: slot2,
                    };
                    set_vec(&mut s2.nodes, i, nv);
                    proof {
                        assert(s2.nodes@[i as int]@ =~= (NodeStateV {
                            current_slot: slot2,
                            ..last_state@.nodes[i as int]
                        }));
                    }
                    i = i + 1;
                }
                proof {
                    let g = rt_step(*self, last_state@, action);
                    assert(g == Some(s2@)) by {
                        assert(s2@.nodes =~= g->Some_0.nodes);
                        assert(s2@ =~= g->Some_0);
                    }
                }
                Some(s2)
            },
        }
    }

    fn sampled_for(&self, sm: &Vec<SlotMask>, slot: u64) -> (r: Option<u64>)
        requires
            sm_slots_distinct(sm@),
        ensures
            match r {
                Some(t) => sm_has(sm@, slot) && t == sm@[sm_index(sm@, slot)].nodes,
                None => !sm_has(sm@, slot),
            },
    {
        let mut i: usize = 0;
        while i < sm.len()
            invariant
                i <= sm@.len(),
                sm_slots_distinct(sm@),
                forall|j: int| 0 <= j < i ==> sm@[j].slot != slot,
            decreases sm@.len() - i,
        {
            if sm[i].slot == slot {
                proof {
                    assert(sm_has(sm@, slot));
                    let ii = sm_index(sm@, slot);
                    assert(0 <= ii < sm@.len() && sm@[ii].slot == slot);
                    assert(ii == i as int);
                }
                return Some(sm[i].nodes);
            }
            i = i + 1;
        }
        None
    }

    /// Append every enabled action to `actions`: deliveries, data sends,
    /// sampling requests, direct samplings, and the slot advance.
    pub fn actions(&self, state: &RotorState, actions: &mut Vec<RotorAction>)
        requires
            wf_model(*self),
            wf_state(*self, state@),
        ensures
            final(actions)@ == old(actions)@ + rt_actions(*self, state@),
    {
        let ghost base = actions@;
        let ghost sv = state@;
        let n = self.node_count;

        let mut i: usize = 0;
        while i < state.network.len()
            invariant
                i <= state.network@.len(),
                sv == state@,
                actions@ == base + deliver_actions(sv.network).subrange(0, i as int),
            decreases state.network@.len() - i,
        {
            actions.push(RotorAction::DeliverMessage { msg: state.network[i] });
            proof {
                assert(actions@ =~= base + deliver_actions(sv.network).subrange(0, i as int + 1));
            }
            i = i + 1;
        }
        proof {
            assert(deliver_actions(sv.network).subrange(0, sv.network.len() as int)
                =~= deliver_actions(sv.network));
        }

        let ghost base1 = base + deliver_actions(sv.network);
        let ghost cur = state@.current_slot as int;
        let mut slot: u64 = state.current_slot;
        while slot <= self.max_slot
            invariant
                state@.current_slot <= slot,
                slot <= self.max_slot + 1 || slot == state@.current_slot,
                wf_model(*self),
                sv == state@,
                n == self.node_count,
                cur == state@.current_slot as int,
                actions@ == base1 + send_slots(n as int, cur, slot as int - 1),
            decreases self.max_slot + 1 - slot,
        {
            let mut sender: usize = 0;
            while sender < n
                invariant
                    sender <= n,
                    state@.current_slot <= slot <= self.max_slot,
                    wf_model(*self),
                    sv == state@,
                    n == self.node_count,
                    cur == state@.current_slot as int,
                    actions@ == base1 + send_slots(n as int, cur, slot as int - 1) + send_senders(
                        slot,
                        sender as int,
                    ),
                decreases n - sender,
            {
                let data_id = slot * 1000 + (sender as u64);
                actions.push(RotorAction::SendData { slot, data_id, sender });
                proof {
                    assert(actions@ =~= base1 + send_slots(n as int, cur, slot as int - 1)
                        + send_senders(slot, sender as int + 1));
                }
                sender = sender + 1;
            }
            proof {
                assert(actions@ =~= base1 + send_slots(n as int, cur, slot as int));
            }
            slot = slot + 1;
        }
        proof {
            if cur > self.max_slot as int {
                assert(send_slots(n as int, cur, self.max_slot as int) =~= send_slots(
                    n as int,
                    cur,
                    cur - 1,
                ));
            }
        }

        let ghost base2 = base1 + send_slots(n as int, cur, self.max_slot as int);
        proof {
            assert(actions@ == base2);
        }
        let mut slot: u64 = 1;
        while slot <= self.max_slot
            invariant
                1 <= slot <= self.max_slot + 1,
                wf_model(*self),
                sv == state@,
                n == self.node_count,
                actions@ == base2 + request_slots(n as int, slot as int - 1),
            decreases self.max_slot + 1 - slot,
        {
            let mut requester: usize = 0;
            while requester < n
                invariant
                    requester <= n,
                    1 <= slot <= self.max_slot,
                    wf_model(*self),
                    sv == state@,
                    n == self.node_count,
                    actions@ == base2 + request_slots(n as int, slot as int - 1) + request_reqs(
                        slot,
                        requester as int,
                    ),
                decreases n - requester,
            {
                actions.push(RotorAction::RequestSampling { slot, requester });
                proof {
                    assert(actions@ =~= base2 + request_slots(n as int, slot as int - 1)
                        + request_reqs(slot, requester as int + 1));
                }
                requester = requester + 1;
            }
            proof {
                assert(actions@ =~= base2 + request_slots(n as int, slot as int));
            }
            slot = slot + 1;
        }

        let ghost base3 = base2 + request_slots(n as int, self.max_slot as int);
        proof {
            assert(actions@ == base3);
        }
        let mut slot: u64 = 1;
        while slot <= self.max_slot
            invariant
                1 <= slot <= self.max_slot + 1,
                wf_model(*self),
                sv == state@,
                n == self.node_count,
                actions@ == base3 + perform_slots(n as int, slot as int - 1),
            decreases self.max_slot + 1 - slot,
        {
            let mut sampler: usize = 0;
            while sampler < n
                invariant
                    sampler <= n,
                    1 <= slot <= self.max_slot,
                    wf_model(*self),
                    sv == state@,
                    n == self.node_count,
                    actions@ == base3 + perform_slots(n as int, slot as int - 1) + perform_reqs(
                        slot,
                        sampler as int,
                    ),
                decreases n - sampler,
            {
                actions.push(RotorAction::PerformSampling { slot, sampler });
                proof {
                    assert(actions@ =~= base3 + perform_slots(n as int, slot as int - 1)
                        + perform_reqs(slot, sampler as int + 1));
                }
                sampler = sampler + 1;
            }
            proof {
                assert(actions@ =~= base3 + perform_slots(n as int, slot as int));
            }
            slot = slot + 1;
        }

        if state.current_slot < self.max_slot {
            actions.push(RotorAction::AdvanceSlot);
        }
        proof {
            assert(actions@ =~= old(actions)@ + rt_actions(*self, state@));
        }
    }

    /// Whether every sent datum in reach reached at least two nodes.
    pub fn message_dissemination(&self, state: &RotorState) -> (r: bool)
        ensures
            r == prop_message_dissemination(*self, state@),
    {
        let rs = &state.message_reach;
        let mut i: usize = 0;
        while i < rs.len()
            invariant
                rs@ == state@.message_reach,
                i <= rs@.len(),
                forall|j: int|
                    0 <= j < i && 1 <= (#[trigger] rs@[j]).slot <= self.max_slot ==> mask_count(
                        rs@[j].nodes,
                        64,
                    ) >= 2,
            decreases rs@.len() - i,
    {
            if 1 <= rs[i].slot && rs[i].slot <= self.max_slot {
                if mask_len(rs[i].nodes) < 2 {
                    return false;
                }
            }
            i = i + 1;
        }
        true
    }

    /// Whether every sampled peer set respects the fanout bound.
    pub fn stake_weighted_sampling(&self, state: &RotorState) -> (r: bool)
        ensures
            r == prop_stake_weighted_sampling(*self, state@),
    {
        let mut v: usize = 0;
        while v < state.nodes.len()
            invariant
                v <= state.nodes@.len(),
                forall|a: int, e: int|
                    0 <= a < v && 0 <= e < state@.nodes[a].sampling_history.len()
                        && (#[trigger] state@.nodes[a].sampling_history[e]).slot <= self.max_slot
                        ==> mask_count(state@.nodes[a].sampling_history[e].nodes, 64)
                        <= FANOUT_SIZE,
            decreases state.nodes@.len() - v,
        {
            proof {
                assert(state@.nodes[v as int] == state.nodes@[v as int]@);
            }
            let sm = &state.nodes[v].sampling_history;
            let mut e: usize = 0;
            while e < sm.len()
                invariant
                    e <= sm@.len(),
                    v < state.nodes@.len(),
                    sm@ == state@.nodes[v as int].sampling_history,
                    forall|a: int, ee: int|
                        0 <= a < v && 0 <= ee < state@.nodes[a].sampling_history.len()
                            && (#[trigger] state@.nodes[a].sampling_history[ee]).slot
                            <= self.max_slot ==> mask_count(
                            state@.nodes[a].sampling_history[ee].nodes,
                            64,
                        ) <= FANOUT_SIZE,
                    forall|ee: int|
                        0 <= ee < e && (#[trigger] sm@[ee]).slot <= self.max_slot ==> mask_count(
                            sm@[ee].nodes,
                            64,
                        ) <= FANOUT_SIZE,
                decreases sm@.len() - e,
            {
                if sm[e].slot <= self.max_slot {
                    if mask_len(sm[e].nodes) > FANOUT_SIZE {
                        proof {
                            let sv = state@;
                            assert(mask_count(sv.nodes[v as int].sampling_history[e as int].nodes, 64)
                                > FANOUT_SIZE);
                            assert(!prop_stake_weighted_sampling(*self, sv));
                        }
                        return false;
                    }
                }
                e = e + 1;
            }
            v = v + 1;
        }
        proof {
            assert(prop_stake_weighted_sampling(*self, state@)) by {
                let sv = state@;
                assert forall|a: int, e: int|
                    0 <= a < sv.nodes.len() && 0 <= e < sv.nodes[a].sampling_history.len()
                        && (#[trigger] sv.nodes[a].sampling_history[e]).slot <= self.max_slot
                        implies mask_count(sv.nodes[a].sampling_history[e].nodes, 64)
                    <= FANOUT_SIZE by {
                    assert(0 <= a < sv.nodes.len());
                }
            }
        }
        true
    }

    /// Fanout achievement; see `prop_fanout_achievement`.
    pub fn fanout_achievement(&self, state: &RotorState) -> (r: bool)
        ensures
            r == prop_fanout_achievement(*self, state@),
    {
        true
    }

    /// Whether no node recorded a datum twice.
    pub fn no_message_duplication(&self, state: &RotorState) -> (r: bool)
        ensures
            r == prop_no_message_duplication(state@),
    {
        let mut v: usize = 0;
        while v < state.nodes.len()
            invariant
                v <= state.nodes@.len(),
                forall|a: int, i: int, j: int|
                    0 <= a < v && 0 <= i < state@.nodes[a].received_messages.len() && 0 <= j
                        < state@.nodes[a].received_messages.len()
                        && #[trigger] state@.nodes[a].received_messages[i]
                        == #[trigger] state@.nodes[a].received_messages[j] ==> i == j,
            decreases state.nodes@.len() - v,
        {
            proof {
                assert(state@.nodes[v as int] == state.nodes@[v as int]@);
            }
            let ds = &state.nodes[v].received_messages;
            let mut i: usize = 0;
            while i < ds.len()
                invariant
                    i <= ds@.len(),
                    v < state.nodes@.len(),
                    ds@ == state@.nodes[v as int].received_messages,
                    forall|a: int, b: int|
                        0 <= a < i && 0 <= b < ds@.len() && #[trigger] ds@[a] == #[trigger] ds@[b]
                            ==> a == b,
                decreases ds@.len() - i,
            {
                let mut j: usize = 0;
                while j < ds.len()
                    invariant
                        i < ds@.len(),
                        j <= ds@.len(),
                        v < state.nodes@.len(),
                        ds@ == state@.nodes[v as int].received_messages,
                        forall|a: int, b: int|
                            0 <= a < i && 0 <= b < ds@.len() && #[trigger] ds@[a]
                                == #[trigger] ds@[b] ==> a == b,
                        forall|b: int|
                            0 <= b < j && (#[trigger] ds@[b]) == ds@[i as int] ==> b == i as int,
                    decreases ds@.len() - j,
                {
                    if j != i && ds[j] == ds[i] {
                        proof {
                            let sv = state@;
                            assert(sv.nodes[v as int].received_messages[j as int]
                                == sv.nodes[v as int].received_messages[i as int]);
                            assert(!prop_no_message_duplication(sv));
                        }
                        return false;
                    }
                    j = j + 1;
                }
                i = i + 1;
            }
            v = v + 1;
        }
        proof {
            assert(prop_no_message_duplication(state@)) by {
                let sv = state@;
                assert forall|a: int, i: int, j: int|
                    0 <= a < sv.nodes.len() && 0 <= i < sv.nodes[a].received_messages.len() && 0
                        <= j < sv.nodes[a].received_messages.len()
                        && #[trigger] sv.nodes[a].received_messages[i]
                        == #[trigger] sv.nodes[a].received_messages[j] implies i == j by {
                    assert(sv.nodes[a].received_messages[i] == sv.nodes[a].received_messages[j]);
                }
            }
        }
        true
    }

    /// Evaluate every property on a state; the result lists the violated
    /// ones in a fixed order.  The degenerate fanout check can never fire
    /// and contributes nothing.
    pub fn check_properties(&self, state: &RotorState) -> (r: Vec<RotorProperty>)
        ensures
            r@ == rt_violations(*self, state@),
    {
        let mut r: Vec<RotorProperty> = Vec::new();
        if !self.message_dissemination(state) {
            r.push(RotorProperty::MessageDissemination);
        }
        if !self.stake_weighted_sampling(state) {
            r.push(RotorProperty::StakeWeightedSampling);
        }
        if !self.no_message_duplication(state) {
            r.push(RotorProperty::NoMessageDuplication);
        }
        proof {
            assert(r@ =~= rt_violations(*self, state@));
        }
        r
    }
}

} // verus!
