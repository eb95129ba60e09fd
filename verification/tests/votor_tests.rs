use alpenglow_formal::votor::{Action, VotorModel, VotorState};

#[test]
fn genesis_is_finalized_at_slot_zero() {
    let state = VotorState::new(3);
    assert_eq!(state.finalized_blocks.len(), 1);
    assert_eq!(state.finalized_blocks[0].slot, 0);
    assert_eq!(state.finalized_blocks[0].hash, 0);
    assert_eq!(state.node_states.len(), 3);
}

#[test]
fn slow_path_finalizes_a_proposed_block() {
    // A block for slot one extends the genesis block; the two recipients
    // vote (66 of 100 stake: notarized, not fast-finalized), cast their
    // second-round votes, and the slot finalizes on the slow path.
    let model = VotorModel { honest_validators: 3, max_slot: 2 };
    let mut state = VotorState::new(3);
    state = model.next_state(&state, Action::Propose { slot: 1, proposer: 0 }).unwrap();
    assert_eq!(state.network.len(), 2);
    while !state.network.is_empty() {
        let envelope = state.network[0];
        state = model.next_state(&state, Action::Deliver { msg: envelope }).unwrap();
    }
    assert!(state.finalized_blocks.iter().any(|b| b.slot == 1 && b.hash == 1));
    assert!(model.safety(&state));
}

#[test]
fn timeouts_raise_the_bad_window_and_suppress_the_second_round() {
    let model = VotorModel { honest_validators: 3, max_slot: 2 };
    let mut state = VotorState::new(3);
    // Every node times out on slot one before any proposal arrives.
    for node_id in 0..3usize {
        state = model.next_state(&state, Action::Timeout { slot: 1, node_id }).unwrap();
    }
    while !state.network.is_empty() {
        let envelope = state.network[0];
        state = model.next_state(&state, Action::Deliver { msg: envelope }).unwrap();
    }
    for node in state.node_states.iter() {
        assert!(node.slot_states.iter().any(|e| e.slot == 1 && e.state.bad_window));
        assert!(node.slot_states.iter().any(|e| e.slot == 1 && e.state.voted));
    }
    // Nobody voted for a block, so nothing beyond the genesis finalizes.
    assert_eq!(state.finalized_blocks.len(), 1);
    assert!(model.safety(&state));
}

#[test]
fn second_delivery_of_an_envelope_is_stale() {
    let model = VotorModel { honest_validators: 3, max_slot: 2 };
    let mut state = VotorState::new(3);
    state = model.next_state(&state, Action::Propose { slot: 1, proposer: 0 }).unwrap();
    let envelope = state.network[0];
    state = model.next_state(&state, Action::Deliver { msg: envelope }).unwrap();
    assert!(model.next_state(&state, Action::Deliver { msg: envelope }).is_none());
}
