use alpenglow_formal::certificate::{PoolEntry, VoteKey};
use alpenglow_formal::timeout::{TimeoutAction, TimeoutModel, TimeoutState};

#[test]
fn test_timeout_state_creation() {
    let state = TimeoutState::new(3);
    assert_eq!(state.validators.len(), 3);
    assert_eq!(state.current_slot, 0);
    assert!(state.network.is_empty());
}

#[test]
fn test_skip_certificate_formation() {
    let mut state = TimeoutState::new(3);
    // Three of three validators cast skip votes: 100% of the stake.
    state.validators[0].vote_pool.push(PoolEntry {
        key: VoteKey { slot: 1, hash: None },
        voters: 0b111,
    });
    assert!(state.can_form_skip_certificate(1));
}

#[test]
fn test_badwindow_flag_logic() {
    let mut state = TimeoutState::new(3);
    state.skip_certificates.push(1);
    state.validators[0].bad_window = true;
    assert!(state.validators[0].bad_window);
}

#[test]
fn timeouts_produce_a_skip_certificate() {
    // Each validator times out on slot 1, casts a skip vote, and the skip
    // votes delivered to one validator form a skip certificate there and
    // raise its bad-window flag.
    let model = TimeoutModel { validator_count: 3, max_slot: 2 };
    let mut state = TimeoutState::new(3);
    for v in 0..3usize {
        state = model
            .next_state(&state, TimeoutAction::TriggerTimeout { slot: 1, validator: v })
            .unwrap();
    }
    // Deliver every message, timeout events first, then the skip votes.
    while !state.network.is_empty() {
        let envelope = state.network[0];
        state = model.next_state(&state, TimeoutAction::DeliverMessage { msg: envelope }).unwrap();
    }
    assert!(state.skip_certificates.contains(&1));
    assert!(state.validators.iter().any(|v| v.bad_window));
    assert!(state.can_form_skip_certificate(1));
    assert!(!state.can_form_block_certificate(1, 77));
}

#[test]
fn proposal_leads_to_block_votes() {
    let model = TimeoutModel { validator_count: 3, max_slot: 2 };
    let mut state = TimeoutState::new(3);
    state = model
        .next_state(&state, TimeoutAction::ProposeBlock { slot: 1, proposer: 0 })
        .unwrap();
    assert_eq!(state.block_proposals.len(), 1);
    assert_eq!(state.block_proposals[0].hash, 1000);
    while !state.network.is_empty() {
        let envelope = state.network[0];
        state = model.next_state(&state, TimeoutAction::DeliverMessage { msg: envelope }).unwrap();
    }
    // Validators 1 and 2 voted for the proposal; their votes reached
    // everyone, 666 of 1000 stake, enough for a block certificate.
    assert!(state.can_form_block_certificate(1, 1000));
}
