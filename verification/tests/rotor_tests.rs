use alpenglow_formal::mask::{mask_contains, mask_len};
use alpenglow_formal::rotor::{ReachRecord, RotorState, FANOUT_SIZE};

#[test]
fn test_rotor_state_creation() {
    let state = RotorState::new(3);
    assert_eq!(state.nodes.len(), 3);
    assert_eq!(state.current_slot, 0);
    assert!(state.network.is_empty());
}

#[test]
fn test_stake_weighted_sampling() {
    let state = RotorState::new(4);
    let selected = state.perform_stake_weighted_sampling(1, 0);
    assert!(mask_len(selected) <= FANOUT_SIZE);
    assert!(!mask_contains(selected, 0));
}

#[test]
fn test_fanout_achievement() {
    let mut state = RotorState::new(4);
    state.message_reach.push(ReachRecord { slot: 1, data_id: 100, nodes: 0b1111 });
    assert!(state.has_achieved_fanout(1, 100));
}

#[test]
fn sampling_is_reproducible() {
    let state = RotorState::new(5);
    for slot in 1..6u64 {
        for sampler in 0..5usize {
            let a = state.perform_stake_weighted_sampling(slot, sampler);
            let b = state.perform_stake_weighted_sampling(slot, sampler);
            assert_eq!(a, b);
            assert!(!mask_contains(a, sampler), "the sampler never selects itself");
            assert!(mask_len(a) <= FANOUT_SIZE);
            assert!(mask_len(a) > 0, "the fallback guarantees a non-empty sample");
        }
    }
}
