use alpenglow_formal::certificate::{PoolEntry, VoteKey};
use alpenglow_formal::modelling::liveness::{LivenessModel, LivenessState, SlotTime};
use alpenglow_formal::modelling::resilience::ResilienceState;
use alpenglow_formal::modelling::safety::SafetyState;

#[test]
fn test_liveness_state_creation() {
    let state = LivenessState::new(3, 2);
    assert_eq!(state.validators.len(), 3);
    assert_eq!(state.validators[0].is_responsive, true);
    assert_eq!(state.validators[2].is_responsive, false);
}

#[test]
fn test_notarization_threshold() {
    let mut state = LivenessState::new(3, 3);
    state.validators[0].vote_pool.push(PoolEntry {
        key: VoteKey { slot: 1, hash: Some(100) },
        voters: 0b111,
    });
    assert!(state.can_notarize(1, 100));
}

#[test]
fn test_fast_finalization_threshold() {
    let mut state = LivenessState::new(3, 3);
    state.validators[0].vote_pool.push(PoolEntry {
        key: VoteKey { slot: 1, hash: Some(100) },
        voters: 0b111,
    });
    assert!(state.can_fast_finalize(1, 100));
}

#[test]
fn test_resilience_state_creation() {
    let state = ResilienceState::new(3, 1);
    assert_eq!(state.validators[0].is_byzantine, true);
    assert_eq!(state.validators[2].is_byzantine, false);
    assert_eq!(state.validators.len(), 3);
}

#[test]
fn resilience_test_certification_threshold() {
    let mut state = ResilienceState::new(3, 0);
    state.validators[0].vote_pool.push(PoolEntry {
        key: VoteKey { slot: 1, hash: Some(100) },
        voters: 0b111,
    });
    assert!(state.can_certify(1, 100));
}

#[test]
fn test_partition_criticality() {
    let state = ResilienceState::new(3, 0);
    // Validators zero and one together hold 666 of 1000 stake, above 60%.
    assert!(state.is_partition_critical(0b11));
}

#[test]
fn test_safety_state_creation() {
    let state = SafetyState::new(3, 1);
    assert_eq!(state.validators.len(), 3);
    assert_eq!(state.validators[0].is_byzantine, true);
    assert_eq!(state.validators[2].is_byzantine, false);
}

#[test]
fn test_certification_threshold() {
    let mut state = SafetyState::new(3, 0);
    state.validators[0].vote_pool.push(PoolEntry {
        key: VoteKey { slot: 1, hash: Some(100) },
        voters: 0b111,
    });
    assert!(state.can_certify(1, 100));
}

#[test]
fn test_chain_consistency() {
    let state = SafetyState::new(3, 0);
    assert!(state.check_chain_consistency());
}

#[test]
fn partition_blocks_and_healing_restores_certification() {
    // A partition splitting the stake half and half leaves each side with
    // 500 of 1000 eligible stake, below the 600 threshold, so no
    // certificate can form; after healing the same votes certify.
    let mut state = ResilienceState::new(10, 0);
    for v in 0..5usize {
        state.validators[v].is_partitioned = true;
    }
    state.validators[5].vote_pool.push(PoolEntry {
        key: VoteKey { slot: 1, hash: Some(42) },
        voters: 0b11_1111_1111,
    });
    // Both views of the split fall short: the connected half counts only
    // its own 500 stake, and the cut-off half counts nothing at all.
    let probe = state.validators[5].clone();
    state.validators[0].vote_pool = probe.vote_pool.clone();
    assert!(!state.can_certify(1, 42));
    for v in 0..5usize {
        state.validators[v].is_partitioned = false;
        state.validators[5 + v].is_partitioned = true;
    }
    assert!(!state.can_certify(1, 42));
    for v in 0..10usize {
        state.validators[v].is_partitioned = false;
    }
    assert!(state.can_certify(1, 42));
}

#[test]
fn bounded_finalization_rounds_are_one_or_two() {
    let model = LivenessModel { validator_count: 4, max_slot: 3, responsive_count: 4 };
    let mut state = LivenessState::new(4, 4);
    state.finalization_times.push(SlotTime { slot: 1, rounds: 1 });
    state.finalization_times.push(SlotTime { slot: 2, rounds: 2 });
    assert!(model.bounded_finalization(&state));
    state.finalization_times.push(SlotTime { slot: 3, rounds: 3 });
    assert!(!model.bounded_finalization(&state));
}
