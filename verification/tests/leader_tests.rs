use alpenglow_formal::leader::{LeaderState, SlotActor, LEADER_WINDOW_SIZE};

#[test]
fn test_leader_state_creation() {
    let state = LeaderState::new(3);
    assert_eq!(state.validators.len(), 3);
    assert_eq!(state.current_slot, 0);
    assert!(state.network.is_empty());
}

#[test]
fn test_leader_selection() {
    let state = LeaderState::new(3);
    let leader = state.get_leader_for_slot(1);
    assert!(leader < 3);
}

#[test]
fn test_window_management() {
    let state = LeaderState::new(3);
    assert!(state.is_within_window(5, 5));
    assert!(!state.is_within_window(15, 5));
}

#[test]
fn leader_selection_is_deterministic() {
    let state = LeaderState::new(5);
    for slot in 0..20u64 {
        assert_eq!(state.get_leader_for_slot(slot), state.get_leader_for_slot(slot));
    }
}

#[test]
fn bad_window_spans_exactly_the_window() {
    // A skip certificate at slot 2 raises the flag for the slots 2..7 and
    // the flag falls of itself at slot 2 + LEADER_WINDOW_SIZE.
    assert_eq!(LEADER_WINDOW_SIZE, 5);
    let mut state = LeaderState::new(3);
    state.validators[0].skip_certificates.push(SlotActor { slot: 2, actor: 1 });
    for current in 0..10u64 {
        for v in state.validators.iter_mut() {
            v.current_slot = current;
        }
        state.update_badwindow_flags();
        let expected = 2 <= current && current < 2 + LEADER_WINDOW_SIZE;
        assert_eq!(state.validators[0].bad_window, expected, "current slot {}", current);
        assert!(!state.validators[1].bad_window);
    }
}
