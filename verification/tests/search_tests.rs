use alpenglow_formal::search::{configure, run_bounded_simulation, run_exhaustive, ConfigError};

#[test]
fn configure_validates_every_bound() {
    assert_eq!(configure(0, 0, 3).unwrap_err(), ConfigError::NoValidators);
    assert_eq!(configure(65, 0, 3).unwrap_err(), ConfigError::TooManyValidators);
    assert_eq!(configure(3, 4, 3).unwrap_err(), ConfigError::TooManyByzantine);
    assert_eq!(configure(3, 1, 2_000_000).unwrap_err(), ConfigError::MaxSlotTooLarge);
    let config = configure(4, 1, 3).unwrap();
    assert_eq!(config.validator_count, 4);
    assert_eq!(config.byzantine_count, 1);
    assert_eq!(config.max_slot, 3);
}

#[test]
fn exhaustive_search_is_deterministic() {
    // Two runs on the same configuration and bounds report identical
    // state counts, transition counts and violation lists.
    let config = configure(3, 1, 1).unwrap();
    let a = run_exhaustive(&config, 300, 300);
    let b = run_exhaustive(&config, 300, 300);
    assert_eq!(a.states_explored, b.states_explored);
    assert_eq!(a.transitions_explored, b.transitions_explored);
    assert_eq!(a.violations, b.violations);
    assert_eq!(a.complete, b.complete);
}

#[test]
fn tiny_space_is_covered_completely() {
    let config = configure(1, 0, 0).unwrap();
    let report = run_exhaustive(&config, 10, 10);
    assert!(report.complete);
    assert_eq!(report.states_explored, 1);
    assert_eq!(report.transitions_explored, 0);
    assert!(report.violations.is_empty());
}

#[test]
fn bounded_search_reports_incomplete_coverage() {
    // A bound that cuts the search short is reported as incomplete, never
    // as verified.
    let config = configure(4, 1, 3).unwrap();
    let report = run_exhaustive(&config, 40, 40);
    assert!(!report.complete);
    assert!(report.states_explored <= 40);
}

#[test]
fn byzantine_quarter_cannot_break_uniqueness() {
    // Four validators, one Byzantine holding a quarter of the stake,
    // three slots: no property violation appears anywhere the bounded
    // search reaches, equivocation included.
    let config = configure(4, 1, 3).unwrap();
    let report = run_exhaustive(&config, 150, 150);
    assert!(report.violations.is_empty());
    assert!(report.states_explored > 0);
}

#[test]
fn high_responsive_stake_finalizes_fast() {
    // Ten validators with one offline: 90% responsive stake finalizes in
    // one round within the simulation horizon.
    let config = configure(10, 1, 0).unwrap();
    let outcome = run_bounded_simulation(&config, 0, 2000);
    assert!(outcome.finalized);
    assert_eq!(outcome.finalization_round, Some(1));
}

#[test]
fn partial_responsive_stake_takes_the_slow_path() {
    // Ten validators with three offline: 70% responsive stake sits above
    // the slow-path threshold but below the fast-path one, so the slot
    // finalizes in exactly two rounds, never one.
    let config = configure(10, 3, 0).unwrap();
    let outcome = run_bounded_simulation(&config, 0, 2000);
    assert!(outcome.finalized);
    assert_eq!(outcome.finalization_round, Some(2));
}

#[test]
fn simulation_is_reproducible() {
    let config = configure(10, 3, 1).unwrap();
    let a = run_bounded_simulation(&config, 7, 1500);
    let b = run_bounded_simulation(&config, 7, 1500);
    assert_eq!(a, b);
}
