use alpenglow_formal::certificate::{
    CertificateAction, CertificateModel, CertificateState, PoolEntry, VoteKey,
};

#[test]
fn test_certificate_state_creation() {
    let state = CertificateState::new(3, 1);
    assert_eq!(state.validators.len(), 3);
    assert!(state.validators[0].is_adversary);
    assert!(!state.validators[1].is_adversary);
}

#[test]
fn test_certificate_formation() {
    let mut state = CertificateState::new(3, 0);
    // Three of three validators vote: 100% of the stake, above 60%.
    state.validators[0].vote_pool.push(PoolEntry {
        key: VoteKey { slot: 1, hash: Some(100) },
        voters: 0b111,
    });
    assert!(state.can_form_certificate(1, Some(100)));
}

#[test]
fn test_adversary_equivocation() {
    let state = CertificateState::new(3, 1);
    assert!(state.validators[0].is_adversary);
    assert!(!state.validators[1].is_adversary);
}

#[test]
fn quorum_boundary_is_exact() {
    // A certificate with stake exactly at the threshold is accepted; one
    // stake unit below is rejected.
    let mut state = CertificateState::new(2, 0);
    state.stake_distribution = vec![599, 401];
    state.validators[0].vote_pool.push(PoolEntry {
        key: VoteKey { slot: 1, hash: Some(7) },
        voters: 0b01,
    });
    assert!(!state.can_form_certificate(1, Some(7)), "599 of 1000 is one unit short of 600");
    state.validators[0].vote_pool[0].voters = 0b11;
    assert!(state.can_form_certificate(1, Some(7)), "600 of 1000 meets the threshold exactly");
}

#[test]
fn honest_validator_votes_once_per_slot() {
    let model = CertificateModel { validator_count: 3, max_slot: 2, adversary_count: 0 };
    let state = CertificateState::new(3, 0);
    let s1 = model
        .next_state(&state, CertificateAction::CastNotarVote { slot: 1, hash: 1, voter: 0 })
        .unwrap();
    assert_eq!(s1.validators[0].votes_cast.len(), 1);
    // A second vote in the same slot, for another candidate, is refused.
    let s2 = model
        .next_state(&s1, CertificateAction::CastNotarVote { slot: 1, hash: 2, voter: 0 })
        .unwrap();
    assert_eq!(s2.validators[0].votes_cast.len(), 1);
    // A skip vote in the same slot is refused too.
    let s3 = model.next_state(&s2, CertificateAction::CastSkipVote { slot: 1, voter: 0 }).unwrap();
    assert_eq!(s3.validators[0].votes_cast.len(), 1);
}

#[test]
fn delivery_consumes_the_envelope() {
    // First delivery removes the envelope; a second delivery of the same
    // envelope is a stale action with no successor.
    let model = CertificateModel { validator_count: 3, max_slot: 1, adversary_count: 0 };
    let state = CertificateState::new(3, 0);
    let s1 = model
        .next_state(&state, CertificateAction::CastNotarVote { slot: 1, hash: 1, voter: 0 })
        .unwrap();
    assert_eq!(s1.network.len(), 3);
    let envelope = s1.network[0];
    let s2 = model
        .next_state(&s1, CertificateAction::DeliverMessage { msg: envelope })
        .unwrap();
    assert_eq!(s2.network.len(), 2);
    assert!(model.next_state(&s2, CertificateAction::DeliverMessage { msg: envelope }).is_none());
}

#[test]
fn fresh_state_violates_nothing() {
    let model = CertificateModel { validator_count: 4, max_slot: 3, adversary_count: 1 };
    let state = CertificateState::new(4, 1);
    assert!(model.check_properties(&state).is_empty());
    assert!(model.certificate_uniqueness(&state));
    assert!(model.vote_uniqueness(&state));
    assert!(model.certificate_threshold(&state));
    assert!(model.adversary_equivocation_detection(&state));
}

#[test]
fn equivocation_is_recorded_but_cannot_certify_alone() {
    let model = CertificateModel { validator_count: 4, max_slot: 1, adversary_count: 1 };
    let state = CertificateState::new(4, 1);
    let s1 = model
        .next_state(
            &state,
            CertificateAction::AdversaryEquivocate { slot: 1, hash1: 1001, hash2: 1002, adversary: 0 },
        )
        .unwrap();
    // The adversary holds two votes for the slot; its 250 stake alone stays
    // far below the 600 threshold.
    assert_eq!(s1.validators[0].votes_cast.len(), 2);
    assert!(model.vote_uniqueness(&s1), "only honest validators are held to one vote per slot");
    let mut s = s1;
    while !s.network.is_empty() {
        let envelope = s.network[0];
        s = model.next_state(&s, CertificateAction::DeliverMessage { msg: envelope }).unwrap();
    }
    assert!(s.global_certificates.is_empty());
    assert!(model.check_properties(&s).is_empty());
}
