//! Exhaustive search driver over the certificate model.
//!
//! The driver explores the reachable states depth-first from the initial
//! state, deduplicating visited states, evaluating every property on every
//! newly visited state, and collecting the violations.  Its result is proved
//! equal to a mathematical function of the configuration and the resource
//! bounds alone, so two runs on the same configuration always return the
//! same report; exploration cut short by a bound is reported as incomplete,
//! never as verified.

use crate::certificate::{
    cert_actions, cert_init, cert_inv, cert_step, cert_violations, deliver_actions,
    equiv_actions_advs, equiv_actions_slots, lemma_cert_init_inv, lemma_cert_step_inv,
    notar_actions_hashes, notar_actions_slots, notar_actions_voters, skip_actions_slots,
    skip_actions_voters, wf_action, wf_model, wf_state, CertRecord, CertificateAction,
    CertificateModel, CertificateProperty, CertificateState, CertificateStateV, MessageInTransit,
    PoolEntry, ValidatorState, VoteKey,
};
use vstd::prelude::*;

verus! {

/// A validated model configuration.
#[derive(Clone, Copy, Debug, PartialEq, Eq, Hash, Structural)]
pub struct ModelConfig {
    pub validator_count: usize,
    pub byzantine_count: usize,
    pub max_slot: u64,
}

/// Why a configuration was rejected.
#[derive(Clone, Copy, Debug, PartialEq, Eq, Hash, Structural)]
pub enum ConfigError {
    /// There must be at least one validator.
    NoValidators,
    /// At most 64 validators fit the model's voter masks.
    TooManyValidators,
    /// Byzantine validators cannot outnumber the validators.
    TooManyByzantine,
    /// The slot bound must keep the derived block hashes within `u64`.
    MaxSlotTooLarge,
}

/// Whether a configuration is acceptable.
pub open spec fn config_ok(validator_count: usize, byzantine_count: usize, max_slot: u64) -> bool {
    &&& 1 <= validator_count <= 64
    &&& byzantine_count <= validator_count
    &&& max_slot <= 1000000
}

/// The certificate model a configuration describes.
pub open spec fn spec_model_of(c: ModelConfig) -> CertificateModel {
    CertificateModel {
        validator_count: c.validator_count,
        max_slot: c.max_slot,
        adversary_count: c.byzantine_count,
    }
}

/// Validate a configuration.  Counts are never silently clamped: any bound
/// violation is an error, reported in a fixed order of precedence.
pub fn configure(validator_count: usize, byzantine_or_offline_count: usize, max_slot: u64) -> (r:
    Result<ModelConfig, ConfigError>)
    ensures
        match r {
            Ok(c) => config_ok(validator_count, byzantine_or_offline_count, max_slot) && c == (
            ModelConfig {
                validator_count,
                byzantine_count: byzantine_or_offline_count,
                max_slot,
            }),
            Err(e) => !config_ok(validator_count, byzantine_or_offline_count, max_slot) && e == (
            if validator_count == 0 {
                ConfigError::NoValidators
            } else if validator_count > 64 {
                ConfigError::TooManyValidators
            } else if byzantine_or_offline_count > validator_count {
                ConfigError::TooManyByzantine
            } else {
                ConfigError::MaxSlotTooLarge
            }),
        },
{
    if validator_count == 0 {
        Err(ConfigError::NoValidators)
    } else if validator_count > 64 {
        Err(ConfigError::TooManyValidators)
    } else if byzantine_or_offline_count > validator_count {
        Err(ConfigError::TooManyByzantine)
    } else if max_slot > 1000000 {
        Err(ConfigError::MaxSlotTooLarge)
    } else {
        Ok(ModelConfig { validator_count, byzantine_count: byzantine_or_offline_count, max_slot })
    }
}

/// The outcome of an exhaustive search.
#[derive(Clone, Debug, PartialEq, Eq, Hash)]
pub struct VerificationReport {
    /// Number of distinct states visited.
    pub states_explored: u64,
    /// Number of transitions taken (saturating).
    pub transitions_explored: u64,
    /// Properties found violated, one entry per violation per state.
    pub violations: Vec<CertificateProperty>,
    /// Whether the whole reachable space was covered within the bounds.
    pub complete: bool,
}

/// Mathematical view of a report.
#[verifier::ext_equal]
pub struct VerificationReportV {
    pub states_explored: u64,
    pub transitions_explored: u64,
    pub violations: Seq<CertificateProperty>,
    pub complete: bool,
}

impl View for VerificationReport {
    type V = VerificationReportV;

    open spec fn view(&self) -> VerificationReportV {
        VerificationReportV {
            states_explored: self.states_explored,
            transitions_explored: self.transitions_explored,
            violations: self.violations@,
            complete: self.complete,
        }
    }
}

/// Views of a vector of states.
pub open spec fn state_views(ss: Seq<CertificateState>) -> Seq<CertificateStateV> {
    ss.map_values(|x: CertificateState| x@)
}

/// Push the successors of `s` under `acts` onto the stack, counting the
/// transitions taken (saturating).
pub open spec fn expand_spec(
    m: CertificateModel,
    s: CertificateStateV,
    acts: Seq<CertificateAction>,
    stack: Seq<CertificateStateV>,
    transitions: u64,
) -> (Seq<CertificateStateV>, u64)
    decreases acts.len(),
{
    if acts.len() == 0 {
        (stack, transitions)
    } else {
        let prefix = expand_spec(m, s, acts.drop_last(), stack, transitions);
        match cert_step(m, s, acts.last()) {
            Some(s2) => (
                prefix.0.push(s2),
                if prefix.1 < u64::MAX {
                    (prefix.1 + 1) as u64
                } else {
                    prefix.1
                },
            ),
            None => prefix,
        }
    }
}

/// One fuel unit per loop iteration: pop a state; skip it if already
/// visited, otherwise record it, evaluate the properties, and push its
/// successors.
pub open spec fn search_spec(
    m: CertificateModel,
    stack: Seq<CertificateStateV>,
    visited: Seq<CertificateStateV>,
    transitions: u64,
    violations: Seq<CertificateProperty>,
    max_states: u64,
    fuel: nat,
) -> VerificationReportV
    decreases fuel,
{
    if stack.len() == 0 {
        VerificationReportV {
            states_explored: visited.len() as u64,
            transitions_explored: transitions,
            violations,
            complete: true,
        }
    } else if fuel == 0 || visited.len() as u64 >= max_states {
        VerificationReportV {
            states_explored: visited.len() as u64,
            transitions_explored: transitions,
            violations,
            complete: false,
        }
    } else {
        let s = stack.last();
        let stack1 = stack.drop_last();
        if visited.contains(s) {
            search_spec(m, stack1, visited, transitions, violations, max_states, (fuel - 1) as nat)
        } else {
            let expanded = expand_spec(m, s, cert_actions(m, s), stack1, transitions);
            search_spec(
                m,
                expanded.0,
                visited.push(s),
                expanded.1,
                violations + cert_violations(s),
                max_states,
                (fuel - 1) as nat,
            )
        }
    }
}

/// The report of the whole search for a configuration and resource bounds.
pub open spec fn exhaustive_spec(m: CertificateModel, max_states: u64, max_steps: u64) -> VerificationReportV {
    search_spec(
        m,
        seq![cert_init(m.validator_count as int, m.adversary_count as int)],
        Seq::empty(),
        0,
        Seq::empty(),
        max_states,
        max_steps as nat,
    )
}

/// Determinism of the search: the report of `run_exhaustive` is a function
/// of the configuration and the bounds alone, so two runs with the same
/// arguments return identical state counts, transition counts and violation
/// lists, however the work is scheduled.
pub proof fn lemma_run_exhaustive_deterministic(
    m: CertificateModel,
    max_states: u64,
    max_steps: u64,
    r1: VerificationReportV,
    r2: VerificationReportV,
)
    requires
        r1 == exhaustive_spec(m, max_states, max_steps),
        r2 == exhaustive_spec(m, max_states, max_steps),
    ensures
        r1 == r2,
{
}

/// Run the seeded bounded simulation for a configuration: the validators
/// beyond the byzantine-or-offline count of the configuration are the
/// responsive ones.  See `modelling::liveness::run_bounded_simulation`.
pub fn run_bounded_simulation(config: &ModelConfig, seed: u64, max_ticks: u64) -> (r:
    crate::modelling::liveness::SimulationOutcome)
    requires
        config_ok(config.validator_count, config.byzantine_count, config.max_slot),
    ensures
        r == crate::modelling::liveness::sim_spec(
            (crate::modelling::liveness::LivenessModel {
                validator_count: config.validator_count,
                max_slot: config.max_slot,
                responsive_count: (config.validator_count - config.byzantine_count) as usize,
            }),
            crate::modelling::liveness::lv_init(
                config.validator_count as int,
                config.validator_count - config.byzantine_count,
            ),
            seed,
            max_ticks as nat,
            0,
        ),
{
    let model = crate::modelling::liveness::LivenessModel {
        validator_count: config.validator_count,
        max_slot: config.max_slot,
        responsive_count: config.validator_count - config.byzantine_count,
    };
    crate::modelling::liveness::run_bounded_simulation(&model, seed, max_ticks)
}

// ------------------------------------------------------------------
// Generated actions are well-formed
// ------------------------------------------------------------------

proof fn lemma_notar_voters_wf(m: CertificateModel, s: CertificateStateV, slot: u64, hash: u64, k: int)
    requires
        k <= m.validator_count,
    ensures
        forall|i: int|
            0 <= i < notar_actions_voters(s, slot, hash, k).len() ==> wf_action(
                m,
                #[trigger] notar_actions_voters(s, slot, hash, k)[i],
            ),
    decreases k,
{
    if k > 0 {
        lemma_notar_voters_wf(m, s, slot, hash, k - 1);
        let r = notar_actions_voters(s, slot, hash, k);
        let prev = notar_actions_voters(s, slot, hash, k - 1);
        assert forall|i: int| 0 <= i < r.len() implies wf_action(m, #[trigger] r[i]) by {
            if i < prev.len() {
                assert(r[i] == prev[i]);
                assert(wf_action(m, prev[i]));
            } else {
                assert(r[i] == (CertificateAction::CastNotarVote {
                    slot,
                    hash,
                    voter: (k - 1) as usize,
                }));
            }
        }
    }
}

proof fn lemma_notar_hashes_wf(m: CertificateModel, s: CertificateStateV, slot: u64, h: int, n: int)
    requires
        n <= m.validator_count,
    ensures
        forall|i: int|
            0 <= i < notar_actions_hashes(s, slot, h, n).len() ==> wf_action(
                m,
                #[trigger] notar_actions_hashes(s, slot, h, n)[i],
            ),
    decreases h,
{
    if h > 0 {
        lemma_notar_hashes_wf(m, s, slot, h - 1, n);
        lemma_notar_voters_wf(m, s, slot, h as u64, n);
        let r = notar_actions_hashes(s, slot, h, n);
        let prev = notar_actions_hashes(s, slot, h - 1, n);
        let tail = notar_actions_voters(s, slot, h as u64, n);
        assert forall|i: int| 0 <= i < r.len() implies wf_action(m, #[trigger] r[i]) by {
            if i < prev.len() {
                assert(r[i] == prev[i]);
                assert(wf_action(m, prev[i]));
            } else {
                assert(r[i] == tail[i - prev.len()]);
                assert(wf_action(m, tail[i - prev.len()]));
            }
        }
    }
}

proof fn lemma_notar_slots_wf(m: CertificateModel, s: CertificateStateV, sl: int, n: int)
    requires
        n <= m.validator_count,
    ensures
        forall|i: int|
            0 <= i < notar_actions_slots(s, sl, n).len() ==> wf_action(
                m,
                #[trigger] notar_actions_slots(s, sl, n)[i],
            ),
    decreases sl,
{
    if sl > 0 {
        lemma_notar_slots_wf(m, s, sl - 1, n);
        lemma_notar_hashes_wf(m, s, sl as u64, 3, n);
        let r = notar_actions_slots(s, sl, n);
        let prev = notar_actions_slots(s, sl - 1, n);
        let tail = notar_actions_hashes(s, sl as u64, 3, n);
        assert forall|i: int| 0 <= i < r.len() implies wf_action(m, #[trigger] r[i]) by {
            if i < prev.len() {
                assert(r[i] == prev[i]);
                assert(wf_action(m, prev[i]));
            } else {
                assert(r[i] == tail[i - prev.len()]);
                assert(wf_action(m, tail[i - prev.len()]));
            }
        }
    }
}

proof fn lemma_skip_voters_wf(m: CertificateModel, s: CertificateStateV, slot: u64, k: int)
    requires
        k <= m.validator_count,
    ensures
        forall|i: int|
            0 <= i < skip_actions_voters(s, slot, k).len() ==> wf_action(
                m,
                #[trigger] skip_actions_voters(s, slot, k)[i],
            ),
    decreases k,
{
    if k > 0 {
        lemma_skip_voters_wf(m, s, slot, k - 1);
        let r = skip_actions_voters(s, slot, k);
        let prev = skip_actions_voters(s, slot, k - 1);
        assert forall|i: int| 0 <= i < r.len() implies wf_action(m, #[trigger] r[i]) by {
            if i < prev.len() {
                assert(r[i] == prev[i]);
                assert(wf_action(m, prev[i]));
            } else {
                assert(r[i] == (CertificateAction::CastSkipVote { slot, voter: (k - 1) as usize }));
            }
        }
    }
}

proof fn lemma_skip_slots_wf(m: CertificateModel, s: CertificateStateV, sl: int, n: int)
    requires
        n <= m.validator_count,
    ensures
        forall|i: int|
            0 <= i < skip_actions_slots(s, sl, n).len() ==> wf_action(
                m,
                #[trigger] skip_actions_slots(s, sl, n)[i],
            ),
    decreases sl,
{
    if sl > 0 {
        lemma_skip_slots_wf(m, s, sl - 1, n);
        lemma_skip_voters_wf(m, s, sl as u64, n);
        let r = skip_actions_slots(s, sl, n);
        let prev = skip_actions_slots(s, sl - 1, n);
        let tail = skip_actions_voters(s, sl as u64, n);
        assert forall|i: int| 0 <= i < r.len() implies wf_action(m, #[trigger] r[i]) by {
            if i < prev.len() {
                assert(r[i] == prev[i]);
                assert(wf_action(m, prev[i]));
            } else {
                assert(r[i] == tail[i - prev.len()]);
                assert(wf_action(m, tail[i - prev.len()]));
            }
        }
    }
}

proof fn lemma_equiv_advs_wf(m: CertificateModel, slot: u64, k: int)
    requires
        k <= m.adversary_count,
        m.adversary_count <= m.validator_count,
    ensures
        forall|i: int|
            0 <= i < equiv_actions_advs(slot, k).len() ==> wf_action(
                m,
                #[trigger] equiv_actions_advs(slot, k)[i],
            ),
    decreases k,
{
    if k > 0 {
        lemma_equiv_advs_wf(m, slot, k - 1);
        let r = equiv_actions_advs(slot, k);
        let prev = equiv_actions_advs(slot, k - 1);
        assert forall|i: int| 0 <= i < r.len() implies wf_action(m, #[trigger] r[i]) by {
            if i < prev.len() {
                assert(r[i] == prev[i]);
                assert(wf_action(m, prev[i]));
            } else {
                assert(r[i] == (CertificateAction::AdversaryEquivocate {
                    slot,
                    hash1: (slot * 1000 + 1) as u64,
                    hash2: (slot * 1000 + 2) as u64,
                    adversary: (k - 1) as usize,
                }));
            }
        }
    }
}

proof fn lemma_equiv_slots_wf(m: CertificateModel, sl: int)
    requires
        m.adversary_count <= m.validator_count,
    ensures
        forall|i: int|
            0 <= i < equiv_actions_slots(m, sl).len() ==> wf_action(
                m,
                #[trigger] equiv_actions_slots(m, sl)[i],
            ),
    decreases sl,
{
    if sl > 0 {
        lemma_equiv_slots_wf(m, sl - 1);
        lemma_equiv_advs_wf(m, sl as u64, m.adversary_count as int);
        let r = equiv_actions_slots(m, sl);
        let prev = equiv_actions_slots(m, sl - 1);
        let tail = equiv_actions_advs(sl as u64, m.adversary_count as int);
        assert forall|i: int| 0 <= i < r.len() implies wf_action(m, #[trigger] r[i]) by {
            if i < prev.len() {
                assert(r[i] == prev[i]);
                assert(wf_action(m, prev[i]));
            } else {
                assert(r[i] == tail[i - prev.len()]);
                assert(wf_action(m, tail[i - prev.len()]));
            }
        }
    }
}

/// Every generated action is well-formed for the model.
pub proof fn lemma_cert_actions_wf(m: CertificateModel, s: CertificateStateV)
    requires
        wf_model(m),
        wf_state(m, s),
    ensures
        forall|i: int|
            0 <= i < cert_actions(m, s).len() ==> wf_action(m, #[trigger] cert_actions(m, s)[i]),
{
    let n = m.validator_count as int;
    lemma_notar_slots_wf(m, s, m.max_slot as int, n);
    lemma_skip_slots_wf(m, s, m.max_slot as int, n);
    lemma_equiv_slots_wf(m, m.max_slot as int);
    assert forall|i: int| 0 <= i < cert_actions(m, s).len() implies wf_action(
        m,
        #[trigger] cert_actions(m, s)[i],
    ) by {
        let d = deliver_actions(s.network);
        let na = notar_actions_slots(s, m.max_slot as int, n);
        let sa = skip_actions_slots(s, m.max_slot as int, n);
        let ea = equiv_actions_slots(m, m.max_slot as int);
        if i < d.len() {
            assert(cert_actions(m, s)[i] == d[i]);
            assert(s.network.contains(s.network[i]));
        } else if i < d.len() + na.len() {
            assert(cert_actions(m, s)[i] == na[i - d.len()]);
        } else if i < d.len() + na.len() + sa.len() {
            assert(cert_actions(m, s)[i] == sa[i - d.len() - na.len()]);
        } else {
            assert(cert_actions(m, s)[i] == ea[i - d.len() - na.len() - sa.len()]);
        }
    }
}

// ------------------------------------------------------------------
// Structural equality of states
// ------------------------------------------------------------------

fn eq_msgs(a: &Vec<MessageInTransit>, b: &Vec<MessageInTransit>) -> (r: bool)
    ensures
        r == (a@ == b@),
{
    if a.len() != b.len() {
        return false;
    }
    let mut i: usize = 0;
    while i < a.len()
        invariant
            i <= a@.len(),
            a@.len() == b@.len(),
            forall|j: int| 0 <= j < i ==> a@[j] == b@[j],
        decreases a@.len() - i,
    {
        if a[i] != b[i] {
            return false;
        }
        i = i + 1;
    }
    proof {
        assert(a@ =~= b@);
    }
    true
}

fn eq_keys(a: &Vec<VoteKey>, b: &Vec<VoteKey>) -> (r: bool)
    ensures
        r == (a@ == b@),
{
    if a.len() != b.len() {
        return false;
    }
    let mut i: usize = 0;
    while i < a.len()
        invariant
            i <= a@.len(),
            a@.len() == b@.len(),
            forall|j: int| 0 <= j < i ==> a@[j] == b@[j],
        decreases a@.len() - i,
    {
        if a[i] != b[i] {
            return false;
        }
        i = i + 1;
    }
    proof {
        assert(a@ =~= b@);
    }
    true
}

fn eq_pool(a: &Vec<PoolEntry>, b: &Vec<PoolEntry>) -> (r: bool)
    ensures
        r == (a@ == b@),
{
    if a.len() != b.len() {
        return false;
    }
    let mut i: usize = 0;
    while i < a.len()
        invariant
            i <= a@.len(),
            a@.len() == b@.len(),
            forall|j: int| 0 <= j < i ==> a@[j] == b@[j],
        decreases a@.len() - i,
    {
        if a[i] != b[i] {
            return false;
        }
        i = i + 1;
    }
    proof {
        assert(a@ =~= b@);
    }
    true
}

fn eq_certs(a: &Vec<CertRecord>, b: &Vec<CertRecord>) -> (r: bool)
    ensures
        r == (a@ == b@),
{
    if a.len() != b.len() {
        return false;
    }
    let mut i: usize = 0;
    while i < a.len()
        invariant
            i <= a@.len(),
            a@.len() == b@.len(),
            forall|j: int| 0 <= j < i ==> a@[j] == b@[j],
        decreases a@.len() - i,
    {
        if a[i] != b[i] {
            return false;
        }
        i = i + 1;
    }
    proof {
        assert(a@ =~= b@);
    }
    true
}

fn eq_stakes(a: &Vec<u64>, b: &Vec<u64>) -> (r: bool)
    ensures
        r == (a@ == b@),
{
    if a.len() != b.len() {
        return false;
    }
    let mut i: usize = 0;
    while i < a.len()
        invariant
            i <= a@.len(),
            a@.len() == b@.len(),
            forall|j: int| 0 <= j < i ==> a@[j] == b@[j],
        decreases a@.len() - i,
    {
        if a[i] != b[i] {
            return false;
        }
        i = i + 1;
    }
    proof {
        assert(a@ =~= b@);
    }
    true
}

fn eq_validator(a: &ValidatorState, b: &ValidatorState) -> (r: bool)
    ensures
        r == (a@ == b@),
{
    let r = eq_keys(&a.votes_cast, &b.votes_cast) && eq_pool(&a.vote_pool, &b.vote_pool)
        && eq_keys(&a.certificates, &b.certificates) && a.is_adversary == b.is_adversary
        && a.stake == b.stake;
    proof {
        if r {
            assert(a@ =~= b@);
        }
    }
    r
}

/// Structural equality of two world states, at the level of their views.
pub fn state_eq(a: &CertificateState, b: &CertificateState) -> (r: bool)
    ensures
        r == (a@ == b@),
{
    if !eq_msgs(&a.network, &b.network) {
        return false;
    }
    if !eq_certs(&a.global_certificates, &b.global_certificates) {
        return false;
    }
    if !eq_stakes(&a.stake_distribution, &b.stake_distribution) {
        return false;
    }
    if a.validators.len() != b.validators.len() {
        proof {
            assert(a@.validators.len() != b@.validators.len());
        }
        return false;
    }
    let mut i: usize = 0;
    while i < a.validators.len()
        invariant
            i <= a.validators@.len(),
            a.validators@.len() == b.validators@.len(),
            a@.network == b@.network,
            a@.global_certificates == b@.global_certificates,
            a@.stake_distribution == b@.stake_distribution,
            forall|j: int| 0 <= j < i ==> a@.validators[j] == b@.validators[j],
        decreases a.validators@.len() - i,
    {
        if !eq_validator(&a.validators[i], &b.validators[i]) {
            proof {
                assert(a@.validators[i as int] != b@.validators[i as int]);
            }
            return false;
        }
        i = i + 1;
    }
    proof {
        assert(a@.validators =~= b@.validators);
        assert(a@ =~= b@);
    }
    true
}

fn states_contain(list: &Vec<CertificateState>, s: &CertificateState) -> (r: bool)
    ensures
        r == state_views(list@).contains(s@),
{
    let mut i: usize = 0;
    while i < list.len()
        invariant
            i <= list@.len(),
            forall|j: int| 0 <= j < i ==> state_views(list@)[j] != s@,
        decreases list@.len() - i,
    {
        if state_eq(&list[i], s) {
            proof {
                assert(state_views(list@)[i as int] == s@);
            }
            return true;
        }
        i = i + 1;
    }
    proof {
        if state_views(list@).contains(s@) {
            let j = choose|j: int|
                0 <= j < state_views(list@).len() && state_views(list@)[j] == s@;
            assert(false);
        }
    }
    false
}

// ------------------------------------------------------------------
// The driver
// ------------------------------------------------------------------

/// Explore the certificate model exhaustively, depth first, from its single
/// initial state, visiting at most `max_states` distinct states and taking
/// at most `max_steps` scheduling steps.  The report counts the distinct
/// states and transitions explored and lists every property violation
/// found; `complete` is `false` whenever a bound cut the search short, so
/// partial coverage is never mistaken for verification.
#[verifier::rlimit(100)]
pub fn run_exhaustive(config: &ModelConfig, max_states: u64, max_steps: u64) -> (r:
    VerificationReport)
    requires
        config_ok(config.validator_count, config.byzantine_count, config.max_slot),
    ensures
        r@ == exhaustive_spec(spec_model_of(*config), max_states, max_steps),
{
    let model = CertificateModel {
        validator_count: config.validator_count,
        max_slot: config.max_slot,
        adversary_count: config.byzantine_count,
    };
    let ghost m = model;
    let ghost target = exhaustive_spec(m, max_states, max_steps);
    proof {
        assert(m == spec_model_of(*config));
        lemma_cert_init_inv(m);
    }
    let mut stack: Vec<CertificateState> = model.init_states();
    let mut visited: Vec<CertificateState> = Vec::new();
    let mut transitions: u64 = 0;
    let mut violations: Vec<CertificateProperty> = Vec::new();
    let mut fuel_left: u64 = max_steps;
    proof {
        assert(state_views(stack@) =~= seq![
            cert_init(m.validator_count as int, m.adversary_count as int),
        ]);
        assert(state_views(visited@) =~= Seq::<CertificateStateV>::empty());
        assert(violations@ =~= Seq::<CertificateProperty>::empty());
    }
    loop
        invariant
            wf_model(m),
            model == m,
            m == spec_model_of(*config),
            target == exhaustive_spec(m, max_states, max_steps),
            search_spec(
                m,
                state_views(stack@),
                state_views(visited@),
                transitions,
                violations@,
                max_states,
                fuel_left as nat,
            ) == target,
            forall|j: int| 0 <= j < stack@.len() ==> cert_inv(m, #[trigger] stack@[j]@),
        decreases fuel_left,
    {
        if stack.len() == 0 {
            let r = VerificationReport {
                states_explored: visited.len() as u64,
                transitions_explored: transitions,
                violations,
                complete: true,
            };
            proof {
                assert(r@ =~= target);
            }
            return r;
        }
        if fuel_left == 0 || visited.len() as u64 >= max_states {
            let r = VerificationReport {
                states_explored: visited.len() as u64,
                transitions_explored: transitions,
                violations,
                complete: false,
            };
            proof {
                assert(r@ =~= target);
            }
            return r;
        }
        fuel_left = fuel_left - 1;
        let ghost stack_pre = state_views(stack@);
        let s = match stack.pop() {
            Some(s) => s,
            None => {
                proof {
                    assert(false);
                }
                unreached()
            },
        };
        proof {
            assert(s@ == stack_pre.last());
            assert(state_views(stack@) =~= stack_pre.drop_last());
        }
        if states_contain(&visited, &s) {
            continue ;
        }
        let ghost visited_pre = state_views(visited@);
        let ghost violations_pre = violations@;
        let sd = s.duplicate();
        visited.push(sd);
        proof {
            assert(state_views(visited@) =~= visited_pre.push(s@));
        }
        let mut new_violations = model.check_properties(&s);
        violations.append(&mut new_violations);
        proof {
            assert(violations@ == violations_pre + cert_violations(s@));
        }
        let mut acts: Vec<CertificateAction> = Vec::new();
        model.actions(&s, &mut acts);
        proof {
            assert(acts@ =~= cert_actions(m, s@));
            lemma_cert_actions_wf(m, s@);
        }
        let ghost stack_base = state_views(stack@);
        let ghost trans_base = transitions;
        let mut i: usize = 0;
        while i < acts.len()
            invariant
                i <= acts@.len(),
                wf_model(m),
                model == m,
                acts@ == cert_actions(m, s@),
                cert_inv(m, s@),
                forall|j: int| 0 <= j < acts@.len() ==> wf_action(m, #[trigger] acts@[j]),
                (state_views(stack@), transitions) == expand_spec(
                    m,
                    s@,
                    acts@.subrange(0, i as int),
                    stack_base,
                    trans_base,
                ),
                forall|j: int| 0 <= j < stack@.len() ==> cert_inv(m, #[trigger] stack@[j]@),
            decreases acts@.len() - i,
        {
            let ghost prefix = acts@.subrange(0, i as int);
            let ghost prefix1 = acts@.subrange(0, i as int + 1);
            proof {
                assert(prefix1.drop_last() =~= prefix);
                assert(prefix1.last() == acts@[i as int]);
            }
            match model.next_state(&s, acts[i]) {
                Some(s2) => {
                    proof {
                        lemma_cert_step_inv(m, s@, acts@[i as int], s2@);
                    }
                    if transitions < u64::MAX {
                        transitions = transitions + 1;
                    }
                    let ghost stack_mid = state_views(stack@);
                    stack.push(s2);
                    proof {
                        assert(state_views(stack@) =~= stack_mid.push(s2@));
                    }
                },
                None => {},
            }
            i = i + 1;
        }
        proof {
            assert(acts@.subrange(0, acts@.len() as int) =~= acts@);
        }
    }
}

} // verus!
