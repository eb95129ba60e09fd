//! Model-checking library for a dual-path BFT consensus protocol.
//!
//! The crate models the protocol as a family of explicit-state transition
//! systems: each module defines a state type, the actions enabled in a state,
//! a deterministic transition function, and the safety/liveness predicates
//! that are expected to hold of every reachable state.  The `search` module
//! drives an exhaustive, deduplicating exploration of the reachable states
//! and a seeded bounded simulation.

pub mod certificate;
pub mod leader;
pub mod mask;
pub mod modelling;
pub mod rotor;
pub mod search;
pub mod stake;
pub mod timeout;
pub mod util;
pub mod votor;
