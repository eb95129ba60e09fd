//! The safety, liveness and resilience sub-models.

pub mod liveness;
pub mod resilience;
pub mod safety;
