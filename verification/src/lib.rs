//! A verified claim registry: a proof-of-existence state machine.
//!
//! An actor registers ownership of an opaque byte string (a claim) at a
//! given block height, may later transfer that ownership to another actor,
//! and may revoke the registration.  The registry is the sole persistent
//! state; every operation either applies its full effect and reports an
//! event, or changes nothing and reports a typed error.

pub mod laws;
pub mod model;
pub mod registry;

pub use model::{ClaimRecord, Error, Event};
pub use registry::{Config, Pallet};
