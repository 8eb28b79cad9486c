//! Coordinator for a multi-party cryptographic setup ceremony.
//!
//! A large parameter artifact is partitioned into independently
//! contributable chunks; an ordered sequence of untrusted participants
//! each perform one transformation step per chunk, and every step is
//! checked by a verifier before the next may begin.  This crate holds
//! the coordinator's state machine — participant admission and queueing,
//! exclusive chunk locking, task assignment, the contribution upload and
//! verification lifecycle, and round advancement — together with the
//! authenticated-request checks that let a stateless participant prove
//! identity and message integrity on every call.

mod errors;
pub mod auth;
pub mod coordinator;
pub mod digests;
pub mod initialization;
pub mod keys;
pub mod objects;
pub mod params;
pub mod requests;
pub mod registry;
pub mod storage;

pub use errors::CoordinatorError;
pub use errors::ErrorKind;
pub use objects::Participant;
pub use objects::Task;
