//! Typed per-field event synchronization between a state-owning host and its observers.
//!
//! Each field of a state object gets a unique event name and a handle identifier; the host
//! turns field values into emissions, observers route incoming emissions to their active
//! subscriptions, and a registry answers initial-value queries directly.
pub mod naming;
pub mod field;
pub mod state;
pub mod registry;
pub mod listen;
