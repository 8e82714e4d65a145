//! The executable contract of store adapters.
//!
//! Each check is a script of questions for a store, each with the answers that keep the contract.
//! A check is a function of the answers so far: it says what to ask next, or that the store
//! passed, or which answer broke the contract. Whoever drives a check performs what it asks for
//! and hands the answers back.

pub mod ask;
pub mod atomic;
pub mod boundary;
pub mod lifecycle;
pub mod linearizability;
pub mod reply;
pub mod row;
pub mod script;
pub mod sequence;
pub mod snapshot;
pub mod want;
