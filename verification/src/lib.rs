//! Event sourcing with a proved append, read, import and wake protocol.
//!
//! [`log`] is the model that everything else is stated over: one log of all events, in position
//! order, of which a stream is the part under one key. [`store`] states what an adapter owes to it,
//! [`test_support`] and [`snapshots`] are adapters in memory, and [`conformance`] holds the checks
//! that any adapter has to pass. [`import`], [`subscription`], [`projection`] and [`execute`] are
//! built on top. What holds across several of these is proved in [`laws`].
//!
//! The specification functions of a trait that users implement have a default which says nothing,
//! so that ordinary Rust can implement the trait by its executable methods; a proof function, such as
//! that of [`store::RawEventStore`], has an empty body there.

pub mod channel;
pub mod codec;
pub mod conflict;
pub mod conformance;
pub mod decoded;
pub mod domain;
pub mod envelope;
pub mod error;
pub mod execute;
pub mod id;
pub mod import;
pub mod laws;
pub mod log;
pub mod metadata;
pub mod notifiers;
pub mod octets;
pub mod projection;
mod sealed;
pub mod snapshots;
pub mod state;
pub mod step;
pub mod store;
pub mod stream_key;
pub mod subscription;
pub mod test_support;
pub mod value;
pub mod version;
pub mod wake;
