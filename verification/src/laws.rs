//! What holds across several calls, stated over the models that the functions' contracts use, or
//! over the calls themselves: what they are given, what they answer, and what later calls say.

pub mod append;
pub mod backup;
pub mod checks;
pub mod command;
pub mod conformance;
pub mod decoded;
pub mod import;
pub mod live;
pub mod memory;
pub mod projection;
pub mod registry;
pub mod samples;
pub mod snapshot;
pub mod subscription;
pub mod values;
pub mod verdict;
pub mod wake;
