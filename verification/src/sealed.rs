//! Keeps selected traits closed to this crate's own types.

use vstd::prelude::*;

verus! {

/// Implemented for the types that a sealed trait covers, and for no others.
pub trait Sealed {

}

} // verus!
