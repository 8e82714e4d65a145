//! What names a stream or a snapshot.

use vstd::prelude::*;

verus! {

/// An id with a text form.
pub trait Id {
    /// The id's text.
    open spec fn label(&self) -> Seq<char> {
        arbitrary()
    }

    /// The id's text.
    fn to_label(&self) -> (r: &str)
        ensures
            r@ == self.label(),
    ;
}

} // verus!
