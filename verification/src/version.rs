//! Per-stream versions.

use vstd::prelude::*;

verus! {

/// The version of one event within its stream: a nonzero `u64`, counted from 1.
#[derive(Clone, Copy, Debug, PartialEq, Eq, PartialOrd, Ord, Hash, Structural)]
pub struct Version {
    value: u64,
}

impl View for Version {
    type V = nat;

    closed spec fn view(&self) -> nat {
        self.value as nat
    }
}

/// The version numbered `n`.
pub closed spec fn version_at(n: nat) -> Version {
    Version { value: n as u64 }
}

/// The head of a stream that holds `n` events: `None` for a fresh stream.
pub open spec fn head_at(n: nat) -> Option<Version> {
    if n == 0 {
        None
    } else {
        Some(version_at(n))
    }
}

/// `version_at` and the view are inverse to each other.
pub broadcast proof fn version_at_view(n: nat)
    requires
        n <= u64::MAX,
    ensures
        (#[trigger] version_at(n))@ == n,
{
}

/// A version is determined by its number.
pub broadcast proof fn version_of_view(v: Version)
    ensures
        #[trigger] v@ <= u64::MAX,
        version_at(v@) == v,
{
}

pub broadcast group group_version {
    version_at_view,
    version_of_view,
}

impl Version {
    #[verifier::type_invariant]
    pub closed spec fn nonzero(&self) -> bool {
        self.value > 0
    }

    /// The version of a stream's first event.
    pub fn initial() -> (r: Version)
        ensures
            r@ == 1,
            r == version_at(1),
    {
        Version { value: 1 }
    }

    /// The version numbered `value`; `None` for zero.
    pub fn new(value: u64) -> (r: Option<Version>)
        ensures
            r == head_at(value as nat),
            r matches Some(v) ==> v@ == value,
    {
        if value == 0 {
            None
        } else {
            Some(Version { value })
        }
    }

    /// The version's number.
    pub fn as_u64(self) -> (r: u64)
        ensures
            r == self@,
            r > 0,
    {
        proof {
            use_type_invariant(&self);
        }
        self.value
    }

    /// The successor; `None` when the number would pass `u64::MAX`.
    pub fn next(self) -> (r: Option<Version>)
        ensures
            self@ == u64::MAX ==> r is None,
            self@ < u64::MAX ==> r == Some(version_at(self@ + 1)),
            r matches Some(v) ==> v@ == self@ + 1,
    {
        if self.value == u64::MAX {
            None
        } else {
            Some(Version { value: self.value + 1 })
        }
    }
}

/// The version that comes behind the head `head`, the first one where there is none yet; `None`
/// past `u64::MAX`.
pub open spec fn version_behind(head: Option<Version>) -> Option<Version> {
    match head {
        None => Some(version_at(1)),
        Some(version) => if version@ == u64::MAX {
            None
        } else {
            Some(version_at(version@ + 1))
        },
    }
}

} // verus!
