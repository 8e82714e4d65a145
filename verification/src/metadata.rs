//! Metadata that is attached to events as they are written.

use crate::value::Metadata;
use crate::version::Version;
use bytes::Bytes;
use vstd::prelude::*;

verus! {

/// Produces metadata for events of type `E`, once per event, after encoding.
pub trait MetadataProvider<E> {
    /// Whether the provider can be asked.
    open spec fn serves(&self, version: Version, event: &E, payload: &Bytes) -> bool {
        arbitrary()
    }

    /// The metadata for `event`, which gets `version` and is stored as `payload`.
    fn metadata(&self, version: Version, event: &E, payload: &Bytes) -> (r: Option<Metadata>)
        requires
            self.serves(version, event, payload),
    ;
}

/// No metadata for any event.
impl<E> MetadataProvider<E> for () {
    open spec fn serves(&self, version: Version, event: &E, payload: &Bytes) -> bool {
        true
    }

    fn metadata(&self, _version: Version, _event: &E, _payload: &Bytes) -> (r: Option<Metadata>)
        ensures
            r is None,
    {
        None
    }
}

/// A closure is a provider.
impl<E, F: Fn(Version, &E, &Bytes) -> Option<Metadata>> MetadataProvider<E> for F {
    open spec fn serves(&self, version: Version, event: &E, payload: &Bytes) -> bool {
        call_requires(*self, (version, event, payload))
    }

    fn metadata(&self, version: Version, event: &E, payload: &Bytes) -> (r: Option<Metadata>)
        ensures
            call_ensures(*self, (version, event, payload), r),
    {
        self(version, event, payload)
    }
}

} // verus!
