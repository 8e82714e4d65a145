//! Stream identity.

use crate::octets::{copied, same_octets};
use vstd::prelude::*;

verus! {

/// The raw bytes that name a stream. Any bytes are a key, the empty ones too.
#[derive(Debug, PartialEq, Eq, PartialOrd, Ord, Hash)]
pub struct StreamKey {
    bytes: Vec<u8>,
}

impl View for StreamKey {
    type V = Seq<u8>;

    closed spec fn view(&self) -> Seq<u8> {
        self.bytes@
    }
}

impl Clone for StreamKey {
    fn clone(&self) -> (r: StreamKey)
        ensures
            r@ == self@,
    {
        StreamKey { bytes: copied(self.bytes.as_slice()) }
    }
}

impl StreamKey {
    /// The key that carries a copy of `bytes`.
    pub fn from_slice(bytes: &[u8]) -> (r: StreamKey)
        ensures
            r@ == bytes@,
    {
        StreamKey { bytes: copied(bytes) }
    }

    /// The key's bytes.
    pub fn as_bytes(&self) -> (r: &[u8])
        ensures
            r@ == self@,
    {
        self.bytes.as_slice()
    }

    /// Whether two keys name the same stream.
    pub fn same(&self, other: &StreamKey) -> (r: bool)
        ensures
            r == (self@ == other@),
    {
        same_octets(self.bytes.as_slice(), other.bytes.as_slice())
    }
}

} // verus!
