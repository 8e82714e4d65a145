//! How typed values become bytes and back. Each consumer brings its own codec.

use crate::envelope::PersistedEnvelope;
use bytes::Bytes;
use vstd::prelude::*;

verus! {

/// Turns a value into bytes.
pub trait Encode<T> {
    /// Why a value cannot be encoded.
    type Error;

    /// The bytes of `value`.
    fn encode(&self, value: &T) -> Result<Bytes, Self::Error>;
}

/// Turns an envelope's payload into a value.
pub trait Decode<T> {
    /// What a payload is decoded to: an owned value, or a window into the envelope that lives no
    /// longer than the envelope.
    type Output<'a> where Self: 'a;

    /// Why a payload cannot be decoded.
    type Error;

    /// The value in `env`.
    fn decode<'a>(&'a self, env: &'a PersistedEnvelope) -> Result<Self::Output<'a>, Self::Error>;
}

/// A codec that decodes to owned values, which outlive the envelope.
pub trait OwningCodec<T>: 'static + for<'a> Decode<T, Output<'a> = T> {

}

impl<T, C: 'static + for<'a> Decode<T, Output<'a> = T>> OwningCodec<T> for C {

}

} // verus!
