//! Byte buffers: the shared `Bytes` buffer and plain slices.

use bytes::Bytes;
use vstd::prelude::*;
use vstd::string::*;
use vstd::utf8::*;

verus! {

/// The cheaply shared byte buffer of the `bytes` crate.
#[verifier::external_type_specification]
#[verifier::external_body]
pub struct ExBytes(bytes::Bytes);

/// The bytes that a buffer holds.
pub uninterp spec fn octets(buffer: Bytes) -> Seq<u8>;

/// The bytes of an optional buffer.
pub open spec fn optional_octets(buffer: Option<Bytes>) -> Option<Seq<u8>> {
    match buffer {
        Some(b) => Some(octets(b)),
        None => None,
    }
}

/// `Bytes::copy_from_slice`: a new buffer that holds a copy of `data`.
#[verifier::external_body]
pub(crate) fn copy_octets(data: &[u8]) -> (r: Bytes)
    ensures
        octets(r) == data@,
{
    Bytes::copy_from_slice(data)
}

/// `<Bytes as From<Vec<u8>>>::from`: a buffer that takes over the vector's bytes.
#[verifier::external_body]
pub(crate) fn take_octets(data: Vec<u8>) -> (r: Bytes)
    ensures
        octets(r) == data@,
{
    Bytes::from(data)
}

/// `<Bytes as Clone>::clone`: another handle to the same bytes.
#[verifier::external_body]
pub(crate) fn share_octets(buffer: &Bytes) -> (r: Bytes)
    ensures
        octets(r) == octets(*buffer),
{
    buffer.clone()
}

/// `<Bytes as AsRef<[u8]>>::as_ref`: the buffer's bytes as a slice.
#[verifier::external_body]
pub(crate) fn as_octets(buffer: &Bytes) -> (r: &[u8])
    ensures
        r@ == octets(*buffer),
{
    buffer.as_ref()
}

/// `String::from_utf8`: the text that `bytes` encode, if they are valid UTF-8.
#[verifier::external_body]
pub(crate) fn text_of(bytes: Vec<u8>) -> (r: Option<String>)
    ensures
        r is Some <==> valid_utf8(bytes@),
        r matches Some(text) ==> encode_utf8(text@) == bytes@,
{
    String::from_utf8(bytes).ok()
}

/// Whether two slices hold the same bytes.
pub fn same_octets(a: &[u8], b: &[u8]) -> (r: bool)
    ensures
        r == (a@ == b@),
{
    if a.len() != b.len() {
        return false;
    }
    let mut i: usize = 0;
    while i < a.len()
        invariant
            0 <= i <= a.len(),
            a.len() == b.len(),
            forall|j: int| 0 <= j < i ==> a@[j] == b@[j],
        decreases a.len() - i,
    {
        if a[i] != b[i] {
            return false;
        }
        i = i + 1;
    }
    assert(a@ =~= b@);
    true
}

/// Whether two texts are the same.
pub fn same_text(a: &str, b: &str) -> (r: bool)
    ensures
        r == (a@ == b@),
{
    proof {
        encode_utf8_decode_utf8(a@);
        encode_utf8_decode_utf8(b@);
    }
    same_octets(a.as_bytes(), b.as_bytes())
}

/// A copy of a slice.
pub fn copied(data: &[u8]) -> (r: Vec<u8>)
    ensures
        r@ == data@,
{
    let mut out: Vec<u8> = Vec::with_capacity(data.len());
    let mut i: usize = 0;
    while i < data.len()
        invariant
            0 <= i <= data.len(),
            out@ == data@.take(i as int),
        decreases data.len() - i,
    {
        out.push(data[i]);
        assert(data@.take(i as int).push(data@[i as int]) =~= data@.take(i + 1));
        i = i + 1;
    }
    assert(data@.take(data.len() as int) =~= data@);
    out
}

/// The decimal digits of `n` in ASCII, without leading zeros.
pub open spec fn decimal_octets(n: nat) -> Seq<u8>
    decreases n,
{
    if n < 10 {
        seq![(48 + n) as u8]
    } else {
        decimal_octets(n / 10).push((48 + n % 10) as u8)
    }
}

/// The decimal digits of `n` in ASCII, without leading zeros.
pub fn decimal(n: u64) -> (r: Vec<u8>)
    ensures
        r@ == decimal_octets(n as nat),
    decreases n,
{
    if n < 10 {
        let mut out: Vec<u8> = Vec::new();
        out.push(48 + n as u8);
        assert(out@ =~= decimal_octets(n as nat));
        out
    } else {
        let mut out: Vec<u8> = decimal(n / 10);
        out.push(48 + (n % 10) as u8);
        out
    }
}

/// `prefix` with the decimal digits of `n` behind it.
pub fn numbered(prefix: &[u8], n: u64) -> (r: Vec<u8>)
    ensures
        r@ == prefix@ + decimal_octets(n as nat),
{
    let mut out: Vec<u8> = copied(prefix);
    let mut digits: Vec<u8> = decimal(n);
    out.append(&mut digits);
    out
}

proof fn decimal_is_ascii(n: nat)
    ensures
        forall|i: int| 0 <= i < decimal_octets(n).len() ==> (#[trigger] decimal_octets(n)[i]) < 128,
    decreases n,
{
    let digits = decimal_octets(n);
    if n >= 10 {
        decimal_is_ascii(n / 10);
        let rest = decimal_octets(n / 10);
        assert forall|i: int| 0 <= i < digits.len() implies (#[trigger] digits[i]) < 128 by {
            if i < rest.len() {
                assert(digits[i] == rest[i]);
            }
        }
    } else {
        assert(digits[0] < 128);
    }
}

proof fn ascii_is_text(bytes: Seq<u8>)
    requires
        forall|i: int| 0 <= i < bytes.len() ==> (#[trigger] bytes[i]) < 128,
    ensures
        valid_utf8(bytes),
{
    let chars = Seq::new(bytes.len(), |i: int| bytes[i] as char);
    assert(is_ascii_chars(chars));
    is_ascii_chars_encode_utf8(chars);
    assert forall|i: int| 0 <= i < bytes.len() implies encode_utf8(chars)[i] == bytes[i] by {
        assert(chars[i] as u8 == encode_utf8(chars)[i]);
        assert(chars[i] == bytes[i] as char);
    }
    assert(encode_utf8(chars) =~= bytes);
    encode_utf8_valid_utf8(chars);
}

/// `prefix`, which is ASCII, with the decimal digits of `n` behind it, as text.
pub fn numbered_text(prefix: &[u8], n: u64) -> (r: String)
    requires
        forall|i: int| 0 <= i < prefix@.len() ==> (#[trigger] prefix@[i]) < 128,
    ensures
        encode_utf8(r@) == prefix@ + decimal_octets(n as nat),
{
    let bytes: Vec<u8> = numbered(prefix, n);
    proof {
        decimal_is_ascii(n as nat);
        ascii_is_text(bytes@);
    }
    match text_of(bytes) {
        Some(text) => text,
        None => {
            assert(false);
            String::new()
        },
    }
}

} // verus!
