//! Declarations of what the string types use from the `bytes` and `simdutf8`
//! crates and from parts of std that vstd leaves unspecified.

use vstd::prelude::*;
use vstd::string::*;
use vstd::utf8::*;
use std::sync::Arc;
use bytes::{Bytes, BytesMut};
use simdutf8::basic::Utf8Error;

verus! {

#[verifier::external_type_specification]
#[verifier::external_body]
pub struct ExBytes(Bytes);

#[verifier::external_type_specification]
#[verifier::external_body]
pub struct ExBytesMut(BytesMut);

#[verifier::external_type_specification]
#[verifier::external_body]
pub struct ExUtf8Error(Utf8Error);

/// The bytes that a `Bytes` handle shows.
pub uninterp spec fn bytes_content(b: Bytes) -> Seq<u8>;

/// The bytes that a `BytesMut` buffer holds.
pub uninterp spec fn bytes_mut_content(b: BytesMut) -> Seq<u8>;

/// Relies on `simdutf8::basic::from_utf8`: `Ok` exactly when the input is valid
/// UTF-8, and then a `str` over the same bytes.
pub assume_specification<'a>[ simdutf8::basic::from_utf8 ](input: &'a [u8]) -> (r: Result<
    &'a str,
    Utf8Error,
>)
    ensures
        r is Ok <==> valid_utf8(input@),
        r matches Ok(s) ==> s.spec_bytes() == input@,
;

/// Relies on `Bytes::len`: the number of bytes the handle shows.
pub assume_specification[ Bytes::len ](b: &Bytes) -> (r: usize)
    ensures
        r as int == bytes_content(*b).len(),
;

/// Relies on `Bytes::new`: an empty handle.
pub assume_specification[ Bytes::new ]() -> (r: Bytes)
    ensures
        bytes_content(r) == Seq::<u8>::empty(),
;

/// Relies on `Bytes::copy_from_slice`: a new buffer holding a copy of `data`.
pub assume_specification[ Bytes::copy_from_slice ](data: &[u8]) -> (r: Bytes)
    ensures
        bytes_content(r) == data@,
;

/// Relies on `Bytes::from_static`: a handle over the static bytes, no copy.
pub assume_specification[ Bytes::from_static ](data: &'static [u8]) -> (r: Bytes)
    ensures
        bytes_content(r) == data@,
;

/// Relies on `BytesMut::freeze`: an immutable handle over the same bytes.
pub assume_specification[ BytesMut::freeze ](b: BytesMut) -> (r: Bytes)
    ensures
        bytes_content(r) == bytes_mut_content(b),
;

/// Relies on `Bytes::slice`: a handle over `[start, end)` of the same storage.
/// It panics unless `start <= end <= len`.
#[verifier::external_body]
pub(crate) fn bytes_slice(b: &Bytes, start: usize, end: usize) -> (r: Bytes)
    requires
        start <= end <= bytes_content(*b).len(),
    ensures
        bytes_content(r) == bytes_content(*b).subrange(start as int, end as int),
{
    b.slice(start..end)
}

/// Relies on `Bytes`'s `AsRef<[u8]>`: the shown bytes as a slice.
#[verifier::external_body]
pub(crate) fn bytes_as_slice(b: &Bytes) -> (r: &[u8])
    ensures
        r@ == bytes_content(*b),
{
    b.as_ref()
}

/// Relies on `Bytes`'s `From<Vec<u8>>`: takes over the vector's storage.
#[verifier::external_body]
pub(crate) fn bytes_from_vec(v: Vec<u8>) -> (r: Bytes)
    ensures
        bytes_content(r) == v@,
{
    Bytes::from(v)
}

/// Relies on `Vec<u8>`'s `From<Bytes>`: the shown bytes as an owned vector.
#[verifier::external_body]
pub(crate) fn vec_from_bytes(b: Bytes) -> (r: Vec<u8>)
    ensures
        r@ == bytes_content(b),
{
    Vec::from(b)
}

/// Relies on `Arc::try_unwrap`: the inner value when this is the only handle,
/// else the handle back.
#[verifier::external_body]
pub(crate) fn arc_string_try_unwrap(a: Arc<String>) -> (r: Result<String, Arc<String>>)
    ensures
        match r {
            Ok(s) => s@ == a@,
            Err(e) => e == a,
        },
{
    Arc::try_unwrap(a)
}

/// Relies on `Arc::unwrap_or_clone`: the inner value, moved out when this is the
/// only handle and cloned otherwise.
#[verifier::external_body]
pub(crate) fn arc_bytes_unwrap_or_clone(a: Arc<Bytes>) -> (r: Bytes)
    ensures
        bytes_content(r) == bytes_content(*a),
{
    Arc::unwrap_or_clone(a)
}

/// Relies on `str`'s `Hash`: feeds the text to the hasher; nothing is promised
/// of the hasher's state.
pub assume_specification<H: std::hash::Hasher>[ <str as std::hash::Hash>::hash::<H> ](
    s: &str,
    state: &mut H,
);

/// Relies on `String::into_bytes`: the string's UTF-8 bytes, no copy.
pub assume_specification[ String::into_bytes ](s: String) -> (r: Vec<u8>)
    ensures
        r@ == encode_utf8(s@),
;

} // verus!
