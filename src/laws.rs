//! Laws that relate several operations of the string types.

use vstd::prelude::*;
use vstd::string::*;
use vstd::utf8::*;
use bytes::Bytes;

use crate::outside::bytes_content;
use crate::{FastStr, StorageKind};

verus! {

broadcast use encode_utf8_decode_utf8;

/// Text given to `new` reads back unchanged through `as_str`, and `len` is its
/// length in bytes.
pub proof fn law_new_reads_back(text: &str, s: FastStr, read: &str, n: usize)
    requires
        call_ensures(FastStr::new, (text,), s),
        call_ensures(FastStr::as_str, (&s,), read),
        call_ensures(FastStr::len, (&s,), n),
    ensures
        read@ == text@,
        read.spec_bytes() == text.spec_bytes(),
        n == text.spec_bytes().len(),
{
}

/// Bytes wrapped by `from_bytes_unchecked` read back exactly, both borrowed
/// through `as_bytes` and given back through `into_bytes`.
pub proof fn law_bytes_round_trip(b: Bytes, s: FastStr, read: &[u8], back: Bytes)
    requires
        valid_utf8(bytes_content(b)),
        call_ensures(FastStr::from_bytes_unchecked, (b,), s),
        call_ensures(FastStr::as_bytes, (&s,), read),
        call_ensures(FastStr::into_bytes, (s,), back),
    ensures
        read@ == bytes_content(b),
        bytes_content(back) == bytes_content(b),
{
}

/// The slice `[i, j)` of a string reads as the bytes `i..j` of its text, and a
/// non-empty slice of shared bytes is a view of the same owner.
pub proof fn law_slice_reads_back(s: FastStr, i: usize, j: usize, sub: FastStr, read: &str)
    requires
        i <= j <= s@.len(),
        valid_utf8(s@.subrange(i as int, j as int)),
        call_ensures(FastStr::slice_ref, (&s, i, j), sub),
        call_ensures(FastStr::as_str, (&sub,), read),
    ensures
        read.spec_bytes() == s@.subrange(i as int, j as int),
        sub@.len() == j - i,
        i < j && s.kind() == StorageKind::SharedBytes ==> sub.owner() == s.owner(),
{
}

/// A clone has the same text and the same storage as the value it was taken
/// from; shared bytes stay with the same owner, uncopied.
pub proof fn law_clone_keeps_storage(s: FastStr, c: FastStr)
    requires
        call_ensures(FastStr::clone, (&s,), c),
    ensures
        c@ == s@,
        c.kind() == s.kind(),
        c.owner() == s.owner(),
{
}

} // verus!
