//! A string type that is cheap to clone: short text sits inline, static text is
//! borrowed for the whole process, and longer text lives in shared, reference
//! counted storage that clones and sub-slices without copying bytes.

use vstd::prelude::*;
use vstd::string::*;
use vstd::utf8::*;
use vstd::slice::*;
use std::cmp::Ordering;
use std::sync::Arc;
use bytes::{Bytes, BytesMut};
use simdutf8::basic::{from_utf8, Utf8Error};

pub mod outside;
pub mod bytes_ref;
pub mod text_build;
pub mod laws;

use crate::bytes_ref::BytesRef;

use crate::outside::{
    arc_string_try_unwrap,
    bytes_as_slice,
    bytes_content,
    bytes_from_vec,
    bytes_mut_content,
};

verus! {

broadcast use encode_utf8_valid_utf8, encode_utf8_decode_utf8, decode_utf8_encode_utf8;

/// The most bytes that a string keeps inline, without any allocation.
pub const INLINE_CAP: usize = 24;

/// The storage strategy that a `FastStr` uses.
#[derive(Clone, Copy, Debug, PartialEq, Eq, Structural)]
pub enum StorageKind {
    /// The canonical empty string.
    Empty,
    /// Bytes kept in a fixed buffer inside the value.
    Inline,
    /// Text that lives for the whole process.
    Static,
    /// A shared `Arc<str>`.
    ArcStr,
    /// A shared `Arc<String>` that had other holders when it was wrapped.
    ArcString,
    /// A view over reference counted bytes, shared by clones and slices.
    SharedBytes,
}

enum Repr {
    Empty,
    SharedBytes(BytesRef),
    ArcStr(Arc<str>),
    ArcString(Arc<String>),
    StaticStr(&'static str),
    Inline { len: usize, buf: [u8; INLINE_CAP] },
}

impl Repr {
    pub closed spec fn content(&self) -> Seq<u8> {
        match self {
            Repr::Empty => Seq::empty(),
            Repr::SharedBytes(b) => b@,
            Repr::ArcStr(s) => (**s).spec_bytes(),
            Repr::ArcString(s) => encode_utf8((**s)@),
            Repr::StaticStr(s) => s.spec_bytes(),
            Repr::Inline { len, buf } => buf@.subrange(0, *len as int),
        }
    }

    pub closed spec fn wf(&self) -> bool {
        match self {
            Repr::SharedBytes(b) => valid_utf8(b@),
            Repr::Inline { len, buf } => *len <= INLINE_CAP && valid_utf8(
                buf@.subrange(0, *len as int),
            ),
            _ => true,
        }
    }

    pub closed spec fn owner(&self) -> Option<Bytes> {
        match self {
            Repr::SharedBytes(b) => Some(b.owner()),
            _ => None,
        }
    }

    pub closed spec fn kind(&self) -> StorageKind {
        match self {
            Repr::Empty => StorageKind::Empty,
            Repr::SharedBytes(_) => StorageKind::SharedBytes,
            Repr::ArcStr(_) => StorageKind::ArcStr,
            Repr::ArcString(_) => StorageKind::ArcString,
            Repr::StaticStr(_) => StorageKind::Static,
            Repr::Inline { .. } => StorageKind::Inline,
        }
    }

    fn as_bytes(&self) -> (r: &[u8])
        requires
            self.wf(),
        ensures
            r@ == self.content(),
    {
        match self {
            Repr::Empty => &[],
            Repr::SharedBytes(b) => b.as_slice(),
            Repr::ArcStr(s) => s.as_bytes(),
            Repr::ArcString(s) => s.as_str().as_bytes(),
            Repr::StaticStr(s) => s.as_bytes(),
            Repr::Inline { len, buf } => slice_subrange(buf.as_slice(), 0, *len),
        }
    }
}

/// Copies `src[start..end]` to the front of a fresh inline buffer; the rest of
/// the buffer is zero.
fn inline_buf(src: &[u8], start: usize, end: usize) -> (r: [u8; INLINE_CAP])
    requires
        start <= end <= src@.len(),
        end - start <= INLINE_CAP,
    ensures
        r@.subrange(0, end - start) == src@.subrange(start as int, end as int),
{
    let mut buf = [0u8; INLINE_CAP];
    let n: usize = end - start;
    let mut i: usize = 0;
    while i < n
        invariant
            start <= end <= src@.len(),
            n == end - start <= INLINE_CAP,
            i <= n,
            buf@.len() == INLINE_CAP,
            forall|k: int| 0 <= k < i ==> buf@[k] == src@[start + k],
        decreases n - i,
    {
        buf[i] = src[start + i];
        i = i + 1;
    }
    assert(buf@.subrange(0, n as int) =~= src@.subrange(start as int, end as int));
    buf
}

impl Repr {
    /// Chooses the storage for text given by its bytes: empty, inline when it
    /// fits, else one copy into shared storage.
    fn new_bytes(v: &[u8]) -> (r: Repr)
        requires
            valid_utf8(v@),
        ensures
            r.wf(),
            r.content() == v@,
            r.kind() == if v@.len() == 0 {
                StorageKind::Empty
            } else if v@.len() <= INLINE_CAP {
                StorageKind::Inline
            } else {
                StorageKind::SharedBytes
            },
    {
        let n = v.len();
        if n == 0 {
            return Repr::Empty;
        }
        if n <= INLINE_CAP {
            let buf = inline_buf(v, 0, n);
            assert(v@.subrange(0, n as int) =~= v@);
            return Repr::Inline { len: n, buf };
        }
        Repr::SharedBytes(BytesRef::from_bytes(Bytes::copy_from_slice(v)))
    }

    fn len(&self) -> (r: usize)
        requires
            self.wf(),
        ensures
            r == self.content().len(),
    {
        match self {
            Repr::Inline { len, .. } => *len,
            Repr::SharedBytes(b) => b.len(),
            _ => self.as_bytes().len(),
        }
    }

    fn as_str(&self) -> (r: &str)
        requires
            self.wf(),
        ensures
            r.spec_bytes() == self.content(),
    {
        match self {
            Repr::ArcStr(s) => s,
            Repr::ArcString(s) => s.as_str(),
            Repr::StaticStr(s) => s,
            _ => {
                match from_utf8(self.as_bytes()) {
                    Ok(s) => s,
                    Err(_) => {
                        proof {
                            reveal_strlit("");
                        }
                        ""
                    },
                }
            },
        }
    }
}

impl Repr {
    /// The part `[start, end)` of the content, sharing storage where the
    /// variant allows it.
    fn slice_ref(&self, start: usize, end: usize) -> (r: Repr)
        requires
            self.wf(),
            start <= end <= self.content().len(),
            valid_utf8(self.content().subrange(start as int, end as int)),
        ensures
            r.wf(),
            r.content() == self.content().subrange(start as int, end as int),
            start == end ==> r.kind() == StorageKind::Empty,
            start < end ==> r.kind() == match self.kind() {
                StorageKind::Inline => StorageKind::Inline,
                StorageKind::Static => StorageKind::Static,
                _ => StorageKind::SharedBytes,
            },
            start < end && self.kind() == StorageKind::SharedBytes ==> r.owner() == self.owner(),
    {
        if start == end {
            return Repr::Empty;
        }
        match self {
            Repr::Empty => Repr::Empty,
            Repr::SharedBytes(b) => Repr::SharedBytes(b.slice_ref(start, end)),
            Repr::ArcStr(s) => Repr::SharedBytes(
                BytesRef::from_bytes(Bytes::copy_from_slice(slice_subrange(s.as_bytes(), start, end))),
            ),
            Repr::ArcString(s) => Repr::SharedBytes(
                BytesRef::from_bytes(
                    Bytes::copy_from_slice(slice_subrange(s.as_str().as_bytes(), start, end)),
                ),
            ),
            Repr::StaticStr(s) => Repr::StaticStr(static_substr(s, start, end)),
            Repr::Inline { len, buf } => {
                let new_buf = inline_buf(buf.as_slice(), start, end);
                proof {
                    assert(buf@.subrange(0, *len as int).subrange(start as int, end as int)
                        =~= buf@.subrange(start as int, end as int));
                }
                Repr::Inline { len: end - start, buf: new_buf }
            },
        }
    }

    /// The content as reference counted bytes; copies only where the variant
    /// does not already hold shareable storage.
    fn into_bytes(self) -> (r: Bytes)
        requires
            self.wf(),
        ensures
            bytes_content(r) == self.content(),
    {
        match self {
            Repr::Empty => Bytes::new(),
            Repr::SharedBytes(b) => b.into_bytes(),
            Repr::ArcStr(s) => bytes_from_vec(slice_to_vec(s.as_bytes())),
            Repr::ArcString(s) => match arc_string_try_unwrap(s) {
                Ok(owned) => bytes_from_vec(owned.into_bytes()),
                Err(shared) => bytes_from_vec(slice_to_vec(shared.as_str().as_bytes())),
            },
            Repr::StaticStr(s) => Bytes::from_static(s.as_bytes()),
            Repr::Inline { len, buf } => bytes_from_vec(
                slice_to_vec(slice_subrange(buf.as_slice(), 0, len)),
            ),
        }
    }

    /// The content as an owned `String`; moves the string out of a uniquely
    /// held `Arc<String>`, copies otherwise.
    fn into_string(self) -> (r: String)
        requires
            self.wf(),
        ensures
            encode_utf8(r@) == self.content(),
    {
        match self {
            Repr::Empty => String::new(),
            Repr::ArcString(s) => match arc_string_try_unwrap(s) {
                Ok(owned) => owned,
                Err(shared) => (*shared).clone(),
            },
            _ => self.as_str().to_owned(),
        }
    }
}

impl Clone for Repr {
    fn clone(&self) -> (r: Repr)
        ensures
            r.content() == self.content(),
            r.kind() == self.kind(),
            r.owner() == self.owner(),
            self.wf() ==> r.wf(),
    {
        match self {
            Repr::Empty => Repr::Empty,
            Repr::SharedBytes(b) => Repr::SharedBytes(b.clone()),
            Repr::ArcStr(s) => Repr::ArcStr(Arc::clone(s)),
            Repr::ArcString(s) => Repr::ArcString(Arc::clone(s)),
            Repr::StaticStr(s) => Repr::StaticStr(s),
            Repr::Inline { len, buf } => Repr::Inline { len: *len, buf: *buf },
        }
    }
}

/// The part `[start, end)` of a static string, itself static. Splitting at char
/// boundaries costs nothing; the validating path is taken only if a bound is not
/// one, which valid UTF-8 on both sides rules out in practice.
fn static_substr(s: &'static str, start: usize, end: usize) -> (r: &'static str)
    requires
        start <= end <= s.spec_bytes().len(),
        valid_utf8(s.spec_bytes().subrange(start as int, end as int)),
    ensures
        r.spec_bytes() == s.spec_bytes().subrange(start as int, end as int),
{
    if s.is_char_boundary(end) {
        let head = s.split_at(end).0;
        if head.is_char_boundary(start) {
            let r = head.split_at(start).1;
            assert(r.spec_bytes() =~= s.spec_bytes().subrange(start as int, end as int));
            return r;
        }
    }
    match from_utf8(slice_subrange(s.as_bytes(), start, end)) {
        Ok(r) => r,
        Err(_) => {
            proof {
                reveal_strlit("");
            }
            ""
        },
    }
}

/// A string that tries to avoid the cost of clone. Its content is always valid
/// UTF-8.
pub struct FastStr(Repr);

impl View for FastStr {
    type V = Seq<u8>;

    /// The UTF-8 bytes of the text.
    closed spec fn view(&self) -> Seq<u8> {
        self.0.content()
    }
}

impl FastStr {
    #[verifier::type_invariant]
    spec fn inv(self) -> bool {
        self.0.wf()
    }

    /// The storage strategy in use.
    pub closed spec fn kind(&self) -> StorageKind {
        self.0.kind()
    }

    /// For shared-bytes storage, the owner whose bytes the text is a view of.
    pub closed spec fn owner(&self) -> Option<Bytes> {
        self.0.owner()
    }

    /// Creates a `FastStr` holding a copy of `text`: empty, inline when it fits
    /// in `INLINE_CAP` bytes, else in newly allocated shared storage.
    pub fn new(text: &str) -> (r: FastStr)
        ensures
            r@ == text.spec_bytes(),
            r.kind() == if text.spec_bytes().len() == 0 {
                StorageKind::Empty
            } else if text.spec_bytes().len() <= INLINE_CAP {
                StorageKind::Inline
            } else {
                StorageKind::SharedBytes
            },
    {
        FastStr(Repr::new_bytes(text.as_bytes()))
    }

    /// Creates an inline `FastStr`; `s` must fit in `INLINE_CAP` bytes.
    pub fn new_inline(s: &str) -> (r: FastStr)
        requires
            s.spec_bytes().len() <= INLINE_CAP,
        ensures
            r@ == s.spec_bytes(),
            r.kind() == StorageKind::Inline,
    {
        let v = s.as_bytes();
        let buf = inline_buf(v, 0, v.len());
        assert(v@.subrange(0, v@.len() as int) =~= v@);
        FastStr(Repr::Inline { len: v.len(), buf })
    }

    /// Creates a `FastStr` from a copy of `v`, or fails if `v` is not valid UTF-8.
    pub fn new_u8_slice(v: &[u8]) -> (r: Result<FastStr, Utf8Error>)
        ensures
            r is Ok <==> valid_utf8(v@),
            r matches Ok(f) ==> f@ == v@,
    {
        match from_utf8(v) {
            Ok(_) => Ok(FastStr(Repr::new_bytes(v))),
            Err(e) => Err(e),
        }
    }

    /// Creates a `FastStr` from a copy of `v`, which the caller asserts is
    /// valid UTF-8; nothing is checked.
    pub fn new_u8_slice_unchecked(v: &[u8]) -> (r: FastStr)
        requires
            valid_utf8(v@),
        ensures
            r@ == v@,
    {
        FastStr(Repr::new_bytes(v))
    }

    /// The empty string.
    pub fn empty() -> (r: FastStr)
        ensures
            r@ == Seq::<u8>::empty(),
            r.kind() == StorageKind::Empty,
    {
        FastStr(Repr::Empty)
    }

    /// Wraps a shared `Arc<str>` without copying.
    pub fn from_arc_str(s: Arc<str>) -> (r: FastStr)
        ensures
            r@ == (*s).spec_bytes(),
            r.kind() == StorageKind::ArcStr,
    {
        FastStr(Repr::ArcStr(s))
    }

    /// Takes over the storage of a `String` without copying.
    pub fn from_string(s: String) -> (r: FastStr)
        ensures
            r@ == encode_utf8(s@),
            r.kind() == StorageKind::SharedBytes,
    {
        let v = s.into_bytes();
        FastStr(Repr::SharedBytes(BytesRef::from_bytes(bytes_from_vec(v))))
    }

    /// Wraps a shared `Arc<String>`; when it is the only handle, the string is
    /// moved out and stored as by `from_string`.
    pub fn from_arc_string(s: Arc<String>) -> (r: FastStr)
        ensures
            r@ == encode_utf8(s@),
            r.kind() == StorageKind::SharedBytes || r.kind() == StorageKind::ArcString,
    {
        match arc_string_try_unwrap(s) {
            Ok(owned) => FastStr::from_string(owned),
            Err(shared) => FastStr(Repr::ArcString(shared)),
        }
    }

    /// Wraps `b` without copying, or fails if its bytes are not valid UTF-8.
    pub fn from_bytes(b: Bytes) -> (r: Result<FastStr, Utf8Error>)
        ensures
            r is Ok <==> valid_utf8(bytes_content(b)),
            r matches Ok(f) ==> f@ == bytes_content(b) && f.kind() == StorageKind::SharedBytes
                && f.owner() == Some(b),
    {
        match from_utf8(bytes_as_slice(&b)) {
            Ok(_) => {},
            Err(e) => {
                return Err(e);
            },
        }
        Ok(FastStr::from_bytes_unchecked(b))
    }

    /// Wraps `b` without copying; the caller asserts that its bytes are valid
    /// UTF-8, and nothing is checked.
    pub fn from_bytes_unchecked(b: Bytes) -> (r: FastStr)
        requires
            valid_utf8(bytes_content(b)),
        ensures
            r@ == bytes_content(b),
            r.kind() == StorageKind::SharedBytes,
            r.owner() == Some(b),
    {
        FastStr(Repr::SharedBytes(BytesRef::from_bytes(b)))
    }

    /// Freezes and wraps `b`, or fails if its bytes are not valid UTF-8.
    pub fn from_bytes_mut(b: BytesMut) -> (r: Result<FastStr, Utf8Error>)
        ensures
            r is Ok <==> valid_utf8(bytes_mut_content(b)),
            r matches Ok(f) ==> f@ == bytes_mut_content(b) && f.kind()
                == StorageKind::SharedBytes,
    {
        FastStr::from_bytes(b.freeze())
    }

    /// Freezes and wraps `b`; the caller asserts that its bytes are valid UTF-8.
    pub fn from_bytes_mut_unchecked(b: BytesMut) -> (r: FastStr)
        requires
            valid_utf8(bytes_mut_content(b)),
        ensures
            r@ == bytes_mut_content(b),
            r.kind() == StorageKind::SharedBytes,
    {
        FastStr::from_bytes_unchecked(b.freeze())
    }

    /// Wraps text that lives for the whole process: no allocation, no count.
    pub fn from_static_str(s: &'static str) -> (r: FastStr)
        ensures
            r@ == s.spec_bytes(),
            r.kind() == StorageKind::Static,
    {
        FastStr(Repr::StaticStr(s))
    }

    /// Takes over the storage of `v`, or fails if it is not valid UTF-8.
    pub fn from_vec_u8(v: Vec<u8>) -> (r: Result<FastStr, Utf8Error>)
        ensures
            r is Ok <==> valid_utf8(v@),
            r matches Ok(f) ==> f@ == v@ && f.kind() == StorageKind::SharedBytes,
    {
        match from_utf8(v.as_slice()) {
            Ok(_) => {},
            Err(e) => {
                return Err(e);
            },
        }
        Ok(FastStr::from_vec_u8_unchecked(v))
    }

    /// Takes over the storage of `v`; the caller asserts that it is valid UTF-8.
    pub fn from_vec_u8_unchecked(v: Vec<u8>) -> (r: FastStr)
        requires
            valid_utf8(v@),
        ensures
            r@ == v@,
            r.kind() == StorageKind::SharedBytes,
    {
        FastStr::from_bytes_unchecked(bytes_from_vec(v))
    }

    /// Same as `new_u8_slice`.
    pub fn from_u8_slice(v: &[u8]) -> (r: Result<FastStr, Utf8Error>)
        ensures
            r is Ok <==> valid_utf8(v@),
            r matches Ok(f) ==> f@ == v@,
    {
        FastStr::new_u8_slice(v)
    }

    /// Same as `new_u8_slice_unchecked`.
    pub fn from_u8_slice_unchecked(v: &[u8]) -> (r: FastStr)
        requires
            valid_utf8(v@),
        ensures
            r@ == v@,
    {
        FastStr::new_u8_slice_unchecked(v)
    }
}

impl FastStr {
    /// The storage strategy in use.
    pub fn storage_kind(&self) -> (r: StorageKind)
        ensures
            r == self.kind(),
    {
        match &self.0 {
            Repr::Empty => StorageKind::Empty,
            Repr::SharedBytes(_) => StorageKind::SharedBytes,
            Repr::ArcStr(_) => StorageKind::ArcStr,
            Repr::ArcString(_) => StorageKind::ArcString,
            Repr::StaticStr(_) => StorageKind::Static,
            Repr::Inline { .. } => StorageKind::Inline,
        }
    }

    /// The text, borrowed. Inline and shared-bytes storage hold bytes, which are
    /// validated on the way to `&str`; the other kinds hold a `str` already.
    pub fn as_str(&self) -> (r: &str)
        ensures
            r.spec_bytes() == self@,
            r@ == decode_utf8(self@),
    {
        proof {
            use_type_invariant(self);
        }
        self.0.as_str()
    }

    /// The UTF-8 bytes of the text, borrowed.
    pub fn as_bytes(&self) -> (r: &[u8])
        ensures
            r@ == self@,
    {
        proof {
            use_type_invariant(self);
        }
        self.0.as_bytes()
    }

    /// The text as reference counted bytes; copies only where the storage is not
    /// already shareable.
    pub fn into_bytes(self) -> (r: Bytes)
        ensures
            bytes_content(r) == self@,
    {
        proof {
            use_type_invariant(&self);
        }
        self.0.into_bytes()
    }

    /// The length of the text in bytes.
    pub fn len(&self) -> (r: usize)
        ensures
            r == self@.len(),
    {
        proof {
            use_type_invariant(self);
        }
        self.0.len()
    }

    /// Whether the text is empty.
    pub fn is_empty(&self) -> (r: bool)
        ensures
            r == (self@.len() == 0),
    {
        self.len() == 0
    }

    /// The part of the text between byte offsets `start` and `end`, which must
    /// itself be valid UTF-8. Shared storage is shared by the result, static text
    /// stays static, inline text is copied inline; an `Arc<str>` or `Arc<String>`
    /// has its part copied into new shared storage.
    pub fn slice_ref(&self, start: usize, end: usize) -> (r: FastStr)
        requires
            start <= end <= self@.len(),
            valid_utf8(self@.subrange(start as int, end as int)),
        ensures
            r@ == self@.subrange(start as int, end as int),
            start == end ==> r.kind() == StorageKind::Empty,
            start < end ==> r.kind() == match self.kind() {
                StorageKind::Inline => StorageKind::Inline,
                StorageKind::Static => StorageKind::Static,
                _ => StorageKind::SharedBytes,
            },
            start < end && self.kind() == StorageKind::SharedBytes ==> r.owner() == self.owner(),
    {
        proof {
            use_type_invariant(self);
        }
        FastStr(self.0.slice_ref(start, end))
    }

    /// The text from byte `start` up to byte `end`; the part must be valid UTF-8.
    pub fn index(&self, start: usize, end: usize) -> (r: FastStr)
        requires
            start <= end <= self@.len(),
            valid_utf8(self@.subrange(start as int, end as int)),
        ensures
            r@ == self@.subrange(start as int, end as int),
    {
        self.slice_ref(start, end)
    }

    /// The text as an owned `String`, moving it out of a uniquely held
    /// `Arc<String>` and copying otherwise.
    pub fn into_string(self) -> (r: String)
        ensures
            encode_utf8(r@) == self@,
    {
        proof {
            use_type_invariant(&self);
        }
        self.0.into_string()
    }
}

impl Clone for FastStr {
    /// A second handle on the same text: shared storage gains a reference,
    /// inline bytes are copied, nothing else is touched.
    fn clone(&self) -> (r: FastStr)
        ensures
            r@ == self@,
            r.kind() == self.kind(),
            r.owner() == self.owner(),
    {
        proof {
            use_type_invariant(self);
        }
        FastStr(self.0.clone())
    }
}

impl Default for FastStr {
    fn default() -> (r: FastStr)
        ensures
            r@ == Seq::<u8>::empty(),
    {
        FastStr::empty()
    }
}

impl PartialEq for FastStr {
    /// Equal exactly when the texts are, whatever the storage.
    fn eq(&self, other: &FastStr) -> (r: bool)
        ensures
            r == (self@ == other@),
    {
        bytes_eq(self.as_bytes(), other.as_bytes())
    }
}

impl vstd::std_specs::cmp::PartialEqSpecImpl for FastStr {
    open spec fn obeys_eq_spec() -> bool {
        true
    }

    open spec fn eq_spec(&self, other: &FastStr) -> bool {
        self@ == other@
    }
}

impl Eq for FastStr {}

impl std::hash::Hash for FastStr {
    /// Hashes the text alone, as `str` does, so that equal texts in different
    /// storage hash alike.
    fn hash<H: std::hash::Hasher>(&self, state: &mut H) {
        self.as_str().hash(state)
    }
}

impl AsRef<str> for FastStr {
    fn as_ref(&self) -> &str {
        self.as_str()
    }
}

impl AsRef<[u8]> for FastStr {
    fn as_ref(&self) -> &[u8] {
        self.as_bytes()
    }
}

impl std::borrow::Borrow<str> for FastStr {
    fn borrow(&self) -> &str {
        self.as_str()
    }
}

impl std::ops::Deref for FastStr {
    type Target = str;

    fn deref(&self) -> (r: &str)
        ensures
            r.spec_bytes() == self@,
    {
        self.as_str()
    }
}

impl From<String> for FastStr {
    fn from(val: String) -> (r: FastStr)
        ensures
            r@ == encode_utf8(val@),
    {
        FastStr::from_string(val)
    }
}

impl vstd::std_specs::convert::FromSpecImpl<String> for FastStr {
    open spec fn obeys_from_spec() -> bool {
        false
    }

    open spec fn from_spec(v: String) -> FastStr {
        arbitrary()
    }
}

impl From<Arc<str>> for FastStr {
    fn from(val: Arc<str>) -> (r: FastStr)
        ensures
            r@ == (*val).spec_bytes(),
    {
        FastStr::from_arc_str(val)
    }
}

impl vstd::std_specs::convert::FromSpecImpl<Arc<str>> for FastStr {
    open spec fn obeys_from_spec() -> bool {
        false
    }

    open spec fn from_spec(v: Arc<str>) -> FastStr {
        arbitrary()
    }
}

impl From<Arc<String>> for FastStr {
    fn from(val: Arc<String>) -> (r: FastStr)
        ensures
            r@ == encode_utf8(val@),
    {
        FastStr::from_arc_string(val)
    }
}

impl vstd::std_specs::convert::FromSpecImpl<Arc<String>> for FastStr {
    open spec fn obeys_from_spec() -> bool {
        false
    }

    open spec fn from_spec(v: Arc<String>) -> FastStr {
        arbitrary()
    }
}

impl From<&'static str> for FastStr {
    fn from(val: &'static str) -> (r: FastStr)
        ensures
            r@ == val.spec_bytes(),
    {
        FastStr::from_static_str(val)
    }
}

impl vstd::std_specs::convert::FromSpecImpl<&'static str> for FastStr {
    open spec fn obeys_from_spec() -> bool {
        false
    }

    open spec fn from_spec(v: &'static str) -> FastStr {
        arbitrary()
    }
}

impl From<FastStr> for String {
    fn from(val: FastStr) -> (r: String)
        ensures
            encode_utf8(r@) == val@,
    {
        val.into_string()
    }
}

impl vstd::std_specs::convert::FromSpecImpl<FastStr> for String {
    open spec fn obeys_from_spec() -> bool {
        false
    }

    open spec fn from_spec(v: FastStr) -> String {
        arbitrary()
    }
}

impl From<FastStr> for Bytes {
    fn from(val: FastStr) -> (r: Bytes)
        ensures
            bytes_content(r) == val@,
    {
        val.into_bytes()
    }
}

impl vstd::std_specs::convert::FromSpecImpl<FastStr> for Bytes {
    open spec fn obeys_from_spec() -> bool {
        false
    }

    open spec fn from_spec(v: FastStr) -> Bytes {
        arbitrary()
    }
}

impl std::str::FromStr for FastStr {
    type Err = std::convert::Infallible;

    fn from_str(s: &str) -> (r: Result<FastStr, std::convert::Infallible>)
        ensures
            r matches Ok(f) && f@ == s.spec_bytes(),
    {
        Ok(FastStr::new(s))
    }
}

/// Byte-lexicographic order, the order of the texts as strings.
pub open spec fn byte_cmp(a: Seq<u8>, b: Seq<u8>) -> Ordering
    decreases a.len(),
{
    if a.len() == 0 {
        if b.len() == 0 {
            Ordering::Equal
        } else {
            Ordering::Less
        }
    } else if b.len() == 0 {
        Ordering::Greater
    } else if a[0] < b[0] {
        Ordering::Less
    } else if a[0] > b[0] {
        Ordering::Greater
    } else {
        byte_cmp(a.drop_first(), b.drop_first())
    }
}

/// Compares two byte slices in byte-lexicographic order.
fn bytes_cmp(a: &[u8], b: &[u8]) -> (r: Ordering)
    ensures
        r == byte_cmp(a@, b@),
{
    let mut i: usize = 0;
    assert(a@.subrange(0, a@.len() as int) =~= a@);
    assert(b@.subrange(0, b@.len() as int) =~= b@);
    while i < a.len() && i < b.len()
        invariant
            i <= a@.len(),
            i <= b@.len(),
            byte_cmp(a@, b@) == byte_cmp(
                a@.subrange(i as int, a@.len() as int),
                b@.subrange(i as int, b@.len() as int),
            ),
        decreases a@.len() - i,
    {
        let x = a[i];
        let y = b[i];
        proof {
            assert(a@.subrange(i as int, a@.len() as int).drop_first() =~= a@.subrange(
                i + 1,
                a@.len() as int,
            ));
            assert(b@.subrange(i as int, b@.len() as int).drop_first() =~= b@.subrange(
                i + 1,
                b@.len() as int,
            ));
        }
        if x < y {
            return Ordering::Less;
        }
        if x > y {
            return Ordering::Greater;
        }
        i = i + 1;
    }
    if i < a.len() {
        Ordering::Greater
    } else if i < b.len() {
        Ordering::Less
    } else {
        Ordering::Equal
    }
}

impl PartialOrd for FastStr {
    /// Orders by the texts, whatever the storage.
    fn partial_cmp(&self, other: &FastStr) -> (r: Option<Ordering>)
        ensures
            r == Some(byte_cmp(self@, other@)),
    {
        Some(bytes_cmp(self.as_bytes(), other.as_bytes()))
    }
}

impl vstd::std_specs::cmp::PartialOrdSpecImpl for FastStr {
    open spec fn obeys_partial_cmp_spec() -> bool {
        true
    }

    open spec fn partial_cmp_spec(&self, other: &FastStr) -> Option<Ordering> {
        Some(byte_cmp(self@, other@))
    }
}

/// Whether two byte slices are equal.
fn bytes_eq(a: &[u8], b: &[u8]) -> (r: bool)
    ensures
        r == (a@ == b@),
{
    if a.len() != b.len() {
        return false;
    }
    let mut i: usize = 0;
    while i < a.len()
        invariant
            a@.len() == b@.len(),
            i <= a@.len(),
            forall|k: int| 0 <= k < i ==> a@[k] == b@[k],
        decreases a@.len() - i,
    {
        if a[i] != b[i] {
            return false;
        }
        i = i + 1;
    }
    assert(a@ =~= b@);
    true
}

} // verus!
