//! A zero-copy window over a reference counted byte buffer: an owner handle and
//! an offset and length checked against it, split and advanced without copying.

use vstd::prelude::*;
use vstd::slice::*;
use std::sync::Arc;
use bytes::Bytes;

use crate::outside::{arc_bytes_unwrap_or_clone, bytes_as_slice, bytes_content, bytes_slice, vec_from_bytes};

verus! {

/// A window `[start, start + len)` over the bytes of a shared owner. Many views
/// may share one owner, which lives as long as the longest-lived of them.
pub struct BytesRef {
    data: Arc<Bytes>,
    start: usize,
    len: usize,
}

impl View for BytesRef {
    type V = Seq<u8>;

    /// The bytes in the window.
    closed spec fn view(&self) -> Seq<u8> {
        bytes_content(*self.data).subrange(self.start as int, self.start + self.len)
    }
}

impl BytesRef {
    #[verifier::type_invariant]
    spec fn inv(self) -> bool {
        &&& self.start + self.len <= bytes_content(*self.data).len()
        &&& bytes_content(*self.data).len() <= usize::MAX
    }

    /// The owner's handle that the view reads from.
    pub closed spec fn owner(&self) -> Bytes {
        *self.data
    }

    /// Where the window starts within the owner's bytes.
    pub closed spec fn offset(&self) -> nat {
        self.start as nat
    }

    /// A view over the whole of `data`.
    pub fn from_bytes(data: Bytes) -> (r: BytesRef)
        ensures
            r@ == bytes_content(data),
            r.owner() == data,
            r.offset() == 0,
    {
        let len = data.len();
        let r = BytesRef { data: Arc::new(data), start: 0, len };
        assert(bytes_content(data).subrange(0, len as int) =~= bytes_content(data));
        r
    }

    /// An empty view at the start of this one, sharing its owner.
    fn new_empty(&self) -> (r: BytesRef)
        ensures
            r@ == Seq::<u8>::empty(),
            r.owner() == self.owner(),
            r.offset() == self.offset(),
    {
        proof {
            use_type_invariant(self);
        }
        BytesRef { data: Arc::clone(&self.data), start: self.start, len: 0 }
    }

    /// A view of the part `[start, end)` of this one, sharing its owner; no bytes
    /// are copied.
    pub fn slice_ref(&self, start: usize, end: usize) -> (r: BytesRef)
        requires
            start <= end <= self@.len(),
        ensures
            r@ == self@.subrange(start as int, end as int),
            r.owner() == self.owner(),
            r.offset() == self.offset() + start,
    {
        proof {
            use_type_invariant(self);
        }
        let r = BytesRef { data: Arc::clone(&self.data), start: self.start + start, len: end - start };
        assert(r@ =~= self@.subrange(start as int, end as int));
        r
    }

    /// The bytes in the window, borrowed.
    pub fn as_slice(&self) -> (r: &[u8])
        ensures
            r@ == self@,
    {
        proof {
            use_type_invariant(self);
        }
        slice_subrange(bytes_as_slice(&self.data), self.start, self.start + self.len)
    }

    /// The number of bytes in the window.
    pub fn len(&self) -> (r: usize)
        ensures
            r == self@.len(),
    {
        proof {
            use_type_invariant(self);
        }
        self.len
    }

    /// Whether the window is empty.
    pub fn is_empty(&self) -> (r: bool)
        ensures
            r == (self@.len() == 0),
    {
        self.len() == 0
    }

    /// Moves the start of the window `by` bytes forward.
    fn inc_start(&mut self, by: usize)
        requires
            by <= old(self)@.len(),
        ensures
            final(self)@ == old(self)@.subrange(by as int, old(self)@.len() as int),
            final(self).owner() == old(self).owner(),
            final(self).offset() == old(self).offset() + by,
    {
        proof {
            use_type_invariant(&*self);
        }
        self.len = self.len - by;
        self.start = self.start + by;
        assert(self@ =~= old(self)@.subrange(by as int, old(self)@.len() as int));
    }

    /// Splits the window at `at`: returns `[0, at)` and keeps `[at, len)`. Both
    /// share the owner; no bytes are copied.
    pub fn split_to(&mut self, at: usize) -> (r: BytesRef)
        requires
            at <= old(self)@.len(),
        ensures
            r@ == old(self)@.subrange(0, at as int),
            final(self)@ == old(self)@.subrange(at as int, old(self)@.len() as int),
            r.owner() == old(self).owner(),
            final(self).owner() == old(self).owner(),
            r.offset() == old(self).offset(),
            final(self).offset() == old(self).offset() + at,
    {
        proof {
            use_type_invariant(&*self);
        }
        if at == self.len {
            let mut whole = BytesRef { data: Arc::clone(&self.data), start: self.start + at, len: 0 };
            std::mem::swap(self, &mut whole);
            assert(whole@ =~= old(self)@.subrange(0, at as int));
            assert(self@ =~= old(self)@.subrange(at as int, old(self)@.len() as int));
            return whole;
        }
        if at == 0 {
            let r = self.new_empty();
            assert(self@ =~= old(self)@.subrange(0, old(self)@.len() as int));
            assert(r@ =~= old(self)@.subrange(0, 0));
            return r;
        }
        let ret = BytesRef { data: Arc::clone(&self.data), start: self.start, len: at };
        self.inc_start(at);
        assert(ret@ =~= old(self)@.subrange(0, at as int));
        ret
    }

    /// The number of bytes left to consume.
    pub fn remaining(&self) -> (r: usize)
        ensures
            r == self@.len(),
    {
        self.len()
    }

    /// The bytes left to consume, borrowed.
    pub fn chunk(&self) -> (r: &[u8])
        ensures
            r@ == self@,
    {
        self.as_slice()
    }

    /// Consumes `cnt` bytes from the front.
    pub fn advance(&mut self, cnt: usize)
        requires
            cnt <= old(self)@.len(),
        ensures
            final(self)@ == old(self)@.subrange(cnt as int, old(self)@.len() as int),
            final(self).owner() == old(self).owner(),
            final(self).offset() == old(self).offset() + cnt,
    {
        self.inc_start(cnt);
    }

    /// Consumes `len` bytes from the front and returns them as `Bytes` over the
    /// same storage.
    pub fn copy_to_bytes(&mut self, len: usize) -> (r: Bytes)
        requires
            len <= old(self)@.len(),
        ensures
            bytes_content(r) == old(self)@.subrange(0, len as int),
            final(self)@ == old(self)@.subrange(len as int, old(self)@.len() as int),
            final(self).owner() == old(self).owner(),
    {
        self.split_to(len).into_bytes()
    }

    /// Turns the view back into an owner handle over its bytes. A view of the
    /// whole owner gives the owner itself, reclaimed without a copy when no other
    /// view holds it; a part gives a sub-range handle over the same storage.
    pub fn into_bytes(self) -> (r: Bytes)
        ensures
            bytes_content(r) == self@,
    {
        proof {
            use_type_invariant(&self);
        }
        if self.len == 0 {
            return Bytes::new();
        }
        if self.start == 0 && self.len == self.data.len() {
            assert(self@ =~= bytes_content(*self.data));
            return arc_bytes_unwrap_or_clone(self.data);
        }
        bytes_slice(&self.data, self.start, self.start + self.len)
    }

    /// The bytes of the view as an owned vector.
    pub fn into_vec(self) -> (r: Vec<u8>)
        ensures
            r@ == self@,
    {
        vec_from_bytes(self.into_bytes())
    }
}

impl Clone for BytesRef {
    /// A second view of the same window, sharing the owner.
    fn clone(&self) -> (r: BytesRef)
        ensures
            r@ == self@,
            r.owner() == self.owner(),
            r.offset() == self.offset(),
    {
        proof {
            use_type_invariant(self);
        }
        BytesRef { data: Arc::clone(&self.data), start: self.start, len: self.len }
    }
}

} // verus!
