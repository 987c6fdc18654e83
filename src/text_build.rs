//! Building a `FastStr` from a sequence of characters or of string pieces: bytes
//! gather inline while they fit, and the first piece that would overflow the
//! inline buffer moves everything into one buffer sized to the final length.

use vstd::prelude::*;
use vstd::string::*;
use vstd::utf8::*;

use crate::bytes_ref::BytesRef;
use crate::outside::bytes_from_vec;
use crate::{FastStr, Repr, StorageKind, INLINE_CAP};

verus! {

broadcast use encode_utf8_valid_utf8, char_is_scalar;

/// The UTF-8 bytes of a sequence of string pieces, one after the other.
pub open spec fn concat_bytes(pieces: Seq<&str>) -> Seq<u8>
    decreases pieces.len(),
{
    if pieces.len() == 0 {
        Seq::empty()
    } else {
        concat_bytes(pieces.drop_last()) + pieces.last().spec_bytes()
    }
}

/// The characters of a sequence of string pieces, one after the other.
pub open spec fn concat_chars(pieces: Seq<&str>) -> Seq<char>
    decreases pieces.len(),
{
    if pieces.len() == 0 {
        Seq::empty()
    } else {
        concat_chars(pieces.drop_last()) + pieces.last()@
    }
}

/// The bytes of the pieces are the encoding of their characters, hence valid
/// UTF-8.
pub proof fn lemma_concat_bytes_encode(pieces: Seq<&str>)
    ensures
        concat_bytes(pieces) == encode_utf8(concat_chars(pieces)),
        valid_utf8(concat_bytes(pieces)),
    decreases pieces.len(),
{
    if pieces.len() == 0 {
        assert(encode_utf8(Seq::<char>::empty()) =~= Seq::<u8>::empty());
    } else {
        lemma_concat_bytes_encode(pieces.drop_last());
        lemma_encode_utf8_concat(concat_chars(pieces.drop_last()), pieces.last()@);
    }
}

/// Encoding a sequence piecewise gives the encoding of the whole.
pub proof fn lemma_encode_utf8_concat(a: Seq<char>, b: Seq<char>)
    ensures
        encode_utf8(a + b) == encode_utf8(a) + encode_utf8(b),
    decreases a.len(),
{
    if a.len() == 0 {
        assert(a + b =~= b);
    } else {
        assert((a + b).drop_first() =~= a.drop_first() + b);
        lemma_encode_utf8_concat(a.drop_first(), b);
    }
}

/// Splitting a character sequence at `i` splits its encoding.
proof fn lemma_encode_utf8_split(s: Seq<char>, i: int)
    requires
        0 <= i <= s.len(),
    ensures
        encode_utf8(s) == encode_utf8(s.subrange(0, i)) + encode_utf8(s.subrange(i, s.len() as int)),
{
    assert(s =~= s.subrange(0, i) + s.subrange(i, s.len() as int));
    lemma_encode_utf8_concat(s.subrange(0, i), s.subrange(i, s.len() as int));
}

proof fn lemma_encode_utf8_one(c: char)
    ensures
        encode_utf8(seq![c]) == encode_scalar(c as u32),
{
    assert(seq![c].drop_first() =~= Seq::<char>::empty());
    assert(encode_utf8(Seq::<char>::empty()) =~= Seq::<u8>::empty());
    assert(encode_scalar(c as u32) + Seq::<u8>::empty() =~= encode_scalar(c as u32));
}

/// Splitting a piece sequence at `i` splits its bytes.
proof fn lemma_concat_bytes_split(s: Seq<&str>, i: int)
    requires
        0 <= i <= s.len(),
    ensures
        concat_bytes(s) == concat_bytes(s.subrange(0, i)) + concat_bytes(
            s.subrange(i, s.len() as int),
        ),
    decreases s.len(),
{
    if i == s.len() {
        assert(s.subrange(0, i) =~= s);
        assert(s.subrange(i, s.len() as int) =~= Seq::<&str>::empty());
        assert(concat_bytes(s) + Seq::<u8>::empty() =~= concat_bytes(s));
    } else {
        lemma_concat_bytes_split(s.drop_last(), i);
        assert(s.drop_last().subrange(0, i) =~= s.subrange(0, i));
        assert(s.subrange(i, s.len() as int).drop_last() =~= s.drop_last().subrange(
            i,
            s.len() - 1,
        ));
        assert(s.subrange(i, s.len() as int).last() == s.last());
        assert(concat_bytes(s) =~= concat_bytes(s.subrange(0, i)) + concat_bytes(
            s.subrange(i, s.len() as int),
        ));
    }
}

/// The UTF-8 bytes of `c`, in the front of the array, and how many they are.
fn encode_char(c: char) -> (r: ([u8; 4], usize))
    ensures
        1 <= r.1 <= 4,
        r.1 == encode_scalar(c as u32).len(),
        r.0@.subrange(0, r.1 as int) == encode_scalar(c as u32),
{
    let v = c as u32;
    proof {
        char_is_scalar(c);
    }
    if v <= 0x7F {
        let r = [(v & 0x7F) as u8, 0, 0, 0];
        assert(r@.subrange(0, 1) =~= encode_scalar(v));
        (r, 1)
    } else if v <= 0x7FF {
        let r = [0xC0 | ((v >> 6) & 0x1F) as u8, 0x80 | (v & 0x3F) as u8, 0, 0];
        assert(r@.subrange(0, 2) =~= encode_scalar(v));
        (r, 2)
    } else if v <= 0xFFFF {
        let r = [
            0xE0 | ((v >> 12) & 0x0F) as u8,
            0x80 | ((v >> 6) & 0x3F) as u8,
            0x80 | (v & 0x3F) as u8,
            0,
        ];
        assert(r@.subrange(0, 3) =~= encode_scalar(v));
        (r, 3)
    } else {
        let r = [
            0xF0 | ((v >> 18) & 0x07) as u8,
            0x80 | ((v >> 12) & 0x3F) as u8,
            0x80 | ((v >> 6) & 0x3F) as u8,
            0x80 | (v & 0x3F) as u8,
        ];
        assert(r@.subrange(0, 4) =~= encode_scalar(v));
        (r, 4)
    }
}

proof fn lemma_encode_utf8_step(s: Seq<char>, i: int, j: int)
    requires
        0 <= i <= j < s.len(),
    ensures
        encode_utf8(s.subrange(i, j + 1)) == encode_utf8(s.subrange(i, j)) + encode_scalar(
            s[j] as u32,
        ),
{
    assert(s.subrange(i, j + 1) =~= s.subrange(i, j) + seq![s[j]]);
    lemma_encode_utf8_concat(s.subrange(i, j), seq![s[j]]);
    lemma_encode_utf8_one(s[j]);
}

proof fn lemma_concat_bytes_step(s: Seq<&str>, i: int, j: int)
    requires
        0 <= i <= j < s.len(),
    ensures
        concat_bytes(s.subrange(i, j + 1)) == concat_bytes(s.subrange(i, j))
            + s[j].spec_bytes(),
{
    assert(s.subrange(i, j + 1).drop_last() =~= s.subrange(i, j));
}

/// Writes `src[0..n]` into `buf` at `at`, leaving the rest of `buf` as it was.
fn copy_into(buf: &mut [u8; INLINE_CAP], at: usize, src: &[u8], n: usize)
    requires
        at + n <= INLINE_CAP,
        n <= src@.len(),
    ensures
        final(buf)@.len() == INLINE_CAP,
        final(buf)@.subrange(0, at as int) == old(buf)@.subrange(0, at as int),
        final(buf)@.subrange(at as int, at + n) == src@.subrange(0, n as int),
{
    let mut k: usize = 0;
    while k < n
        invariant
            at + n <= INLINE_CAP,
            n <= src@.len(),
            k <= n,
            buf@.len() == INLINE_CAP,
            buf@.subrange(0, at as int) == old(buf)@.subrange(0, at as int),
            forall|t: int| 0 <= t < k ==> buf@[at + t] == src@[t],
        decreases n - k,
    {
        buf[at + k] = src[k];
        k = k + 1;
        assert(buf@.subrange(0, at as int) =~= old(buf)@.subrange(0, at as int));
    }
    assert(buf@.subrange(at as int, at + n) =~= src@.subrange(0, n as int));
}

/// Appends `src[0..n]` to `v`.
fn push_bytes(v: &mut Vec<u8>, src: &[u8], n: usize)
    requires
        n <= src@.len(),
    ensures
        final(v)@ == old(v)@ + src@.subrange(0, n as int),
{
    let mut k: usize = 0;
    while k < n
        invariant
            n <= src@.len(),
            k <= n,
            v@ == old(v)@ + src@.subrange(0, k as int),
        decreases n - k,
    {
        v.push(src[k]);
        k = k + 1;
        assert(v@ =~= old(v)@ + src@.subrange(0, k as int));
    }
}

/// Moves the `len` inline bytes, which encode `chars[0..i]`, and the encoding of
/// the rest of `chars` into one vector allocated at the final length.
fn spill_chars(buf: &[u8; INLINE_CAP], len: usize, chars: &[char], i: usize) -> (r: Vec<u8>)
    requires
        len <= INLINE_CAP,
        i <= chars@.len(),
        buf@.subrange(0, len as int) == encode_utf8(chars@.subrange(0, i as int)),
        encode_utf8(chars@).len() <= usize::MAX,
    ensures
        r@ == encode_utf8(chars@),
{
    let n = chars.len();
    proof {
        lemma_encode_utf8_split(chars@, i as int);
    }
    let mut total: usize = len;
    let mut j: usize = i;
    while j < n
        invariant
            i <= j <= n == chars@.len(),
            total == len + encode_utf8(chars@.subrange(i as int, j as int)).len(),
            encode_utf8(chars@) == encode_utf8(chars@.subrange(0, i as int)) + encode_utf8(
                chars@.subrange(i as int, n as int),
            ),
            buf@.len() == INLINE_CAP,
            len <= INLINE_CAP,
            buf@.subrange(0, len as int) == encode_utf8(chars@.subrange(0, i as int)),
            encode_utf8(chars@).len() <= usize::MAX,
        decreases n - j,
    {
        let (_, w) = encode_char(chars[j]);
        proof {
            lemma_encode_utf8_step(chars@, i as int, j as int);
            let rest = chars@.subrange(i as int, n as int);
            lemma_encode_utf8_split(rest, j + 1 - i);
            assert(rest.subrange(0, j + 1 - i) =~= chars@.subrange(i as int, j + 1));
        }
        total = total + w;
        j = j + 1;
    }
    // The one allocation is sized to the final length.
    assert(total == encode_utf8(chars@).len());
    let mut v: Vec<u8> = Vec::with_capacity(total);
    push_bytes(&mut v, buf.as_slice(), len);
    let mut j: usize = i;
    while j < n
        invariant
            i <= j <= n == chars@.len(),
            v@ == encode_utf8(chars@.subrange(0, j as int)),
        decreases n - j,
    {
        let (enc, w) = encode_char(chars[j]);
        proof {
            lemma_encode_utf8_step(chars@, 0, j as int);
        }
        push_bytes(&mut v, enc.as_slice(), w);
        j = j + 1;
    }
    assert(chars@.subrange(0, n as int) =~= chars@);
    v
}

/// Moves the `len` inline bytes, which are those of `pieces[0..i]`, and the
/// bytes of the remaining pieces into one vector allocated at the final length.
fn spill_pieces(buf: &[u8; INLINE_CAP], len: usize, pieces: &[&str], i: usize) -> (r: Vec<u8>)
    requires
        len <= INLINE_CAP,
        i <= pieces@.len(),
        buf@.subrange(0, len as int) == concat_bytes(pieces@.subrange(0, i as int)),
        concat_bytes(pieces@).len() <= usize::MAX,
    ensures
        r@ == concat_bytes(pieces@),
{
    let n = pieces.len();
    proof {
        lemma_concat_bytes_split(pieces@, i as int);
    }
    let mut total: usize = len;
    let mut j: usize = i;
    while j < n
        invariant
            i <= j <= n == pieces@.len(),
            total == len + concat_bytes(pieces@.subrange(i as int, j as int)).len(),
            concat_bytes(pieces@) == concat_bytes(pieces@.subrange(0, i as int)) + concat_bytes(
                pieces@.subrange(i as int, n as int),
            ),
            buf@.len() == INLINE_CAP,
            len <= INLINE_CAP,
            buf@.subrange(0, len as int) == concat_bytes(pieces@.subrange(0, i as int)),
            concat_bytes(pieces@).len() <= usize::MAX,
        decreases n - j,
    {
        proof {
            lemma_concat_bytes_step(pieces@, i as int, j as int);
            let rest = pieces@.subrange(i as int, n as int);
            lemma_concat_bytes_split(rest, j + 1 - i);
            assert(rest.subrange(0, j + 1 - i) =~= pieces@.subrange(i as int, j + 1));
        }
        total = total + pieces[j].as_bytes().len();
        j = j + 1;
    }
    // The one allocation is sized to the final length.
    assert(total == concat_bytes(pieces@).len());
    let mut v: Vec<u8> = Vec::with_capacity(total);
    push_bytes(&mut v, buf.as_slice(), len);
    let mut j: usize = i;
    while j < n
        invariant
            i <= j <= n == pieces@.len(),
            v@ == concat_bytes(pieces@.subrange(0, j as int)),
        decreases n - j,
    {
        let piece = pieces[j].as_bytes();
        proof {
            lemma_concat_bytes_step(pieces@, 0, j as int);
        }
        push_bytes(&mut v, piece, piece.len());
        assert(piece@.subrange(0, piece@.len() as int) =~= piece@);
        j = j + 1;
    }
    assert(pieces@.subrange(0, n as int) =~= pieces@);
    v
}

impl FastStr {
    /// Builds a `FastStr` from a sequence of characters. While the encoded
    /// characters fit in `INLINE_CAP` bytes they are gathered inline, and the
    /// result needs no allocation; the first character that does not fit moves
    /// everything into a single buffer sized to the final length.
    pub fn from_char_iter(chars: &[char]) -> (r: FastStr)
        requires
            encode_utf8(chars@).len() <= usize::MAX,
        ensures
            r@ == encode_utf8(chars@),
            r.kind() == if encode_utf8(chars@).len() <= INLINE_CAP {
                StorageKind::Inline
            } else {
                StorageKind::SharedBytes
            },
    {
        let mut len: usize = 0;
        let mut buf = [0u8; INLINE_CAP];
        let mut i: usize = 0;
        while i < chars.len()
            invariant
                i <= chars@.len(),
                len <= INLINE_CAP,
                buf@.len() == INLINE_CAP,
                buf@.subrange(0, len as int) == encode_utf8(chars@.subrange(0, i as int)),
                encode_utf8(chars@).len() <= usize::MAX,
            decreases chars@.len() - i,
        {
            let (enc, size) = encode_char(chars[i]);
            proof {
                lemma_encode_utf8_step(chars@, 0, i as int);
            }
            if size + len > INLINE_CAP {
                proof {
                    lemma_encode_utf8_split(chars@, i + 1);
                }
                let v = spill_chars(&buf, len, chars, i);
                return FastStr(Repr::SharedBytes(BytesRef::from_bytes(bytes_from_vec(v))));
            }
            copy_into(&mut buf, len, enc.as_slice(), size);
            proof {
                assert(buf@.subrange(0, len + size) =~= buf@.subrange(0, len as int)
                    + buf@.subrange(len as int, len + size));
            }
            len = len + size;
            i = i + 1;
        }
        assert(chars@.subrange(0, i as int) =~= chars@);
        FastStr(Repr::Inline { len, buf })
    }
}

/// Builds a `FastStr` from a sequence of string pieces, joined without any
/// separator. While the pieces fit in `INLINE_CAP` bytes they are gathered
/// inline, and the result needs no allocation; the first piece that does not fit
/// moves everything into a single buffer sized to the final length.
pub fn build_from_str_iter(pieces: &[&str]) -> (r: FastStr)
    requires
        concat_bytes(pieces@).len() <= usize::MAX,
    ensures
        r@ == concat_bytes(pieces@),
        r.kind() == if concat_bytes(pieces@).len() <= INLINE_CAP {
            StorageKind::Inline
        } else {
            StorageKind::SharedBytes
        },
{
    let mut len: usize = 0;
    let mut buf = [0u8; INLINE_CAP];
    let mut i: usize = 0;
    while i < pieces.len()
        invariant
            i <= pieces@.len(),
            len <= INLINE_CAP,
            buf@.len() == INLINE_CAP,
            buf@.subrange(0, len as int) == concat_bytes(pieces@.subrange(0, i as int)),
            concat_bytes(pieces@).len() <= usize::MAX,
        decreases pieces@.len() - i,
    {
        let piece = pieces[i].as_bytes();
        let size = piece.len();
        proof {
            lemma_concat_bytes_step(pieces@, 0, i as int);
        }
        if size > INLINE_CAP - len {
            proof {
                lemma_concat_bytes_split(pieces@, i + 1);
            }
            let v = spill_pieces(&buf, len, pieces, i);
            proof {
                lemma_concat_bytes_encode(pieces@);
            }
            return FastStr(Repr::SharedBytes(BytesRef::from_bytes(bytes_from_vec(v))));
        }
        copy_into(&mut buf, len, piece, size);
        proof {
            assert(buf@.subrange(0, len + size) =~= buf@.subrange(0, len as int)
                + buf@.subrange(len as int, len + size));
            assert(piece@.subrange(0, size as int) =~= piece@);
        }
        len = len + size;
        i = i + 1;
    }
    assert(pieces@.subrange(0, i as int) =~= pieces@);
    proof {
        lemma_concat_bytes_encode(pieces@);
    }
    FastStr(Repr::Inline { len, buf })
}

} // verus!
