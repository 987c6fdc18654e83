use std::cmp::Ordering;
use std::collections::HashSet;
use std::sync::Arc;

use bytes::{Bytes, BytesMut};
use faststr::bytes_ref::BytesRef;
use faststr::text_build::build_from_str_iter;
use faststr::{FastStr, StorageKind, INLINE_CAP};

#[test]
fn new_empty_is_empty() {
    let s = FastStr::new("");
    assert_eq!(s.storage_kind(), StorageKind::Empty);
    assert_eq!(s.len(), 0);
    assert!(s.is_empty());
    assert_eq!(s.as_str(), "");
}

#[test]
fn new_short_is_inline() {
    let s = FastStr::new("hello");
    assert_eq!(s.storage_kind(), StorageKind::Inline);
    assert_eq!(s.as_str(), "hello");
    assert_eq!(s.len(), 5);
    assert!(!s.is_empty());
}

#[test]
fn new_long_is_shared_and_clones_survive() {
    let text = "a".repeat(100);
    let s = FastStr::new(&text);
    assert_eq!(s.storage_kind(), StorageKind::SharedBytes);
    let c1 = s.clone();
    let c2 = s.clone();
    let p = s.as_str().as_ptr();
    drop(s);
    assert_eq!(c1.as_str(), text);
    assert_eq!(c2.as_str(), text);
    assert_eq!(c1.as_str().as_ptr(), p);
    assert_eq!(c2.as_str().as_ptr(), p);
}

#[test]
fn static_clones_share_the_literal() {
    let lit: &'static str = "literal";
    let s = FastStr::from_static_str(lit);
    assert_eq!(s.storage_kind(), StorageKind::Static);
    let mut all = Vec::new();
    for _ in 0..1000 {
        all.push(s.clone());
    }
    for c in &all {
        assert_eq!(c.as_str(), "literal");
        assert_eq!(c.as_str().as_ptr(), lit.as_ptr());
        assert_eq!(c.storage_kind(), StorageKind::Static);
    }
}

#[test]
fn slice_of_shared_shares_storage() {
    let s = FastStr::from_string("hello world".to_string());
    assert_eq!(s.storage_kind(), StorageKind::SharedBytes);
    let w = s.slice_ref(6, 11);
    assert_eq!(w.as_str(), "world");
    assert_eq!(w.storage_kind(), StorageKind::SharedBytes);
    assert_eq!(w.as_str().as_ptr(), s.as_str()[6..].as_ptr());
}

#[test]
fn bytes_ref_split_to_four() {
    let owner = Bytes::from((0u8..10).collect::<Vec<u8>>());
    let base = owner.as_ptr();
    let mut v = BytesRef::from_bytes(owner);
    let head = v.split_to(4);
    assert_eq!(head.len(), 4);
    assert_eq!(head.as_slice(), &[0u8, 1, 2, 3][..]);
    assert_eq!(v.len(), 6);
    assert_eq!(v.as_slice(), &[4u8, 5, 6, 7, 8, 9][..]);
    assert_eq!(head.as_slice().as_ptr(), base);
    assert_eq!(v.as_slice().as_ptr(), base.wrapping_add(4));
}

#[test]
fn bytes_ref_split_edges() {
    let mut v = BytesRef::from_bytes(Bytes::from_static(b"abcdef"));
    let none = v.split_to(0);
    assert!(none.is_empty());
    assert_eq!(v.as_slice(), b"abcdef");
    let all = v.split_to(6);
    assert_eq!(all.as_slice(), b"abcdef");
    assert!(v.is_empty());
    assert_eq!(v.remaining(), 0);
}

#[test]
fn bytes_ref_advance_and_copy_to_bytes() {
    let mut v = BytesRef::from_bytes(Bytes::from(b"0123456789".to_vec()));
    v.advance(2);
    assert_eq!(v.chunk(), b"23456789");
    assert_eq!(v.remaining(), 8);
    let got = v.copy_to_bytes(3);
    assert_eq!(&got[..], b"234");
    assert_eq!(v.chunk(), b"56789");
}

#[test]
fn bytes_ref_into_bytes_whole_and_part() {
    let owner = Bytes::from(b"abcdefgh".to_vec());
    let v = BytesRef::from_bytes(owner.clone());
    let part = v.slice_ref(2, 5);
    assert_eq!(part.as_slice(), b"cde");
    assert_eq!(&part.clone().into_bytes()[..], b"cde");
    assert_eq!(part.into_vec(), b"cde".to_vec());
    let whole = v.into_bytes();
    assert_eq!(&whole[..], b"abcdefgh");
    assert_eq!(whole.as_ptr(), owner.as_ptr());
    let empty = BytesRef::from_bytes(owner).slice_ref(3, 3);
    assert!(empty.into_bytes().is_empty());
}

#[test]
fn new_reads_back_at_every_size() {
    for n in [0usize, 1, 5, 23, 24, 25, 40, 100, 1000] {
        let text = "x".repeat(n);
        let s = FastStr::new(&text);
        assert_eq!(s.as_str(), text);
        assert_eq!(s.len(), n);
        let kind = if n == 0 {
            StorageKind::Empty
        } else if n <= INLINE_CAP {
            StorageKind::Inline
        } else {
            StorageKind::SharedBytes
        };
        assert_eq!(s.storage_kind(), kind);
    }
    let multi = "héllo wörld ✓ 𝄞";
    let s = FastStr::new(multi);
    assert_eq!(s.as_str(), multi);
    assert_eq!(s.len(), multi.len());
}

#[test]
fn unchecked_bytes_round_trip() {
    let b = Bytes::from("round trip ü".as_bytes().to_vec());
    let s = FastStr::from_bytes_unchecked(b.clone());
    assert_eq!(s.as_bytes(), &b[..]);
    assert_eq!(s.as_str(), "round trip ü");
    assert_eq!(s.storage_kind(), StorageKind::SharedBytes);
    assert_eq!(s.into_bytes(), b);
}

#[test]
fn footprint_is_forty_bytes() {
    assert_eq!(std::mem::size_of::<FastStr>(), 40);
}

#[test]
fn slice_on_each_storage() {
    let text = "0123456789abcdefghijklmnopqrstuvwxyz";
    let inline = FastStr::new("0123456789");
    let sub = inline.slice_ref(2, 5);
    assert_eq!(sub.as_str(), "234");
    assert_eq!(sub.storage_kind(), StorageKind::Inline);

    let stat = FastStr::from_static_str(text);
    let sub = stat.slice_ref(10, 20);
    assert_eq!(sub.as_str(), "abcdefghij");
    assert_eq!(sub.storage_kind(), StorageKind::Static);
    assert_eq!(sub.as_str().as_ptr(), text[10..].as_ptr());

    let arc_str = FastStr::from_arc_str(Arc::from(text));
    assert_eq!(arc_str.storage_kind(), StorageKind::ArcStr);
    let sub = arc_str.slice_ref(30, 36);
    assert_eq!(sub.as_str(), "uvwxyz");
    assert_eq!(sub.storage_kind(), StorageKind::SharedBytes);

    let held = Arc::new(text.to_string());
    let arc_string = FastStr::from_arc_string(held.clone());
    assert_eq!(arc_string.storage_kind(), StorageKind::ArcString);
    let sub = arc_string.slice_ref(0, 3);
    assert_eq!(sub.as_str(), "012");
    assert_eq!(sub.storage_kind(), StorageKind::SharedBytes);

    let shared = FastStr::new(text);
    let sub = shared.slice_ref(1, 4);
    assert_eq!(sub.as_str(), "123");
    assert_eq!(sub.storage_kind(), StorageKind::SharedBytes);

    let none = shared.slice_ref(7, 7);
    assert_eq!(none.storage_kind(), StorageKind::Empty);
    assert_eq!(none.as_str(), "");

    let idx = shared.index(26, 36);
    assert_eq!(idx.as_str(), "qrstuvwxyz");
}

#[test]
fn slice_multibyte_static() {
    let text: &'static str = "añb✓c";
    let s = FastStr::from_static_str(text);
    let sub = s.slice_ref(1, 7);
    assert_eq!(sub.as_str(), "ñb✓");
    assert_eq!(sub.storage_kind(), StorageKind::Static);
}

#[test]
fn chars_that_fit_stay_inline() {
    let chars: Vec<char> = "hello".chars().collect();
    let s = FastStr::from_char_iter(&chars);
    assert_eq!(s.as_str(), "hello");
    assert_eq!(s.storage_kind(), StorageKind::Inline);

    let exact: Vec<char> = "x".repeat(INLINE_CAP).chars().collect();
    let s = FastStr::from_char_iter(&exact);
    assert_eq!(s.len(), INLINE_CAP);
    assert_eq!(s.storage_kind(), StorageKind::Inline);

    let none: Vec<char> = Vec::new();
    let s = FastStr::from_char_iter(&none);
    assert_eq!(s.as_str(), "");
    assert_eq!(s.storage_kind(), StorageKind::Inline);
}

#[test]
fn chars_that_overflow_move_to_shared() {
    let over: Vec<char> = "y".repeat(INLINE_CAP + 1).chars().collect();
    let s = FastStr::from_char_iter(&over);
    assert_eq!(s.as_str(), "y".repeat(INLINE_CAP + 1));
    assert_eq!(s.storage_kind(), StorageKind::SharedBytes);

    let text = "ab✓𝄞ééé✓✓✓𝄞𝄞 and some more text";
    let chars: Vec<char> = text.chars().collect();
    let s = FastStr::from_char_iter(&chars);
    assert_eq!(s.as_str(), text);
    assert_eq!(s.storage_kind(), StorageKind::SharedBytes);
}

#[test]
fn pieces_build_inline_or_shared() {
    let s = build_from_str_iter(&["foo", "bar", "", "baz"]);
    assert_eq!(s.as_str(), "foobarbaz");
    assert_eq!(s.storage_kind(), StorageKind::Inline);

    let s = build_from_str_iter(&["0123456789", "0123456789", "0123"]);
    assert_eq!(s.len(), 24);
    assert_eq!(s.storage_kind(), StorageKind::Inline);

    let s = build_from_str_iter(&["0123456789", "0123456789", "01234", "tail", "✓"]);
    assert_eq!(s.as_str(), "0123456789012345678901234tail✓");
    assert_eq!(s.storage_kind(), StorageKind::SharedBytes);

    let s = build_from_str_iter(&[]);
    assert_eq!(s.as_str(), "");
}

#[test]
fn invalid_utf8_is_rejected_everywhere() {
    let bad: &[u8] = &[0x66, 0x6f, 0xff, 0x6f];
    assert!(FastStr::new_u8_slice(bad).is_err());
    assert!(FastStr::from_u8_slice(bad).is_err());
    assert!(FastStr::from_vec_u8(bad.to_vec()).is_err());
    assert!(FastStr::from_bytes(Bytes::copy_from_slice(bad)).is_err());
    assert!(FastStr::from_bytes_mut(BytesMut::from(bad)).is_err());
    let surrogate: &[u8] = &[0xed, 0xa0, 0x80];
    assert!(FastStr::new_u8_slice(surrogate).is_err());
}

#[test]
fn valid_bytes_are_accepted() {
    let good = "grüße".as_bytes();
    assert_eq!(FastStr::new_u8_slice(good).unwrap().as_str(), "grüße");
    assert_eq!(FastStr::from_u8_slice(good).unwrap().as_str(), "grüße");
    assert_eq!(FastStr::new_u8_slice_unchecked(good).as_str(), "grüße");
    assert_eq!(FastStr::from_u8_slice_unchecked(good).as_str(), "grüße");
    let v = FastStr::from_vec_u8(good.to_vec()).unwrap();
    assert_eq!(v.as_str(), "grüße");
    assert_eq!(v.storage_kind(), StorageKind::SharedBytes);
    assert_eq!(FastStr::from_vec_u8_unchecked(good.to_vec()).as_str(), "grüße");
    let b = FastStr::from_bytes(Bytes::copy_from_slice(good)).unwrap();
    assert_eq!(b.as_str(), "grüße");
    let m = FastStr::from_bytes_mut(BytesMut::from(good)).unwrap();
    assert_eq!(m.as_str(), "grüße");
    assert_eq!(FastStr::from_bytes_mut_unchecked(BytesMut::from(good)).as_str(), "grüße");
}

#[test]
fn arc_string_unique_is_moved_out() {
    let unique = FastStr::from_arc_string(Arc::new("owned text".to_string()));
    assert_eq!(unique.storage_kind(), StorageKind::SharedBytes);
    assert_eq!(unique.as_str(), "owned text");

    let held = Arc::new("held text".to_string());
    let shared = FastStr::from_arc_string(held.clone());
    assert_eq!(shared.storage_kind(), StorageKind::ArcString);
    assert_eq!(shared.as_str(), "held text");
    assert_eq!(shared.as_str().as_ptr(), held.as_ptr());
}

#[test]
fn conversions_out_of_each_storage() {
    let long = "z".repeat(50);
    let all = [
        FastStr::empty(),
        FastStr::new("short"),
        FastStr::new(&long),
        FastStr::from_static_str("static text"),
        FastStr::from_arc_str(Arc::from("arc str")),
        FastStr::from_arc_string(Arc::new("arc string".to_string())),
    ];
    let expect = ["", "short", long.as_str(), "static text", "arc str", "arc string"];
    for (s, e) in all.iter().zip(expect.iter()) {
        assert_eq!(s.clone().into_string(), *e);
        assert_eq!(&s.clone().into_bytes()[..], e.as_bytes());
    }
    let held = Arc::new("still held".to_string());
    let s = FastStr::from_arc_string(held.clone());
    assert_eq!(s.clone().into_string(), "still held");
    assert_eq!(&s.into_bytes()[..], b"still held");
    assert_eq!(held.as_str(), "still held");
}

#[test]
fn new_inline_and_default() {
    let s = FastStr::new_inline("abc");
    assert_eq!(s.storage_kind(), StorageKind::Inline);
    assert_eq!(s.as_str(), "abc");
    let d = FastStr::default();
    assert!(d.is_empty());
    assert_eq!(d.storage_kind(), StorageKind::Empty);
}

#[test]
fn equality_and_order_follow_the_text() {
    let long = "k".repeat(30);
    let a = FastStr::new(&long);
    let b = FastStr::from_string(long.clone());
    let c = FastStr::from_arc_str(Arc::from(long.as_str()));
    assert!(a == b);
    assert!(b == c);
    assert!(FastStr::new("abc") == FastStr::from_static_str("abc"));
    assert!(FastStr::new("abc") != FastStr::new("abd"));
    assert!(FastStr::new("abc") < FastStr::new("abd"));
    assert!(FastStr::new("ab") < FastStr::new("abc"));
    assert!(FastStr::new("z") > FastStr::new(&long));
    assert_eq!(
        FastStr::new("same").partial_cmp(&FastStr::from_static_str("same")),
        Some(Ordering::Equal)
    );
    assert!(FastStr::empty() < FastStr::new("a"));
}

#[test]
fn hash_follows_the_text() {
    let long = "h".repeat(40);
    let mut set = HashSet::new();
    set.insert(FastStr::new(&long));
    set.insert(FastStr::from_string(long.clone()));
    set.insert(FastStr::from_arc_str(Arc::from(long.as_str())));
    set.insert(FastStr::from_static_str("abc"));
    set.insert(FastStr::new("abc"));
    assert_eq!(set.len(), 2);
    assert!(set.contains("abc"));
    assert!(set.contains(long.as_str()));
}

#[test]
fn std_conversions() {
    let parsed: FastStr = "parsed".parse().unwrap();
    assert_eq!(parsed.as_str(), "parsed");
    let from_string = FastStr::from("owned".to_string());
    assert_eq!(from_string.storage_kind(), StorageKind::SharedBytes);
    let from_static = FastStr::from("static");
    assert_eq!(from_static.storage_kind(), StorageKind::Static);
    let from_arc = FastStr::from(Arc::<str>::from("arc"));
    assert_eq!(from_arc.storage_kind(), StorageKind::ArcStr);
    let from_arc_string = FastStr::from(Arc::new("arc string".to_string()));
    assert_eq!(&*from_arc_string, "arc string");
    let back: String = String::from(FastStr::new("back"));
    assert_eq!(back, "back");
    let bytes: Bytes = Bytes::from(FastStr::new("bytes"));
    assert_eq!(&bytes[..], b"bytes");
    let s = FastStr::new("deref");
    assert_eq!(s.to_uppercase(), "DEREF");
    let as_str: &str = s.as_ref();
    let as_bytes: &[u8] = s.as_ref();
    assert_eq!(as_str, "deref");
    assert_eq!(as_bytes, b"deref");
}

#[test]
fn bytes_ref_clone_shares_window() {
    let v = BytesRef::from_bytes(Bytes::from(b"shared window".to_vec()));
    let part = v.slice_ref(7, 13);
    let c = part.clone();
    assert_eq!(c.as_slice(), b"window");
    assert_eq!(c.as_slice().as_ptr(), part.as_slice().as_ptr());
}

#[test]
fn wrapping_bytes_does_not_copy() {
    let b = Bytes::from("a shared buffer of text that is long".as_bytes().to_vec());
    let p = b.as_ptr();
    let s = FastStr::from_bytes(b.clone()).unwrap();
    assert_eq!(s.as_bytes().as_ptr(), p);
    let tail = s.slice_ref(9, 15);
    assert_eq!(tail.as_str(), "buffer");
    assert_eq!(tail.as_bytes().as_ptr(), p.wrapping_add(9));
    let back = s.into_bytes();
    assert_eq!(back.as_ptr(), p);
    assert_eq!(back, b);
}
