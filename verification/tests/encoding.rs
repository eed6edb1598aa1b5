use minicbor::data::{max_int, min_int, Cbor, Int, Tag, Type};
use minicbor::encode::{ArrayIter, Bound, MapIter};
use minicbor::{to_vec, CborLen, Decoder, Encode, Encoder};
use std::borrow::Cow;
use std::collections::VecDeque;
use std::marker::PhantomData;

/// Encodes `x`, compares the bytes against `expected` (in hex) and checks
/// that `cbor_len` predicts their number.
fn check<T: Encode<()> + CborLen<()>>(x: T, expected: &str) {
    let bytes = to_vec(&x).unwrap();
    assert_eq!(expected, hex::encode(&bytes));
    assert_eq!(bytes.len(), <T as CborLen<()>>::cbor_len(&x));
}

#[test]
fn unsigned_heads_use_the_shortest_form() {
    check(0u8, "00");
    check(23u8, "17");
    check(24u8, "1818");
    check(255u8, "18ff");
    check(256u16, "190100");
    check(65535u16, "19ffff");
    check(65536u32, "1a00010000");
    check(u32::MAX, "1affffffff");
    check(0x1_0000_0000u64, "1b0000000100000000");
    check(u64::MAX, "1bffffffffffffffff");
    check(1000usize, "1903e8");
}

#[test]
fn signed_values_use_the_negative_major_type() {
    check(-1i8, "20");
    check(-24i8, "37");
    check(-25i8, "3818");
    check(i8::MIN, "387f");
    check(i16::MIN, "397fff");
    check(i32::MIN, "3a7fffffff");
    check(i64::MIN, "3b7fffffffffffffff");
    check(i64::MAX, "1b7fffffffffffffff");
    check(-1000isize, "3903e7");
}

#[test]
fn int_covers_the_full_range() {
    check(Int::neg(u64::MAX), "3bffffffffffffffff");
    check(Int::pos(u64::MAX), "1bffffffffffffffff");
    check(Int::from(-1i64), "20");
    assert_eq!(i128::from(Int::neg(u64::MAX)), -0x1_0000_0000_0000_0000i128);
}

#[test]
fn simple_values() {
    check(false, "f4");
    check(true, "f5");
    check('a', "1861");
    check('水', "196c34");
    check((), "80");
    check(PhantomData::<u8>, "80");
    check(None::<u8>, "f6");
    check(Some(5u8), "05");
}

#[test]
fn strings() {
    check("", "60");
    check("IETF", "6449455446");
    check(String::from("ü"), "62c3bc");
}

#[test]
fn results_are_tagged_pairs() {
    check(Ok::<u8, bool>(1), "820001");
    check(Err::<u8, bool>(true), "8201f5");
}

#[test]
fn sequences_are_arrays() {
    check(Vec::<u8>::new(), "80");
    check(vec![1u8, 2, 3], "83010203");
    check([1u8, 2, 3], "83010203");
    check(&[1u8, 2, 3][..], "83010203");
    check(VecDeque::from(vec![1u8, 2]), "820102");
    check(vec![vec![1u8], vec![]], "82810180");
    let v: Vec<u8> = (1..=25).collect();
    check(v, "98190102030405060708090a0b0c0d0e0f101112131415161718181819");
}

#[test]
fn tuples_are_arrays() {
    check((1u8,), "8101");
    check((1u8, "a"), "82016161");
    check(
        (1u8, 2u8, 3u8, 4u8, 5u8, 6u8, 7u8, 8u8, 9u8, 10u8, 11u8, 12u8, 13u8, 14u8, 15u8, 16u8),
        "900102030405060708090a0b0c0d0e0f10",
    );
}

#[test]
fn ranges_are_pairs() {
    check(1u8..3, "820103");
    check(1u8..=3, "820103");
}

#[test]
fn bounds_are_numbered_variants() {
    check(Bound::Included(1u8), "820001");
    check(Bound::Excluded(500u16), "82011901f4");
    check(Bound::<u8>::Unbounded, "820280");
    check(Bound::Included("a"), "82006161");
}

#[test]
fn references_and_boxes_encode_what_they_point_to() {
    check(&7u8, "07");
    check(Box::new(-2i32), "21");
    let mut x = 3u8;
    check(&mut x, "03");
}

#[test]
fn cow_encodes_what_it_borrows_or_owns() {
    check(Cow::Borrowed("IETF"), "6449455446");
    check(Cow::<str>::Owned(String::from("IETF")), "6449455446");
    let items: &[u8] = &[1, 2, 3];
    check(Cow::Borrowed(items), "83010203");
    check(Cow::<[u8]>::Owned(vec![1, 2, 3]), "83010203");
    check(Cow::<u16>::Owned(1000), "1903e8");
}

#[test]
fn cbor_writes_its_bytes_as_they_are() {
    let raw = [0x82u8, 0x01, 0x02];
    let c = Cbor::from(&raw[..]);
    assert_eq!(hex::encode(to_vec(c).unwrap()), "820102");
    let back: &[u8] = c.into();
    assert_eq!(back, &raw[..]);
    assert_eq!(c.as_slice(), &raw[..]);
}

#[test]
fn array_iter_with_exact_size_hint_is_definite() {
    let it = ArrayIter::new(vec![1u8, 2, 3].into_iter());
    assert_eq!(hex::encode(to_vec(it).unwrap()), "83010203");
}

#[test]
fn array_iter_with_inexact_size_hint_is_indefinite() {
    let it = ArrayIter::new((1u8..=5).filter(|x| x % 2 == 1));
    assert_eq!(hex::encode(to_vec(it).unwrap()), "9f010305ff");
    let none = ArrayIter::new((1u8..=5).filter(|x| *x > 5));
    assert_eq!(hex::encode(to_vec(none).unwrap()), "9fff");
    // An empty iterator knows its size exactly.
    let empty = ArrayIter::new(std::iter::empty::<u8>().filter(|_| true));
    assert_eq!(hex::encode(to_vec(empty).unwrap()), "80");
}

#[test]
fn array_iter_follows_the_given_hint() {
    let exact = ArrayIter::with_hint(vec![1u8, 2], 2, Some(2));
    assert_eq!(hex::encode(to_vec(exact).unwrap()), "820102");
    let open = ArrayIter::with_hint(vec![1u8, 2], 0, None);
    assert_eq!(hex::encode(to_vec(open).unwrap()), "9f0102ff");
}

#[test]
fn map_iter_encodes_keys_and_values() {
    let m = MapIter::new(vec![(1u8, 2u8), (3, 4)].into_iter());
    assert_eq!(hex::encode(to_vec(m).unwrap()), "a201020304");
    let m = MapIter::new(vec![("Fun", true)].into_iter().filter(|_| true));
    assert_eq!(hex::encode(to_vec(m).unwrap()), "bf6346756ef5ff");
}

#[test]
fn option_none_is_nil() {
    assert!(Encode::<()>::is_nil(&None::<u8>));
    assert!(!Encode::<()>::is_nil(&Some(0u8)));
    assert!(!Encode::<()>::is_nil(&0u8));
}

#[test]
fn encoder_writes_tags_and_indefinite_items() {
    let mut e = Encoder::new(Vec::new());
    e.tag(Tag::DateTime).unwrap();
    e.str("2013-03-21T20:04:00Z").unwrap();
    assert_eq!("c074323031332d30332d32315432303a30343a30305a", hex::encode(e.into_inner()));

    let mut e = Encoder::new(Vec::new());
    e.tag(Tag::Timestamp).unwrap();
    e.u32(1363896240).unwrap();
    assert_eq!("c11a514b67b0", hex::encode(e.into_inner()));

    let mut e = Encoder::new(Vec::new());
    e.tag(Tag::Uri).unwrap();
    e.str("http://www.example.com").unwrap();
    assert_eq!(
        "d82076687474703a2f2f7777772e6578616d706c652e636f6d",
        hex::encode(e.into_inner())
    );

    let mut e = Encoder::new(Vec::new());
    e.str("IETF").unwrap();
    let mut f = Encoder::new(Vec::new());
    f.tag(Tag::Cbor).unwrap();
    f.bytes(e.as_slice()).unwrap();
    assert_eq!("d818456449455446", hex::encode(f.into_inner()));

    let mut e = Encoder::new(Vec::new());
    e.begin_bytes().unwrap();
    e.bytes(&[1, 2]).unwrap();
    e.bytes(&[3, 4, 5]).unwrap();
    e.end().unwrap();
    assert_eq!("5f42010243030405ff", hex::encode(e.into_inner()));

    let mut e = Encoder::new(Vec::new());
    e.begin_str().unwrap();
    e.str("strea").unwrap();
    e.str("ming").unwrap();
    e.end().unwrap();
    assert_eq!("7f657374726561646d696e67ff", hex::encode(e.into_inner()));

    let mut e = Encoder::new(Vec::new());
    e.begin_map().unwrap();
    e.str("a").unwrap();
    e.u8(1).unwrap();
    e.str("b").unwrap();
    e.begin_array().unwrap();
    e.u8(2).unwrap();
    e.u8(3).unwrap();
    e.end().unwrap();
    e.end().unwrap();
    assert_eq!("bf61610161629f0203ffff", hex::encode(e.into_inner()));

    let mut e = Encoder::new(Vec::new());
    e.null().unwrap();
    e.undefined().unwrap();
    e.integer(Int::neg(0)).unwrap();
    e.char('z').unwrap();
    assert_eq!("f6f720187a", hex::encode(e.into_inner()));
}

#[test]
fn encoder_appends_to_what_it_was_given() {
    let mut e = Encoder::new(vec![0xaa]);
    e.u8(1).unwrap();
    e.put(&[0xbb, 0xcc]).unwrap();
    assert_eq!(e.writer(), &vec![0xaa, 0x01, 0xbb, 0xcc]);
    let mut e = Encoder::new(Vec::new());
    e.encode(&(1u8, 2u8)).unwrap();
    let mut ctx = ();
    e.encode_with(&-3i16, &mut ctx).unwrap();
    assert_eq!("82010222", hex::encode(e.into_inner()));
}

#[test]
fn tag_numbers_roundtrip() {
    let named = [
        (Tag::DateTime, 0u64),
        (Tag::Timestamp, 1),
        (Tag::PosBignum, 2),
        (Tag::NegBignum, 3),
        (Tag::Decimal, 4),
        (Tag::Bigfloat, 5),
        (Tag::ToBase64Url, 0x15),
        (Tag::ToBase64, 0x16),
        (Tag::ToBase16, 0x17),
        (Tag::Cbor, 0x18),
        (Tag::Uri, 0x20),
        (Tag::Base64Url, 0x21),
        (Tag::Base64, 0x22),
        (Tag::Regex, 0x23),
        (Tag::Mime, 0x24),
    ];
    for (t, n) in named {
        assert_eq!(t.numeric(), n);
        assert_eq!(Tag::from(n), t);
    }
    assert_eq!(Tag::from(6), Tag::Unassigned(6));
    assert_eq!(Tag::Unassigned(55799).numeric(), 55799);
    // A non-canonical tag keeps its number but comes back under its name.
    assert_eq!(Tag::from(Tag::Unassigned(0).numeric()), Tag::DateTime);
}

#[test]
fn type_names() {
    assert_eq!(Type::Bool.to_string(), "bool");
    assert_eq!(Type::ArrayIndef.to_string(), "indefinite array");
    assert_eq!(Type::Dict.to_string(), "map");
    assert_eq!(Type::Unknown(0x1c).to_string(), "0x1c");
    assert_eq!(Type::Unknown(0).to_string(), "0x0");
    assert_eq!(Type::Unknown(0xff).to_string(), "0xff");
}

#[test]
fn type_names_are_all_different() {
    let mut all = vec![
        Type::Bool, Type::Null, Type::Undefined, Type::U8, Type::U16, Type::U32, Type::U64,
        Type::I8, Type::I16, Type::I32, Type::I64, Type::Int, Type::F16, Type::F32, Type::F64,
        Type::Simple, Type::Bytes, Type::BytesIndef, Type::String, Type::StringIndef,
        Type::Array, Type::ArrayIndef, Type::Dict, Type::MapIndef, Type::Tag, Type::Break,
    ];
    for b in 0..=255u8 {
        all.push(Type::Unknown(b));
    }
    let mut names: Vec<String> = all.iter().map(|t| t.to_string()).collect();
    names.sort();
    names.dedup();
    assert_eq!(names.len(), all.len());
}

#[test]
fn extreme_ints() {
    assert_eq!(i128::from(max_int()), 0xFFFF_FFFF_FFFF_FFFF);
    assert_eq!(i128::from(min_int()), -0x1_0000_0000_0000_0000);
    check(max_int(), "1bffffffffffffffff");
    check(min_int(), "3bffffffffffffffff");
}

#[test]
fn int_conversions() {
    assert_eq!(i64::try_from(Int::from(i64::MIN)).unwrap(), i64::MIN);
    assert_eq!(i64::try_from(Int::from(i64::MAX)).unwrap(), i64::MAX);
    assert_eq!(u64::try_from(Int::from(u64::MAX)).unwrap(), u64::MAX);
    let e = i64::try_from(Int::pos(1 << 63)).unwrap_err();
    assert_eq!(e.to_string(), "value out of i64 range");
    let e = u64::try_from(Int::neg(0)).unwrap_err();
    assert_eq!(e.to_string(), "value out of u64 range");
    assert_eq!(i128::from(Int::try_from(-0x1_0000_0000_0000_0000i128).unwrap()), -0x1_0000_0000_0000_0000i128);
    assert_eq!(i128::from(Int::try_from(0xffff_ffff_ffff_ffffi128).unwrap()), 0xffff_ffff_ffff_ffffi128);
    let e = Int::try_from(-0x1_0000_0000_0000_0001i128).unwrap_err();
    assert_eq!(e.to_string(), "value out of Int range");
    assert!(Int::try_from(0x1_0000_0000_0000_0000i128).is_err());
    assert!(Int::neg(0).is_negative());
    assert_eq!(Int::neg(7).value(), 7);
    assert_eq!(Int::neg(u64::MAX).to_string(), "-18446744073709551616");
    assert_eq!(Int::pos(0).to_string(), "0");
    assert_eq!(Int::from(-1000i64).to_string(), "-1000");
}

#[test]
fn cbor_decodes_and_encodes_as_is() {
    let x = hex::decode("a26161016162820203f5").unwrap();
    let mut d = Decoder::from_slice(&x);
    let c = Cbor::decode(&mut d).unwrap();
    assert_eq!(c.as_slice(), &x[..9]);
    assert_eq!(hex::encode(to_vec(c).unwrap()), "a26161016162820203");
    assert_eq!(d.bool(), Ok(true));
}
