use minicbor::data::{Int, Tag, Type};
use minicbor::decode::Error;
use minicbor::encode::{ArrayIter, MapIter};
use minicbor::{to_vec, Decoder, Encoder};

#[test]
fn decoder_reports_the_end_of_input() {
    let mut d = Decoder::from_slice(&[]);
    assert_eq!(d.u8(), Err(Error::EndOfInput));
    assert_eq!(d.datatype(), Err(Error::EndOfInput));
    let x = [0x19, 0x01];
    let mut d = Decoder::from_slice(&x);
    assert_eq!(d.u16(), Err(Error::EndOfInput));
    assert_eq!(d.position(), 0);
    let x = [0x43, 0x01, 0x02];
    let mut d = Decoder::from_slice(&x);
    assert_eq!(d.bytes(), Err(Error::EndOfInput));
    let x = [0xf8];
    let mut d = Decoder::from_slice(&x);
    assert_eq!(d.simple(), Err(Error::EndOfInput));
}

#[test]
fn decoder_reports_type_mismatches_and_stays_put() {
    let x = [0x61, 0x61];
    let mut d = Decoder::from_slice(&x);
    assert_eq!(d.u64(), Err(Error::TypeMismatch(Type::String)));
    assert_eq!(d.i8(), Err(Error::TypeMismatch(Type::String)));
    assert_eq!(d.bool(), Err(Error::TypeMismatch(Type::String)));
    assert_eq!(d.null(), Err(Error::TypeMismatch(Type::String)));
    assert_eq!(d.array(), Err(Error::TypeMismatch(Type::String)));
    assert_eq!(d.position(), 0);
    assert_eq!(d.str(), Ok("a"));
    assert_eq!(d.position(), 2);
    let x = [0x5f];
    let mut d = Decoder::from_slice(&x);
    assert_eq!(d.bytes(), Err(Error::TypeMismatch(Type::BytesIndef)));
    let x = [0x1c];
    let mut d = Decoder::from_slice(&x);
    assert_eq!(d.u64(), Err(Error::TypeMismatch(Type::Unknown(0x1c))));
}

#[test]
fn decoder_reports_overflow() {
    let x = [0x19, 0x01, 0x00];
    let mut d = Decoder::from_slice(&x);
    assert_eq!(d.u8(), Err(Error::Overflow(256)));
    assert_eq!(d.u16(), Ok(256));
    let x = [0x38, 0x80];
    let mut d = Decoder::from_slice(&x);
    assert_eq!(d.i8(), Err(Error::Overflow(128)));
    assert_eq!(d.i16(), Ok(-129));
    let x = hex::decode("3bffffffffffffffff").unwrap();
    let mut d = Decoder::from_slice(&x);
    assert_eq!(d.i64(), Err(Error::Overflow(u64::MAX)));
    assert_eq!(d.integer(), Ok(Int::neg(u64::MAX)));
}

#[test]
fn decoder_rejects_invalid_utf8() {
    let x = [0x62, 0xff, 0xfe];
    let mut d = Decoder::from_slice(&x);
    assert_eq!(d.str(), Err(Error::Utf8));
    assert_eq!(d.position(), 0);
    assert_eq!(d.bytes(), Err(Error::TypeMismatch(Type::String)));
    let x = [0x42, 0xff, 0xfe];
    let mut d = Decoder::from_slice(&x);
    assert_eq!(d.bytes(), Ok(&[0xffu8, 0xfe][..]));
}

#[test]
fn decoder_accepts_longer_heads_than_needed() {
    let x = [0x18, 0x00, 0x19, 0x00, 0x05];
    let mut d = Decoder::from_slice(&x);
    assert_eq!(d.u32(), Ok(0));
    assert_eq!(d.u8(), Ok(5));
    assert_eq!(d.position(), 5);
}

#[test]
fn decoder_reads_containers_and_tags() {
    let x = hex::decode("826161bf61626163ff").unwrap();
    let mut d = Decoder::from_slice(&x);
    assert_eq!(Some(2), d.array().unwrap());
    assert_eq!("a", d.str().unwrap());
    assert_eq!(None, d.map().unwrap());
    assert_eq!("b", d.str().unwrap());
    assert_eq!("c", d.str().unwrap());
    assert_eq!(Type::Break, d.datatype().unwrap());

    let x = hex::decode("d74401020304").unwrap();
    let mut d = Decoder::from_slice(&x);
    assert_eq!(Tag::ToBase16, d.tag().unwrap());
    assert_eq!(Type::Bytes, d.datatype().unwrap());
    assert_eq!([1, 2, 3, 4], d.bytes().unwrap());

    let x = hex::decode("c11a514b67b0").unwrap();
    let mut d = Decoder::from_slice(&x);
    assert_eq!(Tag::Timestamp, d.tag().unwrap());
    assert_eq!(Type::U32, d.datatype().unwrap());
    assert_eq!(1363896240, d.u32().unwrap());

    let x = hex::decode("d818456449455446").unwrap();
    let mut d = Decoder::from_slice(&x);
    assert_eq!(Tag::Cbor, d.tag().unwrap());
    assert_eq!(Type::Bytes, d.datatype().unwrap());
    let mut g = Decoder::from_slice(d.bytes().unwrap());
    assert_eq!(Type::String, g.datatype().unwrap());
    assert_eq!("IETF", g.str().unwrap());

    let x = hex::decode("bf6346756ef563416d7421ff").unwrap();
    let mut d = Decoder::from_slice(&x);
    assert_eq!(None, d.map().unwrap());
    assert_eq!("Fun", d.str().unwrap());
    assert_eq!(true, d.bool().unwrap());
    assert_eq!("Amt", d.str().unwrap());
    assert_eq!(-2, d.i8().unwrap());
    assert_eq!(Type::Break, d.datatype().unwrap());
}

#[test]
fn decoded_values_encode_back() {
    let x = hex::decode("8301820203820405").unwrap();
    let mut d = Decoder::from_slice(&x);
    let mut e = Encoder::new(Vec::new());
    e.array(d.array().unwrap().unwrap()).unwrap();
    e.u8(d.u8().unwrap()).unwrap();
    e.array(d.array().unwrap().unwrap()).unwrap();
    e.u8(d.u8().unwrap()).unwrap();
    e.u8(d.u8().unwrap()).unwrap();
    e.array(d.array().unwrap().unwrap()).unwrap();
    e.u8(d.u8().unwrap()).unwrap();
    e.u8(d.u8().unwrap()).unwrap();
    assert_eq!("8301820203820405", hex::encode(e.into_inner()));

    let x = hex::decode("a26161016162820203").unwrap();
    let mut d = Decoder::from_slice(&x);
    assert_eq!(Some(2), d.map().unwrap());
    assert_eq!("a", d.str().unwrap());
    assert_eq!(1, d.u8().unwrap());
    assert_eq!("b", d.str().unwrap());
    assert_eq!(Some(2), d.array().unwrap());
    assert_eq!(2, d.u8().unwrap());
    assert_eq!(3, d.u8().unwrap());
    assert_eq!(d.input_slice(), &x[..]);

    let x = hex::decode("f7f6e0").unwrap();
    let mut d = Decoder::from_slice(&x);
    d.undefined().unwrap();
    d.null().unwrap();
    assert_eq!(d.simple(), Ok(0));
}

#[test]
fn skip_reads_past_whole_items() {
    let x = hex::decode("9f018202039f0405ffff").unwrap();
    let mut d = Decoder::from_slice(&x);
    d.skip().unwrap();
    assert_eq!(d.position(), 10);

    let x = hex::decode("83019f0203ff820405").unwrap();
    let mut d = Decoder::from_slice(&x);
    assert_eq!(Some(3), d.array().unwrap());
    assert_eq!(1, d.u8().unwrap());
    assert_eq!(None, d.array().unwrap());
    assert_eq!(2, d.u8().unwrap());
    assert_eq!(3, d.u8().unwrap());
    assert_eq!(Type::Break, d.datatype().unwrap());
    d.skip().unwrap();
    assert_eq!(Some(2), d.array().unwrap());
    assert_eq!(4, d.u8().unwrap());
    assert_eq!(5, d.u8().unwrap());

    let x = hex::decode("bf61610161629f0203ffff01").unwrap();
    let mut d = Decoder::from_slice(&x);
    d.skip().unwrap();
    assert_eq!(d.u8(), Ok(1));

    let x = hex::decode("c074323031332d30332d32315432303a30343a30305af97e00fb3ff199999999999a5f42010243030405ff7f657374726561646d696e67ff").unwrap();
    let mut d = Decoder::from_slice(&x);
    for _ in 0..5 {
        d.skip().unwrap();
    }
    assert_eq!(d.position(), x.len());
}

#[test]
fn skip_reports_malformed_items_and_stays_put() {
    let cases: [(&str, Error); 7] = [
        ("8201", Error::EndOfInput),
        ("81ff", Error::TypeMismatch(Type::Break)),
        ("5f6161ff", Error::TypeMismatch(Type::String)),
        ("5f5f4101ffff", Error::TypeMismatch(Type::BytesIndef)),
        ("1c", Error::TypeMismatch(Type::Unknown(0x1c))),
        ("9bffffffffffffffff00", Error::EndOfInput),
        ("bf01ff", Error::TypeMismatch(Type::Break)),
    ];
    for (s, e) in cases {
        let x = hex::decode(s).unwrap();
        let mut d = Decoder::from_slice(&x);
        assert_eq!(d.skip(), Err(e));
        assert_eq!(d.position(), 0);
    }
    let mut d = Decoder::from_slice(&[]);
    assert_eq!(d.skip(), Err(Error::EndOfInput));
}

#[test]
fn skip_handles_deep_nesting() {
    let mut x = vec![0x81u8; 100_000];
    x.push(0x00);
    let mut d = Decoder::from_slice(&x);
    d.skip().unwrap();
    assert_eq!(d.position(), 100_001);
}

#[test]
fn consume_gives_back_the_item() {
    let x = hex::decode("8301820203820405f6").unwrap();
    let mut d = Decoder::from_slice(&x);
    assert_eq!(d.consume().unwrap(), &x[..8]);
    assert_eq!(d.consume().unwrap(), &[0xf6u8][..]);
    assert_eq!(d.consume(), Err(Error::EndOfInput));
}

/// Skips one item of `bytes` followed by a trailing byte and checks that
/// exactly the item was read.
fn reads_as_one_item(bytes: &[u8]) {
    let mut x = bytes.to_vec();
    x.push(0x00);
    let mut d = Decoder::from_slice(&x);
    d.skip().unwrap();
    assert_eq!(d.position(), bytes.len());
    assert_eq!(d.u8(), Ok(0));
}

#[test]
fn encodings_are_single_well_formed_items() {
    reads_as_one_item(&to_vec(u64::MAX).unwrap());
    reads_as_one_item(&to_vec(i64::MIN).unwrap());
    reads_as_one_item(&to_vec("IETF").unwrap());
    reads_as_one_item(&to_vec(true).unwrap());
    reads_as_one_item(&to_vec(Ok::<u8, &str>(1)).unwrap());
    reads_as_one_item(&to_vec(Err::<u8, &str>("a")).unwrap());
    reads_as_one_item(&to_vec(vec![vec![1u8, 2], vec![], vec![3]]).unwrap());
    reads_as_one_item(&to_vec(ArrayIter::new([1u8, 2, 3].into_iter())).unwrap());
    reads_as_one_item(&to_vec(ArrayIter::new([1u8, 2, 3].into_iter().filter(|x| *x > 1))).unwrap());
    let m = MapIter::new([(1u8, "a"), (2, "b")].into_iter());
    reads_as_one_item(&to_vec(m).unwrap());
    let m = MapIter::new([(1u8, "a"), (2, "b")].into_iter().filter(|e| e.0 > 1));
    reads_as_one_item(&to_vec(m).unwrap());

    let mut e = Encoder::new(Vec::new());
    e.tag(Tag::Timestamp).unwrap();
    e.u32(1363896240).unwrap();
    reads_as_one_item(&e.into_inner());
}
