use minicbor::data::Type;
use minicbor::{Decoder, Encoder};

// Test vectors of RFC 7049
//
// See https://github.com/cbor/test-vectors and https://tools.ietf.org/html/rfc7049#appendix-A
//
// Each helper decodes a hex-string and compares the result against an
// expected value. If successful, it encodes the result and compares against
// the given hex-string.

fn roundtrip_u64(s: &str, expected: u64) {
    let x = hex::decode(s).unwrap();
    let mut d = Decoder::from_slice(&x);
    let v = d.u64().unwrap();
    assert_eq!(expected, v);

    let mut e = Encoder::new(Vec::new());
    e.u64(v).unwrap();
    let y = hex::encode(e.into_inner());
    assert_eq!(s, y);
}

fn roundtrip_i64(s: &str, expected: i64) {
    let x = hex::decode(s).unwrap();
    let mut d = Decoder::from_slice(&x);
    let v = d.i64().unwrap();
    assert_eq!(expected, v);

    let mut e = Encoder::new(Vec::new());
    e.i64(v).unwrap();
    let y = hex::encode(e.into_inner());
    assert_eq!(s, y);
}

fn roundtrip_bytes(s: &str, expected: &[u8]) {
    let x = hex::decode(s).unwrap();
    let mut d = Decoder::from_slice(&x);
    let v = d.bytes().unwrap();
    assert_eq!(expected, v);

    let mut e = Encoder::new(Vec::new());
    e.bytes(v).unwrap();
    let y = hex::encode(e.into_inner());
    assert_eq!(s, y);
}

fn roundtrip_str(s: &str, expected: &str) {
    let x = hex::decode(s).unwrap();
    let mut d = Decoder::from_slice(&x);
    let v = d.str().unwrap();
    assert_eq!(expected, v);

    let mut e = Encoder::new(Vec::new());
    e.str(v).unwrap();
    let y = hex::encode(e.into_inner());
    assert_eq!(s, y);
}

fn roundtrip_bool(s: &str, expected: bool) {
    let x = hex::decode(s).unwrap();
    let mut d = Decoder::from_slice(&x);
    let v = d.bool().unwrap();
    assert_eq!(expected, v);

    let mut e = Encoder::new(Vec::new());
    e.bool(v).unwrap();
    let y = hex::encode(e.into_inner());
    assert_eq!(s, y);
}

fn roundtrip_simple(s: &str, expected: u8) {
    let x = hex::decode(s).unwrap();
    let mut d = Decoder::from_slice(&x);
    let v = d.simple().unwrap();
    assert_eq!(expected, v);

    let mut e = Encoder::new(Vec::new());
    e.simple(v).unwrap();
    let y = hex::encode(e.into_inner());
    assert_eq!(s, y);
}

#[test]
fn rfc_tv_uint() {
    roundtrip_u64("00", 0);
    roundtrip_u64("01", 1);
    roundtrip_u64("0a", 10);
    roundtrip_u64("17", 23);
    roundtrip_u64("1818", 24);
    roundtrip_u64("1903e8", 1000);
    roundtrip_u64("1a000f4240", 1000000);
    roundtrip_u64("1b000000e8d4a51000", 1000000000000);
    roundtrip_u64("1bffffffffffffffff", 18446744073709551615);
}

#[test]
fn rfc_tv_int() {
    roundtrip_i64("20", -1);
    roundtrip_i64("29", -10);
    roundtrip_i64("3863", -100);
    roundtrip_i64("3903e7", -1000);
}

#[test]
fn rfc_tv_small() {
    roundtrip_bool("f4", false);
    roundtrip_bool("f5", true);
    roundtrip_simple("f0", 16);
    roundtrip_simple("f818", 24);
    roundtrip_simple("f8ff", 255);

    let x = hex::decode("f6").unwrap();
    let d = Decoder::from_slice(&x);
    assert_eq!(Type::Null, d.datatype().unwrap());

    let x = hex::decode("f7").unwrap();
    let d = Decoder::from_slice(&x);
    assert_eq!(Type::Undefined, d.datatype().unwrap())
}

#[test]
fn rfc_tv_bytes() {
    roundtrip_bytes("40", b"");
    roundtrip_bytes("4401020304", &[1, 2, 3, 4]);
}

#[test]
fn rfc_tv_string() {
    roundtrip_str("60", "");
    roundtrip_str("6161", "a");
    roundtrip_str("6449455446", "IETF");
    roundtrip_str("62225c", "\"\\");
    roundtrip_str("62c3bc", "ü");
    roundtrip_str("63e6b0b4", "水");
    roundtrip_str("64f0908591", "𐅑");
}
