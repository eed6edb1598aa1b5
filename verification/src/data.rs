//! Information about CBOR data types and tags.
use vstd::arithmetic::div_mod::{lemma_div_decreases, lemma_small_mod};
use crate::decode::{skip_result, Decoder, Error as DecodeError};
use vstd::prelude::*;
use vstd::std_specs::convert::{FromSpec, FromSpecImpl, TryFromSpec, TryFromSpecImpl};

verus! {

/// CBOR data types.
#[derive(Clone, Copy, PartialEq, Eq, Structural, PartialOrd, Ord, Debug, Hash)]
pub enum Type {
    Bool,
    Null,
    Undefined,
    U8,
    U16,
    U32,
    U64,
    I8,
    I16,
    I32,
    I64,
    Int,
    F16,
    F32,
    F64,
    Simple,
    Bytes,
    BytesIndef,
    String,
    StringIndef,
    Array,
    ArrayIndef,
    Dict,
    MapIndef,
    Tag,
    Break,
    Unknown(u8),
}

/// The lower-case hexadecimal digit of `d` (for `d < 16`).
pub open spec fn hex_digit(d: nat) -> char {
    if d == 0 { '0' }
    else if d == 1 { '1' }
    else if d == 2 { '2' }
    else if d == 3 { '3' }
    else if d == 4 { '4' }
    else if d == 5 { '5' }
    else if d == 6 { '6' }
    else if d == 7 { '7' }
    else if d == 8 { '8' }
    else if d == 9 { '9' }
    else if d == 10 { 'a' }
    else if d == 11 { 'b' }
    else if d == 12 { 'c' }
    else if d == 13 { 'd' }
    else if d == 14 { 'e' }
    else { 'f' }
}

/// The digits of `n` in base `b` (for `b` in `2 ..= 16`), without leading
/// zeros; zero is written as a single digit.
pub open spec fn digits(n: nat, b: nat) -> Seq<char>
    decreases n,
{
    if n < b || b < 2 {
        seq![hex_digit(n)]
    } else {
        proof {
            lemma_div_decreases(n as int, b as int);
        }
        digits(n / b, b).push(hex_digit(n % b))
    }
}

/// How a data type is shown to people.
pub open spec fn type_text(t: Type) -> Seq<char> {
    match t {
        Type::Bool => "bool"@,
        Type::Null => "null"@,
        Type::Undefined => "undefined"@,
        Type::U8 => "u8"@,
        Type::U16 => "u16"@,
        Type::U32 => "u32"@,
        Type::U64 => "u64"@,
        Type::I8 => "i8"@,
        Type::I16 => "i16"@,
        Type::I32 => "i32"@,
        Type::I64 => "i64"@,
        Type::Int => "int"@,
        Type::F16 => "f16"@,
        Type::F32 => "f32"@,
        Type::F64 => "f64"@,
        Type::Simple => "simple"@,
        Type::Bytes => "bytes"@,
        Type::BytesIndef => "indefinite bytes"@,
        Type::String => "string"@,
        Type::StringIndef => "indefinite string"@,
        Type::Array => "array"@,
        Type::ArrayIndef => "indefinite array"@,
        Type::Dict => "map"@,
        Type::MapIndef => "indefinite map"@,
        Type::Tag => "tag"@,
        Type::Break => "break"@,
        Type::Unknown(n) => "0x"@ + digits(n as nat, 16),
    }
}

/// The one-character string of the digit `d` (for `d < 16`).
fn digit_str(d: u8) -> (s: &'static str)
    requires
        d < 16,
    ensures
        s@ == seq![hex_digit(d as nat)],
{
    proof {
        reveal_strlit("0");
        reveal_strlit("1");
        reveal_strlit("2");
        reveal_strlit("3");
        reveal_strlit("4");
        reveal_strlit("5");
        reveal_strlit("6");
        reveal_strlit("7");
        reveal_strlit("8");
        reveal_strlit("9");
        reveal_strlit("a");
        reveal_strlit("b");
        reveal_strlit("c");
        reveal_strlit("d");
        reveal_strlit("e");
        reveal_strlit("f");
    }
    match d {
        0 => "0",
        1 => "1",
        2 => "2",
        3 => "3",
        4 => "4",
        5 => "5",
        6 => "6",
        7 => "7",
        8 => "8",
        9 => "9",
        10 => "a",
        11 => "b",
        12 => "c",
        13 => "d",
        14 => "e",
        _ => "f",
    }
}

/// Appends the digits of `n` in base `b`.
fn push_digits(s: &mut String, n: u128, b: u128)
    requires
        2 <= b <= 16,
    ensures
        final(s)@ == old(s)@ + digits(n as nat, b as nat),
    decreases n,
{
    if n >= b {
        proof {
            lemma_div_decreases(n as int, b as int);
        }
        push_digits(s, n / b, b);
    } else {
        proof {
            lemma_small_mod(n as nat, b as nat);
        }
    }
    s.append(digit_str((n % b) as u8));
    assert(s@ =~= old(s)@ + digits(n as nat, b as nat));
}

impl Type {
    /// How this data type is shown to people, e.g. `"indefinite array"` or,
    /// for an unknown initial byte, that byte in hexadecimal (`"0x1c"`).
    pub fn to_string(&self) -> (s: String)
        ensures
            s@ == type_text(*self),
    {
        match self {
            Type::Bool => String::from_str("bool"),
            Type::Null => String::from_str("null"),
            Type::Undefined => String::from_str("undefined"),
            Type::U8 => String::from_str("u8"),
            Type::U16 => String::from_str("u16"),
            Type::U32 => String::from_str("u32"),
            Type::U64 => String::from_str("u64"),
            Type::I8 => String::from_str("i8"),
            Type::I16 => String::from_str("i16"),
            Type::I32 => String::from_str("i32"),
            Type::I64 => String::from_str("i64"),
            Type::Int => String::from_str("int"),
            Type::F16 => String::from_str("f16"),
            Type::F32 => String::from_str("f32"),
            Type::F64 => String::from_str("f64"),
            Type::Simple => String::from_str("simple"),
            Type::Bytes => String::from_str("bytes"),
            Type::BytesIndef => String::from_str("indefinite bytes"),
            Type::String => String::from_str("string"),
            Type::StringIndef => String::from_str("indefinite string"),
            Type::Array => String::from_str("array"),
            Type::ArrayIndef => String::from_str("indefinite array"),
            Type::Dict => String::from_str("map"),
            Type::MapIndef => String::from_str("indefinite map"),
            Type::Tag => String::from_str("tag"),
            Type::Break => String::from_str("break"),
            Type::Unknown(n) => {
                let mut s = String::from_str("0x");
                push_digits(&mut s, *n as u128, 16);
                s
            },
        }
    }
}

/// The length, first and last character of a text.
spec fn text_sig(s: Seq<char>) -> (nat, char, char) {
    (s.len(), s[0], s[s.len() - 1])
}

/// The named data type whose text has the length, first and last character
/// `k`, if any.
spec fn sig_type(k: (nat, char, char)) -> Option<Type> {
    if k == (4nat, 'b', 'l') { Some(Type::Bool) }
    else if k == (4nat, 'n', 'l') { Some(Type::Null) }
    else if k == (9nat, 'u', 'd') { Some(Type::Undefined) }
    else if k == (2nat, 'u', '8') { Some(Type::U8) }
    else if k == (3nat, 'u', '6') { Some(Type::U16) }
    else if k == (3nat, 'u', '2') { Some(Type::U32) }
    else if k == (3nat, 'u', '4') { Some(Type::U64) }
    else if k == (2nat, 'i', '8') { Some(Type::I8) }
    else if k == (3nat, 'i', '6') { Some(Type::I16) }
    else if k == (3nat, 'i', '2') { Some(Type::I32) }
    else if k == (3nat, 'i', '4') { Some(Type::I64) }
    else if k == (3nat, 'i', 't') { Some(Type::Int) }
    else if k == (3nat, 'f', '6') { Some(Type::F16) }
    else if k == (3nat, 'f', '2') { Some(Type::F32) }
    else if k == (3nat, 'f', '4') { Some(Type::F64) }
    else if k == (6nat, 's', 'e') { Some(Type::Simple) }
    else if k == (5nat, 'b', 's') { Some(Type::Bytes) }
    else if k == (16nat, 'i', 's') { Some(Type::BytesIndef) }
    else if k == (6nat, 's', 'g') { Some(Type::String) }
    else if k == (17nat, 'i', 'g') { Some(Type::StringIndef) }
    else if k == (5nat, 'a', 'y') { Some(Type::Array) }
    else if k == (16nat, 'i', 'y') { Some(Type::ArrayIndef) }
    else if k == (3nat, 'm', 'p') { Some(Type::Dict) }
    else if k == (14nat, 'i', 'p') { Some(Type::MapIndef) }
    else if k == (3nat, 't', 'g') { Some(Type::Tag) }
    else if k == (5nat, 'b', 'k') { Some(Type::Break) }
    else { None }
}

/// The text of a named data type has a length, first and last character
/// that no other named type's text has, and does not start with `'0'`.
proof fn lemma_named_text(t: Type)
    requires
        !(t is Unknown),
    ensures
        type_text(t).len() > 0,
        type_text(t)[0] != '0',
        sig_type(text_sig(type_text(t))) == Some(t),
{
    reveal_strlit("bool");
    reveal_strlit("null");
    reveal_strlit("undefined");
    reveal_strlit("u8");
    reveal_strlit("u16");
    reveal_strlit("u32");
    reveal_strlit("u64");
    reveal_strlit("i8");
    reveal_strlit("i16");
    reveal_strlit("i32");
    reveal_strlit("i64");
    reveal_strlit("int");
    reveal_strlit("f16");
    reveal_strlit("f32");
    reveal_strlit("f64");
    reveal_strlit("simple");
    reveal_strlit("bytes");
    reveal_strlit("indefinite bytes");
    reveal_strlit("string");
    reveal_strlit("indefinite string");
    reveal_strlit("array");
    reveal_strlit("indefinite array");
    reveal_strlit("map");
    reveal_strlit("indefinite map");
    reveal_strlit("tag");
    reveal_strlit("break");
}

/// The digit `c` stands for, or 16 for a character that is no digit.
spec fn hex_value(c: char) -> nat {
    if c == '0' { 0 }
    else if c == '1' { 1 }
    else if c == '2' { 2 }
    else if c == '3' { 3 }
    else if c == '4' { 4 }
    else if c == '5' { 5 }
    else if c == '6' { 6 }
    else if c == '7' { 7 }
    else if c == '8' { 8 }
    else if c == '9' { 9 }
    else if c == 'a' { 10 }
    else if c == 'b' { 11 }
    else if c == 'c' { 12 }
    else if c == 'd' { 13 }
    else if c == 'e' { 14 }
    else if c == 'f' { 15 }
    else { 16 }
}

/// A byte is written with one hexadecimal digit below 16 and two above, and
/// each digit gives its value back.
proof fn lemma_byte_digits(n: nat)
    requires
        n < 256,
    ensures
        n < 16 ==> digits(n, 16) == seq![hex_digit(n)],
        n >= 16 ==> digits(n, 16) == seq![hex_digit(n / 16), hex_digit(n % 16)],
        hex_value(hex_digit(n % 16)) == n % 16,
        hex_value(hex_digit(n / 16)) == n / 16,
        n < 16 ==> hex_value(hex_digit(n)) == n,
{
    if n >= 16 {
        assert(n / 16 < 16);
        assert(digits(n / 16, 16) == seq![hex_digit(n / 16)]);
        assert(digits(n, 16) =~= seq![hex_digit(n / 16), hex_digit(n % 16)]);
    }
}

/// Different data types are shown as different texts.
pub proof fn law_type_text_injective(a: Type, b: Type)
    requires
        type_text(a) == type_text(b),
    ensures
        a == b,
{
    reveal_strlit("0x");
    if let Type::Unknown(n) = a {
        if let Type::Unknown(m) = b {
            let ta = type_text(a);
            let tb = type_text(b);
            assert(ta.skip(2) =~= digits(n as nat, 16));
            assert(tb.skip(2) =~= digits(m as nat, 16));
            lemma_byte_digits(n as nat);
            lemma_byte_digits(m as nat);
            let dn = digits(n as nat, 16);
            let dm = digits(m as nat, 16);
            assert(dn == dm);
            if n < 16 {
                assert(dn[0] == dm[0]);
            } else {
                assert(dn[0] == dm[0] && dn[1] == dm[1]);
                assert(n as nat == 16 * (n as nat / 16) + n as nat % 16);
                assert(m as nat == 16 * (m as nat / 16) + m as nat % 16);
            }
        } else {
            lemma_named_text(b);
            assert(type_text(a)[0] == '0');
        }
    } else {
        lemma_named_text(a);
        if b is Unknown {
            assert(type_text(b)[0] == '0');
        } else {
            lemma_named_text(b);
        }
    }
}

/// CBOR data item tag.
#[derive(Clone, Copy, PartialEq, Eq, Structural, PartialOrd, Ord, Debug, Hash)]
pub enum Tag {
    DateTime,
    Timestamp,
    PosBignum,
    NegBignum,
    Decimal,
    Bigfloat,
    ToBase64Url,
    ToBase64,
    ToBase16,
    Cbor,
    Uri,
    Base64Url,
    Base64,
    Regex,
    Mime,
    Unassigned(u64),
}

/// The tag that the number `n` denotes.
pub open spec fn tag_of(n: u64) -> Tag {
    if n == 0x00 { Tag::DateTime }
    else if n == 0x01 { Tag::Timestamp }
    else if n == 0x02 { Tag::PosBignum }
    else if n == 0x03 { Tag::NegBignum }
    else if n == 0x04 { Tag::Decimal }
    else if n == 0x05 { Tag::Bigfloat }
    else if n == 0x15 { Tag::ToBase64Url }
    else if n == 0x16 { Tag::ToBase64 }
    else if n == 0x17 { Tag::ToBase16 }
    else if n == 0x18 { Tag::Cbor }
    else if n == 0x20 { Tag::Uri }
    else if n == 0x21 { Tag::Base64Url }
    else if n == 0x22 { Tag::Base64 }
    else if n == 0x23 { Tag::Regex }
    else if n == 0x24 { Tag::Mime }
    else { Tag::Unassigned(n) }
}

/// The number that a tag stands for.
pub open spec fn number_of(t: Tag) -> u64 {
    match t {
        Tag::DateTime => 0x00,
        Tag::Timestamp => 0x01,
        Tag::PosBignum => 0x02,
        Tag::NegBignum => 0x03,
        Tag::Decimal => 0x04,
        Tag::Bigfloat => 0x05,
        Tag::ToBase64Url => 0x15,
        Tag::ToBase64 => 0x16,
        Tag::ToBase16 => 0x17,
        Tag::Cbor => 0x18,
        Tag::Uri => 0x20,
        Tag::Base64Url => 0x21,
        Tag::Base64 => 0x22,
        Tag::Regex => 0x23,
        Tag::Mime => 0x24,
        Tag::Unassigned(n) => n,
    }
}

impl Tag {
    /// The tag denoted by the number `n`.
    pub fn from(n: u64) -> (t: Tag)
        ensures
            t == tag_of(n),
    {
        match n {
            0x00 => Tag::DateTime,
            0x01 => Tag::Timestamp,
            0x02 => Tag::PosBignum,
            0x03 => Tag::NegBignum,
            0x04 => Tag::Decimal,
            0x05 => Tag::Bigfloat,
            0x15 => Tag::ToBase64Url,
            0x16 => Tag::ToBase64,
            0x17 => Tag::ToBase16,
            0x18 => Tag::Cbor,
            0x20 => Tag::Uri,
            0x21 => Tag::Base64Url,
            0x22 => Tag::Base64,
            0x23 => Tag::Regex,
            0x24 => Tag::Mime,
            _ => Tag::Unassigned(n),
        }
    }

    /// The number this tag stands for.
    pub fn numeric(self) -> (n: u64)
        ensures
            n == number_of(self),
    {
        match self {
            Tag::DateTime => 0x00,
            Tag::Timestamp => 0x01,
            Tag::PosBignum => 0x02,
            Tag::NegBignum => 0x03,
            Tag::Decimal => 0x04,
            Tag::Bigfloat => 0x05,
            Tag::ToBase64Url => 0x15,
            Tag::ToBase64 => 0x16,
            Tag::ToBase16 => 0x17,
            Tag::Cbor => 0x18,
            Tag::Uri => 0x20,
            Tag::Base64Url => 0x21,
            Tag::Base64 => 0x22,
            Tag::Regex => 0x23,
            Tag::Mime => 0x24,
            Tag::Unassigned(n) => n,
        }
    }
}

/// Choosing the tag of a number and taking its number back gives the number.
pub proof fn law_tag_number_roundtrip(n: u64)
    ensures
        number_of(tag_of(n)) == n,
{
}

/// A tag is canonical when it is the tag its own number denotes, i.e. when
/// it is not an `Unassigned` wrapper of a number that has a name.
pub open spec fn canonical_tag(t: Tag) -> bool {
    match t {
        Tag::Unassigned(n) => tag_of(n) == Tag::Unassigned(n),
        _ => true,
    }
}

/// Taking the number of a canonical tag and choosing its tag again gives
/// the tag back.
pub proof fn law_number_tag_roundtrip(t: Tag)
    requires
        canonical_tag(t),
    ensures
        tag_of(number_of(t)) == t,
{
}

/// The wrapper of a byte slice which is assumed to be a CBOR value and whose
/// encoding writes the byte slice as is.
#[derive(Debug, Copy, Clone, PartialEq, Eq)]
pub struct Cbor<'b>(&'b [u8]);

impl<'b> Cbor<'b> {
    /// The wrapped bytes.
    pub closed spec fn bytes(self) -> Seq<u8> {
        self.0@
    }

    /// Reads the next data item (or a lone break byte) and wraps its bytes
    /// as they are.
    pub fn decode(d: &mut Decoder<'b>) -> (r: Result<Cbor<'b>, DecodeError>)
        ensures
            match skip_result(old(d).rest()) {
                Ok(n) => r matches Ok(c) && c.bytes() == old(d).rest().take(n as int) && final(d).advanced(
                    *old(d),
                    n,
                ),
                Err(e) => r == Err::<Cbor<'b>, DecodeError>(e) && *final(d) == *old(d),
            },
    {
        match d.consume() {
            Ok(b) => Ok(Cbor(b)),
            Err(e) => Err(e),
        }
    }

    /// The wrapped byte slice.
    pub fn as_slice(&self) -> (b: &'b [u8])
        ensures
            b@ == self.bytes(),
    {
        self.0
    }
}

impl<'b> From<&'b [u8]> for Cbor<'b> {
    fn from(cbor: &'b [u8]) -> (c: Cbor<'b>)
        ensures
            c.bytes() == cbor@,
    {
        Cbor(cbor)
    }
}

impl<'b> FromSpecImpl<&'b [u8]> for Cbor<'b> {
    open spec fn obeys_from_spec() -> bool {
        true
    }

    closed spec fn from_spec(v: &'b [u8]) -> Cbor<'b> {
        Cbor(v)
    }
}

impl<'b> From<Cbor<'b>> for &'b [u8] {
    fn from(cbor: Cbor<'b>) -> (b: &'b [u8])
        ensures
            b@ == cbor.bytes(),
    {
        cbor.0
    }
}

impl<'b> FromSpecImpl<Cbor<'b>> for &'b [u8] {
    open spec fn obeys_from_spec() -> bool {
        true
    }

    closed spec fn from_spec(v: Cbor<'b>) -> &'b [u8] {
        v.0
    }
}

/// CBOR integer type that covers values of [-2^64, 2^64 - 1].
///
/// CBOR integers keep the sign bit in the major type so there is one extra bit
/// available for signed numbers compared to Rust's integer types. This type can
/// be used to encode and decode the full CBOR integer range.
#[derive(Debug, Copy, Clone, PartialEq, Eq, Structural, PartialOrd, Ord, Hash)]
pub struct Int {
    neg: bool,
    val: u64,
}

/// The smallest value an [`Int`] holds, -2^64.
pub open spec fn int_min() -> int {
    -0x1_0000_0000_0000_0000
}

/// The largest value an [`Int`] holds, 2^64 - 1.
pub open spec fn int_max() -> int {
    0xFFFF_FFFF_FFFF_FFFF
}

/// The largest CBOR integer, 2^64 - 1.
pub fn max_int() -> (i: Int)
    ensures
        i@ == int_max(),
{
    Int { neg: false, val: 0xFFFF_FFFF_FFFF_FFFF }
}

/// The smallest CBOR integer, -2^64.
pub fn min_int() -> (i: Int)
    ensures
        i@ == int_min(),
{
    Int { neg: true, val: 0xFFFF_FFFF_FFFF_FFFF }
}

impl Int {
    /// Whether the integer is negative (major type 1).
    pub closed spec fn negative(self) -> bool {
        self.neg
    }

    /// The argument of the integer's head: the value itself for a
    /// non-negative integer, `-1 - value` for a negative one.
    pub closed spec fn magnitude(self) -> u64 {
        self.val
    }

    /// An integer is determined by its value: two with the same value are
    /// equal.
    pub proof fn law_int_value_determines(a: Int, b: Int)
        requires
            a@ == b@,
        ensures
            a == b,
    {
    }

    /// The integer `val`.
    pub fn pos(val: u64) -> (i: Int)
        ensures
            !i.negative(),
            i.magnitude() == val,
            i@ == val,
    {
        Int { neg: false, val }
    }

    /// The integer `-1 - val`.
    pub fn neg(val: u64) -> (i: Int)
        ensures
            i.negative(),
            i.magnitude() == val,
            i@ == -1 - val,
    {
        Int { neg: true, val }
    }

    /// The argument of the integer's head (see [`Int::magnitude`]).
    pub fn value(&self) -> (v: u64)
        ensures
            v == self.magnitude(),
    {
        self.val
    }

    /// Whether the integer is negative.
    pub fn is_negative(&self) -> (b: bool)
        ensures
            b == self.negative(),
            b == (self@ < 0),
    {
        self.neg
    }

    /// The integer in decimal, with a leading `-` when negative.
    pub fn to_string(&self) -> (s: String)
        ensures
            s@ == (if self@ < 0 {
                "-"@ + digits((-self@) as nat, 10)
            } else {
                digits(self@ as nat, 10)
            }),
    {
        proof {
            reveal_strlit("-");
        }
        if self.neg {
            let mut s = String::from_str("-");
            push_digits(&mut s, self.val as u128 + 1, 10);
            s
        } else {
            let mut s = String::new();
            push_digits(&mut s, self.val as u128, 10);
            s
        }
    }
}

impl View for Int {
    type V = int;

    /// The mathematical value of the integer.
    open spec fn view(&self) -> int {
        if self.negative() {
            -1 - self.magnitude()
        } else {
            self.magnitude() as int
        }
    }
}

/// Every integer lies in [-2^64, 2^64 - 1].
pub proof fn law_int_range(a: Int)
    ensures
        int_min() <= a@ <= int_max(),
{
}

impl From<i64> for Int {
    fn from(i: i64) -> (n: Int)
        ensures
            n@ == i,
    {
        if i < 0 {
            Int { neg: true, val: (-1 - i) as u64 }
        } else {
            Int { neg: false, val: i as u64 }
        }
    }
}

impl FromSpecImpl<i64> for Int {
    open spec fn obeys_from_spec() -> bool {
        true
    }

    closed spec fn from_spec(v: i64) -> Int {
        if v < 0 {
            Int::neg_spec((-1 - v) as u64)
        } else {
            Int::pos_spec(v as u64)
        }
    }
}

impl From<u64> for Int {
    fn from(i: u64) -> (n: Int)
        ensures
            n@ == i,
    {
        Int::pos(i)
    }
}

impl FromSpecImpl<u64> for Int {
    open spec fn obeys_from_spec() -> bool {
        true
    }

    closed spec fn from_spec(v: u64) -> Int {
        Int::pos_spec(v)
    }
}

impl Int {
    /// The integer `val` as a spec value.
    pub closed spec fn pos_spec(val: u64) -> Int {
        Int { neg: false, val }
    }

    /// The integer `-1 - val` as a spec value.
    pub closed spec fn neg_spec(val: u64) -> Int {
        Int { neg: true, val }
    }
}

/// Error when conversion of a CBOR [`Int`] to another type failed.
#[derive(Debug)]
pub struct TryFromIntError(&'static str);

impl TryFromIntError {
    /// The name of the type whose range the value is out of.
    pub closed spec fn target(self) -> Seq<char> {
        self.0@
    }

    /// `"value out of <type> range"`.
    pub fn to_string(&self) -> (s: String)
        ensures
            s@ == "value out of "@ + self.target() + " range"@,
    {
        let mut s = String::from_str("value out of ");
        s.append(self.0);
        s.append(" range");
        s
    }
}

impl TryFrom<i128> for Int {
    type Error = TryFromIntError;

    fn try_from(i: i128) -> (r: Result<Int, TryFromIntError>)
        ensures
            r is Ok <==> int_min() <= i <= int_max(),
            r matches Ok(n) ==> n@ == i,
            r matches Err(e) ==> e.target() == "Int"@,
    {
        if i < 0 {
            if i < -0x1_0000_0000_0000_0000 {
                Err(TryFromIntError("Int"))
            } else {
                Ok(Int { neg: true, val: (-1 - i) as u64 })
            }
        } else if i > 0xFFFF_FFFF_FFFF_FFFF {
            Err(TryFromIntError("Int"))
        } else {
            Ok(Int { neg: false, val: i as u64 })
        }
    }
}

impl TryFromSpecImpl<i128> for Int {
    open spec fn obeys_try_from_spec() -> bool {
        true
    }

    closed spec fn try_from_spec(v: i128) -> Result<Int, TryFromIntError> {
        if v < int_min() || v > int_max() {
            Err(TryFromIntError("Int"))
        } else if v < 0 {
            Ok(Int { neg: true, val: (-1 - v) as u64 })
        } else {
            Ok(Int { neg: false, val: v as u64 })
        }
    }
}

impl TryFrom<Int> for i64 {
    type Error = TryFromIntError;

    fn try_from(i: Int) -> (r: Result<i64, TryFromIntError>)
        ensures
            r is Ok <==> i64::MIN <= i@ <= i64::MAX,
            r matches Ok(n) ==> n == i@,
            r matches Err(e) ==> e.target() == "i64"@,
    {
        if i.val > 0x7FFF_FFFF_FFFF_FFFF {
            return Err(TryFromIntError("i64"));
        }
        let j = i.val as i64;
        Ok(if i.neg { -1 - j } else { j })
    }
}

impl TryFromSpecImpl<Int> for i64 {
    open spec fn obeys_try_from_spec() -> bool {
        true
    }

    closed spec fn try_from_spec(v: Int) -> Result<i64, TryFromIntError> {
        if v@ < i64::MIN || v@ > i64::MAX {
            Err(TryFromIntError("i64"))
        } else {
            Ok(v@ as i64)
        }
    }
}

impl TryFrom<Int> for u64 {
    type Error = TryFromIntError;

    fn try_from(i: Int) -> (r: Result<u64, TryFromIntError>)
        ensures
            r is Ok <==> 0 <= i@,
            r matches Ok(n) ==> n == i@,
            r matches Err(e) ==> e.target() == "u64"@,
    {
        if i.neg {
            return Err(TryFromIntError("u64"));
        }
        Ok(i.val)
    }
}

impl TryFromSpecImpl<Int> for u64 {
    open spec fn obeys_try_from_spec() -> bool {
        true
    }

    closed spec fn try_from_spec(v: Int) -> Result<u64, TryFromIntError> {
        if v@ < 0 {
            Err(TryFromIntError("u64"))
        } else {
            Ok(v@ as u64)
        }
    }
}

impl From<Int> for i128 {
    fn from(i: Int) -> (n: i128)
        ensures
            n == i@,
    {
        let j = i.val as i128;
        if i.neg { -1 - j } else { j }
    }
}

impl FromSpecImpl<Int> for i128 {
    open spec fn obeys_from_spec() -> bool {
        true
    }

    closed spec fn from_spec(v: Int) -> i128 {
        v@ as i128
    }
}

/// An `i64` turned into an [`Int`] converts back to the same `i64`.
pub proof fn law_int_i64_roundtrip(x: i64)
    ensures
        <i64 as TryFromSpec<Int>>::try_from_spec(<Int as FromSpec<i64>>::from_spec(x)) == Ok::<
            i64,
            TryFromIntError,
        >(x),
{
}

/// A `u64` turned into an [`Int`] converts back to the same `u64`.
pub proof fn law_int_u64_roundtrip(x: u64)
    ensures
        <u64 as TryFromSpec<Int>>::try_from_spec(<Int as FromSpec<u64>>::from_spec(x)) == Ok::<
            u64,
            TryFromIntError,
        >(x),
{
}

/// Every [`Int`] turned into an `i128` converts back to the same [`Int`].
pub proof fn law_int_i128_roundtrip(n: Int)
    ensures
        <Int as TryFromSpec<i128>>::try_from_spec(<i128 as FromSpec<Int>>::from_spec(n)) == Ok::<
            Int,
            TryFromIntError,
        >(n),
{
}

/// An `i128` in [-2^64, 2^64 - 1] turned into an [`Int`] converts back to the
/// same `i128`; any other `i128` is refused.
pub proof fn law_i128_int_roundtrip(i: i128)
    ensures
        int_min() <= i <= int_max() ==> (<Int as TryFromSpec<i128>>::try_from_spec(i) matches Ok(n)
            && <i128 as FromSpec<Int>>::from_spec(n) == i),
        !(int_min() <= i <= int_max()) ==> <Int as TryFromSpec<i128>>::try_from_spec(i) is Err,
{
}

} // verus!
