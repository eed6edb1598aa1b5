//! The CBOR decoder: reads data items from a byte slice.
pub mod item;

use item::{item_len_at, item_result, lemma_item_result_bounds};
use crate::data::{canonical_tag, number_of, Int, Tag, Type, tag_of};
use crate::encode::encoder::{bool_encoding, bytes_encoding, int_head, simple_encoding, text_encoding};
use crate::head::{
    arg_info, arg_value, head, info_width, lemma_arg_value_prefix, lemma_be_bytes_of_value,
    lemma_be_value_bound, lemma_head_arg, lemma_pow256_mono, lemma_pow256_values, read_be, ARRAY, BYTES,
    MAP, NEGATIVE, TAGGED, TEXT, UNSIGNED,
};
use crate::encode::Encode;
use vstd::prelude::*;
use vstd::string::StringSliceAdditionalSpecFns;
use vstd::utf8::{decode_utf8, encode_utf8, encode_utf8_decode_utf8, encode_utf8_valid_utf8, valid_utf8};

verus! {

/// Why decoding failed.
#[derive(Debug, Clone, Copy, PartialEq, Eq, Structural)]
pub enum Error {
    /// The input ended before the data item did.
    EndOfInput,
    /// The data item is of another type than the one asked for.
    TypeMismatch(Type),
    /// The number does not fit into the type asked for.
    Overflow(u64),
    /// The text string is not valid UTF-8.
    Utf8,
}

/// The data type that an initial byte announces.
pub open spec fn type_of(b: u8) -> Type {
    if b <= 0x18 {
        Type::U8
    } else if b == 0x19 {
        Type::U16
    } else if b == 0x1a {
        Type::U32
    } else if b == 0x1b {
        Type::U64
    } else if 0x20 <= b <= 0x38 {
        Type::I8
    } else if b == 0x39 {
        Type::I16
    } else if b == 0x3a {
        Type::I32
    } else if b == 0x3b {
        Type::I64
    } else if 0x40 <= b <= 0x5b {
        Type::Bytes
    } else if b == 0x5f {
        Type::BytesIndef
    } else if 0x60 <= b <= 0x7b {
        Type::String
    } else if b == 0x7f {
        Type::StringIndef
    } else if 0x80 <= b <= 0x9b {
        Type::Array
    } else if b == 0x9f {
        Type::ArrayIndef
    } else if 0xa0 <= b <= 0xbb {
        Type::Dict
    } else if b == 0xbf {
        Type::MapIndef
    } else if 0xc0 <= b <= 0xdb {
        Type::Tag
    } else if 0xe0 <= b <= 0xf3 {
        Type::Simple
    } else if b == 0xf4 || b == 0xf5 {
        Type::Bool
    } else if b == 0xf6 {
        Type::Null
    } else if b == 0xf7 {
        Type::Undefined
    } else if b == 0xf8 {
        Type::Simple
    } else if b == 0xf9 {
        Type::F16
    } else if b == 0xfa {
        Type::F32
    } else if b == 0xfb {
        Type::F64
    } else if b == 0xff {
        Type::Break
    } else {
        Type::Unknown(b)
    }
}

/// The data type that an initial byte announces follows from its major type
/// (upper three bits) and additional information (lower five bits): the
/// integers and floats by the width of the argument that follows, the strings,
/// arrays, maps and tags by major type and definite or indefinite length, and
/// the bytes that RFC 8949 leaves unassigned are unknown.
pub proof fn law_type_of_initial_byte(b: u8)
    ensures
        ({
            let major = b / 32;
            let info = (b % 32) as nat;
            let argued = 24 < info <= 27;
            &&& (type_of(b) is U8 <==> major == 0 && info <= 24)
            &&& (type_of(b) is U16 <==> major == 0 && argued && info_width(info) == 2)
            &&& (type_of(b) is U32 <==> major == 0 && argued && info_width(info) == 4)
            &&& (type_of(b) is U64 <==> major == 0 && argued && info_width(info) == 8)
            &&& (type_of(b) is I8 <==> major == 1 && info <= 24)
            &&& (type_of(b) is I16 <==> major == 1 && argued && info_width(info) == 2)
            &&& (type_of(b) is I32 <==> major == 1 && argued && info_width(info) == 4)
            &&& (type_of(b) is I64 <==> major == 1 && argued && info_width(info) == 8)
            &&& (type_of(b) is Bytes <==> major == 2 && info <= 27)
            &&& (type_of(b) is BytesIndef <==> major == 2 && info == 31)
            &&& (type_of(b) is String <==> major == 3 && info <= 27)
            &&& (type_of(b) is StringIndef <==> major == 3 && info == 31)
            &&& (type_of(b) is Array <==> major == 4 && info <= 27)
            &&& (type_of(b) is ArrayIndef <==> major == 4 && info == 31)
            &&& (type_of(b) is Dict <==> major == 5 && info <= 27)
            &&& (type_of(b) is MapIndef <==> major == 5 && info == 31)
            &&& (type_of(b) is Tag <==> major == 6 && info <= 27)
            &&& (type_of(b) is Simple <==> major == 7 && (info < 20 || info == 24))
            &&& (type_of(b) is Bool <==> major == 7 && (info == 20 || info == 21))
            &&& (type_of(b) is Null <==> major == 7 && info == 22)
            &&& (type_of(b) is Undefined <==> major == 7 && info == 23)
            &&& (type_of(b) is F16 <==> major == 7 && argued && info_width(info) == 2)
            &&& (type_of(b) is F32 <==> major == 7 && argued && info_width(info) == 4)
            &&& (type_of(b) is F64 <==> major == 7 && argued && info_width(info) == 8)
            &&& (type_of(b) is Break <==> major == 7 && info == 31)
            &&& (type_of(b) is Unknown <==> 28 <= info <= 30 || (info == 31 && (major == 0 || major
                == 1 || major == 6)))
            &&& (type_of(b) matches Type::Unknown(x) ==> x == b)
            &&& !(type_of(b) is Int)
        }),
{
}

/// An integer, simple value or float is its head alone: with enough input,
/// reading (or skipping) it takes exactly its initial byte and the
/// `1`, `2`, `4` or `8` bytes of argument that its additional information
/// announces, so a half, single or double precision float takes 3, 5 or 9
/// bytes; with too little input the end of input is reported.
pub proof fn law_head_only_item_len(s: Seq<u8>)
    requires
        s.len() > 0,
        s[0] / 32 == 0 || s[0] / 32 == 1 || s[0] / 32 == 7,
        s[0] % 32 <= 27,
    ensures
        ({
            let w = 1 + info_width((s[0] % 32) as nat);
            &&& s.len() >= w ==> item_result(s) == Ok::<nat, Error>(w) && skip_result(s) == Ok::<
                nat,
                Error,
            >(w)
            &&& s.len() < w ==> item_result(s) == Err::<nat, Error>(Error::EndOfInput)
            &&& type_of(s[0]) is F16 ==> w == 3
            &&& type_of(s[0]) is F32 ==> w == 5
            &&& type_of(s[0]) is F64 ==> w == 9
        }),
{
    law_type_of_initial_byte(s[0]);
}

/// The data type that an initial byte announces.
pub fn type_of_byte(b: u8) -> (t: Type)
    ensures
        t == type_of(b),
{
    match b {
        0x00..=0x18 => Type::U8,
        0x19 => Type::U16,
        0x1a => Type::U32,
        0x1b => Type::U64,
        0x20..=0x38 => Type::I8,
        0x39 => Type::I16,
        0x3a => Type::I32,
        0x3b => Type::I64,
        0x40..=0x5b => Type::Bytes,
        0x5f => Type::BytesIndef,
        0x60..=0x7b => Type::String,
        0x7f => Type::StringIndef,
        0x80..=0x9b => Type::Array,
        0x9f => Type::ArrayIndef,
        0xa0..=0xbb => Type::Dict,
        0xbf => Type::MapIndef,
        0xc0..=0xdb => Type::Tag,
        0xe0..=0xf3 => Type::Simple,
        0xf4 | 0xf5 => Type::Bool,
        0xf6 => Type::Null,
        0xf7 => Type::Undefined,
        0xf8 => Type::Simple,
        0xf9 => Type::F16,
        0xfa => Type::F32,
        0xfb => Type::F64,
        0xff => Type::Break,
        n => Type::Unknown(n),
    }
}

/// The head of major type `major` at the start of `s`: its argument and its
/// length, or why it cannot be read.
pub open spec fn head_item(s: Seq<u8>, major: u8) -> Result<(nat, nat), Error> {
    if s.len() == 0 {
        Err(Error::EndOfInput)
    } else if s[0] / 32 != major || s[0] % 32 > 27 {
        Err(Error::TypeMismatch(type_of(s[0])))
    } else if s.len() < 1 + info_width((s[0] % 32) as nat) {
        Err(Error::EndOfInput)
    } else {
        Ok((arg_value((s[0] % 32) as nat, s.drop_first()), 1 + info_width((s[0] % 32) as nat)))
    }
}

/// An unsigned integer no larger than `max` at the start of `s`, and the
/// number of bytes it takes.
pub open spec fn unsigned_item(s: Seq<u8>, max: nat) -> Result<(nat, nat), Error> {
    match head_item(s, UNSIGNED) {
        Ok((v, n)) => if v > max {
            Err(Error::Overflow(v as u64))
        } else {
            Ok((v, n))
        },
        Err(e) => Err(e),
    }
}

/// A signed integer in `[-1 - max, max]` at the start of `s`, and the number
/// of bytes it takes.
pub open spec fn signed_item(s: Seq<u8>, max: nat) -> Result<(int, nat), Error> {
    if s.len() > 0 && s[0] / 32 == NEGATIVE {
        match head_item(s, NEGATIVE) {
            Ok((v, n)) => if v > max {
                Err(Error::Overflow(v as u64))
            } else {
                Ok((-1 - v, n))
            },
            Err(e) => Err(e),
        }
    } else {
        match unsigned_item(s, max) {
            Ok((v, n)) => Ok((v as int, n)),
            Err(e) => Err(e),
        }
    }
}

/// An integer of the full CBOR range at the start of `s`, and the number of
/// bytes it takes.
pub open spec fn int_item(s: Seq<u8>) -> Result<(int, nat), Error> {
    signed_item(s, u64::MAX as nat)
}

/// A definite-length string of major type `major` at the start of `s`: its
/// content and the number of bytes it takes in all.
pub open spec fn string_item(s: Seq<u8>, major: u8) -> Result<(Seq<u8>, nat), Error> {
    match head_item(s, major) {
        Ok((len, n)) => if s.len() < n + len {
            Err(Error::EndOfInput)
        } else {
            Ok((s.subrange(n as int, (n + len) as int), n + len))
        },
        Err(e) => Err(e),
    }
}

/// A byte string at the start of `s`.
pub open spec fn bytes_item(s: Seq<u8>) -> Result<(Seq<u8>, nat), Error> {
    string_item(s, BYTES)
}

/// A text string at the start of `s`: its UTF-8 bytes and the number of
/// bytes it takes in all.
pub open spec fn text_item(s: Seq<u8>) -> Result<(Seq<u8>, nat), Error> {
    match string_item(s, TEXT) {
        Ok((b, n)) => if valid_utf8(b) {
            Ok((b, n))
        } else {
            Err(Error::Utf8)
        },
        Err(e) => Err(e),
    }
}

/// The start of an array or map of major type `major` at the start of `s`:
/// its length (`None` when indefinite) and the number of bytes it takes.
pub open spec fn container_item(s: Seq<u8>, major: u8) -> Result<(Option<nat>, nat), Error> {
    if s.len() > 0 && s[0] == major * 32 + 31 {
        Ok((None, 1))
    } else {
        match head_item(s, major) {
            Ok((len, n)) => Ok((Some(len), n)),
            Err(e) => Err(e),
        }
    }
}

/// A boolean at the start of `s`.
pub open spec fn bool_item(s: Seq<u8>) -> Result<bool, Error> {
    if s.len() == 0 {
        Err(Error::EndOfInput)
    } else if s[0] == 0xf4 {
        Ok(false)
    } else if s[0] == 0xf5 {
        Ok(true)
    } else {
        Err(Error::TypeMismatch(type_of(s[0])))
    }
}

/// A simple value at the start of `s`, and the number of bytes it takes.
pub open spec fn simple_item(s: Seq<u8>) -> Result<(u8, nat), Error> {
    if s.len() == 0 {
        Err(Error::EndOfInput)
    } else if 0xe0 <= s[0] <= 0xf3 {
        Ok(((s[0] - 0xe0) as u8, 1))
    } else if s[0] == 0xf8 {
        if s.len() < 2 {
            Err(Error::EndOfInput)
        } else {
            Ok((s[1], 2))
        }
    } else {
        Err(Error::TypeMismatch(type_of(s[0])))
    }
}

/// What skipping over the next data item at the start of `s` reads: a lone
/// break byte, or one well-formed data item.
pub open spec fn skip_result(s: Seq<u8>) -> Result<nat, Error> {
    if s.len() > 0 && s[0] == 0xff {
        Ok(1)
    } else {
        item_result(s)
    }
}

/// Calls `core::str::from_utf8`, which gives back the bytes as a string slice
/// exactly when they are valid UTF-8.
#[verifier::external_body]
fn utf8_str<'a>(b: &'a [u8]) -> (r: Option<&'a str>)
    ensures
        r is Some <==> valid_utf8(b@),
        r matches Some(s) ==> s.spec_bytes() == b@,
{
    core::str::from_utf8(b).ok()
}

/// A CBOR decoder reading data items from a byte slice.
pub struct Decoder<'b> {
    buf: &'b [u8],
    pos: usize,
}

impl<'b> Decoder<'b> {
    #[verifier::type_invariant]
    spec fn inv(self) -> bool {
        self.pos <= self.buf@.len()
    }

    /// The whole input.
    pub closed spec fn input(self) -> Seq<u8> {
        self.buf@
    }

    /// How many bytes of the input have been read.
    pub closed spec fn pos(self) -> nat {
        self.pos as nat
    }

    /// The part of the input not read yet.
    pub closed spec fn rest(self) -> Seq<u8> {
        self.buf@.skip(self.pos as int)
    }

    /// The decoder has read `n` more bytes than `old`, and nothing else changed.
    pub open spec fn advanced(self, old: Decoder<'b>, n: nat) -> bool {
        &&& self.input() == old.input()
        &&& self.pos() == old.pos() + n
        &&& self.rest() == old.rest().skip(n as int)
    }

    /// Constructs a decoder at the start of `bytes`.
    pub fn from_slice(bytes: &'b [u8]) -> (d: Decoder<'b>)
        ensures
            d.input() == bytes@,
            d.pos() == 0,
            d.rest() == bytes@,
    {
        let d = Decoder { buf: bytes, pos: 0 };
        assert(d.rest() =~= bytes@);
        d
    }

    /// How many bytes of the input have been read.
    pub fn position(&self) -> (p: usize)
        ensures
            p == self.pos(),
    {
        self.pos
    }

    /// The whole input.
    pub fn input_slice(&self) -> (b: &'b [u8])
        ensures
            b@ == self.input(),
    {
        self.buf
    }

    /// Moves past `n` bytes.
    fn advance(&mut self, n: usize)
        requires
            n <= old(self).rest().len(),
        ensures
            final(self).advanced(*old(self), n as nat),
    {
        proof {
            use_type_invariant(&*self);
            assert(self.rest().len() == self.buf@.len() - self.pos);
        }
        let len = self.buf.len();
        assert(self.pos + n <= len);
        self.pos = self.pos + n;
        assert(self.rest() =~= old(self).rest().skip(n as int));
    }

    /// Reads the head of major type `major` at the current position, without
    /// moving past it.
    fn peek_head(&self, major: u8) -> (r: Result<(u64, usize), Error>)
        requires
            major < 8,
        ensures
            match head_item(self.rest(), major) {
                Ok((v, n)) => r == Ok::<(u64, usize), Error>((v as u64, n as usize)) && v <= u64::MAX
                    && n <= self.rest().len(),
                Err(e) => r == Err::<(u64, usize), Error>(e),
            },
    {
        proof {
            use_type_invariant(self);
        }
        let ghost s = self.rest();
        if self.pos >= self.buf.len() {
            return Err(Error::EndOfInput);
        }
        let b = self.buf[self.pos];
        assert(s[0] == b);
        let info = b % 32;
        if b / 32 != major || info > 27 {
            return Err(Error::TypeMismatch(type_of_byte(b)));
        }
        let w: usize = if info < 24 {
            0
        } else if info == 24 {
            1
        } else if info == 25 {
            2
        } else if info == 26 {
            4
        } else {
            8
        };
        if self.buf.len() - self.pos - 1 < w {
            return Err(Error::EndOfInput);
        }
        let v = if info < 24 {
            info as u64
        } else {
            read_be(self.buf, self.pos + 1, w)
        };
        assert(s.drop_first().take(w as int) =~= self.buf@.subrange(self.pos + 1, self.pos + 1 + w));
        Ok((v, 1 + w))
    }

    /// Decodes an unsigned integer no larger than `max`.
    fn unsigned(&mut self, max: u64) -> (r: Result<u64, Error>)
        ensures
            match unsigned_item(old(self).rest(), max as nat) {
                Ok((v, n)) => r == Ok::<u64, Error>(v as u64) && final(self).advanced(*old(self), n),
                Err(e) => r == Err::<u64, Error>(e) && *final(self) == *old(self),
            },
    {
        let (v, n) = self.peek_head(UNSIGNED)?;
        if v > max {
            return Err(Error::Overflow(v));
        }
        self.advance(n);
        Ok(v)
    }

    /// Decodes a `u8` value.
    pub fn u8(&mut self) -> (r: Result<u8, Error>)
        ensures
            match unsigned_item(old(self).rest(), u8::MAX as nat) {
                Ok((v, n)) => r == Ok::<u8, Error>(v as u8) && final(self).advanced(*old(self), n),
                Err(e) => r == Err::<u8, Error>(e) && *final(self) == *old(self),
            },
    {
        let v = self.unsigned(0xff)?;
        Ok(v as u8)
    }

    /// Decodes a `u16` value.
    pub fn u16(&mut self) -> (r: Result<u16, Error>)
        ensures
            match unsigned_item(old(self).rest(), u16::MAX as nat) {
                Ok((v, n)) => r == Ok::<u16, Error>(v as u16) && final(self).advanced(*old(self), n),
                Err(e) => r == Err::<u16, Error>(e) && *final(self) == *old(self),
            },
    {
        let v = self.unsigned(0xffff)?;
        Ok(v as u16)
    }

    /// Decodes a `u32` value.
    pub fn u32(&mut self) -> (r: Result<u32, Error>)
        ensures
            match unsigned_item(old(self).rest(), u32::MAX as nat) {
                Ok((v, n)) => r == Ok::<u32, Error>(v as u32) && final(self).advanced(*old(self), n),
                Err(e) => r == Err::<u32, Error>(e) && *final(self) == *old(self),
            },
    {
        let v = self.unsigned(0xffff_ffff)?;
        Ok(v as u32)
    }

    /// Decodes a `u64` value.
    pub fn u64(&mut self) -> (r: Result<u64, Error>)
        ensures
            match unsigned_item(old(self).rest(), u64::MAX as nat) {
                Ok((v, n)) => r == Ok::<u64, Error>(v as u64) && final(self).advanced(*old(self), n),
                Err(e) => r == Err::<u64, Error>(e) && *final(self) == *old(self),
            },
    {
        self.unsigned(0xffff_ffff_ffff_ffff)
    }

    /// Decodes a signed integer in `[-1 - max, max]`.
    fn signed(&mut self, max: u64) -> (r: Result<i64, Error>)
        requires
            max <= i64::MAX,
        ensures
            match signed_item(old(self).rest(), max as nat) {
                Ok((v, n)) => r == Ok::<i64, Error>(v as i64) && final(self).advanced(*old(self), n),
                Err(e) => r == Err::<i64, Error>(e) && *final(self) == *old(self),
            },
    {
        proof {
            use_type_invariant(&*self);
        }
        if self.pos < self.buf.len() && self.buf[self.pos] / 32 == NEGATIVE {
            assert(self.rest()[0] == self.buf@[self.pos as int]);
            let (v, n) = self.peek_head(NEGATIVE)?;
            if v > max {
                return Err(Error::Overflow(v));
            }
            self.advance(n);
            Ok(-1 - v as i64)
        } else {
            assert(self.rest().len() > 0 ==> self.rest()[0] == self.buf@[self.pos as int]);
            let v = self.unsigned(max)?;
            Ok(v as i64)
        }
    }

    /// Decodes an `i8` value.
    pub fn i8(&mut self) -> (r: Result<i8, Error>)
        ensures
            match signed_item(old(self).rest(), i8::MAX as nat) {
                Ok((v, n)) => r == Ok::<i8, Error>(v as i8) && final(self).advanced(*old(self), n),
                Err(e) => r == Err::<i8, Error>(e) && *final(self) == *old(self),
            },
    {
        let v = self.signed(0x7f)?;
        Ok(v as i8)
    }

    /// Decodes an `i16` value.
    pub fn i16(&mut self) -> (r: Result<i16, Error>)
        ensures
            match signed_item(old(self).rest(), i16::MAX as nat) {
                Ok((v, n)) => r == Ok::<i16, Error>(v as i16) && final(self).advanced(*old(self), n),
                Err(e) => r == Err::<i16, Error>(e) && *final(self) == *old(self),
            },
    {
        let v = self.signed(0x7fff)?;
        Ok(v as i16)
    }

    /// Decodes an `i32` value.
    pub fn i32(&mut self) -> (r: Result<i32, Error>)
        ensures
            match signed_item(old(self).rest(), i32::MAX as nat) {
                Ok((v, n)) => r == Ok::<i32, Error>(v as i32) && final(self).advanced(*old(self), n),
                Err(e) => r == Err::<i32, Error>(e) && *final(self) == *old(self),
            },
    {
        let v = self.signed(0x7fff_ffff)?;
        Ok(v as i32)
    }

    /// Decodes an `i64` value.
    pub fn i64(&mut self) -> (r: Result<i64, Error>)
        ensures
            match signed_item(old(self).rest(), i64::MAX as nat) {
                Ok((v, n)) => r == Ok::<i64, Error>(v as i64) && final(self).advanced(*old(self), n),
                Err(e) => r == Err::<i64, Error>(e) && *final(self) == *old(self),
            },
    {
        self.signed(0x7fff_ffff_ffff_ffff)
    }

    /// Decodes a CBOR integer of the full range [-2^64, 2^64 - 1].
    pub fn integer(&mut self) -> (r: Result<Int, Error>)
        ensures
            match int_item(old(self).rest()) {
                Ok((v, n)) => r matches Ok(i) && i@ == v && final(self).advanced(*old(self), n),
                Err(e) => r == Err::<Int, Error>(e) && *final(self) == *old(self),
            },
    {
        proof {
            use_type_invariant(&*self);
        }
        if self.pos < self.buf.len() && self.buf[self.pos] / 32 == NEGATIVE {
            assert(self.rest()[0] == self.buf@[self.pos as int]);
            let (v, n) = self.peek_head(NEGATIVE)?;
            self.advance(n);
            Ok(Int::neg(v))
        } else {
            assert(self.rest().len() > 0 ==> self.rest()[0] == self.buf@[self.pos as int]);
            let v = self.unsigned(0xffff_ffff_ffff_ffff)?;
            Ok(Int::pos(v))
        }
    }

    /// Reads the string of major type `major` at the current position, without
    /// moving past it.
    fn peek_string(&self, major: u8) -> (r: Result<(&'b [u8], usize), Error>)
        requires
            major < 8,
        ensures
            match string_item(self.rest(), major) {
                Ok((b, n)) => r matches Ok((x, m)) && x@ == b && m == n && n <= self.rest().len(),
                Err(e) => r == Err::<(&'b [u8], usize), Error>(e),
            },
    {
        proof {
            use_type_invariant(self);
        }
        let (len, n) = self.peek_head(major)?;
        let remaining = self.buf.len() - self.pos;
        assert(remaining == self.rest().len());
        if ((remaining - n) as u64) < len {
            return Err(Error::EndOfInput);
        }
        let len = len as usize;
        let start = self.pos + n;
        let b = &self.buf[start..start + len];
        assert(b@ =~= self.rest().subrange(n as int, n + len));
        Ok((b, n + len))
    }

    /// Decodes a byte string.
    pub fn bytes(&mut self) -> (r: Result<&'b [u8], Error>)
        ensures
            match bytes_item(old(self).rest()) {
                Ok((b, n)) => r matches Ok(x) && x@ == b && final(self).advanced(*old(self), n),
                Err(e) => r == Err::<&'b [u8], Error>(e) && *final(self) == *old(self),
            },
    {
        let (b, n) = self.peek_string(BYTES)?;
        self.advance(n);
        Ok(b)
    }

    /// Decodes a text string.
    pub fn str(&mut self) -> (r: Result<&'b str, Error>)
        ensures
            match text_item(old(self).rest()) {
                Ok((b, n)) => r matches Ok(x) && x.spec_bytes() == b && final(self).advanced(*old(self), n),
                Err(e) => r == Err::<&'b str, Error>(e) && *final(self) == *old(self),
            },
    {
        let (b, n) = self.peek_string(TEXT)?;
        match utf8_str(b) {
            Some(x) => {
                self.advance(n);
                Ok(x)
            },
            None => Err(Error::Utf8),
        }
    }

    /// Reads the start of an array or map of major type `major`.
    fn container(&mut self, major: u8) -> (r: Result<Option<u64>, Error>)
        requires
            major == ARRAY || major == MAP,
        ensures
            match container_item(old(self).rest(), major) {
                Ok((len, n)) => r == Ok::<Option<u64>, Error>(
                    match len {
                        Some(l) => Some(l as u64),
                        None => None,
                    },
                ) && final(self).advanced(*old(self), n),
                Err(e) => r == Err::<Option<u64>, Error>(e) && *final(self) == *old(self),
            },
    {
        proof {
            use_type_invariant(&*self);
        }
        if self.pos < self.buf.len() && self.buf[self.pos] == major * 32 + 31 {
            assert(self.rest()[0] == self.buf@[self.pos as int]);
            self.advance(1);
            return Ok(None);
        }
        assert(self.rest().len() > 0 ==> self.rest()[0] == self.buf@[self.pos as int]);
        let (len, n) = self.peek_head(major)?;
        self.advance(n);
        Ok(Some(len))
    }

    /// Begins decoding an array: gives its length, or `None` for an
    /// indefinite-length array.
    pub fn array(&mut self) -> (r: Result<Option<u64>, Error>)
        ensures
            match container_item(old(self).rest(), ARRAY) {
                Ok((len, n)) => r == Ok::<Option<u64>, Error>(
                    match len {
                        Some(l) => Some(l as u64),
                        None => None,
                    },
                ) && final(self).advanced(*old(self), n),
                Err(e) => r == Err::<Option<u64>, Error>(e) && *final(self) == *old(self),
            },
    {
        self.container(ARRAY)
    }

    /// Begins decoding a map: gives its number of entries, or `None` for an
    /// indefinite-length map.
    pub fn map(&mut self) -> (r: Result<Option<u64>, Error>)
        ensures
            match container_item(old(self).rest(), MAP) {
                Ok((len, n)) => r == Ok::<Option<u64>, Error>(
                    match len {
                        Some(l) => Some(l as u64),
                        None => None,
                    },
                ) && final(self).advanced(*old(self), n),
                Err(e) => r == Err::<Option<u64>, Error>(e) && *final(self) == *old(self),
            },
    {
        self.container(MAP)
    }

    /// Decodes a tag.
    pub fn tag(&mut self) -> (r: Result<Tag, Error>)
        ensures
            match head_item(old(self).rest(), TAGGED) {
                Ok((v, n)) => r == Ok::<Tag, Error>(tag_of(v as u64)) && final(self).advanced(*old(self), n),
                Err(e) => r == Err::<Tag, Error>(e) && *final(self) == *old(self),
            },
    {
        let (v, n) = self.peek_head(TAGGED)?;
        self.advance(n);
        Ok(Tag::from(v))
    }

    /// The data type of the next data item, going by its initial byte.
    pub fn datatype(&self) -> (r: Result<Type, Error>)
        ensures
            self.rest().len() == 0 ==> r == Err::<Type, Error>(Error::EndOfInput),
            self.rest().len() > 0 ==> r == Ok::<Type, Error>(type_of(self.rest()[0])),
    {
        proof {
            use_type_invariant(self);
        }
        if self.pos >= self.buf.len() {
            return Err(Error::EndOfInput);
        }
        assert(self.rest()[0] == self.buf@[self.pos as int]);
        Ok(type_of_byte(self.buf[self.pos]))
    }

    /// Decodes a boolean.
    pub fn bool(&mut self) -> (r: Result<bool, Error>)
        ensures
            match bool_item(old(self).rest()) {
                Ok(b) => r == Ok::<bool, Error>(b) && final(self).advanced(*old(self), 1),
                Err(e) => r == Err::<bool, Error>(e) && *final(self) == *old(self),
            },
    {
        proof {
            use_type_invariant(&*self);
        }
        if self.pos >= self.buf.len() {
            return Err(Error::EndOfInput);
        }
        let b = self.buf[self.pos];
        assert(self.rest()[0] == b);
        if b == 0xf4 {
            self.advance(1);
            Ok(false)
        } else if b == 0xf5 {
            self.advance(1);
            Ok(true)
        } else {
            Err(Error::TypeMismatch(type_of_byte(b)))
        }
    }

    /// Decodes the single byte `expected`, or fails with a type mismatch.
    fn single(&mut self, expected: u8) -> (r: Result<(), Error>)
        ensures
            old(self).rest().len() == 0 ==> r == Err::<(), Error>(Error::EndOfInput) && *final(self)
                == *old(self),
            old(self).rest().len() > 0 && old(self).rest()[0] == expected ==> r is Ok && final(self).advanced(*old(self), 1),
            old(self).rest().len() > 0 && old(self).rest()[0] != expected ==> r == Err::<(), Error>(
                Error::TypeMismatch(type_of(old(self).rest()[0])),
            ) && *final(self) == *old(self),
    {
        proof {
            use_type_invariant(&*self);
        }
        if self.pos >= self.buf.len() {
            return Err(Error::EndOfInput);
        }
        let b = self.buf[self.pos];
        assert(self.rest()[0] == b);
        if b == expected {
            self.advance(1);
            Ok(())
        } else {
            Err(Error::TypeMismatch(type_of_byte(b)))
        }
    }

    /// Decodes the CBOR null value.
    pub fn null(&mut self) -> (r: Result<(), Error>)
        ensures
            old(self).rest().len() == 0 ==> r == Err::<(), Error>(Error::EndOfInput) && *final(self)
                == *old(self),
            old(self).rest().len() > 0 && old(self).rest()[0] == 0xf6 ==> r is Ok && final(self).advanced(*old(self), 1),
            old(self).rest().len() > 0 && old(self).rest()[0] != 0xf6 ==> r == Err::<(), Error>(
                Error::TypeMismatch(type_of(old(self).rest()[0])),
            ) && *final(self) == *old(self),
    {
        self.single(0xf6)
    }

    /// Decodes the CBOR undefined value.
    pub fn undefined(&mut self) -> (r: Result<(), Error>)
        ensures
            old(self).rest().len() == 0 ==> r == Err::<(), Error>(Error::EndOfInput) && *final(self)
                == *old(self),
            old(self).rest().len() > 0 && old(self).rest()[0] == 0xf7 ==> r is Ok && final(self).advanced(*old(self), 1),
            old(self).rest().len() > 0 && old(self).rest()[0] != 0xf7 ==> r == Err::<(), Error>(
                Error::TypeMismatch(type_of(old(self).rest()[0])),
            ) && *final(self) == *old(self),
    {
        self.single(0xf7)
    }

    /// The length of what [`Decoder::skip`] would read, without moving.
    fn skip_len(&self) -> (r: Result<usize, Error>)
        ensures
            match skip_result(self.rest()) {
                Ok(n) => r == Ok::<usize, Error>(n as usize) && n <= self.rest().len() && n <= usize::MAX,
                Err(e) => r == Err::<usize, Error>(e),
            },
    {
        proof {
            use_type_invariant(self);
            lemma_item_result_bounds(self.rest());
        }
        let total = self.buf.len();
        assert(self.rest().len() <= total);
        if self.pos < self.buf.len() && self.buf[self.pos] == 0xff {
            assert(self.rest()[0] == self.buf@[self.pos as int]);
            return Ok(1);
        }
        assert(self.rest().len() > 0 ==> self.rest()[0] == self.buf@[self.pos as int]);
        item_len_at(self.buf, self.pos)
    }

    /// Skips over the next data item, however deeply nested, or over a lone
    /// break byte.
    pub fn skip(&mut self) -> (r: Result<(), Error>)
        ensures
            match skip_result(old(self).rest()) {
                Ok(n) => r is Ok && final(self).advanced(*old(self), n),
                Err(e) => r == Err::<(), Error>(e) && *final(self) == *old(self),
            },
    {
        let n = self.skip_len()?;
        self.advance(n);
        Ok(())
    }

    /// Skips over the next data item, or over a lone break byte, and gives
    /// back the bytes skipped.
    pub fn consume(&mut self) -> (r: Result<&'b [u8], Error>)
        ensures
            match skip_result(old(self).rest()) {
                Ok(n) => r matches Ok(b) && b@ == old(self).rest().take(n as int) && final(self).advanced(
                    *old(self),
                    n,
                ),
                Err(e) => r == Err::<&'b [u8], Error>(e) && *final(self) == *old(self),
            },
    {
        proof {
            use_type_invariant(&*self);
        }
        let n = self.skip_len()?;
        let start = self.pos;
        let len = self.buf.len();
        assert(start + n <= len);
        let b = &self.buf[start..start + n];
        assert(b@ =~= self.rest().take(n as int));
        self.advance(n);
        Ok(b)
    }

    /// Decodes a CBOR simple value.
    pub fn simple(&mut self) -> (r: Result<u8, Error>)
        ensures
            match simple_item(old(self).rest()) {
                Ok((v, n)) => r == Ok::<u8, Error>(v) && final(self).advanced(*old(self), n),
                Err(e) => r == Err::<u8, Error>(e) && *final(self) == *old(self),
            },
    {
        proof {
            use_type_invariant(&*self);
        }
        if self.pos >= self.buf.len() {
            return Err(Error::EndOfInput);
        }
        let b = self.buf[self.pos];
        assert(self.rest()[0] == b);
        if 0xe0 <= b && b <= 0xf3 {
            self.advance(1);
            Ok(b - 0xe0)
        } else if b == 0xf8 {
            if self.buf.len() - self.pos < 2 {
                return Err(Error::EndOfInput);
            }
            let x = self.buf[self.pos + 1];
            assert(self.rest()[1] == x);
            self.advance(2);
            Ok(x)
        } else {
            Err(Error::TypeMismatch(type_of_byte(b)))
        }
    }
}

/// The head that the encoder writes for major type `major` and argument `n`
/// reads back as `n`, whatever follows it.
pub proof fn lemma_head_item_roundtrip(major: u8, n: nat, more: Seq<u8>)
    requires
        major < 8,
        n <= u64::MAX,
    ensures
        head_item(head(major, n) + more, major) == Ok::<(nat, nat), Error>((n, head(major, n).len())),
{
    let h = head(major, n);
    lemma_head_arg(major, n);
    let s = h + more;
    assert(s[0] == h[0]);
    assert(s.drop_first() =~= h.drop_first() + more);
    lemma_arg_value_prefix(arg_info(n), h.drop_first(), more);
}

/// Decoding the encoding of a `u64` gives it back and reads exactly its
/// encoding.
pub proof fn law_u64_roundtrip(v: u64, more: Seq<u8>)
    ensures
        unsigned_item(head(UNSIGNED, v as nat) + more, u64::MAX as nat) == Ok::<(nat, nat), Error>(
            (v as nat, head(UNSIGNED, v as nat).len()),
        ),
{
    lemma_head_item_roundtrip(UNSIGNED, v as nat, more);
}

/// Decoding the encoding of an `i64` gives it back and reads exactly its
/// encoding.
pub proof fn law_i64_roundtrip(x: i64, more: Seq<u8>)
    ensures
        signed_item(int_head(x as int) + more, i64::MAX as nat) == Ok::<(int, nat), Error>(
            (x as int, int_head(x as int).len()),
        ),
{
    if x >= 0 {
        lemma_head_item_roundtrip(UNSIGNED, x as nat, more);
        lemma_head_arg(UNSIGNED, x as nat);
        assert((int_head(x as int) + more)[0] == int_head(x as int)[0]);
    } else {
        lemma_head_item_roundtrip(NEGATIVE, (-1 - x) as nat, more);
        lemma_head_arg(NEGATIVE, (-1 - x) as nat);
        assert((int_head(x as int) + more)[0] == int_head(x as int)[0]);
    }
}

/// Decoding the encoding of an [`Int`] gives it back and reads exactly its
/// encoding.
pub proof fn law_int_roundtrip(i: Int, more: Seq<u8>)
    ensures
        int_item(int_head(i@) + more) == Ok::<(int, nat), Error>((i@, int_head(i@).len())),
{
    lemma_int_head_item(i@, more);
}

/// Decoding the head of any integer in the CBOR range as a full-range
/// integer gives the integer back and reads exactly the head.
pub proof fn lemma_int_head_item(x: int, more: Seq<u8>)
    requires
        -0x1_0000_0000_0000_0000 <= x <= 0xFFFF_FFFF_FFFF_FFFF,
    ensures
        int_item(int_head(x) + more) == Ok::<(int, nat), Error>((x, int_head(x).len())),
{
    if x >= 0 {
        lemma_head_item_roundtrip(UNSIGNED, x as nat, more);
        lemma_head_arg(UNSIGNED, x as nat);
        assert((int_head(x) + more)[0] == int_head(x)[0]);
    } else {
        lemma_head_item_roundtrip(NEGATIVE, (-1 - x) as nat, more);
        lemma_head_arg(NEGATIVE, (-1 - x) as nat);
        assert((int_head(x) + more)[0] == int_head(x)[0]);
    }
}

/// Every Rust integer, of whatever width and sign (`usize` and `isize`
/// included, whatever the target's pointer width), and every `char` (as its
/// code point), encodes so that decoding
/// it as a full-range integer gives the same value back and reads exactly
/// its encoding.
pub proof fn law_integer_encodings_decode<C>(ch: char, a: u8, b: u16, c: u32, d: u64, e: usize, f: i8, g: i16, h: i32, i: i64, j: isize, k: Int, more: Seq<u8>)
    ensures
        int_item(<u8 as Encode<C>>::encoding(&a) + more) == Ok::<(int, nat), Error>(
            (a as int, <u8 as Encode<C>>::encoding(&a).len()),
        ),
        int_item(<u16 as Encode<C>>::encoding(&b) + more) == Ok::<(int, nat), Error>(
            (b as int, <u16 as Encode<C>>::encoding(&b).len()),
        ),
        int_item(<u32 as Encode<C>>::encoding(&c) + more) == Ok::<(int, nat), Error>(
            (c as int, <u32 as Encode<C>>::encoding(&c).len()),
        ),
        int_item(<u64 as Encode<C>>::encoding(&d) + more) == Ok::<(int, nat), Error>(
            (d as int, <u64 as Encode<C>>::encoding(&d).len()),
        ),
        int_item(<usize as Encode<C>>::encoding(&e) + more) == Ok::<(int, nat), Error>(
            (e as int, <usize as Encode<C>>::encoding(&e).len()),
        ),
        int_item(<i8 as Encode<C>>::encoding(&f) + more) == Ok::<(int, nat), Error>(
            (f as int, <i8 as Encode<C>>::encoding(&f).len()),
        ),
        int_item(<i16 as Encode<C>>::encoding(&g) + more) == Ok::<(int, nat), Error>(
            (g as int, <i16 as Encode<C>>::encoding(&g).len()),
        ),
        int_item(<i32 as Encode<C>>::encoding(&h) + more) == Ok::<(int, nat), Error>(
            (h as int, <i32 as Encode<C>>::encoding(&h).len()),
        ),
        int_item(<i64 as Encode<C>>::encoding(&i) + more) == Ok::<(int, nat), Error>(
            (i as int, <i64 as Encode<C>>::encoding(&i).len()),
        ),
        int_item(<isize as Encode<C>>::encoding(&j) + more) == Ok::<(int, nat), Error>(
            (j as int, <isize as Encode<C>>::encoding(&j).len()),
        ),
        int_item(<Int as Encode<C>>::encoding(&k) + more) == Ok::<(int, nat), Error>(
            (k@, <Int as Encode<C>>::encoding(&k).len()),
        ),
        int_item(<char as Encode<C>>::encoding(&ch) + more) == Ok::<(int, nat), Error>(
            (ch as u32 as int, <char as Encode<C>>::encoding(&ch).len()),
        ),
{
    lemma_int_head_item(a as int, more);
    lemma_int_head_item(b as int, more);
    lemma_int_head_item(c as int, more);
    lemma_int_head_item(d as int, more);
    lemma_int_head_item(e as int, more);
    lemma_int_head_item(f as int, more);
    lemma_int_head_item(g as int, more);
    lemma_int_head_item(h as int, more);
    lemma_int_head_item(i as int, more);
    lemma_int_head_item(j as int, more);
    lemma_int_head_item(k@, more);
    lemma_int_head_item(ch as u32 as int, more);
}

/// A boolean encodes so that decoding it gives the same boolean, and a
/// string slice or `String` so that decoding it as text gives back its UTF-8
/// bytes, which stand for the same characters, reading exactly its encoding.
pub proof fn law_bool_and_text_encodings_decode<C>(b: bool, s: &str, t: String, more: Seq<u8>)
    requires
        s.spec_bytes().len() <= u64::MAX,
        encode_utf8(t@).len() <= u64::MAX,
    ensures
        bool_item(<bool as Encode<C>>::encoding(&b) + more) == Ok::<bool, Error>(b),
        text_item(<str as Encode<C>>::encoding(s) + more) == Ok::<(Seq<u8>, nat), Error>(
            (s.spec_bytes(), <str as Encode<C>>::encoding(s).len()),
        ),
        decode_utf8(s.spec_bytes()) == s@,
        text_item(<String as Encode<C>>::encoding(&t) + more) == Ok::<(Seq<u8>, nat), Error>(
            (encode_utf8(t@), <String as Encode<C>>::encoding(&t).len()),
        ),
        decode_utf8(encode_utf8(t@)) == t@,
{
    law_bool_simple_roundtrip(b, 0, more);
    law_text_roundtrip(s@, more);
    law_text_roundtrip(t@, more);
}

/// Decoding the encoding of a string of major type `major` gives its
/// content back and reads exactly its encoding.
pub proof fn lemma_string_roundtrip(major: u8, b: Seq<u8>, more: Seq<u8>)
    requires
        major < 8,
        b.len() <= u64::MAX,
    ensures
        string_item(head(major, b.len()) + b + more, major) == Ok::<(Seq<u8>, nat), Error>(
            (b, (head(major, b.len()) + b).len()),
        ),
{
    let h = head(major, b.len());
    lemma_head_item_roundtrip(major, b.len(), b + more);
    assert(h + b + more =~= h + (b + more));
    assert((h + b + more).subrange(h.len() as int, (h.len() + b.len()) as int) =~= b);
}

/// Decoding the encoding of a byte string gives it back and reads exactly
/// its encoding.
pub proof fn law_bytes_roundtrip(b: Seq<u8>, more: Seq<u8>)
    requires
        b.len() <= u64::MAX,
    ensures
        bytes_item(bytes_encoding(b) + more) == Ok::<(Seq<u8>, nat), Error>(
            (b, bytes_encoding(b).len()),
        ),
{
    lemma_string_roundtrip(BYTES, b, more);
}

/// Decoding the encoding of a text string gives back its UTF-8 bytes, which
/// stand for the same characters, and reads exactly its encoding.
pub proof fn law_text_roundtrip(c: Seq<char>, more: Seq<u8>)
    requires
        encode_utf8(c).len() <= u64::MAX,
    ensures
        text_item(text_encoding(encode_utf8(c)) + more) == Ok::<(Seq<u8>, nat), Error>(
            (encode_utf8(c), text_encoding(encode_utf8(c)).len()),
        ),
        decode_utf8(encode_utf8(c)) == c,
{
    lemma_string_roundtrip(TEXT, encode_utf8(c), more);
    encode_utf8_valid_utf8(c);
    encode_utf8_decode_utf8(c);
}

/// Decoding the start of an array or map of `len` entries gives `len` back.
pub proof fn law_container_roundtrip(major: u8, len: u64, more: Seq<u8>)
    requires
        major == ARRAY || major == MAP,
    ensures
        container_item(head(major, len as nat) + more, major) == Ok::<(Option<nat>, nat), Error>(
            (Some(len as nat), head(major, len as nat).len()),
        ),
        container_item(seq![(major * 32 + 31) as u8] + more, major) == Ok::<
            (Option<nat>, nat),
            Error,
        >((None, 1)),
{
    lemma_head_item_roundtrip(major, len as nat, more);
    lemma_head_arg(major, len as nat);
    assert((head(major, len as nat) + more)[0] == head(major, len as nat)[0]);
    assert((seq![(major * 32 + 31) as u8] + more)[0] == (major * 32 + 31) as u8);
}

/// Decoding the encoding of a canonical tag gives the tag back.
pub proof fn law_tag_roundtrip(t: Tag, more: Seq<u8>)
    requires
        canonical_tag(t),
    ensures
        head_item(head(TAGGED, number_of(t) as nat) + more, TAGGED) matches Ok((v, n)) && tag_of(
            v as u64,
        ) == t && n == head(TAGGED, number_of(t) as nat).len(),
{
    lemma_head_item_roundtrip(TAGGED, number_of(t) as nat, more);
}

/// Decoding the encoding of a boolean or simple value gives it back.
pub proof fn law_bool_simple_roundtrip(b: bool, x: u8, more: Seq<u8>)
    ensures
        bool_item(bool_encoding(b) + more) == Ok::<bool, Error>(b),
        simple_item(simple_encoding(x) + more) == Ok::<(u8, nat), Error>(
            (x, simple_encoding(x).len()),
        ),
{
    assert((bool_encoding(b) + more)[0] == bool_encoding(b)[0]);
    assert((simple_encoding(x) + more)[0] == simple_encoding(x)[0]);
    if x >= 0x14 {
        assert((simple_encoding(x) + more)[1] == x);
    }
}

/// A head read from `s` is written back the same way exactly when it was
/// written in its shortest form.
pub proof fn lemma_head_item_reencode(s: Seq<u8>, major: u8)
    requires
        major < 8,
    ensures
        head_item(s, major) matches Ok((v, n)) ==> (head(major, v) == s.take(n as int) <==> s[0]
            % 32 == arg_info(v)),
{
    if let Ok((v, n)) = head_item(s, major) {
        let info = (s[0] % 32) as nat;
        let w = info_width(info);
        let args = s.drop_first().take(w as int);
        lemma_be_value_bound(args);
        lemma_pow256_values();
        if info >= 24 {
            lemma_pow256_mono(w, 8);
        }
        lemma_head_arg(major, v);
        if s[0] % 32 == arg_info(v) {
            if info >= 24 {
                lemma_be_bytes_of_value(args);
            }
            assert(head(major, v) =~= s.take(n as int));
        }
        if head(major, v) == s.take(n as int) {
            assert(head(major, v)[0] == s[0]);
        }
    }
}

/// Encoding a decoded `u64` gives back the bytes read exactly when they were
/// its shortest encoding.
pub proof fn law_u64_reencode(s: Seq<u8>)
    ensures
        unsigned_item(s, u64::MAX as nat) matches Ok((v, n)) ==> (head(UNSIGNED, v) == s.take(
            n as int,
        ) <==> s[0] % 32 == arg_info(v)),
{
    lemma_head_item_reencode(s, UNSIGNED);
}

} // verus!
