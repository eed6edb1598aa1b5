//! The CBOR encoder: appends the encodings of data items to a byte buffer.
use super::{Encode, Error};
use crate::data::{Int, Tag, number_of};
use crate::head::{head, push_head, ARRAY, BYTES, MAP, NEGATIVE, SIMPLE, TAGGED, TEXT, UNSIGNED};
use vstd::prelude::*;
use vstd::string::StringSliceAdditionalSpecFns;

verus! {

/// The head of the integer `x`: major type 0 with argument `x` when `x` is
/// non-negative, major type 1 with argument `-1 - x` otherwise.
pub open spec fn int_head(x: int) -> Seq<u8> {
    if x >= 0 {
        head(UNSIGNED, x as nat)
    } else {
        head(NEGATIVE, (-1 - x) as nat)
    }
}

/// The encoding of a byte string.
pub open spec fn bytes_encoding(b: Seq<u8>) -> Seq<u8> {
    head(BYTES, b.len()) + b
}

/// The encoding of a text string whose UTF-8 bytes are `b`.
pub open spec fn text_encoding(b: Seq<u8>) -> Seq<u8> {
    head(TEXT, b.len()) + b
}

/// The encoding of the simple value `x`.
pub open spec fn simple_encoding(x: u8) -> Seq<u8> {
    if x < 0x14 {
        seq![(0xe0 + x) as u8]
    } else {
        seq![0xf8u8, x]
    }
}

/// The encoding of a boolean.
pub open spec fn bool_encoding(b: bool) -> Seq<u8> {
    if b {
        seq![0xf5u8]
    } else {
        seq![0xf4u8]
    }
}

/// The initial byte of an indefinite-length byte string.
pub const BEGIN_BYTES: u8 = 0x5f;

/// The initial byte of an indefinite-length text string.
pub const BEGIN_TEXT: u8 = 0x7f;

/// The initial byte of an indefinite-length array.
pub const BEGIN_ARRAY: u8 = 0x9f;

/// The initial byte of an indefinite-length map.
pub const BEGIN_MAP: u8 = 0xbf;

/// The "break" byte that ends an indefinite-length item.
pub const BREAK: u8 = 0xff;

/// The null value.
pub const NULL: u8 = 0xf6;

/// The undefined value.
pub const UNDEFINED: u8 = 0xf7;

/// A CBOR encoder that writes into a byte vector.
pub struct Encoder {
    writer: Vec<u8>,
}

impl View for Encoder {
    type V = Seq<u8>;

    /// The bytes written so far.
    closed spec fn view(&self) -> Seq<u8> {
        self.writer@
    }
}

/// Appends all bytes of `b`.
fn push_all(buf: &mut Vec<u8>, b: &[u8])
    ensures
        final(buf)@ == old(buf)@ + b@,
{
    let mut i: usize = 0;
    while i < b.len()
        invariant
            i <= b@.len(),
            buf@ == old(buf)@ + b@.take(i as int),
        decreases b@.len() - i,
    {
        buf.push(b[i]);
        i = i + 1;
        assert(buf@ =~= old(buf)@ + b@.take(i as int));
    }
    assert(b@.take(b@.len() as int) =~= b@);
}

impl Encoder {
    /// Constructs an encoder that appends to the given vector.
    pub fn new(writer: Vec<u8>) -> (e: Encoder)
        ensures
            e@ == writer@,
    {
        Encoder { writer }
    }

    /// The vector written so far.
    pub fn writer(&self) -> (w: &Vec<u8>)
        ensures
            w@ == self@,
    {
        &self.writer
    }

    /// The bytes written so far.
    pub fn as_slice(&self) -> (w: &[u8])
        ensures
            w@ == self@,
    {
        self.writer.as_slice()
    }

    /// Gives back the vector written into.
    pub fn into_inner(self) -> (w: Vec<u8>)
        ensures
            w@ == self@,
    {
        self.writer
    }

    /// Writes the given bytes as they are, without a head.
    pub fn put(&mut self, b: &[u8]) -> (r: Result<(), Error>)
        ensures
            r is Ok,
            final(self)@ == old(self)@ + b@,
    {
        push_all(&mut self.writer, b);
        Ok(())
    }

    /// Encodes a `u8` value.
    pub fn u8(&mut self, x: u8) -> (r: Result<(), Error>)
        ensures
            r is Ok,
            final(self)@ == old(self)@ + head(UNSIGNED, x as nat),
    {
        push_head(&mut self.writer, UNSIGNED, x as u64);
        Ok(())
    }

    /// Encodes a `u16` value.
    pub fn u16(&mut self, x: u16) -> (r: Result<(), Error>)
        ensures
            r is Ok,
            final(self)@ == old(self)@ + head(UNSIGNED, x as nat),
    {
        push_head(&mut self.writer, UNSIGNED, x as u64);
        Ok(())
    }

    /// Encodes a `u32` value.
    pub fn u32(&mut self, x: u32) -> (r: Result<(), Error>)
        ensures
            r is Ok,
            final(self)@ == old(self)@ + head(UNSIGNED, x as nat),
    {
        push_head(&mut self.writer, UNSIGNED, x as u64);
        Ok(())
    }

    /// Encodes a `u64` value.
    pub fn u64(&mut self, x: u64) -> (r: Result<(), Error>)
        ensures
            r is Ok,
            final(self)@ == old(self)@ + head(UNSIGNED, x as nat),
    {
        push_head(&mut self.writer, UNSIGNED, x);
        Ok(())
    }

    /// Encodes an `i8` value.
    pub fn i8(&mut self, x: i8) -> (r: Result<(), Error>)
        ensures
            r is Ok,
            final(self)@ == old(self)@ + int_head(x as int),
    {
        self.i64(x as i64)
    }

    /// Encodes an `i16` value.
    pub fn i16(&mut self, x: i16) -> (r: Result<(), Error>)
        ensures
            r is Ok,
            final(self)@ == old(self)@ + int_head(x as int),
    {
        self.i64(x as i64)
    }

    /// Encodes an `i32` value.
    pub fn i32(&mut self, x: i32) -> (r: Result<(), Error>)
        ensures
            r is Ok,
            final(self)@ == old(self)@ + int_head(x as int),
    {
        self.i64(x as i64)
    }

    /// Encodes an `i64` value.
    pub fn i64(&mut self, x: i64) -> (r: Result<(), Error>)
        ensures
            r is Ok,
            final(self)@ == old(self)@ + int_head(x as int),
    {
        if x >= 0 {
            push_head(&mut self.writer, UNSIGNED, x as u64);
        } else {
            push_head(&mut self.writer, NEGATIVE, (-1 - x) as u64);
        }
        Ok(())
    }

    /// Encodes a CBOR integer covering the full range [-2^64, 2^64 - 1].
    pub fn integer(&mut self, x: Int) -> (r: Result<(), Error>)
        ensures
            r is Ok,
            final(self)@ == old(self)@ + int_head(x@),
    {
        if x.is_negative() {
            push_head(&mut self.writer, NEGATIVE, x.value());
        } else {
            push_head(&mut self.writer, UNSIGNED, x.value());
        }
        Ok(())
    }

    /// Encodes a boolean value.
    pub fn bool(&mut self, x: bool) -> (r: Result<(), Error>)
        ensures
            r is Ok,
            final(self)@ == old(self)@ + bool_encoding(x),
    {
        let ghost start = self@;
        self.writer.push(if x { 0xf5 } else { 0xf4 });
        assert(self@ =~= start + bool_encoding(x));
        Ok(())
    }

    /// Encodes a character as its Unicode scalar value.
    pub fn char(&mut self, x: char) -> (r: Result<(), Error>)
        ensures
            r is Ok,
            final(self)@ == old(self)@ + head(UNSIGNED, (x as u32) as nat),
    {
        self.u32(x as u32)
    }

    /// Encodes the CBOR null value.
    pub fn null(&mut self) -> (r: Result<(), Error>)
        ensures
            r is Ok,
            final(self)@ == old(self)@.push(NULL),
    {
        self.writer.push(NULL);
        Ok(())
    }

    /// Encodes the CBOR undefined value.
    pub fn undefined(&mut self) -> (r: Result<(), Error>)
        ensures
            r is Ok,
            final(self)@ == old(self)@.push(UNDEFINED),
    {
        self.writer.push(UNDEFINED);
        Ok(())
    }

    /// Encodes a CBOR simple value.
    pub fn simple(&mut self, x: u8) -> (r: Result<(), Error>)
        ensures
            r is Ok,
            final(self)@ == old(self)@ + simple_encoding(x),
    {
        let ghost start = self@;
        if x < 0x14 {
            self.writer.push(0xe0 + x);
        } else {
            self.writer.push(0xf8);
            self.writer.push(x);
        }
        assert(self@ =~= start + simple_encoding(x));
        Ok(())
    }

    /// Encodes a CBOR tag.
    pub fn tag(&mut self, x: Tag) -> (r: Result<(), Error>)
        ensures
            r is Ok,
            final(self)@ == old(self)@ + head(TAGGED, number_of(x) as nat),
    {
        push_head(&mut self.writer, TAGGED, x.numeric());
        Ok(())
    }

    /// Encodes a byte string.
    pub fn bytes(&mut self, x: &[u8]) -> (r: Result<(), Error>)
        ensures
            r is Ok,
            final(self)@ == old(self)@ + bytes_encoding(x@),
    {
        let ghost start = self@;
        push_head(&mut self.writer, BYTES, x.len() as u64);
        push_all(&mut self.writer, x);
        assert(self@ =~= start + bytes_encoding(x@));
        Ok(())
    }

    /// Encodes a text string.
    pub fn str(&mut self, x: &str) -> (r: Result<(), Error>)
        ensures
            r is Ok,
            final(self)@ == old(self)@ + text_encoding(x.spec_bytes()),
    {
        let ghost start = self@;
        let b = x.as_bytes();
        push_head(&mut self.writer, TEXT, b.len() as u64);
        push_all(&mut self.writer, b);
        assert(self@ =~= start + text_encoding(x.spec_bytes()));
        Ok(())
    }

    /// Begins an array of `len` elements.
    pub fn array(&mut self, len: u64) -> (r: Result<(), Error>)
        ensures
            r is Ok,
            final(self)@ == old(self)@ + head(ARRAY, len as nat),
    {
        push_head(&mut self.writer, ARRAY, len);
        Ok(())
    }

    /// Begins a map of `len` entries.
    pub fn map(&mut self, len: u64) -> (r: Result<(), Error>)
        ensures
            r is Ok,
            final(self)@ == old(self)@ + head(MAP, len as nat),
    {
        push_head(&mut self.writer, MAP, len);
        Ok(())
    }

    /// Begins an indefinite-length byte string, to be ended by [`Encoder::end`].
    pub fn begin_bytes(&mut self) -> (r: Result<(), Error>)
        ensures
            r is Ok,
            final(self)@ == old(self)@.push(BEGIN_BYTES),
    {
        self.writer.push(BEGIN_BYTES);
        Ok(())
    }

    /// Begins an indefinite-length text string, to be ended by [`Encoder::end`].
    pub fn begin_str(&mut self) -> (r: Result<(), Error>)
        ensures
            r is Ok,
            final(self)@ == old(self)@.push(BEGIN_TEXT),
    {
        self.writer.push(BEGIN_TEXT);
        Ok(())
    }

    /// Begins an indefinite-length array, to be ended by [`Encoder::end`].
    pub fn begin_array(&mut self) -> (r: Result<(), Error>)
        ensures
            r is Ok,
            final(self)@ == old(self)@.push(BEGIN_ARRAY),
    {
        self.writer.push(BEGIN_ARRAY);
        Ok(())
    }

    /// Begins an indefinite-length map, to be ended by [`Encoder::end`].
    pub fn begin_map(&mut self) -> (r: Result<(), Error>)
        ensures
            r is Ok,
            final(self)@ == old(self)@.push(BEGIN_MAP),
    {
        self.writer.push(BEGIN_MAP);
        Ok(())
    }

    /// Ends an indefinite-length item.
    pub fn end(&mut self) -> (r: Result<(), Error>)
        ensures
            r is Ok,
            final(self)@ == old(self)@.push(BREAK),
    {
        self.writer.push(BREAK);
        Ok(())
    }

    /// Encodes a value whose encoding needs no context.
    pub fn encode<T: Encode<()>>(&mut self, x: &T) -> (r: Result<(), Error>)
        ensures
            old(self)@.is_prefix_of(final(self)@),
            r is Ok ==> final(self)@ == old(self)@ + x.encoding(),
            r is Ok <==> x.encodable(),
            r is Err ==> r == Err::<(), Error>(x.encode_error()),
    {
        x.encode(self, &mut ())
    }

    /// Encodes a value with the given context.
    pub fn encode_with<C, T: Encode<C>>(&mut self, x: &T, ctx: &mut C) -> (r: Result<(), Error>)
        ensures
            old(self)@.is_prefix_of(final(self)@),
            r is Ok ==> final(self)@ == old(self)@ + x.encoding(),
            r is Ok <==> x.encodable(),
            r is Err ==> r == Err::<(), Error>(x.encode_error()),
    {
        x.encode(self, ctx)
    }
}

} // verus!
