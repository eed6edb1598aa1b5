//! Traits and types for encoding CBOR.
//!
//! This module defines the trait [`Encode`] and the actual [`Encoder`].
pub mod encoder;
pub mod laws;

use crate::data::{Cbor, Int};
use core::marker::PhantomData;
use std::borrow::{Cow, ToOwned};
use core::ops::{Range, RangeInclusive};
use std::collections::VecDeque;
use crate::head::{head, lemma_head_arg, ARRAY, MAP, NEGATIVE, UNSIGNED};
pub use encoder::Encoder;
use encoder::{bool_encoding, int_head, text_encoding, BEGIN_ARRAY, BEGIN_MAP, BREAK, NULL};
use vstd::prelude::*;
use vstd::std_specs::iter::IteratorSpec;
use vstd::string::StringSliceAdditionalSpecFns;
use vstd::utf8::encode_utf8;

verus! {

/// An error that encoding a value reports.
#[derive(Debug)]
pub struct Error {
    msg: &'static str,
}

impl Error {
    /// The message the error carries.
    pub closed spec fn text(self) -> Seq<char> {
        self.msg@
    }

    /// An error with the given message.
    pub fn message(msg: &'static str) -> (e: Error)
        ensures
            e.text() == msg@,
    {
        Error { msg }
    }

    /// The message the error carries.
    pub fn as_str(&self) -> (s: &'static str)
        ensures
            s@ == self.text(),
    {
        self.msg
    }
}

/// A type that can be encoded to CBOR.
///
/// Its values should encode to a single CBOR data item; tagging, maps or
/// arrays can and should be used for multiple values.
///
/// The contract speaks of the bytes that a value encodes to, [`Encode::encoding`],
/// whatever the encoding context holds.
pub trait Encode<C> {
    /// The bytes that encoding this value appends to the output.
    spec fn encoding(&self) -> Seq<u8>;

    /// Whether encoding this value succeeds.
    spec fn encodable(&self) -> bool;

    /// The error that encoding this value reports when it does not succeed.
    spec fn encode_error(&self) -> Error;

    /// Encode a value of this type using the given `Encoder`.
    ///
    /// In addition to the encoder a user provided encoding context is given
    /// as another parameter. Encoding only ever appends to what the encoder
    /// holds; when it succeeds, it appends exactly [`Encode::encoding`].
    fn encode(&self, e: &mut Encoder, ctx: &mut C) -> (r: Result<(), Error>)
        ensures
            old(e)@.is_prefix_of(final(e)@),
            r is Ok ==> final(e)@ == old(e)@ + self.encoding(),
            r is Ok <==> self.encodable(),
            r is Err ==> r == Err::<(), Error>(self.encode_error()),
    ;

    /// Is this value of `Self` a nil value?
    ///
    /// Some types have a special value to denote the concept of "nothing", aka
    /// nil. An example is the `Option` type with its `None` value.
    fn is_nil(&self) -> (b: bool)
        default_ensures
            !b,
    {
        false
    }
}

/// A type that can calculate its own CBOR encoding length.
pub trait CborLen<C>: Encode<C> {
    /// Compute the CBOR encoding length in bytes of this value.
    fn cbor_len(&self) -> (n: usize)
        requires
            self.encoding().len() <= usize::MAX,
        ensures
            n == self.encoding().len(),
    ;
}

impl<C> Encode<C> for u8 {
    open spec fn encoding(&self) -> Seq<u8> {
        head(UNSIGNED, *self as nat)
    }

    open spec fn encodable(&self) -> bool {
        true
    }

    /// Encoding never fails, so no error is ever reported.
    open spec fn encode_error(&self) -> Error {
        arbitrary()
    }

    fn encode(&self, e: &mut Encoder, ctx: &mut C) -> (r: Result<(), Error>)
        ensures
            r is Ok,
    {
        e.u8(*self)
    }
}

impl<C> CborLen<C> for u8 {
    fn cbor_len(&self) -> (n: usize) {
        proof {
            lemma_head_arg(UNSIGNED, *self as nat);
        }
        if *self <= 0x17 {
            1
        } else {
            2
        }
    }
}

impl<C> Encode<C> for u16 {
    open spec fn encoding(&self) -> Seq<u8> {
        head(UNSIGNED, *self as nat)
    }

    open spec fn encodable(&self) -> bool {
        true
    }

    /// Encoding never fails, so no error is ever reported.
    open spec fn encode_error(&self) -> Error {
        arbitrary()
    }

    fn encode(&self, e: &mut Encoder, ctx: &mut C) -> (r: Result<(), Error>)
        ensures
            r is Ok,
    {
        e.u16(*self)
    }
}

impl<C> CborLen<C> for u16 {
    fn cbor_len(&self) -> (n: usize) {
        proof {
            lemma_head_arg(UNSIGNED, *self as nat);
        }
        match *self {
            0..=0x17 => 1,
            0x18..=0xff => 2,
            _ => 3,
        }
    }
}

impl<C> Encode<C> for u32 {
    open spec fn encoding(&self) -> Seq<u8> {
        head(UNSIGNED, *self as nat)
    }

    open spec fn encodable(&self) -> bool {
        true
    }

    /// Encoding never fails, so no error is ever reported.
    open spec fn encode_error(&self) -> Error {
        arbitrary()
    }

    fn encode(&self, e: &mut Encoder, ctx: &mut C) -> (r: Result<(), Error>)
        ensures
            r is Ok,
    {
        e.u32(*self)
    }
}

impl<C> CborLen<C> for u32 {
    fn cbor_len(&self) -> (n: usize) {
        proof {
            lemma_head_arg(UNSIGNED, *self as nat);
        }
        match *self {
            0..=0x17 => 1,
            0x18..=0xff => 2,
            0x100..=0xffff => 3,
            _ => 5,
        }
    }
}

impl<C> Encode<C> for u64 {
    open spec fn encoding(&self) -> Seq<u8> {
        head(UNSIGNED, *self as nat)
    }

    open spec fn encodable(&self) -> bool {
        true
    }

    /// Encoding never fails, so no error is ever reported.
    open spec fn encode_error(&self) -> Error {
        arbitrary()
    }

    fn encode(&self, e: &mut Encoder, ctx: &mut C) -> (r: Result<(), Error>)
        ensures
            r is Ok,
    {
        e.u64(*self)
    }
}

impl<C> CborLen<C> for u64 {
    fn cbor_len(&self) -> (n: usize) {
        proof {
            lemma_head_arg(UNSIGNED, *self as nat);
        }
        match *self {
            0..=0x17 => 1,
            0x18..=0xff => 2,
            0x100..=0xffff => 3,
            0x1_0000..=0xffff_ffff => 5,
            _ => 9,
        }
    }
}

impl<C> Encode<C> for i8 {
    open spec fn encoding(&self) -> Seq<u8> {
        int_head(*self as int)
    }

    open spec fn encodable(&self) -> bool {
        true
    }

    /// Encoding never fails, so no error is ever reported.
    open spec fn encode_error(&self) -> Error {
        arbitrary()
    }

    fn encode(&self, e: &mut Encoder, ctx: &mut C) -> (r: Result<(), Error>)
        ensures
            r is Ok,
    {
        e.i8(*self)
    }
}

impl<C> CborLen<C> for i8 {
    fn cbor_len(&self) -> (n: usize) {
        let x = if *self >= 0 {
            *self as u8
        } else {
            (-1 - *self) as u8
        };
        proof {
            lemma_head_arg(UNSIGNED, x as nat);
            lemma_head_arg(NEGATIVE, x as nat);
        }
        <u8 as CborLen<C>>::cbor_len(&x)
    }
}

impl<C> Encode<C> for i16 {
    open spec fn encoding(&self) -> Seq<u8> {
        int_head(*self as int)
    }

    open spec fn encodable(&self) -> bool {
        true
    }

    /// Encoding never fails, so no error is ever reported.
    open spec fn encode_error(&self) -> Error {
        arbitrary()
    }

    fn encode(&self, e: &mut Encoder, ctx: &mut C) -> (r: Result<(), Error>)
        ensures
            r is Ok,
    {
        e.i16(*self)
    }
}

impl<C> CborLen<C> for i16 {
    fn cbor_len(&self) -> (n: usize) {
        let x = if *self >= 0 {
            *self as u16
        } else {
            (-1 - *self) as u16
        };
        proof {
            lemma_head_arg(UNSIGNED, x as nat);
            lemma_head_arg(NEGATIVE, x as nat);
        }
        <u16 as CborLen<C>>::cbor_len(&x)
    }
}

impl<C> Encode<C> for i32 {
    open spec fn encoding(&self) -> Seq<u8> {
        int_head(*self as int)
    }

    open spec fn encodable(&self) -> bool {
        true
    }

    /// Encoding never fails, so no error is ever reported.
    open spec fn encode_error(&self) -> Error {
        arbitrary()
    }

    fn encode(&self, e: &mut Encoder, ctx: &mut C) -> (r: Result<(), Error>)
        ensures
            r is Ok,
    {
        e.i32(*self)
    }
}

impl<C> CborLen<C> for i32 {
    fn cbor_len(&self) -> (n: usize) {
        let x = if *self >= 0 {
            *self as u32
        } else {
            (-1 - *self) as u32
        };
        proof {
            lemma_head_arg(UNSIGNED, x as nat);
            lemma_head_arg(NEGATIVE, x as nat);
        }
        <u32 as CborLen<C>>::cbor_len(&x)
    }
}

impl<C> Encode<C> for i64 {
    open spec fn encoding(&self) -> Seq<u8> {
        int_head(*self as int)
    }

    open spec fn encodable(&self) -> bool {
        true
    }

    /// Encoding never fails, so no error is ever reported.
    open spec fn encode_error(&self) -> Error {
        arbitrary()
    }

    fn encode(&self, e: &mut Encoder, ctx: &mut C) -> (r: Result<(), Error>)
        ensures
            r is Ok,
    {
        e.i64(*self)
    }
}

impl<C> CborLen<C> for i64 {
    fn cbor_len(&self) -> (n: usize) {
        let x = if *self >= 0 {
            *self as u64
        } else {
            (-1 - *self) as u64
        };
        proof {
            lemma_head_arg(UNSIGNED, x as nat);
            lemma_head_arg(NEGATIVE, x as nat);
        }
        <u64 as CborLen<C>>::cbor_len(&x)
    }
}

impl<C> Encode<C> for bool {
    open spec fn encoding(&self) -> Seq<u8> {
        bool_encoding(*self)
    }

    open spec fn encodable(&self) -> bool {
        true
    }

    /// Encoding never fails, so no error is ever reported.
    open spec fn encode_error(&self) -> Error {
        arbitrary()
    }

    fn encode(&self, e: &mut Encoder, ctx: &mut C) -> (r: Result<(), Error>)
        ensures
            r is Ok,
    {
        e.bool(*self)
    }
}

impl<C> CborLen<C> for bool {
    fn cbor_len(&self) -> (n: usize) {
        1
    }
}

impl<C> Encode<C> for char {
    open spec fn encoding(&self) -> Seq<u8> {
        head(UNSIGNED, (*self as u32) as nat)
    }

    open spec fn encodable(&self) -> bool {
        true
    }

    /// Encoding never fails, so no error is ever reported.
    open spec fn encode_error(&self) -> Error {
        arbitrary()
    }

    fn encode(&self, e: &mut Encoder, ctx: &mut C) -> (r: Result<(), Error>)
        ensures
            r is Ok,
    {
        e.char(*self)
    }
}

impl<C> CborLen<C> for char {
    fn cbor_len(&self) -> (n: usize) {
        let v = *self as u32;
        proof {
            lemma_head_arg(UNSIGNED, v as nat);
        }
        <u32 as CborLen<C>>::cbor_len(&v)
    }
}

impl<C> Encode<C> for usize {
    open spec fn encoding(&self) -> Seq<u8> {
        head(UNSIGNED, *self as nat)
    }

    open spec fn encodable(&self) -> bool {
        true
    }

    /// Encoding never fails, so no error is ever reported.
    open spec fn encode_error(&self) -> Error {
        arbitrary()
    }

    fn encode(&self, e: &mut Encoder, ctx: &mut C) -> (r: Result<(), Error>)
        ensures
            r is Ok,
    {
        e.u64(*self as u64)
    }
}

impl<C> CborLen<C> for usize {
    fn cbor_len(&self) -> (n: usize) {
        <u64 as CborLen<C>>::cbor_len(&(*self as u64))
    }
}

impl<C> Encode<C> for isize {
    open spec fn encoding(&self) -> Seq<u8> {
        int_head(*self as int)
    }

    open spec fn encodable(&self) -> bool {
        true
    }

    /// Encoding never fails, so no error is ever reported.
    open spec fn encode_error(&self) -> Error {
        arbitrary()
    }

    fn encode(&self, e: &mut Encoder, ctx: &mut C) -> (r: Result<(), Error>)
        ensures
            r is Ok,
    {
        e.i64(*self as i64)
    }
}

impl<C> CborLen<C> for isize {
    fn cbor_len(&self) -> (n: usize) {
        <i64 as CborLen<C>>::cbor_len(&(*self as i64))
    }
}

impl<C> Encode<C> for Int {
    open spec fn encoding(&self) -> Seq<u8> {
        int_head(self@)
    }

    open spec fn encodable(&self) -> bool {
        true
    }

    /// Encoding never fails, so no error is ever reported.
    open spec fn encode_error(&self) -> Error {
        arbitrary()
    }

    fn encode(&self, e: &mut Encoder, ctx: &mut C) -> (r: Result<(), Error>)
        ensures
            r is Ok,
    {
        e.integer(*self)
    }
}

impl<C> CborLen<C> for Int {
    fn cbor_len(&self) -> (n: usize) {
        proof {
            lemma_head_arg(UNSIGNED, self.magnitude() as nat);
            lemma_head_arg(NEGATIVE, self.magnitude() as nat);
        }
        <u64 as CborLen<C>>::cbor_len(&self.value())
    }
}

impl<C> Encode<C> for str {
    open spec fn encoding(&self) -> Seq<u8> {
        text_encoding(self.spec_bytes())
    }

    open spec fn encodable(&self) -> bool {
        true
    }

    /// Encoding never fails, so no error is ever reported.
    open spec fn encode_error(&self) -> Error {
        arbitrary()
    }

    fn encode(&self, e: &mut Encoder, ctx: &mut C) -> (r: Result<(), Error>)
        ensures
            r is Ok,
    {
        e.str(self)
    }
}

impl<C> CborLen<C> for str {
    fn cbor_len(&self) -> (n: usize) {
        let n = self.len();
        <usize as CborLen<C>>::cbor_len(&n) + n
    }
}

impl<C> Encode<C> for String {
    open spec fn encoding(&self) -> Seq<u8> {
        text_encoding(encode_utf8(self@))
    }

    open spec fn encodable(&self) -> bool {
        true
    }

    /// Encoding never fails, so no error is ever reported.
    open spec fn encode_error(&self) -> Error {
        arbitrary()
    }

    fn encode(&self, e: &mut Encoder, ctx: &mut C) -> (r: Result<(), Error>)
        ensures
            r is Ok,
    {
        e.str(self.as_str())
    }
}

impl<C> CborLen<C> for String {
    fn cbor_len(&self) -> (n: usize) {
        let n = self.as_str().len();
        <usize as CborLen<C>>::cbor_len(&n) + n
    }
}

impl<C> Encode<C> for () {
    open spec fn encoding(&self) -> Seq<u8> {
        head(ARRAY, 0)
    }

    open spec fn encodable(&self) -> bool {
        true
    }

    /// Encoding never fails, so no error is ever reported.
    open spec fn encode_error(&self) -> Error {
        arbitrary()
    }

    fn encode(&self, e: &mut Encoder, ctx: &mut C) -> (r: Result<(), Error>)
        ensures
            r is Ok,
    {
        e.array(0)
    }
}

impl<C> CborLen<C> for () {
    fn cbor_len(&self) -> (n: usize) {
        proof {
            lemma_head_arg(ARRAY, 0);
        }
        1
    }
}

impl<C, T> Encode<C> for PhantomData<T> {
    open spec fn encoding(&self) -> Seq<u8> {
        head(ARRAY, 0)
    }

    open spec fn encodable(&self) -> bool {
        true
    }

    /// Encoding never fails, so no error is ever reported.
    open spec fn encode_error(&self) -> Error {
        arbitrary()
    }

    fn encode(&self, e: &mut Encoder, ctx: &mut C) -> (r: Result<(), Error>)
        ensures
            r is Ok,
    {
        e.array(0)
    }
}

impl<C, T> CborLen<C> for PhantomData<T> {
    fn cbor_len(&self) -> (n: usize) {
        proof {
            lemma_head_arg(ARRAY, 0);
        }
        1
    }
}

impl<'b, C> Encode<C> for Cbor<'b> {
    open spec fn encoding(&self) -> Seq<u8> {
        self.bytes()
    }

    open spec fn encodable(&self) -> bool {
        true
    }

    /// Encoding never fails, so no error is ever reported.
    open spec fn encode_error(&self) -> Error {
        arbitrary()
    }

    fn encode(&self, e: &mut Encoder, ctx: &mut C) -> (r: Result<(), Error>)
        ensures
            r is Ok,
    {
        e.put(self.as_slice())
    }
}

/// The encodings of the items of `s`, one after the other.
pub open spec fn concat_encodings<C, T: Encode<C>>(s: Seq<T>) -> Seq<u8>
    decreases s.len(),
{
    if s.len() == 0 {
        seq![]
    } else {
        concat_encodings::<C, T>(s.drop_last()) + <T as Encode<C>>::encoding(&s.last())
    }
}

/// Whether every item of `s` encodes successfully.
pub open spec fn all_encodable<C, T: Encode<C>>(s: Seq<T>) -> bool {
    forall|i: int| 0 <= i < s.len() ==> #[trigger] <T as Encode<C>>::encodable(&s[i])
}

/// Whether the `i`-th item of `s` is the first that does not encode.
pub open spec fn first_failure<C, T: Encode<C>>(s: Seq<T>, i: int) -> bool {
    &&& 0 <= i < s.len()
    &&& !<T as Encode<C>>::encodable(&s[i])
    &&& all_encodable::<C, T>(s.take(i))
}

/// The error of the first item of `s` that does not encode.
pub open spec fn seq_error<C, T: Encode<C>>(s: Seq<T>) -> Error {
    <T as Encode<C>>::encode_error(&s[choose|i: int| first_failure::<C, T>(s, i)])
}

/// When the first `i` items and the `i`-th encode, so do the first `i + 1`.
pub proof fn lemma_all_encodable_take<C, T: Encode<C>>(s: Seq<T>, i: int)
    requires
        0 <= i < s.len(),
        all_encodable::<C, T>(s.take(i)),
        <T as Encode<C>>::encodable(&s[i]),
    ensures
        all_encodable::<C, T>(s.take(i + 1)),
{
    assert forall|j: int| 0 <= j < i + 1 implies #[trigger] <T as Encode<C>>::encodable(
        &s.take(i + 1)[j],
    ) by {
        if j < i {
            assert(s.take(i + 1)[j] == s.take(i)[j]);
        }
    }
}

/// The first item that does not encode gives the error of the sequence.
pub proof fn lemma_seq_error<C, T: Encode<C>>(s: Seq<T>, i: int)
    requires
        first_failure::<C, T>(s, i),
    ensures
        seq_error::<C, T>(s) == <T as Encode<C>>::encode_error(&s[i]),
{
    let j = choose|j: int| first_failure::<C, T>(s, j);
    assert(first_failure::<C, T>(s, j));
    if j < i {
        assert(s.take(i)[j] == s[j]);
    } else if i < j {
        assert(s.take(j)[i] == s[i]);
    }
}

/// The encoding of an array whose items are `s`.
pub open spec fn array_encoding<C, T: Encode<C>>(s: Seq<T>) -> Seq<u8> {
    head(ARRAY, s.len()) + concat_encodings::<C, T>(s)
}

/// The items of `s` together encode to at most `s.len() * m` bytes when each
/// encodes to at most `m`.
pub proof fn lemma_concat_encodings_len<C, T: Encode<C>>(s: Seq<T>, m: nat)
    requires
        forall|i: int| 0 <= i < s.len() ==> (#[trigger] <T as Encode<C>>::encoding(&s[i])).len() <= m,
    ensures
        concat_encodings::<C, T>(s).len() <= s.len() * m,
    decreases s.len(),
{
    if s.len() > 0 {
        let init = s.drop_last();
        assert forall|i: int| 0 <= i < init.len() implies (#[trigger] <T as Encode<C>>::encoding(
            &init[i],
        )).len() <= m by {
            assert(init[i] == s[i]);
        }
        lemma_concat_encodings_len::<C, T>(init, m);
        assert(<T as Encode<C>>::encoding(&s[s.len() - 1]).len() <= m);
        assert((s.len() - 1) * m + m == s.len() * m) by (nonlinear_arith);
    }
}

/// An array of items that each encode to at most `m` bytes encodes to at most
/// `9 + s.len() * m` bytes: the bound a caller of `cbor_len` needs to show
/// that the length fits in a `usize`.
pub proof fn law_array_encoding_len<C, T: Encode<C>>(s: Seq<T>, m: nat)
    requires
        s.len() <= u64::MAX,
        forall|i: int| 0 <= i < s.len() ==> (#[trigger] <T as Encode<C>>::encoding(&s[i])).len() <= m,
    ensures
        array_encoding::<C, T>(s).len() <= 9 + s.len() * m,
{
    lemma_head_arg(ARRAY, s.len());
    lemma_concat_encodings_len::<C, T>(s, m);
}

/// Taking one more item appends its encoding.
pub proof fn lemma_concat_take<C, T: Encode<C>>(s: Seq<T>, i: int)
    requires
        0 <= i < s.len(),
    ensures
        concat_encodings::<C, T>(s.take(i + 1)) == concat_encodings::<C, T>(s.take(i))
            + <T as Encode<C>>::encoding(&s[i]),
{
    assert(s.take(i + 1).drop_last() =~= s.take(i));
}

/// The encodings of the first items are a prefix of those of all items.
pub proof fn lemma_concat_prefix<C, T: Encode<C>>(s: Seq<T>, i: int)
    requires
        0 <= i <= s.len(),
    ensures
        concat_encodings::<C, T>(s.take(i)).is_prefix_of(concat_encodings::<C, T>(s)),
    decreases s.len() - i,
{
    if i < s.len() {
        lemma_concat_prefix::<C, T>(s, i + 1);
        lemma_concat_take::<C, T>(s, i);
    } else {
        assert(s.take(i) =~= s);
    }
}

/// Encodes the items of `items`, one after the other.
fn encode_items<C, T: Encode<C>>(items: &[T], e: &mut Encoder, ctx: &mut C) -> (r: Result<(), Error>)
    ensures
        old(e)@.is_prefix_of(final(e)@),
        r is Ok ==> final(e)@ == old(e)@ + concat_encodings::<C, T>(items@),
        r is Ok <==> all_encodable::<C, T>(items@),
        r is Err ==> r == Err::<(), Error>(seq_error::<C, T>(items@)),
{
    let ghost start = e@;
    let mut i: usize = 0;
    while i < items.len()
        invariant
            i <= items@.len(),
            e@ == start + concat_encodings::<C, T>(items@.take(i as int)),
            all_encodable::<C, T>(items@.take(i as int)),
            start == old(e)@,
        decreases items@.len() - i,
    {
        let ghost before = e@;
        let res = items[i].encode(e, ctx);
        match res {
            Ok(()) => {},
            Err(err) => {
                proof {
                    assert(start.is_prefix_of(e@)) by {
                        assert(start.is_prefix_of(before));
                    }
                    lemma_seq_error::<C, T>(items@, i as int);
                }
                return Err(err);
            },
        }
        proof {
            lemma_concat_take::<C, T>(items@, i as int);
            lemma_all_encodable_take::<C, T>(items@, i as int);
        }
        i = i + 1;
        assert(e@ =~= start + concat_encodings::<C, T>(items@.take(i as int)));
    }
    assert(items@.take(items@.len() as int) =~= items@);
    Ok(())
}

/// The total encoding length of the items of `items`.
fn items_len<C, T: CborLen<C>>(items: &[T]) -> (n: usize)
    requires
        concat_encodings::<C, T>(items@).len() <= usize::MAX,
    ensures
        n == concat_encodings::<C, T>(items@).len(),
{
    let mut n: usize = 0;
    let mut i: usize = 0;
    while i < items.len()
        invariant
            i <= items@.len(),
            concat_encodings::<C, T>(items@).len() <= usize::MAX,
            n == concat_encodings::<C, T>(items@.take(i as int)).len(),
        decreases items@.len() - i,
    {
        proof {
            lemma_concat_take::<C, T>(items@, i as int);
            lemma_concat_prefix::<C, T>(items@, i + 1);
        }
        n = n + items[i].cbor_len();
        i = i + 1;
    }
    assert(items@.take(items@.len() as int) =~= items@);
    n
}

impl<C, T: Encode<C>> Encode<C> for [T] {
    open spec fn encoding(&self) -> Seq<u8> {
        array_encoding::<C, T>(self@)
    }

    open spec fn encodable(&self) -> bool {
        all_encodable::<C, T>(self@)
    }

    /// The error of the first item that does not encode.
    open spec fn encode_error(&self) -> Error {
        seq_error::<C, T>(self@)
    }

    fn encode(&self, e: &mut Encoder, ctx: &mut C) -> (r: Result<(), Error>) {
        let ghost start = e@;
        e.array(self.len() as u64)?;
        let r = encode_items(self, e, ctx);
        assert(start.is_prefix_of(e@) && (r is Ok ==> e@ =~= start + self.encoding()));
        r
    }
}

impl<C, T: CborLen<C>> CborLen<C> for [T] {
    fn cbor_len(&self) -> (n: usize) {
        let n = self.len();
        proof {
            lemma_head_arg(ARRAY, n as nat);
        }
        <usize as CborLen<C>>::cbor_len(&n) + items_len(self)
    }
}

impl<C, T: Encode<C>> Encode<C> for Vec<T> {
    open spec fn encoding(&self) -> Seq<u8> {
        array_encoding::<C, T>(self@)
    }

    open spec fn encodable(&self) -> bool {
        all_encodable::<C, T>(self@)
    }

    /// The error of the first item that does not encode.
    open spec fn encode_error(&self) -> Error {
        seq_error::<C, T>(self@)
    }

    fn encode(&self, e: &mut Encoder, ctx: &mut C) -> (r: Result<(), Error>) {
        self.as_slice().encode(e, ctx)
    }
}

impl<C, T: CborLen<C>> CborLen<C> for Vec<T> {
    fn cbor_len(&self) -> (n: usize) {
        self.as_slice().cbor_len()
    }
}

impl<C, T: Encode<C>, const N: usize> Encode<C> for [T; N] {
    open spec fn encoding(&self) -> Seq<u8> {
        array_encoding::<C, T>(self@)
    }

    open spec fn encodable(&self) -> bool {
        all_encodable::<C, T>(self@)
    }

    /// The error of the first item that does not encode.
    open spec fn encode_error(&self) -> Error {
        seq_error::<C, T>(self@)
    }

    fn encode(&self, e: &mut Encoder, ctx: &mut C) -> (r: Result<(), Error>) {
        self.as_slice().encode(e, ctx)
    }
}

impl<C, T: CborLen<C>, const N: usize> CborLen<C> for [T; N] {
    fn cbor_len(&self) -> (n: usize) {
        self.as_slice().cbor_len()
    }
}

impl<C, T: Encode<C>> Encode<C> for VecDeque<T> {
    open spec fn encoding(&self) -> Seq<u8> {
        array_encoding::<C, T>(self@)
    }

    open spec fn encodable(&self) -> bool {
        all_encodable::<C, T>(self@)
    }

    /// The error of the first item that does not encode.
    open spec fn encode_error(&self) -> Error {
        seq_error::<C, T>(self@)
    }

    fn encode(&self, e: &mut Encoder, ctx: &mut C) -> (r: Result<(), Error>) {
        let ghost start = e@;
        e.array(self.len() as u64)?;
        let ghost mid = e@;
        let mut i: usize = 0;
        while i < self.len()
            invariant
                i <= self@.len(),
                mid == start + head(ARRAY, self@.len()),
                e@ == mid + concat_encodings::<C, T>(self@.take(i as int)),
                all_encodable::<C, T>(self@.take(i as int)),
                start == old(e)@,
            decreases self@.len() - i,
        {
            let ghost before = e@;
            match self[i].encode(e, ctx) {
                Ok(()) => {},
                Err(err) => {
                    proof {
                        assert(start.is_prefix_of(e@)) by {
                            assert(start.is_prefix_of(before));
                        }
                        lemma_seq_error::<C, T>(self@, i as int);
                    }
                    return Err(err);
                },
            }
            proof {
                lemma_concat_take::<C, T>(self@, i as int);
                lemma_all_encodable_take::<C, T>(self@, i as int);
            }
            i = i + 1;
            assert(e@ =~= mid + concat_encodings::<C, T>(self@.take(i as int)));
        }
        assert(self@.take(self@.len() as int) =~= self@);
        assert(e@ =~= start + self.encoding());
        Ok(())
    }
}

impl<C, T: CborLen<C>> CborLen<C> for VecDeque<T> {
    fn cbor_len(&self) -> (n: usize) {
        let len = self.len();
        proof {
            lemma_head_arg(ARRAY, len as nat);
        }
        let mut n: usize = 0;
        let mut i: usize = 0;
        while i < self.len()
            invariant
                i <= self@.len(),
                concat_encodings::<C, T>(self@).len() <= usize::MAX,
                n == concat_encodings::<C, T>(self@.take(i as int)).len(),
            decreases self@.len() - i,
        {
            proof {
                lemma_concat_take::<C, T>(self@, i as int);
                lemma_concat_prefix::<C, T>(self@, i + 1);
            }
            n = n + self[i].cbor_len();
            i = i + 1;
        }
        assert(self@.take(self@.len() as int) =~= self@);
        <usize as CborLen<C>>::cbor_len(&len) + n
    }
}

impl<'a, C, T: Encode<C> + ?Sized> Encode<C> for &'a T {
    open spec fn encoding(&self) -> Seq<u8> {
        (**self).encoding()
    }

    open spec fn encodable(&self) -> bool {
        (**self).encodable()
    }

    open spec fn encode_error(&self) -> Error {
        (**self).encode_error()
    }

    fn encode(&self, e: &mut Encoder, ctx: &mut C) -> (r: Result<(), Error>) {
        (**self).encode(e, ctx)
    }
}

impl<'a, C, T: CborLen<C> + ?Sized> CborLen<C> for &'a T {
    fn cbor_len(&self) -> (n: usize) {
        (**self).cbor_len()
    }
}

impl<C, T: Encode<C> + ?Sized> Encode<C> for Box<T> {
    open spec fn encoding(&self) -> Seq<u8> {
        (**self).encoding()
    }

    open spec fn encodable(&self) -> bool {
        (**self).encodable()
    }

    open spec fn encode_error(&self) -> Error {
        (**self).encode_error()
    }

    fn encode(&self, e: &mut Encoder, ctx: &mut C) -> (r: Result<(), Error>) {
        (**self).encode(e, ctx)
    }
}

impl<C, T: CborLen<C> + ?Sized> CborLen<C> for Box<T> {
    fn cbor_len(&self) -> (n: usize) {
        (**self).cbor_len()
    }
}

/// A borrowed value encodes as the value it borrows, an owned one as the
/// value it owns.
impl<'a, C, T: Encode<C> + ToOwned + ?Sized> Encode<C> for Cow<'a, T> where
    <T as ToOwned>::Owned: Encode<C>,
 {
    open spec fn encoding(&self) -> Seq<u8> {
        match self {
            Cow::Borrowed(b) => (**b).encoding(),
            Cow::Owned(o) => o.encoding(),
        }
    }

    open spec fn encodable(&self) -> bool {
        match self {
            Cow::Borrowed(b) => (**b).encodable(),
            Cow::Owned(o) => o.encodable(),
        }
    }

    open spec fn encode_error(&self) -> Error {
        match self {
            Cow::Borrowed(b) => (**b).encode_error(),
            Cow::Owned(o) => o.encode_error(),
        }
    }

    fn encode(&self, e: &mut Encoder, ctx: &mut C) -> (r: Result<(), Error>) {
        match self {
            Cow::Borrowed(b) => (**b).encode(e, ctx),
            Cow::Owned(o) => o.encode(e, ctx),
        }
    }
}

impl<'a, C, T: CborLen<C> + ToOwned + ?Sized> CborLen<C> for Cow<'a, T> where
    <T as ToOwned>::Owned: CborLen<C>,
 {
    fn cbor_len(&self) -> (n: usize) {
        match self {
            Cow::Borrowed(b) => (**b).cbor_len(),
            Cow::Owned(o) => o.cbor_len(),
        }
    }
}

impl<C, T: Encode<C>> Encode<C> for Option<T> {
    open spec fn encoding(&self) -> Seq<u8> {
        match self {
            Some(x) => x.encoding(),
            None => seq![NULL],
        }
    }

    open spec fn encodable(&self) -> bool {
        match self {
            Some(x) => x.encodable(),
            None => true,
        }
    }

    /// The error of the value inside; `None` never fails.
    open spec fn encode_error(&self) -> Error {
        match self {
            Some(x) => x.encode_error(),
            None => arbitrary(),
        }
    }

    fn encode(&self, e: &mut Encoder, ctx: &mut C) -> (r: Result<(), Error>) {
        if let Some(x) = self {
            x.encode(e, ctx)
        } else {
            e.null()
        }
    }

    fn is_nil(&self) -> (b: bool)
        ensures
            b == (self is None),
    {
        self.is_none()
    }
}

impl<C, T: CborLen<C>> CborLen<C> for Option<T> {
    fn cbor_len(&self) -> (n: usize)
        ensures
            n == match self {
                Some(x) => x.encoding().len(),
                None => 1,
            },
    {
        if let Some(x) = self {
            x.cbor_len()
        } else {
            1
        }
    }
}

/// The encoding of a two-element array holding the number of a variant and
/// that variant's payload.
pub open spec fn variant_encoding(index: nat, payload: Seq<u8>) -> Seq<u8> {
    head(ARRAY, 2) + head(UNSIGNED, index) + payload
}

impl<C, T: Encode<C>, E: Encode<C>> Encode<C> for Result<T, E> {
    open spec fn encoding(&self) -> Seq<u8> {
        match self {
            Ok(v) => variant_encoding(0, v.encoding()),
            Err(v) => variant_encoding(1, v.encoding()),
        }
    }

    open spec fn encodable(&self) -> bool {
        match self {
            Ok(v) => v.encodable(),
            Err(v) => v.encodable(),
        }
    }

    /// The error of the value inside.
    open spec fn encode_error(&self) -> Error {
        match self {
            Ok(v) => v.encode_error(),
            Err(v) => v.encode_error(),
        }
    }

    fn encode(&self, e: &mut Encoder, ctx: &mut C) -> (r: Result<(), Error>) {
        let ghost start = e@;
        e.array(2)?;
        let r = match self {
            Ok(v) => {
                e.u32(0)?;
                e.encode_with(v, ctx)
            },
            Err(v) => {
                e.u32(1)?;
                e.encode_with(v, ctx)
            },
        };
        assert(start.is_prefix_of(e@) && (r is Ok ==> e@ =~= start + self.encoding()));
        r
    }
}

impl<C, T: CborLen<C>, E: CborLen<C>> CborLen<C> for Result<T, E> {
    fn cbor_len(&self) -> (n: usize)
        ensures
            n == 2 + match self {
                Ok(v) => v.encoding().len(),
                Err(v) => v.encoding().len(),
            },
    {
        proof {
            lemma_head_arg(ARRAY, 2);
            lemma_head_arg(UNSIGNED, 0);
            lemma_head_arg(UNSIGNED, 1);
        }
        1 + match self {
            Ok(x) => 1 + x.cbor_len(),
            Err(e) => 1 + e.cbor_len(),
        }
    }
}

/// One end of a range of values: included in it, excluded from it, or
/// absent, in which case the range is unbounded on that side.
#[derive(Debug, Clone, Copy, PartialEq, Eq, Hash)]
pub enum Bound<T> {
    /// The range includes this value.
    Included(T),
    /// The range excludes this value.
    Excluded(T),
    /// The range has no end on this side.
    Unbounded,
}

impl<C, T: Encode<C>> Encode<C> for Bound<T> {
    /// The number of the variant, then the value, or an empty array when
    /// unbounded.
    open spec fn encoding(&self) -> Seq<u8> {
        match self {
            Bound::Included(v) => variant_encoding(0, v.encoding()),
            Bound::Excluded(v) => variant_encoding(1, v.encoding()),
            Bound::Unbounded => variant_encoding(2, head(ARRAY, 0)),
        }
    }

    open spec fn encodable(&self) -> bool {
        match self {
            Bound::Included(v) => v.encodable(),
            Bound::Excluded(v) => v.encodable(),
            Bound::Unbounded => true,
        }
    }

    /// The error of the value inside; an unbounded end never fails.
    open spec fn encode_error(&self) -> Error {
        match self {
            Bound::Included(v) => v.encode_error(),
            Bound::Excluded(v) => v.encode_error(),
            Bound::Unbounded => arbitrary(),
        }
    }

    fn encode(&self, e: &mut Encoder, ctx: &mut C) -> (r: Result<(), Error>) {
        let ghost start = e@;
        e.array(2)?;
        let r = match self {
            Bound::Included(v) => {
                e.u32(0)?;
                e.encode_with(v, ctx)
            },
            Bound::Excluded(v) => {
                e.u32(1)?;
                e.encode_with(v, ctx)
            },
            Bound::Unbounded => {
                e.u32(2)?;
                e.array(0)
            },
        };
        assert(start.is_prefix_of(e@) && (r is Ok ==> e@ =~= start + self.encoding()));
        r
    }
}

impl<C, T: CborLen<C>> CborLen<C> for Bound<T> {
    fn cbor_len(&self) -> (n: usize) {
        proof {
            lemma_head_arg(ARRAY, 2);
            lemma_head_arg(ARRAY, 0);
            lemma_head_arg(UNSIGNED, 0);
            lemma_head_arg(UNSIGNED, 1);
            lemma_head_arg(UNSIGNED, 2);
        }
        1 + match self {
            Bound::Included(v) => 1 + v.cbor_len(),
            Bound::Excluded(v) => 1 + v.cbor_len(),
            Bound::Unbounded => 2,
        }
    }
}

/// The encoding of a two-element array of a start and an end.
pub open spec fn pair_encoding(a: Seq<u8>, b: Seq<u8>) -> Seq<u8> {
    head(ARRAY, 2) + a + b
}

impl<C, T: Encode<C>> Encode<C> for Range<T> {
    open spec fn encoding(&self) -> Seq<u8> {
        pair_encoding(self.start.encoding(), self.end.encoding())
    }

    open spec fn encodable(&self) -> bool {
        self.start.encodable() && self.end.encodable()
    }

    /// The error of the start when it does not encode, else that of the end.
    open spec fn encode_error(&self) -> Error {
        if !self.start.encodable() {
            self.start.encode_error()
        } else {
            self.end.encode_error()
        }
    }

    fn encode(&self, e: &mut Encoder, ctx: &mut C) -> (r: Result<(), Error>) {
        let ghost start = e@;
        e.array(2)?;
        e.encode_with(&self.start, ctx)?;
        let r = e.encode_with(&self.end, ctx);
        assert(start.is_prefix_of(e@) && (r is Ok ==> e@ =~= start + self.encoding()));
        r
    }
}

impl<C, T: CborLen<C>> CborLen<C> for Range<T> {
    fn cbor_len(&self) -> (n: usize) {
        proof {
            lemma_head_arg(ARRAY, 2);
        }
        1 + self.start.cbor_len() + self.end.cbor_len()
    }
}

impl<'a, C, T: Encode<C> + ?Sized> Encode<C> for &'a mut T {
    open spec fn encoding(&self) -> Seq<u8> {
        (**self).encoding()
    }

    open spec fn encodable(&self) -> bool {
        (**self).encodable()
    }

    open spec fn encode_error(&self) -> Error {
        (**self).encode_error()
    }

    fn encode(&self, e: &mut Encoder, ctx: &mut C) -> (r: Result<(), Error>) {
        (**self).encode(e, ctx)
    }
}

impl<'a, C, T: CborLen<C> + ?Sized> CborLen<C> for &'a mut T {
    fn cbor_len(&self) -> (n: usize) {
        (**self).cbor_len()
    }
}

/// `RangeInclusive::start` gives the lower bound of the range.
pub assume_specification<Idx>[ RangeInclusive::<Idx>::start ](r: &RangeInclusive<Idx>) -> (s: &Idx)
    ensures
        *s == r@.start,
;

/// `RangeInclusive::end` gives the upper bound of the range.
pub assume_specification<Idx>[ RangeInclusive::<Idx>::end ](r: &RangeInclusive<Idx>) -> (s: &Idx)
    ensures
        *s == r@.end,
;

impl<C, T: Encode<C>> Encode<C> for RangeInclusive<T> {
    open spec fn encoding(&self) -> Seq<u8> {
        pair_encoding(self@.start.encoding(), self@.end.encoding())
    }

    open spec fn encodable(&self) -> bool {
        self@.start.encodable() && self@.end.encodable()
    }

    /// The error of the start when it does not encode, else that of the end.
    open spec fn encode_error(&self) -> Error {
        if !self@.start.encodable() {
            self@.start.encode_error()
        } else {
            self@.end.encode_error()
        }
    }

    fn encode(&self, e: &mut Encoder, ctx: &mut C) -> (r: Result<(), Error>) {
        let ghost start = e@;
        e.array(2)?;
        encode_part(e, self.start(), ctx, Ghost(start), Ghost(head(ARRAY, 2)))?;
        encode_part(e, self.end(), ctx, Ghost(start), Ghost(head(ARRAY, 2) + self@.start.encoding()))
    }
}

impl<C, T: CborLen<C>> CborLen<C> for RangeInclusive<T> {
    fn cbor_len(&self) -> (n: usize) {
        proof {
            lemma_head_arg(ARRAY, 2);
        }
        1 + self.start().cbor_len() + self.end().cbor_len()
    }
}

/// Encodes `x` after the bytes `done` that the encoder holds past `start`.
fn encode_part<C, T: Encode<C>>(
    e: &mut Encoder,
    x: &T,
    ctx: &mut C,
    Ghost(start): Ghost<Seq<u8>>,
    Ghost(done): Ghost<Seq<u8>>,
) -> (r: Result<(), Error>)
    requires
        old(e)@ == start + done,
    ensures
        start.is_prefix_of(final(e)@),
        r is Ok ==> final(e)@ == start + (done + x.encoding()),
        r is Ok <==> x.encodable(),
        r is Err ==> r == Err::<(), Error>(x.encode_error()),
{
    let r = x.encode(e, ctx);
    assert(start.is_prefix_of(e@));
    assert(r is Ok ==> e@ =~= start + (done + x.encoding()));
    r
}

impl<Ctx, A: Encode<Ctx>> Encode<Ctx> for (A,) {
    open spec fn encoding(&self) -> Seq<u8> {
        head(ARRAY, 1) + self.0.encoding()
    }

    open spec fn encodable(&self) -> bool {
        self.0.encodable()
    }

    /// The error of the first element that does not encode.
    open spec fn encode_error(&self) -> Error {
        self.0.encode_error()
    }

    fn encode(&self, e: &mut Encoder, ctx: &mut Ctx) -> (r: Result<(), Error>) {
        let ghost start = e@;
        e.array(1)?;
        encode_part(e, &self.0, ctx, Ghost(start), Ghost(head(ARRAY, 1)))
    }
}

impl<Ctx, A: CborLen<Ctx>> CborLen<Ctx> for (A,) {
    fn cbor_len(&self) -> (n: usize) {
        proof {
            lemma_head_arg(ARRAY, 1);
        }
        <usize as CborLen<Ctx>>::cbor_len(&1) + self.0.cbor_len()
    }
}

impl<Ctx, A: Encode<Ctx>, B: Encode<Ctx>> Encode<Ctx> for (A, B) {
    open spec fn encoding(&self) -> Seq<u8> {
        head(ARRAY, 2) + self.0.encoding() + self.1.encoding()
    }

    open spec fn encodable(&self) -> bool {
        self.0.encodable() && self.1.encodable()
    }

    /// The error of the first element that does not encode.
    open spec fn encode_error(&self) -> Error {
        if !self.0.encodable() {
            self.0.encode_error()
        } else {
            self.1.encode_error()
        }
    }

    fn encode(&self, e: &mut Encoder, ctx: &mut Ctx) -> (r: Result<(), Error>) {
        let ghost start = e@;
        e.array(2)?;
        encode_part(e, &self.0, ctx, Ghost(start), Ghost(head(ARRAY, 2)))?;
        encode_part(e, &self.1, ctx, Ghost(start), Ghost(head(ARRAY, 2) + self.0.encoding()))
    }
}

impl<Ctx, A: CborLen<Ctx>, B: CborLen<Ctx>> CborLen<Ctx> for (A, B) {
    fn cbor_len(&self) -> (n: usize) {
        proof {
            lemma_head_arg(ARRAY, 2);
        }
        <usize as CborLen<Ctx>>::cbor_len(&2) + self.0.cbor_len() + self.1.cbor_len()
    }
}

impl<Ctx, A: Encode<Ctx>, B: Encode<Ctx>, C: Encode<Ctx>> Encode<Ctx> for (A, B, C) {
    open spec fn encoding(&self) -> Seq<u8> {
        head(ARRAY, 3) + self.0.encoding() + self.1.encoding() + self.2.encoding()
    }

    open spec fn encodable(&self) -> bool {
        self.0.encodable() && self.1.encodable() && self.2.encodable()
    }

    /// The error of the first element that does not encode.
    open spec fn encode_error(&self) -> Error {
        if !self.0.encodable() {
            self.0.encode_error()
        } else if !self.1.encodable() {
            self.1.encode_error()
        } else {
            self.2.encode_error()
        }
    }

    fn encode(&self, e: &mut Encoder, ctx: &mut Ctx) -> (r: Result<(), Error>) {
        let ghost start = e@;
        e.array(3)?;
        encode_part(e, &self.0, ctx, Ghost(start), Ghost(head(ARRAY, 3)))?;
        encode_part(e, &self.1, ctx, Ghost(start), Ghost(head(ARRAY, 3) + self.0.encoding()))?;
        encode_part(e, &self.2, ctx, Ghost(start), Ghost(head(ARRAY, 3) + self.0.encoding() + self.1.encoding()))
    }
}

impl<Ctx, A: CborLen<Ctx>, B: CborLen<Ctx>, C: CborLen<Ctx>> CborLen<Ctx> for (A, B, C) {
    fn cbor_len(&self) -> (n: usize) {
        proof {
            lemma_head_arg(ARRAY, 3);
        }
        <usize as CborLen<Ctx>>::cbor_len(&3) + self.0.cbor_len() + self.1.cbor_len() + self.2.cbor_len()
    }
}

impl<Ctx, A: Encode<Ctx>, B: Encode<Ctx>, C: Encode<Ctx>, D: Encode<Ctx>> Encode<Ctx> for (A, B, C, D) {
    open spec fn encoding(&self) -> Seq<u8> {
        head(ARRAY, 4) + self.0.encoding() + self.1.encoding() + self.2.encoding() + self.3.encoding()
    }

    open spec fn encodable(&self) -> bool {
        self.0.encodable() && self.1.encodable() && self.2.encodable() && self.3.encodable()
    }

    /// The error of the first element that does not encode.
    open spec fn encode_error(&self) -> Error {
        if !self.0.encodable() {
            self.0.encode_error()
        } else if !self.1.encodable() {
            self.1.encode_error()
        } else if !self.2.encodable() {
            self.2.encode_error()
        } else {
            self.3.encode_error()
        }
    }

    fn encode(&self, e: &mut Encoder, ctx: &mut Ctx) -> (r: Result<(), Error>) {
        let ghost start = e@;
        e.array(4)?;
        encode_part(e, &self.0, ctx, Ghost(start), Ghost(head(ARRAY, 4)))?;
        encode_part(e, &self.1, ctx, Ghost(start), Ghost(head(ARRAY, 4) + self.0.encoding()))?;
        encode_part(e, &self.2, ctx, Ghost(start), Ghost(head(ARRAY, 4) + self.0.encoding() + self.1.encoding()))?;
        encode_part(e, &self.3, ctx, Ghost(start), Ghost(head(ARRAY, 4) + self.0.encoding() + self.1.encoding() + self.2.encoding()))
    }
}

impl<Ctx, A: CborLen<Ctx>, B: CborLen<Ctx>, C: CborLen<Ctx>, D: CborLen<Ctx>> CborLen<Ctx> for (A, B, C, D) {
    fn cbor_len(&self) -> (n: usize) {
        proof {
            lemma_head_arg(ARRAY, 4);
        }
        <usize as CborLen<Ctx>>::cbor_len(&4) + self.0.cbor_len() + self.1.cbor_len() + self.2.cbor_len() + self.3.cbor_len()
    }
}

impl<Ctx, A: Encode<Ctx>, B: Encode<Ctx>, C: Encode<Ctx>, D: Encode<Ctx>, E: Encode<Ctx>> Encode<Ctx> for (A, B, C, D, E) {
    open spec fn encoding(&self) -> Seq<u8> {
        head(ARRAY, 5) + self.0.encoding() + self.1.encoding() + self.2.encoding() + self.3.encoding() + self.4.encoding()
    }

    open spec fn encodable(&self) -> bool {
        self.0.encodable() && self.1.encodable() && self.2.encodable() && self.3.encodable() && self.4.encodable()
    }

    /// The error of the first element that does not encode.
    open spec fn encode_error(&self) -> Error {
        if !self.0.encodable() {
            self.0.encode_error()
        } else if !self.1.encodable() {
            self.1.encode_error()
        } else if !self.2.encodable() {
            self.2.encode_error()
        } else if !self.3.encodable() {
            self.3.encode_error()
        } else {
            self.4.encode_error()
        }
    }

    fn encode(&self, e: &mut Encoder, ctx: &mut Ctx) -> (r: Result<(), Error>) {
        let ghost start = e@;
        e.array(5)?;
        encode_part(e, &self.0, ctx, Ghost(start), Ghost(head(ARRAY, 5)))?;
        encode_part(e, &self.1, ctx, Ghost(start), Ghost(head(ARRAY, 5) + self.0.encoding()))?;
        encode_part(e, &self.2, ctx, Ghost(start), Ghost(head(ARRAY, 5) + self.0.encoding() + self.1.encoding()))?;
        encode_part(e, &self.3, ctx, Ghost(start), Ghost(head(ARRAY, 5) + self.0.encoding() + self.1.encoding() + self.2.encoding()))?;
        encode_part(e, &self.4, ctx, Ghost(start), Ghost(head(ARRAY, 5) + self.0.encoding() + self.1.encoding() + self.2.encoding() + self.3.encoding()))
    }
}

impl<Ctx, A: CborLen<Ctx>, B: CborLen<Ctx>, C: CborLen<Ctx>, D: CborLen<Ctx>, E: CborLen<Ctx>> CborLen<Ctx> for (A, B, C, D, E) {
    fn cbor_len(&self) -> (n: usize) {
        proof {
            lemma_head_arg(ARRAY, 5);
        }
        <usize as CborLen<Ctx>>::cbor_len(&5) + self.0.cbor_len() + self.1.cbor_len() + self.2.cbor_len() + self.3.cbor_len() + self.4.cbor_len()
    }
}

impl<Ctx, A: Encode<Ctx>, B: Encode<Ctx>, C: Encode<Ctx>, D: Encode<Ctx>, E: Encode<Ctx>, F: Encode<Ctx>> Encode<Ctx> for (A, B, C, D, E, F) {
    open spec fn encoding(&self) -> Seq<u8> {
        head(ARRAY, 6) + self.0.encoding() + self.1.encoding() + self.2.encoding() + self.3.encoding() + self.4.encoding() + self.5.encoding()
    }

    open spec fn encodable(&self) -> bool {
        self.0.encodable() && self.1.encodable() && self.2.encodable() && self.3.encodable() && self.4.encodable() && self.5.encodable()
    }

    /// The error of the first element that does not encode.
    open spec fn encode_error(&self) -> Error {
        if !self.0.encodable() {
            self.0.encode_error()
        } else if !self.1.encodable() {
            self.1.encode_error()
        } else if !self.2.encodable() {
            self.2.encode_error()
        } else if !self.3.encodable() {
            self.3.encode_error()
        } else if !self.4.encodable() {
            self.4.encode_error()
        } else {
            self.5.encode_error()
        }
    }

    fn encode(&self, e: &mut Encoder, ctx: &mut Ctx) -> (r: Result<(), Error>) {
        let ghost start = e@;
        e.array(6)?;
        encode_part(e, &self.0, ctx, Ghost(start), Ghost(head(ARRAY, 6)))?;
        encode_part(e, &self.1, ctx, Ghost(start), Ghost(head(ARRAY, 6) + self.0.encoding()))?;
        encode_part(e, &self.2, ctx, Ghost(start), Ghost(head(ARRAY, 6) + self.0.encoding() + self.1.encoding()))?;
        encode_part(e, &self.3, ctx, Ghost(start), Ghost(head(ARRAY, 6) + self.0.encoding() + self.1.encoding() + self.2.encoding()))?;
        encode_part(e, &self.4, ctx, Ghost(start), Ghost(head(ARRAY, 6) + self.0.encoding() + self.1.encoding() + self.2.encoding() + self.3.encoding()))?;
        encode_part(e, &self.5, ctx, Ghost(start), Ghost(head(ARRAY, 6) + self.0.encoding() + self.1.encoding() + self.2.encoding() + self.3.encoding() + self.4.encoding()))
    }
}

impl<Ctx, A: CborLen<Ctx>, B: CborLen<Ctx>, C: CborLen<Ctx>, D: CborLen<Ctx>, E: CborLen<Ctx>, F: CborLen<Ctx>> CborLen<Ctx> for (A, B, C, D, E, F) {
    fn cbor_len(&self) -> (n: usize) {
        proof {
            lemma_head_arg(ARRAY, 6);
        }
        <usize as CborLen<Ctx>>::cbor_len(&6) + self.0.cbor_len() + self.1.cbor_len() + self.2.cbor_len() + self.3.cbor_len() + self.4.cbor_len() + self.5.cbor_len()
    }
}

impl<Ctx, A: Encode<Ctx>, B: Encode<Ctx>, C: Encode<Ctx>, D: Encode<Ctx>, E: Encode<Ctx>, F: Encode<Ctx>, G: Encode<Ctx>> Encode<Ctx> for (A, B, C, D, E, F, G) {
    open spec fn encoding(&self) -> Seq<u8> {
        head(ARRAY, 7) + self.0.encoding() + self.1.encoding() + self.2.encoding() + self.3.encoding() + self.4.encoding() + self.5.encoding() + self.6.encoding()
    }

    open spec fn encodable(&self) -> bool {
        self.0.encodable() && self.1.encodable() && self.2.encodable() && self.3.encodable() && self.4.encodable() && self.5.encodable() && self.6.encodable()
    }

    /// The error of the first element that does not encode.
    open spec fn encode_error(&self) -> Error {
        if !self.0.encodable() {
            self.0.encode_error()
        } else if !self.1.encodable() {
            self.1.encode_error()
        } else if !self.2.encodable() {
            self.2.encode_error()
        } else if !self.3.encodable() {
            self.3.encode_error()
        } else if !self.4.encodable() {
            self.4.encode_error()
        } else if !self.5.encodable() {
            self.5.encode_error()
        } else {
            self.6.encode_error()
        }
    }

    fn encode(&self, e: &mut Encoder, ctx: &mut Ctx) -> (r: Result<(), Error>) {
        let ghost start = e@;
        e.array(7)?;
        encode_part(e, &self.0, ctx, Ghost(start), Ghost(head(ARRAY, 7)))?;
        encode_part(e, &self.1, ctx, Ghost(start), Ghost(head(ARRAY, 7) + self.0.encoding()))?;
        encode_part(e, &self.2, ctx, Ghost(start), Ghost(head(ARRAY, 7) + self.0.encoding() + self.1.encoding()))?;
        encode_part(e, &self.3, ctx, Ghost(start), Ghost(head(ARRAY, 7) + self.0.encoding() + self.1.encoding() + self.2.encoding()))?;
        encode_part(e, &self.4, ctx, Ghost(start), Ghost(head(ARRAY, 7) + self.0.encoding() + self.1.encoding() + self.2.encoding() + self.3.encoding()))?;
        encode_part(e, &self.5, ctx, Ghost(start), Ghost(head(ARRAY, 7) + self.0.encoding() + self.1.encoding() + self.2.encoding() + self.3.encoding() + self.4.encoding()))?;
        encode_part(e, &self.6, ctx, Ghost(start), Ghost(head(ARRAY, 7) + self.0.encoding() + self.1.encoding() + self.2.encoding() + self.3.encoding() + self.4.encoding() + self.5.encoding()))
    }
}

impl<Ctx, A: CborLen<Ctx>, B: CborLen<Ctx>, C: CborLen<Ctx>, D: CborLen<Ctx>, E: CborLen<Ctx>, F: CborLen<Ctx>, G: CborLen<Ctx>> CborLen<Ctx> for (A, B, C, D, E, F, G) {
    fn cbor_len(&self) -> (n: usize) {
        proof {
            lemma_head_arg(ARRAY, 7);
        }
        <usize as CborLen<Ctx>>::cbor_len(&7) + self.0.cbor_len() + self.1.cbor_len() + self.2.cbor_len() + self.3.cbor_len() + self.4.cbor_len() + self.5.cbor_len() + self.6.cbor_len()
    }
}

impl<Ctx, A: Encode<Ctx>, B: Encode<Ctx>, C: Encode<Ctx>, D: Encode<Ctx>, E: Encode<Ctx>, F: Encode<Ctx>, G: Encode<Ctx>, H: Encode<Ctx>> Encode<Ctx> for (A, B, C, D, E, F, G, H) {
    open spec fn encoding(&self) -> Seq<u8> {
        head(ARRAY, 8) + self.0.encoding() + self.1.encoding() + self.2.encoding() + self.3.encoding() + self.4.encoding() + self.5.encoding() + self.6.encoding() + self.7.encoding()
    }

    open spec fn encodable(&self) -> bool {
        self.0.encodable() && self.1.encodable() && self.2.encodable() && self.3.encodable() && self.4.encodable() && self.5.encodable() && self.6.encodable() && self.7.encodable()
    }

    /// The error of the first element that does not encode.
    open spec fn encode_error(&self) -> Error {
        if !self.0.encodable() {
            self.0.encode_error()
        } else if !self.1.encodable() {
            self.1.encode_error()
        } else if !self.2.encodable() {
            self.2.encode_error()
        } else if !self.3.encodable() {
            self.3.encode_error()
        } else if !self.4.encodable() {
            self.4.encode_error()
        } else if !self.5.encodable() {
            self.5.encode_error()
        } else if !self.6.encodable() {
            self.6.encode_error()
        } else {
            self.7.encode_error()
        }
    }

    fn encode(&self, e: &mut Encoder, ctx: &mut Ctx) -> (r: Result<(), Error>) {
        let ghost start = e@;
        e.array(8)?;
        encode_part(e, &self.0, ctx, Ghost(start), Ghost(head(ARRAY, 8)))?;
        encode_part(e, &self.1, ctx, Ghost(start), Ghost(head(ARRAY, 8) + self.0.encoding()))?;
        encode_part(e, &self.2, ctx, Ghost(start), Ghost(head(ARRAY, 8) + self.0.encoding() + self.1.encoding()))?;
        encode_part(e, &self.3, ctx, Ghost(start), Ghost(head(ARRAY, 8) + self.0.encoding() + self.1.encoding() + self.2.encoding()))?;
        encode_part(e, &self.4, ctx, Ghost(start), Ghost(head(ARRAY, 8) + self.0.encoding() + self.1.encoding() + self.2.encoding() + self.3.encoding()))?;
        encode_part(e, &self.5, ctx, Ghost(start), Ghost(head(ARRAY, 8) + self.0.encoding() + self.1.encoding() + self.2.encoding() + self.3.encoding() + self.4.encoding()))?;
        encode_part(e, &self.6, ctx, Ghost(start), Ghost(head(ARRAY, 8) + self.0.encoding() + self.1.encoding() + self.2.encoding() + self.3.encoding() + self.4.encoding() + self.5.encoding()))?;
        encode_part(e, &self.7, ctx, Ghost(start), Ghost(head(ARRAY, 8) + self.0.encoding() + self.1.encoding() + self.2.encoding() + self.3.encoding() + self.4.encoding() + self.5.encoding() + self.6.encoding()))
    }
}

impl<Ctx, A: CborLen<Ctx>, B: CborLen<Ctx>, C: CborLen<Ctx>, D: CborLen<Ctx>, E: CborLen<Ctx>, F: CborLen<Ctx>, G: CborLen<Ctx>, H: CborLen<Ctx>> CborLen<Ctx> for (A, B, C, D, E, F, G, H) {
    fn cbor_len(&self) -> (n: usize) {
        proof {
            lemma_head_arg(ARRAY, 8);
        }
        <usize as CborLen<Ctx>>::cbor_len(&8) + self.0.cbor_len() + self.1.cbor_len() + self.2.cbor_len() + self.3.cbor_len() + self.4.cbor_len() + self.5.cbor_len() + self.6.cbor_len() + self.7.cbor_len()
    }
}

impl<Ctx, A: Encode<Ctx>, B: Encode<Ctx>, C: Encode<Ctx>, D: Encode<Ctx>, E: Encode<Ctx>, F: Encode<Ctx>, G: Encode<Ctx>, H: Encode<Ctx>, I: Encode<Ctx>> Encode<Ctx> for (A, B, C, D, E, F, G, H, I) {
    open spec fn encoding(&self) -> Seq<u8> {
        head(ARRAY, 9) + self.0.encoding() + self.1.encoding() + self.2.encoding() + self.3.encoding() + self.4.encoding() + self.5.encoding() + self.6.encoding() + self.7.encoding() + self.8.encoding()
    }

    open spec fn encodable(&self) -> bool {
        self.0.encodable() && self.1.encodable() && self.2.encodable() && self.3.encodable() && self.4.encodable() && self.5.encodable() && self.6.encodable() && self.7.encodable() && self.8.encodable()
    }

    /// The error of the first element that does not encode.
    open spec fn encode_error(&self) -> Error {
        if !self.0.encodable() {
            self.0.encode_error()
        } else if !self.1.encodable() {
            self.1.encode_error()
        } else if !self.2.encodable() {
            self.2.encode_error()
        } else if !self.3.encodable() {
            self.3.encode_error()
        } else if !self.4.encodable() {
            self.4.encode_error()
        } else if !self.5.encodable() {
            self.5.encode_error()
        } else if !self.6.encodable() {
            self.6.encode_error()
        } else if !self.7.encodable() {
            self.7.encode_error()
        } else {
            self.8.encode_error()
        }
    }

    fn encode(&self, e: &mut Encoder, ctx: &mut Ctx) -> (r: Result<(), Error>) {
        let ghost start = e@;
        e.array(9)?;
        encode_part(e, &self.0, ctx, Ghost(start), Ghost(head(ARRAY, 9)))?;
        encode_part(e, &self.1, ctx, Ghost(start), Ghost(head(ARRAY, 9) + self.0.encoding()))?;
        encode_part(e, &self.2, ctx, Ghost(start), Ghost(head(ARRAY, 9) + self.0.encoding() + self.1.encoding()))?;
        encode_part(e, &self.3, ctx, Ghost(start), Ghost(head(ARRAY, 9) + self.0.encoding() + self.1.encoding() + self.2.encoding()))?;
        encode_part(e, &self.4, ctx, Ghost(start), Ghost(head(ARRAY, 9) + self.0.encoding() + self.1.encoding() + self.2.encoding() + self.3.encoding()))?;
        encode_part(e, &self.5, ctx, Ghost(start), Ghost(head(ARRAY, 9) + self.0.encoding() + self.1.encoding() + self.2.encoding() + self.3.encoding() + self.4.encoding()))?;
        encode_part(e, &self.6, ctx, Ghost(start), Ghost(head(ARRAY, 9) + self.0.encoding() + self.1.encoding() + self.2.encoding() + self.3.encoding() + self.4.encoding() + self.5.encoding()))?;
        encode_part(e, &self.7, ctx, Ghost(start), Ghost(head(ARRAY, 9) + self.0.encoding() + self.1.encoding() + self.2.encoding() + self.3.encoding() + self.4.encoding() + self.5.encoding() + self.6.encoding()))?;
        encode_part(e, &self.8, ctx, Ghost(start), Ghost(head(ARRAY, 9) + self.0.encoding() + self.1.encoding() + self.2.encoding() + self.3.encoding() + self.4.encoding() + self.5.encoding() + self.6.encoding() + self.7.encoding()))
    }
}

impl<Ctx, A: CborLen<Ctx>, B: CborLen<Ctx>, C: CborLen<Ctx>, D: CborLen<Ctx>, E: CborLen<Ctx>, F: CborLen<Ctx>, G: CborLen<Ctx>, H: CborLen<Ctx>, I: CborLen<Ctx>> CborLen<Ctx> for (A, B, C, D, E, F, G, H, I) {
    fn cbor_len(&self) -> (n: usize) {
        proof {
            lemma_head_arg(ARRAY, 9);
        }
        <usize as CborLen<Ctx>>::cbor_len(&9) + self.0.cbor_len() + self.1.cbor_len() + self.2.cbor_len() + self.3.cbor_len() + self.4.cbor_len() + self.5.cbor_len() + self.6.cbor_len() + self.7.cbor_len() + self.8.cbor_len()
    }
}

impl<Ctx, A: Encode<Ctx>, B: Encode<Ctx>, C: Encode<Ctx>, D: Encode<Ctx>, E: Encode<Ctx>, F: Encode<Ctx>, G: Encode<Ctx>, H: Encode<Ctx>, I: Encode<Ctx>, J: Encode<Ctx>> Encode<Ctx> for (A, B, C, D, E, F, G, H, I, J) {
    open spec fn encoding(&self) -> Seq<u8> {
        head(ARRAY, 10) + self.0.encoding() + self.1.encoding() + self.2.encoding() + self.3.encoding() + self.4.encoding() + self.5.encoding() + self.6.encoding() + self.7.encoding() + self.8.encoding() + self.9.encoding()
    }

    open spec fn encodable(&self) -> bool {
        self.0.encodable() && self.1.encodable() && self.2.encodable() && self.3.encodable() && self.4.encodable() && self.5.encodable() && self.6.encodable() && self.7.encodable() && self.8.encodable() && self.9.encodable()
    }

    /// The error of the first element that does not encode.
    open spec fn encode_error(&self) -> Error {
        if !self.0.encodable() {
            self.0.encode_error()
        } else if !self.1.encodable() {
            self.1.encode_error()
        } else if !self.2.encodable() {
            self.2.encode_error()
        } else if !self.3.encodable() {
            self.3.encode_error()
        } else if !self.4.encodable() {
            self.4.encode_error()
        } else if !self.5.encodable() {
            self.5.encode_error()
        } else if !self.6.encodable() {
            self.6.encode_error()
        } else if !self.7.encodable() {
            self.7.encode_error()
        } else if !self.8.encodable() {
            self.8.encode_error()
        } else {
            self.9.encode_error()
        }
    }

    fn encode(&self, e: &mut Encoder, ctx: &mut Ctx) -> (r: Result<(), Error>) {
        let ghost start = e@;
        e.array(10)?;
        encode_part(e, &self.0, ctx, Ghost(start), Ghost(head(ARRAY, 10)))?;
        encode_part(e, &self.1, ctx, Ghost(start), Ghost(head(ARRAY, 10) + self.0.encoding()))?;
        encode_part(e, &self.2, ctx, Ghost(start), Ghost(head(ARRAY, 10) + self.0.encoding() + self.1.encoding()))?;
        encode_part(e, &self.3, ctx, Ghost(start), Ghost(head(ARRAY, 10) + self.0.encoding() + self.1.encoding() + self.2.encoding()))?;
        encode_part(e, &self.4, ctx, Ghost(start), Ghost(head(ARRAY, 10) + self.0.encoding() + self.1.encoding() + self.2.encoding() + self.3.encoding()))?;
        encode_part(e, &self.5, ctx, Ghost(start), Ghost(head(ARRAY, 10) + self.0.encoding() + self.1.encoding() + self.2.encoding() + self.3.encoding() + self.4.encoding()))?;
        encode_part(e, &self.6, ctx, Ghost(start), Ghost(head(ARRAY, 10) + self.0.encoding() + self.1.encoding() + self.2.encoding() + self.3.encoding() + self.4.encoding() + self.5.encoding()))?;
        encode_part(e, &self.7, ctx, Ghost(start), Ghost(head(ARRAY, 10) + self.0.encoding() + self.1.encoding() + self.2.encoding() + self.3.encoding() + self.4.encoding() + self.5.encoding() + self.6.encoding()))?;
        encode_part(e, &self.8, ctx, Ghost(start), Ghost(head(ARRAY, 10) + self.0.encoding() + self.1.encoding() + self.2.encoding() + self.3.encoding() + self.4.encoding() + self.5.encoding() + self.6.encoding() + self.7.encoding()))?;
        encode_part(e, &self.9, ctx, Ghost(start), Ghost(head(ARRAY, 10) + self.0.encoding() + self.1.encoding() + self.2.encoding() + self.3.encoding() + self.4.encoding() + self.5.encoding() + self.6.encoding() + self.7.encoding() + self.8.encoding()))
    }
}

impl<Ctx, A: CborLen<Ctx>, B: CborLen<Ctx>, C: CborLen<Ctx>, D: CborLen<Ctx>, E: CborLen<Ctx>, F: CborLen<Ctx>, G: CborLen<Ctx>, H: CborLen<Ctx>, I: CborLen<Ctx>, J: CborLen<Ctx>> CborLen<Ctx> for (A, B, C, D, E, F, G, H, I, J) {
    fn cbor_len(&self) -> (n: usize) {
        proof {
            lemma_head_arg(ARRAY, 10);
        }
        <usize as CborLen<Ctx>>::cbor_len(&10) + self.0.cbor_len() + self.1.cbor_len() + self.2.cbor_len() + self.3.cbor_len() + self.4.cbor_len() + self.5.cbor_len() + self.6.cbor_len() + self.7.cbor_len() + self.8.cbor_len() + self.9.cbor_len()
    }
}

impl<Ctx, A: Encode<Ctx>, B: Encode<Ctx>, C: Encode<Ctx>, D: Encode<Ctx>, E: Encode<Ctx>, F: Encode<Ctx>, G: Encode<Ctx>, H: Encode<Ctx>, I: Encode<Ctx>, J: Encode<Ctx>, K: Encode<Ctx>> Encode<Ctx> for (A, B, C, D, E, F, G, H, I, J, K) {
    open spec fn encoding(&self) -> Seq<u8> {
        head(ARRAY, 11) + self.0.encoding() + self.1.encoding() + self.2.encoding() + self.3.encoding() + self.4.encoding() + self.5.encoding() + self.6.encoding() + self.7.encoding() + self.8.encoding() + self.9.encoding() + self.10.encoding()
    }

    open spec fn encodable(&self) -> bool {
        self.0.encodable() && self.1.encodable() && self.2.encodable() && self.3.encodable() && self.4.encodable() && self.5.encodable() && self.6.encodable() && self.7.encodable() && self.8.encodable() && self.9.encodable() && self.10.encodable()
    }

    /// The error of the first element that does not encode.
    open spec fn encode_error(&self) -> Error {
        if !self.0.encodable() {
            self.0.encode_error()
        } else if !self.1.encodable() {
            self.1.encode_error()
        } else if !self.2.encodable() {
            self.2.encode_error()
        } else if !self.3.encodable() {
            self.3.encode_error()
        } else if !self.4.encodable() {
            self.4.encode_error()
        } else if !self.5.encodable() {
            self.5.encode_error()
        } else if !self.6.encodable() {
            self.6.encode_error()
        } else if !self.7.encodable() {
            self.7.encode_error()
        } else if !self.8.encodable() {
            self.8.encode_error()
        } else if !self.9.encodable() {
            self.9.encode_error()
        } else {
            self.10.encode_error()
        }
    }

    fn encode(&self, e: &mut Encoder, ctx: &mut Ctx) -> (r: Result<(), Error>) {
        let ghost start = e@;
        e.array(11)?;
        encode_part(e, &self.0, ctx, Ghost(start), Ghost(head(ARRAY, 11)))?;
        encode_part(e, &self.1, ctx, Ghost(start), Ghost(head(ARRAY, 11) + self.0.encoding()))?;
        encode_part(e, &self.2, ctx, Ghost(start), Ghost(head(ARRAY, 11) + self.0.encoding() + self.1.encoding()))?;
        encode_part(e, &self.3, ctx, Ghost(start), Ghost(head(ARRAY, 11) + self.0.encoding() + self.1.encoding() + self.2.encoding()))?;
        encode_part(e, &self.4, ctx, Ghost(start), Ghost(head(ARRAY, 11) + self.0.encoding() + self.1.encoding() + self.2.encoding() + self.3.encoding()))?;
        encode_part(e, &self.5, ctx, Ghost(start), Ghost(head(ARRAY, 11) + self.0.encoding() + self.1.encoding() + self.2.encoding() + self.3.encoding() + self.4.encoding()))?;
        encode_part(e, &self.6, ctx, Ghost(start), Ghost(head(ARRAY, 11) + self.0.encoding() + self.1.encoding() + self.2.encoding() + self.3.encoding() + self.4.encoding() + self.5.encoding()))?;
        encode_part(e, &self.7, ctx, Ghost(start), Ghost(head(ARRAY, 11) + self.0.encoding() + self.1.encoding() + self.2.encoding() + self.3.encoding() + self.4.encoding() + self.5.encoding() + self.6.encoding()))?;
        encode_part(e, &self.8, ctx, Ghost(start), Ghost(head(ARRAY, 11) + self.0.encoding() + self.1.encoding() + self.2.encoding() + self.3.encoding() + self.4.encoding() + self.5.encoding() + self.6.encoding() + self.7.encoding()))?;
        encode_part(e, &self.9, ctx, Ghost(start), Ghost(head(ARRAY, 11) + self.0.encoding() + self.1.encoding() + self.2.encoding() + self.3.encoding() + self.4.encoding() + self.5.encoding() + self.6.encoding() + self.7.encoding() + self.8.encoding()))?;
        encode_part(e, &self.10, ctx, Ghost(start), Ghost(head(ARRAY, 11) + self.0.encoding() + self.1.encoding() + self.2.encoding() + self.3.encoding() + self.4.encoding() + self.5.encoding() + self.6.encoding() + self.7.encoding() + self.8.encoding() + self.9.encoding()))
    }
}

impl<Ctx, A: CborLen<Ctx>, B: CborLen<Ctx>, C: CborLen<Ctx>, D: CborLen<Ctx>, E: CborLen<Ctx>, F: CborLen<Ctx>, G: CborLen<Ctx>, H: CborLen<Ctx>, I: CborLen<Ctx>, J: CborLen<Ctx>, K: CborLen<Ctx>> CborLen<Ctx> for (A, B, C, D, E, F, G, H, I, J, K) {
    fn cbor_len(&self) -> (n: usize) {
        proof {
            lemma_head_arg(ARRAY, 11);
        }
        <usize as CborLen<Ctx>>::cbor_len(&11) + self.0.cbor_len() + self.1.cbor_len() + self.2.cbor_len() + self.3.cbor_len() + self.4.cbor_len() + self.5.cbor_len() + self.6.cbor_len() + self.7.cbor_len() + self.8.cbor_len() + self.9.cbor_len() + self.10.cbor_len()
    }
}

impl<Ctx, A: Encode<Ctx>, B: Encode<Ctx>, C: Encode<Ctx>, D: Encode<Ctx>, E: Encode<Ctx>, F: Encode<Ctx>, G: Encode<Ctx>, H: Encode<Ctx>, I: Encode<Ctx>, J: Encode<Ctx>, K: Encode<Ctx>, L: Encode<Ctx>> Encode<Ctx> for (A, B, C, D, E, F, G, H, I, J, K, L) {
    open spec fn encoding(&self) -> Seq<u8> {
        head(ARRAY, 12) + self.0.encoding() + self.1.encoding() + self.2.encoding() + self.3.encoding() + self.4.encoding() + self.5.encoding() + self.6.encoding() + self.7.encoding() + self.8.encoding() + self.9.encoding() + self.10.encoding() + self.11.encoding()
    }

    open spec fn encodable(&self) -> bool {
        self.0.encodable() && self.1.encodable() && self.2.encodable() && self.3.encodable() && self.4.encodable() && self.5.encodable() && self.6.encodable() && self.7.encodable() && self.8.encodable() && self.9.encodable() && self.10.encodable() && self.11.encodable()
    }

    /// The error of the first element that does not encode.
    open spec fn encode_error(&self) -> Error {
        if !self.0.encodable() {
            self.0.encode_error()
        } else if !self.1.encodable() {
            self.1.encode_error()
        } else if !self.2.encodable() {
            self.2.encode_error()
        } else if !self.3.encodable() {
            self.3.encode_error()
        } else if !self.4.encodable() {
            self.4.encode_error()
        } else if !self.5.encodable() {
            self.5.encode_error()
        } else if !self.6.encodable() {
            self.6.encode_error()
        } else if !self.7.encodable() {
            self.7.encode_error()
        } else if !self.8.encodable() {
            self.8.encode_error()
        } else if !self.9.encodable() {
            self.9.encode_error()
        } else if !self.10.encodable() {
            self.10.encode_error()
        } else {
            self.11.encode_error()
        }
    }

    fn encode(&self, e: &mut Encoder, ctx: &mut Ctx) -> (r: Result<(), Error>) {
        let ghost start = e@;
        e.array(12)?;
        encode_part(e, &self.0, ctx, Ghost(start), Ghost(head(ARRAY, 12)))?;
        encode_part(e, &self.1, ctx, Ghost(start), Ghost(head(ARRAY, 12) + self.0.encoding()))?;
        encode_part(e, &self.2, ctx, Ghost(start), Ghost(head(ARRAY, 12) + self.0.encoding() + self.1.encoding()))?;
        encode_part(e, &self.3, ctx, Ghost(start), Ghost(head(ARRAY, 12) + self.0.encoding() + self.1.encoding() + self.2.encoding()))?;
        encode_part(e, &self.4, ctx, Ghost(start), Ghost(head(ARRAY, 12) + self.0.encoding() + self.1.encoding() + self.2.encoding() + self.3.encoding()))?;
        encode_part(e, &self.5, ctx, Ghost(start), Ghost(head(ARRAY, 12) + self.0.encoding() + self.1.encoding() + self.2.encoding() + self.3.encoding() + self.4.encoding()))?;
        encode_part(e, &self.6, ctx, Ghost(start), Ghost(head(ARRAY, 12) + self.0.encoding() + self.1.encoding() + self.2.encoding() + self.3.encoding() + self.4.encoding() + self.5.encoding()))?;
        encode_part(e, &self.7, ctx, Ghost(start), Ghost(head(ARRAY, 12) + self.0.encoding() + self.1.encoding() + self.2.encoding() + self.3.encoding() + self.4.encoding() + self.5.encoding() + self.6.encoding()))?;
        encode_part(e, &self.8, ctx, Ghost(start), Ghost(head(ARRAY, 12) + self.0.encoding() + self.1.encoding() + self.2.encoding() + self.3.encoding() + self.4.encoding() + self.5.encoding() + self.6.encoding() + self.7.encoding()))?;
        encode_part(e, &self.9, ctx, Ghost(start), Ghost(head(ARRAY, 12) + self.0.encoding() + self.1.encoding() + self.2.encoding() + self.3.encoding() + self.4.encoding() + self.5.encoding() + self.6.encoding() + self.7.encoding() + self.8.encoding()))?;
        encode_part(e, &self.10, ctx, Ghost(start), Ghost(head(ARRAY, 12) + self.0.encoding() + self.1.encoding() + self.2.encoding() + self.3.encoding() + self.4.encoding() + self.5.encoding() + self.6.encoding() + self.7.encoding() + self.8.encoding() + self.9.encoding()))?;
        encode_part(e, &self.11, ctx, Ghost(start), Ghost(head(ARRAY, 12) + self.0.encoding() + self.1.encoding() + self.2.encoding() + self.3.encoding() + self.4.encoding() + self.5.encoding() + self.6.encoding() + self.7.encoding() + self.8.encoding() + self.9.encoding() + self.10.encoding()))
    }
}

impl<Ctx, A: CborLen<Ctx>, B: CborLen<Ctx>, C: CborLen<Ctx>, D: CborLen<Ctx>, E: CborLen<Ctx>, F: CborLen<Ctx>, G: CborLen<Ctx>, H: CborLen<Ctx>, I: CborLen<Ctx>, J: CborLen<Ctx>, K: CborLen<Ctx>, L: CborLen<Ctx>> CborLen<Ctx> for (A, B, C, D, E, F, G, H, I, J, K, L) {
    fn cbor_len(&self) -> (n: usize) {
        proof {
            lemma_head_arg(ARRAY, 12);
        }
        <usize as CborLen<Ctx>>::cbor_len(&12) + self.0.cbor_len() + self.1.cbor_len() + self.2.cbor_len() + self.3.cbor_len() + self.4.cbor_len() + self.5.cbor_len() + self.6.cbor_len() + self.7.cbor_len() + self.8.cbor_len() + self.9.cbor_len() + self.10.cbor_len() + self.11.cbor_len()
    }
}

impl<Ctx, A: Encode<Ctx>, B: Encode<Ctx>, C: Encode<Ctx>, D: Encode<Ctx>, E: Encode<Ctx>, F: Encode<Ctx>, G: Encode<Ctx>, H: Encode<Ctx>, I: Encode<Ctx>, J: Encode<Ctx>, K: Encode<Ctx>, L: Encode<Ctx>, M: Encode<Ctx>> Encode<Ctx> for (A, B, C, D, E, F, G, H, I, J, K, L, M) {
    open spec fn encoding(&self) -> Seq<u8> {
        head(ARRAY, 13) + self.0.encoding() + self.1.encoding() + self.2.encoding() + self.3.encoding() + self.4.encoding() + self.5.encoding() + self.6.encoding() + self.7.encoding() + self.8.encoding() + self.9.encoding() + self.10.encoding() + self.11.encoding() + self.12.encoding()
    }

    open spec fn encodable(&self) -> bool {
        self.0.encodable() && self.1.encodable() && self.2.encodable() && self.3.encodable() && self.4.encodable() && self.5.encodable() && self.6.encodable() && self.7.encodable() && self.8.encodable() && self.9.encodable() && self.10.encodable() && self.11.encodable() && self.12.encodable()
    }

    /// The error of the first element that does not encode.
    open spec fn encode_error(&self) -> Error {
        if !self.0.encodable() {
            self.0.encode_error()
        } else if !self.1.encodable() {
            self.1.encode_error()
        } else if !self.2.encodable() {
            self.2.encode_error()
        } else if !self.3.encodable() {
            self.3.encode_error()
        } else if !self.4.encodable() {
            self.4.encode_error()
        } else if !self.5.encodable() {
            self.5.encode_error()
        } else if !self.6.encodable() {
            self.6.encode_error()
        } else if !self.7.encodable() {
            self.7.encode_error()
        } else if !self.8.encodable() {
            self.8.encode_error()
        } else if !self.9.encodable() {
            self.9.encode_error()
        } else if !self.10.encodable() {
            self.10.encode_error()
        } else if !self.11.encodable() {
            self.11.encode_error()
        } else {
            self.12.encode_error()
        }
    }

    fn encode(&self, e: &mut Encoder, ctx: &mut Ctx) -> (r: Result<(), Error>) {
        let ghost start = e@;
        e.array(13)?;
        encode_part(e, &self.0, ctx, Ghost(start), Ghost(head(ARRAY, 13)))?;
        encode_part(e, &self.1, ctx, Ghost(start), Ghost(head(ARRAY, 13) + self.0.encoding()))?;
        encode_part(e, &self.2, ctx, Ghost(start), Ghost(head(ARRAY, 13) + self.0.encoding() + self.1.encoding()))?;
        encode_part(e, &self.3, ctx, Ghost(start), Ghost(head(ARRAY, 13) + self.0.encoding() + self.1.encoding() + self.2.encoding()))?;
        encode_part(e, &self.4, ctx, Ghost(start), Ghost(head(ARRAY, 13) + self.0.encoding() + self.1.encoding() + self.2.encoding() + self.3.encoding()))?;
        encode_part(e, &self.5, ctx, Ghost(start), Ghost(head(ARRAY, 13) + self.0.encoding() + self.1.encoding() + self.2.encoding() + self.3.encoding() + self.4.encoding()))?;
        encode_part(e, &self.6, ctx, Ghost(start), Ghost(head(ARRAY, 13) + self.0.encoding() + self.1.encoding() + self.2.encoding() + self.3.encoding() + self.4.encoding() + self.5.encoding()))?;
        encode_part(e, &self.7, ctx, Ghost(start), Ghost(head(ARRAY, 13) + self.0.encoding() + self.1.encoding() + self.2.encoding() + self.3.encoding() + self.4.encoding() + self.5.encoding() + self.6.encoding()))?;
        encode_part(e, &self.8, ctx, Ghost(start), Ghost(head(ARRAY, 13) + self.0.encoding() + self.1.encoding() + self.2.encoding() + self.3.encoding() + self.4.encoding() + self.5.encoding() + self.6.encoding() + self.7.encoding()))?;
        encode_part(e, &self.9, ctx, Ghost(start), Ghost(head(ARRAY, 13) + self.0.encoding() + self.1.encoding() + self.2.encoding() + self.3.encoding() + self.4.encoding() + self.5.encoding() + self.6.encoding() + self.7.encoding() + self.8.encoding()))?;
        encode_part(e, &self.10, ctx, Ghost(start), Ghost(head(ARRAY, 13) + self.0.encoding() + self.1.encoding() + self.2.encoding() + self.3.encoding() + self.4.encoding() + self.5.encoding() + self.6.encoding() + self.7.encoding() + self.8.encoding() + self.9.encoding()))?;
        encode_part(e, &self.11, ctx, Ghost(start), Ghost(head(ARRAY, 13) + self.0.encoding() + self.1.encoding() + self.2.encoding() + self.3.encoding() + self.4.encoding() + self.5.encoding() + self.6.encoding() + self.7.encoding() + self.8.encoding() + self.9.encoding() + self.10.encoding()))?;
        encode_part(e, &self.12, ctx, Ghost(start), Ghost(head(ARRAY, 13) + self.0.encoding() + self.1.encoding() + self.2.encoding() + self.3.encoding() + self.4.encoding() + self.5.encoding() + self.6.encoding() + self.7.encoding() + self.8.encoding() + self.9.encoding() + self.10.encoding() + self.11.encoding()))
    }
}

impl<Ctx, A: CborLen<Ctx>, B: CborLen<Ctx>, C: CborLen<Ctx>, D: CborLen<Ctx>, E: CborLen<Ctx>, F: CborLen<Ctx>, G: CborLen<Ctx>, H: CborLen<Ctx>, I: CborLen<Ctx>, J: CborLen<Ctx>, K: CborLen<Ctx>, L: CborLen<Ctx>, M: CborLen<Ctx>> CborLen<Ctx> for (A, B, C, D, E, F, G, H, I, J, K, L, M) {
    fn cbor_len(&self) -> (n: usize) {
        proof {
            lemma_head_arg(ARRAY, 13);
        }
        <usize as CborLen<Ctx>>::cbor_len(&13) + self.0.cbor_len() + self.1.cbor_len() + self.2.cbor_len() + self.3.cbor_len() + self.4.cbor_len() + self.5.cbor_len() + self.6.cbor_len() + self.7.cbor_len() + self.8.cbor_len() + self.9.cbor_len() + self.10.cbor_len() + self.11.cbor_len() + self.12.cbor_len()
    }
}

impl<Ctx, A: Encode<Ctx>, B: Encode<Ctx>, C: Encode<Ctx>, D: Encode<Ctx>, E: Encode<Ctx>, F: Encode<Ctx>, G: Encode<Ctx>, H: Encode<Ctx>, I: Encode<Ctx>, J: Encode<Ctx>, K: Encode<Ctx>, L: Encode<Ctx>, M: Encode<Ctx>, N: Encode<Ctx>> Encode<Ctx> for (A, B, C, D, E, F, G, H, I, J, K, L, M, N) {
    open spec fn encoding(&self) -> Seq<u8> {
        head(ARRAY, 14) + self.0.encoding() + self.1.encoding() + self.2.encoding() + self.3.encoding() + self.4.encoding() + self.5.encoding() + self.6.encoding() + self.7.encoding() + self.8.encoding() + self.9.encoding() + self.10.encoding() + self.11.encoding() + self.12.encoding() + self.13.encoding()
    }

    open spec fn encodable(&self) -> bool {
        self.0.encodable() && self.1.encodable() && self.2.encodable() && self.3.encodable() && self.4.encodable() && self.5.encodable() && self.6.encodable() && self.7.encodable() && self.8.encodable() && self.9.encodable() && self.10.encodable() && self.11.encodable() && self.12.encodable() && self.13.encodable()
    }

    /// The error of the first element that does not encode.
    open spec fn encode_error(&self) -> Error {
        if !self.0.encodable() {
            self.0.encode_error()
        } else if !self.1.encodable() {
            self.1.encode_error()
        } else if !self.2.encodable() {
            self.2.encode_error()
        } else if !self.3.encodable() {
            self.3.encode_error()
        } else if !self.4.encodable() {
            self.4.encode_error()
        } else if !self.5.encodable() {
            self.5.encode_error()
        } else if !self.6.encodable() {
            self.6.encode_error()
        } else if !self.7.encodable() {
            self.7.encode_error()
        } else if !self.8.encodable() {
            self.8.encode_error()
        } else if !self.9.encodable() {
            self.9.encode_error()
        } else if !self.10.encodable() {
            self.10.encode_error()
        } else if !self.11.encodable() {
            self.11.encode_error()
        } else if !self.12.encodable() {
            self.12.encode_error()
        } else {
            self.13.encode_error()
        }
    }

    fn encode(&self, e: &mut Encoder, ctx: &mut Ctx) -> (r: Result<(), Error>) {
        let ghost start = e@;
        e.array(14)?;
        encode_part(e, &self.0, ctx, Ghost(start), Ghost(head(ARRAY, 14)))?;
        encode_part(e, &self.1, ctx, Ghost(start), Ghost(head(ARRAY, 14) + self.0.encoding()))?;
        encode_part(e, &self.2, ctx, Ghost(start), Ghost(head(ARRAY, 14) + self.0.encoding() + self.1.encoding()))?;
        encode_part(e, &self.3, ctx, Ghost(start), Ghost(head(ARRAY, 14) + self.0.encoding() + self.1.encoding() + self.2.encoding()))?;
        encode_part(e, &self.4, ctx, Ghost(start), Ghost(head(ARRAY, 14) + self.0.encoding() + self.1.encoding() + self.2.encoding() + self.3.encoding()))?;
        encode_part(e, &self.5, ctx, Ghost(start), Ghost(head(ARRAY, 14) + self.0.encoding() + self.1.encoding() + self.2.encoding() + self.3.encoding() + self.4.encoding()))?;
        encode_part(e, &self.6, ctx, Ghost(start), Ghost(head(ARRAY, 14) + self.0.encoding() + self.1.encoding() + self.2.encoding() + self.3.encoding() + self.4.encoding() + self.5.encoding()))?;
        encode_part(e, &self.7, ctx, Ghost(start), Ghost(head(ARRAY, 14) + self.0.encoding() + self.1.encoding() + self.2.encoding() + self.3.encoding() + self.4.encoding() + self.5.encoding() + self.6.encoding()))?;
        encode_part(e, &self.8, ctx, Ghost(start), Ghost(head(ARRAY, 14) + self.0.encoding() + self.1.encoding() + self.2.encoding() + self.3.encoding() + self.4.encoding() + self.5.encoding() + self.6.encoding() + self.7.encoding()))?;
        encode_part(e, &self.9, ctx, Ghost(start), Ghost(head(ARRAY, 14) + self.0.encoding() + self.1.encoding() + self.2.encoding() + self.3.encoding() + self.4.encoding() + self.5.encoding() + self.6.encoding() + self.7.encoding() + self.8.encoding()))?;
        encode_part(e, &self.10, ctx, Ghost(start), Ghost(head(ARRAY, 14) + self.0.encoding() + self.1.encoding() + self.2.encoding() + self.3.encoding() + self.4.encoding() + self.5.encoding() + self.6.encoding() + self.7.encoding() + self.8.encoding() + self.9.encoding()))?;
        encode_part(e, &self.11, ctx, Ghost(start), Ghost(head(ARRAY, 14) + self.0.encoding() + self.1.encoding() + self.2.encoding() + self.3.encoding() + self.4.encoding() + self.5.encoding() + self.6.encoding() + self.7.encoding() + self.8.encoding() + self.9.encoding() + self.10.encoding()))?;
        encode_part(e, &self.12, ctx, Ghost(start), Ghost(head(ARRAY, 14) + self.0.encoding() + self.1.encoding() + self.2.encoding() + self.3.encoding() + self.4.encoding() + self.5.encoding() + self.6.encoding() + self.7.encoding() + self.8.encoding() + self.9.encoding() + self.10.encoding() + self.11.encoding()))?;
        encode_part(e, &self.13, ctx, Ghost(start), Ghost(head(ARRAY, 14) + self.0.encoding() + self.1.encoding() + self.2.encoding() + self.3.encoding() + self.4.encoding() + self.5.encoding() + self.6.encoding() + self.7.encoding() + self.8.encoding() + self.9.encoding() + self.10.encoding() + self.11.encoding() + self.12.encoding()))
    }
}

impl<Ctx, A: CborLen<Ctx>, B: CborLen<Ctx>, C: CborLen<Ctx>, D: CborLen<Ctx>, E: CborLen<Ctx>, F: CborLen<Ctx>, G: CborLen<Ctx>, H: CborLen<Ctx>, I: CborLen<Ctx>, J: CborLen<Ctx>, K: CborLen<Ctx>, L: CborLen<Ctx>, M: CborLen<Ctx>, N: CborLen<Ctx>> CborLen<Ctx> for (A, B, C, D, E, F, G, H, I, J, K, L, M, N) {
    fn cbor_len(&self) -> (n: usize) {
        proof {
            lemma_head_arg(ARRAY, 14);
        }
        <usize as CborLen<Ctx>>::cbor_len(&14) + self.0.cbor_len() + self.1.cbor_len() + self.2.cbor_len() + self.3.cbor_len() + self.4.cbor_len() + self.5.cbor_len() + self.6.cbor_len() + self.7.cbor_len() + self.8.cbor_len() + self.9.cbor_len() + self.10.cbor_len() + self.11.cbor_len() + self.12.cbor_len() + self.13.cbor_len()
    }
}

impl<Ctx, A: Encode<Ctx>, B: Encode<Ctx>, C: Encode<Ctx>, D: Encode<Ctx>, E: Encode<Ctx>, F: Encode<Ctx>, G: Encode<Ctx>, H: Encode<Ctx>, I: Encode<Ctx>, J: Encode<Ctx>, K: Encode<Ctx>, L: Encode<Ctx>, M: Encode<Ctx>, N: Encode<Ctx>, O: Encode<Ctx>> Encode<Ctx> for (A, B, C, D, E, F, G, H, I, J, K, L, M, N, O) {
    open spec fn encoding(&self) -> Seq<u8> {
        head(ARRAY, 15) + self.0.encoding() + self.1.encoding() + self.2.encoding() + self.3.encoding() + self.4.encoding() + self.5.encoding() + self.6.encoding() + self.7.encoding() + self.8.encoding() + self.9.encoding() + self.10.encoding() + self.11.encoding() + self.12.encoding() + self.13.encoding() + self.14.encoding()
    }

    open spec fn encodable(&self) -> bool {
        self.0.encodable() && self.1.encodable() && self.2.encodable() && self.3.encodable() && self.4.encodable() && self.5.encodable() && self.6.encodable() && self.7.encodable() && self.8.encodable() && self.9.encodable() && self.10.encodable() && self.11.encodable() && self.12.encodable() && self.13.encodable() && self.14.encodable()
    }

    /// The error of the first element that does not encode.
    open spec fn encode_error(&self) -> Error {
        if !self.0.encodable() {
            self.0.encode_error()
        } else if !self.1.encodable() {
            self.1.encode_error()
        } else if !self.2.encodable() {
            self.2.encode_error()
        } else if !self.3.encodable() {
            self.3.encode_error()
        } else if !self.4.encodable() {
            self.4.encode_error()
        } else if !self.5.encodable() {
            self.5.encode_error()
        } else if !self.6.encodable() {
            self.6.encode_error()
        } else if !self.7.encodable() {
            self.7.encode_error()
        } else if !self.8.encodable() {
            self.8.encode_error()
        } else if !self.9.encodable() {
            self.9.encode_error()
        } else if !self.10.encodable() {
            self.10.encode_error()
        } else if !self.11.encodable() {
            self.11.encode_error()
        } else if !self.12.encodable() {
            self.12.encode_error()
        } else if !self.13.encodable() {
            self.13.encode_error()
        } else {
            self.14.encode_error()
        }
    }

    fn encode(&self, e: &mut Encoder, ctx: &mut Ctx) -> (r: Result<(), Error>) {
        let ghost start = e@;
        e.array(15)?;
        encode_part(e, &self.0, ctx, Ghost(start), Ghost(head(ARRAY, 15)))?;
        encode_part(e, &self.1, ctx, Ghost(start), Ghost(head(ARRAY, 15) + self.0.encoding()))?;
        encode_part(e, &self.2, ctx, Ghost(start), Ghost(head(ARRAY, 15) + self.0.encoding() + self.1.encoding()))?;
        encode_part(e, &self.3, ctx, Ghost(start), Ghost(head(ARRAY, 15) + self.0.encoding() + self.1.encoding() + self.2.encoding()))?;
        encode_part(e, &self.4, ctx, Ghost(start), Ghost(head(ARRAY, 15) + self.0.encoding() + self.1.encoding() + self.2.encoding() + self.3.encoding()))?;
        encode_part(e, &self.5, ctx, Ghost(start), Ghost(head(ARRAY, 15) + self.0.encoding() + self.1.encoding() + self.2.encoding() + self.3.encoding() + self.4.encoding()))?;
        encode_part(e, &self.6, ctx, Ghost(start), Ghost(head(ARRAY, 15) + self.0.encoding() + self.1.encoding() + self.2.encoding() + self.3.encoding() + self.4.encoding() + self.5.encoding()))?;
        encode_part(e, &self.7, ctx, Ghost(start), Ghost(head(ARRAY, 15) + self.0.encoding() + self.1.encoding() + self.2.encoding() + self.3.encoding() + self.4.encoding() + self.5.encoding() + self.6.encoding()))?;
        encode_part(e, &self.8, ctx, Ghost(start), Ghost(head(ARRAY, 15) + self.0.encoding() + self.1.encoding() + self.2.encoding() + self.3.encoding() + self.4.encoding() + self.5.encoding() + self.6.encoding() + self.7.encoding()))?;
        encode_part(e, &self.9, ctx, Ghost(start), Ghost(head(ARRAY, 15) + self.0.encoding() + self.1.encoding() + self.2.encoding() + self.3.encoding() + self.4.encoding() + self.5.encoding() + self.6.encoding() + self.7.encoding() + self.8.encoding()))?;
        encode_part(e, &self.10, ctx, Ghost(start), Ghost(head(ARRAY, 15) + self.0.encoding() + self.1.encoding() + self.2.encoding() + self.3.encoding() + self.4.encoding() + self.5.encoding() + self.6.encoding() + self.7.encoding() + self.8.encoding() + self.9.encoding()))?;
        encode_part(e, &self.11, ctx, Ghost(start), Ghost(head(ARRAY, 15) + self.0.encoding() + self.1.encoding() + self.2.encoding() + self.3.encoding() + self.4.encoding() + self.5.encoding() + self.6.encoding() + self.7.encoding() + self.8.encoding() + self.9.encoding() + self.10.encoding()))?;
        encode_part(e, &self.12, ctx, Ghost(start), Ghost(head(ARRAY, 15) + self.0.encoding() + self.1.encoding() + self.2.encoding() + self.3.encoding() + self.4.encoding() + self.5.encoding() + self.6.encoding() + self.7.encoding() + self.8.encoding() + self.9.encoding() + self.10.encoding() + self.11.encoding()))?;
        encode_part(e, &self.13, ctx, Ghost(start), Ghost(head(ARRAY, 15) + self.0.encoding() + self.1.encoding() + self.2.encoding() + self.3.encoding() + self.4.encoding() + self.5.encoding() + self.6.encoding() + self.7.encoding() + self.8.encoding() + self.9.encoding() + self.10.encoding() + self.11.encoding() + self.12.encoding()))?;
        encode_part(e, &self.14, ctx, Ghost(start), Ghost(head(ARRAY, 15) + self.0.encoding() + self.1.encoding() + self.2.encoding() + self.3.encoding() + self.4.encoding() + self.5.encoding() + self.6.encoding() + self.7.encoding() + self.8.encoding() + self.9.encoding() + self.10.encoding() + self.11.encoding() + self.12.encoding() + self.13.encoding()))
    }
}

impl<Ctx, A: CborLen<Ctx>, B: CborLen<Ctx>, C: CborLen<Ctx>, D: CborLen<Ctx>, E: CborLen<Ctx>, F: CborLen<Ctx>, G: CborLen<Ctx>, H: CborLen<Ctx>, I: CborLen<Ctx>, J: CborLen<Ctx>, K: CborLen<Ctx>, L: CborLen<Ctx>, M: CborLen<Ctx>, N: CborLen<Ctx>, O: CborLen<Ctx>> CborLen<Ctx> for (A, B, C, D, E, F, G, H, I, J, K, L, M, N, O) {
    fn cbor_len(&self) -> (n: usize) {
        proof {
            lemma_head_arg(ARRAY, 15);
        }
        <usize as CborLen<Ctx>>::cbor_len(&15) + self.0.cbor_len() + self.1.cbor_len() + self.2.cbor_len() + self.3.cbor_len() + self.4.cbor_len() + self.5.cbor_len() + self.6.cbor_len() + self.7.cbor_len() + self.8.cbor_len() + self.9.cbor_len() + self.10.cbor_len() + self.11.cbor_len() + self.12.cbor_len() + self.13.cbor_len() + self.14.cbor_len()
    }
}

impl<Ctx, A: Encode<Ctx>, B: Encode<Ctx>, C: Encode<Ctx>, D: Encode<Ctx>, E: Encode<Ctx>, F: Encode<Ctx>, G: Encode<Ctx>, H: Encode<Ctx>, I: Encode<Ctx>, J: Encode<Ctx>, K: Encode<Ctx>, L: Encode<Ctx>, M: Encode<Ctx>, N: Encode<Ctx>, O: Encode<Ctx>, P: Encode<Ctx>> Encode<Ctx> for (A, B, C, D, E, F, G, H, I, J, K, L, M, N, O, P) {
    open spec fn encoding(&self) -> Seq<u8> {
        head(ARRAY, 16) + self.0.encoding() + self.1.encoding() + self.2.encoding() + self.3.encoding() + self.4.encoding() + self.5.encoding() + self.6.encoding() + self.7.encoding() + self.8.encoding() + self.9.encoding() + self.10.encoding() + self.11.encoding() + self.12.encoding() + self.13.encoding() + self.14.encoding() + self.15.encoding()
    }

    open spec fn encodable(&self) -> bool {
        self.0.encodable() && self.1.encodable() && self.2.encodable() && self.3.encodable() && self.4.encodable() && self.5.encodable() && self.6.encodable() && self.7.encodable() && self.8.encodable() && self.9.encodable() && self.10.encodable() && self.11.encodable() && self.12.encodable() && self.13.encodable() && self.14.encodable() && self.15.encodable()
    }

    /// The error of the first element that does not encode.
    open spec fn encode_error(&self) -> Error {
        if !self.0.encodable() {
            self.0.encode_error()
        } else if !self.1.encodable() {
            self.1.encode_error()
        } else if !self.2.encodable() {
            self.2.encode_error()
        } else if !self.3.encodable() {
            self.3.encode_error()
        } else if !self.4.encodable() {
            self.4.encode_error()
        } else if !self.5.encodable() {
            self.5.encode_error()
        } else if !self.6.encodable() {
            self.6.encode_error()
        } else if !self.7.encodable() {
            self.7.encode_error()
        } else if !self.8.encodable() {
            self.8.encode_error()
        } else if !self.9.encodable() {
            self.9.encode_error()
        } else if !self.10.encodable() {
            self.10.encode_error()
        } else if !self.11.encodable() {
            self.11.encode_error()
        } else if !self.12.encodable() {
            self.12.encode_error()
        } else if !self.13.encodable() {
            self.13.encode_error()
        } else if !self.14.encodable() {
            self.14.encode_error()
        } else {
            self.15.encode_error()
        }
    }

    fn encode(&self, e: &mut Encoder, ctx: &mut Ctx) -> (r: Result<(), Error>) {
        let ghost start = e@;
        e.array(16)?;
        encode_part(e, &self.0, ctx, Ghost(start), Ghost(head(ARRAY, 16)))?;
        encode_part(e, &self.1, ctx, Ghost(start), Ghost(head(ARRAY, 16) + self.0.encoding()))?;
        encode_part(e, &self.2, ctx, Ghost(start), Ghost(head(ARRAY, 16) + self.0.encoding() + self.1.encoding()))?;
        encode_part(e, &self.3, ctx, Ghost(start), Ghost(head(ARRAY, 16) + self.0.encoding() + self.1.encoding() + self.2.encoding()))?;
        encode_part(e, &self.4, ctx, Ghost(start), Ghost(head(ARRAY, 16) + self.0.encoding() + self.1.encoding() + self.2.encoding() + self.3.encoding()))?;
        encode_part(e, &self.5, ctx, Ghost(start), Ghost(head(ARRAY, 16) + self.0.encoding() + self.1.encoding() + self.2.encoding() + self.3.encoding() + self.4.encoding()))?;
        encode_part(e, &self.6, ctx, Ghost(start), Ghost(head(ARRAY, 16) + self.0.encoding() + self.1.encoding() + self.2.encoding() + self.3.encoding() + self.4.encoding() + self.5.encoding()))?;
        encode_part(e, &self.7, ctx, Ghost(start), Ghost(head(ARRAY, 16) + self.0.encoding() + self.1.encoding() + self.2.encoding() + self.3.encoding() + self.4.encoding() + self.5.encoding() + self.6.encoding()))?;
        encode_part(e, &self.8, ctx, Ghost(start), Ghost(head(ARRAY, 16) + self.0.encoding() + self.1.encoding() + self.2.encoding() + self.3.encoding() + self.4.encoding() + self.5.encoding() + self.6.encoding() + self.7.encoding()))?;
        encode_part(e, &self.9, ctx, Ghost(start), Ghost(head(ARRAY, 16) + self.0.encoding() + self.1.encoding() + self.2.encoding() + self.3.encoding() + self.4.encoding() + self.5.encoding() + self.6.encoding() + self.7.encoding() + self.8.encoding()))?;
        encode_part(e, &self.10, ctx, Ghost(start), Ghost(head(ARRAY, 16) + self.0.encoding() + self.1.encoding() + self.2.encoding() + self.3.encoding() + self.4.encoding() + self.5.encoding() + self.6.encoding() + self.7.encoding() + self.8.encoding() + self.9.encoding()))?;
        encode_part(e, &self.11, ctx, Ghost(start), Ghost(head(ARRAY, 16) + self.0.encoding() + self.1.encoding() + self.2.encoding() + self.3.encoding() + self.4.encoding() + self.5.encoding() + self.6.encoding() + self.7.encoding() + self.8.encoding() + self.9.encoding() + self.10.encoding()))?;
        encode_part(e, &self.12, ctx, Ghost(start), Ghost(head(ARRAY, 16) + self.0.encoding() + self.1.encoding() + self.2.encoding() + self.3.encoding() + self.4.encoding() + self.5.encoding() + self.6.encoding() + self.7.encoding() + self.8.encoding() + self.9.encoding() + self.10.encoding() + self.11.encoding()))?;
        encode_part(e, &self.13, ctx, Ghost(start), Ghost(head(ARRAY, 16) + self.0.encoding() + self.1.encoding() + self.2.encoding() + self.3.encoding() + self.4.encoding() + self.5.encoding() + self.6.encoding() + self.7.encoding() + self.8.encoding() + self.9.encoding() + self.10.encoding() + self.11.encoding() + self.12.encoding()))?;
        encode_part(e, &self.14, ctx, Ghost(start), Ghost(head(ARRAY, 16) + self.0.encoding() + self.1.encoding() + self.2.encoding() + self.3.encoding() + self.4.encoding() + self.5.encoding() + self.6.encoding() + self.7.encoding() + self.8.encoding() + self.9.encoding() + self.10.encoding() + self.11.encoding() + self.12.encoding() + self.13.encoding()))?;
        encode_part(e, &self.15, ctx, Ghost(start), Ghost(head(ARRAY, 16) + self.0.encoding() + self.1.encoding() + self.2.encoding() + self.3.encoding() + self.4.encoding() + self.5.encoding() + self.6.encoding() + self.7.encoding() + self.8.encoding() + self.9.encoding() + self.10.encoding() + self.11.encoding() + self.12.encoding() + self.13.encoding() + self.14.encoding()))
    }
}

impl<Ctx, A: CborLen<Ctx>, B: CborLen<Ctx>, C: CborLen<Ctx>, D: CborLen<Ctx>, E: CborLen<Ctx>, F: CborLen<Ctx>, G: CborLen<Ctx>, H: CborLen<Ctx>, I: CborLen<Ctx>, J: CborLen<Ctx>, K: CborLen<Ctx>, L: CborLen<Ctx>, M: CborLen<Ctx>, N: CborLen<Ctx>, O: CborLen<Ctx>, P: CborLen<Ctx>> CborLen<Ctx> for (A, B, C, D, E, F, G, H, I, J, K, L, M, N, O, P) {
    fn cbor_len(&self) -> (n: usize) {
        proof {
            lemma_head_arg(ARRAY, 16);
        }
        <usize as CborLen<Ctx>>::cbor_len(&16) + self.0.cbor_len() + self.1.cbor_len() + self.2.cbor_len() + self.3.cbor_len() + self.4.cbor_len() + self.5.cbor_len() + self.6.cbor_len() + self.7.cbor_len() + self.8.cbor_len() + self.9.cbor_len() + self.10.cbor_len() + self.11.cbor_len() + self.12.cbor_len() + self.13.cbor_len() + self.14.cbor_len() + self.15.cbor_len()
    }
}

/// Calls `Iterator::size_hint`. The bounds it returns are up to the
/// iterator's own implementation, so nothing is stated of them.
#[verifier::external_body]
fn size_hint_of<I: Iterator>(it: &I) -> (usize, Option<usize>) {
    it.size_hint()
}

/// Calls `Iterator::collect` into a vector, which holds the items that the
/// iterator yields, in order: for an iterator that follows vstd's model of
/// iteration, the items it is to yield.
#[verifier::external_body]
fn collect_items<I: Iterator>(it: I) -> (v: Vec<I::Item>)
    ensures
        it.obeys_prophetic_iter_laws() ==> v@ == it.remaining(),
{
    it.collect()
}

/// Whether a size hint `(low, up)` gives the exact number of items.
pub open spec fn exact_hint(low: usize, up: Option<usize>) -> bool {
    up == Some(low)
}

/// Whether a size hint `(low, up)` gives the exact number of items.
fn is_exact(low: usize, up: Option<usize>) -> (b: bool)
    ensures
        b == exact_hint(low, up),
{
    match up {
        Some(u) => u == low,
        None => false,
    }
}

/// The items of an iterator, to be encoded as a CBOR array.
///
/// The array has a definite length when the iterator's size hint was exact,
/// and an indefinite length otherwise.
#[derive(Debug)]
pub struct ArrayIter<T> {
    items: Vec<T>,
    low: usize,
    up: Option<usize>,
}

impl<T> ArrayIter<T> {
    /// The items to encode.
    pub closed spec fn items(self) -> Seq<T> {
        self.items@
    }

    /// The lower bound of the size hint.
    pub closed spec fn low(self) -> usize {
        self.low
    }

    /// The upper bound of the size hint.
    pub closed spec fn up(self) -> Option<usize> {
        self.up
    }

    /// Wraps the items that `it` yields, and the size hint it gives.
    pub fn new<I: Iterator<Item = T>>(it: I) -> (a: ArrayIter<T>)
        ensures
            it.obeys_prophetic_iter_laws() ==> a.items() == it.remaining(),
    {
        let (low, up) = size_hint_of(&it);
        let items = collect_items(it);
        ArrayIter::with_hint(items, low, up)
    }

    /// Wraps the given items with the size hint `(low, up)`.
    pub fn with_hint(items: Vec<T>, low: usize, up: Option<usize>) -> (a: ArrayIter<T>)
        ensures
            a.items() == items@,
            a.low() == low,
            a.up() == up,
    {
        ArrayIter { items, low, up }
    }
}

/// The encoding of an array of `items` whose size hint is `(low, up)`: a
/// definite-length array of `low` items when the hint is exact, an
/// indefinite-length one otherwise.
pub open spec fn hinted_array_encoding<C, T: Encode<C>>(low: usize, up: Option<usize>, items: Seq<T>) -> Seq<u8> {
    if exact_hint(low, up) {
        head(ARRAY, low as nat) + concat_encodings::<C, T>(items)
    } else {
        seq![BEGIN_ARRAY] + concat_encodings::<C, T>(items) + seq![BREAK]
    }
}

impl<C, T: Encode<C>> Encode<C> for ArrayIter<T> {
    open spec fn encoding(&self) -> Seq<u8> {
        hinted_array_encoding::<C, T>(self.low(), self.up(), self.items())
    }

    open spec fn encodable(&self) -> bool {
        all_encodable::<C, T>(self.items())
    }

    /// The error of the first item that does not encode.
    open spec fn encode_error(&self) -> Error {
        seq_error::<C, T>(self.items())
    }

    fn encode(&self, e: &mut Encoder, ctx: &mut C) -> (r: Result<(), Error>) {
        let ghost start = e@;
        let exact = is_exact(self.low, self.up);
        if exact {
            e.array(self.low as u64)?;
        } else {
            e.begin_array()?;
        }
        let ghost mid = e@;
        let r = encode_items(self.items.as_slice(), e, ctx);
        if r.is_err() {
            assert(start.is_prefix_of(e@)) by {
                assert(start.is_prefix_of(mid));
            }
            return r;
        }
        if !exact {
            e.end()?;
        }
        assert(e@ =~= start + self.encoding());
        Ok(())
    }
}

/// The encodings of the entries of `s`, each key followed by its value.
pub open spec fn concat_entries<C, K: Encode<C>, V: Encode<C>>(s: Seq<(K, V)>) -> Seq<u8>
    decreases s.len(),
{
    if s.len() == 0 {
        seq![]
    } else {
        concat_entries::<C, K, V>(s.drop_last()) + <K as Encode<C>>::encoding(&s.last().0)
            + <V as Encode<C>>::encoding(&s.last().1)
    }
}

/// The entries of `s` together encode to at most `s.len() * m` bytes when each
/// key and value together encode to at most `m`.
pub proof fn lemma_concat_entries_len<C, K: Encode<C>, V: Encode<C>>(s: Seq<(K, V)>, m: nat)
    requires
        forall|i: int|
            0 <= i < s.len() ==> <K as Encode<C>>::encoding(&#[trigger] s[i].0).len()
                + <V as Encode<C>>::encoding(&s[i].1).len() <= m,
    ensures
        concat_entries::<C, K, V>(s).len() <= s.len() * m,
    decreases s.len(),
{
    if s.len() > 0 {
        let init = s.drop_last();
        assert forall|i: int| 0 <= i < init.len() implies <K as Encode<C>>::encoding(
            &#[trigger] init[i].0,
        ).len() + <V as Encode<C>>::encoding(&init[i].1).len() <= m by {
            assert(init[i] == s[i]);
        }
        lemma_concat_entries_len::<C, K, V>(init, m);
        assert(<K as Encode<C>>::encoding(&s[s.len() - 1].0).len() + <V as Encode<C>>::encoding(
            &s[s.len() - 1].1,
        ).len() <= m);
        assert((s.len() - 1) * m + m == s.len() * m) by (nonlinear_arith);
    }
}

/// A map of entries whose key and value each together encode to at most `m`
/// bytes encodes to at most `9 + s.len() * m` bytes.
pub proof fn law_map_encoding_len<C, K: Encode<C>, V: Encode<C>>(s: Seq<(K, V)>, m: nat)
    requires
        s.len() <= u64::MAX,
        forall|i: int|
            0 <= i < s.len() ==> <K as Encode<C>>::encoding(&#[trigger] s[i].0).len()
                + <V as Encode<C>>::encoding(&s[i].1).len() <= m,
    ensures
        (head(MAP, s.len()) + concat_entries::<C, K, V>(s)).len() <= 9 + s.len() * m,
{
    lemma_head_arg(MAP, s.len());
    lemma_concat_entries_len::<C, K, V>(s, m);
}

/// Whether every key and value of `s` encodes successfully.
pub open spec fn all_entries_encodable<C, K: Encode<C>, V: Encode<C>>(s: Seq<(K, V)>) -> bool {
    forall|i: int|
        0 <= i < s.len() ==> <K as Encode<C>>::encodable(&#[trigger] s[i].0)
            && <V as Encode<C>>::encodable(&s[i].1)
}

/// The error of the entry `x`: that of its key when the key does not encode,
/// else that of its value.
pub open spec fn entry_error<C, K: Encode<C>, V: Encode<C>>(x: (K, V)) -> Error {
    if !<K as Encode<C>>::encodable(&x.0) {
        <K as Encode<C>>::encode_error(&x.0)
    } else {
        <V as Encode<C>>::encode_error(&x.1)
    }
}

/// Whether the `i`-th entry of `s` is the first whose key or value does not
/// encode.
pub open spec fn first_entry_failure<C, K: Encode<C>, V: Encode<C>>(s: Seq<(K, V)>, i: int) -> bool {
    &&& 0 <= i < s.len()
    &&& !(<K as Encode<C>>::encodable(&s[i].0) && <V as Encode<C>>::encodable(&s[i].1))
    &&& all_entries_encodable::<C, K, V>(s.take(i))
}

/// The error of the first key or value of `s` that does not encode.
pub open spec fn entries_error<C, K: Encode<C>, V: Encode<C>>(s: Seq<(K, V)>) -> Error {
    entry_error::<C, K, V>(s[choose|i: int| first_entry_failure::<C, K, V>(s, i)])
}

/// The first entry that does not encode gives the error of the entries.
pub proof fn lemma_entries_error<C, K: Encode<C>, V: Encode<C>>(s: Seq<(K, V)>, i: int)
    requires
        first_entry_failure::<C, K, V>(s, i),
    ensures
        entries_error::<C, K, V>(s) == entry_error::<C, K, V>(s[i]),
{
    let j = choose|j: int| first_entry_failure::<C, K, V>(s, j);
    assert(first_entry_failure::<C, K, V>(s, j));
    if j < i {
        assert(s.take(i)[j] == s[j]);
    } else if i < j {
        assert(s.take(j)[i] == s[i]);
    }
}

/// When the first `i` entries and the `i`-th encode, so do the first `i + 1`.
pub proof fn lemma_all_entries_take<C, K: Encode<C>, V: Encode<C>>(s: Seq<(K, V)>, i: int)
    requires
        0 <= i < s.len(),
        all_entries_encodable::<C, K, V>(s.take(i)),
        <K as Encode<C>>::encodable(&s[i].0),
        <V as Encode<C>>::encodable(&s[i].1),
    ensures
        all_entries_encodable::<C, K, V>(s.take(i + 1)),
{
    let t = s.take(i + 1);
    assert forall|j: int| 0 <= j < i + 1 implies <K as Encode<C>>::encodable(&#[trigger] t[j].0)
        && <V as Encode<C>>::encodable(&t[j].1) by {
        if j < i {
            assert(t[j] == s.take(i)[j]);
        }
    }
}

/// Encodes the entries of `entries`, each key followed by its value.
fn encode_entries<C, K: Encode<C>, V: Encode<C>>(entries: &[(K, V)], e: &mut Encoder, ctx: &mut C) -> (r:
    Result<(), Error>)
    ensures
        old(e)@.is_prefix_of(final(e)@),
        r is Ok ==> final(e)@ == old(e)@ + concat_entries::<C, K, V>(entries@),
        r is Ok <==> all_entries_encodable::<C, K, V>(entries@),
        r is Err ==> r == Err::<(), Error>(entries_error::<C, K, V>(entries@)),
{
    let ghost start = e@;
    let mut i: usize = 0;
    while i < entries.len()
        invariant
            i <= entries@.len(),
            e@ == start + concat_entries::<C, K, V>(entries@.take(i as int)),
            all_entries_encodable::<C, K, V>(entries@.take(i as int)),
            start == old(e)@,
        decreases entries@.len() - i,
    {
        let (k, v) = &entries[i];
        let ghost done = concat_entries::<C, K, V>(entries@.take(i as int));
        match encode_part(e, k, ctx, Ghost(start), Ghost(done)) {
            Ok(()) => {},
            Err(err) => {
                proof {
                    lemma_entries_error::<C, K, V>(entries@, i as int);
                }
                return Err(err);
            },
        }
        match encode_part(e, v, ctx, Ghost(start), Ghost(done + k.encoding())) {
            Ok(()) => {},
            Err(err) => {
                proof {
                    lemma_entries_error::<C, K, V>(entries@, i as int);
                }
                return Err(err);
            },
        }
        proof {
            lemma_all_entries_take::<C, K, V>(entries@, i as int);
        }
        assert(entries@.take(i + 1).drop_last() =~= entries@.take(i as int));
        i = i + 1;
        assert(e@ =~= start + concat_entries::<C, K, V>(entries@.take(i as int)));
    }
    assert(entries@.take(entries@.len() as int) =~= entries@);
    Ok(())
}

/// The entries of an iterator of key-value pairs, to be encoded as a CBOR map.
///
/// The map has a definite length when the iterator's size hint was exact,
/// and an indefinite length otherwise.
#[derive(Debug)]
pub struct MapIter<K, V> {
    entries: Vec<(K, V)>,
    low: usize,
    up: Option<usize>,
}

impl<K, V> MapIter<K, V> {
    /// The entries to encode.
    pub closed spec fn entries(self) -> Seq<(K, V)> {
        self.entries@
    }

    /// The lower bound of the size hint.
    pub closed spec fn low(self) -> usize {
        self.low
    }

    /// The upper bound of the size hint.
    pub closed spec fn up(self) -> Option<usize> {
        self.up
    }

    /// Wraps the entries that `it` yields, and the size hint it gives.
    pub fn new<I: Iterator<Item = (K, V)>>(it: I) -> (m: MapIter<K, V>)
        ensures
            it.obeys_prophetic_iter_laws() ==> m.entries() == it.remaining(),
    {
        let (low, up) = size_hint_of(&it);
        let entries = collect_items(it);
        MapIter::with_hint(entries, low, up)
    }

    /// Wraps the given entries with the size hint `(low, up)`.
    pub fn with_hint(entries: Vec<(K, V)>, low: usize, up: Option<usize>) -> (m: MapIter<K, V>)
        ensures
            m.entries() == entries@,
            m.low() == low,
            m.up() == up,
    {
        MapIter { entries, low, up }
    }
}

/// The encoding of a map of `entries` whose size hint is `(low, up)`: a
/// definite-length map of `low` entries when the hint is exact, an
/// indefinite-length one otherwise.
pub open spec fn hinted_map_encoding<C, K: Encode<C>, V: Encode<C>>(low: usize, up: Option<usize>, entries: Seq<(K, V)>) -> Seq<u8> {
    if exact_hint(low, up) {
        head(MAP, low as nat) + concat_entries::<C, K, V>(entries)
    } else {
        seq![BEGIN_MAP] + concat_entries::<C, K, V>(entries) + seq![BREAK]
    }
}

impl<C, K: Encode<C>, V: Encode<C>> Encode<C> for MapIter<K, V> {
    open spec fn encoding(&self) -> Seq<u8> {
        hinted_map_encoding::<C, K, V>(self.low(), self.up(), self.entries())
    }

    open spec fn encodable(&self) -> bool {
        all_entries_encodable::<C, K, V>(self.entries())
    }

    /// The error of the first key or value that does not encode.
    open spec fn encode_error(&self) -> Error {
        entries_error::<C, K, V>(self.entries())
    }

    fn encode(&self, e: &mut Encoder, ctx: &mut C) -> (r: Result<(), Error>) {
        let ghost start = e@;
        let exact = is_exact(self.low, self.up);
        if exact {
            e.map(self.low as u64)?;
        } else {
            e.begin_map()?;
        }
        let ghost mid = e@;
        let r = encode_entries(self.entries.as_slice(), e, ctx);
        if r.is_err() {
            assert(start.is_prefix_of(e@)) by {
                assert(start.is_prefix_of(mid));
            }
            return r;
        }
        if !exact {
            e.end()?;
        }
        assert(e@ =~= start + self.encoding());
        Ok(())
    }
}

} // verus!
