//! Laws that tie the encodings of composite values to one another: a tuple
//! encodes as the array of its elements in index order, and every sequence
//! type encodes as the vector of the same items.
use super::{
    Bound, all_encodable, array_encoding, concat_encodings, first_failure, lemma_seq_error, seq_error,
    Encode, Error,
};
use crate::head::{head, ARRAY};
use core::ops::{Range, RangeInclusive};
use std::collections::VecDeque;
use vstd::prelude::*;

verus! {

/// Appending an item appends its encoding.
pub proof fn lemma_concat_push<C, T: Encode<C>>(s: Seq<T>, x: T)
    ensures
        concat_encodings::<C, T>(s.push(x)) == concat_encodings::<C, T>(s) + <T as Encode<C>>::encoding(
            &x,
        ),
{
    assert(s.push(x).drop_last() =~= s);
}

/// A sequence that does not wholly encode has a first item that does not.
pub proof fn lemma_first_failure_exists<C, T: Encode<C>>(s: Seq<T>)
    requires
        !all_encodable::<C, T>(s),
    ensures
        exists|i: int| first_failure::<C, T>(s, i),
    decreases s.len(),
{
    let init = s.drop_last();
    if !all_encodable::<C, T>(init) {
        lemma_first_failure_exists::<C, T>(init);
        let i = choose|i: int| first_failure::<C, T>(init, i);
        assert(init.take(i) =~= s.take(i));
        assert(first_failure::<C, T>(s, i));
    } else {
        let j = choose|j: int| 0 <= j < s.len() && !#[trigger] <T as Encode<C>>::encodable(&s[j]);
        if j < s.len() - 1 {
            assert(init[j] == s[j]);
        }
        let i = s.len() - 1;
        assert(s.take(i) =~= init);
        assert(first_failure::<C, T>(s, i));
    }
}

/// Appending an item to a sequence: the whole encodes exactly when both
/// parts do, and its error is that of the first part when that part fails,
/// else that of the item.
pub proof fn lemma_push_error<C, T: Encode<C>>(s: Seq<T>, x: T)
    ensures
        all_encodable::<C, T>(s.push(x)) <==> (all_encodable::<C, T>(s) && <T as Encode<C>>::encodable(
            &x,
        )),
        !all_encodable::<C, T>(s) ==> seq_error::<C, T>(s.push(x)) == seq_error::<C, T>(s),
        all_encodable::<C, T>(s) && !<T as Encode<C>>::encodable(&x) ==> seq_error::<C, T>(s.push(x))
            == <T as Encode<C>>::encode_error(&x),
{
    let t = s.push(x);
    assert(t[s.len() as int] == x);
    assert(forall|j: int| 0 <= j < s.len() ==> t[j] == s[j]);
    if all_encodable::<C, T>(s) && <T as Encode<C>>::encodable(&x) {
        assert forall|j: int| 0 <= j < t.len() implies #[trigger] <T as Encode<C>>::encodable(
            &t[j],
        ) by {
            if j < s.len() {
                assert(t[j] == s[j]);
            }
        }
    }
    if !all_encodable::<C, T>(s) {
        lemma_first_failure_exists::<C, T>(s);
        let i = choose|i: int| first_failure::<C, T>(s, i);
        assert(t.take(i) =~= s.take(i));
        assert(t[i] == s[i]);
        assert(first_failure::<C, T>(t, i));
        lemma_seq_error::<C, T>(s, i);
        lemma_seq_error::<C, T>(t, i);
    }
    if all_encodable::<C, T>(s) && !<T as Encode<C>>::encodable(&x) {
        assert(t.take(s.len() as int) =~= s);
        assert(first_failure::<C, T>(t, s.len() as int));
        lemma_seq_error::<C, T>(t, s.len() as int);
    }
}

/// A deque encodes as the vector of the same items, in order: an array of
/// all of them, failing exactly when and as that vector does.
pub proof fn law_vecdeque_as_vec<C, T: Encode<C>>(d: VecDeque<T>, v: Vec<T>)
    requires
        d@ == v@,
    ensures
        <VecDeque<T> as Encode<C>>::encoding(&d) == <Vec<T> as Encode<C>>::encoding(&v),
        <VecDeque<T> as Encode<C>>::encoding(&d) == head(ARRAY, d@.len()) + concat_encodings::<C, T>(
            d@,
        ),
        <VecDeque<T> as Encode<C>>::encodable(&d) == <Vec<T> as Encode<C>>::encodable(&v),
        <VecDeque<T> as Encode<C>>::encode_error(&d) == <Vec<T> as Encode<C>>::encode_error(&v),
{
}

/// A fixed-size array encodes as the vector of the same items.
pub proof fn law_fixed_array_as_vec<C, T: Encode<C>, const N: usize>(a: [T; N], v: Vec<T>)
    requires
        a@ == v@,
    ensures
        <[T; N] as Encode<C>>::encoding(&a) == <Vec<T> as Encode<C>>::encoding(&v),
        <[T; N] as Encode<C>>::encodable(&a) == <Vec<T> as Encode<C>>::encodable(&v),
        <[T; N] as Encode<C>>::encode_error(&a) == <Vec<T> as Encode<C>>::encode_error(&v),
{
}

/// A slice encodes as the vector of the same items.
pub proof fn law_slice_as_vec<C, T: Encode<C>>(s: &[T], v: Vec<T>)
    requires
        s@ == v@,
    ensures
        <[T] as Encode<C>>::encoding(s) == <Vec<T> as Encode<C>>::encoding(&v),
        <[T] as Encode<C>>::encodable(s) == <Vec<T> as Encode<C>>::encodable(&v),
        <[T] as Encode<C>>::encode_error(s) == <Vec<T> as Encode<C>>::encode_error(&v),
{
}

/// A tuple of 1 element of one type encodes as the array of its elements in
/// index order, and fails exactly when and as that array does.
pub proof fn law_tuple1_as_array<C, T: Encode<C>>(t: (T,))
    ensures
        <(T,) as Encode<C>>::encoding(&t) == array_encoding::<C, T>(seq![t.0]),
        <(T,) as Encode<C>>::encodable(&t) == all_encodable::<C, T>(seq![t.0]),
        !<(T,) as Encode<C>>::encodable(&t) ==> <(T,) as Encode<C>>::encode_error(&t)
            == seq_error::<C, T>(seq![t.0]),
{
    let s0 = Seq::<T>::empty();
    assert(all_encodable::<C, T>(s0));
    let s1 = s0.push(t.0);
    lemma_concat_push::<C, T>(s0, t.0);
    lemma_push_error::<C, T>(s0, t.0);
    assert(s1 =~= seq![t.0]);
    assert(concat_encodings::<C, T>(s0) =~= Seq::<u8>::empty());
}

/// A tuple of 2 elements of one type encodes as the array of its elements in
/// index order, and fails exactly when and as that array does.
pub proof fn law_tuple2_as_array<C, T: Encode<C>>(t: (T, T))
    ensures
        <(T, T) as Encode<C>>::encoding(&t) == array_encoding::<C, T>(seq![t.0, t.1]),
        <(T, T) as Encode<C>>::encodable(&t) == all_encodable::<C, T>(seq![t.0, t.1]),
        !<(T, T) as Encode<C>>::encodable(&t) ==> <(T, T) as Encode<C>>::encode_error(&t)
            == seq_error::<C, T>(seq![t.0, t.1]),
{
    let s0 = Seq::<T>::empty();
    assert(all_encodable::<C, T>(s0));
    let s1 = s0.push(t.0);
    lemma_concat_push::<C, T>(s0, t.0);
    lemma_push_error::<C, T>(s0, t.0);
    let s2 = s1.push(t.1);
    lemma_concat_push::<C, T>(s1, t.1);
    lemma_push_error::<C, T>(s1, t.1);
    assert(s2 =~= seq![t.0, t.1]);
    assert(concat_encodings::<C, T>(s0) =~= Seq::<u8>::empty());
}

/// A tuple of 3 elements of one type encodes as the array of its elements in
/// index order, and fails exactly when and as that array does.
pub proof fn law_tuple3_as_array<C, T: Encode<C>>(t: (T, T, T))
    ensures
        <(T, T, T) as Encode<C>>::encoding(&t) == array_encoding::<C, T>(seq![t.0, t.1, t.2]),
        <(T, T, T) as Encode<C>>::encodable(&t) == all_encodable::<C, T>(seq![t.0, t.1, t.2]),
        !<(T, T, T) as Encode<C>>::encodable(&t) ==> <(T, T, T) as Encode<C>>::encode_error(&t)
            == seq_error::<C, T>(seq![t.0, t.1, t.2]),
{
    let s0 = Seq::<T>::empty();
    assert(all_encodable::<C, T>(s0));
    let s1 = s0.push(t.0);
    lemma_concat_push::<C, T>(s0, t.0);
    lemma_push_error::<C, T>(s0, t.0);
    let s2 = s1.push(t.1);
    lemma_concat_push::<C, T>(s1, t.1);
    lemma_push_error::<C, T>(s1, t.1);
    let s3 = s2.push(t.2);
    lemma_concat_push::<C, T>(s2, t.2);
    lemma_push_error::<C, T>(s2, t.2);
    assert(s3 =~= seq![t.0, t.1, t.2]);
    assert(concat_encodings::<C, T>(s0) =~= Seq::<u8>::empty());
}

/// A tuple of 4 elements of one type encodes as the array of its elements in
/// index order, and fails exactly when and as that array does.
pub proof fn law_tuple4_as_array<C, T: Encode<C>>(t: (T, T, T, T))
    ensures
        <(T, T, T, T) as Encode<C>>::encoding(&t) == array_encoding::<C, T>(seq![t.0, t.1, t.2, t.3]),
        <(T, T, T, T) as Encode<C>>::encodable(&t) == all_encodable::<C, T>(seq![t.0, t.1, t.2, t.3]),
        !<(T, T, T, T) as Encode<C>>::encodable(&t) ==> <(T, T, T, T) as Encode<C>>::encode_error(&t)
            == seq_error::<C, T>(seq![t.0, t.1, t.2, t.3]),
{
    let s0 = Seq::<T>::empty();
    assert(all_encodable::<C, T>(s0));
    let s1 = s0.push(t.0);
    lemma_concat_push::<C, T>(s0, t.0);
    lemma_push_error::<C, T>(s0, t.0);
    let s2 = s1.push(t.1);
    lemma_concat_push::<C, T>(s1, t.1);
    lemma_push_error::<C, T>(s1, t.1);
    let s3 = s2.push(t.2);
    lemma_concat_push::<C, T>(s2, t.2);
    lemma_push_error::<C, T>(s2, t.2);
    let s4 = s3.push(t.3);
    lemma_concat_push::<C, T>(s3, t.3);
    lemma_push_error::<C, T>(s3, t.3);
    assert(s4 =~= seq![t.0, t.1, t.2, t.3]);
    assert(concat_encodings::<C, T>(s0) =~= Seq::<u8>::empty());
}

/// A tuple of 5 elements of one type encodes as the array of its elements in
/// index order, and fails exactly when and as that array does.
pub proof fn law_tuple5_as_array<C, T: Encode<C>>(t: (T, T, T, T, T))
    ensures
        <(T, T, T, T, T) as Encode<C>>::encoding(&t) == array_encoding::<C, T>(seq![t.0, t.1, t.2, t.3, t.4]),
        <(T, T, T, T, T) as Encode<C>>::encodable(&t) == all_encodable::<C, T>(seq![t.0, t.1, t.2, t.3, t.4]),
        !<(T, T, T, T, T) as Encode<C>>::encodable(&t) ==> <(T, T, T, T, T) as Encode<C>>::encode_error(&t)
            == seq_error::<C, T>(seq![t.0, t.1, t.2, t.3, t.4]),
{
    let s0 = Seq::<T>::empty();
    assert(all_encodable::<C, T>(s0));
    let s1 = s0.push(t.0);
    lemma_concat_push::<C, T>(s0, t.0);
    lemma_push_error::<C, T>(s0, t.0);
    let s2 = s1.push(t.1);
    lemma_concat_push::<C, T>(s1, t.1);
    lemma_push_error::<C, T>(s1, t.1);
    let s3 = s2.push(t.2);
    lemma_concat_push::<C, T>(s2, t.2);
    lemma_push_error::<C, T>(s2, t.2);
    let s4 = s3.push(t.3);
    lemma_concat_push::<C, T>(s3, t.3);
    lemma_push_error::<C, T>(s3, t.3);
    let s5 = s4.push(t.4);
    lemma_concat_push::<C, T>(s4, t.4);
    lemma_push_error::<C, T>(s4, t.4);
    assert(s5 =~= seq![t.0, t.1, t.2, t.3, t.4]);
    assert(concat_encodings::<C, T>(s0) =~= Seq::<u8>::empty());
}

/// A tuple of 6 elements of one type encodes as the array of its elements in
/// index order, and fails exactly when and as that array does.
pub proof fn law_tuple6_as_array<C, T: Encode<C>>(t: (T, T, T, T, T, T))
    ensures
        <(T, T, T, T, T, T) as Encode<C>>::encoding(&t) == array_encoding::<C, T>(seq![t.0, t.1, t.2, t.3, t.4, t.5]),
        <(T, T, T, T, T, T) as Encode<C>>::encodable(&t) == all_encodable::<C, T>(seq![t.0, t.1, t.2, t.3, t.4, t.5]),
        !<(T, T, T, T, T, T) as Encode<C>>::encodable(&t) ==> <(T, T, T, T, T, T) as Encode<C>>::encode_error(&t)
            == seq_error::<C, T>(seq![t.0, t.1, t.2, t.3, t.4, t.5]),
{
    let s0 = Seq::<T>::empty();
    assert(all_encodable::<C, T>(s0));
    let s1 = s0.push(t.0);
    lemma_concat_push::<C, T>(s0, t.0);
    lemma_push_error::<C, T>(s0, t.0);
    let s2 = s1.push(t.1);
    lemma_concat_push::<C, T>(s1, t.1);
    lemma_push_error::<C, T>(s1, t.1);
    let s3 = s2.push(t.2);
    lemma_concat_push::<C, T>(s2, t.2);
    lemma_push_error::<C, T>(s2, t.2);
    let s4 = s3.push(t.3);
    lemma_concat_push::<C, T>(s3, t.3);
    lemma_push_error::<C, T>(s3, t.3);
    let s5 = s4.push(t.4);
    lemma_concat_push::<C, T>(s4, t.4);
    lemma_push_error::<C, T>(s4, t.4);
    let s6 = s5.push(t.5);
    lemma_concat_push::<C, T>(s5, t.5);
    lemma_push_error::<C, T>(s5, t.5);
    assert(s6 =~= seq![t.0, t.1, t.2, t.3, t.4, t.5]);
    assert(concat_encodings::<C, T>(s0) =~= Seq::<u8>::empty());
}

/// A tuple of 7 elements of one type encodes as the array of its elements in
/// index order, and fails exactly when and as that array does.
pub proof fn law_tuple7_as_array<C, T: Encode<C>>(t: (T, T, T, T, T, T, T))
    ensures
        <(T, T, T, T, T, T, T) as Encode<C>>::encoding(&t) == array_encoding::<C, T>(seq![t.0, t.1, t.2, t.3, t.4, t.5, t.6]),
        <(T, T, T, T, T, T, T) as Encode<C>>::encodable(&t) == all_encodable::<C, T>(seq![t.0, t.1, t.2, t.3, t.4, t.5, t.6]),
        !<(T, T, T, T, T, T, T) as Encode<C>>::encodable(&t) ==> <(T, T, T, T, T, T, T) as Encode<C>>::encode_error(&t)
            == seq_error::<C, T>(seq![t.0, t.1, t.2, t.3, t.4, t.5, t.6]),
{
    let s0 = Seq::<T>::empty();
    assert(all_encodable::<C, T>(s0));
    let s1 = s0.push(t.0);
    lemma_concat_push::<C, T>(s0, t.0);
    lemma_push_error::<C, T>(s0, t.0);
    let s2 = s1.push(t.1);
    lemma_concat_push::<C, T>(s1, t.1);
    lemma_push_error::<C, T>(s1, t.1);
    let s3 = s2.push(t.2);
    lemma_concat_push::<C, T>(s2, t.2);
    lemma_push_error::<C, T>(s2, t.2);
    let s4 = s3.push(t.3);
    lemma_concat_push::<C, T>(s3, t.3);
    lemma_push_error::<C, T>(s3, t.3);
    let s5 = s4.push(t.4);
    lemma_concat_push::<C, T>(s4, t.4);
    lemma_push_error::<C, T>(s4, t.4);
    let s6 = s5.push(t.5);
    lemma_concat_push::<C, T>(s5, t.5);
    lemma_push_error::<C, T>(s5, t.5);
    let s7 = s6.push(t.6);
    lemma_concat_push::<C, T>(s6, t.6);
    lemma_push_error::<C, T>(s6, t.6);
    assert(s7 =~= seq![t.0, t.1, t.2, t.3, t.4, t.5, t.6]);
    assert(concat_encodings::<C, T>(s0) =~= Seq::<u8>::empty());
}

/// A tuple of 8 elements of one type encodes as the array of its elements in
/// index order, and fails exactly when and as that array does.
pub proof fn law_tuple8_as_array<C, T: Encode<C>>(t: (T, T, T, T, T, T, T, T))
    ensures
        <(T, T, T, T, T, T, T, T) as Encode<C>>::encoding(&t) == array_encoding::<C, T>(seq![t.0, t.1, t.2, t.3, t.4, t.5, t.6, t.7]),
        <(T, T, T, T, T, T, T, T) as Encode<C>>::encodable(&t) == all_encodable::<C, T>(seq![t.0, t.1, t.2, t.3, t.4, t.5, t.6, t.7]),
        !<(T, T, T, T, T, T, T, T) as Encode<C>>::encodable(&t) ==> <(T, T, T, T, T, T, T, T) as Encode<C>>::encode_error(&t)
            == seq_error::<C, T>(seq![t.0, t.1, t.2, t.3, t.4, t.5, t.6, t.7]),
{
    let s0 = Seq::<T>::empty();
    assert(all_encodable::<C, T>(s0));
    let s1 = s0.push(t.0);
    lemma_concat_push::<C, T>(s0, t.0);
    lemma_push_error::<C, T>(s0, t.0);
    let s2 = s1.push(t.1);
    lemma_concat_push::<C, T>(s1, t.1);
    lemma_push_error::<C, T>(s1, t.1);
    let s3 = s2.push(t.2);
    lemma_concat_push::<C, T>(s2, t.2);
    lemma_push_error::<C, T>(s2, t.2);
    let s4 = s3.push(t.3);
    lemma_concat_push::<C, T>(s3, t.3);
    lemma_push_error::<C, T>(s3, t.3);
    let s5 = s4.push(t.4);
    lemma_concat_push::<C, T>(s4, t.4);
    lemma_push_error::<C, T>(s4, t.4);
    let s6 = s5.push(t.5);
    lemma_concat_push::<C, T>(s5, t.5);
    lemma_push_error::<C, T>(s5, t.5);
    let s7 = s6.push(t.6);
    lemma_concat_push::<C, T>(s6, t.6);
    lemma_push_error::<C, T>(s6, t.6);
    let s8 = s7.push(t.7);
    lemma_concat_push::<C, T>(s7, t.7);
    lemma_push_error::<C, T>(s7, t.7);
    assert(s8 =~= seq![t.0, t.1, t.2, t.3, t.4, t.5, t.6, t.7]);
    assert(concat_encodings::<C, T>(s0) =~= Seq::<u8>::empty());
}

/// A tuple of 9 elements of one type encodes as the array of its elements in
/// index order, and fails exactly when and as that array does.
pub proof fn law_tuple9_as_array<C, T: Encode<C>>(t: (T, T, T, T, T, T, T, T, T))
    ensures
        <(T, T, T, T, T, T, T, T, T) as Encode<C>>::encoding(&t) == array_encoding::<C, T>(seq![t.0, t.1, t.2, t.3, t.4, t.5, t.6, t.7, t.8]),
        <(T, T, T, T, T, T, T, T, T) as Encode<C>>::encodable(&t) == all_encodable::<C, T>(seq![t.0, t.1, t.2, t.3, t.4, t.5, t.6, t.7, t.8]),
        !<(T, T, T, T, T, T, T, T, T) as Encode<C>>::encodable(&t) ==> <(T, T, T, T, T, T, T, T, T) as Encode<C>>::encode_error(&t)
            == seq_error::<C, T>(seq![t.0, t.1, t.2, t.3, t.4, t.5, t.6, t.7, t.8]),
{
    let s0 = Seq::<T>::empty();
    assert(all_encodable::<C, T>(s0));
    let s1 = s0.push(t.0);
    lemma_concat_push::<C, T>(s0, t.0);
    lemma_push_error::<C, T>(s0, t.0);
    let s2 = s1.push(t.1);
    lemma_concat_push::<C, T>(s1, t.1);
    lemma_push_error::<C, T>(s1, t.1);
    let s3 = s2.push(t.2);
    lemma_concat_push::<C, T>(s2, t.2);
    lemma_push_error::<C, T>(s2, t.2);
    let s4 = s3.push(t.3);
    lemma_concat_push::<C, T>(s3, t.3);
    lemma_push_error::<C, T>(s3, t.3);
    let s5 = s4.push(t.4);
    lemma_concat_push::<C, T>(s4, t.4);
    lemma_push_error::<C, T>(s4, t.4);
    let s6 = s5.push(t.5);
    lemma_concat_push::<C, T>(s5, t.5);
    lemma_push_error::<C, T>(s5, t.5);
    let s7 = s6.push(t.6);
    lemma_concat_push::<C, T>(s6, t.6);
    lemma_push_error::<C, T>(s6, t.6);
    let s8 = s7.push(t.7);
    lemma_concat_push::<C, T>(s7, t.7);
    lemma_push_error::<C, T>(s7, t.7);
    let s9 = s8.push(t.8);
    lemma_concat_push::<C, T>(s8, t.8);
    lemma_push_error::<C, T>(s8, t.8);
    assert(s9 =~= seq![t.0, t.1, t.2, t.3, t.4, t.5, t.6, t.7, t.8]);
    assert(concat_encodings::<C, T>(s0) =~= Seq::<u8>::empty());
}

/// A tuple of 10 elements of one type encodes as the array of its elements in
/// index order, and fails exactly when and as that array does.
pub proof fn law_tuple10_as_array<C, T: Encode<C>>(t: (T, T, T, T, T, T, T, T, T, T))
    ensures
        <(T, T, T, T, T, T, T, T, T, T) as Encode<C>>::encoding(&t) == array_encoding::<C, T>(seq![t.0, t.1, t.2, t.3, t.4, t.5, t.6, t.7, t.8, t.9]),
        <(T, T, T, T, T, T, T, T, T, T) as Encode<C>>::encodable(&t) == all_encodable::<C, T>(seq![t.0, t.1, t.2, t.3, t.4, t.5, t.6, t.7, t.8, t.9]),
        !<(T, T, T, T, T, T, T, T, T, T) as Encode<C>>::encodable(&t) ==> <(T, T, T, T, T, T, T, T, T, T) as Encode<C>>::encode_error(&t)
            == seq_error::<C, T>(seq![t.0, t.1, t.2, t.3, t.4, t.5, t.6, t.7, t.8, t.9]),
{
    let s0 = Seq::<T>::empty();
    assert(all_encodable::<C, T>(s0));
    let s1 = s0.push(t.0);
    lemma_concat_push::<C, T>(s0, t.0);
    lemma_push_error::<C, T>(s0, t.0);
    let s2 = s1.push(t.1);
    lemma_concat_push::<C, T>(s1, t.1);
    lemma_push_error::<C, T>(s1, t.1);
    let s3 = s2.push(t.2);
    lemma_concat_push::<C, T>(s2, t.2);
    lemma_push_error::<C, T>(s2, t.2);
    let s4 = s3.push(t.3);
    lemma_concat_push::<C, T>(s3, t.3);
    lemma_push_error::<C, T>(s3, t.3);
    let s5 = s4.push(t.4);
    lemma_concat_push::<C, T>(s4, t.4);
    lemma_push_error::<C, T>(s4, t.4);
    let s6 = s5.push(t.5);
    lemma_concat_push::<C, T>(s5, t.5);
    lemma_push_error::<C, T>(s5, t.5);
    let s7 = s6.push(t.6);
    lemma_concat_push::<C, T>(s6, t.6);
    lemma_push_error::<C, T>(s6, t.6);
    let s8 = s7.push(t.7);
    lemma_concat_push::<C, T>(s7, t.7);
    lemma_push_error::<C, T>(s7, t.7);
    let s9 = s8.push(t.8);
    lemma_concat_push::<C, T>(s8, t.8);
    lemma_push_error::<C, T>(s8, t.8);
    let s10 = s9.push(t.9);
    lemma_concat_push::<C, T>(s9, t.9);
    lemma_push_error::<C, T>(s9, t.9);
    assert(s10 =~= seq![t.0, t.1, t.2, t.3, t.4, t.5, t.6, t.7, t.8, t.9]);
    assert(concat_encodings::<C, T>(s0) =~= Seq::<u8>::empty());
}

/// A tuple of 11 elements of one type encodes as the array of its elements in
/// index order, and fails exactly when and as that array does.
pub proof fn law_tuple11_as_array<C, T: Encode<C>>(t: (T, T, T, T, T, T, T, T, T, T, T))
    ensures
        <(T, T, T, T, T, T, T, T, T, T, T) as Encode<C>>::encoding(&t) == array_encoding::<C, T>(seq![t.0, t.1, t.2, t.3, t.4, t.5, t.6, t.7, t.8, t.9, t.10]),
        <(T, T, T, T, T, T, T, T, T, T, T) as Encode<C>>::encodable(&t) == all_encodable::<C, T>(seq![t.0, t.1, t.2, t.3, t.4, t.5, t.6, t.7, t.8, t.9, t.10]),
        !<(T, T, T, T, T, T, T, T, T, T, T) as Encode<C>>::encodable(&t) ==> <(T, T, T, T, T, T, T, T, T, T, T) as Encode<C>>::encode_error(&t)
            == seq_error::<C, T>(seq![t.0, t.1, t.2, t.3, t.4, t.5, t.6, t.7, t.8, t.9, t.10]),
{
    let s0 = Seq::<T>::empty();
    assert(all_encodable::<C, T>(s0));
    let s1 = s0.push(t.0);
    lemma_concat_push::<C, T>(s0, t.0);
    lemma_push_error::<C, T>(s0, t.0);
    let s2 = s1.push(t.1);
    lemma_concat_push::<C, T>(s1, t.1);
    lemma_push_error::<C, T>(s1, t.1);
    let s3 = s2.push(t.2);
    lemma_concat_push::<C, T>(s2, t.2);
    lemma_push_error::<C, T>(s2, t.2);
    let s4 = s3.push(t.3);
    lemma_concat_push::<C, T>(s3, t.3);
    lemma_push_error::<C, T>(s3, t.3);
    let s5 = s4.push(t.4);
    lemma_concat_push::<C, T>(s4, t.4);
    lemma_push_error::<C, T>(s4, t.4);
    let s6 = s5.push(t.5);
    lemma_concat_push::<C, T>(s5, t.5);
    lemma_push_error::<C, T>(s5, t.5);
    let s7 = s6.push(t.6);
    lemma_concat_push::<C, T>(s6, t.6);
    lemma_push_error::<C, T>(s6, t.6);
    let s8 = s7.push(t.7);
    lemma_concat_push::<C, T>(s7, t.7);
    lemma_push_error::<C, T>(s7, t.7);
    let s9 = s8.push(t.8);
    lemma_concat_push::<C, T>(s8, t.8);
    lemma_push_error::<C, T>(s8, t.8);
    let s10 = s9.push(t.9);
    lemma_concat_push::<C, T>(s9, t.9);
    lemma_push_error::<C, T>(s9, t.9);
    let s11 = s10.push(t.10);
    lemma_concat_push::<C, T>(s10, t.10);
    lemma_push_error::<C, T>(s10, t.10);
    assert(s11 =~= seq![t.0, t.1, t.2, t.3, t.4, t.5, t.6, t.7, t.8, t.9, t.10]);
    assert(concat_encodings::<C, T>(s0) =~= Seq::<u8>::empty());
}

/// A tuple of 12 elements of one type encodes as the array of its elements in
/// index order, and fails exactly when and as that array does.
pub proof fn law_tuple12_as_array<C, T: Encode<C>>(t: (T, T, T, T, T, T, T, T, T, T, T, T))
    ensures
        <(T, T, T, T, T, T, T, T, T, T, T, T) as Encode<C>>::encoding(&t) == array_encoding::<C, T>(seq![t.0, t.1, t.2, t.3, t.4, t.5, t.6, t.7, t.8, t.9, t.10, t.11]),
        <(T, T, T, T, T, T, T, T, T, T, T, T) as Encode<C>>::encodable(&t) == all_encodable::<C, T>(seq![t.0, t.1, t.2, t.3, t.4, t.5, t.6, t.7, t.8, t.9, t.10, t.11]),
        !<(T, T, T, T, T, T, T, T, T, T, T, T) as Encode<C>>::encodable(&t) ==> <(T, T, T, T, T, T, T, T, T, T, T, T) as Encode<C>>::encode_error(&t)
            == seq_error::<C, T>(seq![t.0, t.1, t.2, t.3, t.4, t.5, t.6, t.7, t.8, t.9, t.10, t.11]),
{
    let s0 = Seq::<T>::empty();
    assert(all_encodable::<C, T>(s0));
    let s1 = s0.push(t.0);
    lemma_concat_push::<C, T>(s0, t.0);
    lemma_push_error::<C, T>(s0, t.0);
    let s2 = s1.push(t.1);
    lemma_concat_push::<C, T>(s1, t.1);
    lemma_push_error::<C, T>(s1, t.1);
    let s3 = s2.push(t.2);
    lemma_concat_push::<C, T>(s2, t.2);
    lemma_push_error::<C, T>(s2, t.2);
    let s4 = s3.push(t.3);
    lemma_concat_push::<C, T>(s3, t.3);
    lemma_push_error::<C, T>(s3, t.3);
    let s5 = s4.push(t.4);
    lemma_concat_push::<C, T>(s4, t.4);
    lemma_push_error::<C, T>(s4, t.4);
    let s6 = s5.push(t.5);
    lemma_concat_push::<C, T>(s5, t.5);
    lemma_push_error::<C, T>(s5, t.5);
    let s7 = s6.push(t.6);
    lemma_concat_push::<C, T>(s6, t.6);
    lemma_push_error::<C, T>(s6, t.6);
    let s8 = s7.push(t.7);
    lemma_concat_push::<C, T>(s7, t.7);
    lemma_push_error::<C, T>(s7, t.7);
    let s9 = s8.push(t.8);
    lemma_concat_push::<C, T>(s8, t.8);
    lemma_push_error::<C, T>(s8, t.8);
    let s10 = s9.push(t.9);
    lemma_concat_push::<C, T>(s9, t.9);
    lemma_push_error::<C, T>(s9, t.9);
    let s11 = s10.push(t.10);
    lemma_concat_push::<C, T>(s10, t.10);
    lemma_push_error::<C, T>(s10, t.10);
    let s12 = s11.push(t.11);
    lemma_concat_push::<C, T>(s11, t.11);
    lemma_push_error::<C, T>(s11, t.11);
    assert(s12 =~= seq![t.0, t.1, t.2, t.3, t.4, t.5, t.6, t.7, t.8, t.9, t.10, t.11]);
    assert(concat_encodings::<C, T>(s0) =~= Seq::<u8>::empty());
}

/// A tuple of 13 elements of one type encodes as the array of its elements in
/// index order, and fails exactly when and as that array does.
pub proof fn law_tuple13_as_array<C, T: Encode<C>>(t: (T, T, T, T, T, T, T, T, T, T, T, T, T))
    ensures
        <(T, T, T, T, T, T, T, T, T, T, T, T, T) as Encode<C>>::encoding(&t) == array_encoding::<C, T>(seq![t.0, t.1, t.2, t.3, t.4, t.5, t.6, t.7, t.8, t.9, t.10, t.11, t.12]),
        <(T, T, T, T, T, T, T, T, T, T, T, T, T) as Encode<C>>::encodable(&t) == all_encodable::<C, T>(seq![t.0, t.1, t.2, t.3, t.4, t.5, t.6, t.7, t.8, t.9, t.10, t.11, t.12]),
        !<(T, T, T, T, T, T, T, T, T, T, T, T, T) as Encode<C>>::encodable(&t) ==> <(T, T, T, T, T, T, T, T, T, T, T, T, T) as Encode<C>>::encode_error(&t)
            == seq_error::<C, T>(seq![t.0, t.1, t.2, t.3, t.4, t.5, t.6, t.7, t.8, t.9, t.10, t.11, t.12]),
{
    let s0 = Seq::<T>::empty();
    assert(all_encodable::<C, T>(s0));
    let s1 = s0.push(t.0);
    lemma_concat_push::<C, T>(s0, t.0);
    lemma_push_error::<C, T>(s0, t.0);
    let s2 = s1.push(t.1);
    lemma_concat_push::<C, T>(s1, t.1);
    lemma_push_error::<C, T>(s1, t.1);
    let s3 = s2.push(t.2);
    lemma_concat_push::<C, T>(s2, t.2);
    lemma_push_error::<C, T>(s2, t.2);
    let s4 = s3.push(t.3);
    lemma_concat_push::<C, T>(s3, t.3);
    lemma_push_error::<C, T>(s3, t.3);
    let s5 = s4.push(t.4);
    lemma_concat_push::<C, T>(s4, t.4);
    lemma_push_error::<C, T>(s4, t.4);
    let s6 = s5.push(t.5);
    lemma_concat_push::<C, T>(s5, t.5);
    lemma_push_error::<C, T>(s5, t.5);
    let s7 = s6.push(t.6);
    lemma_concat_push::<C, T>(s6, t.6);
    lemma_push_error::<C, T>(s6, t.6);
    let s8 = s7.push(t.7);
    lemma_concat_push::<C, T>(s7, t.7);
    lemma_push_error::<C, T>(s7, t.7);
    let s9 = s8.push(t.8);
    lemma_concat_push::<C, T>(s8, t.8);
    lemma_push_error::<C, T>(s8, t.8);
    let s10 = s9.push(t.9);
    lemma_concat_push::<C, T>(s9, t.9);
    lemma_push_error::<C, T>(s9, t.9);
    let s11 = s10.push(t.10);
    lemma_concat_push::<C, T>(s10, t.10);
    lemma_push_error::<C, T>(s10, t.10);
    let s12 = s11.push(t.11);
    lemma_concat_push::<C, T>(s11, t.11);
    lemma_push_error::<C, T>(s11, t.11);
    let s13 = s12.push(t.12);
    lemma_concat_push::<C, T>(s12, t.12);
    lemma_push_error::<C, T>(s12, t.12);
    assert(s13 =~= seq![t.0, t.1, t.2, t.3, t.4, t.5, t.6, t.7, t.8, t.9, t.10, t.11, t.12]);
    assert(concat_encodings::<C, T>(s0) =~= Seq::<u8>::empty());
}

/// A tuple of 14 elements of one type encodes as the array of its elements in
/// index order, and fails exactly when and as that array does.
pub proof fn law_tuple14_as_array<C, T: Encode<C>>(t: (T, T, T, T, T, T, T, T, T, T, T, T, T, T))
    ensures
        <(T, T, T, T, T, T, T, T, T, T, T, T, T, T) as Encode<C>>::encoding(&t) == array_encoding::<C, T>(seq![t.0, t.1, t.2, t.3, t.4, t.5, t.6, t.7, t.8, t.9, t.10, t.11, t.12, t.13]),
        <(T, T, T, T, T, T, T, T, T, T, T, T, T, T) as Encode<C>>::encodable(&t) == all_encodable::<C, T>(seq![t.0, t.1, t.2, t.3, t.4, t.5, t.6, t.7, t.8, t.9, t.10, t.11, t.12, t.13]),
        !<(T, T, T, T, T, T, T, T, T, T, T, T, T, T) as Encode<C>>::encodable(&t) ==> <(T, T, T, T, T, T, T, T, T, T, T, T, T, T) as Encode<C>>::encode_error(&t)
            == seq_error::<C, T>(seq![t.0, t.1, t.2, t.3, t.4, t.5, t.6, t.7, t.8, t.9, t.10, t.11, t.12, t.13]),
{
    let s0 = Seq::<T>::empty();
    assert(all_encodable::<C, T>(s0));
    let s1 = s0.push(t.0);
    lemma_concat_push::<C, T>(s0, t.0);
    lemma_push_error::<C, T>(s0, t.0);
    let s2 = s1.push(t.1);
    lemma_concat_push::<C, T>(s1, t.1);
    lemma_push_error::<C, T>(s1, t.1);
    let s3 = s2.push(t.2);
    lemma_concat_push::<C, T>(s2, t.2);
    lemma_push_error::<C, T>(s2, t.2);
    let s4 = s3.push(t.3);
    lemma_concat_push::<C, T>(s3, t.3);
    lemma_push_error::<C, T>(s3, t.3);
    let s5 = s4.push(t.4);
    lemma_concat_push::<C, T>(s4, t.4);
    lemma_push_error::<C, T>(s4, t.4);
    let s6 = s5.push(t.5);
    lemma_concat_push::<C, T>(s5, t.5);
    lemma_push_error::<C, T>(s5, t.5);
    let s7 = s6.push(t.6);
    lemma_concat_push::<C, T>(s6, t.6);
    lemma_push_error::<C, T>(s6, t.6);
    let s8 = s7.push(t.7);
    lemma_concat_push::<C, T>(s7, t.7);
    lemma_push_error::<C, T>(s7, t.7);
    let s9 = s8.push(t.8);
    lemma_concat_push::<C, T>(s8, t.8);
    lemma_push_error::<C, T>(s8, t.8);
    let s10 = s9.push(t.9);
    lemma_concat_push::<C, T>(s9, t.9);
    lemma_push_error::<C, T>(s9, t.9);
    let s11 = s10.push(t.10);
    lemma_concat_push::<C, T>(s10, t.10);
    lemma_push_error::<C, T>(s10, t.10);
    let s12 = s11.push(t.11);
    lemma_concat_push::<C, T>(s11, t.11);
    lemma_push_error::<C, T>(s11, t.11);
    let s13 = s12.push(t.12);
    lemma_concat_push::<C, T>(s12, t.12);
    lemma_push_error::<C, T>(s12, t.12);
    let s14 = s13.push(t.13);
    lemma_concat_push::<C, T>(s13, t.13);
    lemma_push_error::<C, T>(s13, t.13);
    assert(s14 =~= seq![t.0, t.1, t.2, t.3, t.4, t.5, t.6, t.7, t.8, t.9, t.10, t.11, t.12, t.13]);
    assert(concat_encodings::<C, T>(s0) =~= Seq::<u8>::empty());
}

/// A tuple of 15 elements of one type encodes as the array of its elements in
/// index order, and fails exactly when and as that array does.
pub proof fn law_tuple15_as_array<C, T: Encode<C>>(t: (T, T, T, T, T, T, T, T, T, T, T, T, T, T, T))
    ensures
        <(T, T, T, T, T, T, T, T, T, T, T, T, T, T, T) as Encode<C>>::encoding(&t) == array_encoding::<C, T>(seq![t.0, t.1, t.2, t.3, t.4, t.5, t.6, t.7, t.8, t.9, t.10, t.11, t.12, t.13, t.14]),
        <(T, T, T, T, T, T, T, T, T, T, T, T, T, T, T) as Encode<C>>::encodable(&t) == all_encodable::<C, T>(seq![t.0, t.1, t.2, t.3, t.4, t.5, t.6, t.7, t.8, t.9, t.10, t.11, t.12, t.13, t.14]),
        !<(T, T, T, T, T, T, T, T, T, T, T, T, T, T, T) as Encode<C>>::encodable(&t) ==> <(T, T, T, T, T, T, T, T, T, T, T, T, T, T, T) as Encode<C>>::encode_error(&t)
            == seq_error::<C, T>(seq![t.0, t.1, t.2, t.3, t.4, t.5, t.6, t.7, t.8, t.9, t.10, t.11, t.12, t.13, t.14]),
{
    let s0 = Seq::<T>::empty();
    assert(all_encodable::<C, T>(s0));
    let s1 = s0.push(t.0);
    lemma_concat_push::<C, T>(s0, t.0);
    lemma_push_error::<C, T>(s0, t.0);
    let s2 = s1.push(t.1);
    lemma_concat_push::<C, T>(s1, t.1);
    lemma_push_error::<C, T>(s1, t.1);
    let s3 = s2.push(t.2);
    lemma_concat_push::<C, T>(s2, t.2);
    lemma_push_error::<C, T>(s2, t.2);
    let s4 = s3.push(t.3);
    lemma_concat_push::<C, T>(s3, t.3);
    lemma_push_error::<C, T>(s3, t.3);
    let s5 = s4.push(t.4);
    lemma_concat_push::<C, T>(s4, t.4);
    lemma_push_error::<C, T>(s4, t.4);
    let s6 = s5.push(t.5);
    lemma_concat_push::<C, T>(s5, t.5);
    lemma_push_error::<C, T>(s5, t.5);
    let s7 = s6.push(t.6);
    lemma_concat_push::<C, T>(s6, t.6);
    lemma_push_error::<C, T>(s6, t.6);
    let s8 = s7.push(t.7);
    lemma_concat_push::<C, T>(s7, t.7);
    lemma_push_error::<C, T>(s7, t.7);
    let s9 = s8.push(t.8);
    lemma_concat_push::<C, T>(s8, t.8);
    lemma_push_error::<C, T>(s8, t.8);
    let s10 = s9.push(t.9);
    lemma_concat_push::<C, T>(s9, t.9);
    lemma_push_error::<C, T>(s9, t.9);
    let s11 = s10.push(t.10);
    lemma_concat_push::<C, T>(s10, t.10);
    lemma_push_error::<C, T>(s10, t.10);
    let s12 = s11.push(t.11);
    lemma_concat_push::<C, T>(s11, t.11);
    lemma_push_error::<C, T>(s11, t.11);
    let s13 = s12.push(t.12);
    lemma_concat_push::<C, T>(s12, t.12);
    lemma_push_error::<C, T>(s12, t.12);
    let s14 = s13.push(t.13);
    lemma_concat_push::<C, T>(s13, t.13);
    lemma_push_error::<C, T>(s13, t.13);
    let s15 = s14.push(t.14);
    lemma_concat_push::<C, T>(s14, t.14);
    lemma_push_error::<C, T>(s14, t.14);
    assert(s15 =~= seq![t.0, t.1, t.2, t.3, t.4, t.5, t.6, t.7, t.8, t.9, t.10, t.11, t.12, t.13, t.14]);
    assert(concat_encodings::<C, T>(s0) =~= Seq::<u8>::empty());
}

/// A tuple of 16 elements of one type encodes as the array of its elements in
/// index order, and fails exactly when and as that array does.
pub proof fn law_tuple16_as_array<C, T: Encode<C>>(t: (T, T, T, T, T, T, T, T, T, T, T, T, T, T, T, T))
    ensures
        <(T, T, T, T, T, T, T, T, T, T, T, T, T, T, T, T) as Encode<C>>::encoding(&t) == array_encoding::<C, T>(seq![t.0, t.1, t.2, t.3, t.4, t.5, t.6, t.7, t.8, t.9, t.10, t.11, t.12, t.13, t.14, t.15]),
        <(T, T, T, T, T, T, T, T, T, T, T, T, T, T, T, T) as Encode<C>>::encodable(&t) == all_encodable::<C, T>(seq![t.0, t.1, t.2, t.3, t.4, t.5, t.6, t.7, t.8, t.9, t.10, t.11, t.12, t.13, t.14, t.15]),
        !<(T, T, T, T, T, T, T, T, T, T, T, T, T, T, T, T) as Encode<C>>::encodable(&t) ==> <(T, T, T, T, T, T, T, T, T, T, T, T, T, T, T, T) as Encode<C>>::encode_error(&t)
            == seq_error::<C, T>(seq![t.0, t.1, t.2, t.3, t.4, t.5, t.6, t.7, t.8, t.9, t.10, t.11, t.12, t.13, t.14, t.15]),
{
    let s0 = Seq::<T>::empty();
    assert(all_encodable::<C, T>(s0));
    let s1 = s0.push(t.0);
    lemma_concat_push::<C, T>(s0, t.0);
    lemma_push_error::<C, T>(s0, t.0);
    let s2 = s1.push(t.1);
    lemma_concat_push::<C, T>(s1, t.1);
    lemma_push_error::<C, T>(s1, t.1);
    let s3 = s2.push(t.2);
    lemma_concat_push::<C, T>(s2, t.2);
    lemma_push_error::<C, T>(s2, t.2);
    let s4 = s3.push(t.3);
    lemma_concat_push::<C, T>(s3, t.3);
    lemma_push_error::<C, T>(s3, t.3);
    let s5 = s4.push(t.4);
    lemma_concat_push::<C, T>(s4, t.4);
    lemma_push_error::<C, T>(s4, t.4);
    let s6 = s5.push(t.5);
    lemma_concat_push::<C, T>(s5, t.5);
    lemma_push_error::<C, T>(s5, t.5);
    let s7 = s6.push(t.6);
    lemma_concat_push::<C, T>(s6, t.6);
    lemma_push_error::<C, T>(s6, t.6);
    let s8 = s7.push(t.7);
    lemma_concat_push::<C, T>(s7, t.7);
    lemma_push_error::<C, T>(s7, t.7);
    let s9 = s8.push(t.8);
    lemma_concat_push::<C, T>(s8, t.8);
    lemma_push_error::<C, T>(s8, t.8);
    let s10 = s9.push(t.9);
    lemma_concat_push::<C, T>(s9, t.9);
    lemma_push_error::<C, T>(s9, t.9);
    let s11 = s10.push(t.10);
    lemma_concat_push::<C, T>(s10, t.10);
    lemma_push_error::<C, T>(s10, t.10);
    let s12 = s11.push(t.11);
    lemma_concat_push::<C, T>(s11, t.11);
    lemma_push_error::<C, T>(s11, t.11);
    let s13 = s12.push(t.12);
    lemma_concat_push::<C, T>(s12, t.12);
    lemma_push_error::<C, T>(s12, t.12);
    let s14 = s13.push(t.13);
    lemma_concat_push::<C, T>(s13, t.13);
    lemma_push_error::<C, T>(s13, t.13);
    let s15 = s14.push(t.14);
    lemma_concat_push::<C, T>(s14, t.14);
    lemma_push_error::<C, T>(s14, t.14);
    let s16 = s15.push(t.15);
    lemma_concat_push::<C, T>(s15, t.15);
    lemma_push_error::<C, T>(s15, t.15);
    assert(s16 =~= seq![t.0, t.1, t.2, t.3, t.4, t.5, t.6, t.7, t.8, t.9, t.10, t.11, t.12, t.13, t.14, t.15]);
    assert(concat_encodings::<C, T>(s0) =~= Seq::<u8>::empty());
}

/// `Some(x)` encodes as `x` itself, with no wrapper, and fails as `x` does.
pub proof fn law_some_as_value<C, T: Encode<C>>(x: T)
    ensures
        <Option<T> as Encode<C>>::encoding(&Some(x)) == x.encoding(),
        <Option<T> as Encode<C>>::encodable(&Some(x)) == x.encodable(),
        <Option<T> as Encode<C>>::encode_error(&Some(x)) == x.encode_error(),
{
}

/// A boxed value encodes as the value itself, and fails as it does.
pub proof fn law_box_as_value<C, T: Encode<C>>(x: T)
    ensures
        <Box<T> as Encode<C>>::encoding(&Box::new(x)) == x.encoding(),
        <Box<T> as Encode<C>>::encodable(&Box::new(x)) == x.encodable(),
        <Box<T> as Encode<C>>::encode_error(&Box::new(x)) == x.encode_error(),
{
}

/// `Ok(v)` encodes as the pair `(0, v)` and `Err(v)` as the pair `(1, v)`,
/// failing exactly when and as that pair does.
pub proof fn law_result_as_pair<C, T: Encode<C>, E: Encode<C>>(v: T, w: E)
    ensures
        <Result<T, E> as Encode<C>>::encoding(&Ok(v)) == <(u32, T) as Encode<C>>::encoding(&(0u32, v)),
        <Result<T, E> as Encode<C>>::encoding(&Err(w)) == <(u32, E) as Encode<C>>::encoding(&(1u32, w)),
        <Result<T, E> as Encode<C>>::encodable(&Ok(v)) == <(u32, T) as Encode<C>>::encodable(&(0u32, v)),
        <Result<T, E> as Encode<C>>::encodable(&Err(w)) == <(u32, E) as Encode<C>>::encodable(
            &(1u32, w),
        ),
        !v.encodable() ==> <Result<T, E> as Encode<C>>::encode_error(&Ok(v)) == <(u32, T) as Encode<
            C,
        >>::encode_error(&(0u32, v)),
        !w.encodable() ==> <Result<T, E> as Encode<C>>::encode_error(&Err(w)) == <(u32, E) as Encode<
            C,
        >>::encode_error(&(1u32, w)),
{
}

/// `Included(v)` encodes as the pair `(0, v)`, `Excluded(v)` as `(1, v)` and
/// `Unbounded` as `(2, ())`, failing exactly when and as that pair does.
pub proof fn law_bound_as_pair<C, T: Encode<C>>(v: T)
    ensures
        <Bound<T> as Encode<C>>::encoding(&Bound::Included(v)) == <(u32, T) as Encode<C>>::encoding(
            &(0u32, v),
        ),
        <Bound<T> as Encode<C>>::encoding(&Bound::Excluded(v)) == <(u32, T) as Encode<C>>::encoding(
            &(1u32, v),
        ),
        <Bound<T> as Encode<C>>::encoding(&Bound::Unbounded) == <(u32, ()) as Encode<C>>::encoding(
            &(2u32, ()),
        ),
        <Bound<T> as Encode<C>>::encodable(&Bound::Included(v)) == v.encodable(),
        <Bound<T> as Encode<C>>::encodable(&Bound::Excluded(v)) == v.encodable(),
        <Bound<T> as Encode<C>>::encodable(&Bound::<T>::Unbounded),
        !v.encodable() ==> <Bound<T> as Encode<C>>::encode_error(&Bound::Included(v)) == <(u32, T) as Encode<
            C,
        >>::encode_error(&(0u32, v)),
        !v.encodable() ==> <Bound<T> as Encode<C>>::encode_error(&Bound::Excluded(v)) == <(u32, T) as Encode<
            C,
        >>::encode_error(&(1u32, v)),
{
}

/// A range `start..end` encodes as the pair `(start, end)`, failing exactly
/// when and as that pair does.
pub proof fn law_range_as_pair<C, T: Encode<C>>(r: Range<T>)
    ensures
        <Range<T> as Encode<C>>::encoding(&r) == <(T, T) as Encode<C>>::encoding(&(r.start, r.end)),
        <Range<T> as Encode<C>>::encodable(&r) == <(T, T) as Encode<C>>::encodable(&(r.start, r.end)),
        <Range<T> as Encode<C>>::encode_error(&r) == <(T, T) as Encode<C>>::encode_error(
            &(r.start, r.end),
        ),
{
}

/// A range `start..=end` encodes as the pair `(start, end)`, failing exactly
/// when and as that pair does.
pub proof fn law_range_inclusive_as_pair<C, T: Encode<C>>(r: RangeInclusive<T>)
    ensures
        <RangeInclusive<T> as Encode<C>>::encoding(&r) == <(T, T) as Encode<C>>::encoding(
            &(r@.start, r@.end),
        ),
        <RangeInclusive<T> as Encode<C>>::encodable(&r) == <(T, T) as Encode<C>>::encodable(
            &(r@.start, r@.end),
        ),
        <RangeInclusive<T> as Encode<C>>::encode_error(&r) == <(T, T) as Encode<C>>::encode_error(
            &(r@.start, r@.end),
        ),
{
}

} // verus!
