//! What the encoder writes is well-formed: each encoding is exactly one data
//! item of the grammar in [`crate::decode::item`], which the decoder reads
//! (and skips) as a whole. That grammar takes any byte after `0xf8`, so the
//! two-byte simple values below 32 that the encoder writes for 20 ..= 31 count
//! as items here though RFC 8949 does not count them as well-formed.
use crate::decode::item::{
    after, item_result, items_result, lemma_item_result_bounds, lemma_item_result_prefix, pairs_result,
    until_break_result,
};
use crate::decode::{container_item, law_container_roundtrip, skip_result, Error};
use crate::encode::encoder::{bool_encoding, bytes_encoding, int_head, simple_encoding, text_encoding};
use crate::encode::{
    array_encoding, concat_encodings, concat_entries, exact_hint, hinted_array_encoding,
    hinted_map_encoding, variant_encoding, Encode,
};
use crate::head::{arg_info, head, lemma_arg_value_prefix, lemma_head_arg, ARRAY, MAP, TAGGED, UNSIGNED};
use vstd::prelude::*;

verus! {

/// `b` is exactly one data item of the grammar in [`crate::decode::item`].
pub open spec fn wellformed(b: Seq<u8>) -> bool {
    item_result(b) == Ok::<nat, Error>(b.len())
}

/// A well-formed item reads the same whatever follows it, and skipping it
/// reads exactly its bytes.
pub proof fn law_wellformed_skip(b: Seq<u8>, more: Seq<u8>)
    requires
        wellformed(b),
    ensures
        item_result(b + more) == Ok::<nat, Error>(b.len()),
        skip_result(b + more) == Ok::<nat, Error>(b.len()),
        b.len() > 0 && b[0] != 0xff,
{
    lemma_item_result_prefix(b, more);
    lemma_item_result_bounds(b);
    assert((b + more)[0] == b[0]);
}

/// The head of an integer is one well-formed item.
pub proof fn law_int_wellformed(x: int)
    requires
        -0x1_0000_0000_0000_0000 <= x <= 0xFFFF_FFFF_FFFF_FFFF,
    ensures
        wellformed(int_head(x)),
{
    let n: nat = if x >= 0 {
        x as nat
    } else {
        (-1 - x) as nat
    };
    let major: u8 = if x >= 0 {
        0
    } else {
        1
    };
    lemma_head_arg(major, n);
}

/// The encodings of byte and text strings are well-formed items.
pub proof fn law_string_wellformed(b: Seq<u8>)
    requires
        b.len() <= u64::MAX,
    ensures
        wellformed(bytes_encoding(b)),
        wellformed(text_encoding(b)),
{
    lemma_head_arg(2, b.len());
    lemma_head_arg(3, b.len());
    let h2 = head(2, b.len());
    let h3 = head(3, b.len());
    assert((h2 + b)[0] == h2[0]);
    assert((h3 + b)[0] == h3[0]);
    assert((h2 + b).drop_first() =~= h2.drop_first() + b);
    assert((h3 + b).drop_first() =~= h3.drop_first() + b);
    lemma_arg_value_prefix(arg_info(b.len()), h2.drop_first(), b);
    lemma_arg_value_prefix(arg_info(b.len()), h3.drop_first(), b);
}

/// The encodings of booleans, simple values, null and undefined are items of
/// the grammar (for simple values 20 ..= 31, in the two-byte form that RFC
/// 8949 does not count as well-formed).
pub proof fn law_simple_wellformed(b: bool, x: u8)
    ensures
        wellformed(bool_encoding(b)),
        wellformed(simple_encoding(x)),
        wellformed(seq![0xf6u8]),
        wellformed(seq![0xf7u8]),
{
}

/// The encodings of the items of `s`, read as `s.len()` items one after the
/// other, take exactly their bytes, when each is a well-formed item.
pub proof fn lemma_items_of_encodings<C, T: Encode<C>>(s: Seq<T>, more: Seq<u8>)
    requires
        forall|i: int| 0 <= i < s.len() ==> wellformed(#[trigger] <T as Encode<C>>::encoding(&s[i])),
    ensures
        items_result(concat_encodings::<C, T>(s) + more, s.len()) == Ok::<nat, Error>(
            concat_encodings::<C, T>(s).len(),
        ),
    decreases s.len(),
{
    if s.len() > 0 {
        let x = <T as Encode<C>>::encoding(&s[0]);
        let rest = s.drop_first();
        lemma_concat_front::<C, T>(s);
        assert(forall|i: int| 0 <= i < rest.len() ==> rest[i] == s[i + 1]);
        lemma_items_of_encodings::<C, T>(rest, more);
        let tail = concat_encodings::<C, T>(rest) + more;
        let all = concat_encodings::<C, T>(s) + more;
        assert(all =~= x + tail);
        assert(wellformed(<T as Encode<C>>::encoding(&s[0])));
        law_wellformed_skip(x, tail);
        assert(all.skip(x.len() as int) =~= tail);
    }
}

/// The encodings of the items of `s` are the encoding of the first item
/// followed by those of the others.
pub proof fn lemma_concat_front<C, T: Encode<C>>(s: Seq<T>)
    requires
        s.len() > 0,
    ensures
        concat_encodings::<C, T>(s) == <T as Encode<C>>::encoding(&s[0]) + concat_encodings::<C, T>(
            s.drop_first(),
        ),
    decreases s.len(),
{
    let first = <T as Encode<C>>::encoding(&s[0]);
    if s.len() > 1 {
        let init = s.drop_last();
        let rest = s.drop_first();
        lemma_concat_front::<C, T>(init);
        assert(init.drop_first() =~= rest.drop_last());
        assert(rest.last() == s.last());
        assert(init[0] == s[0]);
        let last = <T as Encode<C>>::encoding(&s.last());
        assert(concat_encodings::<C, T>(rest) == concat_encodings::<C, T>(rest.drop_last()) + last);
        assert(concat_encodings::<C, T>(s) == concat_encodings::<C, T>(init) + last);
        assert(concat_encodings::<C, T>(s) =~= first + concat_encodings::<C, T>(rest));
    } else {
        assert(s.drop_first().len() == 0);
        assert(s.drop_last().len() == 0);
        assert(s.last() == s[0]);
        assert(concat_encodings::<C, T>(s.drop_last()) =~= Seq::<u8>::empty());
        assert(concat_encodings::<C, T>(s.drop_first()) =~= Seq::<u8>::empty());
        assert(concat_encodings::<C, T>(s) =~= first + concat_encodings::<C, T>(s.drop_first()));
    }
}

/// A definite-length array of well-formed items is a well-formed item.
pub proof fn law_array_wellformed<C, T: Encode<C>>(s: Seq<T>)
    requires
        s.len() <= u64::MAX,
        forall|i: int| 0 <= i < s.len() ==> wellformed(#[trigger] <T as Encode<C>>::encoding(&s[i])),
    ensures
        wellformed(array_encoding::<C, T>(s)),
{
    let h = head(ARRAY, s.len());
    let body = concat_encodings::<C, T>(s);
    let b = array_encoding::<C, T>(s);
    lemma_head_arg(ARRAY, s.len());
    lemma_items_of_encodings::<C, T>(s, Seq::empty());
    assert(body + Seq::<u8>::empty() =~= body);
    assert(b[0] == h[0]);
    assert(b.drop_first() =~= h.drop_first() + body);
    lemma_arg_value_prefix(arg_info(s.len()), h.drop_first(), body);
    assert(b.skip(h.len() as int) =~= body);
}

/// An indefinite-length array of well-formed items is a well-formed item.
pub proof fn law_indefinite_array_wellformed<C, T: Encode<C>>(s: Seq<T>)
    requires
        forall|i: int| 0 <= i < s.len() ==> wellformed(#[trigger] <T as Encode<C>>::encoding(&s[i])),
    ensures
        wellformed(seq![0x9fu8] + concat_encodings::<C, T>(s) + seq![0xffu8]),
{
    lemma_until_break_of_encodings::<C, T>(s);
    let b = seq![0x9fu8] + concat_encodings::<C, T>(s) + seq![0xffu8];
    assert(b.drop_first() =~= concat_encodings::<C, T>(s) + seq![0xffu8]);
}

/// The encodings of the items of `s` followed by a break byte read as items
/// up to a break, taking exactly their bytes.
proof fn lemma_until_break_of_encodings<C, T: Encode<C>>(s: Seq<T>)
    requires
        forall|i: int| 0 <= i < s.len() ==> wellformed(#[trigger] <T as Encode<C>>::encoding(&s[i])),
    ensures
        until_break_result(concat_encodings::<C, T>(s) + seq![0xffu8]) == Ok::<nat, Error>(
            concat_encodings::<C, T>(s).len() + 1,
        ),
    decreases s.len(),
{
    if s.len() == 0 {
        assert(concat_encodings::<C, T>(s) + seq![0xffu8] =~= seq![0xffu8]);
    } else {
        let x = <T as Encode<C>>::encoding(&s[0]);
        let rest = s.drop_first();
        lemma_concat_front::<C, T>(s);
        assert(forall|i: int| 0 <= i < rest.len() ==> rest[i] == s[i + 1]);
        lemma_until_break_of_encodings::<C, T>(rest);
        let tail = concat_encodings::<C, T>(rest) + seq![0xffu8];
        let all = concat_encodings::<C, T>(s) + seq![0xffu8];
        assert(all =~= x + tail);
        assert(wellformed(<T as Encode<C>>::encoding(&s[0])));
        law_wellformed_skip(x, tail);
        assert(all[0] == x[0]);
        assert(all.skip(x.len() as int) =~= tail);
    }
}

/// A tag followed by one well-formed item is a well-formed item.
pub proof fn law_tagged_wellformed(t: u64, b: Seq<u8>)
    requires
        wellformed(b),
    ensures
        wellformed(head(TAGGED, t as nat) + b),
{
    let h = head(TAGGED, t as nat);
    lemma_head_arg(TAGGED, t as nat);
    let all = h + b;
    assert(all[0] == h[0]);
    assert(all.drop_first() =~= h.drop_first() + b);
    lemma_arg_value_prefix(arg_info(t as nat), h.drop_first(), b);
    assert(all.skip(h.len() as int) =~= b);
    law_wellformed_skip(b, Seq::empty());
    assert(b + Seq::<u8>::empty() =~= b);
    assert(items_result(b, 1) == Ok::<nat, Error>(b.len())) by {
        assert(items_result(b.skip(b.len() as int), 0) == Ok::<nat, Error>(0));
    }
}

/// Two well-formed items followed by `more` read as two items, taking
/// exactly their bytes.
proof fn lemma_two_items(x: Seq<u8>, y: Seq<u8>, more: Seq<u8>)
    requires
        wellformed(x),
        wellformed(y),
    ensures
        items_result(x + y + more, 2) == Ok::<nat, Error>(x.len() + y.len()),
        (x + y + more)[0] != 0xff,
{
    let all = x + y + more;
    let rest = y + more;
    assert(all =~= x + rest);
    law_wellformed_skip(x, rest);
    law_wellformed_skip(y, more);
    assert(all.skip(x.len() as int) =~= rest);
    assert(rest.skip(y.len() as int) =~= more);
    assert(items_result(more, 0) == Ok::<nat, Error>(0));
    assert(items_result(rest, 1) == Ok::<nat, Error>(y.len()));
    assert(all[0] == x[0]);
}

/// The encodings of the entries of `s` are those of the first key and value
/// followed by those of the other entries.
proof fn lemma_entries_front<C, K: Encode<C>, V: Encode<C>>(s: Seq<(K, V)>)
    requires
        s.len() > 0,
    ensures
        concat_entries::<C, K, V>(s) == <K as Encode<C>>::encoding(&s[0].0) + <V as Encode<C>>::encoding(
            &s[0].1,
        ) + concat_entries::<C, K, V>(s.drop_first()),
    decreases s.len(),
{
    let first = <K as Encode<C>>::encoding(&s[0].0) + <V as Encode<C>>::encoding(&s[0].1);
    if s.len() > 1 {
        let init = s.drop_last();
        let rest = s.drop_first();
        lemma_entries_front::<C, K, V>(init);
        assert(init.drop_first() =~= rest.drop_last());
        assert(rest.last() == s.last());
        assert(init[0] == s[0]);
        let last = <K as Encode<C>>::encoding(&s.last().0) + <V as Encode<C>>::encoding(&s.last().1);
        assert(concat_entries::<C, K, V>(rest) =~= concat_entries::<C, K, V>(rest.drop_last()) + last);
        assert(concat_entries::<C, K, V>(s) =~= concat_entries::<C, K, V>(init) + last);
        assert(concat_entries::<C, K, V>(s) =~= first + concat_entries::<C, K, V>(rest));
    } else {
        assert(s.last() == s[0]);
        assert(concat_entries::<C, K, V>(s.drop_last()) =~= Seq::<u8>::empty());
        assert(concat_entries::<C, K, V>(s.drop_first()) =~= Seq::<u8>::empty());
        assert(concat_entries::<C, K, V>(s) =~= first + concat_entries::<C, K, V>(s.drop_first()));
    }
}

/// Whether every key and value of `s` encodes to one well-formed item.
pub open spec fn entries_wellformed<C, K: Encode<C>, V: Encode<C>>(s: Seq<(K, V)>) -> bool {
    forall|i: int|
        0 <= i < s.len() ==> wellformed(<K as Encode<C>>::encoding(&#[trigger] s[i].0)) && wellformed(
            <V as Encode<C>>::encoding(&s[i].1),
        )
}

/// A well-formed item followed by `rest`, read as `k > 0` items, reads the
/// item and then `k - 1` items of `rest`.
proof fn lemma_item_then(x: Seq<u8>, rest: Seq<u8>, k: nat)
    requires
        wellformed(x),
        k > 0,
    ensures
        items_result(x + rest, k) == after(items_result(rest, (k - 1) as nat), x.len()),
{
    law_wellformed_skip(x, rest);
    assert((x + rest).skip(x.len() as int) =~= rest);
}

/// The encodings of the entries of `s`, read as `2 * s.len()` items, take
/// exactly their bytes.
#[verifier::spinoff_prover]
proof fn lemma_items_of_entries<C, K: Encode<C>, V: Encode<C>>(s: Seq<(K, V)>, more: Seq<u8>)
    requires
        entries_wellformed::<C, K, V>(s),
    ensures
        items_result(concat_entries::<C, K, V>(s) + more, 2 * s.len()) == Ok::<nat, Error>(
            concat_entries::<C, K, V>(s).len(),
        ),
    decreases s.len(),
{
    if s.len() > 0 {
        let k = <K as Encode<C>>::encoding(&s[0].0);
        let v = <V as Encode<C>>::encoding(&s[0].1);
        let rest = s.drop_first();
        lemma_entries_front::<C, K, V>(s);
        assert(forall|i: int| 0 <= i < rest.len() ==> rest[i] == s[i + 1]);
        assert(wellformed(k) && wellformed(v)) by {
            assert(s[0] == s[0]);
        }
        lemma_items_of_entries::<C, K, V>(rest, more);
        let tail = concat_entries::<C, K, V>(rest) + more;
        let vt = v + tail;
        let n = 2 * s.len();
        assert(concat_entries::<C, K, V>(s) + more =~= k + vt);
        lemma_item_then(k, vt, n);
        lemma_item_then(v, tail, (n - 1) as nat);
        assert((n - 1 - 1) as nat == 2 * rest.len());
    }
}

/// A definite-length map of well-formed keys and values is a well-formed
/// item.
pub proof fn law_map_wellformed<C, K: Encode<C>, V: Encode<C>>(s: Seq<(K, V)>)
    requires
        s.len() <= u64::MAX,
        entries_wellformed::<C, K, V>(s),
    ensures
        wellformed(head(MAP, s.len()) + concat_entries::<C, K, V>(s)),
{
    let h = head(MAP, s.len());
    let body = concat_entries::<C, K, V>(s);
    let b = h + body;
    lemma_head_arg(MAP, s.len());
    lemma_items_of_entries::<C, K, V>(s, Seq::empty());
    assert(body + Seq::<u8>::empty() =~= body);
    assert(b[0] == h[0]);
    assert(b.drop_first() =~= h.drop_first() + body);
    lemma_arg_value_prefix(arg_info(s.len()), h.drop_first(), body);
    assert(b.skip(h.len() as int) =~= body);
}

/// The encodings of the entries of `s` followed by a break byte read as
/// key-value pairs up to a break, taking exactly their bytes.
proof fn lemma_pairs_of_entries<C, K: Encode<C>, V: Encode<C>>(s: Seq<(K, V)>)
    requires
        entries_wellformed::<C, K, V>(s),
    ensures
        pairs_result(concat_entries::<C, K, V>(s) + seq![0xffu8]) == Ok::<nat, Error>(
            concat_entries::<C, K, V>(s).len() + 1,
        ),
    decreases s.len(),
{
    if s.len() == 0 {
        assert(concat_entries::<C, K, V>(s) + seq![0xffu8] =~= seq![0xffu8]);
    } else {
        let k = <K as Encode<C>>::encoding(&s[0].0);
        let v = <V as Encode<C>>::encoding(&s[0].1);
        let rest = s.drop_first();
        lemma_entries_front::<C, K, V>(s);
        assert(forall|i: int| 0 <= i < rest.len() ==> rest[i] == s[i + 1]);
        assert(wellformed(k) && wellformed(v)) by {
            assert(s[0] == s[0]);
        }
        lemma_pairs_of_entries::<C, K, V>(rest);
        let tail = concat_entries::<C, K, V>(rest) + seq![0xffu8];
        let all = concat_entries::<C, K, V>(s) + seq![0xffu8];
        assert(all =~= k + v + tail);
        lemma_two_items(k, v, tail);
        assert(all.skip((k.len() + v.len()) as int) =~= tail);
    }
}

/// An indefinite-length map of well-formed keys and values is a well-formed
/// item.
pub proof fn law_indefinite_map_wellformed<C, K: Encode<C>, V: Encode<C>>(s: Seq<(K, V)>)
    requires
        entries_wellformed::<C, K, V>(s),
    ensures
        wellformed(seq![0xbfu8] + concat_entries::<C, K, V>(s) + seq![0xffu8]),
{
    lemma_pairs_of_entries::<C, K, V>(s);
    let b = seq![0xbfu8] + concat_entries::<C, K, V>(s) + seq![0xffu8];
    assert(b.drop_first() =~= concat_entries::<C, K, V>(s) + seq![0xffu8]);
}

/// The number of a variant followed by its well-formed payload, as `Result`
/// encodes, is a well-formed item.
pub proof fn law_variant_wellformed(index: u64, payload: Seq<u8>)
    requires
        wellformed(payload),
    ensures
        wellformed(variant_encoding(index as nat, payload)),
{
    let h = head(ARRAY, 2);
    let x = head(UNSIGNED, index as nat);
    law_int_wellformed(index as int);
    lemma_head_arg(ARRAY, 2);
    let body = x + payload;
    let b = variant_encoding(index as nat, payload);
    assert(b =~= h + body);
    lemma_two_items(x, payload, Seq::empty());
    assert(body + Seq::<u8>::empty() =~= body);
    assert(b[0] == h[0]);
    assert(b.drop_first() =~= h.drop_first() + body);
    lemma_arg_value_prefix(arg_info(2), h.drop_first(), body);
    assert(b.skip(h.len() as int) =~= body);
}

/// What an `ArrayIter` writes is a well-formed item when its items are,
/// unless its size hint claims an exact number of items that is wrong.
pub proof fn law_hinted_array_wellformed<C, T: Encode<C>>(low: usize, up: Option<usize>, s: Seq<T>)
    requires
        exact_hint(low, up) ==> low == s.len(),
        forall|i: int| 0 <= i < s.len() ==> wellformed(#[trigger] <T as Encode<C>>::encoding(&s[i])),
    ensures
        wellformed(hinted_array_encoding::<C, T>(low, up, s)),
{
    if exact_hint(low, up) {
        law_array_wellformed::<C, T>(s);
    } else {
        law_indefinite_array_wellformed::<C, T>(s);
    }
}

/// What a `MapIter` writes is a well-formed item when its keys and values
/// are, unless its size hint claims an exact number of entries that is wrong.
pub proof fn law_hinted_map_wellformed<C, K: Encode<C>, V: Encode<C>>(
    low: usize,
    up: Option<usize>,
    s: Seq<(K, V)>,
)
    requires
        exact_hint(low, up) ==> low == s.len(),
        entries_wellformed::<C, K, V>(s),
    ensures
        wellformed(hinted_map_encoding::<C, K, V>(low, up, s)),
{
    if exact_hint(low, up) {
        law_map_wellformed::<C, K, V>(s);
    } else {
        law_indefinite_map_wellformed::<C, K, V>(s);
    }
}

/// A vector encodes so that decoding starts with an array head announcing
/// as many items as the vector holds, followed by the encodings of its items
/// in order; when each item is one well-formed item, so is the whole.
pub proof fn law_vec_decodes<C, T: Encode<C>>(v: Vec<T>, more: Seq<u8>)
    requires
        v@.len() <= u64::MAX,
    ensures
        ({
            let b = <Vec<T> as Encode<C>>::encoding(&v);
            let h = head(ARRAY, v@.len()).len();
            &&& container_item(b + more, ARRAY) == Ok::<(Option<nat>, nat), Error>(
                (Some(v@.len()), h),
            )
            &&& b.skip(h as int) == concat_encodings::<C, T>(v@)
            &&& (forall|i: int| 0 <= i < v@.len() ==> wellformed(#[trigger] <T as Encode<C>>::encoding(&v@[i])))
                ==> wellformed(b)
        }),
{
    let b = <Vec<T> as Encode<C>>::encoding(&v);
    let hd = head(ARRAY, v@.len());
    law_container_roundtrip(ARRAY, v@.len() as u64, concat_encodings::<C, T>(v@) + more);
    assert(hd + (concat_encodings::<C, T>(v@) + more) =~= b + more);
    assert(b.skip(hd.len() as int) =~= concat_encodings::<C, T>(v@));
    if forall|i: int| 0 <= i < v@.len() ==> wellformed(#[trigger] <T as Encode<C>>::encoding(&v@[i])) {
        law_array_wellformed::<C, T>(v@);
    }
}

} // verus!
