//! Well-formed CBOR data items, and skipping over them.
//!
//! A data item is well-formed when its heads, lengths and nesting follow the
//! CBOR grammar: definite-length strings hold as many bytes as their head
//! says, arrays and maps hold as many items (or pairs of items) as their head
//! says, indefinite-length arrays and maps hold items up to a "break" byte,
//! indefinite-length strings hold definite-length chunks of their own major
//! type up to a break byte, and a tag is followed by one item.
//!
//! This grammar is RFC 8949's with one difference: a simple value in its
//! two-byte form (initial byte `0xf8`) may carry any byte, also one below
//! `0x20`, which the RFC does not count as well-formed.
use super::{head_item, type_of, Error};
use crate::head::{arg_value, info_width};
use vstd::prelude::*;

verus! {

/// `r` with `c` added to its length when it is a length.
pub open spec fn after(r: Result<nat, Error>, c: nat) -> Result<nat, Error> {
    match r {
        Ok(n) => Ok(n + c),
        Err(e) => Err(e),
    }
}

/// The length of the well-formed data item at the start of `s`, or the
/// first error found in it.
pub open spec fn item_result(s: Seq<u8>) -> Result<nat, Error>
    decreases s.len(), 0nat,
{
    if s.len() == 0 {
        Err(Error::EndOfInput)
    } else {
        let b = s[0];
        let major = b / 32;
        let info = (b % 32) as nat;
        let h = 1 + info_width(info);
        if major == 7 {
            if info > 27 {
                Err(Error::TypeMismatch(type_of(b)))
            } else if s.len() < h {
                Err(Error::EndOfInput)
            } else {
                Ok(h)
            }
        } else if info == 31 {
            if major == 2 || major == 3 {
                after(chunks_result(s.drop_first(), major), 1)
            } else if major == 4 {
                after(until_break_result(s.drop_first()), 1)
            } else if major == 5 {
                after(pairs_result(s.drop_first()), 1)
            } else {
                Err(Error::TypeMismatch(type_of(b)))
            }
        } else if info > 27 {
            Err(Error::TypeMismatch(type_of(b)))
        } else if s.len() < h {
            Err(Error::EndOfInput)
        } else {
            let arg = arg_value(info, s.drop_first());
            if major <= 1 {
                Ok(h)
            } else if major <= 3 {
                if s.len() < h + arg {
                    Err(Error::EndOfInput)
                } else {
                    Ok(h + arg)
                }
            } else if major == 4 {
                after(items_result(s.skip(h as int), arg), h)
            } else if major == 5 {
                after(items_result(s.skip(h as int), 2 * arg), h)
            } else {
                after(items_result(s.skip(h as int), 1), h)
            }
        }
    }
}

/// The length of `k` well-formed data items one after the other at the
/// start of `s`, or the first error found in them.
pub open spec fn items_result(s: Seq<u8>, k: nat) -> Result<nat, Error>
    decreases s.len(), k + 1,
{
    if k == 0 {
        Ok(0)
    } else {
        match item_result(s) {
            Ok(n) => if 0 < n <= s.len() {
                after(items_result(s.skip(n as int), (k - 1) as nat), n)
            } else {
                Err(Error::EndOfInput)
            },
            Err(e) => Err(e),
        }
    }
}

/// The length of the well-formed data items up to and including a break
/// byte at the start of `s`, or the first error found in them.
pub open spec fn until_break_result(s: Seq<u8>) -> Result<nat, Error>
    decreases s.len(), 1nat,
{
    if s.len() == 0 {
        Err(Error::EndOfInput)
    } else if s[0] == 0xff {
        Ok(1)
    } else {
        match item_result(s) {
            Ok(n) => if 0 < n <= s.len() {
                after(until_break_result(s.skip(n as int)), n)
            } else {
                Err(Error::EndOfInput)
            },
            Err(e) => Err(e),
        }
    }
}

/// The length of the well-formed key-value pairs of data items up to and
/// including a break byte at the start of `s`, or the first error found in
/// them.
pub open spec fn pairs_result(s: Seq<u8>) -> Result<nat, Error>
    decreases s.len(), 4nat,
{
    if s.len() == 0 {
        Err(Error::EndOfInput)
    } else if s[0] == 0xff {
        Ok(1)
    } else {
        match items_result(s, 2) {
            Ok(n) => if 0 < n <= s.len() {
                after(pairs_result(s.skip(n as int)), n)
            } else {
                Err(Error::EndOfInput)
            },
            Err(e) => Err(e),
        }
    }
}

/// The length of the definite-length strings of major type `major` up to and
/// including a break byte at the start of `s`, or the first error found in
/// them.
pub open spec fn chunks_result(s: Seq<u8>, major: u8) -> Result<nat, Error>
    decreases s.len(),
{
    if s.len() == 0 {
        Err(Error::EndOfInput)
    } else if s[0] == 0xff {
        Ok(1)
    } else {
        match head_item(s, major) {
            Ok((len, h)) => if s.len() < h + len {
                Err(Error::EndOfInput)
            } else if 0 < h + len {
                after(chunks_result(s.skip((h + len) as int), major), h + len)
            } else {
                Err(Error::EndOfInput)
            },
            Err(e) => Err(e),
        }
    }
}

/// Lengths of well-formed items never reach past the input, and an item
/// takes at least one byte.
pub proof fn lemma_item_result_bounds(s: Seq<u8>)
    ensures
        item_result(s) matches Ok(n) ==> 0 < n <= s.len(),
    decreases s.len(), 0nat,
{
    if s.len() > 0 {
        let b = s[0];
        let major = b / 32;
        let info = (b % 32) as nat;
        let h = 1 + info_width(info);
        if major != 7 && info == 31 {
            if major == 2 || major == 3 {
                lemma_chunks_result_bounds(s.drop_first(), major);
            } else if major == 4 {
                lemma_until_break_result_bounds(s.drop_first());
            } else if major == 5 {
                lemma_pairs_result_bounds(s.drop_first());
            }
        } else if major != 7 && info <= 27 && s.len() >= h {
            let arg = arg_value(info, s.drop_first());
            if major == 4 {
                lemma_items_result_bounds(s.skip(h as int), arg);
            } else if major == 5 {
                lemma_items_result_bounds(s.skip(h as int), 2 * arg);
            } else if major == 6 {
                lemma_items_result_bounds(s.skip(h as int), 1);
            }
        }
    }
}

pub proof fn lemma_items_result_bounds(s: Seq<u8>, k: nat)
    ensures
        items_result(s, k) matches Ok(n) ==> n <= s.len(),
    decreases s.len(), k + 1,
{
    if k > 0 {
        lemma_item_result_bounds(s);
        if let Ok(n) = item_result(s) {
            lemma_items_result_bounds(s.skip(n as int), (k - 1) as nat);
        }
    }
}

pub proof fn lemma_until_break_result_bounds(s: Seq<u8>)
    ensures
        until_break_result(s) matches Ok(n) ==> 0 < n <= s.len(),
    decreases s.len(), 1nat,
{
    if s.len() > 0 && s[0] != 0xff {
        lemma_item_result_bounds(s);
        if let Ok(n) = item_result(s) {
            lemma_until_break_result_bounds(s.skip(n as int));
        }
    }
}

pub proof fn lemma_pairs_result_bounds(s: Seq<u8>)
    ensures
        pairs_result(s) matches Ok(n) ==> 0 < n <= s.len(),
    decreases s.len(), 4nat,
{
    if s.len() > 0 && s[0] != 0xff {
        lemma_items_result_bounds(s, 2);
        if let Ok(n) = items_result(s, 2) {
            if 0 < n <= s.len() {
                lemma_pairs_result_bounds(s.skip(n as int));
            }
        }
    }
}

pub proof fn lemma_chunks_result_bounds(s: Seq<u8>, major: u8)
    ensures
        chunks_result(s, major) matches Ok(n) ==> 0 < n <= s.len(),
    decreases s.len(),
{
    if s.len() > 0 && s[0] != 0xff {
        if let Ok((len, h)) = head_item(s, major) {
            if s.len() >= h + len && 0 < h + len {
                lemma_chunks_result_bounds(s.skip((h + len) as int), major);
            }
        }
    }
}

/// A piece of work still to do while reading past a data item.
#[derive(Clone, Copy)]
enum Frame {
    /// That many more items.
    Items(u128),
    /// Items up to a break byte.
    UntilBreak,
    /// Key-value pairs of items up to a break byte.
    Pairs,
    /// Definite-length strings of the given major type up to a break byte.
    Chunks(u8),
}

/// What the piece of work `f` reads at the start of `s`.
spec fn frame_result(s: Seq<u8>, f: Frame) -> Result<nat, Error> {
    match f {
        Frame::Items(k) => items_result(s, k as nat),
        Frame::UntilBreak => until_break_result(s),
        Frame::Pairs => pairs_result(s),
        Frame::Chunks(m) => chunks_result(s, m),
    }
}

/// What the pieces of work `fs` read at the start of `s`, the last one
/// first.
spec fn stack_result(s: Seq<u8>, fs: Seq<Frame>) -> Result<nat, Error>
    decreases fs.len(),
{
    if fs.len() == 0 {
        Ok(0)
    } else {
        match frame_result(s, fs.last()) {
            Ok(n) => if n <= s.len() {
                after(stack_result(s.skip(n as int), fs.drop_last()), n)
            } else {
                Err(Error::EndOfInput)
            },
            Err(e) => Err(e),
        }
    }
}

proof fn lemma_frame_result_bounds(s: Seq<u8>, f: Frame)
    ensures
        frame_result(s, f) matches Ok(n) ==> n <= s.len(),
{
    match f {
        Frame::Items(k) => lemma_items_result_bounds(s, k as nat),
        Frame::UntilBreak => lemma_until_break_result_bounds(s),
        Frame::Pairs => lemma_pairs_result_bounds(s),
        Frame::Chunks(m) => lemma_chunks_result_bounds(s, m),
    }
}

proof fn lemma_stack_result_bounds(s: Seq<u8>, fs: Seq<Frame>)
    ensures
        stack_result(s, fs) matches Ok(n) ==> n <= s.len(),
    decreases fs.len(),
{
    if fs.len() > 0 {
        lemma_frame_result_bounds(s, fs.last());
        if let Ok(n) = frame_result(s, fs.last()) {
            lemma_stack_result_bounds(s.skip(n as int), fs.drop_last());
        }
    }
}

/// Reading the pieces of work `fs + gs` reads `gs` first, then `fs`.
#[verifier::spinoff_prover]
proof fn lemma_stack_concat(s: Seq<u8>, fs: Seq<Frame>, gs: Seq<Frame>)
    ensures
        stack_result(s, fs + gs) == (match stack_result(s, gs) {
            Ok(n) => after(stack_result(s.skip(n as int), fs), n),
            Err(e) => Err(e),
        }),
    decreases gs.len(),
{
    if gs.len() == 0 {
        assert(fs + gs =~= fs);
        assert(s.skip(0) =~= s);
    } else {
        let all = fs + gs;
        assert(all.last() == gs.last());
        assert(all.drop_last() =~= fs + gs.drop_last());
        lemma_frame_result_bounds(s, gs.last());
        if let Ok(n) = frame_result(s, gs.last()) {
            let t = s.skip(n as int);
            lemma_stack_concat(t, fs, gs.drop_last());
            lemma_stack_result_bounds(t, gs.drop_last());
            if let Ok(m) = stack_result(t, gs.drop_last()) {
                assert(t.skip(m as int) =~= s.skip((n + m) as int));
            }
        }
    }
}

/// Replacing the piece of work `f` on top of `fs` by `gs`, after reading
/// `c` bytes, reads the same.
#[verifier::spinoff_prover]
proof fn lemma_stack_step(r: Seq<u8>, fs: Seq<Frame>, f: Frame, c: nat, gs: Seq<Frame>)
    requires
        c <= r.len(),
        frame_result(r, f) == after(stack_result(r.skip(c as int), gs), c),
    ensures
        stack_result(r, fs.push(f)) == after(stack_result(r.skip(c as int), fs + gs), c),
{
    let t = r.skip(c as int);
    assert(fs.push(f).last() == f);
    assert(fs.push(f).drop_last() =~= fs);
    lemma_stack_concat(t, fs, gs);
    lemma_stack_result_bounds(t, gs);
    if let Ok(m) = stack_result(t, gs) {
        assert(t.skip(m as int) =~= r.skip((m + c) as int));
    }
}

/// What an optional piece of work reads at the start of `s`.
spec fn opt_stack(p: Option<Frame>) -> Seq<Frame> {
    match p {
        Some(f) => seq![f],
        None => seq![],
    }
}

/// The head of major type `major` at `pos` in `buf`: its argument and its
/// length.
fn head_at(buf: &[u8], pos: usize, major: u8) -> (r: Result<(u64, usize), Error>)
    requires
        pos <= buf@.len(),
    ensures
        match head_item(buf@.skip(pos as int), major) {
            Ok((v, n)) => r == Ok::<(u64, usize), Error>((v as u64, n as usize)) && v <= u64::MAX
                && 0 < n <= buf@.len() - pos,
            Err(e) => r == Err::<(u64, usize), Error>(e),
        },
{
    let ghost s = buf@.skip(pos as int);
    if pos >= buf.len() {
        return Err(Error::EndOfInput);
    }
    let b = buf[pos];
    assert(s[0] == b);
    let info = b % 32;
    if b / 32 != major || info > 27 {
        return Err(Error::TypeMismatch(super::type_of_byte(b)));
    }
    let w = width(info);
    if buf.len() - pos - 1 < w {
        return Err(Error::EndOfInput);
    }
    let v = if info < 24 {
        info as u64
    } else {
        crate::head::read_be(buf, pos + 1, w)
    };
    assert(s.drop_first().take(w as int) =~= buf@.subrange(pos + 1, pos + 1 + w));
    Ok((v, 1 + w))
}

/// How many argument bytes follow an initial byte with additional
/// information `info`.
fn width(info: u8) -> (w: usize)
    requires
        info <= 27,
    ensures
        w == info_width(info as nat),
        w <= 8,
{
    if info < 24 {
        0
    } else if info == 24 {
        1
    } else if info == 25 {
        2
    } else if info == 26 {
        4
    } else {
        8
    }
}

/// Reads the start of the data item at `pos` in `buf`: how many bytes it
/// takes before what is left to read of it, and what that is.
fn begin_item(buf: &[u8], pos: usize) -> (r: Result<(usize, Option<Frame>), Error>)
    requires
        pos <= buf@.len(),
    ensures
        match r {
            Ok((c, p)) => 0 < c <= buf@.len() - pos && item_result(buf@.skip(pos as int)) == after(
                stack_result(buf@.skip(pos as int).skip(c as int), opt_stack(p)),
                c as nat,
            ),
            Err(e) => item_result(buf@.skip(pos as int)) == Err::<nat, Error>(e),
        },
{
    let ghost s = buf@.skip(pos as int);
    if pos >= buf.len() {
        return Err(Error::EndOfInput);
    }
    let b = buf[pos];
    assert(s[0] == b);
    let major = b / 32;
    let info = b % 32;
    proof {
        reveal_with_fuel(stack_result, 2);
        assert(s.skip(1) =~= s.drop_first());
    }
    if major == 7 {
        if info > 27 {
            return Err(Error::TypeMismatch(super::type_of_byte(b)));
        }
        let h = 1 + width(info);
        if buf.len() - pos < h {
            return Err(Error::EndOfInput);
        }
        return Ok((h, None));
    }
    if info == 31 {
        if major == 2 || major == 3 {
            proof {
                lemma_chunks_result_bounds(s.drop_first(), major);
            }
            return Ok((1, Some(Frame::Chunks(major))));
        } else if major == 4 {
            proof {
                lemma_until_break_result_bounds(s.drop_first());
            }
            return Ok((1, Some(Frame::UntilBreak)));
        } else if major == 5 {
            proof {
                lemma_pairs_result_bounds(s.drop_first());
            }
            return Ok((1, Some(Frame::Pairs)));
        } else {
            return Err(Error::TypeMismatch(super::type_of_byte(b)));
        }
    }
    if info > 27 {
        return Err(Error::TypeMismatch(super::type_of_byte(b)));
    }
    let (arg, h) = head_at(buf, pos, major)?;
    if major <= 1 {
        return Ok((h, None));
    }
    if major <= 3 {
        if ((buf.len() - pos - h) as u64) < arg {
            return Err(Error::EndOfInput);
        }
        return Ok((h + arg as usize, None));
    }
    proof {
        lemma_items_result_bounds(s.skip(h as int), arg as nat);
        lemma_items_result_bounds(s.skip(h as int), 2 * arg as nat);
        lemma_items_result_bounds(s.skip(h as int), 1);
    }
    if major == 4 {
        Ok((h, Some(Frame::Items(arg as u128))))
    } else if major == 5 {
        Ok((h, Some(Frame::Items(2 * arg as u128))))
    } else {
        Ok((h, Some(Frame::Items(1))))
    }
}

/// What reading from `p` to `q` with the pieces of work going from `before`
/// to `after_stack` keeps: the same reading of the rest.
spec fn step_ok(buf: Seq<u8>, p: nat, before: Seq<Frame>, q: nat, after_stack: Seq<Frame>) -> bool {
    &&& p <= q <= buf.len()
    &&& stack_result(buf.skip(p as int), before) == after(
        stack_result(buf.skip(q as int), after_stack),
        (q - p) as nat,
    )
    &&& (q > p || after_stack.len() < before.len())
}

/// Reading `first` at the start of `t`, then the pieces of work `rest`.
spec fn then_stack(t: Seq<u8>, first: Result<nat, Error>, rest: Seq<Frame>) -> Result<nat, Error> {
    match first {
        Ok(n) => if n <= t.len() {
            after(stack_result(t.skip(n as int), rest), n)
        } else {
            Err(Error::EndOfInput)
        },
        Err(e) => Err(e),
    }
}

/// Begins the item at `p` and pushes `front` and then what is left of the
/// item onto `stack`.
#[verifier::spinoff_prover]
#[verifier::rlimit(40)]
fn begin_and_push(
    buf: &[u8],
    p: usize,
    stack: &mut Vec<Frame>,
    top: Frame,
    front: Vec<Frame>,
) -> (r: Result<usize, Error>)
    requires
        p <= buf@.len(),
        frame_result(buf@.skip(p as int), top) == then_stack(
            buf@.skip(p as int),
            item_result(buf@.skip(p as int)),
            front@,
        ),
    ensures
        match r {
            Ok(q) => step_ok(buf@, p as nat, old(stack)@.push(top), q as nat, final(stack)@),
            Err(e) => stack_result(buf@.skip(p as int), old(stack)@.push(top)) == Err::<nat, Error>(e),
        },
{
    let ghost r0 = buf@.skip(p as int);
    let ghost fs = stack@;
    proof {
        assert(fs.push(top).last() == top);
        assert(fs.push(top).drop_last() =~= fs);
    }
    let (c, next) = match begin_item(buf, p) {
        Ok(x) => x,
        Err(e) => {
            return Err(e);
        },
    };
    let mut i: usize = 0;
    while i < front.len()
        invariant
            i <= front@.len(),
            stack@ == fs + front@.take(i as int),
        decreases front@.len() - i,
    {
        stack.push(front[i]);
        i = i + 1;
        assert(stack@ =~= fs + front@.take(i as int));
    }
    assert(front@.take(front@.len() as int) =~= front@);
    if let Some(f) = next {
        stack.push(f);
    }
    proof {
        let gs = front@ + opt_stack(next);
        let t = r0.skip(c as int);
        lemma_stack_concat(t, front@, opt_stack(next));
        lemma_stack_result_bounds(t, opt_stack(next));
        lemma_item_result_bounds(r0);
        if let Ok(m) = stack_result(t, opt_stack(next)) {
            assert(t.skip(m as int) =~= r0.skip((c + m) as int));
        }
        lemma_stack_step(r0, fs, top, c as nat, gs);
        assert(stack@ =~= fs + gs);
        assert(r0.skip(c as int) =~= buf@.skip((p + c) as int));
    }
    let len = buf.len();
    assert(p + c <= len);
    Ok(p + c)
}

/// One piece of work reads what its frame reads.
proof fn lemma_stack_one(t: Seq<u8>, f: Frame)
    ensures
        stack_result(t, seq![f]) == frame_result(t, f),
{
    let fs = seq![f];
    assert(fs.last() == f);
    assert(fs.drop_last() =~= Seq::<Frame>::empty());
    lemma_frame_result_bounds(t, f);
    if let Ok(n) = frame_result(t, f) {
        assert(stack_result(t.skip(n as int), Seq::<Frame>::empty()) == Ok::<nat, Error>(0));
    }
}

/// Two pieces of work read the last one first, then the other.
proof fn lemma_stack_two(t: Seq<u8>, f1: Frame, f2: Frame)
    ensures
        stack_result(t, seq![f1, f2]) == then_stack(t, frame_result(t, f2), seq![f1]),
{
    let fs = seq![f1, f2];
    assert(fs.last() == f2);
    assert(fs.drop_last() =~= seq![f1]);
}

/// Past the first of `k > 0` items come `k - 1` more.
#[verifier::spinoff_prover]
proof fn lemma_items_then(r0: Seq<u8>, k: nat)
    requires
        0 < k <= u128::MAX,
    ensures
        items_result(r0, k) == then_stack(r0, item_result(r0), seq![Frame::Items((k - 1) as u128)]),
{
    lemma_item_result_bounds(r0);
    let j = (k - 1) as u128;
    assert(j as nat == k - 1);
    if let Ok(n) = item_result(r0) {
        let t = r0.skip(n as int);
        lemma_stack_one(t, Frame::Items(j));
        assert(frame_result(t, Frame::Items(j)) == items_result(t, (k - 1) as nat));
    }
}

/// Past a byte other than break, items up to a break read one item, then
/// more items up to a break.
#[verifier::spinoff_prover]
proof fn lemma_until_break_then(r0: Seq<u8>)
    requires
        r0.len() > 0,
        r0[0] != 0xff,
    ensures
        until_break_result(r0) == then_stack(r0, item_result(r0), seq![Frame::UntilBreak]),
{
    lemma_item_result_bounds(r0);
    if let Ok(n) = item_result(r0) {
        lemma_stack_one(r0.skip(n as int), Frame::UntilBreak);
    }
}
/// Reads the break byte at `p` that ends the piece of work `top`.
#[verifier::spinoff_prover]
proof fn lemma_break_step(buf: Seq<u8>, p: nat, fs: Seq<Frame>, top: Frame)
    requires
        p < buf.len(),
        frame_result(buf.skip(p as int), top) == Ok::<nat, Error>(1),
    ensures
        step_ok(buf, p, fs.push(top), p + 1, fs),
{
    let r0 = buf.skip(p as int);
    assert(r0.skip(1) =~= buf.skip((p + 1) as int));
    lemma_stack_step(r0, fs, top, 1, seq![]);
    assert(fs + seq![] =~= fs);
    assert(r0.skip(1).skip(0) =~= r0.skip(1));
}

/// Does one piece of work of reading past a data item.
#[verifier::spinoff_prover]
fn step(buf: &[u8], p: usize, stack: &mut Vec<Frame>) -> (r: Result<usize, Error>)
    requires
        p <= buf@.len(),
        old(stack)@.len() > 0,
    ensures
        match r {
            Ok(q) => step_ok(buf@, p as nat, old(stack)@, q as nat, final(stack)@),
            Err(e) => stack_result(buf@.skip(p as int), old(stack)@) == Err::<nat, Error>(e),
        },
{
    let ghost whole = stack@;
    let top = stack.pop().unwrap();
    assert(whole =~= stack@.push(top));
    match top {
        Frame::Items(k) => step_items(buf, p, stack, k),
        Frame::Chunks(m) => step_chunks(buf, p, stack, m),
        _ => step_until_break(buf, p, stack, top),
    }
}

/// Reads past one of `k` items, or nothing when `k` is 0.
#[verifier::spinoff_prover]
fn step_items(buf: &[u8], p: usize, stack: &mut Vec<Frame>, k: u128) -> (r: Result<usize, Error>)
    requires
        p <= buf@.len(),
    ensures
        match r {
            Ok(q) => step_ok(buf@, p as nat, old(stack)@.push(Frame::Items(k)), q as nat, final(stack)@),
            Err(e) => stack_result(buf@.skip(p as int), old(stack)@.push(Frame::Items(k))) == Err::<
                nat,
                Error,
            >(e),
        },
{
    let ghost r0 = buf@.skip(p as int);
    let ghost fs = stack@;
    let top = Frame::Items(k);
    if k == 0 {
        proof {
            assert(r0.skip(0) =~= r0);
            lemma_stack_step(r0, fs, top, 0, seq![]);
            assert(fs + seq![] =~= fs);
        }
        Ok(p)
    } else {
        let mut front = Vec::new();
        front.push(Frame::Items(k - 1));
        proof {
            lemma_items_then(r0, k as nat);
            assert(front@ =~= seq![Frame::Items((k - 1) as u128)]);
        }
        begin_and_push(buf, p, stack, top, front)
    }
}

/// Reads past one item, or the break byte, of a piece of work that ends
/// with a break byte.
#[verifier::spinoff_prover]
fn step_until_break(buf: &[u8], p: usize, stack: &mut Vec<Frame>, top: Frame) -> (r: Result<usize, Error>)
    requires
        p <= buf@.len(),
        top == Frame::UntilBreak || top == Frame::Pairs,
    ensures
        match r {
            Ok(q) => step_ok(buf@, p as nat, old(stack)@.push(top), q as nat, final(stack)@),
            Err(e) => stack_result(buf@.skip(p as int), old(stack)@.push(top)) == Err::<nat, Error>(e),
        },
{
    let ghost r0 = buf@.skip(p as int);
    let ghost fs = stack@;
    proof {
        assert(fs.push(top).last() == top);
        assert(fs.push(top).drop_last() =~= fs);
    }
    if p >= buf.len() {
        return Err(Error::EndOfInput);
    }
    proof {
        assert(r0[0] == buf@[p as int]);
    }
    if buf[p] == 0xff {
        proof {
            lemma_break_step(buf@, p as nat, fs, top);
        }
        return Ok(p + 1);
    }
    let mut front = Vec::new();
    match top {
        Frame::Pairs => {
            front.push(Frame::Pairs);
            front.push(Frame::Items(1));
            proof {
                lemma_pairs_then(r0);
                assert(front@ =~= seq![Frame::Pairs, Frame::Items(1)]);
            }
        },
        _ => {
            front.push(Frame::UntilBreak);
            proof {
                lemma_until_break_then(r0);
                assert(front@ =~= seq![Frame::UntilBreak]);
            }
        },
    }
    begin_and_push(buf, p, stack, top, front)
}

/// Reads past one chunk, or the break byte, of an indefinite-length string
/// of major type `m`.
#[verifier::spinoff_prover]
fn step_chunks(buf: &[u8], p: usize, stack: &mut Vec<Frame>, m: u8) -> (r: Result<usize, Error>)
    requires
        p <= buf@.len(),
    ensures
        match r {
            Ok(q) => step_ok(buf@, p as nat, old(stack)@.push(Frame::Chunks(m)), q as nat, final(stack)@),
            Err(e) => stack_result(buf@.skip(p as int), old(stack)@.push(Frame::Chunks(m))) == Err::<
                nat,
                Error,
            >(e),
        },
{
    let ghost r0 = buf@.skip(p as int);
    let ghost fs = stack@;
    let top = Frame::Chunks(m);
    proof {
        assert(fs.push(top).last() == top);
        assert(fs.push(top).drop_last() =~= fs);
    }
    if p >= buf.len() {
        return Err(Error::EndOfInput);
    }
    proof {
        assert(r0[0] == buf@[p as int]);
    }
    if buf[p] == 0xff {
        proof {
            lemma_break_step(buf@, p as nat, fs, top);
        }
        return Ok(p + 1);
    }
    let (len, h) = match head_at(buf, p, m) {
        Ok(x) => x,
        Err(e) => {
            return Err(e);
        },
    };
    if ((buf.len() - p - h) as u64) < len {
        return Err(Error::EndOfInput);
    }
    let c = h + len as usize;
    stack.push(Frame::Chunks(m));
    proof {
        let gs = seq![Frame::Chunks(m)];
        let t = r0.skip(c as int);
        lemma_stack_one(t, Frame::Chunks(m));
        lemma_chunks_result_bounds(t, m);
        lemma_stack_step(r0, fs, top, c as nat, gs);
        assert(stack@ =~= fs + gs);
        assert(r0.skip(c as int) =~= buf@.skip((p + c) as int));
    }
    Ok(p + c)
}

/// Past a byte other than break, key-value pairs read a key item, then a
/// value item, then more pairs.
#[verifier::spinoff_prover]
proof fn lemma_pairs_then(r0: Seq<u8>)
    requires
        r0.len() > 0,
        r0[0] != 0xff,
    ensures
        pairs_result(r0) == then_stack(r0, item_result(r0), seq![Frame::Pairs, Frame::Items(1)]),
{
    lemma_item_result_bounds(r0);
    lemma_items_then(r0, 2);
    if let Ok(n) = item_result(r0) {
        lemma_pairs_then_past(r0, n);
    }
}

/// Past a first item of `n` bytes, key-value pairs read the value item, then
/// more pairs.
#[verifier::spinoff_prover]
proof fn lemma_pairs_then_past(r0: Seq<u8>, n: nat)
    requires
        r0.len() > 0,
        r0[0] != 0xff,
        0 < n <= r0.len(),
        items_result(r0, 2) == then_stack(r0, Ok(n), seq![Frame::Items(1)]),
    ensures
        pairs_result(r0) == after(stack_result(r0.skip(n as int), seq![Frame::Pairs, Frame::Items(1)]), n),
{
    let t = r0.skip(n as int);
    lemma_stack_one(t, Frame::Items(1));
    lemma_stack_two(t, Frame::Pairs, Frame::Items(1));
    lemma_items_result_bounds(t, 1);
    assert(items_result(r0, 2) == after(items_result(t, 1), n));
    if let Ok(m) = items_result(t, 1) {
        let u = t.skip(m as int);
        lemma_stack_one(u, Frame::Pairs);
        assert(u =~= r0.skip((n + m) as int));
        lemma_pairs_result_bounds(u);
    }
}

/// The length of the well-formed data item at `start` in `buf`, or the first
/// error found in it.
#[verifier::spinoff_prover]
pub fn item_len_at(buf: &[u8], start: usize) -> (r: Result<usize, Error>)
    requires
        start <= buf@.len(),
    ensures
        match item_result(buf@.skip(start as int)) {
            Ok(n) => r == Ok::<usize, Error>(n as usize) && n <= buf@.len() - start,
            Err(e) => r == Err::<usize, Error>(e),
        },
{
    let ghost s0 = buf@.skip(start as int);
    let mut stack: Vec<Frame> = Vec::new();
    stack.push(Frame::Items(1));
    let mut p = start;
    proof {
        reveal_with_fuel(items_result, 2);
        reveal_with_fuel(stack_result, 2);
        lemma_item_result_bounds(s0);
        assert(s0.skip(0) =~= s0);
        if let Ok(n) = item_result(s0) {
            assert(s0.skip(n as int).len() == s0.len() - n);
            assert(s0.skip(n as int).skip(0) =~= s0.skip(n as int));
        }
    }
    loop
        invariant
            start <= p <= buf@.len(),
            item_result(s0) == after(stack_result(buf@.skip(p as int), stack@), (p - start) as nat),
            s0 == buf@.skip(start as int),
        decreases buf@.len() - p, stack@.len(),
    {
        if stack.len() == 0 {
            proof {
                lemma_item_result_bounds(s0);
            }
            return Ok(p - start);
        }
        p = step(buf, p, &mut stack)?;
    }
}

/// Bytes after a well-formed item do not change how it reads.
#[verifier::spinoff_prover]
pub proof fn lemma_item_result_prefix(s: Seq<u8>, more: Seq<u8>)
    ensures
        item_result(s) is Ok ==> item_result(s + more) == item_result(s),
    decreases s.len(), 0nat,
{
    if item_result(s) is Ok {
        let t = s + more;
        let b = s[0];
        assert(t[0] == b);
        let major = b / 32;
        let info = (b % 32) as nat;
        let h = 1 + info_width(info);
        assert(t.drop_first() =~= s.drop_first() + more);
        if major != 7 && info == 31 {
            if major == 2 || major == 3 {
                lemma_chunks_result_prefix(s.drop_first(), more, major);
            } else if major == 4 {
                lemma_until_break_result_prefix(s.drop_first(), more);
            } else if major == 5 {
                lemma_pairs_result_prefix(s.drop_first(), more);
            }
        } else if major != 7 && info <= 27 {
            crate::head::lemma_arg_value_prefix(info, s.drop_first(), more);
            assert(t.skip(h as int) =~= s.skip(h as int) + more);
            let arg = arg_value(info, s.drop_first());
            if major == 4 {
                lemma_items_result_prefix(s.skip(h as int), more, arg);
            } else if major == 5 {
                lemma_items_result_prefix(s.skip(h as int), more, 2 * arg);
            } else if major == 6 {
                lemma_items_result_prefix(s.skip(h as int), more, 1);
            }
        }
    }
}

#[verifier::spinoff_prover]
pub proof fn lemma_items_result_prefix(s: Seq<u8>, more: Seq<u8>, k: nat)
    ensures
        items_result(s, k) is Ok ==> items_result(s + more, k) == items_result(s, k),
    decreases s.len(), k + 1,
{
    if k > 0 && items_result(s, k) is Ok {
        lemma_item_result_prefix(s, more);
        lemma_item_result_bounds(s);
        let n = item_result(s)->Ok_0;
        assert((s + more).skip(n as int) =~= s.skip(n as int) + more);
        lemma_items_result_prefix(s.skip(n as int), more, (k - 1) as nat);
    }
}

#[verifier::spinoff_prover]
pub proof fn lemma_until_break_result_prefix(s: Seq<u8>, more: Seq<u8>)
    ensures
        until_break_result(s) is Ok ==> until_break_result(s + more) == until_break_result(s),
    decreases s.len(), 1nat,
{
    if until_break_result(s) is Ok {
        assert((s + more)[0] == s[0]);
        if s[0] != 0xff {
            lemma_item_result_prefix(s, more);
            lemma_item_result_bounds(s);
            let n = item_result(s)->Ok_0;
            assert((s + more).skip(n as int) =~= s.skip(n as int) + more);
            lemma_until_break_result_prefix(s.skip(n as int), more);
        }
    }
}

#[verifier::spinoff_prover]
pub proof fn lemma_pairs_result_prefix(s: Seq<u8>, more: Seq<u8>)
    ensures
        pairs_result(s) is Ok ==> pairs_result(s + more) == pairs_result(s),
    decreases s.len(), 4nat,
{
    if pairs_result(s) is Ok {
        assert((s + more)[0] == s[0]);
        if s[0] != 0xff {
            lemma_items_result_prefix(s, more, 2);
            lemma_items_result_bounds(s, 2);
            let n = items_result(s, 2)->Ok_0;
            assert((s + more).skip(n as int) =~= s.skip(n as int) + more);
            lemma_pairs_result_prefix(s.skip(n as int), more);
        }
    }
}

#[verifier::spinoff_prover]
pub proof fn lemma_chunks_result_prefix(s: Seq<u8>, more: Seq<u8>, major: u8)
    ensures
        chunks_result(s, major) is Ok ==> chunks_result(s + more, major) == chunks_result(s, major),
    decreases s.len(),
{
    if chunks_result(s, major) is Ok {
        assert((s + more)[0] == s[0]);
        if s[0] != 0xff {
            let info = (s[0] % 32) as nat;
            assert((s + more).drop_first() =~= s.drop_first() + more);
            crate::head::lemma_arg_value_prefix(info, s.drop_first(), more);
            let (len, h) = head_item(s, major)->Ok_0;
            assert((s + more).skip((h + len) as int) =~= s.skip((h + len) as int) + more);
            lemma_chunks_result_prefix(s.skip((h + len) as int), more, major);
        }
    }
}

} // verus!
