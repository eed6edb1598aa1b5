//! The wire format of CBOR data item heads.
//!
//! Every CBOR data item starts with an initial byte whose upper three bits give
//! the major type and whose lower five bits (the "additional information")
//! either hold a small argument directly (0 ..= 23) or say how many big-endian
//! bytes of argument follow (24 => 1, 25 => 2, 26 => 4, 27 => 8).
use vstd::arithmetic::div_mod::{
    lemma_fundamental_div_mod_converse, lemma_mod_breakdown, lemma_small_mod,
};
use vstd::arithmetic::mul::lemma_mul_inequality;
use vstd::prelude::*;

verus! {

/// Major type of unsigned integers.
pub const UNSIGNED: u8 = 0;

/// Major type of negative integers.
pub const NEGATIVE: u8 = 1;

/// Major type of byte strings.
pub const BYTES: u8 = 2;

/// Major type of text strings.
pub const TEXT: u8 = 3;

/// Major type of arrays.
pub const ARRAY: u8 = 4;

/// Major type of maps.
pub const MAP: u8 = 5;

/// Major type of tags.
pub const TAGGED: u8 = 6;

/// Major type of simple values and floats.
pub const SIMPLE: u8 = 7;

/// `256^k`.
pub open spec fn pow256(k: nat) -> nat
    decreases k,
{
    if k == 0 {
        1
    } else {
        256 * pow256((k - 1) as nat)
    }
}

/// The `k` low-order bytes of `n` in big-endian order, i.e. `n mod 256^k`
/// written with exactly `k` digits in base 256.
pub open spec fn be_bytes(n: nat, k: nat) -> Seq<u8>
    decreases k,
{
    if k == 0 {
        seq![]
    } else {
        be_bytes(n / 256, (k - 1) as nat).push((n % 256) as u8)
    }
}

/// The number that the big-endian bytes `s` stand for.
pub open spec fn be_value(s: Seq<u8>) -> nat
    decreases s.len(),
{
    if s.len() == 0 {
        0
    } else {
        be_value(s.drop_last()) * 256 + s.last() as nat
    }
}

/// The additional information that a head with argument `n` carries.
pub open spec fn arg_info(n: nat) -> nat {
    if n < 24 {
        n
    } else if n < 0x100 {
        24
    } else if n < 0x1_0000 {
        25
    } else if n < 0x1_0000_0000 {
        26
    } else {
        27
    }
}

/// How many argument bytes follow an initial byte with additional
/// information `info`, for the values 0 ..= 27 that carry an argument.
pub open spec fn info_width(info: nat) -> nat {
    if info < 24 {
        0
    } else if info == 24 {
        1
    } else if info == 25 {
        2
    } else if info == 26 {
        4
    } else {
        8
    }
}

/// The initial byte with major type `major` and additional information `info`.
pub open spec fn initial_byte(major: u8, info: nat) -> u8 {
    (major * 32 + info) as u8
}

/// The shortest head of a data item with major type `major` and argument `n`.
pub open spec fn head(major: u8, n: nat) -> Seq<u8> {
    seq![initial_byte(major, arg_info(n))] + be_bytes(n, info_width(arg_info(n)))
}

/// The argument that the additional information `info` and the bytes that
/// follow the initial byte (`rest`) stand for.
pub open spec fn arg_value(info: nat, rest: Seq<u8>) -> nat {
    if info < 24 {
        info
    } else {
        be_value(rest.take(info_width(info) as int))
    }
}

pub proof fn lemma_be_bytes_len(n: nat, k: nat)
    ensures
        be_bytes(n, k).len() == k,
    decreases k,
{
    if k > 0 {
        lemma_be_bytes_len(n / 256, (k - 1) as nat);
    }
}

pub proof fn lemma_pow256_pos(k: nat)
    ensures
        pow256(k) > 0,
    decreases k,
{
    if k > 0 {
        lemma_pow256_pos((k - 1) as nat);
    }
}

pub proof fn lemma_pow256_mono(i: nat, j: nat)
    requires
        i <= j,
    ensures
        pow256(i) <= pow256(j),
    decreases j,
{
    if i < j {
        lemma_pow256_mono(i, (j - 1) as nat);
        lemma_pow256_pos((j - 1) as nat);
    }
}

pub proof fn lemma_pow256_values()
    ensures
        pow256(0) == 1,
        pow256(1) == 0x100,
        pow256(2) == 0x1_0000,
        pow256(4) == 0x1_0000_0000,
        pow256(8) == 0x1_0000_0000_0000_0000,
{
    reveal_with_fuel(pow256, 9);
}

/// Reading back `k` big-endian bytes gives `n mod 256^k`.
pub proof fn lemma_be_roundtrip(n: nat, k: nat)
    ensures
        be_value(be_bytes(n, k)) == n % pow256(k),
    decreases k,
{
    if k > 0 {
        let k1 = (k - 1) as nat;
        lemma_be_roundtrip(n / 256, k1);
        lemma_pow256_pos(k1);
        let s = be_bytes(n, k);
        assert(s.drop_last() =~= be_bytes(n / 256, k1));
        lemma_mod_breakdown(n as int, 256, pow256(k1) as int);
        assert(be_value(s) == (n / 256) % pow256(k1) * 256 + n % 256);
    }
}

/// Big-endian bytes stand for a number below `256^len`.
pub proof fn lemma_be_value_bound(s: Seq<u8>)
    ensures
        be_value(s) < pow256(s.len()),
    decreases s.len(),
{
    if s.len() > 0 {
        let t = s.drop_last();
        lemma_be_value_bound(t);
        lemma_mul_inequality(be_value(t) as int + 1, pow256(t.len()) as int, 256);
    }
}

/// Writing `n` with as many bytes as its head promises loses nothing.
pub proof fn lemma_arg_fits(n: nat)
    requires
        n < 0x1_0000_0000_0000_0000,
    ensures
        n % pow256(info_width(arg_info(n))) == n || arg_info(n) < 24,
        arg_info(n) <= 27,
        arg_info(n) >= 24 ==> info_width(arg_info(n)) > 0,
{
    lemma_pow256_values();
    let w = info_width(arg_info(n));
    if arg_info(n) >= 24 {
        lemma_small_mod(n, pow256(w));
    }
}

/// The head of argument `n` reads back as `n`, and its length is that of
/// its initial byte plus its argument bytes.
pub proof fn lemma_head_arg(major: u8, n: nat)
    requires
        major < 8,
        n < 0x1_0000_0000_0000_0000,
    ensures
        head(major, n).len() == 1 + info_width(arg_info(n)),
        head(major, n)[0] == initial_byte(major, arg_info(n)),
        head(major, n)[0] / 32 == major,
        head(major, n)[0] % 32 == arg_info(n),
        arg_value(arg_info(n), head(major, n).drop_first()) == n,
{
    let w = info_width(arg_info(n));
    lemma_be_bytes_len(n, w);
    lemma_be_roundtrip(n, w);
    lemma_arg_fits(n);
    let h = head(major, n);
    assert(h.drop_first() =~= be_bytes(n, w));
    assert(h.drop_first().take(w as int) =~= be_bytes(n, w));
}

/// What follows a head does not change how its argument reads.
pub proof fn lemma_arg_value_prefix(info: nat, rest: Seq<u8>, more: Seq<u8>)
    requires
        rest.len() >= info_width(info),
    ensures
        arg_value(info, rest + more) == arg_value(info, rest),
{
    assert((rest + more).take(info_width(info) as int) =~= rest.take(info_width(info) as int));
}

/// Appends the `k` low-order bytes of `n` in big-endian order.
pub fn push_be(buf: &mut Vec<u8>, n: u64, k: usize)
    requires
        k <= 8,
    ensures
        final(buf)@ == old(buf)@ + be_bytes(n as nat, k as nat),
    decreases k,
{
    if k > 0 {
        push_be(buf, n / 256, k - 1);
        buf.push((n % 256) as u8);
        assert(buf@ =~= old(buf)@ + be_bytes(n as nat, k as nat));
    }
}

/// Appends the shortest head with major type `major` and argument `n`.
pub fn push_head(buf: &mut Vec<u8>, major: u8, n: u64)
    requires
        major < 8,
    ensures
        final(buf)@ == old(buf)@ + head(major, n as nat),
{
    let ghost start = buf@;
    let base: u8 = major * 32;
    if n < 24 {
        buf.push(base + n as u8);
    } else if n < 0x100 {
        buf.push(base + 24);
        push_be(buf, n, 1);
    } else if n < 0x1_0000 {
        buf.push(base + 25);
        push_be(buf, n, 2);
    } else if n < 0x1_0000_0000 {
        buf.push(base + 26);
        push_be(buf, n, 4);
    } else {
        buf.push(base + 27);
        push_be(buf, n, 8);
    }
    assert(buf@ =~= start + head(major, n as nat));
}

/// Reads `k` big-endian bytes of `s` starting at `pos`.
pub fn read_be(s: &[u8], pos: usize, k: usize) -> (v: u64)
    requires
        k <= 8,
        pos + k <= s@.len(),
    ensures
        v == be_value(s@.subrange(pos as int, pos + k)),
{
    let mut v: u64 = 0;
    let mut i: usize = 0;
    while i < k
        invariant
            i <= k,
            k <= 8,
            pos + k <= s@.len(),
            v == be_value(s@.subrange(pos as int, pos + i)),
        decreases k - i,
    {
        proof {
            lemma_be_value_bound(s@.subrange(pos as int, pos + i));
            lemma_pow256_mono((i + 1) as nat, 8);
            lemma_pow256_values();
            assert(pow256((i + 1) as nat) == 256 * pow256(i as nat));
            lemma_mul_inequality(v as int + 1, pow256(i as nat) as int, 256);
            assert(s@.subrange(pos as int, pos + i + 1).drop_last() =~= s@.subrange(pos as int, pos + i));
        }
        assert(pos + i < s.len());
        v = v * 256 + s[pos + i] as u64;
        i = i + 1;
    }
    v
}

/// Writing the number that big-endian bytes stand for with as many bytes
/// gives the same bytes.
pub proof fn lemma_be_bytes_of_value(t: Seq<u8>)
    ensures
        be_bytes(be_value(t), t.len()) == t,
    decreases t.len(),
{
    if t.len() > 0 {
        let u = t.drop_last();
        lemma_be_bytes_of_value(u);
        let x = be_value(t);
        lemma_fundamental_div_mod_converse(x as int, 256, be_value(u) as int, t.last() as int);
        assert(be_bytes(x, t.len()) =~= be_bytes(be_value(u), u.len()).push(t.last()));
    }
}

} // verus!
