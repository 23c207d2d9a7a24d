//! Endianness codec: conversion between fixed-width unsigned integers and
//! their big- or little-endian byte representations.
//!
//! The codec works on a `u128` carrier, which is wide enough for every
//! supported field width (up to 16 bytes). The spec-level model is the pair
//! [`value_of`] / [`bytes_of`]: the value that a byte sequence denotes in a
//! given byte order, and the unique fixed-width encoding of a value.

use vstd::arithmetic::div_mod::lemma_fundamental_div_mod;
use vstd::arithmetic::div_mod::lemma_multiply_divide_lt;
use vstd::prelude::*;

verus! {

/// Byte order used to encode and decode multi-byte primitive fields.
#[derive(Clone, Copy, PartialEq, Eq, Structural, Debug)]
pub enum Endianness {
    /// Most significant byte first.
    Big,
    /// Least significant byte first.
    Little,
}

/// 256 to the power `n`: the number of distinct values of an `n`-byte field.
pub open spec fn pow256(n: nat) -> nat
    decreases n,
{
    if n == 0 {
        1
    } else {
        256 * pow256((n - 1) as nat)
    }
}

/// The value denoted by `bytes` read as a little-endian unsigned integer.
pub open spec fn le_value(bytes: Seq<u8>) -> nat
    decreases bytes.len(),
{
    if bytes.len() == 0 {
        0
    } else {
        bytes[0] as nat + 256 * le_value(bytes.skip(1))
    }
}

/// The value denoted by `bytes` read as a big-endian unsigned integer.
pub open spec fn be_value(bytes: Seq<u8>) -> nat {
    le_value(bytes.reverse())
}

/// The value denoted by `bytes` read in byte order `e`.
pub open spec fn value_of(bytes: Seq<u8>, e: Endianness) -> nat {
    match e {
        Endianness::Little => le_value(bytes),
        Endianness::Big => be_value(bytes),
    }
}

/// The `n`-byte little-endian encoding of `v`.
pub open spec fn le_bytes_of(v: nat, n: nat) -> Seq<u8>
    decreases n,
{
    if n == 0 {
        Seq::empty()
    } else {
        seq![(v % 256) as u8] + le_bytes_of(v / 256, (n - 1) as nat)
    }
}

/// The `n`-byte big-endian encoding of `v`.
pub open spec fn be_bytes_of(v: nat, n: nat) -> Seq<u8> {
    le_bytes_of(v, n).reverse()
}

/// The `n`-byte encoding of `v` in byte order `e`.
pub open spec fn bytes_of(v: nat, n: nat, e: Endianness) -> Seq<u8> {
    match e {
        Endianness::Little => le_bytes_of(v, n),
        Endianness::Big => be_bytes_of(v, n),
    }
}

/// The field-width powers of 256 that the fixed-width accessors use.
pub proof fn lemma_pow256_values()
    ensures
        pow256(1) == 0x100,
        pow256(2) == 0x10000,
        pow256(4) == 0x100000000,
        pow256(8) == 0x10000000000000000,
        pow256(16) == 0x100000000000000000000000000000000,
{
    reveal_with_fuel(pow256, 17);
}

/// `pow256` grows monotonically with the width.
pub proof fn lemma_pow256_monotonic(a: nat, b: nat)
    requires
        a <= b,
    ensures
        pow256(a) <= pow256(b),
    decreases b,
{
    if a < b {
        lemma_pow256_monotonic(a, (b - 1) as nat);
    }
}

/// An `n`-byte sequence denotes a value below `pow256(n)`.
pub proof fn lemma_le_value_bound(bytes: Seq<u8>)
    ensures
        le_value(bytes) < pow256(bytes.len()),
    decreases bytes.len(),
{
    if bytes.len() > 0 {
        lemma_le_value_bound(bytes.skip(1));
    }
}

/// An `n`-byte sequence denotes a value below `pow256(n)` in either byte
/// order.
pub proof fn lemma_value_of_bound(bytes: Seq<u8>, e: Endianness)
    ensures
        value_of(bytes, e) < pow256(bytes.len()),
{
    match e {
        Endianness::Little => lemma_le_value_bound(bytes),
        Endianness::Big => lemma_le_value_bound(bytes.reverse()),
    }
}

/// The encoding of a value is exactly `n` bytes long.
pub proof fn lemma_le_bytes_of_len(v: nat, n: nat)
    ensures
        le_bytes_of(v, n).len() == n,
    decreases n,
{
    if n > 0 {
        lemma_le_bytes_of_len(v / 256, (n - 1) as nat);
    }
}

/// Same, for either byte order.
pub proof fn lemma_bytes_of_len(v: nat, n: nat, e: Endianness)
    ensures
        bytes_of(v, n, e).len() == n,
{
    lemma_le_bytes_of_len(v, n);
}

/// Reversing a sequence twice gives the sequence back.
pub proof fn lemma_reverse_reverse(s: Seq<u8>)
    ensures
        s.reverse().reverse() == s,
{
    assert(s.reverse().reverse() =~= s);
}

/// Little-endian round trip: decoding the encoding of any representable
/// value gives the value back.
pub proof fn lemma_le_round_trip(v: nat, n: nat)
    requires
        v < pow256(n),
    ensures
        le_value(le_bytes_of(v, n)) == v,
    decreases n,
{
    if n > 0 {
        let s = le_bytes_of(v, n);
        lemma_le_bytes_of_len(v / 256, (n - 1) as nat);
        assert(s.skip(1) =~= le_bytes_of(v / 256, (n - 1) as nat));
        lemma_multiply_divide_lt(v as int, 256, pow256((n - 1) as nat) as int);
        lemma_le_round_trip(v / 256, (n - 1) as nat);
        lemma_fundamental_div_mod(v as int, 256);
    }
}

/// Round-trip law for the codec: for every representable value and either
/// byte order, decoding the encoding gives the value back.
pub proof fn lemma_codec_round_trip(v: nat, n: nat, e: Endianness)
    requires
        v < pow256(n),
    ensures
        value_of(bytes_of(v, n, e), e) == v,
{
    lemma_le_round_trip(v, n);
    if e is Big {
        lemma_reverse_reverse(le_bytes_of(v, n));
    }
}

/// Encode `v` into its `size`-byte representation in byte order `e`.
pub fn encode_value(v: u128, size: usize, e: Endianness) -> (r: Vec<u8>)
    requires
        size <= 16,
        (v as nat) < pow256(size as nat),
    ensures
        r@ == bytes_of(v as nat, size as nat, e),
{
    let mut le: Vec<u8> = Vec::new();
    let mut cur: u128 = v;
    let mut i: usize = 0;
    proof {
        assert(le@ + le_bytes_of(cur as nat, size as nat) =~= le_bytes_of(
            v as nat,
            size as nat,
        ));
    }
    while i < size
        invariant
            i <= size,
            size <= 16,
            le@.len() == i,
            le@ + le_bytes_of(cur as nat, (size - i) as nat) == le_bytes_of(
                v as nat,
                size as nat,
            ),
        decreases size - i,
    {
        let ghost prev = le@;
        let ghost prev_cur = cur as nat;
        le.push((cur % 256) as u8);
        cur = cur / 256;
        i += 1;
        proof {
            assert(le_bytes_of(prev_cur, (size - i + 1) as nat) == seq![
                (prev_cur % 256) as u8,
            ] + le_bytes_of(prev_cur / 256, (size - i) as nat));
            assert(le@ + le_bytes_of(cur as nat, (size - i) as nat) =~= prev + le_bytes_of(
                prev_cur,
                (size - i + 1) as nat,
            ));
        }
    }
    proof {
        assert(le@ + le_bytes_of(cur as nat, 0) =~= le@);
        lemma_le_bytes_of_len(v as nat, size as nat);
    }
    match e {
        Endianness::Little => le,
        Endianness::Big => {
            let mut be: Vec<u8> = Vec::new();
            let mut k: usize = 0;
            while k < size
                invariant
                    k <= size,
                    le@.len() == size,
                    le@ == le_bytes_of(v as nat, size as nat),
                    be@ == le@.reverse().subrange(0, k as int),
                decreases size - k,
            {
                let ghost prev = be@;
                be.push(le[size - 1 - k]);
                k += 1;
                proof {
                    assert(prev.push(le@[size - k]) =~= le@.reverse().subrange(0, k as int));
                }
            }
            proof {
                assert(le@.reverse().subrange(0, size as int) =~= le@.reverse());
            }
            be
        },
    }
}

/// Decode the `size` bytes of `buffer` starting at `offset` as an unsigned
/// integer in byte order `e`.
pub fn decode_at(buffer: &Vec<u8>, offset: usize, size: usize, e: Endianness) -> (r: u128)
    requires
        offset + size <= buffer@.len(),
        size <= 16,
    ensures
        r as nat == value_of(buffer@.subrange(offset as int, offset + size), e),
{
    let n = buffer.len();
    match e {
        Endianness::Little => {
            let mut acc: u128 = 0;
            let mut j: usize = size;
            while j > 0
                invariant
                    j <= size,
                    size <= 16,
                    offset + size <= n,
                    n == buffer@.len(),
                    acc as nat == le_value(buffer@.subrange(offset + j, offset + size)),
                    (acc as nat) < pow256((size - j) as nat),
                decreases j,
            {
                let ghost prev = acc as nat;
                let b = buffer[offset + j - 1];
                proof {
                    lemma_pow256_monotonic((size - j + 1) as nat, 16);
                    lemma_pow256_values();
                    assert(buffer@.subrange(offset + j - 1, offset + size).skip(1)
                        =~= buffer@.subrange(offset + j, offset + size));
                }
                acc = acc * 256 + b as u128;
                j -= 1;
            }
            proof {
                assert(buffer@.subrange(offset as int, offset + size) == buffer@.subrange(
                    offset + j,
                    offset + size,
                ));
            }
            acc
        },
        Endianness::Big => {
            let mut acc: u128 = 0;
            let mut i: usize = 0;
            proof {
                assert(buffer@.subrange(offset as int, offset as int).reverse() =~= Seq::<
                    u8,
                >::empty());
            }
            while i < size
                invariant
                    i <= size,
                    size <= 16,
                    offset + size <= n,
                    n == buffer@.len(),
                    acc as nat == be_value(buffer@.subrange(offset as int, offset + i)),
                    (acc as nat) < pow256(i as nat),
                decreases size - i,
            {
                let b = buffer[offset + i];
                proof {
                    lemma_pow256_monotonic((i + 1) as nat, 16);
                    lemma_pow256_values();
                    assert(buffer@.subrange(offset as int, offset + i + 1).reverse() =~= seq![
                        buffer@[offset + i],
                    ] + buffer@.subrange(offset as int, offset + i).reverse());
                    assert((seq![buffer@[offset + i]] + buffer@.subrange(
                        offset as int,
                        offset + i,
                    ).reverse()).skip(1) =~= buffer@.subrange(offset as int, offset + i).reverse());
                }
                acc = acc * 256 + b as u128;
                i += 1;
            }
            acc
        },
    }
}

} // verus!
