//! Primitive field access: encode or decode one fixed-width wire value at a
//! known byte offset within a buffer, honoring the declared endianness.
//!
//! Every accessor checks the buffer's actual length against the range
//! `[offset, offset + size)` it is about to touch and reports
//! [`AccessError::BufferTooShort`] instead of touching memory out of range;
//! the offset and size come from layout resolution, but the buffer length is
//! a runtime value supplied by the caller. Signed values are carried on the
//! wire in two's complement, modeled by [`signed_of`] and [`unsigned_of`].

use crate::endian::bytes_of;
use crate::endian::decode_at;
use crate::endian::encode_value;
use crate::endian::lemma_bytes_of_len;
use crate::endian::lemma_codec_round_trip;
use crate::endian::lemma_pow256_values;
use crate::endian::lemma_value_of_bound;
use crate::endian::pow256;
use crate::endian::value_of;
use crate::endian::Endianness;
use vstd::prelude::*;

verus! {

/// A recoverable failure of a single field access.
#[derive(Clone, Copy, PartialEq, Eq, Structural, Debug)]
pub enum AccessError {
    /// The byte range the access needs extends past the end of the buffer:
    /// the access needed `required` bytes but the buffer holds `actual`.
    BufferTooShort { required: usize, actual: usize },
    /// The data handed to a byte-array write does not have the field's
    /// exact size.
    LengthMismatch { expected: usize, actual: usize },
    /// A wrapped field's wire-to-domain conversion rejected the stored wire
    /// value.
    Conversion,
}

/// `bytes` with the range starting at `offset` replaced by `data`.
pub open spec fn spec_write(bytes: Seq<u8>, offset: int, data: Seq<u8>) -> Seq<u8> {
    bytes.take(offset) + data + bytes.skip(offset + data.len())
}

/// What a write leaves behind: the buffer keeps its length, holds `data` at
/// `offset`, and is untouched everywhere else.
pub proof fn lemma_spec_write_frame(bytes: Seq<u8>, offset: int, data: Seq<u8>)
    requires
        0 <= offset,
        offset + data.len() <= bytes.len(),
    ensures
        spec_write(bytes, offset, data).len() == bytes.len(),
        spec_write(bytes, offset, data).subrange(offset, offset + data.len()) == data,
        forall|t: int|
            0 <= t < bytes.len() && !(offset <= t < offset + data.len()) ==> spec_write(
                bytes,
                offset,
                data,
            )[t] == bytes[t],
{
    assert(spec_write(bytes, offset, data).subrange(offset, offset + data.len()) =~= data);
}

/// Round-trip law for a primitive field: after writing the encoding of any
/// representable value `v` at `offset`, decoding the same range gives `v`
/// back, for every width and either byte order.
pub proof fn lemma_write_read_round_trip(bytes: Seq<u8>, offset: int, v: nat, n: nat, e: Endianness)
    requires
        0 <= offset,
        v < pow256(n),
        offset + n <= bytes.len(),
    ensures
        value_of(spec_write(bytes, offset, bytes_of(v, n, e)).subrange(offset, offset + n), e)
            == v,
{
    lemma_bytes_of_len(v, n, e);
    lemma_spec_write_frame(bytes, offset, bytes_of(v, n, e));
    lemma_codec_round_trip(v, n, e);
}

/// The signed reading of an `n`-byte unsigned wire value, in two's
/// complement.
pub open spec fn signed_of(u: nat, n: nat) -> int {
    if u < pow256(n) / 2 {
        u as int
    } else {
        u as int - pow256(n)
    }
}

/// The `n`-byte unsigned wire representation of a signed value, in two's
/// complement.
pub open spec fn unsigned_of(v: int, n: nat) -> nat {
    if v >= 0 {
        v as nat
    } else {
        (v + pow256(n)) as nat
    }
}

/// Round-trip law for the two's complement mapping: every value an `n`-byte
/// signed field can hold survives the trip to its wire representation and
/// back.
pub proof fn lemma_signed_round_trip(v: int, n: nat)
    requires
        n >= 1,
        -(pow256(n) as int) / 2 <= v < pow256(n) / 2,
    ensures
        unsigned_of(v, n) < pow256(n),
        signed_of(unsigned_of(v, n), n) == v,
{
    assert(pow256(n) == 256 * pow256((n - 1) as nat));
}

/// Overwrite `buffer` at `offset` with the whole of `data`.
fn write_slice_at(buffer: &mut Vec<u8>, offset: usize, data: &Vec<u8>)
    requires
        offset + data@.len() <= old(buffer)@.len(),
    ensures
        final(buffer)@ == spec_write(old(buffer)@, offset as int, data@),
{
    let ghost orig = buffer@;
    let total = buffer.len();
    let m = data.len();
    let mut k: usize = 0;
    while k < m
        invariant
            k <= m,
            m == data@.len(),
            offset + m <= total,
            total == orig.len(),
            buffer@.len() == orig.len(),
            forall|t: int| 0 <= t < k ==> buffer@[offset + t] == data@[t],
            forall|t: int|
                0 <= t < orig.len() && !(offset <= t < offset + k) ==> buffer@[t] == orig[t],
        decreases m - k,
    {
        buffer.set(offset + k, data[k]);
        k += 1;
    }
    proof {
        assert(buffer@ =~= spec_write(orig, offset as int, data@));
    }
}

/// Read the `size`-byte unsigned integer stored at `offset`.
pub fn read_uint_at(buffer: &Vec<u8>, offset: usize, size: usize, e: Endianness) -> (r: Result<
    u128,
    AccessError,
>)
    requires
        offset + size <= usize::MAX,
        size <= 16,
    ensures
        offset + size <= buffer@.len() ==> r is Ok && r->Ok_0 as nat == value_of(
            buffer@.subrange(offset as int, offset + size),
            e,
        ),
        offset + size > buffer@.len() ==> r == Err::<u128, AccessError>(
            (AccessError::BufferTooShort {
                required: (offset + size) as usize,
                actual: buffer@.len() as usize,
            }),
        ),
{
    if buffer.len() < offset + size {
        return Err(AccessError::BufferTooShort { required: offset + size, actual: buffer.len() });
    }
    Ok(decode_at(buffer, offset, size, e))
}

/// Write the `size`-byte encoding of `v` at `offset`.
pub fn write_uint_at(buffer: &mut Vec<u8>, offset: usize, size: usize, e: Endianness, v: u128) -> (r:
    Result<(), AccessError>)
    requires
        offset + size <= usize::MAX,
        size <= 16,
        (v as nat) < pow256(size as nat),
    ensures
        offset + size <= old(buffer)@.len() ==> r is Ok && final(buffer)@ == spec_write(
            old(buffer)@,
            offset as int,
            bytes_of(v as nat, size as nat, e),
        ),
        offset + size > old(buffer)@.len() ==> final(buffer)@ == old(buffer)@ && r == Err::<
            (),
            AccessError,
        >(
            (AccessError::BufferTooShort {
                required: (offset + size) as usize,
                actual: old(buffer)@.len() as usize,
            }),
        ),
{
    if buffer.len() < offset + size {
        return Err(AccessError::BufferTooShort { required: offset + size, actual: buffer.len() });
    }
    let enc = encode_value(v, size, e);
    proof {
        lemma_bytes_of_len(v as nat, size as nat, e);
    }
    write_slice_at(buffer, offset, &enc);
    Ok(())
}

/// Read the fixed-size byte array field stored at `offset`, as an owned
/// copy.
pub fn read_bytes_at(buffer: &Vec<u8>, offset: usize, size: usize) -> (r: Result<
    Vec<u8>,
    AccessError,
>)
    requires
        offset + size <= usize::MAX,
    ensures
        offset + size <= buffer@.len() ==> r is Ok && r->Ok_0@ == buffer@.subrange(
            offset as int,
            offset + size,
        ),
        offset + size > buffer@.len() ==> r == Err::<Vec<u8>, AccessError>(
            (AccessError::BufferTooShort {
                required: (offset + size) as usize,
                actual: buffer@.len() as usize,
            }),
        ),
{
    let n = buffer.len();
    if n < offset + size {
        return Err(AccessError::BufferTooShort { required: offset + size, actual: n });
    }
    let mut out: Vec<u8> = Vec::new();
    let mut k: usize = 0;
    while k < size
        invariant
            k <= size,
            offset + size <= n,
            n == buffer@.len(),
            out@ == buffer@.subrange(offset as int, offset + k),
        decreases size - k,
    {
        let ghost prev = out@;
        out.push(buffer[offset + k]);
        k += 1;
        proof {
            assert(prev.push(buffer@[offset + k - 1]) =~= buffer@.subrange(
                offset as int,
                offset + k,
            ));
        }
    }
    Ok(out)
}

/// Write `data` verbatim into the fixed-size byte array field of the given
/// `size` at `offset`. The data must have the field's exact size.
pub fn write_bytes_at(buffer: &mut Vec<u8>, offset: usize, size: usize, data: &Vec<u8>) -> (r:
    Result<(), AccessError>)
    requires
        offset + size <= usize::MAX,
    ensures
        offset + size <= old(buffer)@.len() && data@.len() == size ==> r is Ok
            && final(buffer)@ == spec_write(old(buffer)@, offset as int, data@),
        offset + size > old(buffer)@.len() ==> final(buffer)@ == old(buffer)@ && r == Err::<
            (),
            AccessError,
        >(
            (AccessError::BufferTooShort {
                required: (offset + size) as usize,
                actual: old(buffer)@.len() as usize,
            }),
        ),
        offset + size <= old(buffer)@.len() && data@.len() != size ==> final(buffer)@
            == old(buffer)@ && r == Err::<(), AccessError>(
            (AccessError::LengthMismatch { expected: size, actual: data@.len() as usize }),
        ),
{
    if buffer.len() < offset + size {
        return Err(AccessError::BufferTooShort { required: offset + size, actual: buffer.len() });
    }
    if data.len() != size {
        return Err(AccessError::LengthMismatch { expected: size, actual: data.len() });
    }
    write_slice_at(buffer, offset, data);
    Ok(())
}

/// Read the open-ended byte array field starting at `offset`: every byte
/// from the offset to the end of the buffer, as an owned copy.
pub fn read_tail_at(buffer: &Vec<u8>, offset: usize) -> (r: Result<Vec<u8>, AccessError>)
    ensures
        offset <= buffer@.len() ==> r is Ok && r->Ok_0@ == buffer@.subrange(
            offset as int,
            buffer@.len() as int,
        ),
        offset > buffer@.len() ==> r == Err::<Vec<u8>, AccessError>(
            (AccessError::BufferTooShort { required: offset, actual: buffer@.len() as usize }),
        ),
{
    let n = buffer.len();
    if n < offset {
        return Err(AccessError::BufferTooShort { required: offset, actual: n });
    }
    let r = read_bytes_at(buffer, offset, n - offset);
    match r {
        Ok(v) => Ok(v),
        Err(_) => vstd::pervasive::unreached(),
    }
}

/// Write `data` over the open-ended byte array field starting at `offset`.
/// The data's length must exactly equal the buffer length that remains from
/// the offset.
pub fn write_tail_at(buffer: &mut Vec<u8>, offset: usize, data: &Vec<u8>) -> (r: Result<
    (),
    AccessError,
>)
    ensures
        offset <= old(buffer)@.len() && data@.len() == old(buffer)@.len() - offset ==> r is Ok
            && final(buffer)@ == spec_write(old(buffer)@, offset as int, data@),
        offset > old(buffer)@.len() ==> final(buffer)@ == old(buffer)@ && r == Err::<(), AccessError>(
            (AccessError::BufferTooShort {
                required: offset,
                actual: old(buffer)@.len() as usize,
            }),
        ),
        offset <= old(buffer)@.len() && data@.len() != old(buffer)@.len() - offset
            ==> final(buffer)@ == old(buffer)@ && r == Err::<(), AccessError>(
            (AccessError::LengthMismatch {
                expected: (old(buffer)@.len() - offset) as usize,
                actual: data@.len() as usize,
            }),
        ),
{
    let n = buffer.len();
    if n < offset {
        return Err(AccessError::BufferTooShort { required: offset, actual: n });
    }
    if data.len() != n - offset {
        return Err(AccessError::LengthMismatch { expected: n - offset, actual: data.len() });
    }
    write_slice_at(buffer, offset, data);
    Ok(())
}


/// The two's complement reading of a `u8` wire value as `i8`.
pub fn u8_to_i8(u: u8) -> (r: i8)
    ensures
        r as int == signed_of(u as nat, 1),
{
    proof {
        lemma_pow256_values();
    }
    if u < 0x80 {
        u as i8
    } else {
        -((0xffu8 - u) as i8) - 1
    }
}

/// The `u8` wire representation of an `i8` value, in two's complement.
pub fn i8_to_u8(v: i8) -> (r: u8)
    ensures
        r as nat == unsigned_of(v as int, 1),
{
    proof {
        lemma_pow256_values();
    }
    if v >= 0 {
        v as u8
    } else {
        0xffu8 - (-(v + 1)) as u8
    }
}

/// Read the `u8` field stored at `offset` in byte order `e`.
pub fn read_u8_at(buffer: &Vec<u8>, offset: usize, e: Endianness) -> (r: Result<
    u8,
    AccessError,
>)
    requires
        offset + 1 <= usize::MAX,
    ensures
        offset + 1 <= buffer@.len() ==> r is Ok && r->Ok_0 as nat == value_of(
            buffer@.subrange(offset as int, offset + 1),
            e,
        ),
        offset + 1 > buffer@.len() ==> r == Err::<u8, AccessError>(
            (AccessError::BufferTooShort {
                required: (offset + 1) as usize,
                actual: buffer@.len() as usize,
            }),
        ),
{
    match read_uint_at(buffer, offset, 1, e) {
        Ok(v) => {
            proof {
                lemma_value_of_bound(buffer@.subrange(offset as int, offset + 1), e);
                lemma_pow256_values();
            }
            Ok(v as u8)
        },
        Err(err) => Err(err),
    }
}

/// Write the `u8` field stored at `offset` in byte order `e`.
pub fn write_u8_at(buffer: &mut Vec<u8>, offset: usize, e: Endianness, v: u8) -> (r: Result<
    (),
    AccessError,
>)
    requires
        offset + 1 <= usize::MAX,
    ensures
        offset + 1 <= old(buffer)@.len() ==> r is Ok && final(buffer)@ == spec_write(
            old(buffer)@,
            offset as int,
            bytes_of(v as nat, 1, e),
        ),
        offset + 1 > old(buffer)@.len() ==> final(buffer)@ == old(buffer)@ && r == Err::<
            (),
            AccessError,
        >(
            (AccessError::BufferTooShort {
                required: (offset + 1) as usize,
                actual: old(buffer)@.len() as usize,
            }),
        ),
{
    proof {
        lemma_pow256_values();
    }
    write_uint_at(buffer, offset, 1, e, v as u128)
}

/// Read the `i8` field stored at `offset` in byte order `e`.
pub fn read_i8_at(buffer: &Vec<u8>, offset: usize, e: Endianness) -> (r: Result<
    i8,
    AccessError,
>)
    requires
        offset + 1 <= usize::MAX,
    ensures
        offset + 1 <= buffer@.len() ==> r is Ok && r->Ok_0 as int == signed_of(
            value_of(buffer@.subrange(offset as int, offset + 1), e),
            1,
        ),
        offset + 1 > buffer@.len() ==> r == Err::<i8, AccessError>(
            (AccessError::BufferTooShort {
                required: (offset + 1) as usize,
                actual: buffer@.len() as usize,
            }),
        ),
{
    match read_u8_at(buffer, offset, e) {
        Ok(u) => Ok(u8_to_i8(u)),
        Err(err) => Err(err),
    }
}

/// Write the `i8` field stored at `offset` in byte order `e`.
pub fn write_i8_at(buffer: &mut Vec<u8>, offset: usize, e: Endianness, v: i8) -> (r: Result<
    (),
    AccessError,
>)
    requires
        offset + 1 <= usize::MAX,
    ensures
        offset + 1 <= old(buffer)@.len() ==> r is Ok && final(buffer)@ == spec_write(
            old(buffer)@,
            offset as int,
            bytes_of(unsigned_of(v as int, 1), 1, e),
        ),
        offset + 1 > old(buffer)@.len() ==> final(buffer)@ == old(buffer)@ && r == Err::<
            (),
            AccessError,
        >(
            (AccessError::BufferTooShort {
                required: (offset + 1) as usize,
                actual: old(buffer)@.len() as usize,
            }),
        ),
{
    proof {
        lemma_pow256_values();
        lemma_signed_round_trip(v as int, 1);
    }
    let u = i8_to_u8(v);
    write_uint_at(buffer, offset, 1, e, u as u128)
}

/// The two's complement reading of a `u16` wire value as `i16`.
pub fn u16_to_i16(u: u16) -> (r: i16)
    ensures
        r as int == signed_of(u as nat, 2),
{
    proof {
        lemma_pow256_values();
    }
    if u < 0x8000 {
        u as i16
    } else {
        -((0xffffu16 - u) as i16) - 1
    }
}

/// The `u16` wire representation of an `i16` value, in two's complement.
pub fn i16_to_u16(v: i16) -> (r: u16)
    ensures
        r as nat == unsigned_of(v as int, 2),
{
    proof {
        lemma_pow256_values();
    }
    if v >= 0 {
        v as u16
    } else {
        0xffffu16 - (-(v + 1)) as u16
    }
}

/// Read the `u16` field stored at `offset` in byte order `e`.
pub fn read_u16_at(buffer: &Vec<u8>, offset: usize, e: Endianness) -> (r: Result<
    u16,
    AccessError,
>)
    requires
        offset + 2 <= usize::MAX,
    ensures
        offset + 2 <= buffer@.len() ==> r is Ok && r->Ok_0 as nat == value_of(
            buffer@.subrange(offset as int, offset + 2),
            e,
        ),
        offset + 2 > buffer@.len() ==> r == Err::<u16, AccessError>(
            (AccessError::BufferTooShort {
                required: (offset + 2) as usize,
                actual: buffer@.len() as usize,
            }),
        ),
{
    match read_uint_at(buffer, offset, 2, e) {
        Ok(v) => {
            proof {
                lemma_value_of_bound(buffer@.subrange(offset as int, offset + 2), e);
                lemma_pow256_values();
            }
            Ok(v as u16)
        },
        Err(err) => Err(err),
    }
}

/// Write the `u16` field stored at `offset` in byte order `e`.
pub fn write_u16_at(buffer: &mut Vec<u8>, offset: usize, e: Endianness, v: u16) -> (r: Result<
    (),
    AccessError,
>)
    requires
        offset + 2 <= usize::MAX,
    ensures
        offset + 2 <= old(buffer)@.len() ==> r is Ok && final(buffer)@ == spec_write(
            old(buffer)@,
            offset as int,
            bytes_of(v as nat, 2, e),
        ),
        offset + 2 > old(buffer)@.len() ==> final(buffer)@ == old(buffer)@ && r == Err::<
            (),
            AccessError,
        >(
            (AccessError::BufferTooShort {
                required: (offset + 2) as usize,
                actual: old(buffer)@.len() as usize,
            }),
        ),
{
    proof {
        lemma_pow256_values();
    }
    write_uint_at(buffer, offset, 2, e, v as u128)
}

/// Read the `i16` field stored at `offset` in byte order `e`.
pub fn read_i16_at(buffer: &Vec<u8>, offset: usize, e: Endianness) -> (r: Result<
    i16,
    AccessError,
>)
    requires
        offset + 2 <= usize::MAX,
    ensures
        offset + 2 <= buffer@.len() ==> r is Ok && r->Ok_0 as int == signed_of(
            value_of(buffer@.subrange(offset as int, offset + 2), e),
            2,
        ),
        offset + 2 > buffer@.len() ==> r == Err::<i16, AccessError>(
            (AccessError::BufferTooShort {
                required: (offset + 2) as usize,
                actual: buffer@.len() as usize,
            }),
        ),
{
    match read_u16_at(buffer, offset, e) {
        Ok(u) => Ok(u16_to_i16(u)),
        Err(err) => Err(err),
    }
}

/// Write the `i16` field stored at `offset` in byte order `e`.
pub fn write_i16_at(buffer: &mut Vec<u8>, offset: usize, e: Endianness, v: i16) -> (r: Result<
    (),
    AccessError,
>)
    requires
        offset + 2 <= usize::MAX,
    ensures
        offset + 2 <= old(buffer)@.len() ==> r is Ok && final(buffer)@ == spec_write(
            old(buffer)@,
            offset as int,
            bytes_of(unsigned_of(v as int, 2), 2, e),
        ),
        offset + 2 > old(buffer)@.len() ==> final(buffer)@ == old(buffer)@ && r == Err::<
            (),
            AccessError,
        >(
            (AccessError::BufferTooShort {
                required: (offset + 2) as usize,
                actual: old(buffer)@.len() as usize,
            }),
        ),
{
    proof {
        lemma_pow256_values();
        lemma_signed_round_trip(v as int, 2);
    }
    let u = i16_to_u16(v);
    write_uint_at(buffer, offset, 2, e, u as u128)
}

/// The two's complement reading of a `u32` wire value as `i32`.
pub fn u32_to_i32(u: u32) -> (r: i32)
    ensures
        r as int == signed_of(u as nat, 4),
{
    proof {
        lemma_pow256_values();
    }
    if u < 0x80000000 {
        u as i32
    } else {
        -((0xffffffffu32 - u) as i32) - 1
    }
}

/// The `u32` wire representation of an `i32` value, in two's complement.
pub fn i32_to_u32(v: i32) -> (r: u32)
    ensures
        r as nat == unsigned_of(v as int, 4),
{
    proof {
        lemma_pow256_values();
    }
    if v >= 0 {
        v as u32
    } else {
        0xffffffffu32 - (-(v + 1)) as u32
    }
}

/// Read the `u32` field stored at `offset` in byte order `e`.
pub fn read_u32_at(buffer: &Vec<u8>, offset: usize, e: Endianness) -> (r: Result<
    u32,
    AccessError,
>)
    requires
        offset + 4 <= usize::MAX,
    ensures
        offset + 4 <= buffer@.len() ==> r is Ok && r->Ok_0 as nat == value_of(
            buffer@.subrange(offset as int, offset + 4),
            e,
        ),
        offset + 4 > buffer@.len() ==> r == Err::<u32, AccessError>(
            (AccessError::BufferTooShort {
                required: (offset + 4) as usize,
                actual: buffer@.len() as usize,
            }),
        ),
{
    match read_uint_at(buffer, offset, 4, e) {
        Ok(v) => {
            proof {
                lemma_value_of_bound(buffer@.subrange(offset as int, offset + 4), e);
                lemma_pow256_values();
            }
            Ok(v as u32)
        },
        Err(err) => Err(err),
    }
}

/// Write the `u32` field stored at `offset` in byte order `e`.
pub fn write_u32_at(buffer: &mut Vec<u8>, offset: usize, e: Endianness, v: u32) -> (r: Result<
    (),
    AccessError,
>)
    requires
        offset + 4 <= usize::MAX,
    ensures
        offset + 4 <= old(buffer)@.len() ==> r is Ok && final(buffer)@ == spec_write(
            old(buffer)@,
            offset as int,
            bytes_of(v as nat, 4, e),
        ),
        offset + 4 > old(buffer)@.len() ==> final(buffer)@ == old(buffer)@ && r == Err::<
            (),
            AccessError,
        >(
            (AccessError::BufferTooShort {
                required: (offset + 4) as usize,
                actual: old(buffer)@.len() as usize,
            }),
        ),
{
    proof {
        lemma_pow256_values();
    }
    write_uint_at(buffer, offset, 4, e, v as u128)
}

/// Read the `i32` field stored at `offset` in byte order `e`.
pub fn read_i32_at(buffer: &Vec<u8>, offset: usize, e: Endianness) -> (r: Result<
    i32,
    AccessError,
>)
    requires
        offset + 4 <= usize::MAX,
    ensures
        offset + 4 <= buffer@.len() ==> r is Ok && r->Ok_0 as int == signed_of(
            value_of(buffer@.subrange(offset as int, offset + 4), e),
            4,
        ),
        offset + 4 > buffer@.len() ==> r == Err::<i32, AccessError>(
            (AccessError::BufferTooShort {
                required: (offset + 4) as usize,
                actual: buffer@.len() as usize,
            }),
        ),
{
    match read_u32_at(buffer, offset, e) {
        Ok(u) => Ok(u32_to_i32(u)),
        Err(err) => Err(err),
    }
}

/// Write the `i32` field stored at `offset` in byte order `e`.
pub fn write_i32_at(buffer: &mut Vec<u8>, offset: usize, e: Endianness, v: i32) -> (r: Result<
    (),
    AccessError,
>)
    requires
        offset + 4 <= usize::MAX,
    ensures
        offset + 4 <= old(buffer)@.len() ==> r is Ok && final(buffer)@ == spec_write(
            old(buffer)@,
            offset as int,
            bytes_of(unsigned_of(v as int, 4), 4, e),
        ),
        offset + 4 > old(buffer)@.len() ==> final(buffer)@ == old(buffer)@ && r == Err::<
            (),
            AccessError,
        >(
            (AccessError::BufferTooShort {
                required: (offset + 4) as usize,
                actual: old(buffer)@.len() as usize,
            }),
        ),
{
    proof {
        lemma_pow256_values();
        lemma_signed_round_trip(v as int, 4);
    }
    let u = i32_to_u32(v);
    write_uint_at(buffer, offset, 4, e, u as u128)
}

/// The two's complement reading of a `u64` wire value as `i64`.
pub fn u64_to_i64(u: u64) -> (r: i64)
    ensures
        r as int == signed_of(u as nat, 8),
{
    proof {
        lemma_pow256_values();
    }
    if u < 0x8000000000000000 {
        u as i64
    } else {
        -((0xffffffffffffffffu64 - u) as i64) - 1
    }
}

/// The `u64` wire representation of an `i64` value, in two's complement.
pub fn i64_to_u64(v: i64) -> (r: u64)
    ensures
        r as nat == unsigned_of(v as int, 8),
{
    proof {
        lemma_pow256_values();
    }
    if v >= 0 {
        v as u64
    } else {
        0xffffffffffffffffu64 - (-(v + 1)) as u64
    }
}

/// Read the `u64` field stored at `offset` in byte order `e`.
pub fn read_u64_at(buffer: &Vec<u8>, offset: usize, e: Endianness) -> (r: Result<
    u64,
    AccessError,
>)
    requires
        offset + 8 <= usize::MAX,
    ensures
        offset + 8 <= buffer@.len() ==> r is Ok && r->Ok_0 as nat == value_of(
            buffer@.subrange(offset as int, offset + 8),
            e,
        ),
        offset + 8 > buffer@.len() ==> r == Err::<u64, AccessError>(
            (AccessError::BufferTooShort {
                required: (offset + 8) as usize,
                actual: buffer@.len() as usize,
            }),
        ),
{
    match read_uint_at(buffer, offset, 8, e) {
        Ok(v) => {
            proof {
                lemma_value_of_bound(buffer@.subrange(offset as int, offset + 8), e);
                lemma_pow256_values();
            }
            Ok(v as u64)
        },
        Err(err) => Err(err),
    }
}

/// Write the `u64` field stored at `offset` in byte order `e`.
pub fn write_u64_at(buffer: &mut Vec<u8>, offset: usize, e: Endianness, v: u64) -> (r: Result<
    (),
    AccessError,
>)
    requires
        offset + 8 <= usize::MAX,
    ensures
        offset + 8 <= old(buffer)@.len() ==> r is Ok && final(buffer)@ == spec_write(
            old(buffer)@,
            offset as int,
            bytes_of(v as nat, 8, e),
        ),
        offset + 8 > old(buffer)@.len() ==> final(buffer)@ == old(buffer)@ && r == Err::<
            (),
            AccessError,
        >(
            (AccessError::BufferTooShort {
                required: (offset + 8) as usize,
                actual: old(buffer)@.len() as usize,
            }),
        ),
{
    proof {
        lemma_pow256_values();
    }
    write_uint_at(buffer, offset, 8, e, v as u128)
}

/// Read the `i64` field stored at `offset` in byte order `e`.
pub fn read_i64_at(buffer: &Vec<u8>, offset: usize, e: Endianness) -> (r: Result<
    i64,
    AccessError,
>)
    requires
        offset + 8 <= usize::MAX,
    ensures
        offset + 8 <= buffer@.len() ==> r is Ok && r->Ok_0 as int == signed_of(
            value_of(buffer@.subrange(offset as int, offset + 8), e),
            8,
        ),
        offset + 8 > buffer@.len() ==> r == Err::<i64, AccessError>(
            (AccessError::BufferTooShort {
                required: (offset + 8) as usize,
                actual: buffer@.len() as usize,
            }),
        ),
{
    match read_u64_at(buffer, offset, e) {
        Ok(u) => Ok(u64_to_i64(u)),
        Err(err) => Err(err),
    }
}

/// Write the `i64` field stored at `offset` in byte order `e`.
pub fn write_i64_at(buffer: &mut Vec<u8>, offset: usize, e: Endianness, v: i64) -> (r: Result<
    (),
    AccessError,
>)
    requires
        offset + 8 <= usize::MAX,
    ensures
        offset + 8 <= old(buffer)@.len() ==> r is Ok && final(buffer)@ == spec_write(
            old(buffer)@,
            offset as int,
            bytes_of(unsigned_of(v as int, 8), 8, e),
        ),
        offset + 8 > old(buffer)@.len() ==> final(buffer)@ == old(buffer)@ && r == Err::<
            (),
            AccessError,
        >(
            (AccessError::BufferTooShort {
                required: (offset + 8) as usize,
                actual: old(buffer)@.len() as usize,
            }),
        ),
{
    proof {
        lemma_pow256_values();
        lemma_signed_round_trip(v as int, 8);
    }
    let u = i64_to_u64(v);
    write_uint_at(buffer, offset, 8, e, u as u128)
}

/// The two's complement reading of a `u128` wire value as `i128`.
pub fn u128_to_i128(u: u128) -> (r: i128)
    ensures
        r as int == signed_of(u as nat, 16),
{
    proof {
        lemma_pow256_values();
    }
    if u < 0x80000000000000000000000000000000 {
        u as i128
    } else {
        -((0xffffffffffffffffffffffffffffffffu128 - u) as i128) - 1
    }
}

/// The `u128` wire representation of an `i128` value, in two's complement.
pub fn i128_to_u128(v: i128) -> (r: u128)
    ensures
        r as nat == unsigned_of(v as int, 16),
{
    proof {
        lemma_pow256_values();
    }
    if v >= 0 {
        v as u128
    } else {
        0xffffffffffffffffffffffffffffffffu128 - (-(v + 1)) as u128
    }
}

/// Read the `u128` field stored at `offset` in byte order `e`.
pub fn read_u128_at(buffer: &Vec<u8>, offset: usize, e: Endianness) -> (r: Result<
    u128,
    AccessError,
>)
    requires
        offset + 16 <= usize::MAX,
    ensures
        offset + 16 <= buffer@.len() ==> r is Ok && r->Ok_0 as nat == value_of(
            buffer@.subrange(offset as int, offset + 16),
            e,
        ),
        offset + 16 > buffer@.len() ==> r == Err::<u128, AccessError>(
            (AccessError::BufferTooShort {
                required: (offset + 16) as usize,
                actual: buffer@.len() as usize,
            }),
        ),
{
    match read_uint_at(buffer, offset, 16, e) {
        Ok(v) => {
            proof {
                lemma_value_of_bound(buffer@.subrange(offset as int, offset + 16), e);
                lemma_pow256_values();
            }
            Ok(v)
        },
        Err(err) => Err(err),
    }
}

/// Write the `u128` field stored at `offset` in byte order `e`.
pub fn write_u128_at(buffer: &mut Vec<u8>, offset: usize, e: Endianness, v: u128) -> (r: Result<
    (),
    AccessError,
>)
    requires
        offset + 16 <= usize::MAX,
    ensures
        offset + 16 <= old(buffer)@.len() ==> r is Ok && final(buffer)@ == spec_write(
            old(buffer)@,
            offset as int,
            bytes_of(v as nat, 16, e),
        ),
        offset + 16 > old(buffer)@.len() ==> final(buffer)@ == old(buffer)@ && r == Err::<
            (),
            AccessError,
        >(
            (AccessError::BufferTooShort {
                required: (offset + 16) as usize,
                actual: old(buffer)@.len() as usize,
            }),
        ),
{
    proof {
        lemma_pow256_values();
    }
    write_uint_at(buffer, offset, 16, e, v)
}

/// Read the `i128` field stored at `offset` in byte order `e`.
pub fn read_i128_at(buffer: &Vec<u8>, offset: usize, e: Endianness) -> (r: Result<
    i128,
    AccessError,
>)
    requires
        offset + 16 <= usize::MAX,
    ensures
        offset + 16 <= buffer@.len() ==> r is Ok && r->Ok_0 as int == signed_of(
            value_of(buffer@.subrange(offset as int, offset + 16), e),
            16,
        ),
        offset + 16 > buffer@.len() ==> r == Err::<i128, AccessError>(
            (AccessError::BufferTooShort {
                required: (offset + 16) as usize,
                actual: buffer@.len() as usize,
            }),
        ),
{
    match read_u128_at(buffer, offset, e) {
        Ok(u) => Ok(u128_to_i128(u)),
        Err(err) => Err(err),
    }
}

/// Write the `i128` field stored at `offset` in byte order `e`.
pub fn write_i128_at(buffer: &mut Vec<u8>, offset: usize, e: Endianness, v: i128) -> (r: Result<
    (),
    AccessError,
>)
    requires
        offset + 16 <= usize::MAX,
    ensures
        offset + 16 <= old(buffer)@.len() ==> r is Ok && final(buffer)@ == spec_write(
            old(buffer)@,
            offset as int,
            bytes_of(unsigned_of(v as int, 16), 16, e),
        ),
        offset + 16 > old(buffer)@.len() ==> final(buffer)@ == old(buffer)@ && r == Err::<
            (),
            AccessError,
        >(
            (AccessError::BufferTooShort {
                required: (offset + 16) as usize,
                actual: old(buffer)@.len() as usize,
            }),
        ),
{
    proof {
        lemma_pow256_values();
        lemma_signed_round_trip(v as int, 16);
    }
    let u = i128_to_u128(v);
    write_uint_at(buffer, offset, 16, e, u)
}

} // verus!
