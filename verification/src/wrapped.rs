//! Wrapped fields: a field manipulated in memory as a domain type `D` while
//! stored on the wire as a primitive type `U`, linked by an explicit
//! bidirectional conversion.
//!
//! The conversion pair is supplied by implementing [`LayoutAs`]: a partial
//! wire-to-domain reading (a wire value may have no meaning in the domain)
//! and a partial domain-to-wire representation. A failed wire-to-domain
//! conversion surfaces as [`AccessError::Conversion`] rather than
//! panicking; a failed domain-to-wire conversion is likewise reported, not
//! swallowed. Implementors also discharge a proof that the two conversions
//! are mutually consistent, which is what makes the wrapped round-trip law
//! below hold for every implementation.

use crate::endian::bytes_of;
use crate::endian::lemma_pow256_values;
use crate::endian::value_of;
use crate::endian::Endianness;
use crate::field::lemma_write_read_round_trip;
use crate::field::spec_write;
use crate::field::AccessError;
use vstd::prelude::*;

verus! {

/// A domain type that a field stores on the wire as the primitive type `U`.
///
/// `from_wire` may fail: not every wire value need have a domain reading.
/// `to_wire` may fail too: a domain value outside the wire range is
/// reported, never silently truncated. The proof obligation
/// [`LayoutAs::lemma_wire_round_trip`] pins the pair down: whatever reaches
/// the wire comes back as the same domain value.
pub trait LayoutAs<U>: Sized {
    /// The wire-to-domain conversion, `None` when the wire value has no
    /// reading in the domain.
    spec fn from_wire_spec(u: U) -> Option<Self>;

    /// The domain-to-wire conversion, `None` when the value has no wire
    /// representation.
    spec fn to_wire_spec(d: Self) -> Option<U>;

    /// Consistency of the pair: every domain value whose wire mapping
    /// succeeds is read back unchanged.
    proof fn lemma_wire_round_trip(d: Self)
        ensures
            Self::to_wire_spec(d) is Some ==> Self::from_wire_spec(
                Self::to_wire_spec(d).unwrap(),
            ) == Some(d),
    ;

    /// Apply the wire-to-domain conversion.
    fn from_wire(u: U) -> (r: Option<Self>)
        ensures
            r == Self::from_wire_spec(u),
    ;

    /// Apply the domain-to-wire conversion.
    fn to_wire(self) -> (r: Option<U>)
        ensures
            r == Self::to_wire_spec(self),
    ;
}

/// Read the field stored at `offset` as wire type `u8` and convert it to
/// the domain type `D`. A wire value the domain rejects surfaces as
/// `Conversion`, never as a panic.
pub fn wrapped_read_u8_at<D: LayoutAs<u8>>(
    buffer: &Vec<u8>,
    offset: usize,
    e: Endianness,
) -> (r: Result<D, AccessError>)
    requires
        offset + 1 <= usize::MAX,
    ensures
        offset + 1 <= buffer@.len() ==> ({
            let u = (value_of(buffer@.subrange(offset as int, offset + 1), e) as u8);
            match D::from_wire_spec(u) {
                Some(d) => r is Ok && r->Ok_0 == d,
                None => r == Err::<D, AccessError>(AccessError::Conversion),
            }
        }),
        offset + 1 > buffer@.len() ==> r == Err::<D, AccessError>(
            (AccessError::BufferTooShort {
                required: (offset + 1) as usize,
                actual: buffer@.len() as usize,
            }),
        ),
{
    match crate::field::read_u8_at(buffer, offset, e) {
        Ok(u) => match D::from_wire(u) {
            Some(d) => Ok(d),
            None => Err(AccessError::Conversion),
        },
        Err(err) => Err(err),
    }
}

/// Convert `d` to its `u8` wire representation and write it at `offset`.
/// A domain value without a wire representation surfaces as `Conversion`
/// and leaves the buffer untouched.
pub fn wrapped_write_u8_at<D: LayoutAs<u8>>(
    buffer: &mut Vec<u8>,
    offset: usize,
    e: Endianness,
    d: D,
) -> (r: Result<(), AccessError>)
    requires
        offset + 1 <= usize::MAX,
    ensures
        match D::to_wire_spec(d) {
            None => final(buffer)@ == old(buffer)@ && r == Err::<(), AccessError>(
                AccessError::Conversion,
            ),
            Some(u) => {
                &&& offset + 1 <= old(buffer)@.len() ==> r is Ok && final(buffer)@ == spec_write(
                    old(buffer)@,
                    offset as int,
                    bytes_of(u as nat, 1, e),
                )
                &&& offset + 1 > old(buffer)@.len() ==> final(buffer)@ == old(buffer)@ && r
                    == Err::<(), AccessError>(
                    (AccessError::BufferTooShort {
                        required: (offset + 1) as usize,
                        actual: old(buffer)@.len() as usize,
                    }),
                )
            },
        },
{
    match d.to_wire() {
        Some(u) => crate::field::write_u8_at(buffer, offset, e, u),
        None => Err(AccessError::Conversion),
    }
}

/// Wrapped-field round-trip law over `u8` wire storage: for every domain
/// value `d` whose domain-to-wire mapping succeeds, writing `d` and reading
/// the same range back yields `Some(d)` again, in either byte order.
pub proof fn lemma_wrapped_round_trip_u8<D: LayoutAs<u8>>(
    d: D,
    bytes: Seq<u8>,
    offset: int,
    e: Endianness,
)
    requires
        D::to_wire_spec(d) is Some,
        0 <= offset,
        offset + 1 <= bytes.len(),
    ensures
        ({
            let u = D::to_wire_spec(d).unwrap();
            let written = spec_write(bytes, offset, bytes_of(u as nat, 1, e));
            D::from_wire_spec((value_of(written.subrange(offset, offset + 1), e) as u8))
                == Some(d)
        }),
{
    let u = D::to_wire_spec(d).unwrap();
    lemma_pow256_values();
    lemma_write_read_round_trip(bytes, offset, u as nat, 1, e);
    D::lemma_wire_round_trip(d);
}

/// Read the field stored at `offset` as wire type `u16` and convert it to
/// the domain type `D`. A wire value the domain rejects surfaces as
/// `Conversion`, never as a panic.
pub fn wrapped_read_u16_at<D: LayoutAs<u16>>(
    buffer: &Vec<u8>,
    offset: usize,
    e: Endianness,
) -> (r: Result<D, AccessError>)
    requires
        offset + 2 <= usize::MAX,
    ensures
        offset + 2 <= buffer@.len() ==> ({
            let u = (value_of(buffer@.subrange(offset as int, offset + 2), e) as u16);
            match D::from_wire_spec(u) {
                Some(d) => r is Ok && r->Ok_0 == d,
                None => r == Err::<D, AccessError>(AccessError::Conversion),
            }
        }),
        offset + 2 > buffer@.len() ==> r == Err::<D, AccessError>(
            (AccessError::BufferTooShort {
                required: (offset + 2) as usize,
                actual: buffer@.len() as usize,
            }),
        ),
{
    match crate::field::read_u16_at(buffer, offset, e) {
        Ok(u) => match D::from_wire(u) {
            Some(d) => Ok(d),
            None => Err(AccessError::Conversion),
        },
        Err(err) => Err(err),
    }
}

/// Convert `d` to its `u16` wire representation and write it at `offset`.
/// A domain value without a wire representation surfaces as `Conversion`
/// and leaves the buffer untouched.
pub fn wrapped_write_u16_at<D: LayoutAs<u16>>(
    buffer: &mut Vec<u8>,
    offset: usize,
    e: Endianness,
    d: D,
) -> (r: Result<(), AccessError>)
    requires
        offset + 2 <= usize::MAX,
    ensures
        match D::to_wire_spec(d) {
            None => final(buffer)@ == old(buffer)@ && r == Err::<(), AccessError>(
                AccessError::Conversion,
            ),
            Some(u) => {
                &&& offset + 2 <= old(buffer)@.len() ==> r is Ok && final(buffer)@ == spec_write(
                    old(buffer)@,
                    offset as int,
                    bytes_of(u as nat, 2, e),
                )
                &&& offset + 2 > old(buffer)@.len() ==> final(buffer)@ == old(buffer)@ && r
                    == Err::<(), AccessError>(
                    (AccessError::BufferTooShort {
                        required: (offset + 2) as usize,
                        actual: old(buffer)@.len() as usize,
                    }),
                )
            },
        },
{
    match d.to_wire() {
        Some(u) => crate::field::write_u16_at(buffer, offset, e, u),
        None => Err(AccessError::Conversion),
    }
}

/// Wrapped-field round-trip law over `u16` wire storage: for every domain
/// value `d` whose domain-to-wire mapping succeeds, writing `d` and reading
/// the same range back yields `Some(d)` again, in either byte order.
pub proof fn lemma_wrapped_round_trip_u16<D: LayoutAs<u16>>(
    d: D,
    bytes: Seq<u8>,
    offset: int,
    e: Endianness,
)
    requires
        D::to_wire_spec(d) is Some,
        0 <= offset,
        offset + 2 <= bytes.len(),
    ensures
        ({
            let u = D::to_wire_spec(d).unwrap();
            let written = spec_write(bytes, offset, bytes_of(u as nat, 2, e));
            D::from_wire_spec((value_of(written.subrange(offset, offset + 2), e) as u16))
                == Some(d)
        }),
{
    let u = D::to_wire_spec(d).unwrap();
    lemma_pow256_values();
    lemma_write_read_round_trip(bytes, offset, u as nat, 2, e);
    D::lemma_wire_round_trip(d);
}

/// Read the field stored at `offset` as wire type `u32` and convert it to
/// the domain type `D`. A wire value the domain rejects surfaces as
/// `Conversion`, never as a panic.
pub fn wrapped_read_u32_at<D: LayoutAs<u32>>(
    buffer: &Vec<u8>,
    offset: usize,
    e: Endianness,
) -> (r: Result<D, AccessError>)
    requires
        offset + 4 <= usize::MAX,
    ensures
        offset + 4 <= buffer@.len() ==> ({
            let u = (value_of(buffer@.subrange(offset as int, offset + 4), e) as u32);
            match D::from_wire_spec(u) {
                Some(d) => r is Ok && r->Ok_0 == d,
                None => r == Err::<D, AccessError>(AccessError::Conversion),
            }
        }),
        offset + 4 > buffer@.len() ==> r == Err::<D, AccessError>(
            (AccessError::BufferTooShort {
                required: (offset + 4) as usize,
                actual: buffer@.len() as usize,
            }),
        ),
{
    match crate::field::read_u32_at(buffer, offset, e) {
        Ok(u) => match D::from_wire(u) {
            Some(d) => Ok(d),
            None => Err(AccessError::Conversion),
        },
        Err(err) => Err(err),
    }
}

/// Convert `d` to its `u32` wire representation and write it at `offset`.
/// A domain value without a wire representation surfaces as `Conversion`
/// and leaves the buffer untouched.
pub fn wrapped_write_u32_at<D: LayoutAs<u32>>(
    buffer: &mut Vec<u8>,
    offset: usize,
    e: Endianness,
    d: D,
) -> (r: Result<(), AccessError>)
    requires
        offset + 4 <= usize::MAX,
    ensures
        match D::to_wire_spec(d) {
            None => final(buffer)@ == old(buffer)@ && r == Err::<(), AccessError>(
                AccessError::Conversion,
            ),
            Some(u) => {
                &&& offset + 4 <= old(buffer)@.len() ==> r is Ok && final(buffer)@ == spec_write(
                    old(buffer)@,
                    offset as int,
                    bytes_of(u as nat, 4, e),
                )
                &&& offset + 4 > old(buffer)@.len() ==> final(buffer)@ == old(buffer)@ && r
                    == Err::<(), AccessError>(
                    (AccessError::BufferTooShort {
                        required: (offset + 4) as usize,
                        actual: old(buffer)@.len() as usize,
                    }),
                )
            },
        },
{
    match d.to_wire() {
        Some(u) => crate::field::write_u32_at(buffer, offset, e, u),
        None => Err(AccessError::Conversion),
    }
}

/// Wrapped-field round-trip law over `u32` wire storage: for every domain
/// value `d` whose domain-to-wire mapping succeeds, writing `d` and reading
/// the same range back yields `Some(d)` again, in either byte order.
pub proof fn lemma_wrapped_round_trip_u32<D: LayoutAs<u32>>(
    d: D,
    bytes: Seq<u8>,
    offset: int,
    e: Endianness,
)
    requires
        D::to_wire_spec(d) is Some,
        0 <= offset,
        offset + 4 <= bytes.len(),
    ensures
        ({
            let u = D::to_wire_spec(d).unwrap();
            let written = spec_write(bytes, offset, bytes_of(u as nat, 4, e));
            D::from_wire_spec((value_of(written.subrange(offset, offset + 4), e) as u32))
                == Some(d)
        }),
{
    let u = D::to_wire_spec(d).unwrap();
    lemma_pow256_values();
    lemma_write_read_round_trip(bytes, offset, u as nat, 4, e);
    D::lemma_wire_round_trip(d);
}

/// Read the field stored at `offset` as wire type `u64` and convert it to
/// the domain type `D`. A wire value the domain rejects surfaces as
/// `Conversion`, never as a panic.
pub fn wrapped_read_u64_at<D: LayoutAs<u64>>(
    buffer: &Vec<u8>,
    offset: usize,
    e: Endianness,
) -> (r: Result<D, AccessError>)
    requires
        offset + 8 <= usize::MAX,
    ensures
        offset + 8 <= buffer@.len() ==> ({
            let u = (value_of(buffer@.subrange(offset as int, offset + 8), e) as u64);
            match D::from_wire_spec(u) {
                Some(d) => r is Ok && r->Ok_0 == d,
                None => r == Err::<D, AccessError>(AccessError::Conversion),
            }
        }),
        offset + 8 > buffer@.len() ==> r == Err::<D, AccessError>(
            (AccessError::BufferTooShort {
                required: (offset + 8) as usize,
                actual: buffer@.len() as usize,
            }),
        ),
{
    match crate::field::read_u64_at(buffer, offset, e) {
        Ok(u) => match D::from_wire(u) {
            Some(d) => Ok(d),
            None => Err(AccessError::Conversion),
        },
        Err(err) => Err(err),
    }
}

/// Convert `d` to its `u64` wire representation and write it at `offset`.
/// A domain value without a wire representation surfaces as `Conversion`
/// and leaves the buffer untouched.
pub fn wrapped_write_u64_at<D: LayoutAs<u64>>(
    buffer: &mut Vec<u8>,
    offset: usize,
    e: Endianness,
    d: D,
) -> (r: Result<(), AccessError>)
    requires
        offset + 8 <= usize::MAX,
    ensures
        match D::to_wire_spec(d) {
            None => final(buffer)@ == old(buffer)@ && r == Err::<(), AccessError>(
                AccessError::Conversion,
            ),
            Some(u) => {
                &&& offset + 8 <= old(buffer)@.len() ==> r is Ok && final(buffer)@ == spec_write(
                    old(buffer)@,
                    offset as int,
                    bytes_of(u as nat, 8, e),
                )
                &&& offset + 8 > old(buffer)@.len() ==> final(buffer)@ == old(buffer)@ && r
                    == Err::<(), AccessError>(
                    (AccessError::BufferTooShort {
                        required: (offset + 8) as usize,
                        actual: old(buffer)@.len() as usize,
                    }),
                )
            },
        },
{
    match d.to_wire() {
        Some(u) => crate::field::write_u64_at(buffer, offset, e, u),
        None => Err(AccessError::Conversion),
    }
}

/// Wrapped-field round-trip law over `u64` wire storage: for every domain
/// value `d` whose domain-to-wire mapping succeeds, writing `d` and reading
/// the same range back yields `Some(d)` again, in either byte order.
pub proof fn lemma_wrapped_round_trip_u64<D: LayoutAs<u64>>(
    d: D,
    bytes: Seq<u8>,
    offset: int,
    e: Endianness,
)
    requires
        D::to_wire_spec(d) is Some,
        0 <= offset,
        offset + 8 <= bytes.len(),
    ensures
        ({
            let u = D::to_wire_spec(d).unwrap();
            let written = spec_write(bytes, offset, bytes_of(u as nat, 8, e));
            D::from_wire_spec((value_of(written.subrange(offset, offset + 8), e) as u64))
                == Some(d)
        }),
{
    let u = D::to_wire_spec(d).unwrap();
    lemma_pow256_values();
    lemma_write_read_round_trip(bytes, offset, u as nat, 8, e);
    D::lemma_wire_round_trip(d);
}

/// Read the field stored at `offset` as wire type `u128` and convert it to
/// the domain type `D`. A wire value the domain rejects surfaces as
/// `Conversion`, never as a panic.
pub fn wrapped_read_u128_at<D: LayoutAs<u128>>(
    buffer: &Vec<u8>,
    offset: usize,
    e: Endianness,
) -> (r: Result<D, AccessError>)
    requires
        offset + 16 <= usize::MAX,
    ensures
        offset + 16 <= buffer@.len() ==> ({
            let u = (value_of(buffer@.subrange(offset as int, offset + 16), e) as u128);
            match D::from_wire_spec(u) {
                Some(d) => r is Ok && r->Ok_0 == d,
                None => r == Err::<D, AccessError>(AccessError::Conversion),
            }
        }),
        offset + 16 > buffer@.len() ==> r == Err::<D, AccessError>(
            (AccessError::BufferTooShort {
                required: (offset + 16) as usize,
                actual: buffer@.len() as usize,
            }),
        ),
{
    match crate::field::read_u128_at(buffer, offset, e) {
        Ok(u) => match D::from_wire(u) {
            Some(d) => Ok(d),
            None => Err(AccessError::Conversion),
        },
        Err(err) => Err(err),
    }
}

/// Convert `d` to its `u128` wire representation and write it at `offset`.
/// A domain value without a wire representation surfaces as `Conversion`
/// and leaves the buffer untouched.
pub fn wrapped_write_u128_at<D: LayoutAs<u128>>(
    buffer: &mut Vec<u8>,
    offset: usize,
    e: Endianness,
    d: D,
) -> (r: Result<(), AccessError>)
    requires
        offset + 16 <= usize::MAX,
    ensures
        match D::to_wire_spec(d) {
            None => final(buffer)@ == old(buffer)@ && r == Err::<(), AccessError>(
                AccessError::Conversion,
            ),
            Some(u) => {
                &&& offset + 16 <= old(buffer)@.len() ==> r is Ok && final(buffer)@ == spec_write(
                    old(buffer)@,
                    offset as int,
                    bytes_of(u as nat, 16, e),
                )
                &&& offset + 16 > old(buffer)@.len() ==> final(buffer)@ == old(buffer)@ && r
                    == Err::<(), AccessError>(
                    (AccessError::BufferTooShort {
                        required: (offset + 16) as usize,
                        actual: old(buffer)@.len() as usize,
                    }),
                )
            },
        },
{
    match d.to_wire() {
        Some(u) => crate::field::write_u128_at(buffer, offset, e, u),
        None => Err(AccessError::Conversion),
    }
}

/// Wrapped-field round-trip law over `u128` wire storage: for every domain
/// value `d` whose domain-to-wire mapping succeeds, writing `d` and reading
/// the same range back yields `Some(d)` again, in either byte order.
pub proof fn lemma_wrapped_round_trip_u128<D: LayoutAs<u128>>(
    d: D,
    bytes: Seq<u8>,
    offset: int,
    e: Endianness,
)
    requires
        D::to_wire_spec(d) is Some,
        0 <= offset,
        offset + 16 <= bytes.len(),
    ensures
        ({
            let u = D::to_wire_spec(d).unwrap();
            let written = spec_write(bytes, offset, bytes_of(u as nat, 16, e));
            D::from_wire_spec((value_of(written.subrange(offset, offset + 16), e) as u128))
                == Some(d)
        }),
{
    let u = D::to_wire_spec(d).unwrap();
    lemma_pow256_values();
    lemma_write_read_round_trip(bytes, offset, u as nat, 16, e);
    D::lemma_wire_round_trip(d);
}

/// An example domain type: a three-state operating mode stored on the wire
/// as a `u16`. Wire values `0`, `1` and `2` mean idle, active and shutdown;
/// every other wire value is rejected by the wire-to-domain conversion.
#[derive(Clone, Copy, PartialEq, Eq, Structural, Debug)]
pub enum Mode {
    Idle,
    Active,
    Shutdown,
}

impl LayoutAs<u16> for Mode {
    open spec fn from_wire_spec(u: u16) -> Option<Mode> {
        if u == 0 {
            Some(Mode::Idle)
        } else if u == 1 {
            Some(Mode::Active)
        } else if u == 2 {
            Some(Mode::Shutdown)
        } else {
            None
        }
    }

    open spec fn to_wire_spec(d: Mode) -> Option<u16> {
        match d {
            Mode::Idle => Some(0u16),
            Mode::Active => Some(1u16),
            Mode::Shutdown => Some(2u16),
        }
    }

    proof fn lemma_wire_round_trip(d: Mode) {
    }

    fn from_wire(u: u16) -> (r: Option<Mode>) {
        if u == 0 {
            Some(Mode::Idle)
        } else if u == 1 {
            Some(Mode::Active)
        } else if u == 2 {
            Some(Mode::Shutdown)
        } else {
            None
        }
    }

    fn to_wire(self) -> (r: Option<u16>) {
        match self {
            Mode::Idle => Some(0),
            Mode::Active => Some(1),
            Mode::Shutdown => Some(2),
        }
    }
}

} // verus!
