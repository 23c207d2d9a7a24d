//! Views: a live binding of a [`Layout`] to a concrete byte buffer,
//! offering one read, write and extract accessor per field.
//!
//! The buffer is held through an ownership-tagged [`StorageHandle`]:
//! shared-borrowed, exclusively-borrowed, or owned. Any number of
//! `SharedBorrow` handles over the same buffer may coexist and read
//! concurrently; writes are offered only through the `ExclusiveBorrow` and
//! `Owned` variants, of which the borrow rules allow at most one over a
//! given buffer at a time, so no second handle can observe a buffer while
//! it is written. Attempting a write accessor on a view that holds only a
//! shared borrow is rejected statically, by the accessor's precondition.
//!
//! A view validates nothing about the buffer's length when it is created:
//! each field access checks the range it is about to touch, so a view over a
//! buffer shorter than the layout's total size is fine as long as the fields
//! past the end are never accessed.

use crate::endian::bytes_of;
use crate::endian::value_of;
use crate::field::read_bytes_at;
use crate::field::read_tail_at;
use crate::field::signed_of;
use crate::field::spec_write;
use crate::field::unsigned_of;
use crate::field::write_bytes_at;
use crate::field::write_tail_at;
use crate::field::AccessError;
use crate::layout::lemma_field_range_fits;
use crate::layout::Layout;
use crate::layout::WireType;
use crate::wrapped::wrapped_read_u8_at;
use crate::wrapped::wrapped_read_u16_at;
use crate::wrapped::wrapped_read_u32_at;
use crate::wrapped::wrapped_read_u64_at;
use crate::wrapped::wrapped_read_u128_at;
use crate::wrapped::wrapped_write_u8_at;
use crate::wrapped::wrapped_write_u16_at;
use crate::wrapped::wrapped_write_u32_at;
use crate::wrapped::wrapped_write_u64_at;
use crate::wrapped::wrapped_write_u128_at;
use crate::wrapped::LayoutAs;
use vstd::pervasive::unreached;
use vstd::prelude::*;

verus! {

/// An ownership-tagged wrapper around a byte buffer: shared-borrowed,
/// exclusively-borrowed, or owned. Every handle supports reading; the
/// exclusive and owned variants also support writing. An owned buffer can
/// be taken back through [`LayoutView::into_storage`].
pub enum StorageHandle<'a> {
    /// A shared borrow of a buffer: read-only, and any number of handles
    /// over the same buffer may read concurrently.
    SharedBorrow(&'a Vec<u8>),
    /// An exclusive mutable borrow of a buffer: writes are allowed, and
    /// while this handle exists no other reference to the buffer can.
    ExclusiveBorrow(&'a mut Vec<u8>),
    /// An owned buffer: exclusive by construction, so writes are allowed.
    Owned(Vec<u8>),
}

impl<'a> StorageHandle<'a> {
    /// The bytes the handle gives access to.
    pub open spec fn spec_bytes(self) -> Seq<u8> {
        match self {
            StorageHandle::SharedBorrow(b) => b@,
            StorageHandle::ExclusiveBorrow(b) => b@,
            StorageHandle::Owned(v) => v@,
        }
    }

    /// Whether the handle permits writes.
    pub open spec fn is_writable(self) -> bool {
        self is Owned || self is ExclusiveBorrow
    }

    /// The readable slice: available for every handle.
    pub fn readable(&self) -> (r: &Vec<u8>)
        ensures
            r@ == self.spec_bytes(),
    {
        match self {
            StorageHandle::SharedBorrow(b) => b,
            StorageHandle::ExclusiveBorrow(b) => b,
            StorageHandle::Owned(v) => v,
        }
    }
}

/// A live binding of a layout to a concrete byte buffer, offering per-field
/// accessors whose byte ranges were resolved once, at layout construction.
pub struct LayoutView<'l, 'b> {
    pub layout: &'l Layout,
    pub storage: StorageHandle<'b>,
}

/// The outcome of reading field `i` of `layout` from a buffer holding
/// `bytes`: the field's raw byte range, or `BufferTooShort` when that range
/// extends past the end of the buffer. A read is a function of the layout
/// and the buffer bytes alone.
pub open spec fn spec_field_read(layout: Layout, bytes: Seq<u8>, i: int) -> Result<
    Seq<u8>,
    AccessError,
> {
    let f = layout.spec_fields()[i];
    match f.wire_type.size_spec() {
        Some(s) => if f.offset + s <= bytes.len() {
            Ok(bytes.subrange(f.offset as int, f.offset + s))
        } else {
            Err(
                (AccessError::BufferTooShort {
                    required: (f.offset + s) as usize,
                    actual: bytes.len() as usize,
                }),
            )
        },
        None => if f.offset <= bytes.len() {
            Ok(bytes.subrange(f.offset as int, bytes.len() as int))
        } else {
            Err(
                (AccessError::BufferTooShort {
                    required: f.offset,
                    actual: bytes.len() as usize,
                }),
            )
        },
    }
}

/// Shared readers observe identical, consistent values: any number of
/// shared-borrow views may be bound to one buffer at a time, and because a
/// field read depends on nothing but the layout and the buffer bytes, two
/// such views agree on every field.
pub proof fn lemma_shared_views_read_alike(v1: LayoutView, v2: LayoutView, i: int)
    requires
        v1.layout == v2.layout,
        v1.storage.spec_bytes() == v2.storage.spec_bytes(),
    ensures
        spec_field_read(*v1.layout, v1.storage.spec_bytes(), i) == spec_field_read(
            *v2.layout,
            v2.storage.spec_bytes(),
            i,
        ),
{
}

impl<'l, 'b> LayoutView<'l, 'b> {
    /// Bind `layout` to `storage`. The buffer's length is not validated
    /// here: the length check happens lazily, per field, on access.
    pub fn new(layout: &'l Layout, storage: StorageHandle<'b>) -> (r: Self)
        ensures
            r.layout == layout,
            r.storage == storage,
    {
        LayoutView { layout, storage }
    }

    /// Consume the view and hand the storage handle back unchanged, so the
    /// buffer can be reused for another purpose.
    pub fn into_storage(self) -> (r: StorageHandle<'b>)
        ensures
            r == self.storage,
    {
        self.storage
    }

    /// Read the `u16` field at index `i`.
    pub fn read_u16(&self, i: usize) -> (r: Result<u16, AccessError>)
        requires
            i < self.layout.spec_fields().len(),
            self.layout.spec_fields()[i as int].wire_type == WireType::U16,
        ensures
            ({
                let off = self.layout.spec_fields()[i as int].offset;
                let bytes = self.storage.spec_bytes();
                &&& off + 2 <= bytes.len() ==> r is Ok && r->Ok_0 as nat == value_of(
                    bytes.subrange(off as int, off + 2),
                    self.layout.spec_endianness(),
                )
                &&& off + 2 > bytes.len() ==> r == Err::<u16, AccessError>(
                    (AccessError::BufferTooShort {
                        required: (off + 2) as usize,
                        actual: bytes.len() as usize,
                    }),
                )
            }),
    {
        self.layout.wf_facts();
        proof {
            lemma_field_range_fits(
                self.layout.spec_fields(),
                self.layout.spec_total_size(),
                i as int,
            );
        }
        let off = self.layout.field_offset(i);
        let e = self.layout.endianness();
        crate::field::read_u16_at(self.storage.readable(), off, e)
    }

    /// Write the `u16` field at index `i`. Writing needs a writable handle:
    /// a view over a shared borrow offers no write accessor.
    pub fn write_u16(&mut self, i: usize, v: u16) -> (r: Result<(), AccessError>)
        requires
            old(self).storage.is_writable(),
            i < old(self).layout.spec_fields().len(),
            old(self).layout.spec_fields()[i as int].wire_type == WireType::U16,
        ensures
            final(self).layout == old(self).layout,
            final(self).storage.is_writable(),
            ({
                let off = old(self).layout.spec_fields()[i as int].offset;
                let bytes = old(self).storage.spec_bytes();
                let newbytes = final(self).storage.spec_bytes();
                &&& off + 2 <= bytes.len() ==> r is Ok && newbytes == spec_write(
                    bytes,
                    off as int,
                    bytes_of(v as nat, 2, old(self).layout.spec_endianness()),
                )
                &&& off + 2 > bytes.len() ==> newbytes == bytes && r == Err::<(), AccessError>(
                    (AccessError::BufferTooShort {
                        required: (off + 2) as usize,
                        actual: bytes.len() as usize,
                    }),
                )
            }),
    {
        self.layout.wf_facts();
        proof {
            lemma_field_range_fits(
                self.layout.spec_fields(),
                self.layout.spec_total_size(),
                i as int,
            );
        }
        let off = self.layout.field_offset(i);
        let e = self.layout.endianness();
        match &mut self.storage {
            StorageHandle::Owned(buf) => crate::field::write_u16_at(buf, off, e, v),
            StorageHandle::ExclusiveBorrow(buf) => crate::field::write_u16_at(buf, off, e, v),
            StorageHandle::SharedBorrow(_) => unreached(),
        }
    }

    /// Read the `u8` field at index `i`.
    pub fn read_u8(&self, i: usize) -> (r: Result<u8, AccessError>)
        requires
            i < self.layout.spec_fields().len(),
            self.layout.spec_fields()[i as int].wire_type == WireType::U8,
        ensures
            ({
                let off = self.layout.spec_fields()[i as int].offset;
                let bytes = self.storage.spec_bytes();
                &&& off + 1 <= bytes.len() ==> r is Ok && r->Ok_0 as nat == value_of(
                    bytes.subrange(off as int, off + 1),
                    self.layout.spec_endianness(),
                )
                &&& off + 1 > bytes.len() ==> r == Err::<u8, AccessError>(
                    (AccessError::BufferTooShort {
                        required: (off + 1) as usize,
                        actual: bytes.len() as usize,
                    }),
                )
            }),
    {
        self.layout.wf_facts();
        proof {
            lemma_field_range_fits(
                self.layout.spec_fields(),
                self.layout.spec_total_size(),
                i as int,
            );
        }
        let off = self.layout.field_offset(i);
        let e = self.layout.endianness();
        crate::field::read_u8_at(self.storage.readable(), off, e)
    }

    /// Write the `u8` field at index `i`. Writing needs a writable
    /// handle: a view over a shared borrow offers no write accessor.
    pub fn write_u8(&mut self, i: usize, v: u8) -> (r: Result<(), AccessError>)
        requires
            old(self).storage.is_writable(),
            i < old(self).layout.spec_fields().len(),
            old(self).layout.spec_fields()[i as int].wire_type == WireType::U8,
        ensures
            final(self).layout == old(self).layout,
            final(self).storage.is_writable(),
            ({
                let off = old(self).layout.spec_fields()[i as int].offset;
                let bytes = old(self).storage.spec_bytes();
                let newbytes = final(self).storage.spec_bytes();
                &&& off + 1 <= bytes.len() ==> r is Ok && newbytes == spec_write(
                    bytes,
                    off as int,
                    bytes_of(v as nat, 1, old(self).layout.spec_endianness()),
                )
                &&& off + 1 > bytes.len() ==> newbytes == bytes && r == Err::<(), AccessError>(
                    (AccessError::BufferTooShort {
                        required: (off + 1) as usize,
                        actual: bytes.len() as usize,
                    }),
                )
            }),
    {
        self.layout.wf_facts();
        proof {
            lemma_field_range_fits(
                self.layout.spec_fields(),
                self.layout.spec_total_size(),
                i as int,
            );
        }
        let off = self.layout.field_offset(i);
        let e = self.layout.endianness();
        match &mut self.storage {
            StorageHandle::Owned(buf) => crate::field::write_u8_at(buf, off, e, v),
            StorageHandle::ExclusiveBorrow(buf) => crate::field::write_u8_at(buf, off, e, v),
            StorageHandle::SharedBorrow(_) => unreached(),
        }
    }

    /// Read the `i8` field at index `i`.
    pub fn read_i8(&self, i: usize) -> (r: Result<i8, AccessError>)
        requires
            i < self.layout.spec_fields().len(),
            self.layout.spec_fields()[i as int].wire_type == WireType::I8,
        ensures
            ({
                let off = self.layout.spec_fields()[i as int].offset;
                let bytes = self.storage.spec_bytes();
                &&& off + 1 <= bytes.len() ==> r is Ok && r->Ok_0 as int == signed_of(
                    value_of(
                        bytes.subrange(off as int, off + 1),
                        self.layout.spec_endianness(),
                    ),
                    1,
                )
                &&& off + 1 > bytes.len() ==> r == Err::<i8, AccessError>(
                    (AccessError::BufferTooShort {
                        required: (off + 1) as usize,
                        actual: bytes.len() as usize,
                    }),
                )
            }),
    {
        self.layout.wf_facts();
        proof {
            lemma_field_range_fits(
                self.layout.spec_fields(),
                self.layout.spec_total_size(),
                i as int,
            );
        }
        let off = self.layout.field_offset(i);
        let e = self.layout.endianness();
        crate::field::read_i8_at(self.storage.readable(), off, e)
    }

    /// Write the `i8` field at index `i`. Writing needs a writable
    /// handle: a view over a shared borrow offers no write accessor.
    pub fn write_i8(&mut self, i: usize, v: i8) -> (r: Result<(), AccessError>)
        requires
            old(self).storage.is_writable(),
            i < old(self).layout.spec_fields().len(),
            old(self).layout.spec_fields()[i as int].wire_type == WireType::I8,
        ensures
            final(self).layout == old(self).layout,
            final(self).storage.is_writable(),
            ({
                let off = old(self).layout.spec_fields()[i as int].offset;
                let bytes = old(self).storage.spec_bytes();
                let newbytes = final(self).storage.spec_bytes();
                &&& off + 1 <= bytes.len() ==> r is Ok && newbytes == spec_write(
                    bytes,
                    off as int,
                    bytes_of(unsigned_of(v as int, 1), 1, old(self).layout.spec_endianness()),
                )
                &&& off + 1 > bytes.len() ==> newbytes == bytes && r == Err::<(), AccessError>(
                    (AccessError::BufferTooShort {
                        required: (off + 1) as usize,
                        actual: bytes.len() as usize,
                    }),
                )
            }),
    {
        self.layout.wf_facts();
        proof {
            lemma_field_range_fits(
                self.layout.spec_fields(),
                self.layout.spec_total_size(),
                i as int,
            );
        }
        let off = self.layout.field_offset(i);
        let e = self.layout.endianness();
        match &mut self.storage {
            StorageHandle::Owned(buf) => crate::field::write_i8_at(buf, off, e, v),
            StorageHandle::ExclusiveBorrow(buf) => crate::field::write_i8_at(buf, off, e, v),
            StorageHandle::SharedBorrow(_) => unreached(),
        }
    }

    /// Read the `i16` field at index `i`.
    pub fn read_i16(&self, i: usize) -> (r: Result<i16, AccessError>)
        requires
            i < self.layout.spec_fields().len(),
            self.layout.spec_fields()[i as int].wire_type == WireType::I16,
        ensures
            ({
                let off = self.layout.spec_fields()[i as int].offset;
                let bytes = self.storage.spec_bytes();
                &&& off + 2 <= bytes.len() ==> r is Ok && r->Ok_0 as int == signed_of(
                    value_of(
                        bytes.subrange(off as int, off + 2),
                        self.layout.spec_endianness(),
                    ),
                    2,
                )
                &&& off + 2 > bytes.len() ==> r == Err::<i16, AccessError>(
                    (AccessError::BufferTooShort {
                        required: (off + 2) as usize,
                        actual: bytes.len() as usize,
                    }),
                )
            }),
    {
        self.layout.wf_facts();
        proof {
            lemma_field_range_fits(
                self.layout.spec_fields(),
                self.layout.spec_total_size(),
                i as int,
            );
        }
        let off = self.layout.field_offset(i);
        let e = self.layout.endianness();
        crate::field::read_i16_at(self.storage.readable(), off, e)
    }

    /// Write the `i16` field at index `i`. Writing needs a writable
    /// handle: a view over a shared borrow offers no write accessor.
    pub fn write_i16(&mut self, i: usize, v: i16) -> (r: Result<(), AccessError>)
        requires
            old(self).storage.is_writable(),
            i < old(self).layout.spec_fields().len(),
            old(self).layout.spec_fields()[i as int].wire_type == WireType::I16,
        ensures
            final(self).layout == old(self).layout,
            final(self).storage.is_writable(),
            ({
                let off = old(self).layout.spec_fields()[i as int].offset;
                let bytes = old(self).storage.spec_bytes();
                let newbytes = final(self).storage.spec_bytes();
                &&& off + 2 <= bytes.len() ==> r is Ok && newbytes == spec_write(
                    bytes,
                    off as int,
                    bytes_of(unsigned_of(v as int, 2), 2, old(self).layout.spec_endianness()),
                )
                &&& off + 2 > bytes.len() ==> newbytes == bytes && r == Err::<(), AccessError>(
                    (AccessError::BufferTooShort {
                        required: (off + 2) as usize,
                        actual: bytes.len() as usize,
                    }),
                )
            }),
    {
        self.layout.wf_facts();
        proof {
            lemma_field_range_fits(
                self.layout.spec_fields(),
                self.layout.spec_total_size(),
                i as int,
            );
        }
        let off = self.layout.field_offset(i);
        let e = self.layout.endianness();
        match &mut self.storage {
            StorageHandle::Owned(buf) => crate::field::write_i16_at(buf, off, e, v),
            StorageHandle::ExclusiveBorrow(buf) => crate::field::write_i16_at(buf, off, e, v),
            StorageHandle::SharedBorrow(_) => unreached(),
        }
    }

    /// Read the `u32` field at index `i`.
    pub fn read_u32(&self, i: usize) -> (r: Result<u32, AccessError>)
        requires
            i < self.layout.spec_fields().len(),
            self.layout.spec_fields()[i as int].wire_type == WireType::U32,
        ensures
            ({
                let off = self.layout.spec_fields()[i as int].offset;
                let bytes = self.storage.spec_bytes();
                &&& off + 4 <= bytes.len() ==> r is Ok && r->Ok_0 as nat == value_of(
                    bytes.subrange(off as int, off + 4),
                    self.layout.spec_endianness(),
                )
                &&& off + 4 > bytes.len() ==> r == Err::<u32, AccessError>(
                    (AccessError::BufferTooShort {
                        required: (off + 4) as usize,
                        actual: bytes.len() as usize,
                    }),
                )
            }),
    {
        self.layout.wf_facts();
        proof {
            lemma_field_range_fits(
                self.layout.spec_fields(),
                self.layout.spec_total_size(),
                i as int,
            );
        }
        let off = self.layout.field_offset(i);
        let e = self.layout.endianness();
        crate::field::read_u32_at(self.storage.readable(), off, e)
    }

    /// Write the `u32` field at index `i`. Writing needs a writable
    /// handle: a view over a shared borrow offers no write accessor.
    pub fn write_u32(&mut self, i: usize, v: u32) -> (r: Result<(), AccessError>)
        requires
            old(self).storage.is_writable(),
            i < old(self).layout.spec_fields().len(),
            old(self).layout.spec_fields()[i as int].wire_type == WireType::U32,
        ensures
            final(self).layout == old(self).layout,
            final(self).storage.is_writable(),
            ({
                let off = old(self).layout.spec_fields()[i as int].offset;
                let bytes = old(self).storage.spec_bytes();
                let newbytes = final(self).storage.spec_bytes();
                &&& off + 4 <= bytes.len() ==> r is Ok && newbytes == spec_write(
                    bytes,
                    off as int,
                    bytes_of(v as nat, 4, old(self).layout.spec_endianness()),
                )
                &&& off + 4 > bytes.len() ==> newbytes == bytes && r == Err::<(), AccessError>(
                    (AccessError::BufferTooShort {
                        required: (off + 4) as usize,
                        actual: bytes.len() as usize,
                    }),
                )
            }),
    {
        self.layout.wf_facts();
        proof {
            lemma_field_range_fits(
                self.layout.spec_fields(),
                self.layout.spec_total_size(),
                i as int,
            );
        }
        let off = self.layout.field_offset(i);
        let e = self.layout.endianness();
        match &mut self.storage {
            StorageHandle::Owned(buf) => crate::field::write_u32_at(buf, off, e, v),
            StorageHandle::ExclusiveBorrow(buf) => crate::field::write_u32_at(buf, off, e, v),
            StorageHandle::SharedBorrow(_) => unreached(),
        }
    }

    /// Read the `i32` field at index `i`.
    pub fn read_i32(&self, i: usize) -> (r: Result<i32, AccessError>)
        requires
            i < self.layout.spec_fields().len(),
            self.layout.spec_fields()[i as int].wire_type == WireType::I32,
        ensures
            ({
                let off = self.layout.spec_fields()[i as int].offset;
                let bytes = self.storage.spec_bytes();
                &&& off + 4 <= bytes.len() ==> r is Ok && r->Ok_0 as int == signed_of(
                    value_of(
                        bytes.subrange(off as int, off + 4),
                        self.layout.spec_endianness(),
                    ),
                    4,
                )
                &&& off + 4 > bytes.len() ==> r == Err::<i32, AccessError>(
                    (AccessError::BufferTooShort {
                        required: (off + 4) as usize,
                        actual: bytes.len() as usize,
                    }),
                )
            }),
    {
        self.layout.wf_facts();
        proof {
            lemma_field_range_fits(
                self.layout.spec_fields(),
                self.layout.spec_total_size(),
                i as int,
            );
        }
        let off = self.layout.field_offset(i);
        let e = self.layout.endianness();
        crate::field::read_i32_at(self.storage.readable(), off, e)
    }

    /// Write the `i32` field at index `i`. Writing needs a writable
    /// handle: a view over a shared borrow offers no write accessor.
    pub fn write_i32(&mut self, i: usize, v: i32) -> (r: Result<(), AccessError>)
        requires
            old(self).storage.is_writable(),
            i < old(self).layout.spec_fields().len(),
            old(self).layout.spec_fields()[i as int].wire_type == WireType::I32,
        ensures
            final(self).layout == old(self).layout,
            final(self).storage.is_writable(),
            ({
                let off = old(self).layout.spec_fields()[i as int].offset;
                let bytes = old(self).storage.spec_bytes();
                let newbytes = final(self).storage.spec_bytes();
                &&& off + 4 <= bytes.len() ==> r is Ok && newbytes == spec_write(
                    bytes,
                    off as int,
                    bytes_of(unsigned_of(v as int, 4), 4, old(self).layout.spec_endianness()),
                )
                &&& off + 4 > bytes.len() ==> newbytes == bytes && r == Err::<(), AccessError>(
                    (AccessError::BufferTooShort {
                        required: (off + 4) as usize,
                        actual: bytes.len() as usize,
                    }),
                )
            }),
    {
        self.layout.wf_facts();
        proof {
            lemma_field_range_fits(
                self.layout.spec_fields(),
                self.layout.spec_total_size(),
                i as int,
            );
        }
        let off = self.layout.field_offset(i);
        let e = self.layout.endianness();
        match &mut self.storage {
            StorageHandle::Owned(buf) => crate::field::write_i32_at(buf, off, e, v),
            StorageHandle::ExclusiveBorrow(buf) => crate::field::write_i32_at(buf, off, e, v),
            StorageHandle::SharedBorrow(_) => unreached(),
        }
    }

    /// Read the `u64` field at index `i`.
    pub fn read_u64(&self, i: usize) -> (r: Result<u64, AccessError>)
        requires
            i < self.layout.spec_fields().len(),
            self.layout.spec_fields()[i as int].wire_type == WireType::U64,
        ensures
            ({
                let off = self.layout.spec_fields()[i as int].offset;
                let bytes = self.storage.spec_bytes();
                &&& off + 8 <= bytes.len() ==> r is Ok && r->Ok_0 as nat == value_of(
                    bytes.subrange(off as int, off + 8),
                    self.layout.spec_endianness(),
                )
                &&& off + 8 > bytes.len() ==> r == Err::<u64, AccessError>(
                    (AccessError::BufferTooShort {
                        required: (off + 8) as usize,
                        actual: bytes.len() as usize,
                    }),
                )
            }),
    {
        self.layout.wf_facts();
        proof {
            lemma_field_range_fits(
                self.layout.spec_fields(),
                self.layout.spec_total_size(),
                i as int,
            );
        }
        let off = self.layout.field_offset(i);
        let e = self.layout.endianness();
        crate::field::read_u64_at(self.storage.readable(), off, e)
    }

    /// Write the `u64` field at index `i`. Writing needs a writable
    /// handle: a view over a shared borrow offers no write accessor.
    pub fn write_u64(&mut self, i: usize, v: u64) -> (r: Result<(), AccessError>)
        requires
            old(self).storage.is_writable(),
            i < old(self).layout.spec_fields().len(),
            old(self).layout.spec_fields()[i as int].wire_type == WireType::U64,
        ensures
            final(self).layout == old(self).layout,
            final(self).storage.is_writable(),
            ({
                let off = old(self).layout.spec_fields()[i as int].offset;
                let bytes = old(self).storage.spec_bytes();
                let newbytes = final(self).storage.spec_bytes();
                &&& off + 8 <= bytes.len() ==> r is Ok && newbytes == spec_write(
                    bytes,
                    off as int,
                    bytes_of(v as nat, 8, old(self).layout.spec_endianness()),
                )
                &&& off + 8 > bytes.len() ==> newbytes == bytes && r == Err::<(), AccessError>(
                    (AccessError::BufferTooShort {
                        required: (off + 8) as usize,
                        actual: bytes.len() as usize,
                    }),
                )
            }),
    {
        self.layout.wf_facts();
        proof {
            lemma_field_range_fits(
                self.layout.spec_fields(),
                self.layout.spec_total_size(),
                i as int,
            );
        }
        let off = self.layout.field_offset(i);
        let e = self.layout.endianness();
        match &mut self.storage {
            StorageHandle::Owned(buf) => crate::field::write_u64_at(buf, off, e, v),
            StorageHandle::ExclusiveBorrow(buf) => crate::field::write_u64_at(buf, off, e, v),
            StorageHandle::SharedBorrow(_) => unreached(),
        }
    }

    /// Read the `i64` field at index `i`.
    pub fn read_i64(&self, i: usize) -> (r: Result<i64, AccessError>)
        requires
            i < self.layout.spec_fields().len(),
            self.layout.spec_fields()[i as int].wire_type == WireType::I64,
        ensures
            ({
                let off = self.layout.spec_fields()[i as int].offset;
                let bytes = self.storage.spec_bytes();
                &&& off + 8 <= bytes.len() ==> r is Ok && r->Ok_0 as int == signed_of(
                    value_of(
                        bytes.subrange(off as int, off + 8),
                        self.layout.spec_endianness(),
                    ),
                    8,
                )
                &&& off + 8 > bytes.len() ==> r == Err::<i64, AccessError>(
                    (AccessError::BufferTooShort {
                        required: (off + 8) as usize,
                        actual: bytes.len() as usize,
                    }),
                )
            }),
    {
        self.layout.wf_facts();
        proof {
            lemma_field_range_fits(
                self.layout.spec_fields(),
                self.layout.spec_total_size(),
                i as int,
            );
        }
        let off = self.layout.field_offset(i);
        let e = self.layout.endianness();
        crate::field::read_i64_at(self.storage.readable(), off, e)
    }

    /// Write the `i64` field at index `i`. Writing needs a writable
    /// handle: a view over a shared borrow offers no write accessor.
    pub fn write_i64(&mut self, i: usize, v: i64) -> (r: Result<(), AccessError>)
        requires
            old(self).storage.is_writable(),
            i < old(self).layout.spec_fields().len(),
            old(self).layout.spec_fields()[i as int].wire_type == WireType::I64,
        ensures
            final(self).layout == old(self).layout,
            final(self).storage.is_writable(),
            ({
                let off = old(self).layout.spec_fields()[i as int].offset;
                let bytes = old(self).storage.spec_bytes();
                let newbytes = final(self).storage.spec_bytes();
                &&& off + 8 <= bytes.len() ==> r is Ok && newbytes == spec_write(
                    bytes,
                    off as int,
                    bytes_of(unsigned_of(v as int, 8), 8, old(self).layout.spec_endianness()),
                )
                &&& off + 8 > bytes.len() ==> newbytes == bytes && r == Err::<(), AccessError>(
                    (AccessError::BufferTooShort {
                        required: (off + 8) as usize,
                        actual: bytes.len() as usize,
                    }),
                )
            }),
    {
        self.layout.wf_facts();
        proof {
            lemma_field_range_fits(
                self.layout.spec_fields(),
                self.layout.spec_total_size(),
                i as int,
            );
        }
        let off = self.layout.field_offset(i);
        let e = self.layout.endianness();
        match &mut self.storage {
            StorageHandle::Owned(buf) => crate::field::write_i64_at(buf, off, e, v),
            StorageHandle::ExclusiveBorrow(buf) => crate::field::write_i64_at(buf, off, e, v),
            StorageHandle::SharedBorrow(_) => unreached(),
        }
    }

    /// Read the `u128` field at index `i`.
    pub fn read_u128(&self, i: usize) -> (r: Result<u128, AccessError>)
        requires
            i < self.layout.spec_fields().len(),
            self.layout.spec_fields()[i as int].wire_type == WireType::U128,
        ensures
            ({
                let off = self.layout.spec_fields()[i as int].offset;
                let bytes = self.storage.spec_bytes();
                &&& off + 16 <= bytes.len() ==> r is Ok && r->Ok_0 as nat == value_of(
                    bytes.subrange(off as int, off + 16),
                    self.layout.spec_endianness(),
                )
                &&& off + 16 > bytes.len() ==> r == Err::<u128, AccessError>(
                    (AccessError::BufferTooShort {
                        required: (off + 16) as usize,
                        actual: bytes.len() as usize,
                    }),
                )
            }),
    {
        self.layout.wf_facts();
        proof {
            lemma_field_range_fits(
                self.layout.spec_fields(),
                self.layout.spec_total_size(),
                i as int,
            );
        }
        let off = self.layout.field_offset(i);
        let e = self.layout.endianness();
        crate::field::read_u128_at(self.storage.readable(), off, e)
    }

    /// Write the `u128` field at index `i`. Writing needs a writable
    /// handle: a view over a shared borrow offers no write accessor.
    pub fn write_u128(&mut self, i: usize, v: u128) -> (r: Result<(), AccessError>)
        requires
            old(self).storage.is_writable(),
            i < old(self).layout.spec_fields().len(),
            old(self).layout.spec_fields()[i as int].wire_type == WireType::U128,
        ensures
            final(self).layout == old(self).layout,
            final(self).storage.is_writable(),
            ({
                let off = old(self).layout.spec_fields()[i as int].offset;
                let bytes = old(self).storage.spec_bytes();
                let newbytes = final(self).storage.spec_bytes();
                &&& off + 16 <= bytes.len() ==> r is Ok && newbytes == spec_write(
                    bytes,
                    off as int,
                    bytes_of(v as nat, 16, old(self).layout.spec_endianness()),
                )
                &&& off + 16 > bytes.len() ==> newbytes == bytes && r == Err::<(), AccessError>(
                    (AccessError::BufferTooShort {
                        required: (off + 16) as usize,
                        actual: bytes.len() as usize,
                    }),
                )
            }),
    {
        self.layout.wf_facts();
        proof {
            lemma_field_range_fits(
                self.layout.spec_fields(),
                self.layout.spec_total_size(),
                i as int,
            );
        }
        let off = self.layout.field_offset(i);
        let e = self.layout.endianness();
        match &mut self.storage {
            StorageHandle::Owned(buf) => crate::field::write_u128_at(buf, off, e, v),
            StorageHandle::ExclusiveBorrow(buf) => crate::field::write_u128_at(buf, off, e, v),
            StorageHandle::SharedBorrow(_) => unreached(),
        }
    }

    /// Read the `i128` field at index `i`.
    pub fn read_i128(&self, i: usize) -> (r: Result<i128, AccessError>)
        requires
            i < self.layout.spec_fields().len(),
            self.layout.spec_fields()[i as int].wire_type == WireType::I128,
        ensures
            ({
                let off = self.layout.spec_fields()[i as int].offset;
                let bytes = self.storage.spec_bytes();
                &&& off + 16 <= bytes.len() ==> r is Ok && r->Ok_0 as int == signed_of(
                    value_of(
                        bytes.subrange(off as int, off + 16),
                        self.layout.spec_endianness(),
                    ),
                    16,
                )
                &&& off + 16 > bytes.len() ==> r == Err::<i128, AccessError>(
                    (AccessError::BufferTooShort {
                        required: (off + 16) as usize,
                        actual: bytes.len() as usize,
                    }),
                )
            }),
    {
        self.layout.wf_facts();
        proof {
            lemma_field_range_fits(
                self.layout.spec_fields(),
                self.layout.spec_total_size(),
                i as int,
            );
        }
        let off = self.layout.field_offset(i);
        let e = self.layout.endianness();
        crate::field::read_i128_at(self.storage.readable(), off, e)
    }

    /// Write the `i128` field at index `i`. Writing needs a writable
    /// handle: a view over a shared borrow offers no write accessor.
    pub fn write_i128(&mut self, i: usize, v: i128) -> (r: Result<(), AccessError>)
        requires
            old(self).storage.is_writable(),
            i < old(self).layout.spec_fields().len(),
            old(self).layout.spec_fields()[i as int].wire_type == WireType::I128,
        ensures
            final(self).layout == old(self).layout,
            final(self).storage.is_writable(),
            ({
                let off = old(self).layout.spec_fields()[i as int].offset;
                let bytes = old(self).storage.spec_bytes();
                let newbytes = final(self).storage.spec_bytes();
                &&& off + 16 <= bytes.len() ==> r is Ok && newbytes == spec_write(
                    bytes,
                    off as int,
                    bytes_of(unsigned_of(v as int, 16), 16, old(self).layout.spec_endianness()),
                )
                &&& off + 16 > bytes.len() ==> newbytes == bytes && r == Err::<(), AccessError>(
                    (AccessError::BufferTooShort {
                        required: (off + 16) as usize,
                        actual: bytes.len() as usize,
                    }),
                )
            }),
    {
        self.layout.wf_facts();
        proof {
            lemma_field_range_fits(
                self.layout.spec_fields(),
                self.layout.spec_total_size(),
                i as int,
            );
        }
        let off = self.layout.field_offset(i);
        let e = self.layout.endianness();
        match &mut self.storage {
            StorageHandle::Owned(buf) => crate::field::write_i128_at(buf, off, e, v),
            StorageHandle::ExclusiveBorrow(buf) => crate::field::write_i128_at(buf, off, e, v),
            StorageHandle::SharedBorrow(_) => unreached(),
        }
    }

    /// Read the fixed-size byte array field at index `i`, as an owned copy.
    pub fn read_bytes(&self, i: usize) -> (r: Result<Vec<u8>, AccessError>)
        requires
            i < self.layout.spec_fields().len(),
            self.layout.spec_fields()[i as int].wire_type is Bytes,
        ensures
            ({
                let off = self.layout.spec_fields()[i as int].offset;
                let s = self.layout.spec_fields()[i as int].wire_type.size_spec().unwrap();
                let bytes = self.storage.spec_bytes();
                &&& off + s <= bytes.len() ==> r is Ok && r->Ok_0@ == bytes.subrange(
                    off as int,
                    off + s,
                )
                &&& off + s > bytes.len() ==> r == Err::<Vec<u8>, AccessError>(
                    (AccessError::BufferTooShort {
                        required: (off + s) as usize,
                        actual: bytes.len() as usize,
                    }),
                )
            }),
    {
        self.layout.wf_facts();
        proof {
            lemma_field_range_fits(
                self.layout.spec_fields(),
                self.layout.spec_total_size(),
                i as int,
            );
        }
        let off = self.layout.field_offset(i);
        let s = match self.layout.field_size(i) {
            Some(s) => s,
            None => unreached(),
        };
        read_bytes_at(self.storage.readable(), off, s)
    }

    /// Write `data` verbatim over the fixed-size byte array field at index
    /// `i`. The data must have the field's exact size. Writing needs a
    /// writable handle.
    pub fn write_bytes(&mut self, i: usize, data: &Vec<u8>) -> (r: Result<(), AccessError>)
        requires
            old(self).storage.is_writable(),
            i < old(self).layout.spec_fields().len(),
            old(self).layout.spec_fields()[i as int].wire_type is Bytes,
        ensures
            final(self).layout == old(self).layout,
            final(self).storage.is_writable(),
            ({
                let off = old(self).layout.spec_fields()[i as int].offset;
                let s = old(self).layout.spec_fields()[i as int].wire_type.size_spec().unwrap();
                let bytes = old(self).storage.spec_bytes();
                let newbytes = final(self).storage.spec_bytes();
                &&& off + s <= bytes.len() && data@.len() == s ==> r is Ok && newbytes
                    == spec_write(bytes, off as int, data@)
                &&& off + s > bytes.len() ==> newbytes == bytes && r == Err::<(), AccessError>(
                    (AccessError::BufferTooShort {
                        required: (off + s) as usize,
                        actual: bytes.len() as usize,
                    }),
                )
                &&& off + s <= bytes.len() && data@.len() != s ==> newbytes == bytes && r == Err::<
                    (),
                    AccessError,
                >(
                    (AccessError::LengthMismatch {
                        expected: s as usize,
                        actual: data@.len() as usize,
                    }),
                )
            }),
    {
        self.layout.wf_facts();
        proof {
            lemma_field_range_fits(
                self.layout.spec_fields(),
                self.layout.spec_total_size(),
                i as int,
            );
        }
        let off = self.layout.field_offset(i);
        let s = match self.layout.field_size(i) {
            Some(s) => s,
            None => unreached(),
        };
        match &mut self.storage {
            StorageHandle::Owned(buf) => write_bytes_at(buf, off, s, data),
            StorageHandle::ExclusiveBorrow(buf) => write_bytes_at(buf, off, s, data),
            StorageHandle::SharedBorrow(_) => unreached(),
        }
    }

    /// Read the open-ended byte array field at index `i`: every byte from
    /// its offset to the end of the buffer, as an owned copy.
    pub fn read_tail(&self, i: usize) -> (r: Result<Vec<u8>, AccessError>)
        requires
            i < self.layout.spec_fields().len(),
            self.layout.spec_fields()[i as int].wire_type is OpenEnded,
        ensures
            ({
                let off = self.layout.spec_fields()[i as int].offset;
                let bytes = self.storage.spec_bytes();
                &&& off <= bytes.len() ==> r is Ok && r->Ok_0@ == bytes.subrange(
                    off as int,
                    bytes.len() as int,
                )
                &&& off > bytes.len() ==> r == Err::<Vec<u8>, AccessError>(
                    (AccessError::BufferTooShort {
                        required: off as usize,
                        actual: bytes.len() as usize,
                    }),
                )
            }),
    {
        self.layout.wf_facts();
        let off = self.layout.field_offset(i);
        read_tail_at(self.storage.readable(), off)
    }

    /// Write `data` over the open-ended byte array field at index `i`. The
    /// data's length must exactly equal the buffer length that remains from
    /// the field's offset. Writing needs a writable handle.
    pub fn write_tail(&mut self, i: usize, data: &Vec<u8>) -> (r: Result<(), AccessError>)
        requires
            old(self).storage.is_writable(),
            i < old(self).layout.spec_fields().len(),
            old(self).layout.spec_fields()[i as int].wire_type is OpenEnded,
        ensures
            final(self).layout == old(self).layout,
            final(self).storage.is_writable(),
            ({
                let off = old(self).layout.spec_fields()[i as int].offset;
                let bytes = old(self).storage.spec_bytes();
                let newbytes = final(self).storage.spec_bytes();
                &&& off <= bytes.len() && data@.len() == bytes.len() - off ==> r is Ok && newbytes
                    == spec_write(bytes, off as int, data@)
                &&& off > bytes.len() ==> newbytes == bytes && r == Err::<(), AccessError>(
                    (AccessError::BufferTooShort {
                        required: off as usize,
                        actual: bytes.len() as usize,
                    }),
                )
                &&& off <= bytes.len() && data@.len() != bytes.len() - off ==> newbytes == bytes
                    && r == Err::<(), AccessError>(
                    (AccessError::LengthMismatch {
                        expected: (bytes.len() - off) as usize,
                        actual: data@.len() as usize,
                    }),
                )
            }),
    {
        self.layout.wf_facts();
        let off = self.layout.field_offset(i);
        match &mut self.storage {
            StorageHandle::Owned(buf) => write_tail_at(buf, off, data),
            StorageHandle::ExclusiveBorrow(buf) => write_tail_at(buf, off, data),
            StorageHandle::SharedBorrow(_) => unreached(),
        }
    }

    /// Consume the view entirely and return an owned copy of field `i`'s
    /// bytes; for the open-ended field, everything from its offset to the
    /// buffer's end. Most useful when the caller wants an owned tail rather
    /// than a borrowed one.
    pub fn extract(self, i: usize) -> (r: Result<Vec<u8>, AccessError>)
        requires
            i < self.layout.spec_fields().len(),
        ensures
            ({
                let outcome = spec_field_read(*self.layout, self.storage.spec_bytes(), i as int);
                &&& r is Ok <==> outcome is Ok
                &&& r is Ok ==> r->Ok_0@ == outcome->Ok_0
                &&& r is Err ==> r->Err_0 == outcome->Err_0
            }),
    {
        self.layout.wf_facts();
        let off = self.layout.field_offset(i);
        match self.layout.field_size(i) {
            Some(s) => {
                proof {
                    lemma_field_range_fits(
                        self.layout.spec_fields(),
                        self.layout.spec_total_size(),
                        i as int,
                    );
                }
                read_bytes_at(self.storage.readable(), off, s)
            },
            None => read_tail_at(self.storage.readable(), off),
        }
    }

    /// Read the wrapped field at index `i`, stored on the wire as `u8`,
    /// converted to the domain type `D`.
    pub fn read_wrapped_u8<D: LayoutAs<u8>>(&self, i: usize) -> (r: Result<D, AccessError>)
        requires
            i < self.layout.spec_fields().len(),
            self.layout.spec_fields()[i as int].wire_type == WireType::U8,
        ensures
            ({
                let off = self.layout.spec_fields()[i as int].offset;
                let bytes = self.storage.spec_bytes();
                &&& off + 1 <= bytes.len() ==> ({
                    let u = (value_of(
                        bytes.subrange(off as int, off + 1),
                        self.layout.spec_endianness(),
                    ) as u8);
                    match D::from_wire_spec(u) {
                        Some(d) => r is Ok && r->Ok_0 == d,
                        None => r == Err::<D, AccessError>(AccessError::Conversion),
                    }
                })
                &&& off + 1 > bytes.len() ==> r == Err::<D, AccessError>(
                    (AccessError::BufferTooShort {
                        required: (off + 1) as usize,
                        actual: bytes.len() as usize,
                    }),
                )
            }),
    {
        self.layout.wf_facts();
        proof {
            lemma_field_range_fits(
                self.layout.spec_fields(),
                self.layout.spec_total_size(),
                i as int,
            );
        }
        let off = self.layout.field_offset(i);
        let e = self.layout.endianness();
        wrapped_read_u8_at(self.storage.readable(), off, e)
    }

    /// Write the domain value `d` into the wrapped field at index `i`,
    /// stored on the wire as `u8`. Writing needs a writable handle.
    pub fn write_wrapped_u8<D: LayoutAs<u8>>(&mut self, i: usize, d: D) -> (r: Result<
        (),
        AccessError,
    >)
        requires
            old(self).storage.is_writable(),
            i < old(self).layout.spec_fields().len(),
            old(self).layout.spec_fields()[i as int].wire_type == WireType::U8,
        ensures
            final(self).layout == old(self).layout,
            final(self).storage.is_writable(),
            ({
                let off = old(self).layout.spec_fields()[i as int].offset;
                let bytes = old(self).storage.spec_bytes();
                let newbytes = final(self).storage.spec_bytes();
                match D::to_wire_spec(d) {
                    None => newbytes == bytes && r == Err::<(), AccessError>(
                        AccessError::Conversion,
                    ),
                    Some(u) => {
                        &&& off + 1 <= bytes.len() ==> r is Ok && newbytes == spec_write(
                            bytes,
                            off as int,
                            bytes_of(u as nat, 1, old(self).layout.spec_endianness()),
                        )
                        &&& off + 1 > bytes.len() ==> newbytes == bytes && r == Err::<
                            (),
                            AccessError,
                        >(
                            (AccessError::BufferTooShort {
                                required: (off + 1) as usize,
                                actual: bytes.len() as usize,
                            }),
                        )
                    },
                }
            }),
    {
        self.layout.wf_facts();
        proof {
            lemma_field_range_fits(
                self.layout.spec_fields(),
                self.layout.spec_total_size(),
                i as int,
            );
        }
        let off = self.layout.field_offset(i);
        let e = self.layout.endianness();
        match &mut self.storage {
            StorageHandle::Owned(buf) => wrapped_write_u8_at(buf, off, e, d),
            StorageHandle::ExclusiveBorrow(buf) => wrapped_write_u8_at(buf, off, e, d),
            StorageHandle::SharedBorrow(_) => unreached(),
        }
    }

    /// Read the wrapped field at index `i`, stored on the wire as `u16`,
    /// converted to the domain type `D`.
    pub fn read_wrapped_u16<D: LayoutAs<u16>>(&self, i: usize) -> (r: Result<D, AccessError>)
        requires
            i < self.layout.spec_fields().len(),
            self.layout.spec_fields()[i as int].wire_type == WireType::U16,
        ensures
            ({
                let off = self.layout.spec_fields()[i as int].offset;
                let bytes = self.storage.spec_bytes();
                &&& off + 2 <= bytes.len() ==> ({
                    let u = (value_of(
                        bytes.subrange(off as int, off + 2),
                        self.layout.spec_endianness(),
                    ) as u16);
                    match D::from_wire_spec(u) {
                        Some(d) => r is Ok && r->Ok_0 == d,
                        None => r == Err::<D, AccessError>(AccessError::Conversion),
                    }
                })
                &&& off + 2 > bytes.len() ==> r == Err::<D, AccessError>(
                    (AccessError::BufferTooShort {
                        required: (off + 2) as usize,
                        actual: bytes.len() as usize,
                    }),
                )
            }),
    {
        self.layout.wf_facts();
        proof {
            lemma_field_range_fits(
                self.layout.spec_fields(),
                self.layout.spec_total_size(),
                i as int,
            );
        }
        let off = self.layout.field_offset(i);
        let e = self.layout.endianness();
        wrapped_read_u16_at(self.storage.readable(), off, e)
    }

    /// Write the domain value `d` into the wrapped field at index `i`,
    /// stored on the wire as `u16`. Writing needs a writable handle.
    pub fn write_wrapped_u16<D: LayoutAs<u16>>(&mut self, i: usize, d: D) -> (r: Result<
        (),
        AccessError,
    >)
        requires
            old(self).storage.is_writable(),
            i < old(self).layout.spec_fields().len(),
            old(self).layout.spec_fields()[i as int].wire_type == WireType::U16,
        ensures
            final(self).layout == old(self).layout,
            final(self).storage.is_writable(),
            ({
                let off = old(self).layout.spec_fields()[i as int].offset;
                let bytes = old(self).storage.spec_bytes();
                let newbytes = final(self).storage.spec_bytes();
                match D::to_wire_spec(d) {
                    None => newbytes == bytes && r == Err::<(), AccessError>(
                        AccessError::Conversion,
                    ),
                    Some(u) => {
                        &&& off + 2 <= bytes.len() ==> r is Ok && newbytes == spec_write(
                            bytes,
                            off as int,
                            bytes_of(u as nat, 2, old(self).layout.spec_endianness()),
                        )
                        &&& off + 2 > bytes.len() ==> newbytes == bytes && r == Err::<
                            (),
                            AccessError,
                        >(
                            (AccessError::BufferTooShort {
                                required: (off + 2) as usize,
                                actual: bytes.len() as usize,
                            }),
                        )
                    },
                }
            }),
    {
        self.layout.wf_facts();
        proof {
            lemma_field_range_fits(
                self.layout.spec_fields(),
                self.layout.spec_total_size(),
                i as int,
            );
        }
        let off = self.layout.field_offset(i);
        let e = self.layout.endianness();
        match &mut self.storage {
            StorageHandle::Owned(buf) => wrapped_write_u16_at(buf, off, e, d),
            StorageHandle::ExclusiveBorrow(buf) => wrapped_write_u16_at(buf, off, e, d),
            StorageHandle::SharedBorrow(_) => unreached(),
        }
    }

    /// Read the wrapped field at index `i`, stored on the wire as `u32`,
    /// converted to the domain type `D`.
    pub fn read_wrapped_u32<D: LayoutAs<u32>>(&self, i: usize) -> (r: Result<D, AccessError>)
        requires
            i < self.layout.spec_fields().len(),
            self.layout.spec_fields()[i as int].wire_type == WireType::U32,
        ensures
            ({
                let off = self.layout.spec_fields()[i as int].offset;
                let bytes = self.storage.spec_bytes();
                &&& off + 4 <= bytes.len() ==> ({
                    let u = (value_of(
                        bytes.subrange(off as int, off + 4),
                        self.layout.spec_endianness(),
                    ) as u32);
                    match D::from_wire_spec(u) {
                        Some(d) => r is Ok && r->Ok_0 == d,
                        None => r == Err::<D, AccessError>(AccessError::Conversion),
                    }
                })
                &&& off + 4 > bytes.len() ==> r == Err::<D, AccessError>(
                    (AccessError::BufferTooShort {
                        required: (off + 4) as usize,
                        actual: bytes.len() as usize,
                    }),
                )
            }),
    {
        self.layout.wf_facts();
        proof {
            lemma_field_range_fits(
                self.layout.spec_fields(),
                self.layout.spec_total_size(),
                i as int,
            );
        }
        let off = self.layout.field_offset(i);
        let e = self.layout.endianness();
        wrapped_read_u32_at(self.storage.readable(), off, e)
    }

    /// Write the domain value `d` into the wrapped field at index `i`,
    /// stored on the wire as `u32`. Writing needs a writable handle.
    pub fn write_wrapped_u32<D: LayoutAs<u32>>(&mut self, i: usize, d: D) -> (r: Result<
        (),
        AccessError,
    >)
        requires
            old(self).storage.is_writable(),
            i < old(self).layout.spec_fields().len(),
            old(self).layout.spec_fields()[i as int].wire_type == WireType::U32,
        ensures
            final(self).layout == old(self).layout,
            final(self).storage.is_writable(),
            ({
                let off = old(self).layout.spec_fields()[i as int].offset;
                let bytes = old(self).storage.spec_bytes();
                let newbytes = final(self).storage.spec_bytes();
                match D::to_wire_spec(d) {
                    None => newbytes == bytes && r == Err::<(), AccessError>(
                        AccessError::Conversion,
                    ),
                    Some(u) => {
                        &&& off + 4 <= bytes.len() ==> r is Ok && newbytes == spec_write(
                            bytes,
                            off as int,
                            bytes_of(u as nat, 4, old(self).layout.spec_endianness()),
                        )
                        &&& off + 4 > bytes.len() ==> newbytes == bytes && r == Err::<
                            (),
                            AccessError,
                        >(
                            (AccessError::BufferTooShort {
                                required: (off + 4) as usize,
                                actual: bytes.len() as usize,
                            }),
                        )
                    },
                }
            }),
    {
        self.layout.wf_facts();
        proof {
            lemma_field_range_fits(
                self.layout.spec_fields(),
                self.layout.spec_total_size(),
                i as int,
            );
        }
        let off = self.layout.field_offset(i);
        let e = self.layout.endianness();
        match &mut self.storage {
            StorageHandle::Owned(buf) => wrapped_write_u32_at(buf, off, e, d),
            StorageHandle::ExclusiveBorrow(buf) => wrapped_write_u32_at(buf, off, e, d),
            StorageHandle::SharedBorrow(_) => unreached(),
        }
    }

    /// Read the wrapped field at index `i`, stored on the wire as `u64`,
    /// converted to the domain type `D`.
    pub fn read_wrapped_u64<D: LayoutAs<u64>>(&self, i: usize) -> (r: Result<D, AccessError>)
        requires
            i < self.layout.spec_fields().len(),
            self.layout.spec_fields()[i as int].wire_type == WireType::U64,
        ensures
            ({
                let off = self.layout.spec_fields()[i as int].offset;
                let bytes = self.storage.spec_bytes();
                &&& off + 8 <= bytes.len() ==> ({
                    let u = (value_of(
                        bytes.subrange(off as int, off + 8),
                        self.layout.spec_endianness(),
                    ) as u64);
                    match D::from_wire_spec(u) {
                        Some(d) => r is Ok && r->Ok_0 == d,
                        None => r == Err::<D, AccessError>(AccessError::Conversion),
                    }
                })
                &&& off + 8 > bytes.len() ==> r == Err::<D, AccessError>(
                    (AccessError::BufferTooShort {
                        required: (off + 8) as usize,
                        actual: bytes.len() as usize,
                    }),
                )
            }),
    {
        self.layout.wf_facts();
        proof {
            lemma_field_range_fits(
                self.layout.spec_fields(),
                self.layout.spec_total_size(),
                i as int,
            );
        }
        let off = self.layout.field_offset(i);
        let e = self.layout.endianness();
        wrapped_read_u64_at(self.storage.readable(), off, e)
    }

    /// Write the domain value `d` into the wrapped field at index `i`,
    /// stored on the wire as `u64`. Writing needs a writable handle.
    pub fn write_wrapped_u64<D: LayoutAs<u64>>(&mut self, i: usize, d: D) -> (r: Result<
        (),
        AccessError,
    >)
        requires
            old(self).storage.is_writable(),
            i < old(self).layout.spec_fields().len(),
            old(self).layout.spec_fields()[i as int].wire_type == WireType::U64,
        ensures
            final(self).layout == old(self).layout,
            final(self).storage.is_writable(),
            ({
                let off = old(self).layout.spec_fields()[i as int].offset;
                let bytes = old(self).storage.spec_bytes();
                let newbytes = final(self).storage.spec_bytes();
                match D::to_wire_spec(d) {
                    None => newbytes == bytes && r == Err::<(), AccessError>(
                        AccessError::Conversion,
                    ),
                    Some(u) => {
                        &&& off + 8 <= bytes.len() ==> r is Ok && newbytes == spec_write(
                            bytes,
                            off as int,
                            bytes_of(u as nat, 8, old(self).layout.spec_endianness()),
                        )
                        &&& off + 8 > bytes.len() ==> newbytes == bytes && r == Err::<
                            (),
                            AccessError,
                        >(
                            (AccessError::BufferTooShort {
                                required: (off + 8) as usize,
                                actual: bytes.len() as usize,
                            }),
                        )
                    },
                }
            }),
    {
        self.layout.wf_facts();
        proof {
            lemma_field_range_fits(
                self.layout.spec_fields(),
                self.layout.spec_total_size(),
                i as int,
            );
        }
        let off = self.layout.field_offset(i);
        let e = self.layout.endianness();
        match &mut self.storage {
            StorageHandle::Owned(buf) => wrapped_write_u64_at(buf, off, e, d),
            StorageHandle::ExclusiveBorrow(buf) => wrapped_write_u64_at(buf, off, e, d),
            StorageHandle::SharedBorrow(_) => unreached(),
        }
    }

    /// Read the wrapped field at index `i`, stored on the wire as `u128`,
    /// converted to the domain type `D`.
    pub fn read_wrapped_u128<D: LayoutAs<u128>>(&self, i: usize) -> (r: Result<D, AccessError>)
        requires
            i < self.layout.spec_fields().len(),
            self.layout.spec_fields()[i as int].wire_type == WireType::U128,
        ensures
            ({
                let off = self.layout.spec_fields()[i as int].offset;
                let bytes = self.storage.spec_bytes();
                &&& off + 16 <= bytes.len() ==> ({
                    let u = (value_of(
                        bytes.subrange(off as int, off + 16),
                        self.layout.spec_endianness(),
                    ) as u128);
                    match D::from_wire_spec(u) {
                        Some(d) => r is Ok && r->Ok_0 == d,
                        None => r == Err::<D, AccessError>(AccessError::Conversion),
                    }
                })
                &&& off + 16 > bytes.len() ==> r == Err::<D, AccessError>(
                    (AccessError::BufferTooShort {
                        required: (off + 16) as usize,
                        actual: bytes.len() as usize,
                    }),
                )
            }),
    {
        self.layout.wf_facts();
        proof {
            lemma_field_range_fits(
                self.layout.spec_fields(),
                self.layout.spec_total_size(),
                i as int,
            );
        }
        let off = self.layout.field_offset(i);
        let e = self.layout.endianness();
        wrapped_read_u128_at(self.storage.readable(), off, e)
    }

    /// Write the domain value `d` into the wrapped field at index `i`,
    /// stored on the wire as `u128`. Writing needs a writable handle.
    pub fn write_wrapped_u128<D: LayoutAs<u128>>(&mut self, i: usize, d: D) -> (r: Result<
        (),
        AccessError,
    >)
        requires
            old(self).storage.is_writable(),
            i < old(self).layout.spec_fields().len(),
            old(self).layout.spec_fields()[i as int].wire_type == WireType::U128,
        ensures
            final(self).layout == old(self).layout,
            final(self).storage.is_writable(),
            ({
                let off = old(self).layout.spec_fields()[i as int].offset;
                let bytes = old(self).storage.spec_bytes();
                let newbytes = final(self).storage.spec_bytes();
                match D::to_wire_spec(d) {
                    None => newbytes == bytes && r == Err::<(), AccessError>(
                        AccessError::Conversion,
                    ),
                    Some(u) => {
                        &&& off + 16 <= bytes.len() ==> r is Ok && newbytes == spec_write(
                            bytes,
                            off as int,
                            bytes_of(u as nat, 16, old(self).layout.spec_endianness()),
                        )
                        &&& off + 16 > bytes.len() ==> newbytes == bytes && r == Err::<
                            (),
                            AccessError,
                        >(
                            (AccessError::BufferTooShort {
                                required: (off + 16) as usize,
                                actual: bytes.len() as usize,
                            }),
                        )
                    },
                }
            }),
    {
        self.layout.wf_facts();
        proof {
            lemma_field_range_fits(
                self.layout.spec_fields(),
                self.layout.spec_total_size(),
                i as int,
            );
        }
        let off = self.layout.field_offset(i);
        let e = self.layout.endianness();
        match &mut self.storage {
            StorageHandle::Owned(buf) => wrapped_write_u128_at(buf, off, e, d),
            StorageHandle::ExclusiveBorrow(buf) => wrapped_write_u128_at(buf, off, e, d),
            StorageHandle::SharedBorrow(_) => unreached(),
        }
    }
}

} // verus!
