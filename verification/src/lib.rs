//! Packed binary layouts: declare the byte-level layout of a structure
//! (network packet, file-format header, wire message) once, then read and
//! write individual fields directly against a raw byte buffer, with no
//! intermediate copies, no padding, and explicit endianness.
//!
//! A [`layout::Layout`] is built once from an ordered list of field
//! descriptors; it resolves each field's byte offset by prefix-summing the
//! sizes of the fields before it. Field values are encoded and decoded by the
//! [`endian`] codec. A [`view::LayoutView`] binds a layout to a concrete
//! buffer (shared-borrowed or owned) and offers per-field accessors.

pub mod endian;
pub mod field;
pub mod layout;
pub mod view;
pub mod wrapped;

pub use endian::Endianness;
pub use field::AccessError;
pub use layout::{FieldSpec, Layout, LayoutError, ResolvedField, WireType};
pub use layout::{option_usize_add, unwrap_field_size};
pub use view::{LayoutView, StorageHandle};
pub use wrapped::LayoutAs;
