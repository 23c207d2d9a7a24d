//! Layout resolution: from an ordered list of field descriptors to a table
//! of resolved byte offsets.
//!
//! A [`Layout`] is built once, by [`Layout::new`], from an ordered sequence
//! of [`FieldSpec`] descriptors and a global [`Endianness`]. Each field's
//! offset is the prefix sum of the sizes of the fields before it. At most one
//! field may be open-ended (its size determined by the buffer at access
//! time), and only in the terminal position; the layout's total size is the
//! sum of all field sizes, or `None` when the last field is open-ended.

use crate::endian::Endianness;
use vstd::pervasive::unreached;
use vstd::prelude::*;

verus! {

/// The wire type of a single field: a fixed-width integer, a fixed-size byte
/// array, or the open-ended byte array that extends to the buffer's end.
#[derive(Clone, Copy, PartialEq, Eq, Structural, Debug)]
pub enum WireType {
    U8,
    U16,
    U32,
    U64,
    U128,
    I8,
    I16,
    I32,
    I64,
    I128,
    /// A fixed-size byte array of the given length, copied verbatim.
    Bytes(usize),
    /// An open-ended byte array occupying all bytes from the field's offset
    /// to the end of the buffer. Legal only as the last field of a layout.
    OpenEnded,
}

impl WireType {
    /// The number of bytes the field occupies, or `None` for the open-ended
    /// byte array whose size is known only once a buffer is bound.
    pub open spec fn size_spec(self) -> Option<usize> {
        match self {
            WireType::U8 => Some(1usize),
            WireType::U16 => Some(2usize),
            WireType::U32 => Some(4usize),
            WireType::U64 => Some(8usize),
            WireType::U128 => Some(16usize),
            WireType::I8 => Some(1usize),
            WireType::I16 => Some(2usize),
            WireType::I32 => Some(4usize),
            WireType::I64 => Some(8usize),
            WireType::I128 => Some(16usize),
            WireType::Bytes(n) => Some(n),
            WireType::OpenEnded => None,
        }
    }

    /// Executable twin of [`WireType::size_spec`].
    pub fn size(&self) -> (r: Option<usize>)
        ensures
            r == self.size_spec(),
    {
        match self {
            WireType::U8 => Some(1),
            WireType::U16 => Some(2),
            WireType::U32 => Some(4),
            WireType::U64 => Some(8),
            WireType::U128 => Some(16),
            WireType::I8 => Some(1),
            WireType::I16 => Some(2),
            WireType::I32 => Some(4),
            WireType::I64 => Some(8),
            WireType::I128 => Some(16),
            WireType::Bytes(n) => Some(*n),
            WireType::OpenEnded => None,
        }
    }
}

/// One field as the layout author declares it: a name and a wire type.
pub struct FieldSpec {
    pub name: String,
    pub wire_type: WireType,
}

/// One field after resolution: its declared name and wire type together with
/// its byte offset from the start of the structure.
pub struct ResolvedField {
    pub name: String,
    pub wire_type: WireType,
    pub offset: usize,
}

/// Errors that reject a layout definition before any buffer is touched.
#[derive(Clone, Copy, PartialEq, Eq, Structural, Debug)]
pub enum LayoutError {
    /// A field without a static size stands before the last position, so no
    /// later offset could be computed.
    OpenEndedFieldNotLast,
    /// A fixed-size byte array field was declared with length zero.
    ZeroSizeField,
    /// Two fields carry the same name.
    DuplicateFieldName,
}

/// The size a field contributes to the offsets of the fields after it; an
/// open-ended field contributes nothing because no field may follow it.
pub open spec fn size_or_zero(t: WireType) -> nat {
    match t.size_spec() {
        Some(s) => s as nat,
        None => 0,
    }
}

/// Sum of the sizes of the first `i` declared fields: the resolved offset of
/// field `i`.
pub open spec fn prefix_size(fields: Seq<FieldSpec>, i: int) -> nat
    decreases i,
{
    if i <= 0 {
        0
    } else {
        prefix_size(fields, i - 1) + size_or_zero(fields[i - 1].wire_type)
    }
}

/// Same prefix sum, over resolved fields.
pub open spec fn resolved_prefix_size(fields: Seq<ResolvedField>, i: int) -> nat
    decreases i,
{
    if i <= 0 {
        0
    } else {
        resolved_prefix_size(fields, i - 1) + size_or_zero(fields[i - 1].wire_type)
    }
}

/// A field without a static size stands somewhere before the last position.
pub open spec fn has_open_ended_before_last(fields: Seq<FieldSpec>) -> bool {
    exists|i: int| 0 <= i < fields.len() - 1 && (#[trigger] fields[i].wire_type) is OpenEnded
}

/// Some field is a zero-length fixed-size byte array.
pub open spec fn has_zero_size_field(fields: Seq<FieldSpec>) -> bool {
    exists|i: int| 0 <= i < fields.len() && (#[trigger] fields[i].wire_type) == WireType::Bytes(
        0usize,
    )
}

/// Two distinct fields carry the same name.
pub open spec fn has_duplicate_name(fields: Seq<FieldSpec>) -> bool {
    exists|i: int, j: int|
        0 <= i < j < fields.len() && (#[trigger] fields[i].name)@ == (#[trigger] fields[j].name)@
}

/// The total size of the declared layout: the sum of all field sizes, or
/// `None` when the last field is open-ended.
pub open spec fn spec_total_size_of(fields: Seq<FieldSpec>) -> Option<usize> {
    if fields.len() > 0 && fields[fields.len() - 1].wire_type is OpenEnded {
        None
    } else {
        Some(prefix_size(fields, fields.len() as int) as usize)
    }
}

/// Well-formedness of a resolved field table: offsets are the prefix sums of
/// the preceding sizes, only the last field may be open-ended, no field is
/// zero-sized, names are distinct, and the recorded total size is the full
/// sum exactly when the last field is sized.
pub open spec fn resolved_wf(fields: Seq<ResolvedField>, total_size: Option<usize>) -> bool {
    &&& forall|i: int|
        0 <= i < fields.len() ==> (#[trigger] fields[i]).offset as int == resolved_prefix_size(
            fields,
            i,
        )
    &&& forall|i: int| 0 <= i < fields.len() - 1 ==> !((#[trigger] fields[i]).wire_type is OpenEnded)
    &&& forall|i: int|
        0 <= i < fields.len() ==> (#[trigger] fields[i]).wire_type != WireType::Bytes(0usize)
    &&& forall|i: int, j: int|
        0 <= i < j < fields.len() ==> (#[trigger] fields[i].name)@ != (#[trigger] fields[j].name)@
    &&& match total_size {
        Some(t) => (fields.len() == 0 || (fields[fields.len() - 1].wire_type.size_spec() is Some))
            && t as int == resolved_prefix_size(fields, fields.len() as int),
        None => fields.len() > 0 && fields[fields.len() - 1].wire_type is OpenEnded,
    }
}

/// The prefix sums grow monotonically along the field list.
pub proof fn lemma_prefix_size_monotonic(fields: Seq<FieldSpec>, a: int, b: int)
    requires
        0 <= a <= b,
    ensures
        prefix_size(fields, a) <= prefix_size(fields, b),
    decreases b,
{
    if a < b {
        lemma_prefix_size_monotonic(fields, a, b - 1);
    }
}

/// Prefix sums agree between a declared field list and a resolved table with
/// pointwise equal wire types.
proof fn lemma_prefix_size_agree(fs: Seq<FieldSpec>, rs: Seq<ResolvedField>, i: int)
    requires
        0 <= i,
        i <= fs.len(),
        i <= rs.len(),
        forall|k: int| 0 <= k < i ==> (#[trigger] rs[k]).wire_type == fs[k].wire_type,
    ensures
        resolved_prefix_size(rs, i) == prefix_size(fs, i),
    decreases i,
{
    if i > 0 {
        lemma_prefix_size_agree(fs, rs, i - 1);
    }
}

/// In a well-formed table every sized field's byte range ends at the next
/// field's offset or at the recorded total size, so the range's upper end
/// fits a `usize`.
pub proof fn lemma_field_range_fits(fields: Seq<ResolvedField>, total: Option<usize>, i: int)
    requires
        resolved_wf(fields, total),
        0 <= i < fields.len(),
        fields[i].wire_type.size_spec() is Some,
    ensures
        fields[i].offset + fields[i].wire_type.size_spec().unwrap() <= usize::MAX,
        fields[i].offset + fields[i].wire_type.size_spec().unwrap() == resolved_prefix_size(
            fields,
            i + 1,
        ),
{
    assert(resolved_prefix_size(fields, i + 1) == resolved_prefix_size(fields, i)
        + size_or_zero(fields[i].wire_type));
    if i + 1 < fields.len() {
        assert(fields[i + 1].offset as int == resolved_prefix_size(fields, i + 1));
    } else {
        assert(total is Some);
    }
}

/// An ordered, endianness-tagged table of resolved fields describing a
/// packed binary structure. Immutable after construction; built only by
/// [`Layout::new`], which validates the declaration and computes every
/// offset once.
pub struct Layout {
    endianness: Endianness,
    fields: Vec<ResolvedField>,
    total_size: Option<usize>,
}

impl Layout {
    #[verifier::type_invariant]
    spec fn inv(self) -> bool {
        resolved_wf(self.fields@, self.total_size)
    }

    /// The byte order applied to every multi-byte primitive field.
    pub closed spec fn spec_endianness(self) -> Endianness {
        self.endianness
    }

    /// The resolved field table, in declaration order.
    pub closed spec fn spec_fields(self) -> Seq<ResolvedField> {
        self.fields@
    }

    /// The layout's total size; `None` when the last field is open-ended.
    pub closed spec fn spec_total_size(self) -> Option<usize> {
        self.total_size
    }

    /// Every layout satisfies [`resolved_wf`]: the facts a caller may rely
    /// on without re-validating the field table.
    pub fn wf_facts(&self)
        ensures
            resolved_wf(self.spec_fields(), self.spec_total_size()),
    {
        proof {
            use_type_invariant(self);
        }
    }

    /// The number of fields in the layout.
    pub fn num_fields(&self) -> (r: usize)
        ensures
            r == self.spec_fields().len(),
    {
        self.fields.len()
    }

    /// The byte order applied to every multi-byte primitive field.
    pub fn endianness(&self) -> (r: Endianness)
        ensures
            r == self.spec_endianness(),
    {
        self.endianness
    }

    /// The layout's total size in bytes, or `None` when the last field is
    /// open-ended and the layout covers whatever buffer it is bound to.
    pub fn total_size(&self) -> (r: Option<usize>)
        ensures
            r == self.spec_total_size(),
    {
        self.total_size
    }

    /// The resolved byte offset of field `i`.
    pub fn field_offset(&self, i: usize) -> (r: usize)
        requires
            i < self.spec_fields().len(),
        ensures
            r == self.spec_fields()[i as int].offset,
    {
        self.fields[i].offset
    }

    /// The size of field `i`, or `None` when it is open-ended.
    pub fn field_size(&self, i: usize) -> (r: Option<usize>)
        requires
            i < self.spec_fields().len(),
        ensures
            r == self.spec_fields()[i as int].wire_type.size_spec(),
    {
        self.fields[i].wire_type.size()
    }

    /// The wire type of field `i`.
    pub fn field_wire_type(&self, i: usize) -> (r: WireType)
        requires
            i < self.spec_fields().len(),
        ensures
            r == self.spec_fields()[i as int].wire_type,
    {
        self.fields[i].wire_type
    }

    /// The declared name of field `i`.
    pub fn field_name(&self, i: usize) -> (r: String)
        requires
            i < self.spec_fields().len(),
        ensures
            r@ == self.spec_fields()[i as int].name@,
    {
        self.fields[i].name.clone()
    }

    /// Validate an ordered field declaration and resolve each field's byte
    /// offset by prefix-summing the sizes of the fields before it.
    ///
    /// Rejected declarations, in order of precedence: an open-ended field
    /// anywhere but the terminal position, a zero-size fixed byte array, and
    /// a duplicated field name. On success the layout records, per field,
    /// the declared name and wire type and the resolved offset, and the
    /// total size (`None` exactly when the last field is open-ended).
    pub fn new(endianness: Endianness, fields: Vec<FieldSpec>) -> (r: Result<Layout, LayoutError>)
        requires
            prefix_size(fields@, fields@.len() as int) <= usize::MAX,
        ensures
            r is Ok <==> !(has_open_ended_before_last(fields@) || has_zero_size_field(fields@)
                || has_duplicate_name(fields@)),
            match r {
                Ok(layout) => {
                    &&& layout.spec_endianness() == endianness
                    &&& layout.spec_fields().len() == fields@.len()
                    &&& forall|i: int|
                        0 <= i < fields@.len() ==> (#[trigger] layout.spec_fields()[i]).name@
                            == fields@[i].name@ && layout.spec_fields()[i].wire_type
                            == fields@[i].wire_type && layout.spec_fields()[i].offset as int
                            == prefix_size(fields@, i)
                    &&& layout.spec_total_size() == spec_total_size_of(fields@)
                },
                Err(LayoutError::OpenEndedFieldNotLast) => has_open_ended_before_last(fields@),
                Err(LayoutError::ZeroSizeField) => !has_open_ended_before_last(fields@)
                    && has_zero_size_field(fields@),
                Err(LayoutError::DuplicateFieldName) => !has_open_ended_before_last(fields@)
                    && !has_zero_size_field(fields@) && has_duplicate_name(fields@),
            },
    {
        let n = fields.len();
        let mut i: usize = 0;
        while i < n
            invariant
                i <= n,
                n == fields@.len(),
                forall|k: int|
                    0 <= k < i ==> !((#[trigger] fields@[k].wire_type) is OpenEnded) || k == n - 1,
            decreases n - i,
        {
            if matches!(fields[i].wire_type, WireType::OpenEnded) && i + 1 < n {
                return Err(LayoutError::OpenEndedFieldNotLast);
            }
            i += 1;
        }
        assert(!has_open_ended_before_last(fields@));
        let mut i: usize = 0;
        while i < n
            invariant
                i <= n,
                n == fields@.len(),
                !has_open_ended_before_last(fields@),
                forall|k: int|
                    0 <= k < i ==> (#[trigger] fields@[k].wire_type) != WireType::Bytes(0usize),
            decreases n - i,
        {
            if matches!(fields[i].wire_type, WireType::Bytes(0)) {
                return Err(LayoutError::ZeroSizeField);
            }
            i += 1;
        }
        assert(!has_zero_size_field(fields@));
        let mut i: usize = 0;
        while i < n
            invariant
                i <= n,
                n == fields@.len(),
                !has_open_ended_before_last(fields@),
                !has_zero_size_field(fields@),
                forall|k1: int, k2: int|
                    0 <= k1 < k2 < i ==> (#[trigger] fields@[k1].name)@ != (
                    #[trigger] fields@[k2].name)@,
            decreases n - i,
        {
            let mut j: usize = 0;
            while j < i
                invariant
                    j <= i < n,
                    n == fields@.len(),
                    !has_open_ended_before_last(fields@),
                    !has_zero_size_field(fields@),
                    forall|k: int| 0 <= k < j ==> (#[trigger] fields@[k].name)@ != fields@[i as int].name@,
                decreases i - j,
            {
                if fields[j].name == fields[i].name {
                    return Err(LayoutError::DuplicateFieldName);
                }
                j += 1;
            }
            i += 1;
        }
        let mut resolved: Vec<ResolvedField> = Vec::new();
        let mut acc: Option<usize> = Some(0);
        let mut i: usize = 0;
        while i < n
            invariant
                i <= n,
                n == fields@.len(),
                prefix_size(fields@, n as int) <= usize::MAX,
                !has_open_ended_before_last(fields@),
                resolved@.len() == i,
                forall|k: int|
                    0 <= k < i ==> (#[trigger] resolved@[k]).name@ == fields@[k].name@
                        && resolved@[k].wire_type == fields@[k].wire_type
                        && resolved@[k].offset as int == prefix_size(fields@, k),
                if i > 0 && fields@[i - 1].wire_type is OpenEnded {
                    acc is None
                } else {
                    acc is Some && acc.unwrap() as int == prefix_size(fields@, i as int)
                },
            decreases n - i,
        {
            proof {
                if acc is None {
                    assert(0 <= i - 1 < fields@.len() - 1 && fields@[
                        i - 1
                    ].wire_type is OpenEnded);
                    assert(has_open_ended_before_last(fields@));
                }
                lemma_prefix_size_monotonic(fields@, i + 1, n as int);
            }
            let off = unwrap_field_size(acc);
            let f = &fields[i];
            let sz = f.wire_type.size();
            resolved.push(ResolvedField { name: f.name.clone(), wire_type: f.wire_type, offset: off });
            acc = option_usize_add(off, sz);
            i += 1;
        }
        proof {
            lemma_prefix_size_agree(fields@, resolved@, n as int);
            if n > 0 && !(fields@[n - 1].wire_type is OpenEnded) {
                assert(acc is Some);
            }
            assert forall|k: int| 0 <= k < resolved@.len() implies (#[trigger] resolved@[k]).offset
                as int == resolved_prefix_size(resolved@, k) by {
                lemma_prefix_size_agree(fields@, resolved@, k);
            }
            assert forall|k1: int, k2: int| 0 <= k1 < k2 < resolved@.len() implies (
            #[trigger] resolved@[k1].name)@ != (#[trigger] resolved@[k2].name)@ by {
                assert(fields@[k1].name@ != fields@[k2].name@);
            }
        }
        Ok(Layout { endianness, fields: resolved, total_size: acc })
    }
}

/// Unwrap the running offset accumulator. The accumulator is `None` only
/// after an open-ended field, which validation confines to the terminal
/// position, so a defined offset always exists where this is called.
pub fn unwrap_field_size(opt: Option<usize>) -> (r: usize)
    requires
        opt is Some,
    ensures
        r == opt.unwrap(),
{
    match opt {
        Some(x) => x,
        None => unreached(),
    }
}

/// Advance the offset accumulator by one field's size: a defined offset
/// plus a defined size, or `None` once the size is open-ended.
pub fn option_usize_add(lhs: usize, rhs: Option<usize>) -> (r: Option<usize>)
    requires
        rhs is Some ==> lhs + rhs.unwrap() <= usize::MAX,
    ensures
        r == match rhs {
            Some(x) => Some((lhs + x) as usize),
            None => None::<usize>,
        },
{
    match rhs {
        Some(x) => Some(lhs + x),
        None => None,
    }
}

} // verus!
