use binary_layout::{Endianness, FieldSpec, Layout, LayoutError, WireType};
use binary_layout::{option_usize_add, unwrap_field_size};

fn spec(name: &str, wire_type: WireType) -> FieldSpec {
    FieldSpec { name: name.to_string(), wire_type }
}

#[test]
fn can_be_created_with_and_without_trailing_comma() {
    let _first = Layout::new(Endianness::Little, vec![spec("field", WireType::U8)]).unwrap();
    let _second = Layout::new(
        Endianness::Little,
        vec![spec("field", WireType::U8), spec("second", WireType::U16)],
    )
    .unwrap();
    let _third = Layout::new(Endianness::Little, vec![spec("field", WireType::U8)]).unwrap();
    let _fourth = Layout::new(
        Endianness::Little,
        vec![spec("field", WireType::U8), spec("second", WireType::U16)],
    )
    .unwrap();
}

#[test]
fn size_of_sized_layout() {
    let layout = Layout::new(
        Endianness::Little,
        vec![spec("field1", WireType::U16), spec("field2", WireType::I64)],
    )
    .unwrap();
    assert_eq!(Some(10), layout.total_size());
}

#[test]
fn size_of_unsized_layout() {
    let layout = Layout::new(
        Endianness::Little,
        vec![spec("field", WireType::U16), spec("tail", WireType::OpenEnded)],
    )
    .unwrap();
    assert_eq!(None, layout.total_size());
}

#[test]
fn offsets_are_prefix_sums_of_sizes() {
    let layout = Layout::new(
        Endianness::Little,
        vec![
            spec("a", WireType::U8),
            spec("b", WireType::U16),
            spec("c", WireType::U32),
        ],
    )
    .unwrap();
    assert_eq!(0, layout.field_offset(0));
    assert_eq!(1, layout.field_offset(1));
    assert_eq!(3, layout.field_offset(2));
    assert_eq!(Some(7), layout.total_size());
}

#[test]
fn open_ended_layout_has_unbounded_size_and_sized_prefix() {
    let layout = Layout::new(
        Endianness::Little,
        vec![
            spec("field1", WireType::U32),
            spec("field2", WireType::Bytes(3)),
            spec("tail", WireType::OpenEnded),
        ],
    )
    .unwrap();
    assert_eq!(None, layout.total_size());
    assert_eq!(Some(4), layout.field_size(0));
    assert_eq!(Some(3), layout.field_size(1));
    assert_eq!(None, layout.field_size(2));
    assert_eq!(7, layout.field_offset(2));
}

#[test]
fn open_ended_field_must_be_last() {
    let r = Layout::new(
        Endianness::Little,
        vec![spec("tail", WireType::OpenEnded), spec("field", WireType::U8)],
    );
    assert_eq!(Err(LayoutError::OpenEndedFieldNotLast), r.map(|_| ()));
}

#[test]
fn zero_size_byte_array_is_rejected() {
    let r = Layout::new(Endianness::Big, vec![spec("empty", WireType::Bytes(0))]);
    assert_eq!(Err(LayoutError::ZeroSizeField), r.map(|_| ()));
}

#[test]
fn duplicate_field_names_are_rejected() {
    let r = Layout::new(
        Endianness::Big,
        vec![spec("twice", WireType::U8), spec("twice", WireType::U16)],
    );
    assert_eq!(Err(LayoutError::DuplicateFieldName), r.map(|_| ()));
}

#[test]
fn field_metadata_is_kept() {
    let layout = Layout::new(
        Endianness::Big,
        vec![spec("kind", WireType::U8), spec("length", WireType::U32)],
    )
    .unwrap();
    assert_eq!(2, layout.num_fields());
    assert_eq!(Endianness::Big, layout.endianness());
    assert_eq!("kind", layout.field_name(0));
    assert_eq!("length", layout.field_name(1));
    assert_eq!(WireType::U32, layout.field_wire_type(1));
}

#[test]
fn unwrap_field_size_returns_the_value() {
    assert_eq!(7, unwrap_field_size(Some(7)));
    assert_eq!(0, unwrap_field_size(Some(0)));
}

#[test]
fn option_usize_add_propagates_open_endedness() {
    assert_eq!(Some(9), option_usize_add(5, Some(4)));
    assert_eq!(None, option_usize_add(5, None));
}
