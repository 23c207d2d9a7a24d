use binary_layout::field::AccessError;
use binary_layout::view::{LayoutView, StorageHandle};
use binary_layout::wrapped::Mode;
use binary_layout::{Endianness, FieldSpec, Layout, WireType};
use rand::rngs::StdRng;
use rand::{Rng, SeedableRng};

fn spec(name: &str, wire_type: WireType) -> FieldSpec {
    FieldSpec { name: name.to_string(), wire_type }
}

fn data_region(size: usize, seed: u64) -> Vec<u8> {
    let mut rng = StdRng::seed_from_u64(seed);
    let mut res = vec![0; size];
    rng.fill_bytes(&mut res);
    res
}

fn module_level_layout() -> Layout {
    Layout::new(
        Endianness::Little,
        vec![
            spec("first", WireType::I8),
            spec("second", WireType::I64),
            spec("third", WireType::U16),
        ],
    )
    .unwrap()
}

#[test]
fn layouts_can_be_defined_at_module_level() {
    let layout = module_level_layout();
    let storage = vec![0u8; 1024];
    let view = LayoutView::new(&layout, StorageHandle::Owned(storage));
    assert_eq!(0, view.read_u16(2).unwrap());
}

#[test]
fn layouts_can_be_defined_at_function_level() {
    let function_level_layout = Layout::new(
        Endianness::Little,
        vec![
            spec("first", WireType::I8),
            spec("second", WireType::I64),
            spec("third", WireType::U16),
        ],
    )
    .unwrap();
    let storage = vec![0u8; 1024];
    let view = LayoutView::new(&function_level_layout, StorageHandle::Owned(storage));
    assert_eq!(0, view.read_u16(2).unwrap());
}

#[test]
fn there_can_be_multiple_views_if_readonly() {
    let my_layout = Layout::new(
        Endianness::Big,
        vec![spec("field1", WireType::U16), spec("field2", WireType::I64)],
    )
    .unwrap();
    let storage = data_region(1024, 0);
    let view1 = LayoutView::new(&my_layout, StorageHandle::SharedBorrow(&storage));
    let view2 = LayoutView::new(&my_layout, StorageHandle::SharedBorrow(&storage));
    view1.read_u16(0).unwrap();
    view2.read_u16(0).unwrap();
}

#[test]
fn shared_views_observe_identical_values() {
    let layout = Layout::new(
        Endianness::Big,
        vec![spec("field1", WireType::U16), spec("field2", WireType::I64)],
    )
    .unwrap();
    let storage = data_region(1024, 1);
    let view1 = LayoutView::new(&layout, StorageHandle::SharedBorrow(&storage));
    let view2 = LayoutView::new(&layout, StorageHandle::SharedBorrow(&storage));
    assert_eq!(view1.read_u16(0).unwrap(), view2.read_u16(0).unwrap());
    assert_eq!(view1.read_i64(1).unwrap(), view2.read_i64(1).unwrap());
}

#[test]
fn scenario_little_endian_three_field_layout() {
    let layout = module_level_layout();
    assert_eq!(1, layout.field_offset(1));
    assert_eq!(9, layout.field_offset(2));
    assert_eq!(Some(11), layout.total_size());
    let storage = vec![0u8; 1024];
    let view = LayoutView::new(&layout, StorageHandle::Owned(storage));
    assert_eq!(0, view.read_u16(2).unwrap());
}

#[test]
fn scenario_open_ended_tail_covers_rest_of_buffer() {
    let layout = Layout::new(
        Endianness::Little,
        vec![spec("field", WireType::U16), spec("tail", WireType::OpenEnded)],
    )
    .unwrap();
    assert_eq!(None, layout.total_size());
    let storage: Vec<u8> = (0u8..20).collect();
    let view = LayoutView::new(&layout, StorageHandle::SharedBorrow(&storage));
    let tail = view.read_tail(1).unwrap();
    assert_eq!(18, tail.len());
    assert_eq!((2u8..20).collect::<Vec<u8>>(), tail);
}

#[test]
fn view_write_then_read_round_trip() {
    let layout = module_level_layout();
    let mut view = LayoutView::new(&layout, StorageHandle::Owned(vec![0u8; 11]));
    view.write_i8(0, -5).unwrap();
    view.write_i64(1, -123456789).unwrap();
    view.write_u16(2, 40000).unwrap();
    assert_eq!(-5, view.read_i8(0).unwrap());
    assert_eq!(-123456789, view.read_i64(1).unwrap());
    assert_eq!(40000, view.read_u16(2).unwrap());
}

#[test]
fn write_accessor_on_short_buffer_reports_buffer_too_short() {
    let layout = module_level_layout();
    let mut view = LayoutView::new(&layout, StorageHandle::Owned(vec![0u8; 5]));
    assert_eq!(
        Err(AccessError::BufferTooShort { required: 9, actual: 5 }),
        view.write_i64(1, 1)
    );
    assert_eq!(
        Err(AccessError::BufferTooShort { required: 11, actual: 5 }),
        view.write_u16(2, 1)
    );
}

#[test]
fn read_accessor_on_short_buffer_reports_buffer_too_short() {
    let layout = module_level_layout();
    let storage = vec![0u8; 5];
    let view = LayoutView::new(&layout, StorageHandle::SharedBorrow(&storage));
    assert_eq!(
        Err(AccessError::BufferTooShort { required: 11, actual: 5 }),
        view.read_u16(2)
    );
}

#[test]
fn into_storage_returns_the_buffer_unchanged() {
    let layout = module_level_layout();
    let mut view = LayoutView::new(&layout, StorageHandle::Owned(vec![0u8; 11]));
    view.write_u16(2, 0x0102).unwrap();
    match view.into_storage() {
        StorageHandle::Owned(buf) => {
            assert_eq!(11, buf.len());
            assert_eq!(vec![0, 0, 0, 0, 0, 0, 0, 0, 0, 2, 1], buf);
        }
        _ => panic!("storage was owned"),
    }
}

#[test]
fn extract_returns_the_owned_tail() {
    let layout = Layout::new(
        Endianness::Big,
        vec![spec("field", WireType::U16), spec("tail", WireType::OpenEnded)],
    )
    .unwrap();
    let storage: Vec<u8> = (0u8..8).collect();
    let view = LayoutView::new(&layout, StorageHandle::Owned(storage));
    let tail = view.extract(1).unwrap();
    assert_eq!(vec![2u8, 3, 4, 5, 6, 7], tail);
}

#[test]
fn byte_array_fields_through_a_view() {
    let layout = Layout::new(
        Endianness::Big,
        vec![spec("header", WireType::Bytes(4)), spec("crc", WireType::U32)],
    )
    .unwrap();
    let mut view = LayoutView::new(&layout, StorageHandle::Owned(vec![0u8; 8]));
    let data = vec![0xdeu8, 0xad, 0xbe, 0xef];
    view.write_bytes(0, &data).unwrap();
    assert_eq!(data, view.read_bytes(0).unwrap());
    assert_eq!(
        Err(AccessError::LengthMismatch { expected: 4, actual: 2 }),
        view.write_bytes(0, &vec![1u8, 2])
    );
}

#[test]
fn wrapped_field_round_trip() {
    let layout = Layout::new(
        Endianness::Little,
        vec![spec("mode", WireType::U16), spec("arg", WireType::U32)],
    )
    .unwrap();
    for mode in [Mode::Idle, Mode::Active, Mode::Shutdown] {
        let mut view = LayoutView::new(&layout, StorageHandle::Owned(vec![0u8; 6]));
        view.write_wrapped_u16(0, mode).unwrap();
        assert_eq!(Ok(mode), view.read_wrapped_u16::<Mode>(0));
    }
}

#[test]
fn wrapped_field_rejects_unknown_wire_values() {
    let layout = Layout::new(
        Endianness::Little,
        vec![spec("mode", WireType::U16), spec("arg", WireType::U32)],
    )
    .unwrap();
    let mut view = LayoutView::new(&layout, StorageHandle::Owned(vec![0u8; 6]));
    view.write_u16(0, 7).unwrap();
    assert_eq!(
        Err(AccessError::Conversion),
        view.read_wrapped_u16::<Mode>(0)
    );
}

#[test]
fn exclusive_borrow_writes_are_visible_after_the_view_is_dropped() {
    let layout = module_level_layout();
    let mut storage = vec![0u8; 11];
    {
        let mut view = LayoutView::new(&layout, StorageHandle::ExclusiveBorrow(&mut storage));
        view.write_u16(2, 0x0102).unwrap();
        assert_eq!(0x0102, view.read_u16(2).unwrap());
    }
    assert_eq!(vec![0, 0, 0, 0, 0, 0, 0, 0, 0, 2, 1], storage);
}
