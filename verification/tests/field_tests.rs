use binary_layout::field::{
    read_bytes_at, read_i16_at, read_i64_at, read_i8_at, read_tail_at, read_u128_at, read_u16_at,
    read_u32_at, read_u64_at, read_u8_at, write_bytes_at, write_i128_at, write_i16_at,
    write_i32_at, write_i64_at, write_i8_at, write_tail_at, write_u128_at, write_u16_at,
    write_u32_at, write_u64_at, write_u8_at, AccessError,
};
use binary_layout::field::{read_i128_at, read_i32_at};
use binary_layout::Endianness;

const BOTH: [Endianness; 2] = [Endianness::Big, Endianness::Little];

#[test]
fn u8_round_trip() {
    for e in BOTH {
        for v in [0u8, 1, 127, 128, 255] {
            let mut buf = vec![0u8; 4];
            write_u8_at(&mut buf, 3, e, v).unwrap();
            assert_eq!(v, read_u8_at(&buf, 3, e).unwrap());
        }
    }
}

#[test]
fn u16_round_trip() {
    for e in BOTH {
        for v in [0u16, 1, 0x1234, 0x8000, u16::MAX] {
            let mut buf = vec![0u8; 8];
            write_u16_at(&mut buf, 5, e, v).unwrap();
            assert_eq!(v, read_u16_at(&buf, 5, e).unwrap());
        }
    }
}

#[test]
fn u32_round_trip() {
    for e in BOTH {
        for v in [0u32, 1, 0x01020304, 0x80000000, u32::MAX] {
            let mut buf = vec![0u8; 4];
            write_u32_at(&mut buf, 0, e, v).unwrap();
            assert_eq!(v, read_u32_at(&buf, 0, e).unwrap());
        }
    }
}

#[test]
fn u64_round_trip() {
    for e in BOTH {
        for v in [0u64, 1, 0x0123456789abcdef, u64::MAX] {
            let mut buf = vec![0u8; 9];
            write_u64_at(&mut buf, 1, e, v).unwrap();
            assert_eq!(v, read_u64_at(&buf, 1, e).unwrap());
        }
    }
}

#[test]
fn u128_round_trip() {
    for e in BOTH {
        for v in [0u128, 1, 0x0102030405060708090a0b0c0d0e0f10, u128::MAX] {
            let mut buf = vec![0u8; 16];
            write_u128_at(&mut buf, 0, e, v).unwrap();
            assert_eq!(v, read_u128_at(&buf, 0, e).unwrap());
        }
    }
}

#[test]
fn i8_round_trip() {
    for e in BOTH {
        for v in [i8::MIN, -1, 0, 1, i8::MAX] {
            let mut buf = vec![0u8; 1];
            write_i8_at(&mut buf, 0, e, v).unwrap();
            assert_eq!(v, read_i8_at(&buf, 0, e).unwrap());
        }
    }
}

#[test]
fn i16_round_trip() {
    for e in BOTH {
        for v in [i16::MIN, -513, -1, 0, 1, 0x1234, i16::MAX] {
            let mut buf = vec![0u8; 2];
            write_i16_at(&mut buf, 0, e, v).unwrap();
            assert_eq!(v, read_i16_at(&buf, 0, e).unwrap());
        }
    }
}

#[test]
fn i32_round_trip() {
    for e in BOTH {
        for v in [i32::MIN, -1, 0, 1, 0x01020304, i32::MAX] {
            let mut buf = vec![0u8; 4];
            write_i32_at(&mut buf, 0, e, v).unwrap();
            assert_eq!(v, read_i32_at(&buf, 0, e).unwrap());
        }
    }
}

#[test]
fn i64_round_trip() {
    for e in BOTH {
        for v in [i64::MIN, -1, 0, 1, 0x0123456789abcdef, i64::MAX] {
            let mut buf = vec![0u8; 8];
            write_i64_at(&mut buf, 0, e, v).unwrap();
            assert_eq!(v, read_i64_at(&buf, 0, e).unwrap());
        }
    }
}

#[test]
fn i128_round_trip() {
    for e in BOTH {
        for v in [i128::MIN, -1, 0, 1, i128::MAX] {
            let mut buf = vec![0u8; 16];
            write_i128_at(&mut buf, 0, e, v).unwrap();
            assert_eq!(v, read_i128_at(&buf, 0, e).unwrap());
        }
    }
}

#[test]
fn little_endian_encoding_is_least_significant_byte_first() {
    let mut buf = vec![0u8; 6];
    write_u32_at(&mut buf, 1, Endianness::Little, 0x01020304).unwrap();
    assert_eq!(vec![0, 4, 3, 2, 1, 0], buf);
}

#[test]
fn big_endian_encoding_is_most_significant_byte_first() {
    let mut buf = vec![0u8; 6];
    write_u32_at(&mut buf, 1, Endianness::Big, 0x01020304).unwrap();
    assert_eq!(vec![0, 1, 2, 3, 4, 0], buf);
}

#[test]
fn negative_values_are_twos_complement_on_the_wire() {
    let mut buf = vec![0u8; 1];
    write_i8_at(&mut buf, 0, Endianness::Little, -1).unwrap();
    assert_eq!(vec![0xff], buf);
    let mut buf = vec![0u8; 2];
    write_i16_at(&mut buf, 0, Endianness::Little, -2).unwrap();
    assert_eq!(vec![0xfe, 0xff], buf);
    let mut buf = vec![0u8; 2];
    write_i16_at(&mut buf, 0, Endianness::Big, -2).unwrap();
    assert_eq!(vec![0xff, 0xfe], buf);
}

#[test]
fn read_on_short_buffer_reports_buffer_too_short() {
    let buf = vec![0u8; 3];
    assert_eq!(
        Err(AccessError::BufferTooShort { required: 5, actual: 3 }),
        read_u32_at(&buf, 1, Endianness::Little)
    );
}

#[test]
fn write_on_short_buffer_reports_buffer_too_short() {
    let mut buf = vec![0u8; 3];
    assert_eq!(
        Err(AccessError::BufferTooShort { required: 5, actual: 3 }),
        write_u32_at(&mut buf, 1, Endianness::Little, 7)
    );
    assert_eq!(vec![0, 0, 0], buf);
}

#[test]
fn byte_array_round_trip() {
    let mut buf = vec![0u8; 6];
    let data = vec![9u8, 8, 7];
    write_bytes_at(&mut buf, 2, 3, &data).unwrap();
    assert_eq!(vec![0, 0, 9, 8, 7, 0], buf);
    assert_eq!(data, read_bytes_at(&buf, 2, 3).unwrap());
}

#[test]
fn byte_array_write_with_wrong_length_reports_mismatch() {
    let mut buf = vec![0u8; 6];
    let data = vec![9u8, 8];
    assert_eq!(
        Err(AccessError::LengthMismatch { expected: 3, actual: 2 }),
        write_bytes_at(&mut buf, 2, 3, &data)
    );
}

#[test]
fn tail_round_trip() {
    let mut buf = vec![0u8; 5];
    let data = vec![1u8, 2, 3];
    write_tail_at(&mut buf, 2, &data).unwrap();
    assert_eq!(vec![0, 0, 1, 2, 3], buf);
    assert_eq!(data, read_tail_at(&buf, 2).unwrap());
}

#[test]
fn tail_write_length_must_match_remaining_buffer() {
    let mut buf = vec![0u8; 5];
    let data = vec![1u8, 2];
    assert_eq!(
        Err(AccessError::LengthMismatch { expected: 3, actual: 2 }),
        write_tail_at(&mut buf, 2, &data)
    );
    let data = vec![1u8, 2, 3, 4];
    assert_eq!(
        Err(AccessError::LengthMismatch { expected: 3, actual: 4 }),
        write_tail_at(&mut buf, 2, &data)
    );
}

#[test]
fn tail_read_past_the_end_reports_buffer_too_short() {
    let buf = vec![0u8; 3];
    assert_eq!(
        Err(AccessError::BufferTooShort { required: 4, actual: 3 }),
        read_tail_at(&buf, 4)
    );
}
