use bytearray::Buffer;
use bytearray::BufferError;
use bytearray::ByteArray;
use bytearray::ByteSet;
use bytearray::ByteSlice;
use bytearray::Endianess;

#[test]
fn from() {
    let mut b = ByteSet::from_vec(vec![1u8, 2u8, 3u8], Endianess::LE);
    assert_eq!(b.read_u8().unwrap(), 1u8);
    assert_eq!(b.read_u8().unwrap(), 2u8);
    assert_eq!(b.read_u8().unwrap(), 3u8);
}

#[test]
fn write_u8() {
    let mut b = ByteSet::new(1, Endianess::LE);
    b.write_u8(4).unwrap();
    b.set_pos(0);
    assert_eq!(b.read_u8().unwrap(), 4);
}

#[test]
fn write_u16() {
    let mut b = ByteSet::new(2, Endianess::LE);
    b.write_u16(4).unwrap();
    b.set_pos(0);
    assert_eq!(b.read_u16().unwrap(), 4);
}

#[test]
fn write_u32() {
    let mut b = ByteSet::new(4, Endianess::LE);
    b.write_u32(4).unwrap();
    b.set_pos(0);
    assert_eq!(b.read_u32().unwrap(), 4);
}

#[test]
fn write_u64() {
    let mut b = ByteSet::new(8, Endianess::LE);
    b.write_u64(4).unwrap();
    b.set_pos(0);
    assert_eq!(b.read_u64().unwrap(), 4);
}

#[test]
fn round_trip_every_type_le() {
    let mut b = ByteSet::new(64, Endianess::LE);
    b.write_u8(0xAB).unwrap();
    b.write_i8(-5).unwrap();
    b.write_u16(0xBEEF).unwrap();
    b.write_i16(-12345).unwrap();
    b.write_u24(0xC0FFEE).unwrap();
    b.write_u32(0xDEADBEEF).unwrap();
    b.write_i32(-123456789).unwrap();
    b.write_u64(0x0123456789ABCDEF).unwrap();
    b.write_i64(-1234567890123456789).unwrap();
    b.set_pos(0);
    assert_eq!(b.read_u8().unwrap(), 0xAB);
    assert_eq!(b.read_i8().unwrap(), -5);
    assert_eq!(b.read_u16().unwrap(), 0xBEEF);
    assert_eq!(b.read_i16().unwrap(), -12345);
    assert_eq!(b.read_u24().unwrap(), 0xC0FFEE);
    assert_eq!(b.read_u32().unwrap(), 0xDEADBEEF);
    assert_eq!(b.read_i32().unwrap(), -123456789);
    assert_eq!(b.read_u64().unwrap(), 0x0123456789ABCDEF);
    assert_eq!(b.read_i64().unwrap(), -1234567890123456789);
}

#[test]
fn round_trip_every_type_be() {
    let mut b = ByteSet::new(64, Endianess::BE);
    b.write_u8(0xAB).unwrap();
    b.write_i8(-5).unwrap();
    b.write_u16(0xBEEF).unwrap();
    b.write_i16(-12345).unwrap();
    b.write_u24(0xC0FFEE).unwrap();
    b.write_u32(0xDEADBEEF).unwrap();
    b.write_i32(-123456789).unwrap();
    b.write_u64(0x0123456789ABCDEF).unwrap();
    b.write_i64(-1234567890123456789).unwrap();
    b.set_pos(0);
    assert_eq!(b.read_u8().unwrap(), 0xAB);
    assert_eq!(b.read_i8().unwrap(), -5);
    assert_eq!(b.read_u16().unwrap(), 0xBEEF);
    assert_eq!(b.read_i16().unwrap(), -12345);
    assert_eq!(b.read_u24().unwrap(), 0xC0FFEE);
    assert_eq!(b.read_u32().unwrap(), 0xDEADBEEF);
    assert_eq!(b.read_i32().unwrap(), -123456789);
    assert_eq!(b.read_u64().unwrap(), 0x0123456789ABCDEF);
    assert_eq!(b.read_i64().unwrap(), -1234567890123456789);
}

#[test]
fn endianness_byte_order() {
    let mut le = ByteSet::new(4, Endianess::LE);
    le.write_u32(0x01020304).unwrap();
    assert_eq!(le.buffer, vec![0x04, 0x03, 0x02, 0x01]);

    let mut be = ByteSet::new(4, Endianess::BE);
    be.write_u32(0x01020304).unwrap();
    assert_eq!(be.buffer, vec![0x01, 0x02, 0x03, 0x04]);

    let mut le16 = ByteSet::new(2, Endianess::LE);
    le16.write_i16(-2).unwrap();
    assert_eq!(le16.buffer, vec![0xFE, 0xFF]);
}

#[test]
fn cursor_advance_per_width() {
    let mut b = ByteArray::new(0, Endianess::LE);
    assert_eq!(b.pos(), 0);
    b.write_u8(1).unwrap();
    assert_eq!(b.pos(), 1);
    b.write_u16(1).unwrap();
    assert_eq!(b.pos(), 3);
    b.write_u24(1).unwrap();
    assert_eq!(b.pos(), 6);
    b.write_u32(1).unwrap();
    assert_eq!(b.pos(), 10);
    b.write_u64(1).unwrap();
    assert_eq!(b.pos(), 18);
    b.set_pos(0);
    b.read_u8().unwrap();
    assert_eq!(b.pos(), 1);
    b.read_u16().unwrap();
    assert_eq!(b.pos(), 3);
    b.read_u24().unwrap();
    assert_eq!(b.pos(), 6);
    b.read_u32().unwrap();
    assert_eq!(b.pos(), 10);
    b.read_u64().unwrap();
    assert_eq!(b.pos(), 18);
}

#[test]
fn bounds_enforcement_fixed_vs_growable() {
    let mut fixed = ByteSet::new(3, Endianess::LE);
    fixed.write_u8(1).unwrap();
    fixed.write_u8(2).unwrap();
    fixed.write_u8(3).unwrap();
    assert_eq!(fixed.write_u8(4), Err(BufferError::BoundsExceeded));
    assert_eq!(fixed.len(), 3);

    let mut grow = ByteArray::new(3, Endianess::LE);
    assert!(grow.is_growable());
    grow.write_u8(1).unwrap();
    grow.write_u8(2).unwrap();
    grow.write_u8(3).unwrap();
    grow.write_u8(4).unwrap();
    assert_eq!(grow.len(), 4);
}

#[test]
fn reads_past_end_fail_everywhere() {
    let mut grow = ByteArray::new(1, Endianess::LE);
    grow.set_pos(0);
    grow.read_u8().unwrap();
    assert_eq!(grow.read_u8(), Err(BufferError::BoundsExceeded));
    assert_eq!(grow.read_u32(), Err(BufferError::BoundsExceeded));

    let mut fixed = ByteSet::new(2, Endianess::BE);
    assert_eq!(fixed.read_u32(), Err(BufferError::BoundsExceeded));

    let mut arr = [0u8; 2];
    let mut slice = ByteSlice::new(&mut arr, Endianess::BE);
    assert_eq!(slice.read_u32(), Err(BufferError::BoundsExceeded));
}

#[test]
fn growable_zero_fills_gap() {
    let mut b = ByteArray::new(2, Endianess::LE);
    b.set_pos(4);
    b.write_u8(9).unwrap();
    assert_eq!(b.len(), 5);
    assert_eq!(b.buffer, vec![0, 0, 0, 0, 9]);
}

#[test]
fn u24_discards_most_significant_byte() {
    let mut b = ByteSet::new(3, Endianess::LE);
    b.write_u24(0x01FFEEDD).unwrap();
    b.set_pos(0);
    assert_eq!(b.read_u24().unwrap(), 0xFFEEDD);

    let mut c = ByteSet::new(3, Endianess::BE);
    c.write_u24(0xABCDEF).unwrap();
    assert_eq!(c.buffer, vec![0xAB, 0xCD, 0xEF]);
}

#[test]
fn position_and_exhaustion() {
    let mut b = ByteSet::new(2, Endianess::LE);
    assert!(!b.is_end());
    assert_eq!(b.len(), 2);
    b.write_u8(1).unwrap();
    assert!(!b.is_end());
    b.write_u8(2).unwrap();
    assert!(b.is_end());
    b.set_pos(1);
    assert_eq!(b.pos(), 1);
    assert!(!b.is_end());
    b.set_pos(7);
    assert_eq!(b.pos(), 7);
    assert!(b.is_end());
}

#[test]
fn byte_slice_writes_reach_the_callers_storage() {
    let mut arr = [0u8; 3];
    {
        let mut b = ByteSlice::new(&mut arr, Endianess::BE);
        b.write_u16(0x0102).unwrap();
        assert!(!b.is_growable());
    }
    assert_eq!(arr, [0x01, 0x02, 0x00]);
}

#[test]
fn byte_slice_borrowed_storage() {
    let mut arr = [0u8; 4];
    let mut b = ByteSlice::new(&mut arr, Endianess::LE);
    b.write_u16(0x1234).unwrap();
    b.write_u8(0x56).unwrap();
    b.write_u8(0x78).unwrap();
    assert_eq!(b.write_u8(0x9A), Err(BufferError::BoundsExceeded));
    b.set_pos(0);
    assert_eq!(b.read_u16().unwrap(), 0x1234);
    assert_eq!(b.read_u8().unwrap(), 0x56);
    assert_eq!(b.read_u8().unwrap(), 0x78);
}

#[test]
fn vec_round_trips() {
    let mut b = ByteSet::new(64, Endianess::LE);
    b.write_u16_vec(&vec![1, 2, 0xFFFF]).unwrap();
    b.write_i16_vec(&vec![-1, 5]).unwrap();
    b.write_u32_vec(&vec![7, 0xDEADBEEF]).unwrap();
    b.write_i32_vec(&vec![-7]).unwrap();
    b.write_u64_vec(&vec![0x1122334455667788]).unwrap();
    b.write_i64_vec(&vec![-9]).unwrap();
    b.set_pos(0);
    assert_eq!(b.read_u16_vec(3).unwrap(), vec![1, 2, 0xFFFF]);
    assert_eq!(b.read_i16_vec(2).unwrap(), vec![-1, 5]);
    assert_eq!(b.read_u32_vec(2).unwrap(), vec![7, 0xDEADBEEF]);
    assert_eq!(b.read_i32_vec(1).unwrap(), vec![-7]);
    assert_eq!(b.read_u64_vec(1).unwrap(), vec![0x1122334455667788]);
    assert_eq!(b.read_i64_vec(1).unwrap(), vec![-9]);
}

#[test]
fn byte_vec_round_trips() {
    let mut b = ByteArray::new(0, Endianess::BE);
    b.write_u8_vec(&vec![1, 2, 3]).unwrap();
    b.write_i8_vec(&vec![-1, 0, 1]).unwrap();
    b.write_u8_slice(&[9, 8]).unwrap();
    b.set_pos(0);
    assert_eq!(b.read_u8_vec(3).unwrap(), vec![1, 2, 3]);
    assert_eq!(b.read_i8_vec(3).unwrap(), vec![-1, 0, 1]);
    assert_eq!(b.read_u8_vec(2).unwrap(), vec![9, 8]);
    assert!(b.is_end());
}

#[test]
fn vec_read_too_long_fails() {
    let mut b = ByteSet::new(4, Endianess::LE);
    assert_eq!(b.read_u16_vec(3), Err(BufferError::BoundsExceeded));
    assert_eq!(b.read_u16_vec(2).unwrap(), vec![0, 0]);
}

#[test]
fn vec_write_overflow_fixed() {
    let mut b = ByteSet::new(4, Endianess::LE);
    assert_eq!(
        b.write_u32_vec(&vec![1, 2]),
        Err(BufferError::BoundsExceeded)
    );
    assert_eq!(b.pos(), 0);
    b.write_u32_vec(&vec![1]).unwrap();
    assert_eq!(b.pos(), 4);
}

#[test]
fn overwrite_in_place() {
    let mut b = ByteSet::from_vec(vec![0xAA; 6], Endianess::LE);
    b.set_pos(2);
    b.write_u16(0x0102).unwrap();
    assert_eq!(b.buffer, vec![0xAA, 0xAA, 0x02, 0x01, 0xAA, 0xAA]);
}
