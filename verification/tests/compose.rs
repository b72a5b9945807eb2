use bytearray::Buffer;
use bytearray::BufferError;
use bytearray::ByteArray;
use bytearray::ByteSet;
use bytearray::Endianess;

#[test]
fn scenario_fixed_then_growable() {
    let mut fixed = ByteSet::new(4, Endianess::LE);
    fixed.write_u32(1234).unwrap();
    assert_eq!(fixed.write_u8(0), Err(BufferError::BoundsExceeded));

    let mut grow = ByteArray::new(0, Endianess::LE);
    grow.write_u32(1234).unwrap();
    assert_eq!(grow.len(), 4);
    grow.set_pos(0);
    assert_eq!(grow.read_u32().unwrap(), 1234);
}

#[test]
fn string_round_trip() {
    let mut b = ByteArray::new(0, Endianess::LE);
    let s = "hello buffer";
    b.write_string(s).unwrap();
    assert_eq!(b.len(), s.len());
    b.set_pos(0);
    assert_eq!(b.read_string(s.len()).unwrap(), s);
}

#[test]
fn string_round_trip_multibyte() {
    let mut b = ByteArray::new(0, Endianess::BE);
    let s = "να\u{1F600}";
    b.write_string(s).unwrap();
    b.set_pos(0);
    assert_eq!(b.read_string(s.len()).unwrap(), s);
}

#[test]
fn string_has_no_framing() {
    let mut b = ByteArray::new(0, Endianess::LE);
    b.write_string("ab").unwrap();
    assert_eq!(b.buffer, vec![b'a', b'b']);
}

#[test]
fn string_invalid_utf8_is_refused() {
    let mut b = ByteSet::from_vec(vec![0xFF, 0xFE], Endianess::LE);
    assert_eq!(b.read_string(2), Err(BufferError::InvalidEncoding));
    assert_eq!(b.pos(), 0);
    assert_eq!(b.read_string(3), Err(BufferError::BoundsExceeded));
}

#[test]
fn append_in_place() {
    let mut a = ByteSet::new(5, Endianess::LE);
    a.write_u8(1).unwrap();
    let b = ByteSet::from_vec(vec![7, 8, 9], Endianess::LE);
    a.append(&b).unwrap();
    assert_eq!(a.pos(), 4);
    assert_eq!(a.buffer, vec![1, 7, 8, 9, 0]);
    assert_eq!(a.append(&b), Err(BufferError::BoundsExceeded));
    assert_eq!(b.buffer, vec![7, 8, 9]);
}

#[test]
fn concat_sizing() {
    let mut a = ByteSet::new(2, Endianess::LE);
    a.write_u8(1).unwrap();
    a.write_u8(2).unwrap();
    let b = ByteSet::from_vec(vec![3, 4, 5], Endianess::LE);
    let c = a.concat(&b);
    assert_eq!(c.len(), 5);
    assert_eq!(c.pos(), 0);
    assert_eq!(c.buffer, vec![1, 2, 3, 4, 5]);
    assert_eq!(a.buffer, vec![1, 2]);
    assert_eq!(b.buffer, vec![3, 4, 5]);
}

#[test]
fn concat_string() {
    let a = ByteSet::from_vec(vec![1], Endianess::LE);
    let c = a.concat_str("hi");
    assert_eq!(c.len(), 3);
    assert_eq!(c.pos(), 0);
    assert_eq!(c.buffer, vec![1, b'h', b'i']);
}

#[test]
fn concat_numeric_vecs() {
    let a = ByteSet::from_vec(vec![0xAA], Endianess::LE);
    let c = a.concat_u16_vec(&vec![0x0102, 0x0304]);
    assert_eq!(c.len(), 5);
    assert_eq!(c.pos(), 0);
    assert_eq!(c.buffer, vec![0xAA, 0x02, 0x01, 0x04, 0x03]);

    let d = a.concat_u8_vec(&vec![1, 2]);
    assert_eq!(d.buffer, vec![0xAA, 1, 2]);

    let e = a.concat_i8_vec(&vec![-1]);
    assert_eq!(e.buffer, vec![0xAA, 0xFF]);

    let f = a.concat_u32_vec(&vec![0x01020304]);
    assert_eq!(f.buffer, vec![0xAA, 4, 3, 2, 1]);

    let g = a.concat_i16_vec(&vec![-2]);
    assert_eq!(g.buffer, vec![0xAA, 0xFE, 0xFF]);

    let h = a.concat_u64_vec(&vec![1]);
    assert_eq!(h.len(), 9);
    assert_eq!(h.buffer, vec![0xAA, 1, 0, 0, 0, 0, 0, 0, 0]);

    let i = a.concat_i32_vec(&vec![-1]);
    assert_eq!(i.buffer, vec![0xAA, 0xFF, 0xFF, 0xFF, 0xFF]);

    let j = a.concat_i64_vec(&vec![-1]);
    assert_eq!(j.len(), 9);
    assert_eq!(
        j.buffer,
        vec![0xAA, 0xFF, 0xFF, 0xFF, 0xFF, 0xFF, 0xFF, 0xFF, 0xFF]
    );
}

#[test]
fn concat_to_new_under_big_endian() {
    let a = ByteSet::new(0, Endianess::BE);
    let c = a.concat_u16_vec(&vec![0x0102]);
    assert_eq!(c.buffer, vec![0x01, 0x02]);
}
