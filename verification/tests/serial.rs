use xhandshake::serializable::Serializable;

#[test]
fn u8_bytes_exact() {
    assert_eq!(0xabu8.bytes(), vec![0xab]);
    assert_eq!(0u8.bytes(), vec![0]);
}

#[test]
fn u16_bytes_little_endian() {
    assert_eq!(0x1234u16.bytes(), vec![0x34, 0x12]);
    assert_eq!(u16::MAX.bytes(), vec![0xff, 0xff]);
}

#[test]
fn u32_bytes_little_endian() {
    assert_eq!(0xdeadbeefu32.bytes(), vec![0xef, 0xbe, 0xad, 0xde]);
}

#[test]
fn u64_bytes_little_endian() {
    assert_eq!(
        0x0102030405060708u64.bytes(),
        vec![0x08, 0x07, 0x06, 0x05, 0x04, 0x03, 0x02, 0x01]
    );
}

#[test]
fn u8_round_trip() {
    for v in [0u8, 1, 0x7f, 0xff] {
        assert_eq!(u8::from_bytes(&v.bytes()), v);
    }
}

#[test]
fn u16_round_trip() {
    for v in [0u16, 1, 0x00ff, 0xff00, 0x1234, u16::MAX] {
        assert_eq!(u16::from_bytes(&v.bytes()), v);
    }
}

#[test]
fn u32_round_trip() {
    for v in [0u32, 1, 0xdeadbeef, u32::MAX] {
        assert_eq!(u32::from_bytes(&v.bytes()), v);
    }
}

#[test]
fn u64_round_trip() {
    for v in [0u64, 1, 0x0102030405060708, u64::MAX] {
        assert_eq!(u64::from_bytes(&v.bytes()), v);
    }
}

#[test]
fn from_bytes_reads_only_leading_bytes() {
    let longer = vec![0x34, 0x12, 0xaa, 0xbb];
    assert_eq!(u16::from_bytes(&longer), 0x1234);
    assert_eq!(u8::from_bytes(&longer), 0x34);
}

#[test]
fn string_bytes_are_raw_bytes() {
    let s = String::from("AB!");
    assert_eq!(s.bytes(), vec![65, 66, 33]);
    assert_eq!(String::from("").bytes(), Vec::<u8>::new());
}

#[test]
fn string_from_bytes_widens_each_byte() {
    let v = vec![104u8, 105, 33];
    assert_eq!(String::from_bytes(&v), "hi!");
    assert_eq!(String::from_bytes(&Vec::new()), "");
}
