use prime_assets::error::Error;
use prime_assets::reader::Reader;

#[test]
fn big_endian_integers() {
    let data = [0x12, 0x34, 0x56, 0x78, 0xff, 0xfe, 0x80];
    let mut r = Reader::new(&data);
    assert_eq!(r.read_u32().unwrap(), 0x1234_5678);
    assert_eq!(r.read_i16().unwrap(), -2);
    assert_eq!(r.read_i8().unwrap(), -128);
    assert!(matches!(r.read_u8(), Err(Error::Truncated)));
    let mut r = Reader::new(&[0xff, 0xff, 0xff, 0xfe]);
    assert_eq!(r.read_i32().unwrap(), -2);
}

#[test]
fn c_string_stops_at_zero() {
    let data = b"abc\0de";
    let mut r = Reader::new(data);
    assert_eq!(r.read_ascii_c_string().unwrap(), "abc");
    assert_eq!(r.remaining(), 2);
    assert!(matches!(r.read_ascii_c_string(), Err(Error::Truncated)));
}

#[test]
fn c_string_rejects_high_bytes() {
    let data = [b'a', 0x80, 0];
    assert!(matches!(Reader::new(&data).read_ascii_c_string(), Err(Error::NonAsciiByte)));
}

#[test]
fn fixed_capacity_string_consumes_all_bytes() {
    let data = b"PA\0XYZ";
    let mut r = Reader::new(data);
    assert_eq!(r.read_fixed_capacity_ascii_c_string(4).unwrap(), "PA");
    assert_eq!(r.read_u16().unwrap(), u16::from_be_bytes([b'Y', b'Z']));
    let mut r = Reader::new(b"CMDL");
    assert_eq!(r.read_fixed_capacity_ascii_c_string(4).unwrap(), "CMDL");
    assert!(matches!(Reader::new(b"AB").read_fixed_capacity_ascii_c_string(4), Err(Error::Truncated)));
    assert!(matches!(
        Reader::new(&[b'A', 0xc3, 0, 0]).read_fixed_capacity_ascii_c_string(4),
        Err(Error::NonAsciiByte)
    ));
    assert_eq!(Reader::new(&[b'A', 0, 0xc3, 0]).read_fixed_capacity_ascii_c_string(4).unwrap(), "A");
}

#[test]
fn length_prefixed_string() {
    let data = [0, 0, 0, 3, b'x', b'y', b'z', 1];
    let mut r = Reader::new(&data);
    assert_eq!(r.read_length_prefixed_string().unwrap(), "xyz");
    assert_eq!(r.remaining(), 1);
    assert!(matches!(Reader::new(&[0, 0, 0, 3, b'x']).read_length_prefixed_string(), Err(Error::Truncated)));
    assert!(matches!(Reader::new(&[0, 0, 0, 3, 0x90]).read_length_prefixed_string(), Err(Error::NonAsciiByte)));
}

#[test]
fn word_arrays_and_lists() {
    let data = [0, 0, 0, 2, 0, 0, 0, 5, 0, 0, 1, 0];
    let mut r = Reader::new(&data);
    assert_eq!(r.read_u32_list().unwrap(), vec![5, 256]);
    let mut r = Reader::new(&data);
    assert_eq!(r.read_u32_array(3).unwrap(), vec![2, 5, 256]);
    assert!(matches!(Reader::new(&data).read_u32_array(4), Err(Error::Truncated)));
}
