use prime_assets::disc::{verify_disc, Disc, Header};
use prime_assets::error::{Error, Field};

fn be(v: u32) -> [u8; 4] {
    v.to_be_bytes()
}

/// A small image: header, an executable table, and a file system holding
/// `sub/a.pak` and `top.bin`.
fn image() -> Vec<u8> {
    let mut d = vec![0u8; 0x600];
    d[0..4].copy_from_slice(b"GM8E");
    d[4..6].copy_from_slice(b"01");
    d[0x420 + 224..0x420 + 228].copy_from_slice(&be(0x8000_3100));
    let strings = b"\0sub\0a.pak\0top.bin\0";
    let mut table = Vec::new();
    table.extend_from_slice(&be(0x0100_0000));
    table.extend_from_slice(&be(0));
    table.extend_from_slice(&be(4));
    table.extend_from_slice(&be(0x0100_0001));
    table.extend_from_slice(&be(0));
    table.extend_from_slice(&be(3));
    table.extend_from_slice(&be(5));
    table.extend_from_slice(&be(0x580));
    table.extend_from_slice(&be(3));
    table.extend_from_slice(&be(11));
    table.extend_from_slice(&be(0x590));
    table.extend_from_slice(&be(2));
    table.extend_from_slice(strings);
    d[0x424..0x428].copy_from_slice(&be(0x510));
    d[0x428..0x42c].copy_from_slice(&be(table.len() as u32));
    d[0x510..0x510 + table.len()].copy_from_slice(&table);
    d[0x580..0x583].copy_from_slice(&[1, 2, 3]);
    d[0x590..0x592].copy_from_slice(&[9, 8]);
    d
}

#[test]
fn header_fields_are_read() {
    let h = Header::new(&[b'G', b'M', b'8', b'E', b'0', b'1', 2, 3]).unwrap();
    assert_eq!(h.game_code(), "GM8E");
    assert_eq!(h.maker_code(), "01");
    assert_eq!(h.disc_id(), 2);
    assert_eq!(h.version(), 3);
    assert!(matches!(Header::new(&[0; 7]), Err(Error::Truncated)));
}

#[test]
fn known_disc_is_accepted() {
    let data = image();
    let disc = Disc::new(&data).unwrap();
    assert!(verify_disc(disc.header()).is_ok());
    assert_eq!(disc.main_executable().entry_point, 0x8000_3100);
    let other = Header::new(b"GM8P01\0\0").unwrap();
    assert!(matches!(verify_disc(&other), Err(Error::UnexpectedFormat { context: Field::GameCode, .. })));
}

#[test]
fn files_are_found_by_path() {
    let data = image();
    let disc = Disc::new(&data).unwrap();
    let files = disc.iter_files().unwrap();
    let paths: Vec<&str> = files.iter().map(|f| f.path()).collect();
    assert_eq!(paths, vec!["sub/a.pak", "top.bin"]);
    let f = disc.find_file("sub/a.pak").unwrap().unwrap();
    assert_eq!(f.data(), &[1, 2, 3]);
    let f = disc.find_file("top.bin").unwrap().unwrap();
    assert_eq!(f.data(), &[9, 8]);
    assert!(disc.find_file("a.pak").unwrap().is_none());
}

#[test]
fn short_image_is_truncated() {
    assert!(matches!(Disc::new(&[0u8; 0x100]), Err(Error::Truncated)));
}

#[test]
fn maker_code_stops_at_its_zero_byte() {
    let h = Header::new(b"GM8E0\0\x01\x02").unwrap();
    assert_eq!(h.game_code(), "GM8E");
    assert_eq!(h.maker_code(), "0");
    assert_eq!((h.disc_id(), h.version()), (1, 2));
}

#[test]
fn find_file_stops_at_the_first_match() {
    let mut data = image();
    // Give the last entry flags that no entry has; files before it are still found.
    data[0x510 + 36] = 7;
    let disc = Disc::new(&data).unwrap();
    let f = disc.find_file("sub/a.pak").unwrap().unwrap();
    assert_eq!(f.data(), &[1, 2, 3]);
    assert!(matches!(
        disc.find_file("top.bin"),
        Err(Error::UnexpectedFormat { context: Field::FileEntryFlags, value: 7 })
    ));
    assert!(disc.iter_files().is_err());
}
