use std::io::Write;

use flate2::write::ZlibEncoder;
use flate2::Compression;
use prime_assets::error::{Error, Field};
use prime_assets::pak::Pak;

fn be(v: u32) -> [u8; 4] {
    v.to_be_bytes()
}

fn zlib(bytes: &[u8]) -> Vec<u8> {
    let mut e = ZlibEncoder::new(Vec::new(), Compression::default());
    e.write_all(bytes).unwrap();
    e.finish().unwrap()
}

/// Lays out an archive: header, name table, resource table, then the stored bytes.
fn archive(names: &[(&str, u32, &str)], resources: &[(u32, &str, u32, Vec<u8>)]) -> Vec<u8> {
    let mut head = be(0x0003_0005).to_vec();
    head.extend_from_slice(&be(0));
    head.extend_from_slice(&be(names.len() as u32));
    for (fourcc, id, name) in names {
        head.extend_from_slice(fourcc.as_bytes());
        head.extend_from_slice(&be(*id));
        head.extend_from_slice(&be(name.len() as u32));
        head.extend_from_slice(name.as_bytes());
    }
    head.extend_from_slice(&be(resources.len() as u32));
    let table_len = 20 * resources.len();
    let mut offset = head.len() + table_len;
    let mut body = Vec::new();
    for (compression, fourcc, id, stored) in resources {
        head.extend_from_slice(&be(*compression));
        head.extend_from_slice(fourcc.as_bytes());
        head.extend_from_slice(&be(*id));
        head.extend_from_slice(&be(stored.len() as u32));
        head.extend_from_slice(&be(offset as u32));
        offset += stored.len();
        body.extend_from_slice(stored);
    }
    head.extend(body);
    head
}

fn compressed(bytes: &[u8]) -> Vec<u8> {
    let mut out = be(bytes.len() as u32).to_vec();
    out.extend(zlib(bytes));
    out
}

#[test]
fn raw_and_compressed_resources_round_trip() {
    let contents: Vec<Vec<u8>> = vec![
        b"plain stored bytes".to_vec(),
        (0..300u32).map(|i| (i * 7 % 251) as u8).collect(),
        vec![],
        vec![42; 1000],
        b"another raw one".to_vec(),
    ];
    let resources = vec![
        (0, "TXTR", 10, contents[0].clone()),
        (1, "CMDL", 11, compressed(&contents[1])),
        (0, "CSKR", 12, contents[2].clone()),
        (1, "CINF", 13, compressed(&contents[3])),
        (0, "ANCS", 14, contents[4].clone()),
    ];
    let data = archive(&[("CMDL", 11, "Model")], &resources);
    let pak = Pak::new(&data).unwrap();
    for (i, content) in contents.iter().enumerate() {
        let got = pak.data(10 + i as u32).unwrap().unwrap();
        assert_eq!(&got, content, "resource {i}");
    }
    assert!(pak.data(99).unwrap().is_none());
}

#[test]
fn inflated_bytes_differ_from_stored_bytes() {
    let content = vec![7u8; 64];
    let stored = compressed(&content);
    let data = archive(&[], &[(1, "TXTR", 5, stored.clone())]);
    let pak = Pak::new(&data).unwrap();
    let got = pak.data(5).unwrap().unwrap();
    assert_ne!(got, stored);
    assert_eq!(got, content);
}

#[test]
fn wrong_declared_size_is_corrupt() {
    let content = vec![1u8, 2, 3, 4, 5];
    let mut stored = be(4).to_vec();
    stored.extend(zlib(&content));
    let data = archive(&[], &[(1, "TXTR", 5, stored)]);
    let pak = Pak::new(&data).unwrap();
    assert!(matches!(pak.data(5), Err(Error::CorruptArchive)));

    let mut stored = be(9).to_vec();
    stored.extend(zlib(&content));
    let data = archive(&[], &[(1, "TXTR", 5, stored)]);
    let pak = Pak::new(&data).unwrap();
    assert!(matches!(pak.data(5), Err(Error::CorruptArchive)));
}

#[test]
fn garbage_stream_is_corrupt() {
    let mut stored = be(4).to_vec();
    stored.extend_from_slice(&[1, 2, 3, 4, 5, 6]);
    let data = archive(&[], &[(1, "TXTR", 5, stored)]);
    let pak = Pak::new(&data).unwrap();
    assert!(matches!(pak.data(5), Err(Error::CorruptArchive)));
}

#[test]
fn unknown_compression_is_unexpected() {
    let data = archive(&[], &[(2, "TXTR", 5, vec![0; 8])]);
    let pak = Pak::new(&data).unwrap();
    assert!(matches!(
        pak.data(5),
        Err(Error::UnexpectedFormat { context: Field::Compression, value: 2 })
    ));
}

#[test]
fn wrong_version_is_rejected() {
    let mut data = archive(&[], &[]);
    data[3] = 6;
    assert!(matches!(
        Pak::new(&data),
        Err(Error::UnexpectedFormat { context: Field::ArchiveVersion, value: 0x0003_0006 })
    ));
    assert!(matches!(Pak::new(&data[..2]), Err(Error::Truncated)));
}

#[test]
fn names_are_found_by_linear_scan() {
    let data = archive(
        &[("CMDL", 11, "Gun"), ("TXTR", 12, "Skin"), ("ANCS", 13, "Gun")],
        &[(0, "TXTR", 12, vec![9, 9]), (0, "CMDL", 11, vec![1])],
    );
    let pak = Pak::new(&data).unwrap();
    let e = pak.entry("Gun").unwrap();
    assert_eq!(e.file_id(), 11);
    assert_eq!(e.fourcc(), "CMDL");
    assert_eq!(e.name(), "Gun");
    assert!(pak.entry("Missing").is_none());
    assert_eq!(pak.iter_names().len(), 3);
    let resources = pak.iter_resources();
    assert_eq!(resources.len(), 2);
    assert_eq!(resources[0].fourcc(), "TXTR");
    assert_eq!(resources[1].file_id(), 11);
    assert_eq!(pak.data_with_fourcc(12, "TXTR").unwrap().unwrap(), vec![9, 9]);
    assert!(pak.data_with_fourcc(12, "CMDL").unwrap().is_none());
}

#[test]
fn resource_past_the_end_is_truncated() {
    let mut data = archive(&[], &[(0, "TXTR", 5, vec![1, 2, 3])]);
    data.truncate(data.len() - 1);
    assert!(matches!(Pak::new(&data), Err(Error::Truncated)));
}

#[test]
fn first_resource_wins_for_a_repeated_id() {
    let data = archive(&[], &[(0, "TXTR", 5, vec![1]), (0, "TXTR", 5, vec![2])]);
    let pak = Pak::new(&data).unwrap();
    assert_eq!(pak.data(5).unwrap().unwrap(), vec![1]);
}

#[test]
fn truncated_name_table_is_truncated() {
    let mut data = be(0x0003_0005).to_vec();
    data.extend_from_slice(&be(0));
    data.extend_from_slice(&be(2));
    data.extend_from_slice(b"CMDL");
    data.extend_from_slice(&be(1));
    assert!(matches!(Pak::new(&data), Err(Error::Truncated)));
}
