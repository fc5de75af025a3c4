use prime_assets::cskr::Cskr;
use prime_assets::error::Error;
use prime_assets::mesh::rigid_skin_tables;
use prime_assets::reader::Reader;

fn be(v: u32) -> [u8; 4] {
    v.to_be_bytes()
}

fn group(weights: &[(u32, u32)], vertex_count: u32) -> Vec<u8> {
    let mut out = be(weights.len() as u32).to_vec();
    for (bone, weight) in weights {
        out.extend_from_slice(&be(*bone));
        out.extend_from_slice(&be(*weight));
    }
    out.extend_from_slice(&be(vertex_count));
    out
}

#[test]
fn consistent_skin_decodes_its_groups() {
    let mut data = be(5).to_vec();
    data.extend(group(&[(3, 0x3f80_0000)], 2));
    data.extend(group(&[(7, 0x3f80_0000)], 3));
    let skin = Cskr::read_from(&mut Reader::new(&data)).unwrap();
    assert_eq!(skin.vertex_groups.len(), 2);
    assert_eq!(skin.vertex_groups[1].vertex_count, 3);
    assert_eq!(skin.vertex_groups[1].weights[0].bone_id, 7);
    let tables = rigid_skin_tables(&skin).unwrap();
    assert_eq!(tables.bone_ids, vec![3, 3, 7, 7, 7]);
    assert_eq!(tables.weights, vec![0x3f80_0000; 5]);
}

#[test]
fn overshooting_vertex_sum_is_inconsistent() {
    let mut data = be(5).to_vec();
    data.extend(group(&[(3, 0)], 3));
    data.extend(group(&[(4, 0)], 3));
    assert!(matches!(Cskr::read_from(&mut Reader::new(&data)), Err(Error::InconsistentSkin)));
}

#[test]
fn missing_groups_are_truncated_not_padded() {
    let mut data = be(5).to_vec();
    data.extend(group(&[(3, 0)], 3));
    assert!(matches!(Cskr::read_from(&mut Reader::new(&data)), Err(Error::Truncated)));
}

#[test]
fn empty_skin_is_consistent() {
    let data = be(0).to_vec();
    let skin = Cskr::read_from(&mut Reader::new(&data)).unwrap();
    assert!(skin.vertex_groups.is_empty());
}

#[test]
fn multi_weight_group_is_rejected() {
    let mut data = be(2).to_vec();
    data.extend(group(&[(1, 0), (2, 0)], 2));
    let skin = Cskr::read_from(&mut Reader::new(&data)).unwrap();
    assert!(matches!(rigid_skin_tables(&skin), Err(Error::UnsupportedFormat)));
}
