use std::collections::BTreeSet;

use prime_assets::cinf::Cinf;
use prime_assets::cmdl::Cmdl;
use prime_assets::cskr::Cskr;
use prime_assets::error::{Error, Field};
use prime_assets::mesh::{joint_index, CanonicalMesh};
use prime_assets::reader::Reader;

fn be(v: u32) -> [u8; 4] {
    v.to_be_bytes()
}

fn pad32(mut v: Vec<u8>) -> Vec<u8> {
    while v.len() % 32 != 0 {
        v.push(0);
    }
    v
}

fn material(texture_indices: &[u32], attr_flags: u32) -> Vec<u8> {
    let mut m = be(0).to_vec();
    m.extend_from_slice(&be(texture_indices.len() as u32));
    for t in texture_indices {
        m.extend_from_slice(&be(*t));
    }
    m.extend_from_slice(&be(attr_flags));
    m.extend_from_slice(&be(0));
    m.extend_from_slice(&[0, 1, 0, 2]);
    m.extend_from_slice(&be(0));
    m.extend_from_slice(&be(0));
    m.extend_from_slice(&be(0));
    m
}

/// A model with one material set of two materials and two textures, and one
/// surface drawing a five-vertex strip with positions, normals and uv0.
fn model() -> Vec<u8> {
    let mat0 = material(&[0, 1], 0x30f);
    let mat1 = material(&[1], 0x30f);
    let mut set = be(2).to_vec();
    set.extend_from_slice(&be(0xaaaa_0001));
    set.extend_from_slice(&be(0xbbbb_0002));
    set.extend_from_slice(&be(2));
    set.extend_from_slice(&be(mat0.len() as u32));
    set.extend_from_slice(&be((mat0.len() + mat1.len()) as u32));
    set.extend(mat0);
    set.extend(mat1);

    let mut positions = Vec::new();
    let mut normals = Vec::new();
    let mut uvs = Vec::new();
    for i in 0..5u32 {
        for k in 0..3 {
            positions.extend_from_slice(&be(10 * i + k));
            normals.extend_from_slice(&be(0x3f80_0000 * (k % 2)));
        }
        uvs.extend_from_slice(&be(i));
        uvs.extend_from_slice(&be(i + 50));
    }
    let mut surface = vec![0u8; 48];
    surface[12..16].copy_from_slice(&be(0));
    surface.extend_from_slice(&[0u8; 16]);
    surface.push(0x98);
    surface.extend_from_slice(&5u16.to_be_bytes());
    for i in 0..5u16 {
        for _ in 0..3 {
            surface.extend_from_slice(&i.to_be_bytes());
        }
    }
    surface.push(0);
    let mut table = be(1).to_vec();
    table.extend_from_slice(&be(surface.len() as u32));

    let sections = vec![set, positions, normals, vec![], uvs, table, surface];
    let mut out = be(0xdead_babe).to_vec();
    out.extend_from_slice(&be(2));
    out.extend_from_slice(&be(0));
    for _ in 0..6 {
        out.extend_from_slice(&be(0));
    }
    out.extend_from_slice(&be(sections.len() as u32));
    out.extend_from_slice(&be(1));
    for s in &sections {
        out.extend_from_slice(&be(s.len() as u32));
    }
    let mut out = pad32(out);
    for s in sections {
        out.extend(pad32(s));
    }
    out
}

#[test]
fn two_material_strip_model_decodes() {
    let data = model();
    let cmdl = Cmdl::read_from(&data).unwrap();
    assert_eq!(cmdl.materials.len(), 1);
    assert_eq!(cmdl.materials[0].materials.len(), 2);
    assert_eq!(cmdl.surfaces.len(), 1);
    let mesh = CanonicalMesh::from_cmdl(&cmdl, 0).unwrap();
    assert!(mesh.skin.is_none());
    let surface = &mesh.surfaces[0];
    assert_eq!(surface.vertices.len(), 9);
    let first: Vec<u32> = surface.vertices.iter().map(|v| v.position.x).collect();
    assert_eq!(first, vec![0, 10, 20, 20, 10, 30, 20, 30, 40]);
    assert!(surface.vertices.iter().all(|v| v.texcoord.is_some()));
    let textures: BTreeSet<u32> =
        surface.texture_indices.iter().map(|&i| mesh.texture_ids[i as usize]).collect();
    assert_eq!(textures.len(), 2);
    assert!(textures.contains(&0xaaaa_0001) && textures.contains(&0xbbbb_0002));
}

#[test]
fn missing_material_set_is_reported() {
    let cmdl = Cmdl::read_from(&model()).unwrap();
    assert!(matches!(CanonicalMesh::from_cmdl(&cmdl, 1), Err(Error::MissingResource)));
}

#[test]
fn model_magic_and_version_are_checked() {
    let mut data = model();
    data[0] = 0;
    assert!(matches!(
        Cmdl::read_from(&data),
        Err(Error::UnexpectedFormat { context: Field::ModelMagic, value: 0x00ad_babe })
    ));
    let mut data = model();
    data[7] = 3;
    assert!(matches!(
        Cmdl::read_from(&data),
        Err(Error::UnexpectedFormat { context: Field::ModelVersion, value: 3 })
    ));
}


fn skeleton_and_skin() -> (Vec<u8>, Vec<u8>) {
    let mut cinf = be(2).to_vec();
    for (id, parent, linked) in [(1u32, 0x3ffu32, vec![2u32]), (2, 1, vec![1])] {
        cinf.extend_from_slice(&be(id));
        cinf.extend_from_slice(&be(parent));
        cinf.extend_from_slice(&[0; 12]);
        cinf.extend_from_slice(&be(linked.len() as u32));
        for l in linked {
            cinf.extend_from_slice(&be(l));
        }
    }
    cinf.extend_from_slice(&be(1));
    cinf.extend_from_slice(&be(1));
    cinf.extend_from_slice(&be(2));
    cinf.extend_from_slice(b"hip\0");
    cinf.extend_from_slice(&be(1));
    cinf.extend_from_slice(b"knee\0");
    cinf.extend_from_slice(&be(2));
    let mut skin = be(5).to_vec();
    for (bone, count) in [(1u32, 2u32), (2, 3)] {
        skin.extend_from_slice(&be(1));
        skin.extend_from_slice(&be(bone));
        skin.extend_from_slice(&be(0x3f80_0000));
        skin.extend_from_slice(&be(count));
    }
    (cinf, skin)
}

#[test]
fn skinned_model_takes_bones_from_the_skin() {
    let cmdl = Cmdl::read_from(&model()).unwrap();
    let (cinf_bytes, skin_bytes) = skeleton_and_skin();
    let cinf = Cinf::read_from(&mut Reader::new(&cinf_bytes)).unwrap();
    let skin = Cskr::read_from(&mut Reader::new(&skin_bytes)).unwrap();
    let mesh = CanonicalMesh::from_skinned_cmdl(&cmdl, &cinf, skin, 0).unwrap();
    let bones: Vec<u32> = mesh.surfaces[0].vertices.iter().map(|v| v.bone_id).collect();
    assert_eq!(bones, vec![1, 1, 2, 2, 1, 2, 2, 2, 2]);
    let skin = mesh.skin.unwrap();
    assert_eq!(skin.skeleton.name, "hip");
    assert_eq!(skin.skeleton.children.len(), 1);
    let order = skin.skeleton.joint_ids().unwrap();
    assert_eq!(order, vec![2, 1]);
    assert_eq!(joint_index(&order, 1).unwrap(), 1);
    assert_eq!(joint_index(&order, 2).unwrap(), 0);
    assert!(matches!(joint_index(&order, 3), Err(Error::MissingResource)));
}

#[test]
fn joint_numbers_stop_at_eight_bits() {
    let order: Vec<u32> = (0..300).collect();
    assert_eq!(joint_index(&order, 255).unwrap(), 255);
    assert!(matches!(joint_index(&order, 256), Err(Error::IndexOverflow)));
}

#[test]
fn skin_without_skeleton_order_is_rejected() {
    let cmdl = Cmdl::read_from(&model()).unwrap();
    let (_, skin_bytes) = skeleton_and_skin();
    let cinf = Cinf::read_from(&mut Reader::new(&[0u8; 12])).unwrap();
    let skin = Cskr::read_from(&mut Reader::new(&skin_bytes)).unwrap();
    assert!(matches!(
        CanonicalMesh::from_skinned_cmdl(&cmdl, &cinf, skin, 0),
        Err(Error::UnexpectedFormat { context: Field::Skeleton, value: 0 })
    ));
}
