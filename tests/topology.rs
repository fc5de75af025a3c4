use prime_assets::error::{Error, Field};
use prime_assets::gx::{DisplayList, Normal, SkinAttributes, Vec3Bits, VertexSources};

fn be(v: u32) -> [u8; 4] {
    v.to_be_bytes()
}

/// Positions whose x holds the vertex index, so triangles can be read back.
fn positions(n: u32) -> Vec<u8> {
    let mut out = Vec::new();
    for i in 0..n {
        out.extend_from_slice(&be(i));
        out.extend_from_slice(&be(100 + i));
        out.extend_from_slice(&be(200 + i));
    }
    out
}

fn records(opcode: u8, indices: &[u16], with_uv: bool) -> Vec<u8> {
    let mut out = vec![opcode];
    out.extend_from_slice(&(indices.len() as u16).to_be_bytes());
    for i in indices {
        out.extend_from_slice(&i.to_be_bytes());
        out.extend_from_slice(&i.to_be_bytes());
        if with_uv {
            out.extend_from_slice(&i.to_be_bytes());
        }
    }
    out
}

fn corners(list: &DisplayList, src: &VertexSources) -> Vec<Vec<u32>> {
    let batches = list.parse(src).unwrap();
    batches.iter().map(|b| b.vertices.iter().map(|v| v.position.x).collect()).collect()
}

fn static_sources<'a>(p: &'a [u8], n: &'a [u8], uv: &'a [u8], flags: u32) -> VertexSources<'a> {
    VertexSources { attr_flags: flags, positions: p, normals: n, uvs: uv, skin: None }
}

#[test]
fn strip_alternates_winding() {
    let p = positions(8);
    for k in 3..8u16 {
        let idx: Vec<u16> = (0..k).collect();
        let mut data = records(0x98, &idx, false);
        data.push(0);
        let list = DisplayList { data };
        let out = corners(&list, &static_sources(&p, &p, &[], 0xf));
        assert_eq!(out.len(), 1);
        let tris = &out[0];
        assert_eq!(tris.len(), 3 * (k as usize - 2));
        for t in 0..(k as usize - 2) {
            let t32 = t as u32;
            let want = if t % 2 == 0 { [t32, t32 + 1, t32 + 2] } else { [t32 + 1, t32, t32 + 2] };
            assert_eq!(&tris[3 * t..3 * t + 3], &want);
        }
    }
}

#[test]
fn fan_keeps_its_pivot() {
    let p = positions(6);
    let mut data = records(0xa0, &[0, 1, 2, 3, 4, 5], false);
    data.push(0);
    let out = corners(&DisplayList { data }, &static_sources(&p, &p, &[], 0xf));
    assert_eq!(out[0], vec![0, 1, 2, 0, 2, 3, 0, 3, 4, 0, 4, 5]);
}

#[test]
fn list_takes_triples() {
    let p = positions(6);
    let mut data = records(0x90, &[5, 4, 3, 0, 1, 2], false);
    data.extend(records(0x98, &[0, 1], false));
    data.push(0);
    let out = corners(&DisplayList { data }, &static_sources(&p, &p, &[], 0xf));
    assert_eq!(out, vec![vec![5, 4, 3, 0, 1, 2], vec![]]);
}

#[test]
fn list_ending_mid_triangle_is_an_error() {
    let p = positions(6);
    let mut data = records(0x90, &[0, 1, 2, 3], false);
    data.push(0);
    let r = DisplayList { data }.parse(&static_sources(&p, &p, &[], 0xf));
    assert!(matches!(r, Err(Error::UnexpectedFormat { context: Field::VertexCount, value: 4 })));
}

#[test]
fn unknown_primitive_is_an_error() {
    let p = positions(3);
    let data = vec![0xb8, 0, 0, 0];
    let r = DisplayList { data }.parse(&static_sources(&p, &p, &[], 0xf));
    assert!(matches!(r, Err(Error::UnexpectedFormat { context: Field::PrimitiveType, value: 0xb8 })));
}

#[test]
fn unsupported_attributes_fail_fast() {
    let p = positions(3);
    let mut data = records(0x98, &[0, 1, 2], false);
    data.push(0);
    let list = DisplayList { data };
    assert!(matches!(list.parse(&static_sources(&p, &p, &[], 0x3f)), Err(Error::UnsupportedFormat)));
    assert!(matches!(list.parse(&static_sources(&p, &p, &[], 0x3)), Err(Error::UnsupportedFormat)));
    let mut data = records(0x9b, &[0, 1, 2], false);
    data.push(0);
    assert!(matches!(DisplayList { data }.parse(&static_sources(&p, &p, &[], 0xf)), Err(Error::UnsupportedFormat)));
}

#[test]
fn index_past_table_is_truncated() {
    let p = positions(3);
    let mut data = records(0x98, &[0, 1, 3], false);
    data.push(0);
    let r = DisplayList { data }.parse(&static_sources(&p, &p, &[], 0xf));
    assert!(matches!(r, Err(Error::Truncated)));
    let r = DisplayList { data: vec![0x98, 0] }.parse(&static_sources(&p, &p, &[], 0xf));
    assert!(matches!(r, Err(Error::Truncated)));
}

#[test]
fn packed_normals_and_texcoords_are_read() {
    let p = positions(3);
    let mut normals = Vec::new();
    for i in 0..3i16 {
        normals.extend_from_slice(&i.to_be_bytes());
        normals.extend_from_slice(&(-i).to_be_bytes());
        normals.extend_from_slice(&(i * 100).to_be_bytes());
    }
    let mut uvs = Vec::new();
    for i in 0..3u32 {
        uvs.extend_from_slice(&be(1000 + i));
        uvs.extend_from_slice(&be(2000 + i));
    }
    let mut data = records(0x99, &[0, 1, 2], true);
    data.push(0);
    let batches = DisplayList { data }.parse(&static_sources(&p, &normals, &uvs, 0x30f)).unwrap();
    let v = &batches[0].vertices;
    assert_eq!(v.len(), 3);
    assert_eq!(v[1].normal, Normal::Packed { x: 1, y: -1, z: 100 });
    assert_eq!(v[2].texcoord.unwrap().s, 1002);
    assert_eq!(v[2].texcoord.unwrap().t, 2002);
    assert_eq!(v[0].position, Vec3Bits { x: 0, y: 100, z: 200 });
}

#[test]
fn skin_tables_follow_position_indices() {
    let p = positions(3);
    let skin = SkinAttributes { bone_ids: vec![7, 8, 9], weights: vec![1, 2, 3] };
    let mut data = records(0x98, &[2, 0, 1], false);
    data.push(0);
    let src = VertexSources { attr_flags: 0xf, positions: &p, normals: &p, uvs: &[], skin: Some(&skin) };
    let batches = DisplayList { data }.parse(&src).unwrap();
    let bones: Vec<u32> = batches[0].vertices.iter().map(|v| v.bone_id).collect();
    assert_eq!(bones, vec![9, 7, 8]);
}
