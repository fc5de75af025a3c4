use prime_assets::gx::{Vec2Bits, Vec3Bits};
use prime_assets::mesh::{dedup_vertices, ExportVertex};

fn vertex(x: u32, y: u32) -> ExportVertex {
    ExportVertex {
        position: Vec3Bits { x, y, z: 0 },
        normal: Vec3Bits { x: 0, y: 0x3f80_0000, z: 0 },
        texcoord: Vec2Bits { s: x, t: y },
        joint: 0,
        weight: 0,
    }
}

#[test]
fn shared_vertices_are_merged() {
    let batch = vec![vertex(1, 1), vertex(2, 2), vertex(3, 3), vertex(3, 3), vertex(2, 2), vertex(4, 4)];
    let (unique, indices) = dedup_vertices(&batch).unwrap();
    assert_eq!(unique, vec![vertex(1, 1), vertex(2, 2), vertex(3, 3), vertex(4, 4)]);
    assert_eq!(indices, vec![0, 1, 2, 2, 1, 3]);
}

#[test]
fn feeding_a_batch_twice_only_repeats_indices() {
    let batch = vec![vertex(5, 1), vertex(6, 2), vertex(7, 3), vertex(7, 3), vertex(6, 2), vertex(8, 4)];
    let (unique, indices) = dedup_vertices(&batch).unwrap();
    let mut twice = batch.clone();
    twice.extend(batch.iter().copied());
    let (unique2, indices2) = dedup_vertices(&twice).unwrap();
    assert_eq!(unique2, unique);
    let mut expected = indices.clone();
    expected.extend(indices.iter().copied());
    assert_eq!(indices2, expected);
}

#[test]
fn signed_zero_is_not_merged() {
    let plus = vertex(0.0f32.to_bits(), 0);
    let minus = vertex((-0.0f32).to_bits(), 0);
    let (unique, indices) = dedup_vertices(&vec![plus, minus, plus]).unwrap();
    assert_eq!(unique.len(), 2);
    assert_eq!(indices, vec![0, 1, 0]);
}

#[test]
fn skinned_fields_take_part_in_equality() {
    let mut a = vertex(1, 1);
    let mut b = a;
    a.joint = 1;
    b.joint = 2;
    let (unique, _) = dedup_vertices(&vec![a, b]).unwrap();
    assert_eq!(unique.len(), 2);
}

#[test]
fn empty_input_gives_empty_buffers() {
    let (unique, indices) = dedup_vertices(&Vec::new()).unwrap();
    assert!(unique.is_empty() && indices.is_empty());
}


#[test]
fn sixty_five_thousand_five_hundred_thirty_six_vertices_fit() {
    let many: Vec<ExportVertex> = (0..65536u32).map(|i| vertex(i, 0)).collect();
    let (unique, indices) = dedup_vertices(&many).unwrap();
    assert_eq!(unique.len(), 65536);
    assert_eq!(indices[65535], 65535);
}

#[test]
fn one_vertex_more_overflows_the_index() {
    let many: Vec<ExportVertex> = (0..65537u32).map(|i| vertex(i, 0)).collect();
    assert!(matches!(dedup_vertices(&many), Err(prime_assets::error::Error::IndexOverflow)));
}
