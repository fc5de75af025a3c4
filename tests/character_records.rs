use prime_assets::ancs::{AnimationSet, MetaAnimation, MetaTransition, ParmKind, ParmValue, MAX_META_DEPTH};
use prime_assets::cinf::Cinf;
use prime_assets::error::{Error, Field};
use prime_assets::mesh::CanonicalMeshBone;
use prime_assets::reader::Reader;

fn be(v: u32) -> [u8; 4] {
    v.to_be_bytes()
}

fn bone(id: u32, parent: u32, linked: &[u32]) -> Vec<u8> {
    let mut b = be(id).to_vec();
    b.extend_from_slice(&be(parent));
    for k in 0..3 {
        b.extend_from_slice(&be(id * 10 + k));
    }
    b.extend_from_slice(&be(linked.len() as u32));
    for l in linked {
        b.extend_from_slice(&be(*l));
    }
    b
}

fn skeleton() -> Vec<u8> {
    let mut d = be(3).to_vec();
    d.extend(bone(1, 0x3ff, &[2, 3]));
    d.extend(bone(2, 1, &[1]));
    d.extend(bone(3, 1, &[1]));
    d.extend_from_slice(&be(1));
    d.extend_from_slice(&be(1));
    d.extend_from_slice(&be(3));
    for (name, id) in [("root", 1u32), ("arm", 2), ("leg", 3)] {
        d.extend_from_slice(name.as_bytes());
        d.push(0);
        d.extend_from_slice(&be(id));
    }
    d
}

#[test]
fn skeleton_tree_is_built_from_the_root() {
    let data = skeleton();
    let cinf = Cinf::read_from(&mut Reader::new(&data)).unwrap();
    assert_eq!(cinf.bones.len(), 3);
    let root = CanonicalMeshBone::from_skeleton(&cinf, cinf.build_order_ids[0]).unwrap();
    assert_eq!(root.name, "root");
    assert_eq!(root.position.y, 11);
    let names: Vec<&str> = root.children.iter().map(|c| c.name.as_str()).collect();
    assert_eq!(names, vec!["arm", "leg"]);
    assert!(root.children.iter().all(|c| c.children.is_empty()));
}

#[test]
fn absent_root_bone_fails() {
    let data = skeleton();
    let cinf = Cinf::read_from(&mut Reader::new(&data)).unwrap();
    assert!(matches!(
        CanonicalMeshBone::from_skeleton(&cinf, 9),
        Err(Error::UnexpectedFormat { context: Field::Skeleton, value: 9 })
    ));
}

#[test]
fn parameter_values_follow_their_kind() {
    let data = [0, 0, 0, 3];
    assert_eq!(ParmKind::read_from(&mut Reader::new(&data)).unwrap(), ParmKind::Bool);
    assert!(matches!(
        ParmKind::read_from(&mut Reader::new(&[0, 0, 0, 5])),
        Err(Error::UnexpectedFormat { context: Field::ParmKind, value: 5 })
    ));
    assert_eq!(ParmValue::read_with_kind(&mut Reader::new(&[2]), ParmKind::Bool).unwrap(), ParmValue::Bool(true));
    assert_eq!(
        ParmValue::read_with_kind(&mut Reader::new(&[0xff, 0xff, 0xff, 0xff]), ParmKind::I32).unwrap(),
        ParmValue::I32(-1)
    );
}

fn play(id: u32) -> Vec<u8> {
    let mut d = be(0).to_vec();
    d.extend_from_slice(&be(id));
    d.extend_from_slice(&be(id + 1));
    d.extend_from_slice(b"clip\0");
    d.extend_from_slice(&be(0));
    d.extend_from_slice(&be(0));
    d
}

#[test]
fn nested_meta_animations_decode() {
    let mut d = be(4).to_vec();
    d.extend_from_slice(&be(2));
    d.extend(play(5));
    d.extend_from_slice(&be(3));
    d.extend_from_slice(&be(1));
    d.extend(play(6));
    d.extend_from_slice(&be(100));
    let m = MetaAnimation::read_from(&mut Reader::new(&d)).unwrap();
    match m {
        MetaAnimation::Sequence(items) => {
            assert_eq!(items.len(), 2);
            assert!(matches!(items[0], MetaAnimation::Play { animation_id: 5, .. }));
            match &items[1] {
                MetaAnimation::Random(choices) => {
                    assert_eq!(choices.len(), 1);
                    assert_eq!(choices[0].probability, 100);
                }
                _ => panic!("expected a random choice"),
            }
        }
        _ => panic!("expected a sequence"),
    }
}

#[test]
fn runaway_nesting_is_cut_off() {
    let mut d = Vec::new();
    for _ in 0..(MAX_META_DEPTH + 2) {
        d.extend_from_slice(&be(4));
        d.extend_from_slice(&be(1));
    }
    assert!(matches!(
        MetaAnimation::read_from(&mut Reader::new(&d)),
        Err(Error::UnexpectedFormat { context: Field::MetaAnimationDepth, .. })
    ));
}

#[test]
fn unknown_meta_kinds_are_rejected() {
    assert!(matches!(
        MetaAnimation::read_from(&mut Reader::new(&be(1))),
        Err(Error::UnexpectedFormat { context: Field::MetaAnimationKind, value: 1 })
    ));
    assert!(matches!(MetaTransition::read_from(&mut Reader::new(&be(3))), Ok(MetaTransition::Snap)));
    assert!(matches!(
        MetaTransition::read_from(&mut Reader::new(&be(7))),
        Err(Error::UnexpectedFormat { context: Field::MetaTransitionKind, value: 7 })
    ));
}

fn snap_set(version: u16, tail: &[u8]) -> Vec<u8> {
    let mut d = version.to_be_bytes().to_vec();
    d.extend_from_slice(&be(0));
    d.extend_from_slice(&be(0));
    d.extend_from_slice(&be(3));
    d.extend_from_slice(tail);
    d
}

#[test]
fn version_two_animation_set_needs_zero_counts() {
    let mut tail = be(0).to_vec();
    tail.extend_from_slice(&be(0));
    tail.extend_from_slice(&be(0));
    let set = AnimationSet::read_from(&mut Reader::new(&snap_set(2, &tail))).unwrap();
    assert!(set.additive_animations.is_empty() && set.default_additive_fade_in_time.is_none());
    let mut tail = be(0).to_vec();
    tail.extend_from_slice(&be(5));
    tail.extend_from_slice(&be(0));
    assert!(matches!(
        AnimationSet::read_from(&mut Reader::new(&snap_set(2, &tail))),
        Err(Error::UnexpectedFormat { context: Field::AnimationSetCount, value: 5 })
    ));
}

#[test]
fn version_four_animation_set_reads_fade_times() {
    let mut tail = be(0).to_vec();
    tail.extend_from_slice(&be(0x3f00_0000));
    tail.extend_from_slice(&be(0x4000_0000));
    tail.extend_from_slice(&be(0));
    tail.extend_from_slice(&be(0));
    let set = AnimationSet::read_from(&mut Reader::new(&snap_set(4, &tail))).unwrap();
    assert_eq!(set.default_additive_fade_in_time, Some(0x3f00_0000));
    assert_eq!(set.default_additive_fade_out_time, Some(0x4000_0000));
    assert!(matches!(
        AnimationSet::read_from(&mut Reader::new(&snap_set(5, &[]))),
        Err(Error::UnexpectedFormat { context: Field::AnimationSetVersion, value: 5 })
    ));
}
