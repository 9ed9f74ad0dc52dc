use blockymodel::{
    BlockyModel, Face6, Mirror, Node, Shape, ShapeSettings, ShapeType, Skeleton, TextureFace,
};

fn shape(kind: ShapeType, faces: &[Face6]) -> Shape {
    let mut texture_layout = [None; 6];
    for face in faces {
        texture_layout[face.index()] =
            Some(TextureFace { mirror: Mirror::default(), angle: 0, transparent: false, lock_uvs: false });
    }
    Shape {
        kind,
        settings: ShapeSettings { normal: None, is_piece: false, is_static_box: false },
        texture_layout,
        visible: None,
        double_sided: None,
        shading_mode: None,
    }
}

fn node(id: &str, name: &str, data: u32, shape: Option<Shape>, children: Vec<Node<u32>>) -> Node<u32> {
    Node { id: id.to_string(), name: name.to_string(), data, shape, children }
}

/// A small dog-like hierarchy: one root, nested legs and ears, and a name
/// that is shared by two bones.
fn model() -> BlockyModel<u32> {
    let ear_l = node("5", "L-Ear", 5, Some(shape(ShapeType::Box, &[Face6::Front])), vec![
        node("6", "L-Ear2", 6, Some(shape(ShapeType::Quad, &[Face6::Front])), vec![]),
    ]);
    let ear_r = node("7", "R-Ear", 7, Some(shape(ShapeType::Box, &[])), vec![
        node("8", "L-Ear2", 8, Some(shape(ShapeType::Quad, &[Face6::Front])), vec![]),
    ]);
    let head = node("4", "Head", 4, Some(shape(ShapeType::Box, &Face6::ALL)), vec![ear_l, ear_r]);
    let leg = node("2", "L-Leg", 2, Some(shape(ShapeType::Box, &[Face6::Bottom])), vec![
        node("3", "L-Foot", 3, Some(shape(ShapeType::Empty, &[])), vec![]),
    ]);
    let pelvis = node("12", "Pelvis", 1, None, vec![leg, head]);
    BlockyModel { nodes: vec![pelvis], lod: Some("auto".to_string()), format: None }
}

#[test]
fn flattening_is_pre_order_with_parents_first() {
    let m = model();
    assert!(m.depth_fits());
    let skeleton = Skeleton::from_model(&m);
    assert_eq!(skeleton.len(), 8);
    assert!(!skeleton.is_empty());
    let names: Vec<&str> = skeleton.bones.iter().map(|b| b.name.as_str()).collect();
    assert_eq!(names, vec!["Pelvis", "L-Leg", "L-Foot", "Head", "L-Ear", "L-Ear2", "R-Ear", "L-Ear2"]);
    let parents: Vec<Option<usize>> = skeleton.bones.iter().map(|b| b.parent).collect();
    assert_eq!(parents, vec![None, Some(0), Some(1), Some(0), Some(3), Some(4), Some(3), Some(6)]);
    let depths: Vec<u32> = skeleton.bones.iter().map(|b| b.depth).collect();
    assert_eq!(depths, vec![0, 1, 2, 1, 2, 3, 2, 3]);
    let data: Vec<u32> = skeleton.bones.iter().map(|b| b.data).collect();
    assert_eq!(data, vec![1, 2, 3, 4, 5, 6, 7, 8]);
    assert_eq!(skeleton.bones[0].id, "12", "ids are strings");
    for (i, bone) in skeleton.bones.iter().enumerate() {
        if let Some(parent) = bone.parent {
            assert!(parent < i, "bone {i} has a later parent {parent}");
        }
    }
}

#[test]
fn bone_names_are_not_unique() {
    let skeleton = Skeleton::from_model(&model());
    assert_eq!(skeleton.by_name.get("L-Ear2"), Some(&vec![5, 7]));
    assert_eq!(skeleton.by_name.get("Head"), Some(&vec![3]));
    assert_eq!(skeleton.by_name.get("Collar"), None);
    assert_eq!(skeleton.by_name.len(), 7);
    assert_eq!(skeleton.shared_names(), vec!["L-Ear2".to_string()]);
}

#[test]
fn an_empty_model_flattens_to_nothing() {
    let m: BlockyModel<u32> = BlockyModel { nodes: vec![], lod: None, format: None };
    let skeleton = Skeleton::from_model(&m);
    assert!(skeleton.is_empty());
    assert!(skeleton.by_name.is_empty());
    assert!(skeleton.face_picks().is_empty());
}

#[test]
fn animations_reference_bones_the_model_lacks() {
    let skeleton = Skeleton::from_model(&model());
    let names: Vec<String> =
        ["TailDog", "Head", "Collar", "L-Ear2", "Body"].iter().map(|s| s.to_string()).collect();
    assert_eq!(skeleton.unknown_animated_bones(&names), vec!["Body", "Collar", "TailDog"]);
    assert!(skeleton.unknown_animated_bones(&vec![]).is_empty());
}

#[test]
fn an_absent_name_is_listed_as_often_as_it_is_driven() {
    let skeleton = Skeleton::from_model(&model());
    let names: Vec<String> = ["Tail", "Head", "Tail", "Pelvis"].iter().map(|s| s.to_string()).collect();
    assert_eq!(skeleton.unknown_animated_bones(&names), vec!["Tail", "Tail"]);
}

#[test]
fn every_bone_of_a_name_binds_to_its_track() {
    let skeleton = Skeleton::from_model(&model());
    let names: Vec<String> = ["L-Ear2", "Collar", "Pelvis"].iter().map(|s| s.to_string()).collect();
    let binding = skeleton.bind_tracks(&names);
    assert_eq!(binding, vec![Some(2), None, None, None, None, Some(0), None, Some(0)]);
}

#[test]
fn shapes_are_counted_by_kind() {
    let skeleton = Skeleton::from_model(&model());
    // Pelvis carries no shape; L-Foot's shape is `none`.
    assert_eq!(skeleton.shape_counts(), (4, 2, 1));
}

#[test]
fn faces_come_in_bone_order() {
    let skeleton = Skeleton::from_model(&model());
    let faces: Vec<(usize, Face6)> = skeleton.face_picks().iter().map(|f| (f.bone, f.pick.face)).collect();
    assert_eq!(faces, vec![
        (1, Face6::Bottom),
        (3, Face6::Right),
        (3, Face6::Left),
        (3, Face6::Top),
        (3, Face6::Bottom),
        (3, Face6::Front),
        (3, Face6::Back),
        (4, Face6::Front),
        (5, Face6::Front),
        (7, Face6::Front),
    ]);
    assert!(skeleton.bones[2].geometry().is_none());
    assert!(skeleton.bones[0].geometry().is_none());
    assert!(skeleton.bones[1].geometry().is_some());
}

#[test]
fn shared_names_come_in_the_order_they_first_occur() {
    let model = BlockyModel {
        nodes: vec![
            node("1", "Tail", 1, None, vec![]),
            node("2", "Ear", 2, None, vec![node("3", "Tail", 3, None, vec![])]),
            node("4", "Ear", 4, None, vec![]),
            node("5", "Paw", 5, None, vec![]),
        ],
        lod: None,
        format: None,
    };
    let skeleton = Skeleton::from_model(&model);
    assert_eq!(skeleton.shared_names(), vec!["Tail", "Ear"]);
    assert!(Skeleton::from_model(&self::model()).shared_names() == vec!["L-Ear2"]);
}

#[test]
fn every_bone_takes_the_sample_of_its_name_and_the_rest_keep_the_rest_pose() {
    let skeleton = Skeleton::from_model(&model());
    let names: Vec<String> = ["L-Ear2", "Collar", "Head", "L-Ear2"].iter().map(|s| s.to_string()).collect();
    let sampled = vec![10, 20, 30, 40];
    // Bones: Pelvis, L-Leg, L-Foot, Head, L-Ear, L-Ear2, R-Ear, L-Ear2.
    assert_eq!(skeleton.drive(&names, &sampled, 0), vec![0, 0, 0, 30, 0, 10, 0, 10]);
    assert_eq!(skeleton.drive(&vec![], &vec![], 7), vec![7; 8]);
}
