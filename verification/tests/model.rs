use blockymodel::{
    shown, text_eq, text_eq_ignore_ascii_case, text_less, Face6, Mirror, ShadingMode, Shape,
    ShapeSettings, ShapeType, TextureFace,
};

fn layout(angle: i32) -> TextureFace {
    TextureFace { mirror: Mirror::default(), angle, transparent: false, lock_uvs: false }
}

fn shape(kind: ShapeType) -> Shape {
    Shape {
        kind,
        settings: ShapeSettings { normal: None, is_piece: false, is_static_box: false },
        texture_layout: [None; 6],
        visible: None,
        double_sided: None,
        shading_mode: None,
    }
}

#[test]
fn face_names_round_trip() {
    for face in Face6::ALL {
        assert_eq!(Face6::from_name(face.name()), Some(face));
        assert_eq!(Face6::ALL[face.index()], face);
    }
    assert_eq!(Face6::Front.name(), "front");
    assert_eq!(Face6::Right.name(), "right");
}

#[test]
fn axis_aliases_parse() {
    assert_eq!(Face6::from_name("+X"), Some(Face6::Right));
    assert_eq!(Face6::from_name("-X"), Some(Face6::Left));
    assert_eq!(Face6::from_name("+Y"), Some(Face6::Top));
    assert_eq!(Face6::from_name("-Y"), Some(Face6::Bottom));
    assert_eq!(Face6::from_name("+Z"), Some(Face6::Front));
    assert_eq!(Face6::from_name("-Z"), Some(Face6::Back));
    assert_eq!(Face6::from_name("north"), None);
    assert_eq!(Face6::from_name("Front"), None);
    assert_eq!(Face6::from_name(""), None);
}

#[test]
fn normals_are_unit_axes_with_front_at_plus_z() {
    assert_eq!(Face6::Front.normal_axis(), [0, 0, 1]);
    assert_eq!(Face6::Back.normal_axis(), [0, 0, -1]);
    assert_eq!(Face6::Right.normal_axis(), [1, 0, 0]);
    assert_eq!(Face6::Left.normal_axis(), [-1, 0, 0]);
    assert_eq!(Face6::Top.normal_axis(), [0, 1, 0]);
    assert_eq!(Face6::Bottom.normal_axis(), [0, -1, 0]);
}

#[test]
fn angles_normalise_into_a_turn() {
    assert_eq!(layout(0).angle_deg(), 0);
    assert_eq!(layout(90).angle_deg(), 90);
    assert_eq!(layout(-90).angle_deg(), 270);
    assert_eq!(layout(450).angle_deg(), 90);
    assert_eq!(layout(-720).angle_deg(), 0);
    assert_eq!(layout(i32::MIN).angle_deg(), 232);
}

#[test]
fn quad_normals_default_to_front() {
    let mut quad = shape(ShapeType::Quad);
    assert_eq!(quad.quad_normal(), Face6::Front);
    quad.settings.normal = Some("-Y".to_string());
    assert_eq!(quad.quad_normal(), Face6::Bottom);
    quad.settings.normal = Some("left".to_string());
    assert_eq!(quad.quad_normal(), Face6::Left);
    quad.settings.normal = Some("sideways".to_string());
    assert_eq!(quad.quad_normal(), Face6::Front);
}

#[test]
fn shading_modes_parse_with_flat_fallback() {
    let mut s = shape(ShapeType::Box);
    assert_eq!(s.shading_mode(), ShadingMode::Flat);
    for (text, mode) in [
        ("standard", ShadingMode::Standard),
        ("fullbright", ShadingMode::Fullbright),
        ("reflective", ShadingMode::Reflective),
        ("flat", ShadingMode::Flat),
        ("Standard", ShadingMode::Flat),
    ] {
        s.shading_mode = Some(text.to_string());
        assert_eq!(s.shading_mode(), mode, "{text}");
    }
    assert!(ShadingMode::Standard.is_lit());
    assert!(!ShadingMode::Flat.is_lit());
    assert!(!ShadingMode::Fullbright.is_lit());
    assert!(!ShadingMode::Reflective.is_lit());
}

#[test]
fn visibility_and_sidedness_defaults() {
    let mut s = shape(ShapeType::Box);
    assert!(s.is_visible());
    assert!(!s.is_double_sided());
    s.visible = Some(false);
    s.double_sided = Some(true);
    assert!(!s.is_visible());
    assert!(s.is_double_sided());
}

#[test]
fn only_boxes_and_quads_have_geometry() {
    assert!(shape(ShapeType::Box).has_geometry());
    assert!(shape(ShapeType::Quad).has_geometry());
    assert!(!shape(ShapeType::Empty).has_geometry());
    assert!(!shape(ShapeType::Unknown).has_geometry());
    assert_eq!(ShapeType::default(), ShapeType::Unknown);
    assert_eq!(ShadingMode::default(), ShadingMode::Flat);
}

#[test]
fn layouts_are_looked_up_per_face() {
    let mut s = shape(ShapeType::Box);
    s.texture_layout[Face6::Top.index()] = Some(layout(180));
    assert_eq!(s.layout(Face6::Top).map(|t| t.angle), Some(180));
    assert!(s.layout(Face6::Front).is_none());
    let copy = s.clone();
    assert_eq!(copy.layout(Face6::Top).map(|t| t.angle), Some(180));
    assert_eq!(copy.kind(), ShapeType::Box);
}

#[test]
fn text_helpers() {
    assert!(text_eq("abc", "abc"));
    assert!(!text_eq("abc", "abd"));
    assert!(text_less("Collar", "Head"));
    assert!(text_less("Ear", "Ear2"));
    assert!(!text_less("b", "a"));
    assert!(!text_less("same", "same"));
    assert!(text_eq_ignore_ascii_case("Idle", "iDLE"));
    assert!(!text_eq_ignore_ascii_case("Idle", "Idles"));
}

#[test]
fn animated_visibility_wins_over_the_shape_flag() {
    let mut hidden = shape(ShapeType::Box);
    hidden.visible = Some(false);
    let plain = shape(ShapeType::Box);
    assert!(!shown(None, Some(&hidden)));
    assert!(shown(None, Some(&plain)));
    assert!(shown(None, None));
    assert!(shown(Some(true), Some(&hidden)));
    assert!(!shown(Some(false), Some(&plain)));
    assert!(!shown(Some(false), None));
}
