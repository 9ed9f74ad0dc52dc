use blockymodel::{
    corner_signs, extent_axes, negative_axes, quad_triangles, shape_face_picks, uv_dims_axes,
    uv_frame, winding_flipped, Face6, FacePick, Mesh, Mirror, Quad, Shape, ShapeSettings,
    ShapeType, TextureFace,
};

fn layout(angle: i32, x: bool, y: bool) -> TextureFace {
    TextureFace { mirror: Mirror { x, y }, angle, transparent: false, lock_uvs: false }
}

fn shape(kind: ShapeType, normal: Option<&str>, faces: &[Face6]) -> Shape {
    let mut texture_layout = [None; 6];
    for face in faces {
        texture_layout[face.index()] = Some(layout(0, false, false));
    }
    Shape {
        kind,
        settings: ShapeSettings { normal: normal.map(|n| n.to_string()), is_piece: false, is_static_box: false },
        texture_layout,
        visible: None,
        double_sided: None,
        shading_mode: None,
    }
}

fn cross(a: [i64; 3], b: [i64; 3]) -> [i64; 3] {
    [a[1] * b[2] - a[2] * b[1], a[2] * b[0] - a[0] * b[2], a[0] * b[1] - a[1] * b[0]]
}

fn sub(a: [i64; 3], b: [i64; 3]) -> [i64; 3] {
    [a[0] - b[0], a[1] - b[1], a[2] - b[2]]
}

#[test]
fn winding_matches_the_declared_normals_for_every_sign() {
    let half = [3i64, 5, 7];
    for sx in [1i64, -1] {
        for sy in [1i64, -1] {
            for sz in [1i64, -1] {
                let signs = [sx, sy, sz];
                let flipped = winding_flipped([sx < 0, sy < 0, sz < 0]);
                let t = quad_triangles(flipped);
                for face in Face6::ALL {
                    let c = corner_signs(face);
                    let p = |k: u32| -> [i64; 3] {
                        let s = c[k as usize];
                        [s[0] as i64 * half[0] * sx, s[1] as i64 * half[1] * sy, s[2] as i64 * half[2] * sz]
                    };
                    let n = face.normal_axis();
                    let normal = [n[0] as i64 * signs[0], n[1] as i64 * signs[1], n[2] as i64 * signs[2]];
                    for tri in 0..2 {
                        let (a, b, cc) = (p(t[3 * tri]), p(t[3 * tri + 1]), p(t[3 * tri + 2]));
                        let g = cross(sub(b, a), sub(cc, a));
                        let dot = g[0] * normal[0] + g[1] * normal[1] + g[2] * normal[2];
                        assert!(dot > 0, "{face:?} signs {signs:?} triangle {tri}");
                    }
                }
            }
        }
    }
}

#[test]
fn negative_axes_count() {
    assert_eq!(negative_axes([false, false, false]), 0);
    assert_eq!(negative_axes([true, false, true]), 2);
    assert!(winding_flipped([true, false, false]));
    assert!(!winding_flipped([true, true, false]));
    assert!(winding_flipped([true, true, true]));
}

#[test]
fn mesh_from_quads_splits_by_sidedness() {
    let quads = vec![
        Quad { corners: ['a', 'b', 'c', 'd'], double_sided: false, winding_flipped: false },
        Quad { corners: ['e', 'f', 'g', 'h'], double_sided: true, winding_flipped: true },
        Quad { corners: ['i', 'j', 'k', 'l'], double_sided: false, winding_flipped: true },
    ];
    let mesh = Mesh::from_quads(&quads);
    assert_eq!(mesh.vertices, vec!['a', 'b', 'c', 'd', 'e', 'f', 'g', 'h', 'i', 'j', 'k', 'l']);
    assert_eq!(mesh.indices_single, vec![0, 2, 1, 2, 3, 1, 8, 9, 10, 10, 9, 11]);
    assert_eq!(mesh.indices_double, vec![4, 5, 6, 6, 5, 7]);
    assert_eq!(mesh.triangle_count(), 6);
    assert_eq!(mesh.all_indices(), vec![0, 2, 1, 2, 3, 1, 8, 9, 10, 10, 9, 11, 4, 5, 6, 6, 5, 7]);
}

#[test]
fn an_empty_mesh_has_no_triangles() {
    let mesh: Mesh<u8> = Mesh::from_quads(&vec![]);
    assert!(mesh.vertices.is_empty());
    assert_eq!(mesh.triangle_count(), 0);
    assert!(mesh.all_indices().is_empty());
}

#[test]
fn boxes_draw_the_faces_with_layouts_in_order() {
    let s = shape(ShapeType::Box, None, &[Face6::Back, Face6::Top, Face6::Right]);
    let picks: Vec<Face6> = shape_face_picks(&s).iter().map(|p| p.face).collect();
    assert_eq!(picks, vec![Face6::Right, Face6::Top, Face6::Back]);
}

#[test]
fn quads_fall_back_to_the_front_layout() {
    let s = shape(ShapeType::Quad, Some("+Y"), &[Face6::Front]);
    let picks = shape_face_picks(&s);
    assert_eq!(picks.len(), 1);
    assert_eq!(picks[0], FacePick { face: Face6::Top, layout_face: Face6::Front, layout: layout(0, false, false) });

    let own = shape(ShapeType::Quad, Some("+Y"), &[Face6::Top, Face6::Front]);
    assert_eq!(shape_face_picks(&own)[0].layout_face, Face6::Top);

    let bare = shape(ShapeType::Quad, None, &[Face6::Back]);
    assert!(shape_face_picks(&bare).is_empty());
}

#[test]
fn shapes_without_geometry_draw_nothing() {
    let all = Face6::ALL;
    assert!(shape_face_picks(&shape(ShapeType::Empty, None, &all)).is_empty());
    assert!(shape_face_picks(&shape(ShapeType::Unknown, None, &all)).is_empty());
}

#[test]
fn quad_extents_lie_in_their_plane() {
    assert_eq!(extent_axes(&shape(ShapeType::Box, None, &[])), [Some(0), Some(1), Some(2)]);
    assert_eq!(extent_axes(&shape(ShapeType::Quad, None, &[])), [Some(0), Some(1), None]);
    assert_eq!(extent_axes(&shape(ShapeType::Quad, Some("-X"), &[])), [None, Some(1), Some(0)]);
    assert_eq!(extent_axes(&shape(ShapeType::Quad, Some("+Y"), &[])), [Some(0), None, Some(1)]);
}

#[test]
fn uv_dimensions_follow_the_face() {
    assert_eq!(uv_dims_axes(ShapeType::Box, Face6::Front), (0, 1));
    assert_eq!(uv_dims_axes(ShapeType::Box, Face6::Left), (2, 1));
    assert_eq!(uv_dims_axes(ShapeType::Box, Face6::Bottom), (0, 2));
    assert_eq!(uv_dims_axes(ShapeType::Quad, Face6::Left), (0, 1));
}

#[test]
fn uv_frames_follow_the_angle_table() {
    let f = uv_frame(&layout(0, false, false));
    assert_eq!((f.swap_axes, f.sign_u, f.sign_v, f.far, f.corners), (false, 1, 1, [false, false, true, true], [0, 1, 2, 3]));
    let f = uv_frame(&layout(0, true, false));
    assert_eq!((f.sign_u, f.sign_v), (-1, 1));
    let f = uv_frame(&layout(90, false, false));
    assert_eq!((f.swap_axes, f.sign_u, f.sign_v, f.far, f.corners), (true, -1, 1, [false, true, true, false], [2, 0, 3, 1]));
    let f = uv_frame(&layout(180, false, true));
    assert_eq!((f.swap_axes, f.sign_u, f.sign_v, f.far, f.corners), (false, -1, 1, [true, true, false, false], [3, 2, 1, 0]));
    let f = uv_frame(&layout(-90, true, false));
    assert_eq!((f.swap_axes, f.sign_u, f.sign_v, f.far, f.corners), (true, 1, 1, [true, false, false, true], [1, 3, 0, 2]));
    // An odd angle keeps the plain rectangle but still turns the corners.
    let f = uv_frame(&layout(100, false, false));
    assert_eq!((f.swap_axes, f.far, f.corners), (false, [false, false, true, true], [2, 0, 3, 1]));
}

/// A quad of size (11, 10) at offset (11, 71), no mirror, no
/// rotation, in a 256x128 texture, pulled in by 1/8 px.
#[test]
fn an_unrotated_rectangle_lands_on_its_pixels() {
    let frame = uv_frame(&layout(0, false, false));
    let (ox, oy, w, h) = (11.0f32, 71.0f32, 11.0f32, 10.0f32);
    let (w, h) = if frame.swap_axes { (h, w) } else { (w, h) };
    let at = |far: bool, ext: f32, sign: i8| if far { ext * sign as f32 } else { 0.0 };
    let (mut u0, mut v0, mut u1, mut v1) = (
        ox + at(frame.far[0], w, frame.sign_u),
        oy + at(frame.far[1], h, frame.sign_v),
        ox + at(frame.far[2], w, frame.sign_u),
        oy + at(frame.far[3], h, frame.sign_v),
    );
    let inset = 0.125;
    if u0 < u1 { u0 += inset; u1 -= inset } else { u0 -= inset; u1 += inset }
    if v0 < v1 { v0 += inset; v1 -= inset } else { v0 -= inset; v1 += inset }
    let base = [(u0, v0), (u1, v0), (u0, v1), (u1, v1)];
    let got: Vec<(f32, f32)> = frame.corners.iter().map(|&c| (base[c].0 / 256.0, base[c].1 / 128.0)).collect();

    let expected = [
        ((11.0 + 0.125) / 256.0, (71.0 + 0.125) / 128.0),
        ((22.0 - 0.125) / 256.0, (71.0 + 0.125) / 128.0),
        ((11.0 + 0.125) / 256.0, (81.0 - 0.125) / 128.0),
        ((22.0 - 0.125) / 256.0, (81.0 - 0.125) / 128.0),
    ];
    for (g, w) in got.iter().zip(expected.iter()) {
        assert!((g.0 - w.0).abs() < 1e-5 && (g.1 - w.1).abs() < 1e-5, "got {g:?}, want {w:?}");
    }
}
