use vstd::prelude::*;

use crate::face::{face_index, face_normal, Face6};
use crate::shape::{spec_quad_normal, Mirror, Shape, ShapeType, TextureFace};

verus! {

// ---------------------------------------------------------------------------
// Face corners and winding
// ---------------------------------------------------------------------------

/// The four corners of a face, ordered `[TL, TR, BL, BR]` as seen from
/// outside the shape, as signs applied to the half extents.
pub open spec fn spec_corner_signs(face: Face6) -> [[i8; 3]; 4] {
    match face {
        Face6::Right => [[1, 1, 1], [1, 1, -1i8], [1, -1i8, 1], [1, -1i8, -1i8]],
        Face6::Left => [[-1i8, 1, -1i8], [-1i8, 1, 1], [-1i8, -1i8, -1i8], [-1i8, -1i8, 1]],
        Face6::Top => [[-1i8, 1, -1i8], [1, 1, -1i8], [-1i8, 1, 1], [1, 1, 1]],
        Face6::Bottom => [[-1i8, -1i8, 1], [1, -1i8, 1], [-1i8, -1i8, -1i8], [1, -1i8, -1i8]],
        Face6::Front => [[-1i8, 1, 1], [1, 1, 1], [-1i8, -1i8, 1], [1, -1i8, 1]],
        Face6::Back => [[1, 1, -1i8], [-1i8, 1, -1i8], [1, -1i8, -1i8], [-1i8, -1i8, -1i8]],
    }
}

/// The corner signs of a face: corner `k` sits at `signs[k] ⊙ half_extent`.
///
/// This table is the one from the official Blockbench exporter; getting the corner
/// order wrong silently mirrors or rotates every texture in the model.
pub fn corner_signs(face: Face6) -> (r: [[i8; 3]; 4])
    ensures
        r == spec_corner_signs(face),
{
    match face {
        Face6::Right => [[1, 1, 1], [1, 1, -1i8], [1, -1i8, 1], [1, -1i8, -1i8]],
        Face6::Left => [[-1i8, 1, -1i8], [-1i8, 1, 1], [-1i8, -1i8, -1i8], [-1i8, -1i8, 1]],
        Face6::Top => [[-1i8, 1, -1i8], [1, 1, -1i8], [-1i8, 1, 1], [1, 1, 1]],
        Face6::Bottom => [[-1i8, -1i8, 1], [1, -1i8, 1], [-1i8, -1i8, -1i8], [1, -1i8, -1i8]],
        Face6::Front => [[-1i8, 1, 1], [1, 1, 1], [-1i8, -1i8, 1], [1, -1i8, 1]],
        Face6::Back => [[1, 1, -1i8], [-1i8, 1, -1i8], [1, -1i8, -1i8], [-1i8, -1i8, -1i8]],
    }
}

/// How many stretch axes are negative.
pub open spec fn spec_negative_axes(negative: [bool; 3]) -> int {
    (if negative[0] { 1int } else { 0int }) + (if negative[1] { 1int } else { 0int }) + (if negative[2] {
        1int
    } else {
        0int
    })
}

/// Counts the negative stretch axes, given which axes are negative.
pub fn negative_axes(negative: [bool; 3]) -> (r: usize)
    ensures
        r == spec_negative_axes(negative),
{
    let mut n: usize = 0;
    if negative[0] {
        n = n + 1;
    }
    if negative[1] {
        n = n + 1;
    }
    if negative[2] {
        n = n + 1;
    }
    n
}

/// An odd number of negative stretch axes mirrors the geometry and so
/// reverses the triangle winding.
pub fn winding_flipped(negative: [bool; 3]) -> (r: bool)
    ensures
        r == (spec_negative_axes(negative) % 2 == 1),
{
    negative_axes(negative) % 2 == 1
}

/// The corner indices of the two triangles of a quad `[TL, TR, BL, BR]`,
/// wound counter-clockwise when viewed from outside. Negative stretch
/// mirrors the geometry, so the winding is flipped back.
pub open spec fn spec_quad_triangles(flipped: bool) -> [u32; 6] {
    if flipped {
        [0, 1, 2, 2, 1, 3]
    } else {
        [0, 2, 1, 2, 3, 1]
    }
}

/// See [`spec_quad_triangles`].
pub fn quad_triangles(flipped: bool) -> (r: [u32; 6])
    ensures
        r == spec_quad_triangles(flipped),
{
    if flipped {
        [0, 1, 2, 2, 1, 3]
    } else {
        [0, 2, 1, 2, 3, 1]
    }
}

/// Corner `k` of a face whose half extents are `h`.
pub open spec fn corner_at(face: Face6, k: int, h: (int, int, int)) -> (int, int, int) {
    let s = spec_corner_signs(face)[k];
    (s[0] * h.0, s[1] * h.1, s[2] * h.2)
}

pub open spec fn sub3(a: (int, int, int), b: (int, int, int)) -> (int, int, int) {
    (a.0 - b.0, a.1 - b.1, a.2 - b.2)
}

pub open spec fn cross3(a: (int, int, int), b: (int, int, int)) -> (int, int, int) {
    (a.1 * b.2 - a.2 * b.1, a.2 * b.0 - a.0 * b.2, a.0 * b.1 - a.1 * b.0)
}

pub open spec fn dot3(a: (int, int, int), b: (int, int, int)) -> int {
    a.0 * b.0 + a.1 * b.1 + a.2 * b.2
}

/// The outward normal of a face on a shape whose stretch has signs `s`
/// (each `1` or `-1`): negative axes flip the normal with the geometry.
pub open spec fn signed_normal(face: Face6, s: (int, int, int)) -> (int, int, int) {
    let n = face_normal(face);
    (n[0] * s.0, n[1] * s.1, n[2] * s.2)
}

/// Whether an odd number of the signs `s` is negative.
pub open spec fn odd_negatives(s: (int, int, int)) -> bool {
    ((if s.0 < 0 { 1int } else { 0int }) + (if s.1 < 0 { 1int } else { 0int }) + (if s.2 < 0 {
        1int
    } else {
        0int
    })) % 2 == 1
}

/// The geometric normal of triangle `tri` (0 or 1) of a face, as emitted.
pub open spec fn triangle_normal(face: Face6, h: (int, int, int), flipped: bool, tri: int) -> (int, int, int) {
    let t = spec_quad_triangles(flipped);
    let a = corner_at(face, t[3 * tri] as int, h);
    let b = corner_at(face, t[3 * tri + 1] as int, h);
    let c = corner_at(face, t[3 * tri + 2] as int, h);
    cross3(sub3(b, a), sub3(c, a))
}

proof fn lemma_sign_parity(s: (int, int, int))
    requires
        s.0 == 1 || s.0 == -1,
        s.1 == 1 || s.1 == -1,
        s.2 == 1 || s.2 == -1,
    ensures
        odd_negatives(s) <==> s.0 * s.1 * s.2 == -1,
        s.0 * s.1 * s.2 == 1 || s.0 * s.1 * s.2 == -1,
{
    if s.0 == 1 {
        if s.1 == 1 {
            if s.2 == 1 {
            } else {
            }
        } else {
            if s.2 == 1 {
            } else {
            }
        }
    } else {
        if s.1 == 1 {
            if s.2 == 1 {
            } else {
            }
        } else {
            if s.2 == 1 {
            } else {
            }
        }
    }
}

proof fn lemma_product_sign(a: int, b: int, sa: int, sb: int, k: int)
    requires
        sa == 1 || sa == -1,
        sb == 1 || sb == -1,
        a * sa > 0,
        b * sb > 0,
    ensures
        k * sa * sb > 0 ==> k * a * b > 0,
        k * sa * sb < 0 ==> k * a * b < 0,
{
    assert(k * sa * sb > 0 ==> k * a * b > 0) by (nonlinear_arith)
        requires
            sa == 1 || sa == -1,
            sb == 1 || sb == -1,
            a * sa > 0,
            b * sb > 0,
    ;
    assert(k * sa * sb < 0 ==> k * a * b < 0) by (nonlinear_arith)
        requires
            sa == 1 || sa == -1,
            sb == 1 || sb == -1,
            a * sa > 0,
            b * sb > 0,
    ;
}

/// Both triangles of every emitted face wind counter-clockwise as seen from
/// outside: their geometric normal points along the face's declared normal,
/// whatever the signs of the stretch, as long as the face has extent in
/// its own plane.
pub proof fn lemma_triangles_face_outward(face: Face6, h: (int, int, int), s: (int, int, int), tri: int)
    requires
        s.0 == 1 || s.0 == -1,
        s.1 == 1 || s.1 == -1,
        s.2 == 1 || s.2 == -1,
        face_normal(face)[0] == 0 ==> h.0 * s.0 > 0,
        face_normal(face)[1] == 0 ==> h.1 * s.1 > 0,
        face_normal(face)[2] == 0 ==> h.2 * s.2 > 0,
        tri == 0 || tri == 1,
    ensures
        dot3(triangle_normal(face, h, odd_negatives(s), tri), signed_normal(face, s)) > 0,
{
    let flipped = odd_negatives(s);
    let d = dot3(triangle_normal(face, h, flipped, tri), signed_normal(face, s));
    let k = if flipped { -4int } else { 4int };
    lemma_sign_parity(s);
    match face {
        Face6::Right | Face6::Left => {
            assert(d == (k * s.0) * h.1 * h.2) by (nonlinear_arith)
                requires
                    d == dot3(triangle_normal(face, h, flipped, tri), signed_normal(face, s)),
                    face == Face6::Right || face == Face6::Left,
                    tri == 0 || tri == 1,
                    k == if flipped { -4int } else { 4int },
                    s.0 == 1 || s.0 == -1,
            ;
            assert((k * s.0) * s.1 * s.2 > 0) by (nonlinear_arith)
                requires
                    k == if flipped { -4int } else { 4int },
                    flipped <==> s.0 * s.1 * s.2 == -1,
                    s.0 * s.1 * s.2 == 1 || s.0 * s.1 * s.2 == -1,
            ;
            lemma_product_sign(h.1, h.2, s.1, s.2, k * s.0);
        },
        Face6::Top | Face6::Bottom => {
            assert(d == (k * s.1) * h.0 * h.2) by (nonlinear_arith)
                requires
                    d == dot3(triangle_normal(face, h, flipped, tri), signed_normal(face, s)),
                    face == Face6::Top || face == Face6::Bottom,
                    tri == 0 || tri == 1,
                    k == if flipped { -4int } else { 4int },
                    s.1 == 1 || s.1 == -1,
            ;
            assert((k * s.1) * s.0 * s.2 > 0) by (nonlinear_arith)
                requires
                    k == if flipped { -4int } else { 4int },
                    flipped <==> s.0 * s.1 * s.2 == -1,
                    s.0 * s.1 * s.2 == 1 || s.0 * s.1 * s.2 == -1,
            ;
            lemma_product_sign(h.0, h.2, s.0, s.2, k * s.1);
        },
        Face6::Front | Face6::Back => {
            assert(d == (k * s.2) * h.0 * h.1) by (nonlinear_arith)
                requires
                    d == dot3(triangle_normal(face, h, flipped, tri), signed_normal(face, s)),
                    face == Face6::Front || face == Face6::Back,
                    tri == 0 || tri == 1,
                    k == if flipped { -4int } else { 4int },
                    s.2 == 1 || s.2 == -1,
            ;
            assert((k * s.2) * s.0 * s.1 > 0) by (nonlinear_arith)
                requires
                    k == if flipped { -4int } else { 4int },
                    flipped <==> s.0 * s.1 * s.2 == -1,
                    s.0 * s.1 * s.2 == 1 || s.0 * s.1 * s.2 == -1,
            ;
            lemma_product_sign(h.0, h.1, s.0, s.1, k * s.2);
        },
    }
}

// ---------------------------------------------------------------------------
// Which faces a shape draws
// ---------------------------------------------------------------------------

/// A face to generate, with the `textureLayout` entry that textures it.
#[derive(Debug, Clone, Copy, PartialEq, Eq, Structural)]
pub struct FacePick {
    /// The face whose corners and normal are generated.
    pub face: Face6,
    /// The face whose `textureLayout` entry is used; differs from `face` only
    /// for quads falling back to `front`.
    pub layout_face: Face6,
    pub layout: TextureFace,
}

/// The faces of a box, in [`Face6::ALL`] order, among the first `n` that
/// have a layout entry.
pub open spec fn box_picks(layout: [Option<TextureFace>; 6], n: int) -> Seq<FacePick>
    decreases n,
{
    if n <= 0 {
        Seq::empty()
    } else {
        let prev = box_picks(layout, n - 1);
        match layout[n - 1] {
            Some(t) => prev.push(FacePick { face: Face6::ALL[n - 1], layout_face: Face6::ALL[n - 1], layout: t }),
            None => prev,
        }
    }
}

/// The faces a shape generates: a box draws each face that has a layout
/// entry; a quad draws its one plane, textured by its own entry or else by
/// `front` (quads only ever author `front`); anything else draws nothing.
pub open spec fn spec_face_picks(shape: Shape) -> Seq<FacePick> {
    match shape.kind {
        ShapeType::Box => box_picks(shape.texture_layout, 6),
        ShapeType::Quad => {
            let f = spec_quad_normal(shape);
            match shape.texture_layout[face_index(f)] {
                Some(t) => seq![FacePick { face: f, layout_face: f, layout: t }],
                None => match shape.texture_layout[face_index(Face6::Front)] {
                    Some(t) => seq![FacePick { face: f, layout_face: Face6::Front, layout: t }],
                    None => Seq::empty(),
                },
            }
        },
        _ => Seq::empty(),
    }
}

/// Chooses the faces a shape generates, in generation order.
pub fn shape_face_picks(shape: &Shape) -> (r: Vec<FacePick>)
    ensures
        r@ == spec_face_picks(*shape),
{
    let mut out: Vec<FacePick> = Vec::new();
    match shape.kind {
        ShapeType::Box => {
            let mut i: usize = 0;
            while i < 6
                invariant
                    0 <= i <= 6,
                    out@ == box_picks(shape.texture_layout, i as int),
                decreases 6 - i,
            {
                let face = Face6::ALL[i];
                proof {
                    crate::face::lemma_all_faces_indexed(face);
                }
                match shape.layout(face) {
                    Some(t) => {
                        out.push(FacePick { face, layout_face: face, layout: *t });
                    },
                    None => {},
                }
                i = i + 1;
            }
        },
        ShapeType::Quad => {
            let face = shape.quad_normal();
            match shape.layout(face) {
                Some(t) => {
                    out.push(FacePick { face, layout_face: face, layout: *t });
                },
                None => match shape.layout(Face6::Front) {
                    Some(t) => {
                        out.push(FacePick { face, layout_face: Face6::Front, layout: *t });
                    },
                    None => {},
                },
            }
            proof {
                assert(out@ =~= spec_face_picks(*shape));
            }
        },
        _ => {},
    }
    out
}

/// For each output axis of a shape's extent, the `size` component it takes
/// (scaled by that axis's stretch), or `None` for the flat axis of a quad.
pub open spec fn spec_extent_axes(kind: ShapeType, plane: Face6) -> [Option<usize>; 3] {
    match kind {
        ShapeType::Quad => match plane {
            // Width along Z, height along Y; the normal axis is flat.
            Face6::Right | Face6::Left => [None, Some(1usize), Some(0usize)],
            // Width along X, height along Z.
            Face6::Top | Face6::Bottom => [Some(0usize), None, Some(1usize)],
            // Width along X, height along Y.
            Face6::Front | Face6::Back => [Some(0usize), Some(1usize), None],
        },
        _ => [Some(0usize), Some(1usize), Some(2usize)],
    }
}

/// Where each axis of a shape's full extent comes from. Quad sizes only
/// carry `x`/`y`, which land in the quad's plane.
pub fn extent_axes(shape: &Shape) -> (r: [Option<usize>; 3])
    ensures
        r == spec_extent_axes(shape.kind, spec_quad_normal(*shape)),
{
    match shape.kind {
        ShapeType::Quad => match shape.quad_normal() {
            Face6::Right | Face6::Left => [None, Some(1), Some(0)],
            Face6::Top | Face6::Bottom => [Some(0), None, Some(1)],
            Face6::Front | Face6::Back => [Some(0), Some(1), None],
        },
        _ => [Some(0), Some(1), Some(2)],
    }
}

/// The `size` components that give a face's UV rectangle width and height,
/// in **un-stretched** model units.
pub open spec fn spec_uv_dims_axes(kind: ShapeType, face: Face6) -> (usize, usize) {
    if kind == ShapeType::Quad {
        (0, 1)
    } else {
        match face {
            Face6::Front | Face6::Back => (0, 1),
            Face6::Left | Face6::Right => (2, 1),
            Face6::Top | Face6::Bottom => (0, 2),
        }
    }
}

/// See [`spec_uv_dims_axes`].
pub fn uv_dims_axes(kind: ShapeType, face: Face6) -> (r: (usize, usize))
    ensures
        r == spec_uv_dims_axes(kind, face),
{
    if kind == ShapeType::Quad {
        return (0, 1);
    }
    match face {
        Face6::Front | Face6::Back => (0, 1),
        Face6::Left | Face6::Right => (2, 1),
        Face6::Top | Face6::Bottom => (0, 2),
    }
}

// ---------------------------------------------------------------------------
// UV rectangle layout
// ---------------------------------------------------------------------------

/// How a `textureLayout` entry maps onto a face's four corners.
///
/// With `(ox, oy)` the pixel offset and `(w, h)` the rectangle size (swapped
/// when `swap_axes`), the rectangle is `u0 = ox + far[0]·w·sign_u`,
/// `v0 = oy + far[1]·h·sign_v`, `u1 = ox + far[2]·w·sign_u`,
/// `v1 = oy + far[3]·h·sign_v`; emitted corner `k` then takes point
/// `corners[k]` of `[(u0,v0), (u1,v0), (u0,v1), (u1,v1)]`.
#[derive(Debug, Clone, Copy)]
pub struct UvFrame {
    pub swap_axes: bool,
    pub sign_u: i8,
    pub sign_v: i8,
    pub far: [bool; 4],
    pub corners: [usize; 4],
}

pub open spec fn mirror_sign(m: bool) -> i8 {
    if m {
        -1i8
    } else {
        1
    }
}

/// The corner assignment after `steps` quarter turns; each turn maps
/// `[TL, TR, BL, BR]` to `[BL, TL, BR, TR]`, as Blockbench's `getUVArray`.
pub open spec fn spec_corner_rotation(steps: int) -> [usize; 4] {
    if steps == 1 {
        [2, 0, 3, 1]
    } else if steps == 2 {
        [3, 2, 1, 0]
    } else if steps == 3 {
        [1, 3, 0, 2]
    } else {
        [0, 1, 2, 3]
    }
}

/// The UV layout rules of the format for a normalized angle and mirroring.
pub open spec fn spec_uv_frame(angle: int, mirror: Mirror) -> UvFrame {
    let mx = mirror_sign(mirror.x);
    let my = mirror_sign(mirror.y);
    let corners = spec_corner_rotation(angle / 90);
    if angle == 90 {
        UvFrame { swap_axes: true, sign_u: (-my) as i8, sign_v: mx, far: [false, true, true, false], corners }
    } else if angle == 180 {
        UvFrame { swap_axes: false, sign_u: (-mx) as i8, sign_v: (-my) as i8, far: [true, true, false, false], corners }
    } else if angle == 270 {
        UvFrame { swap_axes: true, sign_u: my, sign_v: (-mx) as i8, far: [true, false, false, true], corners }
    } else {
        UvFrame { swap_axes: false, sign_u: mx, sign_v: my, far: [false, false, true, true], corners }
    }
}

/// Lays out a `textureLayout` entry: the rectangle's growth per axis and the
/// rotation of the corner assignments.
pub fn uv_frame(layout: &TextureFace) -> (r: UvFrame)
    ensures
        r == spec_uv_frame(layout.angle as int % 360, layout.mirror),
{
    let angle = layout.angle_deg();
    let mut mx: i8 = if layout.mirror.x { -1 } else { 1 };
    let mut my: i8 = if layout.mirror.y { -1 } else { 1 };
    let mut swap_axes = false;
    let far: [bool; 4];
    if angle == 90 {
        swap_axes = true;
        let t = mx;
        mx = my;
        my = t;
        mx = -mx;
        far = [false, true, true, false];
    } else if angle == 180 {
        mx = -mx;
        my = -my;
        far = [true, true, false, false];
    } else if angle == 270 {
        swap_axes = true;
        let t = mx;
        mx = my;
        my = t;
        my = -my;
        far = [true, false, false, true];
    } else {
        far = [false, false, true, true];
    }

    // Rotate the corner *assignments*, exactly as Blockbench's `getUVArray`.
    let mut corners: [usize; 4] = [0, 1, 2, 3];
    let mut steps = angle / 90;
    let ghost total = angle / 90;
    while steps > 0
        invariant
            0 <= steps <= total <= 3,
            corners == spec_corner_rotation(total - steps),
        decreases steps,
    {
        let tmp = corners[0];
        corners[0] = corners[2];
        corners[2] = corners[3];
        corners[3] = corners[1];
        corners[1] = tmp;
        steps = steps - 1;
        proof {
            assert(corners =~= spec_corner_rotation(total - steps));
        }
    }
    UvFrame { swap_axes, sign_u: mx, sign_v: my, far, corners }
}

// ---------------------------------------------------------------------------
// Mesh assembly
// ---------------------------------------------------------------------------

/// One generated quad, ready to become two triangles.
pub struct Quad<V> {
    /// `[TL, TR, BL, BR]`, viewed from outside the shape.
    pub corners: [V; 4],
    /// `true` when the face must survive back-face culling.
    pub double_sided: bool,
    /// `true` when an odd number of stretch axes are negative.
    pub winding_flipped: bool,
}

/// Indexed triangle data plus the index lists the two pipelines need.
pub struct Mesh<V> {
    pub vertices: Vec<V>,
    /// Triangles for single-sided shapes (back faces culled).
    pub indices_single: Vec<u32>,
    /// Triangles for `doubleSided` shapes (nothing culled).
    pub indices_double: Vec<u32>,
}

/// The six indices of quad `q`, offset to its first vertex.
pub open spec fn quad_indices(q: int, flipped: bool) -> Seq<u32> {
    let t = spec_quad_triangles(flipped);
    Seq::new(6, |k: int| (4 * q + t[k]) as u32)
}

/// The indices of the first `n` quads that belong to the `double` list.
pub open spec fn index_list<V>(quads: Seq<Quad<V>>, double: bool, n: int) -> Seq<u32>
    decreases n,
{
    if n <= 0 {
        Seq::empty()
    } else {
        let prev = index_list(quads, double, n - 1);
        if quads[n - 1].double_sided == double {
            prev + quad_indices(n - 1, quads[n - 1].winding_flipped)
        } else {
            prev
        }
    }
}

/// The vertices of the first `n` quads: four per quad, corner by corner.
pub open spec fn vertex_list<V>(quads: Seq<Quad<V>>, n: int) -> Seq<V>
    decreases n,
{
    if n <= 0 {
        Seq::empty()
    } else {
        vertex_list(quads, n - 1) + quads[n - 1].corners@
    }
}

/// Every index of a list names one of the first `n` quads' vertices.
pub proof fn lemma_index_list_in_range<V>(quads: Seq<Quad<V>>, double: bool, n: int)
    requires
        0 <= n <= quads.len(),
        4 * n <= u32::MAX + 1,
    ensures
        forall|i: int| 0 <= i < index_list(quads, double, n).len() ==> #[trigger] index_list(quads, double, n)[i] < 4 * n,
    decreases n,
{
    if n > 0 {
        lemma_index_list_in_range(quads, double, n - 1);
        let added = quad_indices(n - 1, quads[n - 1].winding_flipped);
        let prev = index_list(quads, double, n - 1);
        let cur = index_list(quads, double, n);
        assert forall|i: int| 0 <= i < cur.len() implies #[trigger] cur[i] < 4 * n by {
            if i < prev.len() {
                assert(cur[i] == prev[i]);
            } else {
                assert(cur[i] == added[i - prev.len()]);
                let t = spec_quad_triangles(quads[n - 1].winding_flipped);
                assert(t[i - prev.len()] <= 3);
            }
        }
    }
}

/// How many of the first `n` quads are double-sided (`double`) or
/// single-sided (`!double`).
pub open spec fn sided_count<V>(quads: Seq<Quad<V>>, double: bool, n: int) -> int
    decreases n,
{
    if n <= 0 {
        0
    } else {
        sided_count(quads, double, n - 1) + if quads[n - 1].double_sided == double {
            1int
        } else {
            0int
        }
    }
}

/// Every quad contributes four vertices, corner by corner, and six indices
/// (two triangles) to the list its sidedness selects.
pub proof fn lemma_index_lists_cover_quads<V>(quads: Seq<Quad<V>>, n: int)
    requires
        0 <= n <= quads.len(),
    ensures
        index_list(quads, false, n).len() == 6 * sided_count(quads, false, n),
        index_list(quads, true, n).len() == 6 * sided_count(quads, true, n),
        index_list(quads, false, n).len() + index_list(quads, true, n).len() == 6 * n,
        (index_list(quads, false, n).len() + index_list(quads, true, n).len()) / 3 == 2 * n,
        vertex_list(quads, n).len() == 4 * n,
        forall|k: int, c: int| 0 <= k < n && 0 <= c < 4 ==> #[trigger] vertex_list(quads, n)[4 * k + c] == quads[k].corners[c],
    decreases n,
{
    if n > 0 {
        lemma_index_lists_cover_quads(quads, n - 1);
        let prev = vertex_list(quads, n - 1);
        let cur = vertex_list(quads, n);
        assert forall|k: int, c: int| 0 <= k < n && 0 <= c < 4 implies #[trigger] cur[4 * k + c] == quads[k].corners[c] by {
            if k < n - 1 {
                assert(cur[4 * k + c] == prev[4 * k + c]);
            } else {
                assert(cur[4 * k + c] == quads[n - 1].corners@[c]);
            }
        }
    }
}

impl<V: Copy> Mesh<V> {
    /// Turns quads into indexed triangles: four vertices per quad, in quad
    /// order, and two triangles per quad in the list its sidedness selects.
    pub fn from_quads(quads: &Vec<Quad<V>>) -> (r: Mesh<V>)
        requires
            4 * quads@.len() <= u32::MAX + 1,
        ensures
            r.vertices@ == vertex_list(quads@, quads@.len() as int),
            r.indices_single@ == index_list(quads@, false, quads@.len() as int),
            r.indices_double@ == index_list(quads@, true, quads@.len() as int),
    {
        let mut mesh = Mesh { vertices: Vec::new(), indices_single: Vec::new(), indices_double: Vec::new() };
        let n = quads.len();
        let mut q: usize = 0;
        while q < n
            invariant
                n == quads@.len(),
                4 * n <= u32::MAX + 1,
                0 <= q <= n,
                mesh.vertices@ == vertex_list(quads@, q as int),
                mesh.vertices@.len() == 4 * q,
                mesh.indices_single@ == index_list(quads@, false, q as int),
                mesh.indices_double@ == index_list(quads@, true, q as int),
            decreases n - q,
        {
            let quad = &quads[q];
            let base = mesh.vertices.len() as u32;
            let mut k: usize = 0;
            while k < 4
                invariant
                    0 <= k <= 4,
                    mesh.vertices@ == vertex_list(quads@, q as int) + quad.corners@.take(k as int),
                    mesh.indices_single@ == index_list(quads@, false, q as int),
                    mesh.indices_double@ == index_list(quads@, true, q as int),
                decreases 4 - k,
            {
                mesh.vertices.push(quad.corners[k]);
                proof {
                    assert(quad.corners@.take(k + 1) =~= quad.corners@.take(k as int).push(quad.corners@[k as int]));
                }
                k = k + 1;
            }
            proof {
                assert(quad.corners@.take(4) =~= quad.corners@);
            }
            let t = quad_triangles(quad.winding_flipped);
            let ghost added = quad_indices(q as int, quad.winding_flipped);
            let ghost before_single = mesh.indices_single@;
            let ghost before_double = mesh.indices_double@;
            let mut k: usize = 0;
            while k < 6
                invariant
                    0 <= k <= 6,
                    4 * q + 3 <= u32::MAX,
                    base == 4 * q,
                    t == spec_quad_triangles(quad.winding_flipped),
                    added == quad_indices(q as int, quad.winding_flipped),
                    quad.double_sided ==> mesh.indices_double@ == before_double + added.take(k as int)
                        && mesh.indices_single@ == before_single,
                    !quad.double_sided ==> mesh.indices_single@ == before_single + added.take(k as int)
                        && mesh.indices_double@ == before_double,
                    mesh.vertices@.len() == 4 * (q + 1),
                    mesh.vertices@ == vertex_list(quads@, q + 1),
                decreases 6 - k,
            {
                let index = base + t[k];
                if quad.double_sided {
                    mesh.indices_double.push(index);
                } else {
                    mesh.indices_single.push(index);
                }
                proof {
                    assert(added.take(k + 1) =~= added.take(k as int).push(index));
                }
                k = k + 1;
            }
            proof {
                assert(added.take(6) =~= added);
                assert(quads@[q as int] == *quad);
                assert(before_single == index_list(quads@, false, q as int));
                assert(before_double == index_list(quads@, true, q as int));
                assert(index_list(quads@, false, q + 1) == if quad.double_sided == false {
                    before_single + added
                } else {
                    before_single
                });
                assert(index_list(quads@, true, q + 1) == if quad.double_sided == true {
                    before_double + added
                } else {
                    before_double
                });
            }
            q = q + 1;
        }
        mesh
    }

    /// Number of triangles across both index lists.
    pub fn triangle_count(&self) -> (r: usize)
        requires
            self.indices_single@.len() + self.indices_double@.len() <= usize::MAX,
        ensures
            r == (self.indices_single@.len() + self.indices_double@.len()) / 3,
    {
        (self.indices_single.len() + self.indices_double.len()) / 3
    }

    /// Both index lists concatenated, for consumers that want one buffer.
    pub fn all_indices(&self) -> (r: Vec<u32>)
        ensures
            r@ == self.indices_single@ + self.indices_double@,
    {
        let mut out: Vec<u32> = Vec::new();
        let mut i: usize = 0;
        while i < self.indices_single.len()
            invariant
                0 <= i <= self.indices_single@.len(),
                out@ == self.indices_single@.take(i as int),
            decreases self.indices_single@.len() - i,
        {
            out.push(self.indices_single[i]);
            proof {
                assert(self.indices_single@.take(i + 1) =~= self.indices_single@.take(i as int).push(
                    self.indices_single@[i as int],
                ));
            }
            i = i + 1;
        }
        let mut j: usize = 0;
        while j < self.indices_double.len()
            invariant
                0 <= j <= self.indices_double@.len(),
                out@ == self.indices_single@ + self.indices_double@.take(j as int),
            decreases self.indices_double@.len() - j,
        {
            out.push(self.indices_double[j]);
            proof {
                assert(self.indices_double@.take(j + 1) =~= self.indices_double@.take(j as int).push(
                    self.indices_double@[j as int],
                ));
            }
            j = j + 1;
        }
        proof {
            assert(self.indices_single@.take(self.indices_single@.len() as int) =~= self.indices_single@);
            assert(self.indices_double@.take(self.indices_double@.len() as int) =~= self.indices_double@);
        }
        out
    }
}

// ---------------------------------------------------------------------------
// Laws of the face frame
// ---------------------------------------------------------------------------

/// A face's outward normal as a vector of integers.
pub open spec fn normal_vec(f: Face6) -> (int, int, int) {
    let n = face_normal(f);
    (n[0] as int, n[1] as int, n[2] as int)
}

/// Which way is up on a face's texture, seen from outside the shape: `+Y`
/// on the four side faces; on the top face towards the back (`-Z`), on the
/// bottom face towards the front (`+Z`).
pub open spec fn face_up(f: Face6) -> (int, int, int) {
    match f {
        Face6::Top => (0, 0, -1),
        Face6::Bottom => (0, 0, 1),
        _ => (0, 1, 0),
    }
}

/// Which way is right on a face's texture, seen from outside: up crossed
/// with the outward normal.
pub open spec fn face_right(f: Face6) -> (int, int, int) {
    cross3(face_up(f), normal_vec(f))
}

/// A corner's sign pattern as a vector of integers.
pub open spec fn sign_vec(c: [i8; 3]) -> (int, int, int) {
    (c[0] as int, c[1] as int, c[2] as int)
}

/// The component of `v` along the axis vector `a`'s axis index.
pub open spec fn axis_of(a: (int, int, int)) -> int {
    if a.0 != 0 {
        0
    } else if a.1 != 0 {
        1
    } else {
        2
    }
}

/// Corners are named by where they sit on the face seen from outside:
/// every corner lies on the face's outer plane, corners 0 and 1 (TL, TR)
/// are at the top and 2 and 3 (BL, BR) at the bottom, and corners 0 and 2
/// (TL, BL) are on the left and 1 and 3 (TR, BR) on the right.
pub proof fn lemma_corners_sit_where_they_are_named(f: Face6, k: int) by (nonlinear_arith)
    requires
        0 <= k < 4,
    ensures
        dot3(sign_vec(spec_corner_signs(f)[k]), normal_vec(f)) == 1,
        dot3(sign_vec(spec_corner_signs(f)[k]), face_up(f)) == (if k < 2 { 1int } else { -1int }),
        dot3(sign_vec(spec_corner_signs(f)[k]), face_right(f)) == (if k == 1 || k == 3 { 1int } else { -1int }),
{
    assert(k == 0 || k == 1 || k == 2 || k == 3);
    match f {
        Face6::Right => {},
        Face6::Left => {},
        Face6::Top => {},
        Face6::Bottom => {},
        Face6::Front => {},
        Face6::Back => {},
    }
}

/// The up and right directions and the outward normal of every face are
/// three different unit axes.
pub proof fn lemma_face_frame_is_an_axis_frame(f: Face6) by (nonlinear_arith)
    ensures
        dot3(face_up(f), face_up(f)) == 1,
        dot3(face_right(f), face_right(f)) == 1,
        dot3(normal_vec(f), normal_vec(f)) == 1,
        dot3(face_up(f), normal_vec(f)) == 0,
        dot3(face_right(f), normal_vec(f)) == 0,
        dot3(face_up(f), face_right(f)) == 0,
{
    match f {
        Face6::Right => {},
        Face6::Left => {},
        Face6::Top => {},
        Face6::Bottom => {},
        Face6::Front => {},
        Face6::Back => {},
    }
}

/// A quad's extent follows its plane: it is flat along the plane's normal,
/// its width (size component 0) runs along the plane's right direction and
/// its height (size component 1) along its up direction. A box takes size
/// component `i` along axis `i`.
pub proof fn lemma_extent_follows_the_plane(kind: ShapeType, plane: Face6) by (nonlinear_arith)
    ensures
        kind == ShapeType::Quad ==> {
            let e = spec_extent_axes(kind, plane);
            &&& e[axis_of(normal_vec(plane))] is None
            &&& e[axis_of(face_right(plane))] == Some(0usize)
            &&& e[axis_of(face_up(plane))] == Some(1usize)
        },
        kind != ShapeType::Quad ==> spec_extent_axes(kind, plane) == [Some(0usize), Some(1usize), Some(2usize)],
{
    match plane {
        Face6::Right => {},
        Face6::Left => {},
        Face6::Top => {},
        Face6::Bottom => {},
        Face6::Front => {},
        Face6::Back => {},
    }
}

/// A face's UV rectangle is as wide as the shape along the face's right
/// direction and as tall as along its up direction; a quad's rectangle is
/// its own width by height.
pub proof fn lemma_uv_dims_follow_the_face(kind: ShapeType, face: Face6) by (nonlinear_arith)
    ensures
        kind == ShapeType::Quad ==> spec_uv_dims_axes(kind, face) == (0usize, 1usize),
        kind != ShapeType::Quad ==> spec_uv_dims_axes(kind, face) == (
            axis_of(face_right(face)) as usize,
            axis_of(face_up(face)) as usize,
        ),
{
    match face {
        Face6::Right => {},
        Face6::Left => {},
        Face6::Top => {},
        Face6::Bottom => {},
        Face6::Front => {},
        Face6::Back => {},
    }
}

// ---------------------------------------------------------------------------
// Laws of the UV layout
// ---------------------------------------------------------------------------

/// Corner `k` (TL, TR, BL, BR) of an unturned, unmirrored `w` by `h`
/// rectangle, relative to its offset (`v` grows downwards).
pub open spec fn base_corner(k: int, w: int, h: int) -> (int, int) {
    (if k == 1 || k == 3 { w } else { 0 }, if k >= 2 { h } else { 0 })
}

/// A point mirrored through the offset along the mirrored axes.
pub open spec fn mirrored(p: (int, int), m: Mirror) -> (int, int) {
    (if m.x { -p.0 } else { p.0 }, if m.y { -p.1 } else { p.1 })
}

/// A point turned about the offset by `steps` quarter turns, each taking
/// `(u, v)` to `(-v, u)`.
pub open spec fn turned(p: (int, int), steps: int) -> (int, int) {
    if steps == 1 {
        (-p.1, p.0)
    } else if steps == 2 {
        (-p.0, -p.1)
    } else if steps == 3 {
        (p.1, -p.0)
    } else {
        p
    }
}

/// The UV corner `k` a frame lays out for a `w` by `h` face, relative to
/// the rectangle's offset, by the rule documented on [`UvFrame`].
pub open spec fn frame_corner(fr: UvFrame, w: int, h: int, k: int) -> (int, int) {
    let ew = if fr.swap_axes { h } else { w };
    let eh = if fr.swap_axes { w } else { h };
    let u0 = if fr.far[0] { ew * fr.sign_u } else { 0 };
    let v0 = if fr.far[1] { eh * fr.sign_v } else { 0 };
    let u1 = if fr.far[2] { ew * fr.sign_u } else { 0 };
    let v1 = if fr.far[3] { eh * fr.sign_v } else { 0 };
    let c = fr.corners[k];
    if c == 0 {
        (u0, v0)
    } else if c == 1 {
        (u1, v0)
    } else if c == 2 {
        (u0, v1)
    } else {
        (u1, v1)
    }
}

/// A texture rotation turns the face's rectangle about its offset: with the
/// rotation a multiple of 90 degrees, each UV corner is the unturned
/// rectangle's corner, mirrored, then turned by the rotation's quarter
/// turns. The top-left corner always stays on the offset.
pub proof fn lemma_uv_frame_turns_the_rectangle(angle: int, mirror: Mirror, w: int, h: int, k: int)
    requires
        0 <= angle < 360,
        angle % 90 == 0,
        0 <= k < 4,
    ensures
        frame_corner(spec_uv_frame(angle, mirror), w, h, k) == turned(mirrored(base_corner(k, w, h), mirror), angle / 90),
{
    let fr = spec_uv_frame(angle, mirror);
    assert(angle == 0 || angle == 90 || angle == 180 || angle == 270);
    if mirror.x {
        assert(mirror_sign(mirror.x) == -1);
    } else {
        assert(mirror_sign(mirror.x) == 1);
    }
    if mirror.y {
        assert(mirror_sign(mirror.y) == -1);
    } else {
        assert(mirror_sign(mirror.y) == 1);
    }
    assert(fr.sign_u == 1 || fr.sign_u == -1);
    assert(fr.sign_v == 1 || fr.sign_v == -1);
    if fr.sign_u == 1 {
        assert(w * fr.sign_u == w && h * fr.sign_u == h);
    } else {
        assert(w * fr.sign_u == -w && h * fr.sign_u == -h);
    }
    if fr.sign_v == 1 {
        assert(w * fr.sign_v == w && h * fr.sign_v == h);
    } else {
        assert(w * fr.sign_v == -w && h * fr.sign_v == -h);
    }
}

/// The two triangles of a quad are made of its own corners, three
/// different ones each, and together they use all four.
pub proof fn lemma_quad_triangles_cover_the_quad(flipped: bool)
    ensures
        forall|i: int| 0 <= i < 6 ==> #[trigger] spec_quad_triangles(flipped)[i] < 4,
        spec_quad_triangles(flipped)[0] != spec_quad_triangles(flipped)[1],
        spec_quad_triangles(flipped)[1] != spec_quad_triangles(flipped)[2],
        spec_quad_triangles(flipped)[0] != spec_quad_triangles(flipped)[2],
        spec_quad_triangles(flipped)[3] != spec_quad_triangles(flipped)[4],
        spec_quad_triangles(flipped)[4] != spec_quad_triangles(flipped)[5],
        spec_quad_triangles(flipped)[3] != spec_quad_triangles(flipped)[5],
        forall|c: u32| c < 4 ==> #[trigger] spec_quad_triangles(flipped)@.contains(c),
{
    let t = spec_quad_triangles(flipped);
    assert forall|c: u32| c < 4 implies #[trigger] t@.contains(c) by {
        if flipped {
            assert(t@[0] == 0 && t@[1] == 1 && t@[2] == 2 && t@[5] == 3);
        } else {
            assert(t@[0] == 0 && t@[2] == 1 && t@[1] == 2 && t@[4] == 3);
        }
        if c == 0 {
            assert(t@[0] == c);
        } else if c == 1 {
            assert(t@[1] == c || t@[2] == c);
        } else if c == 2 {
            assert(t@[1] == c || t@[2] == c);
        } else {
            assert(t@[4] == c || t@[5] == c);
        }
    }
}

/// The picks among the first `n` faces of [`Face6::ALL`] are textured by
/// their own entries, in increasing face order, and miss no face with an
/// entry.
proof fn lemma_box_picks_prefix(layout: [Option<TextureFace>; 6], n: int)
    requires
        0 <= n <= 6,
    ensures
        ({
            let p = box_picks(layout, n);
            &&& forall|i: int| 0 <= i < p.len() ==> {
                &&& (#[trigger] p[i]).layout_face == p[i].face
                &&& face_index(p[i].face) < n
                &&& layout[face_index(p[i].face)] == Some(p[i].layout)
            }
            &&& forall|i: int, j: int| 0 <= i < j < p.len() ==> face_index((#[trigger] p[i]).face) < face_index(
                (#[trigger] p[j]).face,
            )
            &&& forall|f: Face6| face_index(f) < n && (#[trigger] layout[face_index(f)]) is Some ==> exists|i: int|
                0 <= i < p.len() && (#[trigger] p[i]).face == f
        }),
    decreases n,
{
    if n > 0 {
        lemma_box_picks_prefix(layout, n - 1);
        let prev = box_picks(layout, n - 1);
        let p = box_picks(layout, n);
        let g = Face6::ALL[n - 1];
        assert(face_index(g) == n - 1) by {
            assert(n - 1 == 0 || n - 1 == 1 || n - 1 == 2 || n - 1 == 3 || n - 1 == 4 || n - 1 == 5);
        }
        assert forall|f: Face6| face_index(f) < n && (#[trigger] layout[face_index(f)]) is Some implies exists|i: int|
            0 <= i < p.len() && (#[trigger] p[i]).face == f by {
            crate::face::lemma_all_faces_indexed(f);
            if face_index(f) < n - 1 {
                let i = choose|i: int| 0 <= i < prev.len() && (#[trigger] prev[i]).face == f;
                assert(p[i] == prev[i]);
            } else {
                assert(f == g);
                assert(p[p.len() - 1].face == g);
            }
        }
    }
}

/// A box draws exactly the faces that have a `textureLayout` entry, each
/// textured by its own entry, in [`Face6::ALL`] order.
pub proof fn lemma_box_draws_its_laid_out_faces(shape: Shape)
    requires
        shape.kind == ShapeType::Box,
    ensures
        ({
            let p = spec_face_picks(shape);
            &&& forall|i: int| 0 <= i < p.len() ==> {
                &&& (#[trigger] p[i]).layout_face == p[i].face
                &&& shape.texture_layout[face_index(p[i].face)] == Some(p[i].layout)
            }
            &&& forall|i: int, j: int| 0 <= i < j < p.len() ==> face_index((#[trigger] p[i]).face) < face_index(
                (#[trigger] p[j]).face,
            )
            &&& forall|f: Face6| (#[trigger] shape.texture_layout[face_index(f)]) is Some ==> exists|i: int|
                0 <= i < p.len() && (#[trigger] p[i]).face == f
        }),
{
    lemma_box_picks_prefix(shape.texture_layout, 6);
    assert forall|f: Face6| (#[trigger] shape.texture_layout[face_index(f)]) is Some implies exists|i: int|
        0 <= i < spec_face_picks(shape).len() && (#[trigger] spec_face_picks(shape)[i]).face == f by {
        crate::face::lemma_all_faces_indexed(f);
    }
}

/// A quad draws at most its one plane.
pub proof fn lemma_quad_draws_its_plane(shape: Shape)
    requires
        shape.kind == ShapeType::Quad,
    ensures
        spec_face_picks(shape).len() <= 1,
        spec_face_picks(shape).len() == 1 ==> spec_face_picks(shape)[0].face == spec_quad_normal(shape),
        (spec_face_picks(shape).len() == 1) <==> (shape.texture_layout[face_index(spec_quad_normal(shape))] is Some
            || shape.texture_layout[face_index(Face6::Front)] is Some),
{
}

/// The signs of a stretch whose axes are negative where `negative` says.
pub open spec fn stretch_signs(negative: [bool; 3]) -> (int, int, int) {
    (if negative[0] { -1int } else { 1int }, if negative[1] { -1int } else { 1int }, if negative[2] {
        -1int
    } else {
        1int
    })
}

/// The winding a shape's faces are emitted with is the one under which
/// their triangles face outward: flipped exactly when an odd number of the
/// stretch axes is negative.
pub proof fn lemma_winding_flip_counts_negative_axes(negative: [bool; 3])
    ensures
        (spec_negative_axes(negative) % 2 == 1) == odd_negatives(stretch_signs(negative)),
        spec_negative_axes(negative) == (if negative[0] { 1int } else { 0int }) + (if negative[1] { 1int } else { 0int })
            + (if negative[2] { 1int } else { 0int }),
{
}

} // verus!
