use vstd::prelude::*;

use crate::face::{face_from_name, face_index, Face6};
use crate::text::text_eq;

verus! {

/// `shape.type`.
#[derive(Debug, Clone, Copy, PartialEq, Eq, Structural)]
pub enum ShapeType {
    Box,
    Quad,
    /// Skeleton / attachment point with no geometry (`"none"` on the wire).
    Empty,
    /// Any other `type` string; also what a missing `type` means.
    Unknown,
}

impl Default for ShapeType {
    fn default() -> (r: Self)
        ensures
            r == ShapeType::Unknown,
    {
        ShapeType::Unknown
    }
}

/// How a shape should be lit.
#[derive(Debug, Clone, Copy, PartialEq, Eq, Structural)]
pub enum ShadingMode {
    /// Unlit: the texture is used as-is. Hytale's own assets are all `flat`.
    Flat,
    /// Directional diffuse lighting.
    Standard,
    /// Unlit, explicitly fully bright.
    Fullbright,
    /// Unlit; the game reflects an environment map here.
    Reflective,
}

impl Default for ShadingMode {
    fn default() -> (r: Self)
        ensures
            r == ShadingMode::Flat,
    {
        ShadingMode::Flat
    }
}

impl ShadingMode {
    /// Whether fragments of this shape receive lighting. Only `standard`
    /// shapes do; every other mode shows the texture as-is.
    pub fn is_lit(self) -> (r: bool)
        ensures
            r == (self == ShadingMode::Standard),
    {
        match self {
            ShadingMode::Standard => true,
            _ => false,
        }
    }
}

/// Per-axis UV mirroring. `mirror.x = true` makes the rectangle grow *left*
/// from its offset.
#[derive(Debug, Clone, Copy, Default, PartialEq, Eq, Structural)]
pub struct Mirror {
    pub x: bool,
    pub y: bool,
}

/// One face's entry in `textureLayout`, as far as the layout rules read it.
/// The pixel offset of the rectangle travels with the caller's geometry data.
#[derive(Debug, Clone, Copy, PartialEq, Eq, Structural)]
pub struct TextureFace {
    pub mirror: Mirror,
    /// The authored rotation in whole degrees (`0 | 90 | 180 | 270` in
    /// practice), before normalisation.
    pub angle: i32,
    /// Composited instead of alpha-tested.
    pub transparent: bool,
    pub lock_uvs: bool,
}

impl TextureFace {
    /// Normalized rotation in degrees, forced into `0..360`.
    pub fn angle_deg(&self) -> (r: i32)
        ensures
            r == self.angle as int % 360,
            0 <= r < 360,
    {
        let a = self.angle;
        let m = a % 360;
        let r = (m + 360) % 360;
        assert(r == a as int % 360) by (nonlinear_arith)
            requires
                m == a as int - 360 * (a as int / 360) || m == a as int - 360 * (a as int / 360) - 360,
                -360 < m < 360,
                r == (m + 360) as int % 360,
        ;
        r
    }
}

/// `shape.settings`, without the size (which is geometry).
#[derive(Debug)]
pub struct ShapeSettings {
    /// Quads only: `"+X" | "-X" | "+Y" | "-Y" | "+Z" | "-Z"` (or a face name).
    pub normal: Option<String>,
    /// Attachment marker: merge onto the main model's bone of the same name.
    pub is_piece: bool,
    /// Editor-only hint about how the node tree was authored.
    pub is_static_box: bool,
}

/// A copy of an optional string.
pub fn copy_opt_string(o: &Option<String>) -> (r: Option<String>)
    ensures
        r == *o,
{
    match o {
        Some(s) => Some(s.clone()),
        None => None,
    }
}

impl Clone for ShapeSettings {
    fn clone(&self) -> (r: Self)
        ensures
            r == *self,
    {
        ShapeSettings {
            normal: copy_opt_string(&self.normal),
            is_piece: self.is_piece,
            is_static_box: self.is_static_box,
        }
    }
}

/// A node's geometry descriptor: a box, a flat quad, or nothing at all.
///
/// The numeric parts (offset, stretch, size, pixel offsets) are geometry and
/// are carried by the caller; this holds what the face, visibility and
/// shading rules read.
#[derive(Debug)]
pub struct Shape {
    pub kind: ShapeType,
    pub settings: ShapeSettings,
    /// Per-face UV entries, indexed by [`Face6::index`]. A face is only drawn
    /// if it has an entry here.
    pub texture_layout: [Option<TextureFace>; 6],
    pub visible: Option<bool>,
    pub double_sided: Option<bool>,
    pub shading_mode: Option<String>,
}

impl Clone for Shape {
    fn clone(&self) -> (r: Self)
        ensures
            r == *self,
    {
        Shape {
            kind: self.kind,
            settings: self.settings.clone(),
            texture_layout: self.texture_layout,
            visible: self.visible,
            double_sided: self.double_sided,
            shading_mode: copy_opt_string(&self.shading_mode),
        }
    }
}

/// The plane a quad lies in: its parsed `settings.normal`, else `+Z`.
pub open spec fn spec_quad_normal(shape: Shape) -> Face6 {
    match shape.settings.normal {
        Some(n) => match face_from_name(n@) {
            Some(f) => f,
            None => Face6::Front,
        },
        None => Face6::Front,
    }
}

/// The shading mode a `shadingMode` string selects; anything unknown is flat.
pub open spec fn spec_shading_mode(mode: Option<String>) -> ShadingMode {
    match mode {
        Some(m) => if m@ == "standard"@ {
            ShadingMode::Standard
        } else if m@ == "fullbright"@ {
            ShadingMode::Fullbright
        } else if m@ == "reflective"@ {
            ShadingMode::Reflective
        } else {
            ShadingMode::Flat
        },
        None => ShadingMode::Flat,
    }
}

/// A shape's own visibility: its `visible` flag, visible when absent.
pub open spec fn spec_is_visible(shape: Shape) -> bool {
    match shape.visible {
        Some(v) => v,
        None => true,
    }
}

/// Whether a bone is drawn: the animated visibility when a clip sets it,
/// else its shape's own flag; a bone without a shape is visible.
pub open spec fn spec_shown(animated: Option<bool>, shape: Option<Shape>) -> bool {
    match animated {
        Some(v) => v,
        None => match shape {
            Some(s) => spec_is_visible(s),
            None => true,
        },
    }
}

/// Whether a bone with this shape is drawn, given the visibility a clip
/// sampled for it (`None` when the clip sets none).
pub fn shown(animated: Option<bool>, shape: Option<&Shape>) -> (r: bool)
    ensures
        r == spec_shown(animated, match shape {
            Some(s) => Some(*s),
            None => None,
        }),
{
    match animated {
        Some(v) => v,
        None => match shape {
            Some(s) => s.is_visible(),
            None => true,
        },
    }
}

/// Whether a shape kind produces triangles.
pub open spec fn spec_has_geometry(kind: ShapeType) -> bool {
    kind == ShapeType::Box || kind == ShapeType::Quad
}

impl Shape {
    pub fn kind(&self) -> (r: ShapeType)
        ensures
            r == self.kind,
    {
        self.kind
    }

    /// `true` when this shape produces triangles.
    pub fn has_geometry(&self) -> (r: bool)
        ensures
            r == spec_has_geometry(self.kind),
    {
        match self.kind {
            ShapeType::Box | ShapeType::Quad => true,
            _ => false,
        }
    }

    /// The `settings.normal` plane for a quad. Defaults to `+Z`.
    pub fn quad_normal(&self) -> (r: Face6)
        ensures
            r == spec_quad_normal(*self),
    {
        match &self.settings.normal {
            Some(n) => match Face6::from_name(n.as_str()) {
                Some(f) => f,
                None => Face6::Front,
            },
            None => Face6::Front,
        }
    }

    pub fn is_visible(&self) -> (r: bool)
        ensures
            r == spec_is_visible(*self),
    {
        match self.visible {
            Some(v) => v,
            None => true,
        }
    }

    pub fn is_double_sided(&self) -> (r: bool)
        ensures
            r == match self.double_sided {
                Some(v) => v,
                None => false,
            },
    {
        match self.double_sided {
            Some(v) => v,
            None => false,
        }
    }

    pub fn shading_mode(&self) -> (r: ShadingMode)
        ensures
            r == spec_shading_mode(self.shading_mode),
    {
        match &self.shading_mode {
            Some(m) => {
                if text_eq(m.as_str(), "standard") {
                    ShadingMode::Standard
                } else if text_eq(m.as_str(), "fullbright") {
                    ShadingMode::Fullbright
                } else if text_eq(m.as_str(), "reflective") {
                    ShadingMode::Reflective
                } else {
                    ShadingMode::Flat
                }
            },
            None => ShadingMode::Flat,
        }
    }

    /// Looks up a face's texture layout.
    ///
    /// Quads only ever author `front`, and Hytale's renderer falls back to
    /// it when the natural face has no layout, so callers should use
    /// [`Shape::quad_normal`] plus this rather than assuming an entry exists.
    pub fn layout(&self, face: Face6) -> (r: Option<&TextureFace>)
        ensures
            match r {
                Some(t) => self.texture_layout[face_index(face)] == Some(*t),
                None => self.texture_layout[face_index(face)] is None,
            },
    {
        let i = face.index();
        match &self.texture_layout[i] {
            Some(t) => Some(t),
            None => None,
        }
    }
}

/// A shape is lit exactly when its `shadingMode` says `standard`; a shape
/// that names no mode, or one the format does not know, is flat.
pub proof fn lemma_only_standard_is_lit(mode: Option<String>)
    ensures
        (spec_shading_mode(mode) == ShadingMode::Standard) <==> (mode matches Some(m) && m@ == "standard"@),
        (mode matches Some(m) && m@ == "fullbright"@) ==> spec_shading_mode(mode) == ShadingMode::Fullbright,
        (mode matches Some(m) && m@ == "reflective"@) ==> spec_shading_mode(mode) == ShadingMode::Reflective,
        mode is None ==> spec_shading_mode(mode) == ShadingMode::Flat,
{
    reveal_strlit("standard");
    reveal_strlit("fullbright");
    reveal_strlit("reflective");
    assert("standard"@ != "fullbright"@) by {
        assert("standard"@.len() != "fullbright"@.len());
    }
    assert("standard"@ != "reflective"@) by {
        assert("standard"@[0] != "reflective"@[0]);
    }
    assert("fullbright"@ != "reflective"@) by {
        assert("fullbright"@[0] != "reflective"@[0]);
    }
}

} // verus!
