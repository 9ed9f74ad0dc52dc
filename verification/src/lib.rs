//! The structural core of Hytale's Blockbench asset formats,
//! `.blockymodel` (model) and `.blockyanim` (animation): face naming, shape
//! descriptors, keyframe selection and interpolation plans, skeleton
//! flattening and name binding, face generation, UV layout and mesh
//! topology.
//!
//! Geometry and keyframe values stay with the caller; this crate decides
//! which bones, faces, corners and keyframes they flow through. Keyframe
//! times enter as ordered integer keys.

mod anim;
mod face;
mod mesh;
mod playback;
mod player;
mod shape;
mod skeleton;
mod text;

pub use anim::{
    argmax, argmin, bracket, default_format_version, last_key_at_or_before, neighbour_after, neighbour_before,
    rotation_plan, sort_order, spline_blend, spline_plan, time_key, time_sort_key, Blend, Bracket, Interpolation, KeyRef,
    RotationPlan, SplinePlan, ToVek,
};
pub use face::Face6;
pub use mesh::{
    corner_signs, extent_axes, negative_axes, quad_triangles, shape_face_picks, uv_dims_axes,
    uv_frame, winding_flipped, FacePick, Mesh, Quad, UvFrame,
};
pub use playback::{command_for_key, Button, CameraDrag, Command, Effect, Key, Playback, Pointer};
pub use player::{
    choose_texture, discover_animations_root, initial_clip_index, png_name, select_clip_index,
    check_parts, frame_stats, source_order, step_clip_index, PartSize, PartsError, TextureChoice,
    MAX_BONES,
    AnimationsRoot, FrameStats,
};
pub use shape::{shown, Mirror, ShadingMode, Shape, ShapeSettings, ShapeType, TextureFace};
pub use skeleton::{BlockyModel, Bone, BoneFace, Node, Skeleton};
pub use text::{text_eq, text_eq_ignore_ascii_case, text_less};
