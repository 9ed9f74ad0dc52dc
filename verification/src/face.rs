use vstd::prelude::*;

use crate::text::text_eq;

verus! {

/// The six axis-aligned faces of a block, using Hytale's own naming.
///
/// `Front` is **+Z**: Hytale's `front` is Blockbench's `south`.
#[derive(Debug, Clone, Copy, PartialEq, Eq, Structural, Hash)]
pub enum Face6 {
    Right,
    Left,
    Top,
    Bottom,
    Front,
    Back,
}

/// The `textureLayout` key of a face.
pub open spec fn face_name(f: Face6) -> Seq<char> {
    match f {
        Face6::Right => "right"@,
        Face6::Left => "left"@,
        Face6::Top => "top"@,
        Face6::Bottom => "bottom"@,
        Face6::Front => "front"@,
        Face6::Back => "back"@,
    }
}

/// The face a `settings.normal` / `textureLayout` key denotes, if any.
pub open spec fn face_from_name(s: Seq<char>) -> Option<Face6> {
    if s == "right"@ || s == "+X"@ {
        Some(Face6::Right)
    } else if s == "left"@ || s == "-X"@ {
        Some(Face6::Left)
    } else if s == "top"@ || s == "+Y"@ {
        Some(Face6::Top)
    } else if s == "bottom"@ || s == "-Y"@ {
        Some(Face6::Bottom)
    } else if s == "front"@ || s == "+Z"@ {
        Some(Face6::Front)
    } else if s == "back"@ || s == "-Z"@ {
        Some(Face6::Back)
    } else {
        None
    }
}

/// The outward normal of a face as a unit axis vector (right-handed,
/// +Y up, +Z forward).
pub open spec fn face_normal(f: Face6) -> [i8; 3] {
    match f {
        Face6::Right => [1, 0, 0],
        Face6::Left => [-1i8, 0, 0],
        Face6::Top => [0, 1, 0],
        Face6::Bottom => [0, -1i8, 0],
        Face6::Front => [0, 0, 1],
        Face6::Back => [0, 0, -1i8],
    }
}

/// Position of a face in [`Face6::ALL`].
pub open spec fn face_index(f: Face6) -> int {
    match f {
        Face6::Right => 0,
        Face6::Left => 1,
        Face6::Top => 2,
        Face6::Bottom => 3,
        Face6::Front => 4,
        Face6::Back => 5,
    }
}

impl Face6 {
    /// All six faces, in the order the official Blockbench exporter emits them.
    pub const ALL: [Face6; 6] = [
        Face6::Right,
        Face6::Left,
        Face6::Top,
        Face6::Bottom,
        Face6::Front,
        Face6::Back,
    ];

    /// Position of this face in [`Face6::ALL`].
    pub fn index(self) -> (r: usize)
        ensures
            r == face_index(self),
    {
        match self {
            Face6::Right => 0,
            Face6::Left => 1,
            Face6::Top => 2,
            Face6::Bottom => 3,
            Face6::Front => 4,
            Face6::Back => 5,
        }
    }

    /// The outward normal in model space as a unit axis vector.
    pub fn normal_axis(self) -> (r: [i8; 3])
        ensures
            r == face_normal(self),
    {
        match self {
            Face6::Right => [1, 0, 0],
            Face6::Left => [-1i8, 0, 0],
            Face6::Top => [0, 1, 0],
            Face6::Bottom => [0, -1i8, 0],
            Face6::Front => [0, 0, 1],
            Face6::Back => [0, 0, -1i8],
        }
    }

    /// The `textureLayout` key for this face.
    pub fn name(self) -> (r: &'static str)
        ensures
            r@ == face_name(self),
    {
        match self {
            Face6::Right => "right",
            Face6::Left => "left",
            Face6::Top => "top",
            Face6::Bottom => "bottom",
            Face6::Front => "front",
            Face6::Back => "back",
        }
    }

    /// Parses a `settings.normal` / `textureLayout` key.
    pub fn from_name(name: &str) -> (r: Option<Face6>)
        ensures
            r == face_from_name(name@),
    {
        if text_eq(name, "right") || text_eq(name, "+X") {
            Some(Face6::Right)
        } else if text_eq(name, "left") || text_eq(name, "-X") {
            Some(Face6::Left)
        } else if text_eq(name, "top") || text_eq(name, "+Y") {
            Some(Face6::Top)
        } else if text_eq(name, "bottom") || text_eq(name, "-Y") {
            Some(Face6::Bottom)
        } else if text_eq(name, "front") || text_eq(name, "+Z") {
            Some(Face6::Front)
        } else if text_eq(name, "back") || text_eq(name, "-Z") {
            Some(Face6::Back)
        } else {
            None
        }
    }
}

/// Every face's name parses back to that face.
pub proof fn lemma_from_name_inverts_name(f: Face6)
    ensures
        face_from_name(face_name(f)) == Some(f),
{
    reveal_strlit("right");
    reveal_strlit("left");
    reveal_strlit("top");
    reveal_strlit("bottom");
    reveal_strlit("front");
    reveal_strlit("back");
    reveal_strlit("+X");
    reveal_strlit("-X");
    reveal_strlit("+Y");
    reveal_strlit("-Y");
    reveal_strlit("+Z");
    reveal_strlit("-Z");
    let s = face_name(f);
    assert(s.len() >= 3);
    assert(s != "+X"@ && s != "-X"@ && s != "+Y"@ && s != "-Y"@ && s != "+Z"@ && s != "-Z"@);
    if f != Face6::Right {
        assert(s != "right"@) by {
            if s.len() == 5 {
                assert(s[0] != "right"@[0]);
            }
        }
    }
    if f != Face6::Left {
        assert(s != "left"@) by {
            if s.len() == 4 {
                assert(s[0] != "left"@[0]);
            }
        }
    }
    if f != Face6::Top {
        assert(s != "top"@);
    }
    if f != Face6::Bottom {
        assert(s != "bottom"@);
    }
    if f != Face6::Front {
        assert(s != "front"@) by {
            if s.len() == 5 {
                assert(s[0] != "front"@[0]);
            }
        }
    }
}

/// Distinct faces have distinct names.
pub proof fn lemma_face_names_distinct(f: Face6, g: Face6)
    requires
        f != g,
    ensures
        face_name(f) != face_name(g),
{
    lemma_from_name_inverts_name(f);
    lemma_from_name_inverts_name(g);
}

/// [`Face6::ALL`] lists every face exactly once, at its index.
pub proof fn lemma_all_faces_indexed(f: Face6)
    ensures
        0 <= face_index(f) < 6,
        Face6::ALL[face_index(f)] == f,
{
}

/// The signed-axis spellings name the faces by their normals: `+X` is the
/// face whose outward normal is `+X`, `-Y` the one whose normal is `-Y`,
/// and so on; and each face name (`right`, `top`, `front`, ...) denotes the
/// same face as its axis spelling.
pub proof fn lemma_axis_names_match_normals()
    ensures
        face_from_name("+X"@) == Some(Face6::Right),
        face_from_name("-X"@) == Some(Face6::Left),
        face_from_name("+Y"@) == Some(Face6::Top),
        face_from_name("-Y"@) == Some(Face6::Bottom),
        face_from_name("+Z"@) == Some(Face6::Front),
        face_from_name("-Z"@) == Some(Face6::Back),
        face_normal(Face6::Right)[0] == 1 && face_normal(Face6::Left)[0] == -1,
        face_normal(Face6::Top)[1] == 1 && face_normal(Face6::Bottom)[1] == -1,
        face_normal(Face6::Front)[2] == 1 && face_normal(Face6::Back)[2] == -1,
        face_from_name("right"@) == face_from_name("+X"@) && face_from_name("left"@) == face_from_name("-X"@),
        face_from_name("top"@) == face_from_name("+Y"@) && face_from_name("bottom"@) == face_from_name("-Y"@),
        face_from_name("front"@) == face_from_name("+Z"@) && face_from_name("back"@) == face_from_name("-Z"@),
{
    reveal_strlit("+X");
    reveal_strlit("-X");
    reveal_strlit("+Y");
    reveal_strlit("-Y");
    reveal_strlit("+Z");
    reveal_strlit("-Z");
    reveal_strlit("right");
    reveal_strlit("left");
    reveal_strlit("top");
    reveal_strlit("bottom");
    reveal_strlit("front");
    reveal_strlit("back");
    let names = seq!["right"@, "+X"@, "left"@, "-X"@, "top"@, "+Y"@, "bottom"@, "-Y"@, "front"@, "+Z"@, "back"@, "-Z"@];
    assert forall|i: int, j: int| 0 <= i < j < 12 implies #[trigger] names[i] != #[trigger] names[j] by {
        if names[i].len() == names[j].len() && names[i][0] == names[j][0] {
            assert(names[i][1] != names[j][1]);
        }
    }
    assert(names[1] != names[0]);
    assert(names[3] != names[0] && names[3] != names[1] && names[3] != names[2]);
    assert(names[5] != names[0] && names[5] != names[1] && names[5] != names[2] && names[5] != names[3] && names[5] != names[4]);
    assert(names[7] != names[0] && names[7] != names[1] && names[7] != names[2] && names[7] != names[3] && names[7] != names[4]
        && names[7] != names[5] && names[7] != names[6]);
    assert(forall|k: int| 0 <= k < 9 ==> names[9] != #[trigger] names[k]);
    assert(forall|k: int| 0 <= k < 11 ==> names[11] != #[trigger] names[k]);
}

} // verus!
