use vstd::prelude::*;

use crate::skeleton::{has_text, text_views, Skeleton};
use crate::shape::ShapeType;
use crate::text::{
    lemma_bytes_lt_irreflexive, lemma_bytes_lt_total, lemma_bytes_lt_transitive, same_ignoring_ascii_case, text_eq,
    text_eq_ignore_ascii_case, text_less, text_lt, to_ascii_lower, ascii_lower,
};

verus! {

/// Counters of what one frame draws, over every model part.
#[derive(Debug, Clone, Copy, Default, PartialEq, Eq, Structural)]
pub struct FrameStats {
    pub vertices: u32,
    pub triangles: u32,
    pub bones: u32,
    pub draw_calls: u32,
}

/// The format's own ceiling: "models can have a maximum of 255 nodes".
pub const MAX_BONES: usize = 255;

/// The sizes of one drawn model part.
#[derive(Debug, Clone, Copy, PartialEq, Eq, Structural)]
pub struct PartSize {
    pub vertices: usize,
    /// Indices drawn with back faces culled.
    pub single_indices: usize,
    /// Indices drawn double-sided.
    pub double_indices: usize,
    pub bones: usize,
}

/// Why a set of model parts cannot be drawn.
#[derive(Debug, Clone, Copy, PartialEq, Eq, Structural)]
pub enum PartsError {
    /// There is no part at all.
    NoParts,
    /// A part has this many bones, more than [`MAX_BONES`].
    TooManyBones(usize),
}

/// Checks the parts to draw, given each part's bone count: there must be at
/// least one, and the first part with more than [`MAX_BONES`] bones is
/// refused.
pub fn check_parts(bone_counts: &Vec<usize>) -> (r: Result<(), PartsError>)
    ensures
        match r {
            Ok(()) => bone_counts@.len() > 0 && forall|i: int| 0 <= i < bone_counts@.len() ==> bone_counts@[i] <= MAX_BONES,
            Err(PartsError::NoParts) => bone_counts@.len() == 0,
            Err(PartsError::TooManyBones(b)) => bone_counts@.len() > 0 && exists|i: int|
                0 <= i < bone_counts@.len() && bone_counts@[i] == b && b > MAX_BONES && forall|j: int|
                    0 <= j < i ==> bone_counts@[j] <= MAX_BONES,
        },
{
    if bone_counts.len() == 0 {
        return Err(PartsError::NoParts);
    }
    let mut i: usize = 0;
    while i < bone_counts.len()
        invariant
            0 <= i <= bone_counts@.len(),
            forall|j: int| 0 <= j < i ==> bone_counts@[j] <= MAX_BONES,
        decreases bone_counts@.len() - i,
    {
        if bone_counts[i] > MAX_BONES {
            return Err(PartsError::TooManyBones(bone_counts[i]));
        }
        i = i + 1;
    }
    Ok(())
}

/// The draw calls of one part: one per non-empty index list.
pub open spec fn part_draws(p: PartSize) -> int {
    (if p.single_indices > 0 { 1int } else { 0int }) + (if p.double_indices > 0 { 1int } else { 0int })
}

/// Totals over the first `n` parts: vertices, triangles (a third of each
/// part's indices), bones and draw calls.
pub open spec fn part_totals(parts: Seq<PartSize>, n: int) -> (int, int, int, int)
    decreases n,
{
    if n <= 0 {
        (0, 0, 0, 0)
    } else {
        let (v, t, b, d) = part_totals(parts, n - 1);
        let p = parts[n - 1];
        (
            v + p.vertices,
            t + (p.single_indices + p.double_indices) / 3,
            b + p.bones,
            d + part_draws(p),
        )
    }
}

proof fn lemma_part_totals_grow(parts: Seq<PartSize>, i: int, n: int)
    requires
        0 <= i <= n <= parts.len(),
    ensures
        0 <= part_totals(parts, i).0 <= part_totals(parts, n).0,
        0 <= part_totals(parts, i).1 <= part_totals(parts, n).1,
        0 <= part_totals(parts, i).2 <= part_totals(parts, n).2,
        0 <= part_totals(parts, i).3 <= part_totals(parts, n).3,
    decreases n,
{
    if n > i {
        lemma_part_totals_grow(parts, i, n - 1);
    } else if n > 0 {
        lemma_part_totals_grow(parts, n - 1, n - 1);
    }
}

/// What one frame draws, over all parts. The totals must fit the `u32`
/// counters.
pub fn frame_stats(parts: &Vec<PartSize>) -> (r: FrameStats)
    requires
        part_totals(parts@, parts@.len() as int).0 <= u32::MAX,
        part_totals(parts@, parts@.len() as int).1 <= u32::MAX,
        part_totals(parts@, parts@.len() as int).2 <= u32::MAX,
        part_totals(parts@, parts@.len() as int).3 <= u32::MAX,
    ensures
        r.vertices == part_totals(parts@, parts@.len() as int).0,
        r.triangles == part_totals(parts@, parts@.len() as int).1,
        r.bones == part_totals(parts@, parts@.len() as int).2,
        r.draw_calls == part_totals(parts@, parts@.len() as int).3,
{
    let ghost n = parts@.len() as int;
    let mut stats = FrameStats { vertices: 0, triangles: 0, bones: 0, draw_calls: 0 };
    let mut i: usize = 0;
    while i < parts.len()
        invariant
            0 <= i <= parts@.len(),
            n == parts@.len(),
            part_totals(parts@, n).0 <= u32::MAX,
            part_totals(parts@, n).1 <= u32::MAX,
            part_totals(parts@, n).2 <= u32::MAX,
            part_totals(parts@, n).3 <= u32::MAX,
            stats.vertices == part_totals(parts@, i as int).0,
            stats.triangles == part_totals(parts@, i as int).1,
            stats.bones == part_totals(parts@, i as int).2,
            stats.draw_calls == part_totals(parts@, i as int).3,
        decreases parts@.len() - i,
    {
        proof {
            lemma_part_totals_grow(parts@, i + 1, n);
        }
        let p = parts[i];
        let triangles = ((p.single_indices as u128 + p.double_indices as u128) / 3) as u32;
        let mut draws: u32 = 0;
        if p.single_indices > 0 {
            draws = draws + 1;
        }
        if p.double_indices > 0 {
            draws = draws + 1;
        }
        stats = FrameStats {
            vertices: stats.vertices + p.vertices as u32,
            triangles: stats.triangles + triangles,
            bones: stats.bones + p.bones as u32,
            draw_calls: stats.draw_calls + draws,
        };
        i = i + 1;
    }
    stats
}

/// Where a model's animation clips live.
#[derive(Debug, Clone, Copy, PartialEq, Eq, Structural)]
pub enum AnimationsRoot {
    /// `<model dir>/../Animations`, the standard Hytale layout
    /// (`<asset>/Models/Model.blockymodel`, `<asset>/Animations/*.blockyanim`).
    Sibling,
    /// `<model dir>/Animations`.
    Local,
}

/// Picks the animation directory for a model.
///
/// `sibling_is_dir` is whether `<model dir>/../Animations` is a directory,
/// or `None` when the model directory has no parent; `local_is_dir` is
/// whether `<model dir>/Animations` is one. A model directory without a
/// parent has no animation root.
pub fn discover_animations_root(sibling_is_dir: Option<bool>, local_is_dir: bool) -> (r: Option<AnimationsRoot>)
    ensures
        r == match sibling_is_dir {
            None => None,
            Some(true) => Some(AnimationsRoot::Sibling),
            Some(false) => if local_is_dir {
                Some(AnimationsRoot::Local)
            } else {
                None
            },
        },
{
    let sibling = match sibling_is_dir {
        Some(s) => s,
        None => return None,
    };
    if sibling {
        return Some(AnimationsRoot::Sibling);
    }
    if local_is_dir {
        return Some(AnimationsRoot::Local);
    }
    None
}

/// The clip to start on: the first whose name or source path matches
/// `wanted` ignoring ASCII case, else the first clip.
///
/// Each clip is given as `(name, source)`.
pub fn initial_clip_index(clips: &Vec<(String, String)>, wanted: Option<&str>) -> (r: usize)
    ensures
        match wanted {
            Some(w) => {
                ||| r < clips@.len() && clip_matches(clips@[r as int], w@)
                    && forall|j: int| 0 <= j < r ==> !clip_matches(#[trigger] clips@[j], w@)
                ||| r == 0 && forall|j: int| 0 <= j < clips@.len() ==> !clip_matches(#[trigger] clips@[j], w@)
            },
            None => r == 0,
        },
{
    let w = match wanted {
        Some(w) => w,
        None => return 0,
    };
    assert(wanted == Some(w));
    let mut i: usize = 0;
    while i < clips.len()
        invariant
            0 <= i <= clips@.len(),
            wanted == Some(w),
            forall|j: int| 0 <= j < i ==> !clip_matches(#[trigger] clips@[j], w@),
        decreases clips@.len() - i,
    {
        let clip = &clips[i];
        let by_name = text_eq_ignore_ascii_case(clip.0.as_str(), w);
        let by_source = text_eq_ignore_ascii_case(clip.1.as_str(), w);
        assert(clips@[i as int] == *clip);
        if by_name || by_source {
            assert(clip_matches(clips@[i as int], w@));
            return i;
        }
        i = i + 1;
    }
    0
}

/// A clip `(name, source)` answers to `wanted`, ignoring ASCII case.
pub open spec fn clip_matches(clip: (String, String), wanted: Seq<char>) -> bool {
    same_ignoring_ascii_case(vstd::utf8::encode_utf8(clip.0@), vstd::utf8::encode_utf8(wanted))
        || same_ignoring_ascii_case(vstd::utf8::encode_utf8(clip.1@), vstd::utf8::encode_utf8(wanted))
}

/// Jumping to clip `index` wraps around the clip list; with no clips there
/// is nothing to select.
pub fn select_clip_index(index: usize, count: usize) -> (r: Option<usize>)
    ensures
        count == 0 ==> r is None,
        count > 0 ==> r == Some((index % count) as usize),
{
    if count == 0 {
        return None;
    }
    Some(index % count)
}

/// Stepping `delta` clips from `current`, wrapping at both ends.
pub fn step_clip_index(current: usize, delta: isize, count: usize) -> (r: Option<usize>)
    ensures
        count == 0 ==> r is None,
        count > 0 ==> r == Some(((current as int + delta as int) % count as int) as usize),
{
    if count == 0 {
        return None;
    }
    let sum: i128 = current as i128 + delta as i128;
    let m: i128 = count as i128;
    let rem: i128;
    if sum >= 0 {
        rem = sum % m;
    } else {
        let t: i128 = (-sum) % m;
        if t == 0 {
            rem = 0;
        } else {
            rem = m - t;
        }
        proof {
            let x = -(sum as int);
            let q = x / (m as int);
            vstd::arithmetic::div_mod::lemma_fundamental_div_mod(x, m as int);
            assert(x == m * q + t);
            if t == 0 {
                assert(sum as int == (-q) * m + 0) by (nonlinear_arith)
                    requires
                        x == m * q + t,
                        t == 0,
                        x == -(sum as int),
                ;
                vstd::arithmetic::div_mod::lemma_fundamental_div_mod_converse(sum as int, m as int, -q, 0);
            } else {
                assert(sum as int == (-q - 1) * m + (m - t)) by (nonlinear_arith)
                    requires
                        x == m * q + t,
                        x == -(sum as int),
                ;
                vstd::arithmetic::div_mod::lemma_fundamental_div_mod_converse(sum as int, m as int, -q - 1, (m - t) as int);
            }
        }
    }
    Some(rem as usize)
}

/// Where a model's texture was found.
#[derive(Debug, Clone, Copy, PartialEq, Eq, Structural)]
pub enum TextureChoice {
    /// One of the named candidates next to the model, in the order
    /// `Texture.png`, `<stem>_Texture.png`, `<stem>.png`.
    Candidate(usize),
    /// An entry of the `<stem>_Textures/` folder.
    TexturesDir(usize),
    /// An entry of the model's own folder.
    ModelDir(usize),
}

/// A file name (as UTF-8 bytes) whose extension is `png`, ignoring ASCII
/// case. The extension is what follows the last `.`, provided that dot is
/// not the name's first byte, as `Path::extension` reads it.
pub open spec fn has_png_extension(name: Seq<u8>) -> bool {
    exists|d: int|
        0 < d < name.len() && #[trigger] name[d] == 46u8 && (forall|k: int| d < k < name.len() ==> name[k] != 46u8)
            && same_ignoring_ascii_case(name.subrange(d + 1, name.len() as int), seq![112u8, 110u8, 103u8])
}

/// A file name with the extension `png`, ignoring ASCII case.
pub open spec fn is_png_name(name: Seq<char>) -> bool {
    has_png_extension(vstd::utf8::encode_utf8(name))
}

/// Name `a` comes before name `b`: it is smaller, or neither is smaller and
/// it is listed first.
pub open spec fn name_precedes(names: Seq<Seq<char>>, a: int, b: int) -> bool {
    text_lt(names[a], names[b]) || (!text_lt(names[b], names[a]) && a < b)
}

/// `i` is the least PNG name of `names` (the first listed among equals).
pub open spec fn is_first_png(names: Seq<Seq<char>>, i: int) -> bool {
    &&& 0 <= i < names.len()
    &&& is_png_name(names[i])
    &&& forall|j: int| 0 <= j < names.len() && j != i && is_png_name(#[trigger] names[j]) ==> name_precedes(names, i, j)
}

/// Some name of `names` is a PNG.
pub open spec fn has_png(names: Seq<Seq<char>>) -> bool {
    exists|i: int| 0 <= i < names.len() && is_png_name(#[trigger] names[i])
}

/// The texture search order: the first candidate that is a file; else the
/// least PNG in `<stem>_Textures/`; else the least PNG next to the model;
/// else nothing.
pub open spec fn spec_choose_texture(
    present: [bool; 3],
    textures_dir: Seq<Seq<char>>,
    model_dir: Seq<Seq<char>>,
) -> Option<TextureChoice> {
    if present[0] {
        Some(TextureChoice::Candidate(0))
    } else if present[1] {
        Some(TextureChoice::Candidate(1))
    } else if present[2] {
        Some(TextureChoice::Candidate(2))
    } else if has_png(textures_dir) {
        Some(TextureChoice::TexturesDir((choose|i: int| is_first_png(textures_dir, i)) as usize))
    } else if has_png(model_dir) {
        Some(TextureChoice::ModelDir((choose|i: int| is_first_png(model_dir, i)) as usize))
    } else {
        None
    }
}

/// Whether a file name has the extension `png`, ignoring ASCII case.
pub fn png_name(name: &str) -> (r: bool)
    ensures
        r == is_png_name(name@),
{
    let b = name.as_bytes();
    let n = b.len();
    let ghost bytes = b@;
    assert(bytes == vstd::utf8::encode_utf8(name@));
    if n < 5 {
        proof {
            if has_png_extension(bytes) {
                let d = choose|d: int|
                    0 < d < bytes.len() && #[trigger] bytes[d] == 46u8 && (forall|k: int| d < k < bytes.len() ==> bytes[k] != 46u8)
                        && same_ignoring_ascii_case(bytes.subrange(d + 1, bytes.len() as int), seq![112u8, 110u8, 103u8]);
                assert(bytes.subrange(d + 1, bytes.len() as int).len() == 3);
            }
        }
        return false;
    }
    let ok = b[n - 4] == 46 && to_ascii_lower(b[n - 3]) == 112 && to_ascii_lower(b[n - 2]) == 110
        && to_ascii_lower(b[n - 1]) == 103;
    proof {
        let pat = seq![112u8, 110u8, 103u8];
        let d = n - 4;
        let sub = bytes.subrange(d + 1, n as int);
        if ok {
            assert(sub[0] == bytes[n - 3] && sub[1] == bytes[n - 2] && sub[2] == bytes[n - 1]);
            assert(ascii_lower(pat[0]) == 112 && ascii_lower(pat[1]) == 110 && ascii_lower(pat[2]) == 103);
            assert(same_ignoring_ascii_case(sub, pat));
            assert forall|k: int| d < k < bytes.len() implies bytes[k] != 46u8 by {
                assert(ascii_lower(46u8) == 46u8);
            }
            assert(bytes[d as int] == 46u8);
        }
        if has_png_extension(bytes) {
            let e = choose|e: int|
                0 < e < bytes.len() && #[trigger] bytes[e] == 46u8 && (forall|k: int| e < k < bytes.len() ==> bytes[k] != 46u8)
                    && same_ignoring_ascii_case(bytes.subrange(e + 1, bytes.len() as int), pat);
            assert(bytes.subrange(e + 1, bytes.len() as int).len() == 3);
            assert(e == d);
            assert(ascii_lower(sub[0]) == ascii_lower(pat[0]));
            assert(ascii_lower(sub[1]) == ascii_lower(pat[1]));
            assert(ascii_lower(sub[2]) == ascii_lower(pat[2]));
            assert(sub[0] == bytes[n - 3] && sub[1] == bytes[n - 2] && sub[2] == bytes[n - 1]);
        }
    }
    ok
}

/// No name precedes itself, and no two names precede each other.
proof fn lemma_name_precedes_asymmetric(names: Seq<Seq<char>>, x: int, y: int)
    requires
        name_precedes(names, x, y),
    ensures
        !name_precedes(names, y, x),
{
    let ex = vstd::utf8::encode_utf8(names[x]);
    let ey = vstd::utf8::encode_utf8(names[y]);
    lemma_bytes_lt_irreflexive(ex);
    if text_lt(names[x], names[y]) && text_lt(names[y], names[x]) {
        lemma_bytes_lt_transitive(ex, ey, ex);
    }
}

/// The least PNG name is unique.
proof fn lemma_first_png_unique(names: Seq<Seq<char>>, i: int, k: int)
    requires
        is_first_png(names, i),
        is_first_png(names, k),
    ensures
        i == k,
{
    if i != k {
        assert(is_png_name(names[k]));
        assert(is_png_name(names[i]));
        assert(name_precedes(names, i, k));
        lemma_name_precedes_asymmetric(names, i, k);
    }
}

/// The least PNG among `names`, the first listed among equals.
fn first_png(names: &Vec<String>) -> (r: Option<usize>)
    ensures
        match r {
            Some(i) => is_first_png(text_views(names@), i as int),
            None => !has_png(text_views(names@)),
        },
{
    let ghost v = text_views(names@);
    let mut best: Option<usize> = None;
    let mut i: usize = 0;
    while i < names.len()
        invariant
            0 <= i <= names@.len(),
            v == text_views(names@),
            v.len() == names@.len(),
            match best {
                Some(b) => {
                    &&& 0 <= b < i
                    &&& is_png_name(v[b as int])
                    &&& forall|j: int| 0 <= j < i && j != b && is_png_name(#[trigger] v[j]) ==> name_precedes(v, b as int, j)
                },
                None => forall|j: int| 0 <= j < i ==> !is_png_name(#[trigger] v[j]),
            },
        decreases names@.len() - i,
    {
        assert(v[i as int] == names@[i as int]@);
        if png_name(names[i].as_str()) {
            match best {
                None => {
                    best = Some(i);
                },
                Some(b) => {
                    assert(v[b as int] == names@[b as int]@);
                    if text_less(names[i].as_str(), names[b].as_str()) {
                        proof {
                            let ei = vstd::utf8::encode_utf8(v[i as int]);
                            let eb = vstd::utf8::encode_utf8(v[b as int]);
                            assert forall|j: int| 0 <= j < i + 1 && j != i && is_png_name(#[trigger] v[j]) implies name_precedes(
                                v,
                                i as int,
                                j,
                            ) by {
                                if j != b {
                                    let ej = vstd::utf8::encode_utf8(v[j]);
                                    assert(name_precedes(v, b as int, j));
                                    if text_lt(v[b as int], v[j]) {
                                        lemma_bytes_lt_transitive(ei, eb, ej);
                                    } else if eb != ej {
                                        lemma_bytes_lt_total(eb, ej);
                                        lemma_bytes_lt_transitive(ei, eb, ej);
                                    }
                                }
                            }
                        }
                        best = Some(i);
                    }
                },
            }
        }
        i = i + 1;
    }
    proof {
        match best {
            Some(b) => {},
            None => {
                if has_png(v) {
                    let j = choose|j: int| 0 <= j < v.len() && is_png_name(#[trigger] v[j]);
                }
            },
        }
    }
    best
}

/// Chooses a model's texture. `present` says which of the candidates
/// `Texture.png`, `<stem>_Texture.png` and `<stem>.png` next to the model
/// are files; `textures_dir` and `model_dir` list the entry names of the
/// `<stem>_Textures/` folder and of the model's folder (empty when a folder
/// cannot be read).
pub fn choose_texture(present: [bool; 3], textures_dir: &Vec<String>, model_dir: &Vec<String>) -> (r: Option<TextureChoice>)
    ensures
        r == spec_choose_texture(present, text_views(textures_dir@), text_views(model_dir@)),
{
    if present[0] {
        return Some(TextureChoice::Candidate(0));
    }
    if present[1] {
        return Some(TextureChoice::Candidate(1));
    }
    if present[2] {
        return Some(TextureChoice::Candidate(2));
    }
    match first_png(textures_dir) {
        Some(i) => {
            proof {
                let t = text_views(textures_dir@);
                let c = choose|c: int| is_first_png(t, c);
                lemma_first_png_unique(t, i as int, c);
            }
            return Some(TextureChoice::TexturesDir(i));
        },
        None => {},
    }
    match first_png(model_dir) {
        Some(i) => {
            proof {
                let m = text_views(model_dir@);
                let c = choose|c: int| is_first_png(m, c);
                lemma_first_png_unique(m, i as int, c);
            }
            Some(TextureChoice::ModelDir(i))
        },
        None => None,
    }
}

/// Text `a` of `texts` comes before text `b` in a stable sort: it is
/// smaller, or neither is smaller and it came first.
pub open spec fn text_precedes(texts: Seq<String>, a: int, b: int) -> bool {
    text_lt(texts[a]@, texts[b]@) || (!text_lt(texts[b]@, texts[a]@) && a < b)
}

/// `order` lists every index of `texts` once, sorted by text, equal texts
/// keeping their original relative order.
pub open spec fn is_text_order(texts: Seq<String>, order: Seq<usize>) -> bool {
    &&& order.len() == texts.len()
    &&& forall|i: int| 0 <= i < order.len() ==> order[i] < texts.len()
    &&& forall|i: int, j: int| 0 <= i < j < order.len() ==> text_precedes(texts, order[i] as int, order[j] as int)
    &&& forall|k: usize| k < texts.len() ==> #[trigger] order.contains(k)
}

/// The order in which clips are listed: stably sorted by their source path.
pub fn source_order(sources: &Vec<String>) -> (r: Vec<usize>)
    ensures
        is_text_order(sources@, r@),
{
    let n = sources.len();
    let mut order: Vec<usize> = Vec::new();
    let mut i: usize = 0;
    while i < n
        invariant
            n == sources@.len(),
            0 <= i <= n,
            order@.len() == i,
            forall|p: int| 0 <= p < order@.len() ==> order@[p] < i,
            forall|p: int, q: int| 0 <= p < q < order@.len() ==> text_precedes(sources@, order@[p] as int, order@[q] as int),
            forall|k: usize| k < i ==> #[trigger] order@.contains(k),
        decreases n - i,
    {
        let text = sources[i].as_str();
        let ghost x = sources@[i as int]@;
        let mut j: usize = 0;
        while j < order.len() && !text_less(text, sources[order[j]].as_str())
            invariant
                n == sources@.len(),
                i < n,
                text@ == x,
                0 <= j <= order@.len(),
                forall|p: int| 0 <= p < order@.len() ==> order@[p] < i,
                forall|p: int| 0 <= p < j ==> !text_lt(x, #[trigger] sources@[order@[p] as int]@),
            decreases order@.len() - j,
        {
            j = j + 1;
        }
        let ghost old_order = order@;
        order.insert(j, i);
        proof {
            assert(order@ == old_order.insert(j as int, i));
            assert forall|p: int, q: int| 0 <= p < q < order@.len() implies text_precedes(
                sources@,
                order@[p] as int,
                order@[q] as int,
            ) by {
                if q < j {
                    assert(order@[p] == old_order[p] && order@[q] == old_order[q]);
                } else if q == j {
                    assert(order@[p] == old_order[p]);
                    assert(!text_lt(x, sources@[old_order[p] as int]@));
                } else if p < j {
                    assert(order@[p] == old_order[p] && order@[q] == old_order[q - 1]);
                } else if p == j {
                    let oj = old_order[j as int] as int;
                    let oq = old_order[q - 1] as int;
                    assert(order@[q] == old_order[q - 1]);
                    assert(text_lt(x, sources@[oj]@));
                    let ex = vstd::utf8::encode_utf8(x);
                    let ej = vstd::utf8::encode_utf8(sources@[oj]@);
                    let eq = vstd::utf8::encode_utf8(sources@[oq]@);
                    if q - 1 > j {
                        assert(text_precedes(sources@, oj, oq));
                        if text_lt(sources@[oj]@, sources@[oq]@) {
                            lemma_bytes_lt_transitive(ex, ej, eq);
                        } else if ej != eq {
                            lemma_bytes_lt_total(ej, eq);
                            lemma_bytes_lt_transitive(ex, ej, eq);
                        }
                    }
                    assert(text_lt(x, sources@[oq]@));
                } else {
                    assert(order@[p] == old_order[p - 1] && order@[q] == old_order[q - 1]);
                }
            }
            assert forall|k: usize| k < i + 1 implies #[trigger] order@.contains(k) by {
                if k == i {
                    assert(order@[j as int] == i);
                } else {
                    assert(old_order.contains(k));
                    let p = choose|p: int| 0 <= p < old_order.len() && old_order[p] == k;
                    if p < j {
                        assert(order@[p] == k);
                    } else {
                        assert(order@[p + 1] == k);
                    }
                }
            }
        }
        i = i + 1;
    }
    order
}

/// No text precedes itself, and no two texts precede each other.
proof fn lemma_text_precedes_asymmetric(texts: Seq<String>, x: int, y: int)
    requires
        text_precedes(texts, x, y),
    ensures
        !text_precedes(texts, y, x),
{
    let ex = vstd::utf8::encode_utf8(texts[x]@);
    let ey = vstd::utf8::encode_utf8(texts[y]@);
    lemma_bytes_lt_irreflexive(ex);
    if text_lt(texts[x]@, texts[y]@) && text_lt(texts[y]@, texts[x]@) {
        lemma_bytes_lt_transitive(ex, ey, ex);
    }
}

/// Two text orders of the same texts agree at `i` when they agree before it.
proof fn lemma_text_orders_agree_at(texts: Seq<String>, a: Seq<usize>, b: Seq<usize>, i: int)
    requires
        is_text_order(texts, a),
        is_text_order(texts, b),
        0 <= i < a.len(),
        forall|j: int| 0 <= j < i ==> a[j] == b[j],
    ensures
        a[i] == b[i],
{
    let x = a[i];
    let y = b[i];
    if x != y {
        assert(b.contains(x));
        let p = choose|p: int| 0 <= p < b.len() && b[p] == x;
        assert(a.contains(y));
        let q = choose|q: int| 0 <= q < a.len() && a[q] == y;
        if p < i {
            assert(a[p] == x);
            assert(text_precedes(texts, a[p] as int, a[i] as int));
            lemma_text_precedes_asymmetric(texts, x as int, x as int);
        } else if q < i {
            assert(b[q] == y);
            assert(text_precedes(texts, b[q] as int, b[i] as int));
            lemma_text_precedes_asymmetric(texts, y as int, y as int);
        } else {
            assert(text_precedes(texts, b[i] as int, b[p] as int));
            assert(text_precedes(texts, a[i] as int, a[q] as int));
            lemma_text_precedes_asymmetric(texts, x as int, y as int);
        }
    }
}

proof fn lemma_text_orders_agree_upto(texts: Seq<String>, a: Seq<usize>, b: Seq<usize>, n: int)
    requires
        is_text_order(texts, a),
        is_text_order(texts, b),
        0 <= n <= a.len(),
    ensures
        forall|j: int| 0 <= j < n ==> a[j] == b[j],
    decreases n,
{
    if n > 0 {
        lemma_text_orders_agree_upto(texts, a, b, n - 1);
        lemma_text_orders_agree_at(texts, a, b, n - 1);
    }
}

/// The clip listing order is determined by the clips' sources: there is
/// exactly one stable order of them.
pub proof fn lemma_text_order_is_unique(texts: Seq<String>, a: Seq<usize>, b: Seq<usize>)
    requires
        is_text_order(texts, a),
        is_text_order(texts, b),
    ensures
        a == b,
{
    lemma_text_orders_agree_upto(texts, a, b, a.len() as int);
    assert(a =~= b);
}

/// How many bones draw a box, how many a quad, and how many carry no shape.
pub open spec fn shape_tally<P>(bones: Seq<crate::skeleton::Bone<P>>, n: int) -> (int, int, int)
    decreases n,
{
    if n <= 0 {
        (0, 0, 0)
    } else {
        let (b, q, e) = shape_tally(bones, n - 1);
        match bones[n - 1].shape {
            Some(s) => if s.kind == ShapeType::Box {
                (b + 1, q, e)
            } else if s.kind == ShapeType::Quad {
                (b, q + 1, e)
            } else {
                (b, q, e)
            },
            None => (b, q, e + 1),
        }
    }
}

pub proof fn lemma_shape_tally_bounded<P>(bones: Seq<crate::skeleton::Bone<P>>, n: int)
    requires
        0 <= n,
    ensures
        0 <= shape_tally(bones, n).0 + shape_tally(bones, n).1 + shape_tally(bones, n).2 <= n,
        0 <= shape_tally(bones, n).0,
        0 <= shape_tally(bones, n).1,
        0 <= shape_tally(bones, n).2,
    decreases n,
{
    if n > 0 {
        lemma_shape_tally_bounded(bones, n - 1);
    }
}

impl<P> Skeleton<P> {
    /// Counts the bones drawing a box, drawing a quad, and carrying no shape.
    pub fn shape_counts(&self) -> (r: (usize, usize, usize))
        ensures
            (r.0 as int, r.1 as int, r.2 as int) == shape_tally(self.bones@, self.bones@.len() as int),
    {
        let mut boxes: usize = 0;
        let mut quads: usize = 0;
        let mut empty: usize = 0;
        let mut i: usize = 0;
        while i < self.bones.len()
            invariant
                0 <= i <= self.bones@.len(),
                (boxes as int, quads as int, empty as int) == shape_tally(self.bones@, i as int),
            decreases self.bones@.len() - i,
        {
            proof {
                lemma_shape_tally_bounded(self.bones@, i as int);
            }
            match &self.bones[i].shape {
                Some(s) => match s.kind {
                    ShapeType::Box => {
                        boxes = boxes + 1;
                    },
                    ShapeType::Quad => {
                        quads = quads + 1;
                    },
                    _ => {},
                },
                None => {
                    empty = empty + 1;
                },
            }
            i = i + 1;
        }
        (boxes, quads, empty)
    }

    /// The names shared by several bones, each listed once, in the order the
    /// names first occur.
    pub fn shared_names(&self) -> (r: Vec<String>)
        ensures
            forall|s: Seq<char>| #[trigger] has_text(r@, s) <==> name_is_shared(self.bones@, s),
            forall|p: int, q: int| 0 <= p < q < r@.len() ==> r@[p]@ != r@[q]@,
            forall|p: int, q: int| 0 <= p < q < r@.len() ==> occurs_first(self.bones@, r@[p]@, r@[q]@),
    {
        let n = self.bones.len();
        let mut out: Vec<String> = Vec::new();
        let mut i: usize = 0;
        while i < n
            invariant
                n == self.bones@.len(),
                0 <= i <= n,
                forall|s: Seq<char>| #[trigger] has_text(out@, s) <==> (name_is_shared(self.bones@, s)
                    && exists|k: int| 0 <= k < i && #[trigger] self.bones@[k].name@ == s),
                forall|p: int, q: int| 0 <= p < q < out@.len() ==> out@[p]@ != out@[q]@,
                forall|p: int, q: int| 0 <= p < q < out@.len() ==> occurs_first(self.bones@, out@[p]@, out@[q]@),
            decreases n - i,
        {
            let name = self.bones[i].name.as_str();
            let ghost x = self.bones@[i as int].name@;
            // Seen before?
            let mut seen = false;
            let mut j: usize = 0;
            while j < i
                invariant
                    0 <= j <= i < n,
                    n == self.bones@.len(),
                    name@ == x,
                    seen <==> exists|k: int| 0 <= k < j && #[trigger] self.bones@[k].name@ == x,
                decreases i - j,
            {
                if text_eq(self.bones[j].name.as_str(), name) {
                    seen = true;
                }
                j = j + 1;
            }
            // Seen again later?
            let mut again = false;
            let mut k: usize = i + 1;
            while k < n
                invariant
                    i < k <= n,
                    n == self.bones@.len(),
                    name@ == x,
                    again <==> exists|m: int| i < m < k && #[trigger] self.bones@[m].name@ == x,
                decreases n - k,
            {
                if text_eq(self.bones[k].name.as_str(), name) {
                    again = true;
                }
                k = k + 1;
            }
            let ghost old_out = out@;
            if !seen && again {
                out.push(self.bones[i].name.clone());
            }
            proof {
                assert forall|s: Seq<char>| #[trigger] has_text(out@, s) <==> (name_is_shared(self.bones@, s)
                    && exists|k: int| 0 <= k < i + 1 && #[trigger] self.bones@[k].name@ == s) by {
                    if has_text(out@, s) && !has_text(old_out, s) {
                        let m = choose|m: int| 0 <= m < out@.len() && #[trigger] out@[m]@ == s;
                        if m < old_out.len() {
                            assert(old_out[m] == out@[m]);
                        }
                        let m2 = choose|m2: int| i < m2 < n && #[trigger] self.bones@[m2].name@ == x;
                        assert(self.bones@[i as int].name@ == s);
                        assert(name_is_shared(self.bones@, s));
                    }
                    if has_text(old_out, s) {
                        let m = choose|m: int| 0 <= m < old_out.len() && #[trigger] old_out[m]@ == s;
                        assert(out@[m] == old_out[m]);
                    }
                    if name_is_shared(self.bones@, s) && (exists|k: int| 0 <= k < i + 1 && #[trigger] self.bones@[k].name@ == s)
                        && !(exists|k: int| 0 <= k < i && #[trigger] self.bones@[k].name@ == s) {
                        assert(s == x);
                        assert(!seen);
                        let (a, b) = choose|a: int, b: int| 0 <= a < b < n && #[trigger] self.bones@[a].name@ == s && #[trigger] self.bones@[b].name@ == s;
                        assert(a >= i);
                        if a == i {
                            assert(again);
                        } else {
                            assert(again);
                        }
                        assert(out@[out@.len() - 1]@ == s);
                    }
                }
                assert forall|p: int, q: int| 0 <= p < q < out@.len() implies out@[p]@ != out@[q]@ by {
                    if q == old_out.len() {
                        assert(out@[q]@ == x);
                        assert(out@[p] == old_out[p]);
                        if old_out[p]@ == x {
                            assert(has_text(old_out, x));
                        }
                    } else {
                        assert(out@[p] == old_out[p] && out@[q] == old_out[q]);
                    }
                }
                assert forall|p: int, q: int| 0 <= p < q < out@.len() implies occurs_first(
                    self.bones@,
                    out@[p]@,
                    out@[q]@,
                ) by {
                    if q == old_out.len() {
                        assert(out@[q]@ == x);
                        assert(out@[p] == old_out[p]);
                        assert(has_text(old_out, old_out[p]@));
                        let k = choose|k: int| 0 <= k < i && #[trigger] self.bones@[k].name@ == old_out[p]@;
                        assert forall|b: int| 0 <= b < self.bones@.len() && #[trigger] self.bones@[b].name@ == x implies exists|a: int|
                            0 <= a < b && #[trigger] self.bones@[a].name@ == old_out[p]@ by {
                            if b < i {
                                assert(seen);
                            }
                            assert(self.bones@[k].name@ == old_out[p]@);
                        }
                    } else {
                        assert(out@[p] == old_out[p] && out@[q] == old_out[q]);
                    }
                }
            }
            i = i + 1;
        }
        out
    }
}

/// Every bone carrying `t` comes after some bone carrying `s`: `s` first
/// occurs before `t` does.
pub open spec fn occurs_first<P>(bones: Seq<crate::skeleton::Bone<P>>, s: Seq<char>, t: Seq<char>) -> bool {
    forall|b: int| 0 <= b < bones.len() && #[trigger] bones[b].name@ == t ==> exists|a: int| 0 <= a < b && #[trigger] bones[a].name@ == s
}

/// Several bones carry `name`.
pub open spec fn name_is_shared<P>(bones: Seq<crate::skeleton::Bone<P>>, name: Seq<char>) -> bool {
    exists|a: int, b: int| 0 <= a < b < bones.len() && #[trigger] bones[a].name@ == name && #[trigger] bones[b].name@ == name
}

} // verus!
