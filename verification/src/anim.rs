use vstd::prelude::*;

verus! {

/// `interpolationType`. A missing value means `linear`; any value the
/// format does not name is read as `step`.
#[derive(Debug, Clone, Copy, PartialEq, Eq, Structural)]
pub enum Interpolation {
    Linear,
    Smooth,
    /// Not produced by the Hytale plugin, but Blockbench understands it.
    Step,
}

impl Default for Interpolation {
    fn default() -> (r: Self)
        ensures
            r == Interpolation::Linear,
    {
        Interpolation::Linear
    }
}

/// Conversion of a keyframe's wire value into the value type the sampler
/// interpolates, so one sampler serves every channel without allocating.
pub trait ToVek {
    type Out;

    fn to_vek(self) -> Self::Out;
}

/// The `formatVersion` a `.blockyanim` document has when it names none.
/// Every clip in the wild is version 1.
pub fn default_format_version() -> (r: u32)
    ensures
        r == 1,
{
    1
}

// ---------------------------------------------------------------------------
// Time keys
// ---------------------------------------------------------------------------

/// The sign-magnitude value of an IEEE-754 single's bit pattern: the order
/// of these values is the order of the (non-NaN) numbers, and both zeros
/// share the value 0.
pub open spec fn spec_time_key(bits: u32) -> int {
    if bits >= 0x8000_0000 {
        -(bits - 0x8000_0000)
    } else {
        bits as int
    }
}

/// The key of `total_cmp`'s total order: like [`spec_time_key`], except that
/// every negative pattern (negative zero included) moves one step down.
pub open spec fn spec_time_sort_key(bits: u32) -> int {
    if bits >= 0x8000_0000 {
        -(bits - 0x8000_0000) - 1
    } else {
        bits as int
    }
}

/// The ordered key of a keyframe time, given its IEEE-754 bit pattern:
/// comparing keys compares the times as `<` does.
pub fn time_key(bits: u32) -> (r: i64)
    ensures
        r == spec_time_key(bits),
{
    if bits >= 0x8000_0000 {
        -((bits - 0x8000_0000) as i64)
    } else {
        bits as i64
    }
}

/// The sort key of a keyframe time, given its IEEE-754 bit pattern:
/// comparing keys compares the times as `total_cmp` does.
pub fn time_sort_key(bits: u32) -> (r: i64)
    ensures
        r == spec_time_sort_key(bits),
{
    if bits >= 0x8000_0000 {
        -((bits - 0x8000_0000) as i64) - 1
    } else {
        bits as i64
    }
}

/// Sort keys refine time keys: whatever `total_cmp` puts strictly first is
/// never later under `<`, and times that `<` tells apart are sorted the same
/// way.
pub proof fn lemma_sort_key_refines_time_key(a: u32, b: u32)
    ensures
        spec_time_key(a) < spec_time_key(b) ==> spec_time_sort_key(a) < spec_time_sort_key(b),
        spec_time_sort_key(a) < spec_time_sort_key(b) ==> spec_time_key(a) <= spec_time_key(b),
{
}

/// The order of two (non-NaN) IEEE-754 singles, read from their bit
/// patterns: the sign bit and the magnitude below it. Positive numbers grow
/// with their magnitude, negative ones shrink with it, every negative number
/// is below every positive one, and the two zeros are equal.
pub open spec fn float_lt(a: u32, b: u32) -> bool {
    let (na, ma) = (a >= 0x8000_0000, a % 0x8000_0000);
    let (nb, mb) = (b >= 0x8000_0000, b % 0x8000_0000);
    if !na && !nb {
        ma < mb
    } else if na && nb {
        mb < ma
    } else if na {
        !(ma == 0 && mb == 0)
    } else {
        false
    }
}

/// The order of `total_cmp`: as [`float_lt`], except that a negative sign
/// always sorts first, so negative zero comes before positive zero.
pub open spec fn total_lt(a: u32, b: u32) -> bool {
    let (na, ma) = (a >= 0x8000_0000, a % 0x8000_0000);
    let (nb, mb) = (b >= 0x8000_0000, b % 0x8000_0000);
    if na == nb {
        if na {
            mb < ma
        } else {
            ma < mb
        }
    } else {
        na
    }
}

/// Time keys compare as the times do, and sort keys as `total_cmp` does.
pub proof fn lemma_time_keys_order_like_the_floats(a: u32, b: u32)
    ensures
        (spec_time_key(a) < spec_time_key(b)) <==> float_lt(a, b),
        (spec_time_sort_key(a) < spec_time_sort_key(b)) <==> total_lt(a, b),
{
}

/// Positive and negative zero share a time key.
pub proof fn lemma_zeros_share_a_time_key()
    ensures
        spec_time_key(0) == spec_time_key(0x8000_0000),
        spec_time_sort_key(0x8000_0000) < spec_time_sort_key(0),
{
}

// ---------------------------------------------------------------------------
// Keyframe selection
//
// Keyframe times enter as ordered integer keys: the caller maps each time to
// a key so that `a < b` between times exactly when `key(a) < key(b)`.
// ---------------------------------------------------------------------------

/// `i` holds the largest time strictly before `frame`, and no earlier index
/// holds that same time.
pub open spec fn is_latest_before(times: Seq<i64>, frame: i64, i: int) -> bool {
    &&& 0 <= i < times.len()
    &&& times[i] < frame
    &&& forall|j: int| 0 <= j < times.len() && times[j] < frame ==> times[j] <= times[i]
    &&& forall|j: int| 0 <= j < i && times[j] < frame ==> times[j] < times[i]
}

/// `i` holds the smallest time at or after `frame`, and no earlier index
/// holds that same time.
pub open spec fn is_earliest_from(times: Seq<i64>, frame: i64, i: int) -> bool {
    &&& 0 <= i < times.len()
    &&& frame <= times[i]
    &&& forall|j: int| 0 <= j < times.len() && frame <= times[j] ==> times[i] <= times[j]
    &&& forall|j: int| 0 <= j < i && frame <= times[j] ==> times[i] < times[j]
}

/// `i` holds the largest time at or before `frame`, and no earlier index
/// holds that same time.
pub open spec fn is_latest_at_or_before(times: Seq<i64>, frame: i64, i: int) -> bool {
    &&& 0 <= i < times.len()
    &&& times[i] <= frame
    &&& forall|j: int| 0 <= j < times.len() && times[j] <= frame ==> times[j] <= times[i]
    &&& forall|j: int| 0 <= j < i && times[j] <= frame ==> times[j] < times[i]
}

/// `i` is the first index of the largest time.
pub open spec fn is_first_max(times: Seq<i64>, i: int) -> bool {
    &&& 0 <= i < times.len()
    &&& forall|j: int| 0 <= j < times.len() ==> times[j] <= times[i]
    &&& forall|j: int| 0 <= j < i ==> times[j] < times[i]
}

/// `i` is the first index of the smallest time.
pub open spec fn is_first_min(times: Seq<i64>, i: int) -> bool {
    &&& 0 <= i < times.len()
    &&& forall|j: int| 0 <= j < times.len() ==> times[i] <= times[j]
    &&& forall|j: int| 0 <= j < i ==> times[i] < times[j]
}

pub open spec fn has_key_before(times: Seq<i64>, frame: i64) -> bool {
    exists|j: int| 0 <= j < times.len() && times[j] < frame
}

pub open spec fn has_key_from(times: Seq<i64>, frame: i64) -> bool {
    exists|j: int| 0 <= j < times.len() && frame <= times[j]
}

pub open spec fn has_key_at_or_before(times: Seq<i64>, frame: i64) -> bool {
    exists|j: int| 0 <= j < times.len() && times[j] <= frame
}

/// The index of the first latest keyframe.
pub fn argmax(times: &[i64]) -> (r: usize)
    requires
        times@.len() > 0,
    ensures
        is_first_max(times@, r as int),
{
    let mut best: usize = 0;
    let mut i: usize = 1;
    while i < times.len()
        invariant
            times@.len() > 0,
            1 <= i <= times@.len(),
            0 <= best < i,
            forall|j: int| 0 <= j < i ==> times@[j] <= times@[best as int],
            forall|j: int| 0 <= j < best ==> times@[j] < times@[best as int],
        decreases times@.len() - i,
    {
        if times[i] > times[best] {
            best = i;
        }
        i = i + 1;
    }
    best
}

/// The index of the first earliest keyframe.
pub fn argmin(times: &[i64]) -> (r: usize)
    requires
        times@.len() > 0,
    ensures
        is_first_min(times@, r as int),
{
    let mut best: usize = 0;
    let mut i: usize = 1;
    while i < times.len()
        invariant
            times@.len() > 0,
            1 <= i <= times@.len(),
            0 <= best < i,
            forall|j: int| 0 <= j < i ==> times@[best as int] <= times@[j],
            forall|j: int| 0 <= j < best ==> times@[best as int] < times@[j],
        decreases times@.len() - i,
    {
        if times[i] < times[best] {
            best = i;
        }
        i = i + 1;
    }
    best
}

/// A keyframe chosen for sampling.
///
/// `wrapped` marks a keyframe borrowed across the loop seam: a wrapped
/// `before` sits one clip length earlier than its own time, a wrapped
/// `after` one clip length later.
#[derive(Debug, Clone, Copy, PartialEq, Eq, Structural)]
pub struct KeyRef {
    pub index: usize,
    pub wrapped: bool,
}

/// The keyframes bracketing a moment in time. Either side may be absent.
#[derive(Debug, Clone, Copy, PartialEq, Eq, Structural)]
pub struct Bracket {
    pub before: Option<KeyRef>,
    pub after: Option<KeyRef>,
}

/// What [`bracket`] selects before `frame`.
pub open spec fn bracket_before_ok(times: Seq<i64>, frame: i64, wrap: bool, b: Option<KeyRef>) -> bool {
    match b {
        Some(k) => if !k.wrapped {
            is_latest_before(times, frame, k.index as int)
        } else {
            wrap && times.len() >= 2 && !has_key_before(times, frame)
                && is_first_max(times, k.index as int)
        },
        None => !has_key_before(times, frame) && !(wrap && times.len() >= 2),
    }
}

/// What [`bracket`] selects from `frame` on.
pub open spec fn bracket_after_ok(times: Seq<i64>, frame: i64, wrap: bool, a: Option<KeyRef>) -> bool {
    match a {
        Some(k) => if !k.wrapped {
            is_earliest_from(times, frame, k.index as int)
        } else {
            wrap && times.len() >= 2 && !has_key_from(times, frame)
                && is_first_min(times, k.index as int)
        },
        None => !has_key_from(times, frame) && !(wrap && times.len() >= 2),
    }
}

/// Locates the keyframes surrounding `frame`.
///
/// `before` is the latest keyframe strictly before `frame`, `after` the
/// earliest at or after it. With `wrap` enabled (looping clips) and at least
/// two keyframes, a missing `before` becomes the last keyframe one clip
/// length earlier, and a missing `after` the first keyframe one clip length
/// later.
pub fn bracket(times: &[i64], frame: i64, wrap: bool) -> (r: Bracket)
    ensures
        bracket_before_ok(times@, frame, wrap, r.before),
        bracket_after_ok(times@, frame, wrap, r.after),
{
    let n = times.len();
    let mut before: Option<usize> = None;
    let mut after: Option<usize> = None;
    let mut i: usize = 0;
    while i < n
        invariant
            n == times@.len(),
            0 <= i <= n,
            match before {
                Some(b) => b < i && times@[b as int] < frame
                    && (forall|j: int| 0 <= j < i && times@[j] < frame ==> times@[j] <= times@[b as int])
                    && (forall|j: int| 0 <= j < b && times@[j] < frame ==> times@[j] < times@[b as int]),
                None => forall|j: int| 0 <= j < i ==> !(times@[j] < frame),
            },
            match after {
                Some(a) => a < i && frame <= times@[a as int]
                    && (forall|j: int| 0 <= j < i && frame <= times@[j] ==> times@[a as int] <= times@[j])
                    && (forall|j: int| 0 <= j < a && frame <= times@[j] ==> times@[a as int] < times@[j]),
                None => forall|j: int| 0 <= j < i ==> !(frame <= times@[j]),
            },
        decreases n - i,
    {
        let t = times[i];
        if t < frame {
            match before {
                Some(b) => {
                    if t > times[b] {
                        before = Some(i);
                    }
                },
                None => {
                    before = Some(i);
                },
            }
        } else {
            match after {
                Some(a) => {
                    if t < times[a] {
                        after = Some(i);
                    }
                },
                None => {
                    after = Some(i);
                },
            }
        }
        i = i + 1;
    }

    let mut r_before: Option<KeyRef> = match before {
        Some(b) => Some(KeyRef { index: b, wrapped: false }),
        None => None,
    };
    let mut r_after: Option<KeyRef> = match after {
        Some(a) => Some(KeyRef { index: a, wrapped: false }),
        None => None,
    };
    if wrap && n >= 2 {
        if before.is_none() {
            r_before = Some(KeyRef { index: argmax(times), wrapped: true });
        }
        if after.is_none() {
            r_after = Some(KeyRef { index: argmin(times), wrapped: true });
        }
    }
    Bracket { before: r_before, after: r_after }
}

/// The last keyframe at or before `frame`: the rule of the channels that
/// hold their value instead of interpolating.
pub fn last_key_at_or_before(times: &[i64], frame: i64) -> (r: Option<usize>)
    ensures
        match r {
            Some(i) => is_latest_at_or_before(times@, frame, i as int),
            None => !has_key_at_or_before(times@, frame),
        },
{
    let n = times.len();
    let mut best: Option<usize> = None;
    let mut i: usize = 0;
    while i < n
        invariant
            n == times@.len(),
            0 <= i <= n,
            match best {
                Some(b) => b < i && times@[b as int] <= frame
                    && (forall|j: int| 0 <= j < i && times@[j] <= frame ==> times@[j] <= times@[b as int])
                    && (forall|j: int| 0 <= j < b && times@[j] <= frame ==> times@[j] < times@[b as int]),
                None => forall|j: int| 0 <= j < i ==> !(times@[j] <= frame),
            },
        decreases n - i,
    {
        if times[i] <= frame {
            match best {
                Some(b) => {
                    if times[i] > times[b] {
                        best = Some(i);
                    }
                },
                None => {
                    best = Some(i);
                },
            }
        }
        i = i + 1;
    }
    best
}

// ---------------------------------------------------------------------------
// Track ordering
// ---------------------------------------------------------------------------

/// Keyframe `a` comes before keyframe `b` in a stable sort by key.
pub open spec fn key_precedes(keys: Seq<i64>, a: int, b: int) -> bool {
    keys[a] < keys[b] || (keys[a] == keys[b] && a < b)
}

/// `order` lists every index of `keys` once, sorted by key, equal keys
/// keeping their original relative order.
pub open spec fn is_stable_order(keys: Seq<i64>, order: Seq<usize>) -> bool {
    &&& order.len() == keys.len()
    &&& forall|i: int| 0 <= i < order.len() ==> order[i] < keys.len()
    &&& forall|i: int, j: int| 0 <= i < j < order.len() ==> key_precedes(keys, order[i] as int, order[j] as int)
    &&& forall|k: usize| k < keys.len() ==> #[trigger] order.contains(k)
}

/// The permutation that stably sorts keyframes by time key: the order in
/// which a track is stored after loading, which sampling relies on.
pub fn sort_order(keys: &[i64]) -> (r: Vec<usize>)
    ensures
        is_stable_order(keys@, r@),
{
    let n = keys.len();
    let mut order: Vec<usize> = Vec::new();
    let mut i: usize = 0;
    while i < n
        invariant
            n == keys@.len(),
            0 <= i <= n,
            order@.len() == i,
            forall|p: int| 0 <= p < order@.len() ==> order@[p] < i,
            forall|p: int, q: int| 0 <= p < q < order@.len() ==> key_precedes(keys@, order@[p] as int, order@[q] as int),
            forall|k: usize| k < i ==> #[trigger] order@.contains(k),
        decreases n - i,
    {
        let key = keys[i];
        let mut j: usize = 0;
        while j < order.len() && keys[order[j]] <= key
            invariant
                n == keys@.len(),
                i < n,
                key == keys@[i as int],
                0 <= j <= order@.len(),
                forall|p: int| 0 <= p < order@.len() ==> order@[p] < i,
                forall|p: int| 0 <= p < j ==> keys@[order@[p] as int] <= key,
            decreases order@.len() - j,
        {
            j = j + 1;
        }
        let ghost old_order = order@;
        order.insert(j, i);
        proof {
            assert(order@ == old_order.insert(j as int, i));
            assert forall|p: int, q: int| 0 <= p < q < order@.len() implies key_precedes(
                keys@,
                order@[p] as int,
                order@[q] as int,
            ) by {
                if q < j {
                    assert(order@[p] == old_order[p] && order@[q] == old_order[q]);
                } else if q == j {
                    assert(order@[p] == old_order[p]);
                } else if p < j {
                    assert(order@[p] == old_order[p] && order@[q] == old_order[q - 1]);
                    assert(key_precedes(keys@, old_order[j as int] as int, old_order[q - 1] as int) || q - 1 == j);
                } else if p == j {
                    assert(order@[q] == old_order[q - 1]);
                    assert(keys@[old_order[j as int] as int] > key);
                    assert(key_precedes(keys@, old_order[j as int] as int, old_order[q - 1] as int) || q - 1 == j);
                } else {
                    assert(order@[p] == old_order[p - 1] && order@[q] == old_order[q - 1]);
                }
            }
            assert forall|k: usize| k < i + 1 implies #[trigger] order@.contains(k) by {
                if k == i {
                    assert(order@[j as int] == i);
                } else {
                    assert(old_order.contains(k));
                    let p = choose|p: int| 0 <= p < old_order.len() && old_order[p] == k;
                    if p < j {
                        assert(order@[p] == k);
                    } else {
                        assert(order@[p + 1] == k);
                    }
                }
            }
        }
        i = i + 1;
    }
    order
}

// ---------------------------------------------------------------------------
// Interpolation plans
// ---------------------------------------------------------------------------

/// The neighbouring keyframe before `i`, wrapping for looping clips.
pub open spec fn spec_neighbour_before(len: int, i: int, wrap: bool) -> int {
    if i > 0 {
        i - 1
    } else if wrap && len >= 3 {
        // THREE.js/Blockbench use `sorted.at(-2)`: the second-to-last keyframe.
        len - 2
    } else {
        i
    }
}

/// The neighbouring keyframe after `i`, wrapping for looping clips.
pub open spec fn spec_neighbour_after(len: int, i: int, wrap: bool) -> int {
    if i + 1 < len {
        i + 1
    } else if wrap && len >= 3 {
        // THREE.js/Blockbench use `sorted[1]`: the second keyframe.
        1
    } else {
        i
    }
}

/// The neighbouring keyframe before `i` in a track of `len` keyframes.
pub fn neighbour_before(len: usize, i: usize, wrap: bool) -> (r: usize)
    ensures
        r == spec_neighbour_before(len as int, i as int, wrap),
{
    if i > 0 {
        return i - 1;
    }
    if wrap && len >= 3 {
        return len - 2;
    }
    i
}

/// The neighbouring keyframe after `i` in a track of `len` keyframes.
pub fn neighbour_after(len: usize, i: usize, wrap: bool) -> (r: usize)
    ensures
        r == spec_neighbour_after(len as int, i as int, wrap),
{
    if len > 0 && i < len - 1 {
        return i + 1;
    }
    if wrap && len >= 3 {
        return 1;
    }
    i
}

/// How a position / stretch segment blends its two keyframes.
#[derive(Debug, Clone, Copy, PartialEq, Eq, Structural)]
pub enum Blend {
    /// Straight linear interpolation.
    Linear,
    /// Uniform Catmull-Rom through `p0, before, after, p3`.
    CatmullRom { p0: usize, p3: usize },
}

/// Linear for `linear` → `linear`/`step`, Catmull-Rom as soon as either
/// bracketing keyframe is `smooth`, linear otherwise.
pub open spec fn spec_blend(interps: Seq<Interpolation>, before: int, after: int, wrap: bool) -> Blend {
    let n = interps.len() as int;
    if interps[before] == Interpolation::Linear && (interps[after] == Interpolation::Linear
        || interps[after] == Interpolation::Step) {
        Blend::Linear
    } else if interps[before] == Interpolation::Smooth || interps[after] == Interpolation::Smooth {
        Blend::CatmullRom {
            p0: spec_neighbour_before(n, before, wrap) as usize,
            p3: spec_neighbour_after(n, after, wrap) as usize,
        }
    } else {
        Blend::Linear
    }
}

/// Chooses the blend between two bracketing keyframes of a spline track.
pub fn spline_blend(interps: &[Interpolation], before: usize, after: usize, wrap: bool) -> (r: Blend)
    requires
        before < interps@.len(),
        after < interps@.len(),
    ensures
        r == spec_blend(interps@, before as int, after as int, wrap),
{
    let b = interps[before];
    let a = interps[after];
    if b == Interpolation::Linear && (a == Interpolation::Linear || a == Interpolation::Step) {
        return Blend::Linear;
    }
    if b == Interpolation::Smooth || a == Interpolation::Smooth {
        let n = interps.len();
        return Blend::CatmullRom { p0: neighbour_before(n, before, wrap), p3: neighbour_after(n, after, wrap) };
    }
    Blend::Linear
}

/// How to sample a position / stretch track at one moment.
#[derive(Debug, Clone, Copy, PartialEq, Eq, Structural)]
pub enum SplinePlan {
    /// Only one side exists: hold that keyframe's value.
    Hold(usize),
    /// Interpolate between two keyframes (after snapping onto either one
    /// when the moment is within a twentieth of a frame of it).
    Segment { before: KeyRef, after: KeyRef, blend: Blend },
}

/// How to sample a rotation track at one moment.
#[derive(Debug, Clone, Copy, PartialEq, Eq, Structural)]
pub enum RotationPlan {
    /// Only one side exists: hold that keyframe's rotation.
    Hold(usize),
    /// Slerp between two keyframes, with Blockbench's bezier easing applied
    /// to the blend factor when `eased`.
    Segment { before: KeyRef, after: KeyRef, eased: bool },
}

/// `i` is the keyframe a track holds at `frame` because only one side of
/// the bracket exists.
pub open spec fn is_lone_side(times: Seq<i64>, frame: i64, wrap: bool, i: int) -> bool {
    ||| (bracket_before_ok(times, frame, wrap, Some(KeyRef { index: i as usize, wrapped: false }))
        || bracket_before_ok(times, frame, wrap, Some(KeyRef { index: i as usize, wrapped: true })))
        && bracket_after_ok(times, frame, wrap, None)
    ||| bracket_before_ok(times, frame, wrap, None)
        && (bracket_after_ok(times, frame, wrap, Some(KeyRef { index: i as usize, wrapped: false }))
        || bracket_after_ok(times, frame, wrap, Some(KeyRef { index: i as usize, wrapped: true })))
}

/// The sampling rule for position / stretch tracks.
pub open spec fn spline_plan_ok(
    times: Seq<i64>,
    interps: Seq<Interpolation>,
    frame: i64,
    wrap: bool,
    plan: Option<SplinePlan>,
) -> bool {
    match plan {
        None => times.len() == 0,
        Some(SplinePlan::Hold(i)) => times.len() > 0 && 0 <= i < times.len() && is_lone_side(times, frame, wrap, i as int),
        Some(SplinePlan::Segment { before, after, blend }) => {
            &&& bracket_before_ok(times, frame, wrap, Some(before))
            &&& bracket_after_ok(times, frame, wrap, Some(after))
            &&& blend == spec_blend(interps, before.index as int, after.index as int, wrap)
        },
    }
}

/// The sampling rule for rotation tracks: always slerp, eased only when both
/// bracketing keyframes are `smooth`; neighbours are never consulted.
pub open spec fn rotation_plan_ok(
    times: Seq<i64>,
    interps: Seq<Interpolation>,
    frame: i64,
    wrap: bool,
    plan: Option<RotationPlan>,
) -> bool {
    match plan {
        None => times.len() == 0,
        Some(RotationPlan::Hold(i)) => times.len() > 0 && 0 <= i < times.len() && is_lone_side(times, frame, wrap, i as int),
        Some(RotationPlan::Segment { before, after, eased }) => {
            &&& bracket_before_ok(times, frame, wrap, Some(before))
            &&& bracket_after_ok(times, frame, wrap, Some(after))
            &&& eased == (interps[before.index as int] == Interpolation::Smooth
                && interps[after.index as int] == Interpolation::Smooth)
        },
    }
}

/// Plans the sampling of a position / stretch track at `frame`.
pub fn spline_plan(times: &[i64], interps: &[Interpolation], frame: i64, wrap: bool) -> (r: Option<SplinePlan>)
    requires
        times@.len() == interps@.len(),
    ensures
        spline_plan_ok(times@, interps@, frame, wrap, r),
{
    if times.len() == 0 {
        return None;
    }
    let b = bracket(times, frame, wrap);
    match (b.before, b.after) {
        (Some(before), Some(after)) => {
            let blend = spline_blend(interps, before.index, after.index, wrap);
            Some(SplinePlan::Segment { before, after, blend })
        },
        (Some(before), None) => Some(SplinePlan::Hold(before.index)),
        (None, Some(after)) => Some(SplinePlan::Hold(after.index)),
        (None, None) => {
            proof {
                if times@[0] < frame {
                    assert(has_key_before(times@, frame));
                } else {
                    assert(has_key_from(times@, frame));
                }
            }
            None
        },
    }
}

/// Plans the sampling of a rotation track at `frame`.
pub fn rotation_plan(times: &[i64], interps: &[Interpolation], frame: i64, wrap: bool) -> (r: Option<RotationPlan>)
    requires
        times@.len() == interps@.len(),
    ensures
        rotation_plan_ok(times@, interps@, frame, wrap, r),
{
    if times.len() == 0 {
        return None;
    }
    let b = bracket(times, frame, wrap);
    match (b.before, b.after) {
        (Some(before), Some(after)) => {
            let eased = interps[before.index] == Interpolation::Smooth
                && interps[after.index] == Interpolation::Smooth;
            Some(RotationPlan::Segment { before, after, eased })
        },
        (Some(before), None) => Some(RotationPlan::Hold(before.index)),
        (None, Some(after)) => Some(RotationPlan::Hold(after.index)),
        (None, None) => {
            proof {
                if times@[0] < frame {
                    assert(has_key_before(times@, frame));
                } else {
                    assert(has_key_from(times@, frame));
                }
            }
            None
        },
    }
}

// ---------------------------------------------------------------------------
// Laws of keyframe selection
// ---------------------------------------------------------------------------

/// The bracket a track selects is determined by the track and the moment:
/// any two selections meeting [`bracket`]'s contract agree.
pub proof fn lemma_bracket_is_determined(
    times: Seq<i64>,
    frame: i64,
    wrap: bool,
    b1: Option<KeyRef>,
    b2: Option<KeyRef>,
    a1: Option<KeyRef>,
    a2: Option<KeyRef>,
)
    requires
        bracket_before_ok(times, frame, wrap, b1),
        bracket_before_ok(times, frame, wrap, b2),
        bracket_after_ok(times, frame, wrap, a1),
        bracket_after_ok(times, frame, wrap, a2),
    ensures
        b1 == b2,
        a1 == a2,
{
    match (b1, b2) {
        (Some(x), Some(y)) => {
            if !x.wrapped && !y.wrapped {
                let (i, j) = (x.index as int, y.index as int);
                assert(times[i] == times[j]);
                if i < j {
                    assert(times[i] < times[j]);
                } else if j < i {
                    assert(times[j] < times[i]);
                }
            } else if x.wrapped && y.wrapped {
                let (i, j) = (x.index as int, y.index as int);
                if i < j {
                    assert(times[i] < times[j]);
                } else if j < i {
                    assert(times[j] < times[i]);
                }
            } else if !x.wrapped {
                assert(has_key_before(times, frame)) by {
                    assert(times[x.index as int] < frame);
                }
            } else {
                assert(has_key_before(times, frame)) by {
                    assert(times[y.index as int] < frame);
                }
            }
        },
        (Some(x), None) => {
            if !x.wrapped {
                assert(times[x.index as int] < frame);
            }
        },
        (None, Some(y)) => {
            if !y.wrapped {
                assert(times[y.index as int] < frame);
            }
        },
        (None, None) => {},
    }
    match (a1, a2) {
        (Some(x), Some(y)) => {
            if !x.wrapped && !y.wrapped {
                let (i, j) = (x.index as int, y.index as int);
                assert(times[i] == times[j]);
                if i < j {
                    assert(times[i] < times[j]);
                } else if j < i {
                    assert(times[j] < times[i]);
                }
            } else if x.wrapped && y.wrapped {
                let (i, j) = (x.index as int, y.index as int);
                if i < j {
                    assert(times[j] < times[i]);
                } else if j < i {
                    assert(times[i] < times[j]);
                }
            } else if !x.wrapped {
                assert(has_key_from(times, frame)) by {
                    assert(frame <= times[x.index as int]);
                }
            } else {
                assert(has_key_from(times, frame)) by {
                    assert(frame <= times[y.index as int]);
                }
            }
        },
        (Some(x), None) => {
            if !x.wrapped {
                assert(frame <= times[x.index as int]);
            }
        },
        (None, Some(y)) => {
            if !y.wrapped {
                assert(frame <= times[y.index as int]);
            }
        },
        (None, None) => {},
    }
}

/// A track with a single keyframe holds it for the whole clip, whatever the
/// moment and loop mode.
pub proof fn lemma_lone_keyframe_is_constant(
    times: Seq<i64>,
    interps: Seq<Interpolation>,
    frame: i64,
    wrap: bool,
    spline: Option<SplinePlan>,
    rotation: Option<RotationPlan>,
)
    requires
        times.len() == 1,
        spline_plan_ok(times, interps, frame, wrap, spline),
        rotation_plan_ok(times, interps, frame, wrap, rotation),
    ensures
        spline == Some(SplinePlan::Hold(0)),
        rotation == Some(RotationPlan::Hold(0)),
{
    match spline {
        Some(SplinePlan::Segment { before, after, blend }) => {
            assert(times[before.index as int] < frame);
            assert(frame <= times[after.index as int]);
        },
        _ => {},
    }
    match rotation {
        Some(RotationPlan::Segment { before, after, eased }) => {
            assert(times[before.index as int] < frame);
            assert(frame <= times[after.index as int]);
        },
        _ => {},
    }
}

/// Without loop wrapping, a moment at or before every keyframe holds the
/// first (earliest) keyframe.
pub proof fn lemma_before_first_key_holds_it(
    times: Seq<i64>,
    interps: Seq<Interpolation>,
    frame: i64,
    plan: Option<SplinePlan>,
)
    requires
        times.len() > 0,
        forall|j: int| 0 <= j < times.len() ==> frame <= times[j],
        spline_plan_ok(times, interps, frame, false, plan),
    ensures
        plan matches Some(SplinePlan::Hold(i)) && is_first_min(times, i as int),
{
    match plan {
        Some(SplinePlan::Segment { before, after, blend }) => {
            assert(times[before.index as int] < frame);
        },
        Some(SplinePlan::Hold(i)) => {
            if bracket_before_ok(times, frame, false, Some(KeyRef { index: i, wrapped: false })) {
                assert(times[i as int] < frame);
            }
            assert(is_earliest_from(times, frame, i as int));
        },
        None => {},
    }
}

/// Without loop wrapping, a moment after every keyframe holds the last
/// (latest) keyframe.
pub proof fn lemma_after_last_key_holds_it(
    times: Seq<i64>,
    interps: Seq<Interpolation>,
    frame: i64,
    plan: Option<SplinePlan>,
)
    requires
        times.len() > 0,
        forall|j: int| 0 <= j < times.len() ==> times[j] < frame,
        spline_plan_ok(times, interps, frame, false, plan),
    ensures
        plan matches Some(SplinePlan::Hold(i)) && is_first_max(times, i as int),
{
    match plan {
        Some(SplinePlan::Segment { before, after, blend }) => {
            assert(times[after.index as int] < frame);
        },
        Some(SplinePlan::Hold(i)) => {
            if bracket_after_ok(times, frame, false, Some(KeyRef { index: i, wrapped: false })) {
                assert(times[i as int] < frame);
            }
            assert(is_latest_before(times, frame, i as int));
        },
        None => {},
    }
}

/// In a looping clip, the tail after the last keyframe interpolates from
/// that keyframe towards the first one, placed one clip length later.
pub proof fn lemma_loop_tail_wraps_into_first_key(
    times: Seq<i64>,
    interps: Seq<Interpolation>,
    frame: i64,
    plan: Option<SplinePlan>,
)
    requires
        times.len() >= 2,
        forall|j: int| 0 <= j < times.len() ==> times[j] < frame,
        spline_plan_ok(times, interps, frame, true, plan),
    ensures
        plan matches Some(SplinePlan::Segment { before, after, blend }) && !before.wrapped
            && is_first_max(times, before.index as int) && after.wrapped && is_first_min(
            times,
            after.index as int,
        ),
{
    assert(has_key_before(times, frame)) by {
        assert(times[0] < frame);
    }
    match plan {
        Some(SplinePlan::Segment { before, after, blend }) => {
            if !after.wrapped {
                assert(times[after.index as int] < frame);
            }
        },
        Some(SplinePlan::Hold(i)) => {},
        None => {},
    }
}

/// In a looping clip, a moment before the first keyframe interpolates from
/// the last keyframe, placed one clip length earlier, towards the first.
pub proof fn lemma_loop_head_wraps_from_last_key(
    times: Seq<i64>,
    interps: Seq<Interpolation>,
    frame: i64,
    plan: Option<SplinePlan>,
)
    requires
        times.len() >= 2,
        forall|j: int| 0 <= j < times.len() ==> frame <= times[j],
        spline_plan_ok(times, interps, frame, true, plan),
    ensures
        plan matches Some(SplinePlan::Segment { before, after, blend }) && before.wrapped
            && is_first_max(times, before.index as int) && !after.wrapped && is_first_min(
            times,
            after.index as int,
        ),
{
    assert(has_key_from(times, frame)) by {
        assert(frame <= times[0]);
    }
    match plan {
        Some(SplinePlan::Segment { before, after, blend }) => {
            if !before.wrapped {
                assert(times[before.index as int] < frame);
            }
        },
        Some(SplinePlan::Hold(i)) => {},
        None => {},
    }
}

/// A keyframe lying exactly on the sampled moment is selected as `after`.
pub proof fn lemma_key_on_the_moment_is_after(times: Seq<i64>, frame: i64, wrap: bool, a: Option<KeyRef>, k: int)
    requires
        0 <= k < times.len(),
        times[k] == frame,
        bracket_after_ok(times, frame, wrap, a),
    ensures
        a matches Some(r) && !r.wrapped && times[r.index as int] == frame,
{
    assert(has_key_from(times, frame));
    match a {
        Some(r) => {
            if !r.wrapped {
                assert(times[r.index as int] <= times[k]);
            }
        },
        None => {},
    }
}

/// Sorting keyframes by a stable order leaves their keys non-decreasing.
pub proof fn lemma_stable_order_sorts(keys: Seq<i64>, order: Seq<usize>, i: int, j: int)
    requires
        is_stable_order(keys, order),
        0 <= i <= j < order.len(),
    ensures
        keys[order[i] as int] <= keys[order[j] as int],
{
    if i < j {
        assert(key_precedes(keys, order[i] as int, order[j] as int));
    }
}

/// Two stable orders of the same keys agree at `i` when they agree before it.
proof fn lemma_stable_orders_agree_at(keys: Seq<i64>, a: Seq<usize>, b: Seq<usize>, i: int)
    requires
        is_stable_order(keys, a),
        is_stable_order(keys, b),
        0 <= i < a.len(),
        forall|j: int| 0 <= j < i ==> a[j] == b[j],
    ensures
        a[i] == b[i],
{
    let x = a[i];
    let y = b[i];
    if x != y {
        assert(b.contains(x));
        let p = choose|p: int| 0 <= p < b.len() && b[p] == x;
        assert(a.contains(y));
        let q = choose|q: int| 0 <= q < a.len() && a[q] == y;
        if p < i {
            assert(a[p] == x);
            assert(key_precedes(keys, a[p] as int, a[i] as int));
        } else if q < i {
            assert(b[q] == y);
            assert(key_precedes(keys, b[q] as int, b[i] as int));
        } else {
            assert(key_precedes(keys, b[i] as int, b[p] as int));
            assert(key_precedes(keys, a[i] as int, a[q] as int));
        }
    }
}

proof fn lemma_stable_orders_agree_upto(keys: Seq<i64>, a: Seq<usize>, b: Seq<usize>, n: int)
    requires
        is_stable_order(keys, a),
        is_stable_order(keys, b),
        0 <= n <= a.len(),
    ensures
        forall|j: int| 0 <= j < n ==> a[j] == b[j],
    decreases n,
{
    if n > 0 {
        lemma_stable_orders_agree_upto(keys, a, b, n - 1);
        lemma_stable_orders_agree_at(keys, a, b, n - 1);
    }
}

/// A track has exactly one stable order, so the order in which a loaded
/// track is stored is determined by its keyframe times.
pub proof fn lemma_stable_order_is_unique(keys: Seq<i64>, a: Seq<usize>, b: Seq<usize>)
    requires
        is_stable_order(keys, a),
        is_stable_order(keys, b),
    ensures
        a == b,
{
    lemma_stable_orders_agree_upto(keys, a, b, a.len() as int);
    assert(a =~= b);
}

/// A segment is a Catmull-Rom curve exactly when one of its two keyframes
/// is `smooth`, and a straight line otherwise. The curve's outer control
/// points are the neighbouring keyframes: the one before `before` and the
/// one after `after`, borrowed across the loop seam (the second-to-last
/// and the second keyframe) when a looping track has at least three, and
/// the segment's own keyframe where there is no neighbour.
pub proof fn lemma_smooth_keys_curve(interps: Seq<Interpolation>, before: int, after: int, wrap: bool)
    requires
        0 <= before < interps.len(),
        0 <= after < interps.len(),
        interps.len() <= usize::MAX,
    ensures
        (spec_blend(interps, before, after, wrap) is CatmullRom) <==> (interps[before] == Interpolation::Smooth
            || interps[after] == Interpolation::Smooth),
        spec_blend(interps, before, after, wrap) matches Blend::CatmullRom { p0, p3 } ==> {
            &&& p0 == (if before > 0 {
                before - 1
            } else if wrap && interps.len() >= 3 {
                interps.len() - 2
            } else {
                before
            })
            &&& p3 == (if after + 1 < interps.len() {
                after + 1
            } else if wrap && interps.len() >= 3 {
                1
            } else {
                after
            })
        },
{
}

} // verus!
