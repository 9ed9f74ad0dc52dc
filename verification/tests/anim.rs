use blockymodel::{
    argmax, argmin, bracket, default_format_version, last_key_at_or_before, neighbour_after, neighbour_before,
    rotation_plan, sort_order, spline_blend, spline_plan, time_key, time_sort_key, Blend,
    Interpolation, KeyRef, RotationPlan, SplinePlan,
};
use blockymodel::Interpolation::{Linear, Smooth, Step};

const EPSILON_FRAMES: f32 = 60.0 / 1200.0;

fn keys(times: &[f32]) -> Vec<i64> {
    times.iter().map(|t| time_key(t.to_bits())).collect()
}

fn catmull_rom(p0: f32, p1: f32, p2: f32, p3: f32, t: f32) -> f32 {
    let t2 = t * t;
    let t3 = t2 * t;
    0.5 * ((2.0 * p1)
        + (-p0 + p2) * t
        + (2.0 * p0 - 5.0 * p1 + 4.0 * p2 - p3) * t2
        + (-p0 + 3.0 * p1 - 3.0 * p2 + p3) * t3)
}

/// Samples a scalar track by the library's plan.
fn sample(
    times: &[f32],
    values: &[f32],
    interps: &[Interpolation],
    frame: f32,
    duration: f32,
    wrap: bool,
) -> Option<f32> {
    let plan = spline_plan(&keys(times), interps, time_key(frame.to_bits()), wrap)?;
    match plan {
        SplinePlan::Hold(i) => Some(values[i]),
        SplinePlan::Segment { before, after, blend } => {
            let bt = times[before.index] - if before.wrapped { duration } else { 0.0 };
            let at = times[after.index] + if after.wrapped { duration } else { 0.0 };
            if (frame - bt).abs() <= EPSILON_FRAMES {
                return Some(values[before.index]);
            }
            if (at - frame).abs() <= EPSILON_FRAMES {
                return Some(values[after.index]);
            }
            let span = at - bt;
            let alpha = if span.abs() < f32::EPSILON {
                0.0
            } else {
                ((frame - bt) / span).clamp(0.0, 1.0)
            };
            let (a, b) = (values[before.index], values[after.index]);
            Some(match blend {
                Blend::Linear => a + (b - a) * alpha,
                Blend::CatmullRom { p0, p3 } => catmull_rom(values[p0], a, b, values[p3], alpha),
            })
        }
    }
}

#[test]
fn linear_track_interpolates() {
    let v = sample(&[0.0, 10.0], &[0.0, 10.0], &[Interpolation::Linear; 2], 5.0, 20.0, true).unwrap();
    assert!((v - 5.0).abs() < 1e-5);
}

#[test]
fn loop_wrapping_interpolates_into_the_first_keyframe() {
    // Last key at 60, clip length 80: frame 70 is halfway back to the
    // first keyframe (placed at 80).
    let times = [0.0, 60.0];
    let values = [0.0, 60.0];
    let linear = [Interpolation::Linear; 2];

    let v = sample(&times, &values, &linear, 70.0, 80.0, true).unwrap();
    assert!((v - 30.0).abs() < 1e-4, "got {}", v);

    // Without wrapping the last value is held.
    let v = sample(&times, &values, &linear, 70.0, 80.0, false).unwrap();
    assert!((v - 60.0).abs() < 1e-4, "got {}", v);
}

#[test]
fn a_lone_keyframe_is_constant() {
    for frame in [0.0, 12.0, 40.0] {
        let v = sample(&[12.0], &[2.0], &[Interpolation::Smooth], frame, 50.0, true).unwrap();
        assert_eq!(v, 2.0, "at frame {frame}");
    }
}

#[test]
fn frames_before_the_first_keyframe_hold_it() {
    let v = sample(&[10.0, 20.0], &[5.0, 15.0], &[Interpolation::Linear; 2], 2.0, 40.0, false).unwrap();
    assert!((v - 5.0).abs() < 1e-5, "got {}", v);
}

#[test]
fn an_empty_track_has_no_value() {
    assert_eq!(spline_plan(&[], &[], 0, true), None);
    assert_eq!(rotation_plan(&[], &[], 0, false), None);
}

#[test]
fn smooth_keys_take_the_catmull_rom_path_with_wrapped_neighbours() {
    let times = keys(&[0.0, 10.0, 20.0, 30.0]);
    let smooth = [Interpolation::Smooth; 4];
    // Between the first two keys of a looping clip: the neighbour before the
    // first key is the second-to-last key.
    let plan = spline_plan(&times, &smooth, time_key(5.0f32.to_bits()), true).unwrap();
    assert_eq!(
        plan,
        SplinePlan::Segment {
            before: KeyRef { index: 0, wrapped: false },
            after: KeyRef { index: 1, wrapped: false },
            blend: Blend::CatmullRom { p0: 2, p3: 2 },
        }
    );
    // Not looping: the missing neighbour is the key itself.
    let plan = spline_plan(&times, &smooth, time_key(5.0f32.to_bits()), false).unwrap();
    assert_eq!(
        plan,
        SplinePlan::Segment {
            before: KeyRef { index: 0, wrapped: false },
            after: KeyRef { index: 1, wrapped: false },
            blend: Blend::CatmullRom { p0: 0, p3: 2 },
        }
    );
}

#[test]
fn spline_blend_follows_the_interpolation_table() {
    assert_eq!(spline_blend(&[Linear, Linear], 0, 1, false), Blend::Linear);
    assert_eq!(spline_blend(&[Linear, Step], 0, 1, false), Blend::Linear);
    assert_eq!(spline_blend(&[Step, Linear], 0, 1, false), Blend::Linear);
    assert_eq!(spline_blend(&[Step, Step], 0, 1, false), Blend::Linear);
    assert_eq!(spline_blend(&[Linear, Smooth], 0, 1, false), Blend::CatmullRom { p0: 0, p3: 1 });
    assert_eq!(spline_blend(&[Smooth, Step], 0, 1, false), Blend::CatmullRom { p0: 0, p3: 1 });
}

#[test]
fn rotations_ease_only_between_two_smooth_keys() {
    let times = keys(&[0.0, 10.0]);
    let frame = time_key(4.0f32.to_bits());
    let eased = rotation_plan(&times, &[Smooth, Smooth], frame, false).unwrap();
    assert!(matches!(eased, RotationPlan::Segment { eased: true, .. }));
    let plain = rotation_plan(&times, &[Smooth, Linear], frame, false).unwrap();
    assert!(matches!(plain, RotationPlan::Segment { eased: false, .. }));
    let held = rotation_plan(&times, &[Smooth, Smooth], time_key(12.0f32.to_bits()), false).unwrap();
    assert_eq!(held, RotationPlan::Hold(1));
}

#[test]
fn bracket_selects_strictly_before_and_at_or_after() {
    let times = keys(&[0.0, 10.0, 20.0]);
    let b = bracket(&times, time_key(10.0f32.to_bits()), false);
    assert_eq!(b.before, Some(KeyRef { index: 0, wrapped: false }));
    assert_eq!(b.after, Some(KeyRef { index: 1, wrapped: false }));
}

#[test]
fn bracket_wraps_both_ends_of_a_loop() {
    let times = keys(&[10.0, 20.0, 30.0]);
    let head = bracket(&times, time_key(5.0f32.to_bits()), true);
    assert_eq!(head.before, Some(KeyRef { index: 2, wrapped: true }));
    assert_eq!(head.after, Some(KeyRef { index: 0, wrapped: false }));
    let tail = bracket(&times, time_key(35.0f32.to_bits()), true);
    assert_eq!(tail.before, Some(KeyRef { index: 2, wrapped: false }));
    assert_eq!(tail.after, Some(KeyRef { index: 0, wrapped: true }));
}

#[test]
fn bracket_of_unsorted_keys_scans_them_all() {
    let times = keys(&[30.0, 10.0, 20.0]);
    let b = bracket(&times, time_key(15.0f32.to_bits()), false);
    assert_eq!(b.before, Some(KeyRef { index: 1, wrapped: false }));
    assert_eq!(b.after, Some(KeyRef { index: 2, wrapped: false }));
    assert_eq!(argmax(&times), 0);
    assert_eq!(argmin(&times), 1);
}

#[test]
fn argmax_and_argmin_prefer_the_first_tie() {
    let times = [5, 9, 9, 1, 1];
    assert_eq!(argmax(&times), 1);
    assert_eq!(argmin(&times), 3);
}

#[test]
fn neighbours_wrap_only_in_loops_of_three_or_more() {
    assert_eq!(neighbour_before(4, 0, true), 2);
    assert_eq!(neighbour_before(4, 0, false), 0);
    assert_eq!(neighbour_before(2, 0, true), 0);
    assert_eq!(neighbour_before(4, 3, true), 2);
    assert_eq!(neighbour_after(4, 3, true), 1);
    assert_eq!(neighbour_after(4, 3, false), 3);
    assert_eq!(neighbour_after(2, 1, true), 1);
    assert_eq!(neighbour_after(4, 1, false), 2);
}

#[test]
fn hold_channels_take_the_last_key_at_or_before() {
    let times = keys(&[0.0, 10.0, 20.0]);
    assert_eq!(last_key_at_or_before(&times, time_key(10.0f32.to_bits())), Some(1));
    assert_eq!(last_key_at_or_before(&times, time_key(19.0f32.to_bits())), Some(1));
    assert_eq!(last_key_at_or_before(&times, time_key(25.0f32.to_bits())), Some(2));
    let late = keys(&[5.0, 10.0]);
    assert_eq!(last_key_at_or_before(&late, time_key(1.0f32.to_bits())), None);
}

#[test]
fn sort_order_is_stable() {
    let order = sort_order(&[30, 10, 30, 20, 10]);
    assert_eq!(order, vec![1, 4, 3, 0, 2]);
    assert_eq!(sort_order(&[]), Vec::<usize>::new());
}

#[test]
fn time_keys_order_like_the_floats() {
    let values = [-100.5f32, -2.0, -0.0, 0.0, 0.25, 1.0, 60.0, f32::INFINITY];
    for a in values {
        for b in values {
            let (ka, kb) = (time_key(a.to_bits()), time_key(b.to_bits()));
            assert_eq!(a < b, ka < kb, "{a} vs {b}");
            assert_eq!(a == b, ka == kb, "{a} vs {b}");
            let (sa, sb) = (time_sort_key(a.to_bits()), time_sort_key(b.to_bits()));
            assert_eq!(a.total_cmp(&b), sa.cmp(&sb), "{a} vs {b}");
        }
    }
}

#[test]
fn a_clip_without_a_format_version_is_version_one() {
    assert_eq!(default_format_version(), 1);
}
