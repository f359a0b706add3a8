use pyramid_animation::{Animatable, DiscreetKeyFrameCurve, Key, LinearKeyFrameCurve};
use pyramid_animation::scalar::scalar_gt;

fn af(x: f32) -> Animatable {
    Animatable::new_float(x.to_bits())
}

fn key(t: f32, v: f32) -> Key {
    Key(t.to_bits(), Animatable::new_float(v.to_bits()))
}

fn vkey(t: f32, v: &[f32]) -> Key {
    Key(t.to_bits(), Animatable::new(v.iter().map(|x| x.to_bits()).collect()))
}

fn av(v: &[f32]) -> Animatable {
    Animatable::new(v.iter().map(|x| x.to_bits()).collect())
}

#[test]
fn test_key_frame_single() {
    let kf = LinearKeyFrameCurve { keys: vec![key(0.0, 0.0), key(1.0, 1.0)] };
    assert_eq!(kf.value((-0.1f32).to_bits()), af(0.0));
    assert_eq!(kf.value(0.0f32.to_bits()), af(0.0));
    assert_eq!(kf.value(0.5f32.to_bits()), af(0.5));
    assert_eq!(kf.value(1.0f32.to_bits()), af(1.0));
    assert_eq!(kf.value(1.1f32.to_bits()), af(1.0));
}

#[test]
fn test_key_frame_vector() {
    let kf = LinearKeyFrameCurve {
        keys: vec![vkey(0.0, &[0.0, 0.0]), vkey(1.0, &[1.0, 1.0])],
    };
    assert_eq!(kf.value((-0.1f32).to_bits()), av(&[0.0, 0.0]));
    assert_eq!(kf.value(0.0f32.to_bits()), av(&[0.0, 0.0]));
    assert_eq!(kf.value(0.5f32.to_bits()), av(&[0.5, 0.5]));
    assert_eq!(kf.value(1.0f32.to_bits()), av(&[1.0, 1.0]));
    assert_eq!(kf.value(1.1f32.to_bits()), av(&[1.0, 1.0]));
}

#[test]
fn test_key_frame_multi_keys() {
    let kf = LinearKeyFrameCurve {
        keys: vec![
            key(0.0, 0.0),
            key(10.0, 1.0),
            key(20.0, 0.5),
            key(21.0, 1.0),
            key(22.0, 5.0),
        ],
    };
    assert_eq!(kf.value((-0.1f32).to_bits()), af(0.0));
    assert_eq!(kf.value(0.0f32.to_bits()), af(0.0));
    assert_eq!(kf.value(0.5f32.to_bits()), af(0.05));
    assert_eq!(kf.value(20.5f32.to_bits()), af(0.75));
    assert_eq!(kf.value(21.5f32.to_bits()), af(3.0));
    assert_eq!(kf.value(30.0f32.to_bits()), af(5.0));
}

#[test]
fn test_discreet_buckets_snap() {
    let kf = LinearKeyFrameCurve { keys: vec![key(0.0, 0.0), key(1.0, 1.0)] };
    let discreet = kf.to_discreet(4, 1.0f32.to_bits());
    // The resampled curve snaps to bucket values without interpolating.
    assert_eq!(discreet.value(0.6f32.to_bits()), af(0.5));
    assert_eq!(discreet.value(0.0f32.to_bits()), af(0.0));
    // Out-of-range times clamp to the first and last bucket.
    assert_eq!(discreet.value((-0.5f32).to_bits()), af(0.0));
    assert_eq!(discreet.value(2.0f32.to_bits()), af(0.75));
}

#[test]
fn test_discreet_direct_keys() {
    let discreet = DiscreetKeyFrameCurve {
        keys: vec![key(0.0, 3.0), key(0.5, 7.0)],
    };
    // Bucket index is floor(time * key_count), clamped.
    assert_eq!(discreet.value(0.2f32.to_bits()), af(3.0));
    assert_eq!(discreet.value(0.6f32.to_bits()), af(7.0));
    assert_eq!(discreet.value(9.0f32.to_bits()), af(7.0));
}

#[test]
fn test_single_key_curve_is_constant() {
    let kf = LinearKeyFrameCurve { keys: vec![key(3.0, 8.0)] };
    assert_eq!(kf.value((-100.0f32).to_bits()), af(8.0));
    assert_eq!(kf.value(3.0f32.to_bits()), af(8.0));
    assert_eq!(kf.value(100.0f32.to_bits()), af(8.0));
}

#[test]
fn test_equal_key_times_clamp() {
    // Two keys at the same time: before it the first clamps, at and
    // after it the last clamps; no division by the zero gap happens.
    let kf = LinearKeyFrameCurve { keys: vec![key(1.0, 5.0), key(1.0, 9.0)] };
    assert_eq!(kf.value(0.5f32.to_bits()), af(5.0));
    assert_eq!(kf.value(1.0f32.to_bits()), af(9.0));
    assert_eq!(kf.value(2.0f32.to_bits()), af(9.0));
}

#[test]
fn test_interpolation_extrapolates_without_clamp() {
    // Animatable::interpolate itself does not clamp the progress value;
    // clamping is a curve-level policy.
    let a = af(0.0);
    let b = af(10.0);
    let r = Animatable::interpolate(&a, &b, 2.0f32.to_bits());
    assert_eq!(r, af(20.0));
}

#[test]
fn test_mismatched_lengths_truncate() {
    let a = av(&[1.0, 2.0, 3.0]);
    let b = av(&[10.0, 20.0]);
    assert_eq!(a.add_weighted(0.5f32.to_bits(), &b), av(&[6.0, 12.0]));
    assert_eq!(
        Animatable::interpolate(&a, &b, 0.5f32.to_bits()),
        av(&[5.5, 11.0])
    );
    assert_eq!(a.weighted(2.0f32.to_bits()), av(&[2.0, 4.0, 6.0]));
}

#[test]
fn test_scalar_ordering_matches_ieee() {
    assert!(scalar_gt(2.0f32.to_bits(), 1.0f32.to_bits()));
    assert!(scalar_gt(1.0f32.to_bits(), (-1.0f32).to_bits()));
    assert!(scalar_gt((-1.0f32).to_bits(), (-2.0f32).to_bits()));
    assert!(!scalar_gt(1.0f32.to_bits(), 1.0f32.to_bits()));
    // The two zeros compare equal, in either order.
    assert!(!scalar_gt(0.0f32.to_bits(), (-0.0f32).to_bits()));
    assert!(!scalar_gt((-0.0f32).to_bits(), 0.0f32.to_bits()));
    // NaN compares greater than nothing, and nothing exceeds NaN.
    assert!(!scalar_gt(f32::NAN.to_bits(), 1.0f32.to_bits()));
    assert!(!scalar_gt(1.0f32.to_bits(), f32::NAN.to_bits()));
}
