use pyramid_animation::{
    Animatable, Curve, CurveTime, CurveTrack, EntityPath, Key, LinearKeyFrameCurve, Loop,
    NamedPropRef, Track, TrackResources, TrackSpec, KeySpec, ValueSpec,
};

fn af(x: f32) -> Animatable {
    Animatable::new_float(x.to_bits())
}

fn key(t: f32, v: f32) -> Key {
    Key(t.to_bits(), Animatable::new_float(v.to_bits()))
}

fn x_ref() -> NamedPropRef {
    NamedPropRef::new(EntityPath::This, "x")
}

fn unit_linear_track(loop_type: Loop) -> CurveTrack {
    CurveTrack {
        curve: Curve::Linear(LinearKeyFrameCurve { keys: vec![key(0.0, 0.0), key(1.0, 1.0)] }),
        offset: 0,
        property: x_ref(),
        loop_type,
        duration: 1000,
        curve_time: CurveTime::Absolute,
    }
}

#[test]
fn curve_track_test_animation() {
    let kf = unit_linear_track(Loop::Once);
    assert_eq!(kf.value_at(100), vec![(x_ref(), af(0.1))]);
    assert_eq!(kf.value_at(600), vec![(x_ref(), af(0.6))]);
}

fn key_framed_spec(first_key_as_pair: bool) -> TrackSpec {
    let first = if first_key_as_pair {
        KeySpec::Pair(0.0f32.to_bits(), ValueSpec::Scalar(0.0f32.to_bits()))
    } else {
        KeySpec::Timed { time: 0.0f32.to_bits(), value: ValueSpec::Scalar(0.0f32.to_bits()) }
    };
    TrackSpec::KeyFramed {
        property: x_ref(),
        duration: None,
        loop_type: Some(Loop::Forever),
        curve_time: None,
        keys: vec![
            first,
            KeySpec::Timed { time: 1.0f32.to_bits(), value: ValueSpec::Scalar(1.0f32.to_bits()) },
        ],
    }
}

#[test]
fn curve_track_test_animation_from_pon() {
    let resources = TrackResources::new();
    let kf = Track::from_spec(&key_framed_spec(false), &resources).unwrap();
    assert_eq!(kf.value_at(100), vec![(x_ref(), af(0.1))]);
    assert_eq!(kf.value_at(600), vec![(x_ref(), af(0.6))]);
}

#[test]
fn curve_track_test_animation_from_pon_alternative_syntax() {
    let resources = TrackResources::new();
    let kf = Track::from_spec(&key_framed_spec(true), &resources).unwrap();
    assert_eq!(kf.value_at(100), vec![(x_ref(), af(0.1))]);
    assert_eq!(kf.value_at(600), vec![(x_ref(), af(0.6))]);
}

#[test]
fn test_animation_from_pon_multivalue() {
    let resources = TrackResources::new();
    let desc = TrackSpec::KeyFramed {
        property: x_ref(),
        duration: None,
        loop_type: Some(Loop::Forever),
        curve_time: None,
        keys: vec![
            KeySpec::Pair(
                0.0f32.to_bits(),
                ValueSpec::Vector(vec![0.0f32.to_bits(), 10.0f32.to_bits()]),
            ),
            KeySpec::Pair(
                1.0f32.to_bits(),
                ValueSpec::Vector(vec![(-2.0f32).to_bits(), 0.0f32.to_bits()]),
            ),
        ],
    };
    let kf = Track::from_spec(&desc, &resources).unwrap();
    assert_eq!(
        kf.value_at(500),
        vec![(x_ref(), Animatable::new(vec![(-1.0f32).to_bits(), 5.0f32.to_bits()]))]
    );
}

#[test]
fn test_loop_forever_wraps() {
    let kf = unit_linear_track(Loop::Forever);
    // Past the duration the effective time wraps modulo the duration.
    assert_eq!(kf.value_at(1600), kf.value_at(600));
    assert_eq!(kf.value_at(1600), vec![(x_ref(), af(0.6))]);
}

#[test]
fn test_loop_once_exhausts() {
    let kf = unit_linear_track(Loop::Once);
    // Past the duration a Once track contributes nothing at all.
    assert_eq!(kf.value_at(1600), vec![]);
    // Exactly at the duration it still contributes.
    assert_eq!(kf.value_at(1000), vec![(x_ref(), af(1.0))]);
}

#[test]
fn test_before_offset_contributes_nothing() {
    let mut kf = unit_linear_track(Loop::Forever);
    kf.offset = 500;
    assert_eq!(kf.value_at(100), vec![]);
    assert_eq!(kf.value_at(700), vec![(x_ref(), af(0.2))]);
}

#[test]
fn test_relative_curve_time() {
    let kf = CurveTrack {
        curve: Curve::Linear(LinearKeyFrameCurve { keys: vec![key(0.0, 0.0), key(1.0, 1.0)] }),
        offset: 0,
        property: x_ref(),
        loop_type: Loop::Once,
        duration: 4000,
        curve_time: CurveTime::Relative,
    };
    // Relative time feeds the curve progress through the duration.
    assert_eq!(kf.value_at(1000), vec![(x_ref(), af(0.25))]);
    assert_eq!(kf.value_at(4000), vec![(x_ref(), af(1.0))]);
}

#[test]
fn test_new_fixed_value_track() {
    let track = CurveTrack::new_fixed_value(x_ref(), af(0.7));
    // The value comes back on every tick, indefinitely.
    assert_eq!(track.value_at(0), vec![(x_ref(), af(0.7))]);
    assert_eq!(track.value_at(123_456), vec![(x_ref(), af(0.7))]);
    assert_eq!(track.value_at(604_799_999), vec![(x_ref(), af(0.7))]);
}

#[test]
fn test_extreme_times_stay_total() {
    let kf = unit_linear_track(Loop::Forever);
    // Evaluation is total: the largest representable time wraps like any
    // other.
    let expected = (i64::MAX % 1000) as f32 / 1000.0;
    assert_eq!(kf.value_at(i64::MAX), vec![(x_ref(), af(expected))]);
    assert_eq!(kf.value_at(i64::MIN), vec![]);
}

#[test]
fn test_zero_duration_track_samples_start() {
    let mut kf = unit_linear_track(Loop::Forever);
    kf.duration = 0;
    // A non-positive duration wraps to the start of the curve rather
    // than dividing by zero.
    assert_eq!(kf.value_at(500), vec![(x_ref(), af(0.0))]);
    let mut once = unit_linear_track(Loop::Once);
    once.duration = 0;
    assert_eq!(once.value_at(500), vec![]);
}

#[test]
fn test_default_duration_is_one_second() {
    let resources = TrackResources::new();
    let kf = Track::from_spec(&key_framed_spec(false), &resources).unwrap();
    // The description leaves the duration out, so it is one second and,
    // with the forever loop, evaluation wraps after 1000 ms.
    assert_eq!(kf.value_at(1100), vec![(x_ref(), af(0.1))]);
}
