use pyramid_animation::{
    Animatable, ConstructionError, EntityPath, KeySpec, Loop, NamedPropRef, Track, TrackResources,
    TrackSpec, ValueSpec,
};

fn named(key: &str) -> NamedPropRef {
    NamedPropRef::new(EntityPath::This, key)
}

fn sv(x: f32) -> ValueSpec {
    ValueSpec::Scalar(x.to_bits())
}

#[test]
fn test_empty_keys_rejected() {
    let resources = TrackResources::new();
    let desc = TrackSpec::KeyFramed {
        property: named("x"),
        duration: None,
        loop_type: None,
        curve_time: None,
        keys: vec![],
    };
    assert_eq!(
        Track::from_spec(&desc, &resources).unwrap_err(),
        ConstructionError::EmptyKeys
    );
}

#[test]
fn test_key_shape_mismatch_rejected() {
    let resources = TrackResources::new();
    let desc = TrackSpec::KeyFramed {
        property: named("x"),
        duration: None,
        loop_type: None,
        curve_time: None,
        keys: vec![
            KeySpec::Pair(0.0f32.to_bits(), sv(0.0)),
            KeySpec::Pair(
                1.0f32.to_bits(),
                ValueSpec::Vector(vec![1.0f32.to_bits(), 2.0f32.to_bits()]),
            ),
        ],
    };
    assert_eq!(
        Track::from_spec(&desc, &resources).unwrap_err(),
        ConstructionError::KeyShapeMismatch
    );
}

#[test]
fn test_vector_length_mismatch_rejected() {
    let resources = TrackResources::new();
    let desc = TrackSpec::KeyFramed {
        property: named("x"),
        duration: None,
        loop_type: None,
        curve_time: None,
        keys: vec![
            KeySpec::Pair(
                0.0f32.to_bits(),
                ValueSpec::Vector(vec![0.0f32.to_bits(), 0.0f32.to_bits()]),
            ),
            KeySpec::Pair(1.0f32.to_bits(), ValueSpec::Vector(vec![1.0f32.to_bits()])),
        ],
    };
    assert_eq!(
        Track::from_spec(&desc, &resources).unwrap_err(),
        ConstructionError::KeyShapeMismatch
    );
}

#[test]
fn test_unknown_resource_rejected() {
    let resources = TrackResources::new();
    assert_eq!(
        Track::from_spec(&TrackSpec::FromResource(7), &resources).unwrap_err(),
        ConstructionError::UnknownResource(7)
    );
}

#[test]
fn test_nested_error_propagates_in_order() {
    let resources = TrackResources::new();
    let desc = TrackSpec::TrackSet(vec![
        TrackSpec::FixedValue { property: named("x"), value: sv(1.0) },
        TrackSpec::FromResource(3),
        TrackSpec::FromResource(4),
    ]);
    // The first failing child, in description order, reports the error.
    assert_eq!(
        Track::from_spec(&desc, &resources).unwrap_err(),
        ConstructionError::UnknownResource(3)
    );
}

#[test]
fn test_arena_insert_rejects_bad_definition() {
    let mut resources = TrackResources::new();
    assert_eq!(
        resources.insert(1, &vec![TrackSpec::FromResource(99)]).unwrap_err(),
        ConstructionError::UnknownResource(99)
    );
    // The failed insert leaves the arena unchanged.
    assert_eq!(
        Track::from_spec(&TrackSpec::FromResource(1), &resources).unwrap_err(),
        ConstructionError::UnknownResource(1)
    );
}

#[test]
fn test_weighted_description_constructs() {
    let resources = TrackResources::new();
    let desc = TrackSpec::WeightedTracks(vec![
        (0.25f32.to_bits(), TrackSpec::FixedValue { property: named("x"), value: sv(8.0) }),
        (0.5f32.to_bits(), TrackSpec::FixedValue { property: named("x"), value: sv(4.0) }),
    ]);
    let track = Track::from_spec(&desc, &resources).unwrap();
    assert_eq!(
        track.value_at(0),
        vec![(named("x"), Animatable::new_float(4.0f32.to_bits()))]
    );
}

#[test]
fn test_round_trip_equivalent_descriptions() {
    // One description writes its keys as records, the other as pairs;
    // both carry the same content, so the tracks they construct produce
    // identical value streams at every sampled time.
    let resources = TrackResources::new();
    let record_form = TrackSpec::KeyFramed {
        property: named("x"),
        duration: Some(2.0f32.to_bits()),
        loop_type: Some(Loop::Forever),
        curve_time: Some(pyramid_animation::CurveTime::Absolute),
        keys: vec![
            KeySpec::Timed { time: 0.0f32.to_bits(), value: sv(0.0) },
            KeySpec::Timed { time: 2.0f32.to_bits(), value: sv(4.0) },
        ],
    };
    let pair_form = TrackSpec::KeyFramed {
        property: named("x"),
        duration: Some(2.0f32.to_bits()),
        loop_type: Some(Loop::Forever),
        curve_time: Some(pyramid_animation::CurveTime::Absolute),
        keys: vec![
            KeySpec::Pair(0.0f32.to_bits(), sv(0.0)),
            KeySpec::Pair(2.0f32.to_bits(), sv(4.0)),
        ],
    };
    let first = Track::from_spec(&record_form, &resources).unwrap();
    let second = Track::from_spec(&pair_form, &resources).unwrap();
    let stream_one: Vec<_> = (0..30).map(|i| first.value_at(i * 100)).collect();
    let stream_two: Vec<_> = (0..30).map(|i| second.value_at(i * 100)).collect();
    assert_eq!(stream_one, stream_two);
}
