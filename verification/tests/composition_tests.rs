use pyramid_animation::{
    Animatable, CurveTrack, EntityPath, NamedPropRef, Track, TrackResources, TrackSet, TrackSpec,
    ValueSpec, WeightedTrack, WeightedTracks,
};

fn af(x: f32) -> Animatable {
    Animatable::new_float(x.to_bits())
}

fn named(key: &str) -> NamedPropRef {
    NamedPropRef::new(EntityPath::This, key)
}

fn fixed(key: &str, value: f32) -> Track {
    Track::Curve(CurveTrack::new_fixed_value(named(key), af(value)))
}

#[test]
fn test_track_set_from_pon() {
    let resources = TrackResources::new();
    let desc = TrackSpec::TrackSet(vec![
        TrackSpec::FixedValue { property: named("x"), value: ValueSpec::Scalar(0.5f32.to_bits()) },
        TrackSpec::FixedValue { property: named("y"), value: ValueSpec::Scalar(0.2f32.to_bits()) },
    ]);
    let anim_set = Track::from_spec(&desc, &resources).unwrap();
    assert_eq!(
        anim_set.value_at(0),
        vec![(named("x"), af(0.5)), (named("y"), af(0.2))]
    );
}

#[test]
fn test_tracks() {
    let setup = WeightedTracks {
        tracks: vec![
            WeightedTrack { weight: 0.1f32.to_bits(), track: fixed("x", 10.0) },
            WeightedTrack { weight: 0.5f32.to_bits(), track: fixed("y", 10.0) },
            WeightedTrack { weight: 0.2f32.to_bits(), track: fixed("y", 100.0) },
        ],
    };
    assert_eq!(
        setup.value_at(0),
        vec![(named("x"), af(1.0)), (named("y"), af(25.0))]
    );
}

fn value_of(contribs: &[(NamedPropRef, Animatable)], key: &NamedPropRef) -> f32 {
    for (k, v) in contribs {
        if k == key {
            return f32::from_bits(v.value[0]);
        }
    }
    panic!("property not contributed");
}

#[test]
fn test_weighted_blend_order_tolerance() {
    // The blend is order-independent across properties, and within one
    // property reordering only moves floating-point error within
    // tolerance.
    let one = WeightedTracks {
        tracks: vec![
            WeightedTrack { weight: 0.1f32.to_bits(), track: fixed("x", 10.0) },
            WeightedTrack { weight: 0.5f32.to_bits(), track: fixed("y", 10.0) },
            WeightedTrack { weight: 0.2f32.to_bits(), track: fixed("y", 100.0) },
        ],
    };
    let other = WeightedTracks {
        tracks: vec![
            WeightedTrack { weight: 0.2f32.to_bits(), track: fixed("y", 100.0) },
            WeightedTrack { weight: 0.1f32.to_bits(), track: fixed("x", 10.0) },
            WeightedTrack { weight: 0.5f32.to_bits(), track: fixed("y", 10.0) },
        ],
    };
    let a = one.value_at(0);
    let b = other.value_at(0);
    assert!((value_of(&a, &named("x")) - value_of(&b, &named("x"))).abs() < 1e-4);
    assert!((value_of(&a, &named("y")) - value_of(&b, &named("y"))).abs() < 1e-4);
    assert!((value_of(&a, &named("x")) - 1.0).abs() < 1e-4);
    assert!((value_of(&a, &named("y")) - 25.0).abs() < 1e-4);
}

#[test]
fn test_track_set_union_conflict_last_writer_wins() {
    let union = TrackSet { tracks: vec![fixed("p", 1.0), fixed("p", 2.0)] };
    let contribs = union.value_at(0);
    // Both contributions appear, in child order.
    assert_eq!(contribs, vec![(named("p"), af(1.0)), (named("p"), af(2.0))]);
    // Committing the list in order leaves the later child's value.
    let mut store: Vec<(NamedPropRef, Animatable)> = Vec::new();
    for (k, v) in contribs {
        if let Some(slot) = store.iter_mut().find(|(sk, _)| *sk == k) {
            slot.1 = v;
        } else {
            store.push((k, v));
        }
    }
    assert_eq!(store, vec![(named("p"), af(2.0))]);
}

#[test]
fn test_nested_sets_flatten_in_order() {
    let union = TrackSet {
        tracks: vec![
            Track::TrackSet(TrackSet { tracks: vec![fixed("a", 1.0), fixed("b", 2.0)] }),
            fixed("c", 3.0),
        ],
    };
    assert_eq!(
        union.value_at(0),
        vec![
            (named("a"), af(1.0)),
            (named("b"), af(2.0)),
            (named("c"), af(3.0)),
        ]
    );
}

#[test]
fn test_shared_resource_track() {
    let mut resources = TrackResources::new();
    resources
        .insert(
            1,
            &vec![TrackSpec::FixedValue {
                property: named("x"),
                value: ValueSpec::Scalar(0.5f32.to_bits()),
            }],
        )
        .unwrap();
    let track = Track::from_spec(&TrackSpec::FromResource(1), &resources).unwrap();
    assert_eq!(track.value_at(0), vec![(named("x"), af(0.5))]);
    // A second track shares the same definition.
    let again = Track::from_spec(&TrackSpec::FromResource(1), &resources).unwrap();
    assert_eq!(again.value_at(9999), vec![(named("x"), af(0.5))]);
}

#[test]
fn test_resource_definitions_can_reference_earlier_ones() {
    let mut resources = TrackResources::new();
    resources
        .insert(
            1,
            &vec![TrackSpec::FixedValue {
                property: named("x"),
                value: ValueSpec::Scalar(0.25f32.to_bits()),
            }],
        )
        .unwrap();
    resources
        .insert(2, &vec![TrackSpec::FromResource(1)])
        .unwrap();
    let track = Track::from_spec(&TrackSpec::FromResource(2), &resources).unwrap();
    assert_eq!(track.value_at(0), vec![(named("x"), af(0.25))]);
}
