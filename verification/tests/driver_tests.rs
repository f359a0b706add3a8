use pyramid_animation::{
    Animatable, AnimationSubSystem, ConstructionError, EntityPath, NamedPropRef, PropRef,
    TrackResources, TrackSpec, ValueSpec,
};

fn named(key: &str) -> NamedPropRef {
    NamedPropRef::new(EntityPath::This, key)
}

fn af(x: f32) -> Animatable {
    Animatable::new_float(x.to_bits())
}

fn fixed_desc(key: &str, value: f32) -> TrackSpec {
    TrackSpec::FixedValue { property: named(key), value: ValueSpec::Scalar(value.to_bits()) }
}

#[test]
fn test_driver_tracks_one_entity() {
    let resources = TrackResources::new();
    let mut driver = AnimationSubSystem::new();
    assert_eq!(driver.elapsed(), 0);
    driver.set_animation(5, Some(&fixed_desc("x", 0.5)), &resources).unwrap();
    driver.advance(100);
    assert_eq!(driver.elapsed(), 100);
    assert_eq!(driver.contributions(5), Some(vec![(named("x"), af(0.5))]));
    assert_eq!(driver.contributions(6), None);
    assert_eq!(driver.entities(), vec![5]);
}

#[test]
fn test_driver_replaces_animation_wholesale() {
    let resources = TrackResources::new();
    let mut driver = AnimationSubSystem::new();
    driver.set_animation(1, Some(&fixed_desc("x", 1.0)), &resources).unwrap();
    assert!(driver.store_resolution(1, named("x"), PropRef::new(1, "x")));
    assert!(driver.cached_resolution(1, &named("x")).is_some());
    // Replacing the track discards the resolution cache with it.
    driver.set_animation(1, Some(&fixed_desc("y", 2.0)), &resources).unwrap();
    assert_eq!(driver.cached_resolution(1, &named("x")), None);
    assert_eq!(driver.contributions(1), Some(vec![(named("y"), af(2.0))]));
}

#[test]
fn test_driver_absent_animation_means_none() {
    let resources = TrackResources::new();
    let mut driver = AnimationSubSystem::new();
    driver.set_animation(1, Some(&fixed_desc("x", 1.0)), &resources).unwrap();
    driver.set_animation(1, None, &resources).unwrap();
    assert_eq!(driver.contributions(1), None);
    assert!(driver.entities().is_empty());
}

#[test]
fn test_driver_failed_construction_leaves_entity_unanimated() {
    let resources = TrackResources::new();
    let mut driver = AnimationSubSystem::new();
    driver.set_animation(1, Some(&fixed_desc("x", 1.0)), &resources).unwrap();
    let bad = TrackSpec::FromResource(9);
    assert_eq!(
        driver.set_animation(1, Some(&bad), &resources).unwrap_err(),
        ConstructionError::UnknownResource(9)
    );
    // The construction failure is not fatal, and the entity is simply
    // left without an active animation.
    assert_eq!(driver.contributions(1), None);
}

#[test]
fn test_driver_resolution_cache() {
    let resources = TrackResources::new();
    let mut driver = AnimationSubSystem::new();
    driver.set_animation(1, Some(&fixed_desc("x", 1.0)), &resources).unwrap();
    // Miss before anything is stored.
    assert_eq!(driver.cached_resolution(1, &named("x")), None);
    // Resolve-and-insert on the miss, then reuse on the hit.
    assert!(driver.store_resolution(1, named("x"), PropRef::new(42, "x")));
    assert_eq!(driver.cached_resolution(1, &named("x")), Some(PropRef::new(42, "x")));
    // Other references still miss, and unknown entities store nothing.
    assert_eq!(driver.cached_resolution(1, &named("y")), None);
    assert!(!driver.store_resolution(2, named("x"), PropRef::new(42, "x")));
}

#[test]
fn test_driver_shared_clock_spans_entities() {
    let resources = TrackResources::new();
    let mut driver = AnimationSubSystem::new();
    let ramp = TrackSpec::KeyFramed {
        property: named("x"),
        duration: None,
        loop_type: Some(pyramid_animation::Loop::Forever),
        curve_time: None,
        keys: vec![
            pyramid_animation::KeySpec::Pair(0.0f32.to_bits(), ValueSpec::Scalar(0.0f32.to_bits())),
            pyramid_animation::KeySpec::Pair(1.0f32.to_bits(), ValueSpec::Scalar(1.0f32.to_bits())),
        ],
    };
    driver.set_animation(1, Some(&ramp), &resources).unwrap();
    driver.set_animation(2, Some(&fixed_desc("y", 3.0)), &resources).unwrap();
    driver.advance(250);
    // One clock value serves every entity in the pass.
    assert_eq!(driver.contributions(1), Some(vec![(named("x"), af(0.25))]));
    assert_eq!(driver.contributions(2), Some(vec![(named("y"), af(3.0))]));
}
