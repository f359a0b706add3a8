//! The construction boundary: building tracks from typed descriptions.
//!
//! A `TrackSpec` is the typed, tagged structure a declarative document
//! parser hands over: key-framed curves, fixed values, track sets,
//! weighted blends, and references into an arena of shared, reusable track
//! set definitions. `Track::from_spec` turns one into a track or fails
//! with a descriptive error; it detects the value shape of a curve's first
//! key and requires every later key to match, and it rejects empty key
//! lists, so that every constructed track can be evaluated.
//!
//! A key may be written in either of two equivalent forms: as a
//! time/value record or as a time/value pair. Both carry the same content
//! and construct the same track.

use vstd::prelude::*;
use std::rc::Rc;
use crate::animatable::Animatable;
use crate::curve::{Curve, CurveV, Key, LinearKeyFrameCurve, keys_view};
use crate::curve_track::{CurveTime, CurveTrack, CurveTrackV, Loop};
use crate::props::{NamedPropRef, NamedPropRefV};
use crate::scalar::{Scalar, SCALAR_ONE, SCALAR_THOUSAND, mul_bits, trunc_bits, scalar_mul, scalar_trunc};
use crate::track::{
    Track, TrackV, TrackSetFromResource, tracks_view, tracks_wf, track_view, track_wf,
    weighted_tracks_view, weighted_wf, lemma_tracks_view, lemma_weighted_tracks_view,
};
use crate::track_set::TrackSet;
use crate::weighted_tracks::{WeightedTrack, WeightedTracks};

verus! {

/// The value carried by a declarative key or fixed-value track: a single
/// scalar or a vector of components.
#[derive(Debug, PartialEq)]
pub enum ValueSpec {
    Scalar(Scalar),
    Vector(Vec<Scalar>),
}

/// Mathematical model of a declarative value.
pub ghost enum ValueSpecV {
    Scalar(Scalar),
    Vector(Seq<Scalar>),
}

impl View for ValueSpec {
    type V = ValueSpecV;

    open spec fn view(&self) -> ValueSpecV {
        match self {
            ValueSpec::Scalar(s) => ValueSpecV::Scalar(*s),
            ValueSpec::Vector(v) => ValueSpecV::Vector(v@),
        }
    }
}

/// The components a declarative value contributes: a scalar becomes a
/// one-component vector.
pub open spec fn value_spec_components(v: ValueSpecV) -> Seq<Scalar> {
    match v {
        ValueSpecV::Scalar(s) => seq![s],
        ValueSpecV::Vector(components) => components,
    }
}

/// Whether two declarative values have the same shape: both scalars, or
/// both vectors of the same length.
pub open spec fn same_shape(a: ValueSpecV, b: ValueSpecV) -> bool {
    match (a, b) {
        (ValueSpecV::Scalar(_), ValueSpecV::Scalar(_)) => true,
        (ValueSpecV::Vector(x), ValueSpecV::Vector(y)) => x.len() == y.len(),
        _ => false,
    }
}

/// The models of a list of declarative keys, both forms collapsed.
pub open spec fn key_specs_view(keys: Seq<KeySpec>) -> Seq<(Scalar, ValueSpecV)> {
    keys.map_values(|k: KeySpec| k@)
}

/// A declarative key, in either of its two accepted forms: a time/value
/// record, or a two-element time/value pair. The forms are equivalent.
#[derive(Debug, PartialEq)]
pub enum KeySpec {
    Timed { time: Scalar, value: ValueSpec },
    Pair(Scalar, ValueSpec),
}

impl View for KeySpec {
    type V = (Scalar, ValueSpecV);

    open spec fn view(&self) -> (Scalar, ValueSpecV) {
        match self {
            KeySpec::Timed { time, value } => (*time, value@),
            KeySpec::Pair(time, value) => (*time, value@),
        }
    }
}

/// A typed, tagged declarative description of a track.
#[derive(Debug, PartialEq)]
pub enum TrackSpec {
    /// A curve track interpolating the given keys; `duration` defaults to
    /// one second, `loop_type` to `Once`, `curve_time` to `Absolute`.
    KeyFramed {
        property: NamedPropRef,
        duration: Option<Scalar>,
        loop_type: Option<Loop>,
        curve_time: Option<CurveTime>,
        keys: Vec<KeySpec>,
    },
    /// A track contributing a fixed value indefinitely.
    FixedValue { property: NamedPropRef, value: ValueSpec },
    /// A flat union of child tracks.
    TrackSet(Vec<TrackSpec>),
    /// A weighted blend of child tracks.
    WeightedTracks(Vec<(Scalar, TrackSpec)>),
    /// A reference to a shared, reusable track set definition.
    FromResource(u64),
}

/// Mathematical model of a track description.
pub ghost enum TrackSpecV {
    KeyFramed {
        property: NamedPropRefV,
        duration: Option<Scalar>,
        loop_type: Option<Loop>,
        curve_time: Option<CurveTime>,
        keys: Seq<(Scalar, ValueSpecV)>,
    },
    FixedValue { property: NamedPropRefV, value: ValueSpecV },
    TrackSet(Seq<TrackSpecV>),
    WeightedTracks(Seq<(Scalar, TrackSpecV)>),
    FromResource(u64),
}

/// The model of a track description.
pub open spec fn track_spec_view(d: TrackSpec) -> TrackSpecV
    decreases d,
{
    match d {
        TrackSpec::KeyFramed { property, duration, loop_type, curve_time, keys } => TrackSpecV::KeyFramed {
            property: property@,
            duration,
            loop_type,
            curve_time,
            keys: key_specs_view(keys@),
        },
        TrackSpec::FixedValue { property, value } => TrackSpecV::FixedValue {
            property: property@,
            value: value@,
        },
        TrackSpec::TrackSet(children) => TrackSpecV::TrackSet(spec_list_view(children@)),
        TrackSpec::WeightedTracks(children) => TrackSpecV::WeightedTracks(
            weighted_spec_list_view(children@),
        ),
        TrackSpec::FromResource(id) => TrackSpecV::FromResource(id),
    }
}

/// The models of a list of track descriptions.
pub open spec fn spec_list_view(s: Seq<TrackSpec>) -> Seq<TrackSpecV>
    decreases s,
{
    if s.len() == 0 {
        Seq::empty()
    } else {
        seq![track_spec_view(s[0])] + spec_list_view(s.drop_first())
    }
}

/// `spec_list_view` maps the list elementwise.
pub proof fn lemma_spec_list_view(s: Seq<TrackSpec>)
    ensures
        spec_list_view(s).len() == s.len(),
        forall|i: int| 0 <= i < s.len() ==> spec_list_view(s)[i] == track_spec_view(s[i]),
    decreases s.len(),
{
    if s.len() > 0 {
        lemma_spec_list_view(s.drop_first());
        assert forall|i: int| 0 <= i < s.len() implies spec_list_view(s)[i] == track_spec_view(
            s[i],
        ) by {
            if i > 0 {
                assert(s.drop_first()[i - 1] == s[i]);
                assert(spec_list_view(s)[i] == spec_list_view(s.drop_first())[i - 1]);
            }
        }
    }
}

/// The models of a list of weighted track descriptions.
pub open spec fn weighted_spec_list_view(s: Seq<(Scalar, TrackSpec)>) -> Seq<(Scalar, TrackSpecV)>
    decreases s,
{
    if s.len() == 0 {
        Seq::empty()
    } else {
        seq![(s[0].0, track_spec_view(s[0].1))] + weighted_spec_list_view(s.drop_first())
    }
}

/// `weighted_spec_list_view` maps the list elementwise.
pub proof fn lemma_weighted_spec_list_view(s: Seq<(Scalar, TrackSpec)>)
    ensures
        weighted_spec_list_view(s).len() == s.len(),
        forall|i: int| 0 <= i < s.len() ==> weighted_spec_list_view(s)[i] == (
            s[i].0,
            track_spec_view(s[i].1),
        ),
    decreases s.len(),
{
    if s.len() > 0 {
        lemma_weighted_spec_list_view(s.drop_first());
        assert forall|i: int| 0 <= i < s.len() implies weighted_spec_list_view(s)[i] == (
            s[i].0,
            track_spec_view(s[i].1),
        ) by {
            if i > 0 {
                assert(s.drop_first()[i - 1] == s[i]);
                assert(weighted_spec_list_view(s)[i] == weighted_spec_list_view(s.drop_first())[i - 1]);
            }
        }
    }
}

impl View for TrackSpec {
    type V = TrackSpecV;

    open spec fn view(&self) -> TrackSpecV {
        track_spec_view(*self)
    }
}

/// Why a track could not be constructed from its description.
#[derive(Debug, Clone, Copy, PartialEq, Eq, Structural)]
pub enum ConstructionError {
    /// A key-framed track carried no keys.
    EmptyKeys,
    /// A key's value shape differs from the first key's.
    KeyShapeMismatch,
    /// A referenced shared track set is not in the arena.
    UnknownResource(u64),
}

/// An arena of named, reusable track set definitions, handed out as
/// read-only shared handles and never deep-cloned per entity.
#[derive(Debug)]
pub struct TrackResources {
    entries: Vec<(u64, Rc<TrackSet>)>,
}

/// The arena's entries as an id-to-definition map; a later entry for an
/// id shadows an earlier one.
pub open spec fn resources_map(s: Seq<(u64, Rc<TrackSet>)>) -> Map<u64, Seq<TrackV>>
    decreases s,
{
    if s.len() == 0 {
        Map::empty()
    } else {
        resources_map(s.drop_last()).insert(s.last().0, s.last().1@)
    }
}

/// Every definition of the arena can be evaluated.
pub open spec fn resources_wf(m: Map<u64, Seq<TrackV>>) -> bool {
    forall|id: u64| m.dom().contains(id) ==> tracks_wf(#[trigger] m[id])
}

impl View for TrackResources {
    type V = Map<u64, Seq<TrackV>>;

    closed spec fn view(&self) -> Map<u64, Seq<TrackV>> {
        resources_map(self.entries@)
    }
}

impl TrackResources {
    /// An empty arena.
    pub fn new() -> (r: TrackResources)
        ensures
            r@ == Map::<u64, Seq<TrackV>>::empty(),
            resources_wf(r@),
    {
        let r = TrackResources { entries: Vec::new() };
        proof {
            assert(r@ =~= Map::<u64, Seq<TrackV>>::empty());
        }
        r
    }

    /// Looks a definition up by id.
    fn get(&self, id: u64) -> (r: Option<&Rc<TrackSet>>)
        ensures
            match r {
                Some(set) => self@.dom().contains(id) && set@ == self@[id],
                None => !self@.dom().contains(id),
            },
    {
        let mut i: usize = self.entries.len();
        while i > 0
            invariant
                i <= self.entries@.len(),
                forall|k: int| i <= k < self.entries@.len() ==> (#[trigger] self.entries@[k]).0 != id,
            decreases i,
        {
            i = i - 1;
            if self.entries[i].0 == id {
                proof {
                    lemma_resources_map_last(self.entries@, i as int);
                }
                return Some(&self.entries[i].1);
            }
        }
        proof {
            lemma_resources_map_absent(self.entries@, id);
        }
        None
    }
}

/// When index `i` holds the last entry for its id, the map holds that
/// entry's definition for that id.
proof fn lemma_resources_map_last(s: Seq<(u64, Rc<TrackSet>)>, i: int)
    requires
        0 <= i < s.len(),
        forall|k: int| i < k < s.len() ==> (#[trigger] s[k]).0 != s[i].0,
    ensures
        resources_map(s).dom().contains(s[i].0),
        resources_map(s)[s[i].0] == s[i].1@,
    decreases s.len(),
{
    if i + 1 == s.len() {
    } else {
        assert(s.drop_last()[i] == s[i]);
        assert(forall|k: int| i < k < s.drop_last().len() ==> (#[trigger] s.drop_last()[k]).0 == s[k].0);
        lemma_resources_map_last(s.drop_last(), i);
        assert(s.last().0 != s[i].0);
    }
}

/// An id no entry carries is not in the map.
proof fn lemma_resources_map_absent(s: Seq<(u64, Rc<TrackSet>)>, id: u64)
    requires
        forall|k: int| 0 <= k < s.len() ==> (#[trigger] s[k]).0 != id,
    ensures
        !resources_map(s).dom().contains(id),
    decreases s.len(),
{
    if s.len() > 0 {
        assert(forall|k: int| 0 <= k < s.drop_last().len() ==> (#[trigger] s.drop_last()[k]).0 == s[k].0);
        lemma_resources_map_absent(s.drop_last(), id);
    }
}


/// Whether every key's value has the same shape as the first key's.
pub open spec fn keys_ok(keys: Seq<(Scalar, ValueSpecV)>) -> bool {
    forall|i: int| 0 <= i < keys.len() ==> same_shape((#[trigger] keys[i]).1, keys[0].1)
}

/// Declarative keys as curve keys: each value becomes its components.
pub open spec fn convert_keys(keys: Seq<(Scalar, ValueSpecV)>) -> Seq<(Scalar, Seq<Scalar>)> {
    keys.map_values(|k: (Scalar, ValueSpecV)| (k.0, value_spec_components(k.1)))
}

/// The curve track a key-framed description constructs: a linear curve
/// over the converted keys, no offset, the described duration in
/// milliseconds (one second by default), loop `Once` and the `Absolute`
/// time domain by default. An empty key list and a key whose value shape
/// differs from the first key's are rejected.
pub open spec fn construct_key_framed(
    property: NamedPropRefV,
    duration: Option<Scalar>,
    loop_type: Option<Loop>,
    curve_time: Option<CurveTime>,
    keys: Seq<(Scalar, ValueSpecV)>,
) -> Result<TrackV, ConstructionError> {
    if keys.len() == 0 {
        Err(ConstructionError::EmptyKeys)
    } else if !keys_ok(keys) {
        Err(ConstructionError::KeyShapeMismatch)
    } else {
        Ok(
            TrackV::Curve(
                CurveTrackV {
                    curve: CurveV::Linear(convert_keys(keys)),
                    offset: 0,
                    property,
                    loop_type: match loop_type {
                        Some(l) => l,
                        None => Loop::Once,
                    },
                    duration: trunc_bits(
                        mul_bits(
                            match duration {
                                Some(x) => x,
                                None => SCALAR_ONE,
                            },
                            SCALAR_THOUSAND,
                        ),
                    ) as int,
                    curve_time: match curve_time {
                        Some(c) => c,
                        None => CurveTime::Absolute,
                    },
                },
            ),
        )
    }
}

/// The track a fixed-value description constructs: a fixed-value curve
/// looping forever over a one-week duration in the absolute time domain.
pub open spec fn construct_fixed_value(property: NamedPropRefV, value: ValueSpecV) -> TrackV {
    TrackV::Curve(
        CurveTrackV {
            curve: CurveV::Fixed(value_spec_components(value)),
            offset: 0,
            property,
            loop_type: Loop::Forever,
            duration: 604_800_000,
            curve_time: CurveTime::Absolute,
        },
    )
}

/// The track a description constructs against the given arena, or the
/// first error met, in description order.
pub open spec fn construct(d: TrackSpecV, res: Map<u64, Seq<TrackV>>) -> Result<
    TrackV,
    ConstructionError,
>
    decreases d,
{
    match d {
        TrackSpecV::KeyFramed { property, duration, loop_type, curve_time, keys } => construct_key_framed(
            property,
            duration,
            loop_type,
            curve_time,
            keys,
        ),
        TrackSpecV::FixedValue { property, value } => Ok(construct_fixed_value(property, value)),
        TrackSpecV::TrackSet(children) => match construct_list(children, res) {
            Ok(ts) => Ok(TrackV::TrackSet(ts)),
            Err(e) => Err(e),
        },
        TrackSpecV::WeightedTracks(children) => match construct_weighted_list(children, res) {
            Ok(ts) => Ok(TrackV::Weighted(ts)),
            Err(e) => Err(e),
        },
        TrackSpecV::FromResource(id) => if res.dom().contains(id) {
            Ok(TrackV::FromResource(res[id]))
        } else {
            Err(ConstructionError::UnknownResource(id))
        },
    }
}

/// The tracks a list of descriptions constructs, or the first error met.
pub open spec fn construct_list(children: Seq<TrackSpecV>, res: Map<u64, Seq<TrackV>>) -> Result<
    Seq<TrackV>,
    ConstructionError,
>
    decreases children,
{
    if children.len() == 0 {
        Ok(Seq::empty())
    } else {
        match construct_list(children.drop_last(), res) {
            Err(e) => Err(e),
            Ok(acc) => match construct(children.last(), res) {
                Ok(t) => Ok(acc.push(t)),
                Err(e) => Err(e),
            },
        }
    }
}

/// The weighted tracks a list of weighted descriptions constructs, or the
/// first error met.
pub open spec fn construct_weighted_list(
    children: Seq<(Scalar, TrackSpecV)>,
    res: Map<u64, Seq<TrackV>>,
) -> Result<Seq<(Scalar, TrackV)>, ConstructionError>
    decreases children,
{
    if children.len() == 0 {
        Ok(Seq::empty())
    } else {
        match construct_weighted_list(children.drop_last(), res) {
            Err(e) => Err(e),
            Ok(acc) => match construct(children.last().1, res) {
                Ok(t) => Ok(acc.push((children.last().0, t))),
                Err(e) => Err(e),
            },
        }
    }
}

/// Once a prefix of the list fails, the whole list fails the same way.
proof fn lemma_construct_list_stops(children: Seq<TrackSpecV>, res: Map<u64, Seq<TrackV>>, i: int)
    requires
        0 <= i <= children.len(),
        construct_list(children.take(i), res) is Err,
    ensures
        construct_list(children, res) == construct_list(children.take(i), res),
    decreases children.len() - i,
{
    if i == children.len() {
        assert(children.take(i) =~= children);
    } else {
        assert(children.take(i + 1).drop_last() =~= children.take(i));
        lemma_construct_list_stops(children, res, i + 1);
    }
}

/// Once a prefix of the weighted list fails, the whole list fails the
/// same way.
proof fn lemma_construct_weighted_list_stops(
    children: Seq<(Scalar, TrackSpecV)>,
    res: Map<u64, Seq<TrackV>>,
    i: int,
)
    requires
        0 <= i <= children.len(),
        construct_weighted_list(children.take(i), res) is Err,
    ensures
        construct_weighted_list(children, res) == construct_weighted_list(children.take(i), res),
    decreases children.len() - i,
{
    if i == children.len() {
        assert(children.take(i) =~= children);
    } else {
        assert(children.take(i + 1).drop_last() =~= children.take(i));
        lemma_construct_weighted_list_stops(children, res, i + 1);
    }
}

/// A well-formed track list stays well-formed when a well-formed track is
/// appended.
pub proof fn lemma_tracks_wf_push(s: Seq<TrackV>, t: TrackV)
    requires
        tracks_wf(s),
        track_wf(t),
    ensures
        tracks_wf(s.push(t)),
    decreases s.len(),
{
    if s.len() == 0 {
        assert(s.push(t)[0] == t);
        assert(s.push(t).drop_first() =~= Seq::<TrackV>::empty());
        assert(tracks_wf(Seq::<TrackV>::empty()));
    } else {
        assert(s.push(t)[0] == s[0]);
        assert(s.push(t).drop_first() =~= s.drop_first().push(t));
        lemma_tracks_wf_push(s.drop_first(), t);
    }
}

/// A well-formed weighted track list stays well-formed when a weighted
/// well-formed track is appended.
pub proof fn lemma_weighted_wf_push(s: Seq<(Scalar, TrackV)>, w: Scalar, t: TrackV)
    requires
        weighted_wf(s),
        track_wf(t),
    ensures
        weighted_wf(s.push((w, t))),
    decreases s.len(),
{
    if s.len() == 0 {
        assert(s.push((w, t))[0] == (w, t));
        assert(s.push((w, t)).drop_first() =~= Seq::<(Scalar, TrackV)>::empty());
        assert(weighted_wf(Seq::<(Scalar, TrackV)>::empty()));
    } else {
        assert(s.push((w, t))[0] == s[0]);
        assert(s.push((w, t)).drop_first() =~= s.drop_first().push((w, t)));
        lemma_weighted_wf_push(s.drop_first(), w, t);
    }
}

/// Copies a vector of scalar components.
fn copy_scalars(v: &Vec<Scalar>) -> (r: Vec<Scalar>)
    ensures
        r@ == v@,
{
    let mut r: Vec<Scalar> = Vec::new();
    let mut i: usize = 0;
    while i < v.len()
        invariant
            i <= v.len(),
            r@ == v@.subrange(0, i as int),
        decreases v.len() - i,
    {
        r.push(v[i]);
        i = i + 1;
    }
    proof {
        assert(r@ == v@);
    }
    r
}

impl ValueSpec {
    /// The components this value contributes: a scalar becomes a
    /// one-component vector.
    pub fn components(&self) -> (r: Vec<Scalar>)
        ensures
            r@ == value_spec_components(self@),
    {
        match self {
            ValueSpec::Scalar(s) => {
                let mut r: Vec<Scalar> = Vec::new();
                r.push(*s);
                proof {
                    assert(r@ =~= seq![*s]);
                }
                r
            },
            ValueSpec::Vector(v) => copy_scalars(v),
        }
    }

    /// Decides whether two values have the same shape.
    pub fn matches_shape(&self, other: &ValueSpec) -> (r: bool)
        ensures
            r == same_shape(self@, other@),
    {
        match (self, other) {
            (ValueSpec::Scalar(_), ValueSpec::Scalar(_)) => true,
            (ValueSpec::Vector(x), ValueSpec::Vector(y)) => x.len() == y.len(),
            _ => false,
        }
    }
}

impl KeySpec {
    /// The key's time, whichever form it is written in.
    pub fn time(&self) -> (r: Scalar)
        ensures
            r == self@.0,
    {
        match self {
            KeySpec::Timed { time, value: _ } => *time,
            KeySpec::Pair(time, _) => *time,
        }
    }

    /// The key's value, whichever form it is written in.
    pub fn value(&self) -> (r: &ValueSpec)
        ensures
            r@ == self@.1,
    {
        match self {
            KeySpec::Timed { time: _, value } => value,
            KeySpec::Pair(_, value) => value,
        }
    }
}

/// Relies on `Rc::clone`, which returns a second handle to the same
/// shared allocation.
#[verifier::external_body]
fn clone_handle(rc: &Rc<TrackSet>) -> (r: Rc<TrackSet>)
    ensures
        r == *rc,
{
    Rc::clone(rc)
}


/// Builds the tracks of a list of descriptions, or fails with the first
/// error met.
fn build_tracks(children: &Vec<TrackSpec>, resources: &TrackResources) -> (r: Result<
    Vec<Track>,
    ConstructionError,
>)
    ensures
        match r {
            Ok(v) => construct_list(spec_list_view(children@), resources@) == Ok::<
                Seq<TrackV>,
                ConstructionError,
            >(tracks_view(v@)) && (resources_wf(resources@) ==> tracks_wf(tracks_view(v@))),
            Err(e) => construct_list(spec_list_view(children@), resources@) == Err::<
                Seq<TrackV>,
                ConstructionError,
            >(e),
        },
    decreases children@,
{
    let ghost sv = spec_list_view(children@);
    let mut built: Vec<Track> = Vec::new();
    let mut i: usize = 0;
    proof {
        assert(sv.take(0) =~= Seq::<TrackSpecV>::empty());
        assert(tracks_view(built@) =~= Seq::<TrackV>::empty());
        lemma_spec_list_view(children@);
    }
    while i < children.len()
        invariant
            sv == spec_list_view(children@),
            children@.len() == sv.len(),
            i <= children@.len(),
            built@.len() == i,
            construct_list(sv.take(i as int), resources@) == Ok::<Seq<TrackV>, ConstructionError>(
                tracks_view(built@),
            ),
            resources_wf(resources@) ==> tracks_wf(tracks_view(built@)),
        decreases children@.len() - i,
    {
        proof {
            lemma_spec_list_view(children@);
            assert(decreases_to!(children@ => children@[i as int]));
            assert(sv.take(i as int + 1).drop_last() =~= sv.take(i as int));
            assert(sv.take(i as int + 1).last() == sv[i as int]);
        }
        match Track::from_spec(&children[i], resources) {
            Ok(t) => {
                let ghost prior = built@;
                let ghost tv = track_view(t);
                built.push(t);
                proof {
                    lemma_tracks_view(prior);
                    lemma_tracks_view(built@);
                    assert(tracks_view(built@) =~= tracks_view(prior).push(tv));
                    if resources_wf(resources@) {
                        lemma_tracks_wf_push(tracks_view(prior), tv);
                    }
                }
            },
            Err(e) => {
                proof {
                    lemma_construct_list_stops(sv, resources@, i as int + 1);
                }
                return Err(e);
            },
        }
        i = i + 1;
    }
    proof {
        assert(sv.take(sv.len() as int) =~= sv);
    }
    Ok(built)
}

/// Builds the weighted tracks of a list of weighted descriptions, or
/// fails with the first error met.
fn build_weighted_tracks(
    children: &Vec<(Scalar, TrackSpec)>,
    resources: &TrackResources,
) -> (r: Result<Vec<WeightedTrack>, ConstructionError>)
    ensures
        match r {
            Ok(v) => construct_weighted_list(weighted_spec_list_view(children@), resources@)
                == Ok::<Seq<(Scalar, TrackV)>, ConstructionError>(weighted_tracks_view(v@)) && (
            resources_wf(resources@) ==> weighted_wf(weighted_tracks_view(v@))),
            Err(e) => construct_weighted_list(weighted_spec_list_view(children@), resources@)
                == Err::<Seq<(Scalar, TrackV)>, ConstructionError>(e),
        },
    decreases children@,
{
    let ghost sv = weighted_spec_list_view(children@);
    let mut built: Vec<WeightedTrack> = Vec::new();
    let mut i: usize = 0;
    proof {
        assert(sv.take(0) =~= Seq::<(Scalar, TrackSpecV)>::empty());
        assert(weighted_tracks_view(built@) =~= Seq::<(Scalar, TrackV)>::empty());
        lemma_weighted_spec_list_view(children@);
    }
    while i < children.len()
        invariant
            sv == weighted_spec_list_view(children@),
            children@.len() == sv.len(),
            i <= children@.len(),
            built@.len() == i,
            construct_weighted_list(sv.take(i as int), resources@) == Ok::<
                Seq<(Scalar, TrackV)>,
                ConstructionError,
            >(weighted_tracks_view(built@)),
            resources_wf(resources@) ==> weighted_wf(weighted_tracks_view(built@)),
        decreases children@.len() - i,
    {
        proof {
            lemma_weighted_spec_list_view(children@);
            assert(decreases_to!(children@ => children@[i as int]));
            assert(decreases_to!(children@[i as int] => children@[i as int].1));
            assert(sv.take(i as int + 1).drop_last() =~= sv.take(i as int));
            assert(sv.take(i as int + 1).last() == sv[i as int]);
        }
        let weight = children[i].0;
        match Track::from_spec(&children[i].1, resources) {
            Ok(t) => {
                let ghost prior = built@;
                let ghost tv = track_view(t);
                built.push(WeightedTrack { weight, track: t });
                proof {
                    lemma_weighted_tracks_view(prior);
                    lemma_weighted_tracks_view(built@);
                    assert(weighted_tracks_view(built@) =~= weighted_tracks_view(prior).push(
                        (weight, tv),
                    ));
                    if resources_wf(resources@) {
                        lemma_weighted_wf_push(weighted_tracks_view(prior), weight, tv);
                    }
                }
            },
            Err(e) => {
                proof {
                    lemma_construct_weighted_list_stops(sv, resources@, i as int + 1);
                }
                return Err(e);
            },
        }
        i = i + 1;
    }
    proof {
        assert(sv.take(sv.len() as int) =~= sv);
    }
    Ok(built)
}

impl Track {
    /// Constructs a track from its typed description, against the given
    /// arena of shared track set definitions, or fails with the first
    /// error met, in description order. A successfully constructed track
    /// can always be evaluated, provided the arena's definitions can.
    pub fn from_spec(d: &TrackSpec, resources: &TrackResources) -> (r: Result<
        Track,
        ConstructionError,
    >)
        ensures
            match r {
                Ok(t) => construct(d@, resources@) == Ok::<TrackV, ConstructionError>(t@) && (
                resources_wf(resources@) ==> track_wf(t@)),
                Err(e) => construct(d@, resources@) == Err::<TrackV, ConstructionError>(e),
            },
        decreases *d,
    {
        match d {
            TrackSpec::KeyFramed { property, duration, loop_type, curve_time, keys } => {
                proof {
                    assert(d@ == TrackSpecV::KeyFramed {
                        property: property@,
                        duration: *duration,
                        loop_type: *loop_type,
                        curve_time: *curve_time,
                        keys: key_specs_view(keys@),
                    });
                }
                let ghost kviews = key_specs_view(keys@);
                let n = keys.len();
                if n == 0 {
                    return Err(ConstructionError::EmptyKeys);
                }
                let mut j: usize = 1;
                while j < n
                    invariant
                        d@ == (TrackSpecV::KeyFramed {
                            property: property@,
                            duration: *duration,
                            loop_type: *loop_type,
                            curve_time: *curve_time,
                            keys: key_specs_view(keys@),
                        }),
                        kviews == key_specs_view(keys@),
                        1 <= j <= n,
                        n == keys@.len(),
                        forall|i: int| 0 <= i < j ==> same_shape(
                            (#[trigger] key_specs_view(keys@)[i]).1,
                            key_specs_view(keys@)[0].1,
                        ),
                    decreases n - j,
                {
                    proof {
                        assert(key_specs_view(keys@)[j as int] == keys@[j as int]@);
                        assert(key_specs_view(keys@)[0] == keys@[0]@);
                    }
                    if !keys[j].value().matches_shape(keys[0].value()) {
                        proof {
                            assert(!keys_ok(kviews));
                        }
                        return Err(ConstructionError::KeyShapeMismatch);
                    }
                    j = j + 1;
                }
                proof {
                    assert(keys_ok(kviews));
                }
                let mut curve_keys: Vec<Key> = Vec::new();
                let mut i: usize = 0;
                while i < n
                    invariant
                        kviews == key_specs_view(keys@),
                        n == keys@.len(),
                        i <= n,
                        curve_keys@.len() == i,
                        forall|k: int| 0 <= k < i ==> keys_view(curve_keys@)[k] == convert_keys(
                            key_specs_view(keys@),
                        )[k],
                    decreases n - i,
                {
                    let t = keys[i].time();
                    let comps = keys[i].value().components();
                    let ghost prior = curve_keys@;
                    curve_keys.push(Key(t, Animatable::new(comps)));
                    proof {
                        assert(key_specs_view(keys@)[i as int] == keys@[i as int]@);
                        assert(convert_keys(key_specs_view(keys@))[i as int] == (
                            key_specs_view(keys@)[i as int].0,
                            value_spec_components(key_specs_view(keys@)[i as int].1),
                        ));
                        assert forall|k: int| 0 <= k < i + 1 implies keys_view(curve_keys@)[k]
                            == convert_keys(key_specs_view(keys@))[k] by {
                            assert(keys_view(curve_keys@)[k] == curve_keys@[k]@);
                            if k < i {
                                assert(curve_keys@[k] == prior[k]);
                                assert(keys_view(prior)[k] == prior[k]@);
                            }
                        }
                    }
                    i = i + 1;
                }
                let dur = match duration {
                    Some(x) => *x,
                    None => SCALAR_ONE,
                };
                let lt = match loop_type {
                    Some(l) => *l,
                    None => Loop::Once,
                };
                let ct = match curve_time {
                    Some(c) => *c,
                    None => CurveTime::Absolute,
                };
                let duration_ms = scalar_trunc(scalar_mul(dur, SCALAR_THOUSAND));
                let ghost built = curve_keys@;
                let track = CurveTrack {
                    curve: Curve::Linear(LinearKeyFrameCurve { keys: curve_keys }),
                    offset: 0,
                    property: property.clone(),
                    loop_type: lt,
                    duration: duration_ms,
                    curve_time: ct,
                };
                proof {
                    assert(keys_view(built) =~= convert_keys(kviews));
                    assert(track@.curve == CurveV::Linear(convert_keys(kviews)));
                }
                Ok(Track::Curve(track))
            },
            TrackSpec::FixedValue { property, value } => {
                proof {
                    assert(d@ == TrackSpecV::FixedValue { property: property@, value: value@ });
                }
                let track = CurveTrack::new_fixed_value(
                    property.clone(),
                    Animatable::new(value.components()),
                );
                proof {
                    assert(TrackV::Curve(track@) == construct_fixed_value(property@, value@));
                }
                Ok(Track::Curve(track))
            },
            TrackSpec::TrackSet(children) => {
                proof {
                    assert(d@ == TrackSpecV::TrackSet(spec_list_view(children@)));
                    assert(decreases_to!(*d => *children));
                }
                match build_tracks(children, resources) {
                    Ok(ts) => Ok(Track::TrackSet(TrackSet { tracks: ts })),
                    Err(e) => Err(e),
                }
            },
            TrackSpec::WeightedTracks(children) => {
                proof {
                    assert(d@ == TrackSpecV::WeightedTracks(weighted_spec_list_view(children@)));
                    assert(decreases_to!(*d => *children));
                }
                match build_weighted_tracks(children, resources) {
                    Ok(ts) => Ok(Track::Weighted(WeightedTracks { tracks: ts })),
                    Err(e) => Err(e),
                }
            },
            TrackSpec::FromResource(id) => {
                proof {
                    assert(d@ == TrackSpecV::FromResource(*id));
                }
                match resources.get(*id) {
                    Some(rc) => {
                        let handle = clone_handle(rc);
                        let t = Track::FromResource(TrackSetFromResource { resource: handle });
                        proof {
                            assert(t@ == TrackV::FromResource(resources@[*id]));
                        }
                        Ok(t)
                    },
                    None => Err(ConstructionError::UnknownResource(*id)),
                }
            },
        }
    }
}

impl TrackResources {
    /// Adds a reusable track set definition under the given id,
    /// constructing its children against the definitions already present;
    /// a definition already stored under the id is replaced.
    pub fn insert(&mut self, id: u64, children: &Vec<TrackSpec>) -> (r: Result<
        (),
        ConstructionError,
    >)
        ensures
            match r {
                Ok(_) => construct_list(spec_list_view(children@), old(self)@) is Ok && final(self)@
                    == old(self)@.insert(
                    id,
                    construct_list(spec_list_view(children@), old(self)@)->Ok_0,
                ),
                Err(e) => construct_list(spec_list_view(children@), old(self)@) == Err::<
                    Seq<TrackV>,
                    ConstructionError,
                >(e) && final(self)@ == old(self)@,
            },
            resources_wf(old(self)@) ==> resources_wf(final(self)@),
    {
        match build_tracks(children, &*self) {
            Ok(ts) => {
                let ghost tsv = tracks_view(ts@);
                let ghost prior = self.entries@;
                let rc = Rc::new(TrackSet { tracks: ts });
                self.entries.push((id, rc));
                proof {
                    assert(self.entries@.drop_last() =~= prior);
                    assert(self.entries@.last() == (id, rc));
                    assert(self@ == resources_map(prior).insert(id, tsv));
                    if resources_wf(resources_map(prior)) {
                        assert forall|q: u64| self@.dom().contains(q) implies tracks_wf(
                            #[trigger] self@[q],
                        ) by {
                            if q != id {
                                assert(resources_map(prior).dom().contains(q));
                                assert(self@[q] == resources_map(prior)[q]);
                            }
                        }
                    }
                }
                Ok(())
            },
            Err(e) => Err(e),
        }
    }
}

/// The two accepted key forms are equivalent: a key written as a
/// time/value record and one written as a time/value pair carry the same
/// content.
pub proof fn lemma_key_forms_equivalent(time: Scalar, value: ValueSpec)
    ensures
        (KeySpec::Timed { time, value })@ == (KeySpec::Pair(time, value))@,
{
}

/// Round trip: two descriptions with the same content construct the same
/// track, which evaluates to the same value stream at every time; in
/// particular a description whose keys are rewritten between their two
/// equivalent forms reproduces the evaluation exactly.
pub proof fn lemma_equivalent_specs(d1: TrackSpec, d2: TrackSpec, res: Map<u64, Seq<TrackV>>, time: int)
    requires
        d1@ == d2@,
    ensures
        construct(d1@, res) == construct(d2@, res),
        construct(d1@, res) matches Ok(t) ==> crate::track::track_value(t, time)
            == crate::track::track_value(construct(d2@, res)->Ok_0, time),
{
}

} // verus!
