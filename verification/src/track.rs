//! Tracks: stateless generators of property contributions.
//!
//! A track, given an elapsed time in milliseconds, produces a list of
//! `(property, value)` pairs. It is one of: a curve track (one curve, one
//! property, timing policy); a track set (the concatenation of its
//! children's contributions, in child order); a weighted blend (a
//! per-property weighted sum across its children); or a read-only shared
//! handle to a reusable track set. Tracks hold no clock of their own: the
//! caller supplies the time on every query.

use vstd::prelude::*;
use std::rc::Rc;
use crate::animatable::Animatable;
use crate::curve_track::{CurveTrack, CurveTrackV, curve_track_value, curve_track_wf};
use crate::props::{NamedPropRef, NamedPropRefV};
use crate::scalar::Scalar;
use crate::track_set::TrackSet;
use crate::weighted_tracks::{WeightedTracks, WeightedTrack, blend};

verus! {

/// One property contribution: the addressed property and the value it is
/// to receive.
pub type ContribV = (NamedPropRefV, Seq<Scalar>);

/// One weighted contribution: a blend weight together with a contribution.
pub type WeightedContribV = (Scalar, NamedPropRefV, Seq<Scalar>);

/// Mathematical model of a track.
pub ghost enum TrackV {
    Curve(CurveTrackV),
    TrackSet(Seq<TrackV>),
    Weighted(Seq<(Scalar, TrackV)>),
    FromResource(Seq<TrackV>),
}

/// A stateless generator producing property contributions at a given
/// elapsed time.
#[derive(Debug)]
pub enum Track {
    Curve(CurveTrack),
    TrackSet(TrackSet),
    Weighted(WeightedTracks),
    FromResource(TrackSetFromResource),
}

/// A read-only, shared handle to a reusable track set definition.
#[derive(Debug)]
pub struct TrackSetFromResource {
    pub resource: Rc<TrackSet>,
}

/// The model of a track.
pub open spec fn track_view(t: Track) -> TrackV
    decreases t,
{
    match t {
        Track::Curve(ct) => TrackV::Curve(ct@),
        Track::TrackSet(ts) => TrackV::TrackSet(tracks_view(ts.tracks@)),
        Track::Weighted(wt) => TrackV::Weighted(weighted_tracks_view(wt.tracks@)),
        Track::FromResource(tr) => TrackV::FromResource(tracks_view(tr.resource.tracks@)),
    }
}

/// The models of a list of tracks.
pub open spec fn tracks_view(s: Seq<Track>) -> Seq<TrackV>
    decreases s,
{
    if s.len() == 0 {
        Seq::empty()
    } else {
        seq![track_view(s[0])] + tracks_view(s.drop_first())
    }
}

/// `tracks_view` maps the list elementwise.
pub proof fn lemma_tracks_view(s: Seq<Track>)
    ensures
        tracks_view(s).len() == s.len(),
        forall|i: int| 0 <= i < s.len() ==> tracks_view(s)[i] == track_view(s[i]),
    decreases s.len(),
{
    if s.len() > 0 {
        lemma_tracks_view(s.drop_first());
        assert forall|i: int| 0 <= i < s.len() implies tracks_view(s)[i] == track_view(s[i]) by {
            if i > 0 {
                assert(s.drop_first()[i - 1] == s[i]);
                assert(tracks_view(s)[i] == tracks_view(s.drop_first())[i - 1]);
            }
        }
    }
}

/// The models of a list of weighted tracks.
pub open spec fn weighted_tracks_view(s: Seq<WeightedTrack>) -> Seq<(Scalar, TrackV)>
    decreases s,
{
    if s.len() == 0 {
        Seq::empty()
    } else {
        seq![(s[0].weight, track_view(s[0].track))] + weighted_tracks_view(s.drop_first())
    }
}

/// `weighted_tracks_view` maps the list elementwise.
pub proof fn lemma_weighted_tracks_view(s: Seq<WeightedTrack>)
    ensures
        weighted_tracks_view(s).len() == s.len(),
        forall|i: int| 0 <= i < s.len() ==> weighted_tracks_view(s)[i] == (
            s[i].weight,
            track_view(s[i].track),
        ),
    decreases s.len(),
{
    if s.len() > 0 {
        lemma_weighted_tracks_view(s.drop_first());
        assert forall|i: int| 0 <= i < s.len() implies weighted_tracks_view(s)[i] == (
            s[i].weight,
            track_view(s[i].track),
        ) by {
            if i > 0 {
                assert(s.drop_first()[i - 1] == s[i]);
                assert(weighted_tracks_view(s)[i] == weighted_tracks_view(s.drop_first())[i - 1]);
            }
        }
    }
}

impl View for Track {
    type V = TrackV;

    open spec fn view(&self) -> TrackV {
        track_view(*self)
    }
}

impl View for TrackSetFromResource {
    type V = Seq<TrackV>;

    open spec fn view(&self) -> Seq<TrackV> {
        tracks_view(self.resource.tracks@)
    }
}

/// The model of a contribution list.
pub open spec fn contribs_view(s: Seq<(NamedPropRef, Animatable)>) -> Seq<ContribV> {
    s.map_values(|p: (NamedPropRef, Animatable)| (p.0@, p.1@))
}

/// A track can be evaluated when every curve in it can.
pub open spec fn track_wf(t: TrackV) -> bool
    decreases t,
{
    match t {
        TrackV::Curve(ct) => curve_track_wf(ct),
        TrackV::TrackSet(children) => tracks_wf(children),
        TrackV::Weighted(children) => weighted_wf(children),
        TrackV::FromResource(children) => tracks_wf(children),
    }
}

/// Every track of the list can be evaluated.
pub open spec fn tracks_wf(children: Seq<TrackV>) -> bool
    decreases children,
{
    children.len() == 0 || (track_wf(children[0]) && tracks_wf(children.drop_first()))
}

/// Every track of the weighted list can be evaluated.
pub open spec fn weighted_wf(children: Seq<(Scalar, TrackV)>) -> bool
    decreases children,
{
    children.len() == 0 || (track_wf(children[0].1) && weighted_wf(children.drop_first()))
}

/// A well-formed track list is well-formed at every index.
pub proof fn lemma_tracks_wf_index(children: Seq<TrackV>, i: int)
    requires
        tracks_wf(children),
        0 <= i < children.len(),
    ensures
        track_wf(children[i]),
    decreases children.len(),
{
    if i > 0 {
        assert(children.drop_first()[i - 1] == children[i]);
        lemma_tracks_wf_index(children.drop_first(), i - 1);
    }
}

/// A well-formed weighted track list is well-formed at every index.
pub proof fn lemma_weighted_wf_index(children: Seq<(Scalar, TrackV)>, i: int)
    requires
        weighted_wf(children),
        0 <= i < children.len(),
    ensures
        track_wf(children[i].1),
    decreases children.len(),
{
    if i > 0 {
        assert(children.drop_first()[i - 1] == children[i]);
        lemma_weighted_wf_index(children.drop_first(), i - 1);
    }
}

/// The contributions of a track at elapsed time `time` (milliseconds).
pub open spec fn track_value(t: TrackV, time: int) -> Seq<ContribV>
    decreases t,
{
    match t {
        TrackV::Curve(ct) => curve_track_value(ct, time),
        TrackV::TrackSet(children) => set_value(children, time),
        TrackV::Weighted(children) => blend(weighted_contribs(children, time)),
        TrackV::FromResource(children) => set_value(children, time),
    }
}

/// The concatenation, in child order, of the contributions of every child.
pub open spec fn set_value(children: Seq<TrackV>, time: int) -> Seq<ContribV>
    decreases children,
{
    if children.len() == 0 {
        Seq::empty()
    } else {
        track_value(children[0], time) + set_value(children.drop_first(), time)
    }
}

/// The flattened weighted contributions of a list of weighted children, in
/// child order: each contribution of a child is tagged with that child's
/// weight.
pub open spec fn weighted_contribs(children: Seq<(Scalar, TrackV)>, time: int) -> Seq<WeightedContribV>
    decreases children,
{
    if children.len() == 0 {
        Seq::empty()
    } else {
        tag_weight(children[0].0, track_value(children[0].1, time))
            + weighted_contribs(children.drop_first(), time)
    }
}

/// Tags each contribution of one child with the child's weight.
pub open spec fn tag_weight(w: Scalar, contribs: Seq<ContribV>) -> Seq<WeightedContribV> {
    contribs.map_values(|c: ContribV| (w, c.0, c.1))
}

/// Prefixes of a track list evaluate to prefixes of the concatenation:
/// taking one more child appends exactly that child's contributions.
pub proof fn lemma_set_value_take_succ(children: Seq<TrackV>, time: int, i: int)
    requires
        0 <= i < children.len(),
    ensures
        set_value(children.take(i + 1), time) == set_value(children.take(i), time) + track_value(
            children[i],
            time,
        ),
    decreases children.len(),
{
    if i == 0 {
        assert(children.take(1).drop_first() =~= Seq::<TrackV>::empty());
        assert(children.take(0) =~= Seq::<TrackV>::empty());
        assert(children.take(1)[0] == children[0]);
        assert(set_value(Seq::<TrackV>::empty(), time) =~= Seq::<ContribV>::empty());
        assert(set_value(children.take(1), time) == track_value(children.take(1)[0], time)
            + set_value(children.take(1).drop_first(), time));
        assert(set_value(children.take(1), time) =~= set_value(children.take(0), time)
            + track_value(children[0], time));
    } else {
        lemma_set_value_take_succ(children.drop_first(), time, i - 1);
        assert(children.take(i + 1).drop_first() =~= children.drop_first().take(i));
        assert(children.take(i).drop_first() =~= children.drop_first().take(i - 1));
        assert(children.take(i + 1)[0] == children[0]);
        assert(children.take(i)[0] == children[0]);
        assert(children.drop_first()[i - 1] == children[i]);
        assert(set_value(children.take(i + 1), time) == track_value(children[0], time)
            + set_value(children.drop_first().take(i), time));
        assert(set_value(children.take(i), time) == track_value(children[0], time)
            + set_value(children.drop_first().take(i - 1), time));
        assert(set_value(children.take(i + 1), time) =~= set_value(children.take(i), time)
            + track_value(children[i], time));
    }
}

/// Likewise for weighted children and their tagged contributions.
pub proof fn lemma_weighted_contribs_take_succ(children: Seq<(Scalar, TrackV)>, time: int, i: int)
    requires
        0 <= i < children.len(),
    ensures
        weighted_contribs(children.take(i + 1), time) == weighted_contribs(children.take(i), time)
            + tag_weight(children[i].0, track_value(children[i].1, time)),
    decreases children.len(),
{
    if i == 0 {
        assert(children.take(1).drop_first() =~= Seq::<(Scalar, TrackV)>::empty());
        assert(children.take(0) =~= Seq::<(Scalar, TrackV)>::empty());
        assert(children.take(1)[0] == children[0]);
        assert(weighted_contribs(Seq::<(Scalar, TrackV)>::empty(), time) =~= Seq::<
            WeightedContribV,
        >::empty());
        assert(weighted_contribs(children.take(1), time) == tag_weight(
            children.take(1)[0].0,
            track_value(children.take(1)[0].1, time),
        ) + weighted_contribs(children.take(1).drop_first(), time));
        assert(weighted_contribs(children.take(1), time) =~= weighted_contribs(
            children.take(0),
            time,
        ) + tag_weight(children[0].0, track_value(children[0].1, time)));
    } else {
        lemma_weighted_contribs_take_succ(children.drop_first(), time, i - 1);
        assert(children.take(i + 1).drop_first() =~= children.drop_first().take(i));
        assert(children.take(i).drop_first() =~= children.drop_first().take(i - 1));
        assert(children.take(i + 1)[0] == children[0]);
        assert(children.take(i)[0] == children[0]);
        assert(children.drop_first()[i - 1] == children[i]);
        assert(weighted_contribs(children.take(i + 1), time) =~= weighted_contribs(
            children.take(i),
            time,
        ) + tag_weight(children[i].0, track_value(children[i].1, time)));
    }
}

impl Track {
    /// The contributions of this track at elapsed time `time`, in
    /// milliseconds.
    pub fn value_at(&self, time: i64) -> (r: Vec<(NamedPropRef, Animatable)>)
        requires
            track_wf(self@),
        ensures
            contribs_view(r@) == track_value(self@, time as int),
        decreases *self,
    {
        match self {
            Track::Curve(ct) => ct.value_at(time),
            Track::TrackSet(ts) => {
                proof {
                    assert(self@ == TrackV::TrackSet(tracks_view(ts.tracks@)));
                    assert(tracks_wf(ts@));
                }
                ts.value_at(time)
            },
            Track::Weighted(wt) => {
                proof {
                    assert(self@ == TrackV::Weighted(weighted_tracks_view(wt.tracks@)));
                    assert(weighted_wf(wt@));
                }
                wt.value_at(time)
            },
            Track::FromResource(tr) => {
                proof {
                    assert(self@ == TrackV::FromResource(tracks_view(tr.resource.tracks@)));
                    assert(tracks_wf(tr@));
                }
                let resource: &TrackSet = &*tr.resource;
                resource.value_at(time)
            },
        }
    }
}

} // verus!
