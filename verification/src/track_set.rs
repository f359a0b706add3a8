//! The track set: a flat union of child tracks.
//!
//! Evaluation concatenates, in child order, the contribution lists of
//! every child, with no deduplication or conflict resolution: when two
//! children target the same property, both contributions appear in the
//! output, and the last write wins at the host-write stage. That is a
//! deliberate policy, not an error.

use vstd::prelude::*;
use crate::animatable::Animatable;
use crate::props::NamedPropRef;
use crate::props::NamedPropRefV;
use crate::scalar::Scalar;
use crate::track::{
    ContribV, Track, TrackV, contribs_view, set_value, tracks_view, track_value, track_view,
    track_wf, lemma_set_value_take_succ, lemma_tracks_view, lemma_tracks_wf_index, tracks_wf,
};

verus! {

/// A flat, ordered union of child tracks.
#[derive(Debug)]
pub struct TrackSet {
    pub tracks: Vec<Track>,
}

impl View for TrackSet {
    type V = Seq<crate::track::TrackV>;

    open spec fn view(&self) -> Seq<crate::track::TrackV> {
        tracks_view(self.tracks@)
    }
}

impl TrackSet {
    /// The concatenation, in child order, of every child's contributions
    /// at elapsed time `time`, in milliseconds.
    pub fn value_at(&self, time: i64) -> (r: Vec<(NamedPropRef, Animatable)>)
        requires
            tracks_wf(self@),
        ensures
            contribs_view(r@) == set_value(self@, time as int),
        decreases self.tracks@,
    {
        let mut r: Vec<(NamedPropRef, Animatable)> = Vec::new();
        let mut i: usize = 0;
        proof {
            lemma_tracks_view(self.tracks@);
            assert(contribs_view(r@) =~= set_value(self@.take(0), time as int));
        }
        while i < self.tracks.len()
            invariant
                tracks_wf(self@),
                self@.len() == self.tracks@.len(),
                i <= self.tracks@.len(),
                contribs_view(r@) == set_value(self@.take(i as int), time as int),
            decreases self.tracks@.len() - i,
        {
            proof {
                lemma_tracks_view(self.tracks@);
                assert(self@[i as int] == track_view(self.tracks@[i as int]));
                lemma_tracks_wf_index(self@, i as int);
                assert(decreases_to!(self.tracks@ => self.tracks@[i as int]));
            }
            let mut child = self.tracks[i].value_at(time);
            let ghost prior = r@;
            r.append(&mut child);
            proof {
                lemma_set_value_take_succ(self@, time as int, i as int);
                assert(contribs_view(r@) =~= contribs_view(prior) + track_value(
                    self@[i as int],
                    time as int,
                ));
            }
            i = i + 1;
        }
        proof {
            assert(self@.take(self@.len() as int) =~= self@);
        }
        r
    }
}

/// The property store after committing a contribution list in order:
/// each write replaces the stored value of its property, so a later
/// write to the same property overwrites an earlier one.
pub open spec fn store_after(
    store: Map<NamedPropRefV, Seq<Scalar>>,
    writes: Seq<ContribV>,
) -> Map<NamedPropRefV, Seq<Scalar>>
    decreases writes,
{
    if writes.len() == 0 {
        store
    } else {
        store_after(store, writes.drop_last()).insert(writes.last().0, writes.last().1)
    }
}

/// A track set unions its children without conflict resolution: when two
/// children both contribute to the same property, both pairs appear, in
/// child order, and committing the list leaves the later child's value
/// in the store — the last writer wins.
pub proof fn lemma_union_last_writer_wins(
    a: TrackV,
    b: TrackV,
    time: int,
    store: Map<NamedPropRefV, Seq<Scalar>>,
    p: NamedPropRefV,
    va: Seq<Scalar>,
    vb: Seq<Scalar>,
)
    requires
        track_value(a, time) == seq![(p, va)],
        track_value(b, time) == seq![(p, vb)],
    ensures
        set_value(seq![a, b], time) == seq![(p, va), (p, vb)],
        store_after(store, set_value(seq![a, b], time)) == store.insert(p, vb),
{
    let pair = seq![a, b];
    assert(pair.drop_first() =~= seq![b]);
    assert(seq![b].drop_first() =~= Seq::<TrackV>::empty());
    assert(set_value(Seq::<TrackV>::empty(), time) == Seq::<ContribV>::empty());
    assert(set_value(seq![b], time) =~= seq![(p, vb)]);
    assert(set_value(pair, time) =~= seq![(p, va), (p, vb)]);
    let writes = seq![(p, va), (p, vb)];
    assert(writes.drop_last() =~= seq![(p, va)]);
    assert(seq![(p, va)].drop_last() =~= Seq::<ContribV>::empty());
    assert(store_after(store, Seq::<ContribV>::empty()) == store);
    assert(store_after(store, seq![(p, va)]) =~= store.insert(p, va));
    assert(store_after(store, writes) =~= store.insert(p, vb));
}

} // verus!
