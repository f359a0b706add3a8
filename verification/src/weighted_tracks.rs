//! Weighted blending of tracks.
//!
//! Each child track carries a weight. Evaluation accumulates, per
//! property, a weighted sum across all children's contributions: the first
//! contribution for a property becomes `value * weight`, every later one
//! adds `weight * value` elementwise. Properties contributed by no child
//! never appear. Weights are not required to sum to one: this is
//! unconstrained additive blending, not a convex combination.

use vstd::prelude::*;
use crate::animatable::{Animatable, spec_add_weighted, spec_weighted};
use crate::props::NamedPropRef;
use crate::scalar::Scalar;
use crate::track::{
    ContribV, Track, WeightedContribV, contribs_view, tag_weight, track_value, track_view,
    track_wf, weighted_contribs, weighted_tracks_view, weighted_wf,
    lemma_weighted_contribs_take_succ, lemma_weighted_tracks_view, lemma_weighted_wf_index,
};

verus! {

/// One child of a weighted blend: a weight and the track it applies to.
#[derive(Debug)]
pub struct WeightedTrack {
    pub weight: Scalar,
    pub track: Track,
}

/// A weighted blend of child tracks.
#[derive(Debug)]
pub struct WeightedTracks {
    pub tracks: Vec<WeightedTrack>,
}

impl View for WeightedTracks {
    type V = Seq<(Scalar, crate::track::TrackV)>;

    open spec fn view(&self) -> Seq<(Scalar, crate::track::TrackV)> {
        weighted_tracks_view(self.tracks@)
    }
}

/// The first index of the accumulator holding the given property, or the
/// accumulator's length when no entry does.
pub open spec fn find_key(acc: Seq<ContribV>, key: crate::props::NamedPropRefV) -> int
    decreases acc,
{
    if acc.len() == 0 {
        0
    } else if acc[0].0 == key {
        0
    } else {
        1 + find_key(acc.drop_first(), key)
    }
}

/// `find_key` is the unique index before which no entry holds the
/// property and at which, if within bounds, the property stands.
pub proof fn lemma_find_key(acc: Seq<ContribV>, key: crate::props::NamedPropRefV)
    ensures
        0 <= find_key(acc, key) <= acc.len(),
        forall|i: int| 0 <= i < find_key(acc, key) ==> acc[i].0 != key,
        find_key(acc, key) < acc.len() ==> acc[find_key(acc, key)].0 == key,
    decreases acc.len(),
{
    if acc.len() == 0 {
    } else if acc[0].0 == key {
    } else {
        lemma_find_key(acc.drop_first(), key);
        assert forall|i: int| 0 <= i < find_key(acc, key) implies acc[i].0 != key by {
            if i > 0 {
                assert(acc.drop_first()[i - 1] == acc[i]);
            }
        }
        if find_key(acc, key) < acc.len() {
            assert(acc.drop_first()[find_key(acc, key) - 1] == acc[find_key(acc, key)]);
        }
    }
}

/// Any index with `find_key`'s characteristic properties is `find_key`.
pub proof fn lemma_find_key_unique(acc: Seq<ContribV>, key: crate::props::NamedPropRefV, j: int)
    requires
        0 <= j <= acc.len(),
        forall|i: int| 0 <= i < j ==> acc[i].0 != key,
        j < acc.len() ==> acc[j].0 == key,
    ensures
        find_key(acc, key) == j,
    decreases acc.len(),
{
    if acc.len() == 0 {
    } else if acc[0].0 == key {
        assert(j == 0);
    } else {
        assert(j != 0);
        assert(forall|i: int| 0 <= i < acc.drop_first().len() ==> acc.drop_first()[i] == acc[i + 1]);
        lemma_find_key_unique(acc.drop_first(), key, j - 1);
    }
}

/// Folds one weighted contribution into the accumulator: a property seen
/// before accumulates `weight * value` elementwise onto its entry; a new
/// property appends `value * weight` at the end.
pub open spec fn blend_step(acc: Seq<ContribV>, c: WeightedContribV) -> Seq<ContribV> {
    let j = find_key(acc, c.1);
    if j < acc.len() {
        acc.update(j, (c.1, spec_add_weighted(acc[j].1, c.0, c.2)))
    } else {
        acc.push((c.1, spec_weighted(c.2, c.0)))
    }
}

/// The per-property weighted sum of a sequence of weighted contributions,
/// folded in order, one output entry per distinct property in order of
/// first contribution.
pub open spec fn blend(contribs: Seq<WeightedContribV>) -> Seq<ContribV>
    decreases contribs,
{
    if contribs.len() == 0 {
        Seq::empty()
    } else {
        blend_step(blend(contribs.drop_last()), contribs.last())
    }
}

impl WeightedTracks {
    /// The per-property weighted sum of every child's contributions at
    /// elapsed time `time`, in milliseconds: one output entry per distinct
    /// property touched, in order of first contribution.
    pub fn value_at(&self, time: i64) -> (r: Vec<(NamedPropRef, Animatable)>)
        requires
            weighted_wf(self@),
        ensures
            contribs_view(r@) == blend(weighted_contribs(self@, time as int)),
        decreases self.tracks@,
    {
        let mut acc: Vec<(NamedPropRef, Animatable)> = Vec::new();
        let mut i: usize = 0;
        proof {
            lemma_weighted_tracks_view(self.tracks@);
            assert(weighted_contribs(self@.take(0), time as int) =~= Seq::<WeightedContribV>::empty());
            assert(contribs_view(acc@) =~= blend(weighted_contribs(self@.take(0), time as int)));
        }
        while i < self.tracks.len()
            invariant
                weighted_wf(self@),
                self@.len() == self.tracks@.len(),
                i <= self.tracks@.len(),
                contribs_view(acc@) == blend(weighted_contribs(self@.take(i as int), time as int)),
            decreases self.tracks@.len() - i,
        {
            proof {
                lemma_weighted_tracks_view(self.tracks@);
                assert(self@[i as int] == (self.tracks@[i as int].weight, track_view(
                    self.tracks@[i as int].track,
                )));
                assert(self@[i as int].1 == track_view(self.tracks@[i as int].track));
                lemma_weighted_wf_index(self@, i as int);
                assert(decreases_to!(self.tracks@ => self.tracks@[i as int]));
                assert(decreases_to!(self.tracks@[i as int] => self.tracks@[i as int].track));
            }
            let weight = self.tracks[i].weight;
            let contribs = self.tracks[i].track.value_at(time);
            let ghost child_value = track_value(self@[i as int].1, time as int);
            let ghost base = weighted_contribs(self@.take(i as int), time as int);
            let mut k: usize = 0;
            proof {
                assert(tag_weight(weight, child_value.take(0)) =~= Seq::<WeightedContribV>::empty());
                assert(base + tag_weight(weight, child_value.take(0)) =~= base);
            }
            while k < contribs.len()
                invariant
                    k <= contribs.len(),
                    contribs_view(contribs@) == child_value,
                    contribs@.len() == child_value.len(),
                    contribs_view(acc@) == blend(base + tag_weight(weight, child_value.take(k as int))),
                decreases contribs.len() - k,
            {
                let ghost processed = base + tag_weight(weight, child_value.take(k as int));
                let ghost c: WeightedContribV = (weight, child_value[k as int].0, child_value[k as int].1);
                proof {
                    assert(contribs_view(contribs@)[k as int] == (contribs@[k as int].0@, contribs@[k as int].1@));
                    assert(tag_weight(weight, child_value.take(k as int + 1)) =~= tag_weight(
                        weight,
                        child_value.take(k as int),
                    ).push(c));
                    assert(base + tag_weight(weight, child_value.take(k as int + 1)) =~= processed.push(c));
                    assert((processed.push(c)).drop_last() =~= processed);
                    assert(blend(processed.push(c)) == blend_step(blend(processed), c));
                }
                let mut j: usize = 0;
                while j < acc.len() && !acc[j].0.matches_ref(&contribs[k].0)
                    invariant
                        k < contribs@.len(),
                        contribs_view(contribs@) == child_value,
                        j <= acc@.len(),
                        forall|m: int| 0 <= m < j ==> contribs_view(acc@)[m].0 != child_value[k as int].0,
                    decreases acc@.len() - j,
                {
                    proof {
                        assert(contribs_view(acc@)[j as int] == (acc@[j as int].0@, acc@[j as int].1@));
                        assert(contribs_view(contribs@)[k as int] == (contribs@[k as int].0@, contribs@[k as int].1@));
                    }
                    j = j + 1;
                }
                proof {
                    if j < acc.len() {
                        assert(contribs_view(acc@)[j as int] == (acc@[j as int].0@, acc@[j as int].1@));
                        assert(contribs_view(contribs@)[k as int] == (contribs@[k as int].0@, contribs@[k as int].1@));
                    }
                    lemma_find_key_unique(contribs_view(acc@), child_value[k as int].0, j as int);
                }
                let ghost prior = acc@;
                if j < acc.len() {
                    let updated = acc[j].1.add_weighted(weight, &contribs[k].1);
                    let key = acc[j].0.clone();
                    acc[j] = (key, updated);
                    proof {
                        assert(contribs_view(acc@) =~= blend_step(contribs_view(prior), c));
                    }
                } else {
                    let key = contribs[k].0.clone();
                    let value = contribs[k].1.weighted(weight);
                    acc.push((key, value));
                    proof {
                        assert(contribs_view(acc@) =~= blend_step(contribs_view(prior), c));
                    }
                }
                k = k + 1;
            }
            proof {
                assert(child_value.take(child_value.len() as int) =~= child_value);
                lemma_weighted_contribs_take_succ(self@, time as int, i as int);
                assert(weighted_contribs(self@.take(i as int + 1), time as int) =~= base + tag_weight(
                    weight,
                    child_value,
                ));
            }
            i = i + 1;
        }
        proof {
            assert(self@.take(self@.len() as int) =~= self@);
        }
        acc
    }
}


/// The weighted fold of exactly one property's contributions, in order:
/// nothing when the property is never contributed; else the first
/// contribution weighted, and every later one accumulated elementwise.
pub open spec fn blended_value(contribs: Seq<WeightedContribV>, p: crate::props::NamedPropRefV) -> Option<
    Seq<Scalar>,
>
    decreases contribs,
{
    if contribs.len() == 0 {
        None
    } else {
        let prev = blended_value(contribs.drop_last(), p);
        let c = contribs.last();
        if c.1 != p {
            prev
        } else {
            match prev {
                None => Some(spec_weighted(c.2, c.0)),
                Some(acc) => Some(spec_add_weighted(acc, c.0, c.2)),
            }
        }
    }
}

/// The blend's output carries each property at most once.
pub proof fn lemma_blend_distinct(contribs: Seq<WeightedContribV>)
    ensures
        forall|j1: int, j2: int|
            0 <= j1 < j2 < blend(contribs).len() ==> blend(contribs)[j1].0 != blend(
                contribs,
            )[j2].0,
    decreases contribs,
{
    if contribs.len() > 0 {
        lemma_blend_distinct(contribs.drop_last());
        let acc = blend(contribs.drop_last());
        let c = contribs.last();
        lemma_find_key(acc, c.1);
        let j0 = find_key(acc, c.1);
        if j0 < acc.len() {
            assert(blend(contribs) == acc.update(j0, (c.1, spec_add_weighted(acc[j0].1, c.0, c.2))));
            assert forall|j1: int, j2: int|
                0 <= j1 < j2 < blend(contribs).len() implies blend(contribs)[j1].0 != blend(
                contribs,
            )[j2].0 by {
                assert(acc[j0].0 == c.1);
                assert(blend(contribs)[j1].0 == acc[j1].0);
                assert(blend(contribs)[j2].0 == acc[j2].0);
            }
        } else {
            assert(blend(contribs) == acc.push((c.1, spec_weighted(c.2, c.0))));
            assert forall|j1: int, j2: int|
                0 <= j1 < j2 < blend(contribs).len() implies blend(contribs)[j1].0 != blend(
                contribs,
            )[j2].0 by {
                if j2 == acc.len() {
                    assert(blend(contribs)[j1].0 == acc[j1].0);
                    assert(acc[j1].0 != c.1);
                } else {
                    assert(blend(contribs)[j1].0 == acc[j1].0);
                    assert(blend(contribs)[j2].0 == acc[j2].0);
                }
            }
        }
    }
}

/// Per property, the blend holds exactly the weighted fold of that
/// property's own contributions, in their order, whatever contributions
/// to other properties interleave with them; a property contributed by
/// no child never appears.
pub proof fn lemma_blend_per_property(contribs: Seq<WeightedContribV>, p: crate::props::NamedPropRefV)
    ensures
        match blended_value(contribs, p) {
            Some(v) => exists|j: int|
                0 <= j < blend(contribs).len() && blend(contribs)[j] == (p, v),
            None => forall|j: int| 0 <= j < blend(contribs).len() ==> blend(contribs)[j].0 != p,
        },
    decreases contribs,
{
    if contribs.len() == 0 {
    } else {
        lemma_blend_per_property(contribs.drop_last(), p);
        lemma_blend_distinct(contribs.drop_last());
        let acc = blend(contribs.drop_last());
        let c = contribs.last();
        lemma_find_key(acc, c.1);
        let j0 = find_key(acc, c.1);
        if c.1 != p {
            match blended_value(contribs.drop_last(), p) {
                Some(v) => {
                    let j = choose|j: int| 0 <= j < acc.len() && acc[j] == (p, v);
                    assert(j != j0);
                    assert(blend(contribs)[j] == (p, v));
                },
                None => {
                    assert forall|j: int| 0 <= j < blend(contribs).len() implies blend(
                        contribs,
                    )[j].0 != p by {
                        if j0 < acc.len() {
                            assert(blend(contribs)[j] == acc.update(
                                j0,
                                (c.1, spec_add_weighted(acc[j0].1, c.0, c.2)),
                            )[j]);
                        } else {
                            if j < acc.len() {
                                assert(blend(contribs)[j] == acc[j]);
                            } else {
                                assert(blend(contribs)[j] == (c.1, spec_weighted(c.2, c.0)));
                            }
                        }
                    }
                },
            }
        } else {
            match blended_value(contribs.drop_last(), p) {
                None => {
                    assert(j0 == acc.len());
                    assert(blend(contribs) == acc.push((c.1, spec_weighted(c.2, c.0))));
                    assert(blend(contribs)[acc.len() as int] == (p, spec_weighted(c.2, c.0)));
                },
                Some(v) => {
                    let j = choose|j: int| 0 <= j < acc.len() && acc[j] == (p, v);
                    assert(acc[j].0 == c.1);
                    assert(j0 <= j);
                    if j0 < j {
                        assert(acc[j0].0 == c.1);
                        assert(false);
                    }
                    assert(j0 == j);
                    assert(blend(contribs) == acc.update(
                        j,
                        (c.1, spec_add_weighted(acc[j].1, c.0, c.2)),
                    ));
                    assert(blend(contribs)[j] == (p, spec_add_weighted(v, c.0, c.2)));
                },
            }
        }
    }
}

} // verus!
