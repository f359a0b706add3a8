//! The update driver.
//!
//! The driver owns one active track per animated entity, together with a
//! per-entity cache of resolved property references, and a single
//! monotonically advancing clock in milliseconds, shared by every entity
//! and advanced once per update pass. When an entity's animation changes,
//! its old track and cache are discarded wholesale; an absent description
//! means no animation, and a failed construction likewise leaves the
//! entity un-animated. Per tick, the host asks for each entity's
//! contributions, resolves each named reference through the cache
//! (resolve and store on a miss, reuse on a hit — the cache is only ever
//! invalidated by track replacement), and writes the values back through
//! its own property store.

use vstd::prelude::*;
use crate::animatable::Animatable;
use crate::construction::{ConstructionError, TrackResources, TrackSpec, construct, resources_wf};
use crate::props::{EntityId, NamedPropRef, NamedPropRefV, PropRef, PropRefV};
use crate::track::{Track, TrackV, contribs_view, track_value, track_wf, track_view};

verus! {

/// One animated entity's state: its active track and its cache of
/// resolved property references.
#[derive(Debug)]
pub struct EntityAnimation {
    track: Track,
    cached_resolved_named_prop_refs: Vec<(NamedPropRef, PropRef)>,
}

/// Mathematical model of an entity's animation state.
pub ghost struct EntityAnimationV {
    pub track: TrackV,
    pub cache: Map<NamedPropRefV, PropRefV>,
}

/// A resolution cache as a map; a later entry shadows an earlier one for
/// the same reference.
pub open spec fn cache_map(s: Seq<(NamedPropRef, PropRef)>) -> Map<NamedPropRefV, PropRefV>
    decreases s,
{
    if s.len() == 0 {
        Map::empty()
    } else {
        cache_map(s.drop_last()).insert(s.last().0@, s.last().1@)
    }
}

impl View for EntityAnimation {
    type V = EntityAnimationV;

    closed spec fn view(&self) -> EntityAnimationV {
        EntityAnimationV {
            track: track_view(self.track),
            cache: cache_map(self.cached_resolved_named_prop_refs@),
        }
    }
}

/// The driver: one animation per entity, and the shared clock.
#[derive(Debug)]
pub struct AnimationSubSystem {
    animations: Vec<(EntityId, EntityAnimation)>,
    time: i64,
}

/// Mathematical model of the driver.
pub ghost struct AnimationSubSystemV {
    pub anims: Map<EntityId, EntityAnimationV>,
    pub time: int,
}

/// The animation table as a map; a later entry shadows an earlier one for
/// the same entity.
pub open spec fn anims_map(s: Seq<(EntityId, EntityAnimation)>) -> Map<EntityId, EntityAnimationV>
    decreases s,
{
    if s.len() == 0 {
        Map::empty()
    } else {
        anims_map(s.drop_last()).insert(s.last().0, s.last().1@)
    }
}

impl View for AnimationSubSystem {
    type V = AnimationSubSystemV;

    closed spec fn view(&self) -> AnimationSubSystemV {
        AnimationSubSystemV { anims: anims_map(self.animations@), time: self.time as int }
    }
}

/// Every active track of the driver can be evaluated.
pub open spec fn subsystem_wf(v: AnimationSubSystemV) -> bool {
    forall|e: EntityId| v.anims.dom().contains(e) ==> track_wf((#[trigger] v.anims[e]).track)
}

/// When index `i` holds the last entry for its entity, the map holds that
/// entry's state for that entity.
proof fn lemma_anims_map_last(s: Seq<(EntityId, EntityAnimation)>, i: int)
    requires
        0 <= i < s.len(),
        forall|k: int| i < k < s.len() ==> (#[trigger] s[k]).0 != s[i].0,
    ensures
        anims_map(s).dom().contains(s[i].0),
        anims_map(s)[s[i].0] == s[i].1@,
    decreases s.len(),
{
    if i + 1 == s.len() {
    } else {
        assert(s.drop_last()[i] == s[i]);
        assert(forall|k: int| 0 <= k < s.drop_last().len() ==> (#[trigger] s.drop_last()[k]) == s[k]);
        lemma_anims_map_last(s.drop_last(), i);
        assert(s.last().0 != s[i].0);
    }
}

/// An entity no entry carries is not in the map.
proof fn lemma_anims_map_absent(s: Seq<(EntityId, EntityAnimation)>, e: EntityId)
    requires
        forall|k: int| 0 <= k < s.len() ==> (#[trigger] s[k]).0 != e,
    ensures
        !anims_map(s).dom().contains(e),
    decreases s.len(),
{
    if s.len() > 0 {
        assert(forall|k: int| 0 <= k < s.drop_last().len() ==> (#[trigger] s.drop_last()[k]) == s[k]);
        lemma_anims_map_absent(s.drop_last(), e);
    }
}

/// Every entity an entry carries is in the map.
proof fn lemma_anims_map_contains(s: Seq<(EntityId, EntityAnimation)>, i: int)
    requires
        0 <= i < s.len(),
    ensures
        anims_map(s).dom().contains(s[i].0),
    decreases s.len(),
{
    if i + 1 < s.len() {
        assert(s.drop_last()[i] == s[i]);
        lemma_anims_map_contains(s.drop_last(), i);
    }
}

/// Every entity of the map is carried by some entry.
proof fn lemma_anims_map_dom(s: Seq<(EntityId, EntityAnimation)>, e: EntityId)
    requires
        anims_map(s).dom().contains(e),
    ensures
        exists|i: int| 0 <= i < s.len() && (#[trigger] s[i]).0 == e,
    decreases s.len(),
{
    if s.len() > 0 {
        if s.last().0 == e {
            assert(s[s.len() - 1].0 == e);
        } else {
            lemma_anims_map_dom(s.drop_last(), e);
            let i = choose|i: int| 0 <= i < s.drop_last().len() && (#[trigger] s.drop_last()[i]).0 == e;
            assert(s[i].0 == e);
        }
    }
}

/// Replacing the last entry for an entity updates the map at that entity.
proof fn lemma_anims_map_update_last(s: Seq<(EntityId, EntityAnimation)>, i: int, v: EntityAnimation)
    requires
        0 <= i < s.len(),
        forall|k: int| i < k < s.len() ==> (#[trigger] s[k]).0 != s[i].0,
    ensures
        anims_map(s.update(i, (s[i].0, v))) == anims_map(s).insert(s[i].0, v@),
    decreases s.len(),
{
    let t = s.update(i, (s[i].0, v));
    if i + 1 == s.len() {
        assert(t.drop_last() =~= s.drop_last());
        assert(t.last() == (s[i].0, v));
        assert(anims_map(t) =~= anims_map(s).insert(s[i].0, v@));
    } else {
        assert(t.drop_last() =~= s.drop_last().update(i, (s[i].0, v)));
        assert(s.drop_last()[i] == s[i]);
        assert(forall|k: int| 0 <= k < s.drop_last().len() ==> (#[trigger] s.drop_last()[k]) == s[k]);
        lemma_anims_map_update_last(s.drop_last(), i, v);
        assert(t.last() == s.last());
        assert(s.last().0 != s[i].0);
        assert(anims_map(t) =~= anims_map(s).insert(s[i].0, v@));
    }
}

/// The entries of the list whose entity differs from `e`, in order.
pub open spec fn without_entity(s: Seq<(EntityId, EntityAnimation)>, e: EntityId) -> Seq<
    (EntityId, EntityAnimation),
>
    decreases s,
{
    if s.len() == 0 {
        Seq::empty()
    } else {
        let rest = without_entity(s.drop_last(), e);
        if s.last().0 == e {
            rest
        } else {
            rest.push(s.last())
        }
    }
}

/// Dropping every entry of an entity removes exactly that entity from the
/// map.
proof fn lemma_without_entity(s: Seq<(EntityId, EntityAnimation)>, e: EntityId)
    ensures
        anims_map(without_entity(s, e)) == anims_map(s).remove(e),
    decreases s.len(),
{
    if s.len() == 0 {
        assert(anims_map(without_entity(s, e)) =~= anims_map(s).remove(e));
    } else {
        lemma_without_entity(s.drop_last(), e);
        if s.last().0 == e {
            assert(anims_map(without_entity(s, e)) =~= anims_map(s).remove(e));
        } else {
            assert(without_entity(s, e).drop_last() =~= without_entity(s.drop_last(), e));
            assert(without_entity(s, e).last() == s.last());
            assert(anims_map(without_entity(s, e)) =~= anims_map(s).remove(e));
        }
    }
}

impl AnimationSubSystem {
    /// A driver with no animated entities and its clock at zero.
    pub fn new() -> (r: AnimationSubSystem)
        ensures
            r@.anims == Map::<EntityId, EntityAnimationV>::empty(),
            r@.time == 0,
            subsystem_wf(r@),
    {
        let r = AnimationSubSystem { animations: Vec::new(), time: 0 };
        proof {
            assert(r@.anims =~= Map::<EntityId, EntityAnimationV>::empty());
        }
        r
    }

    /// The clock: elapsed milliseconds since the driver started.
    pub fn elapsed(&self) -> (r: i64)
        ensures
            r == self@.time,
    {
        self.time
    }

    /// Advances the shared clock; it moves monotonically forward, once
    /// per update pass.
    pub fn advance(&mut self, delta: i64)
        requires
            delta >= 0,
            old(self)@.time + delta <= i64::MAX,
        ensures
            final(self)@.time == old(self)@.time + delta,
            final(self)@.anims == old(self)@.anims,
    {
        self.time = self.time + delta;
    }

    /// Drops every entry of the given entity from the table.
    fn remove_entity(&mut self, entity: EntityId)
        ensures
            final(self)@.anims == old(self)@.anims.remove(entity),
            final(self)@.time == old(self)@.time,
            subsystem_wf(old(self)@) ==> subsystem_wf(final(self)@),
    {
        let ghost s0 = self.animations@;
        let mut kept: Vec<(EntityId, EntityAnimation)> = Vec::new();
        let ghost mut i: int = 0;
        proof {
            assert(kept@ =~= without_entity(s0.take(0), entity));
            assert(self.animations@ =~= s0.skip(0));
        }
        while self.animations.len() > 0
            invariant
                0 <= i <= s0.len(),
                self.time == old(self).time,
                self.animations@ == s0.skip(i),
                kept@ == without_entity(s0.take(i), entity),
            decreases s0.len() - i,
        {
            proof {
                assert(s0.skip(i)[0] == s0[i]);
                assert(s0.take(i + 1).drop_last() =~= s0.take(i));
                assert(s0.take(i + 1).last() == s0[i]);
            }
            let pair = self.animations.remove(0);
            proof {
                assert(self.animations@ =~= s0.skip(i + 1));
            }
            if pair.0 != entity {
                kept.push(pair);
            }
            proof {
                assert(kept@ =~= without_entity(s0.take(i + 1), entity));
                i = i + 1;
            }
        }
        proof {
            assert(s0.take(s0.len() as int) =~= s0);
        }
        self.animations = kept;
        proof {
            lemma_without_entity(s0, entity);
            assert(final(self)@.anims =~= old(self)@.anims.remove(entity));
            if subsystem_wf(old(self)@) {
                assert forall|e: EntityId| final(self)@.anims.dom().contains(e) implies track_wf(
                    (#[trigger] final(self)@.anims[e]).track,
                ) by {
                    assert(old(self)@.anims.dom().contains(e));
                    assert(final(self)@.anims[e] == old(self)@.anims[e]);
                }
            }
        }
    }
}


/// When index `j` holds the last entry for its reference, the cache map
/// holds that entry's target for that reference.
proof fn lemma_cache_map_last(s: Seq<(NamedPropRef, PropRef)>, j: int)
    requires
        0 <= j < s.len(),
        forall|k: int| j < k < s.len() ==> (#[trigger] s[k]).0@ != s[j].0@,
    ensures
        cache_map(s).dom().contains(s[j].0@),
        cache_map(s)[s[j].0@] == s[j].1@,
    decreases s.len(),
{
    if j + 1 == s.len() {
    } else {
        assert(s.drop_last()[j] == s[j]);
        assert(forall|k: int| 0 <= k < s.drop_last().len() ==> (#[trigger] s.drop_last()[k]) == s[k]);
        lemma_cache_map_last(s.drop_last(), j);
        assert(s.last().0@ != s[j].0@);
    }
}

/// A reference no entry carries is not in the cache map.
proof fn lemma_cache_map_absent(s: Seq<(NamedPropRef, PropRef)>, key: NamedPropRefV)
    requires
        forall|k: int| 0 <= k < s.len() ==> (#[trigger] s[k]).0@ != key,
    ensures
        !cache_map(s).dom().contains(key),
    decreases s.len(),
{
    if s.len() > 0 {
        assert(forall|k: int| 0 <= k < s.drop_last().len() ==> (#[trigger] s.drop_last()[k]) == s[k]);
        lemma_cache_map_absent(s.drop_last(), key);
    }
}

impl AnimationSubSystem {
    /// The index of the last entry for the entity, if any.
    fn find_entity(&self, entity: EntityId) -> (r: Option<usize>)
        ensures
            match r {
                Some(i) => i < self.animations@.len() && self.animations@[i as int].0 == entity
                    && forall|k: int|
                    i < k < self.animations@.len() ==> (#[trigger] self.animations@[k]).0 != entity,
                None => forall|k: int|
                    0 <= k < self.animations@.len() ==> (#[trigger] self.animations@[k]).0 != entity,
            },
    {
        let mut i: usize = self.animations.len();
        while i > 0
            invariant
                i <= self.animations@.len(),
                forall|k: int| i <= k < self.animations@.len() ==> (#[trigger] self.animations@[k]).0
                    != entity,
            decreases i,
        {
            i = i - 1;
            if self.animations[i].0 == entity {
                return Some(i);
            }
        }
        None
    }

    /// Replaces, installs or removes an entity's animation. An absent
    /// description means no animation; a description that fails to
    /// construct leaves the entity un-animated and reports why. Either
    /// way any previous track and its resolution cache are discarded
    /// wholesale.
    pub fn set_animation(
        &mut self,
        entity: EntityId,
        d: Option<&TrackSpec>,
        resources: &TrackResources,
    ) -> (r: Result<(), ConstructionError>)
        ensures
            final(self)@.time == old(self)@.time,
            match d {
                None => r is Ok && final(self)@.anims == old(self)@.anims.remove(entity),
                Some(ds) => match construct(ds@, resources@) {
                    Ok(tv) => r is Ok && final(self)@.anims == old(self)@.anims.insert(
                        entity,
                        EntityAnimationV { track: tv, cache: Map::empty() },
                    ),
                    Err(e) => r == Err::<(), ConstructionError>(e) && final(self)@.anims == old(
                        self,
                    )@.anims.remove(entity),
                },
            },
            subsystem_wf(old(self)@) && resources_wf(resources@) ==> subsystem_wf(final(self)@),
    {
        self.remove_entity(entity);
        match d {
            None => Ok(()),
            Some(ds) => match Track::from_spec(ds, resources) {
                Ok(t) => {
                    let ghost tv = track_view(t);
                    let anim = EntityAnimation {
                        track: t,
                        cached_resolved_named_prop_refs: Vec::new(),
                    };
                    proof {
                        assert(anim@.cache =~= Map::<NamedPropRefV, PropRefV>::empty());
                        assert(anim@ == (EntityAnimationV { track: tv, cache: Map::empty() }));
                    }
                    let ghost mid = self.animations@;
                    self.animations.push((entity, anim));
                    proof {
                        assert(self.animations@.drop_last() =~= mid);
                        assert(self.animations@.last() == (entity, anim));
                        assert(final(self)@.anims == anims_map(mid).insert(entity, anim@));
                        assert(old(self)@.anims.remove(entity).insert(entity, anim@)
                            =~= old(self)@.anims.insert(entity, anim@));
                        if subsystem_wf(old(self)@) && resources_wf(resources@) {
                            assert forall|e: EntityId| final(self)@.anims.dom().contains(e)
                                implies track_wf((#[trigger] final(self)@.anims[e]).track) by {
                                if e != entity {
                                    assert(old(self)@.anims.dom().contains(e));
                                    assert(final(self)@.anims[e] == old(self)@.anims[e]);
                                }
                            }
                        }
                    }
                    Ok(())
                },
                Err(e) => Err(e),
            },
        }
    }

    /// The contributions of an entity's track at the driver's current
    /// clock, or nothing when the entity has no animation.
    pub fn contributions(&self, entity: EntityId) -> (r: Option<Vec<(NamedPropRef, Animatable)>>)
        requires
            subsystem_wf(self@),
        ensures
            match r {
                Some(v) => self@.anims.dom().contains(entity) && contribs_view(v@) == track_value(
                    self@.anims[entity].track,
                    self@.time,
                ),
                None => !self@.anims.dom().contains(entity),
            },
    {
        match self.find_entity(entity) {
            Some(i) => {
                proof {
                    lemma_anims_map_last(self.animations@, i as int);
                }
                Some(self.animations[i].1.track.value_at(self.time))
            },
            None => {
                proof {
                    lemma_anims_map_absent(self.animations@, entity);
                }
                None
            },
        }
    }

    /// The cached resolution of a named reference for an entity: reuse on
    /// a hit, nothing on a miss.
    pub fn cached_resolution(&self, entity: EntityId, named: &NamedPropRef) -> (r: Option<PropRef>)
        ensures
            match r {
                Some(p) => self@.anims.dom().contains(entity) && self@.anims[entity].cache.dom()
                    .contains(named@) && p@ == self@.anims[entity].cache[named@],
                None => !self@.anims.dom().contains(entity) || !self@.anims[entity].cache.dom()
                    .contains(named@),
            },
    {
        match self.find_entity(entity) {
            Some(i) => {
                proof {
                    lemma_anims_map_last(self.animations@, i as int);
                }
                let cache = &self.animations[i].1.cached_resolved_named_prop_refs;
                let mut j: usize = cache.len();
                while j > 0
                    invariant
                        j <= cache@.len(),
                        self@.anims.dom().contains(entity),
                        self@.anims[entity].cache == cache_map(cache@),
                        forall|k: int| j <= k < cache@.len() ==> (#[trigger] cache@[k]).0@ != named@,
                    decreases j,
                {
                    j = j - 1;
                    if cache[j].0.matches_ref(named) {
                        proof {
                            lemma_cache_map_last(cache@, j as int);
                        }
                        return Some(cache[j].1.clone());
                    }
                }
                proof {
                    lemma_cache_map_absent(cache@, named@);
                }
                None
            },
            None => {
                proof {
                    lemma_anims_map_absent(self.animations@, entity);
                }
                None
            },
        }
    }

    /// Stores a freshly resolved reference in an entity's cache, after a
    /// miss. Nothing is stored, and `false` returned, when the entity has
    /// no animation.
    pub fn store_resolution(&mut self, entity: EntityId, named: NamedPropRef, target: PropRef) -> (r:
        bool)
        ensures
            final(self)@.time == old(self)@.time,
            r == old(self)@.anims.dom().contains(entity),
            r ==> final(self)@.anims == old(self)@.anims.insert(
                entity,
                EntityAnimationV {
                    track: old(self)@.anims[entity].track,
                    cache: old(self)@.anims[entity].cache.insert(named@, target@),
                },
            ),
            !r ==> final(self)@.anims == old(self)@.anims,
            subsystem_wf(old(self)@) ==> subsystem_wf(final(self)@),
    {
        match self.find_entity(entity) {
            Some(i) => {
                proof {
                    lemma_anims_map_last(self.animations@, i as int);
                }
                let ghost s_before = self.animations@;
                let ghost named_v = named@;
                let ghost target_v = target@;
                let ghost cache_before = self.animations@[i as int].1.cached_resolved_named_prop_refs@;
                self.animations[i].1.cached_resolved_named_prop_refs.push((named, target));
                let ghost new_anim = self.animations@[i as int].1;
                proof {
                    assert(new_anim.cached_resolved_named_prop_refs@.drop_last() =~= cache_before);
                    assert(new_anim.cached_resolved_named_prop_refs@.last().0@ == named_v);
                    assert(new_anim.cached_resolved_named_prop_refs@.last().1@ == target_v);
                    assert(new_anim@ == (EntityAnimationV {
                        track: old(self)@.anims[entity].track,
                        cache: old(self)@.anims[entity].cache.insert(named_v, target_v),
                    }));
                    assert(self.animations@ =~= s_before.update(i as int, (entity, new_anim)));
                    assert(s_before[i as int].0 == entity);
                    lemma_anims_map_update_last(s_before, i as int, new_anim);
                    if subsystem_wf(old(self)@) {
                        assert forall|e: EntityId| final(self)@.anims.dom().contains(e)
                            implies track_wf((#[trigger] final(self)@.anims[e]).track) by {
                            if e != entity {
                                assert(old(self)@.anims.dom().contains(e));
                                assert(final(self)@.anims[e] == old(self)@.anims[e]);
                            }
                        }
                    }
                }
                true
            },
            None => {
                proof {
                    lemma_anims_map_absent(self.animations@, entity);
                }
                false
            },
        }
    }

    /// The animated entities, one index per table entry.
    pub fn entities(&self) -> (r: Vec<EntityId>)
        ensures
            forall|i: int| 0 <= i < r@.len() ==> self@.anims.dom().contains(#[trigger] r@[i]),
            forall|e: EntityId| self@.anims.dom().contains(e) ==> r@.contains(e),
    {
        let mut r: Vec<EntityId> = Vec::new();
        let mut i: usize = 0;
        while i < self.animations.len()
            invariant
                i <= self.animations@.len(),
                r@.len() == i,
                forall|k: int| 0 <= k < i ==> r@[k] == (#[trigger] self.animations@[k]).0,
            decreases self.animations@.len() - i,
        {
            r.push(self.animations[i].0);
            i = i + 1;
        }
        proof {
            assert forall|k: int| 0 <= k < r@.len() implies self@.anims.dom().contains(
                #[trigger] r@[k],
            ) by {
                lemma_anims_map_contains(self.animations@, k);
            }
            assert forall|e: EntityId| self@.anims.dom().contains(e) implies r@.contains(e) by {
                lemma_anims_map_dom(self.animations@, e);
                let k = choose|k: int|
                    0 <= k < self.animations@.len() && (#[trigger] self.animations@[k]).0 == e;
                assert(r@[k] == e);
            }
        }
        r
    }
}

} // verus!
