//! Addressing of host-owned properties.
//!
//! A `NamedPropRef` identifies a target property logically: on the owning
//! entity itself, or on a named related entity, together with a property
//! key. The host resolves it into a `PropRef`, a concrete entity id plus
//! property key, which is what property writes are addressed to.

use vstd::prelude::*;

verus! {

/// Which entity a logical property reference starts from.
#[derive(Debug, PartialEq, Eq)]
pub enum EntityPath {
    /// The entity that owns the animation.
    This,
    /// A related entity, found by name.
    Named(String),
}

/// Mathematical model of an `EntityPath`.
pub ghost enum EntityPathV {
    This,
    Named(Seq<char>),
}

impl View for EntityPath {
    type V = EntityPathV;

    open spec fn view(&self) -> EntityPathV {
        match self {
            EntityPath::This => EntityPathV::This,
            EntityPath::Named(name) => EntityPathV::Named(name@),
        }
    }
}

impl Clone for EntityPath {
    fn clone(&self) -> (r: Self)
        ensures
            r@ == self@,
    {
        match self {
            EntityPath::This => EntityPath::This,
            EntityPath::Named(name) => EntityPath::Named(name.clone()),
        }
    }
}

impl EntityPath {
    /// Decides whether two paths address the same entity.
    pub fn matches_path(&self, other: &EntityPath) -> (r: bool)
        ensures
            r == (self@ == other@),
    {
        match (self, other) {
            (EntityPath::This, EntityPath::This) => true,
            (EntityPath::Named(a), EntityPath::Named(b)) => a.eq(b),
            _ => false,
        }
    }
}

/// A logical reference to a property: an entity path plus a property key.
#[derive(Debug, PartialEq, Eq)]
pub struct NamedPropRef {
    pub entity_path: EntityPath,
    pub property_key: String,
}

/// Mathematical model of a `NamedPropRef`.
pub ghost struct NamedPropRefV {
    pub entity_path: EntityPathV,
    pub property_key: Seq<char>,
}

impl View for NamedPropRef {
    type V = NamedPropRefV;

    open spec fn view(&self) -> NamedPropRefV {
        NamedPropRefV { entity_path: self.entity_path@, property_key: self.property_key@ }
    }
}

impl Clone for NamedPropRef {
    fn clone(&self) -> (r: Self)
        ensures
            r@ == self@,
    {
        NamedPropRef { entity_path: self.entity_path.clone(), property_key: self.property_key.clone() }
    }
}

impl NamedPropRef {
    /// Builds a reference from an entity path and a property key.
    pub fn new(entity_path: EntityPath, property_key: &str) -> (r: NamedPropRef)
        ensures
            r@ == (NamedPropRefV { entity_path: entity_path@, property_key: property_key@ }),
    {
        NamedPropRef { entity_path, property_key: property_key.to_owned() }
    }

    /// Decides whether two references address the same logical property.
    pub fn matches_ref(&self, other: &NamedPropRef) -> (r: bool)
        ensures
            r == (self@ == other@),
    {
        self.entity_path.matches_path(&other.entity_path) && self.property_key.eq(&other.property_key)
    }
}

/// The unique identifier of a host entity.
pub type EntityId = u64;

/// A resolved reference to a property: a concrete entity id plus the
/// property key, ready to be written through the host.
#[derive(Debug, PartialEq, Eq)]
pub struct PropRef {
    pub entity_id: EntityId,
    pub property_key: String,
}

/// Mathematical model of a `PropRef`.
pub ghost struct PropRefV {
    pub entity_id: EntityId,
    pub property_key: Seq<char>,
}

impl View for PropRef {
    type V = PropRefV;

    open spec fn view(&self) -> PropRefV {
        PropRefV { entity_id: self.entity_id, property_key: self.property_key@ }
    }
}

impl Clone for PropRef {
    fn clone(&self) -> (r: Self)
        ensures
            r@ == self@,
    {
        PropRef { entity_id: self.entity_id, property_key: self.property_key.clone() }
    }
}

impl PropRef {
    /// Builds a resolved reference from an entity id and a property key.
    pub fn new(entity_id: EntityId, property_key: &str) -> (r: PropRef)
        ensures
            r@ == (PropRefV { entity_id: entity_id, property_key: property_key@ }),
    {
        PropRef { entity_id, property_key: property_key.to_owned() }
    }
}

} // verus!
