//! An animation evaluation engine.
//!
//! Given a declarative description of how one or more scene properties
//! change over time, the engine produces concrete numeric values at
//! arbitrary time offsets. Curves map a time scalar to a value; tracks wrap
//! a curve with a target property, an offset, a loop policy and a time
//! domain; track sets and weighted blends compose tracks; and the update
//! driver owns one track per animated entity together with a cache of
//! resolved property references.

pub mod animatable;
pub mod construction;
pub mod curve;
pub mod curve_track;
pub mod props;
pub mod track;
pub mod track_set;
pub mod weighted_tracks;
pub mod scalar;
pub mod subsystem;

pub use crate::animatable::Animatable;
pub use crate::construction::{TrackSpec, KeySpec, ValueSpec, ConstructionError, TrackResources};
pub use crate::curve::{Curve, Key, FixedValueCurve, LinearKeyFrameCurve, DiscreetKeyFrameCurve};
pub use crate::curve_track::{CurveTrack, Loop, CurveTime};
pub use crate::track::{Track, TrackSetFromResource};
pub use crate::track_set::TrackSet;
pub use crate::weighted_tracks::{WeightedTrack, WeightedTracks};
pub use crate::props::{EntityPath, NamedPropRef, PropRef, EntityId};
pub use crate::scalar::Scalar;
pub use crate::subsystem::AnimationSubSystem;
