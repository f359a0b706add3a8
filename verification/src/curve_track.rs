//! The curve track: one curve, one target property, and a timing policy.
//!
//! A curve track maps the externally supplied elapsed time into its
//! curve's time domain: it subtracts its fixed offset, applies its loop
//! policy past its duration (wrap for `Forever`, exhaustion for `Once`),
//! and feeds the curve either raw seconds (`Absolute`) or normalized
//! progress in `[0, 1]` (`Relative`). Before its offset a track
//! contributes nothing, and a non-positive duration wraps to the start of
//! the curve rather than dividing by zero.

use vstd::prelude::*;
use crate::animatable::Animatable;
use crate::curve::{Curve, CurveV, FixedValueCurve, curve_value, curve_wf};
use crate::props::{NamedPropRef, NamedPropRefV};
use crate::scalar::{
    Scalar, SCALAR_ZERO, SCALAR_THOUSAND, div_bits, int_bits, scalar_div, scalar_of_int,
};
use crate::track::{ContribV, contribs_view};

verus! {

/// Whether a track repeats past its duration or runs once and exhausts.
#[derive(Debug, Clone, Copy, PartialEq, Eq, Structural)]
pub enum Loop {
    Forever,
    Once,
}

/// Which time domain the curve's keys live in.
#[derive(Debug, Clone, Copy, PartialEq, Eq, Structural)]
pub enum CurveTime {
    /// The curve is expected to have keys between 0 and 1.
    Relative,
    /// The curve is expected to have keys between 0 and the duration,
    /// in seconds.
    Absolute,
}

/// A track that samples one curve for one target property.
#[derive(Debug)]
pub struct CurveTrack {
    pub curve: Curve,
    /// Milliseconds by which the track starts after its activation.
    pub offset: i64,
    pub property: NamedPropRef,
    pub loop_type: Loop,
    /// The track's length, in milliseconds.
    pub duration: i64,
    pub curve_time: CurveTime,
}

/// Mathematical model of a curve track.
pub ghost struct CurveTrackV {
    pub curve: CurveV,
    pub offset: int,
    pub property: NamedPropRefV,
    pub loop_type: Loop,
    pub duration: int,
    pub curve_time: CurveTime,
}

impl View for CurveTrack {
    type V = CurveTrackV;

    open spec fn view(&self) -> CurveTrackV {
        CurveTrackV {
            curve: self.curve@,
            offset: self.offset as int,
            property: self.property@,
            loop_type: self.loop_type,
            duration: self.duration as int,
            curve_time: self.curve_time,
        }
    }
}

/// A curve track can be evaluated when its curve can.
pub open spec fn curve_track_wf(tr: CurveTrackV) -> bool {
    curve_wf(tr.curve)
}

/// The time scalar the curve is sampled at, for an effective time of
/// `eff` milliseconds: raw seconds in the `Absolute` domain, progress
/// `eff / duration` in the `Relative` domain. A non-positive duration
/// samples the start of the curve instead of dividing by zero.
pub open spec fn sample_time(curve_time: CurveTime, eff: int, duration: int) -> Scalar {
    match curve_time {
        CurveTime::Absolute => div_bits(int_bits(eff), SCALAR_THOUSAND),
        CurveTime::Relative => if duration <= 0 {
            SCALAR_ZERO
        } else {
            div_bits(int_bits(eff), int_bits(duration))
        },
    }
}

/// The contributions of a curve track at elapsed time `time`
/// (milliseconds): nothing before the track's offset; nothing past its
/// duration once a `Once` track is exhausted; otherwise exactly one
/// `(property, value)` pair, with a `Forever` track wrapping its effective
/// time modulo its duration. A non-positive duration wraps to the start of
/// the curve.
pub open spec fn curve_track_value(tr: CurveTrackV, time: int) -> Seq<ContribV> {
    let eff = time - tr.offset;
    if eff < 0 {
        Seq::empty()
    } else if eff > tr.duration && tr.loop_type == Loop::Once {
        Seq::empty()
    } else {
        let eff2 = if eff > tr.duration {
            if tr.duration <= 0 {
                0
            } else {
                eff % tr.duration
            }
        } else {
            eff
        };
        seq![(tr.property, curve_value(tr.curve, sample_time(tr.curve_time, eff2, tr.duration)))]
    }
}

/// A `Forever` track wraps: past its duration, evaluation at a time
/// equals evaluation at the time wrapped modulo the duration, within the
/// first period.
pub proof fn lemma_loop_wrap(tr: CurveTrackV, time: int)
    requires
        tr.loop_type == Loop::Forever,
        tr.duration > 0,
        time - tr.offset > tr.duration,
    ensures
        curve_track_value(tr, time) == curve_track_value(
            tr,
            tr.offset + (time - tr.offset) % tr.duration,
        ),
{
    let eff = time - tr.offset;
    assert(0 <= eff % tr.duration < tr.duration) by (nonlinear_arith)
        requires
            tr.duration > 0,
            eff > 0,
    ;
}

/// A `Once` track exhausts: past its duration it contributes nothing at
/// all, rather than clamping.
pub proof fn lemma_once_exhausted(tr: CurveTrackV, time: int)
    requires
        tr.loop_type == Loop::Once,
        time - tr.offset > tr.duration,
    ensures
        curve_track_value(tr, time) == Seq::<ContribV>::empty(),
{
}

/// Before its offset a track contributes nothing: the canonical
/// before-start rule.
pub proof fn lemma_before_start(tr: CurveTrackV, time: int)
    requires
        time - tr.offset < 0,
    ensures
        curve_track_value(tr, time) == Seq::<ContribV>::empty(),
{
}

/// A fixed-value track, as `new_fixed_value` builds it, returns its value
/// on every tick from its start on, indefinitely.
pub proof fn lemma_fixed_value_always(p: NamedPropRefV, v: Seq<Scalar>, time: int)
    requires
        time >= 0,
    ensures
        curve_track_value(
            CurveTrackV {
                curve: CurveV::Fixed(v),
                offset: 0,
                property: p,
                loop_type: Loop::Forever,
                duration: 604_800_000,
                curve_time: CurveTime::Absolute,
            },
            time,
        ) == seq![(p, v)],
{
}

impl CurveTrack {
    /// A track that contributes `value` to `property` on every tick,
    /// indefinitely: a fixed-value curve looping forever over a one-week
    /// duration in the absolute time domain.
    pub fn new_fixed_value(property: NamedPropRef, value: Animatable) -> (r: CurveTrack)
        ensures
            r@ == (CurveTrackV {
                curve: CurveV::Fixed(value@),
                offset: 0,
                property: property@,
                loop_type: Loop::Forever,
                duration: 604_800_000,
                curve_time: CurveTime::Absolute,
            }),
    {
        CurveTrack {
            curve: Curve::Fixed(FixedValueCurve { value }),
            offset: 0,
            property,
            loop_type: Loop::Forever,
            duration: 604_800_000,
            curve_time: CurveTime::Absolute,
        }
    }

    /// The contributions of this track at elapsed time `time`, in
    /// milliseconds.
    pub fn value_at(&self, time: i64) -> (r: Vec<(NamedPropRef, Animatable)>)
        requires
            curve_track_wf(self@),
        ensures
            contribs_view(r@) == curve_track_value(self@, time as int),
    {
        let eff: i128 = time as i128 - self.offset as i128;
        if eff < 0 {
            let r: Vec<(NamedPropRef, Animatable)> = Vec::new();
            proof {
                assert(contribs_view(r@) =~= curve_track_value(self@, time as int));
            }
            return r;
        }
        let exceeded = eff > self.duration as i128;
        if exceeded && self.loop_type == Loop::Once {
            let r: Vec<(NamedPropRef, Animatable)> = Vec::new();
            proof {
                assert(contribs_view(r@) =~= curve_track_value(self@, time as int));
            }
            return r;
        }
        let eff2: i128 = if exceeded {
            if self.duration <= 0 {
                0
            } else {
                eff % self.duration as i128
            }
        } else {
            eff
        };
        let t = match self.curve_time {
            CurveTime::Absolute => scalar_div(scalar_of_int(eff2), SCALAR_THOUSAND),
            CurveTime::Relative => if self.duration <= 0 {
                SCALAR_ZERO
            } else {
                scalar_div(scalar_of_int(eff2), scalar_of_int(self.duration as i128))
            },
        };
        let v = self.curve.value(t);
        let mut r: Vec<(NamedPropRef, Animatable)> = Vec::new();
        r.push((self.property.clone(), v));
        proof {
            assert(contribs_view(r@) =~= curve_track_value(self@, time as int));
        }
        r
    }
}

} // verus!
