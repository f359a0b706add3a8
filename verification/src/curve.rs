//! Curves: pure functions from a time scalar to a value.
//!
//! A curve is one of: a fixed value that ignores time; a linear key-frame
//! curve that interpolates piecewise-linearly between time-ordered keys,
//! clamping to the first and last key outside their range; or a discreet
//! (stepped) key-frame curve that snaps to the key whose bucket the time
//! falls in. Curves never mutate and never fail; key lists are expected to
//! be ascending in time, which construction is responsible for, not
//! evaluation.

use vstd::prelude::*;
use crate::animatable::{Animatable, spec_interpolate};
use crate::scalar::{
    Scalar, gt_bits, sub_bits, div_bits, mul_bits, int_bits, trunc_bits, scalar_gt, scalar_sub,
    scalar_div, scalar_mul, scalar_of_int, scalar_trunc,
};

verus! {

/// A time/value pair: curve input data.
#[derive(Debug, PartialEq)]
pub struct Key(pub Scalar, pub Animatable);

impl View for Key {
    type V = (Scalar, Seq<Scalar>);

    open spec fn view(&self) -> (Scalar, Seq<Scalar>) {
        (self.0, self.1@)
    }
}

/// The key list of a curve, as time/component-sequence pairs.
pub open spec fn keys_view(keys: Seq<Key>) -> Seq<(Scalar, Seq<Scalar>)> {
    keys.map_values(|k: Key| k@)
}

/// A curve that returns its stored value at every time.
#[derive(Debug, PartialEq)]
pub struct FixedValueCurve {
    pub value: Animatable,
}

/// A curve that interpolates piecewise-linearly between its keys.
#[derive(Debug, PartialEq)]
pub struct LinearKeyFrameCurve {
    pub keys: Vec<Key>,
}

/// A curve that snaps to the key of the bucket `floor(time * key_count)`,
/// clamped to the key range.
#[derive(Debug, PartialEq)]
pub struct DiscreetKeyFrameCurve {
    pub keys: Vec<Key>,
}

/// Mathematical model of a curve.
pub ghost enum CurveV {
    Fixed(Seq<Scalar>),
    Linear(Seq<(Scalar, Seq<Scalar>)>),
    Discreet(Seq<(Scalar, Seq<Scalar>)>),
}

/// A pure, stateless function from a time scalar to a value.
#[derive(Debug, PartialEq)]
pub enum Curve {
    Fixed(FixedValueCurve),
    Linear(LinearKeyFrameCurve),
    Discreet(DiscreetKeyFrameCurve),
}

impl View for Curve {
    type V = CurveV;

    open spec fn view(&self) -> CurveV {
        match self {
            Curve::Fixed(c) => CurveV::Fixed(c.value@),
            Curve::Linear(c) => CurveV::Linear(keys_view(c.keys@)),
            Curve::Discreet(c) => CurveV::Discreet(keys_view(c.keys@)),
        }
    }
}

/// A curve can be evaluated when its key list is non-empty; a fixed-value
/// curve always can.
pub open spec fn curve_wf(c: CurveV) -> bool {
    match c {
        CurveV::Fixed(_) => true,
        CurveV::Linear(keys) => keys.len() > 0,
        CurveV::Discreet(keys) => keys.len() > 0,
    }
}

/// The index at which a scan of the key list stops: the first key whose
/// time lies strictly after `t`, or the list's length when no key does.
/// The keys before it are exactly the scanned candidates for the key at or
/// before `t`.
pub open spec fn scan_break(keys: Seq<(Scalar, Seq<Scalar>)>, t: Scalar) -> int
    decreases keys.len(),
{
    if keys.len() == 0 {
        0
    } else if gt_bits(keys[0].0, t) {
        0
    } else {
        1 + scan_break(keys.drop_first(), t)
    }
}

/// Any index with `scan_break`'s characteristic properties is `scan_break`:
/// no key before it lies after `t`, and the key at it, if any, does.
pub proof fn lemma_scan_break_unique(keys: Seq<(Scalar, Seq<Scalar>)>, t: Scalar, j: int)
    requires
        0 <= j <= keys.len(),
        forall|i: int| 0 <= i < j ==> !gt_bits(keys[i].0, t),
        j < keys.len() ==> gt_bits(keys[j].0, t),
    ensures
        scan_break(keys, t) == j,
    decreases keys.len(),
{
    if keys.len() == 0 {
    } else if gt_bits(keys[0].0, t) {
        assert(j == 0);
    } else {
        assert(j != 0);
        assert(forall|i: int| 0 <= i < keys.drop_first().len() ==> keys.drop_first()[i] == keys[i + 1]);
        lemma_scan_break_unique(keys.drop_first(), t, j - 1);
    }
}

/// A degenerate single-key curve returns that key's value at every time.
pub proof fn lemma_single_key_constant(keys: Seq<(Scalar, Seq<Scalar>)>, t: Scalar)
    requires
        keys.len() == 1,
    ensures
        linear_value(keys, t) == keys[0].1,
{
    if !gt_bits(keys[0].0, t) {
        assert(scan_break(keys.drop_first(), t) == 0);
    }
}

/// Sampling a linear curve at a time strictly before its first key
/// clamps to the first key's value, not an extrapolation.
pub proof fn lemma_linear_clamp_left(keys: Seq<(Scalar, Seq<Scalar>)>, t: Scalar)
    requires
        keys.len() > 0,
        gt_bits(keys[0].0, t),
    ensures
        linear_value(keys, t) == keys[0].1,
{
}

/// Sampling a linear curve at a time no key lies strictly after clamps
/// to the last key's value, not an extrapolation.
pub proof fn lemma_linear_clamp_right(keys: Seq<(Scalar, Seq<Scalar>)>, t: Scalar)
    requires
        keys.len() > 0,
        forall|i: int| 0 <= i < keys.len() ==> !gt_bits((#[trigger] keys[i]).0, t),
    ensures
        linear_value(keys, t) == keys[keys.len() - 1].1,
{
    lemma_scan_break_unique(keys, t, keys.len() as int);
}

/// The value of a linear key-frame curve at time `t`: the interpolation of
/// the last key at or before `t` toward the first key after `t`, clamped to
/// the first key when `t` lies before every key and to the last key when
/// `t` lies after every key.
pub open spec fn linear_value(keys: Seq<(Scalar, Seq<Scalar>)>, t: Scalar) -> Seq<Scalar>
    recommends
        keys.len() > 0,
{
    let j = scan_break(keys, t);
    if j == 0 {
        keys[0].1
    } else if j == keys.len() {
        keys[keys.len() - 1].1
    } else {
        spec_interpolate(
            keys[j - 1].1,
            keys[j].1,
            div_bits(sub_bits(t, keys[j - 1].0), sub_bits(keys[j].0, keys[j - 1].0)),
        )
    }
}

/// The value of a discreet key-frame curve at time `t`: the key of bucket
/// `floor(t * key_count)`, clamped to the key range.
pub open spec fn discreet_value(keys: Seq<(Scalar, Seq<Scalar>)>, t: Scalar) -> Seq<Scalar>
    recommends
        keys.len() > 0,
{
    let idx = trunc_bits(mul_bits(t, int_bits(keys.len() as int)));
    if idx < 0 {
        keys[0].1
    } else if idx >= keys.len() {
        keys[keys.len() - 1].1
    } else {
        keys[idx as int].1
    }
}

/// The value of a curve at time `t`.
pub open spec fn curve_value(c: CurveV, t: Scalar) -> Seq<Scalar>
    recommends
        curve_wf(c),
{
    match c {
        CurveV::Fixed(v) => v,
        CurveV::Linear(keys) => linear_value(keys, t),
        CurveV::Discreet(keys) => discreet_value(keys, t),
    }
}

impl FixedValueCurve {
    /// Returns the stored value, whatever the time.
    pub fn value(&self, _time: Scalar) -> (r: Animatable)
        ensures
            r@ == self.value@,
    {
        self.value.clone()
    }
}

impl LinearKeyFrameCurve {
    /// Samples the curve at `time` by scanning for the neighbouring keys
    /// and interpolating between them.
    pub fn value(&self, time: Scalar) -> (r: Animatable)
        requires
            self.keys@.len() > 0,
        ensures
            r@ == linear_value(keys_view(self.keys@), time),
    {
        let n = self.keys.len();
        let mut j: usize = 0;
        while j < n && !scalar_gt(self.keys[j].0, time)
            invariant
                n == self.keys@.len(),
                j <= n,
                forall|i: int| 0 <= i < j ==> !gt_bits(keys_view(self.keys@)[i].0, time),
            decreases n - j,
        {
            proof {
                assert(keys_view(self.keys@)[j as int] == self.keys@[j as int]@);
            }
            j = j + 1;
        }
        proof {
            if j < n {
                assert(keys_view(self.keys@)[j as int] == self.keys@[j as int]@);
            }
            lemma_scan_break_unique(keys_view(self.keys@), time, j as int);
        }
        if j == 0 {
            self.keys[0].1.clone()
        } else if j == n {
            self.keys[n - 1].1.clone()
        } else {
            let before_time = self.keys[j - 1].0;
            let after_time = self.keys[j].0;
            let p = scalar_div(scalar_sub(time, before_time), scalar_sub(after_time, before_time));
            Animatable::interpolate(&self.keys[j - 1].1, &self.keys[j].1, p)
        }
    }

    /// Resamples the curve into a discreet curve of `n_keys` buckets spread
    /// evenly over `duration`.
    pub fn to_discreet(&self, n_keys: usize, duration: Scalar) -> (r: DiscreetKeyFrameCurve)
        requires
            self.keys@.len() > 0,
        ensures
            r.keys@.len() == n_keys,
            forall|i: int| 0 <= i < n_keys ==> keys_view(r.keys@)[i] == (
                bucket_time(i, n_keys as int, duration),
                linear_value(keys_view(self.keys@), bucket_time(i, n_keys as int, duration)),
            ),
    {
        let mut keys: Vec<Key> = Vec::new();
        let mut i: usize = 0;
        while i < n_keys
            invariant
                self.keys@.len() > 0,
                i <= n_keys,
                keys@.len() == i,
                forall|k: int| 0 <= k < i ==> keys_view(keys@)[k] == (
                    bucket_time(k, n_keys as int, duration),
                    linear_value(keys_view(self.keys@), bucket_time(k, n_keys as int, duration)),
                ),
            decreases n_keys - i,
        {
            let p = scalar_mul(duration, scalar_div(scalar_of_int(i as i128), scalar_of_int(n_keys as i128)));
            let v = self.value(p);
            let ghost prior = keys@;
            keys.push(Key(p, v));
            proof {
                assert forall|k: int| 0 <= k < i + 1 implies keys_view(keys@)[k] == (
                    bucket_time(k, n_keys as int, duration),
                    linear_value(keys_view(self.keys@), bucket_time(k, n_keys as int, duration)),
                ) by {
                    assert(keys_view(keys@)[k] == keys@[k]@);
                    if k < i {
                        assert(keys@[k] == prior[k]);
                        assert(keys_view(prior)[k] == prior[k]@);
                    } else {
                        assert(keys@[k]@ == (p, v@));
                    }
                }
            }
            i = i + 1;
        }
        DiscreetKeyFrameCurve { keys }
    }
}

/// The time of bucket `i` of `n` buckets spread evenly over `duration`:
/// `duration * (i / n)`.
pub open spec fn bucket_time(i: int, n: int, duration: Scalar) -> Scalar {
    mul_bits(duration, div_bits(int_bits(i), int_bits(n)))
}

impl DiscreetKeyFrameCurve {
    /// Samples the curve at `time` by snapping to the bucket the time falls
    /// in, clamped to the key range.
    pub fn value(&self, time: Scalar) -> (r: Animatable)
        requires
            self.keys@.len() > 0,
        ensures
            r@ == discreet_value(keys_view(self.keys@), time),
    {
        let n = self.keys.len();
        let idx = scalar_trunc(scalar_mul(time, scalar_of_int(n as i128)));
        if idx < 0 {
            self.keys[0].1.clone()
        } else if idx as u64 >= n as u64 {
            self.keys[n - 1].1.clone()
        } else {
            self.keys[idx as usize].1.clone()
        }
    }
}

impl Curve {
    /// Samples the curve at `time`.
    pub fn value(&self, time: Scalar) -> (r: Animatable)
        requires
            curve_wf(self@),
        ensures
            r@ == curve_value(self@, time),
    {
        match self {
            Curve::Fixed(c) => c.value(time),
            Curve::Linear(c) => c.value(time),
            Curve::Discreet(c) => c.value(time),
        }
    }
}

} // verus!
