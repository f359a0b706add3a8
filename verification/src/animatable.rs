//! The value model: a fixed-shape numeric vector.
//!
//! An `Animatable` is an ordered sequence of scalars, by convention of
//! length 1, 3 or 4 (a scalar, a 3-vector or a 4-vector). The length is not
//! enforced: two values combine elementwise up to the shorter length, so
//! mismatched shapes truncate silently and callers must keep shapes
//! consistent per property.

use vstd::prelude::*;
use crate::scalar::{Scalar, SCALAR_ONE, add_bits, mul_bits, sub_bits, scalar_add, scalar_mul, scalar_sub};

verus! {

/// A fixed-shape numeric vector value produced by curve evaluation,
/// holding the bit patterns of its binary32 components.
#[derive(Debug, PartialEq)]
pub struct Animatable {
    pub value: Vec<Scalar>,
}

impl View for Animatable {
    type V = Seq<Scalar>;

    open spec fn view(&self) -> Seq<Scalar> {
        self.value@
    }
}

/// Elementwise `v[i] * w`.
pub open spec fn spec_weighted(v: Seq<Scalar>, w: Scalar) -> Seq<Scalar> {
    v.map_values(|x: Scalar| mul_bits(x, w))
}

/// Elementwise `a[i] + w * b[i]`, truncated to the shorter length.
pub open spec fn spec_add_weighted(a: Seq<Scalar>, w: Scalar, b: Seq<Scalar>) -> Seq<Scalar> {
    Seq::new(vstd::math::min(a.len() as int, b.len() as int) as nat, |i: int| add_bits(a[i], mul_bits(w, b[i])))
}

/// Elementwise `a[i] * (1 - p) + b[i] * p`, truncated to the shorter length.
pub open spec fn spec_interpolate(a: Seq<Scalar>, b: Seq<Scalar>, p: Scalar) -> Seq<Scalar> {
    Seq::new(
        vstd::math::min(a.len() as int, b.len() as int) as nat,
        |i: int| add_bits(mul_bits(a[i], sub_bits(SCALAR_ONE, p)), mul_bits(b[i], p)),
    )
}

impl Clone for Animatable {
    fn clone(&self) -> (r: Self)
        ensures
            r@ == self@,
    {
        let mut value: Vec<Scalar> = Vec::new();
        let mut i: usize = 0;
        while i < self.value.len()
            invariant
                i <= self.value.len(),
                value@ == self.value@.subrange(0, i as int),
            decreases self.value.len() - i,
        {
            value.push(self.value[i]);
            i = i + 1;
        }
        proof {
            assert(value@ == self.value@);
        }
        Animatable { value }
    }
}

impl Animatable {
    /// Wraps a vector of scalar components.
    pub fn new(value: Vec<Scalar>) -> (r: Animatable)
        ensures
            r@ == value@,
    {
        Animatable { value }
    }

    /// Wraps a single scalar as a one-component value.
    pub fn new_float(value: Scalar) -> (r: Animatable)
        ensures
            r@ == seq![value],
    {
        let mut v: Vec<Scalar> = Vec::new();
        v.push(value);
        proof {
            assert(v@ == seq![value]);
        }
        Animatable { value: v }
    }

    /// Elementwise `self[i] + weight * next_value[i]`, truncated to the
    /// shorter of the two lengths.
    pub fn add_weighted(&self, weight: Scalar, next_value: &Animatable) -> (r: Animatable)
        ensures
            r@ == spec_add_weighted(self@, weight, next_value@),
    {
        let n = if self.value.len() <= next_value.value.len() {
            self.value.len()
        } else {
            next_value.value.len()
        };
        let mut res: Vec<Scalar> = Vec::new();
        let mut i: usize = 0;
        while i < n
            invariant
                i <= n,
                n == vstd::math::min(self@.len() as int, next_value@.len() as int),
                res@.len() == i,
                forall|j: int| 0 <= j < i ==> res@[j] == spec_add_weighted(self@, weight, next_value@)[j],
            decreases n - i,
        {
            res.push(scalar_add(self.value[i], scalar_mul(weight, next_value.value[i])));
            i = i + 1;
        }
        proof {
            assert(res@ =~= spec_add_weighted(self@, weight, next_value@));
        }
        Animatable { value: res }
    }

    /// Elementwise `self[i] * weight`.
    pub fn weighted(&self, weight: Scalar) -> (r: Animatable)
        ensures
            r@ == spec_weighted(self@, weight),
    {
        let mut res: Vec<Scalar> = Vec::new();
        let mut i: usize = 0;
        while i < self.value.len()
            invariant
                i <= self.value.len(),
                res@.len() == i,
                forall|j: int| 0 <= j < i ==> res@[j] == spec_weighted(self@, weight)[j],
            decreases self.value.len() - i,
        {
            res.push(scalar_mul(self.value[i], weight));
            i = i + 1;
        }
        proof {
            assert(res@ =~= spec_weighted(self@, weight));
        }
        Animatable { value: res }
    }

    /// Elementwise `a[i] * (1 - p) + b[i] * p`, truncated to the shorter of
    /// the two lengths. `p` outside `[0, 1]` extrapolates; clamping is a
    /// curve-level policy, not done here.
    pub fn interpolate(a: &Animatable, b: &Animatable, p: Scalar) -> (r: Animatable)
        ensures
            r@ == spec_interpolate(a@, b@, p),
    {
        let n = if a.value.len() <= b.value.len() {
            a.value.len()
        } else {
            b.value.len()
        };
        let one_minus_p = scalar_sub(SCALAR_ONE, p);
        let mut res: Vec<Scalar> = Vec::new();
        let mut i: usize = 0;
        while i < n
            invariant
                i <= n,
                n == vstd::math::min(a@.len() as int, b@.len() as int),
                one_minus_p == sub_bits(SCALAR_ONE, p),
                res@.len() == i,
                forall|j: int| 0 <= j < i ==> res@[j] == spec_interpolate(a@, b@, p)[j],
            decreases n - i,
        {
            res.push(scalar_add(scalar_mul(a.value[i], one_minus_p), scalar_mul(b.value[i], p)));
            i = i + 1;
        }
        proof {
            assert(res@ =~= spec_interpolate(a@, b@, p));
        }
        Animatable { value: res }
    }
}

} // verus!
