//! Rays: an origin and a direction in homogeneous coordinates.

use vstd::prelude::*;
use crate::algebra::Vector;
use crate::common::{lemma_bound_grows, vec4};
use crate::scalar::Scalar;

verus! {

/// The point `origin + t * direction`.
pub open spec fn point_along(origin: Vector, direction: Vector, t: real) -> Vector {
    origin.plus(direction.scaled(t))
}

/// A ray from `origin` along `direction`. The direction is not normalised.
#[derive(Clone, Copy, Debug, PartialEq, Eq)]
pub struct Ray {
    pub origin: vec4,
    pub direction: vec4,
}

impl Ray {
    /// Both vectors have positive denominators.
    pub open spec fn wf(&self) -> bool {
        self.origin.wf() && self.direction.wf()
    }

    /// The point of the ray at the parameter `t`: `origin + t * direction`.
    pub fn point_at_parameter(&self, t: &Scalar) -> (p: vec4)
        requires
            self.wf(),
            t.wf(),
            2 * (self.origin.magnitude() * (self.direction.magnitude() * t.magnitude()))
                <= i64::MAX,
        ensures
            p.wf(),
            p@ == point_along(self.origin@, self.direction@, t.value()),
    {
        proof {
            let mo = self.origin.magnitude();
            let step = self.direction.magnitude() * t.magnitude();
            assert(step <= mo * step) by (nonlinear_arith)
                requires
                    mo >= 1,
            ;
        }
        let offset = self.direction.scaled(t);
        proof {
            lemma_bound_grows(
                self.origin.magnitude(),
                offset.magnitude(),
                self.origin.magnitude(),
                self.direction.magnitude() * t.magnitude(),
            );
        }
        self.origin.plus(&offset)
    }
}

} // verus!
