//! Rays.

use crate::fixed::{fxmul, Fx};
use crate::vec3::{dotw, vec_bounded, Point3, Vec3, LIM_COORD, LIM_DIR, LIM_ORIGIN, MIN_DIR_SQ};
use vstd::prelude::*;

verus! {

/// A ray, beginning at `origin` and extending along `direction`; `time` is
/// the instant within the shutter interval at which the ray exists, used
/// only by time-varying geometry.
#[derive(Clone, Copy, Debug, PartialEq, Eq, Structural)]
pub struct Ray {
    pub origin: Point3,
    pub direction: Vec3,
    pub time: Fx,
}

/// A well-formed ray: bounded origin and direction, a direction that is not
/// degenerately short, and a bounded time.
pub open spec fn wf_ray(r: Ray) -> bool {
    &&& vec_bounded(r.origin, LIM_ORIGIN as int)
    &&& vec_bounded(r.direction, LIM_DIR as int)
    &&& dotw(r.direction, r.direction) >= MIN_DIR_SQ as int
    &&& -(LIM_COORD as int) <= r.time@ <= LIM_COORD as int
}

/// The `x` raw coordinate of the point at parameter `t` along `r`.
pub open spec fn ray_at_x(r: Ray, t: int) -> int {
    r.origin.x@ + fxmul(r.direction.x@, t)
}

/// The `y` raw coordinate of the point at parameter `t` along `r`.
pub open spec fn ray_at_y(r: Ray, t: int) -> int {
    r.origin.y@ + fxmul(r.direction.y@, t)
}

/// The `z` raw coordinate of the point at parameter `t` along `r`.
pub open spec fn ray_at_z(r: Ray, t: int) -> int {
    r.origin.z@ + fxmul(r.direction.z@, t)
}

impl Ray {
    /// Create a new `Ray`.
    pub fn new(origin: Point3, direction: Vec3, time: Fx) -> (r: Ray)
        ensures
            r.origin == origin,
            r.direction == direction,
            r.time == time,
    {
        Ray { origin, direction, time }
    }

    /// Get the origin of the `Ray`.
    pub fn origin(&self) -> (r: Point3)
        ensures
            r == self.origin,
    {
        self.origin
    }

    /// Get the direction of the `Ray`.
    pub fn direction(&self) -> (r: Vec3)
        ensures
            r == self.direction,
    {
        self.direction
    }

    /// Get the point in time at which the `Ray` exists.
    pub fn time(&self) -> (r: Fx)
        ensures
            r == self.time,
    {
        self.time
    }

    /// The point along the ray at parameter `t`: `origin + t * direction`,
    /// with fixed-point rounding per component.
    pub fn at(&self, t: Fx) -> (p: Point3)
        requires
            wf_ray(*self),
            -0x40000000 <= t@ <= 0x40000000,
        ensures
            p.x@ == ray_at_x(*self, t@),
            p.y@ == ray_at_y(*self, t@),
            p.z@ == ray_at_z(*self, t@),
    {
        proof {
            crate::fixed::lemma_fxmul_range(self.direction.x@, t@, LIM_DIR as int, 0x40000000);
            crate::fixed::lemma_fxmul_range(self.direction.y@, t@, LIM_DIR as int, 0x40000000);
            crate::fixed::lemma_fxmul_range(self.direction.z@, t@, LIM_DIR as int, 0x40000000);
        }
        self.origin.plus(self.direction.scale(t))
    }
}

} // verus!
