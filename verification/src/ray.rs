use vstd::prelude::*;
use crate::math::{fits_i64, mul_fx, MAX_DIR, MAX_ORIGIN};
use crate::vec3::{Vec3, Point3, V3, vadd, vscale, v_bounded, dot3};

verus! {

/// An immutable ray: an origin and a direction, evaluated parametrically.
#[derive(Clone, Copy, Debug, PartialEq, Eq, Structural)]
pub struct Ray {
    pub origin: Point3,
    pub direction: Vec3,
}

/// The origin and direction values the intersection routines accept: both
/// inside the representable box, and a direction long enough that its
/// scaled squared length is nonzero.
pub open spec fn ray_vals_ok(o: V3, d: V3) -> bool {
    &&& v_bounded(o, MAX_ORIGIN as int)
    &&& v_bounded(d, MAX_DIR as int)
    &&& dot3(d, d) > 0
}

/// The rays the intersection routines accept.
pub open spec fn ray_ok(r: Ray) -> bool {
    ray_vals_ok(r.origin@, r.direction@)
}

/// The point a parametric distance `t` along a ray, in the mathematical
/// model.
pub open spec fn ray_at(r: Ray, t: int) -> V3 {
    vadd(r.origin@, vscale(r.direction@, t))
}

impl Ray {
    pub fn new(origin: Point3, direction: Vec3) -> (r: Ray)
        ensures
            r.origin == origin,
            r.direction == direction,
    {
        Ray { origin, direction }
    }

    pub fn origin(&self) -> (p: Point3)
        ensures
            p == self.origin,
    {
        self.origin
    }

    pub fn direction(&self) -> (d: Vec3)
        ensures
            d == self.direction,
    {
        self.direction
    }

    /// The point a parametric distance `t` along the ray.
    pub fn at(&self, t: i64) -> (p: Point3)
        requires
            fits_i64(mul_fx(self.direction@.x, t as int)),
            fits_i64(mul_fx(self.direction@.y, t as int)),
            fits_i64(mul_fx(self.direction@.z, t as int)),
            fits_i64(self.origin@.x + mul_fx(self.direction@.x, t as int)),
            fits_i64(self.origin@.y + mul_fx(self.direction@.y, t as int)),
            fits_i64(self.origin@.z + mul_fx(self.direction@.z, t as int)),
        ensures
            p@ == ray_at(*self, t as int),
    {
        self.origin.add(self.direction.scale(t))
    }
}

} // verus!
