use vstd::prelude::*;
use crate::math::{
    SCALE, MAX_COORD, div_trunc, mul_fx, lemma_mul_fx_bound, lemma_div_trunc_abs_le,
};
use crate::ray::Ray;
use crate::vec3::{
    Vec3, Point3, V3, vadd, vsub, vdiv, vscale, cross3, unit3, sq_norm, dot3, v_bounded,
};

verus! {

/// Bound on the components of the camera's derived frame vectors.
pub const CAM_LIMIT: i64 = 1_000_000_000_000_000;

/// The view axis: from the look-at point back to the eye, normalized.
pub open spec fn cam_w(lookfrom: V3, lookat: V3) -> V3 {
    unit3(vsub(lookfrom, lookat))
}

/// The lens basis vector spanning the image plane horizontally.
pub open spec fn cam_u(lookfrom: V3, lookat: V3, vup: V3) -> V3 {
    unit3(cross3(vup, cam_w(lookfrom, lookat)))
}

/// The lens basis vector spanning the image plane vertically.
pub open spec fn cam_v(lookfrom: V3, lookat: V3, vup: V3) -> V3 {
    cross3(cam_w(lookfrom, lookat), cam_u(lookfrom, lookat, vup))
}

/// The lens offset a disk sample produces.
pub open spec fn cam_offset(c: Camera, dp: V3) -> V3 {
    vadd(
        vscale(c.u@, mul_fx(dp.x, c.lens_radius as int)),
        vscale(c.v@, mul_fx(dp.y, c.lens_radius as int)),
    )
}

/// The world-space direction through the normalized image-plane point
/// (s, t), for a given lens offset.
pub open spec fn cam_dir(c: Camera, s: int, t: int, offset: V3) -> V3 {
    vsub(
        vsub(
            vadd(vadd(c.lower_left_corner@, vscale(c.horizontal@, s)), vscale(c.vertical@, t)),
            c.origin@,
        ),
        offset,
    )
}

/// The immutable camera: the eye, the image-plane frame, and the lens basis
/// for depth of field.
pub struct Camera {
    pub origin: Point3,
    pub lower_left_corner: Point3,
    pub horizontal: Vec3,
    pub vertical: Vec3,
    pub lens_radius: i64,
    pub u: Vec3,
    pub v: Vec3,
}

impl Camera {
    /// Whether every ray this camera can produce - any image-plane point in
    /// the unit square's double cover and any lens-disk sample - lies inside
    /// the box the intersection routines accept, with a nonzero direction.
    pub open spec fn rays_ok(self) -> bool {
        forall|s: int, t: int, dp: V3|
            0 <= s <= 2 * SCALE && 0 <= t <= 2 * SCALE && v_bounded(dp, SCALE as int) && dot3(
                dp,
                dp,
            ) < SCALE && dp.z == 0 ==> crate::ray::ray_vals_ok(
                vadd(self.origin@, cam_offset(self, dp)),
                #[trigger] cam_dir(self, s, t, cam_offset(self, dp)),
            )
    }

    /// The bounds every constructed camera's fields satisfy.
    pub open spec fn wf(self) -> bool {
        &&& v_bounded(self.origin@, MAX_COORD as int)
        &&& v_bounded(self.lower_left_corner@, CAM_LIMIT as int)
        &&& v_bounded(self.horizontal@, CAM_LIMIT as int)
        &&& v_bounded(self.vertical@, CAM_LIMIT as int)
        &&& 0 <= self.lens_radius <= MAX_COORD
        &&& v_bounded(self.u@, SCALE as int)
        &&& v_bounded(self.v@, 2 * SCALE as int)
    }

    /// Derive a camera from the eye position, the look-at point, the up
    /// direction, the tangent of half the vertical field of view, the aspect
    /// ratio, the aperture and the focus distance. A degenerate frame - the
    /// eye on the look-at point, or an up direction parallel to the view
    /// axis - is rejected rather than divided by.
    #[verifier::rlimit(100)]
    pub fn new(
        lookfrom: Point3,
        lookat: Point3,
        vup: Vec3,
        tan_half_vfov: i64,
        aspect_ratio: i64,
        aperture: i64,
        focus_dist: i64,
    ) -> (res: Option<Camera>)
        requires
            v_bounded(lookfrom@, MAX_COORD as int),
            v_bounded(lookat@, MAX_COORD as int),
            v_bounded(vup@, MAX_COORD as int),
            1 <= tan_half_vfov <= 100 * SCALE,
            1 <= aspect_ratio <= 100 * SCALE,
            0 <= aperture <= MAX_COORD,
            1 <= focus_dist <= MAX_COORD,
        ensures
            res is Some <==> sq_norm(vsub(lookfrom@, lookat@)) > 0 && sq_norm(
                cross3(vup@, cam_w(lookfrom@, lookat@)),
            ) > 0,
            match res {
                Some(cam) => {
                    let w = cam_w(lookfrom@, lookat@);
                    let vh = 2 * tan_half_vfov as int;
                    let vw = mul_fx(aspect_ratio as int, vh);
                    &&& cam.wf()
                    &&& cam.origin == lookfrom
                    &&& cam.u@ == cam_u(lookfrom@, lookat@, vup@)
                    &&& cam.v@ == cam_v(lookfrom@, lookat@, vup@)
                    &&& cam.horizontal@ == vscale(vscale(cam.u@, vw), focus_dist as int)
                    &&& cam.vertical@ == vscale(vscale(cam.v@, vh), focus_dist as int)
                    &&& cam.lower_left_corner@ == vsub(
                        vsub(
                            vsub(lookfrom@, vdiv(cam.horizontal@, 2 * SCALE as int)),
                            vdiv(cam.vertical@, 2 * SCALE as int),
                        ),
                        vscale(w, focus_dist as int),
                    )
                    &&& cam.lens_radius as int == aperture as int / 2
                },
                None => true,
            },
    {
        let viewport_height: i64 = 2 * tan_half_vfov;
        proof {
            lemma_mul_fx_bound(
                aspect_ratio as int,
                viewport_height as int,
                100 * SCALE as int,
                200 * SCALE as int,
            );
        }
        let viewport_width: i64 = crate::math::mul_fx64(aspect_ratio, viewport_height);
        let gaze: Vec3 = lookfrom.sub(lookat);
        if gaze.x == 0 && gaze.y == 0 && gaze.z == 0 {
            proof {
                assert(sq_norm(gaze@) == 0) by (nonlinear_arith)
                    requires
                        gaze@.x == 0 && gaze@.y == 0 && gaze@.z == 0,
                        sq_norm(gaze@) == gaze@.x * gaze@.x + gaze@.y * gaze@.y + gaze@.z
                            * gaze@.z,
                ;
            }
            return None;
        }
        proof {
            crate::vec3::lemma_nonzero_sq_norm(gaze@);
        }
        let w: Vec3 = gaze.unit_vector();
        let cu: Vec3 = vup.cross(w);
        if cu.x == 0 && cu.y == 0 && cu.z == 0 {
            proof {
                assert(sq_norm(cu@) == 0) by (nonlinear_arith)
                    requires
                        cu@.x == 0 && cu@.y == 0 && cu@.z == 0,
                        sq_norm(cu@) == cu@.x * cu@.x + cu@.y * cu@.y + cu@.z * cu@.z,
                ;
            }
            return None;
        }
        proof {
            crate::vec3::lemma_nonzero_sq_norm(cu@);
            lemma_cross_bound(vup@, w@, MAX_COORD as int, SCALE as int);
        }
        let u: Vec3 = cu.unit_vector();
        proof {
            lemma_cross_bound(w@, u@, SCALE as int, SCALE as int);
        }
        let v: Vec3 = w.cross(u);
        let origin: Point3 = lookfrom;
        proof {
            let vw = viewport_width as int;
            let vh = viewport_height as int;
            let f = focus_dist as int;
            lemma_mul_fx_bound(u@.x, vw, SCALE as int, 20_000_000_000);
            lemma_mul_fx_bound(u@.y, vw, SCALE as int, 20_000_000_000);
            lemma_mul_fx_bound(u@.z, vw, SCALE as int, 20_000_000_000);
            let h1 = vscale(u@, vw);
            lemma_mul_fx_bound(h1.x, f, 20_000_000_000, MAX_COORD as int);
            lemma_mul_fx_bound(h1.y, f, 20_000_000_000, MAX_COORD as int);
            lemma_mul_fx_bound(h1.z, f, 20_000_000_000, MAX_COORD as int);
            lemma_mul_fx_bound(v@.x, vh, 2 * SCALE as int, 200 * SCALE as int);
            lemma_mul_fx_bound(v@.y, vh, 2 * SCALE as int, 200 * SCALE as int);
            lemma_mul_fx_bound(v@.z, vh, 2 * SCALE as int, 200 * SCALE as int);
            let v1 = vscale(v@, vh);
            lemma_mul_fx_bound(v1.x, f, 400_000_000, MAX_COORD as int);
            lemma_mul_fx_bound(v1.y, f, 400_000_000, MAX_COORD as int);
            lemma_mul_fx_bound(v1.z, f, 400_000_000, MAX_COORD as int);
            lemma_mul_fx_bound(w@.x, f, SCALE as int, MAX_COORD as int);
            lemma_mul_fx_bound(w@.y, f, SCALE as int, MAX_COORD as int);
            lemma_mul_fx_bound(w@.z, f, SCALE as int, MAX_COORD as int);
        }
        let horizontal: Vec3 = u.scale(viewport_width).scale(focus_dist);
        let vertical: Vec3 = v.scale(viewport_height).scale(focus_dist);
        proof {
            lemma_half_vec(horizontal@);
            lemma_half_vec(vertical@);
        }
        let lower_left_corner: Point3 = origin.sub(horizontal.div(2 * SCALE)).sub(
            vertical.div(2 * SCALE),
        ).sub(w.scale(focus_dist));
        let lens_radius: i64 = aperture / 2;
        Some(
            Camera {
                origin,
                horizontal,
                vertical,
                lower_left_corner,
                lens_radius,
                u,
                v,
            },
        )
    }

    /// A primary ray through the normalized image-plane point (s, t), from
    /// a fresh sample of the lens disk. A pinhole camera - zero aperture,
    /// hence zero lens radius - always fires from the eye itself.
    #[verifier::rlimit(100)]
    pub fn get_ray(&self, s: i64, t: i64) -> (ray: Ray)
        requires
            self.wf(),
            0 <= s <= 2 * SCALE,
            0 <= t <= 2 * SCALE,
        ensures
            exists|dp: V3|
                {
                    &&& v_bounded(dp, SCALE as int)
                    &&& dot3(dp, dp) < SCALE
                    &&& dp.z == 0
                    &&& ray.origin@ == vadd(self.origin@, cam_offset(*self, dp))
                    &&& ray.direction@ == cam_dir(*self, s as int, t as int, cam_offset(*self, dp))
                },
            self.lens_radius == 0 ==> ray.origin == self.origin,
    {
        let dp: Vec3 = Vec3::random_in_unit_disk();
        proof {
            let lr = self.lens_radius as int;
            if lr == 0 {
                lemma_mul_fx_bound(dp@.x, 0, SCALE as int, 0);
                lemma_mul_fx_bound(dp@.y, 0, SCALE as int, 0);
                lemma_mul_fx_bound(self.u@.x, 0, SCALE as int, 0);
                lemma_mul_fx_bound(self.u@.y, 0, SCALE as int, 0);
                lemma_mul_fx_bound(self.u@.z, 0, SCALE as int, 0);
                lemma_mul_fx_bound(self.v@.x, 0, 2 * SCALE as int, 0);
                lemma_mul_fx_bound(self.v@.y, 0, 2 * SCALE as int, 0);
                lemma_mul_fx_bound(self.v@.z, 0, 2 * SCALE as int, 0);
            }
            lemma_mul_fx_bound(dp@.x, lr, SCALE as int, MAX_COORD as int);
            lemma_mul_fx_bound(dp@.y, lr, SCALE as int, MAX_COORD as int);
            let ox = mul_fx(dp@.x, lr);
            let oy = mul_fx(dp@.y, lr);
            lemma_mul_fx_bound(self.u@.x, ox, SCALE as int, MAX_COORD as int);
            lemma_mul_fx_bound(self.u@.y, ox, SCALE as int, MAX_COORD as int);
            lemma_mul_fx_bound(self.u@.z, ox, SCALE as int, MAX_COORD as int);
            lemma_mul_fx_bound(self.v@.x, oy, 2 * SCALE as int, MAX_COORD as int);
            lemma_mul_fx_bound(self.v@.y, oy, 2 * SCALE as int, MAX_COORD as int);
            lemma_mul_fx_bound(self.v@.z, oy, 2 * SCALE as int, MAX_COORD as int);
            lemma_mul_fx_bound(self.horizontal@.x, s as int, CAM_LIMIT as int, 2 * SCALE as int);
            lemma_mul_fx_bound(self.horizontal@.y, s as int, CAM_LIMIT as int, 2 * SCALE as int);
            lemma_mul_fx_bound(self.horizontal@.z, s as int, CAM_LIMIT as int, 2 * SCALE as int);
            lemma_mul_fx_bound(self.vertical@.x, t as int, CAM_LIMIT as int, 2 * SCALE as int);
            lemma_mul_fx_bound(self.vertical@.y, t as int, CAM_LIMIT as int, 2 * SCALE as int);
            lemma_mul_fx_bound(self.vertical@.z, t as int, CAM_LIMIT as int, 2 * SCALE as int);
        }
        let rdx: i64 = crate::math::mul_fx64(dp.x, self.lens_radius);
        let rdy: i64 = crate::math::mul_fx64(dp.y, self.lens_radius);
        let offset: Vec3 = self.u.scale(rdx).add(self.v.scale(rdy));
        let ray: Ray = Ray::new(
            self.origin.add(offset),
            self.lower_left_corner.add(self.horizontal.scale(s)).add(self.vertical.scale(t)).sub(
                self.origin,
            ).sub(offset),
        );
        proof {
            assert(v_bounded(dp@, SCALE as int) && dot3(dp@, dp@) < SCALE && dp@.z == 0
                && ray.origin@ == vadd(self.origin@, cam_offset(*self, dp@)) && ray.direction@
                == cam_dir(*self, s as int, t as int, cam_offset(*self, dp@)));
        }
        ray
    }
}

/// Componentwise bound on a fixed-point cross product.
proof fn lemma_cross_bound(a: V3, b: V3, ma: int, mb: int)
    requires
        0 < ma,
        0 < mb,
        v_bounded(a, ma),
        v_bounded(b, mb),
    ensures
        v_bounded(cross3(a, b), 2 * ((ma * mb) / (SCALE as int))),
{
    lemma_mul_fx_bound(a.y, b.z, ma, mb);
    lemma_mul_fx_bound(a.z, b.y, ma, mb);
    lemma_mul_fx_bound(a.z, b.x, ma, mb);
    lemma_mul_fx_bound(a.x, b.z, ma, mb);
    lemma_mul_fx_bound(a.x, b.y, ma, mb);
    lemma_mul_fx_bound(a.y, b.x, ma, mb);
}

/// Halving a bounded vector keeps it bounded.
proof fn lemma_half_vec(a: V3)
    requires
        v_bounded(a, CAM_LIMIT as int),
    ensures
        v_bounded(vdiv(a, 2 * SCALE as int), CAM_LIMIT as int),
{
    lemma_half_comp(a.x);
    lemma_half_comp(a.y);
    lemma_half_comp(a.z);
}

/// Halving a bounded raw scalar keeps it bounded.
proof fn lemma_half_comp(x: int)
    requires
        vstd::math::abs(x) <= CAM_LIMIT as int,
    ensures
        vstd::math::abs(div_trunc(x * SCALE, 2 * SCALE as int)) <= CAM_LIMIT as int,
{
    assert(vstd::math::abs(x * SCALE) <= 2 * (SCALE as int) * (CAM_LIMIT as int))
        by (nonlinear_arith)
        requires
            -(CAM_LIMIT as int) <= x <= CAM_LIMIT as int,
    ;
    lemma_div_trunc_abs_le(x * SCALE, 2 * SCALE as int, CAM_LIMIT as int);
}

} // verus!
