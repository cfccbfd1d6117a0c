use vstd::prelude::*;
use crate::camera::{Camera, cam_offset, cam_dir};
use crate::dielectric::Dielectric;
use crate::hittable::{
    HitRecord, HittableList, list_hit_spec, lemma_list_hit_material_wf, lemma_empty_scene_misses,
};
use crate::lambertian::Lambertian;
use crate::material::Material;
use crate::math::{
    SCALE, T_MIN_HIT, T_INF, MAX_ORIGIN, MAX_DIR, div_trunc, mul_fx, random_double,
    random_double_range, lemma_mul_fx_bound, lemma_div_trunc_abs_le, lemma_div_trunc_bound,
};
use crate::metal::Metal;
use crate::ray::{Ray, ray_ok, ray_vals_ok};
use crate::sphere::Sphere;
use crate::vec3::{
    Vec3, Point3, Color, V3, vadd, vsub, vmul, vscale, unit3, dot3, sq_norm, color_wf, v_bounded,
    lemma_sum_of_products_bound,
};

verus! {

/// Pure black: the color of an absorbed or exhausted ray.
pub open spec fn black() -> V3 {
    V3 { x: 0, y: 0, z: 0 }
}

/// The sky gradient a missed ray sees: white at the horizon blended toward
/// blue overhead, by the upness of the unit direction.
pub open spec fn background_color(dir: V3) -> V3 {
    let t = (unit3(dir).y + SCALE) / 2;
    vadd(
        vscale(V3 { x: SCALE as int, y: SCALE as int, z: SCALE as int }, SCALE - t),
        vscale(V3 { x: 500_000, y: 700_000, z: 1_000_000 }, t),
    )
}

/// The background's blue channel is full intensity whatever the direction:
/// white and the sky color both carry a full blue channel, and blending by
/// exact scale-factor products preserves it.
pub proof fn lemma_background_blue(dir: V3)
    ensures
        background_color(dir).z == SCALE,
{
    let t = (unit3(dir).y + SCALE) / 2;
    crate::math::lemma_mul_fx_one(SCALE - t);
    crate::math::lemma_mul_fx_one(t);
}

/// A blended channel stays within its blend weight.
proof fn lemma_blend_channel(c1: int, t: int)
    requires
        0 <= c1 <= SCALE,
        0 <= t <= SCALE,
    ensures
        0 <= mul_fx(c1, t) <= t,
{
    assert(0 <= c1 * t <= (SCALE as int) * t) by (nonlinear_arith)
        requires
            0 <= c1 <= SCALE,
            0 <= t,
    ;
    lemma_div_trunc_abs_le(c1 * t, SCALE as int, t);
    lemma_div_trunc_bound(c1 * t, SCALE as int);
}

/// Whether a ray lies inside the box the intersection routines accept.
fn ray_in_bounds(r: &Ray) -> (b: bool)
    ensures
        b == ray_ok(*r),
{
    let o: Point3 = r.origin;
    let d: Vec3 = r.direction;
    let ob: bool = -MAX_ORIGIN <= o.x && o.x <= MAX_ORIGIN && -MAX_ORIGIN <= o.y && o.y
        <= MAX_ORIGIN && -MAX_ORIGIN <= o.z && o.z <= MAX_ORIGIN;
    let db: bool = -MAX_DIR <= d.x && d.x <= MAX_DIR && -MAX_DIR <= d.y && d.y <= MAX_DIR
        && -MAX_DIR <= d.z && d.z <= MAX_DIR;
    if ob && db {
        proof {
            lemma_sum_of_products_bound(d@, d@, MAX_DIR as int, MAX_DIR as int);
            lemma_div_trunc_abs_le(
                d@.x * d@.x + d@.y * d@.y + d@.z * d@.z,
                SCALE as int,
                30_000_000_000,
            );
        }
        d.length_squared() > 0
    } else {
        false
    }
}

/// Whether a hit record lies inside the box the scattering routines accept.
fn rec_in_bounds(rec: &HitRecord) -> (b: bool)
    ensures
        b == (v_bounded(rec.p@, MAX_ORIGIN as int) && v_bounded(rec.normal@, 4 * SCALE as int)),
{
    let p: Point3 = rec.p;
    let n: Vec3 = rec.normal;
    -MAX_ORIGIN <= p.x && p.x <= MAX_ORIGIN && -MAX_ORIGIN <= p.y && p.y <= MAX_ORIGIN
        && -MAX_ORIGIN <= p.z && p.z <= MAX_ORIGIN && -4 * SCALE <= n.x && n.x <= 4 * SCALE && -4
        * SCALE <= n.y && n.y <= 4 * SCALE && -4 * SCALE <= n.z && n.z <= 4 * SCALE
}

/// The sky color for a ray that missed everything.
fn background(r: &Ray) -> (c: Color)
    requires
        v_bounded(r.direction@, MAX_DIR as int),
        sq_norm(r.direction@) > 0,
    ensures
        c@ == background_color(r.direction@),
        color_wf(c@),
{
    let unit_direction: Vec3 = r.direction.unit_vector();
    let t: i64 = (unit_direction.y + SCALE) / 2;
    proof {
        assert(0 <= t <= SCALE);
        lemma_blend_channel(SCALE as int, SCALE - t);
        lemma_blend_channel(500_000, t as int);
        lemma_blend_channel(700_000, t as int);
        lemma_blend_channel(1_000_000, t as int);
    }
    let white: Color = Vec3::new(SCALE, SCALE, SCALE);
    let sky: Color = Vec3::new(500_000, 700_000, SCALE);
    white.scale(SCALE - t).add(sky.scale(t))
}

/// The color seen along a ray: black once the depth budget is exhausted;
/// otherwise, the nearest surface's scattering decision, with its
/// attenuation applied multiplicatively to the color of the continuation;
/// the sky gradient on a miss. Rays or hit records outside the representable
/// box are treated as absorbed, like an exhausted depth. On a hit, the
/// result is either black (absorption, exhaustion, or the box guard) or the
/// hit material's attenuation multiplied componentwise into some well-formed
/// continuation color.
pub fn ray_color(r: &Ray, world: &HittableList, depth: u32) -> (c: Color)
    requires
        world.wf(),
    ensures
        color_wf(c@),
        depth == 0 ==> c@ == black(),
        (depth > 0 && ray_ok(*r) && list_hit_spec(
            world.objects@,
            *r,
            T_MIN_HIT as int,
            T_INF as int,
        ) is None) ==> c@ == background_color(r.direction@),
        (depth > 0 && ray_ok(*r)) ==> match list_hit_spec(
            world.objects@,
            *r,
            T_MIN_HIT as int,
            T_INF as int,
        ) {
            Some(h) => c@ == black() || exists|c2: V3|
                color_wf(c2) && c@ == vmul(h.material.attenuation_of(), c2),
            None => true,
        },
    decreases depth,
{
    if depth == 0 {
        return Vec3::new(0, 0, 0);
    }
    if !ray_in_bounds(r) {
        return Vec3::new(0, 0, 0);
    }
    proof {
        assert(sq_norm(r.direction@) > 0) by {
            if sq_norm(r.direction@) <= 0 {
                crate::vec3::lemma_sq_norm_nonneg(r.direction@);
                assert(div_trunc(0, SCALE as int) == 0);
            }
        }
    }
    match world.hit(r, T_MIN_HIT, T_INF) {
        Some(rec) => {
            proof {
                lemma_list_hit_material_wf(
                    world.objects@,
                    *r,
                    T_MIN_HIT as int,
                    T_INF as int,
                );
            }
            if !rec_in_bounds(&rec) {
                return Vec3::new(0, 0, 0);
            }
            match rec.material.scatter(r, &rec) {
                Some((scattered, attenuation)) => {
                    let rc: Color = ray_color(&scattered, world, depth - 1);
                    proof {
                        lemma_blend_channel(attenuation@.x, rc@.x);
                        lemma_blend_channel(attenuation@.y, rc@.y);
                        lemma_blend_channel(attenuation@.z, rc@.z);
                    }
                    let out: Color = attenuation.mul(rc);
                    proof {
                        assert(color_wf(rc@) && out@ == vmul(rec.material.attenuation_of(), rc@));
                    }
                    out
                },
                None => Vec3::new(0, 0, 0),
            }
        },
        None => background(r),
    }
}

/// The accumulated, un-averaged color of one pixel: the sum of the colors
/// seen along `samples_per_pixel` independently jittered camera rays
/// through it. Each channel of the sum stays within the sample count; and
/// when the scene is empty, the camera's rays all stay in bounds, and the
/// depth budget is positive, every sample is the background, whose blue
/// channel is full, so the pixel's blue channel is exactly the sample count.
pub fn pixel_color(
    cam: &Camera,
    world: &HittableList,
    i: u32,
    j: u32,
    width: u32,
    height: u32,
    samples_per_pixel: u32,
    max_depth: u32,
) -> (c: Color)
    requires
        cam.wf(),
        world.wf(),
        1 < width <= 100_000,
        1 < height <= 100_000,
        i < width,
        j < height,
        samples_per_pixel <= 100_000,
    ensures
        0 <= c@.x <= samples_per_pixel * SCALE,
        0 <= c@.y <= samples_per_pixel * SCALE,
        0 <= c@.z <= samples_per_pixel * SCALE,
        (world.objects@.len() == 0 && cam.rays_ok() && max_depth >= 1) ==> c@.z
            == samples_per_pixel * SCALE,
{
    let mut pixel: Color = Vec3::new(0, 0, 0);
    let mut k: u32 = 0;
    while k < samples_per_pixel
        invariant
            0 <= k <= samples_per_pixel,
            samples_per_pixel <= 100_000,
            cam.wf(),
            world.wf(),
            1 < width <= 100_000,
            1 < height <= 100_000,
            i < width,
            j < height,
            0 <= pixel@.x <= k * SCALE,
            0 <= pixel@.y <= k * SCALE,
            0 <= pixel@.z <= k * SCALE,
            (world.objects@.len() == 0 && cam.rays_ok() && max_depth >= 1) ==> pixel@.z == k
                * SCALE,
        decreases samples_per_pixel - k,
    {
        let su: i64 = sample_coord(i, width);
        let sv: i64 = sample_coord(j, height);
        let r: Ray = cam.get_ray(su, sv);
        proof {
            if world.objects@.len() == 0 && cam.rays_ok() && max_depth >= 1 {
                let dp = choose|dp: V3|
                    {
                        &&& v_bounded(dp, SCALE as int)
                        &&& dot3(dp, dp) < SCALE
                        &&& dp.z == 0
                        &&& r.origin@ == vadd(cam.origin@, cam_offset(*cam, dp))
                        &&& r.direction@ == cam_dir(*cam, su as int, sv as int, cam_offset(*cam, dp))
                    };
                assert(ray_vals_ok(
                    vadd(cam.origin@, cam_offset(*cam, dp)),
                    cam_dir(*cam, su as int, sv as int, cam_offset(*cam, dp)),
                ));
                assert(ray_ok(r));
                lemma_empty_scene_misses(world.objects@, r, T_MIN_HIT as int, T_INF as int);
            }
        }
        let col: Color = ray_color(&r, world, max_depth);
        proof {
            if world.objects@.len() == 0 && cam.rays_ok() && max_depth >= 1 {
                lemma_background_blue(r.direction@);
                assert(col@.z == SCALE);
            }
            assert(k * SCALE + SCALE == (k + 1) * SCALE) by (nonlinear_arith);
        }
        pixel = pixel.add(col);
        k = k + 1;
    }
    pixel
}

/// The jittered normalized coordinate of pixel index `i` out of `extent`:
/// the index plus a unit sample, over the extent less one.
fn sample_coord(i: u32, extent: u32) -> (s: i64)
    requires
        1 < extent <= 100_000,
        i < extent,
    ensures
        0 <= s <= 2 * SCALE,
{
    let num: i64 = (i as i64) * SCALE + random_double();
    let den: i64 = (extent - 1) as i64;
    let s: i64 = num / den;
    proof {
        assert(num <= den * (2 * SCALE as int)) by (nonlinear_arith)
            requires
                num <= (i as int) * (SCALE as int) + SCALE,
                i as int <= den,
                1 <= den,
        ;
        vstd::arithmetic::div_mod::lemma_multiply_divide_le(num as int, den as int, 2 * SCALE as int);
        vstd::arithmetic::div_mod::lemma_div_pos_is_pos(num as int, den as int);
    }
    s
}

/// The sphere the scene rests on.
pub open spec fn ground_sphere() -> Sphere {
    Sphere {
        center: Vec3 { x: 0, y: -1_000_000_000i64, z: 0 },
        radius: 1_000_000_000,
        material: Material::Lambertian(
            Lambertian { albedo: Vec3 { x: 500_000, y: 500_000, z: 500_000 } },
        ),
    }
}

/// The large glass feature sphere.
pub open spec fn feature_glass() -> Sphere {
    Sphere {
        center: Vec3 { x: 0, y: 1_000_000, z: 0 },
        radius: 1_000_000,
        material: Material::Dielectric(Dielectric { ref_idx: 1_500_000 }),
    }
}

/// The large diffuse feature sphere.
pub open spec fn feature_diffuse() -> Sphere {
    Sphere {
        center: Vec3 { x: -4_000_000i64, y: 1_000_000, z: 1_000_000 },
        radius: 1_000_000,
        material: Material::Lambertian(
            Lambertian { albedo: Vec3 { x: 400_000, y: 200_000, z: 100_000 } },
        ),
    }
}

/// The large polished-metal feature sphere.
pub open spec fn feature_metal() -> Sphere {
    Sphere {
        center: Vec3 { x: 4_000_000, y: 1_000_000, z: 0 },
        radius: 1_000_000,
        material: Material::Metal(
            Metal { albedo: Vec3 { x: 700_000, y: 600_000, z: 500_000 }, fuzz: 0 },
        ),
    }
}

/// What holds of every small sphere of the grid: radius one fifth, resting
/// at height one fifth, and strictly clear of the exclusion zone of real
/// radius 0.9 around the point (4, 0.2, 0).
pub open spec fn grid_sphere_ok(s: Sphere) -> bool {
    &&& s.radius == 200_000
    &&& s.center@.y == 200_000
    &&& sq_norm(vsub(s.center@, V3 { x: 4_000_000, y: 200_000, z: 0 })) > 810_000_000_000
}

/// The demonstration scene: a large ground sphere, a grid of up to 484 small
/// spheres with randomized materials, and three large feature spheres. The
/// ground comes first and the three features last; everything between is a
/// small sphere of the grid, at the grid height and outside the exclusion
/// zone.
pub fn random_scene() -> (world: HittableList)
    ensures
        world.wf(),
        4 <= world.objects@.len() <= 488,
        world.objects@[0] == ground_sphere(),
        world.objects@[world.objects@.len() - 3] == feature_glass(),
        world.objects@[world.objects@.len() - 2] == feature_diffuse(),
        world.objects@[world.objects@.len() - 1] == feature_metal(),
        forall|i: int|
            1 <= i < world.objects@.len() - 3 ==> grid_sphere_ok(#[trigger] world.objects@[i]),
{
    let mut world: HittableList = HittableList::new(Vec::new());
    let ground_material: Material = Material::Lambertian(
        Lambertian::new(Vec3::new(500_000, 500_000, 500_000)),
    );
    world_add(&mut world, Sphere::new(Vec3::new(0, -1_000_000_000, 0), 1_000_000_000, ground_material));
    let mut a: i64 = -11;
    while a < 11
        invariant
            world.wf(),
            1 <= world.objects@.len() <= 1 + 22 * (a + 11),
            -11 <= a <= 11,
            world.objects@[0] == ground_sphere(),
            forall|i: int|
                1 <= i < world.objects@.len() ==> grid_sphere_ok(#[trigger] world.objects@[i]),
        decreases 11 - a,
    {
        let mut b: i64 = -11;
        while b < 11
            invariant
                world.wf(),
                1 <= world.objects@.len() <= 1 + 22 * (a + 11) + (b + 11),
                -11 <= a <= 10,
                -11 <= b <= 11,
                world.objects@[0] == ground_sphere(),
                forall|i: int|
                    1 <= i < world.objects@.len() ==> grid_sphere_ok(
                        #[trigger] world.objects@[i],
                    ),
            decreases 11 - b,
        {
            let choose_mat: i64 = random_double();
            let ju: i64 = random_double();
            let jv: i64 = random_double();
            proof {
                lemma_mul_fx_bound(900_000, ju as int, 900_000, SCALE as int);
                lemma_mul_fx_bound(900_000, jv as int, 900_000, SCALE as int);
                lemma_div_trunc_bound(900_000 * (ju as int), SCALE as int);
                lemma_div_trunc_bound(900_000 * (jv as int), SCALE as int);
            }
            let jx: i64 = crate::math::mul_fx64(900_000, ju);
            let jz: i64 = crate::math::mul_fx64(900_000, jv);
            let center: Point3 = Vec3::new(a * SCALE + jx, 200_000, b * SCALE + jz);
            let anchor: Point3 = Vec3::new(4 * SCALE, 200_000, 0);
            let offset: Vec3 = center.sub(anchor);
            let clearance: i64 = offset.length();
            proof {
                if clearance > 900_000 {
                    assert(sq_norm(offset@) > 810_000_000_000) by (nonlinear_arith)
                        requires
                            (clearance as int) * (clearance as int) <= sq_norm(offset@),
                            clearance >= 900_001,
                    ;
                }
            }
            if clearance > 900_000 {
                if choose_mat > 800_000 {
                    let c1: Color = Vec3::random();
                    let c2: Color = Vec3::random();
                    proof {
                        lemma_blend_channel(c1@.x, c2@.x);
                        lemma_blend_channel(c1@.y, c2@.y);
                        lemma_blend_channel(c1@.z, c2@.z);
                    }
                    let albedo: Color = c1.mul(c2);
                    let sphere_material: Material = Material::Lambertian(Lambertian::new(albedo));
                    world_add(&mut world, Sphere::new(center, 200_000, sphere_material));
                } else if choose_mat < 950_000 {
                    let albedo: Color = Vec3::random_range(500_000, SCALE);
                    let fuzz: i64 = random_double_range(0, 500_000);
                    let sphere_material: Material = Material::Metal(Metal::new(albedo, fuzz));
                    world_add(&mut world, Sphere::new(center, 200_000, sphere_material));
                } else {
                    let sphere_material: Material = Material::Dielectric(Dielectric::new(1_500_000));
                    world_add(&mut world, Sphere::new(center, 200_000, sphere_material));
                }
            }
            b = b + 1;
        }
        a = a + 1;
    }
    let material1: Material = Material::Dielectric(Dielectric::new(1_500_000));
    world_add(&mut world, Sphere::new(Vec3::new(0, SCALE, 0), SCALE, material1));
    let material2: Material = Material::Lambertian(
        Lambertian::new(Vec3::new(400_000, 200_000, 100_000)),
    );
    world_add(&mut world, Sphere::new(Vec3::new(-4 * SCALE, SCALE, SCALE), SCALE, material2));
    let material3: Material = Material::Metal(
        Metal::new(Vec3::new(700_000, 600_000, 500_000), 0),
    );
    world_add(&mut world, Sphere::new(Vec3::new(4 * SCALE, SCALE, 0), SCALE, material3));
    world
}

/// Append a well-formed sphere, keeping the scene well-formed.
fn world_add(world: &mut HittableList, object: Sphere)
    requires
        old(world).wf(),
        object.wf(),
    ensures
        final(world).wf(),
        final(world).objects@ == old(world).objects@.push(object),
{
    world.add(object);
    proof {
        assert forall|k: int|
            0 <= k < world.objects@.len() implies (#[trigger] world.objects@[k]).wf() by {
            if k < world.objects@.len() - 1 {
                assert(world.objects@[k] == old(world).objects@[k]);
            }
        }
    }
}

} // verus!
