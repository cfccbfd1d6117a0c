use vstd::prelude::*;
use vstd::math::abs;
use crate::material::Material;
use crate::math::{SCALE, MAX_ORIGIN, T_INF};
use crate::ray::{Ray, ray_ok};
use crate::sphere::{Sphere, sphere_hit_spec, lemma_sphere_hit_in_range};
use crate::vec3::{Vec3, Point3, V3, dot3, vneg, v_bounded};

verus! {

/// The result of a successful ray-surface intersection: the hit point, the
/// surface normal oriented against the incoming ray, the parametric
/// distance, the surface's material, and whether the ray struck the outside.
#[derive(Clone, Copy, Debug, PartialEq, Eq, Structural)]
pub struct HitRecord {
    pub p: Point3,
    pub normal: Vec3,
    pub material: Material,
    pub t: i64,
    pub front_face: bool,
}

/// The mathematical value of a hit record.
pub ghost struct HitView {
    pub p: V3,
    pub normal: V3,
    pub material: Material,
    pub t: int,
    pub front_face: bool,
}

impl View for HitRecord {
    type V = HitView;

    open spec fn view(&self) -> HitView {
        HitView {
            p: self.p@,
            normal: self.normal@,
            material: self.material,
            t: self.t as int,
            front_face: self.front_face,
        }
    }
}

/// The mathematical value of an optional hit record.
pub open spec fn opt_view(res: Option<HitRecord>) -> Option<HitView> {
    match res {
        Some(rec) => Some(rec@),
        None => None,
    }
}

/// The hit records the scattering routines accept: the point inside the ray
/// box and the normal of near-unit size.
pub open spec fn rec_ok(rec: HitRecord) -> bool {
    &&& v_bounded(rec.p@, MAX_ORIGIN as int)
    &&& v_bounded(rec.normal@, 4 * SCALE as int)
    &&& rec.material.wf()
}

/// An ordered collection of spheres, searched exhaustively: the nearest
/// valid intersection across the members wins.
pub struct HittableList {
    pub objects: Vec<Sphere>,
}

/// The nearest hit across a sequence of spheres: a linear fold that shrinks
/// the search interval to the best parametric distance found so far, so the
/// record of the globally nearest accepted hit survives.
pub open spec fn list_hit_spec(objs: Seq<Sphere>, r: Ray, t_min: int, t_max: int) -> Option<
    HitView,
>
    decreases objs.len(),
{
    if objs.len() == 0 {
        None
    } else {
        let prefix = list_hit_spec(objs.drop_last(), r, t_min, t_max);
        let cur_max = match prefix {
            Some(h) => h.t,
            None => t_max,
        };
        match sphere_hit_spec(objs.last(), r, t_min, cur_max) {
            Some(h) => Some(h),
            None => prefix,
        }
    }
}

/// Any record the scene fold returns lies strictly inside the search
/// interval.
pub proof fn lemma_list_hit_in_range(objs: Seq<Sphere>, r: Ray, t_min: int, t_max: int)
    ensures
        match list_hit_spec(objs, r, t_min, t_max) {
            Some(h) => t_min < h.t < t_max,
            None => true,
        },
    decreases objs.len(),
{
    if objs.len() > 0 {
        lemma_list_hit_in_range(objs.drop_last(), r, t_min, t_max);
        let prefix = list_hit_spec(objs.drop_last(), r, t_min, t_max);
        let cur_max = match prefix {
            Some(h) => h.t,
            None => t_max,
        };
        lemma_sphere_hit_in_range(objs.last(), r, t_min, cur_max);
    }
}

/// A scene with no objects never returns a hit, whatever the ray.
pub proof fn lemma_empty_scene_misses(objs: Seq<Sphere>, r: Ray, t_min: int, t_max: int)
    requires
        objs.len() == 0,
    ensures
        list_hit_spec(objs, r, t_min, t_max) is None,
{
}

/// The exhaustive scan returns the globally nearest hit: when the fold
/// produces a record, no member sphere intersects the ray strictly nearer,
/// and when it produces nothing, no member intersects the search interval at
/// all.
pub proof fn lemma_list_hit_is_nearest(objs: Seq<Sphere>, r: Ray, t_min: int, t_max: int)
    requires
        ray_ok(r),
    ensures
        match list_hit_spec(objs, r, t_min, t_max) {
            Some(h) => forall|i: int|
                0 <= i < objs.len() ==> #[trigger] sphere_hit_spec(objs[i], r, t_min, h.t) is None,
            None => forall|i: int|
                0 <= i < objs.len() ==> #[trigger] sphere_hit_spec(objs[i], r, t_min, t_max)
                    is None,
        },
    decreases objs.len(),
{
    if objs.len() > 0 {
        lemma_list_hit_is_nearest(objs.drop_last(), r, t_min, t_max);
        lemma_list_hit_in_range(objs.drop_last(), r, t_min, t_max);
        let prefix = list_hit_spec(objs.drop_last(), r, t_min, t_max);
        let cur_max = match prefix {
            Some(h) => h.t,
            None => t_max,
        };
        let last = objs.last();
        lemma_sphere_hit_in_range(last, r, t_min, cur_max);
        match sphere_hit_spec(last, r, t_min, cur_max) {
            Some(h) => {
                assert(h.t < cur_max);
                assert forall|i: int|
                    0 <= i < objs.len() implies #[trigger] sphere_hit_spec(
                    objs[i],
                    r,
                    t_min,
                    h.t,
                ) is None by {
                    if i < objs.len() - 1 {
                        assert(objs.drop_last()[i] == objs[i]);
                        crate::sphere::lemma_sphere_hit_shrink(objs[i], r, t_min, cur_max, h.t);
                    } else {
                        assert(objs[i] == last);
                        crate::sphere::lemma_sphere_hit_shrink(last, r, t_min, cur_max, h.t);
                    }
                }
            },
            None => {
                match prefix {
                    Some(hp) => {
                        assert forall|i: int|
                            0 <= i < objs.len() implies #[trigger] sphere_hit_spec(
                            objs[i],
                            r,
                            t_min,
                            hp.t,
                        ) is None by {
                            if i < objs.len() - 1 {
                                assert(objs.drop_last()[i] == objs[i]);
                            } else {
                                assert(objs[i] == last);
                            }
                        }
                    },
                    None => {
                        assert forall|i: int|
                            0 <= i < objs.len() implies #[trigger] sphere_hit_spec(
                            objs[i],
                            r,
                            t_min,
                            t_max,
                        ) is None by {
                            if i < objs.len() - 1 {
                                assert(objs.drop_last()[i] == objs[i]);
                            } else {
                                assert(objs[i] == last);
                            }
                        }
                    },
                }
            },
        }
    }
}

/// The record the scene fold returns keeps its normal against the incoming
/// ray, since each member sphere does.
pub proof fn lemma_list_hit_normal_opposes(objs: Seq<Sphere>, r: Ray, t_min: int, t_max: int)
    ensures
        match list_hit_spec(objs, r, t_min, t_max) {
            Some(h) => dot3(r.direction@, h.normal) <= 0,
            None => true,
        },
    decreases objs.len(),
{
    if objs.len() > 0 {
        lemma_list_hit_normal_opposes(objs.drop_last(), r, t_min, t_max);
        let prefix = list_hit_spec(objs.drop_last(), r, t_min, t_max);
        let cur_max = match prefix {
            Some(h) => h.t,
            None => t_max,
        };
        crate::sphere::lemma_hit_normal_opposes(objs.last(), r, t_min, cur_max);
    }
}

/// A record from a scene of well-formed spheres carries a well-formed
/// material.
pub proof fn lemma_list_hit_material_wf(objs: Seq<Sphere>, r: Ray, t_min: int, t_max: int)
    requires
        forall|i: int| 0 <= i < objs.len() ==> (#[trigger] objs[i]).wf(),
    ensures
        match list_hit_spec(objs, r, t_min, t_max) {
            Some(h) => h.material.wf(),
            None => true,
        },
    decreases objs.len(),
{
    if objs.len() > 0 {
        assert forall|i: int|
            0 <= i < objs.drop_last().len() implies (#[trigger] objs.drop_last()[i]).wf() by {
            assert(objs.drop_last()[i] == objs[i]);
        }
        lemma_list_hit_material_wf(objs.drop_last(), r, t_min, t_max);
        let prefix = list_hit_spec(objs.drop_last(), r, t_min, t_max);
        let cur_max = match prefix {
            Some(h) => h.t,
            None => t_max,
        };
        assert(objs.last().wf());
        crate::sphere::lemma_sphere_hit_material(objs.last(), r, t_min, cur_max);
    }
}

impl HittableList {
    /// Well-formed when every member sphere is.
    pub open spec fn wf(self) -> bool {
        forall|i: int| 0 <= i < self.objects@.len() ==> (#[trigger] self.objects@[i]).wf()
    }

    pub fn new(objects: Vec<Sphere>) -> (w: Self)
        ensures
            w.objects@ == objects@,
    {
        HittableList { objects }
    }

    /// Remove every object.
    pub fn clear(&mut self)
        ensures
            final(self).objects@.len() == 0,
    {
        self.objects.clear();
    }

    /// Append one object.
    pub fn add(&mut self, object: Sphere)
        ensures
            final(self).objects@ == old(self).objects@.push(object),
    {
        self.objects.push(object);
    }

    /// The nearest intersection of the ray across all members, strictly
    /// inside the open interval (t_min, t_max), or nothing. That the linear
    /// fold really returns the globally nearest hit is
    /// `lemma_list_hit_is_nearest`.
    pub fn hit(&self, r: &Ray, t_min: i64, t_max: i64) -> (res: Option<HitRecord>)
        requires
            self.wf(),
            ray_ok(*r),
            -T_INF <= t_min,
            t_max <= T_INF,
        ensures
            opt_view(res) == list_hit_spec(self.objects@, *r, t_min as int, t_max as int),
    {
        let mut hit_anything: Option<HitRecord> = None;
        let mut closest_so_far: i64 = t_max;
        let mut i: usize = 0;
        while i < self.objects.len()
            invariant
                0 <= i <= self.objects@.len(),
                self.wf(),
                ray_ok(*r),
                -T_INF <= t_min,
                t_max <= T_INF,
                closest_so_far <= t_max,
                closest_so_far as int == match opt_view(hit_anything) {
                    Some(h) => h.t,
                    None => t_max as int,
                },
                opt_view(hit_anything) == list_hit_spec(
                    self.objects@.take(i as int),
                    *r,
                    t_min as int,
                    t_max as int,
                ),
            decreases self.objects@.len() - i,
        {
            let obj: Sphere = self.objects[i];
            let res: Option<HitRecord> = obj.hit(r, t_min, closest_so_far);
            proof {
                let pre = self.objects@.take(i as int);
                let post = self.objects@.take(i as int + 1);
                assert(post.drop_last() =~= pre);
                assert(post.last() == self.objects@[i as int]);
                lemma_sphere_hit_in_range(
                    obj,
                    *r,
                    t_min as int,
                    closest_so_far as int,
                );
            }
            match res {
                Some(rec) => {
                    closest_so_far = rec.t;
                    hit_anything = Some(rec);
                },
                None => {},
            }
            i = i + 1;
        }
        proof {
            assert(self.objects@.take(self.objects@.len() as int) =~= self.objects@);
        }
        hit_anything
    }
}

impl HitRecord {
    /// Orient the stored normal against the incoming ray: the outward normal
    /// is kept if the ray arrives from outside, else flipped, and the side is
    /// recorded.
    pub fn set_face_normal(&mut self, r: &Ray, outward_normal: Vec3)
        requires
            abs(r.direction@.x * outward_normal@.x) + abs(r.direction@.y * outward_normal@.y)
                + abs(r.direction@.z * outward_normal@.z) <= i128::MAX,
            outward_normal@.x > i64::MIN,
            outward_normal@.y > i64::MIN,
            outward_normal@.z > i64::MIN,
        ensures
            final(self).front_face == (dot3(r.direction@, outward_normal@) < 0),
            final(self).normal@ == if dot3(r.direction@, outward_normal@) < 0 {
                outward_normal@
            } else {
                vneg(outward_normal@)
            },
            final(self).p == old(self).p,
            final(self).t == old(self).t,
            final(self).material == old(self).material,
    {
        let s: i128 = (r.direction.x as i128) * (outward_normal.x as i128) + (
        r.direction.y as i128) * (outward_normal.y as i128) + (r.direction.z as i128) * (
        outward_normal.z as i128);
        let q: i128 = crate::math::div_i128(s, SCALE as i128);
        self.front_face = q < 0;
        self.normal = if self.front_face {
            outward_normal
        } else {
            outward_normal.neg()
        };
    }
}

} // verus!
