//! Ray/sphere intersection and nearest-hit search over a scene.
//!
//! A sphere hit solves the quadratic `|O + t*D - C|^2 = r^2` in raw
//! (unscaled) integer arithmetic.  The smaller root is preferred; the
//! larger is tried only if the smaller falls outside the queried
//! interval, so rays starting inside a sphere still hit its far side.
//! A candidate whose hit point or normal would leave the fixed-point
//! working range is reported as a miss: the model is finite, and a
//! hit at the very edge of the representable world is deliberately
//! dropped rather than overflowed.  Scenes that keep their geometry
//! well inside the world box never see these guards fire.

use vstd::prelude::*;
use crate::fixed::{SCALE, tdiv, int_sqrt, lemma_mul_bound, lemma_tdiv_bound, div_fx, isqrt_u128};
use crate::vec3::{
    Vec3, V3, in_box, raw_norm2, raw_dot, v3_diff, v3_zero, lemma_nonzero_norm2,
};
use crate::ray::{Ray, ray_wf, point_at};
use crate::material::{Material, mat_wf, rec_wf};

verus! {

/// Components of scene geometry stay inside this box.
pub const WORLD_BOX: i64 = 0x800_0000;

/// Raw bound on surface normals: twice the unit length.
pub const NORMAL_BOX: i64 = 131072;

/// A successful intersection: point, outward unit normal, parametric
/// distance, and the material of the surface that was hit.
#[derive(Clone, Copy, PartialEq, Eq, Structural, Debug)]
pub struct HitRecord {
    pub p: Vec3,
    pub normal: Vec3,
    pub t: i64,
    pub material: Material,
}

/// A sphere owning its material.
#[derive(Clone, Copy, PartialEq, Eq, Structural, Debug)]
pub struct Sphere {
    pub center: Vec3,
    pub radius: i64,
    pub material: Material,
}

/// An ordered collection of spheres; order only breaks exact ties.
#[derive(Clone, Debug)]
pub struct HitableList {
    pub objects: Vec<Sphere>,
}

/// The closed set of geometry variants.
#[derive(Clone, Debug)]
pub enum Hitable {
    Sphere(Sphere),
    Collection(HitableList),
}

/// A well-formed sphere: center in the world box, positive radius,
/// albedo channels in range.
pub open spec fn sphere_wf(s: Sphere) -> bool {
    &&& in_box(s.center@, WORLD_BOX as int)
    &&& 1 <= s.radius <= WORLD_BOX
    &&& mat_wf(s.material)
}

pub open spec fn list_wf(objs: Seq<Sphere>) -> bool {
    forall|i: int| 0 <= i < objs.len() ==> #[trigger] sphere_wf(objs[i])
}

/// Why a scene element was rejected at construction time.
#[derive(Clone, Copy, PartialEq, Eq, Structural, Debug)]
pub enum SceneError {
    CenterOutOfRange,
    RadiusOutOfRange,
    AlbedoOutOfRange,
}

/// The first construction error a sphere exhibits, if any: center
/// checked first, then radius, then albedo.
pub open spec fn sphere_err(s: Sphere) -> Option<SceneError> {
    if !in_box(s.center@, WORLD_BOX as int) {
        Some(SceneError::CenterOutOfRange)
    } else if !(1 <= s.radius <= WORLD_BOX) {
        Some(SceneError::RadiusOutOfRange)
    } else if !mat_wf(s.material) {
        Some(SceneError::AlbedoOutOfRange)
    } else {
        None
    }
}

/// Ray origin relative to the sphere center (raw components).
pub open spec fn oc_of(s: Sphere, o: V3) -> V3 {
    v3_diff(o, s.center@)
}

/// Quadratic coefficient `a = |D|^2` (raw scale).
pub open spec fn quad_a(d: V3) -> int {
    raw_norm2(d)
}

/// Quadratic half-coefficient `b/2 = oc . D` (raw scale).
pub open spec fn quad_hb(s: Sphere, o: V3, d: V3) -> int {
    raw_dot(oc_of(s, o), d)
}

/// Quadratic constant `c = |oc|^2 - r^2` (raw scale).
pub open spec fn quad_c(s: Sphere, o: V3) -> int {
    raw_dot(oc_of(s, o), oc_of(s, o)) - s.radius * s.radius
}

/// The discriminant `(b/2)^2 - a * c`; negative means no intersection.
pub open spec fn quad_disc(s: Sphere, o: V3, d: V3) -> int {
    quad_hb(s, o, d) * quad_hb(s, o, d) - quad_a(d) * quad_c(s, o)
}

/// The smaller quadratic root, as a fixed-point parameter.
pub open spec fn root_near(s: Sphere, o: V3, d: V3) -> int {
    tdiv((-quad_hb(s, o, d) - int_sqrt(quad_disc(s, o, d))) * SCALE, quad_a(d))
}

/// The larger quadratic root, as a fixed-point parameter.
pub open spec fn root_far(s: Sphere, o: V3, d: V3) -> int {
    tdiv((-quad_hb(s, o, d) + int_sqrt(quad_disc(s, o, d))) * SCALE, quad_a(d))
}

/// The root the intersection reports: the smaller root if it lies in
/// `[t_min, t_max)`, else the larger if it does, else none.
pub open spec fn chosen_root(s: Sphere, o: V3, d: V3, t_min: int, t_max: int) -> Option<int> {
    if quad_disc(s, o, d) < 0 {
        None
    } else if t_min <= root_near(s, o, d) && root_near(s, o, d) < t_max {
        Some(root_near(s, o, d))
    } else if t_min <= root_far(s, o, d) && root_far(s, o, d) < t_max {
        Some(root_far(s, o, d))
    } else {
        None
    }
}

/// The outward normal at `p`: `(p - center) / radius`, unit length up
/// to fixed-point rounding.
pub open spec fn normal_at(s: Sphere, p: V3) -> V3 {
    V3 {
        x: tdiv((p.x - s.center@.x) * SCALE, s.radius as int),
        y: tdiv((p.y - s.center@.y) * SCALE, s.radius as int),
        z: tdiv((p.z - s.center@.z) * SCALE, s.radius as int),
    }
}

/// A candidate hit is kept only while its point and normal stay in
/// the fixed-point working range.  This is a deliberate deviation
/// from the ideal real-valued model: a sphere touching the edge of
/// the representable world can be struck and still reported as a
/// miss.  For scenes whose geometry stays well inside the world box
/// (the intended domain is about a thousand units around the
/// origin), the guards never fire.
pub open spec fn hit_guard(p: V3, n: V3) -> bool {
    &&& in_box(p, WORLD_BOX as int)
    &&& in_box(n, NORMAL_BOX as int)
    &&& n != v3_zero()
}

/// The full sphere intersection result: parameter, point and normal.
pub open spec fn sphere_hit(s: Sphere, o: V3, d: V3, t_min: int, t_max: int) -> Option<(int, V3, V3)> {
    match chosen_root(s, o, d, t_min, t_max) {
        None => None,
        Some(t) => {
            let p = point_at(o, d, t);
            let n = normal_at(s, p);
            if hit_guard(p, n) {
                Some((t, p, n))
            } else {
                None
            }
        },
    }
}

/// Just the reported parameter of a sphere intersection.
pub open spec fn sphere_hit_t(s: Sphere, o: V3, d: V3, t_min: int, t_max: int) -> Option<int> {
    match sphere_hit(s, o, d, t_min, t_max) {
        None => None,
        Some(h) => Some(h.0),
    }
}

/// `rec` reports exactly the intersection of `s` with `r`.
pub open spec fn rec_matches(rec: HitRecord, s: Sphere, o: V3, d: V3, t_min: int, t_max: int) -> bool {
    &&& sphere_hit(s, o, d, t_min, t_max) == Some((rec.t as int, rec.p@, rec.normal@))
    &&& rec.material == s.material
}

/// `rec` is the hit of some member, and no member hits strictly
/// nearer.
pub open spec fn nearest_hit(
    objs: Seq<Sphere>,
    o: V3,
    d: V3,
    t_min: int,
    t_max: int,
    rec: HitRecord,
) -> bool {
    &&& exists|i: int|
        0 <= i < objs.len() && #[trigger] rec_matches(rec, objs[i], o, d, t_min, t_max)
    &&& forall|j: int|
        0 <= j < objs.len() ==> (#[trigger] sphere_hit_t(objs[j], o, d, t_min, t_max) matches Some(
            tj,
        ) ==> tj >= rec.t)
}

/// No sphere intersection ever reports a parameter outside the
/// queried interval `[t_min, t_max)`.
pub proof fn lemma_hit_within_interval(s: Sphere, o: V3, d: V3, t_min: int, t_max: int)
    ensures
        sphere_hit_t(s, o, d, t_min, t_max) matches Some(t) ==> t_min <= t < t_max,
{
}

/// No member of the collection intersects the ray in the interval.
pub open spec fn all_miss(objs: Seq<Sphere>, o: V3, d: V3, t_min: int, t_max: int) -> bool {
    forall|j: int| 0 <= j < objs.len() ==> #[trigger] sphere_hit(objs[j], o, d, t_min, t_max) is None
}

/// The collection's intersection as a function of its inputs: fold
/// over the members in order, keeping the strictly nearest hit, the
/// first one at exact ties.
pub open spec fn list_hit(objs: Seq<Sphere>, o: V3, d: V3, t_min: int, t_max: int) -> Option<
    (int, V3, V3, Material),
>
    decreases objs.len(),
{
    if objs.len() == 0 {
        None
    } else {
        let before = list_hit(objs.drop_last(), o, d, t_min, t_max);
        let cur = match sphere_hit(objs.last(), o, d, t_min, t_max) {
            None => None,
            Some(h) => Some((h.0, h.1, h.2, objs.last().material)),
        };
        match (before, cur) {
            (None, c) => c,
            (Some(b), None) => Some(b),
            (Some(b), Some(c)) => if c.0 < b.0 {
                Some(c)
            } else {
                Some(b)
            },
        }
    }
}

impl Sphere {
    /// Report this sphere's first construction error, or nothing if
    /// it is well formed.
    pub fn validate(&self) -> (r: Option<SceneError>)
        ensures
            r == sphere_err(*self),
            r is None <==> sphere_wf(*self),
    {
        if self.center.x < -WORLD_BOX || self.center.x > WORLD_BOX || self.center.y < -WORLD_BOX
            || self.center.y > WORLD_BOX || self.center.z < -WORLD_BOX || self.center.z
            > WORLD_BOX {
            return Some(SceneError::CenterOutOfRange);
        }
        if self.radius < 1 || self.radius > WORLD_BOX {
            return Some(SceneError::RadiusOutOfRange);
        }
        let albedo = match self.material {
            Material::Lambertian { albedo } => albedo,
            Material::Metal { albedo } => albedo,
        };
        if albedo.x < 0 || albedo.x > SCALE || albedo.y < 0 || albedo.y > SCALE || albedo.z < 0
            || albedo.z > SCALE {
            return Some(SceneError::AlbedoOutOfRange);
        }
        None
    }

    /// Validate and build a sphere, rejecting invalid geometry or
    /// colors before any rendering starts.
    pub fn create(center: Vec3, radius: i64, material: Material) -> (r: Result<Sphere, SceneError>)
        ensures
            ({
                let s = Sphere { center, radius, material };
                match r {
                    Ok(out) => out == s && sphere_wf(s),
                    Err(e) => sphere_err(s) == Some(e),
                }
            }),
    {
        let s = Sphere { center, radius, material };
        match s.validate() {
            None => Ok(s),
            Some(e) => Err(e),
        }
    }

    /// Intersect the ray with this sphere over `[t_min, t_max)`.
    /// The result is exactly `sphere_hit`: the smaller root when it
    /// lies in the interval, else the larger, else a miss — also a
    /// miss for a candidate outside the fixed-point working range
    /// (see `hit_guard`).
    pub fn hit(&self, ray: &Ray, t_min: i64, t_max: i64) -> (res: Option<HitRecord>)
        requires
            sphere_wf(*self),
            ray_wf(*ray),
        ensures
            match res {
                Some(rec) => {
                    &&& rec_matches(rec, *self, ray.origin@, ray.direction@, t_min as int, t_max as int)
                    &&& t_min <= rec.t < t_max
                    &&& rec_wf(rec)
                    &&& mat_wf(rec.material)
                },
                None => sphere_hit(*self, ray.origin@, ray.direction@, t_min as int, t_max as int) is None,
            },
    {
        let ox: i128 = self.center.x as i128;
        let oy: i128 = self.center.y as i128;
        let oz: i128 = self.center.z as i128;
        let ocx: i128 = ray.origin.x as i128 - ox;
        let ocy: i128 = ray.origin.y as i128 - oy;
        let ocz: i128 = ray.origin.z as i128 - oz;
        let dx: i128 = ray.direction.x as i128;
        let dy: i128 = ray.direction.y as i128;
        let dz: i128 = ray.direction.z as i128;
        proof {
            lemma_mul_bound(dx as int, dx as int, 0x800_0000, 0x800_0000);
            lemma_mul_bound(dy as int, dy as int, 0x800_0000, 0x800_0000);
            lemma_mul_bound(dz as int, dz as int, 0x800_0000, 0x800_0000);
            lemma_mul_bound(ocx as int, dx as int, 0x1800_0000, 0x800_0000);
            lemma_mul_bound(ocy as int, dy as int, 0x1800_0000, 0x800_0000);
            lemma_mul_bound(ocz as int, dz as int, 0x1800_0000, 0x800_0000);
            lemma_mul_bound(ocx as int, ocx as int, 0x1800_0000, 0x1800_0000);
            lemma_mul_bound(ocy as int, ocy as int, 0x1800_0000, 0x1800_0000);
            lemma_mul_bound(ocz as int, ocz as int, 0x1800_0000, 0x1800_0000);
            lemma_mul_bound(self.radius as int, self.radius as int, 0x800_0000, 0x800_0000);
        }
        let qa: i128 = dx * dx + dy * dy + dz * dz;
        let hb: i128 = ocx * dx + ocy * dy + ocz * dz;
        let cc: i128 = ocx * ocx + ocy * ocy + ocz * ocz
            - (self.radius as i128) * (self.radius as i128);
        proof {
            lemma_mul_bound(hb as int, hb as int, 0x240_0000_0000_0000, 0x240_0000_0000_0000);
            lemma_mul_bound(qa as int, cc as int, 0xC0_0000_0000_0000, 0x700_0000_0000_0000);
        }
        let disc: i128 = hb * hb - qa * cc;
        assert(qa == quad_a(ray.direction@));
        assert(hb == quad_hb(*self, ray.origin@, ray.direction@));
        assert(cc == quad_c(*self, ray.origin@));
        assert(disc == quad_disc(*self, ray.origin@, ray.direction@));
        assert(qa >= 1);
        if disc < 0 {
            return None;
        }
        let squ: u128 = isqrt_u128(disc as u128);
        proof {
            assert(squ <= 0x800_0000_0000_0000u128) by {
                if squ > 0x800_0000_0000_0000u128 {
                    assert((squ as int) * (squ as int) > 0x800_0000_0000_0000
                        * 0x800_0000_0000_0000) by (nonlinear_arith)
                        requires
                            squ > 0x800_0000_0000_0000u128,
                    ;
                }
            }
        }
        let sq: i128 = squ as i128;
        assert(sq == int_sqrt(quad_disc(*self, ray.origin@, ray.direction@)));
        proof {
            lemma_mul_bound((-hb - sq) as int, SCALE as int, 0x1000_0000_0000_0000, SCALE as int);
            lemma_mul_bound((-hb + sq) as int, SCALE as int, 0x1000_0000_0000_0000, SCALE as int);
        }
        let num1: i128 = (-hb - sq) * (SCALE as i128);
        let t1: i128 = div_fx(num1, qa);
        assert(t1 == root_near(*self, ray.origin@, ray.direction@));
        let tmin_w: i128 = t_min as i128;
        let tmax_w: i128 = t_max as i128;
        let t: i128;
        if tmin_w <= t1 && t1 < tmax_w {
            t = t1;
        } else {
            let num2: i128 = (-hb + sq) * (SCALE as i128);
            let t2: i128 = div_fx(num2, qa);
            assert(t2 == root_far(*self, ray.origin@, ray.direction@));
            if tmin_w <= t2 && t2 < tmax_w {
                t = t2;
            } else {
                assert(chosen_root(*self, ray.origin@, ray.direction@, t_min as int, t_max as int) is None);
                return None;
            }
        }
        assert(chosen_root(*self, ray.origin@, ray.direction@, t_min as int, t_max as int) == Some(t as int));
        proof {
            lemma_mul_bound(t as int, dx as int, 0x8000_0000_0000_0000, 0x800_0000);
            lemma_mul_bound(t as int, dy as int, 0x8000_0000_0000_0000, 0x800_0000);
            lemma_mul_bound(t as int, dz as int, 0x8000_0000_0000_0000, 0x800_0000);
        }
        let px: i128 = ray.origin.x as i128 + div_fx(t * dx, SCALE as i128);
        let py: i128 = ray.origin.y as i128 + div_fx(t * dy, SCALE as i128);
        let pz: i128 = ray.origin.z as i128 + div_fx(t * dz, SCALE as i128);
        let ghost pg = point_at(ray.origin@, ray.direction@, t as int);
        assert(px == pg.x && py == pg.y && pz == pg.z);
        if px < -0x800_0000 || px > 0x800_0000 || py < -0x800_0000 || py > 0x800_0000 || pz
            < -0x800_0000 || pz > 0x800_0000 {
            assert(!hit_guard(pg, normal_at(*self, pg)));
            return None;
        }
        proof {
            lemma_mul_bound((px - ox) as int, SCALE as int, 0x1000_0000, SCALE as int);
            lemma_mul_bound((py - oy) as int, SCALE as int, 0x1000_0000, SCALE as int);
            lemma_mul_bound((pz - oz) as int, SCALE as int, 0x1000_0000, SCALE as int);
        }
        let nx: i128 = div_fx((px - ox) * (SCALE as i128), self.radius as i128);
        let ny: i128 = div_fx((py - oy) * (SCALE as i128), self.radius as i128);
        let nz: i128 = div_fx((pz - oz) * (SCALE as i128), self.radius as i128);
        let ghost ng = normal_at(*self, pg);
        assert(nx == ng.x && ny == ng.y && nz == ng.z);
        if nx < -131072 || nx > 131072 || ny < -131072 || ny > 131072 || nz < -131072 || nz
            > 131072 {
            assert(!hit_guard(pg, ng));
            return None;
        }
        if nx == 0 && ny == 0 && nz == 0 {
            assert(ng == v3_zero());
            assert(!hit_guard(pg, ng));
            return None;
        }
        let rec = HitRecord {
            p: Vec3 { x: px as i64, y: py as i64, z: pz as i64 },
            normal: Vec3 { x: nx as i64, y: ny as i64, z: nz as i64 },
            t: t as i64,
            material: self.material,
        };
        proof {
            assert(hit_guard(pg, ng));
            assert(rec.p@ == pg && rec.normal@ == ng);
            lemma_nonzero_norm2(rec.normal@);
        }
        Some(rec)
    }
}

impl HitableList {
    /// Validate every member and build the collection; the error of
    /// the first invalid sphere is reported.
    pub fn from_spheres(objects: Vec<Sphere>) -> (r: Result<HitableList, SceneError>)
        ensures
            match r {
                Ok(l) => l.objects@ == objects@ && list_wf(l.objects@),
                Err(e) => exists|i: int|
                    0 <= i < objects@.len() && #[trigger] sphere_err(objects@[i]) == Some(e)
                        && forall|j: int| 0 <= j < i ==> sphere_wf(objects@[j]),
            },
    {
        let mut i: usize = 0;
        while i < objects.len()
            invariant
                0 <= i <= objects.len(),
                forall|j: int| 0 <= j < i ==> sphere_wf(objects@[j]),
            decreases objects.len() - i,
        {
            match objects[i].validate() {
                Some(e) => {
                    proof {
                        assert(sphere_err(objects@[i as int]) == Some(e));
                    }
                    return Err(e);
                },
                None => {},
            }
            i = i + 1;
        }
        Ok(HitableList { objects })
    }

    /// The nearest qualifying hit among all members, if any.
    pub fn hit(&self, ray: &Ray, t_min: i64, t_max: i64) -> (res: Option<HitRecord>)
        requires
            list_wf(self.objects@),
            ray_wf(*ray),
        ensures
            match res {
                Some(rec) => {
                    &&& nearest_hit(self.objects@, ray.origin@, ray.direction@, t_min as int, t_max as int, rec)
                    &&& t_min <= rec.t < t_max
                    &&& rec_wf(rec)
                    &&& mat_wf(rec.material)
                },
                None => all_miss(self.objects@, ray.origin@, ray.direction@, t_min as int, t_max as int),
            },
            ({
                let lh = list_hit(
                    self.objects@,
                    ray.origin@,
                    ray.direction@,
                    t_min as int,
                    t_max as int,
                );
                match res {
                    Some(rec) => lh == Some((rec.t as int, rec.p@, rec.normal@, rec.material)),
                    None => lh is None,
                }
            }),
    {
        let mut best: Option<HitRecord> = None;
        let mut i: usize = 0;
        while i < self.objects.len()
            invariant
                0 <= i <= self.objects.len(),
                list_wf(self.objects@),
                ray_wf(*ray),
                match best {
                    Some(b) => {
                        &&& exists|k: int|
                            0 <= k < i && #[trigger] rec_matches(
                                b,
                                self.objects@[k],
                                ray.origin@,
                                ray.direction@,
                                t_min as int,
                                t_max as int,
                            )
                        &&& forall|j: int|
                            0 <= j < i ==> (#[trigger] sphere_hit_t(
                                self.objects@[j],
                                ray.origin@,
                                ray.direction@,
                                t_min as int,
                                t_max as int,
                            ) matches Some(tj) ==> tj >= b.t)
                        &&& t_min <= b.t < t_max
                        &&& rec_wf(b)
                        &&& mat_wf(b.material)
                    },
                    None => forall|j: int|
                        0 <= j < i ==> #[trigger] sphere_hit(
                            self.objects@[j],
                            ray.origin@,
                            ray.direction@,
                            t_min as int,
                            t_max as int,
                        ) is None,
                },
                ({
                    let lh = list_hit(
                        self.objects@.take(i as int),
                        ray.origin@,
                        ray.direction@,
                        t_min as int,
                        t_max as int,
                    );
                    match best {
                        Some(b) => lh == Some((b.t as int, b.p@, b.normal@, b.material)),
                        None => lh is None,
                    }
                }),
            decreases self.objects.len() - i,
        {
            let cand = self.objects[i].hit(ray, t_min, t_max);
            match cand {
                Some(rec) => {
                    proof {
                        assert(rec_matches(rec, self.objects@[i as int], ray.origin@, ray.direction@, t_min as int, t_max as int));
                    }
                    match best {
                        Some(b) => {
                            if rec.t < b.t {
                                best = Some(rec);
                            }
                        },
                        None => {
                            best = Some(rec);
                        },
                    }
                },
                None => {},
            }
            proof {
                let pre = self.objects@.take(i as int);
                let post = self.objects@.take(i as int + 1);
                assert(post.drop_last() =~= pre);
                assert(post.last() == self.objects@[i as int]);
            }
            i = i + 1;
        }
        proof {
            assert(self.objects@.take(self.objects@.len() as int) =~= self.objects@);
        }
        best
    }
}

/// All geometry variants, as a sequence of spheres.
pub open spec fn obj_seq(w: Hitable) -> Seq<Sphere> {
    match w {
        Hitable::Sphere(s) => seq![s],
        Hitable::Collection(l) => l.objects@,
    }
}

pub open spec fn hitable_wf(w: Hitable) -> bool {
    list_wf(obj_seq(w))
}

impl Hitable {
    /// Dispatch the intersection query to the variant.
    pub fn hit(&self, ray: &Ray, t_min: i64, t_max: i64) -> (res: Option<HitRecord>)
        requires
            hitable_wf(*self),
            ray_wf(*ray),
        ensures
            match res {
                Some(rec) => {
                    &&& nearest_hit(obj_seq(*self), ray.origin@, ray.direction@, t_min as int, t_max as int, rec)
                    &&& t_min <= rec.t < t_max
                    &&& rec_wf(rec)
                    &&& mat_wf(rec.material)
                },
                None => all_miss(obj_seq(*self), ray.origin@, ray.direction@, t_min as int, t_max as int),
            },
            ({
                let lh = list_hit(
                    obj_seq(*self),
                    ray.origin@,
                    ray.direction@,
                    t_min as int,
                    t_max as int,
                );
                match res {
                    Some(rec) => lh == Some((rec.t as int, rec.p@, rec.normal@, rec.material)),
                    None => lh is None,
                }
            }),
    {
        match self {
            Hitable::Sphere(s) => {
                proof {
                    assert(obj_seq(*self)[0] == *s);
                    assert(sphere_wf(*s));
                }
                let res = s.hit(ray, t_min, t_max);
                proof {
                    assert(obj_seq(*self).len() == 1);
                    assert(obj_seq(*self).drop_last().len() == 0);
                    assert(list_hit(
                        obj_seq(*self).drop_last(),
                        ray.origin@,
                        ray.direction@,
                        t_min as int,
                        t_max as int,
                    ) is None);
                    assert(obj_seq(*self).last() == *s);
                    match res {
                        Some(rec) => {
                            assert(rec_matches(rec, obj_seq(*self)[0], ray.origin@, ray.direction@, t_min as int, t_max as int));
                        },
                        None => {
                            assert(forall|j: int|
                                0 <= j < obj_seq(*self).len() ==> #[trigger] sphere_hit(
                                    obj_seq(*self)[j],
                                    ray.origin@,
                                    ray.direction@,
                                    t_min as int,
                                    t_max as int,
                                ) is None);
                        },
                    }
                }
                res
            },
            Hitable::Collection(l) => l.hit(ray, t_min, t_max),
        }
    }
}

} // verus!
