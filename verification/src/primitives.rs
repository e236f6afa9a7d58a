//! Rays, the camera, materials, and the scene primitives.
//!
//! A hit is valid only at a parameter in `(0, FAR_LIMIT]`: the renderer
//! confines the world to a finite cube, which keeps every intermediate of the
//! intersection math within the fixed-point range.  Each primitive's
//! intersection test and hit distance are stated exactly over the quadratic
//! (sphere) or plane/edge (triangle) forms they solve.

use vstd::prelude::*;
use crate::fixed::{
    abs_i, clamp_s, fxdiv_s, fxmul_s, isqrt_s, fxdiv, fxmul, fx_sqrt, clamp,
    lemma_abs_mul_bound, lemma_fxmul_s_bound_q, FP_ONE,
};
use crate::vec3::{
    add_v, bounded_v, cross_v, dot_in_range, dot_v, neg_v, normalize_v, scale_v, sub_v, unit_x_v,
    Vec3, V3, lemma_cross_v_bound, lemma_dot_in_range, lemma_dot_self_nonneg, lemma_dot_v_bound,
    lemma_dot_v_neg, MIN_NORM_D, UNIT_BOUND,
};
use crate::color::{bounded_c, le_c, nonneg_c, scale_c, Color, C4};

verus! {

/// Scene geometry (centers, vertices, radii, the camera) lives within this
/// coordinate magnitude: the world is a cube of half-side 256 units.
pub const WORLD_LIMIT: i64 = 0x100_0000;

/// Ray origins stay within this magnitude; bounce origins are clamped to it.
pub const POS_LIMIT: i64 = 0x8000_0000;

/// Ray directions (unit vectors, possibly before renormalization headroom)
/// stay within this magnitude.
pub const DIR_LIMIT: i64 = 0x4_0000;

/// The far clipping distance: a hit counts only at a parameter in
/// `(0, FAR_LIMIT]`, sixteen thousand world units out.
pub const FAR_LIMIT: i64 = 0x4000_0000;

/// The sentinel distance reported when a ray misses: minus one.
pub const NO_HIT: i64 = -65536;

/// Offset pulled back along the ray when spawning a secondary ray, about a
/// thousandth of a unit, to avoid immediate self-intersection.
pub const EPS_OFFSET: i64 = 66;

/// The emission strength a material may carry: nonnegative, capped at
/// sixteen units only so that gathered radiance stays within the scalar
/// range.
pub const EMITTING_LIMIT: i64 = 0x10_0000;

/// A half-line: origin and direction.
#[derive(Clone, Copy, PartialEq, Eq, Structural, Debug)]
pub struct Ray {
    pub pos: Vec3,
    pub dir: Vec3,
}

/// A ray the renderer can trace: origin in the clamped world, direction of
/// roughly unit length.
pub open spec fn wf_ray(r: Ray) -> bool {
    bounded_v(r.pos.m(), POS_LIMIT as int) && bounded_v(r.dir.m(), DIR_LIMIT as int)
}

impl Ray {
    pub fn from(pos: Vec3, dir: Vec3) -> (r: Ray)
        ensures
            r.pos == pos,
            r.dir == dir,
    {
        Ray { pos, dir }
    }
}

/// A surface description: albedo, mirror weight, and self-emission.
#[derive(Clone, Copy, PartialEq, Eq, Structural, Debug)]
pub struct Material {
    pub color: Color,
    pub metallicity: i64,
    pub emitting: i64,
    pub emitting_color: Color,
}

/// Channels of a filter color: nonnegative and at most one unit.
pub open spec fn wf_filter(c: C4) -> bool {
    nonneg_c(c) && bounded_c(c, 65536)
}

/// A well-formed material: albedo and emission color are filters, the mirror
/// weight and emission strength lie in `[0, 1]` units.
pub open spec fn wf_material(m: Material) -> bool {
    &&& wf_filter(m.color.m())
    &&& 0 <= m.metallicity <= 65536
    &&& 0 <= m.emitting <= EMITTING_LIMIT
    &&& wf_filter(m.emitting_color.m())
}

/// The radiance a material emits on its own.
pub open spec fn emit_s(m: Material) -> C4 {
    scale_c(m.emitting as int, m.emitting_color.m())
}

impl Material {
    pub fn from(color: Color, metallicity: i64, emitting: i64, emitting_color: Color) -> (m:
        Material)
        ensures
            m.color == color,
            m.metallicity == metallicity,
            m.emitting == emitting,
            m.emitting_color == emitting_color,
    {
        Material { color, metallicity, emitting, emitting_color }
    }

    /// The radiance this material emits on its own.
    pub fn emitted(&self) -> (c: Color)
        requires
            wf_material(*self),
        ensures
            c.m() == emit_s(*self),
            nonneg_c(c.m()),
            bounded_c(c.m(), EMITTING_LIMIT as int),
            self.emitting == 0 ==> c.m() == (C4 { r: 0, g: 0, b: 0, a: 0 }),
    {
        proof {
            let ec = self.emitting_color.m();
            let k = self.emitting as int;
            crate::fixed::lemma_fxmul_s_nonneg(ec.r, k);
            crate::fixed::lemma_fxmul_s_nonneg(ec.g, k);
            crate::fixed::lemma_fxmul_s_nonneg(ec.b, k);
            crate::fixed::lemma_fxmul_s_nonneg(ec.a, k);
            assert(65536int * 0x10_0000 == 0x10_0000int * 65536);
            lemma_abs_mul_bound(ec.r, k, 65536, 0x10_0000);
            lemma_fxmul_s_bound_q(ec.r, k, 0x10_0000);
            lemma_abs_mul_bound(ec.g, k, 65536, 0x10_0000);
            lemma_fxmul_s_bound_q(ec.g, k, 0x10_0000);
            lemma_abs_mul_bound(ec.b, k, 65536, 0x10_0000);
            lemma_fxmul_s_bound_q(ec.b, k, 0x10_0000);
            lemma_abs_mul_bound(ec.a, k, 65536, 0x10_0000);
            lemma_fxmul_s_bound_q(ec.a, k, 0x10_0000);
            if self.emitting == 0 {
                crate::fixed::lemma_fxmul_s_one(ec.r);
                crate::fixed::lemma_fxmul_s_one(ec.g);
                crate::fixed::lemma_fxmul_s_one(ec.b);
                crate::fixed::lemma_fxmul_s_one(ec.a);
            }
        }
        self.emitting_color.scale(self.emitting)
    }
}

/// The camera: a position, a forward direction, and the two directions that
/// span the image plane.
#[derive(Clone, Copy, PartialEq, Eq, Structural, Debug)]
pub struct Camera {
    pub pos: Vec3,
    pub dir: Vec3,
    pub base1: Vec3,
    pub base2: Vec3,
}

/// A camera the renderer can use: position in the world cube, basis vectors
/// of roughly unit length.
pub open spec fn wf_camera(c: Camera) -> bool {
    &&& bounded_v(c.pos.m(), WORLD_LIMIT as int)
    &&& bounded_v(c.dir.m(), UNIT_BOUND as int)
    &&& bounded_v(c.base1.m(), UNIT_BOUND as int)
    &&& bounded_v(c.base2.m(), UNIT_BOUND as int)
}

/// The direction of the camera ray through image-plane coordinates `(u, v)`.
pub open spec fn cam_ray_dir_s(c: Camera, u: int, v: int) -> V3 {
    normalize_v(add_v(add_v(c.dir.m(), scale_v(u, c.base1.m())), scale_v(v, c.base2.m())))
}

/// The camera ray through image-plane coordinates `(u, v)`, as a value.
pub open spec fn cam_ray_s(c: Camera, u: int, v: int) -> Ray {
    Ray { pos: c.pos, dir: crate::vec3::vec_of(cam_ray_dir_s(c, u, v)) }
}

impl Camera {
    /// A default camera at the origin looking along the first axis.
    pub fn new() -> (c: Camera)
        ensures
            wf_camera(c),
            c == (Camera {
                pos: Vec3 { x: 0, y: 0, z: 0 },
                dir: Vec3 { x: 65536, y: 0, z: 0 },
                base1: Vec3 { x: 0, y: 65536, z: 0 },
                base2: Vec3 { x: 0, y: 0, z: 65536 },
            }),
    {
        Camera {
            pos: Vec3 { x: 0, y: 0, z: 0 },
            dir: Vec3 { x: FP_ONE, y: 0, z: 0 },
            base1: Vec3 { x: 0, y: FP_ONE, z: 0 },
            base2: Vec3 { x: 0, y: 0, z: FP_ONE },
        }
    }

    pub fn from(pos: Vec3, dir: Vec3, base1: Vec3, base2: Vec3) -> (c: Camera)
        ensures
            c.pos == pos,
            c.dir == dir,
            c.base1 == base1,
            c.base2 == base2,
    {
        Camera { pos, dir, base1, base2 }
    }

    /// The ray through image-plane coordinates `(u, v)`, each at most two
    /// units in magnitude.
    pub fn get_ray(&self, u: i64, v: i64) -> (r: Ray)
        requires
            wf_camera(*self),
            abs_i(u as int) <= 131072,
            abs_i(v as int) <= 131072,
        ensures
            r == cam_ray_s(*self, u as int, v as int),
            r.pos == self.pos,
            r.dir.m() == cam_ray_dir_s(*self, u as int, v as int),
            wf_ray(r),
    {
        proof {
            lemma_abs_mul_bound(u as int, self.base1.m().x, 131072, 131072);
            lemma_fxmul_s_bound_q(u as int, self.base1.m().x, 262144);
            lemma_abs_mul_bound(u as int, self.base1.m().y, 131072, 131072);
            lemma_fxmul_s_bound_q(u as int, self.base1.m().y, 262144);
            lemma_abs_mul_bound(u as int, self.base1.m().z, 131072, 131072);
            lemma_fxmul_s_bound_q(u as int, self.base1.m().z, 262144);
            lemma_abs_mul_bound(v as int, self.base2.m().x, 131072, 131072);
            lemma_fxmul_s_bound_q(v as int, self.base2.m().x, 262144);
            lemma_abs_mul_bound(v as int, self.base2.m().y, 131072, 131072);
            lemma_fxmul_s_bound_q(v as int, self.base2.m().y, 262144);
            lemma_abs_mul_bound(v as int, self.base2.m().z, 131072, 131072);
            lemma_fxmul_s_bound_q(v as int, self.base2.m().z, 262144);
        }
        let w = self.dir.add(&self.base1.scale(u)).add(&self.base2.scale(v));
        let dir = w.normalize();
        proof {
            assert(dir == crate::vec3::vec_of(dir.m()));
        }
        Ray { pos: self.pos, dir }
    }
}

/// A sphere: center, radius, material.
#[derive(Clone, Copy, PartialEq, Eq, Structural, Debug)]
pub struct Sphere {
    pub pos: Vec3,
    pub rad: i64,
    pub mat: Material,
}

/// A sphere the renderer can trace: center in the world cube, positive radius
/// within it, well-formed material.
pub open spec fn wf_sphere(s: Sphere) -> bool {
    &&& bounded_v(s.pos.m(), WORLD_LIMIT as int)
    &&& 0 < s.rad <= WORLD_LIMIT
    &&& wf_material(s.mat)
}

/// Half the linear coefficient of the sphere's hit quadratic:
/// `(origin - center) . direction`.
pub open spec fn sph_hb_s(s: Sphere, r: Ray) -> int {
    dot_v(sub_v(r.pos.m(), s.pos.m()), r.dir.m())
}

/// The constant coefficient: `|origin - center|^2 - radius^2`.
pub open spec fn sph_c_s(s: Sphere, r: Ray) -> int {
    let v = sub_v(r.pos.m(), s.pos.m());
    dot_v(v, v) - fxmul_s(s.rad as int, s.rad as int)
}

/// The discriminant of the hit quadratic (for a unit direction).
pub open spec fn sph_disc_s(s: Sphere, r: Ray) -> int {
    fxmul_s(sph_hb_s(s, r), sph_hb_s(s, r)) - sph_c_s(s, r)
}

/// The nearer root of the hit quadratic.
pub open spec fn sph_t0_s(s: Sphere, r: Ray) -> int {
    -sph_hb_s(s, r) - isqrt_s(sph_disc_s(s, r) * 65536)
}

/// The farther root of the hit quadratic.
pub open spec fn sph_t1_s(s: Sphere, r: Ray) -> int {
    -sph_hb_s(s, r) + isqrt_s(sph_disc_s(s, r) * 65536)
}

/// Whether the ray hits the sphere at a parameter in `(0, FAR_LIMIT]`.
pub open spec fn sph_intersects_s(s: Sphere, r: Ray) -> bool {
    sph_disc_s(s, r) >= 0 && ((0 < sph_t0_s(s, r) <= FAR_LIMIT) || (0 < sph_t1_s(s, r)
        <= FAR_LIMIT))
}

/// The first valid hit parameter, or the miss sentinel.
pub open spec fn sph_t_s(s: Sphere, r: Ray) -> int {
    if sph_disc_s(s, r) < 0 {
        NO_HIT as int
    } else if 0 < sph_t0_s(s, r) <= FAR_LIMIT {
        sph_t0_s(s, r)
    } else if 0 < sph_t1_s(s, r) <= FAR_LIMIT {
        sph_t1_s(s, r)
    } else {
        NO_HIT as int
    }
}

/// The outward unit normal of the sphere at a surface point.
pub open spec fn sph_norm_s(s: Sphere, p: V3) -> V3 {
    normalize_v(sub_v(p, s.pos.m()))
}

impl Sphere {
    pub fn from(pos: Vec3, rad: i64, mat: Material) -> (s: Sphere)
        ensures
            s.pos == pos,
            s.rad == rad,
            s.mat == mat,
    {
        Sphere { pos, rad, mat }
    }
}

/// Bounds every coefficient of the sphere's hit quadratic, so that the
/// discriminant stays inside the square root's domain.
proof fn lemma_sph_coeff_bounds(s: Sphere, r: Ray)
    requires
        wf_sphere(s),
        wf_ray(r),
    ensures
        dot_in_range(sub_v(r.pos.m(), s.pos.m()), r.dir.m()),
        dot_in_range(sub_v(r.pos.m(), s.pos.m()), sub_v(r.pos.m(), s.pos.m())),
        abs_i(sph_hb_s(s, r)) <= 0xC_0000_0000,
        abs_i(sph_c_s(s, r)) <= 0x4_0000_0000_0000,
        abs_i(sph_disc_s(s, r)) <= 0xA4_0000_0000_0000,
        abs_i(sph_hb_s(s, r) * sph_hb_s(s, r)) <= 0x90_0000_0000_0000 * 65536,
{
    let v = sub_v(r.pos.m(), s.pos.m());
    assert(bounded_v(v, 0x1_0000_0000));
    lemma_dot_in_range(v, r.dir.m(), 0x1_0000_0000, 0x4_0000);
    lemma_dot_in_range(v, v, 0x1_0000_0000, 0x1_0000_0000);
    assert(0x1_0000_0000int * 0x4_0000 == 0x4_0000_0000int * 65536);
    lemma_dot_v_bound(v, r.dir.m(), 0x1_0000_0000, 0x4_0000, 0x4_0000_0000);
    assert(0x1_0000_0000int * 0x1_0000_0000 == 0x1_0000_0000_0000int * 65536);
    lemma_dot_v_bound(v, v, 0x1_0000_0000, 0x1_0000_0000, 0x1_0000_0000_0000);
    lemma_abs_mul_bound(s.rad as int, s.rad as int, 0x100_0000, 0x100_0000);
    assert(0x100_0000int * 0x100_0000 == 0x1_0000_0000int * 65536);
    lemma_fxmul_s_bound_q(s.rad as int, s.rad as int, 0x1_0000_0000);
    let hb = sph_hb_s(s, r);
    lemma_abs_mul_bound(hb, hb, 0xC_0000_0000, 0xC_0000_0000);
    assert(0xC_0000_0000int * 0xC_0000_0000 == 0x90_0000_0000_0000int * 65536);
    lemma_fxmul_s_bound_q(hb, hb, 0x90_0000_0000_0000);
}

impl Sphere {
    /// Whether the ray hits this sphere within the far limit: the quadratic
    /// has a real root whose parameter lies in `(0, FAR_LIMIT]`.
    pub fn intersects(&self, ray: &Ray) -> (hit: bool)
        requires
            wf_sphere(*self),
            wf_ray(*ray),
        ensures
            hit == sph_intersects_s(*self, *ray),
    {
        proof {
            lemma_sph_coeff_bounds(*self, *ray);
        }
        let v = ray.pos.sub(&self.pos);
        let hb = v.dot(&ray.dir);
        let c = v.dot(&v) - fxmul(self.rad, self.rad);
        let d = fxmul(hb, hb) - c;
        if d < 0 {
            return false;
        }
        let sroot = fx_sqrt(d);
        let t0 = -hb - sroot;
        let t1 = -hb + sroot;
        (0 < t0 && t0 <= FAR_LIMIT) || (0 < t1 && t1 <= FAR_LIMIT)
    }

    /// The first hit parameter in `(0, FAR_LIMIT]`, or the miss sentinel;
    /// positive exactly when `intersects` holds.
    pub fn get_t(&self, ray: &Ray) -> (t: i64)
        requires
            wf_sphere(*self),
            wf_ray(*ray),
        ensures
            t as int == sph_t_s(*self, *ray),
    {
        proof {
            lemma_sph_coeff_bounds(*self, *ray);
        }
        let v = ray.pos.sub(&self.pos);
        let hb = v.dot(&ray.dir);
        let c = v.dot(&v) - fxmul(self.rad, self.rad);
        let d = fxmul(hb, hb) - c;
        if d < 0 {
            return NO_HIT;
        }
        let sroot = fx_sqrt(d);
        let t0 = -hb - sroot;
        let t1 = -hb + sroot;
        if 0 < t0 && t0 <= FAR_LIMIT {
            t0
        } else if 0 < t1 && t1 <= FAR_LIMIT {
            t1
        } else {
            NO_HIT
        }
    }

    pub fn get_mat(&self) -> (m: Material)
        ensures
            m == self.mat,
    {
        self.mat
    }

    /// The outward unit normal at a surface point.
    pub fn get_norm(&self, pos: Vec3) -> (n: Vec3)
        requires
            wf_sphere(*self),
            bounded_v(pos.m(), POS_LIMIT as int),
        ensures
            n.m() == sph_norm_s(*self, pos.m()),
            bounded_v(n.m(), UNIT_BOUND as int),
    {
        pos.sub(&self.pos).normalize()
    }
}

/// Tolerance of the triangle's same-side edge test: raw dot products within
/// this margin of zero still count as inside, absorbing rounding at edges.
pub const EDGE_TOL: i64 = 655;

/// A triangle: three vertices and a material.
#[derive(Clone, Copy, PartialEq, Eq, Structural, Debug)]
pub struct Triangle {
    pub v0: Vec3,
    pub v1: Vec3,
    pub v2: Vec3,
    pub mat: Material,
}

/// A triangle the renderer can trace: vertices in the world cube, well-formed
/// material.
pub open spec fn wf_triangle(t: Triangle) -> bool {
    &&& bounded_v(t.v0.m(), WORLD_LIMIT as int)
    &&& bounded_v(t.v1.m(), WORLD_LIMIT as int)
    &&& bounded_v(t.v2.m(), WORLD_LIMIT as int)
    &&& wf_material(t.mat)
}

/// The triangle's unit face normal (constant over the face).
pub open spec fn tri_norm_s(t: Triangle) -> V3 {
    normalize_v(cross_v(sub_v(t.v1.m(), t.v0.m()), sub_v(t.v2.m(), t.v0.m())))
}

/// How far along the ray the triangle's plane lies: the ray-plane parameter.
pub open spec fn tri_plane_t_s(t: Triangle, r: Ray) -> int {
    let n = tri_norm_s(t);
    fxdiv_s(dot_v(n, t.v0.m()) - dot_v(n, r.pos.m()), dot_v(n, r.dir.m()))
}

/// Where the ray meets the triangle's plane.
pub open spec fn tri_hit_point_s(t: Triangle, r: Ray) -> V3 {
    add_v(r.pos.m(), scale_v(tri_plane_t_s(t, r), r.dir.m()))
}

/// The signed side of edge `a -> b` that `m` lies on, projected on the face
/// normal `n`.
pub open spec fn edge_side_s(a: V3, b: V3, m: V3, n: V3) -> int {
    dot_v(cross_v(sub_v(b, a), sub_v(m, a)), n)
}

/// Whether `m` lies inside the triangle: on the inner side of all three
/// edges, with tolerance.
pub open spec fn tri_contains_s(t: Triangle, m: V3) -> bool {
    let n = tri_norm_s(t);
    &&& edge_side_s(t.v0.m(), t.v1.m(), m, n) >= -(EDGE_TOL as int)
    &&& edge_side_s(t.v1.m(), t.v2.m(), m, n) >= -(EDGE_TOL as int)
    &&& edge_side_s(t.v2.m(), t.v0.m(), m, n) >= -(EDGE_TOL as int)
}

/// Whether the ray hits the triangle: not parallel to its plane, plane
/// parameter in `(0, FAR_LIMIT]`, hit point inside the edges.
pub open spec fn tri_intersects_s(t: Triangle, r: Ray) -> bool {
    let denom = dot_v(tri_norm_s(t), r.dir.m());
    &&& denom != 0
    &&& 0 < tri_plane_t_s(t, r) <= FAR_LIMIT
    &&& tri_contains_s(t, tri_hit_point_s(t, r))
}

/// The hit parameter, or the miss sentinel; positive exactly when the
/// triangle is hit.
pub open spec fn tri_t_s(t: Triangle, r: Ray) -> int {
    if tri_intersects_s(t, r) {
        tri_plane_t_s(t, r)
    } else {
        NO_HIT as int
    }
}

impl Triangle {
    pub fn from(v0: Vec3, v1: Vec3, v2: Vec3, mat: Material) -> (t: Triangle)
        ensures
            t.v0 == v0,
            t.v1 == v1,
            t.v2 == v2,
            t.mat == mat,
    {
        Triangle { v0, v1, v2, mat }
    }

    /// The unit face normal; the surface point is irrelevant for a flat face.
    pub fn get_norm(&self, pos: Vec3) -> (n: Vec3)
        requires
            wf_triangle(*self),
        ensures
            n.m() == tri_norm_s(*self),
            bounded_v(n.m(), UNIT_BOUND as int),
    {
        proof {
            lemma_tri_norm_bounds(*self);
        }
        self.v1.sub(&self.v0).cross(&self.v2.sub(&self.v0)).normalize()
    }

    pub fn get_mat(&self) -> (m: Material)
        ensures
            m == self.mat,
    {
        self.mat
    }

    /// The hit parameter in `(0, FAR_LIMIT]` with the hit point inside the
    /// edges, or the miss sentinel.
    pub fn get_t(&self, ray: &Ray) -> (t: i64)
        requires
            wf_triangle(*self),
            wf_ray(*ray),
        ensures
            t as int == tri_t_s(*self, *ray),
    {
        let n = self.get_norm(ray.pos);
        proof {
            lemma_dot_in_range(n.m(), ray.dir.m(), 131072, 262144);
            lemma_dot_in_range(n.m(), self.v0.m(), 131072, 0x100_0000);
            lemma_dot_in_range(n.m(), ray.pos.m(), 131072, 0x8000_0000);
            lemma_dot_v_bound(n.m(), self.v0.m(), 131072, 0x100_0000, 0x200_0000);
            lemma_dot_v_bound(n.m(), ray.pos.m(), 131072, 0x8000_0000, 0x1_0000_0000);
        }
        let denom = n.dot(&ray.dir);
        if denom == 0 {
            return NO_HIT;
        }
        let num = n.dot(&self.v0) - n.dot(&ray.pos);
        let pt = fxdiv(num, denom);
        if !(0 < pt && pt <= FAR_LIMIT) {
            return NO_HIT;
        }
        proof {
            lemma_abs_mul_bound(pt as int, ray.dir.m().x, FAR_LIMIT as int, 0x4_0000);
            lemma_fxmul_s_bound_q(pt as int, ray.dir.m().x, 0x1_0000_0000);
            lemma_abs_mul_bound(pt as int, ray.dir.m().y, FAR_LIMIT as int, 0x4_0000);
            lemma_fxmul_s_bound_q(pt as int, ray.dir.m().y, 0x1_0000_0000);
            lemma_abs_mul_bound(pt as int, ray.dir.m().z, FAR_LIMIT as int, 0x4_0000);
            lemma_fxmul_s_bound_q(pt as int, ray.dir.m().z, 0x1_0000_0000);
        }
        let m = ray.pos.add(&ray.dir.scale(pt));
        let e0 = edge_side(&self.v0, &self.v1, &m, &n);
        let e1 = edge_side(&self.v1, &self.v2, &m, &n);
        let e2 = edge_side(&self.v2, &self.v0, &m, &n);
        if e0 >= -EDGE_TOL && e1 >= -EDGE_TOL && e2 >= -EDGE_TOL {
            pt
        } else {
            NO_HIT
        }
    }

    /// Whether the ray hits this triangle within the far limit.
    pub fn intersects(&self, ray: &Ray) -> (hit: bool)
        requires
            wf_triangle(*self),
            wf_ray(*ray),
        ensures
            hit == tri_intersects_s(*self, *ray),
    {
        self.get_t(ray) > 0
    }
}

/// The raw face normal (the edge cross product) stays within the range that
/// `normalize` accepts.
proof fn lemma_tri_norm_bounds(t: Triangle)
    requires
        wf_triangle(t),
    ensures
        bounded_v(cross_v(sub_v(t.v1.m(), t.v0.m()), sub_v(t.v2.m(), t.v0.m())), 0x8_0000_0000),
{
    let e1 = sub_v(t.v1.m(), t.v0.m());
    let e2 = sub_v(t.v2.m(), t.v0.m());
    assert(bounded_v(e1, 0x200_0000));
    assert(bounded_v(e2, 0x200_0000));
    assert(0x200_0000int * 0x200_0000 == 0x4_0000_0000int * 65536);
    lemma_cross_v_bound(e1, e2, 0x200_0000, 0x200_0000, 0x4_0000_0000);
}

/// The signed side of edge `a -> b` that point `m` lies on.
fn edge_side(a: &Vec3, b: &Vec3, m: &Vec3, n: &Vec3) -> (e: i64)
    requires
        bounded_v(a.m(), WORLD_LIMIT as int),
        bounded_v(b.m(), WORLD_LIMIT as int),
        bounded_v(m.m(), 0x2_0000_0000),
        bounded_v(n.m(), UNIT_BOUND as int),
    ensures
        e as int == edge_side_s(a.m(), b.m(), m.m(), n.m()),
{
    let eb = b.sub(a);
    let em = m.sub(a);
    proof {
        assert(bounded_v(eb.m(), 0x200_0000));
        assert(bounded_v(em.m(), 0x4_0000_0000));
        assert(0x200_0000int * 0x4_0000_0000 == 0x800_0000_0000int * 65536);
        lemma_cross_v_bound(eb.m(), em.m(), 0x200_0000, 0x4_0000_0000, 0x800_0000_0000);
        lemma_dot_in_range(cross_v(eb.m(), em.m()), n.m(), 0x1000_0000_0000, 131072);
    }
    let c = eb.cross(&em);
    c.dot(n)
}

/// Relies on rand::random: one independently drawn 64-bit value per call;
/// nothing is promised of its distribution.
#[verifier::external_body]
pub(crate) fn random_u64() -> u64 {
    rand::random::<u64>()
}

/// A random fixed-point value in `[-1, 1]` units.
fn rand_symmetric() -> (r: i64)
    ensures
        -65536 <= r <= 65536,
{
    let x: u64 = random_u64() % 131073;
    (x as i64) - 65536
}

/// The fallback direction of the samplers: the unit vector along the third
/// axis, which is its own normalization.
proof fn lemma_axis_unit()
    ensures
        normalize_v(V3 { x: 0, y: 0, z: 65536 }) == (V3 { x: 0, y: 0, z: 65536 }),
{
    let a = V3 { x: 0, y: 0, z: 65536 };
    crate::fixed::lemma_fxmul_s_one(65536);
    crate::fixed::lemma_fxmul_s_one(0);
    assert(dot_v(a, a) == 65536);
    assert(65536int * 65536 == 4294967296);
    assert(65536int * 65536 <= 4294967296 < 65537int * 65537) by (nonlinear_arith);
    crate::fixed::lemma_isqrt_is(4294967296, 65536);
    assert((abs_i(65536) * 65536) / 65536 == 65536) by {
        vstd::arithmetic::div_mod::lemma_div_multiples_vanish(65536, 65536);
        assert(abs_i(65536int) * 65536 == 65536int * 65536);
        assert(65536int * 65536 == 65536 * 65536int);
    }
    assert(fxdiv_s(65536, 65536) == 65536);
    assert((abs_i(0) * 65536) / 65536 == 0) by {
        vstd::arithmetic::div_mod::lemma_div_multiples_vanish(0, 65536);
        assert(abs_i(0) * 65536 == 65536int * 0);
    }
    assert(fxdiv_s(0, 65536) == 0);
}

/// A random direction of roughly unit length: a point drawn uniformly from
/// the unit ball (by rejection) and normalized; after too many rejections,
/// a fixed axis.
fn random_sphere() -> (v: Vec3)
    ensures
        bounded_v(v.m(), UNIT_BOUND as int),
        exists|w: V3| v.m() == normalize_v(w),
{
    let mut i: usize = 0;
    while i < 32
        invariant
            i <= 32,
        decreases 32 - i,
    {
        let cx = rand_symmetric();
        let cy = rand_symmetric();
        let cz = rand_symmetric();
        let cand = Vec3 { x: cx, y: cy, z: cz };
        proof {
            lemma_dot_in_range(cand.m(), cand.m(), 65536, 65536);
        }
        let d = cand.dot(&cand);
        if MIN_NORM_D <= d && d <= 65536 {
            let n = cand.normalize();
            proof {
                assert(n.m() == normalize_v(cand.m()));
            }
            return n;
        }
        i += 1;
    }
    proof {
        lemma_axis_unit();
        assert(normalize_v(V3 { x: 0, y: 0, z: 65536 }) == (V3 { x: 0, y: 0, z: 65536 }));
    }
    Vec3 { x: 0, y: 0, z: FP_ONE }
}

/// A random direction in the hemisphere around `norm`: the ball sample,
/// flipped if it points against the normal.
fn random_norm(norm: &Vec3) -> (v: Vec3)
    requires
        bounded_v(norm.m(), UNIT_BOUND as int),
    ensures
        bounded_v(v.m(), UNIT_BOUND as int),
        dot_v(v.m(), norm.m()) >= 0,
{
    let cand = random_sphere();
    proof {
        lemma_dot_in_range(cand.m(), norm.m(), 131072, 131072);
    }
    let k = cand.dot(norm);
    if k < 0 {
        proof {
            lemma_dot_v_neg(cand.m(), norm.m());
        }
        cand.neg()
    } else {
        cand
    }
}

/// Each component clamped into `[-m, m]`.
pub open spec fn clamp3_v(a: V3, m: int) -> V3 {
    V3 { x: clamp_s(a.x, -m, m), y: clamp_s(a.y, -m, m), z: clamp_s(a.z, -m, m) }
}

/// Where a secondary ray starts: the hit point pulled back along the ray by
/// the self-intersection offset, confined to the position range.
pub open spec fn offset_point_s(r: Ray, t: int) -> V3 {
    clamp3_v(add_v(r.pos.m(), scale_v(t - EPS_OFFSET as int, r.dir.m())), POS_LIMIT as int)
}

/// Computes the origin of a secondary ray spawned at parameter `t`.
pub fn offset_point(ray: &Ray, t: i64) -> (p: Vec3)
    requires
        wf_ray(*ray),
        0 < t <= FAR_LIMIT,
    ensures
        p.m() == offset_point_s(*ray, t as int),
        bounded_v(p.m(), POS_LIMIT as int),
{
    let tt = t - EPS_OFFSET;
    proof {
        lemma_abs_mul_bound(tt as int, ray.dir.m().x, FAR_LIMIT as int, 0x4_0000);
        lemma_fxmul_s_bound_q(tt as int, ray.dir.m().x, 0x1_0000_0000_0000);
        lemma_abs_mul_bound(tt as int, ray.dir.m().y, FAR_LIMIT as int, 0x4_0000);
        lemma_fxmul_s_bound_q(tt as int, ray.dir.m().y, 0x1_0000_0000_0000);
        lemma_abs_mul_bound(tt as int, ray.dir.m().z, FAR_LIMIT as int, 0x4_0000);
        lemma_fxmul_s_bound_q(tt as int, ray.dir.m().z, 0x1_0000_0000_0000);
    }
    let q = ray.pos.add(&ray.dir.scale(tt));
    Vec3 {
        x: clamp(q.x, -POS_LIMIT, POS_LIMIT),
        y: clamp(q.y, -POS_LIMIT, POS_LIMIT),
        z: clamp(q.z, -POS_LIMIT, POS_LIMIT),
    }
}

/// The mirror reflection of `d` about the surface normal `n`.
pub open spec fn reflect_v(d: V3, n: V3) -> V3 {
    add_v(d, scale_v(2 * dot_v(d, neg_v(n)), n))
}

/// The direction of a scattered ray: the mirror reflection and a random
/// hemisphere direction `rv`, blended by the mirror weight and normalized.
pub open spec fn scatter_dir_s(d: V3, n: V3, met: int, rv: V3) -> V3 {
    normalize_v(add_v(scale_v(met, reflect_v(d, n)), scale_v(65536 - met, rv)))
}

/// Spawns the scattered ray at `pos`: direction blended between the mirror
/// reflection and a random hemisphere direction by the material's mirror
/// weight.  A fully metallic material scatters deterministically.
fn bounce(pos: Vec3, norm: &Vec3, dir_in: &Vec3, mat: &Material) -> (r: Ray)
    requires
        bounded_v(pos.m(), POS_LIMIT as int),
        bounded_v(norm.m(), UNIT_BOUND as int),
        bounded_v(dir_in.m(), DIR_LIMIT as int),
        wf_material(*mat),
    ensures
        r.pos == pos,
        wf_ray(r),
        exists|rv: V3|
            bounded_v(rv, UNIT_BOUND as int) && dot_v(rv, norm.m()) >= 0 && r.dir.m()
                == scatter_dir_s(dir_in.m(), norm.m(), mat.metallicity as int, rv),
        mat.metallicity == 65536 ==> r.dir.m() == normalize_v(reflect_v(dir_in.m(), norm.m())),
        mat.metallicity == 0 ==> exists|rv: V3|
            bounded_v(rv, UNIT_BOUND as int) && dot_v(rv, norm.m()) >= 0 && r.dir.m()
                == normalize_v(rv),
{
    proof {
        lemma_dot_in_range(dir_in.m(), neg_v(norm.m()), 262144, 131072);
        assert(262144int * 131072 == 0x8_0000int * 65536);
        lemma_dot_v_bound(dir_in.m(), neg_v(norm.m()), 262144, 131072, 0x8_0000);
    }
    let k = dir_in.dot(&norm.neg());
    let f = 2 * k;
    proof {
        lemma_scale_bounds(f as int, norm.m(), 0x30_0000, 131072, 0x60_0000);
    }
    let refl = dir_in.add(&norm.scale(f));
    proof {
        assert(bounded_v(refl.m(), 0x80_0000));
        lemma_scale_bounds(mat.metallicity as int, refl.m(), 65536, 0x80_0000, 0x80_0000);
        lemma_scale_bounds(65536 - mat.metallicity as int, norm.m(), 65536, 131072, 131072);
    }
    let rv = random_norm(norm);
    proof {
        lemma_scale_bounds(65536 - mat.metallicity as int, rv.m(), 65536, 131072, 131072);
    }
    let mix = refl.scale(mat.metallicity).add(&rv.scale(FP_ONE - mat.metallicity));
    proof {
        assert(bounded_v(mix.m(), 0xA0_0000));
    }
    let dirn = mix.normalize();
    proof {
        if mat.metallicity == 65536 {
            crate::fixed::lemma_fxmul_s_one(refl.m().x);
            crate::fixed::lemma_fxmul_s_one(refl.m().y);
            crate::fixed::lemma_fxmul_s_one(refl.m().z);
            crate::fixed::lemma_fxmul_s_one(rv.m().x);
            crate::fixed::lemma_fxmul_s_one(rv.m().y);
            crate::fixed::lemma_fxmul_s_one(rv.m().z);
            assert(mix.m() == reflect_v(dir_in.m(), norm.m()));
        }
        if mat.metallicity == 0 {
            crate::fixed::lemma_fxmul_s_one(refl.m().x);
            crate::fixed::lemma_fxmul_s_one(refl.m().y);
            crate::fixed::lemma_fxmul_s_one(refl.m().z);
            crate::fixed::lemma_fxmul_s_one(rv.m().x);
            crate::fixed::lemma_fxmul_s_one(rv.m().y);
            crate::fixed::lemma_fxmul_s_one(rv.m().z);
            assert(mix.m() == rv.m());
        }
        assert(bounded_v(rv.m(), UNIT_BOUND as int) && dot_v(rv.m(), norm.m()) >= 0 && dirn.m()
            == scatter_dir_s(dir_in.m(), norm.m(), mat.metallicity as int, rv.m()));
    }
    Ray { pos, dir: dirn }
}

/// A scale factor and componentwise bound give a componentwise bound on the
/// scaled vector.
proof fn lemma_scale_bounds(k: int, a: V3, mk: int, ma: int, q: int)
    requires
        abs_i(k) <= mk,
        bounded_v(a, ma),
        0 <= mk,
        0 <= ma,
        0 <= q,
        mk * ma <= q * 65536,
    ensures
        bounded_v(scale_v(k, a), q),
{
    lemma_abs_mul_bound(k, a.x, mk, ma);
    lemma_fxmul_s_bound_q(k, a.x, q);
    lemma_abs_mul_bound(k, a.y, mk, ma);
    lemma_fxmul_s_bound_q(k, a.y, q);
    lemma_abs_mul_bound(k, a.z, mk, ma);
    lemma_fxmul_s_bound_q(k, a.z, q);
}

impl Sphere {
    /// The scattered ray after this sphere is hit: origin just short of the
    /// hit point, direction blended between mirror and diffuse.
    pub fn get_next_ray(&self, ray: &Ray) -> (r: Ray)
        requires
            wf_sphere(*self),
            wf_ray(*ray),
            sph_intersects_s(*self, *ray),
        ensures
            r.pos.m() == offset_point_s(*ray, sph_t_s(*self, *ray)),
            wf_ray(r),
            exists|rv: V3|
                bounded_v(rv, UNIT_BOUND as int) && dot_v(
                    rv,
                    sph_norm_s(*self, offset_point_s(*ray, sph_t_s(*self, *ray))),
                ) >= 0 && r.dir.m() == scatter_dir_s(
                    ray.dir.m(),
                    sph_norm_s(*self, offset_point_s(*ray, sph_t_s(*self, *ray))),
                    self.mat.metallicity as int,
                    rv,
                ),
            self.mat.metallicity == 65536 ==> r.dir.m() == normalize_v(
                reflect_v(
                    ray.dir.m(),
                    sph_norm_s(*self, offset_point_s(*ray, sph_t_s(*self, *ray))),
                ),
            ),
            self.mat.metallicity == 0 ==> exists|rv: V3|
                bounded_v(rv, UNIT_BOUND as int) && dot_v(
                    rv,
                    sph_norm_s(*self, offset_point_s(*ray, sph_t_s(*self, *ray))),
                ) >= 0 && r.dir.m() == normalize_v(rv),
    {
        let t = self.get_t(ray);
        let p = offset_point(ray, t);
        let n = self.get_norm(p);
        bounce(p, &n, &ray.dir, &self.mat)
    }
}

impl Triangle {
    /// The scattered ray after this triangle is hit: origin just short of the
    /// hit point, direction blended between mirror and diffuse about the face
    /// normal.
    pub fn get_next_ray(&self, ray: &Ray) -> (r: Ray)
        requires
            wf_triangle(*self),
            wf_ray(*ray),
            tri_intersects_s(*self, *ray),
        ensures
            r.pos.m() == offset_point_s(*ray, tri_t_s(*self, *ray)),
            wf_ray(r),
            exists|rv: V3|
                bounded_v(rv, UNIT_BOUND as int) && dot_v(rv, tri_norm_s(*self)) >= 0
                    && r.dir.m() == scatter_dir_s(
                    ray.dir.m(),
                    tri_norm_s(*self),
                    self.mat.metallicity as int,
                    rv,
                ),
            self.mat.metallicity == 65536 ==> r.dir.m() == normalize_v(
                reflect_v(ray.dir.m(), tri_norm_s(*self)),
            ),
            self.mat.metallicity == 0 ==> exists|rv: V3|
                bounded_v(rv, UNIT_BOUND as int) && dot_v(rv, tri_norm_s(*self)) >= 0
                    && r.dir.m() == normalize_v(rv),
    {
        let t = self.get_t(ray);
        let p = offset_point(ray, t);
        let n = self.get_norm(p);
        bounce(p, &n, &ray.dir, &self.mat)
    }
}

/// A scene object: the closed set of primitive shapes, sharing one operation
/// set so the integrator never needs the concrete shape.
#[derive(Clone, Copy, PartialEq, Eq, Structural, Debug)]
pub enum Object3d {
    Sphere(Sphere),
    Triangle(Triangle),
}

/// A well-formed scene object.
pub open spec fn wf_object(o: Object3d) -> bool {
    match o {
        Object3d::Sphere(s) => wf_sphere(s),
        Object3d::Triangle(t) => wf_triangle(t),
    }
}

/// Whether the ray hits the object within the far limit.
pub open spec fn obj_intersects_s(o: Object3d, r: Ray) -> bool {
    match o {
        Object3d::Sphere(s) => sph_intersects_s(s, r),
        Object3d::Triangle(t) => tri_intersects_s(t, r),
    }
}

/// The object's first valid hit parameter, or the miss sentinel.
pub open spec fn obj_t_s(o: Object3d, r: Ray) -> int {
    match o {
        Object3d::Sphere(s) => sph_t_s(s, r),
        Object3d::Triangle(t) => tri_t_s(t, r),
    }
}

/// The object's material.
pub open spec fn obj_mat_s(o: Object3d) -> Material {
    match o {
        Object3d::Sphere(s) => s.mat,
        Object3d::Triangle(t) => t.mat,
    }
}

/// The object's outward unit normal at a surface point.
pub open spec fn obj_norm_s(o: Object3d, p: V3) -> V3 {
    match o {
        Object3d::Sphere(s) => sph_norm_s(s, p),
        Object3d::Triangle(t) => tri_norm_s(t),
    }
}

/// What a ray scattered off object `o` hit by ray `r` looks like: origin
/// just short of the hit point, direction a mirror/hemisphere blend about
/// the surface normal there.
#[verifier::opaque]
pub open spec fn is_scatter_of(o: Object3d, r: Ray, next: Ray) -> bool {
    &&& wf_ray(next)
    &&& next.pos.m() == offset_point_s(r, obj_t_s(o, r))
    &&& exists|rv: V3|
        bounded_v(rv, UNIT_BOUND as int) && dot_v(
            rv,
            obj_norm_s(o, offset_point_s(r, obj_t_s(o, r))),
        ) >= 0 && next.dir.m() == scatter_dir_s(
            r.dir.m(),
            obj_norm_s(o, offset_point_s(r, obj_t_s(o, r))),
            obj_mat_s(o).metallicity as int,
            rv,
        )
}

impl Object3d {
    pub fn intersects(&self, ray: &Ray) -> (hit: bool)
        requires
            wf_object(*self),
            wf_ray(*ray),
        ensures
            hit == obj_intersects_s(*self, *ray),
    {
        match self {
            Object3d::Sphere(s) => s.intersects(ray),
            Object3d::Triangle(t) => t.intersects(ray),
        }
    }

    pub fn get_t(&self, ray: &Ray) -> (t: i64)
        requires
            wf_object(*self),
            wf_ray(*ray),
        ensures
            t as int == obj_t_s(*self, *ray),
    {
        match self {
            Object3d::Sphere(s) => s.get_t(ray),
            Object3d::Triangle(t) => t.get_t(ray),
        }
    }

    pub fn get_mat(&self) -> (m: Material)
        ensures
            m == obj_mat_s(*self),
    {
        match self {
            Object3d::Sphere(s) => s.get_mat(),
            Object3d::Triangle(t) => t.get_mat(),
        }
    }

    pub fn get_norm(&self, pos: Vec3) -> (n: Vec3)
        requires
            wf_object(*self),
            bounded_v(pos.m(), POS_LIMIT as int),
        ensures
            n.m() == obj_norm_s(*self, pos.m()),
            bounded_v(n.m(), UNIT_BOUND as int),
    {
        match self {
            Object3d::Sphere(s) => s.get_norm(pos),
            Object3d::Triangle(t) => t.get_norm(pos),
        }
    }

    /// The scattered ray after this object is hit.
    pub fn get_next_ray(&self, ray: &Ray) -> (r: Ray)
        requires
            wf_object(*self),
            wf_ray(*ray),
            obj_intersects_s(*self, *ray),
        ensures
            is_scatter_of(*self, *ray, r),
            r.pos.m() == offset_point_s(*ray, obj_t_s(*self, *ray)),
            wf_ray(r),
            exists|rv: V3|
                bounded_v(rv, UNIT_BOUND as int) && dot_v(
                    rv,
                    obj_norm_s(*self, offset_point_s(*ray, obj_t_s(*self, *ray))),
                ) >= 0 && r.dir.m() == scatter_dir_s(
                    ray.dir.m(),
                    obj_norm_s(*self, offset_point_s(*ray, obj_t_s(*self, *ray))),
                    obj_mat_s(*self).metallicity as int,
                    rv,
                ),
            obj_mat_s(*self).metallicity == 65536 ==> r.dir.m() == normalize_v(
                reflect_v(
                    ray.dir.m(),
                    obj_norm_s(*self, offset_point_s(*ray, obj_t_s(*self, *ray))),
                ),
            ),
            obj_mat_s(*self).metallicity == 0 ==> exists|rv: V3|
                bounded_v(rv, UNIT_BOUND as int) && dot_v(
                    rv,
                    obj_norm_s(*self, offset_point_s(*ray, obj_t_s(*self, *ray))),
                ) >= 0 && r.dir.m() == normalize_v(rv),
    {
        let r = match self {
            Object3d::Sphere(s) => s.get_next_ray(ray),
            Object3d::Triangle(t) => t.get_next_ray(ray),
        };
        proof {
            reveal(is_scatter_of);
            assert(is_scatter_of(*self, *ray, r));
        }
        r
    }
}

/// A sphere's hit test and hit distance agree: the ray intersects exactly
/// when the reported distance is a valid positive parameter.
pub proof fn lemma_sphere_hit_consistency(s: Sphere, r: Ray)
    ensures
        sph_intersects_s(s, r) <==> 0 < sph_t_s(s, r) <= FAR_LIMIT,
        !sph_intersects_s(s, r) ==> sph_t_s(s, r) == NO_HIT,
{
}

/// A triangle's hit test and hit distance agree likewise.
pub proof fn lemma_triangle_hit_consistency(t: Triangle, r: Ray)
    ensures
        tri_intersects_s(t, r) <==> 0 < tri_t_s(t, r) <= FAR_LIMIT,
        !tri_intersects_s(t, r) ==> tri_t_s(t, r) == NO_HIT,
{
}

/// Every object's hit test and hit distance agree.
pub proof fn lemma_object_hit_consistency(o: Object3d, r: Ray)
    ensures
        obj_intersects_s(o, r) <==> 0 < obj_t_s(o, r) <= FAR_LIMIT,
        !obj_intersects_s(o, r) ==> obj_t_s(o, r) == NO_HIT,
{
    match o {
        Object3d::Sphere(s) => lemma_sphere_hit_consistency(s, r),
        Object3d::Triangle(t) => lemma_triangle_hit_consistency(t, r),
    }
}

/// Bounds on the quadratic's coefficients when the ray starts inside the
/// world cube.
proof fn lemma_sph_world_bounds(s: Sphere, r: Ray)
    requires
        wf_sphere(s),
        wf_ray(r),
        bounded_v(r.pos.m(), WORLD_LIMIT as int),
    ensures
        abs_i(sph_hb_s(s, r)) <= 0x1800_0000,
        abs_i(sph_c_s(s, r)) <= 0x10_0000_0000,
{
    let v = sub_v(r.pos.m(), s.pos.m());
    assert(bounded_v(v, 0x200_0000));
    assert(0x200_0000int * 0x4_0000 == 0x800_0000int * 65536);
    lemma_dot_v_bound(v, r.dir.m(), 0x200_0000, 0x4_0000, 0x800_0000);
    assert(0x200_0000int * 0x200_0000 == 0x4_0000_0000int * 65536);
    lemma_dot_v_bound(v, v, 0x200_0000, 0x200_0000, 0x4_0000_0000);
    lemma_abs_mul_bound(s.rad as int, s.rad as int, 0x100_0000, 0x100_0000);
    assert(0x100_0000int * 0x100_0000 == 0x1_0000_0000int * 65536);
    lemma_fxmul_s_bound_q(s.rad as int, s.rad as int, 0x1_0000_0000);
}

/// The square of the half-coefficient exceeds its truncated unit share by
/// less than one unit.
proof fn lemma_hb_square_facts(hb: int)
    ensures
        hb * hb >= 0,
        fxmul_s(hb, hb) == (hb * hb) / 65536,
        65536 * fxmul_s(hb, hb) <= hb * hb,
        hb * hb <= 65536 * fxmul_s(hb, hb) + 65535,
{
    assert(hb * hb >= 0) by (nonlinear_arith);
    vstd::arithmetic::div_mod::lemma_fundamental_div_mod(hb * hb, 65536);
    assert(0 <= (hb * hb) % 65536 < 65536) by (nonlinear_arith)
        requires
            hb * hb >= 0,
    ;
}

/// A ray from outside the sphere, heading inward, that meets the sphere at
/// all (a nonnegative discriminant) does so at two positive parameters: it
/// enters and leaves in front of its origin.
pub proof fn lemma_sphere_outside_two_roots(s: Sphere, r: Ray)
    requires
        wf_sphere(s),
        wf_ray(r),
        bounded_v(r.pos.m(), WORLD_LIMIT as int),
        sph_c_s(s, r) > 0,
        sph_hb_s(s, r) < 0,
        sph_disc_s(s, r) >= 0,
    ensures
        0 < sph_t0_s(s, r),
        0 < sph_t1_s(s, r),
        sph_t0_s(s, r) <= sph_t1_s(s, r),
        sph_intersects_s(s, r),
        sph_t_s(s, r) == sph_t0_s(s, r),
{
    let hb = sph_hb_s(s, r);
    let c = sph_c_s(s, r);
    let d = sph_disc_s(s, r);
    let ds = d * 65536;
    let sr = isqrt_s(ds);
    lemma_sph_world_bounds(s, r);
    lemma_hb_square_facts(hb);
    assert(ds == 65536 * fxmul_s(hb, hb) - 65536 * c);
    assert(ds <= hb * hb - 65536);
    crate::fixed::lemma_isqrt_s_props(ds);
    assert(sr < -hb) by (nonlinear_arith)
        requires
            sr >= 0,
            hb < 0,
            sr * sr <= ds,
            ds <= hb * hb - 65536,
    ;
    assert(sph_t0_s(s, r) == -hb - sr);
    assert(sph_t1_s(s, r) == -hb + sr);
    assert(sr <= 0x1800_0000) by (nonlinear_arith)
        requires
            sr >= 0,
            sr * sr <= ds,
            ds <= hb * hb - 65536,
            abs_i(hb) <= 0x1800_0000,
    ;
    assert(-hb + sr <= 0x3000_0000);
    assert(0 < sph_t0_s(s, r) <= FAR_LIMIT);
}

/// For rays that start inside the world cube, the far clip never discards a
/// sphere hit: both roots lie within the far limit, so the clipped test
/// agrees with the uncapped quadratic test (a real root at a positive
/// parameter).
pub proof fn lemma_far_clip_vacuous(s: Sphere, r: Ray)
    requires
        wf_sphere(s),
        wf_ray(r),
        bounded_v(r.pos.m(), WORLD_LIMIT as int),
        sph_disc_s(s, r) >= 0,
    ensures
        sph_t0_s(s, r) <= sph_t1_s(s, r) <= FAR_LIMIT,
        sph_intersects_s(s, r) <==> (0 < sph_t0_s(s, r) || 0 < sph_t1_s(s, r)),
{
    let hb = sph_hb_s(s, r);
    let c = sph_c_s(s, r);
    let ds = sph_disc_s(s, r) * 65536;
    let sr = isqrt_s(ds);
    lemma_sph_world_bounds(s, r);
    lemma_hb_square_facts(hb);
    assert(ds <= hb * hb + 65536 * 0x10_0000_0000);
    crate::fixed::lemma_isqrt_s_props(ds);
    assert(sr <= 0x2000_0000) by (nonlinear_arith)
        requires
            sr >= 0,
            sr * sr <= ds,
            ds <= hb * hb + 65536 * 0x10_0000_0000,
            abs_i(hb) <= 0x1800_0000,
    ;
    assert(sph_t1_s(s, r) <= 0x3800_0000);
}

/// A ray from inside the sphere leaves through exactly one positive
/// parameter: the far root is ahead of the origin, the near root behind it.
/// Inside rays qualify by either route: their heading has not already
/// carried them past the surface (`hb + c < 0`, which any inward heading
/// satisfies), or the origin sits inside by at least half a squared unit of
/// margin; only sub-rounding grazing exits, where the truncated discriminant
/// genuinely loses the root, are excluded.
pub proof fn lemma_sphere_inside_one_root(s: Sphere, r: Ray)
    requires
        wf_sphere(s),
        wf_ray(r),
        bounded_v(r.pos.m(), WORLD_LIMIT as int),
        sph_c_s(s, r) < 0,
        sph_hb_s(s, r) + sph_c_s(s, r) < 0 || sph_c_s(s, r) <= -32768,
    ensures
        sph_disc_s(s, r) > 0,
        sph_t0_s(s, r) <= 0,
        0 < sph_t1_s(s, r),
        sph_intersects_s(s, r),
        sph_t_s(s, r) == sph_t1_s(s, r),
{
    let hb = sph_hb_s(s, r);
    let c = sph_c_s(s, r);
    let d = sph_disc_s(s, r);
    let ds = d * 65536;
    let sr = isqrt_s(ds);
    lemma_sph_world_bounds(s, r);
    lemma_hb_square_facts(hb);
    assert(fxmul_s(hb, hb) >= 0) by {
        assert((hb * hb) / 65536 >= 0) by (nonlinear_arith)
            requires
                hb * hb >= 0,
        ;
    }
    assert(d >= 1);
    assert(ds == 65536 * fxmul_s(hb, hb) - 65536 * c);
    assert(ds >= hb * hb - 65535 + 65536 * (-c));
    crate::fixed::lemma_isqrt_s_props(ds);
    if hb < 0 {
        assert(ds >= hb * hb + 1);
        assert(sr >= -hb) by (nonlinear_arith)
            requires
                sr >= 0,
                hb < 0,
                ds < (sr + 1) * (sr + 1),
                ds >= hb * hb + 1,
        ;
    } else if hb + c < 0 {
        assert(-c >= hb + 1);
        assert(ds >= hb * hb + 65536 * hb + 1);
        assert(sr >= hb + 1) by (nonlinear_arith)
            requires
                sr >= 0,
                hb >= 0,
                ds < (sr + 1) * (sr + 1),
                ds >= hb * hb + 65536 * hb + 1,
        ;
    } else {
        assert(-c >= 32768);
        assert(ds >= hb * hb - 65535 + 65536 * 32768);
        assert(sr >= hb + 1) by (nonlinear_arith)
            requires
                sr >= 0,
                0 <= hb <= 0x1800_0000,
                ds < (sr + 1) * (sr + 1),
                ds >= hb * hb - 65535 + 65536 * 32768,
        ;
    }
    assert(sph_t0_s(s, r) == -hb - sr);
    assert(sph_t1_s(s, r) == -hb + sr);
    assert(sph_t0_s(s, r) <= 0);
    assert(0 < sph_t1_s(s, r));
    assert(ds <= hb * hb + 65536 * 0x10_0000_0000);
    assert(sr <= 0x2000_0000) by (nonlinear_arith)
        requires
            sr >= 0,
            sr * sr <= ds,
            ds <= hb * hb + 65536 * 0x10_0000_0000,
            abs_i(hb) <= 0x1800_0000,
    ;
    assert(sph_t1_s(s, r) <= 0x3800_0000);
    assert(0 < sph_t1_s(s, r) <= FAR_LIMIT);
}

/// The same-side value of edge `a -> b` for point `m` against `n`, in exact
/// integer arithmetic: what `edge_side_s` computes, with no rounding, scaled
/// up by the square of the unit.
pub open spec fn edge_side_exact_s(a: V3, b: V3, m: V3, n: V3) -> int {
    let cx = (b.y - a.y) * (m.z - a.z) - (b.z - a.z) * (m.y - a.y);
    let cy = (b.z - a.z) * (m.x - a.x) - (b.x - a.x) * (m.z - a.z);
    let cz = (b.x - a.x) * (m.y - a.y) - (b.y - a.y) * (m.x - a.x);
    cx * n.x + cy * n.y + cz * n.z
}

/// The truncated edge value stays within a fixed rounding slack of the exact
/// one.
proof fn lemma_edge_side_err(a: V3, b: V3, m: V3, n: V3)
    requires
        bounded_v(n, 131072),
    ensures
        abs_i(
            65536 * (65536 * edge_side_s(a, b, m, n)) - edge_side_exact_s(a, b, m, n),
        ) <= 15 * 0x1_0000_0000,
{
    let eb = sub_v(b, a);
    let em = sub_v(m, a);
    let c = cross_v(eb, em);
    let cex = eb.y * em.z - eb.z * em.y;
    let cey = eb.z * em.x - eb.x * em.z;
    let cez = eb.x * em.y - eb.y * em.x;
    crate::fixed::lemma_fxmul_s_err(eb.y, em.z);
    crate::fixed::lemma_fxmul_s_err(eb.z, em.y);
    crate::fixed::lemma_fxmul_s_err(eb.z, em.x);
    crate::fixed::lemma_fxmul_s_err(eb.x, em.z);
    crate::fixed::lemma_fxmul_s_err(eb.x, em.y);
    crate::fixed::lemma_fxmul_s_err(eb.y, em.x);
    assert(abs_i(65536 * c.x - cex) <= 131070);
    assert(abs_i(65536 * c.y - cey) <= 131070);
    assert(abs_i(65536 * c.z - cez) <= 131070);
    let edge = dot_v(c, n);
    let dexact = c.x * n.x + c.y * n.y + c.z * n.z;
    crate::fixed::lemma_fxmul_s_err(c.x, n.x);
    crate::fixed::lemma_fxmul_s_err(c.y, n.y);
    crate::fixed::lemma_fxmul_s_err(c.z, n.z);
    assert(abs_i(65536 * edge - dexact) <= 196605);
    lemma_abs_mul_bound(65536 * c.x - cex, n.x, 131070, 131072);
    lemma_abs_mul_bound(65536 * c.y - cey, n.y, 131070, 131072);
    lemma_abs_mul_bound(65536 * c.z - cez, n.z, 131070, 131072);
    assert((65536 * c.x - cex) * n.x == 65536 * (c.x * n.x) - cex * n.x) by (nonlinear_arith);
    assert((65536 * c.y - cey) * n.y == 65536 * (c.y * n.y) - cey * n.y) by (nonlinear_arith);
    assert((65536 * c.z - cez) * n.z == 65536 * (c.z * n.z) - cez * n.z) by (nonlinear_arith);
    assert(131070int * 131072 == 17179607040);
    assert(abs_i(65536 * dexact - edge_side_exact_s(a, b, m, n)) <= 3 * 17179607040);
    assert(65536int * 196605 == 12884705280);
    assert(abs_i(65536 * (65536 * edge - dexact)) <= 12884705280);
    assert(abs_i(
        65536 * (65536 * edge) - edge_side_exact_s(a, b, m, n),
    ) <= 12884705280 + 3 * 17179607040) by (nonlinear_arith)
        requires
            abs_i(65536 * (65536 * edge - dexact)) <= 12884705280,
            abs_i(65536 * dexact - edge_side_exact_s(a, b, m, n)) <= 3 * 17179607040,
    ;
    assert(12884705280 + 3 * 17179607040int <= 15 * 0x1_0000_0000);
}

/// The face normal of a well-formed triangle stays componentwise within
/// twice the unit.
proof fn lemma_tri_norm_unit(t: Triangle)
    requires
        wf_triangle(t),
    ensures
        bounded_v(tri_norm_s(t), 131072),
{
    lemma_tri_norm_bounds(t);
    crate::vec3::lemma_normalize_v_bound(
        cross_v(sub_v(t.v1.m(), t.v0.m()), sub_v(t.v2.m(), t.v0.m())),
    );
}

/// The edge test is tolerant enough for its own rounding: any point that
/// exact arithmetic places on the inner side of all three edges (against the
/// computed face normal) passes the containment test.
pub proof fn lemma_contains_accepts_inner(t: Triangle, m: V3)
    requires
        wf_triangle(t),
        edge_side_exact_s(t.v0.m(), t.v1.m(), m, tri_norm_s(t)) >= 0,
        edge_side_exact_s(t.v1.m(), t.v2.m(), m, tri_norm_s(t)) >= 0,
        edge_side_exact_s(t.v2.m(), t.v0.m(), m, tri_norm_s(t)) >= 0,
    ensures
        tri_contains_s(t, m),
{
    let n = tri_norm_s(t);
    lemma_tri_norm_unit(t);
    lemma_edge_side_err(t.v0.m(), t.v1.m(), m, n);
    lemma_edge_side_err(t.v1.m(), t.v2.m(), m, n);
    lemma_edge_side_err(t.v2.m(), t.v0.m(), m, n);
    lemma_edge_lower(edge_side_s(t.v0.m(), t.v1.m(), m, n), edge_side_exact_s(t.v0.m(), t.v1.m(), m, n));
    lemma_edge_lower(edge_side_s(t.v1.m(), t.v2.m(), m, n), edge_side_exact_s(t.v1.m(), t.v2.m(), m, n));
    lemma_edge_lower(edge_side_s(t.v2.m(), t.v0.m(), m, n), edge_side_exact_s(t.v2.m(), t.v0.m(), m, n));
}

/// The edge test is no looser than its tolerance plus the rounding slack:
/// a point that exact arithmetic places beyond that margin on the outer side
/// of some edge fails the containment test.
pub proof fn lemma_contains_rejects_outer(t: Triangle, m: V3)
    requires
        wf_triangle(t),
        edge_side_exact_s(t.v0.m(), t.v1.m(), m, tri_norm_s(t)) <= -(671 * 0x1_0000_0000)
            || edge_side_exact_s(t.v1.m(), t.v2.m(), m, tri_norm_s(t)) <= -(671 * 0x1_0000_0000)
            || edge_side_exact_s(t.v2.m(), t.v0.m(), m, tri_norm_s(t)) <= -(671 * 0x1_0000_0000),
    ensures
        !tri_contains_s(t, m),
{
    let n = tri_norm_s(t);
    lemma_tri_norm_unit(t);
    if edge_side_exact_s(t.v0.m(), t.v1.m(), m, n) <= -(671 * 0x1_0000_0000) {
        lemma_edge_side_err(t.v0.m(), t.v1.m(), m, n);
        lemma_edge_upper(edge_side_s(t.v0.m(), t.v1.m(), m, n), edge_side_exact_s(t.v0.m(), t.v1.m(), m, n));
    } else if edge_side_exact_s(t.v1.m(), t.v2.m(), m, n) <= -(671 * 0x1_0000_0000) {
        lemma_edge_side_err(t.v1.m(), t.v2.m(), m, n);
        lemma_edge_upper(edge_side_s(t.v1.m(), t.v2.m(), m, n), edge_side_exact_s(t.v1.m(), t.v2.m(), m, n));
    } else {
        lemma_edge_side_err(t.v2.m(), t.v0.m(), m, n);
        lemma_edge_upper(edge_side_s(t.v2.m(), t.v0.m(), m, n), edge_side_exact_s(t.v2.m(), t.v0.m(), m, n));
    }
}

/// A nonnegative exact value keeps the rounded edge value above the
/// tolerance floor.
proof fn lemma_edge_lower(edge: int, exact: int)
    by (nonlinear_arith)
    requires
        abs_i(65536 * (65536 * edge) - exact) <= 15 * 0x1_0000_0000,
        exact >= 0,
    ensures
        edge >= -(EDGE_TOL as int),
{
}

/// An exact value far enough below zero pulls the rounded edge value under
/// the tolerance floor.
proof fn lemma_edge_upper(edge: int, exact: int)
    by (nonlinear_arith)
    requires
        abs_i(65536 * (65536 * edge) - exact) <= 15 * 0x1_0000_0000,
        exact <= -(671 * 0x1_0000_0000),
    ensures
        edge < -(EDGE_TOL as int),
{
}

} // verus!
