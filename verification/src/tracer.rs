//! The path integrator and the progressive accumulation scheduler.
//!
//! `cast_ray` scans the scene for the nearest hit and recurses up to a fixed
//! bounce limit; radiance is filtered by each surface's albedo and grows only
//! by self-emission.  `draw` evaluates one jittered sample per pixel (in
//! parallel), folds it into the per-pixel running mean, and quantizes the
//! buffer to RGBA bytes.

use vstd::prelude::*;
use rayon::iter::{IntoParallelIterator, ParallelIterator};
use crate::fixed::{abs_i, clamp_s, fxdiv_s, fxdiv, clamp, lemma_fxmul_s_attenuates};
use crate::vec3::{dot_v, neg_v, normalize_v, Vec3, V3, lemma_dot_in_range, UNIT_BOUND};
use crate::color;
use crate::color::{
    add_c, bounded_c, le_c, mul_c, nonneg_c, quantize_s, rgb_s, scale_c, Color, C4,
};
use crate::primitives::{
    cam_ray_s, emit_s, is_scatter_of, obj_intersects_s, obj_mat_s, obj_norm_s, obj_t_s, offset_point_s,
    wf_camera, wf_object, wf_ray, Camera, Object3d, Ray, lemma_object_hit_consistency,
    offset_point, FAR_LIMIT,
};
use crate::scene::{construct_scene, scene_camera_s, scene_objects_s};

verus! {

/// The bounce limit of the integrator.
pub const REFLECTION_LIMIT: usize = 5;

/// The frame counter saturates here; the running mean then keeps this weight.
pub const FRAMES_CAP: u64 = 0x1_0000_0000;

/// One unit of the per-depth radiance budget: the direct-light ceiling plus
/// the emission cap.
pub const RAD_UNIT: i64 = 0x11_0000;

/// Accumulated pixel channels stay within 128 units.
pub const SCREEN_MAX: i64 = 0x80_0000;

/// The largest image side the scheduler accepts.
pub const SIDE_MAX: usize = 4096;

/// The sky: the radiance of rays that leave the scene.
pub open spec fn sky_s() -> C4 {
    rgb_s(102, 191, 255)
}

/// All objects of the sequence are well-formed.
pub open spec fn wf_objects_s(objs: Seq<Object3d>) -> bool {
    forall|i: int| 0 <= i < objs.len() ==> wf_object(#[trigger] objs[i])
}

/// Whether any object of the scene is hit by the ray.
pub open spec fn hit_any_s(objs: Seq<Object3d>, r: Ray) -> bool {
    exists|i: int| 0 <= i < objs.len() && obj_intersects_s(#[trigger] objs[i], r)
}

/// A scene with no emissive surface.
pub open spec fn scene_passive_s(objs: Seq<Object3d>) -> bool {
    forall|i: int| 0 <= i < objs.len() ==> obj_mat_s(#[trigger] objs[i]).emitting == 0
}

/// `k` indexes the object the scan settles on: a hit object no other hit
/// object beats, and the earliest among ties.
pub open spec fn is_first_nearest_s(objs: Seq<Object3d>, r: Ray, k: int) -> bool {
    &&& 0 <= k < objs.len()
    &&& obj_intersects_s(objs[k], r)
    &&& forall|j: int|
        0 <= j < objs.len() && obj_intersects_s(#[trigger] objs[j], r) ==> obj_t_s(objs[j], r)
            >= obj_t_s(objs[k], r)
    &&& forall|j: int|
        0 <= j < k && obj_intersects_s(#[trigger] objs[j], r) ==> obj_t_s(objs[j], r) > obj_t_s(
            objs[k],
            r,
        )
}

/// The fixed directional light of the terminal bounce.
pub open spec fn light_dir_s() -> V3 {
    V3 { x: 6554, y: 6554, z: -65536 }
}

/// The unit direction toward the fixed light.
pub open spec fn to_light_s() -> V3 {
    normalize_v(neg_v(light_dir_s()))
}

/// A ray assembled from mathematical components (which must fit the scalar
/// range for the assembly to be faithful).
pub open spec fn mk_ray_s(p: V3, d: V3) -> Ray {
    Ray {
        pos: Vec3 { x: p.x as i64, y: p.y as i64, z: p.z as i64 },
        dir: Vec3 { x: d.x as i64, y: d.y as i64, z: d.z as i64 },
    }
}

/// The terminal bounce's radiance off object `o`: its own emission, plus the
/// lambertian term of the fixed light unless the shadow ray is occluded.
#[verifier::opaque]
pub open spec fn direct_light_s(o: Object3d, objs: Seq<Object3d>, r: Ray) -> C4 {
    let pos = offset_point_s(r, obj_t_s(o, r));
    let lam = clamp_s(dot_v(obj_norm_s(o, pos), to_light_s()), 0, 65536);
    let lr = mk_ray_s(pos, to_light_s());
    let base = if hit_any_s(objs, lr) {
        rgb_s(0, 0, 0)
    } else {
        scale_c(lam, mul_c(sky_s(), obj_mat_s(o).color.m()))
    };
    add_c(base, emit_s(obj_mat_s(o)))
}

/// Radiance arriving at object `o` filtered by its albedo, plus its own
/// emission.
pub open spec fn shade_s(o: Object3d, coming: C4) -> C4 {
    add_c(mul_c(coming, obj_mat_s(o).color.m()), emit_s(obj_mat_s(o)))
}

/// The radiances the integrator can return for a ray at a given depth,
/// over every choice the diffuse sampler may make.  A miss returns the sky;
/// a terminal hit returns the direct-light term of the first-nearest object;
/// a deeper hit returns some radiance possible for a ray scattered off that
/// object (origin just short of the hit, direction a mirror/hemisphere
/// blend), filtered by its albedo, plus its emission.
/// The index the nearest-hit scan settles on (meaningful whenever some
/// object is hit: the first-nearest index exists and is unique).
pub open spec fn first_nearest_k(objs: Seq<Object3d>, r: Ray) -> int {
    choose|k: int| is_first_nearest_s(objs, r, k)
}

/// The first-nearest index is unique.
pub proof fn lemma_first_nearest_unique(objs: Seq<Object3d>, r: Ray, k1: int, k2: int)
    requires
        is_first_nearest_s(objs, r, k1),
        is_first_nearest_s(objs, r, k2),
    ensures
        k1 == k2,
{
    if k1 < k2 {
        assert(obj_t_s(objs[k1], r) > obj_t_s(objs[k2], r));
        assert(obj_t_s(objs[k1], r) <= obj_t_s(objs[k2], r));
    } else if k2 < k1 {
        assert(obj_t_s(objs[k2], r) > obj_t_s(objs[k1], r));
        assert(obj_t_s(objs[k2], r) <= obj_t_s(objs[k1], r));
    }
}

pub open spec fn possible_radiance(objs: Seq<Object3d>, r: Ray, depth: int, c: C4) -> bool
    decreases depth,
{
    if !hit_any_s(objs, r) {
        c == sky_s()
    } else {
        let k = first_nearest_k(objs, r);
        if depth <= 0 {
            c == direct_light_s(objs[k], objs, r)
        } else {
            exists|next: Ray, coming: C4|
                #![trigger is_scatter_of(objs[k], r, next), shade_s(objs[k], coming)]
                {
                    &&& is_scatter_of(objs[k], r, next)
                    &&& possible_radiance(objs, next, depth - 1, coming)
                    &&& c == shade_s(objs[k], coming)
                }
        }
    }
}

/// A miss makes the sky the one possible radiance.
proof fn lemma_possible_radiance_miss(objs: Seq<Object3d>, r: Ray, depth: int)
    requires
        !hit_any_s(objs, r),
    ensures
        possible_radiance(objs, r, depth, sky_s()),
{
}

/// A witness settles the chosen first-nearest index.
proof fn lemma_first_nearest_settles(objs: Seq<Object3d>, r: Ray, k: int)
    requires
        is_first_nearest_s(objs, r, k),
    ensures
        first_nearest_k(objs, r) == k,
{
    assert(is_first_nearest_s(objs, r, first_nearest_k(objs, r))) by {
        assert(exists|k2: int| is_first_nearest_s(objs, r, k2));
    }
    lemma_first_nearest_unique(objs, r, first_nearest_k(objs, r), k);
}

/// At depth zero, the direct-light term of the first-nearest object is a
/// possible radiance.
proof fn lemma_possible_radiance_base(objs: Seq<Object3d>, r: Ray, k: int, c: C4)
    requires
        hit_any_s(objs, r),
        is_first_nearest_s(objs, r, k),
        c == direct_light_s(objs[k], objs, r),
    ensures
        possible_radiance(objs, r, 0, c),
{
    lemma_first_nearest_settles(objs, r, k);
}

/// At positive depth, shading a radiance possible for a scattered ray gives
/// a possible radiance.
#[verifier::rlimit(100)]
proof fn lemma_possible_radiance_step(
    objs: Seq<Object3d>,
    r: Ray,
    depth: int,
    k: int,
    next: Ray,
    coming: C4,
    c: C4,
)
    requires
        depth > 0,
        hit_any_s(objs, r),
        is_first_nearest_s(objs, r, k),
        is_scatter_of(objs[k], r, next),
        possible_radiance(objs, next, depth - 1, coming),
        c == shade_s(objs[k], coming),
    ensures
        possible_radiance(objs, r, depth, c),
{
    lemma_first_nearest_settles(objs, r, k);
    assert(is_scatter_of(objs[first_nearest_k(objs, r)], r, next));
    assert(c == shade_s(objs[first_nearest_k(objs, r)], coming));
}

/// The horizontal image-plane coordinate of pixel `pos` under jitter `j`:
/// the pixel's column, offset and mapped by the half-side.
pub open spec fn pixel_u_s(side: int, pos: int, j: int) -> int {
    fxdiv_s((pos % side) * 65536 + j - side * 32768, side * 32768)
}

/// The vertical image-plane coordinate of pixel `pos` under jitter `j`:
/// the pixel's row, offset and mapped by the half-side.
pub open spec fn pixel_v_s(side: int, pos: int, j: int) -> int {
    fxdiv_s((pos / side) * 65536 + j - side * 32768, side * 32768)
}

/// What one frame contributes at pixel `pos` of tracer `t`: the stored
/// running mean folded with a radiance possible for the camera ray through
/// the jittered pixel center, traced at the bounce limit.
pub open spec fn is_pixel_sample(t: Tracer, pos: int, c: C4) -> bool {
    &&& nonneg_c(c)
    &&& bounded_c(c, SCREEN_MAX as int)
    &&& (0 < t.side && 0 <= pos < t.side * t.side ==> exists|ju: int, jv: int, s: C4|
        #![trigger cam_ray_s(
            t.camera,
            pixel_u_s(t.side as int, pos, ju),
            pixel_v_s(t.side as int, pos, jv),
        ), blend_s(t.screen@[pos].m(), t.frames as int, s)]
        {
            &&& -32768 <= ju <= 32768
            &&& -32768 <= jv <= 32768
            &&& wf_radiance(s, REFLECTION_LIMIT as int)
            &&& possible_radiance(
                t.objects@,
                cam_ray_s(
                    t.camera,
                    pixel_u_s(t.side as int, pos, ju),
                    pixel_v_s(t.side as int, pos, jv),
                ),
                REFLECTION_LIMIT as int,
                s,
            )
            &&& c == blend_s(t.screen@[pos].m(), t.frames as int, s)
        })
}

/// What the integrator guarantees of any radiance it returns at the given
/// depth: nonnegative, and at most `depth + 2` radiance-budget units per
/// channel.
pub open spec fn wf_radiance(c: C4, depth: int) -> bool {
    nonneg_c(c) && bounded_c(c, RAD_UNIT * (depth + 2))
}

/// Filtering nonnegative light by a filter color keeps it nonnegative and
/// never amplifies any channel.
pub proof fn lemma_mul_filter(x: C4, f: C4)
    requires
        nonneg_c(x),
        crate::primitives::wf_filter(f),
    ensures
        nonneg_c(mul_c(x, f)),
        le_c(mul_c(x, f), x),
{
    lemma_fxmul_s_attenuates(x.r, f.r);
    lemma_fxmul_s_attenuates(x.g, f.g);
    lemma_fxmul_s_attenuates(x.b, f.b);
    lemma_fxmul_s_attenuates(x.a, f.a);
}

/// Scaling nonnegative light by a weight of at most one unit keeps it
/// nonnegative and never amplifies any channel.
pub proof fn lemma_scale_filter(k: int, x: C4)
    requires
        nonneg_c(x),
        0 <= k <= 65536,
    ensures
        nonneg_c(scale_c(k, x)),
        le_c(scale_c(k, x), x),
{
    lemma_fxmul_s_attenuates(x.r, k);
    lemma_fxmul_s_attenuates(x.g, k);
    lemma_fxmul_s_attenuates(x.b, k);
    lemma_fxmul_s_attenuates(x.a, k);
}

/// The progressive renderer: the per-frame scene snapshot, the accumulation
/// buffer, and the frame counter.
pub struct Tracer {
    pub side: usize,
    pub camera: Camera,
    pub objects: Vec<Object3d>,
    pub screen: Vec<Color>,
    pub frames: u64,
}

impl Tracer {
    /// The renderer's invariant: a bounded image side, a well-formed scene
    /// snapshot, one accumulated color per pixel with channels in
    /// `[0, SCREEN_MAX]`, and a saturating frame counter.
    pub open spec fn wf(self) -> bool {
        &&& self.side <= SIDE_MAX
        &&& wf_camera(self.camera)
        &&& wf_objects_s(self.objects@)
        &&& self.screen@.len() == self.side * self.side
        &&& forall|p: int|
            0 <= p < self.screen@.len() ==> nonneg_c(#[trigger] self.screen@[p].m()) && bounded_c(
                self.screen@[p].m(),
                SCREEN_MAX as int,
            )
        &&& self.frames <= FRAMES_CAP
    }

    /// A fresh renderer: default camera, empty scene, black accumulation
    /// buffer, frame counter at zero.
    pub fn from(side: usize) -> (t: Tracer)
        requires
            side <= SIDE_MAX,
        ensures
            t.wf(),
            t.side == side,
            t.objects@.len() == 0,
            t.frames == 0,
            t.camera == (Camera {
                pos: Vec3 { x: 0, y: 0, z: 0 },
                dir: Vec3 { x: 65536, y: 0, z: 0 },
                base1: Vec3 { x: 0, y: 65536, z: 0 },
                base2: Vec3 { x: 0, y: 0, z: 65536 },
            }),
            forall|p: int| 0 <= p < t.screen@.len() ==> #[trigger] t.screen@[p].m() == rgb_s(0, 0, 0),
    {
        proof {
            assert(side * side <= 4096 * 4096) by (nonlinear_arith)
                requires
                    side <= 4096,
            ;
        }
        let n = side * side;
        let mut screen: Vec<Color> = Vec::new();
        let black = color::black();
        let mut i: usize = 0;
        while i < n
            invariant
                i <= n,
                screen@.len() == i,
                black.m() == rgb_s(0, 0, 0),
                forall|p: int| 0 <= p < i ==> #[trigger] screen@[p] == black,
            decreases n - i,
        {
            screen.push(black);
            i += 1;
        }
        Tracer {
            side,
            camera: Camera::new(),
            objects: Vec::new(),
            screen,
            frames: 0,
        }
    }

    /// Replaces the scene snapshot with the provider's scene for time `t`.
    fn set_scene(&mut self, t: i64)
        requires
            old(self).wf(),
        ensures
            final(self).wf(),
            final(self).side == old(self).side,
            final(self).screen == old(self).screen,
            final(self).frames == old(self).frames,
            final(self).camera == scene_camera_s(),
            final(self).objects@ == scene_objects_s(),
            final(self).objects@.len() == 16,
    {
        let (camera, objects) = construct_scene(t);
        self.camera = camera;
        self.objects = objects;
    }

    /// Casts a ray into the scene snapshot and returns the gathered radiance.
    ///
    /// With no hit the sky's radiance comes back unchanged.  At depth zero
    /// the nearest hit is lit directly by the fixed light (unless shadowed)
    /// plus its own emission; deeper, the scattered ray's radiance is
    /// filtered by the albedo and the emission added.  The two illumination
    /// paths are one deliberate model: the terminal bounce estimates all
    /// remaining transport by a single directional-light term, while every
    /// deeper bounce gathers light solely from emissive surfaces.  In a
    /// scene with no emissive surface the result never exceeds the sky,
    /// channel for channel.
    #[verifier::rlimit(100)]
    pub fn cast_ray(&self, ray: &Ray, reflections: usize) -> (c: Color)
        requires
            wf_objects_s(self.objects@),
            wf_ray(*ray),
            reflections <= 1024,
        ensures
            wf_radiance(c.m(), reflections as int),
            self.objects@.len() == 0 ==> c.m() == sky_s(),
            !hit_any_s(self.objects@, *ray) ==> c.m() == sky_s(),
            scene_passive_s(self.objects@) ==> le_c(c.m(), sky_s()),
            possible_radiance(self.objects@, *ray, reflections as int, c.m()),
        decreases reflections,
    {
        let len = self.objects.len();
        let mut found = false;
        let mut best_i: usize = 0;
        let mut best_t: i64 = 0;
        let mut i: usize = 0;
        while i < len
            invariant
                len == self.objects@.len(),
                wf_objects_s(self.objects@),
                wf_ray(*ray),
                i <= len,
                !found ==> forall|j: int|
                    0 <= j < i ==> !obj_intersects_s(#[trigger] self.objects@[j], *ray),
                found ==> best_i < i && obj_intersects_s(self.objects@[best_i as int], *ray)
                    && best_t == obj_t_s(self.objects@[best_i as int], *ray) && 0 < best_t
                    <= FAR_LIMIT,
                found ==> forall|j: int|
                    0 <= j < i && obj_intersects_s(#[trigger] self.objects@[j], *ray) ==> obj_t_s(
                        self.objects@[j],
                        *ray,
                    ) >= best_t,
                found ==> forall|j: int|
                    0 <= j < best_i && obj_intersects_s(#[trigger] self.objects@[j], *ray)
                        ==> obj_t_s(self.objects@[j], *ray) > best_t,
            decreases len - i,
        {
            let o = &self.objects[i];
            if o.intersects(ray) {
                let t = o.get_t(ray);
                proof {
                    lemma_object_hit_consistency(self.objects@[i as int], *ray);
                }
                if !found || t < best_t {
                    found = true;
                    best_i = i;
                    best_t = t;
                }
            }
            i += 1;
        }
        if !found {
            let sky = color::skyblue();
            proof {
                assert(!hit_any_s(self.objects@, *ray));
                lemma_possible_radiance_miss(self.objects@, *ray, reflections as int);
            }
            return sky;
        }
        proof {
            assert(is_first_nearest_s(self.objects@, *ray, best_i as int));
            assert(hit_any_s(self.objects@, *ray)) by {
                assert(obj_intersects_s(self.objects@[best_i as int], *ray));
            }
        }
        let obj = self.objects[best_i];
        let mat = obj.get_mat();
        let emitted = mat.emitted();
        if reflections == 0 {
            let pos = offset_point(ray, best_t);
            let norm = obj.get_norm(pos);
            let light_direction = Vec3 { x: 6554, y: 6554, z: -65536 };
            let to_light = light_direction.neg().normalize();
            let light_ray = Ray::from(pos, to_light);
            proof {
                assert(wf_ray(light_ray));
                assert(light_ray == mk_ray_s(
                    offset_point_s(*ray, obj_t_s(self.objects@[best_i as int], *ray)),
                    to_light_s(),
                ));
            }
            let mut shadowed = false;
            let mut j: usize = 0;
            while j < len
                invariant
                    len == self.objects@.len(),
                    wf_objects_s(self.objects@),
                    wf_ray(light_ray),
                    j <= len,
                    shadowed ==> hit_any_s(self.objects@, light_ray),
                    !shadowed ==> forall|q: int|
                        0 <= q < j ==> !obj_intersects_s(#[trigger] self.objects@[q], light_ray),
                decreases len - j,
            {
                if self.objects[j].intersects(&light_ray) {
                    shadowed = true;
                }
                j += 1;
            }
            proof {
                if !shadowed {
                    assert(!hit_any_s(self.objects@, light_ray));
                }
            }
            proof {
                lemma_dot_in_range(norm.m(), to_light.m(), UNIT_BOUND as int, UNIT_BOUND as int);
            }
            let lam = clamp(norm.dot(&to_light), 0, 65536);
            let base = if shadowed {
                color::black()
            } else {
                let lit = color::skyblue().mul(&mat.color);
                proof {
                    lemma_mul_filter(sky_s(), mat.color.m());
                    lemma_scale_filter(lam as int, mul_c(sky_s(), mat.color.m()));
                }
                lit.scale(lam)
            };
            let out = base.add(&emitted);
            proof {
                reveal(direct_light_s);
                assert(out.m() == direct_light_s(
                    self.objects@[best_i as int],
                    self.objects@,
                    *ray,
                ));
                lemma_possible_radiance_base(
                    self.objects@,
                    *ray,
                    best_i as int,
                    out.m(),
                );
                if scene_passive_s(self.objects@) {
                    assert(obj_mat_s(self.objects@[best_i as int]).emitting == 0);
                    crate::fixed::lemma_fxmul_s_one(mat.emitting_color.m().r);
                    crate::fixed::lemma_fxmul_s_one(mat.emitting_color.m().g);
                    crate::fixed::lemma_fxmul_s_one(mat.emitting_color.m().b);
                    crate::fixed::lemma_fxmul_s_one(mat.emitting_color.m().a);
                }
            }
            out
        } else {
            let next = obj.get_next_ray(ray);
            let coming = self.cast_ray(&next, reflections - 1);
            proof {
                lemma_mul_filter(coming.m(), mat.color.m());
            }
            let filtered = coming.mul(&mat.color);
            let out = filtered.add(&emitted);
            proof {
                assert(out.m() == shade_s(self.objects@[best_i as int], coming.m()));
                lemma_possible_radiance_step(
                    self.objects@,
                    *ray,
                    reflections as int,
                    best_i as int,
                    next,
                    coming.m(),
                    out.m(),
                );
                if scene_passive_s(self.objects@) {
                    assert(obj_mat_s(self.objects@[best_i as int]).emitting == 0);
                    crate::fixed::lemma_fxmul_s_one(mat.emitting_color.m().r);
                    crate::fixed::lemma_fxmul_s_one(mat.emitting_color.m().g);
                    crate::fixed::lemma_fxmul_s_one(mat.emitting_color.m().b);
                    crate::fixed::lemma_fxmul_s_one(mat.emitting_color.m().a);
                }
            }
            out
        }
    }

    /// The radiance of the camera ray through image-plane coordinates
    /// `(u, v)`, traced at the full bounce limit.
    pub fn get_pixel_color(&self, u: i64, v: i64) -> (c: Color)
        requires
            self.wf(),
            abs_i(u as int) <= 131072,
            abs_i(v as int) <= 131072,
        ensures
            wf_radiance(c.m(), REFLECTION_LIMIT as int),
            possible_radiance(
                self.objects@,
                cam_ray_s(self.camera, u as int, v as int),
                REFLECTION_LIMIT as int,
                c.m(),
            ),
            !hit_any_s(self.objects@, cam_ray_s(self.camera, u as int, v as int)) ==> c.m()
                == sky_s(),
            scene_passive_s(self.objects@) ==> le_c(c.m(), sky_s()),
            self.objects@.len() == 0 ==> c.m() == sky_s(),
    {
        let ray = self.camera.get_ray(u, v);
        self.cast_ray(&ray, REFLECTION_LIMIT)
    }
}


/// The per-pixel running mean: the stored average weighted by the frame
/// count, plus the new sample, divided by the new count.
pub open spec fn blend_s(old: C4, n: int, s: C4) -> C4 {
    C4 {
        r: (old.r * n + s.r) / (n + 1),
        g: (old.g * n + s.g) / (n + 1),
        b: (old.b * n + s.b) / (n + 1),
        a: (old.a * n + s.a) / (n + 1),
    }
}

/// One channel of the running mean, computed without overflow.
fn blend_channel(oldc: i64, frames: u64, s: i64) -> (r: i64)
    requires
        0 <= oldc <= SCREEN_MAX,
        0 <= s <= SCREEN_MAX,
        frames <= FRAMES_CAP,
    ensures
        r as int == (oldc * frames + s) / (frames + 1),
        0 <= r <= SCREEN_MAX,
{
    proof {
        assert((oldc as int) * (frames as int) <= 0x80_0000int * 0x1_0000_0000)
            by (nonlinear_arith)
            requires
                0 <= oldc <= 0x80_0000,
                0 <= frames <= 0x1_0000_0000,
        ;
    }
    let num: u128 = (oldc as u128) * (frames as u128) + (s as u128);
    let den: u128 = (frames as u128) + 1;
    proof {
        assert(num as int == oldc * frames + s) by (nonlinear_arith)
            requires
                num as int == (oldc as u128) as int * (frames as u128) as int + (s as u128) as int,
                (oldc as u128) as int == oldc as int,
                (frames as u128) as int == frames as int,
                (s as u128) as int == s as int,
        ;
        assert(num as int <= SCREEN_MAX * (den as int)) by (nonlinear_arith)
            requires
                num as int == oldc * frames + s,
                den as int == frames + 1,
                0 <= oldc <= SCREEN_MAX,
                0 <= s <= SCREEN_MAX,
                0 <= frames,
        ;
        vstd::arithmetic::div_mod::lemma_div_is_ordered(
            num as int,
            SCREEN_MAX as int * (den as int),
            den as int,
        );
        assert((SCREEN_MAX as int * (den as int)) / (den as int) == SCREEN_MAX) by {
            assert(SCREEN_MAX as int * (den as int) == (den as int) * SCREEN_MAX)
                by (nonlinear_arith);
            vstd::arithmetic::div_mod::lemma_div_multiples_vanish(SCREEN_MAX as int, den as int);
        }
        assert(num as int / (den as int) >= 0) by (nonlinear_arith)
            requires
                num as int >= 0,
                den as int > 0,
        ;
    }
    let q: u128 = num / den;
    q as i64
}

/// The running mean of a stored pixel and a fresh sample.
fn blend(old: &Color, frames: u64, s: &Color) -> (c: Color)
    requires
        nonneg_c(old.m()),
        bounded_c(old.m(), SCREEN_MAX as int),
        nonneg_c(s.m()),
        bounded_c(s.m(), SCREEN_MAX as int),
        frames <= FRAMES_CAP,
    ensures
        c.m() == blend_s(old.m(), frames as int, s.m()),
        nonneg_c(c.m()),
        bounded_c(c.m(), SCREEN_MAX as int),
{
    Color {
        r: blend_channel(old.r, frames, s.r),
        g: blend_channel(old.g, frames, s.g),
        b: blend_channel(old.b, frames, s.b),
        a: blend_channel(old.a, frames, s.a),
    }
}

/// As frames accumulate, one more frame moves the stored average by at most
/// `m / (n + 1)` plus one rounding unit in every channel: with a bounded
/// scene, successive frames of the running mean converge.
pub proof fn lemma_accumulation_converges(old: C4, n: int, s: C4, m: int)
    requires
        0 <= n,
        0 <= m,
        nonneg_c(old),
        bounded_c(old, m),
        nonneg_c(s),
        bounded_c(s, m),
    ensures
        abs_i(blend_s(old, n, s).r - old.r) <= m / (n + 1) + 1,
        abs_i(blend_s(old, n, s).g - old.g) <= m / (n + 1) + 1,
        abs_i(blend_s(old, n, s).b - old.b) <= m / (n + 1) + 1,
        abs_i(blend_s(old, n, s).a - old.a) <= m / (n + 1) + 1,
{
    lemma_blend_channel_delta(old.r, n, s.r, m);
    lemma_blend_channel_delta(old.g, n, s.g, m);
    lemma_blend_channel_delta(old.b, n, s.b, m);
    lemma_blend_channel_delta(old.a, n, s.a, m);
}

/// One channel of the convergence bound.
proof fn lemma_blend_channel_delta(oldc: int, n: int, s: int, m: int)
    requires
        0 <= n,
        0 <= m,
        0 <= oldc <= m,
        0 <= s <= m,
    ensures
        abs_i((oldc * n + s) / (n + 1) - oldc) <= m / (n + 1) + 1,
{
    let d = n + 1;
    let diff = s - oldc;
    assert(oldc * n + s == diff + oldc * d) by (nonlinear_arith)
        requires
            d == n + 1,
            diff == s - oldc,
    ;
    vstd::arithmetic::div_mod::lemma_hoist_over_denominator(diff, oldc, d as nat);
    assert((oldc * n + s) / d == diff / d + oldc);
    assert(abs_i(diff) <= m);
    vstd::arithmetic::div_mod::lemma_div_is_ordered(diff, m, d);
    vstd::arithmetic::div_mod::lemma_div_is_ordered(-m, diff, d);
    assert(m / d >= 0) by (nonlinear_arith)
        requires
            m >= 0,
            d > 0,
    ;
    assert((-m) / d >= -(m / d) - 1) by {
        vstd::arithmetic::div_mod::lemma_fundamental_div_mod(m, d);
        vstd::arithmetic::div_mod::lemma_fundamental_div_mod(-m, d);
        assert(0 <= m % d < d && 0 <= (-m) % d < d) by (nonlinear_arith)
            requires
                d > 0,
        ;
        assert(d * (m / d) + d * ((-m) / d) == -(m % d) - ((-m) % d)) by (nonlinear_arith)
            requires
                m == d * (m / d) + m % d,
                -m == d * ((-m) / d) + (-m) % d,
        ;
        assert((-m) / d >= -(m / d) - 1) by (nonlinear_arith)
            requires
                d > 0,
                d * (m / d) + d * ((-m) / d) >= -2 * d + 2,
                d * (m / d) + d * ((-m) / d) <= 0,
        ;
    }
}

/// A random sub-pixel jitter in `[-1/2, 1/2]` units.
fn jitter() -> (j: i64)
    ensures
        -32768 <= j <= 32768,
{
    let x: u64 = crate::primitives::random_u64() % 65537;
    (x as i64) - 32768
}

impl Tracer {
    /// One frame's color for pixel `pos`: the camera ray through the
    /// jittered pixel center traced at the bounce limit, folded into the
    /// stored running mean for that pixel.
    pub fn sample_pixel(&self, pos: usize) -> (c: Color)
        requires
            self.wf(),
        ensures
            is_pixel_sample(*self, pos as int, c.m()),
    {
        proof {
            assert(self.side * self.side <= 4096 * 4096) by (nonlinear_arith)
                requires
                    self.side <= 4096,
            ;
        }
        if self.side == 0 || pos >= self.side * self.side {
            return color::black();
        }
        let x = pos / self.side;
        let y = pos % self.side;
        proof {
            assert(x < self.side && y < self.side) by (nonlinear_arith)
                requires
                    x == pos as int / self.side as int,
                    y == pos as int % self.side as int,
                    0 < self.side,
                    pos < self.side * self.side,
            ;
        }
        let jx = jitter();
        let jy = jitter();
        let xf: i64 = (x as i64) * 65536 + jx;
        let yf: i64 = (y as i64) * 65536 + jy;
        let scr: i64 = (self.side as i64) * 32768;
        proof {
            crate::fixed::lemma_fxdiv_s_half_bound(yf as int - scr as int, scr as int);
            crate::fixed::lemma_fxdiv_s_half_bound(xf as int - scr as int, scr as int);
        }
        let u = fxdiv(yf - scr, scr);
        let v = fxdiv(xf - scr, scr);
        let sample = self.get_pixel_color(u, v);
        proof {
            assert(RAD_UNIT as int * (REFLECTION_LIMIT as int + 2) <= SCREEN_MAX);
        }
        let c = blend(&self.screen[pos], self.frames, &sample);
        proof {
            let side = self.side as int;
            let posi = pos as int;
            assert(u as int == pixel_u_s(side, posi, jy as int));
            assert(v as int == pixel_v_s(side, posi, jx as int));
            assert(cam_ray_s(self.camera, u as int, v as int) == cam_ray_s(
                self.camera,
                pixel_u_s(side, posi, jy as int),
                pixel_v_s(side, posi, jx as int),
            ));
            assert(c.m() == blend_s(self.screen@[posi].m(), self.frames as int, sample.m()));
        }
        c
    }

    /// One parallel pass over every pixel.
    ///
    /// Relies on rayon's parallel iterator: `into_par_iter().map(f).collect()`
    /// over `0..n` yields one element per index, in index order, each the
    /// result of one `f` call; the stated per-element property is
    /// `sample_pixel`'s own (verified) postcondition.
    #[verifier::external_body]
    fn par_pixel_pass(&self, n: usize) -> (r: Vec<Color>)
        requires
            self.wf(),
            n == self.side * self.side,
        ensures
            r@.len() == n,
            forall|p: int| 0 <= p < n ==> #[trigger] is_pixel_sample(*self, p, r@[p].m()),
    {
        (0..n).into_par_iter().map(|pos| self.sample_pixel(pos)).collect()
    }

    /// Renders one frame: rebuilds the scene for time `t`, evaluates one
    /// jittered sample per pixel in parallel, folds the samples into the
    /// running per-pixel mean, advances the (saturating) frame counter, and
    /// overwrites `screen` with the quantized RGBA bytes of the new buffer.
    #[verifier::rlimit(100)]
    pub fn draw(&mut self, t: i64, screen: &mut Vec<u8>)
        requires
            old(self).wf(),
            old(screen).len() == 4 * old(self).side * old(self).side,
        ensures
            final(self).wf(),
            final(self).side == old(self).side,
            final(self).frames == if old(self).frames < FRAMES_CAP {
                old(self).frames + 1
            } else {
                old(self).frames as int
            },
            final(screen).len() == old(screen).len(),
            final(self).camera == scene_camera_s(),
            final(self).objects@ == scene_objects_s(),
            final(self).screen@.len() == final(self).side * final(self).side,
            forall|p: int|
                0 <= p < final(self).side * final(self).side ==> #[trigger] is_pixel_sample(
                    Tracer {
                        side: final(self).side,
                        camera: final(self).camera,
                        objects: final(self).objects,
                        screen: old(self).screen,
                        frames: old(self).frames,
                    },
                    p,
                    final(self).screen@[p].m(),
                ),
            forall|p: int|
                0 <= p < final(self).side * final(self).side ==> {
                    &&& final(screen)@[4 * p] == quantize_s(#[trigger] final(self).screen@[p].m().r)
                    &&& final(screen)@[4 * p + 1] == quantize_s(final(self).screen@[p].m().g)
                    &&& final(screen)@[4 * p + 2] == quantize_s(final(self).screen@[p].m().b)
                    &&& final(screen)@[4 * p + 3] == quantize_s(final(self).screen@[p].m().a)
                },
    {
        self.set_scene(t);
        proof {
            assert(self.side * self.side <= 4096 * 4096) by (nonlinear_arith)
                requires
                    self.side <= 4096,
            ;
        }
        let n = self.side * self.side;
        proof {
            assert(4 * self.side * self.side == 4 * n) by (nonlinear_arith)
                requires
                    n == self.side * self.side,
            ;
        }
        let ghost mid = *self;
        let fresh = self.par_pixel_pass(n);
        self.screen = fresh;
        if self.frames < FRAMES_CAP {
            self.frames = self.frames + 1;
        }
        proof {
            assert(mid == Tracer {
                side: self.side,
                camera: self.camera,
                objects: self.objects,
                screen: old(self).screen,
                frames: old(self).frames,
            });
            assert forall|q: int|
                0 <= q < n implies nonneg_c(#[trigger] self.screen@[q].m()) && bounded_c(
                self.screen@[q].m(),
                SCREEN_MAX as int,
            ) by {
                assert(is_pixel_sample(mid, q, self.screen@[q].m()));
            }
        }
        let mut p: usize = 0;
        while p < n
            invariant
                n == self.side * self.side,
                n <= 4096 * 4096,
                self.screen@.len() == n,
                screen@.len() == 4 * n,
                self.frames == if old(self).frames < FRAMES_CAP {
                    old(self).frames + 1
                } else {
                    old(self).frames as int
                },
                mid == (Tracer {
                    side: self.side,
                    camera: self.camera,
                    objects: self.objects,
                    screen: old(self).screen,
                    frames: old(self).frames,
                }),
                self.camera == scene_camera_s(),
                self.objects@ == scene_objects_s(),
                forall|q: int| 0 <= q < n ==> #[trigger] is_pixel_sample(mid, q, self.screen@[q].m()),
                forall|q: int|
                    0 <= q < self.screen@.len() ==> nonneg_c(#[trigger] self.screen@[q].m())
                        && bounded_c(self.screen@[q].m(), SCREEN_MAX as int),
                p <= n,
                forall|q: int|
                    0 <= q < p ==> {
                        &&& screen@[4 * q] == quantize_s(#[trigger] self.screen@[q].m().r)
                        &&& screen@[4 * q + 1] == quantize_s(self.screen@[q].m().g)
                        &&& screen@[4 * q + 2] == quantize_s(self.screen@[q].m().b)
                        &&& screen@[4 * q + 3] == quantize_s(self.screen@[q].m().a)
                    },
            decreases n - p,
        {
            let px = self.screen[p].into_u8();
            screen.set(4 * p, px[0]);
            screen.set(4 * p + 1, px[1]);
            screen.set(4 * p + 2, px[2]);
            screen.set(4 * p + 3, px[3]);
            p += 1;
        }
    }
}

} // verus!
