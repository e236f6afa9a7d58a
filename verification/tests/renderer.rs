use pathtracer::color::{black, skyblue, white, Color};
use pathtracer::fixed::{clamp, fx_sqrt, fxdiv, fxmul, FP_ONE};
use pathtracer::primitives::{Camera, Material, Object3d, Ray, Sphere, Triangle, NO_HIT};
use pathtracer::scene::construct_scene;
use pathtracer::tracer::{Tracer, FRAMES_CAP, REFLECTION_LIMIT, SCREEN_MAX};
use pathtracer::vec3::Vec3;

fn unit(x: i64) -> i64 {
    x * FP_ONE
}

fn red_diffuse() -> Material {
    Material::from(
        Color::from_rgb8(230, 41, 55),
        0,
        0,
        black(),
    )
}

fn origin_sphere(rad: i64) -> Sphere {
    Sphere::from(Vec3::new(0, 0, 0), rad, red_diffuse())
}

/// A camera on the positive first axis, looking back at the origin, with an
/// exactly-unit basis.
fn axis_camera() -> Camera {
    Camera::from(
        Vec3::new(unit(4), 0, 0),
        Vec3::new(-FP_ONE, 0, 0),
        Vec3::new(0, FP_ONE, 0),
        Vec3::new(0, 0, FP_ONE),
    )
}

fn tracer_with(objects: Vec<Object3d>) -> Tracer {
    Tracer {
        side: 2,
        camera: axis_camera(),
        objects,
        screen: vec![black(); 4],
        frames: 0,
    }
}

#[test]
fn fixed_point_arithmetic_exact() {
    assert_eq!(fxmul(unit(3), unit(4)), unit(12));
    assert_eq!(fxmul(-unit(3), unit(4)), -unit(12));
    assert_eq!(fxmul(98304, 98304), 147456); // 1.5 * 1.5 == 2.25
    assert_eq!(fxdiv(unit(12), unit(4)), unit(3));
    assert_eq!(fxdiv(unit(1), unit(2)), 32768);
    assert_eq!(fxdiv(-unit(1), unit(2)), -32768);
    assert_eq!(fx_sqrt(unit(4)), unit(2));
    assert_eq!(fx_sqrt(unit(1)), unit(1));
    assert_eq!(fx_sqrt(0), 0);
    assert_eq!(clamp(300, 0, 255), 255);
    assert_eq!(clamp(-7, 0, 255), 0);
}

#[test]
fn vector_ops_exact() {
    let a = Vec3::new(unit(1), unit(2), unit(3));
    let b = Vec3::new(unit(4), unit(5), unit(6));
    assert_eq!(a.dot(&b), unit(32));
    let c = a.cross(&b);
    assert_eq!(c, Vec3::new(-unit(3), unit(6), -unit(3)));
    let n = Vec3::new(0, 0, unit(7)).normalize();
    assert_eq!(n, Vec3::new(0, 0, FP_ONE));
    let s = a.scale(unit(2));
    assert_eq!(s, Vec3::new(unit(2), unit(4), unit(6)));
}

#[test]
fn quantization_exact() {
    let c = Color::new(FP_ONE, 32768, 0, FP_ONE);
    assert_eq!(c.into_u8(), [255, 127, 0, 255]);
    let over = Color::new(2 * FP_ONE, -5, 655360, FP_ONE);
    assert_eq!(over.into_u8(), [255, 0, 255, 255]);
}

#[test]
fn palette_channels_exact() {
    let sky = skyblue();
    assert_eq!(sky, Color::new(26214, 49087, 65536, 65536));
    assert_eq!(black(), Color::new(0, 0, 0, 65536));
    assert_eq!(white(), Color::new(65536, 65536, 65536, 65536));
}

#[test]
fn emitted_radiance_exact() {
    let m = Material::from(black(), 0, 32768, white());
    assert_eq!(m.emitted(), Color::new(32768, 32768, 32768, 32768));
    let dark = Material::from(white(), 0, 0, white());
    assert_eq!(dark.emitted(), Color::new(0, 0, 0, 0));
    // emission strength may exceed one unit
    let bright = Material::from(black(), 0, 4 * FP_ONE, white());
    assert_eq!(bright.emitted(), Color::new(4 * FP_ONE, 4 * FP_ONE, 4 * FP_ONE, 4 * FP_ONE));
}

// A ray that starts outside the sphere and heads at its center enters and
// leaves in front of its origin: the first hit is the near surface.
#[test]
fn sphere_outside_hit_has_two_positive_roots() {
    let s = origin_sphere(FP_ONE);
    let toward = Ray::from(Vec3::new(unit(4), 0, 0), Vec3::new(-FP_ONE, 0, 0));
    assert!(s.intersects(&toward));
    assert_eq!(s.get_t(&toward), unit(3));
}

// A ray that starts inside the sphere exits through exactly one positive
// parameter.
#[test]
fn sphere_inside_hit_has_one_positive_root() {
    let s = origin_sphere(FP_ONE);
    let from_center = Ray::from(Vec3::new(0, 0, 0), Vec3::new(FP_ONE, 0, 0));
    assert!(s.intersects(&from_center));
    assert_eq!(s.get_t(&from_center), unit(1));
}

#[test]
fn sphere_miss_reports_sentinel() {
    let s = origin_sphere(FP_ONE);
    let away = Ray::from(Vec3::new(unit(4), 0, 0), Vec3::new(FP_ONE, 0, 0));
    assert!(!s.intersects(&away));
    assert_eq!(s.get_t(&away), NO_HIT);
    let aside = Ray::from(Vec3::new(unit(4), 0, 0), Vec3::new(0, FP_ONE, 0));
    assert!(!s.intersects(&aside));
    assert_eq!(s.get_t(&aside), NO_HIT);
}

fn wall_triangle() -> Triangle {
    // a triangle in the plane two units along the first axis
    Triangle::from(
        Vec3::new(unit(2), -unit(1), -unit(1)),
        Vec3::new(unit(2), unit(1), -unit(1)),
        Vec3::new(unit(2), 0, unit(1)),
        red_diffuse(),
    )
}

// A ray through the triangle's interior intersects, at the exact plane
// parameter.
#[test]
fn triangle_interior_hit() {
    let t = wall_triangle();
    let through = Ray::from(Vec3::new(0, 0, 0), Vec3::new(FP_ONE, 0, 0));
    assert!(t.intersects(&through));
    assert_eq!(t.get_t(&through), unit(2));
}

// A ray that still meets the triangle's plane, but at a point outside the
// edges, does not intersect.
#[test]
fn triangle_outside_point_misses() {
    let t = wall_triangle();
    let outside = Ray::from(
        Vec3::new(0, 58982, 58982), // aimed at (2, 0.9, 0.9): beyond the slanted edges
        Vec3::new(FP_ONE, 0, 0),
    );
    assert!(!t.intersects(&outside));
    assert_eq!(t.get_t(&outside), NO_HIT);
    let parallel = Ray::from(Vec3::new(0, 0, 0), Vec3::new(0, FP_ONE, 0));
    assert!(!t.intersects(&parallel));
}

// A ray aimed at the centroid of a tilted triangle intersects.
#[test]
fn triangle_centroid_hit() {
    let t = Triangle::from(
        Vec3::new(unit(3), -unit(2), -unit(1)),
        Vec3::new(unit(2), unit(2), -unit(1)),
        Vec3::new(unit(4), 0, unit(2)),
        red_diffuse(),
    );
    // centroid of the vertices: (3, 0, 0)
    let at_centroid = Ray::from(Vec3::new(0, 0, 0), Vec3::new(FP_ONE, 0, 0));
    assert!(t.intersects(&at_centroid));
    assert!(t.get_t(&at_centroid) > 0);
}

// Casting into an empty scene returns exactly the sky color.
#[test]
fn empty_scene_returns_sky() {
    let tracer = tracer_with(vec![]);
    let ray = Ray::from(Vec3::new(0, 0, 0), Vec3::new(FP_ONE, 0, 0));
    for depth in 0..=REFLECTION_LIMIT {
        assert_eq!(tracer.cast_ray(&ray, depth), skyblue());
    }
}

// A ray that misses every object returns exactly the sky color.
#[test]
fn miss_returns_sky() {
    let tracer = tracer_with(vec![Object3d::Sphere(origin_sphere(FP_ONE))]);
    let ray = Ray::from(Vec3::new(unit(4), 0, 0), Vec3::new(FP_ONE, 0, 0));
    for depth in 0..=REFLECTION_LIMIT {
        assert_eq!(tracer.cast_ray(&ray, depth), skyblue());
    }
}

// With every surface passive (no emission, albedo at most one), the gathered
// radiance never exceeds the sky in any channel, at any depth.
#[test]
fn passive_scene_never_amplifies_sky() {
    let objects = vec![
        Object3d::Sphere(origin_sphere(FP_ONE)),
        Object3d::Sphere(Sphere::from(
            Vec3::new(0, unit(2), 0),
            FP_ONE,
            Material::from(white(), FP_ONE, 0, black()),
        )),
        Object3d::Triangle(wall_triangle()),
    ];
    let tracer = tracer_with(objects);
    let sky = skyblue();
    let rays = [
        Ray::from(Vec3::new(unit(4), 0, 0), Vec3::new(-FP_ONE, 0, 0)),
        Ray::from(Vec3::new(0, 0, 0), Vec3::new(FP_ONE, 0, 0)),
        Ray::from(Vec3::new(0, -unit(3), 0), Vec3::new(0, FP_ONE, 0)),
    ];
    for depth in 0..=REFLECTION_LIMIT {
        for ray in &rays {
            let c = tracer.cast_ray(ray, depth);
            assert!(c.r >= 0 && c.g >= 0 && c.b >= 0 && c.a >= 0);
            assert!(c.r <= sky.r && c.g <= sky.g && c.b <= sky.b && c.a <= sky.a);
        }
    }
}

// The concrete scenario: one fully diffuse red unit sphere at the origin, the
// camera on the positive first axis looking at it.  The center ray at bounce
// limit zero strikes the silhouette and returns a non-background color; a ray
// through a far image corner misses and returns exactly the background.
#[test]
fn center_hits_corner_misses() {
    let tracer = tracer_with(vec![Object3d::Sphere(origin_sphere(FP_ONE))]);
    let center = tracer.camera.get_ray(0, 0);
    let hit_color = tracer.cast_ray(&center, 0);
    assert_ne!(hit_color, skyblue());
    let corner = tracer.camera.get_ray(2 * FP_ONE, 2 * FP_ONE);
    let miss_color = tracer.cast_ray(&corner, 0);
    assert_eq!(miss_color, skyblue());
}

#[test]
fn fresh_tracer_is_black() {
    let t = Tracer::from(8);
    assert_eq!(t.side, 8);
    assert_eq!(t.frames, 0);
    assert_eq!(t.screen.len(), 64);
    for c in &t.screen {
        assert_eq!(*c, black());
    }
}

// The provider is deterministic: equal times give identical scenes, and the
// scene is in fact independent of the time.
#[test]
fn scene_provider_deterministic() {
    let (camera, objects) = construct_scene(0);
    assert_eq!(objects.len(), 16);
    let (c2, o2) = construct_scene(131072);
    assert_eq!(camera, c2);
    assert_eq!(objects, o2);
}

// Each frame overwrites the byte buffer with the quantization of the
// accumulated pixels, and advances the saturating frame counter.
#[test]
fn draw_quantizes_accumulated_buffer() {
    let side = 4usize;
    let mut tracer = Tracer::from(side);
    let mut bytes = vec![0u8; 4 * side * side];
    tracer.draw(0, &mut bytes);
    assert_eq!(tracer.frames, 1);
    assert_eq!(bytes.len(), 4 * side * side);
    for p in 0..side * side {
        let px = tracer.screen[p].into_u8();
        assert_eq!(&bytes[4 * p..4 * p + 4], &px[..]);
        assert!(tracer.screen[p].r >= 0 && tracer.screen[p].r <= SCREEN_MAX);
    }
    tracer.draw(3277, &mut bytes);
    assert_eq!(tracer.frames, 2);
    assert!(tracer.frames <= FRAMES_CAP);
}

// Repeated frames of the same static scene move each accumulated pixel by at
// most SCREEN_MAX / (n + 1) plus one rounding unit: the running average's
// frame-to-frame delta shrinks as frames accumulate.
#[test]
fn accumulation_converges() {
    let side = 4usize;
    let mut tracer = Tracer::from(side);
    let mut bytes = vec![0u8; 4 * side * side];
    for frame in 0..40u64 {
        let before = tracer.screen.clone();
        tracer.draw(0, &mut bytes);
        let allowed = SCREEN_MAX / (frame as i64 + 1) + 1;
        for p in 0..side * side {
            let delta_r = (tracer.screen[p].r - before[p].r).abs();
            let delta_g = (tracer.screen[p].g - before[p].g).abs();
            let delta_b = (tracer.screen[p].b - before[p].b).abs();
            assert!(delta_r <= allowed && delta_g <= allowed && delta_b <= allowed);
        }
    }
}

// The camera ray through the image center is exactly the forward direction.
#[test]
fn camera_center_ray_exact() {
    let cam = axis_camera();
    let r = cam.get_ray(0, 0);
    assert_eq!(r.pos, Vec3::new(unit(4), 0, 0));
    assert_eq!(r.dir, Vec3::new(-FP_ONE, 0, 0));
}

// The scattered ray off a fully metallic surface is the exact mirror
// reflection, with its origin pulled just short of the hit point.
#[test]
fn metallic_bounce_is_mirror() {
    let mirror = Sphere::from(
        Vec3::new(0, 0, 0),
        FP_ONE,
        Material::from(white(), FP_ONE, 0, black()),
    );
    let ray = Ray::from(Vec3::new(unit(4), 0, 0), Vec3::new(-FP_ONE, 0, 0));
    let next = mirror.get_next_ray(&ray);
    // hit at parameter three; origin offset back along the ray
    assert_eq!(next.pos, Vec3::new(FP_ONE + 66, 0, 0));
    // head-on reflection turns the ray straight back along the first axis
    assert!(next.dir.x > 60000);
    assert_eq!(next.dir.y, 0);
    assert_eq!(next.dir.z, 0);
}
