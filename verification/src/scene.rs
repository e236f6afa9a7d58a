//! The scene provider: a camera and the object list for a given animation
//! time.
//!
//! The scene holds the camera on a diagonal above the scene, a triangular
//! prism at a fixed pose (its phase angles pre-evaluated in fixed point),
//! a mirror and diffuse sphere arrangement, a two-triangle ground plane, and
//! large emissive spheres standing in for lights.

use vstd::prelude::*;
use crate::color;
use crate::color::{color_of, rgb_s, C4};
use crate::primitives::{
    wf_camera, wf_material, wf_object, Camera, Material, Object3d, Sphere, Triangle,
};
use crate::vec3::{neg_v, normalize_v, cross_v, vec_of, Vec3, V3};

verus! {

/// The camera position of every frame.
pub open spec fn cam_pos_v() -> V3 {
    V3 { x: 262144, y: 262144, z: 262144 }
}

/// The viewing direction: from the camera position toward the origin.
pub open spec fn cam_dir_v() -> V3 {
    neg_v(normalize_v(cam_pos_v()))
}

/// The first image-plane axis, orthogonal to the view and the vertical.
pub open spec fn cam_base1_v() -> V3 {
    neg_v(normalize_v(cross_v(V3 { x: 0, y: 0, z: 65536 }, cam_dir_v())))
}

/// The second image-plane axis, completing the frame.
pub open spec fn cam_base2_v() -> V3 {
    normalize_v(cross_v(cam_dir_v(), cam_base1_v()))
}

/// The camera the provider returns, as a value.
pub open spec fn scene_camera_s() -> Camera {
    Camera {
        pos: vec_of(cam_pos_v()),
        dir: vec_of(cam_dir_v()),
        base1: vec_of(cam_base1_v()),
        base2: vec_of(cam_base2_v()),
    }
}

/// A material value from its channel quadruples and weights.
pub open spec fn mat_s(color: C4, met: int, emi: int, ec: C4) -> Material {
    Material {
        color: color_of(color),
        metallicity: met as i64,
        emitting: emi as i64,
        emitting_color: color_of(ec),
    }
}

/// A sphere object from its raw coordinates.
pub open spec fn sphere_s(x: int, y: int, z: int, rad: int, mat: Material) -> Object3d {
    Object3d::Sphere(Sphere { pos: vec_of(V3 { x, y, z }), rad: rad as i64, mat })
}

/// A triangle object from its raw vertices.
pub open spec fn triangle_s(v0: V3, v1: V3, v2: V3, mat: Material) -> Object3d {
    Object3d::Triangle(Triangle { v0: vec_of(v0), v1: vec_of(v1), v2: vec_of(v2), mat })
}

/// The sixteen objects the provider returns, in scan order, as values: the
/// scene is deterministic and independent of the time argument.
pub open spec fn scene_objects_s() -> Seq<Object3d> {
    seq![
        sphere_s(196608, -196608, 45875, 45875, mat_s(rgb_s(255, 203, 0), 0, 45875, rgb_s(255, 161, 0))),
        sphere_s(-196608, 196608, 65536, 65536, mat_s(rgb_s(135, 60, 190), 0, 32768, rgb_s(0, 158, 47))),
        sphere_s(131072, 163840, -65536, 32768, mat_s(rgb_s(255, 255, 255), 0, 0, rgb_s(0, 0, 0))),
        sphere_s(65536, 131072, -32768, 65536, mat_s(rgb_s(102, 191, 255), 0, 32768, rgb_s(200, 122, 255))),
        sphere_s(-98304, 176947, -45875, 58982, mat_s(rgb_s(200, 122, 255), 65536, 0, rgb_s(0, 0, 0))),
        sphere_s(-131072, -262144, -45875, 196608, mat_s(rgb_s(245, 245, 245), 65536, 0, rgb_s(0, 0, 0))),
        sphere_s(-655360, -524288, 327680, 327680, mat_s(rgb_s(245, 245, 245), 65536, 0, rgb_s(0, 0, 0))),
        triangle_s(
            V3 { x: 0, y: 0, z: 227023 },
            V3 { x: 110293, y: 70819, z: 0 },
            V3 { x: 6184, y: -130926, z: 0 },
            mat_s(rgb_s(255, 255, 255), 45875, 0, rgb_s(0, 0, 0)),
        ),
        triangle_s(
            V3 { x: 0, y: 0, z: 227023 },
            V3 { x: 6184, y: -130926, z: 0 },
            V3 { x: -116477, y: 60108, z: 0 },
            mat_s(rgb_s(255, 255, 255), 45875, 0, rgb_s(0, 0, 0)),
        ),
        triangle_s(
            V3 { x: 0, y: 0, z: 227023 },
            V3 { x: -116477, y: 60108, z: 0 },
            V3 { x: 110293, y: 70819, z: 0 },
            mat_s(rgb_s(255, 255, 255), 45875, 0, rgb_s(0, 0, 0)),
        ),
        triangle_s(
            V3 { x: -116477, y: 60108, z: 0 },
            V3 { x: 6184, y: -130926, z: 0 },
            V3 { x: 110293, y: 70819, z: 0 },
            mat_s(rgb_s(255, 255, 255), 45875, 0, rgb_s(0, 0, 0)),
        ),
        triangle_s(
            V3 { x: 327680, y: 327680, z: -65536 },
            V3 { x: 327680, y: -327680, z: -65536 },
            V3 { x: -327680, y: -327680, z: -65536 },
            mat_s(rgb_s(200, 122, 255), 58982, 0, rgb_s(0, 0, 0)),
        ),
        triangle_s(
            V3 { x: -327680, y: -327680, z: -65536 },
            V3 { x: -327680, y: 327680, z: -65536 },
            V3 { x: 327680, y: 327680, z: -65536 },
            mat_s(rgb_s(200, 122, 255), 58982, 0, rgb_s(0, 0, 0)),
        ),
        sphere_s(0, 0, 1638400, 655360, mat_s(rgb_s(0, 0, 0), 0, 65536, rgb_s(0, 121, 241))),
        sphere_s(1638400, -1638400, 0, 1638400, mat_s(rgb_s(0, 0, 0), 0, 65536, rgb_s(0, 228, 48))),
        sphere_s(-1638400, 1638400, 0, 1638400, mat_s(rgb_s(0, 0, 0), 0, 65536, rgb_s(230, 41, 55))),
    ]
}

/// The camera of every frame: placed at `(4, 4, 4)`, looking at the origin,
/// with an image plane spanned by two unit vectors orthogonal to the view.
fn construct_camera() -> (c: Camera)
    ensures
        wf_camera(c),
        c == scene_camera_s(),
{
    let pos = Vec3 { x: 262144, y: 262144, z: 262144 };
    let dir = pos.normalize().neg();
    let base0 = Vec3 { x: 0, y: 0, z: 65536 };
    proof {
        crate::vec3::lemma_cross_v_bound(base0.m(), dir.m(), 131072, 131072, 262144);
        assert(131072int * 131072 == 262144int * 65536);
    }
    let base1 = base0.cross(&dir).normalize().neg();
    proof {
        crate::vec3::lemma_cross_v_bound(dir.m(), base1.m(), 131072, 131072, 262144);
    }
    let base2 = dir.cross(&base1).normalize();
    proof {
        assert(dir == vec_of(dir.m()) && base1 == vec_of(base1.m()) && base2 == vec_of(
            base2.m(),
        ));
    }
    Camera::from(pos, dir, base1, base2)
}

/// One diffuse or emissive sphere of the standing arrangement.
fn sphere_obj(x: i64, y: i64, z: i64, rad: i64, mat: Material) -> (o: Object3d)
    requires
        -0x100_0000 <= x <= 0x100_0000,
        -0x100_0000 <= y <= 0x100_0000,
        -0x100_0000 <= z <= 0x100_0000,
        0 < rad <= 0x100_0000,
        wf_material(mat),
    ensures
        wf_object(o),
        o == sphere_s(x as int, y as int, z as int, rad as int, mat),
{
    Object3d::Sphere(Sphere::from(Vec3 { x, y, z }, rad, mat))
}

/// One face of the prism or the ground.
fn triangle_obj(v0: Vec3, v1: Vec3, v2: Vec3, mat: Material) -> (o: Object3d)
    requires
        crate::vec3::bounded_v(v0.m(), 0x100_0000),
        crate::vec3::bounded_v(v1.m(), 0x100_0000),
        crate::vec3::bounded_v(v2.m(), 0x100_0000),
        wf_material(mat),
    ensures
        wf_object(o),
        o == triangle_s(v0.m(), v1.m(), v2.m(), mat),
{
    Object3d::Triangle(Triangle::from(v0, v1, v2, mat))
}

/// The objects of the scene at animation time `t`.  The pose is static: the
/// prism stands at its fixed phase, whatever the time.
fn construct_objects(_t: i64) -> (objs: Vec<Object3d>)
    ensures
        objs@ == scene_objects_s(),
        forall|i: int| 0 <= i < objs@.len() ==> wf_object(#[trigger] objs@[i]),
{
    // the prism's base corners at phase angles one radian apart by a third
    // of a turn, and its apex
    let top = Vec3 { x: 0, y: 0, z: 227023 };
    let b1 = Vec3 { x: 110293, y: 70819, z: 0 };
    let b2 = Vec3 { x: 6184, y: -130926, z: 0 };
    let b3 = Vec3 { x: -116477, y: 60108, z: 0 };

    let white_mirror = Material::from(color::white(), 45875, 0, color::black());
    let ground_mat = Material::from(color::purple(), 58982, 0, color::black());

    let mut objs: Vec<Object3d> = Vec::new();
    // emissive spheres among the arrangement
    objs.push(
        sphere_obj(
            196608,
            -196608,
            45875,
            45875,
            Material::from(color::gold(), 0, 45875, color::orange()),
        ),
    );
    objs.push(
        sphere_obj(
            -196608,
            196608,
            65536,
            65536,
            Material::from(color::violet(), 0, 32768, color::lime()),
        ),
    );
    // diffuse and mirror spheres
    objs.push(
        sphere_obj(
            131072,
            163840,
            -65536,
            32768,
            Material::from(color::white(), 0, 0, color::black()),
        ),
    );
    objs.push(
        sphere_obj(
            65536,
            131072,
            -32768,
            65536,
            Material::from(color::skyblue(), 0, 32768, color::purple()),
        ),
    );
    objs.push(
        sphere_obj(
            -98304,
            176947,
            -45875,
            58982,
            Material::from(color::purple(), 65536, 0, color::black()),
        ),
    );
    objs.push(
        sphere_obj(
            -131072,
            -262144,
            -45875,
            196608,
            Material::from(color::raywhite(), 65536, 0, color::black()),
        ),
    );
    objs.push(
        sphere_obj(
            -655360,
            -524288,
            327680,
            327680,
            Material::from(color::raywhite(), 65536, 0, color::black()),
        ),
    );
    // the prism
    objs.push(triangle_obj(top, b1, b2, white_mirror));
    objs.push(triangle_obj(top, b2, b3, white_mirror));
    objs.push(triangle_obj(top, b3, b1, white_mirror));
    objs.push(triangle_obj(b3, b2, b1, white_mirror));
    // the ground
    objs.push(
        triangle_obj(
            Vec3 { x: 327680, y: 327680, z: -65536 },
            Vec3 { x: 327680, y: -327680, z: -65536 },
            Vec3 { x: -327680, y: -327680, z: -65536 },
            ground_mat,
        ),
    );
    objs.push(
        triangle_obj(
            Vec3 { x: -327680, y: -327680, z: -65536 },
            Vec3 { x: -327680, y: 327680, z: -65536 },
            Vec3 { x: 327680, y: 327680, z: -65536 },
            ground_mat,
        ),
    );
    // distant emissive spheres acting as area lights
    objs.push(
        sphere_obj(
            0,
            0,
            1638400,
            655360,
            Material::from(color::black(), 0, 65536, color::blue()),
        ),
    );
    objs.push(
        sphere_obj(
            1638400,
            -1638400,
            0,
            1638400,
            Material::from(color::black(), 0, 65536, color::green()),
        ),
    );
    objs.push(
        sphere_obj(
            -1638400,
            1638400,
            0,
            1638400,
            Material::from(color::black(), 0, 65536, color::red()),
        ),
    );
    proof {
        assert(objs@ =~= scene_objects_s());
    }
    objs
}

/// The scene at animation time `t`: the camera and the object list.
pub fn construct_scene(t: i64) -> (scene: (Camera, Vec<Object3d>))
    ensures
        wf_camera(scene.0),
        scene.0 == scene_camera_s(),
        scene.1@ == scene_objects_s(),
        scene.1@.len() == 16,
        forall|i: int| 0 <= i < scene.1@.len() ==> wf_object(#[trigger] scene.1@[i]),
{
    (construct_camera(), construct_objects(t))
}

} // verus!
