use raycast::Hitable;
use raycast::Material;
use raycast::Plane;
use raycast::Point;
use raycast::Ray;
use raycast::Sphere;
use raycast::Vec3;
use raycast::SCALE;

fn gray() -> Material {
    Material {
        color: Vec3 {
            x: 5000,
            y: 5000,
            z: 5000,
        },
    }
}

#[test]
fn sphere_center_shot_hits_at_distance_minus_radius() {
    // A unit ray straight at a sphere centered 50 units ahead, radius 15:
    // the hit parameter is exactly 35 units.
    let ray = Ray::new(
        Point { x: 0, y: 0, z: 0 },
        Vec3 {
            x: 0,
            y: 0,
            z: -SCALE,
        },
    );
    let s = Sphere {
        center: Point {
            x: 0,
            y: 0,
            z: -50 * SCALE,
        },
        radius: 15 * SCALE,
        material: gray(),
    };
    assert_eq!(s.hit(&ray), Some(35 * SCALE as i128));
}

#[test]
fn sphere_behind_ray_misses() {
    // Same sphere placed 50 units behind the ray origin.
    let ray = Ray::new(
        Point { x: 0, y: 0, z: 0 },
        Vec3 {
            x: 0,
            y: 0,
            z: -SCALE,
        },
    );
    let s = Sphere {
        center: Point {
            x: 0,
            y: 0,
            z: 50 * SCALE,
        },
        radius: 15 * SCALE,
        material: gray(),
    };
    assert_eq!(s.hit(&ray), None);
}

#[test]
fn sphere_zero_direction_misses() {
    let ray = Ray::new(Point { x: 0, y: 0, z: 0 }, Vec3 { x: 0, y: 0, z: 0 });
    let s = Sphere {
        center: Point {
            x: 0,
            y: 0,
            z: -50 * SCALE,
        },
        radius: 15 * SCALE,
        material: gray(),
    };
    assert_eq!(s.hit(&ray), None);
}

#[test]
fn sphere_origin_inside_returns_far_root() {
    // Origin at the center: both roots are +/- radius; only the far root is
    // ahead of the ray.
    let ray = Ray::new(
        Point { x: 0, y: 0, z: 0 },
        Vec3 {
            x: 0,
            y: 0,
            z: -SCALE,
        },
    );
    let s = Sphere {
        center: Point { x: 0, y: 0, z: 0 },
        radius: 15 * SCALE,
        material: gray(),
    };
    assert_eq!(s.hit(&ray), Some(15 * SCALE as i128));
}

#[test]
fn plane_parallel_ray_misses_at_any_offset() {
    let pl = Plane {
        point: Point {
            x: 0,
            y: 0,
            z: -30 * SCALE,
        },
        normal: Vec3 {
            x: 0,
            y: 0,
            z: -SCALE,
        },
        material: gray(),
    };
    for offset in [-7 * SCALE, 0, 3 * SCALE, 12345] {
        let ray = Ray::new(
            Point {
                x: 0,
                y: offset,
                z: 0,
            },
            Vec3 {
                x: SCALE,
                y: 0,
                z: 0,
            },
        );
        assert_eq!(pl.hit(&ray), None, "offset {offset}");
    }
}

#[test]
fn plane_head_on_hit_parameter() {
    // Plane through the origin facing the ray, origin 50 units before it.
    let pl = Plane {
        point: Point { x: 0, y: 0, z: 0 },
        normal: Vec3 {
            x: 0,
            y: 0,
            z: -SCALE,
        },
        material: gray(),
    };
    let ray = Ray::new(
        Point {
            x: 0,
            y: 0,
            z: 50 * SCALE,
        },
        Vec3 {
            x: 0,
            y: 0,
            z: -SCALE,
        },
    );
    assert_eq!(pl.hit(&ray), Some(50 * SCALE as i128));
}

#[test]
fn plane_behind_ray_misses() {
    let pl = Plane {
        point: Point { x: 0, y: 0, z: 0 },
        normal: Vec3 {
            x: 0,
            y: 0,
            z: -SCALE,
        },
        material: gray(),
    };
    let ray = Ray::new(
        Point {
            x: 0,
            y: 0,
            z: -50 * SCALE,
        },
        Vec3 {
            x: 0,
            y: 0,
            z: -SCALE,
        },
    );
    assert_eq!(pl.hit(&ray), None);
}

#[test]
fn ray_point_at_parameter() {
    let ray = Ray::new(
        Point {
            x: SCALE,
            y: 0,
            z: 0,
        },
        Vec3 {
            x: 0,
            y: 0,
            z: -SCALE,
        },
    );
    let pt = ray.t(2 * SCALE as i128);
    assert_eq!((pt.x, pt.y, pt.z), (SCALE, 0, -2 * SCALE));
}

#[test]
fn ray_default_is_degenerate() {
    let ray = Ray::default();
    assert_eq!((ray.p.x, ray.p.y, ray.p.z), (0, 0, 0));
    assert_eq!((ray.v.x, ray.v.y, ray.v.z), (0, 0, 0));
}

#[test]
fn zero_point_is_origin() {
    let p = raycast::zero_point();
    assert_eq!((p.x, p.y, p.z), (0, 0, 0));
}

#[test]
fn isqrt_and_floor_div_values() {
    assert_eq!(raycast::isqrt(0), 0);
    assert_eq!(raycast::isqrt(123456789), 11111);
    assert_eq!(raycast::isqrt(16), 4);
    assert_eq!(raycast::isqrt(15), 3);
    assert_eq!(raycast::floor_div(-7, 2), -4);
    assert_eq!(raycast::floor_div(7, 2), 3);
    assert_eq!(raycast::floor_div(-8, 2), -4);
}
