use raycast::recreate_buffer;
use raycast::AnySampler;
use raycast::Caster;
use raycast::Material;
use raycast::Point;
use raycast::Primitive;
use raycast::Ray;
use raycast::RegularSampler;
use raycast::SimpleSampler;
use raycast::Sphere;
use raycast::Tracer;
use raycast::Vec3;
use raycast::ViewPlane;
use raycast::World;
use raycast::SCALE;

fn colored(x: i64, y: i64, z: i64) -> Material {
    Material {
        color: Vec3 { x, y, z },
    }
}

fn sphere_at_z(z_units: i64, radius_units: i64, m: Material) -> Primitive {
    Primitive::Sphere(Sphere {
        center: Point {
            x: 0,
            y: 0,
            z: z_units * SCALE,
        },
        radius: radius_units * SCALE,
        material: m,
    })
}

fn two_sphere_world(first: Primitive, second: Primitive) -> World {
    World {
        view_plane: ViewPlane {
            hres: 1,
            vres: 1,
            pixel_size: SCALE,
            z: 1000000,
        },
        objects: vec![first, second],
        background_color: Vec3 {
            x: 5000,
            y: 5000,
            z: 5000,
        },
    }
}

fn axis_ray() -> Ray {
    Ray::new(
        Point { x: 0, y: 0, z: 0 },
        Vec3 {
            x: 0,
            y: 0,
            z: -SCALE,
        },
    )
}

#[test]
fn nearest_hit_wins_whatever_the_scene_order() {
    let near = sphere_at_z(-30, 10, colored(10000, 0, 0));
    let far = sphere_at_z(-60, 10, colored(0, 10000, 0));
    let caster = Caster {
        sampler: AnySampler::Simple(SimpleSampler),
    };
    let c1 = caster.cast_ray(&two_sphere_world(near, far), &axis_ray());
    let c2 = caster.cast_ray(&two_sphere_world(far, near), &axis_ray());
    assert_eq!((c1.x, c1.y, c1.z), (10000, 0, 0));
    assert_eq!((c2.x, c2.y, c2.z), (10000, 0, 0));
}

#[test]
fn equal_hits_resolve_to_the_first_in_scene_order() {
    let red = sphere_at_z(-30, 10, colored(10000, 0, 0));
    let green = sphere_at_z(-30, 10, colored(0, 10000, 0));
    let caster = Caster {
        sampler: AnySampler::Simple(SimpleSampler),
    };
    let c = caster.cast_ray(&two_sphere_world(red, green), &axis_ray());
    assert_eq!((c.x, c.y, c.z), (10000, 0, 0));
    let c = caster.cast_ray(&two_sphere_world(green, red), &axis_ray());
    assert_eq!((c.x, c.y, c.z), (0, 10000, 0));
}

#[test]
fn miss_resolves_to_background() {
    let off_axis = Primitive::Sphere(Sphere {
        center: Point {
            x: 100 * SCALE,
            y: 0,
            z: -30 * SCALE,
        },
        radius: 10 * SCALE,
        material: colored(10000, 0, 0),
    });
    let caster = Caster {
        sampler: AnySampler::Simple(SimpleSampler),
    };
    let c = caster.cast_ray(&two_sphere_world(off_axis, off_axis), &axis_ray());
    assert_eq!((c.x, c.y, c.z), (5000, 5000, 5000));
}

#[test]
fn color_packing_truncates_and_clamps() {
    assert_eq!(
        raycast::color_to_u32(&Vec3 {
            x: 10000,
            y: 10000,
            z: 0
        }),
        0xFFFF00
    );
    assert_eq!(
        raycast::color_to_u32(&Vec3 {
            x: 5000,
            y: 5000,
            z: 5000
        }),
        0x7F7F7F
    );
    assert_eq!(
        raycast::color_to_u32(&Vec3 {
            x: 20000,
            y: -5,
            z: 10000
        }),
        0xFF00FF
    );
}

#[test]
fn projected_disc_hits_and_background_elsewhere() {
    // One sphere of radius 15 at the origin, seen from a 200 x 100 plane at
    // z = 50 with unit pixels: pixels inside the projected disc show the
    // sphere's color, pixels outside show the background.
    let world = World {
        view_plane: ViewPlane {
            hres: 200,
            vres: 100,
            pixel_size: SCALE,
            z: 50 * SCALE,
        },
        objects: vec![Primitive::Sphere(Sphere {
            center: Point { x: 0, y: 0, z: 0 },
            radius: 15 * SCALE,
            material: colored(10000, 0, 0),
        })],
        background_color: Vec3 {
            x: 5000,
            y: 5000,
            z: 5000,
        },
    };
    let mut buffer: Vec<u32> = vec![0; 200 * 100];
    let mut tracer = Tracer::Caster(Caster {
        sampler: AnySampler::Simple(SimpleSampler),
    });
    tracer.trace(&world, &mut buffer);
    // Pixel centers are at half-unit offsets from the image center; the
    // center pixel (100, 50) sits 0.7 units off axis, well inside the disc.
    assert_eq!(buffer[50 * 200 + 100], 0xFF0000);
    // 14 units off axis horizontally: still inside.
    assert_eq!(buffer[50 * 200 + 114], 0xFF0000);
    // 20 units off axis horizontally: outside the disc.
    assert_eq!(buffer[50 * 200 + 120], 0x7F7F7F);
    // A corner pixel is far outside.
    assert_eq!(buffer[0], 0x7F7F7F);
}

#[test]
fn tracing_twice_with_the_simple_sampler_is_bit_identical() {
    let world = World::demo();
    let (hr, vr) = world.get_resolution();
    let mut b1: Vec<u32> = vec![0; (hr * vr) as usize];
    let mut b2: Vec<u32> = vec![0; (hr * vr) as usize];
    let mut tracer = Tracer::Caster(Caster {
        sampler: AnySampler::Simple(SimpleSampler),
    });
    tracer.trace(&world, &mut b1);
    tracer.trace(&world, &mut b2);
    assert_eq!(b1, b2);
}

#[test]
fn regular_sampling_matches_simple_on_a_flat_region() {
    // Away from object edges every sub-sample resolves to the same color,
    // so averaging changes nothing.
    let world = World::demo();
    let (hr, vr) = world.get_resolution();
    let mut b1: Vec<u32> = vec![0; (hr * vr) as usize];
    let mut b2: Vec<u32> = vec![0; (hr * vr) as usize];
    let mut tracer = Tracer::Caster(Caster {
        sampler: AnySampler::Simple(SimpleSampler),
    });
    tracer.trace(&world, &mut b1);
    tracer.set_sampler(AnySampler::Regular(RegularSampler {
        sampler_window_size: 3,
    }));
    tracer.trace(&world, &mut b2);
    // The image center lands on the nearer demo sphere in both renders.
    let center = (vr / 2 * hr + hr / 2) as usize;
    assert_eq!(b1[center], b2[center]);
    assert_eq!(b1[0], b2[0]);
}

#[test]
fn demo_world_shape() {
    let world = World::demo();
    assert!(world.is_wf());
    assert_eq!(world.get_resolution(), (200, 200));
    assert_eq!(world.objects.len(), 3);
}

#[test]
fn world_mutations() {
    let mut world = World::demo();
    world.move_in_z(-10 * SCALE);
    assert_eq!(world.view_plane.z, 90 * SCALE);
    world.change_pixel_size(-5000);
    assert_eq!(world.view_plane.pixel_size, 5000);
    world.change_resolution(20000);
    assert_eq!(world.get_resolution(), (400, 400));
    world.change_resolution(5000);
    assert_eq!(world.get_resolution(), (200, 200));
    // Truncation: times 1.5 on an odd count rounds down.
    world.change_resolution(15000);
    assert_eq!(world.get_resolution(), (300, 300));
    world.change_resolution(5000);
    assert_eq!(world.get_resolution(), (150, 150));
    world.change_resolution(15000);
    assert_eq!(world.get_resolution(), (225, 225));
}

#[test]
fn recreate_buffer_resizes_and_zeroes_the_tail() {
    let mut buffer: Vec<u32> = vec![7, 8, 9];
    recreate_buffer(&mut buffer, (2, 3));
    assert_eq!(buffer, vec![7, 8, 9, 0, 0, 0]);
    recreate_buffer(&mut buffer, (2, 1));
    assert_eq!(buffer, vec![7, 8]);
    recreate_buffer(&mut buffer, (0, 5));
    assert_eq!(buffer, Vec::<u32>::new());
}

#[test]
fn sample_window_size_adjustment() {
    let mut tracer = Tracer::Caster(Caster {
        sampler: AnySampler::Regular(RegularSampler {
            sampler_window_size: 2,
        }),
    });
    // 4 samples + 2*2 = 8 requested: grid floor(sqrt(8)) = 2.
    tracer.increase_sample_window_size(2);
    match &tracer {
        Tracer::Caster(c) => match &c.sampler {
            AnySampler::Regular(r) => assert_eq!(r.sampler_window_size, 2),
            _ => panic!("sampler kind changed"),
        },
    }
    // 4 + 3*3 = 13 requested: grid floor(sqrt(13)) = 3.
    tracer.increase_sample_window_size(3);
    match &tracer {
        Tracer::Caster(c) => match &c.sampler {
            AnySampler::Regular(r) => assert_eq!(r.sampler_window_size, 3),
            _ => panic!("sampler kind changed"),
        },
    }
    // 9 - 2*2 = 5 requested: grid floor(sqrt(5)) = 2.
    tracer.decrease_sample_window_size(2);
    match &tracer {
        Tracer::Caster(c) => match &c.sampler {
            AnySampler::Regular(r) => assert_eq!(r.sampler_window_size, 2),
            _ => panic!("sampler kind changed"),
        },
    }
}

#[test]
fn jitter_render_stays_close_to_the_exact_grid() {
    // Jittered samples stay inside their pixel, so a pixel deep inside a
    // flat region still averages to that region's exact color.
    let world = World::demo();
    let (hr, vr) = world.get_resolution();
    let mut b1: Vec<u32> = vec![0; (hr * vr) as usize];
    let mut tracer = Tracer::Caster(Caster {
        sampler: AnySampler::Jitter(raycast::JitterSampler::new(16)),
    });
    tracer.trace(&world, &mut b1);
    let mut b2: Vec<u32> = vec![0; (hr * vr) as usize];
    let mut simple = Tracer::Caster(Caster {
        sampler: AnySampler::Simple(SimpleSampler),
    });
    simple.trace(&world, &mut b2);
    let center = (vr / 2 * hr + hr / 2) as usize;
    assert_eq!(b1[center], b2[center]);
}
