use raytrace::camera::Camera;
use raytrace::color::CLAMP_MAX;
use raytrace::fixed::{Fx, HALF, ONE, TWO};
use raytrace::hit::{HitRecord, HittableList, Sphere};
use raytrace::material::{Dielectric, Lambertian, Material, Metal};
use raytrace::ray::Ray;
use raytrace::render::{ray_trace, render};
use raytrace::util::{
    clamp, degrees_to_radians, random_double, random_double_range, reflect, refract, reflectance,
    PI_FX,
};
use raytrace::vec3::{cross, dot, Vec3};

fn fxv(v: i64) -> Fx {
    Fx { v }
}

fn v3(x: i64, y: i64, z: i64) -> Vec3 {
    Vec3 {
        x: fxv(x),
        y: fxv(y),
        z: fxv(z),
    }
}

fn gray() -> Material {
    Material::Lambertian(Lambertian {
        albedo: v3(HALF, HALF, HALF),
    })
}

#[test]
fn fixed_arithmetic_exact_cases() {
    assert_eq!(fxv(ONE).add(fxv(ONE)).v, TWO);
    assert_eq!(fxv(ONE).sub(fxv(TWO)).v, -ONE);
    assert_eq!(fxv(HALF).mul(fxv(HALF)).v, 16384);
    assert_eq!(fxv(ONE).div(fxv(TWO)).v, HALF);
    assert_eq!(fxv(ONE).neg().v, -ONE);
    assert_eq!(fxv(ONE).sqrt().v, ONE);
    assert_eq!(fxv(ONE * 4).sqrt().v, TWO);
}

#[test]
fn fixed_saturates_instead_of_wrapping() {
    let big = fxv(i64::MAX);
    assert_eq!(big.add(big).v, i64::MAX);
    assert_eq!(fxv(i64::MIN).sub(big).v, i64::MIN);
}

#[test]
fn clamp_picks_the_nearer_bound() {
    assert_eq!(clamp(fxv(5), fxv(0), fxv(3)).v, 3);
    assert_eq!(clamp(fxv(-5), fxv(0), fxv(3)).v, 0);
    assert_eq!(clamp(fxv(2), fxv(0), fxv(3)).v, 2);
}

#[test]
fn vector_algebra_exact_cases() {
    let a = v3(ONE, 0, 0);
    let b = v3(0, ONE, 0);
    assert_eq!(dot(&a, &b).v, 0);
    assert_eq!(dot(&a, &a).v, ONE);
    assert_eq!(cross(&a, &b), v3(0, 0, ONE));
    assert_eq!(a.add(&b), v3(ONE, ONE, 0));
    assert_eq!(a.sub(&b), v3(ONE, -ONE, 0));
    assert_eq!(a.scale(fxv(TWO)), v3(TWO, 0, 0));
    assert_eq!(v3(TWO, 0, 0).div_by(fxv(TWO)), v3(ONE, 0, 0));
    assert_eq!(v3(0, 0, 4 * ONE).length().v, 4 * ONE);
    assert_eq!(v3(3 * ONE, 4 * ONE, 0).length().v, 5 * ONE);
    assert_eq!(v3(3 * ONE, 4 * ONE, 0).unit_vec(), v3(39321, 52428, 0));
}

#[test]
fn near_zero_threshold() {
    assert!(v3(0, 0, 0).near_zero());
    assert!(v3(255, -255, 100).near_zero());
    assert!(!v3(256, 0, 0).near_zero());
    assert!(!v3(0, 0, -256).near_zero());
}

#[test]
fn reflect_flips_the_normal_component() {
    let v = v3(ONE, -ONE, 0);
    let n = v3(0, ONE, 0);
    let r = reflect(&v, &n);
    assert_eq!(r, v3(ONE, ONE, 0));
    // The normal component of the reflection is the exact negation.
    assert_eq!(dot(&r, &n).v, -dot(&v, &n).v);
}

#[test]
fn reflect_keeps_the_normal_component_within_rounding() {
    // A diagonal normal whose fixed-point dot with itself is exactly one:
    // each squared component rounds to exactly half a unit.
    let n = v3(46341, 46341, 0);
    assert_eq!(dot(&n, &n).v, ONE);
    for v in [
        v3(ONE, 0, 0),
        v3(ONE, 12345, 0),
        v3(-23456, 45678, ONE),
        v3(-ONE, -ONE, -ONE),
    ] {
        let r = reflect(&v, &n);
        let e = dot(&r, &n).v + dot(&v, &n).v;
        assert!(-32 < e && e < 32);
    }
}

#[test]
fn refract_head_on_with_unit_ratio_is_identity() {
    let uv = v3(0, 0, -ONE);
    let n = v3(0, 0, ONE);
    assert_eq!(refract(&uv, &n, fxv(ONE)), uv);
}

#[test]
fn reflectance_exact_cases() {
    // Head-on through a boundary with equal indices: no reflection at all.
    assert_eq!(reflectance(fxv(ONE), fxv(ONE)).v, 0);
    // Grazing incidence: full reflection whatever the index.
    assert_eq!(reflectance(fxv(0), fxv(98304)).v, ONE);
}

#[test]
fn degrees_to_radians_half_turn_is_pi() {
    assert_eq!(degrees_to_radians(fxv(180 * ONE)).v, PI_FX);
    assert_eq!(degrees_to_radians(fxv(0)).v, 0);
}

#[test]
fn random_double_stays_in_the_unit_interval() {
    for _ in 0..1000 {
        let r = random_double();
        assert!(0 <= r.v && r.v < ONE);
    }
}

#[test]
fn random_double_range_stays_in_range() {
    for _ in 0..1000 {
        let r = random_double_range(fxv(-ONE), fxv(ONE));
        assert!(-ONE <= r.v && r.v <= ONE);
    }
}

#[test]
fn random_samplers_stay_in_shape() {
    for _ in 0..200 {
        let d = Vec3::random_in_unit_disk();
        assert!(d.length_squared().v < ONE);
        assert_eq!(d.z.v, 0);
        let s = Vec3::random_in_unit_sphere();
        assert!(s.length_squared().v < ONE);
        let u = Vec3::random_unit_vector();
        assert!(!u.near_zero());
        let w = Vec3::random();
        assert!(0 <= w.x.v && w.x.v < ONE);
    }
}

#[test]
fn sphere_hit_straight_on() {
    let sphere = Sphere {
        center: v3(0, 0, -2 * ONE),
        material: gray(),
        radius: fxv(ONE),
    };
    let ray = Ray {
        origin: v3(0, 0, 0),
        direction: v3(0, 0, -ONE),
    };
    let rec = sphere.hit(&ray, fxv(0), fxv(i64::MAX)).expect("must hit");
    assert_eq!(rec.t.v, ONE);
    assert_eq!(rec.p, v3(0, 0, -ONE));
    assert_eq!(rec.normal, v3(0, 0, ONE));
    assert!(rec.front_face);
}

#[test]
fn sphere_hit_respects_the_interval() {
    let sphere = Sphere {
        center: v3(0, 0, -2 * ONE),
        material: gray(),
        radius: fxv(ONE),
    };
    let ray = Ray {
        origin: v3(0, 0, 0),
        direction: v3(0, 0, -ONE),
    };
    // The first root is at t=1, the second at t=3; excluding both misses.
    assert!(sphere.hit(&ray, fxv(0), fxv(HALF)).is_none());
    // Excluding only the first root selects the far one.
    let far = sphere.hit(&ray, fxv(2 * ONE), fxv(i64::MAX)).expect("far root");
    assert_eq!(far.t.v, 3 * ONE);
    assert!(!far.front_face);
    // A ray pointing away misses entirely.
    let away = Ray {
        origin: v3(0, 0, 0),
        direction: v3(0, 0, ONE),
    };
    assert!(sphere.hit(&away, fxv(0), fxv(i64::MAX)).is_none());
}

#[test]
fn sphere_hit_reparameterization_scales_t_exactly_here() {
    // Doubling the direction halves the accepted parameter and keeps the
    // same hit point.
    let sphere = Sphere {
        center: v3(0, 0, -2 * ONE),
        material: gray(),
        radius: fxv(ONE),
    };
    let ray1 = Ray {
        origin: v3(0, 0, 0),
        direction: v3(0, 0, -ONE),
    };
    let ray2 = Ray {
        origin: v3(0, 0, 0),
        direction: v3(0, 0, -TWO),
    };
    let r1 = sphere.hit(&ray1, fxv(0), fxv(i64::MAX)).expect("hit");
    let r2 = sphere.hit(&ray2, fxv(0), fxv(i64::MAX)).expect("hit");
    assert_eq!(r2.t.v, r1.t.v / 2);
    assert_eq!(r1.p, r2.p);
}

#[test]
fn list_hit_returns_the_nearest_in_both_orders() {
    let near = Sphere {
        center: v3(0, 0, -2 * ONE),
        material: gray(),
        radius: fxv(ONE),
    };
    let far = Sphere {
        center: v3(0, 0, -8 * ONE),
        material: Material::Metal(Metal {
            albedo: v3(ONE, ONE, ONE),
            fuzz: fxv(0),
        }),
        radius: fxv(ONE),
    };
    let ray = Ray {
        origin: v3(0, 0, 0),
        direction: v3(0, 0, -ONE),
    };
    for order in 0..2 {
        let mut world = HittableList::new();
        if order == 0 {
            world.add(near);
            world.add(far);
        } else {
            world.add(far);
            world.add(near);
        }
        let rec = world.hit(&ray, fxv(0), fxv(i64::MAX)).expect("hit");
        assert_eq!(rec.t.v, ONE);
        assert_eq!(rec.material, near.material);
    }
    let mut world = HittableList::new();
    world.add(near);
    world.clear();
    assert!(world.hit(&ray, fxv(0), fxv(i64::MAX)).is_none());
}

#[test]
fn lambertian_always_scatters_with_its_albedo() {
    let lam = Lambertian {
        albedo: v3(HALF, 16384, ONE),
    };
    let ray = Ray {
        origin: v3(0, 0, 0),
        direction: v3(0, 0, -ONE),
    };
    let rec = HitRecord {
        p: v3(0, 0, -ONE),
        normal: v3(0, 0, ONE),
        material: Material::Lambertian(lam),
        t: fxv(ONE),
        front_face: true,
    };
    for _ in 0..100 {
        let (att, sc) = lam.scatter(&ray, &rec).expect("diffuse always scatters");
        assert_eq!(att, lam.albedo);
        assert_eq!(sc.origin, rec.p);
        assert!(!sc.direction.near_zero());
    }
}

#[test]
fn metal_with_zero_fuzz_reflects_exactly() {
    let met = Metal {
        albedo: v3(ONE, ONE, 0),
        fuzz: fxv(0),
    };
    let ray = Ray {
        origin: v3(0, 0, 0),
        direction: v3(0, 0, -ONE),
    };
    let rec = HitRecord {
        p: v3(0, 0, -ONE),
        normal: v3(0, 0, ONE),
        material: Material::Metal(met),
        t: fxv(ONE),
        front_face: true,
    };
    let (att, sc) = met.scatter(&ray, &rec).expect("head-on reflection stays above");
    assert_eq!(att, met.albedo);
    assert_eq!(sc.direction, v3(0, 0, ONE));
}

#[test]
fn metal_absorbs_a_grazing_reflection() {
    // A ray sliding along the surface reflects into the surface plane; with
    // no fuzz the scattered direction has a zero normal component, which
    // counts as absorbed.
    let met = Metal {
        albedo: v3(ONE, ONE, ONE),
        fuzz: fxv(0),
    };
    let ray = Ray {
        origin: v3(0, 0, 0),
        direction: v3(ONE, 0, 0),
    };
    let rec = HitRecord {
        p: v3(ONE, 0, 0),
        normal: v3(0, 0, ONE),
        material: Material::Metal(met),
        t: fxv(ONE),
        front_face: true,
    };
    assert!(met.scatter(&ray, &rec).is_none());
}

#[test]
fn dielectric_with_unit_index_transmits_head_on() {
    let glass = Dielectric { ir: fxv(ONE) };
    let ray = Ray {
        origin: v3(0, 0, 0),
        direction: v3(0, 0, -ONE),
    };
    let rec = HitRecord {
        p: v3(0, 0, -ONE),
        normal: v3(0, 0, ONE),
        material: Material::Dielectric(glass),
        t: fxv(ONE),
        front_face: true,
    };
    for _ in 0..100 {
        let (att, sc) = glass.scatter(&ray, &rec).expect("glass always scatters");
        assert_eq!(att, v3(ONE, ONE, ONE));
        // Head on at a unit index the Schlick reflectance is exactly zero,
        // so the refract branch is forced and the direction is kept exactly.
        assert_eq!(sc.direction, v3(0, 0, -ONE));
    }
}

#[test]
fn trace_with_no_objects_is_the_sky_gradient() {
    let world = HittableList::new();
    let ray = Ray {
        origin: v3(0, 0, 0),
        direction: v3(0, 0, -ONE),
    };
    // Straight ahead the blend factor is exactly one half.
    let expected = v3(49152, 55705, ONE);
    for depth in [1i64, 2, 5, 50] {
        assert_eq!(ray_trace(&ray, &world, depth), expected);
    }
    // Straight up it is exactly one: the sky's zenith color.
    let up = Ray {
        origin: v3(0, 0, 0),
        direction: v3(0, ONE, 0),
    };
    assert_eq!(ray_trace(&up, &world, 5), v3(HALF, 45875, ONE));
}

#[test]
fn trace_with_exhausted_depth_is_black() {
    let mut world = HittableList::new();
    world.add(Sphere {
        center: v3(0, 0, -2 * ONE),
        material: gray(),
        radius: fxv(ONE),
    });
    for _ in 0..20 {
        let dir = Vec3::random_unit_vector();
        let ray = Ray {
            origin: v3(0, 0, 0),
            direction: dir,
        };
        assert_eq!(ray_trace(&ray, &world, 0), v3(0, 0, 0));
        assert_eq!(ray_trace(&ray, &world, -3), v3(0, 0, 0));
    }
}

#[test]
fn write_gamma_one_is_the_identity_mapping() {
    let c = v3(HALF, 16384, ONE);
    let rgb = c.write(1, 1);
    assert_eq!(rgb, (128, 64, 255));
    // Averaging over two samples first.
    let sum = v3(ONE, HALF, 2 * ONE);
    assert_eq!(sum.write(1, 2), (128, 64, 255));
}

#[test]
fn write_gamma_two_takes_the_square_root() {
    // 0.25 averages to itself; its square root is 0.5, so the channel
    // brightens from 64 to 128.
    let c = v3(16384, 16384, 16384);
    assert_eq!(c.write(1, 1), (64, 64, 64));
    assert_eq!(c.write(2, 1), (128, 128, 128));
}

#[test]
fn write_higher_integer_gammas_take_higher_roots() {
    // 1/16 under gamma 4 becomes its fourth root 1/2, so the channel
    // brightens from 16 to 128.
    let c = v3(4096, 4096, 4096);
    assert_eq!(c.write(1, 1), (16, 16, 16));
    assert_eq!(c.write(4, 1), (128, 128, 128));
}

#[test]
fn write_clamps_just_below_one() {
    // The clamp ceiling itself maps to 255, and everything above saturates.
    assert_eq!(CLAMP_MAX, 65470);
    let c = v3(CLAMP_MAX, ONE, 40 * ONE);
    assert_eq!(c.write(1, 1), (255, 255, 255));
    assert_eq!(v3(0, 0, 0).write(1, 1), (0, 0, 0));
}

#[test]
fn pinhole_camera_rays_start_at_the_origin() {
    let camera = Camera::new(
        v3(0, 0, 0),
        v3(0, 0, -ONE),
        v3(0, ONE, 0),
        fxv(ONE),
        fxv(ONE),
        fxv(0),
        fxv(ONE),
    );
    assert_eq!(camera.lens_radius.v, 0);
    for _ in 0..100 {
        let r = camera.get_ray(fxv(HALF), fxv(HALF));
        assert_eq!(r.origin, camera.origin);
    }
    // With coordinates at the viewport center the ray looks straight ahead.
    let r = camera.get_ray(fxv(HALF), fxv(HALF));
    assert_eq!(r.direction, v3(0, 0, -ONE));
}

#[test]
fn camera_with_aperture_offsets_within_the_lens() {
    let camera = Camera::new(
        v3(0, 0, 0),
        v3(0, 0, -ONE),
        v3(0, ONE, 0),
        fxv(ONE),
        fxv(ONE),
        fxv(ONE),
        fxv(ONE),
    );
    assert_eq!(camera.lens_radius.v, HALF);
    for _ in 0..100 {
        let r = camera.get_ray(fxv(HALF), fxv(HALF));
        let off = r.origin.sub(&camera.origin);
        assert!(off.length_squared().v <= ONE / 4 + 1);
        assert_eq!(off.z.v, 0);
    }
}

#[test]
fn render_emits_one_triple_per_pixel() {
    let camera = Camera::new(
        v3(0, 0, 0),
        v3(0, 0, -ONE),
        v3(0, ONE, 0),
        fxv(ONE),
        fxv(ONE),
        fxv(0),
        fxv(ONE),
    );
    let world = HittableList::new();
    let pixels = render(3, 2, camera, world, 1, 1);
    assert_eq!(pixels.len(), 6);
    // An empty scene renders pure sky: the blue channel is always full.
    for (_, _, b) in pixels {
        assert_eq!(b, 255);
    }
}

#[test]
fn single_sphere_end_to_end() {
    // A gray sphere half a unit wide, one unit in front of a pinhole
    // camera, rendered at 2x2 with one sample per pixel: rays that pass
    // near the sphere center come back darker than the sky-only pixels.
    let mut dark_seen = false;
    for seed in 0..24u64 {
        fastrand::seed(seed);
        let camera = Camera::new(
            v3(0, 0, 0),
            v3(0, 0, -ONE),
            v3(0, ONE, 0),
            fxv(ONE),
            fxv(ONE),
            fxv(0),
            fxv(ONE),
        );
        let mut world = HittableList::new();
        world.add(Sphere {
            center: v3(0, 0, -ONE),
            material: gray(),
            radius: fxv(HALF),
        });
        let pixels = render(2, 2, camera, world, 1, 1);
        assert_eq!(pixels.len(), 4);
        for &(r, g, b) in &pixels {
            // All components are in range.
            assert!(r <= 255 && g <= 255 && b <= 255);
            // Sky pixels carry a full blue channel; sphere pixels lost at
            // least half of it to the gray albedo.
            assert!(b == 255 || b <= 129);
            if b <= 129 {
                dark_seen = true;
                // A sphere pixel is darker than any sky pixel's green and
                // blue.
                assert!(g <= 129);
            }
        }
        // Only the bottom-left pixel's rays can pass near the sphere; the
        // three others look past it and must be sky.
        assert_eq!(pixels[0].2, 255);
        assert_eq!(pixels[1].2, 255);
        assert_eq!(pixels[3].2, 255);
    }
    assert!(dark_seen, "across these seeds some ray must hit the sphere");
}
