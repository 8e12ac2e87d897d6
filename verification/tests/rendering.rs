//! Rendering tests: BVH against the linear scan, materials, sampling
//! distributions and the radiance integrator.

use pathtracer::fixed::ONE;
use pathtracer::fixed::T_LIMIT;
use pathtracer::fixed::PI_FP;
use pathtracer::interval::Interval;
use pathtracer::vector::Vector;
use pathtracer::vector::Color;
use pathtracer::ray::Ray;
use pathtracer::rng::Randomizer;
use pathtracer::rng::random;
use pathtracer::rng::random_interval;
use pathtracer::texture::Texture;
use pathtracer::texture::ImageData;
use pathtracer::material::Material;
use pathtracer::material::HitRecord;
use pathtracer::hittable::Hittable;
use pathtracer::hittable::HittableObjects;
use pathtracer::hittable::HittableType;
use pathtracer::bvh::BvhNode;
use pathtracer::pdf::PDF;

fn red_lambertian() -> Material {
    Material::new_lambertian(Texture::new_solid(Color::red()))
}

fn sample_scene() -> HittableObjects {
    let mut world = HittableObjects::new();
    world.add(Hittable::new_sphere(
        Vector::new(0, 0, -3 * ONE),
        ONE,
        red_lambertian(),
    ));
    world.add(Hittable::new_sphere(
        Vector::new(2 * ONE, 0, -5 * ONE),
        ONE,
        red_lambertian(),
    ));
    world.add(Hittable::new_sphere(
        Vector::new(-2 * ONE, ONE, -4 * ONE),
        ONE / 2,
        red_lambertian(),
    ));
    world.add(Hittable::new_quad(
        Vector::new(-8 * ONE, -2 * ONE, -8 * ONE),
        Vector::new(16 * ONE, 0, 0),
        Vector::new(0, 0, 16 * ONE),
        red_lambertian(),
    ));
    world.add(Hittable::new_quad(
        Vector::new(-ONE, -ONE, -6 * ONE),
        Vector::new(2 * ONE, 0, 0),
        Vector::new(0, 2 * ONE, 0),
        red_lambertian(),
    ));
    let boxes = HittableObjects::new_box(
        Vector::new(3 * ONE, -ONE, -7 * ONE),
        Vector::new(5 * ONE, ONE, -5 * ONE),
        red_lambertian(),
    );
    world.add_hittables(boxes);
    world
}

#[test]
fn bvh_matches_linear_scan() {
    // The same primitives, queried through the tree and by brute force,
    // report the same nearest distance for every probe ray.
    let world = sample_scene();
    let tree = BvhNode::new(sample_scene());
    let mut rng_scan = Randomizer::new(11);
    let mut rng_tree = Randomizer::new(11);
    let mut checked = 0;
    for ix in -4i64..5i64 {
        for iy in -4i64..5i64 {
            let origin = Vector::new(ix * ONE / 2, iy * ONE / 2, 2 * ONE);
            for (dx, dy) in [(0i64, 0i64), (ONE / 4, 0), (0, -ONE / 4), (-ONE / 8, ONE / 8)] {
                let ray = Ray::new(origin, Vector::new(dx, dy, -ONE));
                let scan = world.hit(&ray, 66, T_LIMIT, &mut rng_scan);
                let fast = tree.hit(&ray, 66, T_LIMIT, &mut rng_tree);
                match (&scan, &fast) {
                    (None, None) => {}
                    (Some(a), Some(b)) => {
                        assert_eq!(a.0.t, b.0.t);
                        checked += 1;
                    }
                    _ => panic!("tree and scan disagree on whether the ray hits"),
                }
            }
        }
    }
    assert!(checked > 10);
}

#[test]
fn bvh_empty_tree_misses() {
    let tree = BvhNode::empty();
    let mut rng = Randomizer::new(1);
    let ray = Ray::new(Vector::new(0, 0, 0), Vector::new(0, 0, -ONE));
    assert!(tree.hit(&ray, 66, T_LIMIT, &mut rng).is_none());
}

#[test]
fn mixture_of_equal_constant_densities_is_unchanged() {
    // Two uniform-sphere components each have constant density; their
    // equal-weight mixture reports exactly that density.
    let mut rng = Randomizer::new(5);
    let sphere_pdf = PDF::new_sphere();
    let expected = sphere_pdf.value(Vector::new(0, 0, ONE), &mut rng);
    // 1 / (4 pi), in fixed point.
    assert_eq!(expected, (ONE as i128 * ONE as i128 / (4 * PI_FP as i128)) as i64);
    let mut mix = PDF::new_mix();
    mix.add_to_mix(PDF::new_sphere());
    mix.add_to_mix(PDF::new_sphere());
    for d in [
        Vector::new(0, 0, ONE),
        Vector::new(ONE, 0, 0),
        Vector::new(ONE, -ONE, ONE / 2),
    ] {
        assert_eq!(mix.value(d, &mut rng), expected);
    }
}

#[test]
fn pdf_values_are_non_negative() {
    let mut rng = Randomizer::new(9);
    let cosine = PDF::new_cosine(Vector::new(0, ONE, 0));
    let lights = {
        let mut ls = HittableObjects::new();
        ls.add(Hittable::new_quad(
            Vector::new(-ONE, 3 * ONE, -ONE),
            Vector::new(2 * ONE, 0, 0),
            Vector::new(0, 0, 2 * ONE),
            Material::new_diffuse_light(Texture::new_solid(Color::white())),
        ));
        PDF::new_lights(&ls, Vector::new(0, 0, 0))
    };
    for _ in 0..32 {
        let d = cosine.generate(&mut rng);
        assert!(cosine.value(d, &mut rng) >= 0);
        let l = lights.generate(&mut rng);
        assert!(lights.value(l, &mut rng) >= 0);
    }
}

#[test]
fn lambertian_scatter_uses_cosine_pdf() {
    let mat = red_lambertian();
    let rec = HitRecord {
        p: Vector::new(0, 0, 0),
        t: ONE,
        normal: Vector::new(0, ONE, 0),
        front_face: true,
        u: 0,
        v: 0,
    };
    let ray = Ray::new(Vector::new(0, 2 * ONE, 0), Vector::new(0, -ONE, 0));
    let mut rng = Randomizer::new(2);
    let sr = mat.scatter(&ray, &rec, &mut rng).expect("lambertian always scatters");
    assert!(!sr.skip_pdf);
    assert_eq!(sr.attenuation, Color::red());
}

#[test]
fn metal_scatter_bypasses_sampling() {
    let albedo = Color::new(ONE / 2, ONE / 2, ONE);
    let mat = Material::new_metal(albedo, 0);
    let rec = HitRecord {
        p: Vector::new(0, 0, 0),
        t: ONE,
        normal: Vector::new(0, ONE, 0),
        front_face: true,
        u: 0,
        v: 0,
    };
    let ray = Ray::new(Vector::new(-ONE, ONE, 0), Vector::new(ONE, -ONE, 0));
    let mut rng = Randomizer::new(2);
    let sr = mat.scatter(&ray, &rec, &mut rng).expect("mirror reflection leaves the surface");
    assert!(sr.skip_pdf);
    assert_eq!(sr.attenuation, albedo);
    assert_eq!(sr.skip_pdf_ray.origin, rec.p);
    // The reflected direction leaves the surface.
    assert!(sr.skip_pdf_ray.direction.dot(rec.normal) > 0);
}

#[test]
fn dielectric_scatter_is_white_bypass() {
    let mat = Material::new_dielectric(3 * ONE / 2);
    let rec = HitRecord {
        p: Vector::new(0, 0, 0),
        t: ONE,
        normal: Vector::new(0, ONE, 0),
        front_face: true,
        u: 0,
        v: 0,
    };
    let ray = Ray::new(Vector::new(0, ONE, 0), Vector::new(0, -ONE, 0));
    let mut rng = Randomizer::new(2);
    let sr = mat.scatter(&ray, &rec, &mut rng).expect("glass always answers");
    assert!(sr.skip_pdf);
    assert_eq!(sr.attenuation, Color::white());
}

#[test]
fn diffuse_light_emits_front_face_only() {
    let glow = Color::new(4 * ONE, 4 * ONE, 4 * ONE);
    let mat = Material::new_diffuse_light(Texture::new_solid(glow));
    let front = HitRecord {
        p: Vector::new(0, 0, 0),
        t: ONE,
        normal: Vector::new(0, ONE, 0),
        front_face: true,
        u: 0,
        v: 0,
    };
    let back = HitRecord { front_face: false, ..front };
    let ray = Ray::new(Vector::new(0, ONE, 0), Vector::new(0, -ONE, 0));
    assert_eq!(mat.emitted(&ray, &front), glow);
    assert_eq!(mat.emitted(&ray, &back), Color::black());
    let mut rng = Randomizer::new(2);
    assert!(mat.scatter(&ray, &front, &mut rng).is_none());
}

#[test]
fn scattering_pdf_shapes() {
    let lam = red_lambertian();
    let iso = Material::new_isotropic(Texture::new_solid(Color::white()));
    let rec = HitRecord {
        p: Vector::new(0, 0, 0),
        t: ONE,
        normal: Vector::new(0, ONE, 0),
        front_face: true,
        u: 0,
        v: 0,
    };
    let ray_in = Ray::new(Vector::new(0, ONE, 0), Vector::new(0, -ONE, 0));
    let up = Ray::new(Vector::new(0, 0, 0), Vector::new(0, ONE, 0));
    let down = Ray::new(Vector::new(0, 0, 0), Vector::new(0, -ONE, 0));
    // Straight up the normal: cos = 1, so density is 1/pi.
    assert_eq!(
        lam.scattering_pdf(&ray_in, &rec, &up),
        (ONE as i128 * ONE as i128 / PI_FP as i128) as i64
    );
    // Into the surface: clamped to zero.
    assert_eq!(lam.scattering_pdf(&ray_in, &rec, &down), 0);
    // Isotropic: uniform 1/(4 pi) everywhere.
    assert_eq!(
        iso.scattering_pdf(&ray_in, &rec, &down),
        (ONE as i128 * ONE as i128 / (4 * PI_FP as i128)) as i64
    );
    assert!(iso.scattering_pdf(&ray_in, &rec, &down) >= 0);
}

#[test]
fn color_depth_zero_is_black() {
    let tree = BvhNode::new(sample_scene());
    let lights = HittableObjects::new();
    let mut rng = Randomizer::new(4);
    let ray = Ray::new(Vector::new(0, 0, 0), Vector::new(0, 0, -ONE));
    let c = ray.color(0, &tree, Color::white(), &lights, &mut rng);
    assert_eq!(c, Color::black());
}

#[test]
fn color_miss_returns_background() {
    let tree = BvhNode::new(HittableObjects::new());
    let lights = HittableObjects::new();
    let mut rng = Randomizer::new(4);
    let background = Color::new(ONE / 4, ONE / 2, ONE);
    let ray = Ray::new(Vector::new(0, 0, 0), Vector::new(0, 0, -ONE));
    let c = ray.color(8, &tree, background, &lights, &mut rng);
    assert_eq!(c, background);
}

#[test]
fn color_pure_emitter_returns_emitted() {
    // A ray that can only strike the glowing quad reports exactly its
    // radiance.
    let glow = Color::new(3 * ONE, 2 * ONE, ONE);
    let mut world = HittableObjects::new();
    world.add(Hittable::new_quad(
        Vector::new(-ONE, -ONE, -3 * ONE),
        Vector::new(2 * ONE, 0, 0),
        Vector::new(0, 2 * ONE, 0),
        Material::new_diffuse_light(Texture::new_solid(glow)),
    ));
    let tree = BvhNode::new(world);
    let lights = HittableObjects::new();
    let mut rng = Randomizer::new(4);
    let ray = Ray::new(Vector::new(0, 0, 0), Vector::new(0, 0, -ONE));
    let c = ray.color(8, &tree, Color::black(), &lights, &mut rng);
    assert_eq!(c, glow);
}

#[test]
fn medium_scatter_distance_formula() {
    // Free flight of length zero scatters right at the clipped entry;
    // the longest flight overshoots a ten-unit span and misses.
    let at_entry = Hittable::medium_scatter_t(0, 10 * ONE, 66, T_LIMIT, ONE, -ONE, ONE);
    assert_eq!(at_entry, Some(66));
    let overshoot = Hittable::medium_scatter_t(0, 10 * ONE, 66, T_LIMIT, ONE, -ONE, 1);
    assert_eq!(overshoot, None);
    // An empty clipped span never scatters.
    let empty = Hittable::medium_scatter_t(5 * ONE, 2 * ONE, 66, T_LIMIT, ONE, -ONE, ONE);
    assert_eq!(empty, None);
}

#[test]
fn box_faces_are_the_six_quads() {
    let sides = HittableObjects::new_box(
        Vector::new(0, 0, 0),
        Vector::new(2 * ONE, 3 * ONE, 4 * ONE),
        red_lambertian(),
    );
    assert_eq!(sides.objects.len(), 6);
    match &sides.objects[0].hittable {
        HittableType::Quad { q, u, v, .. } => {
            assert_eq!(*q, Vector::new(0, 0, 4 * ONE));
            assert_eq!(*u, Vector::new(2 * ONE, 0, 0));
            assert_eq!(*v, Vector::new(0, 3 * ONE, 0));
        }
        _ => panic!("a box side must be a quad"),
    }
    match &sides.objects[5].hittable {
        HittableType::Quad { q, u, v, .. } => {
            assert_eq!(*q, Vector::new(0, 0, 0));
            assert_eq!(*u, Vector::new(2 * ONE, 0, 0));
            assert_eq!(*v, Vector::new(0, 0, 4 * ONE));
        }
        _ => panic!("a box side must be a quad"),
    }
}

#[test]
fn color_stays_non_negative() {
    let mut world = sample_scene();
    world.add(Hittable::new_quad(
        Vector::new(-ONE, 4 * ONE, -5 * ONE),
        Vector::new(2 * ONE, 0, 0),
        Vector::new(0, 0, 2 * ONE),
        Material::new_diffuse_light(Texture::new_solid(Color::new(
            15 * ONE,
            15 * ONE,
            15 * ONE,
        ))),
    ));
    let mut lights = HittableObjects::new();
    lights.add(Hittable::new_quad(
        Vector::new(-ONE, 4 * ONE, -5 * ONE),
        Vector::new(2 * ONE, 0, 0),
        Vector::new(0, 0, 2 * ONE),
        Material::new_diffuse_light(Texture::new_solid(Color::new(
            15 * ONE,
            15 * ONE,
            15 * ONE,
        ))),
    ));
    let tree = BvhNode::new(world);
    let mut rng = Randomizer::new(12);
    for i in 0..24i64 {
        let ray = Ray::new(
            Vector::new(0, 0, 2 * ONE),
            Vector::new((i - 12) * ONE / 12, ONE / 8, -ONE),
        );
        let c = ray.color(6, &tree, Color::black(), &lights, &mut rng);
        assert!(c.r >= 0 && c.g >= 0 && c.b >= 0);
    }
}

#[test]
fn checker_texture_alternates() {
    let even = Color::white();
    let odd = Color::black();
    let tex = Texture::new_checker(ONE, even, odd);
    let a = tex.value(0, 0, Vector::new(ONE / 2, ONE / 2, ONE / 2));
    let b = tex.value(0, 0, Vector::new(3 * ONE / 2, ONE / 2, ONE / 2));
    assert_ne!(a, b);
    let c = tex.value(0, 0, Vector::new(5 * ONE / 2, ONE / 2, ONE / 2));
    assert_eq!(a, c);
}

#[test]
fn image_texture_reads_texels() {
    // A two-by-one raster: a pure red texel then a pure blue one.
    let data = vec![255u8, 0, 0, 0, 0, 255];
    let img = ImageData::new(2, 1, data);
    assert_eq!(img.width(), 2);
    assert_eq!(img.height(), 1);
    let left = img.pixel_data(0, 0);
    assert_eq!(left.r, 255 * ONE / 255);
    assert_eq!(left.g, 0);
    let right = img.pixel_data(1, 0);
    assert_eq!(right.b, 255 * ONE / 255);
    // Out-of-range raster coordinates clamp to the edge.
    let clamped = img.pixel_data(9, 9);
    assert_eq!(clamped.b, right.b);
    let tex = Texture::new_image(img);
    let c = tex.value(0, ONE / 2, Vector::new(0, 0, 0));
    assert_eq!(c.r, ONE);
}

#[test]
fn empty_light_list_reports_floor_density() {
    let empty = HittableObjects::new();
    let mut rng = Randomizer::new(6);
    assert_eq!(
        empty.pdf_value(Vector::new(0, 0, 0), Vector::new(0, ONE, 0), &mut rng),
        66
    );
}

#[test]
fn quad_sample_lies_on_its_plane() {
    // Sampling a quad in the first two axes' plane from one unit above:
    // whatever the draws, the direction's last coordinate is exactly the
    // drop back to the plane.
    let quad = Hittable::new_quad(
        Vector::new(0, 0, 0),
        Vector::new(ONE, 0, 0),
        Vector::new(0, ONE, 0),
        red_lambertian(),
    );
    let mut rng = Randomizer::new(14);
    for _ in 0..16 {
        let d = quad.random(Vector::new(0, 0, ONE), &mut rng);
        assert_eq!(d.z, -ONE);
        assert!(d.x >= 0 && d.x < ONE);
        assert!(d.y >= 0 && d.y < ONE);
    }
}

#[test]
fn perlin_value_is_a_function_of_the_tables() {
    let mut rng = Randomizer::new(21);
    let tex = Texture::new_perlin(4 * ONE, &mut rng);
    let p = Vector::new(ONE / 3, ONE / 5, ONE / 7);
    let first = tex.value(0, 0, p);
    for _ in 0..8 {
        assert_eq!(tex.value(0, 0, p), first);
    }
}

#[test]
fn perlin_texture_is_bounded() {
    let mut rng = Randomizer::new(21);
    let tex = Texture::new_perlin(4 * ONE, &mut rng);
    for i in 0..16i64 {
        let p = Vector::new(i * ONE / 3, i * ONE / 5, i * ONE / 7);
        let c = tex.value(0, 0, p);
        assert!(c.r >= 0 && c.r <= ONE);
        assert!(c.g >= 0 && c.g <= ONE);
        assert!(c.b >= 0 && c.b <= ONE);
    }
}

#[test]
fn random_samples_stay_in_range() {
    let mut rng = Randomizer::new(99);
    for _ in 0..256 {
        let u = random(&mut rng);
        assert!(u >= 0 && u < ONE);
        let v = random_interval(&mut rng, -3 * ONE, 5 * ONE);
        assert!(v >= -3 * ONE && v < 5 * ONE);
        let d = Vector::random_unit_vector(&mut rng);
        assert!(d.x.abs() <= ONE && d.y.abs() <= ONE && d.z.abs() <= ONE);
    }
}

#[test]
fn quad_pdf_value_non_negative() {
    let quad = Hittable::new_quad(
        Vector::new(-ONE, 3 * ONE, -ONE),
        Vector::new(2 * ONE, 0, 0),
        Vector::new(0, 0, 2 * ONE),
        red_lambertian(),
    );
    let mut rng = Randomizer::new(17);
    let v = quad.pdf_value(Vector::new(0, 0, 0), Vector::new(0, ONE, 0), &mut rng);
    assert!(v >= 0);
    let away = quad.pdf_value(Vector::new(0, 0, 0), Vector::new(0, -ONE, 0), &mut rng);
    assert_eq!(away, 0);
}

#[test]
fn rotated_box_still_hit() {
    // A box around the origin rotated an eighth of a turn and pushed
    // back still blocks a ray through its middle, and the nearest
    // distance agrees between the scan and the tree.
    let make = || {
        let mut b = HittableObjects::new_box(
            Vector::new(-ONE, -ONE, -ONE),
            Vector::new(ONE, ONE, ONE),
            red_lambertian(),
        );
        b.rotate_y(30 * ONE);
        b.translate(Vector::new(0, 0, -4 * ONE));
        b
    };
    let boxes = make();
    let mut rng = Randomizer::new(23);
    let ray = Ray::new(Vector::new(0, 0, 0), Vector::new(0, 0, -ONE));
    let hit = boxes.hit(&ray, 66, T_LIMIT, &mut rng);
    assert!(hit.is_some());
    let tree = BvhNode::new(make());
    let fast = tree.hit(&ray, 66, T_LIMIT, &mut rng);
    assert_eq!(hit.unwrap().0.t, fast.unwrap().0.t);
}

#[test]
fn moving_sphere_center_interpolates() {
    // At time zero the moving sphere sits at its first center; a ray
    // aimed there hits it, while a time-one ray aimed there misses.
    let mat = red_lambertian();
    let sphere = Hittable::new_moving_sphere(
        Vector::new(0, 0, -3 * ONE),
        Vector::new(10 * ONE, 0, -3 * ONE),
        ONE / 2,
        mat,
    );
    let mut rng = Randomizer::new(8);
    let at_start = Ray::new_time(Vector::new(0, 0, 0), Vector::new(0, 0, -ONE), 0);
    assert!(sphere.hit(&at_start, 66, T_LIMIT, &mut rng).is_some());
    let at_end = Ray::new_time(Vector::new(0, 0, 0), Vector::new(0, 0, -ONE), ONE);
    assert!(sphere.hit(&at_end, 66, T_LIMIT, &mut rng).is_none());
}

#[test]
fn universe_and_empty_intervals() {
    // The whole interval leaves values alone under clamping; the empty
    // interval contains nothing.
    let uni = Interval::universe();
    assert_eq!(uni.clamp(123), 123);
    let empty = Interval::empty();
    assert!(!empty.contains(0));
}
