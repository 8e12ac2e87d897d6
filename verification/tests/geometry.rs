//! Geometry tests: intervals, boxes, vectors, and the analytic
//! sphere and quad intersections.

use pathtracer::fixed::ONE;
use pathtracer::fixed::T_LIMIT;
use pathtracer::fixed::sin_deg;
use pathtracer::fixed::cos_deg;
use pathtracer::fixed::neg_log;
use pathtracer::fixed::sqrt_fp;
use pathtracer::fixed::degree_to_radians;
use pathtracer::fixed::PI_FP;
use pathtracer::fixed::DEG90;
use pathtracer::interval::Interval;
use pathtracer::aabb::AABB;
use pathtracer::vector::Vector;
use pathtracer::vector::Color;
use pathtracer::ray::Ray;
use pathtracer::rng::Randomizer;
use pathtracer::texture::Texture;
use pathtracer::material::Material;
use pathtracer::hittable::Hittable;
use pathtracer::material::HitRecord;

fn white_lambertian() -> Material {
    Material::new_lambertian(Texture::new_solid(Color::white()))
}

#[test]
fn interval_operations() {
    let i = Interval::new(-ONE, 2 * ONE);
    assert_eq!(i.size(), 3 * ONE);
    assert!(i.contains(0));
    assert!(i.contains(2 * ONE));
    assert!(!i.contains(3 * ONE));
    assert!(i.surrounds(0));
    assert!(!i.surrounds(2 * ONE));
    assert_eq!(i.clamp(5 * ONE), 2 * ONE);
    assert_eq!(i.clamp(-5 * ONE), -ONE);
    assert_eq!(i.clamp(17), 17);
    let e = Interval::expand(&i, 8);
    assert_eq!(e.min, -ONE - 4);
    assert_eq!(e.max, 2 * ONE + 4);
    let empty = Interval::empty();
    assert!(empty.min > empty.max);
    let uni = Interval::universe();
    assert!(uni.contains(0) && uni.contains(T_LIMIT));
}

#[test]
fn interval_union_covers_both() {
    let a = Interval::new(-3 * ONE, ONE);
    let b = Interval::new(0, 5 * ONE);
    let u = Interval::new_from_interval(a, b);
    assert_eq!(u.min, -3 * ONE);
    assert_eq!(u.max, 5 * ONE);
}

#[test]
fn aabb_union_contains_both_boxes() {
    let a = AABB::new(
        Interval::new(0, ONE),
        Interval::new(0, ONE),
        Interval::new(0, ONE),
    );
    let b = AABB::new(
        Interval::new(2 * ONE, 3 * ONE),
        Interval::new(-ONE, 0),
        Interval::new(ONE, 4 * ONE),
    );
    let u = AABB::new_from_aabb(&a, &b);
    // Every corner of both boxes lies inside the union.
    assert!(u.x.min <= a.x.min && a.x.max <= u.x.max);
    assert!(u.y.min <= a.y.min && a.y.max <= u.y.max);
    assert!(u.z.min <= a.z.min && a.z.max <= u.z.max);
    assert!(u.x.min <= b.x.min && b.x.max <= u.x.max);
    assert!(u.y.min <= b.y.min && b.y.max <= u.y.max);
    assert!(u.z.min <= b.z.min && b.z.max <= u.z.max);
}

#[test]
fn aabb_slab_test_hits_and_misses() {
    let bx = AABB::new(
        Interval::new(-ONE, ONE),
        Interval::new(-ONE, ONE),
        Interval::new(-3 * ONE, -2 * ONE),
    );
    let toward = Ray::new(Vector::new(0, 0, 0), Vector::new(0, 0, -ONE));
    assert!(bx.hit(&toward, 1, T_LIMIT));
    let away = Ray::new(Vector::new(0, 0, 0), Vector::new(0, 0, ONE));
    assert!(!away.direction.near_zero());
    assert!(!bx.hit(&away, 1, T_LIMIT));
    let sideways = Ray::new(Vector::new(5 * ONE, 0, 0), Vector::new(0, 0, -ONE));
    assert!(!bx.hit(&sideways, 1, T_LIMIT));
}

#[test]
fn aabb_longest_axis_picks_widest() {
    let bx = AABB::new(
        Interval::new(0, 10 * ONE),
        Interval::new(0, ONE),
        Interval::new(0, 2 * ONE),
    );
    assert_eq!(bx.longest_axis(), 0);
    let by = AABB::new(
        Interval::new(0, ONE),
        Interval::new(0, 10 * ONE),
        Interval::new(0, 2 * ONE),
    );
    assert_eq!(by.longest_axis(), 1);
}

#[test]
fn vector_algebra_exact_values() {
    let a = Vector::new(ONE, 2 * ONE, 3 * ONE);
    let b = Vector::new(4 * ONE, -ONE, 0);
    assert_eq!(a.add(b), Vector::new(5 * ONE, ONE, 3 * ONE));
    assert_eq!(a.sub(b), Vector::new(-3 * ONE, 3 * ONE, 3 * ONE));
    assert_eq!(a.dot(b), 4 * ONE - 2 * ONE);
    let c = a.cross(b);
    // (2*0 - 3*(-1), 3*4 - 1*0, 1*(-1) - 2*4) = (3, 12, -9)
    assert_eq!(c, Vector::new(3 * ONE, 12 * ONE, -9 * ONE));
    assert_eq!(a.len_squared(), 14 * ONE);
    let unit = Vector::new(3 * ONE, 4 * ONE, 0).unit_vector();
    // 3-4-5 triangle: exactly (3/5, 4/5, 0).
    assert_eq!(unit, Vector::new(3 * ONE / 5, 4 * ONE / 5, 0));
}

#[test]
fn vector_reflect_about_axis() {
    let v = Vector::new(ONE, -ONE, 0);
    let n = Vector::new(0, ONE, 0);
    let r = v.reflect(n);
    assert_eq!(r, Vector::new(ONE, ONE, 0));
}

#[test]
fn scalar_helpers_exact_points() {
    assert_eq!(sin_deg(0), 0);
    assert_eq!(sin_deg(DEG90), ONE);
    assert_eq!(cos_deg(0), ONE);
    assert_eq!(neg_log(ONE), 0);
    assert!(neg_log(1) > 0);
    assert_eq!(sqrt_fp(ONE), ONE);
    assert_eq!(sqrt_fp(4 * ONE), 2 * ONE);
    // 180 degrees is pi radians.
    assert_eq!(degree_to_radians(180 * ONE), PI_FP);
}

#[test]
fn sphere_analytic_hit() {
    // Ray from the origin toward a unit-diameter sphere one unit away:
    // strikes at half a unit with the normal pointing back.
    let sphere = Hittable::new_sphere(Vector::new(0, 0, -ONE), ONE / 2, white_lambertian());
    let ray = Ray::new(Vector::new(0, 0, 0), Vector::new(0, 0, -ONE));
    let mut rng = Randomizer::new(7);
    let hit = sphere.hit(&ray, 66, T_LIMIT, &mut rng);
    let (rec, _mat) = hit.expect("the ray points straight at the sphere");
    assert_eq!(rec.t, ONE / 2);
    assert_eq!(rec.p, Vector::new(0, 0, -ONE / 2));
    assert_eq!(rec.normal, Vector::new(0, 0, ONE));
    assert!(rec.front_face);
}

#[test]
fn sphere_miss_is_none() {
    let sphere = Hittable::new_sphere(Vector::new(0, 0, -ONE), ONE / 2, white_lambertian());
    let ray = Ray::new(Vector::new(0, 0, 0), Vector::new(0, 0, ONE));
    let mut rng = Randomizer::new(7);
    assert!(sphere.hit(&ray, 66, T_LIMIT, &mut rng).is_none());
}

#[test]
fn quad_interior_hit_and_miss() {
    // Unit quad in the plane of the first two axes; a ray one unit above
    // its middle strikes at distance one, at the middle.
    let quad = Hittable::new_quad(
        Vector::new(0, 0, 0),
        Vector::new(ONE, 0, 0),
        Vector::new(0, ONE, 0),
        white_lambertian(),
    );
    let ray = Ray::new(Vector::new(ONE / 2, ONE / 2, ONE), Vector::new(0, 0, -ONE));
    let mut rng = Randomizer::new(7);
    let (rec, _mat) = quad.hit(&ray, 66, T_LIMIT, &mut rng).expect("interior hit");
    assert_eq!(rec.t, ONE);
    assert_eq!(rec.p, Vector::new(ONE / 2, ONE / 2, 0));
    assert_eq!(rec.u, ONE / 2);
    assert_eq!(rec.v, ONE / 2);
    // A ray aimed outside the unit square misses.
    let outside = Ray::new(Vector::new(2 * ONE, 2 * ONE, ONE), Vector::new(0, 0, -ONE));
    assert!(quad.hit(&outside, 66, T_LIMIT, &mut rng).is_none());
}

#[test]
fn translated_quad_shifts_hit() {
    let mut quad = Hittable::new_quad(
        Vector::new(0, 0, 0),
        Vector::new(ONE, 0, 0),
        Vector::new(0, ONE, 0),
        white_lambertian(),
    );
    quad.translate(Vector::new(3 * ONE, 0, 0));
    let mut rng = Randomizer::new(7);
    let ray = Ray::new(
        Vector::new(3 * ONE + ONE / 2, ONE / 2, ONE),
        Vector::new(0, 0, -ONE),
    );
    let (rec, _mat) = quad.hit(&ray, 66, T_LIMIT, &mut rng).expect("hit after translate");
    assert_eq!(rec.t, ONE);
    assert_eq!(rec.p, Vector::new(3 * ONE + ONE / 2, ONE / 2, 0));
    // The untranslated spot now misses.
    let old_spot = Ray::new(Vector::new(ONE / 2, ONE / 2, ONE), Vector::new(0, 0, -ONE));
    assert!(quad.hit(&old_spot, 66, T_LIMIT, &mut rng).is_none());
}

#[test]
fn get_sphere_uv_poles_and_equator() {
    let sphere = Hittable::new_sphere(Vector::new(0, 0, 0), ONE, white_lambertian());
    let mut u: i64 = -1;
    let mut v: i64 = -1;
    sphere.get_sphere_uv(Vector::new(ONE, 0, 0), &mut u, &mut v);
    assert_eq!(v, ONE / 2);
    assert!(u >= 0 && u <= ONE);
    sphere.get_sphere_uv(Vector::new(0, ONE, 0), &mut u, &mut v);
    assert_eq!(v, ONE);
    sphere.get_sphere_uv(Vector::new(0, -ONE, 0), &mut u, &mut v);
    assert_eq!(v, 0);
}

#[test]
fn medium_marks_primitive_and_phase_function() {
    let mut boundary = Hittable::new_sphere(Vector::new(0, 0, 0), 10 * ONE, white_lambertian());
    boundary.add_medium(ONE / 2, Color::new(ONE / 4, ONE / 2, ONE / 4));
    let mut rng = Randomizer::new(3);
    // A ray far outside the boundary never scatters in the medium.
    let far = Ray::new(Vector::new(100 * ONE, 0, 0), Vector::new(0, ONE, 0));
    assert!(boundary.hit(&far, 66, T_LIMIT, &mut rng).is_none());
    // When a ray through the medium does scatter, it reports the phase
    // function's record shape.
    let through = Ray::new(Vector::new(-20 * ONE, 0, 0), Vector::new(ONE, 0, 0));
    for _ in 0..64 {
        if let Some((rec, _mat)) = boundary.hit(&through, 66, T_LIMIT, &mut rng) {
            assert!(rec.front_face);
            assert_eq!(rec.normal, Vector::new(ONE, 0, 0));
            assert!(rec.t >= 66);
            return;
        }
    }
}

#[test]
fn color_pixel_gamma_and_clamp() {
    let c = Color::new(ONE, 0, ONE / 4);
    let (r, g, b) = c.as_pixel();
    assert_eq!(r, 255);
    assert_eq!(g, 0);
    // sqrt(1/4) = 1/2, and 256 * 1/2 = 128.
    assert_eq!(b, 128);
}

#[test]
fn face_normal_orients_against_ray() {
    let mut rec = HitRecord {
        p: Vector::new(0, 0, 0),
        t: ONE,
        normal: Vector::new(0, 0, 0),
        front_face: false,
        u: 0,
        v: 0,
    };
    let outward = Vector::new(0, 0, ONE);
    let into = Ray::new(Vector::new(0, 0, ONE), Vector::new(0, 0, -ONE));
    rec.set_face_normal(into, outward);
    assert!(rec.front_face);
    assert_eq!(rec.normal, outward);
    let along = Ray::new(Vector::new(0, 0, -ONE), Vector::new(0, 0, ONE));
    rec.set_face_normal(along, outward);
    assert!(!rec.front_face);
    assert_eq!(rec.normal, Vector::new(0, 0, -ONE));
}

#[test]
fn hemisphere_and_disk_samples_in_range() {
    let mut rng = Randomizer::new(31);
    let normal = Vector::new(0, ONE, 0);
    for _ in 0..64 {
        let h = Vector::random_on_hemisphere(&mut rng, normal);
        assert!(h.x.abs() <= ONE && h.y.abs() <= ONE && h.z.abs() <= ONE);
        let d = Vector::random_in_unit_disk(&mut rng);
        assert_eq!(d.z, 0);
        assert!(d.x.abs() <= ONE && d.y.abs() <= ONE);
    }
}
