use raytracing::rat::Rat;
use raytracing::shade::{hit_sphere, hit_sphere_bool, isqrt_i128};
use raytracing::vec3::{dot, unit_vector, Ray, Vec3};

fn vec(x: i128, y: i128, z: i128) -> Vec3 {
    Vec3::from_ints(x, y, z)
}

#[test]
fn add_is_commutative() {
    let a = vec(1, 2, 3);
    let b = vec(4, 5, 6);
    let ab = a.add(&b);
    let ba = b.add(&a);
    assert_eq!((ab.nx, ab.ny, ab.nz, ab.den), (5, 7, 9, 1));
    assert_eq!((ba.nx, ba.ny, ba.nz, ba.den), (5, 7, 9, 1));
}

#[test]
fn subtract_undoes_add() {
    let a = vec(1, 2, 3);
    let b = vec(4, 5, 6);
    let back = a.add(&b).sub(&b);
    // exactly the original components: the arithmetic is exact
    assert_eq!(back.nx, back.den * 1);
    assert_eq!(back.ny, back.den * 2);
    assert_eq!(back.nz, back.den * 3);
}

#[test]
fn dot_is_commutative() {
    let a = vec(1, 2, 3);
    let b = vec(4, 5, 6);
    let p = dot(&a, &b);
    let q = dot(&b, &a);
    assert_eq!((p.num, p.den), (32, 1));
    assert_eq!((q.num, q.den), (32, 1));
}

#[test]
fn cross_is_anticommutative() {
    let a = vec(1, 2, 3);
    let b = vec(4, 5, 6);
    let p = a.cross(b);
    let q = b.cross(a).scale(&Rat::from_int(-1));
    assert_eq!((p.nx, p.ny, p.nz, p.den), (-3, 6, -3, 1));
    assert_eq!((q.nx, q.ny, q.nz, q.den), (-3, 6, -3, 1));
}

#[test]
fn unit_vector_divides_by_three() {
    // the fixed division by the component count, not by the magnitude
    let v = vec(3, 6, 9);
    let u = unit_vector(&v);
    let s = v.scale(&Rat::new(1, 3));
    assert_eq!((u.nx, u.ny, u.nz, u.den), (3, 6, 9, 3));
    assert_eq!((s.nx, s.ny, s.nz, s.den), (3, 6, 9, 3));
}

#[test]
fn multiply_is_componentwise() {
    let a = vec(1, 2, 3);
    let b = vec(4, 5, 6);
    let m = a.multiply(&b);
    assert_eq!((m.nx, m.ny, m.nz, m.den), (4, 10, 18, 1));
}

#[test]
fn divide_by_negative_scalar() {
    let v = vec(2, 4, 6);
    let d = v.divide(&Rat::from_int(-2));
    assert!(d.den > 0);
    // value (-1, -2, -3)
    assert_eq!(d.nx, -d.den);
    assert_eq!(d.ny, -2 * d.den);
    assert_eq!(d.nz, -3 * d.den);
}

#[test]
fn ray_at_zero_is_origin() {
    let ray = Ray { origin: vec(1, 2, 3), direction: vec(4, 5, 6) };
    let p = ray.at(Rat::from_int(0));
    assert_eq!(p.nx, p.den * 1);
    assert_eq!(p.ny, p.den * 2);
    assert_eq!(p.nz, p.den * 3);
}

#[test]
fn ray_at_one_is_origin_plus_direction() {
    let ray = Ray { origin: vec(1, 2, 3), direction: vec(4, 5, 6) };
    let p = ray.at(Rat::from_int(1));
    assert_eq!(p.nx, p.den * 5);
    assert_eq!(p.ny, p.den * 7);
    assert_eq!(p.nz, p.den * 9);
}

#[test]
fn boolean_sphere_test_hits_and_misses() {
    let ray = Ray { origin: vec(0, 0, 0), direction: vec(0, 0, -1) };
    let near = vec(0, 0, -1);
    let far = vec(5, 5, 5);
    assert!(hit_sphere_bool(&near, Rat::new(1, 2), &ray));
    assert!(!hit_sphere_bool(&far, Rat::new(1, 2), &ray));
}

#[test]
fn parametric_sphere_test_finds_near_root() {
    let ray = Ray { origin: vec(0, 0, 0), direction: vec(0, 0, -1) };
    let center = vec(0, 0, -1);
    let t = hit_sphere(&center, Rat::new(1, 2), &ray);
    // the nearer root is exactly one half
    assert!(t.eqv(&Rat::new(1, 2)));
    // the hit point lies at distance one half from the center:
    // the squared distance is exactly 1/4
    let p = ray.at(t);
    let diff = p.sub(&center);
    let dd = diff.dot(diff);
    assert!(dd.eqv(&Rat::new(1, 4)));
}

#[test]
fn parametric_sphere_test_miss_is_sentinel() {
    let ray = Ray { origin: vec(0, 0, 0), direction: vec(0, 0, -1) };
    let far = vec(5, 5, 5);
    let t = hit_sphere(&far, Rat::new(1, 2), &ray);
    assert_eq!((t.num, t.den), (-1, 1));
}

#[test]
fn rational_arithmetic_is_exact() {
    let half = Rat::new(1, 2);
    let third = Rat::new(1, 3);
    let s = half.add(&third);
    assert_eq!((s.num, s.den), (5, 6));
    let d = half.sub(&third);
    assert_eq!((d.num, d.den), (1, 6));
    let m = half.mul(&third);
    assert_eq!((m.num, m.den), (1, 6));
    let q = half.div(&third);
    assert_eq!((q.num, q.den), (3, 2));
}

#[test]
fn rounding_is_half_away_from_zero() {
    assert_eq!(Rat::new(5, 2).round(), 3);
    assert_eq!(Rat::new(-5, 2).round(), -3);
    assert_eq!(Rat::new(255, 4).round(), 64);
    assert_eq!(Rat::new(-1, 3).round(), 0);
}

#[test]
fn byte_conversion_saturates() {
    assert_eq!(Rat::from_int(-5).to_byte(), 0);
    assert_eq!(Rat::from_int(300).to_byte(), 255);
    assert_eq!(Rat::from_int(256).to_byte(), 255);
    assert_eq!(Rat::new(255, 4).to_byte(), 64);
}

#[test]
fn integer_square_roots() {
    assert_eq!(isqrt_i128(0), 0);
    assert_eq!(isqrt_i128(1), 1);
    assert_eq!(isqrt_i128(15), 3);
    assert_eq!(isqrt_i128(16), 4);
    assert_eq!(isqrt_i128(1048576), 1024);
}
