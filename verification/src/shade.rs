use vstd::prelude::*;

use crate::rat::{
    lemma_mul_bnd, lemma_mul_pos, sfits, spec_add, spec_div, spec_mul, spec_neg, spec_sub, Rat,
    Ratv,
};
use crate::vec3::{
    add_fits, dot_fits, scale_fits, spec_ray_at, spec_vadd, spec_vdiv, spec_vscale, spec_vsub,
    Ray, Rayv, Vec3, Vec3v,
};

verus! {

// ---------------------------------------------------------------------
// Integer square root
// ---------------------------------------------------------------------
/// `r` is the integer square root of `n`.
pub open spec fn is_isqrt(r: int, n: int) -> bool {
    0 <= r && r * r <= n && n < (r + 1) * (r + 1)
}

/// The integer square root of a nonnegative `n`.
pub open spec fn spec_isqrt(n: int) -> int {
    choose|r: int| is_isqrt(r, n)
}

/// Every nonnegative integer has an integer square root, and it is what
/// `spec_isqrt` denotes.
pub proof fn lemma_isqrt_exists(n: int)
    requires
        0 <= n,
    ensures
        is_isqrt(spec_isqrt(n), n),
    decreases n,
{
    if n == 0 {
        assert(is_isqrt(0, 0));
    } else {
        lemma_isqrt_exists(n - 1);
        let r = spec_isqrt(n - 1);
        if (r + 1) * (r + 1) <= n {
            assert(is_isqrt(r + 1, n)) by (nonlinear_arith)
                requires
                    is_isqrt(r, n - 1),
                    (r + 1) * (r + 1) <= n,
            ;
        } else {
            assert(is_isqrt(r, n));
        }
    }
    assert(exists|r: int| is_isqrt(r, n));
}

/// The integer square root is unique.
pub proof fn lemma_isqrt_unique(a: int, b: int, n: int)
    by (nonlinear_arith)
    requires
        is_isqrt(a, n),
        is_isqrt(b, n),
    ensures
        a == b,
{
}

/// The integer square root of `n`, by binary search.
pub fn isqrt_i128(n: i128) -> (r: i128)
    requires
        0 <= n,
        n <= 0x3fff_ffff_ffff_ffff_ffff_ffff_ffff_ffff,
    ensures
        0 <= r,
        is_isqrt(r as int, n as int),
        r == spec_isqrt(n as int),
{
    let mut lo: i128 = 0;
    let mut hi: i128 = 0x8000_0000_0000_0000;
    proof {
        assert((0x8000_0000_0000_0000 as int) * (0x8000_0000_0000_0000 as int) > n as int)
            by (nonlinear_arith)
            requires
                n <= 0x3fff_ffff_ffff_ffff_ffff_ffff_ffff_ffff,
        ;
    }
    while lo + 1 < hi
        invariant
            0 <= lo < hi <= 0x8000_0000_0000_0000,
            lo * lo <= n,
            n < hi * hi,
        decreases hi - lo,
    {
        let mid = lo + (hi - lo) / 2;
        proof {
            assert(lo < mid < hi);
            assert(mid * mid <= 0x8000_0000_0000_0000 * 0x8000_0000_0000_0000)
                by (nonlinear_arith)
                requires
                    0 <= mid <= 0x8000_0000_0000_0000,
            ;
        }
        if mid * mid <= n {
            lo = mid;
        } else {
            hi = mid;
        }
    }
    proof {
        assert(is_isqrt(lo as int, n as int));
        lemma_isqrt_exists(n as int);
        lemma_isqrt_unique(lo as int, spec_isqrt(n as int), n as int);
    }
    lo
}

/// The scaled radicand used for the square root of a rational `q`:
/// the integer part of `q` times `1024 * 1024`, which equals the floor
/// of `q`'s value scaled by `1024 * 1024`.
pub open spec fn sqrt_arg(q: Ratv) -> int {
    (q.n / q.d) * 1048576 + ((q.n % q.d) * 1048576) / q.d
}

/// The square root of a rational, rounded down to a multiple of
/// `1 / 1024`.
pub open spec fn spec_rsqrt(q: Ratv) -> Ratv {
    Ratv { n: spec_isqrt(sqrt_arg(q)), d: 1024 }
}

/// The square root of `q`, rounded down to a multiple of `1 / 1024`.
pub fn rat_sqrt_floor(q: &Rat) -> (r: Rat)
    requires
        q.wf(),
        0 <= q@.n,
        q@.d <= 0x400_0000_0000_0000_0000_0000_0000,
        q@.n <= q@.d * 0x1_0000_0000_0000_0000_0000_0000,
    ensures
        r.wf(),
        r@ == spec_rsqrt(q@),
        0 <= r@.n,
        r@.d == 1024,
        is_isqrt(r@.n, sqrt_arg(q@)),
        sqrt_arg(q@) <= (q@.n / q@.d + 1) * 1048576,
{
    let w = q.num / q.den;
    let m = q.num % q.den;
    proof {
        assert(0 <= w <= 0x1_0000_0000_0000_0000_0000_0000 && 0 <= m < q@.d)
            by (nonlinear_arith)
            requires
                w == q@.n / q@.d,
                m == q@.n % q@.d,
                0 <= q@.n,
                0 < q@.d,
                q@.n <= q@.d * 0x1_0000_0000_0000_0000_0000_0000,
        ;
        assert(m * 1048576 <= q@.d * 1048576);
        assert((m * 1048576) / q@.d <= 1048576) by (nonlinear_arith)
            requires
                0 <= m < q@.d,
                0 < q@.d,
        ;
        assert(0 <= (m * 1048576) / q@.d) by (nonlinear_arith)
            requires
                0 <= m,
                0 < q@.d,
        ;
    }
    let arg = w * 1048576 + (m * 1048576) / q.den;
    let s = isqrt_i128(arg);
    Rat { num: s, den: 1024 }
}

// ---------------------------------------------------------------------
// Bound plumbing for the intersection arithmetic
// ---------------------------------------------------------------------
/// Bounds on a point's components: origins and sphere centers.
pub open spec fn point_ok(v: Vec3v) -> bool {
    &&& -8 <= v.x.n <= 8
    &&& -8 <= v.y.n <= 8
    &&& -8 <= v.z.n <= 8
    &&& 0 < v.x.d <= 2
    &&& 0 < v.y.d <= 2
    &&& 0 < v.z.d <= 2
}

/// Bounds on a ray direction: numerators and denominators within the
/// viewport range, component values at most 4 in magnitude, and not the
/// zero vector.
pub open spec fn dir_ok(v: Vec3v) -> bool {
    &&& -8388608 <= v.x.n <= 8388608
    &&& -8388608 <= v.y.n <= 8388608
    &&& -8388608 <= v.z.n <= 8388608
    &&& 0 < v.x.d <= 8388608
    &&& 0 < v.y.d <= 8388608
    &&& 0 < v.z.d <= 8388608
    &&& -4 * v.x.d <= v.x.n <= 4 * v.x.d
    &&& -4 * v.y.d <= v.y.n <= 4 * v.y.d
    &&& -4 * v.z.d <= v.z.n <= 4 * v.z.d
    &&& (v.x.n != 0 || v.y.n != 0 || v.z.n != 0)
}

/// Bounds on a sphere radius.
pub open spec fn radius_ok(q: Ratv) -> bool {
    -2 <= q.n <= 2 && 0 < q.d <= 2
}

/// Establishes the overflow conditions of a componentwise addition or
/// subtraction, with bounds on the result.
proof fn lemma_vaddsub_prep(a: Vec3v, b: Vec3v, na: int, da: int, nb: int, db: int)
    requires
        -na <= a.x.n <= na,
        -na <= a.y.n <= na,
        -na <= a.z.n <= na,
        0 < a.x.d <= da,
        a.y.d == a.x.d,
        a.z.d == a.x.d,
        -nb <= b.x.n <= nb,
        -nb <= b.y.n <= nb,
        -nb <= b.z.n <= nb,
        0 < b.x.d <= db,
        b.y.d == b.x.d,
        b.z.d == b.x.d,
        na * db + nb * da <= 0x7fff_ffff_ffff_ffff_ffff_ffff_ffff_ffff,
        da * db <= 0x7fff_ffff_ffff_ffff_ffff_ffff_ffff_ffff,
        0 <= na,
        0 <= nb,
    ensures
        add_fits(a, b),
        -(na * db + nb * da) <= a.x.n * b.x.d + b.x.n * a.x.d <= na * db + nb * da,
        -(na * db + nb * da) <= a.x.n * b.x.d - b.x.n * a.x.d <= na * db + nb * da,
        -(na * db + nb * da) <= a.y.n * b.y.d + b.y.n * a.y.d <= na * db + nb * da,
        -(na * db + nb * da) <= a.y.n * b.y.d - b.y.n * a.y.d <= na * db + nb * da,
        -(na * db + nb * da) <= a.z.n * b.z.d + b.z.n * a.z.d <= na * db + nb * da,
        -(na * db + nb * da) <= a.z.n * b.z.d - b.z.n * a.z.d <= na * db + nb * da,
        0 < a.x.d * b.x.d <= da * db,
{
    lemma_mul_bnd(a.x.n, b.x.d, na, db);
    lemma_mul_bnd(b.x.n, a.x.d, nb, da);
    lemma_mul_bnd(a.y.n, b.y.d, na, db);
    lemma_mul_bnd(b.y.n, a.y.d, nb, da);
    lemma_mul_bnd(a.z.n, b.z.d, na, db);
    lemma_mul_bnd(b.z.n, a.z.d, nb, da);
    lemma_mul_bnd(a.x.d, b.x.d, da, db);
    lemma_mul_pos(a.x.d, b.x.d);
}

/// Establishes the overflow conditions of a scalar product of vectors,
/// with bounds on the result.
proof fn lemma_vdot_prep(a: Vec3v, b: Vec3v, na: int, da: int, nb: int, db: int)
    requires
        -na <= a.x.n <= na,
        -na <= a.y.n <= na,
        -na <= a.z.n <= na,
        0 < a.x.d <= da,
        a.y.d == a.x.d,
        a.z.d == a.x.d,
        -nb <= b.x.n <= nb,
        -nb <= b.y.n <= nb,
        -nb <= b.z.n <= nb,
        0 < b.x.d <= db,
        b.y.d == b.x.d,
        b.z.d == b.x.d,
        3 * (na * nb) <= 0x7fff_ffff_ffff_ffff_ffff_ffff_ffff_ffff,
        da * db <= 0x7fff_ffff_ffff_ffff_ffff_ffff_ffff_ffff,
        0 <= na,
        0 <= nb,
    ensures
        dot_fits(a, b),
        -(3 * (na * nb)) <= a.x.n * b.x.n + a.y.n * b.y.n + a.z.n * b.z.n <= 3 * (na * nb),
        0 < a.x.d * b.x.d <= da * db,
{
    lemma_mul_bnd(a.x.n, b.x.n, na, nb);
    lemma_mul_bnd(a.y.n, b.y.n, na, nb);
    lemma_mul_bnd(a.z.n, b.z.n, na, nb);
    lemma_mul_bnd(a.x.d, b.x.d, da, db);
    lemma_mul_pos(a.x.d, b.x.d);
}

/// Establishes the overflow conditions of scaling a vector by a scalar,
/// with bounds on the result.
proof fn lemma_vscale_prep(v: Vec3v, s: Ratv, nv: int, dv: int, ns: int, ds: int)
    requires
        -nv <= v.x.n <= nv,
        -nv <= v.y.n <= nv,
        -nv <= v.z.n <= nv,
        0 < v.x.d <= dv,
        v.y.d == v.x.d,
        v.z.d == v.x.d,
        -ns <= s.n <= ns,
        0 < s.d <= ds,
        nv * ns <= 0x7fff_ffff_ffff_ffff_ffff_ffff_ffff_ffff,
        dv * ds <= 0x7fff_ffff_ffff_ffff_ffff_ffff_ffff_ffff,
        0 <= nv,
        0 <= ns,
    ensures
        scale_fits(v, s),
        -(nv * ns) <= v.x.n * s.n <= nv * ns,
        -(nv * ns) <= v.y.n * s.n <= nv * ns,
        -(nv * ns) <= v.z.n * s.n <= nv * ns,
        0 < v.x.d * s.d <= dv * ds,
{
    lemma_mul_bnd(v.x.n, s.n, nv, ns);
    lemma_mul_bnd(v.y.n, s.n, nv, ns);
    lemma_mul_bnd(v.z.n, s.n, nv, ns);
    lemma_mul_bnd(v.x.d, s.d, dv, ds);
    lemma_mul_pos(v.x.d, s.d);
}

/// Establishes the overflow conditions of a scalar multiplication, with
/// bounds on the result.
proof fn lemma_rmul_prep(a: Ratv, b: Ratv, na: int, da: int, nb: int, db: int)
    requires
        -na <= a.n <= na,
        0 < a.d <= da,
        -nb <= b.n <= nb,
        0 < b.d <= db,
        na * nb <= 0x7fff_ffff_ffff_ffff_ffff_ffff_ffff_ffff,
        da * db <= 0x7fff_ffff_ffff_ffff_ffff_ffff_ffff_ffff,
        0 <= na,
        0 <= nb,
    ensures
        sfits(a.n * b.n),
        sfits(a.d * b.d),
        -(na * nb) <= a.n * b.n <= na * nb,
        0 < a.d * b.d <= da * db,
{
    lemma_mul_bnd(a.n, b.n, na, nb);
    lemma_mul_bnd(a.d, b.d, da, db);
    lemma_mul_pos(a.d, b.d);
}

/// Establishes the overflow conditions of a scalar addition or
/// subtraction, with bounds on the result.
proof fn lemma_raddsub_prep(a: Ratv, b: Ratv, na: int, da: int, nb: int, db: int)
    requires
        -na <= a.n <= na,
        0 < a.d <= da,
        -nb <= b.n <= nb,
        0 < b.d <= db,
        na * db + nb * da <= 0x7fff_ffff_ffff_ffff_ffff_ffff_ffff_ffff,
        da * db <= 0x7fff_ffff_ffff_ffff_ffff_ffff_ffff_ffff,
        0 <= na,
        0 <= nb,
    ensures
        sfits(a.n * b.d),
        sfits(b.n * a.d),
        sfits(a.n * b.d + b.n * a.d),
        sfits(a.n * b.d - b.n * a.d),
        -(na * db + nb * da) <= a.n * b.d + b.n * a.d <= na * db + nb * da,
        -(na * db + nb * da) <= a.n * b.d - b.n * a.d <= na * db + nb * da,
        0 < a.d * b.d <= da * db,
{
    lemma_mul_bnd(a.n, b.d, na, db);
    lemma_mul_bnd(b.n, a.d, nb, da);
    lemma_mul_bnd(a.d, b.d, da, db);
    lemma_mul_pos(a.d, b.d);
}

/// Establishes the overflow conditions of a scalar division, with
/// bounds on the result.
proof fn lemma_rdiv_prep(a: Ratv, b: Ratv, na: int, da: int, nb: int, db: int)
    requires
        -na <= a.n <= na,
        0 < a.d <= da,
        -nb <= b.n <= nb,
        0 < b.d <= db,
        b.n != 0,
        na * db <= 0x7fff_ffff_ffff_ffff_ffff_ffff_ffff_ffff,
        da * nb <= 0x7fff_ffff_ffff_ffff_ffff_ffff_ffff_ffff,
        0 <= na,
        0 <= nb,
    ensures
        sfits(a.n * b.d),
        sfits(a.d * b.n),
        -(na * db) <= spec_div(a, b).n <= na * db,
        0 < spec_div(a, b).d <= da * nb,
{
    lemma_mul_bnd(a.n, b.d, na, db);
    lemma_mul_bnd(a.d, b.n, da, nb);
    if b.n > 0 {
        lemma_mul_pos(a.d, b.n);
    } else {
        lemma_mul_pos(a.d, -b.n);
        assert(a.d * -b.n == -(a.d * b.n)) by (nonlinear_arith);
    }
}

// ---------------------------------------------------------------------
// The sphere intersection test
// ---------------------------------------------------------------------
/// The scalar product of two vectors held over common denominators,
/// taken as a single fraction.
pub open spec fn cd_dot(a: Vec3v, b: Vec3v) -> Ratv {
    Ratv { n: a.x.n * b.x.n + a.y.n * b.y.n + a.z.n * b.z.n, d: a.x.d * b.x.d }
}

pub open spec fn sphere_oc(ray: Rayv, center: Vec3v) -> Vec3v {
    spec_vsub(ray.origin, center)
}

/// The quadratic coefficient `a = dot(dir, dir)`.
pub open spec fn sphere_qa(ray: Rayv) -> Ratv {
    cd_dot(ray.direction, ray.direction)
}

/// The quadratic coefficient `b = 2 * dot(oc, dir)`.
pub open spec fn sphere_qb(ray: Rayv, center: Vec3v) -> Ratv {
    spec_mul(Ratv { n: 2, d: 1 }, cd_dot(sphere_oc(ray, center), ray.direction))
}

/// The quadratic coefficient `c = dot(oc, oc) - radius * radius`.
pub open spec fn sphere_qc(ray: Rayv, center: Vec3v, radius: Ratv) -> Ratv {
    spec_sub(cd_dot(sphere_oc(ray, center), sphere_oc(ray, center)), spec_mul(radius, radius))
}

/// The discriminant `b * b - 4 * a * c` of the ray-sphere quadratic.
pub open spec fn sphere_disc(ray: Rayv, center: Vec3v, radius: Ratv) -> Ratv {
    spec_sub(
        spec_mul(sphere_qb(ray, center), sphere_qb(ray, center)),
        spec_mul(spec_mul(Ratv { n: 4, d: 1 }, sphere_qa(ray)), sphere_qc(ray, center, radius)),
    )
}

/// The parametric intersection result: `-1` when the discriminant is
/// negative, else the nearer root `(-b - sqrt(disc)) / (2 * a)`, with
/// the square root taken to a precision of `1 / 1024`.
pub open spec fn spec_hit_t(ray: Rayv, center: Vec3v, radius: Ratv) -> Ratv {
    let disc = sphere_disc(ray, center, radius);
    if disc.n < 0 {
        Ratv { n: -1, d: 1 }
    } else {
        spec_div(
            spec_sub(spec_neg(sphere_qb(ray, center)), spec_rsqrt(disc)),
            spec_mul(Ratv { n: 2, d: 1 }, sphere_qa(ray)),
        )
    }
}

/// The quadratic coefficient `b`, built from the plain scalar product.
pub open spec fn sphere_qb_dot(ray: Rayv, center: Vec3v) -> Ratv {
    spec_mul(
        Ratv { n: 2, d: 1 },
        crate::vec3::spec_vdot(sphere_oc(ray, center), ray.direction),
    )
}

/// The quadratic coefficient `c`, built from the plain scalar product.
pub open spec fn sphere_qc_dot(ray: Rayv, center: Vec3v, radius: Ratv) -> Ratv {
    spec_sub(
        crate::vec3::spec_vdot(sphere_oc(ray, center), sphere_oc(ray, center)),
        spec_mul(radius, radius),
    )
}

/// The discriminant `b * b - 4 * a * c`, built from the plain scalar
/// products.
pub open spec fn sphere_disc_dot(ray: Rayv, center: Vec3v, radius: Ratv) -> Ratv {
    spec_sub(
        spec_mul(sphere_qb_dot(ray, center), sphere_qb_dot(ray, center)),
        spec_mul(
            spec_mul(
                Ratv { n: 4, d: 1 },
                crate::vec3::spec_vdot(ray.direction, ray.direction),
            ),
            sphere_qc_dot(ray, center, radius),
        ),
    )
}

/// A scalar product over common denominators denotes the same rational
/// as the plain scalar product.
proof fn lemma_cd_dot_eqv(a: Vec3v, b: Vec3v)
    requires
        a.y.d == a.x.d,
        a.z.d == a.x.d,
        b.y.d == b.x.d,
        b.z.d == b.x.d,
    ensures
        crate::rat::rat_eqv(cd_dot(a, b), crate::vec3::spec_vdot(a, b)),
{
    let p1 = a.x.n * b.x.n;
    let p2 = a.y.n * b.y.n;
    let p3 = a.z.n * b.z.n;
    let d = a.x.d * b.x.d;
    assert((p1 + p2 + p3) * ((d * d) * d) == ((p1 * d + p2 * d) * d + p3 * (d * d)) * d)
        by (nonlinear_arith);
}

/// The discriminant taken over common denominators denotes the same
/// rational as the textbook `b * b - 4 * a * c` built from the plain
/// scalar products.
pub proof fn lemma_disc_matches_quadratic(ray: Rayv, center: Vec3v, radius: Ratv)
    requires
        ray.origin.y.d == ray.origin.x.d,
        ray.origin.z.d == ray.origin.x.d,
        ray.direction.y.d == ray.direction.x.d,
        ray.direction.z.d == ray.direction.x.d,
        center.y.d == center.x.d,
        center.z.d == center.x.d,
    ensures
        crate::rat::rat_eqv(
            sphere_disc(ray, center, radius),
            sphere_disc_dot(ray, center, radius),
        ),
{
    let oc = sphere_oc(ray, center);
    let dir = ray.direction;
    let two = Ratv { n: 2, d: 1 };
    let four = Ratv { n: 4, d: 1 };
    let rr = spec_mul(radius, radius);
    assert(oc.y.d == oc.x.d);
    assert(oc.z.d == oc.x.d);
    lemma_cd_dot_eqv(dir, dir);
    lemma_cd_dot_eqv(oc, dir);
    lemma_cd_dot_eqv(oc, oc);
    crate::rat::lemma_mul_congr(two, two, cd_dot(oc, dir), crate::vec3::spec_vdot(oc, dir));
    crate::rat::lemma_sub_congr(
        cd_dot(oc, oc),
        crate::vec3::spec_vdot(oc, oc),
        rr,
        rr,
    );
    crate::rat::lemma_mul_congr(
        sphere_qb(ray, center),
        sphere_qb_dot(ray, center),
        sphere_qb(ray, center),
        sphere_qb_dot(ray, center),
    );
    crate::rat::lemma_mul_congr(four, four, cd_dot(dir, dir), crate::vec3::spec_vdot(dir, dir));
    crate::rat::lemma_mul_congr(
        spec_mul(four, sphere_qa(ray)),
        spec_mul(four, crate::vec3::spec_vdot(dir, dir)),
        sphere_qc(ray, center, radius),
        sphere_qc_dot(ray, center, radius),
    );
    crate::rat::lemma_sub_congr(
        spec_mul(sphere_qb(ray, center), sphere_qb(ray, center)),
        spec_mul(sphere_qb_dot(ray, center), sphere_qb_dot(ray, center)),
        spec_mul(spec_mul(four, sphere_qa(ray)), sphere_qc(ray, center, radius)),
        spec_mul(
            spec_mul(four, crate::vec3::spec_vdot(dir, dir)),
            sphere_qc_dot(ray, center, radius),
        ),
    );
}

/// The denominator of a plain scalar product of well-formed vectors is
/// positive.
proof fn lemma_vdot_den_pos(a: Vec3v, b: Vec3v)
    requires
        crate::vec3::v_wf(a),
        crate::vec3::v_wf(b),
    ensures
        crate::vec3::spec_vdot(a, b).d > 0,
{
    lemma_mul_pos(a.x.d, b.x.d);
    lemma_mul_pos(a.y.d, b.y.d);
    lemma_mul_pos(a.z.d, b.z.d);
    lemma_mul_pos(a.x.d * b.x.d, a.y.d * b.y.d);
    lemma_mul_pos((a.x.d * b.x.d) * (a.y.d * b.y.d), a.z.d * b.z.d);
}

/// The boolean policy's condition, the sign of the discriminant over
/// common denominators, is the sign of the textbook discriminant built
/// from the plain scalar products.
pub proof fn lemma_disc_sign_matches(ray: Rayv, center: Vec3v, radius: Ratv)
    requires
        crate::vec3::v_wf(ray.origin),
        crate::vec3::v_wf(ray.direction),
        crate::vec3::v_wf(center),
        radius.d > 0,
        ray.origin.y.d == ray.origin.x.d,
        ray.origin.z.d == ray.origin.x.d,
        ray.direction.y.d == ray.direction.x.d,
        ray.direction.z.d == ray.direction.x.d,
        center.y.d == center.x.d,
        center.z.d == center.x.d,
    ensures
        (sphere_disc(ray, center, radius).n > 0) == (sphere_disc_dot(ray, center, radius).n > 0),
{
    lemma_disc_matches_quadratic(ray, center, radius);
    let oc = sphere_oc(ray, center);
    let dir = ray.direction;
    let four = Ratv { n: 4, d: 1 };
    lemma_mul_pos(ray.origin.x.d, center.x.d);
    lemma_mul_pos(ray.origin.y.d, center.y.d);
    lemma_mul_pos(ray.origin.z.d, center.z.d);
    assert(crate::vec3::v_wf(oc));
    // denominators of the common-denominator form
    let qb = sphere_qb(ray, center);
    let qa = sphere_qa(ray);
    let qc = sphere_qc(ray, center, radius);
    lemma_mul_pos(oc.x.d, dir.x.d);
    lemma_mul_pos(dir.x.d, dir.x.d);
    lemma_mul_pos(oc.x.d, oc.x.d);
    lemma_mul_pos(radius.d, radius.d);
    lemma_mul_pos(oc.x.d * oc.x.d, radius.d * radius.d);
    lemma_mul_pos(qb.d, qb.d);
    lemma_mul_pos(spec_mul(four, qa).d, qc.d);
    lemma_mul_pos(spec_mul(qb, qb).d, spec_mul(spec_mul(four, qa), qc).d);
    assert(sphere_disc(ray, center, radius).d > 0);
    // denominators of the plain-scalar-product form
    let qb2 = sphere_qb_dot(ray, center);
    let qc2 = sphere_qc_dot(ray, center, radius);
    lemma_vdot_den_pos(oc, dir);
    lemma_vdot_den_pos(dir, dir);
    lemma_vdot_den_pos(oc, oc);
    lemma_mul_pos(crate::vec3::spec_vdot(oc, oc).d, radius.d * radius.d);
    lemma_mul_pos(qb2.d, qb2.d);
    lemma_mul_pos(spec_mul(four, crate::vec3::spec_vdot(dir, dir)).d, qc2.d);
    lemma_mul_pos(
        spec_mul(qb2, qb2).d,
        spec_mul(spec_mul(four, crate::vec3::spec_vdot(dir, dir)), qc2).d,
    );
    assert(sphere_disc_dot(ray, center, radius).d > 0);
    crate::rat::lemma_eqv_sign(
        sphere_disc(ray, center, radius),
        sphere_disc_dot(ray, center, radius),
    );
}

/// The discriminant of the ray-sphere quadratic, exactly.
fn sphere_discriminant(center: &Vec3, radius: Rat, ray: &Ray) -> (r: Rat)
    requires
        center.wf(),
        radius.wf(),
        ray.wf(),
        point_ok(center@),
        point_ok(ray@.origin),
        dir_ok(ray@.direction),
        radius_ok(radius@),
    ensures
        r.wf(),
        r@ == sphere_disc(ray@, center@, radius@),
        -23426183092217679339659075235348480 <= r@.n <= 23426183092217679339659075235348480,
        0 < r@.d <= 5070602400912917605986812821504,
        -1180416 * r@.d <= r@.n <= 1180416 * r@.d,
{
    proof {
        lemma_vaddsub_prep(ray@.origin, center@, 8, 2, 8, 2);
    }
    let oc = ray.origin.sub(center);
    proof {
        lemma_vdot_prep(ray@.direction, ray@.direction, 8388608, 8388608, 8388608, 8388608);
    }
    let qa = ray.direction.dot(ray.direction);
    proof {
        lemma_vdot_prep(oc@, ray@.direction, 32, 4, 8388608, 8388608);
    }
    let docd = oc.dot(ray.direction);
    proof {
        lemma_rmul_prep(
            Ratv { n: 2, d: 1 },
            docd@,
            2,
            1,
            805306368,
            33554432,
        );
    }
    let two = Rat::from_int(2);
    let qb = two.mul(&docd);
    proof {
        lemma_vdot_prep(oc@, oc@, 32, 4, 32, 4);
    }
    let doo = oc.dot(oc);
    proof {
        lemma_rmul_prep(radius@, radius@, 2, 2, 2, 2);
    }
    let rr = radius.mul(&radius);
    proof {
        lemma_raddsub_prep(doo@, rr@, 3072, 16, 4, 4);
    }
    let qc = doo.sub(&rr);
    proof {
        lemma_rmul_prep(qb@, qb@, 1610612736, 33554432, 1610612736, 33554432);
    }
    let bb = qb.mul(&qb);
    proof {
        lemma_rmul_prep(
            Ratv { n: 4, d: 1 },
            qa@,
            4,
            1,
            211106232532992,
            70368744177664,
        );
    }
    let four = Rat::from_int(4);
    let fa = four.mul(&qa);
    proof {
        lemma_rmul_prep(fa@, qc@, 844424930131968, 70368744177664, 12352, 64);
    }
    let fac = fa.mul(&qc);
    proof {
        lemma_raddsub_prep(
            bb@,
            fac@,
            2594073385365405696,
            1125899906842624,
            10430336736990068736,
            4503599627370496,
        );
    }
    let disc = bb.sub(&fac);
    proof {
        let dv = ray@.direction;
        let ocv = oc@;
        // value bound of dot(oc, dir): each direction component is at
        // most 4 in magnitude, each oc component at most 32.
        assert(-384 * (ocv.x.d * dv.x.d) <= docd@.n <= 384 * (ocv.x.d * dv.x.d))
            by (nonlinear_arith)
            requires
                docd@.n == ocv.x.n * dv.x.n + ocv.y.n * dv.y.n + ocv.z.n * dv.z.n,
                -32 <= ocv.x.n <= 32,
                -32 <= ocv.y.n <= 32,
                -32 <= ocv.z.n <= 32,
                -4 * dv.x.d <= dv.x.n <= 4 * dv.x.d,
                -4 * dv.y.d <= dv.y.n <= 4 * dv.y.d,
                -4 * dv.z.d <= dv.z.n <= 4 * dv.z.d,
                dv.y.d == dv.x.d,
                dv.z.d == dv.x.d,
                0 < dv.x.d,
                1 <= ocv.x.d,
        ;
        // value bound of a = dot(dir, dir).
        assert(0 <= qa@.n <= 48 * qa@.d) by (nonlinear_arith)
            requires
                qa@.n == dv.x.n * dv.x.n + dv.y.n * dv.y.n + dv.z.n * dv.z.n,
                qa@.d == dv.x.d * dv.x.d,
                -4 * dv.x.d <= dv.x.n <= 4 * dv.x.d,
                -4 * dv.y.d <= dv.y.n <= 4 * dv.y.d,
                -4 * dv.z.d <= dv.z.n <= 4 * dv.z.d,
                dv.y.d == dv.x.d,
                dv.z.d == dv.x.d,
                0 < dv.x.d,
        ;
        // value bound of c = dot(oc, oc) - radius * radius.
        assert(-3076 * qc@.d <= qc@.n <= 3076 * qc@.d) by (nonlinear_arith)
            requires
                qc@.n == doo@.n * rr@.d - rr@.n * doo@.d,
                qc@.d == doo@.d * rr@.d,
                -3072 <= doo@.n <= 3072,
                -4 <= rr@.n <= 4,
                1 <= doo@.d,
                1 <= rr@.d,
        ;
        // value bound of the discriminant.
        assert(-1180416 * disc@.d <= disc@.n <= 1180416 * disc@.d) by (nonlinear_arith)
            requires
                disc@.n == bb@.n * fac@.d - fac@.n * bb@.d,
                disc@.d == bb@.d * fac@.d,
                bb@.n == qb@.n * qb@.n,
                bb@.d == qb@.d * qb@.d,
                qb@.n == 2 * docd@.n,
                qb@.d == 1 * docd@.d,
                -384 * docd@.d <= docd@.n <= 384 * docd@.d,
                fac@.n == fa@.n * qc@.n,
                fac@.d == fa@.d * qc@.d,
                fa@.n == 4 * qa@.n,
                fa@.d == 1 * qa@.d,
                0 <= qa@.n <= 48 * qa@.d,
                -3076 * qc@.d <= qc@.n <= 3076 * qc@.d,
                0 < docd@.d,
                0 < qa@.d,
                0 < qc@.d,
                0 < bb@.d,
                0 < fac@.d,
        ;
    }
    disc
}

/// The boolean intersection policy: the ray meets the sphere exactly
/// when the discriminant is strictly positive, so a tangent ray misses.
pub fn hit_sphere_bool(center: &Vec3, radius: Rat, ray: &Ray) -> (r: bool)
    requires
        center.wf(),
        radius.wf(),
        ray.wf(),
        point_ok(center@),
        point_ok(ray@.origin),
        dir_ok(ray@.direction),
        radius_ok(radius@),
    ensures
        r == (sphere_disc(ray@, center@, radius@).n > 0),
{
    let disc = sphere_discriminant(center, radius, ray);
    disc.is_pos()
}

/// The parametric intersection policy: the sentinel `-1` when the
/// discriminant is negative, else the nearer root of the quadratic,
/// which may still be negative when the sphere lies behind the ray.
pub fn hit_sphere(center: &Vec3, radius: Rat, ray: &Ray) -> (r: Rat)
    requires
        center.wf(),
        radius.wf(),
        ray.wf(),
        point_ok(center@),
        point_ok(ray@.origin),
        dir_ok(ray@.direction),
        radius_ok(radius@),
    ensures
        r.wf(),
        r@ == spec_hit_t(ray@, center@, radius@),
        -4951760157141521099596496896 <= r@.n <= 4951760157141521099596496896,
        0 < r@.d <= 19342813113834066795298816,
{
    let disc = sphere_discriminant(center, radius, ray);
    if disc.num < 0 {
        Rat { num: -1, den: 1 }
    } else {
        let s = rat_sqrt_floor(&disc);
        proof {
            // the scaled radicand is bounded by the discriminant's value
            assert(disc@.n / disc@.d <= 1180416) by (nonlinear_arith)
                requires
                    0 <= disc@.n <= 1180416 * disc@.d,
                    0 < disc@.d,
            ;
            assert(sqrt_arg(disc@) <= 1237757984768);
            assert(s@.n <= 1200000) by (nonlinear_arith)
                requires
                    0 <= s@.n,
                    s@.n * s@.n <= 1237757984768,
            ;
        }
        // recompute the quadratic pieces for the root
        proof {
            lemma_vaddsub_prep(ray@.origin, center@, 8, 2, 8, 2);
        }
        let oc = ray.origin.sub(center);
        proof {
            lemma_vdot_prep(ray@.direction, ray@.direction, 8388608, 8388608, 8388608, 8388608);
        }
        let qa = ray.direction.dot(ray.direction);
        proof {
            lemma_vdot_prep(oc@, ray@.direction, 32, 4, 8388608, 8388608);
        }
        let docd = oc.dot(ray.direction);
        proof {
            lemma_rmul_prep(Ratv { n: 2, d: 1 }, docd@, 2, 1, 805306368, 33554432);
        }
        let two = Rat::from_int(2);
        let qb = two.mul(&docd);
        let negb = qb.neg();
        proof {
            lemma_raddsub_prep(negb@, s@, 1610612736, 33554432, 1200000, 1024);
        }
        let u = negb.sub(&s);
        proof {
            lemma_rmul_prep(Ratv { n: 2, d: 1 }, qa@, 2, 1, 211106232532992, 70368744177664);
            // the direction is not the zero vector, so a > 0
            let dv = ray@.direction;
            assert(qa@.n > 0) by (nonlinear_arith)
                requires
                    qa@.n == dv.x.n * dv.x.n + dv.y.n * dv.y.n + dv.z.n * dv.z.n,
                    dv.x.n != 0 || dv.y.n != 0 || dv.z.n != 0,
            ;
        }
        let two_a = two.mul(&qa);
        proof {
            lemma_rdiv_prep(
                u@,
                two_a@,
                41914585841664,
                34359738368,
                422212465065984,
                70368744177664,
            );
        }
        u.div(&two_a)
    }
}

// ---------------------------------------------------------------------
// The shading policies
// ---------------------------------------------------------------------
pub open spec fn white_v() -> Vec3v {
    Vec3v { x: Ratv { n: 1, d: 1 }, y: Ratv { n: 1, d: 1 }, z: Ratv { n: 1, d: 1 } }
}

/// The sky color `(0.5, 0.7, 1.0)`, held over the denominator 20.
pub open spec fn skyblue_v() -> Vec3v {
    Vec3v { x: Ratv { n: 10, d: 20 }, y: Ratv { n: 14, d: 20 }, z: Ratv { n: 20, d: 20 } }
}

pub open spec fn red_v() -> Vec3v {
    Vec3v { x: Ratv { n: 1, d: 1 }, y: Ratv { n: 0, d: 1 }, z: Ratv { n: 0, d: 1 } }
}

pub open spec fn ones_v() -> Vec3v {
    white_v()
}

/// The center `(0, 0, -1)` of the fixed scene sphere.
pub open spec fn scene_center_v() -> Vec3v {
    Vec3v { x: Ratv { n: 0, d: 1 }, y: Ratv { n: 0, d: 1 }, z: Ratv { n: -1, d: 1 } }
}

/// The background gradient: normalize the direction by dividing by 3,
/// set `t = 0.5 * (unit.y + 1)`, and blend white with the sky color.
pub open spec fn spec_sky(dir: Vec3v) -> Vec3v {
    let unit = spec_vdiv(dir, Ratv { n: 3, d: 1 });
    let t = spec_mul(Ratv { n: 1, d: 2 }, spec_add(unit.y, Ratv { n: 1, d: 1 }));
    spec_vadd(
        spec_vscale(white_v(), spec_sub(Ratv { n: 1, d: 1 }, t)),
        spec_vscale(skyblue_v(), t),
    )
}

/// The background gradient policy.
pub fn ray_color(ray: &Ray) -> (r: Vec3)
    requires
        ray.wf(),
        dir_ok(ray@.direction),
    ensures
        r.wf(),
        r@ == spec_sky(ray@.direction),
        -144115188075855872 <= r@.x.n <= 144115188075855872,
        -144115188075855872 <= r@.y.n <= 144115188075855872,
        -144115188075855872 <= r@.z.n <= 144115188075855872,
        0 < r@.x.d <= 72057594037927936,
{
    let unit = crate::vec3::unit_vector(&ray.direction);
    let uy = Rat { num: unit.ny, den: unit.den };
    proof {
        assert(uy@ == spec_vdiv(ray@.direction, Ratv { n: 3, d: 1 }).y);
        lemma_raddsub_prep(uy@, Ratv { n: 1, d: 1 }, 8388608, 25165824, 1, 1);
    }
    let one = Rat::from_int(1);
    let uy1 = uy.add(&one);
    proof {
        lemma_rmul_prep(Ratv { n: 1, d: 2 }, uy1@, 1, 2, 33554432, 25165824);
    }
    let half = Rat::new(1, 2);
    let t = half.mul(&uy1);
    proof {
        lemma_raddsub_prep(Ratv { n: 1, d: 1 }, t@, 1, 1, 33554432, 50331648);
    }
    let omt = one.sub(&t);
    let white = Vec3::from_ints(1, 1, 1);
    proof {
        lemma_vscale_prep(white@, omt@, 1, 1, 83886080, 50331648);
    }
    let term1 = white.scale(&omt);
    let half2 = Rat::new(1, 2);
    let sky7 = Rat::new(7, 10);
    let one2 = Rat::from_int(1);
    let skyblue = Vec3::new(&half2, &sky7, &one2);
    proof {
        assert(skyblue@ == skyblue_v());
        lemma_vscale_prep(skyblue@, t@, 20, 20, 33554432, 50331648);
    }
    let term2 = skyblue.scale(&t);
    proof {
        lemma_vaddsub_prep(term1@, term2@, 83886080, 50331648, 671088640, 1006632960);
    }
    term1.add(&term2)
}

/// The flat-color sphere policy: solid red when the boolean test against
/// the sphere at `(0, 0, -1)` with radius one half reports a hit, else
/// the background gradient.
pub open spec fn spec_flat_color(ray: Rayv) -> Vec3v {
    if sphere_disc(ray, scene_center_v(), Ratv { n: 1, d: 2 }).n > 0 {
        red_v()
    } else {
        spec_sky(ray.direction)
    }
}

pub fn ray_color_with_sphere_hit_only(ray: &Ray) -> (r: Vec3)
    requires
        ray.wf(),
        point_ok(ray@.origin),
        dir_ok(ray@.direction),
    ensures
        r.wf(),
        r@ == spec_flat_color(ray@),
        -144115188075855872 <= r@.x.n <= 144115188075855872,
        -144115188075855872 <= r@.y.n <= 144115188075855872,
        -144115188075855872 <= r@.z.n <= 144115188075855872,
        0 < r@.x.d <= 72057594037927936,
{
    let sphere_center = Vec3::from_ints(0, 0, -1);
    let radius = Rat::new(1, 2);
    if hit_sphere_bool(&sphere_center, radius, ray) {
        Vec3::from_ints(1, 0, 0)
    } else {
        ray_color(ray)
    }
}

/// Every component multiplied by 256.
pub open spec fn spec_color256(v: Vec3v) -> Vec3v {
    spec_vscale(v, Ratv { n: 256, d: 1 })
}

/// The normal-shading policy: when the parametric test against the
/// sphere at `(0, 0, -1)` with radius one half yields a positive root
/// `t`, shade by the surface normal at the hit point, remapped from
/// `[-1, 1]` to `[0, 1]` and scaled by `0.5 * 256`; else the background
/// gradient scaled by 256.
pub open spec fn spec_normal_color(ray: Rayv) -> Vec3v {
    let t = spec_hit_t(ray, scene_center_v(), Ratv { n: 1, d: 2 });
    if t.n > 0 {
        let diff = spec_vsub(spec_ray_at(ray, t), scene_center_v());
        let normal = spec_vdiv(diff, Ratv { n: 3, d: 1 });
        let unit_value = spec_vadd(normal, ones_v());
        spec_vscale(spec_color256(unit_value), Ratv { n: 1, d: 2 })
    } else {
        spec_color256(spec_sky(ray.direction))
    }
}

pub fn ray_color_with_sphere_with_normal(ray: &Ray) -> (r: Vec3)
    requires
        ray.wf(),
        point_ok(ray@.origin),
        dir_ok(ray@.direction),
    ensures
        r.wf(),
        r@ == spec_normal_color(ray@),
        -42535295865117307932921825928971026432 <= r@.x.n <= 42535295865117307932921825928971026432,
        -42535295865117307932921825928971026432 <= r@.y.n <= 42535295865117307932921825928971026432,
        -42535295865117307932921825928971026432 <= r@.z.n <= 42535295865117307932921825928971026432,
        0 < r@.x.d <= 2596148429267413814265248164610048,
{
    let sphere_center = Vec3::from_ints(0, 0, -1);
    let radius = Rat::new(1, 2);
    let t = hit_sphere(&sphere_center, radius, ray);
    if t.is_pos() {
        proof {
            lemma_vscale_prep(
                ray@.direction,
                t@,
                8388608,
                8388608,
                4951760157141521099596496896,
                19342813113834066795298816,
            );
        }
        let scaled = ray.direction.scale(&t);
        proof {
            lemma_vaddsub_prep(
                ray@.origin,
                scaled@,
                8,
                2,
                41538374868278621028243970633760768,
                162259276829213363391578010288128,
            );
        }
        let hitp = ray.origin.add(&scaled);
        proof {
            lemma_vaddsub_prep(
                hitp@,
                sphere_center@,
                84374823951190948963620565349826560,
                324518553658426726783156020576256,
                1,
                1,
            );
        }
        let diff = hitp.sub(&sphere_center);
        let normal = crate::vec3::unit_vector(&diff);
        let ones = Vec3::from_ints(1, 1, 1);
        proof {
            lemma_vaddsub_prep(
                normal@,
                ones@,
                84699342504849375690403721370402816,
                973555660975280180349468061728768,
                1,
                1,
            );
        }
        let unit_value = normal.add(&ones);
        proof {
            lemma_vscale_prep(
                unit_value@,
                Ratv { n: 256, d: 1 },
                85672898165824655870753189432131584,
                973555660975280180349468061728768,
                256,
                1,
            );
        }
        let c256 = color(&unit_value);
        proof {
            lemma_vscale_prep(
                c256@,
                Ratv { n: 1, d: 2 },
                21932261930451111902912816494625685504,
                973555660975280180349468061728768,
                1,
                2,
            );
        }
        let half = Rat::new(1, 2);
        c256.scale(&half)
    } else {
        let sky = ray_color(ray);
        proof {
            lemma_vscale_prep(
                sky@,
                Ratv { n: 256, d: 1 },
                144115188075855872,
                72057594037927936,
                256,
                1,
            );
        }
        color(&sky)
    }
}

/// A color within the shading policies' output bounds can be scaled by
/// 255 and rounded without leaving 128 bits.
pub proof fn lemma_scale_255(v: Vec3v)
    requires
        -144115188075855872 <= v.x.n <= 144115188075855872,
        -144115188075855872 <= v.y.n <= 144115188075855872,
        -144115188075855872 <= v.z.n <= 144115188075855872,
        0 < v.x.d <= 72057594037927936,
        v.y.d == v.x.d,
        v.z.d == v.x.d,
    ensures
        scale_fits(v, Ratv { n: 255, d: 1 }),
        crate::pixel::pixel_fits(spec_vscale(v, Ratv { n: 255, d: 1 })),
{
    lemma_vscale_prep(v, Ratv { n: 255, d: 1 }, 144115188075855872, 72057594037927936, 255, 1);
}

/// Every component multiplied by 256.
pub fn color(vec: &Vec3) -> (r: Vec3)
    requires
        vec.wf(),
        scale_fits(vec@, Ratv { n: 256, d: 1 }),
    ensures
        r.wf(),
        r@ == spec_color256(vec@),
{
    let s = Rat::from_int(256);
    vec.scale(&s)
}

} // verus!
