use vstd::prelude::*;

use crate::rat::{
    rat_eqv, sfits, spec_add, spec_div, spec_mul, spec_sub, Rat, Ratv,
};

verus! {

/// The mathematical value of a vector: three rational components. Index
/// order is fixed; a value stands for a point, a direction or a color
/// depending on use, the type carries no tag.
pub struct Vec3v {
    pub x: Ratv,
    pub y: Ratv,
    pub z: Ratv,
}

pub open spec fn v_wf(v: Vec3v) -> bool {
    v.x.d > 0 && v.y.d > 0 && v.z.d > 0
}

/// Componentwise equality of values.
pub open spec fn veqv(a: Vec3v, b: Vec3v) -> bool {
    rat_eqv(a.x, b.x) && rat_eqv(a.y, b.y) && rat_eqv(a.z, b.z)
}

pub open spec fn spec_vadd(a: Vec3v, b: Vec3v) -> Vec3v {
    Vec3v { x: spec_add(a.x, b.x), y: spec_add(a.y, b.y), z: spec_add(a.z, b.z) }
}

pub open spec fn spec_vsub(a: Vec3v, b: Vec3v) -> Vec3v {
    Vec3v { x: spec_sub(a.x, b.x), y: spec_sub(a.y, b.y), z: spec_sub(a.z, b.z) }
}

/// Componentwise product (color blending, no geometric meaning).
pub open spec fn spec_vmul(a: Vec3v, b: Vec3v) -> Vec3v {
    Vec3v { x: spec_mul(a.x, b.x), y: spec_mul(a.y, b.y), z: spec_mul(a.z, b.z) }
}

/// Every component multiplied by the scalar `s`.
pub open spec fn spec_vscale(v: Vec3v, s: Ratv) -> Vec3v {
    Vec3v { x: spec_mul(v.x, s), y: spec_mul(v.y, s), z: spec_mul(v.z, s) }
}

/// Every component divided by the scalar `s`.
pub open spec fn spec_vdiv(v: Vec3v, s: Ratv) -> Vec3v {
    Vec3v { x: spec_div(v.x, s), y: spec_div(v.y, s), z: spec_div(v.z, s) }
}

/// The scalar product, summed left to right.
pub open spec fn spec_vdot(a: Vec3v, b: Vec3v) -> Ratv {
    spec_add(spec_add(spec_mul(a.x, b.x), spec_mul(a.y, b.y)), spec_mul(a.z, b.z))
}

/// The right-handed cross product.
pub open spec fn spec_vcross(a: Vec3v, b: Vec3v) -> Vec3v {
    Vec3v {
        x: spec_sub(spec_mul(a.y, b.z), spec_mul(a.z, b.y)),
        y: spec_sub(spec_mul(a.z, b.x), spec_mul(a.x, b.z)),
        z: spec_sub(spec_mul(a.x, b.y), spec_mul(a.y, b.x)),
    }
}

/// A vector of three rational components held over one common
/// denominator: the components are `nx/den`, `ny/den`, `nz/den`.
#[derive(Clone, Copy)]
pub struct Vec3 {
    pub nx: i128,
    pub ny: i128,
    pub nz: i128,
    pub den: i128,
}

impl View for Vec3 {
    type V = Vec3v;

    open spec fn view(&self) -> Vec3v {
        Vec3v {
            x: Ratv { n: self.nx as int, d: self.den as int },
            y: Ratv { n: self.ny as int, d: self.den as int },
            z: Ratv { n: self.nz as int, d: self.den as int },
        }
    }
}

pub open spec fn add_fits(a: Vec3v, b: Vec3v) -> bool {
    &&& sfits(a.x.n * b.x.d)
    &&& sfits(b.x.n * a.x.d)
    &&& sfits(a.x.n * b.x.d + b.x.n * a.x.d)
    &&& sfits(a.x.n * b.x.d - b.x.n * a.x.d)
    &&& sfits(a.y.n * b.y.d)
    &&& sfits(b.y.n * a.y.d)
    &&& sfits(a.y.n * b.y.d + b.y.n * a.y.d)
    &&& sfits(a.y.n * b.y.d - b.y.n * a.y.d)
    &&& sfits(a.z.n * b.z.d)
    &&& sfits(b.z.n * a.z.d)
    &&& sfits(a.z.n * b.z.d + b.z.n * a.z.d)
    &&& sfits(a.z.n * b.z.d - b.z.n * a.z.d)
    &&& sfits(a.x.d * b.x.d)
}

pub open spec fn scale_fits(v: Vec3v, s: Ratv) -> bool {
    &&& sfits(v.x.n * s.n)
    &&& sfits(v.y.n * s.n)
    &&& sfits(v.z.n * s.n)
    &&& sfits(v.x.d * s.d)
}

pub open spec fn div_fits(v: Vec3v, s: Ratv) -> bool {
    &&& sfits(v.x.n * s.d)
    &&& sfits(v.y.n * s.d)
    &&& sfits(v.z.n * s.d)
    &&& sfits(v.x.d * s.n)
}

pub open spec fn dot_fits(a: Vec3v, b: Vec3v) -> bool {
    &&& sfits(a.x.n * b.x.n)
    &&& sfits(a.y.n * b.y.n)
    &&& sfits(a.z.n * b.z.n)
    &&& sfits(a.x.n * b.x.n + a.y.n * b.y.n)
    &&& sfits(a.x.n * b.x.n + a.y.n * b.y.n + a.z.n * b.z.n)
    &&& sfits(a.x.d * b.x.d)
}

pub open spec fn cross_fits(a: Vec3v, b: Vec3v) -> bool {
    &&& sfits(a.y.n * b.z.n)
    &&& sfits(a.z.n * b.y.n)
    &&& sfits(a.y.n * b.z.n - a.z.n * b.y.n)
    &&& sfits(a.z.n * b.x.n)
    &&& sfits(a.x.n * b.z.n)
    &&& sfits(a.z.n * b.x.n - a.x.n * b.z.n)
    &&& sfits(a.x.n * b.y.n)
    &&& sfits(a.y.n * b.x.n)
    &&& sfits(a.x.n * b.y.n - a.y.n * b.x.n)
    &&& sfits(a.x.d * b.x.d)
}

impl Vec3 {
    pub open spec fn wf(&self) -> bool {
        self.den > 0
    }

    /// The vector with the three given components, put over the common
    /// denominator `x.den * y.den * z.den`.
    pub fn new(x: &Rat, y: &Rat, z: &Rat) -> (r: Vec3)
        requires
            x.wf(),
            y.wf(),
            z.wf(),
            sfits(y@.d * z@.d),
            sfits(x@.d * z@.d),
            sfits(x@.d * y@.d),
            sfits(x@.d * (y@.d * z@.d)),
            sfits(x@.n * (y@.d * z@.d)),
            sfits(y@.n * (x@.d * z@.d)),
            sfits(z@.n * (x@.d * y@.d)),
        ensures
            r.wf(),
            r@.x.d == x@.d * (y@.d * z@.d),
            r@.x.n == x@.n * (y@.d * z@.d),
            r@.y.n == y@.n * (x@.d * z@.d),
            r@.z.n == z@.n * (x@.d * y@.d),
            veqv(r@, Vec3v { x: x@, y: y@, z: z@ }),
    {
        let r = Vec3 {
            nx: x.num * (y.den * z.den),
            ny: y.num * (x.den * z.den),
            nz: z.num * (x.den * y.den),
            den: x.den * (y.den * z.den),
        };
        proof {
            crate::rat::lemma_mul_pos(y@.d, z@.d);
            crate::rat::lemma_mul_pos(x@.d, y@.d * z@.d);
            assert(x@.n * (y@.d * z@.d) * x@.d == x@.n * (x@.d * (y@.d * z@.d)))
                by (nonlinear_arith);
            assert(y@.n * (x@.d * z@.d) * y@.d == y@.n * (x@.d * (y@.d * z@.d)))
                by (nonlinear_arith);
            assert(z@.n * (x@.d * y@.d) * z@.d == z@.n * (x@.d * (y@.d * z@.d)))
                by (nonlinear_arith);
        }
        r
    }

    /// The vector with the three given integer components.
    pub fn from_ints(x: i128, y: i128, z: i128) -> (r: Vec3)
        ensures
            r.wf(),
            r@ == (Vec3v {
                x: Ratv { n: x as int, d: 1 },
                y: Ratv { n: y as int, d: 1 },
                z: Ratv { n: z as int, d: 1 },
            }),
    {
        Vec3 { nx: x, ny: y, nz: z, den: 1 }
    }

    pub fn add(&self, b: &Vec3) -> (r: Vec3)
        requires
            self.wf(),
            b.wf(),
            add_fits(self@, b@),
        ensures
            r.wf(),
            r@ == spec_vadd(self@, b@),
    {
        proof {
            crate::rat::lemma_mul_pos(self@.x.d, b@.x.d);
        }
        Vec3 {
            nx: self.nx * b.den + b.nx * self.den,
            ny: self.ny * b.den + b.ny * self.den,
            nz: self.nz * b.den + b.nz * self.den,
            den: self.den * b.den,
        }
    }

    pub fn sub(&self, b: &Vec3) -> (r: Vec3)
        requires
            self.wf(),
            b.wf(),
            add_fits(self@, b@),
        ensures
            r.wf(),
            r@ == spec_vsub(self@, b@),
    {
        proof {
            crate::rat::lemma_mul_pos(self@.x.d, b@.x.d);
        }
        Vec3 {
            nx: self.nx * b.den - b.nx * self.den,
            ny: self.ny * b.den - b.ny * self.den,
            nz: self.nz * b.den - b.nz * self.den,
            den: self.den * b.den,
        }
    }

    /// Every component multiplied by the scalar `s`; multiplying from the
    /// left or from the right is the same operation.
    pub fn scale(&self, s: &Rat) -> (r: Vec3)
        requires
            self.wf(),
            s.wf(),
            scale_fits(self@, s@),
        ensures
            r.wf(),
            r@ == spec_vscale(self@, s@),
    {
        proof {
            crate::rat::lemma_mul_pos(self@.x.d, s@.d);
        }
        Vec3 { nx: self.nx * s.num, ny: self.ny * s.num, nz: self.nz * s.num, den: self.den * s.den }
    }

    /// The componentwise product, used for color blending.
    pub fn multiply(&self, b: &Vec3) -> (r: Vec3)
        requires
            self.wf(),
            b.wf(),
            dot_fits(self@, b@),
        ensures
            r.wf(),
            r@ == spec_vmul(self@, b@),
    {
        proof {
            crate::rat::lemma_mul_pos(self@.x.d, b@.x.d);
        }
        Vec3 {
            nx: self.nx * b.nx,
            ny: self.ny * b.ny,
            nz: self.nz * b.nz,
            den: self.den * b.den,
        }
    }

    /// Every component divided by the scalar `s`, which must not be zero.
    pub fn divide(&self, s: &Rat) -> (r: Vec3)
        requires
            self.wf(),
            s.wf(),
            s@.n != 0,
            div_fits(self@, s@),
        ensures
            r.wf(),
            r@ == spec_vdiv(self@, s@),
    {
        let px = self.nx * s.den;
        let py = self.ny * s.den;
        let pz = self.nz * s.den;
        let q = self.den * s.num;
        if s.num >= 0 {
            proof {
                crate::rat::lemma_mul_pos(self@.x.d, s@.n);
            }
            Vec3 { nx: px, ny: py, nz: pz, den: q }
        } else {
            proof {
                crate::rat::lemma_mul_pos(self@.x.d, -s@.n);
                assert(self@.x.d * -s@.n == -(self@.x.d * s@.n)) by (nonlinear_arith);
            }
            Vec3 { nx: -px, ny: -py, nz: -pz, den: -q }
        }
    }

    /// The scalar product of the two vectors.
    pub fn dot(&self, rhs: Vec3) -> (r: Rat)
        requires
            self.wf(),
            rhs.wf(),
            dot_fits(self@, rhs@),
        ensures
            r.wf(),
            r@.n == self@.x.n * rhs@.x.n + self@.y.n * rhs@.y.n + self@.z.n * rhs@.z.n,
            r@.d == self@.x.d * rhs@.x.d,
            rat_eqv(r@, spec_vdot(self@, rhs@)),
    {
        proof {
            crate::rat::lemma_mul_pos(self@.x.d, rhs@.x.d);
            lemma_dot_common_den(
                self@.x.n * rhs@.x.n,
                self@.y.n * rhs@.y.n,
                self@.z.n * rhs@.z.n,
                self@.x.d * rhs@.x.d,
            );
        }
        Rat {
            num: self.nx * rhs.nx + self.ny * rhs.ny + self.nz * rhs.nz,
            den: self.den * rhs.den,
        }
    }

    /// The right-handed cross product of the two vectors.
    pub fn cross(&self, rhs: Vec3) -> (r: Vec3)
        requires
            self.wf(),
            rhs.wf(),
            cross_fits(self@, rhs@),
        ensures
            r.wf(),
            r@.x.n == self@.y.n * rhs@.z.n - self@.z.n * rhs@.y.n,
            r@.y.n == self@.z.n * rhs@.x.n - self@.x.n * rhs@.z.n,
            r@.z.n == self@.x.n * rhs@.y.n - self@.y.n * rhs@.x.n,
            r@.x.d == self@.x.d * rhs@.x.d,
            veqv(r@, spec_vcross(self@, rhs@)),
    {
        proof {
            crate::rat::lemma_mul_pos(self@.x.d, rhs@.x.d);
            let d = self@.x.d * rhs@.x.d;
            lemma_cross_common_den(self@.y.n * rhs@.z.n, self@.z.n * rhs@.y.n, d);
            lemma_cross_common_den(self@.z.n * rhs@.x.n, self@.x.n * rhs@.z.n, d);
            lemma_cross_common_den(self@.x.n * rhs@.y.n, self@.y.n * rhs@.x.n, d);
        }
        Vec3 {
            nx: self.ny * rhs.nz - self.nz * rhs.ny,
            ny: self.nz * rhs.nx - self.nx * rhs.nz,
            nz: self.nx * rhs.ny - self.ny * rhs.nx,
            den: self.den * rhs.den,
        }
    }
}

/// Adding three fractions over one denominator `d` yields the sum of the
/// numerators over `d`.
proof fn lemma_dot_common_den(p1: int, p2: int, p3: int, d: int)
    ensures
        rat_eqv(
            Ratv { n: p1 + p2 + p3, d: d },
            spec_add(spec_add(Ratv { n: p1, d: d }, Ratv { n: p2, d: d }), Ratv { n: p3, d: d }),
        ),
{
    assert((p1 + p2 + p3) * ((d * d) * d) == ((p1 * d + p2 * d) * d + p3 * (d * d)) * d)
        by (nonlinear_arith);
}

/// Subtracting two fractions over one denominator `d` yields the
/// difference of the numerators over `d`.
proof fn lemma_cross_common_den(p1: int, p2: int, d: int)
    ensures
        rat_eqv(
            Ratv { n: p1 - p2, d: d },
            spec_sub(Ratv { n: p1, d: d }, Ratv { n: p2, d: d }),
        ),
{
    assert((p1 - p2) * (d * d) == (p1 * d - p2 * d) * d) by (nonlinear_arith);
}

/// Every component divided by 3, the number of components. This is the
/// normalization the renderer uses; it is a fixed scaling, not a division
/// by the vector's magnitude.
pub fn unit_vector(vec: &Vec3) -> (r: Vec3)
    requires
        vec.wf(),
        sfits(vec@.x.d * 3),
    ensures
        r.wf(),
        r@ == spec_vdiv(vec@, Ratv { n: 3, d: 1 }),
        r@ == spec_vscale(vec@, Ratv { n: 1, d: 3 }),
{
    Vec3 { nx: vec.nx, ny: vec.ny, nz: vec.nz, den: vec.den * 3 }
}

/// The scalar product of the two vectors.
pub fn dot(lhs: &Vec3, rhs: &Vec3) -> (r: Rat)
    requires
        lhs.wf(),
        rhs.wf(),
        dot_fits(lhs@, rhs@),
    ensures
        r.wf(),
        r@.n == lhs@.x.n * rhs@.x.n + lhs@.y.n * rhs@.y.n + lhs@.z.n * rhs@.z.n,
        r@.d == lhs@.x.d * rhs@.x.d,
        rat_eqv(r@, spec_vdot(lhs@, rhs@)),
{
    lhs.dot(*rhs)
}

/// The value of a ray: an origin and a direction.
pub struct Rayv {
    pub origin: Vec3v,
    pub direction: Vec3v,
}

/// The point `origin + t * direction`.
pub open spec fn spec_ray_at(r: Rayv, t: Ratv) -> Vec3v {
    spec_vadd(r.origin, spec_vscale(r.direction, t))
}

pub open spec fn at_fits(r: Rayv, t: Ratv) -> bool {
    scale_fits(r.direction, t) && add_fits(r.origin, spec_vscale(r.direction, t))
}

/// A half-line: an origin and a direction, evaluated at a scalar
/// parameter to yield a point.
#[derive(Clone, Copy)]
pub struct Ray {
    pub origin: Vec3,
    pub direction: Vec3,
}

impl View for Ray {
    type V = Rayv;

    open spec fn view(&self) -> Rayv {
        Rayv { origin: self.origin@, direction: self.direction@ }
    }
}

impl Ray {
    pub open spec fn wf(&self) -> bool {
        self.origin.wf() && self.direction.wf()
    }

    /// The point the ray reaches at parameter `t`.
    pub fn at(&self, t: Rat) -> (r: Vec3)
        requires
            self.wf(),
            t.wf(),
            at_fits(self@, t@),
        ensures
            r.wf(),
            r@ == spec_ray_at(self@, t@),
    {
        let scaled = self.direction.scale(&t);
        self.origin.add(&scaled)
    }
}

/// Vector addition is commutative: `a + b` and `b + a` denote the same
/// vector.
pub proof fn lemma_add_commutative(a: Vec3v, b: Vec3v)
    requires
        v_wf(a),
        v_wf(b),
    ensures
        veqv(spec_vadd(a, b), spec_vadd(b, a)),
{
    assert((a.x.n * b.x.d + b.x.n * a.x.d) * (b.x.d * a.x.d) == (b.x.n * a.x.d + a.x.n * b.x.d)
        * (a.x.d * b.x.d)) by (nonlinear_arith);
    assert((a.y.n * b.y.d + b.y.n * a.y.d) * (b.y.d * a.y.d) == (b.y.n * a.y.d + a.y.n * b.y.d)
        * (a.y.d * b.y.d)) by (nonlinear_arith);
    assert((a.z.n * b.z.d + b.z.n * a.z.d) * (b.z.d * a.z.d) == (b.z.n * a.z.d + a.z.n * b.z.d)
        * (a.z.d * b.z.d)) by (nonlinear_arith);
}

/// Adding `b` and then subtracting `b` yields the original vector.
pub proof fn lemma_add_then_sub(a: Vec3v, b: Vec3v)
    requires
        v_wf(a),
        v_wf(b),
    ensures
        veqv(spec_vsub(spec_vadd(a, b), b), a),
{
    assert(((a.x.n * b.x.d + b.x.n * a.x.d) * b.x.d - b.x.n * (a.x.d * b.x.d)) * a.x.d == a.x.n * (
    (a.x.d * b.x.d) * b.x.d)) by (nonlinear_arith);
    assert(((a.y.n * b.y.d + b.y.n * a.y.d) * b.y.d - b.y.n * (a.y.d * b.y.d)) * a.y.d == a.y.n * (
    (a.y.d * b.y.d) * b.y.d)) by (nonlinear_arith);
    assert(((a.z.n * b.z.d + b.z.n * a.z.d) * b.z.d - b.z.n * (a.z.d * b.z.d)) * a.z.d == a.z.n * (
    (a.z.d * b.z.d) * b.z.d)) by (nonlinear_arith);
}

/// The scalar product is commutative.
pub proof fn lemma_dot_commutative(a: Vec3v, b: Vec3v)
    requires
        v_wf(a),
        v_wf(b),
    ensures
        rat_eqv(spec_vdot(a, b), spec_vdot(b, a)),
{
    let p = spec_vdot(a, b);
    let q = spec_vdot(b, a);
    assert(p.n * q.d == q.n * p.d) by (nonlinear_arith)
        requires
            p == spec_vdot(a, b),
            q == spec_vdot(b, a),
    ;
}

/// The cross product is anti-commutative: `cross(a, b)` equals
/// `cross(b, a)` scaled by `-1`.
pub proof fn lemma_cross_anticommutative(a: Vec3v, b: Vec3v)
    requires
        v_wf(a),
        v_wf(b),
    ensures
        veqv(spec_vcross(a, b), spec_vscale(spec_vcross(b, a), Ratv { n: -1, d: 1 })),
{
    let p = spec_vcross(a, b);
    let q = spec_vscale(spec_vcross(b, a), Ratv { n: -1, d: 1 });
    assert(p.x.n * q.x.d == q.x.n * p.x.d) by (nonlinear_arith)
        requires
            p == spec_vcross(a, b),
            q == spec_vscale(spec_vcross(b, a), Ratv { n: -1, d: 1 }),
    ;
    assert(p.y.n * q.y.d == q.y.n * p.y.d) by (nonlinear_arith)
        requires
            p == spec_vcross(a, b),
            q == spec_vscale(spec_vcross(b, a), Ratv { n: -1, d: 1 }),
    ;
    assert(p.z.n * q.z.d == q.z.n * p.z.d) by (nonlinear_arith)
        requires
            p == spec_vcross(a, b),
            q == spec_vscale(spec_vcross(b, a), Ratv { n: -1, d: 1 }),
    ;
}

/// Dividing by 3 and scaling by one third are the same map.
pub proof fn lemma_unit_vector_scales_by_third(v: Vec3v)
    ensures
        spec_vdiv(v, Ratv { n: 3, d: 1 }) == spec_vscale(v, Ratv { n: 1, d: 3 }),
{
}

/// A ray evaluated at parameter 0 is its origin.
pub proof fn lemma_ray_at_zero(r: Rayv)
    requires
        v_wf(r.origin),
        v_wf(r.direction),
    ensures
        veqv(spec_ray_at(r, Ratv { n: 0, d: 1 }), r.origin),
{
    let p = spec_ray_at(r, Ratv { n: 0, d: 1 });
    assert(p.x.n * r.origin.x.d == r.origin.x.n * p.x.d) by (nonlinear_arith)
        requires
            p == spec_ray_at(r, Ratv { n: 0, d: 1 }),
    ;
    assert(p.y.n * r.origin.y.d == r.origin.y.n * p.y.d) by (nonlinear_arith)
        requires
            p == spec_ray_at(r, Ratv { n: 0, d: 1 }),
    ;
    assert(p.z.n * r.origin.z.d == r.origin.z.n * p.z.d) by (nonlinear_arith)
        requires
            p == spec_ray_at(r, Ratv { n: 0, d: 1 }),
    ;
}

/// A ray evaluated at parameter 1 is its origin plus its direction.
pub proof fn lemma_ray_at_one(r: Rayv)
    requires
        v_wf(r.origin),
        v_wf(r.direction),
    ensures
        veqv(spec_ray_at(r, Ratv { n: 1, d: 1 }), spec_vadd(r.origin, r.direction)),
{
    let p = spec_ray_at(r, Ratv { n: 1, d: 1 });
    let q = spec_vadd(r.origin, r.direction);
    assert(p.x.n * q.x.d == q.x.n * p.x.d) by (nonlinear_arith)
        requires
            p == spec_ray_at(r, Ratv { n: 1, d: 1 }),
            q == spec_vadd(r.origin, r.direction),
    ;
    assert(p.y.n * q.y.d == q.y.n * p.y.d) by (nonlinear_arith)
        requires
            p == spec_ray_at(r, Ratv { n: 1, d: 1 }),
            q == spec_vadd(r.origin, r.direction),
    ;
    assert(p.z.n * q.z.d == q.z.n * p.z.d) by (nonlinear_arith)
        requires
            p == spec_ray_at(r, Ratv { n: 1, d: 1 }),
            q == spec_vadd(r.origin, r.direction),
    ;
}

} // verus!
