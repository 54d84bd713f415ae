use vstd::prelude::*;

verus! {

/// The mathematical value of a rational number: an integer numerator `n`
/// over an integer denominator `d`. Two values denote the same rational
/// exactly when they satisfy [`rat_eqv`].
pub struct Ratv {
    pub n: int,
    pub d: int,
}

/// Both components of `x` stay strictly inside the `i128` range, so the
/// executable operations can form them without overflow. The bound is
/// symmetric so that a numerator can also be negated.
pub open spec fn sfits(x: int) -> bool {
    -0x7fff_ffff_ffff_ffff_ffff_ffff_ffff_ffff <= x
        <= 0x7fff_ffff_ffff_ffff_ffff_ffff_ffff_ffff
}

/// `a` and `b` denote the same rational (cross multiplication).
pub open spec fn rat_eqv(a: Ratv, b: Ratv) -> bool {
    a.n * b.d == b.n * a.d
}

pub open spec fn spec_add(a: Ratv, b: Ratv) -> Ratv {
    Ratv { n: a.n * b.d + b.n * a.d, d: a.d * b.d }
}

pub open spec fn spec_sub(a: Ratv, b: Ratv) -> Ratv {
    Ratv { n: a.n * b.d - b.n * a.d, d: a.d * b.d }
}

pub open spec fn spec_mul(a: Ratv, b: Ratv) -> Ratv {
    Ratv { n: a.n * b.n, d: a.d * b.d }
}

/// Division keeps the denominator positive by moving the divisor's sign
/// into the numerator.
pub open spec fn spec_div(a: Ratv, b: Ratv) -> Ratv {
    if b.n >= 0 {
        Ratv { n: a.n * b.d, d: a.d * b.n }
    } else {
        Ratv { n: -(a.n * b.d), d: -(a.d * b.n) }
    }
}

pub open spec fn spec_neg(a: Ratv) -> Ratv {
    Ratv { n: -a.n, d: a.d }
}

/// Rounding to the nearest integer, halves away from zero, as the
/// pixel conversion demands.
pub open spec fn rat_round(q: Ratv) -> int
    recommends
        q.d > 0,
{
    if q.n >= 0 {
        (2 * q.n + q.d) / (2 * q.d)
    } else {
        -(((-2) * q.n + q.d) / (2 * q.d))
    }
}

/// Saturation of an integer into one byte, as the final conversion of a
/// color component to a pixel channel performs.
pub open spec fn clamp_byte(x: int) -> u8 {
    if x < 0 {
        0u8
    } else if x > 255 {
        255u8
    } else {
        x as u8
    }
}

/// A rational number: `num / den` with `den > 0`, held exactly in 128-bit
/// integers. Scene arithmetic never rounds; every operation states its
/// resulting numerator and denominator exactly.
pub struct Rat {
    pub num: i128,
    pub den: i128,
}

impl View for Rat {
    type V = Ratv;

    open spec fn view(&self) -> Ratv {
        Ratv { n: self.num as int, d: self.den as int }
    }
}

impl Clone for Rat {
    fn clone(&self) -> (r: Self)
        ensures
            r == *self,
    {
        Rat { num: self.num, den: self.den }
    }
}

impl Copy for Rat {

}

/// `|x| <= bx` and `|y| <= by` bound the product by `bx * by`.
pub proof fn lemma_mul_bnd(x: int, y: int, bx: int, by: int)
    by (nonlinear_arith)
    requires
        -bx <= x <= bx,
        -by <= y <= by,
    ensures
        -(bx * by) <= x * y <= bx * by,
{
}

/// Multiplication respects value equality.
pub proof fn lemma_mul_congr(a: Ratv, a2: Ratv, b: Ratv, b2: Ratv)
    requires
        rat_eqv(a, a2),
        rat_eqv(b, b2),
    ensures
        rat_eqv(spec_mul(a, b), spec_mul(a2, b2)),
{
    assert((a.n * b.n) * (a2.d * b2.d) == (a.n * a2.d) * (b.n * b2.d)) by (nonlinear_arith);
    assert((a.n * a2.d) * (b.n * b2.d) == (a2.n * a.d) * (b2.n * b.d));
    assert((a2.n * a.d) * (b2.n * b.d) == (a2.n * b2.n) * (a.d * b.d)) by (nonlinear_arith);
}

/// Subtraction respects value equality.
pub proof fn lemma_sub_congr(a: Ratv, a2: Ratv, b: Ratv, b2: Ratv)
    requires
        rat_eqv(a, a2),
        rat_eqv(b, b2),
    ensures
        rat_eqv(spec_sub(a, b), spec_sub(a2, b2)),
{
    let da = a2.d * b2.d;
    let db = a.d * b.d;
    assert((a.n * b.d - b.n * a.d) * da == (a.n * b.d) * da - (b.n * a.d) * da)
        by (nonlinear_arith);
    assert((a.n * b.d) * da == (a.n * a2.d) * (b.d * b2.d)) by (nonlinear_arith)
        requires
            da == a2.d * b2.d,
    ;
    assert((b.n * a.d) * da == (b.n * b2.d) * (a.d * a2.d)) by (nonlinear_arith)
        requires
            da == a2.d * b2.d,
    ;
    assert((a.n * a2.d) * (b.d * b2.d) == (a2.n * a.d) * (b.d * b2.d));
    assert((b.n * b2.d) * (a.d * a2.d) == (b2.n * b.d) * (a.d * a2.d));
    assert((a2.n * a.d) * (b.d * b2.d) == (a2.n * b2.d) * db) by (nonlinear_arith)
        requires
            db == a.d * b.d,
    ;
    assert((b2.n * b.d) * (a.d * a2.d) == (b2.n * a2.d) * db) by (nonlinear_arith)
        requires
            db == a.d * b.d,
    ;
    assert((a2.n * b2.d) * db - (b2.n * a2.d) * db == (a2.n * b2.d - b2.n * a2.d) * db)
        by (nonlinear_arith);
}

/// Two representations of the same rational, both with positive
/// denominators, have numerators of the same sign.
pub proof fn lemma_eqv_sign(a: Ratv, b: Ratv)
    by (nonlinear_arith)
    requires
        rat_eqv(a, b),
        a.d > 0,
        b.d > 0,
    ensures
        (a.n > 0) == (b.n > 0),
        (a.n < 0) == (b.n < 0),
        (a.n == 0) == (b.n == 0),
{
}

/// The product of two positive numbers is positive.
pub proof fn lemma_mul_pos(x: int, y: int)
    by (nonlinear_arith)
    requires
        x > 0,
        y > 0,
    ensures
        x * y > 0,
{
}

impl Rat {
    pub open spec fn wf(&self) -> bool {
        self.den > 0
    }

    pub fn new(num: i128, den: i128) -> (r: Rat)
        requires
            den > 0,
        ensures
            r.wf(),
            r@ == (Ratv { n: num as int, d: den as int }),
    {
        Rat { num, den }
    }

    /// The rational with value `n`.
    pub fn from_int(num: i128) -> (r: Rat)
        ensures
            r.wf(),
            r@ == (Ratv { n: num as int, d: 1 }),
    {
        Rat { num, den: 1 }
    }

    pub fn add(&self, b: &Rat) -> (r: Rat)
        requires
            self.wf(),
            b.wf(),
            sfits(self@.n * b@.d),
            sfits(b@.n * self@.d),
            sfits(self@.n * b@.d + b@.n * self@.d),
            sfits(self@.d * b@.d),
        ensures
            r.wf(),
            r@ == spec_add(self@, b@),
    {
        proof {
            lemma_mul_pos(self@.d, b@.d);
        }
        Rat { num: self.num * b.den + b.num * self.den, den: self.den * b.den }
    }

    pub fn sub(&self, b: &Rat) -> (r: Rat)
        requires
            self.wf(),
            b.wf(),
            sfits(self@.n * b@.d),
            sfits(b@.n * self@.d),
            sfits(self@.n * b@.d - b@.n * self@.d),
            sfits(self@.d * b@.d),
        ensures
            r.wf(),
            r@ == spec_sub(self@, b@),
    {
        proof {
            lemma_mul_pos(self@.d, b@.d);
        }
        Rat { num: self.num * b.den - b.num * self.den, den: self.den * b.den }
    }

    pub fn mul(&self, b: &Rat) -> (r: Rat)
        requires
            self.wf(),
            b.wf(),
            sfits(self@.n * b@.n),
            sfits(self@.d * b@.d),
        ensures
            r.wf(),
            r@ == spec_mul(self@, b@),
    {
        proof {
            lemma_mul_pos(self@.d, b@.d);
        }
        Rat { num: self.num * b.num, den: self.den * b.den }
    }

    pub fn div(&self, b: &Rat) -> (r: Rat)
        requires
            self.wf(),
            b.wf(),
            b@.n != 0,
            sfits(self@.n * b@.d),
            sfits(self@.d * b@.n),
        ensures
            r.wf(),
            r@ == spec_div(self@, b@),
    {
        let p = self.num * b.den;
        let q = self.den * b.num;
        if b.num >= 0 {
            proof {
                lemma_mul_pos(self@.d, b@.n);
            }
            Rat { num: p, den: q }
        } else {
            proof {
                lemma_mul_pos(self@.d, -b@.n);
                assert(self@.d * -b@.n == -(self@.d * b@.n)) by (nonlinear_arith);
            }
            Rat { num: -p, den: -q }
        }
    }

    pub fn neg(&self) -> (r: Rat)
        requires
            self.wf(),
            sfits(self@.n),
        ensures
            r.wf(),
            r@ == spec_neg(self@),
    {
        Rat { num: -self.num, den: self.den }
    }

    /// Whether the two rationals denote the same value.
    pub fn eqv(&self, b: &Rat) -> (r: bool)
        requires
            self.wf(),
            b.wf(),
            sfits(self@.n * b@.d),
            sfits(b@.n * self@.d),
        ensures
            r == rat_eqv(self@, b@),
    {
        self.num * b.den == b.num * self.den
    }

    /// Whether the value is strictly positive; with a positive denominator
    /// that is the sign of the numerator.
    pub fn is_pos(&self) -> (r: bool)
        requires
            self.wf(),
        ensures
            r == (self@.n > 0),
    {
        self.num > 0
    }

    /// Nearest integer, halves away from zero.
    pub fn round(&self) -> (r: i128)
        requires
            self.wf(),
            sfits(2 * self@.n + self@.d),
            sfits((-2) * self@.n + self@.d),
            sfits(2 * self@.d),
        ensures
            r == rat_round(self@),
    {
        if self.num >= 0 {
            let q = (2 * self.num + self.den) / (2 * self.den);
            proof {
                lemma_div_between(2 * self@.n + self@.d, 2 * self@.d);
            }
            q
        } else {
            let q = ((-2) * self.num + self.den) / (2 * self.den);
            proof {
                lemma_div_between((-2) * self@.n + self@.d, 2 * self@.d);
            }
            -q
        }
    }

    /// The color channel a component yields: rounded to the nearest
    /// integer, then saturated into one byte.
    pub fn to_byte(&self) -> (r: u8)
        requires
            self.wf(),
            sfits(2 * self@.n + self@.d),
            sfits((-2) * self@.n + self@.d),
            sfits(2 * self@.d),
        ensures
            r == clamp_byte(rat_round(self@)),
    {
        let v = self.round();
        if v < 0 {
            0
        } else if v > 255 {
            255
        } else {
            v as u8
        }
    }
}

/// A nonnegative quotient is at most its dividend when the divisor is
/// positive.
proof fn lemma_div_between(a: int, b: int)
    by (nonlinear_arith)
    requires
        0 <= a,
        0 < b,
    ensures
        0 <= a / b <= a,
{
}

} // verus!
