//! Executable exact reals and complex amplitudes.
use crate::exact::{
    lemma_at_negate, lemma_at_plus, lemma_at_sum4, lemma_canonical_is_canonical,
    lemma_lift_canonical, lemma_square_sign_descent, square_sign, CExact, Exact,
};
use vstd::arithmetic::power2::{
    lemma2_to64, lemma2_to64_rest, lemma_pow2_strictly_increases,
    lemma_pow2_unfold, pow2,
};
use vstd::prelude::*;

verus! {

/// The exact real `(p + q·√2) / 2^k`, always kept in canonical form, so that
/// two scalars are equal exactly when they denote the same number.
#[derive(Clone, Copy, Debug, PartialEq, Eq, Structural)]
pub struct Scalar {
    p: i128,
    q: i128,
    k: u32,
}

impl View for Scalar {
    type V = Exact;

    closed spec fn view(&self) -> Exact {
        Exact { p: self.p as int, q: self.q as int, k: self.k as nat }
    }
}

/// Magnitude bound on the coefficients of a scalar that takes part in gate
/// application or in probabilities: `2^40`.
pub const COEFF_LIMIT: i128 = 0x100_0000_0000;

/// Bound on the exponent of such a scalar.
pub const EXP_LIMIT: u32 = 16;

impl Scalar {
    #[verifier::type_invariant]
    closed spec fn is_canonical_form(self) -> bool {
        self@.is_canonical()
    }

    /// Small enough that products and sums of a few of them are computed
    /// exactly in 128-bit arithmetic.
    pub open spec fn bounded(self) -> bool {
        self@.is_bounded()
    }

    /// The scalar `(p + q·√2) / 2^k`, reduced to canonical form.
    pub fn new(p: i128, q: i128, k: u32) -> (r: Scalar)
        ensures
            r@ == (Exact { p: p as int, q: q as int, k: k as nat }).canonical(),
    {
        let ghost orig = Exact { p: p as int, q: q as int, k: k as nat };
        let mut p = p;
        let mut q = q;
        let mut k = k;
        while k > 0 && p % 2 == 0 && q % 2 == 0
            invariant
                (Exact { p: p as int, q: q as int, k: k as nat }).canonical() == orig.canonical(),
            decreases k,
        {
            p = p / 2;
            q = q / 2;
            k = k - 1;
        }
        let ghost cur = Exact { p: p as int, q: q as int, k: k as nat };
        proof {
            lemma_canonical_is_canonical(cur);
        }
        Scalar { p, q, k }
    }

    /// Two scalars are equal exactly when their views are; as both are
    /// canonical, that is when they denote the same number.
    pub proof fn lemma_eq_iff_view(a: Scalar, b: Scalar)
        ensures
            (a == b) == (a@ == b@),
    {
    }

    /// The integer `n`.
    pub fn from_int(n: i64) -> (r: Scalar)
        ensures
            r@ == Exact::from_int(n as int),
    {
        Scalar { p: n as i128, q: 0, k: 0 }
    }

    /// `1/√2`.
    pub fn inv_sqrt2() -> (r: Scalar)
        ensures
            r@ == Exact::inv_sqrt2(),
    {
        Scalar { p: 0, q: 1, k: 1 }
    }

    pub fn p(&self) -> (r: i128)
        ensures
            r as int == self@.p,
    {
        self.p
    }

    pub fn q(&self) -> (r: i128)
        ensures
            r as int == self@.q,
    {
        self.q
    }

    pub fn k(&self) -> (r: u32)
        ensures
            r as nat == self@.k,
    {
        self.k
    }

    pub fn negate(&self) -> (r: Scalar)
        requires
            self.bounded(),
        ensures
            r@ == self@.negate(),
            r.bounded(),
    {
        proof {
            use_type_invariant(self);
        }
        Scalar { p: -self.p, q: -self.q, k: self.k }
    }
}

/// An exact real `(p + q·√2) / 2^k` that is not reduced: an intermediate
/// result of gate application and of probabilities.
pub(crate) struct Wide {
    pub(crate) p: i128,
    pub(crate) q: i128,
    pub(crate) k: u32,
}

impl View for Wide {
    type V = Exact;

    closed spec fn view(&self) -> Exact {
        Exact { p: self.p as int, q: self.q as int, k: self.k as nat }
    }
}

/// `2^82`: bound on the coefficients of a product of two bounded scalars.
pub(crate) const PRODUCT_LIMIT: i128 = 0x4_0000_0000_0000_0000_0000;

/// `2^114`: bound on such a product once written over the denominator `2^32`.
pub(crate) const LIFTED_LIMIT: i128 = 0x4_0000_0000_0000_0000_0000_0000_0000;

/// The common exponent in which gate application and probabilities add up
/// their terms.
pub(crate) const COMMON_EXP: u32 = 32;

proof fn lemma_scaled_bound(x: int, c: int)
    requires
        -PRODUCT_LIMIT <= x <= PRODUCT_LIMIT,
        1 <= c <= 0x1_0000_0000,
    ensures
        -LIFTED_LIMIT <= x * c <= LIFTED_LIMIT,
{
    assert(-0x4_0000_0000_0000_0000_0000_0000_0000 <= x * c <= 0x4_0000_0000_0000_0000_0000_0000_0000)
        by (nonlinear_arith)
        requires
            -0x4_0000_0000_0000_0000_0000 <= x <= 0x4_0000_0000_0000_0000_0000,
            1 <= c <= 0x1_0000_0000,
    ;
}

impl Wide {
    pub(crate) proof fn lemma_view(&self)
        ensures
            self@ == (Exact { p: self.p as int, q: self.q as int, k: self.k as nat }),
    {
    }

    pub(crate) open spec fn is_product(self) -> bool {
        &&& -PRODUCT_LIMIT <= self@.p <= PRODUCT_LIMIT
        &&& -PRODUCT_LIMIT <= self@.q <= PRODUCT_LIMIT
        &&& self@.k <= COMMON_EXP
    }

    pub(crate) open spec fn is_lifted(self) -> bool {
        &&& -LIFTED_LIMIT <= self@.p <= LIFTED_LIMIT
        &&& -LIFTED_LIMIT <= self@.q <= LIFTED_LIMIT
        &&& self@.k == COMMON_EXP
    }

    /// The exact product of two bounded scalars.
    pub(crate) fn product(a: &Scalar, b: &Scalar) -> (r: Wide)
        requires
            a.bounded(),
            b.bounded(),
        ensures
            r@ == a@.times(b@),
            r.is_product(),
    {
        let ghost (ap, aq, bp, bq) = (a@.p, a@.q, b@.p, b@.q);
        assert(-0x1_0000_0000_0000_0000_0000 <= ap * bp <= 0x1_0000_0000_0000_0000_0000)
            by (nonlinear_arith)
            requires
                -0x100_0000_0000 <= ap <= 0x100_0000_0000,
                -0x100_0000_0000 <= bp <= 0x100_0000_0000,
        ;
        assert(-0x1_0000_0000_0000_0000_0000 <= aq * bq <= 0x1_0000_0000_0000_0000_0000)
            by (nonlinear_arith)
            requires
                -0x100_0000_0000 <= aq <= 0x100_0000_0000,
                -0x100_0000_0000 <= bq <= 0x100_0000_0000,
        ;
        assert(-0x1_0000_0000_0000_0000_0000 <= ap * bq <= 0x1_0000_0000_0000_0000_0000)
            by (nonlinear_arith)
            requires
                -0x100_0000_0000 <= ap <= 0x100_0000_0000,
                -0x100_0000_0000 <= bq <= 0x100_0000_0000,
        ;
        assert(-0x1_0000_0000_0000_0000_0000 <= aq * bp <= 0x1_0000_0000_0000_0000_0000)
            by (nonlinear_arith)
            requires
                -0x100_0000_0000 <= aq <= 0x100_0000_0000,
                -0x100_0000_0000 <= bp <= 0x100_0000_0000,
        ;
        assert(2 * aq * bq == 2 * (aq * bq)) by (nonlinear_arith);
        Wide { p: a.p * b.p + 2 * (a.q * b.q), q: a.p * b.q + a.q * b.p, k: a.k + b.k }
    }

    pub(crate) fn negate(&self) -> (r: Wide)
        requires
            self.is_lifted(),
        ensures
            r@ == self@.negate(),
            r.is_lifted(),
    {
        Wide { p: -self.p, q: -self.q, k: self.k }
    }

    /// The same number over the denominator `2^32`.
    pub(crate) fn lifted(&self) -> (r: Wide)
        requires
            self.is_product(),
        ensures
            r@ == self@.at(COMMON_EXP as nat),
            r.is_lifted(),
    {
        let mut p = self.p;
        let mut q = self.q;
        let mut k = self.k;
        let ghost mut c: int = 1;
        proof {
            lemma2_to64();
            lemma2_to64_rest();
            assert(pow2(0) == 1);
        }
        while k < COMMON_EXP
            invariant
                self.is_product(),
                self.k <= k <= COMMON_EXP,
                c == pow2((k - self.k) as nat),
                1 <= c <= 0x1_0000_0000,
                pow2(32) == 0x1_0000_0000,
                p == self.p * c,
                q == self.q * c,
            decreases COMMON_EXP - k,
        {
            let ghost d = (k + 1 - self.k) as nat;
            proof {
                lemma_pow2_unfold(d);
                if d < 32 {
                    lemma_pow2_strictly_increases(d, 32);
                }
                assert(pow2(d) == 2 * c);
                lemma_scaled_bound(self.p as int, 2 * c);
                lemma_scaled_bound(self.q as int, 2 * c);
                assert(self.p * (2 * c) == 2 * (self.p * c)) by (nonlinear_arith);
                assert(self.q * (2 * c) == 2 * (self.q * c)) by (nonlinear_arith);
            }
            p = p * 2;
            q = q * 2;
            k = k + 1;
            proof {
                c = 2 * c;
            }
        }
        proof {
            lemma_scaled_bound(self.p as int, c);
            lemma_scaled_bound(self.q as int, c);
        }
        Wide { p, q, k }
    }

    /// The sum of four numbers written over the denominator `2^32`.
    pub(crate) fn sum4(a: &Wide, b: &Wide, c: &Wide, d: &Wide) -> (r: Wide)
        requires
            a.is_lifted(),
            b.is_lifted(),
            c.is_lifted(),
            d.is_lifted(),
        ensures
            r@ == (Exact {
                p: a@.p + b@.p + c@.p + d@.p,
                q: a@.q + b@.q + c@.q + d@.q,
                k: COMMON_EXP as nat,
            }),
    {
        Wide { p: a.p + b.p + c.p + d.p, q: a.q + b.q + c.q + d.q, k: COMMON_EXP }
    }
}

/// A complex amplitude with exact real and imaginary parts.
#[derive(Clone, Copy, Debug, PartialEq, Eq, Structural)]
pub struct Complex {
    pub re: Scalar,
    pub im: Scalar,
}

impl View for Complex {
    type V = CExact;

    open spec fn view(&self) -> CExact {
        CExact { re: self.re@, im: self.im@ }
    }
}

impl Complex {
    pub fn new(re: Scalar, im: Scalar) -> (r: Complex)
        ensures
            r == (Complex { re, im }),
    {
        Complex { re, im }
    }

    pub open spec fn bounded(self) -> bool {
        self@.is_bounded()
    }

    /// `0 + 0i`.
    pub fn zero() -> (r: Complex)
        ensures
            r@ == CExact::new(Exact::from_int(0), Exact::from_int(0)),
    {
        Complex { re: Scalar::from_int(0), im: Scalar::from_int(0) }
    }

    /// `1 + 0i`.
    pub fn one() -> (r: Complex)
        ensures
            r@ == CExact::new(Exact::from_int(1), Exact::from_int(0)),
    {
        Complex { re: Scalar::from_int(1), im: Scalar::from_int(0) }
    }

    /// `0 + 1i`.
    pub fn i() -> (r: Complex)
        ensures
            r@ == CExact::new(Exact::from_int(0), Exact::from_int(1)),
    {
        Complex { re: Scalar::from_int(0), im: Scalar::from_int(1) }
    }

    /// `m0·x + m1·y`, exactly, in canonical form.
    pub fn mul_add(m0: &Complex, x: &Complex, m1: &Complex, y: &Complex) -> (r: Complex)
        requires
            m0.bounded(),
            x.bounded(),
            m1.bounded(),
            y.bounded(),
        ensures
            r@ == m0@.times(x@).plus(m1@.times(y@)).canonical(),
    {
        let e = COMMON_EXP;
        let a = Wide::product(&m0.re, &x.re).lifted();
        let b = Wide::product(&m0.im, &x.im).lifted().negate();
        let c = Wide::product(&m1.re, &y.re).lifted();
        let d = Wide::product(&m1.im, &y.im).lifted().negate();
        let re = Wide::sum4(&a, &b, &c, &d);
        let a2 = Wide::product(&m0.re, &x.im).lifted();
        let b2 = Wide::product(&m0.im, &x.re).lifted();
        let c2 = Wide::product(&m1.re, &y.im).lifted();
        let d2 = Wide::product(&m1.im, &y.re).lifted();
        let im = Wide::sum4(&a2, &b2, &c2, &d2);
        proof {
            let (u, v) = (m0@, m1@);
            lemma_at_negate(u.im.times(x@.im), e as nat);
            lemma_at_negate(v.im.times(y@.im), e as nat);
            lemma_at_sum4(
                u.re.times(x@.re),
                u.im.times(x@.im).negate(),
                v.re.times(y@.re),
                v.im.times(y@.im).negate(),
                e as nat,
            );
            lemma_at_sum4(
                u.re.times(x@.im),
                u.im.times(x@.re),
                v.re.times(y@.im),
                v.im.times(y@.re),
                e as nat,
            );
            let full = u.times(x@).plus(v.times(y@));
            assert(re@ == full.re.at(e as nat));
            assert(im@ == full.im.at(e as nat));
            lemma_lift_canonical(full.re, (e - full.re.k) as nat);
            lemma_lift_canonical(full.im, (e - full.im.k) as nat);
        }
        Complex { re: Scalar::new(re.p, re.q, re.k), im: Scalar::new(im.p, im.q, im.k) }
    }

    /// `re² + im²` over the denominator `2^32`, exactly.
    pub(crate) fn norm_sqr_wide(&self) -> (r: Wide)
        requires
            self.bounded(),
        ensures
            r@ == self@.norm_sqr().at(COMMON_EXP as nat),
            -2 * LIFTED_LIMIT <= r@.p <= 2 * LIFTED_LIMIT,
            -2 * LIFTED_LIMIT <= r@.q <= 2 * LIFTED_LIMIT,
    {
        let a = Wide::product(&self.re, &self.re).lifted();
        let b = Wide::product(&self.im, &self.im).lifted();
        proof {
            lemma_at_plus(self@.re.times(self@.re), self@.im.times(self@.im), COMMON_EXP as nat);
        }
        Wide { p: a.p + b.p, q: a.q + b.q, k: COMMON_EXP }
    }

    /// The squared magnitude `re² + im²`, exactly, in canonical form.
    pub fn norm_sqr(&self) -> (r: Scalar)
        requires
            self.bounded(),
        ensures
            r@ == self@.norm_sqr().canonical(),
    {
        let w = self.norm_sqr_wide();
        proof {
            let n = self@.norm_sqr();
            lemma_lift_canonical(n, (COMMON_EXP - n.k) as nat);
        }
        Scalar::new(w.p, w.q, w.k)
    }
}

/// `a² − 2b²` compared with zero, for `a, b >= 0`, by the descent
/// `(a, b) -> (2b − a, a − b)`, which flips the sign and never grows the
/// numbers.
fn square_sign_of(a: i128, b: i128) -> (r: i8)
    requires
        0 <= a <= 0x100_0000_0000_0000_0000_0000_0000_0000,
        0 <= b <= 0x100_0000_0000_0000_0000_0000_0000_0000,
    ensures
        r as int == square_sign(a as int, b as int),
{
    let mut x = a;
    let mut y = b;
    let mut flipped = false;
    loop
        invariant
            0 <= x <= 0x100_0000_0000_0000_0000_0000_0000_0000,
            0 <= y <= 0x100_0000_0000_0000_0000_0000_0000_0000,
            square_sign(a as int, b as int) == if flipped {
                -square_sign(x as int, y as int)
            } else {
                square_sign(x as int, y as int)
            },
        decreases x + y,
    {
        let s: i8;
        if y == 0 {
            s = if x > 0 { 1 } else { 0 };
            assert(x * x >= 0) by (nonlinear_arith);
            assert(x > 0 ==> x * x > 0) by (nonlinear_arith);
            assert(2 * y * y == 0) by (nonlinear_arith)
                requires
                    y == 0,
            ;
            assert(s as int == square_sign(x as int, y as int));
        } else if x <= y {
            s = -1;
            assert(x * x < 2 * y * y) by (nonlinear_arith)
                requires
                    0 <= x <= y,
                    y > 0,
            ;
            assert(s as int == square_sign(x as int, y as int));
        } else if x >= 2 * y {
            s = 1;
            assert(x * x > 2 * y * y) by (nonlinear_arith)
                requires
                    x >= 2 * y,
                    y > 0,
            ;
            assert(s as int == square_sign(x as int, y as int));
        } else {
            proof {
                lemma_square_sign_descent(x as int, y as int);
            }
            let na = 2 * y - x;
            let nb = x - y;
            x = na;
            y = nb;
            flipped = !flipped;
            continue;
        }
        assert(s as int == square_sign(x as int, y as int));
        return if flipped { -s } else { s };
    }
}

/// Whether `p + q·√2 > 0`.
pub(crate) fn is_positive(p: i128, q: i128) -> (r: bool)
    requires
        -0x100_0000_0000_0000_0000_0000_0000_0000 <= p <= 0x100_0000_0000_0000_0000_0000_0000_0000,
        -0x100_0000_0000_0000_0000_0000_0000_0000 <= q <= 0x100_0000_0000_0000_0000_0000_0000_0000,
    ensures
        r == (Exact { p: p as int, q: q as int, k: 0 }).is_positive(),
{
    if p >= 0 && q >= 0 {
        p > 0 || q > 0
    } else if p <= 0 && q <= 0 {
        false
    } else if p > 0 {
        assert(2 * (-q) * (-q) == 2 * q * q) by (nonlinear_arith);
        square_sign_of(p, -q) == 1
    } else {
        assert((-p) * (-p) == p * p) by (nonlinear_arith);
        square_sign_of(-p, q) == -1
    }
}

} // verus!
