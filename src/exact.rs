//! The mathematical model of amplitudes: reals `(p + q·√2) / 2^k` and
//! complex numbers over them.
use vstd::arithmetic::power2::{lemma_pow2_adds, lemma_pow2_pos, lemma_pow2_unfold, pow2};
use crate::amplitude::{COEFF_LIMIT, EXP_LIMIT};
use vstd::prelude::*;

verus! {

/// The real number `(p + q·√2) / 2^k`.
pub struct Exact {
    pub p: int,
    pub q: int,
    pub k: nat,
}

impl Exact {
    pub open spec fn from_int(n: int) -> Exact {
        Exact { p: n, q: 0, k: 0 }
    }

    /// `1/√2`, written `√2 / 2`.
    pub open spec fn inv_sqrt2() -> Exact {
        Exact { p: 0, q: 1, k: 1 }
    }

    /// No factor 2 can be taken out of the numerator and the denominator:
    /// each number has exactly one such representation.
    pub open spec fn is_canonical(self) -> bool {
        self.k == 0 || self.p % 2 != 0 || self.q % 2 != 0
    }

    /// The canonical representation of the same number.
    pub open spec fn canonical(self) -> Exact
        decreases self.k,
    {
        if self.k > 0 && self.p % 2 == 0 && self.q % 2 == 0 {
            Exact { p: self.p / 2, q: self.q / 2, k: (self.k - 1) as nat }.canonical()
        } else {
            self
        }
    }

    /// The same number over the denominator `2^(k + n)`.
    pub open spec fn lift(self, n: nat) -> Exact {
        Exact { p: self.p * pow2(n), q: self.q * pow2(n), k: self.k + n }
    }

    /// The same number over the denominator `2^e`, for `e >= k`.
    pub open spec fn at(self, e: nat) -> Exact {
        self.lift((e - self.k) as nat)
    }

    pub open spec fn negate(self) -> Exact {
        Exact { p: -self.p, q: -self.q, k: self.k }
    }

    /// The sum, over the larger of the two denominators.
    pub open spec fn plus(self, o: Exact) -> Exact {
        let e = if self.k >= o.k { self.k } else { o.k };
        Exact { p: self.at(e).p + o.at(e).p, q: self.at(e).q + o.at(e).q, k: e }
    }

    pub open spec fn minus(self, o: Exact) -> Exact {
        self.plus(o.negate())
    }

    /// The product: `(a + b√2)(c + d√2) = (ac + 2bd) + (ad + bc)√2`.
    pub open spec fn times(self, o: Exact) -> Exact {
        Exact {
            p: self.p * o.p + 2 * self.q * o.q,
            q: self.p * o.q + self.q * o.p,
            k: self.k + o.k,
        }
    }

    /// Small enough for gate application and probabilities: coefficients of
    /// magnitude at most `2^40`, exponent at most 16.
    pub open spec fn is_bounded(self) -> bool {
        &&& -COEFF_LIMIT <= self.p <= COEFF_LIMIT
        &&& -COEFF_LIMIT <= self.q <= COEFF_LIMIT
        &&& self.k <= EXP_LIMIT
    }

    /// `p + q·√2 > 0`.
    pub open spec fn is_positive(self) -> bool {
        ||| (self.p > 0 && self.q >= 0)
        ||| (self.p >= 0 && self.q > 0)
        ||| (self.p > 0 && self.q < 0 && self.p * self.p > 2 * self.q * self.q)
        ||| (self.p < 0 && self.q > 0 && 2 * self.q * self.q > self.p * self.p)
    }

    /// `0 <= x <= 1`.
    pub open spec fn is_probability(self) -> bool {
        !self.negate().is_positive() && !self.minus(Exact::from_int(1)).is_positive()
    }
}

/// A complex number over [`Exact`] reals.
pub struct CExact {
    pub re: Exact,
    pub im: Exact,
}

impl CExact {
    pub open spec fn new(re: Exact, im: Exact) -> CExact {
        CExact { re, im }
    }

    pub open spec fn canonical(self) -> CExact {
        CExact { re: self.re.canonical(), im: self.im.canonical() }
    }

    pub open spec fn negate(self) -> CExact {
        CExact { re: self.re.negate(), im: self.im.negate() }
    }

    pub open spec fn plus(self, o: CExact) -> CExact {
        CExact { re: self.re.plus(o.re), im: self.im.plus(o.im) }
    }

    pub open spec fn times(self, o: CExact) -> CExact {
        CExact {
            re: self.re.times(o.re).minus(self.im.times(o.im)),
            im: self.re.times(o.im).plus(self.im.times(o.re)),
        }
    }

    pub open spec fn is_bounded(self) -> bool {
        self.re.is_bounded() && self.im.is_bounded()
    }

    /// The squared magnitude `re² + im²`.
    pub open spec fn norm_sqr(self) -> Exact {
        self.re.times(self.re).plus(self.im.times(self.im))
    }
}

pub proof fn lemma_canonical_is_canonical(x: Exact)
    ensures
        x.canonical().is_canonical(),
    decreases x.k,
{
    if x.k > 0 && x.p % 2 == 0 && x.q % 2 == 0 {
        lemma_canonical_is_canonical(Exact { p: x.p / 2, q: x.q / 2, k: (x.k - 1) as nat });
    }
}

/// Writing a number over a larger denominator leaves its canonical form alone.
pub proof fn lemma_lift_canonical(x: Exact, n: nat)
    ensures
        x.lift(n).canonical() == x.canonical(),
    decreases n,
{
    lemma_pow2_pos(n);
    if n == 0 {
        assert(pow2(0) == 1) by {
            vstd::arithmetic::power2::lemma2_to64();
        }
        assert(x.lift(0) == x);
    } else {
        let m = (n - 1) as nat;
        lemma_pow2_unfold(n);
        let y = x.lift(n);
        let c = pow2(m) as int;
        assert(y.p == 2 * (x.p * c)) by (nonlinear_arith)
            requires
                y.p == x.p * (2 * c),
        ;
        assert(y.q == 2 * (x.q * c)) by (nonlinear_arith)
            requires
                y.q == x.q * (2 * c),
        ;
        assert(Exact { p: y.p / 2, q: y.q / 2, k: (y.k - 1) as nat } == x.lift(m));
        lemma_lift_canonical(x, m);
    }
}

pub proof fn lemma_lift_lift(x: Exact, a: nat, b: nat)
    ensures
        x.lift(a).lift(b) == x.lift(a + b),
{
    lemma_pow2_adds(a, b);
    let ca = pow2(a) as int;
    let cb = pow2(b) as int;
    assert(x.p * ca * cb == x.p * (ca * cb)) by (nonlinear_arith);
    assert(x.q * ca * cb == x.q * (ca * cb)) by (nonlinear_arith);
}

/// A sum written over a common denominator `2^e` is the sum of the terms
/// written over it.
pub proof fn lemma_at_plus(x: Exact, y: Exact, e: nat)
    requires
        x.k <= e,
        y.k <= e,
    ensures
        x.plus(y).at(e) == (Exact {
            p: x.at(e).p + y.at(e).p,
            q: x.at(e).q + y.at(e).q,
            k: e,
        }),
{
    let m = x.plus(y).k;
    let d = (e - m) as nat;
    let c = pow2(d) as int;
    lemma_lift_lift(x, (m - x.k) as nat, d);
    lemma_lift_lift(y, (m - y.k) as nat, d);
    let s = x.plus(y);
    assert(s.p * c == x.at(m).p * c + y.at(m).p * c) by (nonlinear_arith)
        requires
            s.p == x.at(m).p + y.at(m).p,
    ;
    assert(s.q * c == x.at(m).q * c + y.at(m).q * c) by (nonlinear_arith)
        requires
            s.q == x.at(m).q + y.at(m).q,
    ;
}

pub proof fn lemma_at_negate(x: Exact, e: nat)
    requires
        x.k <= e,
    ensures
        x.negate().at(e) == x.at(e).negate(),
{
    let c = pow2((e - x.k) as nat) as int;
    assert((-x.p) * c == -(x.p * c)) by (nonlinear_arith);
    assert((-x.q) * c == -(x.q * c)) by (nonlinear_arith);
}

/// Writing a number over a denominator larger by `2^0`, `2^1` or `2^2`.
pub proof fn lemma_small_lifts()
    ensures
        forall|x: Exact| #[trigger] x.lift(0) == x,
        forall|x: Exact| #[trigger] x.lift(1) == (Exact { p: 2 * x.p, q: 2 * x.q, k: x.k + 1 }),
        forall|x: Exact| #[trigger] x.lift(2) == (Exact { p: 4 * x.p, q: 4 * x.q, k: x.k + 2 }),
{
    vstd::arithmetic::power2::lemma2_to64();
    assert forall|x: Exact| #[trigger] x.lift(0) == x by {
        assert(x.p * 1 == x.p && x.q * 1 == x.q) by (nonlinear_arith);
    }
    assert forall|x: Exact| #[trigger] x.lift(1) == (Exact { p: 2 * x.p, q: 2 * x.q, k: x.k + 1 }) by {
        assert(x.p * 2 == 2 * x.p && x.q * 2 == 2 * x.q) by (nonlinear_arith);
    }
    assert forall|x: Exact| #[trigger] x.lift(2) == (Exact { p: 4 * x.p, q: 4 * x.q, k: x.k + 2 }) by {
        assert(x.p * 4 == 4 * x.p && x.q * 4 == 4 * x.q) by (nonlinear_arith);
    }
}

/// Four terms summed pairwise, written over a common denominator `2^e`.
pub proof fn lemma_at_sum4(a: Exact, b: Exact, c: Exact, d: Exact, e: nat)
    requires
        a.k <= e,
        b.k <= e,
        c.k <= e,
        d.k <= e,
    ensures
        a.plus(b).plus(c.plus(d)).at(e) == (Exact {
            p: a.at(e).p + b.at(e).p + c.at(e).p + d.at(e).p,
            q: a.at(e).q + b.at(e).q + c.at(e).q + d.at(e).q,
            k: e,
        }),
{
    lemma_at_plus(a, b, e);
    lemma_at_plus(c, d, e);
    lemma_at_plus(a.plus(b), c.plus(d), e);
}

/// `a² − 2b²` compared with zero.
pub open spec fn square_sign(a: int, b: int) -> int {
    if a * a > 2 * b * b {
        1
    } else if a * a == 2 * b * b {
        0
    } else {
        -1
    }
}

/// `(2b − a)² − 2(a − b)² = −(a² − 2b²)`.
pub proof fn lemma_square_sign_descent(a: int, b: int)
    ensures
        square_sign(2 * b - a, a - b) == -square_sign(a, b),
{
    assert((2 * b - a) * (2 * b - a) - 2 * (a - b) * (a - b) == -(a * a - 2 * b * b))
        by (nonlinear_arith);
}

} // verus!
