//! The state of one qubit and its measurement.
use crate::amplitude::{is_positive, Complex, Scalar, COMMON_EXP};
use crate::exact::{lemma_at_plus, lemma_lift_canonical, CExact, Exact};
use vstd::arithmetic::power2::{lemma2_to64, pow2};
use vstd::prelude::*;

verus! {

/// Relies on rand::random: a value drawn from the thread-local generator.
/// Nothing is promised of which value comes.
pub assume_specification<T>[ rand::random::<T> ]() -> (r: T)
    where
        rand::distributions::Standard: rand::distributions::Distribution<T>,
;

/// A qubit: the amplitudes `alpha` of |0⟩ and `beta` of |1⟩.
#[derive(Clone, Copy, Debug, PartialEq, Eq, Structural)]
pub struct Qubit {
    alpha: Complex,
    beta: Complex,
}

impl View for Qubit {
    type V = (CExact, CExact);

    closed spec fn view(&self) -> (CExact, CExact) {
        (self.alpha@, self.beta@)
    }
}

/// The number `s / 2^32` in `[0, 1)` that a measurement sample `s` stands for.
pub open spec fn sample_value(s: int) -> Exact {
    Exact { p: s, q: 0, k: 32 }
}

impl Qubit {
    /// The amplitudes of |0⟩: `(1, 0)`.
    pub open spec fn zero_state() -> (CExact, CExact) {
        (
            CExact::new(Exact::from_int(1), Exact::from_int(0)),
            CExact::new(Exact::from_int(0), Exact::from_int(0)),
        )
    }

    /// The amplitudes of |1⟩: `(0, 1)`.
    pub open spec fn one_state() -> (CExact, CExact) {
        (
            CExact::new(Exact::from_int(0), Exact::from_int(0)),
            CExact::new(Exact::from_int(1), Exact::from_int(0)),
        )
    }

    /// Both amplitudes are small enough for probabilities and gates.
    pub open spec fn bounded(self) -> bool {
        self@.0.is_bounded() && self@.1.is_bounded()
    }

    /// The probabilities `(|alpha|², |beta|²)`, in canonical form.
    pub open spec fn probabilities_of(s: (CExact, CExact)) -> (Exact, Exact) {
        (s.0.norm_sqr().canonical(), s.1.norm_sqr().canonical())
    }

    /// The result of a measurement that drew the sample `s / 2^32`: |0⟩ when
    /// the sample lies below `|alpha|²`, else |1⟩.
    pub open spec fn outcome(s: (CExact, CExact), sample: int) -> (CExact, CExact) {
        if s.0.norm_sqr().minus(sample_value(sample)).is_positive() {
            Qubit::zero_state()
        } else {
            Qubit::one_state()
        }
    }

    /// The qubit with the amplitude `alpha` of |0⟩ and `beta` of |1⟩; they
    /// are not required to be normalised.
    pub fn new(alpha: Complex, beta: Complex) -> (r: Qubit)
        ensures
            r@ == (alpha@, beta@),
    {
        Qubit { alpha, beta }
    }

    /// The basis state |0⟩.
    pub fn zero() -> (r: Qubit)
        ensures
            r@ == Qubit::zero_state(),
    {
        Qubit { alpha: Complex::one(), beta: Complex::zero() }
    }

    /// The basis state |1⟩.
    pub fn one() -> (r: Qubit)
        ensures
            r@ == Qubit::one_state(),
    {
        Qubit { alpha: Complex::zero(), beta: Complex::one() }
    }

    /// The amplitudes `[alpha, beta]`.
    pub fn get_state(&self) -> (r: [Complex; 2])
        ensures
            r[0]@ == self@.0,
            r[1]@ == self@.1,
    {
        [self.alpha, self.beta]
    }

    /// The amplitude of |0⟩.
    pub fn alpha(&self) -> (r: Complex)
        ensures
            r@ == self@.0,
    {
        self.alpha
    }

    /// The amplitude of |1⟩.
    pub fn beta(&self) -> (r: Complex)
        ensures
            r@ == self@.1,
    {
        self.beta
    }

    /// The probabilities `(|alpha|², |beta|²)` of measuring |0⟩ and |1⟩.
    pub fn probabilities(&self) -> (r: (Scalar, Scalar))
        requires
            self.bounded(),
        ensures
            (r.0@, r.1@) == Qubit::probabilities_of(self@),
    {
        (self.alpha.norm_sqr(), self.beta.norm_sqr())
    }

    /// The probability `|alpha|²` of measuring |0⟩.
    pub fn zero_probability(&self) -> (r: Scalar)
        requires
            self.bounded(),
        ensures
            r@ == Qubit::probabilities_of(self@).0,
    {
        self.probabilities().0
    }

    /// The probability `|beta|²` of measuring |1⟩.
    pub fn one_probability(&self) -> (r: Scalar)
        requires
            self.bounded(),
        ensures
            r@ == Qubit::probabilities_of(self@).1,
    {
        self.probabilities().1
    }

    /// Whether `|alpha|² + |beta|²` is exactly 1.
    pub fn validate(&self) -> (r: bool)
        requires
            self.bounded(),
        ensures
            r == (self@.0.norm_sqr().plus(self@.1.norm_sqr()).canonical() == Exact::from_int(1)),
    {
        let a = self.alpha.norm_sqr_wide();
        let b = self.beta.norm_sqr_wide();
        proof {
            a.lemma_view();
            b.lemma_view();
        }
        let total = Scalar::new(a.p + b.p, a.q + b.q, COMMON_EXP);
        proof {
            let (n0, n1) = (self@.0.norm_sqr(), self@.1.norm_sqr());
            lemma_at_plus(n0, n1, COMMON_EXP as nat);
            let t = n0.plus(n1);
            lemma_lift_canonical(t, (COMMON_EXP - t.k) as nat);
        }
        let one = Scalar::from_int(1);
        proof {
            Scalar::lemma_eq_iff_view(total, one);
        }
        total == one
    }

    /// The collapsed state for the sample `sample / 2^32` in `[0, 1)`: |0⟩ when
    /// the sample lies below the probability of |0⟩, else |1⟩.
    pub fn collapse(&self, sample: u32) -> (r: Qubit)
        requires
            self.bounded(),
        ensures
            r@ == Qubit::outcome(self@, sample as int),
    {
        let w = self.alpha.norm_sqr_wide();
        proof {
            w.lemma_view();
            lemma2_to64();
            let n = self@.0.norm_sqr();
            let d = n.minus(sample_value(sample as int));
            assert(sample_value(sample as int).negate().at(32) == sample_value(
                sample as int,
            ).negate());
            assert(d.p == w@.p - sample);
            assert(d.q == w@.q);
        }
        if is_positive(w.p - sample as i128, w.q) {
            Qubit::zero()
        } else {
            Qubit::one()
        }
    }

    /// Measures the qubit: draws a uniform sample in `[0, 1)` and collapses
    /// to |0⟩ or |1⟩ by it. The qubit itself is left as it is.
    pub fn measure(&self) -> (r: Qubit)
        requires
            self.bounded(),
        ensures
            exists|s: int| 0 <= s < pow2(32) && r@ == Qubit::outcome(self@, s),
    {
        let sample: u32 = rand::random::<u32>();
        proof {
            lemma2_to64();
        }
        self.collapse(sample)
    }
}

impl Default for Qubit {
    /// The basis state |0⟩.
    fn default() -> (r: Qubit)
        ensures
            r@ == Qubit::zero_state(),
    {
        Qubit::zero()
    }
}

/// The basis states have the probabilities `(1, 0)` and `(0, 1)`.
pub proof fn lemma_basis_probabilities()
    ensures
        Qubit::probabilities_of(Qubit::zero_state()) == (Exact::from_int(1), Exact::from_int(0)),
        Qubit::probabilities_of(Qubit::one_state()) == (Exact::from_int(0), Exact::from_int(1)),
{
    lemma2_to64();
}

/// Measuring a basis state gives that state back, whatever sample is drawn.
pub proof fn lemma_measure_basis(sample: int)
    requires
        0 <= sample < pow2(32),
    ensures
        Qubit::outcome(Qubit::zero_state(), sample) == Qubit::zero_state(),
        Qubit::outcome(Qubit::one_state(), sample) == Qubit::one_state(),
{
    lemma2_to64();
    let s = sample_value(sample);
    assert((-sample) * pow2(0) == -sample && (-0int) * pow2(0) == 0) by (nonlinear_arith)
        requires
            pow2(0) == 1,
    ;
    assert(s.negate().at(32) == s.negate());
    let n0 = Qubit::zero_state().0.norm_sqr();
    assert(n0 == Exact::from_int(1));
    assert(n0.at(32) == (Exact { p: 0x1_0000_0000, q: 0, k: 32 }));
    let n1 = Qubit::one_state().0.norm_sqr();
    assert(n1 == Exact::from_int(0));
    assert(n1.at(32) == (Exact { p: 0, q: 0, k: 32 }));
    assert(n0.minus(s) == (Exact { p: 0x1_0000_0000 - sample, q: 0, k: 32 }));
    assert(n1.minus(s) == (Exact { p: -sample, q: 0, k: 32 }));
}

} // verus!
