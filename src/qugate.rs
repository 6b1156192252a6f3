//! Single-qubit gates: 2×2 complex matrices applied to a state.
use crate::amplitude::{Complex, Scalar};
use crate::exact::{lemma_small_lifts, CExact, Exact};
use crate::qubit::Qubit;
use vstd::prelude::*;

verus! {

/// The rows `((m00, m01), (m10, m11))` of a gate's matrix.
pub type Matrix = ((CExact, CExact), (CExact, CExact));

/// A gate: a 2×2 complex matrix, applied to a qubit's amplitude vector.
#[derive(Clone, Copy, Debug, PartialEq, Eq, Structural)]
pub struct QuGate {
    m00: Complex,
    m01: Complex,
    m10: Complex,
    m11: Complex,
}

impl View for QuGate {
    type V = Matrix;

    closed spec fn view(&self) -> Matrix {
        ((self.m00@, self.m01@), (self.m10@, self.m11@))
    }
}

/// The complex number `n + 0i`.
pub open spec fn int_re(n: int) -> CExact {
    CExact::new(Exact::from_int(n), Exact::from_int(0))
}

/// The complex number `0 + ni`.
pub open spec fn int_im(n: int) -> CExact {
    CExact::new(Exact::from_int(0), Exact::from_int(n))
}

impl QuGate {
    /// All entries are small enough for gate application.
    pub open spec fn bounded(self) -> bool {
        &&& self@.0.0.is_bounded()
        &&& self@.0.1.is_bounded()
        &&& self@.1.0.is_bounded()
        &&& self@.1.1.is_bounded()
    }

    /// The matrix-vector product `m · (alpha, beta)`, in canonical form.
    pub open spec fn applied(m: Matrix, s: (CExact, CExact)) -> (CExact, CExact) {
        (
            m.0.0.times(s.0).plus(m.0.1.times(s.1)).canonical(),
            m.1.0.times(s.0).plus(m.1.1.times(s.1)).canonical(),
        )
    }

    /// Pauli-X: `[[0, 1], [1, 0]]`.
    pub open spec fn x_matrix() -> Matrix {
        ((int_re(0), int_re(1)), (int_re(1), int_re(0)))
    }

    /// Pauli-Y: `[[0, -i], [i, 0]]`.
    pub open spec fn y_matrix() -> Matrix {
        ((int_re(0), int_im(-1)), (int_im(1), int_re(0)))
    }

    /// Pauli-Z: `[[1, 0], [0, -1]]`.
    pub open spec fn z_matrix() -> Matrix {
        ((int_re(1), int_re(0)), (int_re(0), int_re(-1)))
    }

    /// Hadamard: `[[c, c], [c, -c]]` with `c = 1/√2`.
    pub open spec fn h_matrix() -> Matrix {
        let c = CExact::new(Exact::inv_sqrt2(), Exact::from_int(0));
        ((c, c), (c, c.negate()))
    }

    /// A gate from a 2×2 matrix, indexed `[row][column]`. Unitarity is not
    /// checked.
    pub fn new(matrix: [[Complex; 2]; 2]) -> (r: QuGate)
        ensures
            r@ == ((matrix[0][0]@, matrix[0][1]@), (matrix[1][0]@, matrix[1][1]@)),
    {
        let top = matrix[0];
        let bottom = matrix[1];
        QuGate { m00: top[0], m01: top[1], m10: bottom[0], m11: bottom[1] }
    }

    /// The matrix, indexed `[row][column]`.
    pub fn matrix(&self) -> (r: [[Complex; 2]; 2])
        ensures
            ((r[0][0]@, r[0][1]@), (r[1][0]@, r[1][1]@)) == self@,
    {
        [[self.m00, self.m01], [self.m10, self.m11]]
    }

    /// The state whose amplitudes are the matrix-vector product of this gate
    /// and those of `qubit`, computed exactly.
    pub fn apply(&self, qubit: &Qubit) -> (r: Qubit)
        requires
            self.bounded(),
            qubit.bounded(),
        ensures
            r@ == QuGate::applied(self@, qubit@),
    {
        let a = qubit.alpha();
        let b = qubit.beta();
        Qubit::new(
            Complex::mul_add(&self.m00, &a, &self.m01, &b),
            Complex::mul_add(&self.m10, &a, &self.m11, &b),
        )
    }

    /// The Pauli-X (bit flip) gate.
    pub fn pauli_x() -> (r: QuGate)
        ensures
            r@ == QuGate::x_matrix(),
    {
        QuGate { m00: Complex::zero(), m01: Complex::one(), m10: Complex::one(), m11: Complex::zero() }
    }

    /// The Pauli-Y gate.
    pub fn pauli_y() -> (r: QuGate)
        ensures
            r@ == QuGate::y_matrix(),
    {
        let minus_i = Complex::new(Scalar::from_int(0), Scalar::from_int(-1));
        QuGate { m00: Complex::zero(), m01: minus_i, m10: Complex::i(), m11: Complex::zero() }
    }

    /// The Pauli-Z (phase flip) gate.
    pub fn pauli_z() -> (r: QuGate)
        ensures
            r@ == QuGate::z_matrix(),
    {
        let minus_one = Complex::new(Scalar::from_int(-1), Scalar::from_int(0));
        QuGate { m00: Complex::one(), m01: Complex::zero(), m10: Complex::zero(), m11: minus_one }
    }

    /// The Hadamard gate.
    pub fn hadamard() -> (r: QuGate)
        ensures
            r@ == QuGate::h_matrix(),
    {
        let c = Complex::new(Scalar::inv_sqrt2(), Scalar::from_int(0));
        let minus_c = Complex::new(Scalar::inv_sqrt2().negate(), Scalar::from_int(0));
        QuGate { m00: c, m01: c, m10: c, m11: minus_c }
    }
}

/// Pauli-X swaps the basis states: it maps |0⟩ to |1⟩ and |1⟩ to |0⟩, so
/// applying it twice to either gives it back.
pub proof fn lemma_pauli_x_swaps_basis()
    ensures
        QuGate::applied(QuGate::x_matrix(), Qubit::zero_state()) == Qubit::one_state(),
        QuGate::applied(QuGate::x_matrix(), Qubit::one_state()) == Qubit::zero_state(),
        QuGate::applied(
            QuGate::x_matrix(),
            QuGate::applied(QuGate::x_matrix(), Qubit::zero_state()),
        ) == Qubit::zero_state(),
        QuGate::applied(
            QuGate::x_matrix(),
            QuGate::applied(QuGate::x_matrix(), Qubit::one_state()),
        ) == Qubit::one_state(),
{
    lemma_small_lifts();
}

/// Pauli-Y maps |0⟩ to the amplitudes `(0 + 0i, 0 + 1i)`.
pub proof fn lemma_pauli_y_on_zero()
    ensures
        QuGate::applied(QuGate::y_matrix(), Qubit::zero_state()) == (int_re(0), int_im(1)),
{
    lemma_small_lifts();
}

/// Pauli-Z leaves |0⟩ as it is, negates the amplitude of |1⟩, and leaves the
/// probabilities of |1⟩ as they were.
pub proof fn lemma_pauli_z_on_basis()
    ensures
        QuGate::applied(QuGate::z_matrix(), Qubit::zero_state()) == Qubit::zero_state(),
        QuGate::applied(QuGate::z_matrix(), Qubit::one_state()) == (int_re(0), int_re(-1)),
        Qubit::probabilities_of(QuGate::applied(QuGate::z_matrix(), Qubit::one_state()))
            == Qubit::probabilities_of(Qubit::one_state()),
{
    lemma_small_lifts();
}

/// Hadamard maps |0⟩ to `(1/√2, 1/√2)`, and applied twice gives |0⟩ back
/// exactly.
pub proof fn lemma_hadamard_on_zero()
    ensures
        QuGate::applied(QuGate::h_matrix(), Qubit::zero_state()) == (
            CExact::new(Exact::inv_sqrt2(), Exact::from_int(0)),
            CExact::new(Exact::inv_sqrt2(), Exact::from_int(0)),
        ),
        QuGate::applied(
            QuGate::h_matrix(),
            QuGate::applied(QuGate::h_matrix(), Qubit::zero_state()),
        ) == Qubit::zero_state(),
{
    lemma_small_lifts();
    reveal_with_fuel(Exact::canonical, 3);
    let c = CExact::new(Exact::inv_sqrt2(), Exact::from_int(0));
    let hz = QuGate::applied(QuGate::h_matrix(), Qubit::zero_state());
    let one = int_re(1);
    let zero = int_re(0);
    assert(c.times(one) == CExact::new(Exact { p: 0, q: 1, k: 1 }, Exact { p: 0, q: 0, k: 1 }));
    assert(c.times(zero) == CExact::new(Exact { p: 0, q: 0, k: 1 }, Exact { p: 0, q: 0, k: 1 }));
    assert(c.negate().times(zero) == CExact::new(
        Exact { p: 0, q: 0, k: 1 },
        Exact { p: 0, q: 0, k: 1 },
    ));
    assert(c.times(one).plus(c.times(zero)) == CExact::new(
        Exact { p: 0, q: 1, k: 1 },
        Exact { p: 0, q: 0, k: 1 },
    ));
    assert(c.times(one).plus(c.negate().times(zero)) == CExact::new(
        Exact { p: 0, q: 1, k: 1 },
        Exact { p: 0, q: 0, k: 1 },
    ));
    assert(hz == (c, c));
    let cc = c.times(c);
    assert(cc.re == (Exact { p: 2, q: 0, k: 2 }));
    assert(cc.im == (Exact { p: 0, q: 0, k: 1 }));
    let ncc = c.negate().times(c);
    assert(ncc.re == (Exact { p: -2, q: 0, k: 2 }));
    assert(ncc.im == (Exact { p: 0, q: 0, k: 1 }));
    assert(cc.plus(cc).re == (Exact { p: 4, q: 0, k: 2 }));
    assert(cc.plus(cc).im == (Exact { p: 0, q: 0, k: 1 }));
    assert(cc.plus(ncc).re == (Exact { p: 0, q: 0, k: 2 }));
    assert(cc.plus(ncc).im == (Exact { p: 0, q: 0, k: 1 }));
}

/// One of the four named gates.
pub open spec fn is_named(m: Matrix) -> bool {
    ||| m == QuGate::x_matrix()
    ||| m == QuGate::y_matrix()
    ||| m == QuGate::z_matrix()
    ||| m == QuGate::h_matrix()
}

/// The amplitudes `(1/√2, ±1/√2)`.
pub open spec fn half_state(sign: int) -> (CExact, CExact) {
    let c = Exact::inv_sqrt2();
    (
        CExact::new(c, Exact::from_int(0)),
        CExact::new(if sign < 0 { c.negate() } else { c }, Exact::from_int(0)),
    )
}

proof fn lemma_hadamard_on_one()
    ensures
        QuGate::applied(QuGate::h_matrix(), Qubit::one_state()) == half_state(-1),
{
    lemma_small_lifts();
    reveal_with_fuel(Exact::canonical, 2);
    let c = CExact::new(Exact::inv_sqrt2(), Exact::from_int(0));
    let one = int_re(1);
    let zero = int_re(0);
    assert(c.times(one) == CExact::new(Exact { p: 0, q: 1, k: 1 }, Exact { p: 0, q: 0, k: 1 }));
    assert(c.times(zero) == CExact::new(Exact { p: 0, q: 0, k: 1 }, Exact { p: 0, q: 0, k: 1 }));
    assert(c.negate().times(one) == CExact::new(
        Exact { p: 0, q: -1, k: 1 },
        Exact { p: 0, q: 0, k: 1 },
    ));
}

proof fn lemma_half_state_probabilities(sign: int)
    ensures
        Qubit::probabilities_of(half_state(sign)) == (
            Exact { p: 1, q: 0, k: 1 },
            Exact { p: 1, q: 0, k: 1 },
        ),
        half_state(sign).0.norm_sqr().plus(half_state(sign).1.norm_sqr()).canonical()
            == Exact::from_int(1),
{
    lemma_small_lifts();
    reveal_with_fuel(Exact::canonical, 3);
    let s = half_state(sign);
    assert(s.0.norm_sqr() == (Exact { p: 2, q: 0, k: 2 }));
    assert(s.1.norm_sqr() == (Exact { p: 2, q: 0, k: 2 }));
}

/// The squared magnitudes of an amplitude pair of the form
/// `(±1 or ±i, 0)` or `(0, ±1 or ±i)`.
proof fn lemma_unit_probabilities(s: (CExact, CExact))
    requires
        s == (int_re(0), int_re(1)) || s == (int_re(1), int_re(0)) || s == (int_re(0), int_im(1))
            || s == (int_im(-1), int_re(0)) || s == (int_re(0), int_re(-1)),
    ensures
        Qubit::probabilities_of(s).0.is_probability(),
        Qubit::probabilities_of(s).1.is_probability(),
        s.0.norm_sqr().plus(s.1.norm_sqr()).canonical() == Exact::from_int(1),
{
    lemma_small_lifts();
}

/// Each named gate applied to a basis state gives probabilities between 0
/// and 1 that add up to exactly 1.
pub proof fn lemma_named_gate_probabilities(m: Matrix, s: (CExact, CExact))
    requires
        is_named(m),
        s == Qubit::zero_state() || s == Qubit::one_state(),
    ensures
        Qubit::probabilities_of(QuGate::applied(m, s)).0.is_probability(),
        Qubit::probabilities_of(QuGate::applied(m, s)).1.is_probability(),
        QuGate::applied(m, s).0.norm_sqr().plus(QuGate::applied(m, s).1.norm_sqr()).canonical()
            == Exact::from_int(1),
{
    lemma_small_lifts();
    lemma_pauli_x_swaps_basis();
    lemma_pauli_y_on_zero();
    lemma_pauli_z_on_basis();
    lemma_hadamard_on_zero();
    lemma_hadamard_on_one();
    let r = QuGate::applied(m, s);
    if m == QuGate::h_matrix() {
        let sign: int = if s == Qubit::zero_state() { 1 } else { -1 };
        assert(r == half_state(sign));
        lemma_half_state_probabilities(sign);
        assert(Exact { p: 1, q: 0, k: 1 }.is_probability());
    } else {
        if m == QuGate::y_matrix() && s == Qubit::one_state() {
            assert(r == (int_im(-1), int_re(0)));
        }
        lemma_unit_probabilities(r);
    }
}

} // verus!
