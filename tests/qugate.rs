use qubit_sim::amplitude::{Complex, Scalar};
use qubit_sim::qubit::Qubit;
use qubit_sim::qugate::QuGate;

fn re_only(s: Scalar) -> Complex {
    Complex::new(s, Scalar::from_int(0))
}

#[test]
fn pauli_x() {
    let qubit = Qubit::zero();
    let x_gate = QuGate::pauli_x();

    assert_eq!(x_gate.apply(&qubit), Qubit::one());
}

#[test]
fn pauli_y() {
    let qubit = Qubit::zero();
    let y_gate = QuGate::pauli_y();

    assert_eq!(y_gate.apply(&qubit), Qubit::new(Complex::zero(), Complex::i()));
}

#[test]
fn pauli_z() {
    let qubit = Qubit::zero();
    let z_gate = QuGate::pauli_z();

    assert_eq!(z_gate.apply(&qubit), Qubit::zero());
}

#[test]
fn hadamard() {
    let qubit = Qubit::zero();
    let h_gate = QuGate::hadamard();
    let norm_factor = Scalar::inv_sqrt2();

    assert_eq!(h_gate.apply(&qubit), Qubit::new(re_only(norm_factor), re_only(norm_factor)));
}

#[test]
fn pauli_x_twice_is_identity() {
    let x = QuGate::pauli_x();
    assert_eq!(x.apply(&Qubit::one()), Qubit::zero());
    assert_eq!(x.apply(&x.apply(&Qubit::zero())), Qubit::zero());
    assert_eq!(x.apply(&x.apply(&Qubit::one())), Qubit::one());
}

#[test]
fn pauli_y_on_one() {
    let minus_i = Complex::new(Scalar::from_int(0), Scalar::from_int(-1));
    assert_eq!(QuGate::pauli_y().apply(&Qubit::one()), Qubit::new(minus_i, Complex::zero()));
}

#[test]
fn pauli_z_negates_one_and_keeps_probabilities() {
    let z1 = QuGate::pauli_z().apply(&Qubit::one());
    let minus_one = re_only(Scalar::from_int(-1));
    assert_eq!(z1, Qubit::new(Complex::zero(), minus_one));
    assert_eq!(z1.probabilities(), Qubit::one().probabilities());
}

#[test]
fn hadamard_twice_is_exactly_identity() {
    let h = QuGate::hadamard();
    let once = h.apply(&Qubit::zero());
    assert_eq!(h.apply(&once), Qubit::zero());
    assert!(h.apply(&once).validate());
    let minus = h.apply(&Qubit::one());
    let c = Scalar::inv_sqrt2();
    assert_eq!(minus, Qubit::new(re_only(c), re_only(Scalar::new(0, -1, 1))));
    assert_eq!(h.apply(&minus), Qubit::one());
}

#[test]
fn hadamard_gives_even_probabilities() {
    let half = Scalar::new(1, 0, 1);
    let plus = QuGate::hadamard().apply(&Qubit::zero());
    assert_eq!(plus.probabilities(), (half, half));
    assert_eq!((half.p(), half.q(), half.k()), (1, 0, 1));
}

#[test]
fn named_gates_on_basis_states_stay_normalised() {
    let gates = [QuGate::pauli_x(), QuGate::pauli_y(), QuGate::pauli_z(), QuGate::hadamard()];
    for g in gates.iter() {
        for b in [Qubit::zero(), Qubit::one()].iter() {
            let r = g.apply(b);
            assert!(r.validate());
            let (p0, p1) = r.probabilities();
            for p in [p0, p1] {
                assert!(p.p() >= 0 && p.q() == 0);
                assert!(p.p() <= 1 << p.k());
            }
        }
    }
}

#[test]
fn custom_matrix_matches_named_gate() {
    let m = [[Complex::zero(), Complex::one()], [Complex::one(), Complex::zero()]];
    assert_eq!(QuGate::new(m), QuGate::pauli_x());
    let s = Complex::new(Scalar::from_int(0), Scalar::from_int(1));
    let phase = QuGate::new([[Complex::one(), Complex::zero()], [Complex::zero(), s]]);
    let c = re_only(Scalar::inv_sqrt2());
    let turned = phase.apply(&Qubit::new(c, c));
    assert_eq!(turned, Qubit::new(c, Complex::new(Scalar::from_int(0), Scalar::inv_sqrt2())));
}

#[test]
fn non_unitary_matrix_is_accepted() {
    let two = re_only(Scalar::from_int(2));
    let g = QuGate::new([[two, Complex::zero()], [Complex::zero(), two]]);
    let r = g.apply(&Qubit::zero());
    assert_eq!(r, Qubit::new(two, Complex::zero()));
    assert!(!r.validate());
}

#[test]
fn matrix_reads_back_the_entries() {
    let m = QuGate::hadamard().matrix();
    let c = re_only(Scalar::inv_sqrt2());
    assert_eq!(m[0][0], c);
    assert_eq!(m[0][1], c);
    assert_eq!(m[1][0], c);
    assert_eq!(m[1][1], re_only(Scalar::new(0, -1, 1)));
}
