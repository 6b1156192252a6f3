use qubit_sim::amplitude::{Complex, Scalar};
use qubit_sim::qubit::Qubit;

fn re_only(s: Scalar) -> Complex {
    Complex::new(s, Scalar::from_int(0))
}

fn half() -> Scalar {
    Scalar::new(1, 0, 1)
}

#[test]
fn create_qubit() {
    let qubit = Qubit::new(re_only(half()), re_only(half()));
    assert_eq!(qubit.alpha(), re_only(half()));
    assert_eq!(qubit.beta(), re_only(half()));
}

#[test]
fn zero() {
    let qubit = Qubit::zero();
    assert_eq!(qubit, qubit.measure());
}

#[test]
fn one() {
    let qubit = Qubit::one();
    assert_eq!(qubit, qubit.measure());
}

#[test]
fn basis_probabilities_are_exact() {
    let (p0, p1) = Qubit::zero().probabilities();
    assert_eq!(p0, Scalar::from_int(1));
    assert_eq!(p1, Scalar::from_int(0));
    let (q0, q1) = Qubit::one().probabilities();
    assert_eq!(q0, Scalar::from_int(0));
    assert_eq!(q1, Scalar::from_int(1));
    assert_eq!(Qubit::zero().zero_probability(), Scalar::from_int(1));
    assert_eq!(Qubit::one().one_probability(), Scalar::from_int(1));
}

#[test]
fn measure_basis_many_times() {
    for _ in 0..100 {
        assert_eq!(Qubit::zero().measure(), Qubit::zero());
        assert_eq!(Qubit::one().measure(), Qubit::one());
    }
}

#[test]
fn collapse_at_the_extremes() {
    assert_eq!(Qubit::zero().collapse(0), Qubit::zero());
    assert_eq!(Qubit::zero().collapse(u32::MAX), Qubit::zero());
    assert_eq!(Qubit::one().collapse(0), Qubit::one());
    assert_eq!(Qubit::one().collapse(u32::MAX), Qubit::one());
}

#[test]
fn collapse_splits_an_even_superposition_at_one_half() {
    let c = re_only(Scalar::inv_sqrt2());
    let plus = Qubit::new(c, c);
    assert_eq!(plus.collapse(0x7fff_ffff), Qubit::zero());
    assert_eq!(plus.collapse(0x8000_0000), Qubit::one());
}

#[test]
fn collapse_with_an_irrational_probability() {
    // alpha = (2 + √2) / 4, so |alpha|^2 = (6 + 4√2) / 16 ≈ 0.7285534.
    let alpha = re_only(Scalar::new(2, 1, 2));
    let qubit = Qubit::new(alpha, Complex::zero());
    assert_eq!(qubit.zero_probability(), Scalar::new(6, 4, 4));
    // |alpha|^2 * 2^32 ≈ 3129112985.988.
    assert_eq!(qubit.collapse(3_129_112_985), Qubit::zero());
    assert_eq!(qubit.collapse(3_129_112_986), Qubit::one());
}

#[test]
fn default_is_zero() {
    assert_eq!(Qubit::default(), Qubit::zero());
}

#[test]
fn get_state_holds_both_amplitudes() {
    let state = Qubit::one().get_state();
    assert_eq!(state[0], Complex::zero());
    assert_eq!(state[1], Complex::one());
}

#[test]
fn validate_basis_and_unnormalised_states() {
    assert!(Qubit::zero().validate());
    assert!(Qubit::one().validate());
    let c = re_only(Scalar::inv_sqrt2());
    assert!(Qubit::new(c, c).validate());
    assert!(!Qubit::new(re_only(half()), re_only(half())).validate());
    assert!(!Qubit::new(Complex::one(), Complex::one()).validate());
}

#[test]
fn probabilities_of_a_complex_amplitude() {
    // (1 + i) / 2 has |.|^2 = 1/2.
    let a = Complex::new(half(), half());
    let qubit = Qubit::new(a, a);
    assert_eq!(qubit.probabilities(), (half(), half()));
    assert!(qubit.validate());
}

#[test]
fn scalars_are_kept_canonical() {
    assert_eq!(Scalar::new(4, 0, 2), Scalar::from_int(1));
    assert_eq!(Scalar::new(0, 0, 7), Scalar::from_int(0));
    let s = Scalar::new(6, 4, 3);
    assert_eq!((s.p(), s.q(), s.k()), (3, 2, 2));
    assert_eq!(Scalar::new(-2, 2, 1), Scalar::new(-1, 1, 0));
}
