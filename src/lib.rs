//! An exact single-qubit state simulator.
//!
//! Amplitudes are complex numbers whose parts are exact reals of the form
//! `(p + q·√2) / 2^k`; every state reached from the basis states through the
//! Pauli and Hadamard gates is of that form, so gate application,
//! probabilities and normalisation checks are computed without rounding.
pub mod amplitude;
pub mod exact;
pub mod qubit;
pub mod qugate;
