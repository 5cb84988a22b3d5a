//! A simulator of small quantum registers with real amplitudes.
//!
//! A register ([`qbit::Qubit`]) holds `2^n` amplitudes for `n` qubits. Gates
//! ([`gates`]) are fixed matrices ([`matrix::GateMatrix`]) applied to a
//! register in place; two registers are joined by a tensor product and a
//! joint register is parted again by a split of its indices; a measurement
//! reads one bit, drawing from a source of randomness that the caller
//! supplies ([`entropy::EntropySource`]).
//!
//! Amplitudes, matrix entries and probabilities are decimal fixed-point
//! numbers ([`fixed`]): an `i64` that counts units of 1e-13, so that 1.0 is
//! `fixed::SCALE`. Sums are exact and every product is rounded to the
//! nearest unit, which makes each result a function of its inputs that
//! [`model`] states exactly and [`laws`] reasons about.
//!
//! Every executable function is verified against its contract; the only
//! code taken on trust is the random number generator behind
//! [`entropy::EntropySource`].

pub mod entropy;
pub mod error;
pub mod fixed;
pub mod gates;
pub mod laws;
pub mod matrix;
pub mod model;
pub mod qbit;
