//! A PLONK-style succinct argument for a fixed arithmetic circuit:
//! polynomial arithmetic over the BLS12-381 scalar field, the KZG
//! polynomial commitment scheme, Fiat–Shamir challenge derivation, the
//! algebraic check protocols built from them, and the prover and verifier
//! pipelines of a three-gates toy circuit.

pub mod algebra;
pub mod domain;
pub mod field;
pub mod group;
pub mod interpolate;
pub mod kzg;
pub mod poly;
pub mod proofs;
pub mod protocols;
pub mod prover;
pub mod setup;
pub mod setup_global_params;
pub mod setup_proving_key;
pub mod setup_verification_key;
pub mod transcript;
pub mod verification;
