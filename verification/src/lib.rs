//! R1CS-Lite instances for the Viking variant of the Spartan proof system:
//! the satisfiability relation, the matrix-vector products and multilinear
//! evaluations that the prover and the verifier compute, with their contracts.
#![allow(non_snake_case)]

pub mod scalar;
pub mod math;
pub mod dense_mlpoly;
pub mod sparse_mlpoly;
pub mod r1csliteinstance;
pub mod errors;
pub mod r1csliteproof;
