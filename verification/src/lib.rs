//! Gadgets of the zkEVM circuits.
pub mod algebra;
pub mod circuit;
pub mod field;
pub mod helpers;
pub mod helpers_laws;
pub mod is_zero;
pub mod keccak;
pub mod model_laws;
pub mod plonk;
pub mod rlc;
pub mod sums;
pub mod tx_circuit;
pub mod tx_circuit_laws;
pub mod tx_circuit_meaning;
pub mod tx_circuit_steps;
