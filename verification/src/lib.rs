//! Verified building blocks of a function-hiding functional commitment.

pub mod ac_bridge;
pub mod bls12_381;
pub mod bn254;
pub mod bn254_system;
pub mod dense;
pub mod fibonacci;
pub mod field;
pub mod interpolation;
pub mod limbs;
pub mod modular;
pub mod poly;
pub mod r1cs;
pub mod r1cs_info;
pub mod satisfaction;
pub mod synthesis;
pub mod well_formation;
