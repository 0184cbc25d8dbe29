//! Half-Tree distributed point functions: GGM-style key generation and
//! evaluation, with a two-party generation protocol driven by ideal
//! correlated-OT and coin-tossing oracles.

pub mod bits;
pub mod errors;
pub mod seed;
pub mod field;
pub mod hash;
pub mod dpf;
pub mod hybrid;
pub mod protocol;
