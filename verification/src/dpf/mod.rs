//! DPF keys, evaluation, dealer key generation and level expansion.

pub mod key;
pub mod eval;
pub mod correctness;
pub mod gen_ref;
pub mod next_level;
