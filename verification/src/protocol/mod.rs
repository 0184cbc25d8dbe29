//! The two-party DPF generation protocol and its sub-protocols.

pub mod levels;
pub mod prep;
pub mod fig10;
