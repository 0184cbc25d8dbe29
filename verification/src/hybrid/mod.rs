//! Ideal functionalities the generation protocol runs against: correlated
//! OT, coin tossing and OLE.

pub mod chacha;
pub mod cot;
pub mod ole;
pub mod rand;
