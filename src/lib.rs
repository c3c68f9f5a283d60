pub mod bigint;
pub mod digits;
pub mod minimum;

pub use bigint::BigInt;
pub use minimum::{vec_min, Minimum};
