//! Wire constants and fixed-width big-endian integer conversion.

pub mod constant;
pub mod conversion;
pub mod text;
