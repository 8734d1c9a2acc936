//! Binary floating-point numbers as bit patterns, with the operations that the
//! bar's geometry needs, proved against IEEE 754's definition: the exact
//! result, rounded to the nearest number of the format, ties to even.

pub mod bounds;
pub mod double;
pub mod exact;
pub mod magnitude;
pub mod nearest;
pub mod rounding;
pub mod single;
pub mod whole;
