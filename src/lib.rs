pub mod approx;
pub mod convert;
pub mod fraction;
pub mod gcd;
pub mod laws;
pub mod model;
pub mod ops;
pub mod ordering;
pub mod render;

pub use fraction::{ConversionError, Fraction};
pub use model::Category;
