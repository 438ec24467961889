//! Greatest common divisors over command-line style input.
//!
//! The crate parses decimal strings into unsigned 64-bit integers and
//! reduces a non-empty sequence of positive numbers to their greatest
//! common divisor with the Euclidean algorithm. Every executable
//! function carries a contract relating it to the mathematical
//! definitions in the spec functions, and the algebraic laws of the
//! gcd (commutativity, associativity, order-independence of folding)
//! are stated and proved as public lemmas.

pub mod divisibility;
pub mod euclid;
pub mod parse;
pub mod reduce;

pub use crate::euclid::gcd;
pub use crate::parse::collect_numbers;
pub use crate::parse::parse_u64;
pub use crate::reduce::gcd_reduce;
