//! A small number-theory library: the sum-of-divisors function and the
//! perfect-number test, with machine-checked contracts.

pub mod divisors;
pub mod specials;
