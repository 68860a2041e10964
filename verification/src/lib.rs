//! Primality of 64-bit unsigned integers by trial division, and the replies
//! of an interactive session that asks for it line by line.
//!
//! - `prime`: what a prime number is, and `is_prime`, which decides it.
//! - `text`: a line as a sequence of characters, white space and trimming.
//! - `number`: decimal numerals of 64-bit unsigned integers.
//! - `session`: from a line of input to the reply that it gets.

pub mod number;
pub mod prime;
pub mod session;
pub mod text;
