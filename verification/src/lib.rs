//! A calculator library: number theory, rounding of rationals, base conversion and
//! formatting of integers, and a tokenizer and shunting-yard converter for arithmetic
//! expressions.
pub mod bitview;
pub mod calculator;
pub mod converter;
pub mod error;
pub mod fprice;
pub mod meval;
pub mod number_theory;
pub mod text;
pub mod traits;
