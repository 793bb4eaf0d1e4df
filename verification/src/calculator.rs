//! The calculator's result formatting and input preprocessing.
pub mod engine;
pub mod formatter;
pub mod parser;
