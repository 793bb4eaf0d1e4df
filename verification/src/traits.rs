//! The interfaces of the calculator's formatters and converters.
use vstd::prelude::*;

verus! {

/// Converts values to different representations.
pub trait Converter {
    /// The value in hexadecimal, decimal, octal and binary, one per line.
    fn convert_all(&self, value: i64) -> String;

    /// The value in the representation named by `format` ("hex", "bin", "oct", "unicode" or
    /// "uni"), or an error for an unknown name or an invalid code point.
    fn convert_to(&self, value: i64, format: &str) -> Result<String, String>;
}

/// Formats binary/bit representations.
pub trait BitFormatter {
    /// The 64 bits of the value in two rows of 32, with bit positions below each row.
    fn format_64bit(&self, value: i64) -> String;

    /// The binary digits of the value in groups of four, after `0b`.
    fn format_bin(&self, value: i64) -> String;
}

/// Formats numeric output with grouping.
pub trait NumberFormatter {
    /// The value with its digits grouped.
    fn format(&self, value: i64) -> String;
}

} // verus!
