//! Excel-compatible ECMA-376 number format codes: parsing, compilation into
//! execution plans, and the integer, text, fraction and layout parts of
//! formatting, with their contracts proved by Verus.
pub mod ast;
pub mod chars;
pub mod compile;
pub mod digits;
pub mod error;
pub mod formatter;
pub mod lexer;
pub mod numfmt;
pub mod options;
pub mod output;
pub mod parser;

pub use error::{FormatError, ParseError};
pub use formatter::bigint::{fallback_format_bigint, is_safe_integer, LargeInt};
pub use formatter::number::{analyze_format, FormatAnalysis};
pub use numfmt::NumberFormat;
pub use options::{DateSystem, FormatOptions, Locale};
pub use output::{plain_text, FormatOutput};
pub use parser::parse;
