//! Error types for parsing and formatting.
use vstd::prelude::*;

use crate::chars::{string_of, string_push, string_push_str};
use crate::digits::{decimal_chars, digits_of};

verus! {

/// Errors that can occur when parsing or programmatically constructing a format code.
/// A position is a byte offset into the format code's UTF-8 text.
#[derive(Debug, Clone, PartialEq)]
pub enum ParseError {
    UnexpectedToken { position: usize, found: char },
    UnterminatedBracket { position: usize },
    InvalidCondition { position: usize, reason: String },
    InvalidLocaleCode { position: usize },
    TooManySections,
    EmptyFormat,
    InvalidFormatId(u32),
    /// A programmatically supplied fraction section violates fraction invariants.
    InvalidFraction {
        /// Zero-based index of the invalid section.
        section_index: usize,
        /// Description of the invalid fraction syntax.
        reason: &'static str,
    },
}

/// Why a programmatic fraction section is refused when its fixed
/// denominator does not fit in a `u32`.
pub const FIXED_DENOMINATOR_OVERFLOW: &'static str = "fixed denominator exceeds u32::MAX";

/// Errors that can occur when formatting a value.
#[derive(Debug, Clone, PartialEq)]
pub enum FormatError {
    TypeMismatch { expected: &'static str, got: &'static str },
    /// The requested layout cannot fit in a Rust string.
    OutputTooLarge {
        /// Fill repetition count that caused the output-size failure.
        fill_count: usize,
    },
}

/// The decimal digits of a count.
pub open spec fn count_text(n: usize) -> Seq<char> {
    digits_of(n as nat)
}

/// Appends the decimal digits of `n`.
fn push_count(out: &mut String, n: u64)
    ensures
        final(out)@ == old(out)@ + digits_of(n as nat),
{
    let d = decimal_chars(n);
    string_push_str(out, string_of(d.as_slice()).as_str());
}

/// The human-readable description of a parse error.
pub open spec fn parse_error_message(e: ParseError) -> Seq<char> {
    match e {
        ParseError::UnexpectedToken { position, found } => "unexpected token at position "@
            + count_text(position) + ": found '"@ + seq![found] + "'"@,
        ParseError::UnterminatedBracket { position } => "unterminated bracket at position "@
            + count_text(position),
        ParseError::InvalidCondition { position, reason } => "invalid condition at position "@
            + count_text(position) + ": "@ + reason@,
        ParseError::InvalidLocaleCode { position } => "invalid locale code at position "@
            + count_text(position),
        ParseError::TooManySections => "too many sections (maximum 4 allowed)"@,
        ParseError::EmptyFormat => "empty format code"@,
        ParseError::InvalidFormatId(id) => "invalid format ID: "@ + digits_of(id as nat)
            + " is not a recognized built-in format"@,
        ParseError::InvalidFraction { section_index, reason } => "invalid fraction in section "@
            + count_text(section_index) + ": "@ + reason@,
    }
}

/// The human-readable description of a format error.
pub open spec fn format_error_message(e: FormatError) -> Seq<char> {
    match e {
        FormatError::TypeMismatch { expected, got } => "type mismatch: expected "@ + expected@
            + ", got "@ + got@,
        FormatError::OutputTooLarge { fill_count } => "formatted output is too large for fill count "@
            + count_text(fill_count),
    }
}

impl ParseError {
    /// A description of the error.
    pub fn message(&self) -> (r: String)
        ensures
            r@ == parse_error_message(*self),
    {
        let mut out = String::new();
        match self {
            ParseError::UnexpectedToken { position, found } => {
                string_push_str(&mut out, "unexpected token at position ");
                push_count(&mut out, *position as u64);
                string_push_str(&mut out, ": found '");
                string_push(&mut out, *found);
                string_push_str(&mut out, "'");
            },
            ParseError::UnterminatedBracket { position } => {
                string_push_str(&mut out, "unterminated bracket at position ");
                push_count(&mut out, *position as u64);
            },
            ParseError::InvalidCondition { position, reason } => {
                string_push_str(&mut out, "invalid condition at position ");
                push_count(&mut out, *position as u64);
                string_push_str(&mut out, ": ");
                string_push_str(&mut out, reason.as_str());
            },
            ParseError::InvalidLocaleCode { position } => {
                string_push_str(&mut out, "invalid locale code at position ");
                push_count(&mut out, *position as u64);
            },
            ParseError::TooManySections => {
                string_push_str(&mut out, "too many sections (maximum 4 allowed)");
            },
            ParseError::EmptyFormat => {
                string_push_str(&mut out, "empty format code");
            },
            ParseError::InvalidFormatId(id) => {
                string_push_str(&mut out, "invalid format ID: ");
                push_count(&mut out, *id as u64);
                string_push_str(&mut out, " is not a recognized built-in format");
            },
            ParseError::InvalidFraction { section_index, reason } => {
                string_push_str(&mut out, "invalid fraction in section ");
                push_count(&mut out, *section_index as u64);
                string_push_str(&mut out, ": ");
                string_push_str(&mut out, reason);
            },
        }
        assert(out@ =~= parse_error_message(*self));
        out
    }
}

impl FormatError {
    /// A description of the error.
    pub fn message(&self) -> (r: String)
        ensures
            r@ == format_error_message(*self),
    {
        let mut out = String::new();
        match self {
            FormatError::TypeMismatch { expected, got } => {
                string_push_str(&mut out, "type mismatch: expected ");
                string_push_str(&mut out, expected);
                string_push_str(&mut out, ", got ");
                string_push_str(&mut out, got);
            },
            FormatError::OutputTooLarge { fill_count } => {
                string_push_str(&mut out, "formatted output is too large for fill count ");
                push_count(&mut out, *fill_count as u64);
            },
        }
        assert(out@ =~= format_error_message(*self));
        out
    }
}

} // verus!
