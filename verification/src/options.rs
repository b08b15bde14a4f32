//! Per-call formatting options.
use vstd::prelude::*;

verus! {

/// The epoch used to interpret date serial numbers.
#[derive(Debug, Clone, Copy, PartialEq, Eq, Structural)]
pub enum DateSystem {
    /// Serial 1 is 1900-01-01 (Excel's default, with the 1900 leap-year quirk).
    Date1900,
    /// Serial 0 is 1904-01-01.
    Date1904,
}

impl DateSystem {
    /// The year of the system's epoch.
    pub fn epoch_year(&self) -> (r: u32)
        ensures
            r == (match self {
                DateSystem::Date1900 => 1900u32,
                DateSystem::Date1904 => 1904u32,
            }),
    {
        match self {
            DateSystem::Date1900 => 1900,
            DateSystem::Date1904 => 1904,
        }
    }
}

/// Locale-dependent separators.
#[derive(Debug, Clone, Copy, PartialEq, Eq)]
pub struct Locale {
    /// Character placed between the integer and decimal digits.
    pub decimal_separator: char,
    /// Character placed between groups of three integer digits.
    pub thousands_separator: char,
}

impl Locale {
    /// The en-US separators.
    pub fn en_us() -> (r: Locale)
        ensures
            r.decimal_separator == '.',
            r.thousands_separator == ',',
    {
        Locale { decimal_separator: '.', thousands_separator: ',' }
    }
}

impl Default for Locale {
    fn default() -> (r: Locale)
        ensures
            r.decimal_separator == '.',
            r.thousands_separator == ',',
    {
        Locale::en_us()
    }
}

/// Formatting and layout policy for one formatting call.
#[derive(Debug, Clone, Copy, PartialEq, Eq)]
pub struct FormatOptions {
    /// Separators to use.
    pub locale: Locale,
    /// Date epoch.
    pub date_system: DateSystem,
    /// Exact number of times a `*x` fill character is repeated.
    pub fill_count: usize,
}

impl Default for FormatOptions {
    fn default() -> (r: FormatOptions)
        ensures
            r.locale.decimal_separator == '.',
            r.locale.thousands_separator == ',',
            r.date_system == DateSystem::Date1900,
            r.fill_count == 0,
    {
        FormatOptions { locale: Locale::en_us(), date_system: DateSystem::Date1900, fill_count: 0 }
    }
}

} // verus!
