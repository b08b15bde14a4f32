//! Integers beyond the range where `f64` is exact, formatted with exact
//! decimal arithmetic.
use vstd::prelude::*;

use num_bigint::BigInt;

use crate::ast::{parts_view, FormatPartOf, PartView, Section, SectionView};
use crate::numfmt::NumberFormat;
use crate::parser::detect::has_date;
use crate::chars::{chars_of, string_of, string_push, string_push_str};
use crate::compile::{classify, classify_section, SectionKind};
use crate::digits::{digit_char, digits_of, is_ascii_digit, lemma_digits_of};
use crate::error::FormatError;
use crate::options::FormatOptions;
use crate::parser::bracket::decimal_value;

use super::number::{
    analysis_of, analyze_format, build_result, check_fill_size, decimal_text, fill_bytes,
    format_decimal_digits,
    format_integer_digits, general_parts_text, integer_digits_text, parts_text, push_parts,
    render_general_section, result_text, separator, AnalysisView,
};

verus! {

/// The largest integer that `f64` represents exactly together with all
/// smaller ones: 2^53 - 1.
pub const MAX_SAFE_INTEGER: i64 = 9_007_199_254_740_991;

/// The smallest such integer: -(2^53 - 1).
pub const MIN_SAFE_INTEGER: i64 = -9_007_199_254_740_991;

/// A nonempty string of ASCII digits.
pub open spec fn is_decimal(s: Seq<char>) -> bool {
    s.len() > 0 && forall|i: int| 0 <= i < s.len() ==> is_ascii_digit(#[trigger] s[i])
}

/// Decimal digits without leading zeros (zero is a single `0`).
pub open spec fn canonical(s: Seq<char>) -> bool {
    is_decimal(s) && (s.len() > 1 ==> s[0] != '0')
}

/// The product of two decimal numbers (`BigInt` multiplication).
#[verifier::external_body]
fn big_mul(a: &str, b: &str) -> (r: String)
    requires
        is_decimal(a@),
        is_decimal(b@),
    ensures
        r@ == digits_of(decimal_value(a@) * decimal_value(b@)),
{
    let x = BigInt::parse_bytes(a.as_bytes(), 10).unwrap();
    let y = BigInt::parse_bytes(b.as_bytes(), 10).unwrap();
    (x * y).to_string()
}

/// The quotient of two decimal numbers, rounded down (`BigInt` division).
#[verifier::external_body]
fn big_div(a: &str, b: &str) -> (r: String)
    requires
        is_decimal(a@),
        is_decimal(b@),
        decimal_value(b@) > 0,
    ensures
        r@ == digits_of(decimal_value(a@) / decimal_value(b@)),
{
    let x = BigInt::parse_bytes(a.as_bytes(), 10).unwrap();
    let y = BigInt::parse_bytes(b.as_bytes(), 10).unwrap();
    (x / y).to_string()
}

/// `base` raised to `exponent` (`BigInt::pow`).
#[verifier::external_body]
fn big_pow(base: u32, exponent: u32) -> (r: String)
    ensures
        r@ == digits_of(vstd::arithmetic::power::pow(base as int, exponent as nat) as nat),
{
    BigInt::from(base).pow(exponent).to_string()
}

/// An arbitrary-precision integer: its sign and the decimal digits of its
/// magnitude.
#[derive(Debug, PartialEq, Eq)]
pub struct LargeInt {
    negative: bool,
    digits: Vec<char>,
}

impl View for LargeInt {
    type V = int;

    closed spec fn view(&self) -> int {
        if self.negative {
            -decimal_value(self.digits@)
        } else {
            decimal_value(self.digits@) as int
        }
    }
}

/// The decimal text of an integer: a minus sign for negatives, then the
/// digits of the magnitude.
pub open spec fn integer_string(v: int) -> Seq<char> {
    if v < 0 {
        seq!['-'] + digits_of((-v) as nat)
    } else {
        digits_of(v as nat)
    }
}

/// The value of `-?[0-9]+`, if `s` has that form.
pub open spec fn parse_integer(s: Seq<char>) -> Option<int> {
    if s.len() > 0 && s[0] == '-' && is_decimal(s.skip(1)) {
        Some(-decimal_value(s.skip(1)))
    } else if is_decimal(s) {
        Some(decimal_value(s) as int)
    } else {
        None
    }
}

pub proof fn lemma_digits_of_canonical(n: nat)
    ensures
        canonical(digits_of(n)),
        decimal_value(digits_of(n)) == n,
    decreases n,
{
    lemma_digits_of(n);
    let d = digits_of(n);
    if n >= 10 {
        lemma_digits_of_canonical(n / 10);
        lemma_digits_of(n / 10);
        crate::digits::lemma_digit_char(n % 10);
        assert(d.drop_last() =~= digits_of(n / 10));
        assert(d.last() == digit_char(n % 10));
        assert(decimal_value(d) == decimal_value(d.drop_last()) * 10 + ((d.last() as u32) - ('0' as u32)) as nat);
        if digits_of(n / 10).len() == 1 {
            assert(n / 10 < 10);
            assert(d[0] == digits_of(n / 10)[0]);
            assert(digits_of(n / 10)[0] == digit_char(n / 10));
            crate::digits::lemma_digit_char(n / 10);
        } else {
            assert(d[0] == digits_of(n / 10)[0]);
        }
    } else {
        crate::digits::lemma_digit_char(n);
        assert(d.drop_last() =~= Seq::<char>::empty());
        assert(decimal_value(d) == decimal_value(d.drop_last()) * 10 + ((d.last() as u32) - ('0' as u32)) as nat);
    }
}

/// The digits of the value of canonical digits are those digits.
pub proof fn lemma_canonical_digits(d: Seq<char>)
    requires
        canonical(d),
    ensures
        digits_of(decimal_value(d)) == d,
    decreases d.len(),
{
    let v = decimal_value(d);
    let c = ((d.last() as u32) - ('0' as u32)) as nat;
    assert(is_ascii_digit(d.last()));
    assert(c < 10);
    crate::digits::lemma_digit_char(c);
    assert(digit_char(c) == d.last());
    if d.len() == 1 {
        assert(d.drop_last() =~= Seq::<char>::empty());
        assert(decimal_value(Seq::<char>::empty()) == 0);
        assert(v == c);
        assert(digits_of(v) =~= d);
    } else {
        let p = d.drop_last();
        assert(canonical(p)) by {
            assert(p[0] == d[0]);
        }
        lemma_canonical_digits(p);
        lemma_value_at_least_ten(d);
        let a = decimal_value(p);
        assert(v == a * 10 + c);
        assert(v / 10 == a && v % 10 == c) by (nonlinear_arith)
            requires
                v == a * 10 + c,
                c < 10,
        ;
        assert(digits_of(v) == digits_of(v / 10).push(digit_char(v % 10)));
        assert(digits_of(v) =~= d);
    }
}

/// Canonical digits of two or more characters are worth at least ten.
proof fn lemma_value_at_least_ten(d: Seq<char>)
    requires
        canonical(d),
        d.len() > 1,
    ensures
        decimal_value(d) >= 10,
        decimal_value(d.drop_last()) >= 1,
    decreases d.len(),
{
    let p = d.drop_last();
    if p.len() == 1 {
        assert(p[0] == d[0]);
    } else {
        assert(canonical(p)) by {
            assert(p[0] == d[0]);
        }
        lemma_value_at_least_ten(p);
    }
}

/// `d` without its leading zeros, keeping one digit.
pub open spec fn strip_zeros(d: Seq<char>) -> Seq<char>
    decreases d.len(),
{
    if d.len() > 1 && d[0] == '0' {
        strip_zeros(d.skip(1))
    } else {
        d
    }
}

pub proof fn lemma_decimal_value_skip_zero(d: Seq<char>)
    requires
        d.len() > 1,
        d[0] == '0',
    ensures
        decimal_value(d) == decimal_value(d.skip(1)),
    decreases d.len(),
{
    let t = d.skip(1);
    assert(t.last() == d.last());
    if d.len() > 2 {
        lemma_decimal_value_skip_zero(d.drop_last());
        assert(d.drop_last().skip(1) =~= t.drop_last());
    } else {
        assert(t.drop_last() =~= Seq::<char>::empty());
        assert(d.drop_last() =~= seq!['0']);
        assert(seq!['0'].drop_last() =~= Seq::<char>::empty());
        assert(decimal_value(seq!['0']) == decimal_value(Seq::<char>::empty()) * 10 + (('0' as u32) - ('0' as u32)) as nat);
    }
}

pub proof fn lemma_strip_zeros(d: Seq<char>)
    requires
        is_decimal(d),
    ensures
        canonical(strip_zeros(d)),
        decimal_value(strip_zeros(d)) == decimal_value(d),
    decreases d.len(),
{
    if d.len() > 1 && d[0] == '0' {
        lemma_decimal_value_skip_zero(d);
        lemma_strip_zeros(d.skip(1));
    }
}

impl LargeInt {
    #[verifier::type_invariant]
    closed spec fn inv(self) -> bool {
        canonical(self.digits@) && (self.negative ==> self.digits@ != seq!['0'])
    }

    /// Reads `-?[0-9]+`; anything else is refused.
    pub fn parse(text: &str) -> (r: Option<LargeInt>)
        ensures
            match parse_integer(text@) {
                Some(v) => r matches Some(x) && x@ == v,
                None => r is None,
            },
    {
        let s = chars_of(text);
        let negative = s.len() > 0 && s[0] == '-';
        let start: usize = if negative {
            1
        } else {
            0
        };
        if start >= s.len() {
            assert(!is_decimal(s@.skip(start as int)));
            if negative {
                assert(!is_ascii_digit(s@[0]));
            }
            return None;
        }
        let mut i = start;
        while i < s.len()
            invariant
                start <= i <= s@.len(),
                negative == (s@.len() > 0 && s@[0] == '-'),
                s@ == text@,
                start == if negative {
                    1usize
                } else {
                    0usize
                },
                forall|j: int| start <= j < i ==> is_ascii_digit(#[trigger] s@[j]),
            decreases s@.len() - i,
        {
            if !('0' <= s[i] && s[i] <= '9') {
                assert(!is_decimal(s@.skip(start as int))) by {
                    assert(s@.skip(start as int)[i - start] == s@[i as int]);
                }
                if negative {
                    assert(!is_ascii_digit(s@[0]));
                } else {
                    assert(s@.skip(0) =~= s@);
                }
                return None;
            }
            i = i + 1;
        }
        let body = crate::chars::slice_chars(&s, start, s.len());
        assert(body@ =~= s@.skip(start as int));
        let mut k: usize = 0;
        assert(body@.skip(0) =~= body@);
        let blen = body.len();
        while k + 1 < blen && body[k] == '0'
            invariant
                k < body@.len(),
                blen == body@.len(),
                is_decimal(body@.skip(k as int)),
                strip_zeros(body@.skip(k as int)) == strip_zeros(body@),
            decreases body@.len() - k,
        {
            assert(body@.skip(k as int).skip(1) =~= body@.skip(k + 1));
            k = k + 1;
        }
        let digits = crate::chars::slice_chars(&body, k, body.len());
        assert(digits@ =~= body@.skip(k as int));
        assert(strip_zeros(digits@) == digits@);
        proof {
            lemma_strip_zeros(body@);
        }
        let zero = digits.len() == 1 && digits[0] == '0';
        assert(zero == (digits@ == seq!['0'])) by {
            if digits@.len() == 1 && digits@[0] == '0' {
                assert(digits@ =~= seq!['0']);
            }
        }
        proof {
            if negative {
                assert(s@[0] == '-');
            } else {
                assert(s@.skip(0) =~= s@);
            }
            if zero {
                assert(digits@ =~= seq!['0']);
                assert(seq!['0'].drop_last() =~= Seq::<char>::empty());
                assert(decimal_value(seq!['0']) == decimal_value(Seq::<char>::empty()) * 10 + (('0' as u32) - ('0' as u32)) as nat);
            }
        }
        Some(LargeInt { negative: negative && !zero, digits })
    }

    /// The value of an `i64`.
    pub fn from_i64(v: i64) -> (r: LargeInt)
        ensures
            r@ == v as int,
    {
        let negative = v < 0;
        let magnitude: u64 = if v < 0 {
            if v == i64::MIN {
                9223372036854775808
            } else {
                (-v) as u64
            }
        } else {
            v as u64
        };
        let digits = crate::digits::decimal_chars(magnitude);
        proof {
            lemma_digits_of_canonical(magnitude as nat);
            if negative {
                lemma_digits_of(magnitude as nat);
                assert(digits@ != seq!['0']) by {
                    if digits@ == seq!['0'] {
                        assert(decimal_value(seq!['0']) == 0);
                    }
                }
            }
        }
        LargeInt { negative, digits }
    }

    /// Whether the value is below zero.
    pub fn is_negative(&self) -> (r: bool)
        ensures
            r == (self@ < 0),
    {
        proof {
            use_type_invariant(self);
            if self.negative {
                lemma_canonical_digits(self.digits@);
                assert(decimal_value(self.digits@) > 0) by {
                    if decimal_value(self.digits@) == 0 {
                        assert(digits_of(0) =~= seq!['0']);
                    }
                }
            }
        }
        self.negative
    }

    /// The decimal digits of the magnitude.
    pub fn magnitude(&self) -> (r: &Vec<char>)
        ensures
            r@ == digits_of(if self@ < 0 {
                (-self@) as nat
            } else {
                self@ as nat
            }),
            canonical(r@),
    {
        proof {
            use_type_invariant(self);
            lemma_canonical_digits(self.digits@);
        }
        let _ = self.is_negative();
        &self.digits
    }
}

/// Whether `n` lies within the range where `f64` is exact.
pub fn is_safe_integer(n: &LargeInt) -> (r: bool)
    ensures
        r == (MIN_SAFE_INTEGER <= n@ <= MAX_SAFE_INTEGER),
{
    let negative = n.is_negative();
    let digits = n.magnitude();
    let ghost m = decimal_value(digits@);
    proof {
        lemma_digits_of_canonical(if n@ < 0 {
            (-n@) as nat
        } else {
            n@ as nat
        });
    }
    let mut value: u64 = 0;
    let mut big = false;
    let mut i: usize = 0;
    while i < digits.len()
        invariant
            i <= digits@.len(),
            is_decimal(digits@),
            !big ==> value == decimal_value(digits@.take(i as int)) && value <= 9_007_199_254_740_991,
            big ==> decimal_value(digits@.take(i as int)) > 9_007_199_254_740_991,
        decreases digits@.len() - i,
    {
        assert(digits@.take(i + 1).drop_last() =~= digits@.take(i as int));
        assert(is_ascii_digit(digits@[i as int]));
        if !big {
            let d = (digits[i] as u32 - 48) as u64;
            value = value * 10 + d;
            if value > 9_007_199_254_740_991 {
                big = true;
            }
        }
        i = i + 1;
    }
    assert(digits@.take(digits@.len() as int) =~= digits@);
    !big
}

/// The decimal text of a large integer.
pub fn fallback_format_bigint(value: &LargeInt) -> (r: String)
    ensures
        r@ == integer_string(value@),
{
    let negative = value.is_negative();
    let digits = value.magnitude();
    let mut out = String::new();
    if negative {
        string_push(&mut out, '-');
    }
    string_push_str(&mut out, string_of(digits.as_slice()).as_str());
    assert(out@ =~= integer_string(value@));
    out
}

/// The magnitude of a value after `percent` multiplications by 100 and
/// `scale` divisions by 1000, rounded down.
pub open spec fn scaled_magnitude(m: nat, percent: nat, scale: nat) -> nat {
    (m * vstd::arithmetic::power::pow(100, percent) as nat) / vstd::arithmetic::power::pow(1000, scale) as nat
}

/// The text a large value shows through a section of the given kind, or why
/// it cannot.
pub open spec fn bigint_section_text(v: int, ps: Seq<PartView>, opts: FormatOptions) -> Result<Seq<char>, FormatError> {
    let n = opts.fill_count as nat;
    let m: nat = if v < 0 {
        (-v) as nat
    } else {
        v as nat
    };
    match classify(ps) {
        SectionKind::Number => sized(ps, opts, compiled_number_text(v, ps, opts)),
        SectionKind::General => sized(
            ps,
            opts,
            general_parts_text(ps, integer_string(v), n, ps.len() as int),
        ),
        SectionKind::Literal => sized(ps, opts, parts_text(ps, n, ps.len() as int)),
        SectionKind::Text => sized(ps, opts, parts_text(ps, n, ps.len() as int)),
        SectionKind::DateTime => Err(date_mismatch()),
        _ => Err(precision_mismatch()),
    }
}

/// `text`, unless the fills of `ps` would show more than `isize::MAX`
/// bytes.
pub open spec fn sized(ps: Seq<PartView>, opts: FormatOptions, text: Seq<char>) -> Result<
    Seq<char>,
    FormatError,
> {
    if fill_bytes(ps, opts.fill_count as nat) > isize::MAX {
        Err(FormatError::OutputTooLarge { fill_count: opts.fill_count })
    } else {
        Ok(text)
    }
}

pub open spec fn date_mismatch() -> FormatError {
    FormatError::TypeMismatch { expected: "numeric format", got: "date format with BigInt value" }
}

pub open spec fn precision_mismatch() -> FormatError {
    FormatError::TypeMismatch {
        expected: "standard numeric format",
        got: "precision-dependent BigInt format",
    }
}

pub proof fn lemma_pow_positive(b: int, e: nat)
    requires
        b > 0,
    ensures
        vstd::arithmetic::power::pow(b, e) > 0,
{
    vstd::arithmetic::power::lemma_pow_positive(b, e);
}

/// The text of a large value through a number section: its magnitude is
/// scaled exactly by the percent signs and trailing commas, then laid on the
/// integer placeholders; decimal placeholders show zeros.
pub open spec fn compiled_number_text(v: int, ps: Seq<PartView>, opts: FormatOptions) -> Seq<char> {
    let n = opts.fill_count as nat;
    let m: nat = if v < 0 {
        (-v) as nat
    } else {
        v as nat
    };
    let a = analysis_of(ps);
    let digits = digits_of(
        scaled_magnitude(m, (a.percent_count as u32) as nat, (a.thousands_scale as u32) as nat),
    );
    let integer = integer_digits_text(
        digits,
        a.integer_placeholders,
        separator(a.has_thousands_separator, opts),
        a.inline_parts,
        a.inline_after_separator,
        n,
    );
    let number = if a.decimal_placeholders.len() > 0 {
        integer + seq![opts.locale.decimal_separator] + decimal_text(
            0,
            a.decimal_placeholders,
            a.decimal_inline_parts,
            n,
        )
    } else {
        integer
    };
    result_text(a, number, n)
}

/// Formats a large value through a number section with exact arithmetic.
pub fn evaluate_compiled_number(value: &LargeInt, section: &Section, opts: &FormatOptions) -> (r: String)
    ensures
        r@ == compiled_number_text(value@, section@.parts, *opts),
{
    let n = opts.fill_count;
    let analysis = analyze_format(section);
    let magnitude = value.magnitude();
    let ghost m = decimal_value(magnitude@);
    proof {
        lemma_digits_of_canonical(if value@ < 0 {
            (-value@) as nat
        } else {
            value@ as nat
        });
    }
    let percent = analysis.percent_count as u32;
    let scale = analysis.thousands_scale as u32;
    let ghost pw = vstd::arithmetic::power::pow(100, percent as nat) as nat;
    let ghost dw = vstd::arithmetic::power::pow(1000, scale as nat) as nat;
    proof {
        lemma_pow_positive(100, percent as nat);
        lemma_pow_positive(1000, scale as nat);
        lemma_digits_of_canonical(pw);
        lemma_digits_of_canonical(dw);
        lemma_digits_of_canonical(m * pw);
        lemma_digits_of_canonical((m * pw) / dw);
        lemma_digits_of_canonical(m / dw);
        vstd::arithmetic::power::lemma_pow0(100);
        vstd::arithmetic::power::lemma_pow0(1000);
    }
    let mut scaled = string_of(magnitude.as_slice());
    assert(scaled@ == magnitude@);
    assert(decimal_value(scaled@) == m);
    assert(is_decimal(scaled@));
    if analysis.percent_count > 0 {
        let factor = big_pow(100, percent);
        assert(factor@ == digits_of(pw));
        assert(decimal_value(factor@) == pw);
        scaled = big_mul(scaled.as_str(), factor.as_str());
        assert(scaled@ == digits_of(m * pw));
    } else {
        assert(percent == 0);
        assert(pw == 1);
        assert(m * pw == m) by (nonlinear_arith)
            requires
                pw == 1,
        ;
        assert(m == if value@ < 0 { (-value@) as nat } else { value@ as nat });
    }
    assert(scaled@ == digits_of(m * pw));
    assert(decimal_value(scaled@) == m * pw);
    assert(is_decimal(scaled@));
    if analysis.thousands_scale > 0 {
        let divisor = big_pow(1000, scale);
        assert(decimal_value(divisor@) == dw);
        scaled = big_div(scaled.as_str(), divisor.as_str());
        assert(scaled@ == digits_of((m * pw) / dw));
    } else {
        assert(scale == 0);
        assert(dw == 1);
        let ghost x = m * pw;
        assert(x / dw == x) by (nonlinear_arith)
            requires
                dw == 1,
        ;
    }
    assert(scaled@ == digits_of(scaled_magnitude(m, percent as nat, scale as nat)));
    proof {
        lemma_digits_of(scaled_magnitude(m, percent as nat, scale as nat));
    }
    let digits = chars_of(scaled.as_str());
    let integer = format_integer_digits(
        &digits,
        analysis.integer_placeholders.as_slice(),
        analysis.has_thousands_separator,
        analysis.inline_parts.as_slice(),
        analysis.inline_after_separator.as_slice(),
        opts,
        n,
    );
    let mut number = integer;
    if analysis.decimal_placeholders.len() > 0 {
        string_push(&mut number, opts.locale.decimal_separator);
        let decimals = format_decimal_digits(
            0,
            analysis.decimal_placeholders.as_slice(),
            analysis.decimal_inline_parts.as_slice(),
            n,
        );
        string_push_str(&mut number, decimals.as_str());
    }
    build_result(&analysis, number.as_str(), n)
}

/// Formats a large value through one section with exact arithmetic.
pub fn evaluate_bigint(value: &LargeInt, section: &Section, opts: &FormatOptions) -> (r: Result<String, FormatError>)
    ensures
        match bigint_section_text(value@, section@.parts, *opts) {
            Ok(t) => r matches Ok(s) && s@ == t,
            Err(e) => r == Err::<String, FormatError>(e),
        },
{
    let parts = section.parts();
    let n = opts.fill_count;
    let kind = classify_section(parts);
    match kind {
        SectionKind::Number | SectionKind::General | SectionKind::Literal | SectionKind::Text => {
            if check_fill_size(parts, n).is_err() {
                return Err(FormatError::OutputTooLarge { fill_count: n });
            }
        },
        _ => {},
    }
    match kind {
        SectionKind::Number => Ok(evaluate_compiled_number(value, section, opts)),
        SectionKind::General => {
            let text = fallback_format_bigint(value);
            Ok(render_general_section(parts, text.as_str(), n))
        },
        SectionKind::Literal | SectionKind::Text => {
            let mut out = String::new();
            push_parts(&mut out, parts, n);
            Ok(out)
        },
        SectionKind::DateTime => Err(
            FormatError::TypeMismatch {
                expected: "numeric format",
                got: "date format with BigInt value",
            },
        ),
        _ => Err(
            FormatError::TypeMismatch {
                expected: "standard numeric format",
                got: "precision-dependent BigInt format",
            },
        ),
    }
}

/// Whether `ps` holds number syntax.
pub open spec fn has_numeric(ps: Seq<PartView>) -> bool {
    exists|j: int| 0 <= j < ps.len() && (#[trigger] ps[j]).is_numeric()
}

/// What formatting a large integer gives: negatives use the second section
/// when there is one; an empty section shows the integer as is; a date
/// section refuses it; a single section puts a minus sign before a negative
/// value's number.
pub open spec fn large_format_outcome(secs: Seq<SectionView>, v: int, opts: FormatOptions) -> Result<Seq<char>, FormatError>
    recommends
        secs.len() >= 1,
{
    let sec = secs[if v < 0 && secs.len() >= 2 {
        1int
    } else {
        0int
    }];
    if sec.parts.len() == 0 {
        Ok(integer_string(v))
    } else if has_date(sec.parts) {
        Err(date_mismatch())
    } else {
        match bigint_section_text(v, sec.parts, opts) {
            Ok(t) => Ok(
                if secs.len() == 1 && v < 0 && has_numeric(sec.parts) {
                    seq!['-'] + t
                } else {
                    t
                },
            ),
            Err(e) => Err(e),
        }
    }
}

/// Whether a section holds number syntax.
fn section_has_numeric(section: &Section) -> (r: bool)
    ensures
        r == has_numeric(section@.parts),
{
    let parts = section.parts();
    let ghost ps = section@.parts;
    let mut i: usize = 0;
    while i < parts.len()
        invariant
            i <= parts@.len(),
            ps == parts_view(parts@),
            ps == section@.parts,
            forall|j: int| 0 <= j < i ==> !(#[trigger] ps[j]).is_numeric(),
        decreases parts@.len() - i,
    {
        assert(ps[i as int] == parts[i as int]@);
        if parts[i].is_numeric_part() {
            return true;
        }
        i = i + 1;
    }
    false
}

impl NumberFormat {
    /// Formats an integer with exact decimal arithmetic, as integers beyond
    /// the range where `f64` is exact are formatted.
    pub fn try_format_large_integer(&self, value: &LargeInt, opts: &FormatOptions) -> (r: Result<
        String,
        FormatError,
    >)
        ensures
            match large_format_outcome(self@, value@, *opts) {
                Ok(t) => r matches Ok(s) && s@ == t,
                Err(e) => r == Err::<String, FormatError>(e),
            },
    {
        let sections = self.sections();
        let negative = value.is_negative();
        let index: usize = if negative && sections.len() >= 2 {
            1
        } else {
            0
        };
        let section = &sections[index];
        assert(section@ == self@[index as int]);
        if section.parts().len() == 0 {
            return Ok(fallback_format_bigint(value));
        }
        if section.has_date_parts() {
            return Err(
                FormatError::TypeMismatch {
                    expected: "numeric format",
                    got: "date format with BigInt value",
                },
            );
        }
        let mut result = evaluate_bigint(value, section, opts)?;
        if sections.len() == 1 && negative && section_has_numeric(section) {
            let mut signed = String::new();
            string_push(&mut signed, '-');
            string_push_str(&mut signed, result.as_str());
            result = signed;
        }
        Ok(result)
    }
}

/// The decimal text of an integer reads back as the same integer.
pub proof fn law_integer_text_round_trip(v: int)
    ensures
        parse_integer(integer_string(v)) == Some(v),
{
    let m: nat = if v < 0 {
        (-v) as nat
    } else {
        v as nat
    };
    lemma_digits_of_canonical(m);
    let d = digits_of(m);
    if v < 0 {
        let s = seq!['-'] + d;
        assert(s.skip(1) =~= d);
    } else {
        assert(is_ascii_digit(d[0]));
    }
}

} // verus!
