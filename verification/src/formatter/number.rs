//! Standard-number structure: placeholder analysis and the integer digits.
use vstd::prelude::*;

use crate::ast::{parts_view, DigitPlaceholder, FormatPart, FormatPartOf, PartView, Section};
use crate::chars::{char_len_utf8, string_push, string_push_str, utf8_len};
use crate::compile::{any_part, classify, classify_section, is_general_part, SectionKind};
use crate::digits::{decimal_chars, digits_of, lemma_digits_of};
use crate::error::FormatError;
use crate::options::FormatOptions;

verus! {

/// Analysis of a format section's numeric structure.
#[derive(Debug, Clone)]
pub struct FormatAnalysis {
    /// Integer digit placeholders, left to right.
    pub integer_placeholders: Vec<DigitPlaceholder>,
    /// Decimal digit placeholders, left to right.
    pub decimal_placeholders: Vec<DigitPlaceholder>,
    /// Whether the format groups thousands.
    pub has_thousands_separator: bool,
    /// Number of percent signs (each multiplies by 100).
    pub percent_count: usize,
    /// Number of trailing commas (each divides by 1000).
    pub thousands_scale: usize,
    /// Parts among the integer digits, with their position counted from the
    /// right (0 = ones place).
    pub inline_parts: Vec<(usize, FormatPart)>,
    /// For each part among the integer digits, whether a grouping comma
    /// stands between it and the placeholder before it, so that it shows
    /// after a group separator at its position rather than before it.
    pub inline_after_separator: Vec<bool>,
    /// Parts among the decimal digits, with their position counted from the
    /// left (0 = first decimal place).
    pub decimal_inline_parts: Vec<(usize, FormatPart)>,
    /// Parts before the number.
    pub prefix_parts: Vec<FormatPart>,
    /// Parts after the number.
    pub suffix_parts: Vec<FormatPart>,
}

/// The mathematical model of a format analysis.
pub struct AnalysisView {
    pub integer_placeholders: Seq<DigitPlaceholder>,
    pub decimal_placeholders: Seq<DigitPlaceholder>,
    pub has_thousands_separator: bool,
    pub percent_count: nat,
    pub thousands_scale: nat,
    pub inline_parts: Seq<(usize, PartView)>,
    pub inline_after_separator: Seq<bool>,
    pub decimal_inline_parts: Seq<(usize, PartView)>,
    pub prefix_parts: Seq<PartView>,
    pub suffix_parts: Seq<PartView>,
}

pub open spec fn placed_view(v: Seq<(usize, FormatPart)>) -> Seq<(usize, PartView)> {
    Seq::new(v.len(), |i: int| (v[i].0, v[i].1@))
}

impl View for FormatAnalysis {
    type V = AnalysisView;

    open spec fn view(&self) -> AnalysisView {
        AnalysisView {
            integer_placeholders: self.integer_placeholders@,
            decimal_placeholders: self.decimal_placeholders@,
            has_thousands_separator: self.has_thousands_separator,
            percent_count: self.percent_count as nat,
            thousands_scale: self.thousands_scale as nat,
            inline_parts: placed_view(self.inline_parts@),
            inline_after_separator: self.inline_after_separator@,
            decimal_inline_parts: placed_view(self.decimal_inline_parts@),
            prefix_parts: parts_view(self.prefix_parts@),
            suffix_parts: parts_view(self.suffix_parts@),
        }
    }
}

/// The number of required (`0`) placeholders.
pub open spec fn required_count(ps: Seq<DigitPlaceholder>) -> nat
    decreases ps.len(),
{
    if ps.len() == 0 {
        0
    } else {
        required_count(ps.drop_last()) + if ps.last().required() {
            1nat
        } else {
            0nat
        }
    }
}

impl FormatAnalysis {
    /// The number of decimal places.
    pub fn decimal_places(&self) -> (r: usize)
        ensures
            r == self.decimal_placeholders@.len(),
    {
        self.decimal_placeholders.len()
    }

    /// The minimum number of integer digits: the count of `0` placeholders.
    pub fn min_integer_digits(&self) -> (r: usize)
        ensures
            r == required_count(self.integer_placeholders@),
    {
        count_required(&self.integer_placeholders)
    }
}

pub proof fn lemma_required_count_bound(ps: Seq<DigitPlaceholder>)
    ensures
        required_count(ps) <= ps.len(),
    decreases ps.len(),
{
    if ps.len() > 0 {
        lemma_required_count_bound(ps.drop_last());
    }
}

/// The number of `0` placeholders.
pub fn count_required(ps: &Vec<DigitPlaceholder>) -> (r: usize)
    ensures
        r == required_count(ps@),
{
    let mut n: usize = 0;
    let mut i: usize = 0;
    while i < ps.len()
        invariant
            i <= ps@.len(),
            n == required_count(ps@.take(i as int)),
            n <= i,
        decreases ps@.len() - i,
    {
        assert(ps@.take(i + 1).drop_last() =~= ps@.take(i as int));
        if ps[i].is_required() {
            n = n + 1;
        }
        i = i + 1;
    }
    assert(ps@.take(ps@.len() as int) =~= ps@);
    n
}

/// Digit placeholders and decimal points anchor the number.
pub open spec fn is_numeric_anchor(p: PartView) -> bool {
    p is Digit || p is DecimalPoint
}

/// The index of the last digit or decimal point among the first `n` parts,
/// or -1.
pub open spec fn last_numeric(ps: Seq<PartView>, n: int) -> int
    decreases n,
{
    if n <= 0 {
        -1
    } else if is_numeric_anchor(ps[n - 1]) {
        n - 1
    } else {
        last_numeric(ps, n - 1)
    }
}

/// The number of commas among the first `n` parts.
pub open spec fn comma_count(ps: Seq<PartView>, n: int) -> nat
    decreases n,
{
    if n <= 0 {
        0
    } else {
        comma_count(ps, n - 1) + if ps[n - 1] is ThousandsSeparator {
            1nat
        } else {
            0nat
        }
    }
}

/// State of the analysis after a prefix of the parts.
pub struct AnalysisAcc {
    pub ints: Seq<DigitPlaceholder>,
    pub decs: Seq<DigitPlaceholder>,
    pub thousands: bool,
    pub percent: nat,
    /// Parts among integer digits, with the number of integer placeholders
    /// before them.
    pub inline: Seq<(usize, PartView)>,
    /// For each of `inline`, whether a comma came after the last placeholder
    /// before it.
    pub sides: Seq<bool>,
    pub dec_inline: Seq<(usize, PartView)>,
    pub prefix: Seq<PartView>,
    pub suffix: Seq<PartView>,
    pub commas: nat,
    pub seen: bool,
    pub after_decimal: bool,
    pub after_digits: bool,
    /// Whether a comma came after the last digit placeholder.
    pub comma_open: bool,
}

/// A part that may stand among the digits: before them, after them, or at
/// its place among the integer or decimal digits.
pub open spec fn place_inline(a: AnalysisAcc, p: PartView) -> AnalysisAcc {
    if !a.seen {
        AnalysisAcc { prefix: a.prefix.push(p), ..a }
    } else if a.after_digits {
        AnalysisAcc { suffix: a.suffix.push(p), ..a }
    } else if a.after_decimal {
        AnalysisAcc { dec_inline: a.dec_inline.push((a.decs.len() as usize, p)), ..a }
    } else {
        AnalysisAcc {
            inline: a.inline.push((a.ints.len() as usize, p)),
            sides: a.sides.push(a.comma_open),
            ..a
        }
    }
}

/// A part that only stands before or after the digits; among them it is
/// dropped.
pub open spec fn place_outside(a: AnalysisAcc, p: PartView) -> AnalysisAcc {
    if !a.seen {
        AnalysisAcc { prefix: a.prefix.push(p), ..a }
    } else if a.after_digits {
        AnalysisAcc { suffix: a.suffix.push(p), ..a }
    } else {
        a
    }
}

pub open spec fn space_literal() -> PartView {
    FormatPartOf::Literal(seq![' '])
}

/// One analysis step for part `p` at index `i`; `grouping` commas come
/// before the last digit, and `last` is the index of that digit.
pub open spec fn analysis_step(a: AnalysisAcc, p: PartView, i: int, grouping: nat, last: int) -> AnalysisAcc {
    match p {
        FormatPartOf::Digit(d) => if a.after_decimal {
            AnalysisAcc {
                decs: a.decs.push(d),
                seen: true,
                after_digits: false,
                comma_open: false,
                ..a
            }
        } else {
            AnalysisAcc {
                ints: a.ints.push(d),
                seen: true,
                after_digits: false,
                comma_open: false,
                ..a
            }
        },
        FormatPartOf::DecimalPoint => AnalysisAcc {
            after_decimal: true,
            seen: true,
            after_digits: true,
            ..a
        },
        FormatPartOf::ThousandsSeparator => AnalysisAcc {
            commas: a.commas + 1,
            thousands: a.thousands || a.commas + 1 <= grouping,
            comma_open: true,
            ..a
        },
        FormatPartOf::Percent => if a.seen {
            AnalysisAcc {
                percent: a.percent + 1,
                after_digits: true,
                suffix: a.suffix.push(p),
                ..a
            }
        } else {
            AnalysisAcc { percent: a.percent + 1, prefix: a.prefix.push(p), ..a }
        },
        FormatPartOf::Literal(_) => place_inline(a, p),
        FormatPartOf::EscapedLiteral(_) => place_inline(a, p),
        FormatPartOf::Locale(l) => if l.currency is Some {
            place_inline(a, p)
        } else {
            place_outside(a, p)
        },
        FormatPartOf::Skip(_) => if !a.seen {
            AnalysisAcc { prefix: a.prefix.push(space_literal()), ..a }
        } else {
            AnalysisAcc { suffix: a.suffix.push(space_literal()), ..a }
        },
        FormatPartOf::Fill(_) => if !a.seen {
            AnalysisAcc { prefix: a.prefix.push(p), ..a }
        } else if last >= 0 && i > last {
            AnalysisAcc { suffix: a.suffix.push(p), ..a }
        } else if a.after_decimal {
            AnalysisAcc { dec_inline: a.dec_inline.push((a.decs.len() as usize, p)), ..a }
        } else {
            AnalysisAcc {
                inline: a.inline.push((a.ints.len() as usize, p)),
                sides: a.sides.push(a.comma_open),
                ..a
            }
        },
        _ => place_outside(a, p),
    }
}

pub open spec fn empty_acc() -> AnalysisAcc {
    AnalysisAcc {
        ints: Seq::empty(),
        decs: Seq::empty(),
        thousands: false,
        percent: 0,
        inline: Seq::empty(),
        sides: Seq::empty(),
        dec_inline: Seq::empty(),
        prefix: Seq::empty(),
        suffix: Seq::empty(),
        commas: 0,
        seen: false,
        after_decimal: false,
        after_digits: false,
        comma_open: false,
    }
}

/// The analysis state after the first `n` parts.
pub open spec fn analysis_fold(ps: Seq<PartView>, n: int, grouping: nat, last: int) -> AnalysisAcc
    decreases n,
{
    if n <= 0 {
        empty_acc()
    } else {
        analysis_step(analysis_fold(ps, n - 1, grouping, last), ps[n - 1], n - 1, grouping, last)
    }
}

/// The numeric structure of a section's parts. Commas after the last digit
/// or decimal point scale the value instead of grouping it; a format without
/// integer or decimal placeholders gets one `#`; the positions of parts among
/// the integer digits are counted from the right.
pub open spec fn analysis_of(ps: Seq<PartView>) -> AnalysisView {
    let last = last_numeric(ps, ps.len() as int);
    let grouping = comma_count(ps, last + 1);
    let a = analysis_fold(ps, ps.len() as int, grouping, last);
    let ints = if a.ints.len() == 0 && !a.after_decimal {
        seq![DigitPlaceholder::Hash]
    } else {
        a.ints
    };
    AnalysisView {
        integer_placeholders: ints,
        decimal_placeholders: a.decs,
        has_thousands_separator: a.thousands,
        percent_count: a.percent,
        thousands_scale: (comma_count(ps, ps.len() as int) - grouping) as nat,
        inline_parts: Seq::new(
            a.inline.len(),
            |k: int| ((ints.len() - a.inline[k].0) as usize, a.inline[k].1),
        ),
        inline_after_separator: a.sides,
        decimal_inline_parts: a.dec_inline,
        prefix_parts: a.prefix,
        suffix_parts: a.suffix,
    }
}

pub proof fn lemma_comma_count_mono(ps: Seq<PartView>, i: int, n: int)
    requires
        0 <= i <= n,
    ensures
        comma_count(ps, i) <= comma_count(ps, n),
        comma_count(ps, n) <= n,
    decreases n,
{
    if n > 0 {
        if i < n {
            lemma_comma_count_mono(ps, i, n - 1);
        } else {
            lemma_comma_count_mono(ps, i - 1, n - 1);
        }
    }
}

/// The digit placeholders of `ps`, in order.
pub open spec fn digits_in(ps: Seq<PartView>) -> Seq<DigitPlaceholder>
    decreases ps.len(),
{
    if ps.len() == 0 {
        Seq::empty()
    } else {
        digits_in(ps.drop_last()) + match ps.last() {
            FormatPartOf::Digit(d) => seq![d],
            _ => Seq::empty(),
        }
    }
}

/// The number of percent signs in `ps`.
pub open spec fn percents_in(ps: Seq<PartView>) -> nat
    decreases ps.len(),
{
    if ps.len() == 0 {
        0
    } else {
        percents_in(ps.drop_last()) + if ps.last() is Percent {
            1nat
        } else {
            0nat
        }
    }
}

/// The index of the first decimal point at or after `i`, or the length.
pub open spec fn point_from(ps: Seq<PartView>, i: int) -> int
    decreases ps.len() - i,
{
    if i < 0 || i >= ps.len() {
        ps.len() as int
    } else if ps[i] is DecimalPoint {
        i
    } else {
        point_from(ps, i + 1)
    }
}

/// The index of the first decimal point, or the length.
pub open spec fn first_point(ps: Seq<PartView>) -> int {
    point_from(ps, 0)
}

proof fn lemma_point_from(ps: Seq<PartView>, i: int)
    requires
        0 <= i <= ps.len(),
    ensures
        i <= point_from(ps, i) <= ps.len(),
        point_from(ps, i) < ps.len() ==> ps[point_from(ps, i)] is DecimalPoint,
        forall|j: int| i <= j < point_from(ps, i) ==> !(#[trigger] ps[j] is DecimalPoint),
    decreases ps.len() - i,
{
    if i < ps.len() && !(ps[i] is DecimalPoint) {
        lemma_point_from(ps, i + 1);
    }
}

/// What the analysis has gathered after the first `n` parts, stated
/// directly.
proof fn lemma_fold_direct(ps: Seq<PartView>, n: int, grouping: nat, last: int)
    requires
        0 <= n <= ps.len(),
    ensures
        ({
            let a = analysis_fold(ps, n, grouping, last);
            let fp = first_point(ps);
            &&& a.after_decimal == (fp < n)
            &&& fp >= n ==> a.ints == digits_in(ps.take(n)) && a.decs == Seq::<DigitPlaceholder>::empty()
            &&& fp < n ==> a.ints == digits_in(ps.take(fp)) && a.decs == digits_in(ps.subrange(fp, n))
            &&& a.percent == percents_in(ps.take(n))
            &&& a.commas == comma_count(ps, n)
            &&& a.thousands == (comma_count(ps, n) >= 1 && grouping >= 1)
        }),
    decreases n,
{
    lemma_point_from(ps, 0);
    let fp = first_point(ps);
    if n > 0 {
        lemma_fold_direct(ps, n - 1, grouping, last);
        let a0 = analysis_fold(ps, n - 1, grouping, last);
        let a = analysis_fold(ps, n, grouping, last);
        assert(a == analysis_step(a0, ps[n - 1], n - 1, grouping, last));
        assert(ps.take(n).drop_last() =~= ps.take(n - 1));
        assert(ps.take(n).last() == ps[n - 1]);
        assert(digits_in(ps.take(n)) == digits_in(ps.take(n - 1)) + match ps[n - 1] {
            FormatPartOf::Digit(d) => seq![d],
            _ => Seq::<DigitPlaceholder>::empty(),
        });
        assert(percents_in(ps.take(n)) == percents_in(ps.take(n - 1)) + if ps[n - 1] is Percent {
            1nat
        } else {
            0nat
        });
        if fp < n - 1 {
            let sub = ps.subrange(fp, n);
            assert(sub.drop_last() =~= ps.subrange(fp, n - 1));
            assert(sub.last() == ps[n - 1]);
            assert(digits_in(sub) == digits_in(ps.subrange(fp, n - 1)) + match ps[n - 1] {
                FormatPartOf::Digit(d) => seq![d],
                _ => Seq::<DigitPlaceholder>::empty(),
            });
        } else if fp == n - 1 {
            let sub = ps.subrange(fp, n);
            assert(sub =~= seq![ps[fp]]);
            assert(sub.drop_last() =~= Seq::<PartView>::empty());
            assert(digits_in(Seq::<PartView>::empty()) == Seq::<DigitPlaceholder>::empty());
            assert(sub.last() is DecimalPoint);
            assert(digits_in(sub) =~= Seq::<DigitPlaceholder>::empty());
            assert(ps.take(fp) =~= ps.take(n - 1));
        } else {
            assert(!(ps[n - 1] is DecimalPoint));
        }
    } else {
        assert(ps.take(0) =~= Seq::<PartView>::empty());
    }
}

/// The digit placeholders, percent signs and commas of an analysis, stated
/// directly: the integer placeholders are the digit placeholders before the
/// first decimal point, in order (a lone `#` when there are none and no
/// decimal point); the decimal placeholders are those after it; every
/// percent sign counts; a comma before the last digit or decimal point
/// groups thousands, and each comma after it scales.
pub proof fn lemma_analysis_direct(ps: Seq<PartView>)
    ensures
        ({
            let a = analysis_of(ps);
            let fp = first_point(ps);
            let before = digits_in(ps.take(fp));
            let grouping = comma_count(ps, last_numeric(ps, ps.len() as int) + 1);
            &&& a.integer_placeholders == (if before.len() == 0 && fp == ps.len() {
                seq![DigitPlaceholder::Hash]
            } else {
                before
            })
            &&& a.decimal_placeholders == (if fp < ps.len() {
                digits_in(ps.skip(fp))
            } else {
                Seq::<DigitPlaceholder>::empty()
            })
            &&& a.percent_count == percents_in(ps)
            &&& a.has_thousands_separator == (grouping >= 1)
            &&& a.thousands_scale == comma_count(ps, ps.len() as int) - grouping
        }),
{
    let last = last_numeric(ps, ps.len() as int);
    lemma_last_numeric_range(ps, ps.len() as int);
    let grouping = comma_count(ps, last + 1);
    lemma_comma_count_mono(ps, 0, last + 1);
    lemma_comma_count_mono(ps, last + 1, ps.len() as int);
    lemma_fold_direct(ps, ps.len() as int, grouping, last);
    lemma_point_from(ps, 0);
    let fp = first_point(ps);
    assert(ps.take(ps.len() as int) =~= ps);
    assert(ps.subrange(fp, ps.len() as int) =~= ps.skip(fp));
    if fp == ps.len() {
        assert(ps.take(fp) =~= ps);
    }
    if grouping >= 1 {
        lemma_comma_count_mono(ps, last + 1, ps.len() as int);
    }
}

proof fn lemma_last_numeric_range(ps: Seq<PartView>, n: int)
    ensures
        -1 <= last_numeric(ps, n) < if n > 0 { n } else { 0 },
    decreases n,
{
    if n > 0 {
        lemma_last_numeric_range(ps, n - 1);
    }
}

/// The numeric structure of a section.
pub fn analyze_format(section: &Section) -> (r: FormatAnalysis)
    ensures
        r@ == analysis_of(section@.parts),
        descending(r@.inline_parts),
        r@.integer_placeholders == (if digits_in(
            section@.parts.take(first_point(section@.parts)),
        ).len() == 0 && first_point(section@.parts) == section@.parts.len() {
            seq![DigitPlaceholder::Hash]
        } else {
            digits_in(section@.parts.take(first_point(section@.parts)))
        }),
        r@.percent_count == percents_in(section@.parts),
        r@.has_thousands_separator == (comma_count(
            section@.parts,
            last_numeric(section@.parts, section@.parts.len() as int) + 1,
        ) >= 1),
        r@.decimal_placeholders == (if first_point(section@.parts) < section@.parts.len() {
            digits_in(section@.parts.skip(first_point(section@.parts)))
        } else {
            Seq::<DigitPlaceholder>::empty()
        }),
{
    let parts = section.parts();
    let ghost ps = section@.parts;
    proof {
        lemma_analysis_direct(ps);
    }
    // Where the number ends, and how many commas come before that point.
    let mut last: Option<usize> = None;
    let mut total_commas: usize = 0;
    let mut grouping: usize = 0;
    let mut i: usize = 0;
    while i < parts.len()
        invariant
            i <= parts@.len(),
            ps == parts_view(parts@),
            total_commas == comma_count(ps, i as int),
            total_commas <= i,
            match last {
                Some(k) => last_numeric(ps, i as int) == k as int && k < i,
                None => last_numeric(ps, i as int) == -1,
            },
            grouping == comma_count(ps, last_numeric(ps, i as int) + 1),
        decreases parts@.len() - i,
    {
        assert(ps[i as int] == parts[i as int]@);
        match &parts[i] {
            FormatPartOf::ThousandsSeparator => total_commas = total_commas + 1,
            FormatPartOf::Digit(_) | FormatPartOf::DecimalPoint => {
                last = Some(i);
                grouping = total_commas;
            },
            _ => {},
        }
        i = i + 1;
    }
    proof {
        lemma_comma_count_mono(ps, last_numeric(ps, ps.len() as int) + 1, ps.len() as int);
    }
    let ghost lastv = last_numeric(ps, ps.len() as int);
    let mut integer_placeholders: Vec<DigitPlaceholder> = Vec::new();
    let mut decimal_placeholders: Vec<DigitPlaceholder> = Vec::new();
    let mut has_thousands_separator = false;
    let mut percent_count: usize = 0;
    let mut inline_parts: Vec<(usize, FormatPart)> = Vec::new();
    let mut inline_sides: Vec<bool> = Vec::new();
    let mut comma_open = false;
    let mut decimal_inline_parts: Vec<(usize, FormatPart)> = Vec::new();
    let mut prefix_parts: Vec<FormatPart> = Vec::new();
    let mut suffix_parts: Vec<FormatPart> = Vec::new();
    let mut commas_seen: usize = 0;
    let mut seen_digit = false;
    let mut after_decimal = false;
    let mut after_digits = false;
    let mut index: usize = 0;
    while index < parts.len()
        invariant
            index <= parts@.len(),
            ps == parts_view(parts@),
            lastv == last_numeric(ps, ps.len() as int),
            match last {
                Some(k) => lastv == k as int,
                None => lastv == -1,
            },
            grouping == comma_count(ps, lastv + 1),
            commas_seen <= index,
            percent_count <= index,
            integer_placeholders@.len() <= index,
            decimal_placeholders@.len() <= index,
            forall|k: int|
                0 <= k < inline_parts@.len() ==> (#[trigger] inline_parts@[k]).0
                    <= integer_placeholders@.len(),
            forall|k: int, l: int|
                0 <= k < l < inline_parts@.len() ==> (#[trigger] inline_parts@[k]).0
                    <= (#[trigger] inline_parts@[l]).0,
            ({
                let a = analysis_fold(ps, index as int, grouping as nat, lastv);
                &&& a.ints == integer_placeholders@
                &&& a.decs == decimal_placeholders@
                &&& a.thousands == has_thousands_separator
                &&& a.percent == percent_count as nat
                &&& a.inline == placed_view(inline_parts@)
                &&& a.sides == inline_sides@
                &&& a.comma_open == comma_open
                &&& a.dec_inline == placed_view(decimal_inline_parts@)
                &&& a.prefix == parts_view(prefix_parts@)
                &&& a.suffix == parts_view(suffix_parts@)
                &&& a.commas == commas_seen as nat
                &&& a.seen == seen_digit
                &&& a.after_decimal == after_decimal
                &&& a.after_digits == after_digits
            }),
        decreases parts@.len() - index,
    {
        let part = &parts[index];
        assert(ps[index as int] == part@);
        let ghost ip = placed_view(inline_parts@);
        let ghost dp = placed_view(decimal_inline_parts@);
        let ghost pp = parts_view(prefix_parts@);
        let ghost sp = parts_view(suffix_parts@);
        // Where a part that may stand among the digits goes: 0 before the
        // number, 1 after it, 2 among the decimals, 3 among the integers,
        // and 4 nowhere.
        let target: u8 = match part {
            FormatPartOf::Digit(placeholder) => {
                seen_digit = true;
                after_digits = false;
                comma_open = false;
                if after_decimal {
                    decimal_placeholders.push(*placeholder);
                } else {
                    integer_placeholders.push(*placeholder);
                }
                4
            },
            FormatPartOf::DecimalPoint => {
                after_decimal = true;
                seen_digit = true;
                after_digits = true;
                4
            },
            FormatPartOf::ThousandsSeparator => {
                commas_seen = commas_seen + 1;
                comma_open = true;
                if commas_seen <= grouping {
                    has_thousands_separator = true;
                }
                4
            },
            FormatPartOf::Percent => {
                percent_count = percent_count + 1;
                if seen_digit {
                    after_digits = true;
                    1
                } else {
                    0
                }
            },
            FormatPartOf::Literal(_) | FormatPartOf::EscapedLiteral(_) => inline_target(
                seen_digit,
                after_digits,
                after_decimal,
            ),
            FormatPartOf::Locale(locale) => if locale.currency.is_some() {
                inline_target(seen_digit, after_digits, after_decimal)
            } else {
                outside_target(seen_digit, after_digits)
            },
            FormatPartOf::Skip(_) => {
                let space = crate::chars::string_of(vec![' '].as_slice());
                let ghost sv = space@;
                assert(sv =~= seq![' ']);
                if !seen_digit {
                    prefix_parts.push(FormatPartOf::Literal(space));
                    assert(parts_view(prefix_parts@) =~= pp.push(space_literal()));
                } else {
                    suffix_parts.push(FormatPartOf::Literal(space));
                    assert(parts_view(suffix_parts@) =~= sp.push(space_literal()));
                }
                4
            },
            FormatPartOf::Fill(_) => {
                if !seen_digit {
                    0
                } else if last.is_some() && index > last.unwrap() {
                    1
                } else if after_decimal {
                    2
                } else {
                    3
                }
            },
            _ => outside_target(seen_digit, after_digits),
        };
        if target == 0 {
            prefix_parts.push(part.copy());
            assert(parts_view(prefix_parts@) =~= pp.push(part@));
        } else if target == 1 {
            suffix_parts.push(part.copy());
            assert(parts_view(suffix_parts@) =~= sp.push(part@));
        } else if target == 2 {
            decimal_inline_parts.push((decimal_placeholders.len(), part.copy()));
            assert(placed_view(decimal_inline_parts@) =~= dp.push(
                (decimal_placeholders@.len() as usize, part@),
            ));
        } else if target == 3 {
            inline_parts.push((integer_placeholders.len(), part.copy()));
            inline_sides.push(comma_open);
            assert(placed_view(inline_parts@) =~= ip.push(
                (integer_placeholders@.len() as usize, part@),
            ));
        }
        index = index + 1;
    }
    if integer_placeholders.len() == 0 && !after_decimal {
        integer_placeholders.push(DigitPlaceholder::Hash);
    }
    let total = integer_placeholders.len();
    let mut positioned: Vec<(usize, FormatPart)> = Vec::new();
    let mut k: usize = 0;
    while k < inline_parts.len()
        invariant
            k <= inline_parts@.len(),
            total == integer_placeholders@.len(),
            forall|j: int|
                0 <= j < inline_parts@.len() ==> (#[trigger] inline_parts@[j]).0 <= total,
            forall|i: int, j: int|
                0 <= i < j < inline_parts@.len() ==> (#[trigger] inline_parts@[i]).0
                    <= (#[trigger] inline_parts@[j]).0,
            positioned@.len() == k,
            forall|j: int|
                0 <= j < k ==> (#[trigger] positioned@[j]).0 == total - inline_parts@[j].0
                    && positioned@[j].1@ == inline_parts@[j].1@,
        decreases inline_parts@.len() - k,
    {
        let (count, part) = &inline_parts[k];
        positioned.push((total - *count, part.copy()));
        k = k + 1;
    }
    let r = FormatAnalysis {
        integer_placeholders,
        decimal_placeholders,
        has_thousands_separator,
        percent_count,
        thousands_scale: total_commas - grouping,
        inline_parts: positioned,
        inline_after_separator: inline_sides,
        decimal_inline_parts,
        prefix_parts,
        suffix_parts,
    };
    assert(r@.integer_placeholders =~= analysis_of(ps).integer_placeholders);
    assert(r@.inline_parts =~= analysis_of(ps).inline_parts);
    assert(descending(r@.inline_parts)) by {
        assert forall|i: int, j: int| 0 <= i < j < r@.inline_parts.len() implies r@.inline_parts[i].0 >= r@.inline_parts[j].0 by {
            assert(r.inline_parts@[i].0 == total - inline_parts@[i].0);
            assert(r.inline_parts@[j].0 == total - inline_parts@[j].0);
            assert(inline_parts@[i].0 <= inline_parts@[j].0);
        }
    }
    r
}

/// Where a part that may stand among the digits goes.
fn inline_target(seen_digit: bool, after_digits: bool, after_decimal: bool) -> (r: u8)
    ensures
        r == (if !seen_digit {
            0u8
        } else if after_digits {
            1u8
        } else if after_decimal {
            2u8
        } else {
            3u8
        }),
{
    if !seen_digit {
        0
    } else if after_digits {
        1
    } else if after_decimal {
        2
    } else {
        3
    }
}

/// Where a part that only stands outside the digits goes.
fn outside_target(seen_digit: bool, after_digits: bool) -> (r: u8)
    ensures
        r == (if !seen_digit {
            0u8
        } else if after_digits {
            1u8
        } else {
            4u8
        }),
{
    if !seen_digit {
        0
    } else if after_digits {
        1
    } else {
        4
    }
}

/// The text a part shows inline among digits: literal text or a currency.
pub open spec fn inline_text(p: PartView) -> Option<Seq<char>> {
    match p {
        FormatPartOf::Literal(t) => Some(t),
        FormatPartOf::EscapedLiteral(t) => Some(t),
        FormatPartOf::Locale(l) => l.currency,
        _ => None,
    }
}

/// The text a part shows around or among digits: its inline text, `%` for a
/// percent sign, one space for a skip, the fill character `n` times for a
/// fill, and nothing for any other part.
pub open spec fn part_text(p: PartView, n: nat) -> Seq<char> {
    match inline_text(p) {
        Some(t) => t,
        None => match p {
            FormatPartOf::Percent => seq!['%'],
            FormatPartOf::Skip(_) => seq![' '],
            FormatPartOf::Fill(c) => Seq::new(n, |_i: int| c),
            _ => Seq::empty(),
        },
    }
}

/// The texts of the first `k` parts, in order.
pub open spec fn parts_text(ps: Seq<PartView>, n: nat, k: int) -> Seq<char>
    decreases k,
{
    if k <= 0 {
        Seq::empty()
    } else {
        parts_text(ps, n, k - 1) + part_text(ps[k - 1], n)
    }
}

/// The inline text of a part, if it has one.
pub fn inline_part_text(part: &FormatPart) -> (r: Option<&str>)
    ensures
        match r {
            Some(t) => inline_text(part@) == Some(t@),
            None => inline_text(part@) is None,
        },
{
    match part {
        FormatPartOf::Literal(text) => Some(text.as_str()),
        FormatPartOf::EscapedLiteral(text) => Some(text.as_str()),
        FormatPartOf::Locale(locale) => match &locale.currency {
            Some(c) => Some(c.as_str()),
            None => None,
        },
        _ => None,
    }
}

/// Appends the text of a part.
pub fn push_part(output: &mut String, part: &FormatPart, fill_count: usize)
    ensures
        final(output)@ == old(output)@ + part_text(part@, fill_count as nat),
{
    if let Some(text) = inline_part_text(part) {
        string_push_str(output, text);
        return;
    }
    match part {
        FormatPartOf::Percent => string_push(output, '%'),
        FormatPartOf::Skip(_) => string_push(output, ' '),
        FormatPartOf::Fill(character) => {
            let ghost before = output@;
            let mut k: usize = 0;
            while k < fill_count
                invariant
                    k <= fill_count,
                    output@ == before + Seq::new(k as nat, |_i: int| *character),
                decreases fill_count - k,
            {
                string_push(output, *character);
                assert(Seq::new((k + 1) as nat, |_i: int| *character) =~= Seq::new(
                    k as nat,
                    |_i: int| *character,
                ).push(*character));
                k = k + 1;
            }
        },
        _ => {
            assert(output@ =~= output@ + Seq::<char>::empty());
        },
    }
    assert(final(output)@ =~= old(output)@ + part_text(part@, fill_count as nat));
}

/// Positions never increase along the list: parts come from left to right.
pub open spec fn descending(parts: Seq<(usize, PartView)>) -> bool {
    forall|i: int, j: int| 0 <= i < j < parts.len() ==> parts[i].0 >= parts[j].0
}

/// The digit shown at `pos` (counted from the right), or the padding of the
/// placeholder there when the value has no digit at `pos`.
pub open spec fn digit_at(digits: Seq<char>, phs: Seq<DigitPlaceholder>, pos: int) -> Seq<char> {
    if pos < digits.len() {
        seq![digits[digits.len() - 1 - pos]]
    } else if pos < phs.len() {
        match phs[phs.len() - 1 - pos].padding() {
            Some(c) => seq![c],
            None => Seq::empty(),
        }
    } else {
        Seq::empty()
    }
}

/// The texts of the first `k` parts placed at `pos`, in order.
pub open spec fn texts_at(parts: Seq<(usize, PartView)>, pos: int, n: nat, k: int) -> Seq<char>
    decreases k,
{
    if k <= 0 {
        Seq::empty()
    } else {
        texts_at(parts, pos, n, k - 1) + if parts[k - 1].0 == pos {
            part_text(parts[k - 1].1, n)
        } else {
            Seq::empty()
        }
    }
}

/// Whether the `k`-th placed part shows after a group separator at its
/// position (a part without a recorded side shows before it).
pub open spec fn side_of(sides: Seq<bool>, k: int) -> bool {
    0 <= k < sides.len() && sides[k]
}

/// The texts of the first `k` parts placed at `pos` on the given side of a
/// group separator there, in order.
pub open spec fn texts_at_side(
    parts: Seq<(usize, PartView)>,
    sides: Seq<bool>,
    pos: int,
    after: bool,
    n: nat,
    k: int,
) -> Seq<char>
    decreases k,
{
    if k <= 0 {
        Seq::empty()
    } else {
        texts_at_side(parts, sides, pos, after, n, k - 1) + if parts[k - 1].0 == pos && side_of(
            sides,
            k - 1,
        ) == after {
            part_text(parts[k - 1].1, n)
        } else {
            Seq::empty()
        }
    }
}

/// The group separator shown after integer position `pos`, if any.
pub open spec fn separator_at(pos: int, sep: Option<char>) -> Seq<char> {
    match sep {
        Some(c) => if pos > 0 && pos % 3 == 0 {
            seq![c]
        } else {
            Seq::empty()
        },
        None => Seq::empty(),
    }
}

/// What integer position `pos` shows: its digit, the parts placed there
/// before the group separator, a group separator after every third
/// position, and the parts placed there after the separator.
pub open spec fn group_text(
    digits: Seq<char>,
    phs: Seq<DigitPlaceholder>,
    parts: Seq<(usize, PartView)>,
    sides: Seq<bool>,
    pos: int,
    sep: Option<char>,
    n: nat,
) -> Seq<char> {
    digit_at(digits, phs, pos) + texts_at_side(parts, sides, pos, false, n, parts.len() as int)
        + separator_at(pos, sep) + texts_at_side(parts, sides, pos, true, n, parts.len() as int)
}

/// Positions `k - 1` down to `0`, left to right.
pub open spec fn groups_text(
    digits: Seq<char>,
    phs: Seq<DigitPlaceholder>,
    parts: Seq<(usize, PartView)>,
    sides: Seq<bool>,
    sep: Option<char>,
    n: nat,
    k: int,
) -> Seq<char>
    decreases k,
{
    if k <= 0 {
        Seq::empty()
    } else {
        group_text(digits, phs, parts, sides, k - 1, sep, n) + groups_text(
            digits,
            phs,
            parts,
            sides,
            sep,
            n,
            k - 1,
        )
    }
}

/// The parts among the first `k` placed beyond `width`, last first.
pub open spec fn overflow_text(parts: Seq<(usize, PartView)>, width: int, n: nat, k: int) -> Seq<char>
    decreases k,
{
    if k <= 0 {
        Seq::empty()
    } else {
        (if parts[k - 1].0 >= width {
            part_text(parts[k - 1].1, n)
        } else {
            Seq::empty()
        }) + overflow_text(parts, width, n, k - 1)
    }
}

/// The texts of the first `k` placed parts, in order.
pub open spec fn placed_text(parts: Seq<(usize, PartView)>, n: nat, k: int) -> Seq<char>
    decreases k,
{
    if k <= 0 {
        Seq::empty()
    } else {
        placed_text(parts, n, k - 1) + part_text(parts[k - 1].1, n)
    }
}

pub open spec fn max(a: int, b: int) -> int {
    if a >= b {
        a
    } else {
        b
    }
}

/// The index of the first of `s` at or after `i` placed below position `p`,
/// or the length.
pub open spec fn first_below(s: Seq<(usize, PartView)>, p: usize, i: int) -> int
    decreases s.len() - i,
{
    if i < 0 || i >= s.len() {
        s.len() as int
    } else if s[i].0 < p {
        i
    } else {
        first_below(s, p, i + 1)
    }
}

/// The placed parts ordered by position from the left (highest first);
/// parts at the same position keep their order.
pub open spec fn sorted_desc(parts: Seq<(usize, PartView)>) -> Seq<(usize, PartView)>
    decreases parts.len(),
{
    if parts.len() == 0 {
        Seq::empty()
    } else {
        let s = sorted_desc(parts.drop_last());
        s.insert(first_below(s, parts.last().0, 0), parts.last())
    }
}

proof fn lemma_first_below(s: Seq<(usize, PartView)>, p: usize, i: int)
    requires
        0 <= i <= s.len(),
    ensures
        i <= first_below(s, p, i) <= s.len(),
    decreases s.len() - i,
{
    if i < s.len() && s[i].0 >= p {
        lemma_first_below(s, p, i + 1);
    }
}

proof fn lemma_sorted_desc_len(parts: Seq<(usize, PartView)>)
    ensures
        sorted_desc(parts).len() == parts.len(),
    decreases parts.len(),
{
    if parts.len() > 0 {
        lemma_sorted_desc_len(parts.drop_last());
        lemma_first_below(sorted_desc(parts.drop_last()), parts.last().0, 0);
    }
}

/// The integer part of a number written with decimal `digits`: digits
/// right-aligned on the placeholders, missing digits padded by their
/// placeholder, parts at their positions and, with a separator, groups of
/// three. Only the `0` placeholders and the digits count towards the width
/// when grouping; zero with no `0` placeholder shows only the parts, from
/// the highest position to the lowest.
pub open spec fn integer_digits_text(
    digits: Seq<char>,
    phs: Seq<DigitPlaceholder>,
    sep: Option<char>,
    parts: Seq<(usize, PartView)>,
    sides: Seq<bool>,
    n: nat,
) -> Seq<char> {
    let min = required_count(phs);
    if digits == seq!['0'] && min == 0 {
        placed_text(sorted_desc(parts), n, parts.len() as int)
    } else {
        let width = if sep is Some {
            max(digits.len() as int, min as int)
        } else {
            max(digits.len() as int, phs.len() as int)
        };
        overflow_text(parts, width, n, parts.len() as int) + groups_text(
            digits,
            phs,
            parts,
            sides,
            sep,
            n,
            width,
        )
    }
}

/// The integer part of `value`.
pub open spec fn integer_text(
    value: nat,
    phs: Seq<DigitPlaceholder>,
    sep: Option<char>,
    parts: Seq<(usize, PartView)>,
    sides: Seq<bool>,
    n: nat,
) -> Seq<char> {
    integer_digits_text(digits_of(value), phs, sep, parts, sides, n)
}

/// The group separator in use, if any.
pub open spec fn separator(use_thousands: bool, opts: FormatOptions) -> Option<char> {
    if use_thousands {
        Some(opts.locale.thousands_separator)
    } else {
        None
    }
}

/// Formats the integer part of a number.
pub fn format_integer(
    value: u64,
    placeholders: &[DigitPlaceholder],
    use_thousands: bool,
    inline_parts: &[(usize, FormatPart)],
    inline_after_separator: &[bool],
    opts: &FormatOptions,
    fill_count: usize,
) -> (r: String)
    ensures
        r@ == integer_text(
            value as nat,
            placeholders@,
            separator(use_thousands, *opts),
            placed_view(inline_parts@),
            inline_after_separator@,
            fill_count as nat,
        ),
{
    let digits = decimal_chars(value);
    proof {
        lemma_digits_of(value as nat);
        if value != 0 && digits@ == seq!['0'] {
            lemma_digits_zero(value as nat);
        }
    }
    format_integer_digits(
        &digits,
        placeholders,
        use_thousands,
        inline_parts,
        inline_after_separator,
        opts,
        fill_count,
    )
}

/// Only zero is written as a single `0`.
proof fn lemma_digits_zero(v: nat)
    requires
        digits_of(v) == seq!['0'],
    ensures
        v == 0,
{
    if v >= 10 {
        lemma_digits_of(v / 10);
        assert(digits_of(v).len() >= 2);
    } else {
        assert(digits_of(v)[0] == crate::digits::digit_char(v));
    }
}

/// Formats the integer part of a number written with decimal `digits`.
pub fn format_integer_digits(
    digits: &Vec<char>,
    placeholders: &[DigitPlaceholder],
    use_thousands: bool,
    inline_parts: &[(usize, FormatPart)],
    inline_after_separator: &[bool],
    opts: &FormatOptions,
    fill_count: usize,
) -> (r: String)
    requires
        digits@.len() >= 1,
    ensures
        r@ == integer_digits_text(
            digits@,
            placeholders@,
            separator(use_thousands, *opts),
            placed_view(inline_parts@),
            inline_after_separator@,
            fill_count as nat,
        ),
{
    let ghost parts = placed_view(inline_parts@);
    let ghost phs = placeholders@;
    let ghost n = fill_count as nat;
    let ghost sep = separator(use_thousands, *opts);
    let ghost sides = inline_after_separator@;
    proof {
        lemma_required_count_bound(phs);
    }
    let min_digits = count_required_slice(placeholders);
    let mut result = String::new();
    let is_zero = digits.len() == 1 && digits[0] == '0';
    assert(is_zero == (digits@ == seq!['0'])) by {
        if digits@.len() == 1 && digits@[0] == '0' {
            assert(digits@ =~= seq!['0']);
        }
    }
    if is_zero && min_digits == 0 {
        let sorted = sort_placed_desc(inline_parts);
        let ghost sp = placed_view(sorted@);
        proof {
            lemma_sorted_desc_len(parts);
        }
        let mut k: usize = 0;
        while k < sorted.len()
            invariant
                k <= sorted@.len(),
                sp == placed_view(sorted@),
                sp == sorted_desc(parts),
                sorted@.len() == parts.len(),
                n == fill_count as nat,
                result@ == placed_text(sp, n, k as int),
            decreases sorted@.len() - k,
        {
            push_part(&mut result, &sorted[k].1, fill_count);
            k = k + 1;
        }
        return result;
    }
    let width: usize = if use_thousands {
        if digits.len() >= min_digits {
            digits.len()
        } else {
            min_digits
        }
    } else {
        if digits.len() >= placeholders.len() {
            digits.len()
        } else {
            placeholders.len()
        }
    };
    // Parts placed beyond the width come first, last one first.
    let mut k: usize = inline_parts.len();
    while k > 0
        invariant
            k <= inline_parts@.len(),
            parts == placed_view(inline_parts@),
            n == fill_count as nat,
            result@ + overflow_text(parts, width as int, n, k as int) == overflow_text(
                parts,
                width as int,
                n,
                inline_parts@.len() as int,
            ),
        decreases k,
    {
        k = k - 1;
        let ghost before = result@;
        if inline_parts[k].0 >= width {
            push_part(&mut result, &inline_parts[k].1, fill_count);
        }
        assert(result@ + overflow_text(parts, width as int, n, k as int) =~= before
            + overflow_text(parts, width as int, n, k + 1));
    }
    let ghost head = result@;
    // Then every position from the left.
    let mut pos: usize = width;
    while pos > 0
        invariant
            pos <= width,
            parts == placed_view(inline_parts@),
            phs == placeholders@,
            n == fill_count as nat,
            sep == separator(use_thousands, *opts),
            sides == inline_after_separator@,
            result@ + groups_text(digits@, phs, parts, sides, sep, n, pos as int) == head
                + groups_text(
                digits@,
                phs,
                parts,
                sides,
                sep,
                n,
                width as int,
            ),
        decreases pos,
    {
        pos = pos - 1;
        let ghost before = result@;
        push_group(
            &mut result,
            digits,
            placeholders,
            use_thousands,
            inline_parts,
            inline_after_separator,
            opts,
            fill_count,
            pos,
        );
        assert(groups_text(digits@, phs, parts, sides, sep, n, pos + 1) == group_text(
            digits@,
            phs,
            parts,
            sides,
            pos as int,
            sep,
            n,
        ) + groups_text(digits@, phs, parts, sides, sep, n, pos as int));
        assert(result@ + groups_text(digits@, phs, parts, sides, sep, n, pos as int) =~= before
            + groups_text(digits@, phs, parts, sides, sep, n, pos + 1));
    }
    result
}

/// The placed parts ordered by position from the left, parts at the same
/// position in their order.
fn sort_placed_desc(inline_parts: &[(usize, FormatPart)]) -> (r: Vec<(usize, FormatPart)>)
    ensures
        placed_view(r@) == sorted_desc(placed_view(inline_parts@)),
{
    let ghost parts = placed_view(inline_parts@);
    let mut sorted: Vec<(usize, FormatPart)> = Vec::new();
    let mut k: usize = 0;
    assert(parts.take(0) =~= Seq::<(usize, PartView)>::empty());
    assert(placed_view(sorted@) =~= Seq::<(usize, PartView)>::empty());
    while k < inline_parts.len()
        invariant
            k <= inline_parts@.len(),
            parts == placed_view(inline_parts@),
            placed_view(sorted@) == sorted_desc(parts.take(k as int)),
        decreases inline_parts@.len() - k,
    {
        let ghost sv = placed_view(sorted@);
        let p = inline_parts[k].0;
        let mut j: usize = 0;
        proof {
            lemma_first_below(sv, p, 0);
        }
        while j < sorted.len() && sorted[j].0 >= p
            invariant
                j <= sorted@.len(),
                sv == placed_view(sorted@),
                first_below(sv, p, 0) == first_below(sv, p, j as int),
            decreases sorted@.len() - j,
        {
            j = j + 1;
        }
        assert(first_below(sv, p, j as int) == j);
        let ghost x = parts[k as int];
        assert(parts.take(k + 1).drop_last() =~= parts.take(k as int));
        assert(parts.take(k + 1).last() == x);
        sorted.insert(j, (p, inline_parts[k].1.copy()));
        assert(placed_view(sorted@) =~= sv.insert(j as int, x));
        k = k + 1;
    }
    assert(parts.take(inline_parts@.len() as int) =~= parts);
    sorted
}

/// Appends the texts of the parts placed at `pos` on the given side of a
/// group separator there.
fn push_texts_at_side(
    result: &mut String,
    inline_parts: &[(usize, FormatPart)],
    inline_after_separator: &[bool],
    pos: usize,
    after: bool,
    fill_count: usize,
)
    ensures
        final(result)@ == old(result)@ + texts_at_side(
            placed_view(inline_parts@),
            inline_after_separator@,
            pos as int,
            after,
            fill_count as nat,
            inline_parts@.len() as int,
        ),
{
    let ghost parts = placed_view(inline_parts@);
    let ghost sides = inline_after_separator@;
    let ghost n = fill_count as nat;
    let ghost mid = result@;
    let mut j: usize = 0;
    while j < inline_parts.len()
        invariant
            j <= inline_parts@.len(),
            parts == placed_view(inline_parts@),
            sides == inline_after_separator@,
            n == fill_count as nat,
            result@ == mid + texts_at_side(parts, sides, pos as int, after, n, j as int),
        decreases inline_parts@.len() - j,
    {
        let side = j < inline_after_separator.len() && inline_after_separator[j];
        assert(side == side_of(sides, j as int));
        if inline_parts[j].0 == pos && side == after {
            push_part(result, &inline_parts[j].1, fill_count);
        }
        assert(result@ =~= mid + texts_at_side(parts, sides, pos as int, after, n, j + 1));
        j = j + 1;
    }
}

/// Appends what integer position `pos` shows.
fn push_group(
    result: &mut String,
    digits: &Vec<char>,
    placeholders: &[DigitPlaceholder],
    use_thousands: bool,
    inline_parts: &[(usize, FormatPart)],
    inline_after_separator: &[bool],
    opts: &FormatOptions,
    fill_count: usize,
    pos: usize,
)
    ensures
        final(result)@ == old(result)@ + group_text(
            digits@,
            placeholders@,
            placed_view(inline_parts@),
            inline_after_separator@,
            pos as int,
            separator(use_thousands, *opts),
            fill_count as nat,
        ),
{
    let ghost parts = placed_view(inline_parts@);
    let ghost sides = inline_after_separator@;
    let ghost phs = placeholders@;
    let ghost n = fill_count as nat;
    let ghost sep = separator(use_thousands, *opts);
    let ghost before = result@;
    let dl = digits.len();
    if pos < dl {
        string_push(result, digits[dl - 1 - pos]);
    } else if pos < placeholders.len() {
        if let Some(c) = placeholders[placeholders.len() - 1 - pos].empty_char() {
            string_push(result, c);
        }
    }
    assert(result@ =~= before + digit_at(digits@, phs, pos as int));
    let ghost d = result@;
    push_texts_at_side(result, inline_parts, inline_after_separator, pos, false, fill_count);
    let ghost m = result@;
    if use_thousands && pos > 0 && pos % 3 == 0 {
        string_push(result, opts.locale.thousands_separator);
    }
    assert(result@ =~= m + separator_at(pos as int, sep));
    push_texts_at_side(result, inline_parts, inline_after_separator, pos, true, fill_count);
    assert(result@ =~= before + group_text(digits@, phs, parts, sides, pos as int, sep, n));
}

/// The number of `0` placeholders.
fn count_required_slice(ps: &[DigitPlaceholder]) -> (r: usize)
    ensures
        r == required_count(ps@),
{
    let mut n: usize = 0;
    let mut i: usize = 0;
    while i < ps.len()
        invariant
            i <= ps@.len(),
            n == required_count(ps@.take(i as int)),
            n <= i,
        decreases ps@.len() - i,
    {
        assert(ps@.take(i + 1).drop_last() =~= ps@.take(i as int));
        if ps[i].is_required() {
            n = n + 1;
        }
        i = i + 1;
    }
    assert(ps@.take(ps@.len() as int) =~= ps@);
    n
}

/// Positions `k - 1` down to `0` of a number without parts or separators.
pub open spec fn digits_text(digits: Seq<char>, phs: Seq<DigitPlaceholder>, k: int) -> Seq<char>
    decreases k,
{
    if k <= 0 {
        Seq::empty()
    } else {
        digit_at(digits, phs, k - 1) + digits_text(digits, phs, k - 1)
    }
}

/// A number on bare placeholders: all its digits when they outnumber the
/// placeholders, else right-aligned with missing digits padded.
pub open spec fn simple_text(value: nat, phs: Seq<DigitPlaceholder>) -> Seq<char> {
    let d = digits_of(value);
    if phs.len() == 0 || d.len() > phs.len() {
        d
    } else {
        digits_text(d, phs, phs.len() as int)
    }
}

/// Formats a number on bare digit placeholders.
pub fn format_simple_with_placeholders(value: u64, placeholders: &[DigitPlaceholder]) -> (r: String)
    ensures
        r@ == simple_text(value as nat, placeholders@),
{
    let digits = decimal_chars(value);
    if placeholders.len() == 0 || digits.len() > placeholders.len() {
        return crate::chars::string_of(digits.as_slice());
    }
    let ghost phs = placeholders@;
    let mut result = String::new();
    let mut pos: usize = placeholders.len();
    while pos > 0
        invariant
            pos <= placeholders@.len(),
            phs == placeholders@,
            digits@ == digits_of(value as nat),
            result@ + digits_text(digits@, phs, pos as int) == digits_text(
                digits@,
                phs,
                phs.len() as int,
            ),
        decreases pos,
    {
        pos = pos - 1;
        let ghost before = result@;
        let dl = digits.len();
        if pos < dl {
            string_push(&mut result, digits[dl - 1 - pos]);
        } else if let Some(c) = placeholders[placeholders.len() - 1 - pos].empty_char() {
            string_push(&mut result, c);
        }
        assert(result@ =~= before + digit_at(digits@, phs, pos as int));
        assert(result@ + digits_text(digits@, phs, pos as int) =~= before + digits_text(
            digits@,
            phs,
            pos + 1,
        ));
    }
    assert(result@ =~= result@ + digits_text(digits@, phs, 0));
    result
}

/// Appends the texts of `parts`, in order.
pub fn push_parts(output: &mut String, parts: &Vec<FormatPart>, fill_count: usize)
    ensures
        final(output)@ == old(output)@ + parts_text(
            parts_view(parts@),
            fill_count as nat,
            parts@.len() as int,
        ),
{
    let ghost ps = parts_view(parts@);
    let ghost before = output@;
    let mut i: usize = 0;
    while i < parts.len()
        invariant
            i <= parts@.len(),
            ps == parts_view(parts@),
            output@ == before + parts_text(ps, fill_count as nat, i as int),
        decreases parts@.len() - i,
    {
        assert(ps[i as int] == parts[i as int]@);
        push_part(output, &parts[i], fill_count);
        assert(output@ =~= before + parts_text(ps, fill_count as nat, i + 1));
        i = i + 1;
    }
}

/// The result of a number: the prefix parts, the number, the suffix parts.
pub open spec fn result_text(a: AnalysisView, number: Seq<char>, n: nat) -> Seq<char> {
    parts_text(a.prefix_parts, n, a.prefix_parts.len() as int) + number + parts_text(
        a.suffix_parts,
        n,
        a.suffix_parts.len() as int,
    )
}

/// The number of bytes the fills among `ps` show with `n` repetitions.
pub open spec fn fill_bytes(ps: Seq<PartView>, n: nat) -> nat
    decreases ps.len(),
{
    if ps.len() == 0 {
        0
    } else {
        fill_bytes(ps.drop_last(), n) + match ps.last() {
            FormatPartOf::Fill(c) => n * utf8_len(c),
            _ => 0,
        }
    }
}

/// The parts of placed parts, in order.
pub open spec fn placed_parts(v: Seq<(usize, PartView)>) -> Seq<PartView> {
    Seq::new(v.len(), |i: int| v[i].1)
}

/// The number of bytes the fills of an analysis show with `n` repetitions.
pub open spec fn analysis_fill_bytes(a: AnalysisView, n: nat) -> nat {
    fill_bytes(a.prefix_parts, n) + fill_bytes(a.suffix_parts, n) + fill_bytes(
        placed_parts(a.inline_parts),
        n,
    ) + fill_bytes(placed_parts(a.decimal_inline_parts), n)
}

proof fn lemma_fill_bytes_take_mono(ps: Seq<PartView>, i: int, k: int, n: nat)
    requires
        0 <= i <= k <= ps.len(),
    ensures
        fill_bytes(ps.take(i), n) <= fill_bytes(ps.take(k), n),
    decreases k - i,
{
    if i < k {
        lemma_fill_bytes_take_mono(ps, i, k - 1, n);
        assert(ps.take(k).drop_last() =~= ps.take(k - 1));
    }
}

/// The bytes the fills among `ps` show, when they are at most `isize::MAX`.
fn fill_bytes_within(parts: &[FormatPart], fill_count: usize) -> (r: Option<usize>)
    ensures
        r == (if fill_bytes(parts_view(parts@), fill_count as nat) <= isize::MAX {
            Some(fill_bytes(parts_view(parts@), fill_count as nat) as usize)
        } else {
            None::<usize>
        }),
{
    let ghost n = fill_count as nat;
    let ghost s = parts_view(parts@);
    let mut total: usize = 0;
    let mut i: usize = 0;
    while i < parts.len()
        invariant
            i <= parts@.len(),
            s == parts_view(parts@),
            n == fill_count as nat,
            total == fill_bytes(s.take(i as int), n),
            total <= isize::MAX,
        decreases parts@.len() - i,
    {
        assert(s.take(i + 1).drop_last() =~= s.take(i as int));
        assert(s[i as int] == parts[i as int]@);
        if let FormatPartOf::Fill(c) = &parts[i] {
            let piece = match fill_count.checked_mul(char_len_utf8(*c)) {
                Some(b) => b,
                None => {
                    proof {
                        lemma_fill_bytes_take_mono(s, i + 1, s.len() as int, n);
                        assert(s.take(s.len() as int) =~= s);
                    }
                    return None;
                },
            };
            if piece > (isize::MAX as usize) - total {
                proof {
                    lemma_fill_bytes_take_mono(s, i + 1, s.len() as int, n);
                    assert(s.take(s.len() as int) =~= s);
                }
                return None;
            }
            total = total + piece;
        }
        i = i + 1;
    }
    assert(s.take(s.len() as int) =~= s);
    Some(total)
}

/// Refuses a section whose fills alone show more than `isize::MAX` bytes
/// with `fill_count` repetitions: such output cannot be held in a string.
pub fn check_fill_size(parts: &Vec<FormatPart>, fill_count: usize) -> (r: Result<(), FormatError>)
    ensures
        fill_bytes(parts_view(parts@), fill_count as nat) <= isize::MAX ==> r is Ok,
        fill_bytes(parts_view(parts@), fill_count as nat) > isize::MAX ==> r == Err::<
            (),
            FormatError,
        >(FormatError::OutputTooLarge { fill_count }),
{
    match fill_bytes_within(parts.as_slice(), fill_count) {
        Some(_) => Ok(()),
        None => Err(FormatError::OutputTooLarge { fill_count }),
    }
}

/// Whether the fills of an analysis show at most `isize::MAX` bytes.
fn analysis_fills_fit(analysis: &FormatAnalysis, fill_count: usize) -> (r: bool)
    ensures
        r == (analysis_fill_bytes(analysis@, fill_count as nat) <= isize::MAX),
{
    let inline: Vec<FormatPart> = placed_parts_exec(&analysis.inline_parts);
    let decimal: Vec<FormatPart> = placed_parts_exec(&analysis.decimal_inline_parts);
    let a = fill_bytes_within(
        analysis.prefix_parts.as_slice(),
        fill_count,
    );
    let b = fill_bytes_within(
        analysis.suffix_parts.as_slice(),
        fill_count,
    );
    let c = fill_bytes_within(
        inline.as_slice(),
        fill_count,
    );
    let d = fill_bytes_within(
        decimal.as_slice(),
        fill_count,
    );
    match (a, b, c, d) {
        (Some(x), Some(y), Some(z), Some(w)) => {
            let limit = isize::MAX as usize;
            x <= limit - y && x + y <= limit - z && x + y + z <= limit - w
        },
        _ => false,
    }
}

/// The parts of placed parts, in order.
fn placed_parts_exec(v: &Vec<(usize, FormatPart)>) -> (r: Vec<FormatPart>)
    ensures
        parts_view(r@) == placed_parts(placed_view(v@)),
{
    let mut out: Vec<FormatPart> = Vec::new();
    let mut i: usize = 0;
    while i < v.len()
        invariant
            i <= v@.len(),
            out@.len() == i,
            forall|j: int| 0 <= j < i ==> (#[trigger] out@[j])@ == v@[j].1@,
        decreases v@.len() - i,
    {
        out.push(v[i].1.copy());
        i = i + 1;
    }
    assert(parts_view(out@) =~= placed_parts(placed_view(v@)));
    out
}

/// Surrounds a formatted number with its prefix and suffix parts.
pub fn build_result(analysis: &FormatAnalysis, formatted_number: &str, fill_count: usize) -> (r: String)
    ensures
        r@ == result_text(analysis@, formatted_number@, fill_count as nat),
{
    let mut result = String::new();
    push_parts(&mut result, &analysis.prefix_parts, fill_count);
    string_push_str(&mut result, formatted_number);
    push_parts(&mut result, &analysis.suffix_parts, fill_count);
    assert(result@ =~= result_text(analysis@, formatted_number@, fill_count as nat));
    result
}

/// The value after `k` percent signs, each multiplying by 100 and stopping at
/// `i64::MAX`.
pub open spec fn percent_scaled(v: int, k: nat) -> int
    decreases k,
{
    if k == 0 {
        v
    } else {
        let p = percent_scaled(v, (k - 1) as nat) * 100;
        if p > i64::MAX {
            i64::MAX as int
        } else {
            p
        }
    }
}

/// The value after `k` trailing commas, each dividing by 1000.
pub open spec fn thousands_scaled(v: int, k: nat) -> int
    decreases k,
{
    if k == 0 {
        v
    } else {
        thousands_scaled(v, (k - 1) as nat) / 1000
    }
}

/// The magnitude of an integer value after its percent and comma scaling.
pub open spec fn scaled_integer(value: int, a: AnalysisView) -> int {
    thousands_scaled(
        percent_scaled(if value < 0 {
            -value
        } else {
            value
        }, a.percent_count),
        a.thousands_scale,
    )
}

pub proof fn lemma_percent_scaled_range(v: int, k: nat)
    requires
        0 <= v <= i64::MAX,
    ensures
        0 <= percent_scaled(v, k) <= i64::MAX,
    decreases k,
{
    if k > 0 {
        lemma_percent_scaled_range(v, (k - 1) as nat);
    }
}

pub proof fn lemma_thousands_scaled_range(v: int, k: nat)
    requires
        0 <= v <= i64::MAX,
    ensures
        0 <= thousands_scaled(v, k) <= v,
    decreases k,
{
    if k > 0 {
        lemma_thousands_scaled_range(v, (k - 1) as nat);
    }
}

/// Formats an integer value with integer arithmetic only: the magnitude is
/// scaled, laid on the integer placeholders and surrounded by the prefix and
/// suffix parts. Fills that would show more than `isize::MAX` bytes are
/// refused.
pub fn format_number_as_integer(
    value: i64,
    analysis: &FormatAnalysis,
    opts: &FormatOptions,
    fill_count: usize,
) -> (r: Result<String, FormatError>)
    requires
        value > i64::MIN,
    ensures
        analysis_fill_bytes(analysis@, fill_count as nat) > isize::MAX ==> r == Err::<
            String,
            FormatError,
        >(FormatError::OutputTooLarge { fill_count }),
        analysis_fill_bytes(analysis@, fill_count as nat) <= isize::MAX ==> (r matches Ok(s)
            && s@ == result_text(
            analysis@,
            integer_text(
                scaled_integer(value as int, analysis@) as nat,
                analysis@.integer_placeholders,
                separator(analysis.has_thousands_separator, *opts),
                analysis@.inline_parts,
                analysis@.inline_after_separator,
                fill_count as nat,
            ),
            fill_count as nat,
        )),
{
    if !analysis_fills_fit(analysis, fill_count) {
        return Err(FormatError::OutputTooLarge { fill_count });
    }
    let mut adjusted: i64 = if value < 0 {
        -value
    } else {
        value
    };
    let ghost start = adjusted as int;
    let mut k: usize = 0;
    while k < analysis.percent_count
        invariant
            k <= analysis.percent_count,
            0 <= start <= i64::MAX,
            adjusted == percent_scaled(start, k as nat),
            0 <= adjusted,
        decreases analysis.percent_count - k,
    {
        proof {
            lemma_percent_scaled_range(start, k as nat);
        }
        adjusted = if adjusted > i64::MAX / 100 {
            i64::MAX
        } else {
            adjusted * 100
        };
        k = k + 1;
    }
    let ghost pct = adjusted as int;
    let mut k: usize = 0;
    while k < analysis.thousands_scale
        invariant
            k <= analysis.thousands_scale,
            0 <= pct <= i64::MAX,
            adjusted == thousands_scaled(pct, k as nat),
            0 <= adjusted,
        decreases analysis.thousands_scale - k,
    {
        proof {
            lemma_thousands_scaled_range(pct, k as nat);
        }
        adjusted = adjusted / 1000;
        k = k + 1;
    }
    let formatted = format_integer(
        adjusted as u64,
        analysis.integer_placeholders.as_slice(),
        analysis.has_thousands_separator,
        analysis.inline_parts.as_slice(),
        analysis.inline_after_separator.as_slice(),
        opts,
        fill_count,
    );
    Ok(build_result(analysis, formatted.as_str(), fill_count))
}

/// The texts of parts where the General number shows `general`.
pub open spec fn general_parts_text(ps: Seq<PartView>, general: Seq<char>, n: nat, k: int) -> Seq<char>
    decreases k,
{
    if k <= 0 {
        Seq::empty()
    } else {
        general_parts_text(ps, general, n, k - 1) + if ps[k - 1] is GeneralNumber {
            general
        } else {
            part_text(ps[k - 1], n)
        }
    }
}

/// Renders a section without digit placeholders in source order: the
/// General number shows `general`, and every other part its text.
pub fn render_general_section(parts: &Vec<FormatPart>, general: &str, fill_count: usize) -> (r: String)
    ensures
        r@ == general_parts_text(parts_view(parts@), general@, fill_count as nat, parts@.len() as int),
{
    let ghost ps = parts_view(parts@);
    let mut result = String::new();
    let mut i: usize = 0;
    while i < parts.len()
        invariant
            i <= parts@.len(),
            ps == parts_view(parts@),
            result@ == general_parts_text(ps, general@, fill_count as nat, i as int),
        decreases parts@.len() - i,
    {
        assert(ps[i as int] == parts[i as int]@);
        match &parts[i] {
            FormatPartOf::GeneralNumber => string_push_str(&mut result, general),
            part => push_part(&mut result, part, fill_count),
        }
        i = i + 1;
    }
    result
}

/// The way a value goes through a section that is not a date section.
#[derive(Debug, Clone, Copy, PartialEq, Eq, Structural)]
pub enum NumberRoute {
    /// Scientific notation, with the first exponent marker's letter case and
    /// sign display.
    Scientific { upper: bool, show_plus: bool },
    /// A fraction approximation.
    Fraction,
    /// A text section: the value is shown as General.
    Text,
    /// Parts around a General number, in source order.
    General,
    /// Only the section's literal and layout parts.
    Literal,
    /// Digit placeholders.
    Numeric,
}

/// The exponent flags of the first scientific part at or after `i`.
pub open spec fn scientific_from(ps: Seq<PartView>, i: int) -> Option<(bool, bool)>
    decreases ps.len() - i,
{
    if i < 0 || i >= ps.len() {
        None
    } else {
        match ps[i] {
            FormatPartOf::Scientific { upper, show_plus } => Some((upper, show_plus)),
            _ => scientific_from(ps, i + 1),
        }
    }
}

pub open spec fn is_placeholder_or_point(p: PartView) -> bool {
    p is Digit || p is DecimalPoint
}

/// The route of a value through a section: a scientific part decides first,
/// then the section's kind; a section with neither placeholders nor a
/// decimal point shows its General number, or else only its literals.
pub open spec fn route_of(ps: Seq<PartView>) -> NumberRoute {
    match scientific_from(ps, 0) {
        Some((upper, show_plus)) => NumberRoute::Scientific { upper, show_plus },
        None => {
            let kind = classify(ps);
            if kind == SectionKind::Fraction {
                NumberRoute::Fraction
            } else if kind == SectionKind::Text {
                NumberRoute::Text
            } else if kind == SectionKind::Number || any_part(
                ps,
                |p: PartView| is_placeholder_or_point(p),
            ) {
                NumberRoute::Numeric
            } else if any_part(ps, |p: PartView| is_general_part(p)) {
                NumberRoute::General
            } else {
                NumberRoute::Literal
            }
        },
    }
}

/// Chooses how a value is formatted through a section's parts.
pub fn number_route(parts: &Vec<FormatPart>) -> (r: NumberRoute)
    ensures
        r == route_of(parts_view(parts@)),
{
    let ghost ps = parts_view(parts@);
    let mut i: usize = 0;
    while i < parts.len()
        invariant
            i <= parts@.len(),
            ps == parts_view(parts@),
            scientific_from(ps, 0) == scientific_from(ps, i as int),
        decreases parts@.len() - i,
    {
        assert(ps[i as int] == parts[i as int]@);
        if let FormatPartOf::Scientific { upper, show_plus } = &parts[i] {
            return NumberRoute::Scientific { upper: *upper, show_plus: *show_plus };
        }
        i = i + 1;
    }
    assert(scientific_from(ps, i as int) == None::<(bool, bool)>);
    let kind = classify_section(parts);
    if kind == SectionKind::Fraction {
        return NumberRoute::Fraction;
    }
    if kind == SectionKind::Text {
        return NumberRoute::Text;
    }
    let mut numeric = false;
    let mut general = false;
    let mut j: usize = 0;
    while j < parts.len()
        invariant
            j <= parts@.len(),
            ps == parts_view(parts@),
            numeric == exists|k: int| 0 <= k < j && is_placeholder_or_point(#[trigger] ps[k]),
            general == exists|k: int| 0 <= k < j && is_general_part(#[trigger] ps[k]),
        decreases parts@.len() - j,
    {
        assert(ps[j as int] == parts[j as int]@);
        match &parts[j] {
            FormatPartOf::Digit(_) | FormatPartOf::DecimalPoint => numeric = true,
            FormatPartOf::GeneralNumber => general = true,
            _ => {},
        }
        j = j + 1;
    }
    if kind == SectionKind::Number || numeric {
        NumberRoute::Numeric
    } else if general {
        NumberRoute::General
    } else {
        NumberRoute::Literal
    }
}

/// `d` with zeros in front up to width `w`.
pub open spec fn zero_padded(d: Seq<char>, w: int) -> Seq<char> {
    if d.len() >= w {
        d
    } else {
        Seq::new((w - d.len()) as nat, |_i: int| '0') + d
    }
}

pub open spec fn all_zero(s: Seq<char>) -> bool {
    forall|i: int| 0 <= i < s.len() ==> s[i] == '0'
}

/// Where the run of trailing zeros on optional placeholders starts, scanning
/// down from position `i`.
pub open spec fn trailing_from(dc: Seq<char>, phs: Seq<DigitPlaceholder>, i: int, acc: int) -> int
    decreases i,
{
    if i <= 0 {
        acc
    } else if i - 1 < dc.len() && dc[i - 1] == '0' && !phs[i - 1].required() {
        trailing_from(dc, phs, i - 1, i - 1)
    } else {
        acc
    }
}

/// What decimal position `i` shows: within the computed precision its digit,
/// except that a trailing zero on `#` shows nothing and on `?` a space;
/// beyond it the placeholder's padding.
pub open spec fn decimal_char(
    dc: Seq<char>,
    phs: Seq<DigitPlaceholder>,
    eff: int,
    tzs: int,
    i: int,
) -> Seq<char> {
    if i < eff {
        let ch = if i < dc.len() {
            dc[i]
        } else {
            '0'
        };
        if i >= tzs && ch == '0' && !phs[i].required() {
            if phs[i] == DigitPlaceholder::Question {
                seq![' ']
            } else {
                Seq::empty()
            }
        } else {
            seq![ch]
        }
    } else {
        match phs[i].padding() {
            Some(c) => seq![c],
            None => Seq::empty(),
        }
    }
}

/// Decimal positions `0` to `k - 1`, each after the parts placed there.
pub open spec fn decimals_text(
    dc: Seq<char>,
    phs: Seq<DigitPlaceholder>,
    parts: Seq<(usize, PartView)>,
    eff: int,
    tzs: int,
    n: nat,
    k: int,
) -> Seq<char>
    decreases k,
{
    if k <= 0 {
        Seq::empty()
    } else {
        decimals_text(dc, phs, parts, eff, tzs, n, k - 1) + texts_at(
            parts,
            k - 1,
            n,
            parts.len() as int,
        ) + decimal_char(dc, phs, eff, tzs, k - 1)
    }
}

/// The texts of the first `k` parts placed at or beyond `width`, in order.
pub open spec fn late_text(parts: Seq<(usize, PartView)>, width: int, n: nat, k: int) -> Seq<char>
    decreases k,
{
    if k <= 0 {
        Seq::empty()
    } else {
        late_text(parts, width, n, k - 1) + if parts[k - 1].0 >= width {
            part_text(parts[k - 1].1, n)
        } else {
            Seq::empty()
        }
    }
}

/// The decimal digits kept for display: at most ten.
pub open spec fn decimal_precision(phs: Seq<DigitPlaceholder>) -> int {
    if phs.len() < 10 {
        phs.len() as int
    } else {
        10
    }
}

/// The decimal part of a number whose first `decimal_precision` decimal
/// digits, rounded, are `dint`.
pub open spec fn decimal_text(
    dint: nat,
    phs: Seq<DigitPlaceholder>,
    parts: Seq<(usize, PartView)>,
    n: nat,
) -> Seq<char> {
    if phs.len() == 0 {
        Seq::empty()
    } else {
        let eff = decimal_precision(phs);
        let dc = zero_padded(digits_of(dint), eff);
        let tzs = if all_zero(dc) {
            0
        } else {
            trailing_from(dc, phs, eff, phs.len() as int)
        };
        decimals_text(dc, phs, parts, eff, tzs, n, phs.len() as int) + late_text(
            parts,
            phs.len() as int,
            n,
            parts.len() as int,
        )
    }
}

/// Formats the decimal part of a number from its rounded decimal digits.
pub fn format_decimal_digits(
    decimal_int: u64,
    placeholders: &[DigitPlaceholder],
    decimal_inline_parts: &[(usize, FormatPart)],
    fill_count: usize,
) -> (r: String)
    ensures
        r@ == decimal_text(
            decimal_int as nat,
            placeholders@,
            placed_view(decimal_inline_parts@),
            fill_count as nat,
        ),
{
    let ghost phs = placeholders@;
    let ghost parts = placed_view(decimal_inline_parts@);
    let ghost n = fill_count as nat;
    let mut result = String::new();
    if placeholders.len() == 0 {
        return result;
    }
    let eff: usize = if placeholders.len() < 10 {
        placeholders.len()
    } else {
        10
    };
    let digits = decimal_chars(decimal_int);
    let mut dc: Vec<char> = Vec::new();
    let mut z: usize = digits.len();
    while z < eff
        invariant
            digits.len() <= z <= eff || z == digits.len(),
            dc@ == Seq::new((z - digits.len()) as nat, |_i: int| '0'),
        decreases eff - z,
    {
        dc.push('0');
        assert(dc@ =~= Seq::new((z + 1 - digits.len()) as nat, |_i: int| '0'));
        z = z + 1;
    }
    crate::chars::extend_chars(&mut dc, &digits);
    let ghost dcv = zero_padded(digits_of(decimal_int as nat), eff as int);
    assert(dc@ =~= dcv);
    // Whether every computed digit is zero.
    let mut all_zeros = true;
    let mut i: usize = 0;
    while i < dc.len()
        invariant
            i <= dc@.len(),
            all_zeros == forall|j: int| 0 <= j < i ==> dc@[j] == '0',
        decreases dc@.len() - i,
    {
        if dc[i] != '0' {
            all_zeros = false;
        }
        i = i + 1;
    }
    // Where the trailing zeros on optional placeholders start.
    let mut tzs: usize = if all_zeros {
        0
    } else {
        placeholders.len()
    };
    if !all_zeros {
        let mut i: usize = eff;
        let mut scanning = true;
        while scanning && i > 0
            invariant
                i <= eff <= placeholders@.len(),
                eff <= dc@.len(),
                tzs <= placeholders@.len(),
                phs == placeholders@,
                trailing_from(dc@, phs, i as int, tzs as int) == trailing_from(
                    dc@,
                    phs,
                    eff as int,
                    placeholders@.len() as int,
                ),
                !scanning ==> trailing_from(dc@, phs, i as int, tzs as int) == tzs as int,
            decreases i + if scanning {
                1int
            } else {
                0int
            },
        {
            if dc[i - 1] == '0' && !placeholders[i - 1].is_required() {
                assert(trailing_from(dc@, phs, i as int, tzs as int) == trailing_from(
                    dc@,
                    phs,
                    i - 1,
                    i - 1,
                ));
                tzs = i - 1;
                i = i - 1;
            } else {
                scanning = false;
            }
        }
    }
    let ghost tz = tzs as int;
    assert(tz == if all_zero(dc@) {
        0
    } else {
        trailing_from(dc@, phs, eff as int, phs.len() as int)
    });
    let mut i: usize = 0;
    while i < placeholders.len()
        invariant
            i <= placeholders@.len(),
            phs == placeholders@,
            parts == placed_view(decimal_inline_parts@),
            n == fill_count as nat,
            eff <= dc@.len(),
            eff <= placeholders@.len(),
            tz == tzs as int,
            result@ == decimals_text(dc@, phs, parts, eff as int, tz, n, i as int),
        decreases placeholders@.len() - i,
    {
        let ghost before = result@;
        let mut j: usize = 0;
        while j < decimal_inline_parts.len()
            invariant
                j <= decimal_inline_parts@.len(),
                parts == placed_view(decimal_inline_parts@),
                n == fill_count as nat,
                result@ == before + texts_at(parts, i as int, n, j as int),
            decreases decimal_inline_parts@.len() - j,
        {
            if decimal_inline_parts[j].0 == i {
                push_part(&mut result, &decimal_inline_parts[j].1, fill_count);
            }
            assert(result@ =~= before + texts_at(parts, i as int, n, j + 1));
            j = j + 1;
        }
        let ghost mid = result@;
        let placeholder = placeholders[i];
        if i < eff {
            let ch = dc[i];
            if i >= tzs && ch == '0' && !placeholder.is_required() {
                if matches!(placeholder, DigitPlaceholder::Question) {
                    string_push(&mut result, ' ');
                }
            } else {
                string_push(&mut result, ch);
            }
        } else if let Some(c) = placeholder.empty_char() {
            string_push(&mut result, c);
        }
        assert(result@ =~= mid + decimal_char(dc@, phs, eff as int, tz, i as int));
        assert(result@ =~= before + texts_at(parts, i as int, n, parts.len() as int) + decimal_char(
            dc@,
            phs,
            eff as int,
            tz,
            i as int,
        ));
        i = i + 1;
    }
    let ghost body = result@;
    let mut j: usize = 0;
    while j < decimal_inline_parts.len()
        invariant
            j <= decimal_inline_parts@.len(),
            parts == placed_view(decimal_inline_parts@),
            n == fill_count as nat,
            result@ == body + late_text(parts, placeholders@.len() as int, n, j as int),
        decreases decimal_inline_parts@.len() - j,
    {
        if decimal_inline_parts[j].0 >= placeholders.len() {
            push_part(&mut result, &decimal_inline_parts[j].1, fill_count);
        }
        assert(result@ =~= body + late_text(parts, placeholders@.len() as int, n, j + 1));
        j = j + 1;
    }
    result
}

/// Placeholder groups of a scientific format.
#[derive(Debug, Clone)]
pub struct ScientificAnalysis {
    /// Mantissa placeholders before the decimal point.
    pub mantissa_integer_placeholders: Vec<DigitPlaceholder>,
    /// Mantissa placeholders after the decimal point.
    pub mantissa_decimal_placeholders: Vec<DigitPlaceholder>,
    /// Exponent digit placeholders.
    pub exponent_placeholders: Vec<DigitPlaceholder>,
    /// The fill among the mantissa integer digits, positioned from the right.
    pub mantissa_integer_parts: Vec<(usize, FormatPart)>,
    /// The fill among the mantissa decimal digits, positioned from the left.
    pub mantissa_decimal_parts: Vec<(usize, FormatPart)>,
    /// The fill among the exponent digits, positioned from the right.
    pub exponent_parts: Vec<(usize, FormatPart)>,
}

pub struct ScientificView {
    pub mantissa_integer_placeholders: Seq<DigitPlaceholder>,
    pub mantissa_decimal_placeholders: Seq<DigitPlaceholder>,
    pub exponent_placeholders: Seq<DigitPlaceholder>,
    pub mantissa_integer_parts: Seq<(usize, PartView)>,
    pub mantissa_decimal_parts: Seq<(usize, PartView)>,
    pub exponent_parts: Seq<(usize, PartView)>,
}

impl View for ScientificAnalysis {
    type V = ScientificView;

    open spec fn view(&self) -> ScientificView {
        ScientificView {
            mantissa_integer_placeholders: self.mantissa_integer_placeholders@,
            mantissa_decimal_placeholders: self.mantissa_decimal_placeholders@,
            exponent_placeholders: self.exponent_placeholders@,
            mantissa_integer_parts: placed_view(self.mantissa_integer_parts@),
            mantissa_decimal_parts: placed_view(self.mantissa_decimal_parts@),
            exponent_parts: placed_view(self.exponent_parts@),
        }
    }
}

/// The region of a scientific format a placeholder belongs to:
/// 0 mantissa integer, 1 mantissa decimal, 2 exponent.
pub open spec fn sci_region_after(region: nat, p: PartView) -> nat {
    match p {
        FormatPartOf::DecimalPoint => if region != 2 {
            1
        } else {
            region
        },
        FormatPartOf::Scientific { .. } => 2,
        _ => region,
    }
}

/// The scientific groups after the first `k` parts, with the fill's
/// position given by the placeholders before it, and the current region.
pub open spec fn sci_fold(ps: Seq<PartView>, k: int) -> (ScientificView, nat)
    decreases k,
{
    if k <= 0 {
        (
            ScientificView {
                mantissa_integer_placeholders: Seq::empty(),
                mantissa_decimal_placeholders: Seq::empty(),
                exponent_placeholders: Seq::empty(),
                mantissa_integer_parts: Seq::empty(),
                mantissa_decimal_parts: Seq::empty(),
                exponent_parts: Seq::empty(),
            },
            0,
        )
    } else {
        let (a, region) = sci_fold(ps, k - 1);
        let p = ps[k - 1];
        let a2 = match p {
            FormatPartOf::Digit(d) => if region == 0 {
                ScientificView {
                    mantissa_integer_placeholders: a.mantissa_integer_placeholders.push(d),
                    ..a
                }
            } else if region == 1 {
                ScientificView {
                    mantissa_decimal_placeholders: a.mantissa_decimal_placeholders.push(d),
                    ..a
                }
            } else {
                ScientificView { exponent_placeholders: a.exponent_placeholders.push(d), ..a }
            },
            FormatPartOf::Fill(_) => if region == 0 {
                ScientificView {
                    mantissa_integer_parts: a.mantissa_integer_parts.push(
                        (a.mantissa_integer_placeholders.len() as usize, p),
                    ),
                    ..a
                }
            } else if region == 1 {
                ScientificView {
                    mantissa_decimal_parts: a.mantissa_decimal_parts.push(
                        (a.mantissa_decimal_placeholders.len() as usize, p),
                    ),
                    ..a
                }
            } else {
                ScientificView {
                    exponent_parts: a.exponent_parts.push(
                        (a.exponent_placeholders.len() as usize, p),
                    ),
                    ..a
                }
            },
            _ => a,
        };
        (a2, sci_region_after(region, p))
    }
}

/// Counts of placeholders before each part become positions from the right.
pub open spec fn from_right(parts: Seq<(usize, PartView)>, total: nat) -> Seq<(usize, PartView)> {
    Seq::new(parts.len(), |k: int| ((total - parts[k].0) as usize, parts[k].1))
}

/// The placeholder groups of a scientific section: the mantissa integer and
/// decimal digits and the exponent digits, with the section's fill placed
/// among the group it stands in.
pub open spec fn scientific_analysis_of(ps: Seq<PartView>) -> ScientificView {
    let a = sci_fold(ps, ps.len() as int).0;
    ScientificView {
        mantissa_integer_parts: from_right(
            a.mantissa_integer_parts,
            a.mantissa_integer_placeholders.len(),
        ),
        exponent_parts: from_right(a.exponent_parts, a.exponent_placeholders.len()),
        ..a
    }
}

/// Counts never decrease and never exceed `total`.
pub open spec fn counts_within(parts: Seq<(usize, PartView)>, total: nat) -> bool {
    &&& forall|k: int| 0 <= k < parts.len() ==> (#[trigger] parts[k]).0 <= total
    &&& forall|k: int, l: int|
        0 <= k < l < parts.len() ==> (#[trigger] parts[k]).0 <= (#[trigger] parts[l]).0
}

/// Turns counts of placeholders before each part into positions from the
/// right.
fn positions_from_right(parts: &Vec<(usize, FormatPart)>, total: usize) -> (r: Vec<(usize, FormatPart)>)
    requires
        counts_within(placed_view(parts@), total as nat),
    ensures
        placed_view(r@) == from_right(placed_view(parts@), total as nat),
        descending(placed_view(r@)),
{
    let mut out: Vec<(usize, FormatPart)> = Vec::new();
    let mut k: usize = 0;
    while k < parts.len()
        invariant
            k <= parts@.len(),
            counts_within(placed_view(parts@), total as nat),
            out@.len() == k,
            forall|j: int|
                0 <= j < k ==> (#[trigger] out@[j]).0 == total - parts@[j].0 && out@[j].1@
                    == parts@[j].1@,
        decreases parts@.len() - k,
    {
        assert(placed_view(parts@)[k as int].0 <= total);
        let (count, part) = &parts[k];
        out.push((total - *count, part.copy()));
        k = k + 1;
    }
    assert(placed_view(out@) =~= from_right(placed_view(parts@), total as nat));
    assert forall|i: int, j: int|
        0 <= i < j < placed_view(out@).len() implies placed_view(out@)[i].0 >= placed_view(
        out@,
    )[j].0 by {
        assert(placed_view(parts@)[i].0 <= placed_view(parts@)[j].0);
    }
    out
}

/// Splits a scientific section into its placeholder groups.
pub fn analyze_scientific_format(section: &Section) -> (r: ScientificAnalysis)
    ensures
        r@ == scientific_analysis_of(section@.parts),
        descending(r@.mantissa_integer_parts),
        descending(r@.exponent_parts),
{
    let parts = section.parts();
    let ghost ps = section@.parts;
    let mut region: u8 = 0;
    let mut mi: Vec<DigitPlaceholder> = Vec::new();
    let mut md: Vec<DigitPlaceholder> = Vec::new();
    let mut ex: Vec<DigitPlaceholder> = Vec::new();
    let mut mip: Vec<(usize, FormatPart)> = Vec::new();
    let mut mdp: Vec<(usize, FormatPart)> = Vec::new();
    let mut exp: Vec<(usize, FormatPart)> = Vec::new();
    let mut index: usize = 0;
    while index < parts.len()
        invariant
            index <= parts@.len(),
            ps == parts_view(parts@),
            region <= 2,
            mi@.len() <= index,
            md@.len() <= index,
            ex@.len() <= index,
            counts_within(placed_view(mip@), mi@.len()),
            counts_within(placed_view(exp@), ex@.len()),
            ({
                let (a, rg) = sci_fold(ps, index as int);
                &&& a.mantissa_integer_placeholders == mi@
                &&& a.mantissa_decimal_placeholders == md@
                &&& a.exponent_placeholders == ex@
                &&& a.mantissa_integer_parts == placed_view(mip@)
                &&& a.mantissa_decimal_parts == placed_view(mdp@)
                &&& a.exponent_parts == placed_view(exp@)
                &&& rg == region as nat
            }),
        decreases parts@.len() - index,
    {
        let part = &parts[index];
        assert(ps[index as int] == part@);
        let ghost p1 = placed_view(mip@);
        let ghost p2 = placed_view(mdp@);
        let ghost p3 = placed_view(exp@);
        match part {
            FormatPartOf::DecimalPoint => {
                if region != 2 {
                    region = 1;
                }
            },
            FormatPartOf::Scientific { .. } => region = 2,
            FormatPartOf::Digit(placeholder) => {
                if region == 0 {
                    mi.push(*placeholder);
                } else if region == 1 {
                    md.push(*placeholder);
                } else {
                    ex.push(*placeholder);
                }
            },
            FormatPartOf::Fill(_) => {
                if region == 0 {
                    mip.push((mi.len(), part.copy()));
                    assert(placed_view(mip@) =~= p1.push((mi@.len() as usize, part@)));
                } else if region == 1 {
                    mdp.push((md.len(), part.copy()));
                    assert(placed_view(mdp@) =~= p2.push((md@.len() as usize, part@)));
                } else {
                    exp.push((ex.len(), part.copy()));
                    assert(placed_view(exp@) =~= p3.push((ex@.len() as usize, part@)));
                }
            },
            _ => {},
        }
        index = index + 1;
    }
    let mip2 = positions_from_right(&mip, mi.len());
    let exp2 = positions_from_right(&exp, ex.len());
    ScientificAnalysis {
        mantissa_integer_placeholders: mi,
        mantissa_decimal_placeholders: md,
        exponent_placeholders: ex,
        mantissa_integer_parts: mip2,
        mantissa_decimal_parts: mdp,
        exponent_parts: exp2,
    }
}

/// A number in scientific notation from its rendered groups: the value's
/// sign, the mantissa's integer digits, its decimal digits after the
/// separator when there are decimal placeholders, the exponent marker, the
/// exponent's sign (`-` when negative, `+` only when asked for) and digits.
pub open spec fn scientific_text(
    negative: bool,
    integer: Seq<char>,
    decimal: Option<Seq<char>>,
    separator: char,
    upper: bool,
    exponent_negative: bool,
    show_plus: bool,
    exponent: Seq<char>,
) -> Seq<char> {
    (if negative {
        seq!['-']
    } else {
        Seq::empty()
    }) + integer + match decimal {
        Some(d) => seq![separator] + d,
        None => Seq::empty(),
    } + seq![
        if upper {
            'E'
        } else {
            'e'
        },
    ] + (if exponent_negative {
        seq!['-']
    } else if show_plus {
        seq!['+']
    } else {
        Seq::empty()
    }) + exponent
}

/// The sign of a value only ever puts one `-` in front of its scientific
/// text: a negative value reads as the same value positive with `-` before
/// it, whatever the mantissa and exponent show. A positive value's text
/// starts with the mantissa's integer digits, follows them with the
/// separator and the decimal digits when these are shown, then the exponent
/// marker, the exponent's sign (`-` for a negative exponent, `+` only when
/// asked for) and ends with the exponent's digits.
pub proof fn law_scientific_sign_and_layout(
    integer: Seq<char>,
    decimal: Option<Seq<char>>,
    separator: char,
    upper: bool,
    exponent_negative: bool,
    show_plus: bool,
    exponent: Seq<char>,
)
    ensures
        ({
            let neg = scientific_text(
                true,
                integer,
                decimal,
                separator,
                upper,
                exponent_negative,
                show_plus,
                exponent,
            );
            let pos = scientific_text(
                false,
                integer,
                decimal,
                separator,
                upper,
                exponent_negative,
                show_plus,
                exponent,
            );
            let i = integer.len() as int;
            let d: int = match decimal {
                Some(x) => 1 + x.len() as int,
                None => 0,
            };
            let sign: int = if exponent_negative || show_plus {
                1
            } else {
                0
            };
            &&& neg == seq!['-'] + pos
            &&& neg[0] == '-'
            &&& pos.len() == i + d + 1 + sign + exponent.len()
            &&& pos.take(i) == integer
            &&& (decimal matches Some(x) ==> pos.subrange(i, i + d) == seq![separator] + x)
            &&& pos[i + d] == (if upper {
                'E'
            } else {
                'e'
            })
            &&& (exponent_negative ==> pos[i + d + 1] == '-')
            &&& (!exponent_negative && show_plus ==> pos[i + d + 1] == '+')
            &&& pos.skip(i + d + 1 + sign) == exponent
        }),
{
    let pos = scientific_text(
        false,
        integer,
        decimal,
        separator,
        upper,
        exponent_negative,
        show_plus,
        exponent,
    );
    let neg = scientific_text(
        true,
        integer,
        decimal,
        separator,
        upper,
        exponent_negative,
        show_plus,
        exponent,
    );
    let dec = match decimal {
        Some(x) => seq![separator] + x,
        None => Seq::<char>::empty(),
    };
    let mark = seq![
        if upper {
            'E'
        } else {
            'e'
        },
    ];
    let esign = if exponent_negative {
        seq!['-']
    } else if show_plus {
        seq!['+']
    } else {
        Seq::<char>::empty()
    };
    assert(pos =~= integer + dec + mark + esign + exponent);
    assert(neg =~= seq!['-'] + pos);
    let i = integer.len() as int;
    let d = dec.len() as int;
    assert(pos.take(i) =~= integer);
    assert(pos.subrange(i, i + d) =~= dec);
    assert(pos[i + d] == mark[0]);
    assert(pos.skip(i + d + 1 + esign.len()) =~= exponent);
    if esign.len() > 0 {
        assert(pos[i + d + 1] == esign[0]);
    }
}

/// Assembles a number in scientific notation from its rendered groups.
pub fn assemble_scientific(
    negative: bool,
    integer: &str,
    decimal: Option<&str>,
    separator: char,
    upper: bool,
    exponent_negative: bool,
    show_plus: bool,
    exponent: &str,
) -> (r: String)
    ensures
        r@ == scientific_text(
            negative,
            integer@,
            match decimal {
                Some(d) => Some(d@),
                None => None,
            },
            separator,
            upper,
            exponent_negative,
            show_plus,
            exponent@,
        ),
        negative ==> r@.len() > 0 && r@[0] == '-',
        r@.skip(if negative {
            1int
        } else {
            0int
        }).take(integer@.len() as int) == integer@,
{
    proof {
        law_scientific_sign_and_layout(
            integer@,
            match decimal {
                Some(d) => Some(d@),
                None => None,
            },
            separator,
            upper,
            exponent_negative,
            show_plus,
            exponent@,
        );
    }
    let mut result = String::new();
    if negative {
        string_push(&mut result, '-');
    }
    string_push_str(&mut result, integer);
    if let Some(d) = decimal {
        string_push(&mut result, separator);
        string_push_str(&mut result, d);
    }
    string_push(&mut result, if upper {
        'E'
    } else {
        'e'
    });
    if exponent_negative {
        string_push(&mut result, '-');
    } else if show_plus {
        string_push(&mut result, '+');
    }
    string_push_str(&mut result, exponent);
    assert(result@ =~= scientific_text(
        negative,
        integer@,
        match decimal {
            Some(d) => Some(d@),
            None => None,
        },
        separator,
        upper,
        exponent_negative,
        show_plus,
        exponent@,
    ));
    result
}

} // verus!
