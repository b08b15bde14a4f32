//! Post-processing of a parsed section: tagging fractions and subseconds.
use vstd::prelude::*;

use crate::ast::{
    parts_view, DatePart, DigitPlaceholder, FormatPart, FormatPartOf, FractionPart, PartView,
};
use crate::chars::{is_space, is_space_char};

verus! {

/// Literal text made only of white space.
pub open spec fn is_literal_space(p: PartView) -> bool {
    match p {
        FormatPartOf::Literal(t) => t.len() > 0 && forall|i: int| 0 <= i < t.len() ==> is_space(#[trigger] t[i]),
        FormatPartOf::EscapedLiteral(t) => t.len() > 0 && forall|i: int| 0 <= i < t.len() ==> is_space(#[trigger] t[i]),
        _ => false,
    }
}

/// Parts that may sit between the digits, slash and denominator of a fraction.
pub open spec fn is_anchor(p: PartView) -> bool {
    p is Fill || p is Skip || is_literal_space(p)
}

pub open spec fn is_digit(p: PartView) -> bool {
    p is Digit
}

/// A literal `/`.
pub open spec fn is_slash(p: PartView) -> bool {
    match p {
        FormatPartOf::Literal(t) => t == seq!['/'],
        FormatPartOf::EscapedLiteral(t) => t == seq!['/'],
        _ => false,
    }
}

/// The digit of a fixed denominator: a one-character literal digit or a `0` placeholder.
pub open spec fn fixed_digit(p: PartView) -> Option<u8> {
    match p {
        FormatPartOf::Literal(t) => if t.len() == 1 && '0' <= t[0] <= '9' {
            Some(((t[0] as u32) - ('0' as u32)) as u8)
        } else {
            None
        },
        FormatPartOf::EscapedLiteral(t) => if t.len() == 1 && '0' <= t[0] <= '9' {
            Some(((t[0] as u32) - ('0' as u32)) as u8)
        } else {
            None
        },
        FormatPartOf::Digit(DigitPlaceholder::Zero) => Some(0),
        _ => None,
    }
}

/// First index at or after `from` whose part is not an anchor.
pub open spec fn first_non_anchor(ps: Seq<PartView>, from: int) -> Option<int>
    decreases ps.len() - from,
{
    if from < 0 || from >= ps.len() {
        None
    } else if is_anchor(ps[from]) {
        first_non_anchor(ps, from + 1)
    } else {
        Some(from)
    }
}

/// End of a variable denominator that starts at `from`: the first part that
/// is neither a digit placeholder nor an anchor.
pub open spec fn variable_end(ps: Seq<PartView>, from: int) -> int
    decreases ps.len() - from,
{
    if from < 0 || from >= ps.len() {
        from
    } else if is_digit(ps[from]) || is_anchor(ps[from]) {
        variable_end(ps, from + 1)
    } else {
        from
    }
}

/// End of a fixed denominator that starts at `from`: the first part that is
/// neither a fixed digit nor an anchor.
pub open spec fn fixed_end(ps: Seq<PartView>, from: int) -> int
    decreases ps.len() - from,
{
    if from < 0 || from >= ps.len() {
        from
    } else if fixed_digit(ps[from]) is Some || is_anchor(ps[from]) {
        fixed_end(ps, from + 1)
    } else {
        from
    }
}

/// Value of the fixed digits in `ps[from..to]`, read left to right.
pub open spec fn fixed_value(ps: Seq<PartView>, from: int, to: int) -> nat
    decreases to - from,
{
    if to <= from {
        0
    } else {
        match fixed_digit(ps[to - 1]) {
            Some(d) => fixed_value(ps, from, to - 1) * 10 + d as nat,
            None => fixed_value(ps, from, to - 1),
        }
    }
}

/// Start of the run of digit placeholders and anchors that ends at `k`.
pub open spec fn run_start(ps: Seq<PartView>, k: int) -> int
    decreases k,
{
    if k <= 0 {
        0
    } else if is_digit(ps[k - 1]) || is_anchor(ps[k - 1]) {
        run_start(ps, k - 1)
    } else {
        k
    }
}

/// First digit placeholder in `ps[from..to]`, or `to`.
pub open spec fn first_digit(ps: Seq<PartView>, from: int, to: int) -> int
    decreases to - from,
{
    if from >= to {
        to
    } else if is_digit(ps[from]) {
        from
    } else {
        first_digit(ps, from + 1, to)
    }
}

/// Last digit placeholder in `ps[from..to]`, or `from - 1`.
pub open spec fn last_digit(ps: Seq<PartView>, from: int, to: int) -> int
    decreases to - from,
{
    if from >= to {
        from - 1
    } else if is_digit(ps[to - 1]) {
        to - 1
    } else {
        last_digit(ps, from, to - 1)
    }
}

/// First literal white space in `ps[from..to]`.
pub open spec fn first_space(ps: Seq<PartView>, from: int, to: int) -> Option<int>
    decreases to - from,
{
    if from >= to {
        None
    } else if is_literal_space(ps[from]) {
        Some(from)
    } else {
        first_space(ps, from + 1, to)
    }
}

/// A complete fraction pattern around one slash.
pub struct FractionMatch {
    /// Start of the digit run before the slash.
    pub lo: int,
    /// Index of the slash.
    pub slash: int,
    /// The space that separates the integer digits from the numerator digits.
    pub sep: Option<int>,
    /// First part of the denominator.
    pub den_start: int,
    /// End of the denominator.
    pub den_end: int,
    /// Whether the denominator is a fixed number.
    pub fixed: bool,
}

/// The fraction pattern around the part at `k`, if `k` is a slash with digit
/// placeholders before it and a denominator after it.
pub open spec fn fraction_at(ps: Seq<PartView>, k: int) -> Option<FractionMatch> {
    if !(0 <= k < ps.len() && is_slash(ps[k])) {
        None
    } else {
        match first_non_anchor(ps, k + 1) {
            None => None,
            Some(ds) => {
                let den: Option<(int, bool)> = if is_digit(ps[ds]) {
                    Some((variable_end(ps, ds), false))
                } else if fixed_digit(ps[ds]) is Some {
                    if fixed_value(ps, ds, fixed_end(ps, ds)) <= u32::MAX {
                        Some((fixed_end(ps, ds), true))
                    } else {
                        None
                    }
                } else {
                    None
                };
                let lo = run_start(ps, k);
                match den {
                    None => None,
                    Some((e, fixed)) => if first_digit(ps, lo, k) < k {
                        Some(
                            FractionMatch {
                                lo,
                                slash: k,
                                sep: first_space(
                                    ps,
                                    first_digit(ps, lo, k),
                                    last_digit(ps, lo, k),
                                ),
                                den_start: ds,
                                den_end: e,
                                fixed,
                            },
                        )
                    } else {
                        None
                    },
                }
            },
        }
    }
}

/// The first fraction pattern whose slash is at or after `from`.
pub open spec fn first_fraction(ps: Seq<PartView>, from: int) -> Option<FractionMatch>
    decreases ps.len() - from,
{
    if from < 0 || from >= ps.len() {
        None
    } else {
        match fraction_at(ps, from) {
            Some(m) => Some(m),
            None => first_fraction(ps, from + 1),
        }
    }
}

/// The part at `j` after tagging the fraction `m`.
pub open spec fn tag_fraction_part(p: PartView, j: int, m: FractionMatch) -> PartView {
    if m.lo <= j < m.slash && p is Digit {
        let d = p->Digit_0;
        match m.sep {
            Some(s) => if j < s {
                FormatPartOf::Fraction(FractionPart::IntegerDigit(d))
            } else {
                FormatPartOf::Fraction(FractionPart::NumeratorDigit(d))
            },
            None => FormatPartOf::Fraction(FractionPart::NumeratorDigit(d)),
        }
    } else if j == m.slash {
        FormatPartOf::Fraction(FractionPart::Slash)
    } else if m.den_start <= j < m.den_end && !m.fixed && p is Digit {
        FormatPartOf::Fraction(FractionPart::DenominatorDigit(p->Digit_0))
    } else if m.den_start <= j < m.den_end && m.fixed && fixed_digit(p) is Some {
        FormatPartOf::Fraction(FractionPart::FixedDenominatorDigit(fixed_digit(p)->0))
    } else {
        p
    }
}

/// Tags the first complete fraction pattern of `ps`, if there is one.
pub open spec fn detect_fractions(ps: Seq<PartView>) -> Seq<PartView> {
    match first_fraction(ps, 0) {
        None => ps,
        Some(m) => Seq::new(ps.len(), |j: int| tag_fraction_part(ps[j], j, m)),
    }
}

/// Index after the run of `0` placeholders that starts at `from`.
pub open spec fn zero_run_end(ps: Seq<PartView>, from: int) -> int
    decreases ps.len() - from,
{
    if 0 <= from < ps.len() && ps[from] == FormatPartOf::<Seq<char>>::Digit(DigitPlaceholder::Zero) {
        zero_run_end(ps, from + 1)
    } else {
        from
    }
}

pub proof fn lemma_zero_run_end_bounds(ps: Seq<PartView>, from: int)
    requires
        0 <= from <= ps.len(),
    ensures
        from <= zero_run_end(ps, from) <= ps.len(),
    decreases ps.len() - from,
{
    if from < ps.len() && ps[from] == FormatPartOf::<Seq<char>>::Digit(DigitPlaceholder::Zero) {
        lemma_zero_run_end_bounds(ps, from + 1);
    }
}

pub open spec fn has_date(s: Seq<PartView>) -> bool {
    exists|j: int| 0 <= j < s.len() && (#[trigger] s[j]).is_date()
}

/// Rewrites `ps[i..]` onto `acc`: a decimal point followed by `0` placeholders
/// after a date or time part becomes a literal `.` and a subsecond field.
pub open spec fn subseconds_from(ps: Seq<PartView>, i: int, acc: Seq<PartView>) -> Seq<PartView>
    decreases ps.len() - i,
{
    if i < 0 || i >= ps.len() {
        acc
    } else if ps[i] is DecimalPoint && zero_run_end(ps, i + 1) > i + 1 && has_date(acc) {
        proof {
            lemma_zero_run_end_bounds(ps, i + 1);
        }
        let z = zero_run_end(ps, i + 1) - (i + 1);
        subseconds_from(
            ps,
            zero_run_end(ps, i + 1),
            acc.push(FormatPartOf::Literal(seq!['.'])).push(
                FormatPartOf::DatePart(DatePart::SubSecond((z % 256) as u8)),
            ),
        )
    } else {
        subseconds_from(ps, i + 1, acc.push(ps[i]))
    }
}

pub open spec fn detect_subseconds(ps: Seq<PartView>) -> Seq<PartView> {
    subseconds_from(ps, 0, Seq::empty())
}

fn is_all_space(t: &String) -> (r: bool)
    ensures
        r == (t@.len() > 0 && forall|i: int| 0 <= i < t@.len() ==> is_space(#[trigger] t@[i])),
{
    let v = crate::chars::chars_of(t.as_str());
    if v.len() == 0 {
        return false;
    }
    let mut i: usize = 0;
    while i < v.len()
        invariant
            i <= v.len(),
            v@ == t@,
            forall|k: int| 0 <= k < i ==> is_space(#[trigger] v@[k]),
        decreases v.len() - i,
    {
        if !is_space_char(v[i]) {
            return false;
        }
        i = i + 1;
    }
    true
}

pub fn literal_space(p: &FormatPart) -> (r: bool)
    ensures
        r == is_literal_space(p@),
{
    match p {
        FormatPartOf::Literal(t) => is_all_space(t),
        FormatPartOf::EscapedLiteral(t) => is_all_space(t),
        _ => false,
    }
}

pub fn anchor(p: &FormatPart) -> (r: bool)
    ensures
        r == is_anchor(p@),
{
    matches!(p, FormatPartOf::Fill(_) | FormatPartOf::Skip(_)) || literal_space(p)
}

fn is_slash_text(t: &String) -> (r: bool)
    ensures
        r == (t@ == seq!['/']),
{
    let v = crate::chars::chars_of(t.as_str());
    let r = v.len() == 1 && v[0] == '/';
    proof {
        if r {
            assert(v@ =~= seq!['/']);
        }
    }
    r
}

fn slash_part(p: &FormatPart) -> (r: bool)
    ensures
        r == is_slash(p@),
{
    match p {
        FormatPartOf::Literal(t) => is_slash_text(t),
        FormatPartOf::EscapedLiteral(t) => is_slash_text(t),
        _ => false,
    }
}

fn fixed_digit_text(t: &String) -> (r: Option<u8>)
    ensures
        r == (if t@.len() == 1 && '0' <= t@[0] <= '9' {
            Some(((t@[0] as u32) - ('0' as u32)) as u8)
        } else {
            None::<u8>
        }),
{
    let v = crate::chars::chars_of(t.as_str());
    if v.len() == 1 && '0' <= v[0] && v[0] <= '9' {
        Some(((v[0] as u32) - ('0' as u32)) as u8)
    } else {
        None
    }
}

pub fn fixed_denominator_digit(p: &FormatPart) -> (r: Option<u8>)
    ensures
        r == fixed_digit(p@),
{
    match p {
        FormatPartOf::Literal(t) => fixed_digit_text(t),
        FormatPartOf::EscapedLiteral(t) => fixed_digit_text(t),
        FormatPartOf::Digit(DigitPlaceholder::Zero) => Some(0),
        _ => None,
    }
}

pub proof fn lemma_fixed_value_monotone(ps: Seq<PartView>, from: int, mid: int, to: int)
    requires
        from <= mid <= to,
    ensures
        fixed_value(ps, from, mid) <= fixed_value(ps, from, to),
    decreases to - mid,
{
    if mid < to {
        lemma_fixed_value_monotone(ps, from, mid, to - 1);
    }
}

pub open spec fn opt_int(o: Option<usize>) -> Option<int> {
    match o {
        Some(s) => Some(s as int),
        None => None,
    }
}

/// The fraction pattern around index `k` of `ps`.
#[verifier::loop_isolation(false)]
fn fraction_at_exec(ps: &Vec<FormatPart>, k: usize) -> (r: Option<(usize, Option<usize>, usize, usize, bool)>)
    requires
        k < ps.len(),
    ensures
        r is None ==> fraction_at(parts_view(ps@), k as int) is None,
        r matches Some((lo, sep, ds, de, fx)) ==> fraction_at(parts_view(ps@), k as int) == Some(
            FractionMatch {
                lo: lo as int,
                slash: k as int,
                sep: opt_int(sep),
                den_start: ds as int,
                den_end: de as int,
                fixed: fx,
            },
        ),
{
    let ghost pv = parts_view(ps@);
    if !slash_part(&ps[k]) {
        return None;
    }
    let mut ds = k + 1;
    while ds < ps.len() && anchor(&ps[ds])
        invariant
            k < ds <= ps.len(),
            pv == parts_view(ps@),
            first_non_anchor(pv, k + 1) == first_non_anchor(pv, ds as int),
        decreases ps.len() - ds,
    {
        ds = ds + 1;
    }
    if ds >= ps.len() {
        return None;
    }
    assert(first_non_anchor(pv, k + 1) == Some(ds as int));
    assert(is_slash(pv[k as int]));
    let mut e = ds;
    let fixed: bool;
    if matches!(ps[ds], FormatPartOf::Digit(_)) {
        while e < ps.len() && (matches!(ps[e], FormatPartOf::Digit(_)) || anchor(&ps[e]))
            invariant
                ds <= e <= ps.len(),
                pv == parts_view(ps@),
                variable_end(pv, ds as int) == variable_end(pv, e as int),
            decreases ps.len() - e,
        {
            e = e + 1;
        }
        fixed = false;
    } else if fixed_denominator_digit(&ps[ds]).is_some() {
        let mut value: u64 = 0;
        while e < ps.len()
            invariant
                ds <= e <= ps.len(),
                pv == parts_view(ps@),
                fixed_end(pv, ds as int) == fixed_end(pv, e as int),
                value == fixed_value(pv, ds as int, e as int),
                value <= u32::MAX,
                forall|j: int| ds <= j < e ==> fixed_digit(#[trigger] pv[j]) is Some || is_anchor(pv[j]),
            decreases ps.len() - e,
        {
            match fixed_denominator_digit(&ps[e]) {
                Some(d) => {
                    let next = value * 10 + d as u64;
                    if next > 0xFFFF_FFFF {
                        assert(fixed_value(pv, ds as int, e + 1) == value * 10 + d);
                        assert(!is_digit(pv[ds as int]));
                        assert(fixed_digit(pv[ds as int]) is Some);
                        proof {
                            lemma_fixed_end_ge(pv, ds as int, e as int);
                            lemma_fixed_value_monotone(pv, ds as int, e + 1, fixed_end(pv, ds as int));
                        }
                        return None;
                    }
                    value = next;
                },
                None => {
                    if !anchor(&ps[e]) {
                        break;
                    }
                },
            }
            e = e + 1;
        }
        fixed = true;
    } else {
        return None;
    }
    let mut lo = k;
    while lo > 0 && (matches!(ps[lo - 1], FormatPartOf::Digit(_)) || anchor(&ps[lo - 1]))
        invariant
            lo <= k < ps.len(),
            pv == parts_view(ps@),
            run_start(pv, k as int) == run_start(pv, lo as int),
        decreases lo,
    {
        lo = lo - 1;
    }
    let mut first = lo;
    while first < k && !matches!(ps[first], FormatPartOf::Digit(_))
        invariant
            lo <= first <= k < ps.len(),
            pv == parts_view(ps@),
            first_digit(pv, lo as int, k as int) == first_digit(pv, first as int, k as int),
        decreases k - first,
    {
        first = first + 1;
    }
    if first >= k {
        return None;
    }
    let mut last = k;
    while last > lo && !matches!(ps[last - 1], FormatPartOf::Digit(_))
        invariant
            lo <= last <= k < ps.len(),
            pv == parts_view(ps@),
            last_digit(pv, lo as int, k as int) == last_digit(pv, lo as int, last as int),
        decreases last,
    {
        last = last - 1;
    }
    let last_index = if last > lo { last - 1 } else { lo };
    proof {
        lemma_first_digit_bounds(pv, lo as int, k as int);
        lemma_last_digit_bounds(pv, lo as int, k as int);
    }
    let mut sp = first;
    while sp < last_index && !literal_space(&ps[sp])
        invariant
            first <= sp <= last_index,
            last_index < k < ps.len(),
            pv == parts_view(ps@),
            first_space(pv, first as int, last_index as int) == first_space(pv, sp as int, last_index as int),
        decreases last_index - sp,
    {
        sp = sp + 1;
    }
    let sep = if sp < last_index { Some(sp) } else { None };
    assert(first_space(pv, first as int, last_index as int) == opt_int(sep));
    Some((lo, sep, ds, e, fixed))
}

pub proof fn lemma_fixed_end_at_least(ps: Seq<PartView>, from: int)
    ensures
        fixed_end(ps, from) >= from,
    decreases ps.len() - from,
{
    if 0 <= from < ps.len() && (fixed_digit(ps[from]) is Some || is_anchor(ps[from])) {
        lemma_fixed_end_at_least(ps, from + 1);
    }
}

pub proof fn lemma_fixed_end_ge(ps: Seq<PartView>, from: int, mid: int)
    requires
        0 <= from <= mid,
        forall|j: int| from <= j < mid ==> fixed_digit(#[trigger] ps[j]) is Some || is_anchor(ps[j]),
        mid < ps.len(),
        fixed_digit(ps[mid]) is Some,
    ensures
        fixed_end(ps, from) > mid,
        fixed_end(ps, from) == fixed_end(ps, mid),
    decreases mid - from,
{
    lemma_fixed_end_at_least(ps, mid + 1);
    if from < mid {
        lemma_fixed_end_ge(ps, from + 1, mid);
    }
}

pub proof fn lemma_first_digit_bounds(ps: Seq<PartView>, from: int, to: int)
    requires
        from <= to,
    ensures
        from <= first_digit(ps, from, to) <= to,
        first_digit(ps, from, to) < to ==> is_digit(ps[first_digit(ps, from, to)]),
    decreases to - from,
{
    if from < to && !is_digit(ps[from]) {
        lemma_first_digit_bounds(ps, from + 1, to);
    }
}

pub proof fn lemma_last_digit_bounds(ps: Seq<PartView>, from: int, to: int)
    requires
        from <= to,
    ensures
        from - 1 <= last_digit(ps, from, to) < to,
        last_digit(ps, from, to) >= from ==> is_digit(ps[last_digit(ps, from, to)]),
        first_digit(ps, from, to) < to ==> last_digit(ps, from, to) >= first_digit(ps, from, to),
    decreases to - from,
{
    lemma_first_digit_bounds(ps, from, to);
    if from < to && !is_digit(ps[to - 1]) {
        lemma_last_digit_bounds(ps, from, to - 1);
        lemma_first_digit_to_shrink(ps, from, to);
    }
}

pub proof fn lemma_first_digit_to_shrink(ps: Seq<PartView>, from: int, to: int)
    requires
        from < to,
        !is_digit(ps[to - 1]),
    ensures
        first_digit(ps, from, to) < to ==> first_digit(ps, from, to) == first_digit(ps, from, to - 1),
    decreases to - from,
{
    reveal_with_fuel(first_digit, 2);
    if from < to - 1 && !is_digit(ps[from]) {
        lemma_first_digit_to_shrink(ps, from + 1, to);
    }
}

fn tag_part(p: &FormatPart, j: usize, lo: usize, slash: usize, sep: Option<usize>, ds: usize, de: usize, fixed: bool) -> (r: FormatPart)
    ensures
        r@ == tag_fraction_part(p@, j as int, FractionMatch {
            lo: lo as int,
            slash: slash as int,
            sep: opt_int(sep),
            den_start: ds as int,
            den_end: de as int,
            fixed,
        }),
{
    if lo <= j && j < slash {
        if let FormatPartOf::Digit(d) = p {
            return match sep {
                Some(s) => if j < s {
                    FormatPartOf::Fraction(FractionPart::IntegerDigit(*d))
                } else {
                    FormatPartOf::Fraction(FractionPart::NumeratorDigit(*d))
                },
                None => FormatPartOf::Fraction(FractionPart::NumeratorDigit(*d)),
            };
        }
    }
    if j == slash {
        return FormatPartOf::Fraction(FractionPart::Slash);
    }
    if ds <= j && j < de && !fixed {
        if let FormatPartOf::Digit(d) = p {
            return FormatPartOf::Fraction(FractionPart::DenominatorDigit(*d));
        }
    }
    if ds <= j && j < de && fixed {
        if let Some(d) = fixed_denominator_digit(p) {
            return FormatPartOf::Fraction(FractionPart::FixedDenominatorDigit(d));
        }
    }
    p.copy()
}

/// Tags the first complete fraction pattern of `ps`.
pub fn tag_fractions(ps: &Vec<FormatPart>) -> (r: Vec<FormatPart>)
    ensures
        parts_view(r@) == detect_fractions(parts_view(ps@)),
{
    let ghost pv = parts_view(ps@);
    let mut k: usize = 0;
    while k < ps.len()
        invariant
            k <= ps.len(),
            pv == parts_view(ps@),
            first_fraction(pv, 0) == first_fraction(pv, k as int),
        decreases ps.len() - k,
    {
        match fraction_at_exec(ps, k) {
            None => {},
            Some((lo, sep, ds, de, fixed)) => {
                let ghost m = fraction_at(pv, k as int)->0;
                let mut out: Vec<FormatPart> = Vec::new();
                let mut j: usize = 0;
                while j < ps.len()
                    invariant
                        j <= ps.len(),
                        pv == parts_view(ps@),
                        m == (FractionMatch {
                            lo: lo as int,
                            slash: k as int,
                            sep: opt_int(sep),
                            den_start: ds as int,
                            den_end: de as int,
                            fixed,
                        }),
                        out@.len() == j,
                        forall|i: int| 0 <= i < j ==> (#[trigger] out@[i])@ == tag_fraction_part(pv[i], i, m),
                    decreases ps.len() - j,
                {
                    out.push(tag_part(&ps[j], j, lo, k, sep, ds, de, fixed));
                    j = j + 1;
                }
                assert(parts_view(out@) =~= detect_fractions(pv));
                return out;
            },
        }
        k = k + 1;
    }
    let r = crate::ast::copy_parts(ps);
    r
}

/// Rewrites decimal points followed by `0` placeholders after date or time
/// parts into subsecond fields.
pub fn tag_subseconds(ps: &Vec<FormatPart>) -> (r: Vec<FormatPart>)
    ensures
        parts_view(r@) == detect_subseconds(parts_view(ps@)),
{
    let ghost pv = parts_view(ps@);
    let mut out: Vec<FormatPart> = Vec::new();
    assert(parts_view(out@) =~= Seq::<PartView>::empty());
    let mut seen_date = false;
    let mut i: usize = 0;
    while i < ps.len()
        invariant
            i <= ps.len(),
            pv == parts_view(ps@),
            seen_date == has_date(parts_view(out@)),
            detect_subseconds(pv) == subseconds_from(pv, i as int, parts_view(out@)),
        decreases ps.len() - i,
    {
        let ghost acc = parts_view(out@);
        if matches!(ps[i], FormatPartOf::DecimalPoint) {
            let mut j = i + 1;
            while j < ps.len() && matches!(ps[j], FormatPartOf::Digit(DigitPlaceholder::Zero))
                invariant
                    i < j <= ps.len(),
                    pv == parts_view(ps@),
                    zero_run_end(pv, i + 1) == zero_run_end(pv, j as int),
                decreases ps.len() - j,
            {
                j = j + 1;
            }
            if j > i + 1 && seen_date {
                let z = j - (i + 1);
                let dot = vec!['.'];
                assert(dot@ =~= seq!['.']);
                let lit = FormatPartOf::Literal(crate::chars::string_of(dot.as_slice()));
                let sub = FormatPartOf::DatePart(DatePart::SubSecond((z % 256) as u8));
                let ghost lv = lit@;
                let ghost sv = sub@;
                assert(lv == FormatPartOf::<Seq<char>>::Literal(seq!['.']));
                out.push(lit);
                out.push(sub);
                assert(parts_view(out@) =~= acc.push(lv).push(sv));
                assert(sv.is_date());
                assert(parts_view(out@)[parts_view(out@).len() - 1] == sv);
                i = j;
                continue;
            }
        }
        let c = ps[i].copy();
        let is_date = c.is_date_part();
        let ghost cv = c@;
        out.push(c);
        assert(parts_view(out@) =~= acc.push(cv));
        proof {
            let nv = parts_view(out@);
            if has_date(acc) {
                let w = choose|w: int| 0 <= w < acc.len() && (#[trigger] acc[w]).is_date();
                assert(nv[w] == acc[w]);
            }
            if has_date(nv) && !cv.is_date() {
                let w = choose|w: int| 0 <= w < nv.len() && (#[trigger] nv[w]).is_date();
                assert(acc[w] == nv[w]);
            }
            if cv.is_date() {
                assert(nv[nv.len() - 1] == cv);
            }
        }
        seen_date = seen_date || is_date;
        i = i + 1;
    }
    out
}

} // verus!
