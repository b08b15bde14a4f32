//! Normalized syntax of number format codes.
use vstd::prelude::*;

use crate::chars::{ascii_lower, ascii_lower_char, eq_ignore_ascii_case};

verus! {

/// How a digit position is shown when the value has no digit there.
#[derive(Debug, Clone, Copy, PartialEq, Eq, Structural)]
pub enum DigitPlaceholder {
    /// `0`: shows a zero.
    Zero,
    /// `#`: shows nothing.
    Hash,
    /// `?`: shows a space.
    Question,
}

impl DigitPlaceholder {
    /// Only `0` forces a digit to be shown.
    pub open spec fn required(self) -> bool {
        self == DigitPlaceholder::Zero
    }

    /// The character shown for a missing digit.
    pub open spec fn padding(self) -> Option<char> {
        match self {
            DigitPlaceholder::Zero => Some('0'),
            DigitPlaceholder::Hash => None,
            DigitPlaceholder::Question => Some(' '),
        }
    }

    pub fn is_required(&self) -> (r: bool)
        ensures
            r == self.required(),
    {
        matches!(self, DigitPlaceholder::Zero)
    }

    pub fn empty_char(&self) -> (r: Option<char>)
        ensures
            r == self.padding(),
    {
        match self {
            DigitPlaceholder::Zero => Some('0'),
            DigitPlaceholder::Hash => None,
            DigitPlaceholder::Question => Some(' '),
        }
    }
}

/// Date and time fields.
#[derive(Debug, Clone, Copy, PartialEq, Eq, Structural)]
pub enum DatePart {
    Year2,
    Year3,
    Year4,
    Month,
    Month2,
    MonthAbbr,
    MonthFull,
    MonthLetter,
    Day,
    Day2,
    DayAbbr,
    DayFull,
    Hour,
    Hour2,
    Minute,
    Minute2,
    Second,
    Second2,
    /// Fractional seconds with the given number of digits.
    SubSecond(u8),
    BuddhistYear2,
    BuddhistYear4,
    BuddhistYear2Alt,
    BuddhistYear4Alt,
}

/// Elapsed-time fields written in brackets (`[h]`, `[mm]`, ...).
#[derive(Debug, Clone, Copy, PartialEq, Eq, Structural)]
pub enum ElapsedPart {
    Hours,
    Hours2,
    Minutes,
    Minutes2,
    Seconds,
    Seconds2,
}

/// Spelling of an AM/PM marker.
#[derive(Debug, Clone, Copy, PartialEq, Eq, Structural)]
pub enum AmPmStyle {
    Upper,
    Lower,
    MalformedUpper,
    MalformedLower,
    ShortUpper,
    ShortLower,
}

/// The eight named colors of format codes.
#[derive(Debug, Clone, Copy, PartialEq, Eq, Structural)]
pub enum NamedColor {
    Black,
    Blue,
    Cyan,
    Green,
    Magenta,
    Red,
    White,
    Yellow,
}

/// A section's display color.
#[derive(Debug, Clone, Copy, PartialEq, Eq, Structural)]
pub enum Color {
    Named(NamedColor),
    /// `Color1` to `Color56`.
    Indexed(u8),
}

/// Fraction components, tagged during parsing.
#[derive(Debug, Clone, Copy, PartialEq, Eq, Structural)]
pub enum FractionPart {
    IntegerDigit(DigitPlaceholder),
    NumeratorDigit(DigitPlaceholder),
    Slash,
    DenominatorDigit(DigitPlaceholder),
    FixedDenominatorDigit(u8),
}

/// A `[$currency-lcid]` locale code; `T` is the text type.
#[derive(Debug, Clone, PartialEq)]
pub struct LocaleCodeOf<T> {
    pub currency: Option<T>,
    pub lcid: Option<u32>,
}

pub type LocaleCode = LocaleCodeOf<String>;

pub open spec fn opt_text_view(o: Option<String>) -> Option<Seq<char>> {
    match o {
        Some(s) => Some(s@),
        None => None,
    }
}

impl View for LocaleCodeOf<String> {
    type V = LocaleCodeOf<Seq<char>>;

    open spec fn view(&self) -> LocaleCodeOf<Seq<char>> {
        LocaleCodeOf { currency: opt_text_view(self.currency), lcid: self.lcid }
    }
}

pub fn copy_opt_text(o: &Option<String>) -> (r: Option<String>)
    ensures
        opt_text_view(r) == opt_text_view(*o),
{
    match o {
        Some(s) => Some(s.clone()),
        None => None,
    }
}

impl LocaleCodeOf<String> {
    pub fn copy(&self) -> (r: LocaleCode)
        ensures
            r@ == self@,
    {
        LocaleCodeOf { currency: copy_opt_text(&self.currency), lcid: self.lcid }
    }
}

/// The numeric literal of a condition, exactly as written in the format code.
/// It is always a literal that `f64::from_str` accepts.
#[derive(Debug, Clone, PartialEq)]
pub struct Threshold {
    text: String,
}

impl View for Threshold {
    type V = Seq<char>;

    closed spec fn view(&self) -> Seq<char> {
        self.text@
    }
}

/// Index of the first non-digit of `s` at or after `i`.
pub open spec fn digits_end(s: Seq<char>, i: int) -> int
    decreases s.len() - i,
{
    if 0 <= i < s.len() && '0' <= s[i] <= '9' {
        digits_end(s, i + 1)
    } else {
        i
    }
}

pub open spec fn is_sign(c: char) -> bool {
    c == '+' || c == '-'
}

/// `Digit+ | Digit+ '.' Digit* | Digit* '.' Digit+`, then an optional exponent.
pub open spec fn is_decimal_number(b: Seq<char>) -> bool {
    let i = digits_end(b, 0);
    let j = if i < b.len() && b[i] == '.' {
        digits_end(b, i + 1)
    } else {
        i
    };
    let digits = if i < b.len() && b[i] == '.' {
        i + (j - (i + 1))
    } else {
        i
    };
    digits > 0 && (j == b.len() || ((b[j] == 'e' || b[j] == 'E') && is_exponent(b, j + 1)))
}

/// `Sign? Digit+` up to the end of `b`, starting at `k`.
pub open spec fn is_exponent(b: Seq<char>, k: int) -> bool {
    let k2 = if k < b.len() && is_sign(b[k]) {
        k + 1
    } else {
        k
    };
    digits_end(b, k2) > k2 && digits_end(b, k2) == b.len()
}

/// The literals that `f64::from_str` accepts, as its documentation gives them.
pub open spec fn is_float_literal(s: Seq<char>) -> bool {
    let body = if s.len() > 0 && is_sign(s[0]) {
        s.drop_first()
    } else {
        s
    };
    eq_ignore_ascii_case(body, seq!['i', 'n', 'f']) || eq_ignore_ascii_case(
        body,
        seq!['i', 'n', 'f', 'i', 'n', 'i', 't', 'y'],
    ) || eq_ignore_ascii_case(body, seq!['n', 'a', 'n']) || is_decimal_number(body)
}

pub proof fn lemma_digits_end_bounds(s: Seq<char>, i: int)
    requires
        0 <= i <= s.len(),
    ensures
        i <= digits_end(s, i) <= s.len(),
        forall|k: int| i <= k < digits_end(s, i) ==> '0' <= #[trigger] s[k] <= '9',
        digits_end(s, i) < s.len() ==> !('0' <= s[digits_end(s, i)] <= '9'),
    decreases s.len() - i,
{
    if i < s.len() && '0' <= s[i] <= '9' {
        lemma_digits_end_bounds(s, i + 1);
    }
}

fn digits_end_exec(s: &Vec<char>, i: usize) -> (r: usize)
    requires
        i <= s.len(),
    ensures
        r == digits_end(s@, i as int),
{
    let mut k = i;
    while k < s.len() && '0' <= s[k] && s[k] <= '9'
        invariant
            i <= k <= s.len(),
            digits_end(s@, i as int) == digits_end(s@, k as int),
        decreases s.len() - k,
    {
        k = k + 1;
    }
    k
}

fn eq_ignore_case_exec(a: &Vec<char>, from: usize, b: &Vec<char>) -> (r: bool)
    requires
        from <= a.len(),
    ensures
        r == eq_ignore_ascii_case(a@.subrange(from as int, a.len() as int), b@),
{
    if a.len() - from != b.len() {
        return false;
    }
    let mut i: usize = 0;
    while i < b.len()
        invariant
            a.len() - from == b.len(),
            i <= b.len(),
            forall|j: int| 0 <= j < i ==> ascii_lower(#[trigger] a@[from + j]) == ascii_lower(b@[j]),
        decreases b.len() - i,
    {
        if ascii_lower_char(a[from + i]) != ascii_lower_char(b[i]) {
            assert(a@.subrange(from as int, a.len() as int)[i as int] == a@[from + i]);
            return false;
        }
        i = i + 1;
    }
    let ghost sub = a@.subrange(from as int, a.len() as int);
    assert forall|j: int| 0 <= j < sub.len() implies ascii_lower(#[trigger] sub[j]) == ascii_lower(
        b@[j],
    ) by {
        assert(sub[j] == a@[from + j]);
    }
    true
}

/// Whether `s` is a literal that `f64::from_str` accepts.
pub fn check_float_literal(s: &Vec<char>) -> (r: bool)
    ensures
        r == is_float_literal(s@),
{
    let start: usize = if s.len() > 0 && (s[0] == '+' || s[0] == '-') {
        1
    } else {
        0
    };
    let ghost body = if s@.len() > 0 && is_sign(s@[0]) {
        s@.drop_first()
    } else {
        s@
    };
    assert(body =~= s@.subrange(start as int, s.len() as int));
    let inf = vec!['i', 'n', 'f'];
    let infinity = vec!['i', 'n', 'f', 'i', 'n', 'i', 't', 'y'];
    let nan = vec!['n', 'a', 'n'];
    assert(inf@ =~= seq!['i', 'n', 'f']);
    assert(infinity@ =~= seq!['i', 'n', 'f', 'i', 'n', 'i', 't', 'y']);
    assert(nan@ =~= seq!['n', 'a', 'n']);
    if eq_ignore_case_exec(s, start, &inf) || eq_ignore_case_exec(s, start, &infinity)
        || eq_ignore_case_exec(s, start, &nan) {
        return true;
    }
    let b = crate::chars::slice_chars(s, start, s.len());
    assert(b@ =~= body);
    let i = digits_end_exec(&b, 0);
    proof {
        lemma_digits_end_bounds(b@, 0);
    }
    let has_point = i < b.len() && b[i] == '.';
    let j = if has_point {
        proof {
            lemma_digits_end_bounds(b@, i + 1);
        }
        digits_end_exec(&b, i + 1)
    } else {
        i
    };
    let digits = if has_point {
        i + (j - (i + 1))
    } else {
        i
    };
    if digits == 0 {
        return false;
    }
    if j == b.len() {
        return true;
    }
    if !(b[j] == 'e' || b[j] == 'E') {
        return false;
    }
    let k = j + 1;
    let k2 = if k < b.len() && (b[k] == '+' || b[k] == '-') {
        k + 1
    } else {
        k
    };
    proof {
        lemma_digits_end_bounds(b@, k2 as int);
    }
    let e = digits_end_exec(&b, k2);
    e > k2 && e == b.len()
}

impl Threshold {
    /// A threshold for `text`, if `f64::from_str` accepts it.
    pub fn parse(text: &str) -> (r: Option<Threshold>)
        ensures
            r.is_some() == is_float_literal(text@),
            r matches Some(t) ==> t@ == text@,
    {
        let v = crate::chars::chars_of(text);
        if check_float_literal(&v) {
            Some(Threshold { text: crate::chars::string_of(v.as_slice()) })
        } else {
            None
        }
    }

    /// A threshold for the characters `v`, if `f64::from_str` accepts them.
    pub fn from_chars(v: &Vec<char>) -> (r: Option<Threshold>)
        ensures
            r.is_some() == is_float_literal(v@),
            r matches Some(t) ==> t@ == v@,
    {
        if check_float_literal(v) {
            Some(Threshold { text: crate::chars::string_of(v.as_slice()) })
        } else {
            None
        }
    }

    /// The literal as written.
    pub fn text(&self) -> (r: &str)
        ensures
            r@ == self@,
    {
        self.text.as_str()
    }

    pub fn copy(&self) -> (r: Threshold)
        ensures
            r@ == self@,
    {
        Threshold { text: self.text.clone() }
    }
}

/// A section condition such as `[>100]`; `T` is the threshold type.
#[derive(Debug, Clone, PartialEq)]
pub enum ConditionOf<T> {
    GreaterThan(T),
    LessThan(T),
    GreaterOrEqual(T),
    LessOrEqual(T),
    Equal(T),
    NotEqual(T),
}

pub type Condition = ConditionOf<Threshold>;

pub type ConditionView = ConditionOf<Seq<char>>;

impl View for ConditionOf<Threshold> {
    type V = ConditionView;

    open spec fn view(&self) -> ConditionView {
        match self {
            ConditionOf::GreaterThan(t) => ConditionOf::GreaterThan(t@),
            ConditionOf::LessThan(t) => ConditionOf::LessThan(t@),
            ConditionOf::GreaterOrEqual(t) => ConditionOf::GreaterOrEqual(t@),
            ConditionOf::LessOrEqual(t) => ConditionOf::LessOrEqual(t@),
            ConditionOf::Equal(t) => ConditionOf::Equal(t@),
            ConditionOf::NotEqual(t) => ConditionOf::NotEqual(t@),
        }
    }
}

impl ConditionOf<Threshold> {
    pub fn copy(&self) -> (r: Condition)
        ensures
            r@ == self@,
    {
        match self {
            ConditionOf::GreaterThan(t) => ConditionOf::GreaterThan(t.copy()),
            ConditionOf::LessThan(t) => ConditionOf::LessThan(t.copy()),
            ConditionOf::GreaterOrEqual(t) => ConditionOf::GreaterOrEqual(t.copy()),
            ConditionOf::LessOrEqual(t) => ConditionOf::LessOrEqual(t.copy()),
            ConditionOf::Equal(t) => ConditionOf::Equal(t.copy()),
            ConditionOf::NotEqual(t) => ConditionOf::NotEqual(t.copy()),
        }
    }

    /// The threshold of any comparison.
    pub fn threshold(&self) -> (r: &Threshold)
        ensures
            r@ == threshold_of(self@),
    {
        match self {
            ConditionOf::GreaterThan(t) => t,
            ConditionOf::LessThan(t) => t,
            ConditionOf::GreaterOrEqual(t) => t,
            ConditionOf::LessOrEqual(t) => t,
            ConditionOf::Equal(t) => t,
            ConditionOf::NotEqual(t) => t,
        }
    }
}

/// The threshold text of a condition.
pub open spec fn threshold_of(c: ConditionView) -> Seq<char> {
    match c {
        ConditionOf::GreaterThan(t) => t,
        ConditionOf::LessThan(t) => t,
        ConditionOf::GreaterOrEqual(t) => t,
        ConditionOf::LessOrEqual(t) => t,
        ConditionOf::Equal(t) => t,
        ConditionOf::NotEqual(t) => t,
    }
}

pub open spec fn opt_condition_view(o: Option<Condition>) -> Option<ConditionView> {
    match o {
        Some(c) => Some(c@),
        None => None,
    }
}

pub fn copy_opt_condition(o: &Option<Condition>) -> (r: Option<Condition>)
    ensures
        opt_condition_view(r) == opt_condition_view(*o),
{
    match o {
        Some(c) => Some(c.copy()),
        None => None,
    }
}

/// One syntax element of a format section; `T` is the text type.
#[derive(Debug, Clone, PartialEq)]
pub enum FormatPartOf<T> {
    Digit(DigitPlaceholder),
    DecimalPoint,
    ThousandsSeparator,
    Percent,
    Scientific { upper: bool, show_plus: bool },
    Fraction(FractionPart),
    DatePart(DatePart),
    Elapsed(ElapsedPart),
    AmPm(AmPmStyle),
    Literal(T),
    EscapedLiteral(T),
    Fill(char),
    Skip(char),
    TextPlaceholder,
    Locale(LocaleCodeOf<T>),
    GeneralNumber,
}

pub type FormatPart = FormatPartOf<String>;

/// The mathematical model of a format part: text as character sequences.
pub type PartView = FormatPartOf<Seq<char>>;

impl View for FormatPartOf<String> {
    type V = PartView;

    open spec fn view(&self) -> PartView {
        match self {
            FormatPartOf::Digit(d) => FormatPartOf::Digit(*d),
            FormatPartOf::DecimalPoint => FormatPartOf::DecimalPoint,
            FormatPartOf::ThousandsSeparator => FormatPartOf::ThousandsSeparator,
            FormatPartOf::Percent => FormatPartOf::Percent,
            FormatPartOf::Scientific { upper, show_plus } => FormatPartOf::Scientific {
                upper: *upper,
                show_plus: *show_plus,
            },
            FormatPartOf::Fraction(f) => FormatPartOf::Fraction(*f),
            FormatPartOf::DatePart(d) => FormatPartOf::DatePart(*d),
            FormatPartOf::Elapsed(e) => FormatPartOf::Elapsed(*e),
            FormatPartOf::AmPm(a) => FormatPartOf::AmPm(*a),
            FormatPartOf::Literal(s) => FormatPartOf::Literal(s@),
            FormatPartOf::EscapedLiteral(s) => FormatPartOf::EscapedLiteral(s@),
            FormatPartOf::Fill(c) => FormatPartOf::Fill(*c),
            FormatPartOf::Skip(c) => FormatPartOf::Skip(*c),
            FormatPartOf::TextPlaceholder => FormatPartOf::TextPlaceholder,
            FormatPartOf::Locale(l) => FormatPartOf::Locale(l@),
            FormatPartOf::GeneralNumber => FormatPartOf::GeneralNumber,
        }
    }
}

impl FormatPartOf<Seq<char>> {
    /// Date, time, AM/PM and elapsed-time parts.
    pub open spec fn is_date(self) -> bool {
        self matches FormatPartOf::DatePart(_) || self matches FormatPartOf::AmPm(_)
            || self matches FormatPartOf::Elapsed(_)
    }

    /// Parts that place digits of a number.
    pub open spec fn is_numeric(self) -> bool {
        self matches FormatPartOf::Digit(_) || self matches FormatPartOf::DecimalPoint
            || self matches FormatPartOf::ThousandsSeparator || self matches FormatPartOf::Scientific {
            ..
        } || self matches FormatPartOf::Fraction(_)
    }

    pub open spec fn is_fill(self) -> bool {
        self matches FormatPartOf::Fill(_)
    }
}

impl FormatPartOf<String> {
    pub fn copy(&self) -> (r: FormatPart)
        ensures
            r@ == self@,
    {
        match self {
            FormatPartOf::Digit(d) => FormatPartOf::Digit(*d),
            FormatPartOf::DecimalPoint => FormatPartOf::DecimalPoint,
            FormatPartOf::ThousandsSeparator => FormatPartOf::ThousandsSeparator,
            FormatPartOf::Percent => FormatPartOf::Percent,
            FormatPartOf::Scientific { upper, show_plus } => FormatPartOf::Scientific {
                upper: *upper,
                show_plus: *show_plus,
            },
            FormatPartOf::Fraction(f) => FormatPartOf::Fraction(*f),
            FormatPartOf::DatePart(d) => FormatPartOf::DatePart(*d),
            FormatPartOf::Elapsed(e) => FormatPartOf::Elapsed(*e),
            FormatPartOf::AmPm(a) => FormatPartOf::AmPm(*a),
            FormatPartOf::Literal(s) => FormatPartOf::Literal(s.clone()),
            FormatPartOf::EscapedLiteral(s) => FormatPartOf::EscapedLiteral(s.clone()),
            FormatPartOf::Fill(c) => FormatPartOf::Fill(*c),
            FormatPartOf::Skip(c) => FormatPartOf::Skip(*c),
            FormatPartOf::TextPlaceholder => FormatPartOf::TextPlaceholder,
            FormatPartOf::Locale(l) => FormatPartOf::Locale(l.copy()),
            FormatPartOf::GeneralNumber => FormatPartOf::GeneralNumber,
        }
    }

    /// Whether this is a date, time, AM/PM or elapsed-time part.
    pub fn is_date_part(&self) -> (r: bool)
        ensures
            r == self@.is_date(),
    {
        matches!(self, FormatPartOf::DatePart(_) | FormatPartOf::AmPm(_) | FormatPartOf::Elapsed(_))
    }

    /// Whether this part places digits of a number.
    pub fn is_numeric_part(&self) -> (r: bool)
        ensures
            r == self@.is_numeric(),
    {
        matches!(
            self,
            FormatPartOf::Digit(_) | FormatPartOf::DecimalPoint | FormatPartOf::ThousandsSeparator
                | FormatPartOf::Scientific { .. } | FormatPartOf::Fraction(_)
        )
    }

    pub fn is_fill(&self) -> (r: bool)
        ensures
            r == self@.is_fill(),
    {
        matches!(self, FormatPartOf::Fill(_))
    }
}

pub open spec fn parts_view(v: Seq<FormatPart>) -> Seq<PartView> {
    Seq::new(v.len(), |i: int| v[i]@)
}

/// A copy of a sequence of parts.
pub fn copy_parts(v: &Vec<FormatPart>) -> (r: Vec<FormatPart>)
    ensures
        parts_view(r@) == parts_view(v@),
{
    let mut r: Vec<FormatPart> = Vec::new();
    let mut i: usize = 0;
    while i < v.len()
        invariant
            i <= v.len(),
            r@.len() == i,
            forall|j: int| 0 <= j < i ==> (#[trigger] r@[j])@ == v@[j]@,
        decreases v.len() - i,
    {
        r.push(v[i].copy());
        i = i + 1;
    }
    assert(parts_view(r@) =~= parts_view(v@));
    r
}

/// `s` without its fill directives.
pub open spec fn without_fills(s: Seq<PartView>) -> Seq<PartView>
    decreases s.len(),
{
    if s.len() == 0 {
        s
    } else if s.last().is_fill() {
        without_fills(s.drop_last())
    } else {
        without_fills(s.drop_last()).push(s.last())
    }
}

/// Appends `p`; a fill replaces every earlier fill.
pub open spec fn add_part(acc: Seq<PartView>, p: PartView) -> Seq<PartView> {
    if p.is_fill() {
        without_fills(acc).push(p)
    } else {
        acc.push(p)
    }
}

/// Appends every part of `ps` in order with `add_part`.
pub open spec fn add_parts(acc: Seq<PartView>, ps: Seq<PartView>) -> Seq<PartView>
    decreases ps.len(),
{
    if ps.len() == 0 {
        acc
    } else {
        add_part(add_parts(acc, ps.drop_last()), ps.last())
    }
}

/// Number of fill directives in `s`.
pub open spec fn fill_count(s: Seq<PartView>) -> nat
    decreases s.len(),
{
    if s.len() == 0 {
        0
    } else {
        fill_count(s.drop_last()) + if s.last().is_fill() {
            1nat
        } else {
            0nat
        }
    }
}

pub proof fn lemma_without_fills(s: Seq<PartView>)
    ensures
        fill_count(without_fills(s)) == 0,
    decreases s.len(),
{
    if s.len() > 0 {
        lemma_without_fills(s.drop_last());
        let r = without_fills(s.drop_last());
        if !s.last().is_fill() {
            assert(r.push(s.last()).drop_last() =~= r);
        }
    }
}

/// Adding a part keeps at most one fill in a section.
pub proof fn lemma_add_part_fills(acc: Seq<PartView>, p: PartView)
    requires
        fill_count(acc) <= 1,
    ensures
        fill_count(add_part(acc, p)) <= 1,
        p.is_fill() ==> fill_count(add_part(acc, p)) == 1,
{
    let r = add_part(acc, p);
    assert(r.drop_last() =~= if p.is_fill() {
        without_fills(acc)
    } else {
        acc
    });
    lemma_without_fills(acc);
}

/// Appends `p` to `acc`, replacing any earlier fill when `p` is a fill.
pub fn push_part(acc: &mut Vec<FormatPart>, p: FormatPart)
    requires
        fill_count(parts_view(old(acc)@)) <= 1,
    ensures
        parts_view(final(acc)@) == add_part(parts_view(old(acc)@), p@),
        fill_count(parts_view(final(acc)@)) <= 1,
{
    proof {
        lemma_add_part_fills(parts_view(acc@), p@);
    }
    if p.is_fill() {
        let mut kept: Vec<FormatPart> = Vec::new();
        let mut i: usize = 0;
        while i < acc.len()
            invariant
                i <= acc.len(),
                acc@ == old(acc)@,
                parts_view(kept@) == without_fills(parts_view(acc@).subrange(0, i as int)),
            decreases acc.len() - i,
        {
            proof {
                let pv = parts_view(acc@);
                assert(pv.subrange(0, i + 1).drop_last() =~= pv.subrange(0, i as int));
                assert(pv.subrange(0, i + 1).last() == acc@[i as int]@);
            }
            if !acc[i].is_fill() {
                let c = acc[i].copy();
                kept.push(c);
                assert(parts_view(kept@) =~= without_fills(parts_view(acc@).subrange(0, i as int)).push(
                    c@,
                ));
            }
            i = i + 1;
        }
        assert(parts_view(acc@).subrange(0, acc.len() as int) =~= parts_view(acc@));
        kept.push(p);
        assert(parts_view(kept@) =~= add_part(parts_view(old(acc)@), p@));
        *acc = kept;
    } else {
        let ghost pv = p@;
        acc.push(p);
        assert(parts_view(acc@) =~= parts_view(old(acc)@).push(pv));
    }
}

/// One `;`-separated section of a format code.
#[derive(Debug, PartialEq)]
pub struct Section {
    condition: Option<Condition>,
    color: Option<Color>,
    parts: Vec<FormatPart>,
}

/// The mathematical model of a section.
pub struct SectionView {
    pub condition: Option<ConditionView>,
    pub color: Option<Color>,
    pub parts: Seq<PartView>,
}

impl View for Section {
    type V = SectionView;

    closed spec fn view(&self) -> SectionView {
        SectionView {
            condition: opt_condition_view(self.condition),
            color: self.color,
            parts: parts_view(self.parts@),
        }
    }
}

impl Section {
    /// A section holds at most one fill directive.
    #[verifier::type_invariant]
    pub closed spec fn inv(self) -> bool {
        fill_count(parts_view(self.parts@)) <= 1
    }

    /// A section of `parts` in order, where a fill replaces every earlier fill.
    pub fn new(condition: Option<Condition>, color: Option<Color>, parts: Vec<FormatPart>) -> (r:
        Section)
        ensures
            r@.condition == opt_condition_view(condition),
            r@.color == color,
            r@.parts == add_parts(Seq::empty(), parts_view(parts@)),
    {
        let mut acc: Vec<FormatPart> = Vec::new();
        let mut i: usize = 0;
        while i < parts.len()
            invariant
                i <= parts.len(),
                fill_count(parts_view(acc@)) <= 1,
                parts_view(acc@) == add_parts(
                    Seq::empty(),
                    parts_view(parts@).subrange(0, i as int),
                ),
            decreases parts.len() - i,
        {
            proof {
                let pv = parts_view(parts@);
                assert(pv.subrange(0, i + 1).drop_last() =~= pv.subrange(0, i as int));
            }
            push_part(&mut acc, parts[i].copy());
            i = i + 1;
        }
        assert(parts_view(parts@).subrange(0, parts.len() as int) =~= parts_view(parts@));
        Section { condition, color, parts: acc }
    }

    /// Builds a section from parts that already hold at most one fill.
    pub fn from_normalized(condition: Option<Condition>, color: Option<Color>, parts: Vec<FormatPart>) -> (r: Section)
        requires
            fill_count(parts_view(parts@)) <= 1,
        ensures
            r@.condition == opt_condition_view(condition),
            r@.color == color,
            r@.parts == parts_view(parts@),
    {
        Section { condition, color, parts }
    }

    pub fn copy(&self) -> (r: Section)
        ensures
            r@ == self@,
    {
        proof {
            use_type_invariant(self);
        }
        Section {
            condition: copy_opt_condition(&self.condition),
            color: self.color,
            parts: copy_parts(&self.parts),
        }
    }

    /// The section's condition.
    pub fn condition(&self) -> (r: Option<Condition>)
        ensures
            opt_condition_view(r) == self@.condition,
    {
        copy_opt_condition(&self.condition)
    }

    /// The section's condition, by reference.
    pub fn condition_ref(&self) -> (r: &Option<Condition>)
        ensures
            opt_condition_view(*r) == self@.condition,
    {
        &self.condition
    }

    /// The section's color.
    pub fn color(&self) -> (r: Option<Color>)
        ensures
            r == self@.color,
    {
        self.color
    }

    /// The section's parts in source order.
    pub fn parts(&self) -> (r: &Vec<FormatPart>)
        ensures
            parts_view(r@) == self@.parts,
            fill_count(self@.parts) <= 1,
    {
        proof {
            use_type_invariant(self);
        }
        &self.parts
    }

    /// Whether any part is a date, time, AM/PM or elapsed-time part.
    pub fn has_date_parts(&self) -> (r: bool)
        ensures
            r == exists|i: int| 0 <= i < self@.parts.len() && (#[trigger] self@.parts[i]).is_date(),
    {
        let mut i: usize = 0;
        while i < self.parts.len()
            invariant
                i <= self.parts.len(),
                forall|j: int| 0 <= j < i ==> !(#[trigger] self@.parts[j]).is_date(),
            decreases self.parts.len() - i,
        {
            if self.parts[i].is_date_part() {
                assert(self@.parts[i as int].is_date());
                return true;
            }
            i = i + 1;
        }
        false
    }

    /// Whether any part is the text placeholder `@`.
    pub fn has_text_placeholder(&self) -> (r: bool)
        ensures
            r == exists|i: int|
                0 <= i < self@.parts.len() && (#[trigger] self@.parts[i]) == PartView::TextPlaceholder,
    {
        let mut i: usize = 0;
        while i < self.parts.len()
            invariant
                i <= self.parts.len(),
                forall|j: int| 0 <= j < i ==> (#[trigger] self@.parts[j]) != PartView::TextPlaceholder,
            decreases self.parts.len() - i,
        {
            if matches!(self.parts[i], FormatPartOf::TextPlaceholder) {
                assert(self@.parts[i as int] == PartView::TextPlaceholder);
                return true;
            }
            i = i + 1;
        }
        false
    }

    /// Index of the section's fill directive, if it has one.
    pub fn active_fill(&self) -> (r: Option<usize>)
        ensures
            r matches Some(k) ==> k < self@.parts.len() && self@.parts[k as int].is_fill(),
            r is None ==> forall|j: int| 0 <= j < self@.parts.len() ==> !(#[trigger] self@.parts[j]).is_fill(),
    {
        let mut i: usize = 0;
        while i < self.parts.len()
            invariant
                i <= self.parts.len(),
                forall|j: int| 0 <= j < i ==> !(#[trigger] self@.parts[j]).is_fill(),
            decreases self.parts.len() - i,
        {
            if self.parts[i].is_fill() {
                return Some(i);
            }
            i = i + 1;
        }
        None
    }
}

/// The named color spelled `s`, ignoring ASCII case.
pub open spec fn named_color(s: Seq<char>) -> Option<NamedColor> {
    if eq_ignore_ascii_case(s, seq!['b', 'l', 'a', 'c', 'k']) {
        Some(NamedColor::Black)
    } else if eq_ignore_ascii_case(s, seq!['b', 'l', 'u', 'e']) {
        Some(NamedColor::Blue)
    } else if eq_ignore_ascii_case(s, seq!['c', 'y', 'a', 'n']) {
        Some(NamedColor::Cyan)
    } else if eq_ignore_ascii_case(s, seq!['g', 'r', 'e', 'e', 'n']) {
        Some(NamedColor::Green)
    } else if eq_ignore_ascii_case(s, seq!['m', 'a', 'g', 'e', 'n', 't', 'a']) {
        Some(NamedColor::Magenta)
    } else if eq_ignore_ascii_case(s, seq!['r', 'e', 'd']) {
        Some(NamedColor::Red)
    } else if eq_ignore_ascii_case(s, seq!['w', 'h', 'i', 't', 'e']) {
        Some(NamedColor::White)
    } else if eq_ignore_ascii_case(s, seq!['y', 'e', 'l', 'l', 'o', 'w']) {
        Some(NamedColor::Yellow)
    } else {
        None
    }
}

impl NamedColor {
    /// The named color spelled by `s[from..]`, ignoring ASCII case.
    pub fn from_chars(s: &Vec<char>, from: usize) -> (r: Option<NamedColor>)
        requires
            from <= s.len(),
        ensures
            r == named_color(s@.subrange(from as int, s.len() as int)),
    {
        let black = vec!['b', 'l', 'a', 'c', 'k'];
        let blue = vec!['b', 'l', 'u', 'e'];
        let cyan = vec!['c', 'y', 'a', 'n'];
        let green = vec!['g', 'r', 'e', 'e', 'n'];
        let magenta = vec!['m', 'a', 'g', 'e', 'n', 't', 'a'];
        let red = vec!['r', 'e', 'd'];
        let white = vec!['w', 'h', 'i', 't', 'e'];
        let yellow = vec!['y', 'e', 'l', 'l', 'o', 'w'];
        assert(black@ =~= seq!['b', 'l', 'a', 'c', 'k']);
        assert(blue@ =~= seq!['b', 'l', 'u', 'e']);
        assert(cyan@ =~= seq!['c', 'y', 'a', 'n']);
        assert(green@ =~= seq!['g', 'r', 'e', 'e', 'n']);
        assert(magenta@ =~= seq!['m', 'a', 'g', 'e', 'n', 't', 'a']);
        assert(red@ =~= seq!['r', 'e', 'd']);
        assert(white@ =~= seq!['w', 'h', 'i', 't', 'e']);
        assert(yellow@ =~= seq!['y', 'e', 'l', 'l', 'o', 'w']);
        if eq_ignore_case_exec(s, from, &black) {
            Some(NamedColor::Black)
        } else if eq_ignore_case_exec(s, from, &blue) {
            Some(NamedColor::Blue)
        } else if eq_ignore_case_exec(s, from, &cyan) {
            Some(NamedColor::Cyan)
        } else if eq_ignore_case_exec(s, from, &green) {
            Some(NamedColor::Green)
        } else if eq_ignore_case_exec(s, from, &magenta) {
            Some(NamedColor::Magenta)
        } else if eq_ignore_case_exec(s, from, &red) {
            Some(NamedColor::Red)
        } else if eq_ignore_case_exec(s, from, &white) {
            Some(NamedColor::White)
        } else if eq_ignore_case_exec(s, from, &yellow) {
            Some(NamedColor::Yellow)
        } else {
            None
        }
    }

    /// The named color spelled `s`, ignoring ASCII case.
    pub fn parse(s: &str) -> (r: Option<NamedColor>)
        ensures
            r == named_color(s@),
    {
        let v = crate::chars::chars_of(s);
        assert(v@.subrange(0, v@.len() as int) =~= v@);
        NamedColor::from_chars(&v, 0)
    }
}

/// A color name that is not one of the eight named colors.
#[derive(Debug, Clone, Copy, PartialEq, Eq, Structural)]
pub struct UnknownColor;

impl std::str::FromStr for NamedColor {
    type Err = UnknownColor;

    fn from_str(s: &str) -> (r: Result<NamedColor, UnknownColor>)
        ensures
            r == (match named_color(s@) {
                Some(c) => Ok::<NamedColor, UnknownColor>(c),
                None => Err(UnknownColor),
            }),
    {
        match NamedColor::parse(s) {
            Some(c) => Ok(c),
            None => Err(UnknownColor),
        }
    }
}

/// The index of the last fill among the first `n` parts, or -1.
pub open spec fn last_fill_before(ps: Seq<PartView>, n: int) -> int
    decreases n,
{
    if n <= 0 {
        -1
    } else if ps[n - 1].is_fill() {
        n - 1
    } else {
        last_fill_before(ps, n - 1)
    }
}

proof fn lemma_without_fills_idempotent(s: Seq<PartView>)
    ensures
        without_fills(without_fills(s)) == without_fills(s),
    decreases s.len(),
{
    if s.len() > 0 {
        lemma_without_fills_idempotent(s.drop_last());
        let w = without_fills(s.drop_last());
        if !s.last().is_fill() {
            assert(w.push(s.last()).drop_last() =~= w);
        }
    }
}

proof fn lemma_without_fills_of_added(q: Seq<PartView>)
    ensures
        without_fills(add_parts(Seq::empty(), q)) == without_fills(q),
    decreases q.len(),
{
    if q.len() > 0 {
        let r = q.drop_last();
        let p = q.last();
        lemma_without_fills_of_added(r);
        let a = add_parts(Seq::empty(), r);
        if p.is_fill() {
            let w = without_fills(a).push(p);
            assert(w.drop_last() =~= without_fills(a));
            lemma_without_fills_idempotent(a);
        } else {
            assert(a.push(p).drop_last() =~= a);
        }
    }
}

proof fn lemma_last_fill_before_bounds(ps: Seq<PartView>, n: int)
    requires
        0 <= n <= ps.len(),
    ensures
        -1 <= last_fill_before(ps, n) < n,
        last_fill_before(ps, n) >= 0 ==> ps[last_fill_before(ps, n)].is_fill(),
        forall|j: int| last_fill_before(ps, n) < j < n ==> !(#[trigger] ps[j]).is_fill(),
    decreases n,
{
    if n > 0 {
        lemma_last_fill_before_bounds(ps, n - 1);
    }
}

/// A section keeps only the last of its fill directives, where it stands:
/// building a section from `ps` drops every fill before the last one and
/// keeps everything else in order.
pub proof fn law_section_keeps_last_fill(ps: Seq<PartView>)
    ensures
        ({
            let k = last_fill_before(ps, ps.len() as int);
            &&& k < 0 ==> add_parts(Seq::empty(), ps) == ps
            &&& k >= 0 ==> add_parts(Seq::empty(), ps) == without_fills(ps.take(k)) + ps.skip(k)
        }),
    decreases ps.len(),
{
    if ps.len() > 0 {
        let q = ps.drop_last();
        let p = ps.last();
        law_section_keeps_last_fill(q);
        let a = add_parts(Seq::empty(), q);
        let k = last_fill_before(ps, ps.len() as int);
        if p.is_fill() {
            lemma_without_fills_of_added(q);
            assert(ps.take(k) =~= q);
            assert(ps.skip(k) =~= seq![p]);
            assert(add_parts(Seq::empty(), ps) =~= without_fills(ps.take(k)) + ps.skip(k));
        } else {
            assert(last_fill_before(q, q.len() as int) == k) by {
                lemma_last_fill_before_prefix(ps, q.len() as int);
                assert(ps.take(q.len() as int) =~= q);
            }
            if k < 0 {
                assert(a.push(p) =~= ps);
            } else {
                lemma_last_fill_before_bounds(q, q.len() as int);
                assert(ps.take(k) =~= q.take(k));
                assert(ps.skip(k) =~= q.skip(k).push(p));
                assert(add_parts(Seq::empty(), ps) =~= without_fills(ps.take(k)) + ps.skip(k));
            }
        }
    } else {
        assert(add_parts(Seq::empty(), ps) =~= ps);
    }
}

proof fn lemma_last_fill_before_prefix(ps: Seq<PartView>, n: int)
    requires
        0 <= n <= ps.len(),
    ensures
        last_fill_before(ps.take(n), n) == last_fill_before(ps, n),
    decreases n,
{
    if n > 0 {
        lemma_last_fill_before_prefix(ps, n - 1);
        assert(ps.take(n)[n - 1] == ps[n - 1]);
        assert(ps.take(n).take(n - 1) =~= ps.take(n - 1));
        lemma_last_fill_before_prefix(ps.take(n), n - 1);
    }
}

proof fn lemma_fill_free(s: Seq<PartView>)
    requires
        forall|j: int| 0 <= j < s.len() ==> !(#[trigger] s[j]).is_fill(),
    ensures
        without_fills(s) == s,
    decreases s.len(),
{
    if s.len() > 0 {
        lemma_fill_free(s.drop_last());
        assert(s.drop_last().push(s.last()) =~= s);
    }
}

proof fn lemma_fill_count_positive(s: Seq<PartView>, j: int)
    requires
        0 <= j < s.len(),
        s[j].is_fill(),
    ensures
        fill_count(s.take(j)) + 1 <= fill_count(s),
    decreases s.len(),
{
    if j < s.len() - 1 {
        lemma_fill_count_positive(s.drop_last(), j);
        assert(s.drop_last().take(j) =~= s.take(j));
    } else {
        assert(s.drop_last() =~= s.take(j));
    }
}

proof fn lemma_fill_count_zero(s: Seq<PartView>)
    requires
        fill_count(s) == 0,
    ensures
        forall|j: int| 0 <= j < s.len() ==> !(#[trigger] s[j]).is_fill(),
    decreases s.len(),
{
    if s.len() > 0 {
        lemma_fill_count_zero(s.drop_last());
        assert forall|j: int| 0 <= j < s.len() implies !(#[trigger] s[j]).is_fill() by {
            if j < s.len() - 1 {
                assert(s[j] == s.drop_last()[j]);
            }
        }
    }
}

/// Building a section from parts that hold at most one fill keeps them as
/// they are: normalizing is idempotent.
pub proof fn law_section_normalized_unchanged(ps: Seq<PartView>)
    requires
        fill_count(ps) <= 1,
    ensures
        add_parts(Seq::empty(), ps) == ps,
{
    law_section_keeps_last_fill(ps);
    let k = last_fill_before(ps, ps.len() as int);
    if k >= 0 {
        lemma_last_fill_before_bounds(ps, ps.len() as int);
        lemma_fill_count_positive(ps, k);
        lemma_fill_count_zero(ps.take(k));
        lemma_fill_free(ps.take(k));
        assert(ps.take(k) + ps.skip(k) =~= ps);
    }
}

} // verus!
