//! Immutable execution plans compiled from normalized format syntax.
use vstd::prelude::*;

use crate::ast::{
    opt_condition_view, parts_view, Color, Condition, ConditionView, DatePart, DigitPlaceholder, FormatPart,
    FormatPartOf, FractionPart, PartView, Section, SectionView,
};

verus! {

/// Semantic dispatch categories derived from section syntax.
#[derive(Debug, Clone, Copy, PartialEq, Eq, Structural)]
pub enum SectionKind {
    /// Empty or explicit General-number syntax.
    General,
    /// Date, time, or elapsed-time syntax.
    DateTime,
    /// Standard numeric placeholder syntax.
    Number,
    /// Scientific notation syntax.
    Scientific,
    /// Fraction syntax.
    Fraction,
    /// Text-placeholder syntax.
    Text,
    /// A section containing only layout and literal operations.
    Literal,
}

/// One compiled operation, in source order; `T` is the text type.
#[derive(Debug, Clone, PartialEq)]
pub enum OperationOf<T> {
    /// Literal or escaped text emitted as written.
    Text(T),
    /// An unresolved fill directive.
    Fill(char),
    /// An unresolved width-skip directive.
    Skip(char),
    /// A semantic part evaluated by a specialized formatter.
    Semantic(FormatPartOf<T>),
}

pub type Operation = OperationOf<String>;

pub type OperationView = OperationOf<Seq<char>>;

impl View for OperationOf<String> {
    type V = OperationView;

    open spec fn view(&self) -> OperationView {
        match self {
            OperationOf::Text(t) => OperationOf::Text(t@),
            OperationOf::Fill(c) => OperationOf::Fill(*c),
            OperationOf::Skip(c) => OperationOf::Skip(*c),
            OperationOf::Semantic(p) => OperationOf::Semantic(p@),
        }
    }
}

/// One numeric placeholder and its position in the operation stream.
#[derive(Debug, Clone, Copy, PartialEq, Eq, Structural)]
pub struct NumberPlaceholder {
    pub operation_index: usize,
    pub placeholder: DigitPlaceholder,
}

/// Standard-number placeholder analysis.
#[derive(Debug, Clone, PartialEq)]
pub struct NumberSpec {
    pub integer_placeholders: Vec<NumberPlaceholder>,
    pub decimal_placeholders: Vec<NumberPlaceholder>,
    pub decimal_point_index: Option<usize>,
    pub grouping_comma_indices: Vec<usize>,
    pub thousands_scale: usize,
    pub percent_count: usize,
}

pub struct NumberSpecView {
    pub integer_placeholders: Seq<NumberPlaceholder>,
    pub decimal_placeholders: Seq<NumberPlaceholder>,
    pub decimal_point_index: Option<usize>,
    pub grouping_comma_indices: Seq<usize>,
    pub thousands_scale: nat,
    pub percent_count: nat,
}

impl View for NumberSpec {
    type V = NumberSpecView;

    open spec fn view(&self) -> NumberSpecView {
        NumberSpecView {
            integer_placeholders: self.integer_placeholders@,
            decimal_placeholders: self.decimal_placeholders@,
            decimal_point_index: self.decimal_point_index,
            grouping_comma_indices: self.grouping_comma_indices@,
            thousands_scale: self.thousands_scale as nat,
            percent_count: self.percent_count as nat,
        }
    }
}

impl NumberSpec {
    /// The number of decimal placeholder positions.
    pub fn decimal_places(&self) -> (r: usize)
        ensures
            r == self.decimal_placeholders@.len(),
    {
        self.decimal_placeholders.len()
    }

    /// Whether the format groups thousands.
    pub fn uses_thousands(&self) -> (r: bool)
        ensures
            r == (self.grouping_comma_indices@.len() > 0),
    {
        self.grouping_comma_indices.len() > 0
    }
}

/// Scientific-notation field positions and display policy.
#[derive(Debug, Clone, PartialEq, Eq)]
pub struct ScientificSpec {
    pub mantissa_integer: Vec<NumberPlaceholder>,
    pub mantissa_decimal: Vec<NumberPlaceholder>,
    pub decimal_point_index: Option<usize>,
    pub exponent_marker_index: usize,
    pub exponent_digits: Vec<NumberPlaceholder>,
    pub upper: bool,
    pub show_plus: bool,
    pub percent_count: usize,
}

pub struct ScientificSpecView {
    pub mantissa_integer: Seq<NumberPlaceholder>,
    pub mantissa_decimal: Seq<NumberPlaceholder>,
    pub decimal_point_index: Option<usize>,
    pub exponent_marker_index: usize,
    pub exponent_digits: Seq<NumberPlaceholder>,
    pub upper: bool,
    pub show_plus: bool,
    pub percent_count: nat,
}

impl View for ScientificSpec {
    type V = ScientificSpecView;

    open spec fn view(&self) -> ScientificSpecView {
        ScientificSpecView {
            mantissa_integer: self.mantissa_integer@,
            mantissa_decimal: self.mantissa_decimal@,
            decimal_point_index: self.decimal_point_index,
            exponent_marker_index: self.exponent_marker_index,
            exponent_digits: self.exponent_digits@,
            upper: self.upper,
            show_plus: self.show_plus,
            percent_count: self.percent_count as nat,
        }
    }
}

/// One fixed-denominator digit and its operation position.
#[derive(Debug, Clone, Copy, PartialEq, Eq, Structural)]
pub struct FixedDenominatorDigit {
    pub operation_index: usize,
    pub digit: u8,
}

/// The denominator policy of a compiled fraction.
#[derive(Debug, Clone, PartialEq, Eq)]
pub enum FractionDenominatorSpec {
    /// A denominator approximated to the placeholder width.
    Variable { placeholders: Vec<NumberPlaceholder> },
    /// A fixed denominator and its source-ordered digits.
    Fixed { value: u32, digits: Vec<FixedDenominatorDigit> },
}

pub enum DenominatorView {
    Variable { placeholders: Seq<NumberPlaceholder> },
    Fixed { value: u32, digits: Seq<FixedDenominatorDigit> },
}

impl View for FractionDenominatorSpec {
    type V = DenominatorView;

    open spec fn view(&self) -> DenominatorView {
        match self {
            FractionDenominatorSpec::Variable { placeholders } => DenominatorView::Variable {
                placeholders: placeholders@,
            },
            FractionDenominatorSpec::Fixed { value, digits } => DenominatorView::Fixed {
                value: *value,
                digits: digits@,
            },
        }
    }
}

/// Fraction semantics extracted from the tagged fraction components.
#[derive(Debug, Clone, PartialEq, Eq)]
pub struct FractionSpec {
    pub integer_placeholders: Vec<NumberPlaceholder>,
    pub numerator_placeholders: Vec<NumberPlaceholder>,
    pub slash_index: usize,
    pub denominator: FractionDenominatorSpec,
}

pub struct FractionSpecView {
    pub integer_placeholders: Seq<NumberPlaceholder>,
    pub numerator_placeholders: Seq<NumberPlaceholder>,
    pub slash_index: usize,
    pub denominator: DenominatorView,
}

impl View for FractionSpec {
    type V = FractionSpecView;

    open spec fn view(&self) -> FractionSpecView {
        FractionSpecView {
            integer_placeholders: self.integer_placeholders@,
            numerator_placeholders: self.numerator_placeholders@,
            slash_index: self.slash_index,
            denominator: self.denominator@,
        }
    }
}

/// Smallest time unit a date plan displays.
#[derive(Debug, Clone, Copy, PartialEq, Eq, Structural)]
pub enum TimeUnit {
    /// No time components are present.
    Unset,
    Hours,
    Minutes,
    Seconds,
    Subseconds,
}

pub open spec fn time_rank(u: TimeUnit) -> nat {
    match u {
        TimeUnit::Unset => 0,
        TimeUnit::Hours => 1,
        TimeUnit::Minutes => 2,
        TimeUnit::Seconds => 3,
        TimeUnit::Subseconds => 4,
    }
}

/// The finer of two time units.
pub open spec fn finer(a: TimeUnit, b: TimeUnit) -> TimeUnit {
    if time_rank(a) >= time_rank(b) {
        a
    } else {
        b
    }
}

fn finer_exec(a: TimeUnit, b: TimeUnit) -> (r: TimeUnit)
    ensures
        r == finer(a, b),
{
    let ra: u8 = match a {
        TimeUnit::Unset => 0,
        TimeUnit::Hours => 1,
        TimeUnit::Minutes => 2,
        TimeUnit::Seconds => 3,
        TimeUnit::Subseconds => 4,
    };
    let rb: u8 = match b {
        TimeUnit::Unset => 0,
        TimeUnit::Hours => 1,
        TimeUnit::Minutes => 2,
        TimeUnit::Seconds => 3,
        TimeUnit::Subseconds => 4,
    };
    if ra >= rb {
        a
    } else {
        b
    }
}

/// Date and time properties of a section.
#[derive(Debug, Clone, Copy, PartialEq, Eq, Structural)]
pub struct DateSpec {
    pub has_ampm: bool,
    pub is_hijri: bool,
    pub max_subsecond_precision: Option<u8>,
    pub has_elapsed_time: bool,
    pub smallest_time_unit: TimeUnit,
}

/// Where a text section stops its first line to place its fill.
#[derive(Debug, Clone, Copy, PartialEq, Eq, Structural)]
pub struct TextFillAnchor {
    /// Operation index of the text placeholder.
    pub placeholder_index: usize,
    /// Operation index of the fill that follows it.
    pub fill_index: usize,
}

/// Text-placeholder properties of a section.
#[derive(Debug, Clone, Copy, PartialEq, Eq, Structural)]
pub struct TextSpec {
    pub first_line_fill: Option<TextFillAnchor>,
}

/// Value-independent execution data for one section.
#[derive(Debug, Clone, PartialEq)]
pub struct SectionPlan {
    pub condition: Option<Condition>,
    pub color: Option<Color>,
    pub kind: SectionKind,
    pub operations: Vec<Operation>,
    pub date: DateSpec,
    pub number: Option<NumberSpec>,
    pub scientific: Option<ScientificSpec>,
    pub fraction: Option<FractionSpec>,
    pub text: Option<TextSpec>,
}

pub struct PlanView {
    pub condition: Option<ConditionView>,
    pub color: Option<Color>,
    pub kind: SectionKind,
    pub operations: Seq<OperationView>,
    pub date: DateSpec,
    pub number: Option<NumberSpecView>,
    pub scientific: Option<ScientificSpecView>,
    pub fraction: Option<FractionSpecView>,
    pub text: Option<TextSpec>,
}

pub open spec fn opt_view<A: View>(o: Option<A>) -> Option<A::V> {
    match o {
        Some(a) => Some(a@),
        None => None,
    }
}

impl View for SectionPlan {
    type V = PlanView;

    open spec fn view(&self) -> PlanView {
        PlanView {
            condition: opt_condition_view(self.condition),
            color: self.color,
            kind: self.kind,
            operations: Seq::new(self.operations@.len(), |i: int| self.operations@[i]@),
            date: self.date,
            number: opt_view(self.number),
            scientific: opt_view(self.scientific),
            fraction: opt_view(self.fraction),
            text: self.text,
        }
    }
}

/// All compiled section plans of one number format, in section order.
#[derive(Debug, Clone, PartialEq)]
pub struct CompiledFormat {
    pub sections: Vec<SectionPlan>,
}

impl View for CompiledFormat {
    type V = Seq<PlanView>;

    open spec fn view(&self) -> Seq<PlanView> {
        Seq::new(self.sections@.len(), |i: int| self.sections@[i]@)
    }
}

// ---------------------------------------------------------------------------
// Specification of compilation.

pub open spec fn any_part(ps: Seq<PartView>, f: spec_fn(PartView) -> bool) -> bool {
    exists|j: int| 0 <= j < ps.len() && f(#[trigger] ps[j])
}

pub open spec fn is_fraction_part(p: PartView) -> bool {
    p is Fraction
}

pub open spec fn is_scientific_part(p: PartView) -> bool {
    p is Scientific
}

pub open spec fn is_number_part(p: PartView) -> bool {
    p is Digit || p is DecimalPoint || p is ThousandsSeparator
}

pub open spec fn is_text_part(p: PartView) -> bool {
    p is TextPlaceholder
}

pub open spec fn is_general_part(p: PartView) -> bool {
    p is GeneralNumber
}

pub open spec fn is_date_part(p: PartView) -> bool {
    p.is_date()
}

/// The dispatch category of a section: the first of date/time, fraction,
/// scientific, number, text and General whose syntax occurs, else literal.
pub open spec fn classify(ps: Seq<PartView>) -> SectionKind {
    if any_part(ps, |p: PartView| is_date_part(p)) {
        SectionKind::DateTime
    } else if any_part(ps, |p: PartView| is_fraction_part(p)) {
        SectionKind::Fraction
    } else if any_part(ps, |p: PartView| is_scientific_part(p)) {
        SectionKind::Scientific
    } else if any_part(ps, |p: PartView| is_number_part(p)) {
        SectionKind::Number
    } else if any_part(ps, |p: PartView| is_text_part(p)) {
        SectionKind::Text
    } else if ps.len() == 0 || any_part(ps, |p: PartView| is_general_part(p)) {
        SectionKind::General
    } else {
        SectionKind::Literal
    }
}

/// The operation one part compiles to.
pub open spec fn operation_of(p: PartView) -> OperationView {
    match p {
        FormatPartOf::Literal(t) => OperationOf::Text(t),
        FormatPartOf::EscapedLiteral(t) => OperationOf::Text(t),
        FormatPartOf::Fill(c) => OperationOf::Fill(c),
        FormatPartOf::Skip(c) => OperationOf::Skip(c),
        _ => OperationOf::Semantic(p),
    }
}

pub open spec fn placeholder_at(i: int, p: DigitPlaceholder) -> NumberPlaceholder {
    NumberPlaceholder { operation_index: i as usize, placeholder: p }
}

/// Standard-number analysis of the first `n` parts.
pub open spec fn number_fold(ps: Seq<PartView>, n: int) -> NumberSpecView
    decreases n,
{
    if n <= 0 {
        NumberSpecView {
            integer_placeholders: Seq::empty(),
            decimal_placeholders: Seq::empty(),
            decimal_point_index: None,
            grouping_comma_indices: Seq::empty(),
            thousands_scale: 0,
            percent_count: 0,
        }
    } else {
        let a = number_fold(ps, n - 1);
        let i = n - 1;
        match ps[i] {
            FormatPartOf::Digit(p) => if a.decimal_point_index is Some {
                NumberSpecView {
                    decimal_placeholders: a.decimal_placeholders.push(placeholder_at(i, p)),
                    thousands_scale: 0,
                    ..a
                }
            } else {
                NumberSpecView {
                    integer_placeholders: a.integer_placeholders.push(placeholder_at(i, p)),
                    thousands_scale: 0,
                    ..a
                }
            },
            FormatPartOf::DecimalPoint => NumberSpecView {
                decimal_point_index: if a.decimal_point_index is Some {
                    a.decimal_point_index
                } else {
                    Some(i as usize)
                },
                thousands_scale: 0,
                ..a
            },
            FormatPartOf::ThousandsSeparator => NumberSpecView {
                grouping_comma_indices: a.grouping_comma_indices.push(i as usize),
                thousands_scale: a.thousands_scale + 1,
                ..a
            },
            FormatPartOf::Percent => NumberSpecView { percent_count: a.percent_count + 1, ..a },
            _ => a,
        }
    }
}

/// Standard-number analysis: trailing commas scale rather than group, and a
/// format without integer placeholders gets one `#`.
pub open spec fn number_spec(ps: Seq<PartView>) -> NumberSpecView {
    let a = number_fold(ps, ps.len() as int);
    let keep = a.grouping_comma_indices.len() - a.thousands_scale;
    NumberSpecView {
        integer_placeholders: if a.integer_placeholders.len() == 0 {
            seq![
                NumberPlaceholder {
                    operation_index: match a.decimal_point_index {
                        Some(d) => d,
                        None => 0,
                    },
                    placeholder: DigitPlaceholder::Hash,
                },
            ]
        } else {
            a.integer_placeholders
        },
        grouping_comma_indices: a.grouping_comma_indices.subrange(
            0,
            if keep > 0 {
                keep
            } else {
                0
            },
        ),
        ..a
    }
}

/// Scientific analysis of the first `n` parts.
pub open spec fn scientific_fold(ps: Seq<PartView>, n: int) -> (ScientificSpecView, Option<usize>)
    decreases n,
{
    if n <= 0 {
        (
            ScientificSpecView {
                mantissa_integer: Seq::empty(),
                mantissa_decimal: Seq::empty(),
                decimal_point_index: None,
                exponent_marker_index: 0,
                exponent_digits: Seq::empty(),
                upper: true,
                show_plus: false,
                percent_count: 0,
            },
            None,
        )
    } else {
        let (a, marker) = scientific_fold(ps, n - 1);
        let i = n - 1;
        match ps[i] {
            FormatPartOf::Digit(p) => if marker is Some {
                (ScientificSpecView { exponent_digits: a.exponent_digits.push(placeholder_at(i, p)), ..a }, marker)
            } else if a.decimal_point_index is Some {
                (ScientificSpecView { mantissa_decimal: a.mantissa_decimal.push(placeholder_at(i, p)), ..a }, marker)
            } else {
                (ScientificSpecView { mantissa_integer: a.mantissa_integer.push(placeholder_at(i, p)), ..a }, marker)
            },
            FormatPartOf::DecimalPoint => if marker is Some {
                (a, marker)
            } else {
                (ScientificSpecView { decimal_point_index: Some(i as usize), ..a }, marker)
            },
            FormatPartOf::Scientific { upper, show_plus } => (
                ScientificSpecView { exponent_marker_index: i as usize, upper, show_plus, ..a },
                Some(i as usize),
            ),
            FormatPartOf::Percent => (ScientificSpecView { percent_count: a.percent_count + 1, ..a }, marker),
            _ => (a, marker),
        }
    }
}

pub open spec fn scientific_spec(ps: Seq<PartView>) -> ScientificSpecView {
    scientific_fold(ps, ps.len() as int).0
}

pub struct FractionAcc {
    pub integer: Seq<NumberPlaceholder>,
    pub numerator: Seq<NumberPlaceholder>,
    pub slash: Option<usize>,
    pub denominator: Seq<NumberPlaceholder>,
    pub fixed: Seq<FixedDenominatorDigit>,
    pub value: nat,
}

/// Fraction analysis of the first `n` parts.
pub open spec fn fraction_fold(ps: Seq<PartView>, n: int) -> FractionAcc
    decreases n,
{
    if n <= 0 {
        FractionAcc {
            integer: Seq::empty(),
            numerator: Seq::empty(),
            slash: None,
            denominator: Seq::empty(),
            fixed: Seq::empty(),
            value: 0,
        }
    } else {
        let a = fraction_fold(ps, n - 1);
        let i = n - 1;
        match ps[i] {
            FormatPartOf::Fraction(FractionPart::IntegerDigit(p)) => FractionAcc {
                integer: a.integer.push(placeholder_at(i, p)),
                ..a
            },
            FormatPartOf::Fraction(FractionPart::NumeratorDigit(p)) => FractionAcc {
                numerator: a.numerator.push(placeholder_at(i, p)),
                ..a
            },
            FormatPartOf::Fraction(FractionPart::Slash) => FractionAcc { slash: Some(i as usize), ..a },
            FormatPartOf::Fraction(FractionPart::DenominatorDigit(p)) => FractionAcc {
                denominator: a.denominator.push(placeholder_at(i, p)),
                ..a
            },
            FormatPartOf::Fraction(FractionPart::FixedDenominatorDigit(d)) => FractionAcc {
                fixed: a.fixed.push(FixedDenominatorDigit { operation_index: i as usize, digit: d }),
                value: a.value * 10 + d as nat,
                ..a
            },
            _ => a,
        }
    }
}

/// The value of the fixed denominator digits of `ps`, read left to right.
pub open spec fn fixed_fraction_value(ps: Seq<PartView>) -> nat {
    fraction_fold(ps, ps.len() as int).value
}

pub open spec fn fraction_spec(ps: Seq<PartView>) -> FractionSpecView {
    let a = fraction_fold(ps, ps.len() as int);
    FractionSpecView {
        integer_placeholders: a.integer,
        numerator_placeholders: a.numerator,
        slash_index: match a.slash {
            Some(s) => s,
            None => 0,
        },
        denominator: if a.fixed.len() == 0 {
            DenominatorView::Variable { placeholders: a.denominator }
        } else {
            DenominatorView::Fixed { value: a.value as u32, digits: a.fixed }
        },
    }
}

/// Date and time properties of the first `n` parts.
pub open spec fn date_fold(ps: Seq<PartView>, n: int) -> DateSpec
    decreases n,
{
    if n <= 0 {
        DateSpec {
            has_ampm: false,
            is_hijri: false,
            max_subsecond_precision: None,
            has_elapsed_time: false,
            smallest_time_unit: TimeUnit::Unset,
        }
    } else {
        let a = date_fold(ps, n - 1);
        match ps[n - 1] {
            FormatPartOf::AmPm(_) => DateSpec { has_ampm: true, ..a },
            FormatPartOf::DatePart(DatePart::BuddhistYear4Alt) => DateSpec { is_hijri: true, ..a },
            FormatPartOf::DatePart(DatePart::BuddhistYear2Alt) => DateSpec { is_hijri: true, ..a },
            FormatPartOf::DatePart(DatePart::SubSecond(p)) => DateSpec {
                max_subsecond_precision: Some(
                    match a.max_subsecond_precision {
                        Some(m) => if m >= p {
                            m
                        } else {
                            p
                        },
                        None => p,
                    },
                ),
                smallest_time_unit: TimeUnit::Subseconds,
                ..a
            },
            FormatPartOf::DatePart(DatePart::Second) => DateSpec {
                smallest_time_unit: finer(a.smallest_time_unit, TimeUnit::Seconds),
                ..a
            },
            FormatPartOf::DatePart(DatePart::Second2) => DateSpec {
                smallest_time_unit: finer(a.smallest_time_unit, TimeUnit::Seconds),
                ..a
            },
            FormatPartOf::DatePart(DatePart::Minute) => DateSpec {
                smallest_time_unit: finer(a.smallest_time_unit, TimeUnit::Minutes),
                ..a
            },
            FormatPartOf::DatePart(DatePart::Minute2) => DateSpec {
                smallest_time_unit: finer(a.smallest_time_unit, TimeUnit::Minutes),
                ..a
            },
            FormatPartOf::DatePart(DatePart::Hour) => DateSpec {
                smallest_time_unit: finer(a.smallest_time_unit, TimeUnit::Hours),
                ..a
            },
            FormatPartOf::DatePart(DatePart::Hour2) => DateSpec {
                smallest_time_unit: finer(a.smallest_time_unit, TimeUnit::Hours),
                ..a
            },
            FormatPartOf::Elapsed(_) => DateSpec { has_elapsed_time: true, ..a },
            _ => a,
        }
    }
}

pub open spec fn date_spec(ps: Seq<PartView>) -> DateSpec {
    date_fold(ps, ps.len() as int)
}

/// Text placeholders among the first `n` parts: how many, and the index of the last.
pub open spec fn text_fold(ps: Seq<PartView>, n: int) -> (nat, int)
    decreases n,
{
    if n <= 0 {
        (0, -1)
    } else {
        let (c, last) = text_fold(ps, n - 1);
        if ps[n - 1] is TextPlaceholder {
            (c + 1, n - 1)
        } else {
            (c, last)
        }
    }
}

/// Index of the last fill among the first `n` parts.
pub open spec fn last_fill(ps: Seq<PartView>, n: int) -> int
    decreases n,
{
    if n <= 0 {
        -1
    } else if ps[n - 1] is Fill {
        n - 1
    } else {
        last_fill(ps, n - 1)
    }
}

/// Text properties: a section with a text placeholder anchors its fill to
/// the end of the first line when it has exactly one placeholder and the
/// fill comes after it.
pub open spec fn text_spec(ps: Seq<PartView>) -> Option<TextSpec> {
    let (count, at) = text_fold(ps, ps.len() as int);
    let f = last_fill(ps, ps.len() as int);
    if count == 0 {
        None
    } else if count == 1 && f > at {
        Some(
            TextSpec {
                first_line_fill: Some(
                    TextFillAnchor { placeholder_index: at as usize, fill_index: f as usize },
                ),
            },
        )
    } else {
        Some(TextSpec { first_line_fill: None })
    }
}

/// The plan a section compiles to.
pub open spec fn plan_of(sec: SectionView) -> PlanView {
    let ps = sec.parts;
    let kind = classify(ps);
    PlanView {
        condition: sec.condition,
        color: sec.color,
        kind,
        operations: Seq::new(ps.len(), |i: int| operation_of(ps[i])),
        date: date_spec(ps),
        number: if kind == SectionKind::Number {
            Some(number_spec(ps))
        } else {
            None
        },
        scientific: if kind == SectionKind::Scientific {
            Some(scientific_spec(ps))
        } else {
            None
        },
        fraction: if kind == SectionKind::Fraction {
            Some(fraction_spec(ps))
        } else {
            None
        },
        text: text_spec(ps),
    }
}

/// A section's fraction syntax is complete: any fraction part comes with a
/// slash, and its fixed denominator fits in a `u32`.
pub open spec fn fraction_ready(ps: Seq<PartView>) -> bool {
    any_part(ps, |p: PartView| is_fraction_part(p)) ==> (exists|j: int|
        0 <= j < ps.len() && ps[j] == FormatPartOf::<Seq<char>>::Fraction(FractionPart::Slash))
        && fixed_fraction_value(ps) <= u32::MAX
}


// ---------------------------------------------------------------------------
// Compilation.

/// The dispatch category of a section's parts.
pub fn classify_section(parts: &Vec<FormatPart>) -> (r: SectionKind)
    ensures
        r == classify(parts_view(parts@)),
{
    let ghost ps = parts_view(parts@);
    let mut date = false;
    let mut fraction = false;
    let mut scientific = false;
    let mut number = false;
    let mut text = false;
    let mut general = false;
    let mut i: usize = 0;
    while i < parts.len()
        invariant
            i <= parts.len(),
            ps == parts_view(parts@),
            date == exists|j: int| 0 <= j < i && is_date_part(#[trigger] ps[j]),
            fraction == exists|j: int| 0 <= j < i && is_fraction_part(#[trigger] ps[j]),
            scientific == exists|j: int| 0 <= j < i && is_scientific_part(#[trigger] ps[j]),
            number == exists|j: int| 0 <= j < i && is_number_part(#[trigger] ps[j]),
            text == exists|j: int| 0 <= j < i && is_text_part(#[trigger] ps[j]),
            general == exists|j: int| 0 <= j < i && is_general_part(#[trigger] ps[j]),
        decreases parts.len() - i,
    {
        let p = &parts[i];
        assert(ps[i as int] == p@);
        if p.is_date_part() {
            date = true;
        }
        match p {
            FormatPartOf::Fraction(_) => fraction = true,
            FormatPartOf::Scientific { .. } => scientific = true,
            FormatPartOf::Digit(_) | FormatPartOf::DecimalPoint
            | FormatPartOf::ThousandsSeparator => number = true,
            FormatPartOf::TextPlaceholder => text = true,
            FormatPartOf::GeneralNumber => general = true,
            _ => {},
        }
        i = i + 1;
    }
    if date {
        SectionKind::DateTime
    } else if fraction {
        SectionKind::Fraction
    } else if scientific {
        SectionKind::Scientific
    } else if number {
        SectionKind::Number
    } else if text {
        SectionKind::Text
    } else if parts.len() == 0 || general {
        SectionKind::General
    } else {
        SectionKind::Literal
    }
}

/// The operation one part compiles to: text and layout directives become
/// their own operations, everything else stays semantic.
pub fn compile_operation(part: &FormatPart) -> (r: Operation)
    ensures
        r@ == operation_of(part@),
{
    match part {
        FormatPartOf::Literal(t) => OperationOf::Text(t.clone()),
        FormatPartOf::EscapedLiteral(t) => OperationOf::Text(t.clone()),
        FormatPartOf::Fill(c) => OperationOf::Fill(*c),
        FormatPartOf::Skip(c) => OperationOf::Skip(*c),
        _ => OperationOf::Semantic(part.copy()),
    }
}

/// The date and time properties of a section's parts.
pub fn compile_date_spec(parts: &Vec<FormatPart>) -> (r: DateSpec)
    ensures
        r == date_spec(parts_view(parts@)),
{
    let ghost ps = parts_view(parts@);
    let mut spec = DateSpec {
        has_ampm: false,
        is_hijri: false,
        max_subsecond_precision: None,
        has_elapsed_time: false,
        smallest_time_unit: TimeUnit::Unset,
    };
    let mut i: usize = 0;
    while i < parts.len()
        invariant
            i <= parts.len(),
            ps == parts_view(parts@),
            spec == date_fold(ps, i as int),
        decreases parts.len() - i,
    {
        assert(ps[i as int] == parts[i as int]@);
        match &parts[i] {
            FormatPartOf::AmPm(_) => spec.has_ampm = true,
            FormatPartOf::DatePart(DatePart::BuddhistYear4Alt)
            | FormatPartOf::DatePart(DatePart::BuddhistYear2Alt) => spec.is_hijri = true,
            FormatPartOf::DatePart(DatePart::SubSecond(p)) => {
                let m = match spec.max_subsecond_precision {
                    Some(m) => if m >= *p {
                        m
                    } else {
                        *p
                    },
                    None => *p,
                };
                spec.max_subsecond_precision = Some(m);
                spec.smallest_time_unit = TimeUnit::Subseconds;
            },
            FormatPartOf::DatePart(DatePart::Second) | FormatPartOf::DatePart(DatePart::Second2) => {
                spec.smallest_time_unit = finer_exec(spec.smallest_time_unit, TimeUnit::Seconds);
            },
            FormatPartOf::DatePart(DatePart::Minute) | FormatPartOf::DatePart(DatePart::Minute2) => {
                spec.smallest_time_unit = finer_exec(spec.smallest_time_unit, TimeUnit::Minutes);
            },
            FormatPartOf::DatePart(DatePart::Hour) | FormatPartOf::DatePart(DatePart::Hour2) => {
                spec.smallest_time_unit = finer_exec(spec.smallest_time_unit, TimeUnit::Hours);
            },
            FormatPartOf::Elapsed(_) => spec.has_elapsed_time = true,
            _ => {},
        }
        i = i + 1;
    }
    spec
}

/// The text-placeholder properties of a section's parts.
pub fn compile_text_spec(parts: &Vec<FormatPart>) -> (r: Option<TextSpec>)
    ensures
        r == text_spec(parts_view(parts@)),
{
    let ghost ps = parts_view(parts@);
    let mut count: usize = 0;
    let mut at: usize = 0;
    let mut fill: Option<usize> = None;
    let mut i: usize = 0;
    while i < parts.len()
        invariant
            i <= parts.len(),
            ps == parts_view(parts@),
            count <= i,
            text_fold(ps, i as int).0 == count,
            count > 0 ==> text_fold(ps, i as int).1 == at as int,
            count == 0 ==> text_fold(ps, i as int).1 == -1,
            match fill {
                Some(f) => last_fill(ps, i as int) == f as int,
                None => last_fill(ps, i as int) == -1,
            },
        decreases parts.len() - i,
    {
        assert(ps[i as int] == parts[i as int]@);
        match &parts[i] {
            FormatPartOf::TextPlaceholder => {
                count = count + 1;
                at = i;
            },
            FormatPartOf::Fill(_) => fill = Some(i),
            _ => {},
        }
        i = i + 1;
    }
    if count == 0 {
        None
    } else {
        match fill {
            Some(f) => if count == 1 && f > at {
                Some(
                    TextSpec {
                        first_line_fill: Some(TextFillAnchor { placeholder_index: at, fill_index: f }),
                    },
                )
            } else {
                Some(TextSpec { first_line_fill: None })
            },
            None => Some(TextSpec { first_line_fill: None }),
        }
    }
}


/// The standard-number analysis of a section's parts.
pub fn compile_number_spec(parts: &Vec<FormatPart>) -> (r: NumberSpec)
    ensures
        r@ == number_spec(parts_view(parts@)),
{
    let ghost ps = parts_view(parts@);
    let mut integer_placeholders: Vec<NumberPlaceholder> = Vec::new();
    let mut decimal_placeholders: Vec<NumberPlaceholder> = Vec::new();
    let mut grouping_comma_indices: Vec<usize> = Vec::new();
    let mut trailing: usize = 0;
    let mut percent_count: usize = 0;
    let mut decimal_point_index: Option<usize> = None;
    let mut i: usize = 0;
    while i < parts.len()
        invariant
            i <= parts.len(),
            ps == parts_view(parts@),
            trailing <= grouping_comma_indices.len() <= i,
            percent_count <= i,
            ({
                let a = number_fold(ps, i as int);
                &&& a.integer_placeholders == integer_placeholders@
                &&& a.decimal_placeholders == decimal_placeholders@
                &&& a.decimal_point_index == decimal_point_index
                &&& a.grouping_comma_indices == grouping_comma_indices@
                &&& a.thousands_scale == trailing as nat
                &&& a.percent_count == percent_count as nat
            }),
        decreases parts.len() - i,
    {
        assert(ps[i as int] == parts[i as int]@);
        match &parts[i] {
            FormatPartOf::Digit(p) => {
                trailing = 0;
                let field = NumberPlaceholder { operation_index: i, placeholder: *p };
                if decimal_point_index.is_some() {
                    decimal_placeholders.push(field);
                } else {
                    integer_placeholders.push(field);
                }
            },
            FormatPartOf::DecimalPoint => {
                trailing = 0;
                if decimal_point_index.is_none() {
                    decimal_point_index = Some(i);
                }
            },
            FormatPartOf::ThousandsSeparator => {
                grouping_comma_indices.push(i);
                trailing = trailing + 1;
            },
            FormatPartOf::Percent => percent_count = percent_count + 1,
            _ => {},
        }
        i = i + 1;
    }
    let keep = grouping_comma_indices.len() - trailing;
    grouping_comma_indices.truncate(keep);
    if integer_placeholders.len() == 0 {
        let at = match decimal_point_index {
            Some(d) => d,
            None => 0,
        };
        integer_placeholders.push(
            NumberPlaceholder { operation_index: at, placeholder: DigitPlaceholder::Hash },
        );
    }
    let r = NumberSpec {
        integer_placeholders,
        decimal_placeholders,
        decimal_point_index,
        grouping_comma_indices,
        thousands_scale: trailing,
        percent_count,
    };
    assert(r@.grouping_comma_indices =~= number_spec(ps).grouping_comma_indices);
    assert(r@.integer_placeholders =~= number_spec(ps).integer_placeholders);
    r
}

/// The scientific-notation analysis of a section's parts, which hold an
/// exponent marker.
pub fn compile_scientific_spec(parts: &Vec<FormatPart>) -> (r: ScientificSpec)
    requires
        any_part(parts_view(parts@), |p: PartView| is_scientific_part(p)),
    ensures
        r@ == scientific_spec(parts_view(parts@)),
        r.exponent_marker_index < parts@.len(),
        parts_view(parts@)[r.exponent_marker_index as int] is Scientific,
{
    let ghost ps = parts_view(parts@);
    let mut mantissa_integer: Vec<NumberPlaceholder> = Vec::new();
    let mut mantissa_decimal: Vec<NumberPlaceholder> = Vec::new();
    let mut exponent_digits: Vec<NumberPlaceholder> = Vec::new();
    let mut decimal_point_index: Option<usize> = None;
    let mut marker: Option<usize> = None;
    let mut marker_at: usize = 0;
    let mut upper = true;
    let mut show_plus = false;
    let mut percent_count: usize = 0;
    let mut i: usize = 0;
    while i < parts.len()
        invariant
            i <= parts.len(),
            ps == parts_view(parts@),
            percent_count <= i,
            ({
                let (a, m) = scientific_fold(ps, i as int);
                &&& a.mantissa_integer == mantissa_integer@
                &&& a.mantissa_decimal == mantissa_decimal@
                &&& a.decimal_point_index == decimal_point_index
                &&& a.exponent_marker_index == marker_at
                &&& a.exponent_digits == exponent_digits@
                &&& a.upper == upper
                &&& a.show_plus == show_plus
                &&& a.percent_count == percent_count as nat
                &&& m == marker
            }),
            marker is Some ==> marker == Some(marker_at) && marker_at < i && ps[marker_at as int] is Scientific,
            marker is None ==> forall|j: int| 0 <= j < i ==> !is_scientific_part(#[trigger] ps[j]),
        decreases parts.len() - i,
    {
        assert(ps[i as int] == parts[i as int]@);
        match &parts[i] {
            FormatPartOf::Digit(p) => {
                let field = NumberPlaceholder { operation_index: i, placeholder: *p };
                if marker.is_some() {
                    exponent_digits.push(field);
                } else if decimal_point_index.is_some() {
                    mantissa_decimal.push(field);
                } else {
                    mantissa_integer.push(field);
                }
            },
            FormatPartOf::DecimalPoint => {
                if marker.is_none() {
                    decimal_point_index = Some(i);
                }
            },
            FormatPartOf::Scientific { upper: u, show_plus: sp } => {
                marker = Some(i);
                marker_at = i;
                upper = *u;
                show_plus = *sp;
            },
            FormatPartOf::Percent => percent_count = percent_count + 1,
            _ => {},
        }
        i = i + 1;
    }
    proof {
        if marker is None {
            let j = choose|j: int| 0 <= j < ps.len() && is_scientific_part(#[trigger] ps[j]);
            assert(is_scientific_part(ps[j]));
        }
    }
    ScientificSpec {
        mantissa_integer,
        mantissa_decimal,
        decimal_point_index,
        exponent_marker_index: marker_at,
        exponent_digits,
        upper,
        show_plus,
        percent_count,
    }
}

/// The fixed-denominator value read so far never exceeds the whole value.
pub proof fn lemma_fraction_value_monotone(ps: Seq<PartView>, i: int, n: int)
    requires
        0 <= i <= n,
    ensures
        fraction_fold(ps, i).value <= fraction_fold(ps, n).value,
    decreases n - i,
{
    if i < n {
        lemma_fraction_value_monotone(ps, i, n - 1);
    }
}

/// The fraction analysis of a section's parts, which hold a slash and a
/// fixed denominator that fits in a `u32`.
pub fn compile_fraction_spec(parts: &Vec<FormatPart>) -> (r: FractionSpec)
    requires
        exists|j: int|
            0 <= j < parts@.len() && parts_view(parts@)[j] == FormatPartOf::<Seq<char>>::Fraction(
                FractionPart::Slash,
            ),
        fixed_fraction_value(parts_view(parts@)) <= u32::MAX,
    ensures
        r@ == fraction_spec(parts_view(parts@)),
        r.slash_index < parts@.len(),
        parts_view(parts@)[r.slash_index as int] == FormatPartOf::<Seq<char>>::Fraction(
            FractionPart::Slash,
        ),
{
    let ghost ps = parts_view(parts@);
    let mut integer: Vec<NumberPlaceholder> = Vec::new();
    let mut numerator: Vec<NumberPlaceholder> = Vec::new();
    let mut slash: Option<usize> = None;
    let mut denominator: Vec<NumberPlaceholder> = Vec::new();
    let mut fixed: Vec<FixedDenominatorDigit> = Vec::new();
    let mut value: u32 = 0;
    let mut i: usize = 0;
    while i < parts.len()
        invariant
            i <= parts.len(),
            ps == parts_view(parts@),
            fraction_fold(ps, ps.len() as int).value <= u32::MAX,
            ({
                let a = fraction_fold(ps, i as int);
                &&& a.integer == integer@
                &&& a.numerator == numerator@
                &&& a.slash == slash
                &&& a.denominator == denominator@
                &&& a.fixed == fixed@
                &&& a.value == value as nat
            }),
            slash matches Some(k) ==> k < i && ps[k as int] == FormatPartOf::<Seq<char>>::Fraction(
                FractionPart::Slash,
            ),
            slash is None ==> forall|j: int|
                0 <= j < i ==> #[trigger] ps[j] != FormatPartOf::<Seq<char>>::Fraction(
                    FractionPart::Slash,
                ),
        decreases parts.len() - i,
    {
        assert(ps[i as int] == parts[i as int]@);
        match &parts[i] {
            FormatPartOf::Fraction(FractionPart::IntegerDigit(p)) => {
                integer.push(NumberPlaceholder { operation_index: i, placeholder: *p });
            },
            FormatPartOf::Fraction(FractionPart::NumeratorDigit(p)) => {
                numerator.push(NumberPlaceholder { operation_index: i, placeholder: *p });
            },
            FormatPartOf::Fraction(FractionPart::Slash) => slash = Some(i),
            FormatPartOf::Fraction(FractionPart::DenominatorDigit(p)) => {
                denominator.push(NumberPlaceholder { operation_index: i, placeholder: *p });
            },
            FormatPartOf::Fraction(FractionPart::FixedDenominatorDigit(d)) => {
                proof {
                    lemma_fraction_value_monotone(ps, i + 1, ps.len() as int);
                }
                value = value * 10 + *d as u32;
                fixed.push(FixedDenominatorDigit { operation_index: i, digit: *d });
            },
            _ => {},
        }
        i = i + 1;
    }
    let slash_index = match slash {
        Some(k) => k,
        None => {
            proof {
                let j = choose|j: int|
                    0 <= j < parts@.len() && ps[j] == FormatPartOf::<Seq<char>>::Fraction(
                        FractionPart::Slash,
                    );
                assert(ps[j] == FormatPartOf::<Seq<char>>::Fraction(FractionPart::Slash));
            }
            0
        },
    };
    let den = if fixed.len() == 0 {
        FractionDenominatorSpec::Variable { placeholders: denominator }
    } else {
        FractionDenominatorSpec::Fixed { value, digits: fixed }
    };
    FractionSpec {
        integer_placeholders: integer,
        numerator_placeholders: numerator,
        slash_index,
        denominator: den,
    }
}


/// Compiles one section into its execution plan.
pub fn compile_section(section: &Section) -> (r: SectionPlan)
    requires
        fraction_ready(section@.parts),
    ensures
        r@ == plan_of(section@),
{
    let parts = section.parts();
    let ghost ps = section@.parts;
    let kind = classify_section(parts);
    let mut operations: Vec<Operation> = Vec::new();
    let mut i: usize = 0;
    while i < parts.len()
        invariant
            i <= parts.len(),
            ps == parts_view(parts@),
            operations@.len() == i,
            forall|j: int| 0 <= j < i ==> (#[trigger] operations@[j])@ == operation_of(ps[j]),
        decreases parts.len() - i,
    {
        operations.push(compile_operation(&parts[i]));
        i = i + 1;
    }
    let number = if kind == SectionKind::Number {
        Some(compile_number_spec(parts))
    } else {
        None
    };
    let scientific = if kind == SectionKind::Scientific {
        Some(compile_scientific_spec(parts))
    } else {
        None
    };
    let fraction = if kind == SectionKind::Fraction {
        Some(compile_fraction_spec(parts))
    } else {
        None
    };
    let r = SectionPlan {
        condition: section.condition(),
        color: section.color(),
        kind,
        operations,
        date: compile_date_spec(parts),
        number,
        scientific,
        fraction,
        text: compile_text_spec(parts),
    };
    assert(r@.operations =~= plan_of(section@).operations);
    r
}

/// The plans of `sections`, in order.
pub open spec fn plans_of(sections: Seq<SectionView>) -> Seq<PlanView> {
    Seq::new(sections.len(), |i: int| plan_of(sections[i]))
}

impl CompiledFormat {
    /// Compiles every section once.
    pub fn new(sections: &Vec<Section>) -> (r: CompiledFormat)
        requires
            forall|i: int| 0 <= i < sections@.len() ==> fraction_ready(#[trigger] sections@[i]@.parts),
        ensures
            r@ == plans_of(Seq::new(sections@.len(), |i: int| sections@[i]@)),
    {
        let mut plans: Vec<SectionPlan> = Vec::new();
        let mut i: usize = 0;
        while i < sections.len()
            invariant
                i <= sections.len(),
                forall|i: int| 0 <= i < sections@.len() ==> fraction_ready(#[trigger] sections@[i]@.parts),
                plans@.len() == i,
                forall|j: int| 0 <= j < i ==> (#[trigger] plans@[j])@ == plan_of(sections@[j]@),
            decreases sections.len() - i,
        {
            plans.push(compile_section(&sections[i]));
            i = i + 1;
        }
        let r = CompiledFormat { sections: plans };
        assert(r@ =~= plans_of(Seq::new(sections@.len(), |i: int| sections@[i]@)));
        r
    }
}

/// A plan keeps the order of its section: one operation per part, each
/// compiled from the part at the same position.
pub proof fn law_plan_preserves_source_order(sec: SectionView)
    ensures
        plan_of(sec).operations.len() == sec.parts.len(),
        forall|i: int|
            0 <= i < sec.parts.len() ==> #[trigger] plan_of(sec).operations[i] == operation_of(
                sec.parts[i],
            ),
{
}

} // verus!
