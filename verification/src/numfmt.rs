//! A parsed number format: its sections and their compiled plans.
use vstd::prelude::*;

use crate::ast::{
    fill_count, parts_view, FormatPart, FormatPartOf, FractionPart, PartView, Section, SectionView,
};
use crate::compile::{
    any_part, fixed_fraction_value, fraction_fold, fraction_ready, is_fraction_part,
    lemma_fraction_value_monotone, plans_of, CompiledFormat,
};
use crate::digits::{decimal_chars, digits_of};
use crate::formatter::fraction::{
    fraction_within, law_compiled_fraction_within, law_compiled_numerator_apart, numerator_apart,
};
use crate::error::{ParseError, FIXED_DENOMINATOR_OVERFLOW};
use crate::chars::extend_chars;
use crate::formatter::render::{layout_bytes, resolved};
use crate::formatter::text::text_render;
use crate::options::FormatOptions;
use crate::parser::detect::has_date;
use crate::parser::sections_view;
use crate::parser::spec::{general_slice_panics, parsed_sections};

verus! {

/// The fraction slash.
pub open spec fn slash_part() -> PartView {
    FormatPartOf::Fraction(FractionPart::Slash)
}

/// Whether `ps` holds a fraction slash.
pub open spec fn has_slash(ps: Seq<PartView>) -> bool {
    exists|j: int| 0 <= j < ps.len() && #[trigger] ps[j] == slash_part()
}

/// Whether `ps` holds any fraction component.
pub open spec fn has_fraction(ps: Seq<PartView>) -> bool {
    any_part(ps, |p: PartView| is_fraction_part(p))
}

/// A fraction component read as ordinary number syntax: digit placeholders
/// become digits and a fixed denominator digit becomes its literal text.
pub open spec fn demote_part(p: PartView) -> PartView {
    match p {
        FormatPartOf::Fraction(FractionPart::IntegerDigit(d)) => FormatPartOf::Digit(d),
        FormatPartOf::Fraction(FractionPart::NumeratorDigit(d)) => FormatPartOf::Digit(d),
        FormatPartOf::Fraction(FractionPart::DenominatorDigit(d)) => FormatPartOf::Digit(d),
        FormatPartOf::Fraction(FractionPart::FixedDenominatorDigit(n)) => FormatPartOf::Literal(
            digits_of(n as nat),
        ),
        _ => p,
    }
}

/// Fraction components without a slash do not form a fraction: they are
/// read as ordinary number syntax.
pub open spec fn normalize_parts(ps: Seq<PartView>) -> Seq<PartView> {
    if has_fraction(ps) && !has_slash(ps) {
        Seq::new(ps.len(), |j: int| demote_part(ps[j]))
    } else {
        ps
    }
}

/// A fraction whose fixed denominator does not fit in a `u32`.
pub open spec fn fraction_overflows(ps: Seq<PartView>) -> bool {
    has_slash(ps) && fixed_fraction_value(ps) > u32::MAX
}

pub open spec fn normalize_section(s: SectionView) -> SectionView {
    SectionView { parts: normalize_parts(s.parts), ..s }
}

/// The sections a format keeps: the first four.
pub open spec fn retained(secs: Seq<SectionView>) -> Seq<SectionView> {
    if secs.len() > 4 {
        secs.take(4)
    } else {
        secs
    }
}

/// The index of the first of the first `n` sections whose fraction overflows.
pub open spec fn first_overflow(secs: Seq<SectionView>, n: int) -> Option<int>
    decreases n,
{
    if n <= 0 {
        None
    } else {
        match first_overflow(secs, n - 1) {
            Some(k) => Some(k),
            None => if fraction_overflows(secs[n - 1].parts) {
                Some(n - 1)
            } else {
                None
            },
        }
    }
}

/// What building a format from `secs` gives: an empty list is refused, only
/// the first four sections are kept, the first of them whose fixed
/// denominator overflows is reported, and the kept sections are normalized.
pub open spec fn format_outcome(secs: Seq<SectionView>) -> Result<Seq<SectionView>, ParseError> {
    let kept = retained(secs);
    if secs.len() == 0 {
        Err(ParseError::EmptyFormat)
    } else {
        match first_overflow(kept, kept.len() as int) {
            Some(k) => Err(
                ParseError::InvalidFraction {
                    section_index: k as usize,
                    reason: FIXED_DENOMINATOR_OVERFLOW,
                },
            ),
            None => Ok(Seq::new(kept.len(), |i: int| normalize_section(kept[i]))),
        }
    }
}

proof fn lemma_first_overflow(secs: Seq<SectionView>, n: int)
    requires
        0 <= n <= secs.len(),
    ensures
        first_overflow(secs, n) matches Some(k) ==> 0 <= k < n && fraction_overflows(secs[k].parts),
        first_overflow(secs, n) is None ==> forall|j: int|
            0 <= j < n ==> !fraction_overflows(#[trigger] secs[j].parts),
    decreases n,
{
    if n > 0 {
        lemma_first_overflow(secs, n - 1);
    }
}

/// Two sequences with fills at the same places hold as many fills.
proof fn lemma_same_fills(a: Seq<PartView>, b: Seq<PartView>)
    requires
        a.len() == b.len(),
        forall|j: int| 0 <= j < a.len() ==> (#[trigger] a[j]).is_fill() == b[j].is_fill(),
    ensures
        fill_count(a) == fill_count(b),
    decreases a.len(),
{
    if a.len() > 0 {
        lemma_same_fills(a.drop_last(), b.drop_last());
    }
}

/// Normalized parts of a section that does not overflow are ready to compile.
proof fn lemma_normalized_ready(ps: Seq<PartView>)
    requires
        !fraction_overflows(ps),
    ensures
        fraction_ready(normalize_parts(ps)),
{
    let n = normalize_parts(ps);
    if has_fraction(ps) && !has_slash(ps) {
        assert forall|j: int| 0 <= j < n.len() implies !is_fraction_part(#[trigger] n[j]) by {
            assert(ps[j] != slash_part());
        }
    }
}

/// Whether `parts` holds a fraction component, and whether it holds a slash.
fn fraction_shape(parts: &Vec<FormatPart>) -> (r: (bool, bool))
    ensures
        r.0 == has_fraction(parts_view(parts@)),
        r.1 == has_slash(parts_view(parts@)),
        parts@.len() <= usize::MAX,
{
    let ghost ps = parts_view(parts@);
    let mut fraction = false;
    let mut slash = false;
    let mut i: usize = 0;
    while i < parts.len()
        invariant
            i <= parts.len(),
            ps == parts_view(parts@),
            fraction == exists|j: int| 0 <= j < i && is_fraction_part(#[trigger] ps[j]),
            slash == exists|j: int| 0 <= j < i && #[trigger] ps[j] == slash_part(),
        decreases parts.len() - i,
    {
        assert(ps[i as int] == parts[i as int]@);
        match &parts[i] {
            FormatPartOf::Fraction(FractionPart::Slash) => {
                fraction = true;
                slash = true;
            },
            FormatPartOf::Fraction(_) => fraction = true,
            _ => {},
        }
        i = i + 1;
    }
    (fraction, slash)
}

/// Whether the fixed denominator digits of `parts` exceed `u32::MAX`.
fn fixed_denominator_overflows(parts: &Vec<FormatPart>) -> (r: bool)
    ensures
        r == (fixed_fraction_value(parts_view(parts@)) > u32::MAX),
{
    let ghost ps = parts_view(parts@);
    let mut over = false;
    let mut value: u64 = 0;
    let mut i: usize = 0;
    while i < parts.len()
        invariant
            i <= parts.len(),
            ps == parts_view(parts@),
            !over ==> value == fraction_fold(ps, i as int).value && value <= u32::MAX,
            over ==> fraction_fold(ps, i as int).value > u32::MAX,
        decreases parts.len() - i,
    {
        assert(ps[i as int] == parts[i as int]@);
        if let FormatPartOf::Fraction(FractionPart::FixedDenominatorDigit(d)) = &parts[i] {
            if !over {
                value = value * 10 + *d as u64;
                if value > 4294967295 {
                    over = true;
                }
            }
        }
        proof {
            if over {
                lemma_fraction_value_monotone(ps, i as int, i + 1);
            }
        }
        i = i + 1;
    }
    over
}

/// `parts` with every fraction component read as ordinary number syntax.
fn demote_parts(parts: &Vec<FormatPart>) -> (r: Vec<FormatPart>)
    ensures
        parts_view(r@) == Seq::new(parts@.len(), |j: int| demote_part(parts_view(parts@)[j])),
{
    let ghost ps = parts_view(parts@);
    let mut r: Vec<FormatPart> = Vec::new();
    let mut i: usize = 0;
    while i < parts.len()
        invariant
            i <= parts.len(),
            ps == parts_view(parts@),
            r@.len() == i,
            forall|j: int| 0 <= j < i ==> (#[trigger] r@[j])@ == demote_part(ps[j]),
        decreases parts.len() - i,
    {
        assert(ps[i as int] == parts[i as int]@);
        let p = match &parts[i] {
            FormatPartOf::Fraction(FractionPart::IntegerDigit(d)) => FormatPartOf::Digit(*d),
            FormatPartOf::Fraction(FractionPart::NumeratorDigit(d)) => FormatPartOf::Digit(*d),
            FormatPartOf::Fraction(FractionPart::DenominatorDigit(d)) => FormatPartOf::Digit(*d),
            FormatPartOf::Fraction(FractionPart::FixedDenominatorDigit(n)) => {
                let digits = decimal_chars(*n as u64);
                FormatPartOf::Literal(crate::chars::string_of(digits.as_slice()))
            },
            other => other.copy(),
        };
        r.push(p);
        i = i + 1;
    }
    assert(parts_view(r@) =~= Seq::new(parts@.len(), |j: int| demote_part(ps[j])));
    r
}

/// The section with fraction components that lack a slash demoted.
fn normalize(section: &Section) -> (r: Section)
    ensures
        r@ == normalize_section(section@),
{
    let parts = section.parts();
    let (fraction, slash) = fraction_shape(parts);
    if fraction && !slash {
        let demoted = demote_parts(parts);
        proof {
            lemma_same_fills(parts_view(demoted@), section@.parts);
        }
        Section::from_normalized(section.condition(), section.color(), demoted)
    } else {
        section.copy()
    }
}

/// A parsed number format: one to four sections, each with its compiled plan.
#[derive(Debug, PartialEq)]
pub struct NumberFormat {
    sections: Vec<Section>,
    compiled: CompiledFormat,
}

impl View for NumberFormat {
    type V = Seq<SectionView>;

    closed spec fn view(&self) -> Seq<SectionView> {
        sections_view(self.sections@)
    }
}

impl NumberFormat {
    /// One to four sections, all ready to compile, and the plans are those
    /// of the sections, in the same order.
    #[verifier::type_invariant]
    closed spec fn inv(self) -> bool {
        &&& 1 <= self.sections@.len() <= 4
        &&& forall|i: int|
            0 <= i < self.sections@.len() ==> fraction_ready(#[trigger] self.sections@[i]@.parts)
        &&& forall|i: int|
            0 <= i < self.sections@.len() ==> (#[trigger] self.sections@[i]@.parts).len()
                <= usize::MAX
        &&& self.compiled@ == plans_of(sections_view(self.sections@))
    }

    /// Builds a format from sections: the first four are kept, fraction
    /// components without a slash are read as ordinary number syntax, and a
    /// fixed denominator beyond `u32::MAX` is refused.
    pub fn from_sections(sections: Vec<Section>) -> (r: Result<NumberFormat, ParseError>)
        ensures
            match format_outcome(sections_view(sections@)) {
                Ok(v) => r matches Ok(f) && f@ == v,
                Err(e) => r matches Err(x) && x == e,
            },
    {
        let ghost secs = sections_view(sections@);
        if sections.len() == 0 {
            return Err(ParseError::EmptyFormat);
        }
        let n = if sections.len() > 4 {
            4
        } else {
            sections.len()
        };
        let ghost kept = retained(secs);
        assert(kept.len() == n);
        let mut out: Vec<Section> = Vec::new();
        let mut i: usize = 0;
        while i < n
            invariant
                i <= n <= sections@.len(),
                n == kept.len(),
                kept == retained(secs),
                secs == sections_view(sections@),
                first_overflow(kept, i as int) is None,
                out@.len() == i,
                forall|j: int| 0 <= j < i ==> (#[trigger] out@[j])@ == normalize_section(kept[j]),
                forall|j: int| 0 <= j < i ==> fraction_ready(#[trigger] out@[j]@.parts),
                forall|j: int| 0 <= j < i ==> (#[trigger] out@[j]@.parts).len() <= usize::MAX,
            decreases n - i,
        {
            assert(kept[i as int] == sections@[i as int]@);
            let parts = sections[i].parts();
            let (_, slash) = fraction_shape(parts);
            if slash && fixed_denominator_overflows(parts) {
                assert(first_overflow(kept, i + 1) == Some(i as int));
                proof {
                    assert forall|k: int| i < k <= n implies first_overflow(kept, k) == Some(
                        i as int,
                    ) by {
                        lemma_overflow_persists(kept, i as int, k);
                    }
                }
                return Err(
                    ParseError::InvalidFraction {
                        section_index: i,
                        reason: FIXED_DENOMINATOR_OVERFLOW,
                    },
                );
            }
            let s = normalize(&sections[i]);
            assert(s@.parts.len() == parts@.len());
            proof {
                lemma_normalized_ready(kept[i as int].parts);
            }
            out.push(s);
            i = i + 1;
        }
        proof {
            lemma_first_overflow(kept, n as int);
        }
        let compiled = CompiledFormat::new(&out);
        let r = NumberFormat { sections: out, compiled };
        assert(r@ =~= Seq::new(kept.len(), |i: int| normalize_section(kept[i])));
        assert(sections_view(r.sections@) =~= Seq::new(
            r.sections@.len(),
            |i: int| r.sections@[i]@,
        ));
        Ok(r)
    }

    /// The sections, in order.
    pub fn sections(&self) -> (r: &Vec<Section>)
        ensures
            sections_view(r@) == self@,
            1 <= r@.len() <= 4,
    {
        proof {
            use_type_invariant(self);
        }
        &self.sections
    }

    /// The compiled plans, one per section and in the same order; the
    /// fields of a compiled fraction name operations of its own plan.
    pub fn compiled(&self) -> (r: &CompiledFormat)
        ensures
            r@ == plans_of(self@),
            r@.len() == self@.len(),
            forall|i: int|
                0 <= i < r@.len() ==> ((#[trigger] r@[i]).fraction matches Some(f) ==> fraction_within(
                    f,
                    r@[i].operations.len(),
                )),
            forall|i: int|
                0 <= i < r@.len() ==> ((#[trigger] r@[i]).fraction matches Some(f) ==> numerator_apart(
                    f,
                )),
    {
        proof {
            use_type_invariant(self);
            assert forall|i: int| 0 <= i < self@.len() implies (#[trigger] plans_of(self@)[i]).fraction matches Some(
                f,
            ) ==> fraction_within(f, plans_of(self@)[i].operations.len()) by {
                assert(self@[i] == self.sections@[i]@);
                law_compiled_fraction_within(self@[i]);
            }
            assert forall|i: int| 0 <= i < self@.len() implies (#[trigger] plans_of(self@)[i]).fraction matches Some(
                f,
            ) ==> numerator_apart(f) by {
                assert(self@[i] == self.sections@[i]@);
                law_compiled_numerator_apart(self@[i]);
            }
        }
        &self.compiled
    }
}

/// Once an overflow is found among the first `i + 1` sections, it stays the
/// first one.
proof fn lemma_overflow_persists(secs: Seq<SectionView>, i: int, k: int)
    requires
        0 <= i < k,
        first_overflow(secs, i + 1) == Some(i),
    ensures
        first_overflow(secs, k) == Some(i),
    decreases k - i,
{
    if k > i + 1 {
        lemma_overflow_persists(secs, i, k - 1);
    }
}

/// Whether `ps` holds a percent sign.
pub open spec fn has_percent(ps: Seq<PartView>) -> bool {
    exists|j: int| 0 <= j < ps.len() && #[trigger] ps[j] == PartView::Percent
}

/// Whether `ps` holds the text placeholder `@`.
pub open spec fn has_text_placeholder(ps: Seq<PartView>) -> bool {
    exists|j: int| 0 <= j < ps.len() && #[trigger] ps[j] == PartView::TextPlaceholder
}

/// The section that formats text: the fourth when there is one, else the
/// last section when it holds `@`.
pub open spec fn text_section_index(secs: Seq<SectionView>) -> Option<int> {
    if secs.len() >= 4 {
        Some(3)
    } else if secs.len() > 0 && has_text_placeholder(secs.last().parts) {
        Some(secs.len() - 1)
    } else {
        None
    }
}

/// Text shown by parts without their layout: `@` shows the text, literals
/// show themselves, and every other part, fills and skips among them, shows
/// nothing.
pub open spec fn render_text_parts(ps: Seq<PartView>, text: Seq<char>) -> Seq<char>
    decreases ps.len(),
{
    if ps.len() == 0 {
        Seq::empty()
    } else {
        render_text_parts(ps.drop_last(), text) + match ps.last() {
            FormatPartOf::TextPlaceholder => text,
            FormatPartOf::Literal(t) => t,
            FormatPartOf::EscapedLiteral(t) => t,
            _ => Seq::empty(),
        }
    }
}

/// How a format shows a text value when its layout cannot be resolved:
/// through its text section without fills and skips, or unchanged when it
/// has no text section.
pub open spec fn unlaid_text(secs: Seq<SectionView>, text: Seq<char>) -> Seq<char> {
    match text_section_index(secs) {
        Some(i) => render_text_parts(secs[i].parts, text),
        None => text,
    }
}

/// How a format shows a text value with its layout resolved: the text
/// section's parts in source order, each fill repeated `n` times and each
/// skip one space; unchanged when there is no text section.
pub open spec fn laid_out_text(secs: Seq<SectionView>, text: Seq<char>, n: nat) -> Seq<char> {
    match text_section_index(secs) {
        Some(i) => resolved(text_render(plans_of(secs)[i], text), n),
        None => text,
    }
}

/// The number of bytes a text value's laid-out text takes.
pub open spec fn text_layout_bytes(secs: Seq<SectionView>, text: Seq<char>, n: nat) -> nat {
    match text_section_index(secs) {
        Some(i) => layout_bytes(text_render(plans_of(secs)[i], text), n),
        None => 0,
    }
}

impl NumberFormat {
    /// Parses a format code.
    pub fn parse(code: &str) -> (r: Result<NumberFormat, ParseError>)
        requires
            !general_slice_panics(code@),
        ensures
            match parsed_sections(code@) {
                Ok(v) => match format_outcome(v) {
                    Ok(w) => r matches Ok(f) && f@ == w,
                    Err(e) => r matches Err(x) && x == e,
                },
                Err(e) => r matches Err(x) && x == e,
            },
    {
        crate::parser::parse(code)
    }

    /// Whether any section shows a date or time.
    pub fn is_date_format(&self) -> (r: bool)
        ensures
            r == exists|i: int|
                0 <= i < self@.len() && #[trigger] has_date(self@[i].parts),
    {
        proof {
            use_type_invariant(self);
        }
        let mut i: usize = 0;
        while i < self.sections.len()
            invariant
                i <= self.sections@.len(),
                forall|j: int|
                    0 <= j < i ==> !#[trigger] has_date(self@[j].parts),
            decreases self.sections@.len() - i,
        {
            assert(self@[i as int] == self.sections@[i as int]@);
            if self.sections[i].has_date_parts() {
                assert(has_date(self@[i as int].parts));
                return true;
            }
            i = i + 1;
        }
        false
    }

    /// Whether any section has a color.
    pub fn has_color(&self) -> (r: bool)
        ensures
            r == exists|i: int| 0 <= i < self@.len() && (#[trigger] self@[i]).color is Some,
    {
        proof {
            use_type_invariant(self);
        }
        let mut i: usize = 0;
        while i < self.sections.len()
            invariant
                i <= self.sections@.len(),
                forall|j: int| 0 <= j < i ==> (#[trigger] self@[j]).color is None,
            decreases self.sections@.len() - i,
        {
            assert(self@[i as int] == self.sections@[i as int]@);
            if self.sections[i].color().is_some() {
                return true;
            }
            i = i + 1;
        }
        false
    }

    /// Whether any section shows a percentage.
    pub fn is_percentage(&self) -> (r: bool)
        ensures
            r == exists|i: int|
                0 <= i < self@.len() && #[trigger] has_percent(self@[i].parts),
    {
        proof {
            use_type_invariant(self);
        }
        let mut i: usize = 0;
        while i < self.sections.len()
            invariant
                i <= self.sections@.len(),
                forall|j: int|
                    0 <= j < i ==> !#[trigger] has_percent(self@[j].parts),
            decreases self.sections@.len() - i,
        {
            assert(self@[i as int] == self.sections@[i as int]@);
            let parts = self.sections[i].parts();
            let mut k: usize = 0;
            while k < parts.len()
                invariant
                    k <= parts@.len(),
                    i < self@.len(),
                    parts_view(parts@) == self@[i as int].parts,
                    forall|j: int| 0 <= j < k ==> (#[trigger] parts_view(parts@)[j]) != PartView::Percent,
                decreases parts@.len() - k,
            {
                if matches!(parts[k], FormatPartOf::Percent) {
                    assert(parts_view(parts@)[k as int] == PartView::Percent);
                    assert(has_percent(self@[i as int].parts));
                    return true;
                }
                k = k + 1;
            }
            i = i + 1;
        }
        false
    }

    /// Whether any section holds the text placeholder `@`.
    pub fn is_text_format(&self) -> (r: bool)
        ensures
            r == exists|i: int| 0 <= i < self@.len() && #[trigger] has_text_placeholder(self@[i].parts),
    {
        proof {
            use_type_invariant(self);
        }
        let mut i: usize = 0;
        while i < self.sections.len()
            invariant
                i <= self.sections@.len(),
                forall|j: int| 0 <= j < i ==> !#[trigger] has_text_placeholder(self@[j].parts),
            decreases self.sections@.len() - i,
        {
            assert(self@[i as int] == self.sections@[i as int]@);
            if self.sections[i].has_text_placeholder() {
                assert(has_text_placeholder(self@[i as int].parts));
                return true;
            }
            i = i + 1;
        }
        false
    }

    /// The section that formats text values, if any.
    fn select_text_section(&self) -> (r: Option<&Section>)
        ensures
            match text_section_index(self@) {
                Some(i) => r matches Some(s) && s@ == self@[i],
                None => r is None,
            },
    {
        proof {
            use_type_invariant(self);
        }
        let n = self.sections.len();
        if n >= 4 {
            assert(self@[3] == self.sections@[3]@);
            return Some(&self.sections[3]);
        }
        assert(self@.last() == self.sections@[n - 1]@);
        if self.sections[n - 1].has_text_placeholder() {
            Some(&self.sections[n - 1])
        } else {
            None
        }
    }

    /// Formats a text value: the text section's parts in source order, with
    /// `@` showing the text, each fill repeated `opts.fill_count` times and
    /// each skip one space. When that layout cannot be produced (more than
    /// `isize::MAX` bytes, or refused by the allocator) the text section is
    /// shown without its fills and skips. Without a text section the text is
    /// shown unchanged.
    pub fn format_text(&self, text: &str, opts: &FormatOptions) -> (r: String)
        ensures
            text_section_index(self@) is None ==> r@ == text@,
            r@ == laid_out_text(self@, text@, opts.fill_count as nat) || r@ == unlaid_text(
                self@,
                text@,
            ),
            text_layout_bytes(self@, text@, opts.fill_count as nat) > isize::MAX ==> r@
                == unlaid_text(self@, text@),
            text_layout_bytes(self@, text@, opts.fill_count as nat) == 0 ==> r@ == laid_out_text(
                self@,
                text@,
                opts.fill_count as nat,
            ),
    {
        match self.try_format_text(text, opts) {
            Ok(s) => s,
            Err(_) => self.text_without_layout(text),
        }
    }

    /// A text value through the text section without its fills and skips.
    fn text_without_layout(&self, text: &str) -> (r: String)
        ensures
            r@ == unlaid_text(self@, text@),
    {
        match self.select_text_section() {
            Some(section) => {
                let parts = section.parts();
                let ghost ps = section@.parts;
                let value = crate::chars::chars_of(text);
                let mut out: Vec<char> = Vec::new();
                let mut i: usize = 0;
                while i < parts.len()
                    invariant
                        i <= parts@.len(),
                        ps == parts_view(parts@),
                        value@ == text@,
                        out@ == render_text_parts(ps.take(i as int), text@),
                    decreases parts@.len() - i,
                {
                    assert(ps.take(i + 1).drop_last() =~= ps.take(i as int));
                    assert(ps[i as int] == parts[i as int]@);
                    match &parts[i] {
                        FormatPartOf::TextPlaceholder => extend_chars(&mut out, &value),
                        FormatPartOf::Literal(t) | FormatPartOf::EscapedLiteral(t) => {
                            let tc = crate::chars::chars_of(t.as_str());
                            extend_chars(&mut out, &tc);
                        },
                        _ => {
                            assert(out@ =~= out@ + Seq::<char>::empty());
                        },
                    }
                    i = i + 1;
                }
                assert(ps.take(parts@.len() as int) =~= ps);
                crate::chars::string_of(out.as_slice())
            },
            None => crate::chars::string_of(crate::chars::chars_of(text).as_slice()),
        }
    }
}

/// A format built from sections keeps the first four of them, normalized,
/// in their order: it always holds one to four sections.
pub proof fn law_format_keeps_first_four(secs: Seq<SectionView>)
    ensures
        format_outcome(secs) matches Ok(v) ==> {
            &&& 1 <= v.len() <= 4
            &&& v.len() == if secs.len() > 4 {
                4
            } else {
                secs.len()
            }
            &&& forall|i: int| 0 <= i < v.len() ==> #[trigger] v[i] == normalize_section(secs[i])
        },
{
}

} // verus!
