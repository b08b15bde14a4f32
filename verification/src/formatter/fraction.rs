//! Fraction fields: the integer, numerator, slash and denominator text that
//! each fraction operation shows, with layout operations left in place.
use vstd::prelude::*;

use crate::ast::{opt_text_view, DigitPlaceholder, FormatPartOf, FractionPart, PartView, SectionView};
use crate::chars::{string_of, string_push, string_push_str};
use crate::compile::{
    any_part, classify, fraction_fold, fraction_ready, fraction_spec, is_fraction_part, plan_of,
    DenominatorView, FixedDenominatorDigit, FractionDenominatorSpec, FractionSpec, FractionSpecView,
    NumberPlaceholder, OperationOf, OperationView, PlanView, SectionKind, SectionPlan,
};
use crate::digits::{decimal_chars, digits_of, lemma_digits_of};
use crate::error::FormatError;

use super::number::{format_simple_with_placeholders, simple_text};
use super::render::{render_views, RenderPart, RenderView};
use super::{eval_ops, evaluate_operations, fields_view};

verus! {

/// Value-dependent state shared by all fraction operations.
#[derive(Debug, Clone, Copy, PartialEq, Eq, Structural)]
pub struct PreparedFraction {
    /// Whole-number portion of a mixed fraction.
    pub integer: u64,
    /// Numerator after approximation and carry.
    pub numerator: u32,
    /// Variable or fixed denominator.
    pub denominator: u32,
    /// Width used to pad variable fraction components.
    pub padding_width: usize,
}

pub type Fields = Seq<Option<Seq<char>>>;

/// `n` spaces.
pub open spec fn spaces(n: int) -> Seq<char> {
    Seq::new(n as nat, |_i: int| ' ')
}

/// `s` right-aligned in width `w`.
pub open spec fn pad_left(s: Seq<char>, w: int) -> Seq<char> {
    if s.len() >= w {
        s
    } else {
        spaces(w - s.len()) + s
    }
}

/// `s` left-aligned in width `w`.
pub open spec fn pad_right(s: Seq<char>, w: int) -> Seq<char> {
    if s.len() >= w {
        s
    } else {
        s + spaces(w - s.len())
    }
}

/// Field `i` with `c` appended.
pub open spec fn append_char(f: Fields, i: int, c: char) -> Fields {
    f.update(
        i,
        Some(
            match f[i] {
                Some(s) => s.push(c),
                None => seq![c],
            },
        ),
    )
}

/// The first `k` zipped characters, appended to their placeholders' fields.
pub open spec fn right_chars(
    f: Fields,
    text: Seq<char>,
    phs: Seq<NumberPlaceholder>,
    ps_start: int,
    cs_start: int,
    k: int,
) -> Fields
    decreases k,
{
    if k <= 0 {
        f
    } else {
        append_char(
            right_chars(f, text, phs, ps_start, cs_start, k - 1),
            phs[ps_start + k - 1].operation_index as int,
            text[cs_start + k - 1],
        )
    }
}

pub open spec fn min(a: int, b: int) -> int {
    if a <= b {
        a
    } else {
        b
    }
}

/// `text` right-aligned on the placeholders: one character each from the
/// right, and leading overflow in the first placeholder's field.
pub open spec fn assign_right(text: Seq<char>, phs: Seq<NumberPlaceholder>, f: Fields) -> Fields {
    if phs.len() == 0 {
        f
    } else {
        let over = if text.len() > phs.len() {
            text.len() - phs.len()
        } else {
            0
        };
        let f1 = if over > 0 {
            f.update(phs[0].operation_index as int, Some(text.take(over)))
        } else {
            f
        };
        let ps_start = if phs.len() > text.len() {
            phs.len() - text.len()
        } else {
            0
        };
        right_chars(f1, text, phs, ps_start, over, min(phs.len() as int, text.len() as int))
    }
}

/// The first `k` characters of `text`, one per placeholder from the left.
pub open spec fn left_chars(f: Fields, text: Seq<char>, phs: Seq<NumberPlaceholder>, k: int) -> Fields
    decreases k,
{
    if k <= 0 {
        f
    } else {
        left_chars(f, text, phs, k - 1).update(
            phs[k - 1].operation_index as int,
            Some(seq![text[k - 1]]),
        )
    }
}

/// `text` left-aligned on the placeholders: one character each from the
/// left, and trailing overflow in the last placeholder's field.
pub open spec fn assign_left(text: Seq<char>, phs: Seq<NumberPlaceholder>, f: Fields) -> Fields {
    if phs.len() == 0 {
        f
    } else if text.len() < phs.len() {
        left_chars(f, text, phs, text.len() as int)
    } else {
        let f1 = left_chars(f, text, phs, phs.len() as int);
        let last = phs.last().operation_index as int;
        f1.update(
            last,
            Some(
                match f1[last] {
                    Some(s) => s,
                    None => Seq::empty(),
                } + text.skip(phs.len() as int),
            ),
        )
    }
}

/// Each placeholder with a padding character shows it.
pub open spec fn assign_empty(phs: Seq<NumberPlaceholder>, f: Fields, k: int) -> Fields
    decreases k,
{
    if k <= 0 {
        f
    } else {
        let g = assign_empty(phs, f, k - 1);
        match phs[k - 1].placeholder.padding() {
            Some(c) => g.update(phs[k - 1].operation_index as int, Some(seq![c])),
            None => g,
        }
    }
}

/// Each fixed denominator digit shows `text` (when `text` is given) or
/// itself.
pub open spec fn assign_fixed(digits: Seq<FixedDenominatorDigit>, text: Option<Seq<char>>, f: Fields, k: int) -> Fields
    decreases k,
{
    if k <= 0 {
        f
    } else {
        assign_fixed(digits, text, f, k - 1).update(
            digits[k - 1].operation_index as int,
            Some(
                match text {
                    Some(t) => t,
                    None => digits_of(digits[k - 1].digit as nat),
                },
            ),
        )
    }
}

pub open spec fn placeholder_kinds(phs: Seq<NumberPlaceholder>) -> Seq<DigitPlaceholder> {
    Seq::new(phs.len(), |i: int| phs[i].placeholder)
}

/// A component formatted on its placeholders and assigned right-aligned.
pub open spec fn assign_formatted(value: nat, phs: Seq<NumberPlaceholder>, f: Fields) -> Fields {
    assign_right(simple_text(value, placeholder_kinds(phs)), phs, f)
}

/// The text each operation of a fraction shows. A mixed fraction shows its
/// integer when it is nonzero or there is no fractional part; with no
/// fractional part its numerator, slash and denominator become spaces.
/// Otherwise the numerator, `/` and the denominator (its digits when fixed)
/// are shown, variable parts padded to the common width.
pub open spec fn fraction_fields(count: nat, spec: FractionSpecView, pr: PreparedFraction) -> Fields {
    let f0 = Seq::new(count, |_i: int| None::<Seq<char>>);
    let mixed = spec.integer_placeholders.len() > 0;
    let ints = spec.integer_placeholders;
    let nums = spec.numerator_placeholders;
    let f1 = if mixed {
        if pr.integer > 0 || pr.numerator == 0 {
            assign_formatted(pr.integer as nat, ints, f0)
        } else {
            assign_empty(ints, f0, ints.len() as int)
        }
    } else {
        f0
    };
    let width = match spec.denominator {
        DenominatorView::Variable { .. } => pr.padding_width as int,
        DenominatorView::Fixed { .. } => nums.len() as int,
    };
    if mixed && pr.numerator == 0 {
        let f2 = assign_right(spaces(width), nums, f1);
        let f3 = f2.update(spec.slash_index as int, Some(seq![' ']));
        match spec.denominator {
            DenominatorView::Variable { placeholders } => assign_left(
                spaces(pr.padding_width as int),
                placeholders,
                f3,
            ),
            DenominatorView::Fixed { digits, .. } => assign_fixed(
                digits,
                Some(seq![' ']),
                f3,
                digits.len() as int,
            ),
        }
    } else {
        let f2 = if mixed {
            assign_right(pad_left(digits_of(pr.numerator as nat), width), nums, f1)
        } else {
            assign_formatted(pr.numerator as nat, nums, f1)
        };
        let f3 = f2.update(spec.slash_index as int, Some(seq!['/']));
        match spec.denominator {
            DenominatorView::Variable { placeholders } => assign_left(
                pad_right(digits_of(pr.denominator as nat), pr.padding_width as int),
                placeholders,
                f3,
            ),
            DenominatorView::Fixed { digits, .. } => assign_fixed(
                digits,
                None,
                f3,
                digits.len() as int,
            ),
        }
    }
}

/// Every placeholder names an operation below `count`.
pub open spec fn below(phs: Seq<NumberPlaceholder>, count: nat) -> bool {
    forall|i: int| 0 <= i < phs.len() ==> (#[trigger] phs[i]).operation_index < count
}

/// Every field of a fraction names an operation below `count`.
pub open spec fn fraction_within(spec: FractionSpecView, count: nat) -> bool {
    &&& below(spec.integer_placeholders, count)
    &&& below(spec.numerator_placeholders, count)
    &&& spec.slash_index < count
    &&& match spec.denominator {
        DenominatorView::Variable { placeholders } => below(placeholders, count),
        DenominatorView::Fixed { digits, .. } => forall|i: int|
            0 <= i < digits.len() ==> (#[trigger] digits[i]).operation_index < count,
    }
}

/// Field `i`, or nothing.
fn field_text(fields: &Vec<Option<String>>, i: usize) -> (r: String)
    requires
        i < fields@.len(),
    ensures
        r@ == match fields_view(fields@)[i as int] {
            Some(s) => s,
            None => Seq::empty(),
        },
{
    match &fields[i] {
        Some(s) => s.clone(),
        None => String::new(),
    }
}

/// Assigns text right-to-left, attaching leading overflow to the first field.
fn assign_right_aligned(text: &Vec<char>, placeholders: &Vec<NumberPlaceholder>, fields: &mut Vec<Option<String>>)
    requires
        below(placeholders@, old(fields)@.len()),
    ensures
        fields_view(final(fields)@) == assign_right(text@, placeholders@, fields_view(old(fields)@)),
        final(fields)@.len() == old(fields)@.len(),
{
    let ghost phs = placeholders@;
    let ghost f = fields_view(fields@);
    if placeholders.len() == 0 {
        return;
    }
    let overflow: usize = if text.len() > placeholders.len() {
        text.len() - placeholders.len()
    } else {
        0
    };
    assert(placeholders@.len() <= text@.len() ==> overflow + placeholders@.len() == text@.len());
    if overflow > 0 {
        let lead = string_of(crate::chars::slice_chars(text, 0, overflow).as_slice());
        let ghost lv = lead@;
        fields.set(placeholders[0].operation_index, Some(lead));
        assert(text@.subrange(0, overflow as int) =~= text@.take(overflow as int));
        assert(fields_view(fields@) =~= f.update(
            phs[0].operation_index as int,
            Some(text@.take(overflow as int)),
        ));
    }
    let ghost f1 = fields_view(fields@);
    let placeholder_start: usize = if placeholders.len() > text.len() {
        placeholders.len() - text.len()
    } else {
        0
    };
    let zipped: usize = if placeholders.len() <= text.len() {
        placeholders.len()
    } else {
        text.len()
    };
    let mut k: usize = 0;
    while k < zipped
        invariant
            k <= zipped,
            zipped == min(placeholders@.len() as int, text@.len() as int),
            placeholders@.len() <= usize::MAX,
            text@.len() <= usize::MAX,
            placeholder_start + zipped == placeholders@.len(),
            overflow + zipped == text@.len(),
            phs == placeholders@,
            fields@.len() == old(fields)@.len(),
            below(placeholders@, fields@.len()),
            fields_view(fields@) == right_chars(
                f1,
                text@,
                phs,
                placeholder_start as int,
                overflow as int,
                k as int,
            ),
        decreases zipped - k,
    {
        let pi: usize = placeholder_start + k;
        let ci: usize = overflow + k;
        let op = placeholders[pi].operation_index;
        let mut s = field_text(fields, op);
        string_push(&mut s, text[ci]);
        fields.set(op, Some(s));
        assert(fields_view(fields@) =~= right_chars(
            f1,
            text@,
            phs,
            placeholder_start as int,
            overflow as int,
            k + 1,
        ));
        k = k + 1;
    }
}

/// Assigns text left-to-right, attaching trailing overflow to the final field.
fn assign_left_aligned(text: &Vec<char>, placeholders: &Vec<NumberPlaceholder>, fields: &mut Vec<Option<String>>)
    requires
        below(placeholders@, old(fields)@.len()),
    ensures
        fields_view(final(fields)@) == assign_left(text@, placeholders@, fields_view(old(fields)@)),
        final(fields)@.len() == old(fields)@.len(),
{
    let ghost phs = placeholders@;
    let ghost f = fields_view(fields@);
    if placeholders.len() == 0 {
        return;
    }
    let mut k: usize = 0;
    while k < placeholders.len()
        invariant
            k <= placeholders@.len(),
            phs == placeholders@,
            below(placeholders@, fields@.len()),
            k <= text@.len(),
            fields@.len() == old(fields)@.len(),
            f == fields_view(old(fields)@),
            fields_view(fields@) == left_chars(f, text@, phs, k as int),
        decreases placeholders@.len() - k,
    {
        if k >= text.len() {
            return;
        }
        let one = string_of(vec![text[k]].as_slice());
        assert(one@ =~= seq![text@[k as int]]);
        fields.set(placeholders[k].operation_index, Some(one));
        assert(fields_view(fields@) =~= left_chars(f, text@, phs, k + 1));
        k = k + 1;
    }
    let last = placeholders[placeholders.len() - 1].operation_index;
    let ghost f1 = fields_view(fields@);
    let mut s = field_text(fields, last);
    let rest = string_of(crate::chars::slice_chars(text, placeholders.len(), text.len()).as_slice());
    string_push_str(&mut s, rest.as_str());
    fields.set(last, Some(s));
    assert(text@.subrange(placeholders@.len() as int, text@.len() as int) =~= text@.skip(
        placeholders@.len() as int,
    ));
    assert(fields_view(fields@) =~= assign_left(text@, phs, f));
}

/// Each placeholder with a padding character shows it at its operation.
fn assign_empty_placeholders(placeholders: &Vec<NumberPlaceholder>, fields: &mut Vec<Option<String>>)
    requires
        below(placeholders@, old(fields)@.len()),
    ensures
        fields_view(final(fields)@) == assign_empty(
            placeholders@,
            fields_view(old(fields)@),
            placeholders@.len() as int,
        ),
        final(fields)@.len() == old(fields)@.len(),
{
    let ghost f = fields_view(fields@);
    let mut k: usize = 0;
    while k < placeholders.len()
        invariant
            k <= placeholders@.len(),
            below(placeholders@, fields@.len()),
            fields@.len() == old(fields)@.len(),
            fields_view(fields@) == assign_empty(placeholders@, f, k as int),
        decreases placeholders@.len() - k,
    {
        if let Some(c) = placeholders[k].placeholder.empty_char() {
            let one = string_of(vec![c].as_slice());
            assert(one@ =~= seq![c]);
            fields.set(placeholders[k].operation_index, Some(one));
        }
        assert(fields_view(fields@) =~= assign_empty(placeholders@, f, k + 1));
        k = k + 1;
    }
}

/// Formats one integer component on its placeholders and assigns it
/// right-aligned.
fn assign_formatted_component(value: u64, placeholders: &Vec<NumberPlaceholder>, fields: &mut Vec<Option<String>>)
    requires
        below(placeholders@, old(fields)@.len()),
    ensures
        fields_view(final(fields)@) == assign_formatted(
            value as nat,
            placeholders@,
            fields_view(old(fields)@),
        ),
        final(fields)@.len() == old(fields)@.len(),
{
    let mut syntax: Vec<DigitPlaceholder> = Vec::new();
    let mut k: usize = 0;
    while k < placeholders.len()
        invariant
            k <= placeholders@.len(),
            syntax@ == placeholder_kinds(placeholders@).take(k as int),
        decreases placeholders@.len() - k,
    {
        syntax.push(placeholders[k].placeholder);
        assert(syntax@ =~= placeholder_kinds(placeholders@).take(k + 1));
        k = k + 1;
    }
    assert(syntax@ =~= placeholder_kinds(placeholders@));
    let text = format_simple_with_placeholders(value, syntax.as_slice());
    let chars = crate::chars::chars_of(text.as_str());
    assign_right_aligned(&chars, placeholders, fields);
}

/// Each fixed denominator digit shows `text`, or itself when there is none.
fn assign_fixed_digits(digits: &Vec<FixedDenominatorDigit>, text: Option<&str>, fields: &mut Vec<Option<String>>)
    requires
        forall|i: int| 0 <= i < digits@.len() ==> (#[trigger] digits@[i]).operation_index < old(fields)@.len(),
    ensures
        fields_view(final(fields)@) == assign_fixed(
            digits@,
            match text {
                Some(t) => Some(t@),
                None => None,
            },
            fields_view(old(fields)@),
            digits@.len() as int,
        ),
        final(fields)@.len() == old(fields)@.len(),
{
    let ghost f = fields_view(fields@);
    let ghost tv = match text {
        Some(t) => Some(t@),
        None => None,
    };
    let mut k: usize = 0;
    while k < digits.len()
        invariant
            k <= digits@.len(),
            forall|i: int| 0 <= i < digits@.len() ==> (#[trigger] digits@[i]).operation_index < fields@.len(),
            fields@.len() == old(fields)@.len(),
            tv == match text {
                Some(t) => Some(t@),
                None => None::<Seq<char>>,
            },
            fields_view(fields@) == assign_fixed(digits@, tv, f, k as int),
        decreases digits@.len() - k,
    {
        let shown = match text {
            Some(t) => string_of(crate::chars::chars_of(t).as_slice()),
            None => string_of(decimal_chars(digits[k].digit as u64).as_slice()),
        };
        assert(shown@ == match tv {
            Some(t) => t,
            None => digits_of(digits@[k as int].digit as nat),
        });
        fields.set(digits[k].operation_index, Some(shown));
        assert(fields_view(fields@) =~= assign_fixed(digits@, tv, f, k + 1));
        k = k + 1;
    }
}

/// `n` spaces.
fn space_chars(n: usize) -> (r: Vec<char>)
    ensures
        r@ == spaces(n as int),
{
    let mut r: Vec<char> = Vec::new();
    let mut k: usize = 0;
    while k < n
        invariant
            k <= n,
            r@ == spaces(k as int),
        decreases n - k,
    {
        r.push(' ');
        assert(r@ =~= spaces(k + 1));
        k = k + 1;
    }
    r
}

/// The digits of `value` right-aligned in width `w`.
fn padded_left(value: u64, w: usize) -> (r: Vec<char>)
    ensures
        r@ == pad_left(digits_of(value as nat), w as int),
{
    let d = decimal_chars(value);
    if d.len() >= w {
        return d;
    }
    let mut r = space_chars(w - d.len());
    crate::chars::extend_chars(&mut r, &d);
    r
}

/// The digits of `value` left-aligned in width `w`.
fn padded_right(value: u64, w: usize) -> (r: Vec<char>)
    ensures
        r@ == pad_right(digits_of(value as nat), w as int),
{
    let mut d = decimal_chars(value);
    if d.len() >= w {
        return d;
    }
    let s = space_chars(w - d.len());
    crate::chars::extend_chars(&mut d, &s);
    d
}

/// The text of every operation of a fraction, indexed by operation; layout
/// operations get none.
pub fn prepare_fraction_fields(operation_count: usize, spec: &FractionSpec, prepared: PreparedFraction) -> (r:
    Vec<Option<String>>)
    requires
        fraction_within(spec@, operation_count as nat),
    ensures
        fields_view(r@) == fraction_fields(operation_count as nat, spec@, prepared),
        r@.len() == operation_count,
        spec@.integer_placeholders.len() == 0 && spec@.numerator_placeholders.len() > 0
            && numerator_apart(spec@) ==> shown_fields(
            fields_view(r@),
            spec@.numerator_placeholders,
            spec@.numerator_placeholders.len() as int,
        ) == simple_text(prepared.numerator as nat, placeholder_kinds(spec@.numerator_placeholders)),
{
    proof {
        if spec@.integer_placeholders.len() == 0 && spec@.numerator_placeholders.len() > 0
            && numerator_apart(spec@) {
            law_plain_fraction_shows_numerator(operation_count as nat, spec@, prepared);
        }
    }
    let mut fields: Vec<Option<String>> = Vec::new();
    let mut k: usize = 0;
    while k < operation_count
        invariant
            k <= operation_count,
            fields@.len() == k,
            forall|j: int| 0 <= j < k ==> (#[trigger] fields@[j]) is None,
        decreases operation_count - k,
    {
        fields.push(None);
        k = k + 1;
    }
    assert(fields_view(fields@) =~= Seq::new(operation_count as nat, |_i: int| None::<Seq<char>>));
    let ghost f0 = fields_view(fields@);
    let ghost sv = spec@;
    let is_mixed = spec.integer_placeholders.len() > 0;
    if is_mixed {
        if prepared.integer > 0 || prepared.numerator == 0 {
            assign_formatted_component(prepared.integer, &spec.integer_placeholders, &mut fields);
        } else {
            assign_empty_placeholders(&spec.integer_placeholders, &mut fields);
        }
    }
    let ghost f1 = fields_view(fields@);
    assert(f1 == if is_mixed {
        if prepared.integer > 0 || prepared.numerator == 0 {
            assign_formatted(prepared.integer as nat, sv.integer_placeholders, f0)
        } else {
            assign_empty(sv.integer_placeholders, f0, sv.integer_placeholders.len() as int)
        }
    } else {
        f0
    });
    let width: usize = match &spec.denominator {
        FractionDenominatorSpec::Variable { .. } => prepared.padding_width,
        FractionDenominatorSpec::Fixed { .. } => spec.numerator_placeholders.len(),
    };
    if is_mixed && prepared.numerator == 0 {
        assign_right_aligned(&space_chars(width), &spec.numerator_placeholders, &mut fields);
        let ghost f2 = fields_view(fields@);
        let blank = string_of(vec![' '].as_slice());
        assert(blank@ =~= seq![' ']);
        fields.set(spec.slash_index, Some(blank));
        let ghost f3 = fields_view(fields@);
        assert(f3 =~= f2.update(sv.slash_index as int, Some(seq![' '])));
        match &spec.denominator {
            FractionDenominatorSpec::Variable { placeholders } => {
                assign_left_aligned(&space_chars(prepared.padding_width), placeholders, &mut fields);
            },
            FractionDenominatorSpec::Fixed { digits, .. } => {
                assert(sv.denominator matches DenominatorView::Fixed { digits: d, .. } && d == digits@);
                assign_fixed_digits(digits, Some(" "), &mut fields);
                proof {
                    reveal_strlit(" ");
                }
                assert(" "@ =~= seq![' ']);
            },
        }
        return fields;
    }
    if is_mixed {
        assign_right_aligned(
            &padded_left(prepared.numerator as u64, width),
            &spec.numerator_placeholders,
            &mut fields,
        );
    } else {
        assign_formatted_component(prepared.numerator as u64, &spec.numerator_placeholders, &mut fields);
    }
    let ghost f2 = fields_view(fields@);
    let slash = string_of(vec!['/'].as_slice());
    assert(slash@ =~= seq!['/']);
    fields.set(spec.slash_index, Some(slash));
    let ghost f3 = fields_view(fields@);
    assert(f3 =~= f2.update(sv.slash_index as int, Some(seq!['/'])));
    match &spec.denominator {
        FractionDenominatorSpec::Variable { placeholders } => {
            assign_left_aligned(
                &padded_right(prepared.denominator as u64, prepared.padding_width),
                placeholders,
                &mut fields,
            );
        },
        FractionDenominatorSpec::Fixed { digits, .. } => {
            assert(sv.denominator matches DenominatorView::Fixed { digits: d, .. } && d == digits@);
            assign_fixed_digits(digits, None, &mut fields);
        },
    }
    fields
}

/// The width variable fraction components are padded to: the wider of the
/// numerator and denominator of a mixed fraction, else the denominator, at
/// most seven; fixed denominators are not padded.
pub open spec fn padding_width_of(spec: FractionSpecView) -> nat {
    match spec.denominator {
        DenominatorView::Variable { placeholders } => {
            let w = if spec.integer_placeholders.len() > 0 && spec.numerator_placeholders.len()
                > placeholders.len() {
                spec.numerator_placeholders.len()
            } else {
                placeholders.len()
            };
            if w < 7 {
                w
            } else {
                7
            }
        },
        DenominatorView::Fixed { .. } => 0,
    }
}

/// The padding width of a fraction's variable components.
pub fn fraction_padding_width(spec: &FractionSpec) -> (r: usize)
    ensures
        r == padding_width_of(spec@),
        r <= 7,
{
    match &spec.denominator {
        FractionDenominatorSpec::Variable { placeholders } => {
            let w = if spec.integer_placeholders.len() > 0 && spec.numerator_placeholders.len()
                > placeholders.len() {
                spec.numerator_placeholders.len()
            } else {
                placeholders.len()
            };
            if w < 7 {
                w
            } else {
                7
            }
        },
        FractionDenominatorSpec::Fixed { .. } => 0,
    }
}

/// A mixed fraction's whole units move from the numerator to the integer
/// (which stops at `u64::MAX`).
pub open spec fn carried(spec: FractionSpecView, integer: u64, numerator: u32, denominator: u32) -> PreparedFraction {
    if spec.integer_placeholders.len() > 0 && denominator > 0 && numerator >= denominator {
        let sum = integer + numerator / denominator;
        PreparedFraction {
            integer: if sum > u64::MAX {
                u64::MAX
            } else {
                sum as u64
            },
            numerator: (numerator % denominator) as u32,
            denominator,
            padding_width: padding_width_of(spec) as usize,
        }
    } else {
        PreparedFraction { integer, numerator, denominator, padding_width: padding_width_of(spec) as usize }
    }
}

/// Carrying never changes the value a fraction shows: a plain fraction keeps
/// its numerator whole, and a mixed one moves whole units from the
/// numerator into the integer so that integer and fraction still add up to
/// the same value (while the integer does not saturate), leaving a proper
/// fraction; the denominator never changes.
pub proof fn law_carry_keeps_value(spec: FractionSpecView, integer: u64, numerator: u32, denominator: u32)
    ensures
        ({
            let r = carried(spec, integer, numerator, denominator);
            &&& r.denominator == denominator
            &&& spec.integer_placeholders.len() == 0 ==> r.integer == integer && r.numerator
                == numerator
            &&& spec.integer_placeholders.len() > 0 && denominator > 0 ==> r.numerator < denominator
                || r.numerator == numerator && numerator < denominator
            &&& denominator > 0 && integer + numerator / denominator <= u64::MAX ==> r.integer
                * denominator + r.numerator == integer * denominator + numerator
        }),
{
    let r = carried(spec, integer, numerator, denominator);
    if spec.integer_placeholders.len() > 0 && denominator > 0 && numerator >= denominator {
        let d = denominator as int;
        let n = numerator as int;
        let q = n / d;
        let m = n % d;
        assert(n == q * d + m && 0 <= m < d) by (nonlinear_arith)
            requires
                d > 0,
                q == n / d,
                m == n % d,
        ;
        if integer + numerator / denominator <= u64::MAX {
            assert(r.integer == integer + q);
            assert((integer + q) * d + m == integer * d + n) by (nonlinear_arith)
                requires
                    n == q * d + m,
            ;
        }
    }
}

/// Completes the value-dependent fraction state from the whole part and the
/// approximated numerator and denominator.
pub fn carry_fraction(spec: &FractionSpec, integer: u64, numerator: u32, denominator: u32) -> (r: PreparedFraction)
    ensures
        r == carried(spec@, integer, numerator, denominator),
        r.denominator == denominator,
        spec@.integer_placeholders.len() == 0 ==> r.integer == integer && r.numerator == numerator,
        denominator > 0 && integer + numerator / denominator <= u64::MAX ==> r.integer * denominator
            + r.numerator == integer * denominator + numerator,
{
    proof {
        law_carry_keeps_value(spec@, integer, numerator, denominator);
    }
    let padding_width = fraction_padding_width(spec);
    if spec.integer_placeholders.len() > 0 && denominator > 0 && numerator >= denominator {
        let whole = (numerator / denominator) as u64;
        let integer = if integer > u64::MAX - whole {
            u64::MAX
        } else {
            integer + whole
        };
        PreparedFraction { integer, numerator: numerator % denominator, denominator, padding_width }
    } else {
        PreparedFraction { integer, numerator, denominator, padding_width }
    }
}

/// What a semantic operation of a fraction shows: its field for a fraction
/// component, the currency of a locale, `%` for a percent sign.
pub open spec fn fraction_semantic(op: OperationView, field: Option<Seq<char>>) -> Option<Seq<char>> {
    match op {
        OperationOf::Semantic(FormatPartOf::Fraction(_)) => field,
        OperationOf::Semantic(FormatPartOf::Locale(l)) => l.currency,
        OperationOf::Semantic(FormatPartOf::Percent) => Some(seq!['%']),
        _ => None,
    }
}

/// The unresolved output of a fraction with prepared values: every fraction
/// component shows its field and layout stays in source order.
pub open spec fn fraction_render(plan: PlanView, pr: PreparedFraction) -> Seq<RenderView>
    recommends
        plan.fraction is Some,
{
    let ops = plan.operations;
    let fields = fraction_fields(ops.len(), plan.fraction->0, pr);
    eval_ops(
        ops,
        Seq::new(ops.len(), |i: int| fraction_semantic(ops[i], fields[i])),
        ops.len() as int,
    )
}

pub open spec fn fraction_type_mismatch() -> FormatError {
    FormatError::TypeMismatch { expected: "compiled fraction format", got: "non-fraction section" }
}

/// Evaluates a fraction plan with prepared values, leaving layout unresolved.
pub fn evaluate_prepared_fraction(plan: &SectionPlan, prepared: PreparedFraction) -> (r: Result<
    Vec<RenderPart>,
    FormatError,
>)
    requires
        plan@.fraction matches Some(f) ==> fraction_within(f, plan@.operations.len()),
    ensures
        match plan@.fraction {
            Some(_) => r matches Ok(parts) && render_views(parts@) == fraction_render(plan@, prepared),
            None => r == Err::<Vec<RenderPart>, FormatError>(fraction_type_mismatch()),
        },
{
    let spec = match &plan.fraction {
        Some(spec) => spec,
        None => {
            return Err(
                FormatError::TypeMismatch {
                    expected: "compiled fraction format",
                    got: "non-fraction section",
                },
            );
        },
    };
    let n = plan.operations.len();
    let fields = prepare_fraction_fields(n, spec, prepared);
    let ghost fv = fields_view(fields@);
    let ghost ops = plan@.operations;
    let mut shown: Vec<Option<String>> = Vec::new();
    let mut i: usize = 0;
    while i < n
        invariant
            i <= n,
            n == plan.operations@.len(),
            ops == plan@.operations,
            fields@.len() == n,
            fv == fields_view(fields@),
            shown@.len() == i,
            forall|j: int|
                0 <= j < i ==> opt_text_view(#[trigger] shown@[j]) == fraction_semantic(ops[j], fv[j]),
        decreases n - i,
    {
        let f = match &plan.operations[i] {
            OperationOf::Semantic(FormatPartOf::Fraction(_)) => match &fields[i] {
                Some(t) => Some(t.clone()),
                None => None,
            },
            OperationOf::Semantic(FormatPartOf::Locale(locale)) => match &locale.currency {
                Some(c) => Some(c.clone()),
                None => None,
            },
            OperationOf::Semantic(FormatPartOf::Percent) => {
                let pct = string_of(vec!['%'].as_slice());
                assert(pct@ =~= seq!['%']);
                Some(pct)
            },
            _ => None,
        };
        shown.push(f);
        i = i + 1;
    }
    let out = evaluate_operations(plan, &shown);
    assert(fields_view(shown@) =~= Seq::new(ops.len(), |i: int| fraction_semantic(ops[i], fv[i])));
    Ok(out)
}

/// Every field of the fraction analysis of the first `n` parts names one of
/// those parts, and a slash among them is recorded.
proof fn lemma_fraction_fold_within(ps: Seq<PartView>, n: int)
    requires
        0 <= n <= ps.len(),
        ps.len() <= usize::MAX,
    ensures
        ({
            let a = fraction_fold(ps, n);
            &&& below(a.integer, n as nat)
            &&& below(a.numerator, n as nat)
            &&& below(a.denominator, n as nat)
            &&& forall|i: int| 0 <= i < a.fixed.len() ==> (#[trigger] a.fixed[i]).operation_index < n
            &&& a.slash matches Some(s) ==> s < n
            &&& (exists|j: int|
                0 <= j < n && ps[j] == FormatPartOf::<Seq<char>>::Fraction(
                    FractionPart::Slash,
                )) ==> a.slash is Some
        }),
    decreases n,
{
    if n > 0 {
        lemma_fraction_fold_within(ps, n - 1);
        let a = fraction_fold(ps, n - 1);
        assert forall|j: int|
            0 <= j < n && ps[j] == FormatPartOf::<Seq<char>>::Fraction(FractionPart::Slash) implies fraction_fold(
            ps,
            n,
        ).slash is Some by {
            if j < n - 1 {
                assert(a.slash is Some);
            }
        }
    }
}

/// A field's text, or nothing.
pub open spec fn field_or_empty(o: Option<Seq<char>>) -> Seq<char> {
    match o {
        Some(s) => s,
        None => Seq::empty(),
    }
}

/// What the first `j` placeholders show, read left to right.
pub open spec fn shown_fields(f: Fields, phs: Seq<NumberPlaceholder>, j: int) -> Seq<char>
    decreases j,
{
    if j <= 0 {
        Seq::empty()
    } else {
        shown_fields(f, phs, j - 1) + field_or_empty(f[phs[j - 1].operation_index as int])
    }
}

/// No two placeholders name the same operation.
pub open spec fn distinct_operations(phs: Seq<NumberPlaceholder>) -> bool {
    forall|i: int, j: int|
        0 <= i < j < phs.len() ==> (#[trigger] phs[i]).operation_index != (#[trigger] phs[j]).operation_index
}

/// Whether operation `k` is one of the placeholders'.
pub open spec fn names_operation(phs: Seq<NumberPlaceholder>, k: int) -> bool {
    exists|i: int| 0 <= i < phs.len() && (#[trigger] phs[i]).operation_index == k
}

/// Whether operation `k` is one of the fixed denominator digits'.
pub open spec fn names_digit_operation(digits: Seq<FixedDenominatorDigit>, k: int) -> bool {
    exists|i: int| 0 <= i < digits.len() && (#[trigger] digits[i]).operation_index == k
}

/// The numerator's placeholders name operations of their own: distinct
/// from each other, from the slash and from the denominator's fields.
pub open spec fn numerator_apart(spec: FractionSpecView) -> bool {
    let nums = spec.numerator_placeholders;
    &&& distinct_operations(nums)
    &&& !names_operation(nums, spec.slash_index as int)
    &&& match spec.denominator {
        DenominatorView::Variable { placeholders } => forall|i: int|
            0 <= i < placeholders.len() ==> !names_operation(
                nums,
                (#[trigger] placeholders[i]).operation_index as int,
            ),
        DenominatorView::Fixed { digits, .. } => forall|i: int|
            0 <= i < digits.len() ==> !names_operation(
                nums,
                (#[trigger] digits[i]).operation_index as int,
            ),
    }
}

proof fn lemma_right_chars(
    f: Fields,
    text: Seq<char>,
    phs: Seq<NumberPlaceholder>,
    ps: int,
    cs: int,
    k: int,
)
    requires
        0 <= ps,
        0 <= cs,
        0 <= k,
        ps + k <= phs.len(),
        cs + k <= text.len(),
        below(phs, f.len()),
        distinct_operations(phs),
    ensures
        right_chars(f, text, phs, ps, cs, k).len() == f.len(),
        forall|j: int|
            0 <= j < f.len() && (forall|t: int|
                0 <= t < k ==> (#[trigger] phs[ps + t]).operation_index != j) ==> right_chars(
                f,
                text,
                phs,
                ps,
                cs,
                k,
            )[j] == f[j],
        forall|t: int|
            0 <= t < k ==> right_chars(f, text, phs, ps, cs, k)[(#[trigger] phs[ps + t]).operation_index as int]
                == Some(field_or_empty(f[phs[ps + t].operation_index as int]).push(text[cs + t])),
    decreases k,
{
    if k > 0 {
        lemma_right_chars(f, text, phs, ps, cs, k - 1);
        let r0 = right_chars(f, text, phs, ps, cs, k - 1);
        let idx = phs[ps + k - 1].operation_index as int;
        assert(idx < f.len());
        assert forall|t: int| 0 <= t < k - 1 implies (#[trigger] phs[ps + t]).operation_index != idx by {
            assert(phs[ps + t].operation_index != phs[ps + k - 1].operation_index);
        }
        assert(r0[idx] == f[idx]);
        assert forall|t: int|
            0 <= t < k implies right_chars(f, text, phs, ps, cs, k)[(#[trigger] phs[ps + t]).operation_index as int]
                == Some(field_or_empty(f[phs[ps + t].operation_index as int]).push(text[cs + t])) by {
            if t < k - 1 {
                assert(phs[ps + t].operation_index != phs[ps + k - 1].operation_index);
                assert(phs[ps + t].operation_index < f.len());
            }
        }
    }
}

proof fn lemma_shown_prefix(
    r: Fields,
    text: Seq<char>,
    phs: Seq<NumberPlaceholder>,
    ps: int,
    over: int,
    j: int,
)
    requires
        0 <= ps <= phs.len(),
        0 <= over,
        over + (phs.len() - ps) == text.len(),
        over > 0 ==> ps == 0,
        0 <= j <= phs.len(),
        forall|i: int| 0 <= i < ps ==> r[(#[trigger] phs[i]).operation_index as int] is None,
        forall|i: int|
            ps <= i < phs.len() ==> r[(#[trigger] phs[i]).operation_index as int] == Some(
                (if i == 0 && over > 0 {
                    text.take(over)
                } else {
                    Seq::empty()
                }).push(text[over + i - ps]),
            ),
    ensures
        shown_fields(r, phs, j) == (if j <= ps {
            Seq::<char>::empty()
        } else {
            text.take(over + j - ps)
        }),
    decreases j,
{
    if j > 0 {
        lemma_shown_prefix(r, text, phs, ps, over, j - 1);
        let i = j - 1;
        if i >= ps {
            let _ = phs[i];
            if i == ps {
                if over > 0 {
                    assert(text.take(over).push(text[over]) =~= text.take(over + 1));
                } else {
                    assert(Seq::<char>::empty().push(text[0]) =~= text.take(1));
                }
                assert(shown_fields(r, phs, i) =~= Seq::<char>::empty());
            } else {
                assert(text.take(over + i - ps).push(text[over + i - ps]) =~= text.take(
                    over + j - ps,
                ));
            }
        } else {
            let _ = phs[i];
        }
    }
}

#[verifier::rlimit(60)]
#[verifier::spinoff_prover]
proof fn lemma_assign_right_shown(text: Seq<char>, phs: Seq<NumberPlaceholder>, f: Fields)
    requires
        phs.len() > 0,
        below(phs, f.len()),
        distinct_operations(phs),
        forall|i: int| 0 <= i < phs.len() ==> f[(#[trigger] phs[i]).operation_index as int] is None,
    ensures
        shown_fields(assign_right(text, phs, f), phs, phs.len() as int) == text,
{
    let over = if text.len() > phs.len() {
        text.len() - phs.len()
    } else {
        0
    };
    let f1 = if over > 0 {
        f.update(phs[0].operation_index as int, Some(text.take(over)))
    } else {
        f
    };
    let ps = if phs.len() > text.len() {
        phs.len() - text.len()
    } else {
        0
    };
    let m = min(phs.len() as int, text.len() as int);
    let _ = phs[0];
    assert(below(phs, f1.len()));
    lemma_right_chars(f1, text, phs, ps, over, m);
    let r = right_chars(f1, text, phs, ps, over, m);
    assert(r == assign_right(text, phs, f));
    assert forall|i: int| 0 <= i < ps implies r[(#[trigger] phs[i]).operation_index as int] is None by {
        assert(over == 0);
        let idx = phs[i].operation_index as int;
        assert forall|t: int| 0 <= t < m implies (#[trigger] phs[ps + t]).operation_index != idx by {
            assert(phs[i].operation_index != phs[ps + t].operation_index);
        }
    }
    assert forall|i: int|
        ps <= i < phs.len() implies r[(#[trigger] phs[i]).operation_index as int] == Some(
            (if i == 0 && over > 0 {
                text.take(over)
            } else {
                Seq::empty()
            }).push(text[over + i - ps]),
        ) by {
        let t = i - ps;
        assert(phs[ps + t] == phs[i]);
        if over > 0 && i != 0 {
            assert(phs[i].operation_index != phs[0].operation_index);
        }
    }
    lemma_shown_prefix(r, text, phs, ps, over, phs.len() as int);
    assert(text.take(text.len() as int) =~= text);
}

proof fn lemma_assign_right_frame(text: Seq<char>, phs: Seq<NumberPlaceholder>, f: Fields, j: int)
    requires
        phs.len() > 0,
        below(phs, f.len()),
        distinct_operations(phs),
        0 <= j < f.len(),
        !names_operation(phs, j),
    ensures
        assign_right(text, phs, f).len() == f.len(),
        assign_right(text, phs, f)[j] == f[j],
{
    let over = if text.len() > phs.len() {
        text.len() - phs.len()
    } else {
        0
    };
    let f1 = if over > 0 {
        f.update(phs[0].operation_index as int, Some(text.take(over)))
    } else {
        f
    };
    let ps = if phs.len() > text.len() {
        phs.len() - text.len()
    } else {
        0
    };
    let m = min(phs.len() as int, text.len() as int);
    let _ = phs[0];
    assert(below(phs, f1.len()));
    lemma_right_chars(f1, text, phs, ps, over, m);
    assert forall|t: int| 0 <= t < m implies (#[trigger] phs[ps + t]).operation_index != j by {
        if phs[ps + t].operation_index == j {
            assert(names_operation(phs, j));
        }
    }
    if over > 0 {
        assert(phs[0].operation_index != j) by {
            if phs[0].operation_index == j {
                assert(names_operation(phs, j));
            }
        }
    }
    let r = right_chars(f1, text, phs, ps, over, m);
    assert(assign_right(text, phs, f) == r);
    assert(r[j] == f1[j]);
    assert(f1[j] == f[j]);
}

proof fn lemma_assign_right_frame_len(text: Seq<char>, phs: Seq<NumberPlaceholder>, f: Fields)
    requires
        phs.len() > 0,
        below(phs, f.len()),
        distinct_operations(phs),
    ensures
        assign_right(text, phs, f).len() == f.len(),
{
    let over = if text.len() > phs.len() {
        text.len() - phs.len()
    } else {
        0
    };
    let f1 = if over > 0 {
        f.update(phs[0].operation_index as int, Some(text.take(over)))
    } else {
        f
    };
    let ps = if phs.len() > text.len() {
        phs.len() - text.len()
    } else {
        0
    };
    let m = min(phs.len() as int, text.len() as int);
    let _ = phs[0];
    assert(below(phs, f1.len()));
    lemma_right_chars(f1, text, phs, ps, over, m);
}

proof fn lemma_shown_same(f: Fields, g: Fields, phs: Seq<NumberPlaceholder>, j: int)
    requires
        0 <= j <= phs.len(),
        forall|i: int|
            0 <= i < phs.len() ==> f[(#[trigger] phs[i]).operation_index as int] == g[phs[i].operation_index as int],
    ensures
        shown_fields(f, phs, j) == shown_fields(g, phs, j),
    decreases j,
{
    if j > 0 {
        lemma_shown_same(f, g, phs, j - 1);
        let _ = phs[j - 1];
    }
}

proof fn lemma_left_chars_frame(f: Fields, text: Seq<char>, phs: Seq<NumberPlaceholder>, k: int, j: int)
    requires
        0 <= k <= phs.len(),
        0 <= j < f.len(),
        below(phs, f.len()),
        forall|i: int| 0 <= i < phs.len() ==> (#[trigger] phs[i]).operation_index != j,
    ensures
        left_chars(f, text, phs, k).len() == f.len(),
        left_chars(f, text, phs, k)[j] == f[j],
    decreases k,
{
    if k > 0 {
        lemma_left_chars_frame(f, text, phs, k - 1, j);
        let _ = phs[k - 1];
    }
}

proof fn lemma_assign_fixed_frame(
    digits: Seq<FixedDenominatorDigit>,
    text: Option<Seq<char>>,
    f: Fields,
    k: int,
    j: int,
)
    requires
        0 <= k <= digits.len(),
        0 <= j < f.len(),
        forall|i: int| 0 <= i < digits.len() ==> (#[trigger] digits[i]).operation_index < f.len(),
        forall|i: int| 0 <= i < digits.len() ==> (#[trigger] digits[i]).operation_index != j,
    ensures
        assign_fixed(digits, text, f, k).len() == f.len(),
        assign_fixed(digits, text, f, k)[j] == f[j],
    decreases k,
{
    if k > 0 {
        lemma_assign_fixed_frame(digits, text, f, k - 1, j);
        let _ = digits[k - 1];
    }
}

/// A plain fraction, one without integer placeholders, shows its whole
/// prepared numerator: read left to right, the numerator's placeholders
/// show the numerator's decimal digits laid on them, so nothing of the
/// numerator is carried out or dropped.
pub proof fn law_plain_fraction_shows_numerator(count: nat, spec: FractionSpecView, pr: PreparedFraction)
    requires
        spec.integer_placeholders.len() == 0,
        spec.numerator_placeholders.len() > 0,
        fraction_within(spec, count),
        numerator_apart(spec),
    ensures
        shown_fields(
            fraction_fields(count, spec, pr),
            spec.numerator_placeholders,
            spec.numerator_placeholders.len() as int,
        ) == simple_text(pr.numerator as nat, placeholder_kinds(spec.numerator_placeholders)),
{
    let nums = spec.numerator_placeholders;
    let f0 = Seq::new(count, |_i: int| None::<Seq<char>>);
    let text = simple_text(pr.numerator as nat, placeholder_kinds(nums));
    assert forall|i: int| 0 <= i < nums.len() implies f0[(#[trigger] nums[i]).operation_index as int] is None by {
        assert(nums[i].operation_index < count);
    }
    lemma_assign_right_shown(text, nums, f0);
    let f2 = assign_right(text, nums, f0);
    assert(f2.len() == count) by {
        assert(nums[0].operation_index < count);
        assert(!names_operation(nums, -1));
        lemma_assign_right_frame_len(text, nums, f0);
    }
    let f3 = f2.update(spec.slash_index as int, Some(seq!['/']));
    let r = fraction_fields(count, spec, pr);
    assert forall|i: int| 0 <= i < nums.len() implies r[(#[trigger] nums[i]).operation_index as int]
        == f2[nums[i].operation_index as int] by {
        let idx = nums[i].operation_index as int;
        assert(idx != spec.slash_index) by {
            if idx == spec.slash_index {
                assert(names_operation(nums, spec.slash_index as int));
            }
        }
        assert(idx < count);
        assert(f3[idx] == f2[idx]);
        assert(f3.len() == count);
        match spec.denominator {
            DenominatorView::Variable { placeholders } => {
                assert forall|k: int| 0 <= k < placeholders.len() implies (#[trigger] placeholders[k]).operation_index
                    != idx by {
                    if placeholders[k].operation_index == idx {
                        assert(names_operation(nums, placeholders[k].operation_index as int));
                    }
                }
                let dtext = pad_right(digits_of(pr.denominator as nat), pr.padding_width as int);
                if dtext.len() < placeholders.len() {
                    lemma_left_chars_frame(f3, dtext, placeholders, dtext.len() as int, idx);
                } else {
                    lemma_left_chars_frame(f3, dtext, placeholders, placeholders.len() as int, idx);
                }
            },
            DenominatorView::Fixed { digits, .. } => {
                assert forall|k: int| 0 <= k < digits.len() implies (#[trigger] digits[k]).operation_index
                    != idx by {
                    if digits[k].operation_index == idx {
                        assert(names_operation(nums, digits[k].operation_index as int));
                    }
                }
                lemma_assign_fixed_frame(digits, None, f3, digits.len() as int, idx);
            },
        }
    }
    lemma_shown_same(r, f2, nums, nums.len() as int);
}

/// Whether `p` is a numerator digit.
pub open spec fn is_numerator_digit(p: PartView) -> bool {
    p matches FormatPartOf::Fraction(FractionPart::NumeratorDigit(_))
}

/// Whether `p` is a denominator digit, variable or fixed.
pub open spec fn is_denominator_digit(p: PartView) -> bool {
    ||| p matches FormatPartOf::Fraction(FractionPart::DenominatorDigit(_))
    ||| p matches FormatPartOf::Fraction(FractionPart::FixedDenominatorDigit(_))
}

proof fn lemma_fraction_fold_sources(ps: Seq<PartView>, n: int)
    requires
        0 <= n <= ps.len(),
        ps.len() <= usize::MAX,
    ensures
        ({
            let a = fraction_fold(ps, n);
            &&& forall|i: int|
                0 <= i < a.numerator.len() ==> (#[trigger] a.numerator[i]).operation_index < n
                    && is_numerator_digit(ps[a.numerator[i].operation_index as int])
            &&& forall|i: int, j: int|
                0 <= i < j < a.numerator.len() ==> (#[trigger] a.numerator[i]).operation_index
                    < (#[trigger] a.numerator[j]).operation_index
            &&& forall|i: int|
                0 <= i < a.denominator.len() ==> is_denominator_digit(
                    ps[(#[trigger] a.denominator[i]).operation_index as int],
                )
            &&& forall|i: int|
                0 <= i < a.fixed.len() ==> is_denominator_digit(
                    ps[(#[trigger] a.fixed[i]).operation_index as int],
                )
            &&& a.slash matches Some(s) ==> ps[s as int] == FormatPartOf::<Seq<char>>::Fraction(
                FractionPart::Slash,
            )
        }),
    decreases n,
{
    if n > 0 {
        lemma_fraction_fold_sources(ps, n - 1);
    }
}

/// In a compiled fraction the numerator's placeholders name operations of
/// their own: each its own numerator digit, none the slash or a
/// denominator field.
pub proof fn law_compiled_numerator_apart(sec: SectionView)
    requires
        fraction_ready(sec.parts),
        sec.parts.len() <= usize::MAX,
    ensures
        plan_of(sec).fraction matches Some(f) ==> numerator_apart(f),
{
    let ps = sec.parts;
    lemma_fraction_fold_within(ps, ps.len() as int);
    lemma_fraction_fold_sources(ps, ps.len() as int);
    if plan_of(sec).fraction is Some {
        assert(classify(ps) == SectionKind::Fraction);
        assert(any_part(ps, |p: PartView| is_fraction_part(p)));
        let f = plan_of(sec).fraction->0;
        let a = fraction_fold(ps, ps.len() as int);
        assert(f == fraction_spec(ps));
        let nums = f.numerator_placeholders;
        assert(a.slash is Some);
        assert forall|i: int, j: int| 0 <= i < j < nums.len() implies (#[trigger] nums[i]).operation_index
            != (#[trigger] nums[j]).operation_index by {
            assert(a.numerator[i].operation_index < a.numerator[j].operation_index);
        }
        assert(!names_operation(nums, f.slash_index as int)) by {
            if names_operation(nums, f.slash_index as int) {
                let i = choose|i: int| 0 <= i < nums.len() && (#[trigger] nums[i]).operation_index == f.slash_index;
                let _ = a.numerator[i];
            }
        }
        match f.denominator {
            DenominatorView::Variable { placeholders } => {
                assert forall|k: int| 0 <= k < placeholders.len() implies !names_operation(
                    nums,
                    (#[trigger] placeholders[k]).operation_index as int,
                ) by {
                    let _ = a.denominator[k];
                    if names_operation(nums, placeholders[k].operation_index as int) {
                        let i = choose|i: int| 0 <= i < nums.len() && (#[trigger] nums[i]).operation_index == placeholders[k].operation_index;
                        let _ = a.numerator[i];
                    }
                }
            },
            DenominatorView::Fixed { digits, .. } => {
                assert forall|k: int| 0 <= k < digits.len() implies !names_operation(
                    nums,
                    (#[trigger] digits[k]).operation_index as int,
                ) by {
                    let _ = a.fixed[k];
                    if names_operation(nums, digits[k].operation_index as int) {
                        let i = choose|i: int| 0 <= i < nums.len() && (#[trigger] nums[i]).operation_index == digits[k].operation_index;
                        let _ = a.numerator[i];
                    }
                }
            },
        }
    }
}

/// The fields of a compiled fraction name operations of its own plan.
pub proof fn law_compiled_fraction_within(sec: SectionView)
    requires
        fraction_ready(sec.parts),
        sec.parts.len() <= usize::MAX,
    ensures
        plan_of(sec).fraction matches Some(f) ==> fraction_within(f, plan_of(sec).operations.len()),
{
    let ps = sec.parts;
    lemma_fraction_fold_within(ps, ps.len() as int);
    if plan_of(sec).fraction is Some {
        assert(classify(ps) == SectionKind::Fraction);
        assert(any_part(ps, |p: PartView| is_fraction_part(p)));
    }
}

} // verus!
