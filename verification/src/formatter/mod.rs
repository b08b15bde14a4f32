//! Value evaluation into ordered output parts, and their layout.
use vstd::prelude::*;

use crate::ast::{opt_text_view, parts_view, FormatPartOf, PartView, Section, SectionView};
use crate::numfmt::{has_text_placeholder, NumberFormat};
use crate::parser::sections_view;
use crate::chars::{byte_len, text_byte_len};
use crate::compile::{any_part, is_fraction_part, is_scientific_part, OperationOf, OperationView, Operation, SectionPlan};

use render::{push_text, push_text_spec, render_views, RenderPartOf, RenderView, RenderPart};

pub mod bigint;
pub mod fraction;
pub mod general;
pub mod number;
pub mod render;
pub mod text;

verus! {

/// Output after one operation: text and semantic fields are merged into the
/// text before them, layout directives are kept in place.
pub open spec fn eval_op(out: Seq<RenderView>, op: OperationView, field: Option<Seq<char>>) -> Seq<
    RenderView,
> {
    match op {
        OperationOf::Text(t) => push_text_spec(out, t),
        OperationOf::Fill(c) => out.push(RenderPartOf::Fill(c)),
        OperationOf::Skip(c) => out.push(RenderPartOf::Skip(c)),
        OperationOf::Semantic(_) => match field {
            Some(s) => push_text_spec(out, s),
            None => out,
        },
    }
}

/// Output of the first `n` operations, where `fields[i]` is what the
/// semantic operation `i` shows.
pub open spec fn eval_ops(ops: Seq<OperationView>, fields: Seq<Option<Seq<char>>>, n: int) -> Seq<
    RenderView,
>
    decreases n,
{
    if n <= 0 {
        Seq::empty()
    } else {
        eval_op(eval_ops(ops, fields, n - 1), ops[n - 1], fields[n - 1])
    }
}

pub open spec fn fields_view(v: Seq<Option<String>>) -> Seq<Option<Seq<char>>> {
    Seq::new(v.len(), |i: int| opt_text_view(v[i]))
}

/// Appends the output of one operation.
pub fn evaluate_operation(output: &mut Vec<RenderPart>, operation: &Operation, field: &Option<String>)
    ensures
        render_views(final(output)@) == eval_op(
            render_views(old(output)@),
            operation@,
            opt_text_view(*field),
        ),
{
    let ghost before = render_views(output@);
    match operation {
        OperationOf::Text(t) => push_text(output, t.clone()),
        OperationOf::Fill(c) => {
            output.push(RenderPartOf::Fill(*c));
            assert(render_views(output@) =~= before.push(RenderPartOf::Fill(*c)));
        },
        OperationOf::Skip(c) => {
            output.push(RenderPartOf::Skip(*c));
            assert(render_views(output@) =~= before.push(RenderPartOf::Skip(*c)));
        },
        OperationOf::Semantic(_) => match field {
            Some(s) => push_text(output, s.clone()),
            None => {},
        },
    }
}

/// The output of a plan's operations in source order, where `fields[i]` is
/// what the semantic operation `i` shows.
pub fn evaluate_operations(plan: &SectionPlan, fields: &Vec<Option<String>>) -> (r: Vec<RenderPart>)
    requires
        fields@.len() == plan.operations@.len(),
    ensures
        render_views(r@) == eval_ops(
            plan@.operations,
            fields_view(fields@),
            plan.operations@.len() as int,
        ),
{
    let ghost ops = plan@.operations;
    let ghost fs = fields_view(fields@);
    let mut out: Vec<RenderPart> = Vec::new();
    assert(render_views(out@) =~= Seq::<RenderView>::empty());
    let mut i: usize = 0;
    while i < plan.operations.len()
        invariant
            i <= plan.operations@.len(),
            fields@.len() == plan.operations@.len(),
            ops == plan@.operations,
            fs == fields_view(fields@),
            render_views(out@) == eval_ops(ops, fs, i as int),
        decreases plan.operations@.len() - i,
    {
        evaluate_operation(&mut out, &plan.operations[i], &fields[i]);
        i = i + 1;
    }
    out
}

/// The sign of a value being formatted.
#[derive(Debug, Clone, Copy, PartialEq, Eq, Structural)]
pub enum ValueSign {
    Negative,
    Zero,
    Positive,
}

/// Whether any section has a condition.
pub open spec fn has_conditions(secs: Seq<SectionView>) -> bool {
    exists|i: int| 0 <= i < secs.len() && (#[trigger] secs[i]).condition is Some
}

/// The first section at or after `i` that has no condition or whose
/// condition holds; the last section when there is none.
pub open spec fn first_applicable(secs: Seq<SectionView>, holds: Seq<bool>, i: int) -> int
    decreases secs.len() - i,
{
    if i >= secs.len() {
        secs.len() - 1
    } else if secs[i].condition is None || holds[i] {
        i
    } else {
        first_applicable(secs, holds, i + 1)
    }
}

/// A section that shows only text: it holds `@` and no number syntax or
/// literal.
pub open spec fn text_only(ps: Seq<PartView>) -> bool {
    has_text_placeholder(ps) && !exists|j: int|
        0 <= j < ps.len() && ((#[trigger] ps[j]).is_numeric() || ps[j] is Literal
            || ps[j] is EscapedLiteral)
}

/// The section a value is formatted with. With conditions, the first
/// section whose condition holds or that has none. Otherwise by sign: one
/// section serves all values; with two, negatives take the second; with
/// three or four, positives the first, negatives the second and zero the
/// third, unless the third shows only text.
pub open spec fn selected_index(secs: Seq<SectionView>, sign: ValueSign, holds: Seq<bool>) -> int {
    if has_conditions(secs) {
        first_applicable(secs, holds, 0)
    } else if secs.len() == 2 {
        if sign == ValueSign::Negative {
            1
        } else {
            0
        }
    } else if secs.len() == 3 || secs.len() == 4 {
        match sign {
            ValueSign::Positive => 0,
            ValueSign::Negative => 1,
            ValueSign::Zero => if text_only(secs[2].parts) {
                0
            } else {
                2
            },
        }
    } else {
        0
    }
}

proof fn lemma_first_applicable(secs: Seq<SectionView>, holds: Seq<bool>, i: int)
    requires
        0 <= i <= secs.len(),
        secs.len() >= 1,
    ensures
        0 <= first_applicable(secs, holds, i) < secs.len(),
    decreases secs.len() - i,
{
    if i < secs.len() {
        lemma_first_applicable(secs, holds, i + 1);
    }
}

/// Whether a section shows only text.
fn is_text_only(section: &Section) -> (r: bool)
    ensures
        r == text_only(section@.parts),
{
    if !section.has_text_placeholder() {
        return false;
    }
    let parts = section.parts();
    let ghost ps = section@.parts;
    let mut i: usize = 0;
    while i < parts.len()
        invariant
            i <= parts@.len(),
            ps == parts_view(parts@),
            ps == section@.parts,
            has_text_placeholder(ps),
            forall|j: int|
                0 <= j < i ==> !((#[trigger] ps[j]).is_numeric() || ps[j] is Literal
                    || ps[j] is EscapedLiteral),
        decreases parts@.len() - i,
    {
        assert(ps[i as int] == parts[i as int]@);
        if parts[i].is_numeric_part() || matches!(parts[i], FormatPartOf::Literal(_))
            || matches!(parts[i], FormatPartOf::EscapedLiteral(_)) {
            assert(ps[i as int].is_numeric() || ps[i as int] is Literal || ps[i as int] is EscapedLiteral);
            return false;
        }
        i = i + 1;
    }
    true
}

impl NumberFormat {
    /// The index of the section a value is formatted with, given its sign and
    /// whether each section's condition holds for it (`holds[i]` is ignored
    /// for a section without a condition).
    pub fn select_section_index_for(&self, sign: ValueSign, holds: &Vec<bool>) -> (r: usize)
        requires
            holds@.len() == self@.len(),
        ensures
            r == selected_index(self@, sign, holds@),
            r < self@.len(),
            !has_conditions(self@) && self@.len() == 2 ==> (r == 1 <==> sign == ValueSign::Negative),
            !has_conditions(self@) && 3 <= self@.len() <= 4 ==> (sign == ValueSign::Positive ==> r == 0)
                && (sign == ValueSign::Negative ==> r == 1) && (sign == ValueSign::Zero ==> r != 1),
            !has_conditions(self@) && r == 1 ==> sign == ValueSign::Negative,
            has_conditions(self@) ==> forall|j: int|
                0 <= j < r ==> (#[trigger] self@[j]).condition is Some && !holds@[j],
    {
        let sections = self.sections();
        let ghost secs = self@;
        proof {
            if has_conditions(secs) {
                law_conditions_pick_first_applicable(secs, sign, holds@);
            } else {
                law_section_by_sign(secs, sign, holds@);
            }
        }
        let n = sections.len();
        let mut any_condition = false;
        let mut i: usize = 0;
        while i < n
            invariant
                i <= n,
                n == secs.len(),
                secs == sections_view(sections@),
                any_condition == exists|j: int| 0 <= j < i && (#[trigger] secs[j]).condition is Some,
            decreases n - i,
        {
            assert(secs[i as int] == sections@[i as int]@);
            if sections[i].condition_ref().is_some() {
                any_condition = true;
            }
            i = i + 1;
        }
        assert(any_condition == has_conditions(secs));
        if any_condition {
            proof {
                lemma_first_applicable(secs, holds@, 0);
            }
            let mut i: usize = 0;
            while i < n
                invariant
                    i <= n,
                    n == secs.len(),
                    n >= 1,
                    holds@.len() == n,
                    secs == sections_view(sections@),
                    secs == self@,
                    has_conditions(secs),
                    first_applicable(secs, holds@, i as int) == first_applicable(secs, holds@, 0),
                    forall|j: int|
                        0 <= j < i ==> (#[trigger] secs[j]).condition is Some && !holds@[j],
                decreases n - i,
            {
                assert(secs[i as int] == sections@[i as int]@);
                if sections[i].condition_ref().is_none() || holds[i] {
                    return i;
                }
                i = i + 1;
            }
            return n - 1;
        }
        if n == 2 {
            if sign == ValueSign::Negative {
                1
            } else {
                0
            }
        } else if n == 3 || n == 4 {
            match sign {
                ValueSign::Positive => 0,
                ValueSign::Negative => 1,
                ValueSign::Zero => {
                    assert(secs[2] == sections@[2]@);
                    if is_text_only(&sections[2]) {
                        0
                    } else {
                        2
                    }
                },
            }
        } else {
            0
        }
    }
}

/// A section made of one literal of one byte.
pub open spec fn single_byte_literal(ps: Seq<PartView>) -> bool {
    ps.len() == 1 && ps[0] is Literal && byte_len(ps[0]->Literal_0) == 1
}

/// Whether a value's own minus sign is shown before the formatted section:
/// only with a single section, for a negative value formatted as it is, when
/// the section holds number syntax or is one single-byte literal, and not
/// for fractions or scientific notation, which place their own sign.
pub open spec fn minus_sign_shown(secs: Seq<SectionView>, index: int, negative: bool, absolute: bool) -> bool {
    let ps = secs[index].parts;
    &&& secs.len() == 1
    &&& negative
    &&& (crate::formatter::bigint::has_numeric(ps) || single_byte_literal(ps))
    &&& !absolute
    &&& !any_part(ps, |p: PartView| is_fraction_part(p))
    &&& !any_part(ps, |p: PartView| is_scientific_part(p))
}

impl NumberFormat {
    /// Whether the value is formatted by its magnitude: only when some
    /// section has a condition, the selected one has one, and it holds
    /// strictly.
    pub fn uses_absolute_value(&self, index: usize, strict_match: bool) -> (r: bool)
        requires
            index < self@.len(),
        ensures
            r == (has_conditions(self@) && self@[index as int].condition is Some && strict_match),
    {
        let sections = self.sections();
        let ghost secs = self@;
        let mut any_condition = false;
        let mut i: usize = 0;
        while i < sections.len()
            invariant
                i <= sections@.len(),
                secs == sections_view(sections@),
                any_condition == exists|j: int| 0 <= j < i && (#[trigger] secs[j]).condition is Some,
            decreases sections@.len() - i,
        {
            assert(secs[i as int] == sections@[i as int]@);
            if sections[i].condition_ref().is_some() {
                any_condition = true;
            }
            i = i + 1;
        }
        assert(secs[index as int] == sections@[index as int]@);
        any_condition && sections[index].condition_ref().is_some() && strict_match
    }

    /// Whether a negative value's minus sign goes before the formatted
    /// section.
    pub fn minus_sign_needed(&self, index: usize, negative: bool, absolute: bool) -> (r: bool)
        requires
            index < self@.len(),
        ensures
            r == minus_sign_shown(self@, index as int, negative, absolute),
    {
        let sections = self.sections();
        let section = &sections[index];
        assert(section@ == self@[index as int]);
        let parts = section.parts();
        let ghost ps = section@.parts;
        let mut numeric = false;
        let mut fraction = false;
        let mut scientific = false;
        let mut i: usize = 0;
        while i < parts.len()
            invariant
                i <= parts@.len(),
                ps == parts_view(parts@),
                numeric == exists|j: int| 0 <= j < i && (#[trigger] ps[j]).is_numeric(),
                fraction == exists|j: int| 0 <= j < i && is_fraction_part(#[trigger] ps[j]),
                scientific == exists|j: int| 0 <= j < i && is_scientific_part(#[trigger] ps[j]),
            decreases parts@.len() - i,
        {
            assert(ps[i as int] == parts[i as int]@);
            if parts[i].is_numeric_part() {
                numeric = true;
            }
            match &parts[i] {
                FormatPartOf::Fraction(_) => fraction = true,
                FormatPartOf::Scientific { .. } => scientific = true,
                _ => {},
            }
            i = i + 1;
        }
        let single = parts.len() == 1 && match &parts[0] {
            FormatPartOf::Literal(t) => text_byte_len(t) == 1,
            _ => false,
        };
        assert(parts.len() == 1 ==> ps[0] == parts[0]@);
        sections.len() == 1 && negative && (numeric || single) && !absolute && !fraction && !scientific
    }
}

/// The selected section is a section of the format; with conditions it is
/// one whose condition holds, one without a condition, or the last; a single
/// section serves every value.
pub proof fn law_selected_section_applies(secs: Seq<SectionView>, sign: ValueSign, holds: Seq<bool>)
    requires
        1 <= secs.len(),
        holds.len() == secs.len(),
    ensures
        0 <= selected_index(secs, sign, holds) < secs.len(),
        has_conditions(secs) ==> {
            let i = selected_index(secs, sign, holds);
            secs[i].condition is None || holds[i] || i == secs.len() - 1
        },
        secs.len() == 1 && !has_conditions(secs) ==> selected_index(secs, sign, holds) == 0,
{
    lemma_first_applicable(secs, holds, 0);
    if has_conditions(secs) {
        lemma_first_applicable_applies(secs, holds, 0);
    }
}

/// Without conditions, the sign alone chooses the section: with two
/// sections, the second is for negative values only and every other value
/// takes the first; with three or four, positive values take the first,
/// negative values the second, and zero the third, or the first when the
/// third shows only text; no value other than a negative one ever takes the
/// second section.
pub proof fn law_section_by_sign(secs: Seq<SectionView>, sign: ValueSign, holds: Seq<bool>)
    requires
        1 <= secs.len(),
        holds.len() == secs.len(),
        !has_conditions(secs),
    ensures
        secs.len() == 2 ==> (selected_index(secs, sign, holds) == 1 <==> sign
            == ValueSign::Negative),
        secs.len() == 2 ==> (selected_index(secs, sign, holds) == 0 <==> sign
            != ValueSign::Negative),
        3 <= secs.len() <= 4 ==> (sign == ValueSign::Positive ==> selected_index(secs, sign, holds)
            == 0),
        3 <= secs.len() <= 4 ==> (sign == ValueSign::Negative ==> selected_index(secs, sign, holds)
            == 1),
        3 <= secs.len() <= 4 ==> (sign == ValueSign::Zero ==> selected_index(secs, sign, holds)
            != 1),
        3 <= secs.len() <= 4 && sign == ValueSign::Zero ==> (selected_index(secs, sign, holds)
            == 2 || selected_index(secs, sign, holds) == 0),
        3 <= secs.len() <= 4 && sign == ValueSign::Zero ==> (selected_index(secs, sign, holds)
            == 0 <==> text_only(secs[2].parts)),
        selected_index(secs, sign, holds) == 1 ==> sign == ValueSign::Negative,
{
}

/// With conditions, the selected section is the first that can apply:
/// every section before it has a condition that does not hold.
pub proof fn law_conditions_pick_first_applicable(
    secs: Seq<SectionView>,
    sign: ValueSign,
    holds: Seq<bool>,
)
    requires
        1 <= secs.len(),
        holds.len() == secs.len(),
        has_conditions(secs),
    ensures
        forall|j: int|
            0 <= j < selected_index(secs, sign, holds) ==> (#[trigger] secs[j]).condition is Some
                && !holds[j],
{
    lemma_first_applicable_skips(secs, holds, 0);
}

proof fn lemma_first_applicable_skips(secs: Seq<SectionView>, holds: Seq<bool>, i: int)
    requires
        0 <= i <= secs.len(),
        secs.len() >= 1,
    ensures
        forall|j: int|
            i <= j < first_applicable(secs, holds, i) ==> (#[trigger] secs[j]).condition is Some
                && !holds[j],
    decreases secs.len() - i,
{
    if i < secs.len() {
        lemma_first_applicable_skips(secs, holds, i + 1);
    }
}

proof fn lemma_first_applicable_applies(secs: Seq<SectionView>, holds: Seq<bool>, i: int)
    requires
        0 <= i <= secs.len(),
        secs.len() >= 1,
    ensures
        ({
            let k = first_applicable(secs, holds, i);
            secs[k].condition is None || holds[k] || k == secs.len() - 1
        }),
    decreases secs.len() - i,
{
    if i < secs.len() {
        lemma_first_applicable_applies(secs, holds, i + 1);
    }
}

/// What one operation finally shows when fills repeat `n` times.
pub open spec fn op_piece(op: OperationView, field: Option<Seq<char>>, n: nat) -> Seq<char> {
    match op {
        OperationOf::Text(t) => t,
        OperationOf::Fill(c) => Seq::new(n, |_i: int| c),
        OperationOf::Skip(_) => seq![' '],
        OperationOf::Semantic(_) => match field {
            Some(s) => s,
            None => Seq::empty(),
        },
    }
}

/// What the first `k` operations finally show, in source order.
pub open spec fn ops_text(ops: Seq<OperationView>, fields: Seq<Option<Seq<char>>>, n: nat, k: int) -> Seq<char>
    decreases k,
{
    if k <= 0 {
        Seq::empty()
    } else {
        ops_text(ops, fields, n, k - 1) + op_piece(ops[k - 1], fields[k - 1], n)
    }
}

/// Evaluation keeps source order and defers layout: resolving the evaluated
/// parts shows every operation's text, fill or space in source order.
pub proof fn law_evaluation_keeps_source_order(
    ops: Seq<OperationView>,
    fields: Seq<Option<Seq<char>>>,
    n: nat,
    k: int,
)
    ensures
        render::resolved(eval_ops(ops, fields, k), n) == ops_text(ops, fields, n, k),
    decreases k,
{
    if k > 0 {
        law_evaluation_keeps_source_order(ops, fields, n, k - 1);
        let out = eval_ops(ops, fields, k - 1);
        match ops[k - 1] {
            OperationOf::Text(t) => render::law_push_text_appends(out, t, n),
            OperationOf::Fill(c) => {
                assert(out.push(RenderPartOf::Fill(c)).drop_last() =~= out);
            },
            OperationOf::Skip(c) => {
                assert(out.push(RenderPartOf::Skip(c)).drop_last() =~= out);
            },
            OperationOf::Semantic(_) => match fields[k - 1] {
                Some(s) => render::law_push_text_appends(out, s, n),
                None => {
                    assert(render::resolved(out, n) + Seq::<char>::empty() =~= render::resolved(
                        out,
                        n,
                    ));
                },
            },
        }
    }
}

/// Evaluated parts are coalesced: no empty text and no adjacent texts.
pub proof fn law_evaluation_coalesced(ops: Seq<OperationView>, fields: Seq<Option<Seq<char>>>, k: int)
    ensures
        render::coalesced(eval_ops(ops, fields, k)),
    decreases k,
{
    if k > 0 {
        law_evaluation_coalesced(ops, fields, k - 1);
        let out = eval_ops(ops, fields, k - 1);
        match ops[k - 1] {
            OperationOf::Text(t) => render::law_push_text_coalesces(out, t),
            OperationOf::Semantic(_) => match fields[k - 1] {
                Some(s) => render::law_push_text_coalesces(out, s),
                None => {},
            },
            _ => {},
        }
    }
}

} // verus!
