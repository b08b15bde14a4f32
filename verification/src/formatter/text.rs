//! Text-value evaluation into unresolved output parts.
use vstd::prelude::*;

use crate::ast::{opt_text_view, FormatPartOf, PartView};
use crate::chars::{chars_of, slice_chars, string_of};
use crate::compile::{OperationOf, OperationView, PlanView, SectionPlan, TextFillAnchor, TextSpec};
use crate::lexer::{find_from, find_from_exec, lemma_find_from};

use crate::compile::plans_of;
use crate::error::FormatError;
use crate::numfmt::{text_section_index, NumberFormat};
use crate::options::FormatOptions;

use super::render::{
    layout_bytes, push_text, push_text_spec, render_views, resolve_layout, resolved, RenderPart,
    RenderPartOf, RenderView,
};
use super::{eval_op, eval_ops, evaluate_operation, evaluate_operations, fields_view};

verus! {

/// Where the first line of `v` ends: before its first LF, or before the CR
/// of a CRLF; counted in characters.
pub open spec fn line_ending_start(v: Seq<char>) -> Option<int> {
    match find_from(v, 0, '\n') {
        Some(k) => Some(
            if k > 0 && v[k - 1] == '\r' {
                k - 1
            } else {
                k
            },
        ),
        None => None,
    }
}

/// What a semantic operation shows of a text value: the value for `@`.
pub open spec fn text_field(op: OperationView, v: Seq<char>) -> Option<Seq<char>> {
    if op == OperationOf::<Seq<char>>::Semantic(PartView::TextPlaceholder) {
        Some(v)
    } else {
        None
    }
}

pub open spec fn text_fields(ops: Seq<OperationView>, v: Seq<char>) -> Seq<Option<Seq<char>>> {
    Seq::new(ops.len(), |i: int| text_field(ops[i], v))
}

/// The first `n` operations with the fill moved to the end of the value's
/// first line, at the text placeholder.
pub open spec fn anchored_ops(
    ops: Seq<OperationView>,
    a: TextFillAnchor,
    v: Seq<char>,
    split: int,
    fill: char,
    n: int,
) -> Seq<RenderView>
    decreases n,
{
    if n <= 0 {
        Seq::empty()
    } else {
        let out = anchored_ops(ops, a, v, split, fill, n - 1);
        let i = n - 1;
        if i == a.placeholder_index {
            push_text_spec(
                push_text_spec(out, v.take(split)).push(RenderPartOf::Fill(fill)),
                v.skip(split),
            )
        } else if i == a.fill_index {
            out
        } else {
            eval_op(out, ops[i], text_field(ops[i], v))
        }
    }
}

/// The unresolved output of a text value: in source order, except that a
/// fill anchored after the text placeholder goes to the end of a multi-line
/// value's first line.
pub open spec fn text_render(plan: PlanView, v: Seq<char>) -> Seq<RenderView> {
    let ops = plan.operations;
    let in_order = eval_ops(ops, text_fields(ops, v), ops.len() as int);
    match plan.text {
        Some(TextSpec { first_line_fill: Some(a) }) => match line_ending_start(v) {
            Some(split) => if a.fill_index < ops.len() && ops[a.fill_index as int] is Fill {
                anchored_ops(ops, a, v, split, ops[a.fill_index as int]->Fill_0, ops.len() as int)
            } else {
                in_order
            },
            None => in_order,
        },
        _ => in_order,
    }
}

/// Where the first line of `value` ends, counted in characters.
fn first_line_ending_start(value: &Vec<char>) -> (r: Option<usize>)
    ensures
        r == (match line_ending_start(value@) {
            Some(k) => Some(k as usize),
            None => None,
        }),
        r matches Some(k) ==> k < value@.len(),
        line_ending_start(value@) matches Some(k) ==> 0 <= k < value@.len(),
{
    proof {
        lemma_find_from(value@, 0, '\n');
    }
    match find_from_exec(value, 0, '\n') {
        Some(k) => if k > 0 && value[k - 1] == '\r' {
            Some(k - 1)
        } else {
            Some(k)
        },
        None => None,
    }
}

/// The fields of a text value: the value at each text placeholder.
fn text_value_fields(plan: &SectionPlan, value: &str) -> (r: Vec<Option<String>>)
    ensures
        fields_view(r@) == text_fields(plan@.operations, value@),
        r@.len() == plan.operations@.len(),
{
    let mut fields: Vec<Option<String>> = Vec::new();
    let mut i: usize = 0;
    while i < plan.operations.len()
        invariant
            i <= plan.operations@.len(),
            fields@.len() == i,
            forall|j: int|
                0 <= j < i ==> opt_text_view(#[trigger] fields@[j]) == text_field(
                    plan@.operations[j],
                    value@,
                ),
        decreases plan.operations@.len() - i,
    {
        let f = match &plan.operations[i] {
            OperationOf::Semantic(FormatPartOf::TextPlaceholder) => Some(
                string_of(chars_of(value).as_slice()),
            ),
            _ => None,
        };
        fields.push(f);
        i = i + 1;
    }
    assert(fields_view(fields@) =~= text_fields(plan@.operations, value@));
    fields
}

/// Text placeholders in source order, with no fill anchor applied.
fn evaluate_text_in_source_order(plan: &SectionPlan, value: &str) -> (r: Vec<RenderPart>)
    ensures
        render_views(r@) == eval_ops(
            plan@.operations,
            text_fields(plan@.operations, value@),
            plan@.operations.len() as int,
        ),
{
    let fields = text_value_fields(plan, value);
    evaluate_operations(plan, &fields)
}

/// Evaluates a text value through a plan without resolving fills or skips.
pub fn evaluate_text(plan: &SectionPlan, value: &str) -> (r: Vec<RenderPart>)
    ensures
        render_views(r@) == text_render(plan@, value@),
{
    let anchor = match plan.text {
        Some(TextSpec { first_line_fill: Some(a) }) => a,
        _ => {
            return evaluate_text_in_source_order(plan, value);
        },
    };
    let v = chars_of(value);
    let split = match first_line_ending_start(&v) {
        Some(k) => k,
        None => {
            return evaluate_text_in_source_order(plan, value);
        },
    };
    if anchor.fill_index >= plan.operations.len() {
        return evaluate_text_in_source_order(plan, value);
    }
    let fill = match &plan.operations[anchor.fill_index] {
        OperationOf::Fill(c) => *c,
        _ => {
            return evaluate_text_in_source_order(plan, value);
        },
    };
    let ghost ops = plan@.operations;
    assert(v@ == value@);
    assert(line_ending_start(v@) is Some);
    assert(line_ending_start(value@) == Some(split as int));
    assert(ops[anchor.fill_index as int] == OperationOf::<Seq<char>>::Fill(fill));
    assert(ops.len() == plan.operations@.len());
    let mut output: Vec<RenderPart> = Vec::new();
    assert(render_views(output@) =~= Seq::<RenderView>::empty());
    let mut i: usize = 0;
    while i < plan.operations.len()
        invariant
            i <= plan.operations@.len(),
            ops == plan@.operations,
            v@ == value@,
            split < v@.len(),
            plan@.text == Some(TextSpec { first_line_fill: Some(anchor) }),
            line_ending_start(value@) == Some(split as int),
            anchor.fill_index < ops.len(),
            ops[anchor.fill_index as int] == OperationOf::<Seq<char>>::Fill(fill),
            render_views(output@) == anchored_ops(ops, anchor, value@, split as int, fill, i as int),
        decreases plan.operations@.len() - i,
    {
        if i == anchor.placeholder_index {
            push_text(&mut output, string_of(slice_chars(&v, 0, split).as_slice()));
            let ghost mid = render_views(output@);
            output.push(RenderPartOf::Fill(fill));
            assert(render_views(output@) =~= mid.push(RenderPartOf::Fill(fill)));
            push_text(&mut output, string_of(slice_chars(&v, split, v.len()).as_slice()));
            assert(v@.subrange(0, split as int) =~= value@.take(split as int));
            assert(v@.subrange(split as int, v@.len() as int) =~= value@.skip(split as int));
        } else if i != anchor.fill_index {
            let field = match &plan.operations[i] {
                OperationOf::Semantic(FormatPartOf::TextPlaceholder) => Some(
                    string_of(v.as_slice()),
                ),
                _ => None,
            };
            assert(opt_text_view(field) == text_field(ops[i as int], value@));
            evaluate_operation(&mut output, &plan.operations[i], &field);
        }
        i = i + 1;
    }
    assert(text_render(plan@, value@) == anchored_ops(ops, anchor, value@, split as int, fill, ops.len() as int));
    output
}

impl NumberFormat {
    /// Formats a text value through the text section's plan and resolves
    /// its layout with the options' fill count; without a text section the
    /// text is returned unchanged.
    pub fn try_format_text(&self, text: &str, opts: &FormatOptions) -> (r: Result<String, FormatError>)
        ensures
            match text_section_index(self@) {
                None => r matches Ok(s) && s@ == text@,
                Some(i) => {
                    let parts = text_render(plans_of(self@)[i], text@);
                    &&& match r {
                        Ok(s) => s@ == resolved(parts, opts.fill_count as nat),
                        Err(e) => e == FormatError::OutputTooLarge { fill_count: opts.fill_count },
                    }
                    &&& layout_bytes(parts, opts.fill_count as nat) > isize::MAX ==> r is Err
                    &&& layout_bytes(parts, opts.fill_count as nat) == 0 ==> r is Ok
                },
            },
    {
        let sections = self.sections();
        let plans = self.compiled();
        let n = sections.len();
        let index: usize = if n >= 4 {
            3
        } else {
            assert(self@.last() == sections@[n - 1]@);
            if sections[n - 1].has_text_placeholder() {
                n - 1
            } else {
                return Ok(string_of(chars_of(text).as_slice()));
            }
        };
        assert(plans@[index as int] == plans.sections@[index as int]@);
        let parts = evaluate_text(&plans.sections[index], text);
        resolve_layout(parts.as_slice(), opts.fill_count)
    }
}

} // verus!
