//! Structured formatting output.
use vstd::prelude::*;

use crate::ast::{Color, FormatPart, FormatPartOf, PartView};
use crate::chars::{string_of, string_push, string_push_str};

verus! {

/// An item in a formatted output stream; `T` is the text type.
#[derive(Debug, Clone, PartialEq)]
#[non_exhaustive]
pub enum FormatOutputOf<T> {
    /// Text to display.
    Text(T),
    /// Change the active color for subsequent paintable parts.
    Color(Color),
    /// Repeat this character to consume the available width.
    Fill(char),
    /// Reserve the rendered width of this character without painting it.
    Skip(char),
}

pub type FormatOutput = FormatOutputOf<String>;

pub type OutputView = FormatOutputOf<Seq<char>>;

impl View for FormatOutputOf<String> {
    type V = OutputView;

    open spec fn view(&self) -> OutputView {
        match self {
            FormatOutputOf::Text(t) => FormatOutputOf::Text(t@),
            FormatOutputOf::Color(c) => FormatOutputOf::Color(*c),
            FormatOutputOf::Fill(c) => FormatOutputOf::Fill(*c),
            FormatOutputOf::Skip(c) => FormatOutputOf::Skip(*c),
        }
    }
}

pub open spec fn outputs_view(v: Seq<FormatOutput>) -> Seq<OutputView> {
    Seq::new(v.len(), |i: int| v[i]@)
}

/// The plain-text approximation of an output stream: texts as they are, one
/// space per skip, and nothing for colors and fills.
pub open spec fn plain_text_spec(out: Seq<OutputView>) -> Seq<char>
    decreases out.len(),
{
    if out.len() == 0 {
        Seq::empty()
    } else {
        plain_text_spec(out.drop_last()) + match out.last() {
            FormatOutputOf::Text(t) => t,
            FormatOutputOf::Skip(_) => seq![' '],
            _ => Seq::empty(),
        }
    }
}

/// The output one context-independent part gives, if any.
pub open spec fn output_of_part(p: PartView) -> Option<OutputView> {
    match p {
        FormatPartOf::Literal(t) => Some(FormatOutputOf::Text(t)),
        FormatPartOf::EscapedLiteral(t) => Some(FormatOutputOf::Text(t)),
        FormatPartOf::Locale(l) => match l.currency {
            Some(c) => Some(FormatOutputOf::Text(c)),
            None => None,
        },
        FormatPartOf::Percent => Some(FormatOutputOf::Text(seq!['%'])),
        FormatPartOf::Fill(c) => Some(FormatOutputOf::Fill(c)),
        FormatPartOf::Skip(c) => Some(FormatOutputOf::Skip(c)),
        _ => None,
    }
}

pub open spec fn opt_output_view(o: Option<FormatOutput>) -> Option<OutputView> {
    match o {
        Some(x) => Some(x@),
        None => None,
    }
}

/// Converts structured output to its plain-text approximation.
pub fn plain_text(output: &[FormatOutput]) -> (r: String)
    ensures
        r@ == plain_text_spec(outputs_view(output@)),
{
    let ghost out = outputs_view(output@);
    let mut text = String::new();
    let mut i: usize = 0;
    while i < output.len()
        invariant
            i <= output@.len(),
            out == outputs_view(output@),
            text@ == plain_text_spec(out.take(i as int)),
        decreases output@.len() - i,
    {
        assert(out.take(i + 1).drop_last() =~= out.take(i as int));
        match &output[i] {
            FormatOutputOf::Text(value) => string_push_str(&mut text, value.as_str()),
            FormatOutputOf::Skip(_) => {
                string_push(&mut text, ' ');
                assert(seq![' '] =~= Seq::<char>::empty().push(' '));
            },
            _ => {
                assert(text@ + Seq::<char>::empty() =~= text@);
            },
        }
        i = i + 1;
    }
    assert(out.take(output@.len() as int) =~= out);
    text
}

/// One text part holding `text`, or nothing for empty text.
pub fn text_if_nonempty(text: String) -> (r: Vec<FormatOutput>)
    ensures
        text@.len() == 0 ==> r@.len() == 0,
        text@.len() > 0 ==> outputs_view(r@) == seq![FormatOutputOf::<Seq<char>>::Text(text@)],
{
    if text.as_str().is_empty() {
        Vec::new()
    } else {
        let ghost t = text@;
        let r = vec![FormatOutputOf::Text(text)];
        assert(outputs_view(r@) =~= seq![FormatOutputOf::<Seq<char>>::Text(t)]);
        r
    }
}

/// The output of a context-independent part: literal text, currency text,
/// the percent sign, and the fill and skip directives.
pub fn output_for_part(part: &FormatPart) -> (r: Option<FormatOutput>)
    ensures
        opt_output_view(r) == output_of_part(part@),
{
    match part {
        FormatPartOf::Literal(text) => Some(FormatOutputOf::Text(text.clone())),
        FormatPartOf::EscapedLiteral(text) => Some(FormatOutputOf::Text(text.clone())),
        FormatPartOf::Locale(locale) => match &locale.currency {
            Some(c) => Some(FormatOutputOf::Text(c.clone())),
            None => None,
        },
        FormatPartOf::Percent => {
            let pct = vec!['%'];
            let r = Some(FormatOutputOf::Text(string_of(pct.as_slice())));
            assert(pct@ =~= seq!['%']);
            r
        },
        FormatPartOf::Fill(c) => Some(FormatOutputOf::Fill(*c)),
        FormatPartOf::Skip(c) => Some(FormatOutputOf::Skip(*c)),
        _ => None,
    }
}

} // verus!
