//! Evaluated output before its layout directives are resolved, and the
//! final layout stage that turns it into text.
use vstd::prelude::*;

use crate::chars::{
    byte_len, char_len_utf8, string_push, string_push_str, string_try_reserve, text_byte_len, utf8_len,
};
use crate::error::FormatError;

verus! {

/// One evaluated output fragment; `T` is the text type.
#[derive(Debug, Clone, PartialEq, Eq)]
pub enum RenderPartOf<T> {
    /// Materialized semantic or literal text.
    Text(T),
    /// A fill directive awaiting its runtime repetition count.
    Fill(char),
    /// A width hint shown as one plain-text space.
    Skip(char),
}

pub type RenderPart = RenderPartOf<String>;

pub type RenderView = RenderPartOf<Seq<char>>;

impl View for RenderPartOf<String> {
    type V = RenderView;

    open spec fn view(&self) -> RenderView {
        match self {
            RenderPartOf::Text(t) => RenderPartOf::Text(t@),
            RenderPartOf::Fill(c) => RenderPartOf::Fill(*c),
            RenderPartOf::Skip(c) => RenderPartOf::Skip(*c),
        }
    }
}

pub open spec fn render_views(v: Seq<RenderPart>) -> Seq<RenderView> {
    Seq::new(v.len(), |i: int| v[i]@)
}

/// `t` appended to `ps`: nothing for empty text, merged into a preceding
/// text, else a new text part.
pub open spec fn push_text_spec(ps: Seq<RenderView>, t: Seq<char>) -> Seq<RenderView> {
    if t.len() == 0 {
        ps
    } else if ps.len() > 0 && ps.last() is Text {
        ps.drop_last().push(RenderPartOf::Text(ps.last()->Text_0 + t))
    } else {
        ps.push(RenderPartOf::Text(t))
    }
}

/// No text part is empty and no two text parts are adjacent.
pub open spec fn coalesced(ps: Seq<RenderView>) -> bool {
    &&& forall|i: int| 0 <= i < ps.len() && (#[trigger] ps[i]) is Text ==> ps[i]->Text_0.len() > 0
    &&& forall|i: int| 0 <= i < ps.len() - 1 && (#[trigger] ps[i]) is Text ==> !(ps[i + 1] is Text)
}

/// The characters one part shows when fills repeat `n` times.
pub open spec fn piece(p: RenderView, n: nat) -> Seq<char> {
    match p {
        RenderPartOf::Text(t) => t,
        RenderPartOf::Fill(c) => Seq::new(n, |_i: int| c),
        RenderPartOf::Skip(_) => seq![' '],
    }
}

/// The text `ps` resolves to when fills repeat `n` times.
pub open spec fn resolved(ps: Seq<RenderView>, n: nat) -> Seq<char>
    decreases ps.len(),
{
    if ps.len() == 0 {
        Seq::empty()
    } else {
        resolved(ps.drop_last(), n) + piece(ps.last(), n)
    }
}

/// The number of bytes one part resolves to.
pub open spec fn piece_bytes(p: RenderView, n: nat) -> nat {
    match p {
        RenderPartOf::Text(t) => byte_len(t),
        RenderPartOf::Fill(c) => n * utf8_len(c),
        RenderPartOf::Skip(_) => 1,
    }
}

/// The number of bytes `ps` resolves to.
pub open spec fn layout_bytes(ps: Seq<RenderView>, n: nat) -> nat
    decreases ps.len(),
{
    if ps.len() == 0 {
        0
    } else {
        layout_bytes(ps.drop_last(), n) + piece_bytes(ps.last(), n)
    }
}

/// The index of the first fill at or after `i`.
pub open spec fn first_fill_from(ps: Seq<RenderView>, i: int) -> Option<int>
    decreases ps.len() - i,
{
    if i < 0 || i >= ps.len() {
        None
    } else if ps[i] is Fill {
        Some(i)
    } else {
        first_fill_from(ps, i + 1)
    }
}

/// Where the first fill stands in the fill-free output, in bytes, and its
/// character; none when there is no fill or the offset exceeds `usize`.
pub open spec fn fill_position_spec(ps: Seq<RenderView>) -> Option<(usize, char)> {
    match first_fill_from(ps, 0) {
        Some(k) => if layout_bytes(ps.take(k), 0) <= usize::MAX {
            Some((layout_bytes(ps.take(k), 0) as usize, ps[k]->Fill_0))
        } else {
            None
        },
        None => None,
    }
}

/// Appends `text`, merging it into a preceding text part.
pub fn push_text(parts: &mut Vec<RenderPart>, text: String)
    ensures
        render_views(final(parts)@) == push_text_spec(render_views(old(parts)@), text@),
{
    let ghost old_v = render_views(parts@);
    if text.as_str().is_empty() {
        return;
    }
    let n = parts.len();
    if n > 0 && matches!(parts[n - 1], RenderPartOf::Text(_)) {
        let last = parts.pop().unwrap();
        assert(render_views(parts@) =~= old_v.drop_last());
        if let RenderPartOf::Text(mut prev) = last {
            string_push_str(&mut prev, text.as_str());
            parts.push(RenderPartOf::Text(prev));
        }
    } else {
        parts.push(RenderPartOf::Text(text));
    }
    assert(render_views(parts@) =~= push_text_spec(old_v, text@));
}

/// Where the first fill stands in the fill-free output, counted in bytes.
pub fn fill_position(parts: &[RenderPart]) -> (r: Option<(usize, char)>)
    ensures
        r == fill_position_spec(render_views(parts@)),
{
    let ghost ps = render_views(parts@);
    let mut offset: usize = 0;
    let mut i: usize = 0;
    while i < parts.len()
        invariant
            i <= parts@.len(),
            ps == render_views(parts@),
            offset == layout_bytes(ps.take(i as int), 0),
            first_fill_from(ps, 0) == first_fill_from(ps, i as int),
        decreases parts@.len() - i,
    {
        assert(ps.take(i + 1).drop_last() =~= ps.take(i as int));
        match &parts[i] {
            RenderPartOf::Text(t) => {
                let len = text_byte_len(t);
                match offset.checked_add(len) {
                    Some(o) => offset = o,
                    None => {
                        proof {
                            lemma_layout_bytes_prefix_mono(ps, i + 1);
                        }
                        return None;
                    },
                }
            },
            RenderPartOf::Fill(c) => {
                return Some((offset, *c));
            },
            RenderPartOf::Skip(_) => {
                match offset.checked_add(1) {
                    Some(o) => offset = o,
                    None => {
                        proof {
                            lemma_layout_bytes_prefix_mono(ps, i + 1);
                        }
                        return None;
                    },
                }
            },
        }
        i = i + 1;
    }
    None
}

/// Once a prefix of `ps` holds more bytes than `usize`, so does every prefix
/// up to its first fill.
proof fn lemma_layout_bytes_prefix_mono(ps: Seq<RenderView>, i: int)
    requires
        0 < i <= ps.len(),
        layout_bytes(ps.take(i), 0) > usize::MAX,
        first_fill_from(ps, 0) == first_fill_from(ps, i - 1),
        !(ps[i - 1] is Fill),
    ensures
        fill_position_spec(ps) is None,
{
    match first_fill_from(ps, i) {
        Some(k) => {
            lemma_first_fill_from(ps, i);
            lemma_layout_bytes_take_mono(ps, i, k, 0);
        },
        None => {},
    }
}

pub proof fn lemma_first_fill_from(ps: Seq<RenderView>, i: int)
    requires
        0 <= i,
    ensures
        first_fill_from(ps, i) matches Some(k) ==> i <= k < ps.len() && ps[k] is Fill && forall|j: int|
            i <= j < k ==> !(#[trigger] ps[j] is Fill),
        first_fill_from(ps, i) is None ==> forall|j: int| i <= j < ps.len() ==> !(#[trigger] ps[j] is Fill),
    decreases ps.len() - i,
{
    if i < ps.len() {
        lemma_first_fill_from(ps, i + 1);
    }
}

pub proof fn lemma_layout_bytes_take_mono(ps: Seq<RenderView>, i: int, k: int, n: nat)
    requires
        0 <= i <= k <= ps.len(),
    ensures
        layout_bytes(ps.take(i), n) <= layout_bytes(ps.take(k), n),
    decreases k - i,
{
    if i < k {
        lemma_layout_bytes_take_mono(ps, i, k - 1, n);
        assert(ps.take(k).drop_last() =~= ps.take(k - 1));
    }
}

/// The number of bytes `parts` resolve to with `fill_count`, or `None` when
/// that number does not fit in a `usize`.
pub fn layout_capacity(parts: &[RenderPart], fill_count: usize) -> (r: Option<usize>)
    ensures
        r == (if layout_bytes(render_views(parts@), fill_count as nat) <= usize::MAX {
            Some(layout_bytes(render_views(parts@), fill_count as nat) as usize)
        } else {
            None::<usize>
        }),
{
    let ghost ps = render_views(parts@);
    let ghost n = fill_count as nat;
    let mut capacity: usize = 0;
    let mut i: usize = 0;
    while i < parts.len()
        invariant
            i <= parts@.len(),
            ps == render_views(parts@),
            n == fill_count as nat,
            capacity == layout_bytes(ps.take(i as int), n),
        decreases parts@.len() - i,
    {
        assert(ps.take(i + 1).drop_last() =~= ps.take(i as int));
        let additional: usize = match &parts[i] {
            RenderPartOf::Text(t) => text_byte_len(t),
            RenderPartOf::Fill(c) => match fill_count.checked_mul(char_len_utf8(*c)) {
                Some(b) => b,
                None => {
                    proof {
                        assert(piece_bytes(ps[i as int], n) > usize::MAX);
                        lemma_layout_bytes_take_mono(ps, i + 1, ps.len() as int, n);
                        assert(ps.take(ps.len() as int) =~= ps);
                    }
                    return None;
                },
            },
            RenderPartOf::Skip(_) => 1,
        };
        match capacity.checked_add(additional) {
            Some(c) => capacity = c,
            None => {
                proof {
                    lemma_layout_bytes_take_mono(ps, i + 1, ps.len() as int, n);
                    assert(ps.take(ps.len() as int) =~= ps);
                }
                return None;
            },
        }
        i = i + 1;
    }
    assert(ps.take(ps.len() as int) =~= ps);
    Some(capacity)
}

/// Resolves every layout directive: fills repeat `fill_count` times and
/// skips become one space. The output's size is computed first
/// (`layout_capacity`) and reserved at once; output of more than `isize::MAX`
/// bytes, or that the allocator cannot hold, is refused.
pub fn resolve_layout(parts: &[RenderPart], fill_count: usize) -> (r: Result<String, FormatError>)
    ensures
        match r {
            Ok(s) => s@ == resolved(render_views(parts@), fill_count as nat) && layout_bytes(
                render_views(parts@),
                fill_count as nat,
            ) <= isize::MAX,
            Err(e) => e == FormatError::OutputTooLarge { fill_count },
        },
        layout_bytes(render_views(parts@), fill_count as nat) > isize::MAX ==> r
            == Err::<String, FormatError>(FormatError::OutputTooLarge { fill_count }),
        layout_bytes(render_views(parts@), fill_count as nat) == 0 ==> r is Ok,
{
    let ghost ps = render_views(parts@);
    let ghost n = fill_count as nat;
    let capacity = match layout_capacity(parts, fill_count) {
        Some(c) => c,
        None => return Err(FormatError::OutputTooLarge { fill_count }),
    };
    let mut output = String::new();
    assert(byte_len(output@) == 0);
    if !string_try_reserve(&mut output, capacity) {
        return Err(FormatError::OutputTooLarge { fill_count });
    }
    let mut i: usize = 0;
    while i < parts.len()
        invariant
            i <= parts@.len(),
            ps == render_views(parts@),
            n == fill_count as nat,
            layout_bytes(ps, n) <= isize::MAX,
            output@ == resolved(ps.take(i as int), n),
        decreases parts@.len() - i,
    {
        assert(ps.take(i + 1).drop_last() =~= ps.take(i as int));
        match &parts[i] {
            RenderPartOf::Text(t) => string_push_str(&mut output, t.as_str()),
            RenderPartOf::Fill(c) => {
                let ghost before = output@;
                let mut k: usize = 0;
                while k < fill_count
                    invariant
                        k <= fill_count,
                        output@ == before + Seq::new(k as nat, |_j: int| *c),
                    decreases fill_count - k,
                {
                    string_push(&mut output, *c);
                    assert(Seq::new((k + 1) as nat, |_j: int| *c) =~= Seq::new(
                        k as nat,
                        |_j: int| *c,
                    ).push(*c));
                    k = k + 1;
                }
            },
            RenderPartOf::Skip(_) => {
                string_push(&mut output, ' ');
                assert(seq![' '] =~= Seq::<char>::empty().push(' '));
            },
        }
        i = i + 1;
    }
    assert(ps.take(ps.len() as int) =~= ps);
    Ok(output)
}

/// The number of fill directives in `ps`.
pub open spec fn fill_parts(ps: Seq<RenderView>) -> nat
    decreases ps.len(),
{
    if ps.len() == 0 {
        0
    } else {
        fill_parts(ps.drop_last()) + if ps.last() is Fill {
            1nat
        } else {
            0nat
        }
    }
}

/// Appending text to output parts appends it to the resolved text, whatever
/// the fill count: merging adjacent texts changes nothing that is shown.
pub proof fn law_push_text_appends(ps: Seq<RenderView>, t: Seq<char>, n: nat)
    ensures
        resolved(push_text_spec(ps, t), n) == resolved(ps, n) + t,
{
    let r = push_text_spec(ps, t);
    if t.len() == 0 {
        assert(resolved(ps, n) + t =~= resolved(ps, n));
    } else if ps.len() > 0 && ps.last() is Text {
        assert(r.drop_last() =~= ps.drop_last());
        assert(resolved(r, n) =~= resolved(ps, n) + t);
    } else {
        assert(r.drop_last() =~= ps);
    }
}

/// Output built with `push_text` stays coalesced: no empty text part and no
/// two adjacent text parts.
pub proof fn law_push_text_coalesces(ps: Seq<RenderView>, t: Seq<char>)
    requires
        coalesced(ps),
    ensures
        coalesced(push_text_spec(ps, t)),
{
    let r = push_text_spec(ps, t);
    if t.len() > 0 && ps.len() > 0 && ps.last() is Text {
        assert forall|i: int| 0 <= i < r.len() - 1 && (#[trigger] r[i]) is Text implies !(r[i
            + 1] is Text) by {
            assert(r[i] == ps[i]);
        }
    }
}

/// Every fill shows its character exactly `n` times: the resolved text is
/// the fill-free text plus `n` characters per fill.
pub proof fn law_fill_repeats(ps: Seq<RenderView>, n: nat)
    ensures
        resolved(ps, n).len() == resolved(ps, 0).len() + n * fill_parts(ps),
    decreases ps.len(),
{
    if ps.len() > 0 {
        law_fill_repeats(ps.drop_last(), n);
        let k = fill_parts(ps.drop_last());
        assert(n * (k + 1) == n * k + n) by (nonlinear_arith);
        assert(piece(ps.last(), n).len() == piece(ps.last(), 0).len() + if ps.last() is Fill {
            n
        } else {
            0
        });
    } else {
        assert(n * 0 == 0) by (nonlinear_arith);
    }
}

/// A layout without fills resolves to the same text for every fill count.
pub proof fn law_fill_free_layout_ignores_count(ps: Seq<RenderView>, n: nat, m: nat)
    requires
        fill_parts(ps) == 0,
    ensures
        resolved(ps, n) == resolved(ps, m),
    decreases ps.len(),
{
    if ps.len() > 0 {
        law_fill_free_layout_ignores_count(ps.drop_last(), n, m);
        if ps.last() is Fill {
            assert(fill_parts(ps) > 0);
        }
    }
}

} // verus!
