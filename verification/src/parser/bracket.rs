//! Recognizers for the content of `[...]`: colors, conditions, elapsed-time
//! fields and locale codes.
use vstd::prelude::*;

use crate::ast::{
    is_float_literal, named_color, Color, Condition, ConditionOf, ConditionView, ElapsedPart,
    LocaleCode, LocaleCodeOf, NamedColor, Threshold,
};
use crate::chars::{
    chars_of, eq_ignore_ascii_case, matches_at_ignore_case, matches_at_ignore_case_exec,
    slice_chars, string_of, trim, trim_range,
};

verus! {

/// Decimal value of a string of ASCII digits.
pub open spec fn decimal_value(s: Seq<char>) -> nat
    decreases s.len(),
{
    if s.len() == 0 {
        0
    } else {
        decimal_value(s.drop_last()) * 10 + ((s.last() as u32) - ('0' as u32)) as nat
    }
}

pub open spec fn hex_digit_value(c: char) -> nat {
    if '0' <= c <= '9' {
        ((c as u32) - ('0' as u32)) as nat
    } else if 'a' <= c <= 'f' {
        ((c as u32) - ('a' as u32) + 10) as nat
    } else {
        ((c as u32) - ('A' as u32) + 10) as nat
    }
}

pub open spec fn is_hex_digit(c: char) -> bool {
    ('0' <= c <= '9') || ('a' <= c <= 'f') || ('A' <= c <= 'F')
}

/// Value of a string of hexadecimal digits.
pub open spec fn hex_value(s: Seq<char>) -> nat
    decreases s.len(),
{
    if s.len() == 0 {
        0
    } else {
        hex_value(s.drop_last()) * 16 + hex_digit_value(s.last())
    }
}

/// `s` without one leading `+`.
pub open spec fn unsigned_body(s: Seq<char>) -> Seq<char> {
    if s.len() > 0 && s[0] == '+' {
        s.drop_first()
    } else {
        s
    }
}

/// What `u8::from_str` gives: an optional `+`, then one or more decimal digits
/// whose value fits in a `u8`.
pub open spec fn parse_u8(s: Seq<char>) -> Option<u8> {
    let b = unsigned_body(s);
    if b.len() > 0 && (forall|i: int| 0 <= i < b.len() ==> '0' <= #[trigger] b[i] <= '9')
        && decimal_value(b) <= 255 {
        Some(decimal_value(b) as u8)
    } else {
        None
    }
}

/// What `u32::from_str_radix(s, 16)` gives: an optional `+`, then one or more
/// hexadecimal digits whose value fits in a `u32`.
pub open spec fn parse_hex_u32(s: Seq<char>) -> Option<u32> {
    let b = unsigned_body(s);
    if b.len() > 0 && (forall|i: int| 0 <= i < b.len() ==> is_hex_digit(#[trigger] b[i]))
        && hex_value(b) <= u32::MAX {
        Some(hex_value(b) as u32)
    } else {
        None
    }
}

pub open spec fn color_word() -> Seq<char> {
    seq!['c', 'o', 'l', 'o', 'r']
}

/// The color that bracket content `content` names: a named color, or
/// `Color1` to `Color56` (the word in any ASCII case).
pub open spec fn color_of(content: Seq<char>) -> Option<Color> {
    match named_color(content) {
        Some(n) => Some(Color::Named(n)),
        None => if matches_at_ignore_case(content, 0, color_word()) {
            match parse_u8(content.subrange(5, content.len() as int)) {
                Some(i) => if 1 <= i <= 56 {
                    Some(Color::Indexed(i))
                } else {
                    None
                },
                None => None,
            }
        } else {
            None
        },
    }
}

pub open spec fn starts_with(s: Seq<char>, p: Seq<char>) -> bool {
    p.len() <= s.len() && s.subrange(0, p.len() as int) == p
}

/// The condition that bracket content `content` writes: a comparison operator
/// followed by a number that `f64::from_str` accepts.
pub open spec fn condition_of(content: Seq<char>) -> Option<ConditionView> {
    let c = trim(content);
    if starts_with(c, seq!['>', '=']) {
        let v = trim(c.subrange(2, c.len() as int));
        if is_float_literal(v) {
            Some(ConditionOf::GreaterOrEqual(v))
        } else {
            None
        }
    } else if starts_with(c, seq!['<', '=']) {
        let v = trim(c.subrange(2, c.len() as int));
        if is_float_literal(v) {
            Some(ConditionOf::LessOrEqual(v))
        } else {
            None
        }
    } else if starts_with(c, seq!['<', '>']) {
        let v = trim(c.subrange(2, c.len() as int));
        if is_float_literal(v) {
            Some(ConditionOf::NotEqual(v))
        } else {
            None
        }
    } else if starts_with(c, seq!['>']) {
        let v = trim(c.subrange(1, c.len() as int));
        if is_float_literal(v) {
            Some(ConditionOf::GreaterThan(v))
        } else {
            None
        }
    } else if starts_with(c, seq!['<']) {
        let v = trim(c.subrange(1, c.len() as int));
        if is_float_literal(v) {
            Some(ConditionOf::LessThan(v))
        } else {
            None
        }
    } else if starts_with(c, seq!['=']) {
        let v = trim(c.subrange(1, c.len() as int));
        if is_float_literal(v) {
            Some(ConditionOf::Equal(v))
        } else {
            None
        }
    } else {
        None
    }
}

/// The elapsed-time field that bracket content names, in any ASCII case.
pub open spec fn elapsed_of(content: Seq<char>) -> Option<ElapsedPart> {
    if eq_ignore_ascii_case(content, seq!['h']) {
        Some(ElapsedPart::Hours)
    } else if eq_ignore_ascii_case(content, seq!['h', 'h']) {
        Some(ElapsedPart::Hours2)
    } else if eq_ignore_ascii_case(content, seq!['m']) {
        Some(ElapsedPart::Minutes)
    } else if eq_ignore_ascii_case(content, seq!['m', 'm']) {
        Some(ElapsedPart::Minutes2)
    } else if eq_ignore_ascii_case(content, seq!['s']) {
        Some(ElapsedPart::Seconds)
    } else if eq_ignore_ascii_case(content, seq!['s', 's']) {
        Some(ElapsedPart::Seconds2)
    } else {
        None
    }
}

pub open spec fn nonempty_text(s: Seq<char>) -> Option<Seq<char>> {
    if s.len() == 0 {
        None
    } else {
        Some(s)
    }
}

/// The locale code that bracket content writes: `$` then a currency symbol,
/// optionally followed by `-` and a hexadecimal LCID.
pub open spec fn locale_of(content: Seq<char>) -> Option<LocaleCodeOf<Seq<char>>> {
    if content.len() == 0 || content[0] != '$' {
        None
    } else {
        let rest = content.drop_first();
        match crate::lexer::find_from(rest, 0, '-') {
            Some(d) => Some(
                LocaleCodeOf {
                    currency: nonempty_text(rest.subrange(0, d)),
                    lcid: parse_hex_u32(rest.subrange(d + 1, rest.len() as int)),
                },
            ),
            None => Some(LocaleCodeOf { currency: nonempty_text(rest), lcid: None }),
        }
    }
}

/// Parses `s[from..to]` like `u8::from_str`.
pub fn parse_u8_exec(s: &Vec<char>, from: usize, to: usize) -> (r: Option<u8>)
    requires
        from <= to <= s.len(),
    ensures
        r == parse_u8(s@.subrange(from as int, to as int)),
{
    let ghost full = s@.subrange(from as int, to as int);
    let start = if from < to && s[from] == '+' {
        from + 1
    } else {
        from
    };
    let ghost b = unsigned_body(full);
    assert(b =~= s@.subrange(start as int, to as int));
    if start == to {
        return None;
    }
    let mut value: u32 = 0;
    let mut i = start;
    while i < to
        invariant
            start <= i <= to <= s.len(),
            b == s@.subrange(start as int, to as int),
            b == unsigned_body(s@.subrange(from as int, to as int)),
            b.len() > 0,
            value <= 255,
            value == decimal_value(s@.subrange(start as int, i as int)),
            forall|k: int| start <= k < i ==> '0' <= #[trigger] s@[k] <= '9',
        decreases to - i,
    {
        let c = s[i];
        if !('0' <= c && c <= '9') {
            assert(b[i - start] == c);
            assert(!(forall|k: int| 0 <= k < b.len() ==> '0' <= #[trigger] b[k] <= '9'));
            return None;
        }
        let d = (c as u32) - ('0' as u32);
        assert(s@.subrange(start as int, i + 1).drop_last() =~= s@.subrange(start as int, i as int));
        let next = value * 10 + d;
        if next > 255 {
            proof {
                if forall|k: int| 0 <= k < b.len() ==> '0' <= #[trigger] b[k] <= '9' {
                    lemma_decimal_value_prefix_monotone(b, i + 1 - start);
                    assert(b.subrange(0, i + 1 - start) =~= s@.subrange(start as int, i + 1));
                }
            }
            return None;
        }
        value = next;
        i = i + 1;
    }
    assert forall|k: int| 0 <= k < b.len() implies '0' <= #[trigger] b[k] <= '9' by {
        assert(b[k] == s@[start + k]);
    }
    Some(value as u8)
}

/// Extending a digit string never lowers its value.
pub proof fn lemma_decimal_value_prefix_monotone(s: Seq<char>, n: int)
    requires
        0 <= n <= s.len(),
        forall|i: int| 0 <= i < s.len() ==> '0' <= #[trigger] s[i] <= '9',
    ensures
        decimal_value(s.subrange(0, n)) <= decimal_value(s),
    decreases s.len() - n,
{
    if n < s.len() {
        lemma_decimal_value_prefix_monotone(s.drop_last(), n);
        assert(s.drop_last().subrange(0, n) =~= s.subrange(0, n));
    } else {
        assert(s.subrange(0, n) =~= s);
    }
}

/// Extending a hexadecimal digit string never lowers its value.
pub proof fn lemma_hex_value_prefix_monotone(s: Seq<char>, n: int)
    requires
        0 <= n <= s.len(),
    ensures
        hex_value(s.subrange(0, n)) <= hex_value(s),
    decreases s.len() - n,
{
    if n < s.len() {
        lemma_hex_value_prefix_monotone(s.drop_last(), n);
        assert(s.drop_last().subrange(0, n) =~= s.subrange(0, n));
    } else {
        assert(s.subrange(0, n) =~= s);
    }
}

/// Parses `s[from..to]` like `u32::from_str_radix(_, 16)`.
pub fn parse_hex_u32_exec(s: &Vec<char>, from: usize, to: usize) -> (r: Option<u32>)
    requires
        from <= to <= s.len(),
    ensures
        r == parse_hex_u32(s@.subrange(from as int, to as int)),
{
    let ghost full = s@.subrange(from as int, to as int);
    let start = if from < to && s[from] == '+' {
        from + 1
    } else {
        from
    };
    let ghost b = unsigned_body(full);
    assert(b =~= s@.subrange(start as int, to as int));
    if start == to {
        return None;
    }
    let mut value: u64 = 0;
    let mut i = start;
    while i < to
        invariant
            start <= i <= to <= s.len(),
            b == s@.subrange(start as int, to as int),
            b == unsigned_body(s@.subrange(from as int, to as int)),
            b.len() > 0,
            value <= u32::MAX,
            value == hex_value(s@.subrange(start as int, i as int)),
            forall|k: int| start <= k < i ==> is_hex_digit(#[trigger] s@[k]),
        decreases to - i,
    {
        let c = s[i];
        let d: u64 = if '0' <= c && c <= '9' {
            ((c as u32) - ('0' as u32)) as u64
        } else if 'a' <= c && c <= 'f' {
            ((c as u32) - ('a' as u32) + 10) as u64
        } else if 'A' <= c && c <= 'F' {
            ((c as u32) - ('A' as u32) + 10) as u64
        } else {
            assert(b[i - start] == c);
            assert(!(forall|k: int| 0 <= k < b.len() ==> is_hex_digit(#[trigger] b[k])));
            return None;
        };
        assert(s@.subrange(start as int, i + 1).drop_last() =~= s@.subrange(start as int, i as int));
        let next = value * 16 + d;
        if next > 0xFFFF_FFFF {
            proof {
                lemma_hex_value_prefix_monotone(b, i + 1 - start);
                assert(b.subrange(0, i + 1 - start) =~= s@.subrange(start as int, i + 1));
            }
            return None;
        }
        value = next;
        i = i + 1;
    }
    assert forall|k: int| 0 <= k < b.len() implies is_hex_digit(#[trigger] b[k]) by {
        assert(b[k] == s@[start + k]);
    }
    Some(value as u32)
}

/// The color named by `s[from..to]`.
pub fn color_in(s: &Vec<char>, from: usize, to: usize) -> (r: Option<Color>)
    requires
        from <= to <= s.len(),
    ensures
        r == color_of(s@.subrange(from as int, to as int)),
{
    let content = slice_chars(s, from, to);
    if let Some(n) = NamedColor::from_chars(&content, 0) {
        assert(content@.subrange(0, content.len() as int) =~= content@);
        return Some(Color::Named(n));
    }
    assert(content@.subrange(0, content.len() as int) =~= content@);
    let word = vec!['c', 'o', 'l', 'o', 'r'];
    assert(word@ =~= color_word());
    if matches_at_ignore_case_exec(&content, 0, &word) {
        match parse_u8_exec(&content, 5, content.len()) {
            Some(i) => if 1 <= i && i <= 56 {
                Some(Color::Indexed(i))
            } else {
                None
            },
            None => None,
        }
    } else {
        None
    }
}

/// Parses bracket content as a color: a named color or `Color1` to `Color56`.
pub fn try_parse_color(content: &str) -> (r: Option<Color>)
    ensures
        r == color_of(content@),
{
    let v = chars_of(content);
    assert(v@.subrange(0, v.len() as int) =~= v@);
    color_in(&v, 0, v.len())
}

fn starts_with_exec(s: &Vec<char>, from: usize, to: usize, p: &Vec<char>) -> (r: bool)
    requires
        from <= to <= s.len(),
    ensures
        r == starts_with(s@.subrange(from as int, to as int), p@),
{
    let ghost c = s@.subrange(from as int, to as int);
    if p.len() > to - from {
        return false;
    }
    let mut i: usize = 0;
    while i < p.len()
        invariant
            p.len() <= to - from,
            from <= to <= s.len(),
            c == s@.subrange(from as int, to as int),
            i <= p.len(),
            forall|k: int| 0 <= k < i ==> s@[from + k] == #[trigger] p@[k],
        decreases p.len() - i,
    {
        if s[from + i] != p[i] {
            assert(c[i as int] == s@[from + i]);
            assert(c.subrange(0, p.len() as int)[i as int] == c[i as int]);
            return false;
        }
        i = i + 1;
    }
    assert(c.subrange(0, p.len() as int) =~= p@);
    true
}

/// The condition written by `s[from..to]`.
pub fn condition_in(s: &Vec<char>, from: usize, to: usize) -> (r: Option<Condition>)
    requires
        from <= to <= s.len(),
    ensures
        match r {
            Some(c) => condition_of(s@.subrange(from as int, to as int)) == Some(c@),
            None => condition_of(s@.subrange(from as int, to as int)) is None,
        },
{
    let (a, b) = trim_range(s, from, to);
    let ghost c = s@.subrange(a as int, b as int);
    let ge = vec!['>', '='];
    let le = vec!['<', '='];
    let ne = vec!['<', '>'];
    let gt = vec!['>'];
    let lt = vec!['<'];
    let eq = vec!['='];
    assert(ge@ =~= seq!['>', '=']);
    assert(le@ =~= seq!['<', '=']);
    assert(ne@ =~= seq!['<', '>']);
    assert(gt@ =~= seq!['>']);
    assert(lt@ =~= seq!['<']);
    assert(eq@ =~= seq!['=']);
    let (op, skip): (u8, usize) = if starts_with_exec(s, a, b, &ge) {
        (0, 2)
    } else if starts_with_exec(s, a, b, &le) {
        (1, 2)
    } else if starts_with_exec(s, a, b, &ne) {
        (2, 2)
    } else if starts_with_exec(s, a, b, &gt) {
        (3, 1)
    } else if starts_with_exec(s, a, b, &lt) {
        (4, 1)
    } else if starts_with_exec(s, a, b, &eq) {
        (5, 1)
    } else {
        return None;
    };
    let (va, vb) = trim_range(s, a + skip, b);
    assert(c.subrange(skip as int, c.len() as int) =~= s@.subrange(a + skip, b as int));
    let text = slice_chars(s, va, vb);
    match Threshold::from_chars(&text) {
        None => None,
        Some(t) => Some(
            if op == 0 {
                ConditionOf::GreaterOrEqual(t)
            } else if op == 1 {
                ConditionOf::LessOrEqual(t)
            } else if op == 2 {
                ConditionOf::NotEqual(t)
            } else if op == 3 {
                ConditionOf::GreaterThan(t)
            } else if op == 4 {
                ConditionOf::LessThan(t)
            } else {
                ConditionOf::Equal(t)
            },
        ),
    }
}

/// Parses bracket content as a condition such as `>=100`.
pub fn try_parse_condition(content: &str) -> (r: Option<Condition>)
    ensures
        match r {
            Some(c) => condition_of(content@) == Some(c@),
            None => condition_of(content@) is None,
        },
{
    let v = chars_of(content);
    assert(v@.subrange(0, v.len() as int) =~= v@);
    condition_in(&v, 0, v.len())
}

pub fn eq_range_ignore_case(s: &Vec<char>, from: usize, to: usize, p: &Vec<char>) -> (r: bool)
    requires
        from <= to <= s.len(),
    ensures
        r == eq_ignore_ascii_case(s@.subrange(from as int, to as int), p@),
{
    if to - from != p.len() {
        return false;
    }
    let r = matches_at_ignore_case_exec(s, from, p);
    assert(s@.subrange(from as int, from + p.len()) =~= s@.subrange(from as int, to as int));
    r
}

/// The elapsed-time field named by `s[from..to]`.
pub fn elapsed_in(s: &Vec<char>, from: usize, to: usize) -> (r: Option<ElapsedPart>)
    requires
        from <= to <= s.len(),
    ensures
        r == elapsed_of(s@.subrange(from as int, to as int)),
{
    let h = vec!['h'];
    let hh = vec!['h', 'h'];
    let m = vec!['m'];
    let mm = vec!['m', 'm'];
    let sec = vec!['s'];
    let ss = vec!['s', 's'];
    assert(h@ =~= seq!['h']);
    assert(hh@ =~= seq!['h', 'h']);
    assert(m@ =~= seq!['m']);
    assert(mm@ =~= seq!['m', 'm']);
    assert(sec@ =~= seq!['s']);
    assert(ss@ =~= seq!['s', 's']);
    if eq_range_ignore_case(s, from, to, &h) {
        Some(ElapsedPart::Hours)
    } else if eq_range_ignore_case(s, from, to, &hh) {
        Some(ElapsedPart::Hours2)
    } else if eq_range_ignore_case(s, from, to, &m) {
        Some(ElapsedPart::Minutes)
    } else if eq_range_ignore_case(s, from, to, &mm) {
        Some(ElapsedPart::Minutes2)
    } else if eq_range_ignore_case(s, from, to, &sec) {
        Some(ElapsedPart::Seconds)
    } else if eq_range_ignore_case(s, from, to, &ss) {
        Some(ElapsedPart::Seconds2)
    } else {
        None
    }
}

/// Parses bracket content as an elapsed-time field such as `h` or `mm`.
pub fn try_parse_elapsed(content: &str) -> (r: Option<ElapsedPart>)
    ensures
        r == elapsed_of(content@),
{
    let v = chars_of(content);
    assert(v@.subrange(0, v.len() as int) =~= v@);
    elapsed_in(&v, 0, v.len())
}

fn text_in(s: &Vec<char>, from: usize, to: usize) -> (r: Option<String>)
    requires
        from <= to <= s.len(),
    ensures
        crate::ast::opt_text_view(r) == nonempty_text(s@.subrange(from as int, to as int)),
{
    if from == to {
        None
    } else {
        let v = slice_chars(s, from, to);
        Some(string_of(v.as_slice()))
    }
}

/// The locale code written by `s[from..to]`.
pub fn locale_in(s: &Vec<char>, from: usize, to: usize) -> (r: Option<LocaleCode>)
    requires
        from <= to <= s.len(),
    ensures
        match r {
            Some(l) => locale_of(s@.subrange(from as int, to as int)) == Some(l@),
            None => locale_of(s@.subrange(from as int, to as int)) is None,
        },
{
    let ghost content = s@.subrange(from as int, to as int);
    if from == to || s[from] != '$' {
        return None;
    }
    let ghost rest = content.drop_first();
    assert(rest =~= s@.subrange(from + 1, to as int));
    let v = slice_chars(s, from + 1, to);
    assert(v@ == rest);
    proof {
        crate::lexer::lemma_find_from(rest, 0, '-');
    }
    match crate::lexer::find_from_exec(&v, 0, '-') {
        Some(d) => {
            assert(crate::lexer::find_from(rest, 0, '-') == Some(d as int));
            let currency = text_in(&v, 0, d);
            let lcid = parse_hex_u32_exec(&v, d + 1, v.len());
            let r = LocaleCodeOf { currency, lcid };
            assert(r@ == LocaleCodeOf {
                currency: nonempty_text(rest.subrange(0, d as int)),
                lcid: parse_hex_u32(rest.subrange(d + 1, rest.len() as int)),
            });
            Some(r)
        },
        None => {
            assert(v@.subrange(0, v.len() as int) =~= v@);
            let currency = text_in(&v, 0, v.len());
            Some(LocaleCodeOf { currency, lcid: None })
        },
    }
}

/// Parses bracket content as a locale code such as `$€-407`.
pub fn try_parse_locale(content: &str) -> (r: Option<LocaleCode>)
    ensures
        match r {
            Some(l) => locale_of(content@) == Some(l@),
            None => locale_of(content@) is None,
        },
{
    let v = chars_of(content);
    assert(v@.subrange(0, v.len() as int) =~= v@);
    locale_in(&v, 0, v.len())
}

} // verus!
