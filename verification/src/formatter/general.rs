//! The text steps of the General number format, on a value's decimal text.
use vstd::prelude::*;

use crate::chars::{chars_of, slice_chars, string_of, string_push, string_push_str};
use crate::digits::{decimal_chars, digits_of, is_ascii_digit};
use crate::lexer::{find_from, find_from_exec, lemma_find_from};
use crate::parser::bracket::decimal_value;

use super::number::zero_padded;

verus! {

/// `s` without the copies of `c` at its end.
pub open spec fn trim_end_char(s: Seq<char>, c: char) -> Seq<char>
    decreases s.len(),
{
    if s.len() > 0 && s.last() == c {
        trim_end_char(s.drop_last(), c)
    } else {
        s
    }
}

/// A decimal text with no zeros ending its fraction and no point left bare.
pub open spec fn without_trailing_zeros(s: Seq<char>) -> Seq<char> {
    if s.contains('.') {
        trim_end_char(trim_end_char(s, '0'), '.')
    } else {
        s
    }
}

/// Whether every character of `s` is an ASCII digit.
pub open spec fn all_digits(s: Seq<char>) -> bool {
    forall|i: int| 0 <= i < s.len() ==> is_ascii_digit(#[trigger] s[i])
}

/// An exponent's text after its sign, if it has one.
pub open spec fn exponent_digits(e: Seq<char>) -> Seq<char> {
    if e.len() > 0 && (e[0] == '-' || e[0] == '+') {
        e.skip(1)
    } else {
        e
    }
}

/// The value of an exponent's text as `i32` text parsing reads it: an
/// optional sign and at least one digit, within the range of `i32`; any
/// other text reads as 0.
pub open spec fn parsed_exponent(e: Seq<char>) -> int {
    let body = exponent_digits(e);
    if body.len() > 0 && all_digits(body) {
        let m = decimal_value(body) as int;
        let v = if e.len() > 0 && e[0] == '-' {
            -m
        } else {
            m
        };
        if i32::MIN <= v <= i32::MAX {
            v
        } else {
            0
        }
    } else {
        0
    }
}

/// An exponent written with its sign and at least two digits.
pub open spec fn exponent_text(v: int) -> Seq<char> {
    seq![
        if v < 0 {
            '-'
        } else {
            '+'
        },
    ] + zero_padded(
        digits_of(
            if v < 0 {
                (-v) as nat
            } else {
                v as nat
            },
        ),
        2,
    )
}

/// Scientific text as General shows it: the mantissa before the first `E`
/// loses its trailing zeros and then a bare point, and the exponent after it
/// is written with its sign and at least two digits. Text without `E` is
/// kept.
pub open spec fn general_scientific(s: Seq<char>) -> Seq<char> {
    match find_from(s, 0, 'E') {
        None => s,
        Some(k) => {
            let m = trim_end_char(s.take(k), '0');
            let mantissa = if m.len() > 0 && m.last() == '.' {
                m.drop_last()
            } else {
                m
            };
            mantissa + seq!['E'] + exponent_text(parsed_exponent(s.skip(k + 1)))
        },
    }
}

/// The length of `v` without the copies of `c` at its end.
fn trim_end_len(v: &Vec<char>, c: char) -> (r: usize)
    ensures
        r <= v@.len(),
        v@.take(r as int) == trim_end_char(v@, c),
{
    let mut j = v.len();
    assert(v@.take(j as int) =~= v@);
    while j > 0 && v[j - 1] == c
        invariant
            j <= v@.len(),
            trim_end_char(v@, c) == trim_end_char(v@.take(j as int), c),
        decreases j,
    {
        assert(v@.take(j as int).drop_last() =~= v@.take(j - 1));
        j = j - 1;
    }
    j
}

/// Drops the zeros that end a decimal text's fraction, then a bare point.
pub fn trim_decimal_zeros(text: &str) -> (r: String)
    ensures
        r@ == without_trailing_zeros(text@),
{
    let v = chars_of(text);
    match find_from_exec(&v, 0, '.') {
        None => {
            proof {
                lemma_find_from(v@, 0, '.');
            }
            string_of(v.as_slice())
        },
        Some(k) => {
            proof {
                lemma_find_from(v@, 0, '.');
                assert(v@[k as int] == '.');
            }
            let j = trim_end_len(&v, '0');
            let w = slice_chars(&v, 0, j);
            assert(w@ == v@.take(j as int));
            let i = trim_end_len(&w, '.');
            let t = slice_chars(&w, 0, i);
            assert(t@ =~= w@.take(i as int));
            string_of(t.as_slice())
        },
    }
}

/// The value of an exponent's text, as `parsed_exponent` reads it.
fn parse_exponent(e: &Vec<char>) -> (r: i64)
    ensures
        r == parsed_exponent(e@),
{
    let signed = e.len() > 0 && (e[0] == '-' || e[0] == '+');
    let negative = e.len() > 0 && e[0] == '-';
    let start: usize = if signed {
        1
    } else {
        0
    };
    let ghost body = if signed {
        e@.skip(1)
    } else {
        e@
    };
    assert(body =~= e@.subrange(start as int, e@.len() as int));
    if start >= e.len() {
        return 0;
    }
    let mut value: u64 = 0;
    let mut big = false;
    let mut i = start;
    while i < e.len()
        invariant
            start <= i <= e@.len(),
            body == e@.subrange(start as int, e@.len() as int),
            signed == (e@.len() > 0 && (e@[0] == '-' || e@[0] == '+')),
            negative == (e@.len() > 0 && e@[0] == '-'),
            body == (if signed {
                e@.skip(1)
            } else {
                e@
            }),
            !big ==> value == decimal_value(body.take(i - start)) && value <= 2147483648,
            big ==> decimal_value(body.take(i - start)) > 2147483648,
            forall|j: int| 0 <= j < i - start ==> is_ascii_digit(#[trigger] body[j]),
        decreases e@.len() - i,
    {
        let c = e[i];
        assert(c == body[i - start]);
        if !('0' <= c && c <= '9') {
            let ghost bad = i - start;
            assert(!is_ascii_digit(body[bad]));
            assert(0 <= bad < body.len());
            assert(!all_digits(body));
            assert(body == exponent_digits(e@));
            return 0;
        }
        let d = (c as u32 - '0' as u32) as u64;
        let ghost prev = body.take(i - start);
        assert(body.take(i - start + 1).drop_last() =~= prev);
        assert(body.take(i - start + 1).last() == c);
        assert(decimal_value(body.take(i - start + 1)) == decimal_value(prev) * 10 + d);
        if !big {
            let next = value * 10 + d;
            if next > 2147483648 {
                big = true;
            } else {
                value = next;
            }
        }
        i = i + 1;
    }
    assert(body.take(body.len() as int) =~= body);
    if big {
        return 0;
    }
    if negative {
        -(value as i64)
    } else if value <= 2147483647 {
        value as i64
    } else {
        0
    }
}

/// Writes an exponent with its sign and at least two digits.
fn push_exponent(out: &mut String, v: i64)
    requires
        i32::MIN <= v <= i32::MAX,
    ensures
        final(out)@ == old(out)@ + exponent_text(v as int),
{
    let ghost before = out@;
    let magnitude: u64 = if v < 0 {
        (-v) as u64
    } else {
        v as u64
    };
    if v < 0 {
        string_push(out, '-');
    } else {
        string_push(out, '+');
    }
    let digits = decimal_chars(magnitude);
    let ghost d = digits@;
    if digits.len() < 2 {
        string_push(out, '0');
        assert(Seq::new((2 - d.len()) as nat, |_i: int| '0') =~= seq!['0']);
    }
    string_push_str(out, string_of(digits.as_slice()).as_str());
    assert(out@ =~= before + exponent_text(v as int));
}

/// Rewrites scientific text as General shows it.
pub fn general_scientific_text(formatted: &str) -> (r: String)
    ensures
        r@ == general_scientific(formatted@),
{
    let v = chars_of(formatted);
    proof {
        lemma_find_from(v@, 0, 'E');
    }
    match find_from_exec(&v, 0, 'E') {
        None => string_of(v.as_slice()),
        Some(k) => {
            let head = slice_chars(&v, 0, k);
            assert(head@ =~= v@.take(k as int));
            let j = trim_end_len(&head, '0');
            let m = slice_chars(&head, 0, j);
            assert(m@ =~= head@.take(j as int));
            let mantissa = if m.len() > 0 && m[m.len() - 1] == '.' {
                let t = slice_chars(&m, 0, m.len() - 1);
                assert(t@ =~= m@.drop_last());
                t
            } else {
                m
            };
            let tail = slice_chars(&v, k + 1, v.len());
            assert(tail@ =~= v@.skip(k + 1));
            let exponent = parse_exponent(&tail);
            let mut out = string_of(mantissa.as_slice());
            string_push(&mut out, 'E');
            push_exponent(&mut out, exponent);
            out
        },
    }
}

} // verus!
