//! Character classification and conversions between `str`, `String` and
//! character vectors.
use vstd::prelude::*;

verus! {

/// Unicode `White_Space` characters, the set that `char::is_whitespace` and
/// `str::trim` use.
pub open spec fn is_space(c: char) -> bool {
    let n = c as u32;
    (0x9 <= n <= 0xD) || n == 0x20 || n == 0x85 || n == 0xA0 || n == 0x1680 || (0x2000 <= n
        <= 0x200A) || n == 0x2028 || n == 0x2029 || n == 0x202F || n == 0x205F || n == 0x3000
}

pub fn is_space_char(c: char) -> (r: bool)
    ensures
        r == is_space(c),
{
    let n = c as u32;
    (0x9 <= n && n <= 0xD) || n == 0x20 || n == 0x85 || n == 0xA0 || n == 0x1680 || (0x2000 <= n
        && n <= 0x200A) || n == 0x2028 || n == 0x2029 || n == 0x202F || n == 0x205F || n == 0x3000
}

/// ASCII lower-casing of one character; other characters are unchanged.
pub open spec fn ascii_lower(c: char) -> char {
    if 'A' <= c && c <= 'Z' {
        ((c as u32) + 32) as char
    } else {
        c
    }
}

pub fn ascii_lower_char(c: char) -> (r: char)
    ensures
        r == ascii_lower(c),
{
    if 'A' <= c && c <= 'Z' {
        ((c as u8) + 32) as char
    } else {
        c
    }
}

/// Two character sequences are equal up to ASCII case.
pub open spec fn eq_ignore_ascii_case(a: Seq<char>, b: Seq<char>) -> bool {
    a.len() == b.len() && forall|i: int| 0 <= i < a.len() ==> ascii_lower(#[trigger] a[i])
        == ascii_lower(b[i])
}

/// `s[start..start + pat.len()]` equals `pat` up to ASCII case.
pub open spec fn matches_at_ignore_case(s: Seq<char>, start: int, pat: Seq<char>) -> bool {
    0 <= start && start + pat.len() <= s.len() && eq_ignore_ascii_case(
        s.subrange(start, start + pat.len()),
        pat,
    )
}

pub fn matches_at_ignore_case_exec(s: &Vec<char>, start: usize, pat: &Vec<char>) -> (r: bool)
    ensures
        r == matches_at_ignore_case(s@, start as int, pat@),
{
    if start > s.len() || pat.len() > s.len() - start {
        return false;
    }
    let mut i: usize = 0;
    while i < pat.len()
        invariant
            start + pat.len() <= s.len(),
            i <= pat.len(),
            forall|j: int|
                0 <= j < i ==> ascii_lower(#[trigger] s@[start + j]) == ascii_lower(pat@[j]),
        decreases pat.len() - i,
    {
        if ascii_lower_char(s[start + i]) != ascii_lower_char(pat[i]) {
            proof {
                let sub = s@.subrange(start as int, start + pat.len());
                assert(sub[i as int] == s@[start + i]);
            }
            return false;
        }
        i = i + 1;
    }
    proof {
        let sub = s@.subrange(start as int, start + pat.len());
        assert forall|j: int| 0 <= j < sub.len() implies ascii_lower(#[trigger] sub[j])
            == ascii_lower(pat@[j]) by {
            assert(sub[j] == s@[start + j]);
        }
    }
    true
}

/// The sequence without its leading and trailing white space, as `str::trim` gives it.
pub open spec fn trim(s: Seq<char>) -> Seq<char> {
    trim_end(trim_start(s))
}

pub open spec fn trim_start(s: Seq<char>) -> Seq<char>
    decreases s.len(),
{
    if s.len() > 0 && is_space(s[0]) {
        trim_start(s.drop_first())
    } else {
        s
    }
}

pub open spec fn trim_end(s: Seq<char>) -> Seq<char>
    decreases s.len(),
{
    if s.len() > 0 && is_space(s.last()) {
        trim_end(s.drop_last())
    } else {
        s
    }
}

/// The characters of `s[from..to]` without leading and trailing white space,
/// given as a range of indices.
pub fn trim_range(s: &Vec<char>, from: usize, to: usize) -> (r: (usize, usize))
    requires
        from <= to <= s.len(),
    ensures
        from <= r.0 <= r.1 <= to,
        trim(s@.subrange(from as int, to as int)) == s@.subrange(r.0 as int, r.1 as int),
{
    let mut i = from;
    while i < to && is_space_char(s[i])
        invariant
            from <= i <= to <= s.len(),
            trim_start(s@.subrange(from as int, to as int)) == trim_start(
                s@.subrange(i as int, to as int),
            ),
        decreases to - i,
    {
        proof {
            let t = s@.subrange(i as int, to as int);
            assert(t.drop_first() =~= s@.subrange(i + 1, to as int));
        }
        i = i + 1;
    }
    proof {
        if i < to {
            let t = s@.subrange(i as int, to as int);
            assert(t[0] == s@[i as int]);
        }
    }
    let mut j = to;
    while j > i && is_space_char(s[j - 1])
        invariant
            from <= i <= j <= to <= s.len(),
            trim_start(s@.subrange(from as int, to as int)) == s@.subrange(i as int, to as int),
            trim_end(s@.subrange(i as int, to as int)) == trim_end(s@.subrange(i as int, j as int)),
        decreases j - i,
    {
        proof {
            let t = s@.subrange(i as int, j as int);
            assert(t.drop_last() =~= s@.subrange(i as int, j - 1));
        }
        j = j - 1;
    }
    proof {
        if i < to {
            let t = s@.subrange(i as int, to as int);
            assert(t[0] == s@[i as int]);
            assert(trim_start(t) == t);
        } else {
            assert(s@.subrange(i as int, to as int).len() == 0);
        }
        if j > i {
            let t = s@.subrange(i as int, j as int);
            assert(t.last() == s@[j - 1]);
        }
    }
    (i, j)
}

/// The characters of a string slice, in order.
#[verifier::external_body]
pub fn chars_of(s: &str) -> (r: Vec<char>)
    ensures
        r@ == s@,
{
    s.chars().collect()
}

/// A string made of the given characters, in order.
#[verifier::external_body]
pub fn string_of(v: &[char]) -> (r: String)
    ensures
        r@ == v@,
{
    v.iter().collect()
}

/// Appends the characters of `s` to `v`.
pub fn extend_chars(v: &mut Vec<char>, s: &Vec<char>)
    ensures
        final(v)@ == old(v)@ + s@,
{
    let mut i: usize = 0;
    while i < s.len()
        invariant
            i <= s.len(),
            v@ == old(v)@ + s@.subrange(0, i as int),
        decreases s.len() - i,
    {
        v.push(s[i]);
        proof {
            assert(s@.subrange(0, i + 1) =~= s@.subrange(0, i as int).push(s@[i as int]));
        }
        i = i + 1;
    }
    proof {
        assert(s@.subrange(0, s.len() as int) =~= s@);
    }
}

/// A copy of `v[from..to]`.
pub fn slice_chars(v: &Vec<char>, from: usize, to: usize) -> (r: Vec<char>)
    requires
        from <= to <= v.len(),
    ensures
        r@ == v@.subrange(from as int, to as int),
{
    let mut r: Vec<char> = Vec::new();
    let mut i = from;
    while i < to
        invariant
            from <= i <= to <= v.len(),
            r@ == v@.subrange(from as int, i as int),
        decreases to - i,
    {
        r.push(v[i]);
        proof {
            assert(v@.subrange(from as int, i + 1) =~= v@.subrange(from as int, i as int).push(
                v@[i as int],
            ));
        }
        i = i + 1;
    }
    r
}

/// Appends `t` to `s` (`String::push_str`).
#[verifier::external_body]
pub fn string_push_str(s: &mut String, t: &str)
    ensures
        final(s)@ == old(s)@ + t@,
{
    s.push_str(t)
}

/// Appends `c` to `s` (`String::push`).
#[verifier::external_body]
pub fn string_push(s: &mut String, c: char)
    ensures
        final(s)@ == old(s)@.push(c),
{
    s.push(c)
}

/// Asks for room for `additional` more bytes in `s` (`String::try_reserve`).
/// The contents are unchanged either way. A request for nothing is granted,
/// since the capacity already suffices; a total above `isize::MAX` bytes
/// overflows the capacity and is refused. Between these, whether the
/// allocator grants it depends on the machine, and nothing is said of it.
#[verifier::external_body]
pub fn string_try_reserve(s: &mut String, additional: usize) -> (granted: bool)
    ensures
        final(s)@ == old(s)@,
        additional == 0 ==> granted,
        byte_len(old(s)@) + additional > isize::MAX ==> !granted,
{
    s.try_reserve(additional).is_ok()
}

/// The number of bytes of the UTF-8 encoding of `c`.
pub open spec fn utf8_len(c: char) -> nat {
    if (c as u32) < 0x80 {
        1
    } else if (c as u32) < 0x800 {
        2
    } else if (c as u32) < 0x10000 {
        3
    } else {
        4
    }
}

/// The number of bytes of the UTF-8 encoding of `s`.
pub open spec fn byte_len(s: Seq<char>) -> nat
    decreases s.len(),
{
    if s.len() == 0 {
        0
    } else {
        utf8_len(s[0]) + byte_len(s.drop_first())
    }
}

pub proof fn lemma_byte_len_concat(a: Seq<char>, b: Seq<char>)
    ensures
        byte_len(a + b) == byte_len(a) + byte_len(b),
    decreases a.len(),
{
    if a.len() > 0 {
        lemma_byte_len_concat(a.drop_first(), b);
        assert((a + b).drop_first() =~= a.drop_first() + b);
    } else {
        assert(a + b =~= b);
    }
}

/// The byte length of `c` (`char::len_utf8`).
pub fn char_len_utf8(c: char) -> (r: usize)
    ensures
        r == utf8_len(c),
{
    let u = c as u32;
    if u < 0x80 {
        1
    } else if u < 0x800 {
        2
    } else if u < 0x10000 {
        3
    } else {
        4
    }
}

/// The length of `s` in bytes (`String::len`).
#[verifier::external_body]
pub fn text_byte_len(s: &String) -> (r: usize)
    ensures
        r == byte_len(s@),
{
    s.len()
}

} // verus!
