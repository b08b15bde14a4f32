//! Tokens of a format code and the lexer that produces them.
use vstd::prelude::*;

use crate::chars::{matches_at_ignore_case, matches_at_ignore_case_exec};
use crate::error::ParseError;

verus! {

/// A lexical token. Text-carrying tokens hold a range of character indices
/// into the format code.
#[derive(Debug, Clone, Copy, PartialEq, Eq, Structural)]
pub enum Token {
    Eof,
    SectionSep,
    General,
    OpenBracket,
    CloseBracket,
    Zero,
    Hash,
    Question,
    DecimalPoint,
    ThousandsSep,
    Percent,
    At,
    /// `*` and the raw character after it, if any.
    Asterisk(Option<char>),
    Underscore,
    ExponentUpper,
    ExponentLower,
    Plus,
    Minus,
    Slash,
    Year,
    Month,
    Day,
    Hour,
    Second,
    BuddhistYear,
    BuddhistYearUpper,
    /// An AM/PM marker: the range of its characters.
    AmPm(usize, usize),
    Literal(char),
    EscapedChar(char),
    /// A quoted string: the range of the characters between the quotes.
    QuotedString(usize, usize),
}

/// A token with the range of characters it was read from.
#[derive(Debug, Clone, Copy, PartialEq, Eq, Structural)]
pub struct SpannedToken {
    pub token: Token,
    pub start: usize,
    pub end: usize,
}

/// Index of the first `c` in `s` at or after `from`.
pub open spec fn find_from(s: Seq<char>, from: int, c: char) -> Option<int>
    decreases s.len() - from,
{
    if from < 0 || from >= s.len() {
        None
    } else if s[from] == c {
        Some(from)
    } else {
        find_from(s, from + 1, c)
    }
}

pub proof fn lemma_find_from(s: Seq<char>, from: int, c: char)
    requires
        0 <= from,
    ensures
        find_from(s, from, c) matches Some(k) ==> from <= k < s.len() && s[k] == c && forall|
            j: int,
        | from <= j < k ==> s[j] != c,
        find_from(s, from, c) is None ==> forall|j: int| from <= j < s.len() ==> s[j] != c,
    decreases s.len() - from,
{
    if from < s.len() && s[from] != c {
        lemma_find_from(s, from + 1, c);
    }
}

pub fn find_from_exec(s: &Vec<char>, from: usize, c: char) -> (r: Option<usize>)
    ensures
        r == (match find_from(s@, from as int, c) {
            Some(k) => Some(k as usize),
            None => None,
        }),
        r matches Some(k) ==> from <= k < s.len(),
{
    let mut i = from;
    while i < s.len()
        invariant
            from <= i,
            find_from(s@, from as int, c) == find_from(s@, i as int, c),
        decreases s.len() - i,
    {
        if s[i] == c {
            return Some(i);
        }
        i = i + 1;
    }
    None
}

pub open spec fn general_word() -> Seq<char> {
    seq!['g', 'e', 'n', 'e', 'r', 'a', 'l']
}

pub open spec fn am_pm_word() -> Seq<char> {
    seq!['a', 'm', '/', 'p', 'm']
}

pub open spec fn am_p_word() -> Seq<char> {
    seq!['a', 'm', '/', 'p']
}

pub open spec fn a_p_word() -> Seq<char> {
    seq!['a', '/', 'p']
}

/// The token at `pos` outside brackets, for one character `c` that needs no lookahead.
pub open spec fn single_char_token(c: char) -> Token {
    if c == ';' {
        Token::SectionSep
    } else if c == '[' {
        Token::OpenBracket
    } else if c == ']' {
        Token::CloseBracket
    } else if c == '0' {
        Token::Zero
    } else if c == '#' {
        Token::Hash
    } else if c == '?' {
        Token::Question
    } else if c == '.' {
        Token::DecimalPoint
    } else if c == ',' {
        Token::ThousandsSep
    } else if c == '%' {
        Token::Percent
    } else if c == '@' {
        Token::At
    } else if c == '_' {
        Token::Underscore
    } else if c == '+' {
        Token::Plus
    } else if c == '-' {
        Token::Minus
    } else if c == '/' {
        Token::Slash
    } else if c == 'E' {
        Token::ExponentUpper
    } else if c == 'e' {
        Token::ExponentLower
    } else if c == 'y' || c == 'Y' {
        Token::Year
    } else if c == 'm' || c == 'M' {
        Token::Month
    } else if c == 'd' || c == 'D' {
        Token::Day
    } else if c == 'h' || c == 'H' {
        Token::Hour
    } else if c == 's' || c == 'S' {
        Token::Second
    } else if c == 'b' {
        Token::BuddhistYear
    } else if c == 'B' {
        Token::BuddhistYearUpper
    } else {
        Token::Literal(c)
    }
}

/// The token that starts at `pos < s.len()`, the index after it, and whether a
/// bracket is open after it.
pub open spec fn lex_at(s: Seq<char>, pos: int, in_bracket: bool) -> Result<
    (Token, int, bool),
    ParseError,
> {
    let c = s[pos];
    if in_bracket {
        if c == ']' {
            Ok((Token::CloseBracket, pos + 1, false))
        } else {
            Ok((Token::Literal(c), pos + 1, true))
        }
    } else if c == '"' {
        match find_from(s, pos + 1, '"') {
            Some(q) => Ok((Token::QuotedString((pos + 1) as usize, q as usize), q + 1, false)),
            None => Err(ParseError::UnexpectedToken { position: pos as usize, found: '"' }),
        }
    } else if c == '\\' {
        if pos + 1 < s.len() {
            Ok((Token::EscapedChar(s[pos + 1]), pos + 2, false))
        } else {
            Err(ParseError::UnexpectedToken { position: pos as usize, found: '\\' })
        }
    } else if c == '*' {
        if pos + 1 < s.len() {
            Ok((Token::Asterisk(Some(s[pos + 1])), pos + 2, false))
        } else {
            Ok((Token::Asterisk(None), pos + 1, false))
        }
    } else if matches_at_ignore_case(s, pos, general_word()) {
        Ok((Token::General, pos + 7, false))
    } else if matches_at_ignore_case(s, pos, am_pm_word()) {
        Ok((Token::AmPm(pos as usize, (pos + 5) as usize), pos + 5, false))
    } else if matches_at_ignore_case(s, pos, am_p_word()) {
        Ok((Token::AmPm(pos as usize, (pos + 4) as usize), pos + 4, false))
    } else if matches_at_ignore_case(s, pos, a_p_word()) {
        Ok((Token::AmPm(pos as usize, (pos + 3) as usize), pos + 3, false))
    } else {
        Ok((single_char_token(c), pos + 1, c == '['))
    }
}

pub proof fn lemma_lex_at_advances(s: Seq<char>, pos: int, in_bracket: bool)
    requires
        0 <= pos < s.len(),
    ensures
        lex_at(s, pos, in_bracket) matches Ok((_, end, _)) ==> pos < end <= s.len(),
{
    if !in_bracket && s[pos] == '"' {
        lemma_find_from(s, pos + 1, '"');
    }
}


fn single_char_token_exec(c: char) -> (r: Token)
    ensures
        r == single_char_token(c),
{
    if c == ';' {
        Token::SectionSep
    } else if c == '[' {
        Token::OpenBracket
    } else if c == ']' {
        Token::CloseBracket
    } else if c == '0' {
        Token::Zero
    } else if c == '#' {
        Token::Hash
    } else if c == '?' {
        Token::Question
    } else if c == '.' {
        Token::DecimalPoint
    } else if c == ',' {
        Token::ThousandsSep
    } else if c == '%' {
        Token::Percent
    } else if c == '@' {
        Token::At
    } else if c == '_' {
        Token::Underscore
    } else if c == '+' {
        Token::Plus
    } else if c == '-' {
        Token::Minus
    } else if c == '/' {
        Token::Slash
    } else if c == 'E' {
        Token::ExponentUpper
    } else if c == 'e' {
        Token::ExponentLower
    } else if c == 'y' || c == 'Y' {
        Token::Year
    } else if c == 'm' || c == 'M' {
        Token::Month
    } else if c == 'd' || c == 'D' {
        Token::Day
    } else if c == 'h' || c == 'H' {
        Token::Hour
    } else if c == 's' || c == 'S' {
        Token::Second
    } else if c == 'b' {
        Token::BuddhistYear
    } else if c == 'B' {
        Token::BuddhistYearUpper
    } else {
        Token::Literal(c)
    }
}

/// Reads the token that starts at `pos`.
pub fn lex_token(s: &Vec<char>, pos: usize, in_bracket: bool) -> (r: Result<
    (Token, usize, bool),
    ParseError,
>)
    requires
        pos < s.len(),
    ensures
        r matches Ok((t, e, b)) ==> lex_at(s@, pos as int, in_bracket) == Ok::<
            (Token, int, bool),
            ParseError,
        >((t, e as int, b)) && pos < e <= s.len(),
        r matches Err(e) ==> lex_at(s@, pos as int, in_bracket) == Err::<
            (Token, int, bool),
            ParseError,
        >(e),
{
    proof {
        lemma_lex_at_advances(s@, pos as int, in_bracket);
    }
    let c = s[pos];
    if in_bracket {
        if c == ']' {
            return Ok((Token::CloseBracket, pos + 1, false));
        } else {
            return Ok((Token::Literal(c), pos + 1, true));
        }
    }
    if c == '"' {
        return match find_from_exec(s, pos + 1, '"') {
            Some(q) => Ok((Token::QuotedString(pos + 1, q), q + 1, false)),
            None => Err(ParseError::UnexpectedToken { position: pos, found: '"' }),
        };
    }
    if c == '\\' {
        if pos + 1 < s.len() {
            return Ok((Token::EscapedChar(s[pos + 1]), pos + 2, false));
        } else {
            return Err(ParseError::UnexpectedToken { position: pos, found: '\\' });
        }
    }
    if c == '*' {
        if pos + 1 < s.len() {
            return Ok((Token::Asterisk(Some(s[pos + 1])), pos + 2, false));
        } else {
            return Ok((Token::Asterisk(None), pos + 1, false));
        }
    }
    let general = vec!['g', 'e', 'n', 'e', 'r', 'a', 'l'];
    let am_pm = vec!['a', 'm', '/', 'p', 'm'];
    let am_p = vec!['a', 'm', '/', 'p'];
    let a_p = vec!['a', '/', 'p'];
    assert(general@ =~= general_word());
    assert(am_pm@ =~= am_pm_word());
    assert(am_p@ =~= am_p_word());
    assert(a_p@ =~= a_p_word());
    if matches_at_ignore_case_exec(s, pos, &general) {
        return Ok((Token::General, pos + 7, false));
    }
    if matches_at_ignore_case_exec(s, pos, &am_pm) {
        return Ok((Token::AmPm(pos, pos + 5), pos + 5, false));
    }
    if matches_at_ignore_case_exec(s, pos, &am_p) {
        return Ok((Token::AmPm(pos, pos + 4), pos + 4, false));
    }
    if matches_at_ignore_case_exec(s, pos, &a_p) {
        return Ok((Token::AmPm(pos, pos + 3), pos + 3, false));
    }
    Ok((single_char_token_exec(c), pos + 1, c == '['))
}

} // verus!
