//! The meaning of a format code: the sections that parsing it yields, defined
//! token by token.
use vstd::prelude::*;

use crate::ast::{
    add_part, add_parts, AmPmStyle, Color, ConditionOf, ConditionView, DatePart, DigitPlaceholder,
    ElapsedPart, FormatPartOf, PartView, SectionView,
};
use crate::chars::{byte_len, eq_ignore_ascii_case, is_space, trim};
use crate::error::ParseError;
use crate::lexer::{find_from, lex_at, SpannedToken, Token};
use crate::parser::bracket::{color_of, condition_of, elapsed_of, locale_of};
use crate::parser::detect::{detect_fractions, detect_subseconds};

verus! {

/// Where the lexer stands: the current token, the index after it, and whether
/// a bracket is open.
pub struct LexState {
    pub cur: SpannedToken,
    pub pos: int,
    pub br: bool,
}

/// Parser state within one section.
pub struct PState {
    pub lx: LexState,
    /// Whether an hour field was seen (so that `m` means minutes).
    pub seen_hour: bool,
    pub cond: Option<ConditionView>,
    pub color: Option<Color>,
    pub parts: Seq<PartView>,
}

pub open spec fn eof_token(n: int) -> SpannedToken {
    SpannedToken { token: Token::Eof, start: n as usize, end: n as usize }
}

/// The lexer state is consistent with `s`.
pub open spec fn lx_wf(s: Seq<char>, lx: LexState) -> bool {
    &&& 0 <= lx.pos <= s.len()
    &&& s.len() <= usize::MAX
    &&& !(lx.cur.token is Eof) ==> lx.cur.start < lx.cur.end && lx.cur.end == lx.pos
    &&& lx.cur.token matches Token::QuotedString(a, b) ==> a <= b <= s.len()
    &&& lx.cur.token matches Token::AmPm(a, b) ==> a <= b <= s.len()
}

/// Reads the next token.
pub open spec fn advance_lx(s: Seq<char>, lx: LexState) -> Result<LexState, ParseError> {
    if lx.pos >= s.len() {
        Ok(LexState { cur: eof_token(s.len() as int), pos: lx.pos, br: lx.br })
    } else {
        match lex_at(s, lx.pos, lx.br) {
            Err(e) => Err(e),
            Ok((t, e, b)) => Ok(
                LexState {
                    cur: SpannedToken { token: t, start: lx.pos as usize, end: e as usize },
                    pos: e,
                    br: b,
                },
            ),
        }
    }
}

pub open spec fn advance(s: Seq<char>, st: PState) -> Result<PState, ParseError> {
    match advance_lx(s, st.lx) {
        Err(e) => Err(e),
        Ok(lx) => Ok(PState { lx, ..st }),
    }
}

/// A measure of the input left to read.
pub open spec fn measure(s: Seq<char>, lx: LexState) -> int {
    2 * (s.len() - lx.pos) + if lx.cur.token is Eof {
        0int
    } else {
        1int
    }
}

/// The lexer moved forward from `a` to `b`.
pub open spec fn progressed(s: Seq<char>, a: LexState, b: LexState) -> bool {
    b.pos <= s.len() && (b.pos > a.pos || (b.pos == a.pos && b.cur.token is Eof && !(
    a.cur.token is Eof)))
}

pub open spec fn with_part(st: PState, p: PartView) -> PState {
    PState { parts: add_part(st.parts, p), ..st }
}

/// Reads the run of tokens equal to `t`; gives the state after it and its length.
pub open spec fn run_from(s: Seq<char>, st: PState, t: Token) -> Result<(PState, nat), ParseError>
    decreases measure(s, st.lx),
{
    if st.lx.cur.token == t {
        match advance(s, st) {
            Err(e) => Err(e),
            Ok(st2) => if progressed(s, st.lx, st2.lx) {
                match run_from(s, st2, t) {
                    Err(e) => Err(e),
                    Ok((st3, n)) => Ok((st3, n + 1)),
                }
            } else {
                Ok((st2, 1))
            },
        }
    } else {
        Ok((st, 0))
    }
}

pub open spec fn is_exponent_token(t: Token) -> bool {
    t is ExponentUpper || t is ExponentLower
}

/// Reads a run of `e`/`E` tokens.
pub open spec fn exponent_run(s: Seq<char>, st: PState) -> Result<PState, ParseError>
    decreases measure(s, st.lx),
{
    if is_exponent_token(st.lx.cur.token) {
        match advance(s, st) {
            Err(e) => Err(e),
            Ok(st2) => if progressed(s, st.lx, st2.lx) {
                exponent_run(s, st2)
            } else {
                Ok(st2)
            },
        }
    } else {
        Ok(st)
    }
}

/// The character a token stands for after `_`.
pub open spec fn literal_char(t: Token) -> Option<char> {
    match t {
        Token::Literal(c) => Some(c),
        Token::Zero => Some('0'),
        Token::Hash => Some('#'),
        Token::Question => Some('?'),
        Token::DecimalPoint => Some('.'),
        Token::ThousandsSep => Some(','),
        Token::Percent => Some('%'),
        Token::At => Some('@'),
        Token::Asterisk(_) => Some('*'),
        Token::Underscore => Some('_'),
        Token::Plus => Some('+'),
        Token::Minus => Some('-'),
        Token::Slash => Some('/'),
        Token::EscapedChar(c) => Some(c),
        _ => None,
    }
}

/// The character a token adds to bracket content.
pub open spec fn bracket_char(t: Token) -> Option<char> {
    match t {
        Token::Literal(c) => Some(c),
        Token::Zero => Some('0'),
        Token::Hash => Some('#'),
        Token::Question => Some('?'),
        Token::DecimalPoint => Some('.'),
        Token::ThousandsSep => Some(','),
        Token::Percent => Some('%'),
        Token::At => Some('@'),
        Token::Asterisk(_) => Some('*'),
        Token::Underscore => Some('_'),
        Token::Plus => Some('+'),
        Token::Minus => Some('-'),
        Token::Slash => Some('/'),
        Token::ExponentUpper => Some('E'),
        Token::ExponentLower => Some('e'),
        _ => None,
    }
}

pub open spec fn is_upper_ascii(c: char) -> bool {
    'A' <= c <= 'Z'
}

/// The style of an AM/PM marker as written.
pub open spec fn am_pm_style(t: Seq<char>) -> AmPmStyle {
    if t == seq!['A', 'M', '/', 'P', 'M'] {
        AmPmStyle::Upper
    } else if t == seq!['a', 'm', '/', 'p', 'm'] {
        AmPmStyle::Lower
    } else if t == seq!['A', 'M', '/', 'P'] {
        AmPmStyle::MalformedUpper
    } else if t == seq!['a', 'm', '/', 'p'] {
        AmPmStyle::MalformedLower
    } else if t == seq!['A', '/', 'P'] {
        AmPmStyle::ShortUpper
    } else if t == seq!['a', '/', 'p'] {
        AmPmStyle::ShortLower
    } else if t.len() == 4 {
        if t.len() > 0 && is_upper_ascii(t[0]) {
            AmPmStyle::MalformedUpper
        } else {
            AmPmStyle::MalformedLower
        }
    } else if t.len() <= 3 {
        if t.len() > 0 && is_upper_ascii(t[0]) {
            AmPmStyle::ShortUpper
        } else {
            AmPmStyle::ShortLower
        }
    } else if t.len() > 0 && is_upper_ascii(t[0]) {
        AmPmStyle::Upper
    } else {
        AmPmStyle::Lower
    }
}

pub open spec fn skip_m(s: Seq<char>, i: int) -> int
    decreases s.len() - i,
{
    if 0 <= i < s.len() && (s[i] == 'm' || s[i] == 'M') {
        skip_m(s, i + 1)
    } else {
        i
    }
}

pub open spec fn skip_space(s: Seq<char>, i: int) -> int
    decreases s.len() - i,
{
    if 0 <= i < s.len() && is_space(s[i]) {
        skip_space(s, i + 1)
    } else {
        i
    }
}

/// Whether seconds follow the `m` run that starts at `start` (`mm:ss`, `mss`),
/// which makes the run minutes rather than a month.
pub open spec fn seconds_ahead(s: Seq<char>, start: int) -> bool {
    let k = skip_space(s, skip_m(s, start));
    if 0 <= k < s.len() && s[k] == ':' {
        k + 1 < s.len() && (s[k + 1] == 's' || s[k + 1] == 'S')
    } else {
        0 <= k < s.len() && (s[k] == 's' || s[k] == 'S')
    }
}

pub open spec fn year_part(n: nat) -> DatePart {
    if n >= 4 {
        DatePart::Year4
    } else if n == 3 {
        DatePart::Year3
    } else {
        DatePart::Year2
    }
}

pub open spec fn month_part(n: nat, minute: bool) -> DatePart {
    if minute {
        if n >= 2 {
            DatePart::Minute2
        } else {
            DatePart::Minute
        }
    } else if n == 1 {
        DatePart::Month
    } else if n == 2 {
        DatePart::Month2
    } else if n == 3 {
        DatePart::MonthAbbr
    } else if n == 4 {
        DatePart::MonthFull
    } else {
        DatePart::MonthLetter
    }
}

pub open spec fn day_part(n: nat) -> DatePart {
    if n == 1 {
        DatePart::Day
    } else if n == 2 {
        DatePart::Day2
    } else if n == 3 {
        DatePart::DayAbbr
    } else {
        DatePart::DayFull
    }
}

/// After an hour or second field: a decimal point followed by `0`s is a
/// subsecond field; a decimal point without `0`s is dropped.
pub open spec fn fraction_of_time(s: Seq<char>, st: PState) -> Result<PState, ParseError> {
    if st.lx.cur.token is DecimalPoint {
        match advance(s, st) {
            Err(e) => Err(e),
            Ok(st1) => match run_from(s, st1, Token::Zero) {
                Err(e) => Err(e),
                Ok((st2, z)) => if z > 0 {
                    Ok(
                        with_part(
                            with_part(st2, FormatPartOf::Literal(seq!['.'])),
                            FormatPartOf::DatePart(DatePart::SubSecond((z % 256) as u8)),
                        ),
                    )
                } else {
                    Ok(st2)
                },
            },
        }
    } else {
        Ok(st)
    }
}

/// Reads bracket content up to `]`; gives the state after it and the content.
pub open spec fn bracket_loop(s: Seq<char>, st: PState, content: Seq<char>, start: usize) -> Result<
    (PState, Seq<char>),
    ParseError,
>
    decreases measure(s, st.lx),
{
    if st.lx.cur.token is CloseBracket {
        match advance(s, st) {
            Err(e) => Err(e),
            Ok(st2) => Ok((st2, content)),
        }
    } else if st.lx.cur.token is Eof {
        Err(ParseError::UnterminatedBracket { position: start })
    } else {
        let c2 = match bracket_char(st.lx.cur.token) {
            Some(c) => content.push(c),
            None => content,
        };
        match advance(s, st) {
            Err(e) => Err(e),
            Ok(st2) => if progressed(s, st.lx, st2.lx) {
                bracket_loop(s, st2, c2, start)
            } else {
                Ok((st2, c2))
            },
        }
    }
}

/// Applies bracket content: a color, a condition, an elapsed-time field or a
/// locale code; anything else is ignored.
pub open spec fn apply_bracket(st: PState, content: Seq<char>) -> PState {
    let c = trim(content);
    match color_of(c) {
        Some(col) => PState { color: Some(col), ..st },
        None => match condition_of(c) {
            Some(cd) => PState { cond: Some(cd), ..st },
            None => match elapsed_of(c) {
                Some(e) => {
                    let st2 = with_part(st, FormatPartOf::Elapsed(e));
                    if e is Hours || e is Hours2 {
                        PState { seen_hour: true, ..st2 }
                    } else {
                        st2
                    }
                },
                None => match locale_of(c) {
                    Some(l) => with_part(st, FormatPartOf::Locale(l)),
                    None => st,
                },
            },
        },
    }
}

/// The part that a single token adds before the parser moves past it, for the
/// tokens that need nothing more.
pub open spec fn simple_part(s: Seq<char>, t: Token) -> Option<Option<PartView>> {
    match t {
        Token::Zero => Some(Some(FormatPartOf::Digit(DigitPlaceholder::Zero))),
        Token::Hash => Some(Some(FormatPartOf::Digit(DigitPlaceholder::Hash))),
        Token::Question => Some(Some(FormatPartOf::Digit(DigitPlaceholder::Question))),
        Token::DecimalPoint => Some(Some(FormatPartOf::DecimalPoint)),
        Token::ThousandsSep => Some(Some(FormatPartOf::ThousandsSeparator)),
        Token::Percent => Some(Some(FormatPartOf::Percent)),
        Token::At => Some(Some(FormatPartOf::TextPlaceholder)),
        Token::Asterisk(Some(c)) => Some(Some(FormatPartOf::Fill(c))),
        Token::Asterisk(None) => Some(None),
        Token::Plus => Some(Some(FormatPartOf::Literal(seq!['+']))),
        Token::Minus => Some(Some(FormatPartOf::Literal(seq!['-']))),
        Token::Slash => Some(Some(FormatPartOf::Literal(seq!['/']))),
        Token::AmPm(a, b) => Some(
            Some(FormatPartOf::AmPm(am_pm_style(s.subrange(a as int, b as int)))),
        ),
        Token::Literal(c) => Some(Some(FormatPartOf::Literal(seq![c]))),
        Token::EscapedChar(c) => Some(Some(FormatPartOf::EscapedLiteral(seq![c]))),
        Token::QuotedString(a, b) => Some(Some(FormatPartOf::Literal(s.subrange(a as int, b as int)))),
        Token::CloseBracket => Some(Some(FormatPartOf::Literal(seq![']']))),
        _ => None,
    }
}

pub open spec fn step_simple(s: Seq<char>, st: PState, p: Option<PartView>) -> Result<PState, ParseError> {
    let st1 = match p {
        Some(p) => with_part(st, p),
        None => st,
    };
    advance(s, st1)
}

/// `General` adds a General number field unless it is all the section holds.
pub open spec fn step_general(s: Seq<char>, st: PState) -> Result<PState, ParseError> {
    match advance(s, st) {
        Err(e) => Err(e),
        Ok(st1) => if (st1.lx.cur.token is Eof || st1.lx.cur.token is SectionSep) && st.parts.len()
            == 0 {
            Ok(st1)
        } else {
            Ok(with_part(st1, FormatPartOf::GeneralNumber))
        },
    }
}

pub open spec fn step_bracket(s: Seq<char>, st: PState) -> Result<PState, ParseError> {
    match advance(s, st) {
        Err(e) => Err(e),
        Ok(st1) => match bracket_loop(s, st1, Seq::empty(), st.lx.cur.start) {
            Err(e) => Err(e),
            Ok((st2, content)) => Ok(apply_bracket(st2, content)),
        },
    }
}

/// `_x` reserves the width of `x`.
pub open spec fn step_underscore(s: Seq<char>, st: PState) -> Result<PState, ParseError> {
    match advance(s, st) {
        Err(e) => Err(e),
        Ok(st1) => match literal_char(st1.lx.cur.token) {
            Some(c) => advance(s, with_part(st1, FormatPartOf::Skip(c))),
            None => Ok(st1),
        },
    }
}

/// `E+`/`E-` is a scientific exponent; other runs of `e` are an era year.
pub open spec fn step_exponent(s: Seq<char>, st: PState, is_lower: bool) -> Result<PState, ParseError> {
    match advance(s, st) {
        Err(e) => Err(e),
        Ok(st1) => if st1.lx.cur.token is Plus || st1.lx.cur.token is Minus {
            let show_plus = st1.lx.cur.token is Plus;
            match advance(s, st1) {
                Err(e) => Err(e),
                Ok(st2) => Ok(
                    with_part(st2, FormatPartOf::Scientific { upper: !is_lower, show_plus }),
                ),
            }
        } else {
            match exponent_run(s, st1) {
                Err(e) => Err(e),
                Ok(st2) => Ok(with_part(st2, FormatPartOf::DatePart(DatePart::Year4))),
            }
        },
    }
}

/// A run of `t` tokens whose length selects a date part.
pub open spec fn step_run(s: Seq<char>, st: PState, t: Token) -> Result<PState, ParseError> {
    let minute = st.seen_hour || seconds_ahead(s, st.lx.cur.start as int);
    match run_from(s, st, t) {
        Err(e) => Err(e),
        Ok((st1, n)) => Ok(
            with_part(
                st1,
                FormatPartOf::DatePart(
                    if t is Year {
                        year_part(n)
                    } else if t is Month {
                        month_part(n, minute)
                    } else if t is Day {
                        day_part(n)
                    } else if n >= 4 {
                        DatePart::BuddhistYear4
                    } else {
                        DatePart::BuddhistYear2
                    },
                ),
            ),
        ),
    }
}

/// An hour or second run, then an optional subsecond field.
pub open spec fn step_time(s: Seq<char>, st: PState, hour: bool) -> Result<PState, ParseError> {
    let t = if hour {
        Token::Hour
    } else {
        Token::Second
    };
    let st0 = if hour {
        PState { seen_hour: true, ..st }
    } else {
        st
    };
    match run_from(s, st0, t) {
        Err(e) => Err(e),
        Ok((st1, n)) => fraction_of_time(
            s,
            with_part(
                st1,
                FormatPartOf::DatePart(
                    if hour {
                        if n >= 2 {
                            DatePart::Hour2
                        } else {
                            DatePart::Hour
                        }
                    } else if n >= 2 {
                        DatePart::Second2
                    } else {
                        DatePart::Second
                    },
                ),
            ),
        ),
    }
}

/// `B2yy` is an alternative Buddhist year; `B` alone counts as a Buddhist year.
pub open spec fn step_buddhist_upper(s: Seq<char>, st: PState) -> Result<PState, ParseError> {
    match advance(s, st) {
        Err(e) => Err(e),
        Ok(st1) => if st1.lx.cur.token == Token::Literal('2') {
            match advance(s, st1) {
                Err(e) => Err(e),
                Ok(st2) => if st2.lx.cur.token is Year {
                    match run_from(s, st2, Token::Year) {
                        Err(e) => Err(e),
                        Ok((st3, n)) => Ok(
                            with_part(
                                st3,
                                FormatPartOf::DatePart(
                                    if n >= 4 {
                                        DatePart::BuddhistYear4Alt
                                    } else {
                                        DatePart::BuddhistYear2Alt
                                    },
                                ),
                            ),
                        ),
                    }
                } else {
                    Ok(with_part(st2, FormatPartOf::Literal(seq!['B', '2'])))
                },
            }
        } else {
            match run_from(s, st1, Token::BuddhistYearUpper) {
                Err(e) => Err(e),
                Ok((st2, n)) => Ok(
                    with_part(
                        st2,
                        FormatPartOf::DatePart(
                            if 1 + n >= 4 {
                                DatePart::BuddhistYear4
                            } else {
                                DatePart::BuddhistYear2
                            },
                        ),
                    ),
                ),
            }
        },
    }
}

/// One step of the section loop at the current token.
#[verifier::opaque]
pub open spec fn step(s: Seq<char>, st: PState) -> Result<PState, ParseError> {
    let t = st.lx.cur.token;
    match simple_part(s, t) {
        Some(p) => step_simple(s, st, p),
        None => match t {
            Token::General => step_general(s, st),
            Token::OpenBracket => step_bracket(s, st),
            Token::Underscore => step_underscore(s, st),
            Token::ExponentUpper => step_exponent(s, st, false),
            Token::ExponentLower => step_exponent(s, st, true),
            Token::Year => step_run(s, st, Token::Year),
            Token::Month => step_run(s, st, Token::Month),
            Token::Day => step_run(s, st, Token::Day),
            Token::BuddhistYear => step_run(s, st, Token::BuddhistYear),
            Token::Hour => step_time(s, st, true),
            Token::Second => step_time(s, st, false),
            Token::BuddhistYearUpper => step_buddhist_upper(s, st),
            _ => Ok(st),
        },
    }
}

/// The section loop: steps until the end of the code or a `;`.
pub open spec fn section_loop(s: Seq<char>, st: PState) -> Result<PState, ParseError>
    decreases measure(s, st.lx),
{
    if st.lx.cur.token is Eof || st.lx.cur.token is SectionSep {
        Ok(st)
    } else {
        match step(s, st) {
            Err(e) => Err(e),
            Ok(st2) => if progressed(s, st.lx, st2.lx) {
                section_loop(s, st2)
            } else {
                Ok(st2)
            },
        }
    }
}

/// The section that a builder state yields.
pub open spec fn build_section(st: PState) -> SectionView {
    SectionView {
        condition: st.cond,
        color: st.color,
        parts: add_parts(Seq::empty(), detect_subseconds(detect_fractions(st.parts))),
    }
}

pub open spec fn section_start(lx: LexState) -> PState {
    PState { lx, seen_hour: false, cond: None, color: None, parts: Seq::empty() }
}

/// Parses one section starting at `lx`.
pub open spec fn section_from(s: Seq<char>, lx: LexState) -> Result<(SectionView, LexState), ParseError> {
    match section_loop(s, section_start(lx)) {
        Err(e) => Err(e),
        Ok(st) => Ok((build_section(st), st.lx)),
    }
}

/// Parses sections separated by `;`, appending them to `acc`.
pub open spec fn sections_loop(s: Seq<char>, lx: LexState, acc: Seq<SectionView>) -> Result<
    Seq<SectionView>,
    ParseError,
>
    decreases measure(s, lx),
{
    match section_from(s, lx) {
        Err(e) => Err(e),
        Ok((sec, lx2)) => if lx2.cur.token is SectionSep {
            match advance_lx(s, lx2) {
                Err(e) => Err(e),
                Ok(lx3) => if progressed(s, lx, lx3) {
                    sections_loop(s, lx3, acc.push(sec))
                } else {
                    Ok(acc.push(sec))
                },
            }
        } else {
            Ok(acc.push(sec))
        },
    }
}

/// The lexer state before parsing: an error in the first token reads as the end.
pub open spec fn initial_lx(s: Seq<char>) -> LexState {
    if s.len() > 0 {
        match lex_at(s, 0, false) {
            Ok((t, e, b)) => LexState {
                cur: SpannedToken { token: t, start: 0, end: e as usize },
                pos: e,
                br: b,
            },
            Err(_) => LexState { cur: eof_token(0), pos: s.len() as int, br: false },
        }
    } else {
        LexState { cur: eof_token(0), pos: 0, br: false }
    }
}

pub open spec fn general_word() -> Seq<char> {
    seq!['g', 'e', 'n', 'e', 'r', 'a', 'l']
}

/// `[...]General`: the index of the first `]` when the rest after it is the
/// word General (ignoring case and surrounding white space).
pub open spec fn bracketed_general(s: Seq<char>) -> Option<int> {
    match find_from(s, 0, ']') {
        Some(be) => if eq_ignore_ascii_case(
            trim(s.subrange(be + 1, s.len() as int)),
            general_word(),
        ) {
            Some(be)
        } else {
            None
        },
        None => None,
    }
}

/// The inputs on which the General shortcut slices the code where a
/// character boundary is missing (`]General`, or a first character outside ASCII).
pub open spec fn general_slice_panics(s: Seq<char>) -> bool {
    s.len() > 0 && !eq_ignore_ascii_case(s, general_word()) && match bracketed_general(s) {
        Some(be) => be == 0 || (s[0] as u32) >= 128,
        None => false,
    }
}

pub open spec fn general_section(color: Option<Color>) -> SectionView {
    SectionView { condition: None, color, parts: Seq::empty() }
}

/// The UTF-8 byte offset in `s` of the character at index `p` (an index past
/// the end stands for the end).
pub open spec fn byte_position(s: Seq<char>, p: usize) -> usize {
    byte_len(s.take(if p <= s.len() { p as int } else { s.len() as int })) as usize
}

/// `e` with its position, a character index into `s`, given as a byte offset.
pub open spec fn in_bytes(s: Seq<char>, e: ParseError) -> ParseError {
    match e {
        ParseError::UnexpectedToken { position, found } => ParseError::UnexpectedToken {
            position: byte_position(s, position),
            found,
        },
        ParseError::UnterminatedBracket { position } => ParseError::UnterminatedBracket {
            position: byte_position(s, position),
        },
        ParseError::InvalidCondition { position, reason } => ParseError::InvalidCondition {
            position: byte_position(s, position),
            reason,
        },
        ParseError::InvalidLocaleCode { position } => ParseError::InvalidLocaleCode {
            position: byte_position(s, position),
        },
        _ => e,
    }
}

/// The sections written by `s`, before they are checked and limited to four;
/// an error's position is a byte offset into the code's UTF-8 text.
pub open spec fn parsed_sections(s: Seq<char>) -> Result<Seq<SectionView>, ParseError> {
    match sections_by_char(s) {
        Ok(v) => Ok(v),
        Err(e) => Err(in_bytes(s, e)),
    }
}

/// The sections written by `s`, with error positions counted in characters.
pub open spec fn sections_by_char(s: Seq<char>) -> Result<Seq<SectionView>, ParseError> {
    if s.len() == 0 {
        Err(ParseError::EmptyFormat)
    } else if eq_ignore_ascii_case(s, general_word()) {
        Ok(seq![general_section(None)])
    } else {
        match bracketed_general(s) {
            Some(be) => Ok(seq![general_section(color_of(s.subrange(1, be)))]),
            None => sections_loop(s, initial_lx(s), Seq::empty()),
        }
    }
}

} // verus!
