//! Parser for ECMA-376 number format codes.
pub mod bracket;
pub mod detect;
pub mod spec;

use vstd::prelude::*;

use crate::ast::{
    add_part, add_parts, fill_count, opt_condition_view, parts_view, push_part, AmPmStyle, Color, Condition,
    DatePart, DigitPlaceholder, FormatPart, FormatPartOf, PartView, Section,
};
use crate::chars::{is_space_char, slice_chars, string_of, trim_range};
use crate::error::ParseError;
use crate::numfmt::{format_outcome, NumberFormat};
use crate::lexer::{lemma_find_from, lemma_lex_at_advances, lex_at, lex_token, SpannedToken, Token};
use crate::parser::bracket::{color_in, condition_in, elapsed_in, locale_in};
use crate::parser::detect::{detect_fractions, detect_subseconds, tag_fractions, tag_subseconds};
use crate::parser::spec::{
    advance_lx, am_pm_style, apply_bracket, bracket_char, bracket_loop,
    build_section, eof_token, exponent_run, general_section, general_slice_panics, general_word, initial_lx,
    byte_position, in_bytes, parsed_sections, sections_by_char, sections_loop, fraction_of_time, literal_char, lx_wf, measure, progressed,
    run_from, seconds_ahead, section_from, section_loop, section_start, simple_part, skip_m,
    skip_space, step, step_buddhist_upper, step_bracket, step_exponent, step_general, step_run,
    step_time, step_underscore, LexState, PState,
};

verus! {

/// Reading a token keeps the lexer state consistent with the code.
pub proof fn lemma_advance_wf(s: Seq<char>, lx: LexState)
    requires
        lx_wf(s, lx),
    ensures
        advance_lx(s, lx) matches Ok(l) ==> lx_wf(s, l) && (progressed(s, lx, l)
            || lx.cur.token is Eof),
        advance_lx(s, lx) matches Ok(l) ==> l.pos >= lx.pos,
{
    if lx.pos < s.len() {
        lemma_lex_at_advances(s, lx.pos, lx.br);
        if !lx.br && s[lx.pos] == '"' {
            lemma_find_from(s, lx.pos + 1, '"');
        }
    }
}

struct Parser {
    s: Vec<char>,
    cur: SpannedToken,
    pos: usize,
    br: bool,
    seen_hour: bool,
}

struct SectionBuilder {
    condition: Option<Condition>,
    color: Option<Color>,
    parts: Vec<FormatPart>,
}

spec fn lx_of(p: &Parser) -> LexState {
    LexState { cur: p.cur, pos: p.pos as int, br: p.br }
}

spec fn st_of(p: &Parser, b: &SectionBuilder) -> PState {
    PState {
        lx: lx_of(p),
        seen_hour: p.seen_hour,
        cond: opt_condition_view(b.condition),
        color: b.color,
        parts: parts_view(b.parts@),
    }
}

spec fn b_wf(b: &SectionBuilder) -> bool {
    fill_count(parts_view(b.parts@)) <= 1
}

/// `r` is the outcome that `spec` describes, with `after` the state it leaves.
spec fn agrees(r: Result<(), ParseError>, spec: Result<PState, ParseError>, after: PState) -> bool {
    match spec {
        Ok(x) => r is Ok && after == x,
        Err(e) => r == Err::<(), ParseError>(e),
    }
}

fn chars_eq(s: &Vec<char>, a: usize, b: usize, p: &Vec<char>) -> (r: bool)
    requires
        a <= b <= s.len(),
    ensures
        r == (s@.subrange(a as int, b as int) == p@),
{
    if b - a != p.len() {
        return false;
    }
    let mut i: usize = 0;
    while i < p.len()
        invariant
            b - a == p.len(),
            a <= b <= s.len(),
            i <= p.len(),
            forall|k: int| 0 <= k < i ==> s@[a + k] == #[trigger] p@[k],
        decreases p.len() - i,
    {
        if s[a + i] != p[i] {
            assert(s@.subrange(a as int, b as int)[i as int] == s@[a + i]);
            return false;
        }
        i = i + 1;
    }
    assert(s@.subrange(a as int, b as int) =~= p@);
    true
}

fn am_pm_style_of(s: &Vec<char>, a: usize, b: usize) -> (r: AmPmStyle)
    requires
        a <= b <= s.len(),
    ensures
        r == am_pm_style(s@.subrange(a as int, b as int)),
{
    let ghost t = s@.subrange(a as int, b as int);
    let upper = vec!['A', 'M', '/', 'P', 'M'];
    let lower = vec!['a', 'm', '/', 'p', 'm'];
    let mal_upper = vec!['A', 'M', '/', 'P'];
    let mal_lower = vec!['a', 'm', '/', 'p'];
    let short_upper = vec!['A', '/', 'P'];
    let short_lower = vec!['a', '/', 'p'];
    assert(upper@ =~= seq!['A', 'M', '/', 'P', 'M']);
    assert(lower@ =~= seq!['a', 'm', '/', 'p', 'm']);
    assert(mal_upper@ =~= seq!['A', 'M', '/', 'P']);
    assert(mal_lower@ =~= seq!['a', 'm', '/', 'p']);
    assert(short_upper@ =~= seq!['A', '/', 'P']);
    assert(short_lower@ =~= seq!['a', '/', 'p']);
    if chars_eq(s, a, b, &upper) {
        return AmPmStyle::Upper;
    }
    if chars_eq(s, a, b, &lower) {
        return AmPmStyle::Lower;
    }
    if chars_eq(s, a, b, &mal_upper) {
        return AmPmStyle::MalformedUpper;
    }
    if chars_eq(s, a, b, &mal_lower) {
        return AmPmStyle::MalformedLower;
    }
    if chars_eq(s, a, b, &short_upper) {
        return AmPmStyle::ShortUpper;
    }
    if chars_eq(s, a, b, &short_lower) {
        return AmPmStyle::ShortLower;
    }
    let first_upper = b > a && 'A' <= s[a] && s[a] <= 'Z';
    assert(b > a ==> t[0] == s@[a as int]);
    let n = b - a;
    if n == 4 {
        if first_upper {
            AmPmStyle::MalformedUpper
        } else {
            AmPmStyle::MalformedLower
        }
    } else if n <= 3 {
        if first_upper {
            AmPmStyle::ShortUpper
        } else {
            AmPmStyle::ShortLower
        }
    } else if first_upper {
        AmPmStyle::Upper
    } else {
        AmPmStyle::Lower
    }
}

fn seconds_ahead_exec(s: &Vec<char>, start: usize) -> (r: bool)
    requires
        start <= s.len(),
    ensures
        r == seconds_ahead(s@, start as int),
{
    let mut i = start;
    while i < s.len() && (s[i] == 'm' || s[i] == 'M')
        invariant
            start <= i <= s.len(),
            skip_m(s@, start as int) == skip_m(s@, i as int),
        decreases s.len() - i,
    {
        i = i + 1;
    }
    let mut k = i;
    while k < s.len() && is_space_char(s[k])
        invariant
            i <= k <= s.len(),
            skip_m(s@, start as int) == i,
            skip_space(s@, i as int) == skip_space(s@, k as int),
        decreases s.len() - k,
    {
        k = k + 1;
    }
    if k < s.len() && s[k] == ':' {
        k + 1 < s.len() && (s[k + 1] == 's' || s[k + 1] == 'S')
    } else {
        k < s.len() && (s[k] == 's' || s[k] == 'S')
    }
}

fn text_part(c: char) -> (r: String)
    ensures
        r@ == seq![c],
{
    let v = vec![c];
    assert(v@ =~= seq![c]);
    string_of(v.as_slice())
}

fn add_to(b: &mut SectionBuilder, p: FormatPart)
    requires
        b_wf(old(b)),
    ensures
        b_wf(final(b)),
        parts_view(final(b).parts@) == add_part(parts_view(old(b).parts@), p@),
        final(b).condition == old(b).condition,
        final(b).color == old(b).color,
{
    push_part(&mut b.parts, p);
}

/// The section that a builder yields.
fn finish(b: SectionBuilder) -> (r: Section)
    ensures
        r@.condition == opt_condition_view(b.condition),
        r@.color == b.color,
        r@.parts == add_parts(Seq::empty(), detect_subseconds(detect_fractions(parts_view(b.parts@)))),
{
    let SectionBuilder { condition, color, parts } = b;
    let tagged = tag_fractions(&parts);
    let tagged = tag_subseconds(&tagged);
    Section::new(condition, color, tagged)
}

impl Parser {
    spec fn wf(&self) -> bool {
        lx_wf(self.s@, lx_of(self))
    }

    fn advance(&mut self) -> (r: Result<(), ParseError>)
        requires
            old(self).wf(),
        ensures
            final(self).s == old(self).s,
            final(self).seen_hour == old(self).seen_hour,
            match advance_lx(old(self).s@, lx_of(old(self))) {
                Ok(l) => r is Ok && lx_of(final(self)) == l,
                Err(e) => r == Err::<(), ParseError>(e),
            },
            r is Ok ==> final(self).wf(),
    {
        proof {
            lemma_advance_wf(self.s@, lx_of(self));
        }
        if self.pos >= self.s.len() {
            self.cur = SpannedToken { token: Token::Eof, start: self.s.len(), end: self.s.len() };
            return Ok(());
        }
        match lex_token(&self.s, self.pos, self.br) {
            Err(e) => Err(e),
            Ok((t, e, b)) => {
                self.cur = SpannedToken { token: t, start: self.pos, end: e };
                self.pos = e;
                self.br = b;
                Ok(())
            },
        }
    }

    /// Whether the lexer moved forward since `old_pos`, `old_eof`.
    fn progressed_since(&self, old_pos: usize, old_eof: bool) -> (r: bool)
        ensures
            r == (self.pos <= self.s@.len() && (self.pos > old_pos || (self.pos == old_pos
                && self.cur.token is Eof && !old_eof))),
    {
        self.pos <= self.s.len() && (self.pos > old_pos || (self.pos == old_pos && matches!(
            self.cur.token,
            Token::Eof
        ) && !old_eof))
    }

    /// Reads the run of tokens equal to `t` and counts it.
    fn run(&mut self, b: &SectionBuilder, t: Token) -> (r: Result<usize, ParseError>)
        requires
            old(self).wf(),
            !(t is Eof),
        ensures
            final(self).s == old(self).s,
            final(self).seen_hour == old(self).seen_hour,
            match run_from(old(self).s@, st_of(old(self), b), t) {
                Ok((x, n)) => r == Ok::<usize, ParseError>(n as usize) && st_of(final(self), b) == x
                    && n <= usize::MAX,
                Err(e) => r == Err::<usize, ParseError>(e),
            },
            r is Ok ==> final(self).wf(),
    {
        let ghost s0 = self.s@;
        let ghost st0 = st_of(self, b);
        let mut count: usize = 0;
        while self.cur.token == t
            invariant
                self.wf(),
                self.s@ == s0,
                self.seen_hour == old(self).seen_hour,
                self.s == old(self).s,
                count as int + (if self.cur.token is Eof {
                    0int
                } else {
                    1int
                }) <= self.pos,
                !(t is Eof),
                st0 == st_of(old(self), b),
                s0 == old(self).s@,
                run_from(s0, st0, t) == (match run_from(s0, st_of(self, b), t) {
                    Ok((x, n)) => Ok::<(PState, nat), ParseError>((x, (n + count) as nat)),
                    Err(e) => Err(e),
                }),
            decreases measure(s0, lx_of(self)),
        {
            let ghost before = st_of(self, b);
            let old_pos = self.pos;
            let old_eof = matches!(self.cur.token, Token::Eof);
            proof {
                lemma_advance_wf(s0, before.lx);
            }
            match self.advance() {
                Err(e) => {
                    assert(run_from(s0, before, t) == Err::<(PState, nat), ParseError>(e));
                    return Err(e);
                },
                Ok(()) => {},
            }
            count = count + 1;
            if !self.progressed_since(old_pos, old_eof) {
                assert(run_from(s0, before, t) == Ok::<(PState, nat), ParseError>((st_of(self, b), 1)));
                return Ok(count);
            }
            assert(run_from(s0, before, t) == (match run_from(s0, st_of(self, b), t) {
                Ok((x, n)) => Ok::<(PState, nat), ParseError>((x, n + 1)),
                Err(e) => Err(e),
            }));
        }
        assert(run_from(s0, st_of(self, b), t) == Ok::<(PState, nat), ParseError>((st_of(self, b), 0)));
        Ok(count)
    }

    /// Reads a run of `e`/`E` tokens.
    fn exponent_run(&mut self, b: &SectionBuilder) -> (r: Result<(), ParseError>)
        requires
            old(self).wf(),
        ensures
            final(self).s == old(self).s,
            final(self).seen_hour == old(self).seen_hour,
            agrees(r, exponent_run(old(self).s@, st_of(old(self), b)), st_of(final(self), b)),
            r is Ok ==> final(self).wf(),
    {
        let ghost s0 = self.s@;
        let ghost st0 = st_of(self, b);
        while matches!(self.cur.token, Token::ExponentUpper | Token::ExponentLower)
            invariant
                self.wf(),
                self.s@ == s0,
                self.s == old(self).s,
                self.seen_hour == old(self).seen_hour,
                st0 == st_of(old(self), b),
                s0 == old(self).s@,
                exponent_run(s0, st0) == exponent_run(s0, st_of(self, b)),
            decreases measure(s0, lx_of(self)),
        {
            let ghost before = st_of(self, b);
            let old_pos = self.pos;
            let old_eof = matches!(self.cur.token, Token::Eof);
            match self.advance() {
                Err(e) => {
                    assert(exponent_run(s0, before) == Err::<PState, ParseError>(e));
                    return Err(e);
                },
                Ok(()) => {},
            }
            if !self.progressed_since(old_pos, old_eof) {
                assert(exponent_run(s0, before) == Ok::<PState, ParseError>(st_of(self, b)));
                return Ok(());
            }
            assert(exponent_run(s0, before) == exponent_run(s0, st_of(self, b)));
        }
        assert(exponent_run(s0, st_of(self, b)) == Ok::<PState, ParseError>(st_of(self, b)));
        Ok(())
    }

    /// Reads bracket content up to `]`.
    fn bracket_content(&mut self, b: &SectionBuilder, start: usize) -> (r: Result<Vec<char>, ParseError>)
        requires
            old(self).wf(),
        ensures
            final(self).s == old(self).s,
            final(self).seen_hour == old(self).seen_hour,
            match bracket_loop(old(self).s@, st_of(old(self), b), Seq::empty(), start) {
                Ok((x, c)) => r matches Ok(v) && v@ == c && st_of(final(self), b) == x,
                Err(e) => r == Err::<Vec<char>, ParseError>(e),
            },
            r is Ok ==> final(self).wf(),
    {
        let ghost s0 = self.s@;
        let ghost st0 = st_of(self, b);
        let mut content: Vec<char> = Vec::new();
        loop
            invariant
                self.wf(),
                self.s@ == s0,
                self.s == old(self).s,
                self.seen_hour == old(self).seen_hour,
                st0 == st_of(old(self), b),
                s0 == old(self).s@,
                bracket_loop(s0, st0, Seq::empty(), start) == bracket_loop(
                    s0,
                    st_of(self, b),
                    content@,
                    start,
                ),
            decreases measure(s0, lx_of(self)),
        {
            let ghost before_st = st_of(self, b);
            let ghost before_c = content@;
            match self.cur.token {
                Token::CloseBracket => {
                    match self.advance() {
                        Err(e) => {
                            assert(bracket_loop(s0, before_st, before_c, start) == Err::<(PState, Seq<char>), ParseError>(e));
                            return Err(e);
                        },
                        Ok(()) => {},
                    }
                    assert(bracket_loop(s0, before_st, before_c, start) == Ok::<(PState, Seq<char>), ParseError>((st_of(self, b), content@)));
                    return Ok(content);
                },
                Token::Eof => {
                    return Err(ParseError::UnterminatedBracket { position: start });
                },
                _ => {},
            }
            let ghost before = content@;
            match self.cur.token {
                Token::Literal(c) => content.push(c),
                Token::Zero => content.push('0'),
                Token::Hash => content.push('#'),
                Token::Question => content.push('?'),
                Token::DecimalPoint => content.push('.'),
                Token::ThousandsSep => content.push(','),
                Token::Percent => content.push('%'),
                Token::At => content.push('@'),
                Token::Asterisk(_) => content.push('*'),
                Token::Underscore => content.push('_'),
                Token::Plus => content.push('+'),
                Token::Minus => content.push('-'),
                Token::Slash => content.push('/'),
                Token::ExponentUpper => content.push('E'),
                Token::ExponentLower => content.push('e'),
                _ => {},
            }
            assert(content@ == (match bracket_char(self.cur.token) {
                Some(c) => before.push(c),
                None => before,
            }));
            let old_pos = self.pos;
            let old_eof = matches!(self.cur.token, Token::Eof);
            match self.advance() {
                Err(e) => {
                    assert(bracket_loop(s0, before_st, before_c, start) == Err::<(PState, Seq<char>), ParseError>(e));
                    return Err(e);
                },
                Ok(()) => {},
            }
            if !self.progressed_since(old_pos, old_eof) {
                assert(bracket_loop(s0, before_st, before_c, start) == Ok::<(PState, Seq<char>), ParseError>((st_of(self, b), content@)));
                return Ok(content);
            }
            assert(bracket_loop(s0, before_st, before_c, start) == bracket_loop(s0, st_of(self, b), content@, start));
        }
    }

    /// Applies trimmed bracket content to the builder.
    fn apply_bracket(&mut self, b: &mut SectionBuilder, content: &Vec<char>)
        requires
            b_wf(old(b)),
        ensures
            b_wf(final(b)),
            final(self).s == old(self).s,
            lx_of(final(self)) == lx_of(old(self)),
            st_of(final(self), final(b)) == apply_bracket(st_of(old(self), old(b)), content@),
    {
        let (a, z) = trim_range(content, 0, content.len());
        assert(content@.subrange(0, content.len() as int) =~= content@);
        if let Some(col) = color_in(content, a, z) {
            b.color = Some(col);
            return;
        }
        if let Some(cd) = condition_in(content, a, z) {
            b.condition = Some(cd);
            return;
        }
        if let Some(e) = elapsed_in(content, a, z) {
            add_to(b, FormatPartOf::Elapsed(e));
            if matches!(e, crate::ast::ElapsedPart::Hours | crate::ast::ElapsedPart::Hours2) {
                self.seen_hour = true;
            }
            return;
        }
        if let Some(l) = locale_in(content, a, z) {
            add_to(b, FormatPartOf::Locale(l));
        }
    }

    /// The part that `simple_part` gives for the current token.
    fn simple_part_exec(&self) -> (r: Option<Option<FormatPart>>)
        requires
            self.wf(),
        ensures
            match simple_part(self.s@, self.cur.token) {
                Some(Some(p)) => r matches Some(Some(q)) && q@ == p,
                Some(None) => r == Some(None::<FormatPart>),
                None => r is None,
            },
    {
        match self.cur.token {
            Token::Zero => Some(Some(FormatPartOf::Digit(DigitPlaceholder::Zero))),
            Token::Hash => Some(Some(FormatPartOf::Digit(DigitPlaceholder::Hash))),
            Token::Question => Some(Some(FormatPartOf::Digit(DigitPlaceholder::Question))),
            Token::DecimalPoint => Some(Some(FormatPartOf::DecimalPoint)),
            Token::ThousandsSep => Some(Some(FormatPartOf::ThousandsSeparator)),
            Token::Percent => Some(Some(FormatPartOf::Percent)),
            Token::At => Some(Some(FormatPartOf::TextPlaceholder)),
            Token::Asterisk(Some(c)) => Some(Some(FormatPartOf::Fill(c))),
            Token::Asterisk(None) => Some(None),
            Token::Plus => Some(Some(FormatPartOf::Literal(text_part('+')))),
            Token::Minus => Some(Some(FormatPartOf::Literal(text_part('-')))),
            Token::Slash => Some(Some(FormatPartOf::Literal(text_part('/')))),
            Token::AmPm(a, z) => Some(Some(FormatPartOf::AmPm(am_pm_style_of(&self.s, a, z)))),
            Token::Literal(c) => Some(Some(FormatPartOf::Literal(text_part(c)))),
            Token::EscapedChar(c) => Some(Some(FormatPartOf::EscapedLiteral(text_part(c)))),
            Token::QuotedString(a, z) => {
                let v = slice_chars(&self.s, a, z);
                Some(Some(FormatPartOf::Literal(string_of(v.as_slice()))))
            },
            Token::CloseBracket => Some(Some(FormatPartOf::Literal(text_part(']')))),
            _ => None,
        }
    }

    fn step_general(&mut self, b: &mut SectionBuilder) -> (r: Result<(), ParseError>)
        requires
            old(self).wf(),
            b_wf(old(b)),
        ensures
            final(self).s == old(self).s,
            b_wf(final(b)),
            agrees(r, step_general(old(self).s@, st_of(old(self), old(b))), st_of(final(self), final(b))),
            r is Ok ==> final(self).wf(),
    {
        let was_empty = b.parts.len() == 0;
        self.advance()?;
        if matches!(self.cur.token, Token::Eof | Token::SectionSep) && was_empty {
            Ok(())
        } else {
            add_to(b, FormatPartOf::GeneralNumber);
            Ok(())
        }
    }

    fn step_bracket(&mut self, b: &mut SectionBuilder) -> (r: Result<(), ParseError>)
        requires
            old(self).wf(),
            b_wf(old(b)),
        ensures
            final(self).s == old(self).s,
            b_wf(final(b)),
            agrees(r, step_bracket(old(self).s@, st_of(old(self), old(b))), st_of(final(self), final(b))),
            r is Ok ==> final(self).wf(),
    {
        let start = self.cur.start;
        self.advance()?;
        let content = self.bracket_content(b, start)?;
        self.apply_bracket(b, &content);
        Ok(())
    }

    fn step_underscore(&mut self, b: &mut SectionBuilder) -> (r: Result<(), ParseError>)
        requires
            old(self).wf(),
            b_wf(old(b)),
        ensures
            final(self).s == old(self).s,
            b_wf(final(b)),
            agrees(r, step_underscore(old(self).s@, st_of(old(self), old(b))), st_of(final(self), final(b))),
            r is Ok ==> final(self).wf(),
    {
        self.advance()?;
        let ch = match self.cur.token {
            Token::Literal(c) => Some(c),
            Token::Zero => Some('0'),
            Token::Hash => Some('#'),
            Token::Question => Some('?'),
            Token::DecimalPoint => Some('.'),
            Token::ThousandsSep => Some(','),
            Token::Percent => Some('%'),
            Token::At => Some('@'),
            Token::Asterisk(_) => Some('*'),
            Token::Underscore => Some('_'),
            Token::Plus => Some('+'),
            Token::Minus => Some('-'),
            Token::Slash => Some('/'),
            Token::EscapedChar(c) => Some(c),
            _ => None,
        };
        assert(ch == literal_char(self.cur.token));
        if let Some(c) = ch {
            add_to(b, FormatPartOf::Skip(c));
            self.advance()?;
        }
        Ok(())
    }

    fn step_exponent(&mut self, b: &mut SectionBuilder, is_lower: bool) -> (r: Result<(), ParseError>)
        requires
            old(self).wf(),
            b_wf(old(b)),
        ensures
            final(self).s == old(self).s,
            b_wf(final(b)),
            agrees(r, step_exponent(old(self).s@, st_of(old(self), old(b)), is_lower), st_of(final(self), final(b))),
            r is Ok ==> final(self).wf(),
    {
        self.advance()?;
        if matches!(self.cur.token, Token::Plus | Token::Minus) {
            let show_plus = matches!(self.cur.token, Token::Plus);
            self.advance()?;
            add_to(b, FormatPartOf::Scientific { upper: !is_lower, show_plus });
        } else {
            self.exponent_run(b)?;
            add_to(b, FormatPartOf::DatePart(DatePart::Year4));
        }
        Ok(())
    }

    fn step_run(&mut self, b: &mut SectionBuilder, t: Token) -> (r: Result<(), ParseError>)
        requires
            old(self).wf(),
            b_wf(old(b)),
            t is Year || t is Month || t is Day || t is BuddhistYear,
            old(self).cur.token == t,
        ensures
            final(self).s == old(self).s,
            b_wf(final(b)),
            agrees(r, step_run(old(self).s@, st_of(old(self), old(b)), t), st_of(final(self), final(b))),
            r is Ok ==> final(self).wf(),
    {
        let minute = self.seen_hour || seconds_ahead_exec(&self.s, self.cur.start);
        let n = self.run(b, t)?;
        let part = if matches!(t, Token::Year) {
            if n >= 4 {
                DatePart::Year4
            } else if n == 3 {
                DatePart::Year3
            } else {
                DatePart::Year2
            }
        } else if matches!(t, Token::Month) {
            if minute {
                if n >= 2 {
                    DatePart::Minute2
                } else {
                    DatePart::Minute
                }
            } else if n == 1 {
                DatePart::Month
            } else if n == 2 {
                DatePart::Month2
            } else if n == 3 {
                DatePart::MonthAbbr
            } else if n == 4 {
                DatePart::MonthFull
            } else {
                DatePart::MonthLetter
            }
        } else if matches!(t, Token::Day) {
            if n == 1 {
                DatePart::Day
            } else if n == 2 {
                DatePart::Day2
            } else if n == 3 {
                DatePart::DayAbbr
            } else {
                DatePart::DayFull
            }
        } else if n >= 4 {
            DatePart::BuddhistYear4
        } else {
            DatePart::BuddhistYear2
        };
        add_to(b, FormatPartOf::DatePart(part));
        Ok(())
    }

    fn fraction_of_time(&mut self, b: &mut SectionBuilder) -> (r: Result<(), ParseError>)
        requires
            old(self).wf(),
            b_wf(old(b)),
        ensures
            final(self).s == old(self).s,
            b_wf(final(b)),
            agrees(r, fraction_of_time(old(self).s@, st_of(old(self), old(b))), st_of(final(self), final(b))),
            r is Ok ==> final(self).wf(),
    {
        if matches!(self.cur.token, Token::DecimalPoint) {
            self.advance()?;
            let z = self.run(b, Token::Zero)?;
            if z > 0 {
                let dot = FormatPartOf::Literal(text_part('.'));
                add_to(b, dot);
                add_to(b, FormatPartOf::DatePart(DatePart::SubSecond((z % 256) as u8)));
            }
        }
        Ok(())
    }

    fn step_time(&mut self, b: &mut SectionBuilder, hour: bool) -> (r: Result<(), ParseError>)
        requires
            old(self).wf(),
            b_wf(old(b)),
        ensures
            final(self).s == old(self).s,
            b_wf(final(b)),
            agrees(r, step_time(old(self).s@, st_of(old(self), old(b)), hour), st_of(final(self), final(b))),
            r is Ok ==> final(self).wf(),
    {
        if hour {
            self.seen_hour = true;
        }
        let t = if hour {
            Token::Hour
        } else {
            Token::Second
        };
        let n = self.run(b, t)?;
        let part = if hour {
            if n >= 2 {
                DatePart::Hour2
            } else {
                DatePart::Hour
            }
        } else if n >= 2 {
            DatePart::Second2
        } else {
            DatePart::Second
        };
        add_to(b, FormatPartOf::DatePart(part));
        self.fraction_of_time(b)
    }

    fn step_buddhist_upper(&mut self, b: &mut SectionBuilder) -> (r: Result<(), ParseError>)
        requires
            old(self).wf(),
            b_wf(old(b)),
        ensures
            final(self).s == old(self).s,
            b_wf(final(b)),
            agrees(r, step_buddhist_upper(old(self).s@, st_of(old(self), old(b))), st_of(final(self), final(b))),
            r is Ok ==> final(self).wf(),
    {
        self.advance()?;
        if self.cur.token == Token::Literal('2') {
            self.advance()?;
            if matches!(self.cur.token, Token::Year) {
                let n = self.run(b, Token::Year)?;
                let part = if n >= 4 {
                    DatePart::BuddhistYear4Alt
                } else {
                    DatePart::BuddhistYear2Alt
                };
                add_to(b, FormatPartOf::DatePart(part));
            } else {
                let v = vec!['B', '2'];
                assert(v@ =~= seq!['B', '2']);
                add_to(b, FormatPartOf::Literal(string_of(v.as_slice())));
            }
        } else {
            let n = self.run(b, Token::BuddhistYearUpper)?;
            let part = if n >= 3 {
                DatePart::BuddhistYear4
            } else {
                DatePart::BuddhistYear2
            };
            add_to(b, FormatPartOf::DatePart(part));
        }
        Ok(())
    }

    /// One step of the section loop.
    fn step(&mut self, b: &mut SectionBuilder) -> (r: Result<(), ParseError>)
        requires
            old(self).wf(),
            b_wf(old(b)),
        ensures
            final(self).s == old(self).s,
            b_wf(final(b)),
            agrees(r, step(old(self).s@, st_of(old(self), old(b))), st_of(final(self), final(b))),
            r is Ok ==> final(self).wf(),
    {
        reveal(step);
        match self.simple_part_exec() {
            Some(p) => {
                if let Some(p) = p {
                    add_to(b, p);
                }
                return self.advance();
            },
            None => {},
        }
        match self.cur.token {
            Token::General => self.step_general(b),
            Token::OpenBracket => self.step_bracket(b),
            Token::Underscore => self.step_underscore(b),
            Token::ExponentUpper => self.step_exponent(b, false),
            Token::ExponentLower => self.step_exponent(b, true),
            Token::Year => self.step_run(b, Token::Year),
            Token::Month => self.step_run(b, Token::Month),
            Token::Day => self.step_run(b, Token::Day),
            Token::BuddhistYear => self.step_run(b, Token::BuddhistYear),
            Token::Hour => self.step_time(b, true),
            Token::Second => self.step_time(b, false),
            Token::BuddhistYearUpper => self.step_buddhist_upper(b),
            _ => Ok(()),
        }
    }

    /// Parses one section.
    fn parse_section(&mut self) -> (r: Result<Section, ParseError>)
        requires
            old(self).wf(),
        ensures
            final(self).s == old(self).s,
            match section_from(old(self).s@, lx_of(old(self))) {
                Ok((sec, l)) => r matches Ok(x) && x@ == sec && lx_of(final(self)) == l,
                Err(e) => r matches Err(x) && x == e,
            },
            r is Ok ==> final(self).wf(),
    {
        self.seen_hour = false;
        let mut b = SectionBuilder { condition: None, color: None, parts: Vec::new() };
        let ghost s0 = self.s@;
        let ghost st0 = st_of(self, &b);
        assert(parts_view(b.parts@) =~= Seq::<PartView>::empty());
        assert(st0 == section_start(lx_of(old(self))));
        while !matches!(self.cur.token, Token::Eof | Token::SectionSep)
            invariant
                self.wf(),
                b_wf(&b),
                self.s@ == s0,
                self.s == old(self).s,
                st0 == section_start(lx_of(old(self))),
                s0 == old(self).s@,
                section_loop(s0, st0) == section_loop(s0, st_of(self, &b)),
            decreases measure(s0, lx_of(self)),
        {
            let old_pos = self.pos;
            let old_eof = matches!(self.cur.token, Token::Eof);
            match self.step(&mut b) {
                Err(e) => {
                    return Err(e);
                },
                Ok(()) => {},
            }
            if !self.progressed_since(old_pos, old_eof) {
                return Ok(finish(b));
            }
        }
        Ok(finish(b))
    }
}

} // verus!

verus! {

/// The models of a sequence of sections.
pub open spec fn sections_view(v: Seq<Section>) -> Seq<crate::ast::SectionView> {
    Seq::new(v.len(), |i: int| v[i]@)
}

impl Parser {
    /// Parses every section up to the end of the code.
    fn parse_all(&mut self) -> (r: Result<Vec<Section>, ParseError>)
        requires
            old(self).wf(),
        ensures
            match sections_loop(old(self).s@, lx_of(old(self)), Seq::empty()) {
                Ok(v) => r matches Ok(x) && sections_view(x@) == v,
                Err(e) => r matches Err(x) && x == e,
            },
    {
        let ghost s0 = self.s@;
        let ghost lx0 = lx_of(self);
        let mut out: Vec<Section> = Vec::new();
        assert(sections_view(out@) =~= Seq::<crate::ast::SectionView>::empty());
        loop
            invariant
                self.wf(),
                self.s@ == s0,
                s0 == old(self).s@,
                lx0 == lx_of(old(self)),
                sections_loop(s0, lx0, Seq::empty()) == sections_loop(
                    s0,
                    lx_of(self),
                    sections_view(out@),
                ),
            decreases measure(s0, lx_of(self)),
        {
            let ghost before = lx_of(self);
            let ghost acc = sections_view(out@);
            let old_pos = self.pos;
            let old_eof = matches!(self.cur.token, Token::Eof);
            let section = match self.parse_section() {
                Err(e) => {
                    return Err(e);
                },
                Ok(x) => x,
            };
            let ghost sec = section@;
            out.push(section);
            assert(sections_view(out@) =~= acc.push(sec));
            if !matches!(self.cur.token, Token::SectionSep) {
                return Ok(out);
            }
            proof {
                lemma_advance_wf(s0, lx_of(self));
            }
            match self.advance() {
                Err(e) => {
                    return Err(e);
                },
                Ok(()) => {},
            }
            if !self.progressed_since(old_pos, old_eof) {
                return Ok(out);
            }
        }
    }
}

/// The character sequence of the word General.
fn general_chars() -> (r: Vec<char>)
    ensures
        r@ == general_word(),
{
    let v = vec!['g', 'e', 'n', 'e', 'r', 'a', 'l'];
    assert(v@ =~= general_word());
    v
}

/// Whether the General shortcut would slice the code where a character
/// boundary is missing.
pub fn general_slice_would_panic(code: &str) -> (r: bool)
    ensures
        r == general_slice_panics(code@),
{
    let s = crate::chars::chars_of(code);
    let g = general_chars();
    if s.len() == 0 || crate::parser::bracket::eq_range_ignore_case(&s, 0, s.len(), &g) {
        assert(s@.subrange(0, s.len() as int) =~= s@);
        return false;
    }
    assert(s@.subrange(0, s.len() as int) =~= s@);
    match crate::lexer::find_from_exec(&s, 0, ']') {
        None => false,
        Some(be) => {
            proof {
                lemma_find_from(s@, 0, ']');
            }
            let (a, z) = trim_range(&s, be + 1, s.len());
            if crate::parser::bracket::eq_range_ignore_case(&s, a, z, &g) {
                be == 0 || (s[0] as u32) >= 128
            } else {
                false
            }
        },
    }
}

/// Parses a format code into its sections, before they are checked and
/// limited to four.
pub fn parse_sections(code: &str) -> (r: Result<Vec<Section>, ParseError>)
    requires
        !general_slice_panics(code@),
    ensures
        match parsed_sections(code@) {
            Ok(v) => r matches Ok(x) && sections_view(x@) == v,
            Err(e) => r matches Err(x) && x == e,
        },
{
    match sections_by_char_exec(code) {
        Ok(v) => Ok(v),
        Err(e) => {
            let s = crate::chars::chars_of(code);
            Err(error_in_bytes(&s, e))
        },
    }
}

/// The UTF-8 byte offset in `s` of the character at index `p`.
fn byte_position_exec(s: &Vec<char>, p: usize) -> (r: usize)
    ensures
        r == byte_position(s@, p),
{
    let k = if p <= s.len() {
        p
    } else {
        s.len()
    };
    let prefix = string_of(slice_chars(s, 0, k).as_slice());
    assert(prefix@ =~= s@.take(k as int));
    crate::chars::text_byte_len(&prefix)
}

/// `e` with its character position turned into a byte offset into `s`.
fn error_in_bytes(s: &Vec<char>, e: ParseError) -> (r: ParseError)
    ensures
        r == in_bytes(s@, e),
{
    match e {
        ParseError::UnexpectedToken { position, found } => ParseError::UnexpectedToken {
            position: byte_position_exec(s, position),
            found,
        },
        ParseError::UnterminatedBracket { position } => ParseError::UnterminatedBracket {
            position: byte_position_exec(s, position),
        },
        ParseError::InvalidCondition { position, reason } => ParseError::InvalidCondition {
            position: byte_position_exec(s, position),
            reason,
        },
        ParseError::InvalidLocaleCode { position } => ParseError::InvalidLocaleCode {
            position: byte_position_exec(s, position),
        },
        other => other,
    }
}

/// Parses a format code into its sections, with error positions counted in
/// characters.
fn sections_by_char_exec(code: &str) -> (r: Result<Vec<Section>, ParseError>)
    requires
        !general_slice_panics(code@),
    ensures
        match sections_by_char(code@) {
            Ok(v) => r matches Ok(x) && sections_view(x@) == v,
            Err(e) => r matches Err(x) && x == e,
        },
{
    let s = crate::chars::chars_of(code);
    if s.len() == 0 {
        return Err(ParseError::EmptyFormat);
    }
    let g = general_chars();
    assert(s@.subrange(0, s.len() as int) =~= s@);
    if crate::parser::bracket::eq_range_ignore_case(&s, 0, s.len(), &g) {
        let sec = Section::new(None, None, Vec::new());
        assert(sec@.parts =~= Seq::<PartView>::empty());
        let out = vec![sec];
        assert(sections_view(out@) =~= seq![general_section(None)]);
        return Ok(out);
    }
    match crate::lexer::find_from_exec(&s, 0, ']') {
        None => {},
        Some(be) => {
            proof {
                lemma_find_from(s@, 0, ']');
            }
            let (a, z) = trim_range(&s, be + 1, s.len());
            if crate::parser::bracket::eq_range_ignore_case(&s, a, z, &g) {
                let color = color_in(&s, 1, be);
                let sec = Section::new(None, color, Vec::new());
                assert(sec@.parts =~= Seq::<PartView>::empty());
                let out = vec![sec];
                assert(sections_view(out@) =~= seq![general_section(color)]);
                return Ok(out);
            }
        },
    }
    proof {
        lemma_advance_wf(s@, LexState { cur: eof_token(0), pos: 0, br: false });
    }
    let mut p = match lex_token(&s, 0, false) {
        Ok((t, e, b)) => Parser {
            s,
            cur: SpannedToken { token: t, start: 0, end: e },
            pos: e,
            br: b,
            seen_hour: false,
        },
        Err(_) => {
            let n = s.len();
            Parser {
                s,
                cur: SpannedToken { token: Token::Eof, start: 0, end: 0 },
                pos: n,
                br: false,
                seen_hour: false,
            }
        },
    };
    assert(lx_of(&p) == initial_lx(code@));
    p.parse_all()
}


/// Parses a format code into a number format.
pub fn parse(code: &str) -> (r: Result<NumberFormat, ParseError>)
    requires
        !general_slice_panics(code@),
    ensures
        match parsed_sections(code@) {
            Ok(v) => match format_outcome(v) {
                Ok(w) => r matches Ok(f) && f@ == w,
                Err(e) => r matches Err(x) && x == e,
            },
            Err(e) => r matches Err(x) && x == e,
        },
{
    let sections = parse_sections(code)?;
    NumberFormat::from_sections(sections)
}

} // verus!
