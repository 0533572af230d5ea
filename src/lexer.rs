use vstd::prelude::*;
use vstd::string::*;

verus! {

/// One lexical unit of a command line.
#[derive(Debug, PartialEq, Eq)]
pub enum InputToken {
    Identifier(String),
    RedirectIn,
    RedirectOut,
    RedirectAppendOut,
    Pipe,
    Background,
    LogicAnd,
    LogicOr,
    Comment,
    NewLine,
}

/// The mathematical value of a token: an identifier is its characters.
pub enum TokenView {
    Identifier(Seq<char>),
    RedirectIn,
    RedirectOut,
    RedirectAppendOut,
    Pipe,
    Background,
    LogicAnd,
    LogicOr,
    Comment,
    NewLine,
}

impl View for InputToken {
    type V = TokenView;

    open spec fn view(&self) -> TokenView {
        match self {
            InputToken::Identifier(s) => TokenView::Identifier(s@),
            InputToken::RedirectIn => TokenView::RedirectIn,
            InputToken::RedirectOut => TokenView::RedirectOut,
            InputToken::RedirectAppendOut => TokenView::RedirectAppendOut,
            InputToken::Pipe => TokenView::Pipe,
            InputToken::Background => TokenView::Background,
            InputToken::LogicAnd => TokenView::LogicAnd,
            InputToken::LogicOr => TokenView::LogicOr,
            InputToken::Comment => TokenView::Comment,
            InputToken::NewLine => TokenView::NewLine,
        }
    }
}

pub open spec fn opt_token_view(t: Option<InputToken>) -> Option<TokenView> {
    match t {
        Some(t) => Some(t@),
        None => None,
    }
}

pub open spec fn token_views(s: Seq<InputToken>) -> Seq<TokenView> {
    s.map_values(|t: InputToken| t@)
}

/// Whether `c` has the Unicode Alphabetic property.
pub uninterp spec fn alphabetic(c: char) -> bool;

/// Relies on `char::is_alphabetic`; on ASCII it holds exactly of the letters.
#[verifier::external_body]
fn is_alphabetic(c: char) -> (r: bool)
    ensures
        r == alphabetic(c),
        (c as u32) < 128 ==> (r <==> (('a' <= c && c <= 'z') || ('A' <= c && c <= 'Z'))),
{
    c.is_alphabetic()
}

/// Letters: below 128 exactly `a`-`z` and `A`-`Z`, above that the
/// characters with the Unicode Alphabetic property.
pub open spec fn is_letter(c: char) -> bool {
    if (c as u32) < 128 {
        ('a' <= c && c <= 'z') || ('A' <= c && c <= 'Z')
    } else {
        alphabetic(c)
    }
}

/// Characters that may form an unquoted identifier.
pub open spec fn is_word_char(c: char) -> bool {
    is_letter(c) || ('0' <= c && c <= '9') || c == '_' || c == '-' || c == '/' || c == '.'
}

/// Characters that continue a span: word characters, or anything but the
/// closing quote inside a quoted span.
pub open spec fn in_span(c: char, quoted: bool) -> bool {
    if quoted {
        c != '"'
    } else {
        is_word_char(c)
    }
}

/// Length of the longest prefix of `s` whose characters all continue the span.
pub open spec fn span_len(s: Seq<char>, quoted: bool) -> nat
    decreases s.len(),
{
    if s.len() == 0 || !in_span(s[0], quoted) {
        0
    } else {
        1 + span_len(s.drop_first(), quoted)
    }
}

/// A span and what remains after it. A quoted span consumes its closing
/// quote, if there is one. An unquoted span leaves the character that ended
/// it in the input, so that an operator or a newline right after a word is
/// still read; only when the span is empty is that one character consumed.
pub open spec fn take_span(s: Seq<char>, quoted: bool) -> (TokenView, Seq<char>) {
    let n = span_len(s, quoted);
    let rest = if quoted {
        if n < s.len() { s.skip(n + 1 as int) } else { s.skip(n as int) }
    } else {
        if n == 0 && s.len() > 0 { s.skip(1) } else { s.skip(n as int) }
    };
    (TokenView::Identifier(s.take(n as int)), rest)
}

/// A token that is one character, or a different token when that character is doubled.
pub open spec fn single_or_double(s: Seq<char>, single: TokenView, double: TokenView) -> (
    Option<TokenView>,
    Seq<char>,
) {
    if s.len() > 1 && s[1] == s[0] {
        (Some(double), s.skip(2))
    } else {
        (Some(single), s.skip(1))
    }
}

/// The next token of `s`, and the input that is left after it.
pub open spec fn lex_step(s: Seq<char>) -> (Option<TokenView>, Seq<char>)
    decreases s.len(),
{
    if s.len() == 0 {
        (None, s)
    } else if s[0] == ' ' || s[0] == '\t' {
        lex_step(s.drop_first())
    } else if s[0] == '\0' {
        (None, s)
    } else if s[0] == '#' {
        (Some(TokenView::Comment), s.skip(1))
    } else if s[0] == '<' {
        (Some(TokenView::RedirectIn), s.skip(1))
    } else if s[0] == '>' {
        single_or_double(s, TokenView::RedirectOut, TokenView::RedirectAppendOut)
    } else if s[0] == '&' {
        single_or_double(s, TokenView::Background, TokenView::LogicAnd)
    } else if s[0] == '|' {
        single_or_double(s, TokenView::Pipe, TokenView::LogicOr)
    } else if s[0] == '\n' {
        (Some(TokenView::NewLine), s.skip(1))
    } else if s[0] == '"' {
        let (t, rest) = take_span(s.skip(1), true);
        (Some(t), rest)
    } else {
        let (t, rest) = take_span(s, false);
        (Some(t), rest)
    }
}

/// All tokens of `s`, in order, up to the end of the input.
pub open spec fn lex_all(s: Seq<char>) -> Seq<TokenView>
    decreases s.len(),
{
    let (t, rest) = lex_step(s);
    match t {
        None => Seq::empty(),
        Some(t) => if rest.len() < s.len() {
            seq![t] + lex_all(rest)
        } else {
            seq![t]
        },
    }
}

pub proof fn lemma_span_len_bound(s: Seq<char>, quoted: bool)
    ensures
        span_len(s, quoted) <= s.len(),
    decreases s.len(),
{
    if s.len() > 0 {
        lemma_span_len_bound(s.drop_first(), quoted);
    }
}

/// Every token that `lex_step` yields consumes at least one character.
pub proof fn lemma_lex_step_progress(s: Seq<char>)
    ensures
        lex_step(s).0 is Some ==> lex_step(s).1.len() < s.len(),
        lex_step(s).0 is None ==> lex_step(s).1.len() <= s.len(),
    decreases s.len(),
{
    if s.len() > 0 && (s[0] == ' ' || s[0] == '\t') {
        lemma_lex_step_progress(s.drop_first());
    } else if s.len() > 0 {
        lemma_span_len_bound(s, false);
        lemma_span_len_bound(s.skip(1), true);
    }
}

/// A single forward pass over the characters of one input line.
pub struct InputLexer<'a> {
    input: &'a str,
    pos: usize,
    len: usize,
}

impl<'a> InputLexer<'a> {
    pub closed spec fn wf(&self) -> bool {
        &&& self.len == self.input@.len()
        &&& self.pos <= self.len
    }

    /// The whole line being read.
    pub closed spec fn source(&self) -> Seq<char> {
        self.input@
    }

    /// The characters not consumed yet.
    pub closed spec fn rest(&self) -> Seq<char> {
        self.input@.skip(self.pos as int)
    }

    pub fn new(inp: &'a str) -> (r: InputLexer<'a>)
        ensures
            r.wf(),
            r.rest() == inp@,
    {
        let len = inp.unicode_len();
        let r = InputLexer { input: inp, pos: 0, len };
        assert(r.rest() =~= inp@);
        r
    }

    /// The next character, or `'\0'` at the end of the input.
    pub fn peek_char(&self) -> (c: char)
        requires
            self.wf(),
        ensures
            c == (if self.rest().len() == 0 { '\0' } else { self.rest()[0] }),
    {
        if self.pos < self.len {
            self.input.get_char(self.pos)
        } else {
            '\0'
        }
    }

    fn advance(&mut self)
        requires
            old(self).wf(),
            old(self).rest().len() > 0,
        ensures
            final(self).wf(),
            final(self).input == old(self).input,
            final(self).rest() == old(self).rest().drop_first(),
    {
        self.pos = self.pos + 1;
        assert(self.rest() =~= old(self).rest().drop_first());
    }

    /// Returns `double` and consumes `ch` when it comes next, else `single`.
    pub fn handle_double(&mut self, ch: char, single: Option<InputToken>, double: Option<InputToken>) -> (r:
        Option<InputToken>)
        requires
            old(self).wf(),
        ensures
            final(self).wf(),
            final(self).source() == old(self).source(),
            old(self).rest().len() > 0 && old(self).rest()[0] == ch ==> r == double
                && final(self).rest() == old(self).rest().drop_first(),
            !(old(self).rest().len() > 0 && old(self).rest()[0] == ch) ==> r == single
                && final(self).rest() == old(self).rest(),
    {
        if self.pos < self.len && self.peek_char() == ch {
            self.advance();
            return double;
        }
        single
    }

    /// Consumes a span (see `take_span`) and returns it as an identifier.
    fn read_span(&mut self, quoted: bool) -> (r: InputToken)
        requires
            old(self).wf(),
        ensures
            final(self).wf(),
            final(self).input == old(self).input,
            (r@, final(self).rest()) == take_span(old(self).rest(), quoted),
    {
        let start = self.pos;
        let mut end = self.pos;
        while end < self.len
            invariant
                self.wf(),
                start == self.pos,
                start <= end <= self.len,
                span_len(self.rest(), quoted) == (end - start) + span_len(self.input@.skip(end as int), quoted),
            ensures
                self.wf(),
                start == self.pos,
                start <= end <= self.len,
                span_len(self.rest(), quoted) == end - start,
            decreases self.len - end,
        {
            let c = self.input.get_char(end);
            let keep = if quoted {
                c != '"'
            } else {
                is_alphabetic(c) || ('0' <= c && c <= '9') || c == '_' || c == '-' || c == '/' || c == '.'
            };
            if !keep {
                assert(self.input@.skip(end as int)[0] == c);
                assert(!in_span(c, quoted));
                assert(span_len(self.input@.skip(end as int), quoted) == 0);
                break;
            }
            assert(self.input@.skip(end as int).drop_first() =~= self.input@.skip(end + 1));
            end = end + 1;
        }
        if end == self.len {
            assert(self.input@.skip(end as int).len() == 0);
            assert(span_len(self.input@.skip(end as int), quoted) == 0);
        }
        let ghost old_rest = self.rest();
        let n = end - start;
        assert(span_len(old_rest, quoted) == n);
        let text = self.input.substring_char(start, end);
        let tok = InputToken::Identifier(String::from_str(text));
        assert(text@ =~= old_rest.take(n as int));
        if quoted && end < self.len {
            self.pos = end + 1;
            assert(self.rest() =~= old_rest.skip(n + 1 as int));
        } else if !quoted && n == 0 && end < self.len {
            self.pos = end + 1;
            assert(self.rest() =~= old_rest.skip(1));
        } else {
            self.pos = end;
            assert(self.rest() =~= old_rest.skip(n as int));
        }
        tok
    }

    /// The next token, or `None` at the end of the input (or at a NUL character).
    pub fn next(&mut self) -> (r: Option<InputToken>)
        requires
            old(self).wf(),
        ensures
            final(self).wf(),
            final(self).source() == old(self).source(),
            (opt_token_view(r), final(self).rest()) == lex_step(old(self).rest()),
    {
        loop
            invariant
                self.wf(),
                self.input == old(self).input,
                lex_step(self.rest()) == lex_step(old(self).rest()),
            decreases self.len - self.pos,
        {
            let c = self.peek_char();
            if c == ' ' || c == '\t' {
                self.advance();
            } else if c == '\0' {
                return None;
            } else if c == '#' {
                self.advance();
                return Some(InputToken::Comment);
            } else if c == '<' {
                self.advance();
                return Some(InputToken::RedirectIn);
            } else if c == '>' {
                self.advance();
                return self.handle_double('>', Some(InputToken::RedirectOut), Some(InputToken::RedirectAppendOut));
            } else if c == '&' {
                self.advance();
                return self.handle_double('&', Some(InputToken::Background), Some(InputToken::LogicAnd));
            } else if c == '|' {
                self.advance();
                return self.handle_double('|', Some(InputToken::Pipe), Some(InputToken::LogicOr));
            } else if c == '\n' {
                self.advance();
                return Some(InputToken::NewLine);
            } else if c == '"' {
                self.advance();
                return Some(self.read_span(true));
            } else {
                return Some(self.read_span(false));
            }
        }
    }

    /// Every remaining token, in order.
    pub fn tokens(&mut self) -> (r: Vec<InputToken>)
        requires
            old(self).wf(),
        ensures
            token_views(r@) == lex_all(old(self).rest()),
    {
        let mut out: Vec<InputToken> = Vec::new();
        loop
            invariant
                self.wf(),
                self.source() == old(self).source(),
                token_views(out@) + lex_all(self.rest()) == lex_all(old(self).rest()),
            decreases self.len - self.pos,
        {
            let ghost before = self.rest();
            let pos_before = self.pos;
            let t = self.next();
            match t {
                None => {
                    assert(lex_all(before) =~= Seq::<TokenView>::empty());
                    assert(token_views(out@) =~= lex_all(old(self).rest()));
                    return out;
                },
                Some(t) => {
                    let ghost prev = token_views(out@);
                    let ghost tv = t@;
                    assert(lex_all(before) == if self.rest().len() < before.len() {
                        seq![tv] + lex_all(self.rest())
                    } else {
                        seq![tv]
                    });
                    assert(prev + lex_all(before) == lex_all(old(self).rest()));
                    if self.pos > pos_before {
                        assert(self.rest().len() < before.len());
                        out.push(t);
                        assert(token_views(out@) =~= prev.push(tv));
                        assert(prev.push(tv) + lex_all(self.rest()) =~= prev + (seq![tv] + lex_all(self.rest())));
                        assert(token_views(out@) + lex_all(self.rest()) =~= lex_all(old(self).rest()));
                    } else {
                        assert(self.rest().len() >= before.len());
                        out.push(t);
                        assert(token_views(out@) =~= prev.push(tv));
                        assert(token_views(out@) =~= lex_all(old(self).rest()));
                        return out;
                    }
                },
            }
        }
    }
}

} // verus!
