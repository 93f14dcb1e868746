//! The tokenizer: maximal runs of code points, one token at a time, and
//! the whole input as a sequence of tokens behind a cursor.

use vstd::prelude::*;
use vstd::std_specs::iter::IteratorSpec;
use vstd::string::*;
use vstd::utf8::*;
use crate::chars::{alphabetic, alphanumeric, whitespace};
pub use crate::span::{view_of, SpanView, SpannedStr};
pub use crate::token::{token_view_of, LexError, Token, TokenView};
use crate::utf8::{
    byte_len, byte_offset, lemma_offset_bounds, lemma_offset_grows, lemma_offset_is_boundary,
    lemma_offset_split, lemma_offset_step, lemma_text_after_offset,
};

verus! {

/// The end of the maximal run of code points of `s` that starts at `from`
/// and satisfies `pred`: the first position from there on whose code point
/// fails it, or the length of `s`.
pub open spec fn run_end(s: Seq<char>, from: int, pred: spec_fn(char) -> bool) -> int
    decreases s.len() - from,
{
    if 0 <= from < s.len() && pred(s[from]) {
        run_end(s, from + 1, pred)
    } else {
        from
    }
}

/// The run holds only code points that satisfy the predicate, and stops by
/// one that fails it or by the end.
pub proof fn lemma_run_end(s: Seq<char>, from: int, pred: spec_fn(char) -> bool)
    requires
        0 <= from <= s.len(),
    ensures
        from <= run_end(s, from, pred) <= s.len(),
        forall|i: int| from <= i < run_end(s, from, pred) ==> pred(#[trigger] s[i]),
        run_end(s, from, pred) < s.len() ==> !pred(s[run_end(s, from, pred)]),
    decreases s.len() - from,
{
    if from < s.len() && pred(s[from]) {
        lemma_run_end(s, from + 1, pred);
    }
}

/// A position that a run of satisfying code points leads to, and where the
/// input ends or a code point fails the predicate, is the end of the run.
pub proof fn lemma_run_end_is(s: Seq<char>, from: int, pred: spec_fn(char) -> bool, end: int)
    requires
        0 <= from <= end <= s.len(),
        forall|i: int| from <= i < end ==> pred(#[trigger] s[i]),
        end < s.len() ==> !pred(s[end]),
    ensures
        run_end(s, from, pred) == end,
    decreases end - from,
{
    if from < end {
        assert(pred(s[from]));
        lemma_run_end_is(s, from + 1, pred, end);
    }
}

/// The view of the tail of `buffer` from code point `k` on, if there is
/// one: it reaches to the end of the buffer.
pub open spec fn rest_view(buffer: Seq<char>, k: int) -> Option<SpanView> {
    if k < buffer.len() {
        Some(
            SpanView {
                source: buffer,
                start: byte_offset(buffer, k),
                end: encode_utf8(buffer).len() as int,
            },
        )
    } else {
        None
    }
}

/// The outcome of scanning a run: the view of the first `k` code points of
/// `buffer`.
pub open spec fn run_view(buffer: Seq<char>, k: int) -> SpanView {
    SpanView { source: buffer, start: 0, end: byte_offset(buffer, k) }
}

/// The view of a run is aligned, holds the run, and what remains after it
/// is the tail of the buffer.
pub proof fn lemma_run_view(buffer: Seq<char>, k: int)
    requires
        0 <= k <= buffer.len(),
    ensures
        run_view(buffer, k).aligned(),
        run_view(buffer, k).text() == buffer.take(k),
        run_view(buffer, k).remaining() == rest_view(buffer, k),
{
    broadcast use vstd::utf8::group_utf8_lib;

    let v = run_view(buffer, k);
    lemma_offset_bounds(buffer, k);
    lemma_offset_is_boundary(buffer, k);
    lemma_offset_is_boundary(buffer, 0);
    lemma_text_after_offset(buffer, k);
    lemma_offset_grows(buffer, 0, k);
    lemma_offset_grows(buffer, k, buffer.len() as int);
    assert(decode_utf8(encode_utf8(buffer.take(k))) == buffer.take(k));
    if k == 0 {
        assert(buffer.take(0) =~= Seq::<char>::empty());
    }
}

/// The tail view is aligned and holds the tail; moving it forward by `n`
/// code points gives the tail view that starts `n` later.
pub proof fn lemma_rest_view(buffer: Seq<char>, k: int, n: int)
    requires
        0 <= k < buffer.len(),
        0 <= n,
    ensures
        rest_view(buffer, k) matches Some(v) && v.aligned() && v.text() == buffer.skip(k) && v.skip(
            n,
        ) == rest_view(buffer, k + n),
{
    broadcast use vstd::utf8::group_utf8_lib;

    let v = rest_view(buffer, k)->0;
    lemma_offset_bounds(buffer, k);
    lemma_offset_is_boundary(buffer, k);
    lemma_offset_is_boundary(buffer, buffer.len() as int);
    lemma_text_after_offset(buffer, k);
    lemma_offset_grows(buffer, k, buffer.len() as int);
    assert(decode_utf8(encode_utf8(buffer.skip(k))) == buffer.skip(k));
    if n < buffer.len() - k {
        lemma_offset_split(buffer, k, n);
    }
}

/// Scans the maximal run of code points at the start of `src` that
/// `matcher` accepts; the matcher is given each code point with its index.
/// The view returned covers the run.
pub fn lex<'a>(src: &'a str, matcher: impl Fn(char, usize) -> bool) -> (r: SpannedStr<'a>)
    requires
        forall|i: int|
            0 <= i < src@.len() ==> call_requires(matcher, (#[trigger] src@[i], i as usize)),
    ensures
        r@.text().len() <= src@.len(),
        r@ == run_view(src@, r@.text().len() as int),
        forall|i: int|
            0 <= i < r@.text().len() ==> call_ensures(
                matcher,
                (#[trigger] src@[i], i as usize),
                true,
            ),
        r@.text().len() < src@.len() ==> call_ensures(
            matcher,
            (src@[r@.text().len() as int], r@.text().len() as usize),
            false,
        ),
{
    broadcast use vstd::string::group_string_axioms;

    let total = byte_len(src);
    let mut chars = src.chars();
    let mut end_byte: usize = 0;
    let mut char_index: usize = 0;
    proof {
        lemma_offset_bounds(src@, 0);
    }
    loop
        invariant
            0 <= char_index <= src@.len(),
            chars.remaining() == src@.skip(char_index as int),
            end_byte == byte_offset(src@, char_index as int),
            total == encode_utf8(src@).len(),
            forall|i: int|
                0 <= i < src@.len() ==> call_requires(matcher, (#[trigger] src@[i], i as usize)),
            forall|i: int|
                0 <= i < char_index ==> call_ensures(
                    matcher,
                    (#[trigger] src@[i], i as usize),
                    true,
                ),
        decreases src@.len() - char_index,
    {
        proof {
            lemma_run_view(src@, char_index as int);
        }
        match chars.next() {
            Some(c) => {
                assert(c == src@[char_index as int]);
                if !matcher(c, char_index) {
                    return SpannedStr::new(src, 0, end_byte);
                }
                proof {
                    lemma_offset_step(src@, char_index as int);
                    lemma_offset_bounds(src@, char_index as int + 1);
                    lemma_offset_grows(src@, 0, char_index as int + 1);
                    assert(src@.skip(char_index as int).drop_first() =~= src@.skip(
                        char_index as int + 1,
                    ));
                }
                end_byte = end_byte + c.len_utf8();
                char_index = char_index + 1;
            },
            None => {
                proof {
                    lemma_offset_bounds(src@, char_index as int);
                }
                return SpannedStr::new(src, 0, total);
            },
        }
    }
}

/// Code points that may continue an identifier.
pub open spec fn ident_char(c: char) -> bool {
    alphanumeric(c) || c == '_'
}

/// Code points that may stand inside a string literal.
pub open spec fn string_char(c: char) -> bool {
    c != '"' && c != '\n'
}

/// White space, as a predicate.
pub open spec fn whitespace_pred() -> spec_fn(char) -> bool {
    |c: char| whitespace(c)
}

/// [`ident_char`] as a predicate.
pub open spec fn ident_pred() -> spec_fn(char) -> bool {
    |c: char| ident_char(c)
}

/// [`string_char`] as a predicate.
pub open spec fn string_pred() -> spec_fn(char) -> bool {
    |c: char| string_char(c)
}

/// A run that starts at `from` is the run of the tail from `from`, moved.
pub proof fn lemma_run_end_shift(s: Seq<char>, from: int, pred: spec_fn(char) -> bool)
    requires
        0 <= from <= s.len(),
    ensures
        run_end(s, from, pred) == from + run_end(s.skip(from), 0, pred),
{
    let tail = s.skip(from);
    let m = run_end(tail, 0, pred);
    lemma_run_end(tail, 0, pred);
    assert forall|i: int| from <= i < from + m implies pred(#[trigger] s[i]) by {
        assert(pred(tail[i - from]));
    }
    if from + m < s.len() {
        assert(tail[m] == s[from + m]);
    }
    lemma_run_end_is(s, from, pred, from + m);
}

/// What [`lex`] promises of a matcher that answers by `pred` is that it
/// found the end of the run of `pred`.
proof fn lemma_lexed_run<F: Fn(char, usize) -> bool>(
    s: Seq<char>,
    k: int,
    matcher: F,
    pred: spec_fn(char) -> bool,
)
    requires
        0 <= k <= s.len(),
        forall|i: int| 0 <= i < k ==> call_ensures(matcher, (#[trigger] s[i], i as usize), true),
        k < s.len() ==> call_ensures(matcher, (s[k], k as usize), false),
        forall|c: char, i: usize, r: bool| #[trigger]
            call_ensures(matcher, (c, i), r) ==> r == pred(c),
    ensures
        run_end(s, 0, pred) == k,
{
    assert forall|i: int| 0 <= i < k implies pred(#[trigger] s[i]) by {
        assert(call_ensures(matcher, (s[i], i as usize), true));
    }
    lemma_run_end_is(s, 0, pred, k);
}

/// One token as the tokenizer finds it in a text.
pub struct Lexeme {
    /// The token.
    pub token: TokenView,
    /// The position of its first code point, after the leading white space.
    pub start: int,
    /// The position after its last code point.
    pub end: int,
    /// The view of the text that follows, if any does.
    pub rest: Option<SpanView>,
}

/// A token of one code point at position `start` of `s`.
pub open spec fn punctuation(s: Seq<char>, start: int, token: TokenView) -> Lexeme {
    Lexeme { token, start, end: start + 1, rest: rest_view(s, start + 1) }
}

/// The first token of `s`: what [`lex_token`] returns on a string that
/// holds the code points `s`.
pub open spec fn first_token(s: Seq<char>) -> Result<Lexeme, LexError> {
    let start = run_end(s, 0, whitespace_pred());
    if start >= s.len() {
        Err(LexError::EndOfInput)
    } else {
        let c = s[start];
        if alphabetic(c) || c == '_' {
            let end = run_end(s, start, ident_pred());
            Ok(
                Lexeme {
                    token: TokenView::Ident(s.subrange(start, end)),
                    start,
                    end,
                    rest: rest_view(s.skip(start), end - start),
                },
            )
        } else if c == '#' {
            Ok(punctuation(s, start, TokenView::Hash))
        } else if c == '(' {
            Ok(punctuation(s, start, TokenView::LeftParen))
        } else if c == ')' {
            Ok(punctuation(s, start, TokenView::RightParen))
        } else if c == ',' {
            Ok(punctuation(s, start, TokenView::Comma))
        } else if c == ':' {
            Ok(punctuation(s, start, TokenView::Colon))
        } else if c == '"' {
            let close = run_end(s, start + 1, string_pred());
            if close < s.len() && s[close] == '"' {
                Ok(
                    Lexeme {
                        token: TokenView::String(s.subrange(start + 1, close)),
                        start,
                        end: close + 1,
                        rest: rest_view(s.skip(start + 1), close - start),
                    },
                )
            } else {
                Err(LexError::NonterminatedString)
            }
        } else {
            Err(LexError::InvalidChar(c))
        }
    }
}

/// Reads the first token of `src`, after any white space, and returns it
/// with the view of what follows it.
pub fn lex_token<'a>(src: &'a str) -> (r: Result<(Token<'a>, Option<SpannedStr<'a>>), LexError>)
    ensures
        match r {
            Ok((token, rest)) => first_token(src@) matches Ok(l) && token@ == l.token && view_of(
                rest,
            ) == l.rest,
            Err(e) => first_token(src@) == Err::<Lexeme, LexError>(e),
        },
{
    let ghost s = src@;
    let is_space = |c: char, _i: usize| -> (r: bool)
        ensures
            r == whitespace(c),
        { c.is_whitespace() };
    let span = lex(src, is_space);
    let ghost start = span@.text().len() as int;
    proof {
        lemma_lexed_run(s, start, is_space, whitespace_pred());
        lemma_run_view(s, start);
    }
    let span = match span.remaining() {
        Some(span) => span,
        None => {
            return Err(LexError::EndOfInput);
        },
    };
    proof {
        lemma_rest_view(s, start, 1);
    }
    let c = match span.first_char() {
        Some(c) => c,
        None => {
            return Err(LexError::EndOfInput);
        },
    };
    assert(c == s[start]);
    if c.is_alphabetic() || c == '_' {
        let is_ident = |c: char, _i: usize| -> (r: bool)
            ensures
                r == ident_char(c),
            { c.is_alphanumeric() || c == '_' };
        let data = lex(span.substring(), is_ident);
        proof {
            let tail = s.skip(start);
            let n = data@.text().len() as int;
            lemma_lexed_run(tail, n, is_ident, ident_pred());
            lemma_run_end_shift(s, start, ident_pred());
            lemma_run_view(tail, n);
            assert(tail.take(n) =~= s.subrange(start, start + n));
        }
        Ok((Token::Ident(data.substring()), data.remaining()))
    } else if c == '#' {
        Ok((Token::Hash, span.skip(1)))
    } else if c == '(' {
        Ok((Token::LeftParen, span.skip(1)))
    } else if c == ')' {
        Ok((Token::RightParen, span.skip(1)))
    } else if c == ',' {
        Ok((Token::Comma, span.skip(1)))
    } else if c == ':' {
        Ok((Token::Colon, span.skip(1)))
    } else if c == '"' {
        let ghost tail = s.skip(start + 1);
        proof {
            lemma_run_end_shift(s, start + 1, string_pred());
        }
        let data = match span.skip(1) {
            Some(data) => data,
            None => {
                return Err(LexError::NonterminatedString);
            },
        };
        proof {
            lemma_rest_view(s, start + 1, 0);
        }
        let in_string = |c: char, _i: usize| -> (r: bool)
            ensures
                r == string_char(c),
            { c != '"' && c != '\n' };
        let data = lex(data.substring(), in_string);
        let ghost n = data@.text().len() as int;
        proof {
            lemma_lexed_run(tail, n, in_string, string_pred());
            lemma_run_view(tail, n);
            assert(tail.take(n) =~= s.subrange(start + 1, start + 1 + n));
        }
        let remaining = match data.remaining() {
            Some(remaining) => remaining,
            None => {
                return Err(LexError::NonterminatedString);
            },
        };
        proof {
            lemma_rest_view(tail, n, 1);
            assert(tail[n] == s[start + 1 + n]);
        }
        match remaining.first_char() {
            Some('"') => {},
            _ => {
                return Err(LexError::NonterminatedString);
            },
        }
        Ok((Token::String(data.substring()), remaining.skip(1)))
    } else {
        Err(LexError::InvalidChar(c))
    }
}

/// A token takes at least one code point, and the view that comes with
/// it is aligned and holds exactly the text after the token.
pub proof fn lemma_first_token_rest(s: Seq<char>)
    ensures
        first_token(s) matches Ok(l) ==> {
            &&& 0 <= l.start < l.end <= s.len()
            &&& l.start == run_end(s, 0, whitespace_pred())
            &&& (l.rest is None <==> l.end == s.len())
            &&& (l.rest matches Some(v) ==> v.aligned() && v.text() == s.skip(l.end))
        },
{
    let start = run_end(s, 0, whitespace_pred());
    lemma_run_end(s, 0, whitespace_pred());
    if let Ok(l) = first_token(s) {
        let c = s[start];
        if alphabetic(c) || c == '_' {
            lemma_run_end(s, start, ident_pred());
            assert(ident_pred()(c));
            if l.end < s.len() {
                lemma_rest_view(s.skip(start), l.end - start, 0);
                assert(s.skip(start).skip(l.end - start) =~= s.skip(l.end));
            }
        } else if c == '"' {
            lemma_run_end(s, start + 1, string_pred());
            if l.end < s.len() {
                lemma_rest_view(s.skip(start + 1), l.end - start - 1, 0);
                assert(s.skip(start + 1).skip(l.end - start - 1) =~= s.skip(l.end));
            }
        } else {
            if l.end < s.len() {
                lemma_rest_view(s, l.end, 0);
            }
        }
    }
}

/// The tokens of `s` from its start to its end, where running out of
/// input ends the sequence and any other failure is the result.
pub open spec fn tokens_from(s: Seq<char>) -> Result<Seq<TokenView>, LexError>
    decreases s.len(),
{
    match first_token(s) {
        Err(LexError::EndOfInput) => Ok(Seq::empty()),
        Err(e) => Err(e),
        Ok(l) => {
            proof {
                lemma_first_token_rest(s);
            }
            after(seq![l.token], tokens_from(s.skip(l.end)))
        },
    }
}

/// The tokens `done` followed by those of `more`, if there was no failure.
pub open spec fn after(done: Seq<TokenView>, more: Result<Seq<TokenView>, LexError>) -> Result<
    Seq<TokenView>,
    LexError,
> {
    match more {
        Ok(tokens) => Ok(done + tokens),
        Err(e) => Err(e),
    }
}

/// How the tokens of `text`, read after the tokens `done`, unfold by one
/// token.
pub proof fn lemma_tokens_step(done: Seq<TokenView>, text: Seq<char>)
    ensures
        match first_token(text) {
            Ok(l) => after(done, tokens_from(text)) == after(
                done.push(l.token),
                tokens_from(text.skip(l.end)),
            ),
            Err(LexError::EndOfInput) => after(done, tokens_from(text)) == Ok::<
                Seq<TokenView>,
                LexError,
            >(done),
            Err(e) => after(done, tokens_from(text)) == Err::<Seq<TokenView>, LexError>(e),
        },
{
    match first_token(text) {
        Ok(l) => {
            let more = tokens_from(text.skip(l.end));
            if let Ok(ts) = more {
                assert(done + (seq![l.token] + ts) =~= done.push(l.token) + ts);
            }
        },
        Err(LexError::EndOfInput) => {
            assert(done + Seq::<TokenView>::empty() =~= done);
        },
        Err(e) => {},
    }
}

/// All tokens of `s`: what [`TokenStream::new`] holds. An input without
/// any token is a failure.
pub open spec fn tokenize(s: Seq<char>) -> Result<Seq<TokenView>, LexError> {
    match first_token(s) {
        Err(e) => Err(e),
        Ok(_) => tokens_from(s),
    }
}

/// The views of a sequence of tokens.
pub open spec fn token_views(tokens: Seq<Token<'_>>) -> Seq<TokenView> {
    tokens.map_values(|t: Token<'_>| t@)
}

/// The text that a view left by the tokenizer still holds.
pub open spec fn pending_text(remaining: Option<SpannedStr<'_>>) -> Seq<char> {
    match remaining {
        Some(v) => v@.text(),
        None => Seq::empty(),
    }
}

/// The view that comes with the first token of `text` holds the text
/// after that token.
proof fn lemma_pending_text(text: Seq<char>, remaining: Option<SpannedStr<'_>>)
    requires
        first_token(text) matches Ok(l) && view_of(remaining) == l.rest,
    ensures
        first_token(text) matches Ok(l) && pending_text(remaining) == text.skip(l.end)
            && pending_text(remaining).len() < text.len(),
        remaining matches Some(v) ==> v@.aligned(),
{
    lemma_first_token_rest(text);
    if remaining is None {
        assert(text.skip(text.len() as int) =~= Seq::<char>::empty());
    }
}

/// What a [`TokenStream`] stands for: its tokens and the position of the
/// next one to hand out.
pub struct Cursor {
    pub tokens: Seq<TokenView>,
    pub index: int,
}

impl Cursor {
    /// The token at the position, if the position is inside the sequence.
    pub open spec fn peek(self) -> Option<TokenView> {
        if 0 <= self.index < self.tokens.len() {
            Some(self.tokens[self.index])
        } else {
            None
        }
    }

    /// The cursor one token further, or unchanged at the end.
    pub open spec fn advance(self) -> Cursor {
        if 0 <= self.index < self.tokens.len() {
            Cursor { tokens: self.tokens, index: self.index + 1 }
        } else {
            self
        }
    }

    /// The tokens that are still to come.
    pub open spec fn pending(self) -> Seq<TokenView> {
        if 0 <= self.index <= self.tokens.len() {
            self.tokens.skip(self.index)
        } else {
            Seq::empty()
        }
    }
}

/// The tokens of an input, with a read position that only moves forward.
pub struct TokenStream<'a> {
    index: usize,
    tokens: Vec<Token<'a>>,
}

impl<'a> View for TokenStream<'a> {
    type V = Cursor;

    closed spec fn view(&self) -> Cursor {
        Cursor { tokens: token_views(self.tokens@), index: self.index as int }
    }
}

impl<'a> TokenStream<'a> {
    /// Tokenizes the whole of `src`. The stream starts at the first token.
    pub fn new(src: &'a str) -> (r: Result<Self, LexError>)
        ensures
            match r {
                Ok(stream) => tokenize(src@) == Ok::<Seq<TokenView>, LexError>(stream@.tokens)
                    && stream@.index == 0,
                Err(e) => tokenize(src@) == Err::<Seq<TokenView>, LexError>(e),
            },
    {
        let mut tokens: Vec<Token<'a>> = Vec::new();
        let (token, mut remaining) = match lex_token(src) {
            Ok(found) => found,
            Err(e) => {
                return Err(e);
            },
        };
        tokens.push(token);
        proof {
            lemma_tokens_step(Seq::empty(), src@);
            assert(token_views(tokens@) =~= Seq::<TokenView>::empty().push(token@));
            lemma_pending_text(src@, remaining);
        }
        loop
            invariant
                remaining matches Some(v) ==> v@.aligned(),
                tokenize(src@) == after(token_views(tokens@), tokens_from(pending_text(remaining))),
            decreases pending_text(remaining).len(),
        {
            let ghost text = pending_text(remaining);
            let ghost done = token_views(tokens@);
            proof {
                lemma_tokens_step(done, text);
            }
            let span = match remaining {
                Some(span) => span,
                None => {
                    proof {
                        lemma_run_end(text, 0, whitespace_pred());
                    }
                    return Ok(Self { tokens, index: 0 });
                },
            };
            let (token, new_remaining) = match lex_token(span.substring()) {
                Ok(found) => found,
                Err(LexError::EndOfInput) => {
                    return Ok(Self { tokens, index: 0 });
                },
                Err(e) => {
                    return Err(e);
                },
            };
            tokens.push(token);
            proof {
                assert(token_views(tokens@) =~= done.push(token@));
                lemma_pending_text(text, new_remaining);
            }
            remaining = new_remaining;
        }
    }

    /// The next token, which stays in place.
    pub fn peek(&self) -> (r: Option<Token<'a>>)
        ensures
            token_view_of(r) == self@.peek(),
    {
        if self.index < self.tokens.len() {
            Some(self.tokens[self.index])
        } else {
            None
        }
    }

    /// The next token; the stream moves past it.
    pub fn next(&mut self) -> (r: Option<Token<'a>>)
        ensures
            token_view_of(r) == old(self)@.peek(),
            final(self)@ == old(self)@.advance(),
    {
        let token = self.peek();
        if token.is_some() {
            assert(self@.peek() is Some);
            assert(self.index < self.tokens.len());
            self.index += 1;
        }
        token
    }
}

} // verus!
