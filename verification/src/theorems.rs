//! What holds of the tokenizer on every input of a given shape.

use vstd::prelude::*;
use crate::chars::{alphabetic, ascii_digit, ascii_letter, whitespace};
use crate::config::{parsed, ConfigView, ParseErrorView};
use crate::lex::{
    first_token, ident_pred, lemma_first_token_rest, lemma_run_end, lemma_run_end_is,
    lemma_tokens_step, run_end, string_char, string_pred, tokenize, tokens_from, whitespace_pred,
    LexError, Lexeme, TokenView,
};

verus! {

/// Every code point of `s` is white space.
pub open spec fn blank(s: Seq<char>) -> bool {
    forall|i: int| 0 <= i < s.len() ==> whitespace(#[trigger] s[i])
}

/// The punctuation token that a code point spells, if it spells one.
pub open spec fn punctuation_for(c: char) -> Option<TokenView> {
    if c == '#' {
        Some(TokenView::Hash)
    } else if c == '(' {
        Some(TokenView::LeftParen)
    } else if c == ')' {
        Some(TokenView::RightParen)
    } else if c == ',' {
        Some(TokenView::Comma)
    } else if c == ':' {
        Some(TokenView::Colon)
    } else {
        None
    }
}

/// A letter of ASCII or the underscore.
pub open spec fn ascii_ident_start(c: char) -> bool {
    ascii_letter(c) || c == '_'
}

/// A letter or digit of ASCII or the underscore.
pub open spec fn ascii_ident_part(c: char) -> bool {
    ascii_letter(c) || ascii_digit(c) || c == '_'
}

/// The text matches `[A-Za-z_][A-Za-z0-9_]*`.
pub open spec fn ascii_identifier(s: Seq<char>) -> bool {
    &&& s.len() > 0
    &&& ascii_ident_start(s[0])
    &&& forall|i: int| 0 <= i < s.len() ==> ascii_ident_part(#[trigger] s[i])
}

/// The position of the first code point of `s` that is no white space.
pub open spec fn run_start(s: Seq<char>) -> int {
    run_end(s, 0, whitespace_pred())
}

/// The text holds neither a quote nor a line feed.
pub open spec fn quotable(s: Seq<char>) -> bool {
    forall|i: int| 0 <= i < s.len() ==> string_char(#[trigger] s[i])
}

/// A text holds no token exactly when it is blank; tokenizing and parsing
/// a blank text fail with the end of the input.
pub proof fn theorem_blank_input(s: Seq<char>)
    ensures
        blank(s) <==> first_token(s) == Err::<Lexeme, LexError>(LexError::EndOfInput),
        blank(s) ==> tokenize(s) == Err::<Seq<TokenView>, LexError>(LexError::EndOfInput),
        blank(s) ==> tokens_from(s) == Ok::<Seq<TokenView>, LexError>(Seq::empty()),
        blank(s) ==> parsed(s) == Err::<ConfigView, ParseErrorView>(
            ParseErrorView::Lex(LexError::EndOfInput),
        ),
{
    lemma_run_end(s, 0, whitespace_pred());
    if blank(s) {
        lemma_run_end_is(s, 0, whitespace_pred(), s.len() as int);
    }
}

/// White space before a code point that is none ends at that code point.
proof fn lemma_leading_blank(before: Seq<char>, rest: Seq<char>)
    requires
        blank(before),
        rest.len() > 0 ==> !whitespace(rest[0]),
    ensures
        run_start(before + rest) == before.len(),
{
    let s = before + rest;
    assert forall|i: int| 0 <= i < before.len() implies whitespace_pred()(#[trigger] s[i]) by {
        assert(s[i] == before[i]);
    }
    if rest.len() > 0 {
        assert(s[before.len() as int] == rest[0]);
    }
    lemma_run_end_is(s, 0, whitespace_pred(), before.len() as int);
}

/// The tokens of a text whose first token is followed by nothing but
/// white space are that one token.
proof fn lemma_single_token(s: Seq<char>)
    requires
        first_token(s) matches Ok(l) && blank(s.skip(l.end)),
    ensures
        first_token(s) matches Ok(l) && tokenize(s) == Ok::<Seq<TokenView>, LexError>(
            seq![l.token],
        ),
{
    let l = first_token(s)->Ok_0;
    lemma_tokens_step(Seq::empty(), s);
    theorem_blank_input(s.skip(l.end));
    assert(Seq::<TokenView>::empty().push(l.token) + Seq::<TokenView>::empty() =~= seq![l.token]);
    if let Ok(ts) = tokens_from(s) {
        assert(Seq::<TokenView>::empty() + ts =~= ts);
    }
}

/// One of `#`, `(`, `)`, `,` and `:` between two blank texts is read as
/// its punctuation token, and is the only token of the text.
pub proof fn theorem_padded_punctuation(before: Seq<char>, c: char, behind: Seq<char>)
    requires
        blank(before),
        blank(behind),
        punctuation_for(c) is Some,
    ensures
        first_token(before + seq![c] + behind) matches Ok(l) && l.token == punctuation_for(c)->0
            && l.start == before.len() && l.end == before.len() + 1,
        tokenize(before + seq![c] + behind) == Ok::<Seq<TokenView>, LexError>(
            seq![punctuation_for(c)->0],
        ),
{
    let s = before + seq![c] + behind;
    assert(s =~= before + (seq![c] + behind));
    lemma_leading_blank(before, seq![c] + behind);
    assert(s[before.len() as int] == c);
    assert(s.skip(before.len() as int + 1) =~= behind);
    lemma_single_token(s);
}

/// A text that matches `[A-Za-z_][A-Za-z0-9_]*` is read as the identifier
/// that it spells, and is the only token of the text.
pub proof fn theorem_identifier(s: Seq<char>)
    requires
        ascii_identifier(s),
    ensures
        first_token(s) == Ok::<Lexeme, LexError>(
            Lexeme { token: TokenView::Ident(s), start: 0, end: s.len() as int, rest: None },
        ),
        tokenize(s) == Ok::<Seq<TokenView>, LexError>(seq![TokenView::Ident(s)]),
{
    lemma_leading_blank(Seq::empty(), s);
    assert(Seq::<char>::empty() + s =~= s);
    assert forall|i: int| 0 <= i < s.len() implies ident_pred()(#[trigger] s[i]) by {
        assert(ascii_ident_part(s[i]));
    }
    lemma_run_end_is(s, 0, ident_pred(), s.len() as int);
    assert(s.subrange(0, s.len() as int) =~= s);
    assert(s.skip(s.len() as int) =~= Seq::<char>::empty());
    assert(blank(s.skip(s.len() as int)));
    lemma_single_token(s);
}

/// A text without quote and line feed, put between two quotes, is read as
/// the string literal that holds the text, and is the only token.
pub proof fn theorem_string_literal(content: Seq<char>)
    requires
        quotable(content),
    ensures
        first_token(seq!['"'] + content + seq!['"']) matches Ok(l) && l.token == TokenView::String(
            content,
        ) && l.start == 0 && l.end == content.len() + 2 && l.rest is None,
        tokenize(seq!['"'] + content + seq!['"']) == Ok::<Seq<TokenView>, LexError>(
            seq![TokenView::String(content)],
        ),
{
    let s = seq!['"'] + content + seq!['"'];
    lemma_leading_blank(Seq::empty(), s);
    assert(Seq::<char>::empty() + s =~= s);
    assert forall|i: int| 1 <= i < 1 + content.len() implies string_pred()(#[trigger] s[i]) by {
        assert(s[i] == content[i - 1]);
    }
    lemma_run_end_is(s, 1, string_pred(), 1 + content.len() as int);
    assert(s.subrange(1, 1 + content.len() as int) =~= content);
    assert(s.skip(s.len() as int) =~= Seq::<char>::empty());
    assert(blank(s.skip(s.len() as int)));
    lemma_single_token(s);
}

/// The part of a text that a token was read from, read again by itself,
/// gives the same token and nothing else.
pub proof fn theorem_token_round_trip(s: Seq<char>)
    requires
        first_token(s) is Ok,
    ensures
        ({
            let l = first_token(s)->Ok_0;
            let part = s.subrange(l.start, l.end);
            &&& first_token(part) matches Ok(again) && again.token == l.token && again.start == 0
                && again.end == part.len() && again.rest is None
            &&& tokenize(part) == Ok::<Seq<TokenView>, LexError>(seq![l.token])
        }),
{
    let l = first_token(s)->Ok_0;
    let part = s.subrange(l.start, l.end);
    lemma_first_token_rest(s);
    lemma_run_end(s, 0, whitespace_pred());
    assert(part[0] == s[l.start]);
    lemma_leading_blank(Seq::empty(), part);
    assert(Seq::<char>::empty() + part =~= part);
    let c = s[l.start];
    if alphabetic(c) || c == '_' {
        lemma_run_end(s, l.start, ident_pred());
        assert forall|i: int| 0 <= i < part.len() implies ident_pred()(#[trigger] part[i]) by {
            assert(part[i] == s[l.start + i]);
        }
        lemma_run_end_is(part, 0, ident_pred(), part.len() as int);
        assert(part.subrange(0, part.len() as int) =~= s.subrange(l.start, l.end));
    } else if c == '"' {
        lemma_run_end(s, l.start + 1, string_pred());
        assert forall|i: int| 1 <= i < part.len() - 1 implies string_pred()(#[trigger] part[i]) by {
            assert(part[i] == s[l.start + i]);
        }
        assert(part[part.len() - 1] == s[l.end - 1]);
        lemma_run_end_is(part, 1, string_pred(), part.len() - 1);
        assert(part.subrange(1, part.len() - 1) =~= s.subrange(l.start + 1, l.end - 1));
    }
    assert(part.skip(part.len() as int) =~= Seq::<char>::empty());
    assert(blank(part.skip(part.len() as int)));
    lemma_single_token(part);
}

} // verus!
