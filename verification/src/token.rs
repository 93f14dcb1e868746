//! Tokens and the errors of the tokenizer.

use vstd::prelude::*;
use vstd::std_specs::cmp::PartialEqSpecImpl;
use vstd::utf8::{decode_utf8, encode_utf8};

verus! {

/// Whether two strings hold the same code points.
pub fn str_eq(a: &str, b: &str) -> (r: bool)
    ensures
        r == (a@ == b@),
{
    let x = a.as_bytes();
    let y = b.as_bytes();
    proof {
        broadcast use vstd::utf8::group_utf8_lib;

        assert(decode_utf8(encode_utf8(a@)) == a@);
        assert(decode_utf8(encode_utf8(b@)) == b@);
    }
    if x.len() != y.len() {
        return false;
    }
    let mut i: usize = 0;
    while i < x.len()
        invariant
            x@.len() == y@.len(),
            0 <= i <= x@.len(),
            forall|j: int| 0 <= j < i ==> x@[j] == y@[j],
            x@ == encode_utf8(a@),
            y@ == encode_utf8(b@),
            decode_utf8(encode_utf8(a@)) == a@,
            decode_utf8(encode_utf8(b@)) == b@,
        decreases x@.len() - i,
    {
        if x[i] != y[i] {
            return false;
        }
        i = i + 1;
    }
    proof {
        assert(x@ =~= y@);
    }
    true
}

/// What a [`Token`] stands for: its kind and the code points it carries.
pub enum TokenView {
    Ident(Seq<char>),
    String(Seq<char>),
    Hash,
    Comma,
    LeftParen,
    RightParen,
    Colon,
}

/// One lexical unit. Identifiers and string literals carry their text,
/// borrowed from the input; a string literal's text excludes its quotes.
#[derive(Debug, Clone, Copy, Eq, PartialOrd, Ord)]
pub enum Token<'a> {
    Ident(&'a str),
    String(&'a str),
    Hash,
    Comma,
    LeftParen,
    RightParen,
    Colon,
}

impl<'a> View for Token<'a> {
    type V = TokenView;

    open spec fn view(&self) -> TokenView {
        match *self {
            Token::Ident(s) => TokenView::Ident(s@),
            Token::String(s) => TokenView::String(s@),
            Token::Hash => TokenView::Hash,
            Token::Comma => TokenView::Comma,
            Token::LeftParen => TokenView::LeftParen,
            Token::RightParen => TokenView::RightParen,
            Token::Colon => TokenView::Colon,
        }
    }
}

/// The view of an optional token.
pub open spec fn token_view_of(o: Option<Token<'_>>) -> Option<TokenView> {
    match o {
        Some(t) => Some(t@),
        None => None,
    }
}

impl<'a> PartialEq for Token<'a> {
    fn eq(&self, other: &Self) -> (r: bool) {
        match (*self, *other) {
            (Token::Ident(a), Token::Ident(b)) => str_eq(a, b),
            (Token::String(a), Token::String(b)) => str_eq(a, b),
            (Token::Hash, Token::Hash) => true,
            (Token::Comma, Token::Comma) => true,
            (Token::LeftParen, Token::LeftParen) => true,
            (Token::RightParen, Token::RightParen) => true,
            (Token::Colon, Token::Colon) => true,
            _ => false,
        }
    }
}

impl<'a> PartialEqSpecImpl for Token<'a> {
    open spec fn obeys_eq_spec() -> bool {
        true
    }

    open spec fn eq_spec(&self, other: &Self) -> bool {
        self@ == other@
    }
}

/// Why no token could be read.
#[derive(Debug, Clone, Copy, PartialEq, Eq, Structural)]
pub enum LexError {
    /// Nothing but white space was left.
    EndOfInput,
    /// A code point that starts no token.
    InvalidChar(char),
    /// A string literal that a line end or the end of the input cut short.
    NonterminatedString,
}

} // verus!
