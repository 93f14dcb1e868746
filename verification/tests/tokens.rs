use code_gen::lex::{lex, lex_token, LexError, SpannedStr, Token, TokenStream};
use code_gen::token::str_eq;

fn all_tokens(src: &str) -> Result<Vec<Token<'_>>, LexError> {
    let mut stream = TokenStream::new(src)?;
    let mut tokens = Vec::new();
    while let Some(t) = stream.next() {
        tokens.push(t);
    }
    Ok(tokens)
}

#[test]
fn blank_input_holds_no_token() {
    for src in ["", " ", "\t", "\n", "\r\n", " \t\u{b}\u{c}\r\n ", "\u{a0}", "\u{85}\u{2003}\u{3000}"] {
        assert_eq!(Err(LexError::EndOfInput), lex_token(src));
        assert_eq!(Some(LexError::EndOfInput), TokenStream::new(src).err());
    }
}

#[test]
fn padded_punctuation() {
    let marks = [
        ('#', Token::Hash),
        ('(', Token::LeftParen),
        (')', Token::RightParen),
        (',', Token::Comma),
        (':', Token::Colon),
    ];
    for (c, token) in marks {
        for (before, behind) in [("", ""), (" ", ""), ("", " "), (" \t\n", "\r\n  "), ("\u{a0}", "\u{2028}")] {
            let src = format!("{}{}{}", before, c, behind);
            assert_eq!(Ok(vec![token]), all_tokens(&src));
            let (found, rest) = lex_token(&src).unwrap();
            assert_eq!(token, found);
            assert_eq!(behind, rest.map(|v| v.substring()).unwrap_or(""));
        }
    }
}

#[test]
fn ascii_identifiers() {
    for src in ["a", "Z", "_", "__", "_0", "a1", "render_pipeline", "vs_entry", "A_b_C_0123456789", "x9_"] {
        assert_eq!(Ok(vec![Token::Ident(src)]), all_tokens(src));
        assert_eq!(Ok((Token::Ident(src), None)), lex_token(src));
    }
}

#[test]
fn identifiers_beyond_ascii() {
    assert_eq!(Ok(vec![Token::Ident("été")]), all_tokens("été"));
    assert_eq!(Ok(vec![Token::Ident("京都_1")]), all_tokens(" 京都_1 "));
    assert_eq!(Ok(vec![Token::Ident("a٣")]), all_tokens("a٣"));
    assert_eq!(Err(LexError::InvalidChar('٣')), all_tokens("٣a"));
    assert_eq!(Err(LexError::InvalidChar('🚀')), all_tokens("🚀"));
}

#[test]
fn identifier_may_not_start_with_a_digit() {
    assert_eq!(Err(LexError::InvalidChar('1')), lex_token("1a"));
    assert_eq!(Err(LexError::InvalidChar('0')), lex_token("  0"));
}

#[test]
fn identifier_ends_at_the_first_other_code_point() {
    let (token, rest) = lex_token("  ab1_c:d").unwrap();
    assert_eq!(Token::Ident("ab1_c"), token);
    assert_eq!(":d", rest.unwrap().substring());
    let (token, rest) = lex_token("été🚀").unwrap();
    assert_eq!(Token::Ident("été"), token);
    assert_eq!("🚀", rest.unwrap().substring());
}

#[test]
fn string_literals() {
    for content in ["", "a", "test()a;sldkfj", " ", "#(),:", "é🚀 京", "\t\r", "it's", "\\"] {
        let src = format!("\"{}\"", content);
        assert_eq!(Ok(vec![Token::String(content)]), all_tokens(&src));
        assert_eq!(Ok((Token::String(content), None)), lex_token(&src));
    }
}

#[test]
fn string_literal_and_what_follows() {
    let (token, rest) = lex_token(" \"é\"\"b\"").unwrap();
    assert_eq!(Token::String("é"), token);
    assert_eq!("\"b\"", rest.unwrap().substring());
}

#[test]
fn strings_cut_short() {
    for src in ["\"", "\"abc", "\"abc\n\"", "\"\n", " \"é", "\"a\"\""] {
        assert_eq!(Some(LexError::NonterminatedString), all_tokens(src).err());
    }
}

#[test]
fn invalid_code_points() {
    for (src, c) in [("$", '$'), (" ;", ';'), ("a.b", '.'), ("'a'", '\''), ("-", '-'), ("\u{0}", '\u{0}'), ("a é ¿", '¿')] {
        assert_eq!(Some(LexError::InvalidChar(c)), all_tokens(src).err());
    }
}

#[test]
fn first_failure_ends_tokenizing() {
    assert_eq!(Some(LexError::InvalidChar('$')), all_tokens("a $ \"").err());
    assert_eq!(Some(LexError::NonterminatedString), all_tokens("a \" $").err());
}

#[test]
fn tokens_need_no_white_space_between_them() {
    assert_eq!(
        Ok(vec![
            Token::Hash,
            Token::Ident("a"),
            Token::LeftParen,
            Token::Ident("b"),
            Token::Colon,
            Token::String("c"),
            Token::Comma,
            Token::RightParen,
            Token::Colon,
            Token::Colon,
        ]),
        all_tokens("#a(b:\"c\",)::")
    );
}

#[test]
fn token_read_again_from_its_own_text() {
    let src = "  name\t:\n \"Textured 🚀\" ,été) #";
    let mut rest = Some(SpannedStr::from(src));
    let mut count = 0;
    while let Some(view) = rest {
        let text = view.substring();
        let (token, next) = match lex_token(text) {
            Ok(found) => found,
            Err(e) => {
                assert_eq!(LexError::EndOfInput, e);
                break;
            }
        };
        let blank = lex(text, |c, _| c.is_whitespace()).substring().len();
        let end = text.len() - next.map(|v| v.substring().len()).unwrap_or(0);
        let own = &text[blank..end];
        assert_eq!(Ok((token, None)), lex_token(own));
        count += 1;
        rest = next;
    }
    assert_eq!(7, count);
}

#[test]
fn skip_counts_code_points() {
    let text = "aé京🚀";
    let view = SpannedStr::from(text);
    assert_eq!(Some(SpannedStr::new(text, 0, 10)), view.skip(0));
    assert_eq!(Some(SpannedStr::new(text, 1, 10)), view.skip(1));
    assert_eq!(Some(SpannedStr::new(text, 3, 10)), view.skip(2));
    assert_eq!(Some(SpannedStr::new(text, 6, 10)), view.skip(3));
    assert_eq!(None, view.skip(4));
    assert_eq!(None, view.skip(usize::MAX));
}

#[test]
fn skip_stays_inside_the_view() {
    let view = SpannedStr::new("abcdef", 1, 4);
    assert_eq!("bcd", view.substring());
    assert_eq!("bcd", view.skip(0).unwrap().substring());
    assert_eq!("cd", view.skip(1).unwrap().substring());
    assert_eq!("d", view.skip(2).unwrap().substring());
    assert_eq!(None, view.skip(3));
}

#[test]
fn skip_on_an_empty_view() {
    assert_eq!(None, SpannedStr::new("abc", 3, 3).skip(0));
    assert_eq!(None, SpannedStr::new("abc", 2, 1).skip(0));
    assert_eq!(None, SpannedStr::from("").skip(0));
}

#[test]
fn skip_after_skip() {
    let view = SpannedStr::from("a🚀bc");
    let once = view.skip(1).unwrap();
    assert_eq!("🚀bc", once.substring());
    assert_eq!(view.skip(3), once.skip(2));
    assert_eq!("c", once.skip(2).unwrap().substring());
}

#[test]
fn first_char_of_an_empty_view() {
    assert_eq!(None, SpannedStr::from("").first_char());
    assert_eq!(None, SpannedStr::new("abc", 1, 1).first_char());
    assert_eq!(None, SpannedStr::new("abc", 3, 0).first_char());
    assert_eq!(Some('b'), SpannedStr::new("abc", 1, 2).first_char());
}

#[test]
fn remaining_reaches_the_end_of_the_buffer() {
    let text = "ab🚀";
    assert_eq!(Some(SpannedStr::new(text, 2, 6)), SpannedStr::new(text, 0, 2).remaining());
    assert_eq!(None, SpannedStr::from(text).remaining());
    assert_eq!(None, SpannedStr::new(text, 0, 7).remaining());
    assert_eq!(None, SpannedStr::from("").remaining());
}

#[test]
fn whole_string_as_a_view() {
    assert_eq!(SpannedStr::new("é🚀", 0, 6), SpannedStr::from("é🚀"));
    assert_eq!("é🚀", SpannedStr::from("é🚀").substring());
}

#[test]
fn lex_hands_the_index_to_the_matcher() {
    assert_eq!("abc", lex("abcdef", |_, i| i < 3).substring());
    assert_eq!("🚀é", lex("🚀éa", |_, i| i < 2).substring());
    assert_eq!("", lex("abc", |_, _| false).substring());
    assert_eq!("abc", lex("abc", |_, _| true).substring());
    assert_eq!("", lex("", |_, _| true).substring());
    assert_eq!(SpannedStr::new("🚀éa", 0, 6), lex("🚀éa", |c, _| c != 'a'));
}

#[test]
fn lex_stops_at_the_first_refusal() {
    assert_eq!("aa", lex("aabaa", |c, _| c == 'a').substring());
    assert_eq!(
        "baa",
        lex("aabaa", |c, _| c == 'a').remaining().unwrap().substring()
    );
}

#[test]
fn stream_stays_at_its_end() {
    let mut tokens = TokenStream::new(":").unwrap();
    assert_eq!(Some(Token::Colon), tokens.peek());
    assert_eq!(Some(Token::Colon), tokens.next());
    for _ in 0..3 {
        assert_eq!(None, tokens.peek());
        assert_eq!(None, tokens.next());
    }
}

#[test]
fn tokens_compare_by_kind_and_text() {
    assert_eq!(Token::Ident("a"), Token::Ident(&String::from("a")));
    assert_ne!(Token::Ident("a"), Token::Ident("b"));
    assert_ne!(Token::Ident("a"), Token::Ident("ab"));
    assert_ne!(Token::Ident("a"), Token::String("a"));
    assert_ne!(Token::Hash, Token::Comma);
    assert_ne!(Token::LeftParen, Token::RightParen);
    assert_eq!(Token::Colon, Token::Colon);
    assert!(Token::Ident("b") > Token::Ident("a"));
    assert!(Token::Ident("z") < Token::String("a"));
}

#[test]
fn strings_compare_by_code_points() {
    assert!(str_eq("", ""));
    assert!(str_eq("é🚀", "é🚀"));
    assert!(!str_eq("a", ""));
    assert!(!str_eq("é", "e"));
    assert!(!str_eq("abc", "abd"));
    assert!(!str_eq("ab", "abc"));
}
