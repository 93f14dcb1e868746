use code_gen::lex::{lex, lex_token, LexError, SpannedStr, Token};

#[test]
fn parse_spanned_str_substring() {
    assert_eq!("sub", SpannedStr::new("substring", 0, 3).substring());
    assert_eq!("string", SpannedStr::new("substring", 3, 9).substring());
    assert_eq!("🚀", SpannedStr::new("🚀substring", 0, 4).substring());
    assert_eq!("", SpannedStr::new("substring", 0, 0).substring());
    assert_eq!("", SpannedStr::new("substring", 10, 0).substring());
}

#[test]
fn parse_spanned_str_remaining() {
    assert_eq!(
        "string",
        SpannedStr::new("substring", 0, 3)
            .remaining()
            .unwrap()
            .substring()
    );
    assert_eq!(None, SpannedStr::new("substring", 3, 9).remaining());
    assert_eq!(
        "substring",
        SpannedStr::new("🚀substring", 0, 4)
            .remaining()
            .unwrap()
            .substring()
    );
    assert_eq!(
        "substring",
        SpannedStr::new("substring", 0, 0)
            .remaining()
            .unwrap()
            .substring()
    );
    assert_eq!(
        "substring",
        SpannedStr::new("substring", 10, 0)
            .remaining()
            .unwrap()
            .substring()
    );
}

#[test]
fn parse_spanned_str_first_char() {
    assert_eq!(Some('🚀'), SpannedStr::from("🚀substring").first_char());
    assert_eq!(Some('s'), SpannedStr::new("🚀substring", 4, 9).first_char());
}

#[test]
fn parse_spanned_str_skip() {
    let original = "abc🚀def";
    assert_eq!("abc🚀def", SpannedStr::from(original).skip(0).unwrap().substring());
    assert_eq!("bc🚀def", SpannedStr::from(original).skip(1).unwrap().substring());
    assert_eq!("c🚀def", SpannedStr::from(original).skip(2).unwrap().substring());
    let data = SpannedStr::from(original).skip(1).unwrap();
    println!("data = {}", data.substring());
    assert_eq!("c🚀def", data.skip(1).unwrap().substring());
    assert_eq!("🚀def", SpannedStr::from(original).skip(3).unwrap().substring());
    assert_eq!("def", SpannedStr::from(original).skip(4).unwrap().substring());
    assert_eq!("ef", SpannedStr::from(original).skip(5).unwrap().substring());
    assert_eq!("f", SpannedStr::from(original).skip(6).unwrap().substring());
    assert_eq!(None, SpannedStr::from(original).skip(7));
    assert_eq!(None, SpannedStr::from(original).skip(8));
    assert_eq!(None, SpannedStr::from("").skip(5));
}

#[test]
fn parse_test_parse() {
    assert_eq!("   ", lex("   abc", |c, _| c == ' ').substring());
    assert_eq!("   ", lex("   ", |c, _| c == ' ').substring());
    assert_eq!("", lex("abc   ", |c, _| c == ' ').substring());
    assert_eq!("🚀🚀🚀", lex("🚀🚀🚀   ", |c, _| c == '🚀').substring());
    assert_eq!("🚀🚀🚀", lex("🚀🚀🚀", |c, _| c == '🚀').substring());
    assert_eq!(
        "🚀a🚀b🚀c",
        lex("🚀a🚀b🚀c", |c, _| c == '🚀'
            || c == 'a'
            || c == 'b'
            || c == 'c')
        .substring()
    );
}

#[test]
fn parse_test_parse_token() {
    assert_eq!(Token::Ident("test"), lex_token("  test   ").unwrap().0);
    assert_eq!(Token::Hash, lex_token("  #   ").unwrap().0);
    assert_eq!(Token::LeftParen, lex_token("  (   ").unwrap().0);
    assert_eq!(Token::RightParen, lex_token("  )   ").unwrap().0);
    assert_eq!(Token::Comma, lex_token("  ,   ").unwrap().0);
    assert_eq!(Token::String("test()a;sldkfj"), lex_token("  \"test()a;sldkfj\"   ").unwrap().0);
    assert_eq!(Err(LexError::EndOfInput), lex_token("     "));
    assert_eq!(Err(LexError::InvalidChar('$')), lex_token("   $  "));
    assert_eq!(Err(LexError::NonterminatedString), lex_token("  \""));
    assert_eq!(Err(LexError::NonterminatedString), lex_token("  \"\n\""));
}
