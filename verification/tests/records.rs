use code_gen::config::{expect_token, ParseError, RenderPipelineConfig};
use code_gen::lex::{LexError, Token, TokenStream};
use code_gen::PipelineConfig;

fn abc() -> RenderPipelineConfig {
    RenderPipelineConfig {
        name: "A".to_owned(),
        vs_entry: "B".to_owned(),
        fs_entry: "C".to_owned(),
    }
}

#[test]
fn record_in_declaration_order() {
    assert_eq!(
        Ok(abc()),
        RenderPipelineConfig::parse(r#"#render_pipeline(name: "A", vs_entry: "B", fs_entry: "C")"#)
    );
}

#[test]
fn record_with_trailing_comma() {
    assert_eq!(
        Ok(abc()),
        RenderPipelineConfig::parse(r#"#render_pipeline(name: "A", vs_entry: "B", fs_entry: "C",)"#)
    );
}

#[test]
fn record_in_any_order() {
    let orders = [
        r#"#render_pipeline(name: "A", fs_entry: "C", vs_entry: "B")"#,
        r#"#render_pipeline(vs_entry: "B", name: "A", fs_entry: "C")"#,
        r#"#render_pipeline(vs_entry: "B", fs_entry: "C", name: "A")"#,
        r#"#render_pipeline(fs_entry: "C", name: "A", vs_entry: "B")"#,
        r#"#render_pipeline(fs_entry: "C", vs_entry: "B", name: "A")"#,
        r#"#render_pipeline(fs_entry: "C", vs_entry: "B", name: "A",)"#,
    ];
    for src in orders {
        assert_eq!(Ok(abc()), RenderPipelineConfig::parse(src));
    }
}

#[test]
fn record_without_white_space() {
    assert_eq!(
        Ok(abc()),
        RenderPipelineConfig::parse(r#"#render_pipeline(name:"A",vs_entry:"B",fs_entry:"C")"#)
    );
}

#[test]
fn record_owns_its_strings() {
    let config = {
        let src = String::from(r#"#render_pipeline(name: "A", vs_entry: "B", fs_entry: "C")"#);
        RenderPipelineConfig::parse(&src).unwrap()
    };
    assert_eq!(abc(), config);
}

#[test]
fn record_values_may_hold_anything_but_quote_and_line_feed() {
    let config = RenderPipelineConfig::parse(
        "#render_pipeline(name: \"a b\t#(),:é🚀\", vs_entry: \"\", fs_entry: \"x\")",
    )
    .unwrap();
    assert_eq!("a b\t#(),:é🚀", config.name);
    assert_eq!("", config.vs_entry);
    assert_eq!("x", config.fs_entry);
}

#[test]
fn repeated_field_keeps_the_last_value() {
    assert_eq!(
        Ok(abc()),
        RenderPipelineConfig::parse(
            r#"#render_pipeline(name: "X", vs_entry: "B", name: "A", fs_entry: "Y", fs_entry: "C")"#
        )
    );
}

#[test]
fn empty_record_misses_name() {
    assert_eq!(
        Err(ParseError::MissingField("name")),
        RenderPipelineConfig::parse("#render_pipeline()")
    );
}

#[test]
fn missing_field_is_the_first_in_declaration_order() {
    assert_eq!(
        Err(ParseError::MissingField("vs_entry")),
        RenderPipelineConfig::parse(r#"#render_pipeline(name: "A")"#)
    );
    assert_eq!(
        Err(ParseError::MissingField("vs_entry")),
        RenderPipelineConfig::parse(r#"#render_pipeline(fs_entry: "C", name: "A")"#)
    );
    assert_eq!(
        Err(ParseError::MissingField("name")),
        RenderPipelineConfig::parse(r#"#render_pipeline(fs_entry: "C", vs_entry: "B")"#)
    );
}

#[test]
fn record_without_fs_entry() {
    assert_eq!(
        Err(ParseError::MissingField("fs_entry")),
        RenderPipelineConfig::parse(r#"#render_pipeline(name: "A", vs_entry: "B")"#)
    );
}

#[test]
fn unknown_field() {
    assert_eq!(
        Err(ParseError::UnexpectedField("foo")),
        RenderPipelineConfig::parse(r#"#render_pipeline(foo: "A")"#)
    );
}

#[test]
fn unknown_field_is_found_before_its_colon() {
    assert_eq!(
        Err(ParseError::UnexpectedField("foo")),
        RenderPipelineConfig::parse(r#"#render_pipeline(name: "A", foo)"#)
    );
}

#[test]
fn trailing_tokens() {
    assert_eq!(
        Err(ParseError::ExpectedEndOfInput(Token::RightParen)),
        RenderPipelineConfig::parse(r#"#render_pipeline(name: "A", vs_entry: "B", fs_entry: "C"))"#)
    );
    assert_eq!(
        Err(ParseError::ExpectedEndOfInput(Token::Hash)),
        RenderPipelineConfig::parse(r#"#render_pipeline()#render_pipeline()"#)
    );
}

#[test]
fn trailing_tokens_come_before_missing_fields() {
    assert_eq!(
        Err(ParseError::ExpectedEndOfInput(Token::Ident("x"))),
        RenderPipelineConfig::parse("#render_pipeline() x")
    );
}

#[test]
fn lexical_errors_are_wrapped() {
    assert_eq!(
        Err(ParseError::Lex(LexError::EndOfInput)),
        RenderPipelineConfig::parse("")
    );
    assert_eq!(
        Err(ParseError::Lex(LexError::EndOfInput)),
        RenderPipelineConfig::parse(" \t\r\n")
    );
    assert_eq!(
        Err(ParseError::Lex(LexError::InvalidChar('$'))),
        RenderPipelineConfig::parse("#render_pipeline($)")
    );
    assert_eq!(
        Err(ParseError::Lex(LexError::NonterminatedString)),
        RenderPipelineConfig::parse("#render_pipeline(name: \"A)")
    );
    assert_eq!(
        Err(ParseError::Lex(LexError::NonterminatedString)),
        RenderPipelineConfig::parse("#render_pipeline(name: \"A\n\")")
    );
}

#[test]
fn lexical_errors_come_before_all_others() {
    assert_eq!(
        Err(ParseError::Lex(LexError::InvalidChar(';'))),
        RenderPipelineConfig::parse("nonsense ;")
    );
}

#[test]
fn wrong_head() {
    assert_eq!(
        Err(ParseError::UnexpectedToken {
            found: Token::Ident("render_pipeline"),
            expected: Token::Hash
        }),
        RenderPipelineConfig::parse("render_pipeline()")
    );
    assert_eq!(
        Err(ParseError::UnexpectedToken {
            found: Token::Ident("compute_pipeline"),
            expected: Token::Ident("render_pipeline")
        }),
        RenderPipelineConfig::parse("#compute_pipeline()")
    );
    assert_eq!(
        Err(ParseError::UnexpectedToken {
            found: Token::String("render_pipeline"),
            expected: Token::Ident("render_pipeline")
        }),
        RenderPipelineConfig::parse("#\"render_pipeline\"()")
    );
    assert_eq!(
        Err(ParseError::UnexpectedToken {
            found: Token::Colon,
            expected: Token::LeftParen
        }),
        RenderPipelineConfig::parse("#render_pipeline:")
    );
}

#[test]
fn wrong_tokens_inside_the_body() {
    assert_eq!(
        Err(ParseError::UnexpectedToken {
            found: Token::String("A"),
            expected: Token::Colon
        }),
        RenderPipelineConfig::parse(r#"#render_pipeline(name "A")"#)
    );
    assert_eq!(
        Err(ParseError::UnexpectedToken {
            found: Token::Ident("A"),
            expected: Token::String("Some String")
        }),
        RenderPipelineConfig::parse("#render_pipeline(name: A)")
    );
    assert_eq!(
        Err(ParseError::UnexpectedToken {
            found: Token::Comma,
            expected: Token::Ident("ident_name")
        }),
        RenderPipelineConfig::parse(r#"#render_pipeline(name: "A",,)"#)
    );
    assert_eq!(
        Err(ParseError::UnexpectedToken {
            found: Token::Ident("vs_entry"),
            expected: Token::RightParen
        }),
        RenderPipelineConfig::parse(r#"#render_pipeline(name: "A" vs_entry: "B")"#)
    );
    assert_eq!(
        Err(ParseError::UnexpectedToken {
            found: Token::Comma,
            expected: Token::RightParen
        }),
        RenderPipelineConfig::parse("#render_pipeline(,)")
    );
    assert_eq!(
        Err(ParseError::UnexpectedToken {
            found: Token::String("A"),
            expected: Token::RightParen
        }),
        RenderPipelineConfig::parse(r#"#render_pipeline("A")"#)
    );
}

#[test]
fn tokens_run_out() {
    let cut = [
        "#",
        "#render_pipeline",
        "#render_pipeline(",
        "#render_pipeline(name",
        "#render_pipeline(name:",
        r#"#render_pipeline(name: "A""#,
        r#"#render_pipeline(name: "A","#,
    ];
    for src in cut {
        assert_eq!(Err(ParseError::EndOfInput), RenderPipelineConfig::parse(src));
    }
}

#[test]
fn lexical_error_converts() {
    assert_eq!(
        ParseError::Lex(LexError::InvalidChar('x')),
        ParseError::from(LexError::InvalidChar('x'))
    );
}

#[test]
fn expect_token_takes_the_token_either_way() {
    let mut tokens = TokenStream::new("# (").unwrap();
    assert_eq!(Ok(()), expect_token(&mut tokens, Token::Hash));
    assert_eq!(
        Err(ParseError::UnexpectedToken {
            found: Token::LeftParen,
            expected: Token::RightParen
        }),
        expect_token(&mut tokens, Token::RightParen)
    );
    assert_eq!(None, tokens.peek());
    assert_eq!(
        Err(ParseError::EndOfInput),
        expect_token(&mut tokens, Token::Hash)
    );
}

#[test]
fn expect_token_compares_the_text() {
    let mut tokens = TokenStream::new("name \"name\"").unwrap();
    assert_eq!(
        Err(ParseError::UnexpectedToken {
            found: Token::Ident("name"),
            expected: Token::String("name")
        }),
        expect_token(&mut tokens, Token::String("name"))
    );
    assert_eq!(Ok(()), expect_token(&mut tokens, Token::String("name")));
}

#[test]
fn parse_next_starts_at_the_tag() {
    let mut tokens = TokenStream::new(
        r#"render_pipeline(name: "A", vs_entry: "B", fs_entry: "C") #"#,
    )
    .unwrap();
    assert_eq!(Ok(abc()), RenderPipelineConfig::parse_next(&mut tokens));
    assert_eq!(Some(Token::Hash), tokens.next());
    assert_eq!(None, tokens.next());
}

#[test]
fn parse_next_wants_the_tag() {
    let mut tokens =
        TokenStream::new(r#"#render_pipeline(name: "A", vs_entry: "B", fs_entry: "C")"#).unwrap();
    assert_eq!(
        Err(ParseError::UnexpectedToken {
            found: Token::Hash,
            expected: Token::Ident("render_pipeline")
        }),
        RenderPipelineConfig::parse_next(&mut tokens)
    );
}

#[test]
fn parse_next_wants_every_field() {
    let mut tokens = TokenStream::new(r#"render_pipeline(name: "A")"#).unwrap();
    assert_eq!(
        Err(ParseError::MissingField("vs_entry")),
        RenderPipelineConfig::parse_next(&mut tokens)
    );
}

#[test]
fn pipeline_of_two_records() {
    let src = r#"
        render_pipeline(name: "A", vs_entry: "B", fs_entry: "C")
        render_pipeline(
            name: "TexturedPipeline",
            vs_entry: "vs_textured",
            fs_entry: "fs_textured",
        )
    "#;
    let config = PipelineConfig::from_src(src).unwrap();
    let expected = vec![
        abc(),
        RenderPipelineConfig {
            name: "TexturedPipeline".to_owned(),
            vs_entry: "vs_textured".to_owned(),
            fs_entry: "fs_textured".to_owned(),
        },
    ];
    assert_eq!(&expected, config.render_configs());
}

#[test]
fn pipeline_of_one_record() {
    let config =
        PipelineConfig::from_src(r#"render_pipeline(name: "A", vs_entry: "B", fs_entry: "C")"#)
            .unwrap();
    assert_eq!(&vec![abc()], config.render_configs());
}

#[test]
fn pipeline_ends_at_a_token_that_is_no_identifier() {
    let none: Vec<RenderPipelineConfig> = Vec::new();
    for src in [
        "#",
        ")",
        "\"text\"",
        ": render_pipeline()",
        r#"#render_pipeline(name: "A", vs_entry: "B", fs_entry: "C")"#,
    ] {
        let config = PipelineConfig::from_src(src).unwrap();
        assert_eq!(&none, config.render_configs());
    }
    let config = PipelineConfig::from_src(
        r#"render_pipeline(name: "A", vs_entry: "B", fs_entry: "C") # render_pipeline()"#,
    )
    .unwrap();
    assert_eq!(&vec![abc()], config.render_configs());
    let config = PipelineConfig::from_src(
        r#"render_pipeline(name: "A", vs_entry: "B", fs_entry: "C") ) foo"#,
    )
    .unwrap();
    assert_eq!(&vec![abc()], config.render_configs());
}

#[test]
fn pipeline_with_an_unknown_tag() {
    assert_eq!(
        Some(ParseError::UnexpectedToken {
            found: Token::Ident("foo"),
            expected: Token::Ident("render_pipeline")
        }),
        PipelineConfig::from_src("foo").err()
    );
    assert_eq!(
        Some(ParseError::UnexpectedToken {
            found: Token::Ident("compute_pipeline"),
            expected: Token::Ident("render_pipeline")
        }),
        PipelineConfig::from_src(
            r#"render_pipeline(name: "A", vs_entry: "B", fs_entry: "C") compute_pipeline()"#
        )
        .err()
    );
    assert_eq!(
        Some(ParseError::UnexpectedToken {
            found: Token::Ident("render_pipelines"),
            expected: Token::Ident("render_pipeline")
        }),
        PipelineConfig::from_src("render_pipelines()").err()
    );
}

#[test]
fn pipeline_failures() {
    assert_eq!(
        Some(ParseError::Lex(LexError::EndOfInput)),
        PipelineConfig::from_src("   ").err()
    );
    assert_eq!(
        Some(ParseError::Lex(LexError::InvalidChar('$'))),
        PipelineConfig::from_src("# $").err()
    );
    assert_eq!(
        Some(ParseError::EndOfInput),
        PipelineConfig::from_src("render_pipeline").err()
    );
    assert_eq!(
        Some(ParseError::UnexpectedToken {
            found: Token::Hash,
            expected: Token::LeftParen
        }),
        PipelineConfig::from_src("render_pipeline #").err()
    );
    assert_eq!(
        Some(ParseError::UnexpectedField("path")),
        PipelineConfig::from_src(r#"render_pipeline(path: "a.wgsl")"#).err()
    );
    assert_eq!(
        Some(ParseError::MissingField("fs_entry")),
        PipelineConfig::from_src(
            r#"render_pipeline(name: "A", vs_entry: "B") render_pipeline()"#
        )
        .err()
    );
    assert_eq!(
        Some(ParseError::MissingField("name")),
        PipelineConfig::from_src(
            r#"render_pipeline(name: "A", vs_entry: "B", fs_entry: "C") render_pipeline()"#
        )
        .err()
    );
}
