//! The record parser: `#render_pipeline(field: "value", ...)` read from a
//! token stream into a [`RenderPipelineConfig`].

use vstd::prelude::*;
use vstd::std_specs::convert::FromSpecImpl;
use crate::lex::{tokenize, Cursor, LexError, Token, TokenStream, TokenView};
use crate::token::str_eq;

verus! {

/// What a [`ParseError`] stands for.
pub enum ParseErrorView {
    Lex(LexError),
    UnexpectedToken { found: TokenView, expected: TokenView },
    UnexpectedField(Seq<char>),
    EndOfInput,
    MissingField(Seq<char>),
    ExpectedEndOfInput(TokenView),
}

/// Why an input is no record.
#[derive(Debug, Clone, Copy, PartialEq, Eq)]
pub enum ParseError<'a> {
    /// The input could not be split into tokens.
    Lex(LexError),
    /// A token other than the one that the grammar asks for.
    UnexpectedToken { found: Token<'a>, expected: Token<'a> },
    /// A field name that the record does not have.
    UnexpectedField(&'a str),
    /// The tokens ran out inside the record.
    EndOfInput,
    /// A field of the record that the input never gave.
    MissingField(&'a str),
    /// A token after the end of the record.
    ExpectedEndOfInput(Token<'a>),
}

impl<'a> View for ParseError<'a> {
    type V = ParseErrorView;

    open spec fn view(&self) -> ParseErrorView {
        match *self {
            ParseError::Lex(e) => ParseErrorView::Lex(e),
            ParseError::UnexpectedToken { found, expected } => ParseErrorView::UnexpectedToken {
                found: found@,
                expected: expected@,
            },
            ParseError::UnexpectedField(name) => ParseErrorView::UnexpectedField(name@),
            ParseError::EndOfInput => ParseErrorView::EndOfInput,
            ParseError::MissingField(name) => ParseErrorView::MissingField(name@),
            ParseError::ExpectedEndOfInput(token) => ParseErrorView::ExpectedEndOfInput(token@),
        }
    }
}

impl<'a> From<LexError> for ParseError<'a> {
    fn from(e: LexError) -> (r: Self) {
        ParseError::Lex(e)
    }
}

impl<'a> FromSpecImpl<LexError> for ParseError<'a> {
    open spec fn obeys_from_spec() -> bool {
        true
    }

    open spec fn from_spec(e: LexError) -> Self {
        ParseError::Lex(e)
    }
}

/// The fields of a record.
#[derive(Debug, Clone, Copy, PartialEq, Eq, Structural)]
pub enum Field {
    Name,
    VsEntry,
    FsEntry,
}

/// The tag that a record starts with.
pub open spec fn record_tag() -> Seq<char> {
    "render_pipeline"@
}

/// The name of a field, as the input writes it.
pub open spec fn field_name(field: Field) -> Seq<char> {
    match field {
        Field::Name => "name"@,
        Field::VsEntry => "vs_entry"@,
        Field::FsEntry => "fs_entry"@,
    }
}

/// The field that a name stands for, if it is the name of one.
pub open spec fn field_named(name: Seq<char>) -> Option<Field> {
    if name == field_name(Field::Name) {
        Some(Field::Name)
    } else if name == field_name(Field::VsEntry) {
        Some(Field::VsEntry)
    } else if name == field_name(Field::FsEntry) {
        Some(Field::FsEntry)
    } else {
        None
    }
}

/// The values that the fields have been given so far.
pub struct Slots {
    pub name: Option<Seq<char>>,
    pub vs_entry: Option<Seq<char>>,
    pub fs_entry: Option<Seq<char>>,
}

impl Slots {
    /// No field has a value.
    pub open spec fn empty() -> Slots {
        Slots { name: None, vs_entry: None, fs_entry: None }
    }

    /// The slots with `field` set to `value`, whatever it held before.
    pub open spec fn set(self, field: Field, value: Seq<char>) -> Slots {
        match field {
            Field::Name => Slots { name: Some(value), ..self },
            Field::VsEntry => Slots { vs_entry: Some(value), ..self },
            Field::FsEntry => Slots { fs_entry: Some(value), ..self },
        }
    }

    /// The record that the slots hold, or the first field, in the order of
    /// declaration, that has no value.
    pub open spec fn finish(self) -> Result<ConfigView, ParseErrorView> {
        if self.name is None {
            Err(ParseErrorView::MissingField(field_name(Field::Name)))
        } else if self.vs_entry is None {
            Err(ParseErrorView::MissingField(field_name(Field::VsEntry)))
        } else if self.fs_entry is None {
            Err(ParseErrorView::MissingField(field_name(Field::FsEntry)))
        } else {
            Ok(
                ConfigView {
                    name: self.name->0,
                    vs_entry: self.vs_entry->0,
                    fs_entry: self.fs_entry->0,
                },
            )
        }
    }
}

/// What a [`RenderPipelineConfig`] stands for.
pub struct ConfigView {
    pub name: Seq<char>,
    pub vs_entry: Seq<char>,
    pub fs_entry: Seq<char>,
}

/// Whether the next token of `cursor` is `expected`.
pub open spec fn expect(cursor: Cursor, expected: TokenView) -> Result<(), ParseErrorView> {
    match cursor.peek() {
        Some(found) => if found == expected {
            Ok(())
        } else {
            Err(ParseErrorView::UnexpectedToken { found, expected })
        },
        None => Err(ParseErrorView::EndOfInput),
    }
}

/// The token that stands for "an identifier" in an error.
pub open spec fn any_ident() -> TokenView {
    TokenView::Ident("ident_name"@)
}

/// The token that stands for "a string literal" in an error.
pub open spec fn any_string() -> TokenView {
    TokenView::String("Some String"@)
}

/// One field, `name: "value"`, read at `cursor` into `slots`.
pub open spec fn field(cursor: Cursor, slots: Slots) -> Result<(Cursor, Slots), ParseErrorView> {
    match cursor.peek() {
        Some(TokenView::Ident(name)) => match field_named(name) {
            None => Err(ParseErrorView::UnexpectedField(name)),
            Some(which) => match expect(cursor.advance(), TokenView::Colon) {
                Err(e) => Err(e),
                Ok(()) => match cursor.advance().advance().peek() {
                    Some(TokenView::String(value)) => Ok(
                        (cursor.advance().advance().advance(), slots.set(which, value)),
                    ),
                    Some(found) => Err(
                        ParseErrorView::UnexpectedToken { found, expected: any_string() },
                    ),
                    None => Err(ParseErrorView::EndOfInput),
                },
            },
        },
        Some(found) => Err(ParseErrorView::UnexpectedToken { found, expected: any_ident() }),
        None => Err(ParseErrorView::EndOfInput),
    }
}

/// The fields that follow the first one, each after a comma. A comma that
/// the closing parenthesis follows is taken too, and ends the list.
pub open spec fn more_fields(cursor: Cursor, slots: Slots) -> Result<
    (Cursor, Slots),
    ParseErrorView,
>
    decreases cursor.pending().len(),
{
    if cursor.peek() == Some(TokenView::Comma) {
        let next = cursor.advance();
        if next.peek() == Some(TokenView::RightParen) {
            Ok((next, slots))
        } else {
            match field(next, slots) {
                Err(e) => Err(e),
                Ok((after, filled)) => more_fields(after, filled),
            }
        }
    } else {
        Ok((cursor, slots))
    }
}

/// Reading more fields keeps the tokens and never moves the cursor back.
pub proof fn lemma_more_fields_moves(cursor: Cursor, slots: Slots)
    ensures
        more_fields(cursor, slots) matches Ok((end, _)) ==> end.tokens == cursor.tokens
            && cursor.index <= end.index && end.pending().len() <= cursor.pending().len(),
    decreases cursor.pending().len(),
{
    if cursor.peek() == Some(TokenView::Comma) {
        let next = cursor.advance();
        if next.peek() != Some(TokenView::RightParen) {
            if let Ok((after, filled)) = field(next, slots) {
                lemma_more_fields_moves(after, filled);
            }
        }
    }
}

/// The body of a record, `( fields )`, read at `cursor` into `slots`.
pub open spec fn body(cursor: Cursor, slots: Slots) -> Result<(Cursor, Slots), ParseErrorView> {
    match expect(cursor, TokenView::LeftParen) {
        Err(e) => Err(e),
        Ok(()) => {
            let open = cursor.advance();
            let fields = if open.peek() matches Some(TokenView::Ident(_)) {
                match field(open, slots) {
                    Err(e) => Err(e),
                    Ok((after, filled)) => more_fields(after, filled),
                }
            } else {
                Ok((open, slots))
            };
            match fields {
                Err(e) => Err(e),
                Ok((close, filled)) => match expect(close, TokenView::RightParen) {
                    Err(e) => Err(e),
                    Ok(()) => Ok((close.advance(), filled)),
                },
            }
        },
    }
}

/// A record from its tag on, `render_pipeline ( fields )`, read at
/// `cursor`.
pub open spec fn tagged(cursor: Cursor) -> Result<(Cursor, Slots), ParseErrorView> {
    match expect(cursor, TokenView::Ident(record_tag())) {
        Err(e) => Err(e),
        Ok(()) => body(cursor.advance(), Slots::empty()),
    }
}

/// A whole record, `# render_pipeline ( fields )`, read at `cursor`.
pub open spec fn record(cursor: Cursor) -> Result<(Cursor, Slots), ParseErrorView> {
    match expect(cursor, TokenView::Hash) {
        Err(e) => Err(e),
        Ok(()) => tagged(cursor.advance()),
    }
}

/// Reading a record from its tag on keeps the tokens and moves the cursor
/// forward.
pub proof fn lemma_tagged_moves(cursor: Cursor)
    ensures
        tagged(cursor) matches Ok((end, _)) ==> end.tokens == cursor.tokens && cursor.index
            < end.index && end.pending().len() < cursor.pending().len(),
{
    let open = cursor.advance().advance();
    if open.peek() matches Some(TokenView::Ident(_)) {
        if let Ok((after, filled)) = field(open, Slots::empty()) {
            lemma_more_fields_moves(after, filled);
        }
    }
}

/// The record that the tokens spell, and nothing after it.
pub open spec fn whole_record(tokens: Seq<TokenView>) -> Result<ConfigView, ParseErrorView> {
    match record(Cursor { tokens, index: 0 }) {
        Err(e) => Err(e),
        Ok((end, slots)) => match end.peek() {
            Some(token) => Err(ParseErrorView::ExpectedEndOfInput(token)),
            None => slots.finish(),
        },
    }
}

/// The record that the text spells: what [`RenderPipelineConfig::parse`]
/// returns on a string that holds the code points `s`.
pub open spec fn parsed(s: Seq<char>) -> Result<ConfigView, ParseErrorView> {
    match tokenize(s) {
        Err(e) => Err(ParseErrorView::Lex(e)),
        Ok(tokens) => whole_record(tokens),
    }
}

/// Takes the next token and checks that it is `expected`.
pub fn expect_token<'a>(tokens: &mut TokenStream<'a>, expected: Token<'a>) -> (r: Result<
    (),
    ParseError<'a>,
>)
    ensures
        final(tokens)@ == old(tokens)@.advance(),
        match r {
            Ok(()) => expect(old(tokens)@, expected@) == Ok::<(), ParseErrorView>(()),
            Err(e) => expect(old(tokens)@, expected@) == Err::<(), ParseErrorView>(e@),
        },
{
    match tokens.next() {
        Some(t) => {
            if t == expected {
                Ok(())
            } else {
                Err(ParseError::UnexpectedToken { found: t, expected })
            }
        },
        None => Err(ParseError::EndOfInput),
    }
}

/// The values that the fields of a record have been given so far, each
/// borrowed from the input.
struct FieldSlots<'a> {
    name: Option<&'a str>,
    vs_entry: Option<&'a str>,
    fs_entry: Option<&'a str>,
}

/// The code points of an optional string.
pub open spec fn text_of(o: Option<&str>) -> Option<Seq<char>> {
    match o {
        Some(s) => Some(s@),
        None => None,
    }
}

impl<'a> View for FieldSlots<'a> {
    type V = Slots;

    closed spec fn view(&self) -> Slots {
        Slots {
            name: text_of(self.name),
            vs_entry: text_of(self.vs_entry),
            fs_entry: text_of(self.fs_entry),
        }
    }
}

impl<'a> FieldSlots<'a> {
    fn new() -> (r: Self)
        ensures
            r@ == Slots::empty(),
    {
        FieldSlots { name: None, vs_entry: None, fs_entry: None }
    }

    /// Gives `field` the value `value`; a value that it had is lost.
    fn set(&mut self, field: Field, value: &'a str)
        ensures
            final(self)@ == old(self)@.set(field, value@),
    {
        match field {
            Field::Name => {
                self.name = Some(value);
            },
            Field::VsEntry => {
                self.vs_entry = Some(value);
            },
            Field::FsEntry => {
                self.fs_entry = Some(value);
            },
        }
    }

    /// The record, once every field has a value.
    fn finish(self) -> (r: Result<RenderPipelineConfig, ParseError<'a>>)
        ensures
            match r {
                Ok(config) => self@.finish() == Ok::<ConfigView, ParseErrorView>(config@),
                Err(e) => self@.finish() == Err::<ConfigView, ParseErrorView>(e@),
            },
    {
        let name = match self.name {
            Some(name) => name,
            None => {
                return Err(ParseError::MissingField("name"));
            },
        };
        let vs_entry = match self.vs_entry {
            Some(vs_entry) => vs_entry,
            None => {
                return Err(ParseError::MissingField("vs_entry"));
            },
        };
        let fs_entry = match self.fs_entry {
            Some(fs_entry) => fs_entry,
            None => {
                return Err(ParseError::MissingField("fs_entry"));
            },
        };
        Ok(
            RenderPipelineConfig {
                name: name.to_owned(),
                vs_entry: vs_entry.to_owned(),
                fs_entry: fs_entry.to_owned(),
            },
        )
    }
}

/// The field that `name` is the name of.
fn field_of(name: &str) -> (r: Option<Field>)
    ensures
        r == field_named(name@),
{
    if str_eq(name, "name") {
        Some(Field::Name)
    } else if str_eq(name, "vs_entry") {
        Some(Field::VsEntry)
    } else if str_eq(name, "fs_entry") {
        Some(Field::FsEntry)
    } else {
        None
    }
}

/// Reads one field, `name: "value"`, into `slots`.
fn parse_field<'a>(tokens: &mut TokenStream<'a>, slots: &mut FieldSlots<'a>) -> (r: Result<
    (),
    ParseError<'a>,
>)
    ensures
        final(tokens)@.tokens == old(tokens)@.tokens,
        match r {
            Ok(()) => field(old(tokens)@, old(slots)@) == Ok::<(Cursor, Slots), ParseErrorView>(
                (final(tokens)@, final(slots)@),
            ),
            Err(e) => field(old(tokens)@, old(slots)@) == Err::<(Cursor, Slots), ParseErrorView>(
                e@,
            ),
        },
{
    let name = match tokens.next() {
        Some(Token::Ident(name)) => name,
        Some(t) => {
            return Err(
                ParseError::UnexpectedToken { found: t, expected: Token::Ident("ident_name") },
            );
        },
        None => {
            return Err(ParseError::EndOfInput);
        },
    };
    let which = match field_of(name) {
        Some(which) => which,
        None => {
            return Err(ParseError::UnexpectedField(name));
        },
    };
    expect_token(tokens, Token::Colon)?;
    let value = match tokens.next() {
        Some(Token::String(value)) => value,
        Some(t) => {
            return Err(
                ParseError::UnexpectedToken { found: t, expected: Token::String("Some String") },
            );
        },
        None => {
            return Err(ParseError::EndOfInput);
        },
    };
    slots.set(which, value);
    Ok(())
}

/// Reads the body of a record, `( fields )`, into `slots`.
fn parse_struct<'a>(tokens: &mut TokenStream<'a>, slots: &mut FieldSlots<'a>) -> (r: Result<
    (),
    ParseError<'a>,
>)
    ensures
        final(tokens)@.tokens == old(tokens)@.tokens,
        match r {
            Ok(()) => body(old(tokens)@, old(slots)@) == Ok::<(Cursor, Slots), ParseErrorView>(
                (final(tokens)@, final(slots)@),
            ),
            Err(e) => body(old(tokens)@, old(slots)@) == Err::<(Cursor, Slots), ParseErrorView>(
                e@,
            ),
        },
{
    expect_token(tokens, Token::LeftParen)?;
    if let Some(Token::Ident(_)) = tokens.peek() {
        parse_field(tokens, slots)?;
        let ghost first = (tokens@, slots@);
        loop
            invariant
                tokens@.tokens == old(tokens)@.tokens,
                more_fields(first.0, first.1) == more_fields(tokens@, slots@),
                body(old(tokens)@, old(slots)@) == match more_fields(first.0, first.1) {
                    Err(e) => Err::<(Cursor, Slots), ParseErrorView>(e),
                    Ok((close, filled)) => match expect(close, TokenView::RightParen) {
                        Err(e) => Err(e),
                        Ok(()) => Ok((close.advance(), filled)),
                    },
                },
            ensures
                tokens@.tokens == old(tokens)@.tokens,
                more_fields(first.0, first.1) == Ok::<(Cursor, Slots), ParseErrorView>(
                    (tokens@, slots@),
                ),
                body(old(tokens)@, old(slots)@) == match more_fields(first.0, first.1) {
                    Err(e) => Err::<(Cursor, Slots), ParseErrorView>(e),
                    Ok((close, filled)) => match expect(close, TokenView::RightParen) {
                        Err(e) => Err(e),
                        Ok(()) => Ok((close.advance(), filled)),
                    },
                },
            decreases tokens@.pending().len(),
        {
            match tokens.peek() {
                Some(Token::Comma) => {},
                _ => {
                    break ;
                },
            }
            let _ = tokens.next();
            if let Some(Token::RightParen) = tokens.peek() {
                break ;
            }
            parse_field(tokens, slots)?;
        }
    }
    expect_token(tokens, Token::RightParen)?;
    Ok(())
}

/// Reads a record from its tag on, `render_pipeline ( fields )`.
fn parse_tagged<'a>(tokens: &mut TokenStream<'a>) -> (r: Result<FieldSlots<'a>, ParseError<'a>>)
    ensures
        final(tokens)@.tokens == old(tokens)@.tokens,
        match r {
            Ok(slots) => tagged(old(tokens)@) == Ok::<(Cursor, Slots), ParseErrorView>(
                (final(tokens)@, slots@),
            ),
            Err(e) => tagged(old(tokens)@) == Err::<(Cursor, Slots), ParseErrorView>(e@),
        },
{
    let mut slots = FieldSlots::new();
    expect_token(tokens, Token::Ident("render_pipeline"))?;
    parse_struct(tokens, &mut slots)?;
    Ok(slots)
}

/// Reads a whole record, `# render_pipeline ( fields )`.
fn parse_record<'a>(tokens: &mut TokenStream<'a>) -> (r: Result<FieldSlots<'a>, ParseError<'a>>)
    ensures
        final(tokens)@.tokens == old(tokens)@.tokens,
        match r {
            Ok(slots) => record(old(tokens)@) == Ok::<(Cursor, Slots), ParseErrorView>(
                (final(tokens)@, slots@),
            ),
            Err(e) => record(old(tokens)@) == Err::<(Cursor, Slots), ParseErrorView>(e@),
        },
{
    expect_token(tokens, Token::Hash)?;
    parse_tagged(tokens)
}

/// The settings of one render pipeline: its name and the entry points of
/// its vertex and fragment shaders.
#[derive(Debug, Clone, PartialEq, Eq)]
pub struct RenderPipelineConfig {
    pub name: String,
    pub vs_entry: String,
    pub fs_entry: String,
}

impl View for RenderPipelineConfig {
    type V = ConfigView;

    open spec fn view(&self) -> ConfigView {
        ConfigView { name: self.name@, vs_entry: self.vs_entry@, fs_entry: self.fs_entry@ }
    }
}

/// One record with all of its fields, read from its tag on at `cursor`.
pub open spec fn tagged_record(cursor: Cursor) -> Result<(Cursor, ConfigView), ParseErrorView> {
    match tagged(cursor) {
        Err(e) => Err(e),
        Ok((end, slots)) => match slots.finish() {
            Err(e) => Err(e),
            Ok(config) => Ok((end, config)),
        },
    }
}

impl RenderPipelineConfig {
    /// Reads one record from a stream that stands at the record's tag,
    /// `render_pipeline ( fields )`, and leaves the stream after it.
    pub fn parse_next<'a>(tokens: &mut TokenStream<'a>) -> (r: Result<Self, ParseError<'a>>)
        ensures
            final(tokens)@.tokens == old(tokens)@.tokens,
            match r {
                Ok(config) => tagged_record(old(tokens)@) == Ok::<
                    (Cursor, ConfigView),
                    ParseErrorView,
                >((final(tokens)@, config@)),
                Err(e) => tagged_record(old(tokens)@) == Err::<
                    (Cursor, ConfigView),
                    ParseErrorView,
                >(e@),
            },
    {
        let slots = parse_tagged(tokens)?;
        slots.finish()
    }

    /// Reads one record from `src`, which must hold nothing else.
    pub fn parse<'a>(src: &'a str) -> (r: Result<Self, ParseError<'a>>)
        ensures
            match r {
                Ok(config) => parsed(src@) == Ok::<ConfigView, ParseErrorView>(config@),
                Err(e) => parsed(src@) == Err::<ConfigView, ParseErrorView>(e@),
            },
    {
        let mut tokens = match TokenStream::new(src) {
            Ok(tokens) => tokens,
            Err(e) => {
                return Err(ParseError::from(e));
            },
        };
        let slots = parse_record(&mut tokens)?;
        if let Some(t) = tokens.next() {
            return Err(ParseError::ExpectedEndOfInput(t));
        }
        slots.finish()
    }
}

} // verus!
