//! A pipeline description: the records of one input, in their order.

use vstd::prelude::*;
use crate::config::{
    lemma_tagged_moves, record_tag, tagged_record, ConfigView, ParseError, ParseErrorView,
    RenderPipelineConfig,
};
use crate::lex::{tokenize, Cursor, Token, TokenStream, TokenView};
use crate::token::str_eq;

verus! {

/// The failure on an identifier that is no tag of a record.
pub open spec fn unknown_tag(name: Seq<char>) -> ParseErrorView {
    ParseErrorView::UnexpectedToken {
        found: TokenView::Ident(name),
        expected: TokenView::Ident(record_tag()),
    }
}

/// The records that the tokens from `cursor` on spell. Each stands at an
/// identifier, its tag. The end of the tokens or a token that is no
/// identifier ends the list; an identifier that is no tag is a failure.
pub open spec fn records(cursor: Cursor) -> Result<Seq<ConfigView>, ParseErrorView>
    decreases cursor.pending().len(),
{
    match cursor.peek() {
        Some(TokenView::Ident(name)) => if name == record_tag() {
            match tagged_record(cursor) {
                Err(e) => Err(e),
                Ok((next, config)) => match {
                    proof {
                        lemma_tagged_moves(cursor);
                    }
                    records(next)
                } {
                    Err(e) => Err(e),
                    Ok(more) => Ok(seq![config] + more),
                },
            }
        } else {
            Err(unknown_tag(name))
        },
        _ => Ok(Seq::empty()),
    }
}

/// The records that the text spells: what [`PipelineConfig::from_src`]
/// holds on a string with the code points `s`.
pub open spec fn described(s: Seq<char>) -> Result<Seq<ConfigView>, ParseErrorView> {
    match tokenize(s) {
        Err(e) => Err(ParseErrorView::Lex(e)),
        Ok(tokens) => records(Cursor { tokens, index: 0 }),
    }
}

/// The views of a sequence of records.
pub open spec fn config_views(configs: Seq<RenderPipelineConfig>) -> Seq<ConfigView> {
    configs.map_values(|c: RenderPipelineConfig| c@)
}

/// The render pipelines that one input describes.
pub struct PipelineConfig {
    render_configs: Vec<RenderPipelineConfig>,
}

impl View for PipelineConfig {
    type V = Seq<ConfigView>;

    closed spec fn view(&self) -> Seq<ConfigView> {
        config_views(self.render_configs@)
    }
}

impl PipelineConfig {
    /// Reads the records of `src`, each from its tag on:
    /// `render_pipeline ( fields )`. The end of the input or a token that
    /// is no identifier, a `#` too, ends the reading with the records so
    /// far. An identifier other than `render_pipeline` is a failure, and
    /// so is an input without any token.
    pub fn from_src<'a>(src: &'a str) -> (r: Result<Self, ParseError<'a>>)
        ensures
            match r {
                Ok(config) => described(src@) == Ok::<Seq<ConfigView>, ParseErrorView>(config@),
                Err(e) => described(src@) == Err::<Seq<ConfigView>, ParseErrorView>(e@),
            },
    {
        let mut render_configs: Vec<RenderPipelineConfig> = Vec::new();
        let mut tokens = match TokenStream::new(src) {
            Ok(tokens) => tokens,
            Err(e) => {
                return Err(ParseError::from(e));
            },
        };
        let ghost first = tokens@;
        proof {
            assert(config_views(render_configs@) =~= Seq::<ConfigView>::empty());
            lemma_records_step(Seq::empty(), first);
            assert(first == Cursor { tokens: first.tokens, index: 0 });
        }
        loop
            invariant
                tokens@.tokens == first.tokens,
                described(src@) == records(first),
                records(first) == after(config_views(render_configs@), records(tokens@)),
            decreases tokens@.pending().len(),
        {
            let ghost done = config_views(render_configs@);
            proof {
                lemma_records_step(done, tokens@);
            }
            let name = match tokens.peek() {
                Some(Token::Ident(name)) => name,
                _ => {
                    return Ok(Self { render_configs });
                },
            };
            if !str_eq(name, "render_pipeline") {
                return Err(
                    ParseError::UnexpectedToken {
                        found: Token::Ident(name),
                        expected: Token::Ident("render_pipeline"),
                    },
                );
            }
            let config = RenderPipelineConfig::parse_next(&mut tokens)?;
            render_configs.push(config);
            proof {
                assert(config_views(render_configs@) =~= done.push(config@));
            }
        }
    }

    /// The records, in the order of the input.
    pub fn render_configs(&self) -> (r: &Vec<RenderPipelineConfig>)
        ensures
            config_views(r@) == self@,
    {
        &self.render_configs
    }
}

/// The records `done` followed by those of `more`, if there was no
/// failure.
pub open spec fn after(done: Seq<ConfigView>, more: Result<Seq<ConfigView>, ParseErrorView>) -> Result<
    Seq<ConfigView>,
    ParseErrorView,
> {
    match more {
        Ok(configs) => Ok(done + configs),
        Err(e) => Err(e),
    }
}

/// How the records from `cursor` on, read after the records `done`,
/// unfold by one record; a record moves the cursor forward.
pub proof fn lemma_records_step(done: Seq<ConfigView>, cursor: Cursor)
    ensures
        after(Seq::empty(), records(cursor)) == records(cursor),
        match cursor.peek() {
            Some(TokenView::Ident(name)) => if name == record_tag() {
                match tagged_record(cursor) {
                    Ok((next, config)) => next.pending().len() < cursor.pending().len() && after(
                        done,
                        records(cursor),
                    ) == after(done.push(config), records(next)),
                    Err(e) => after(done, records(cursor)) == Err::<
                        Seq<ConfigView>,
                        ParseErrorView,
                    >(e),
                }
            } else {
                after(done, records(cursor)) == Err::<Seq<ConfigView>, ParseErrorView>(
                    unknown_tag(name),
                )
            },
            _ => after(done, records(cursor)) == Ok::<Seq<ConfigView>, ParseErrorView>(done),
        },
{
    if let Ok(all) = records(cursor) {
        assert(Seq::<ConfigView>::empty() + all =~= all);
    }
    match cursor.peek() {
        Some(TokenView::Ident(name)) => {
            if name == record_tag() {
                if let Ok((next, config)) = tagged_record(cursor) {
                    lemma_tagged_moves(cursor);
                    if let Ok(more) = records(next) {
                        assert(done + (seq![config] + more) =~= done.push(config) + more);
                    }
                }
            }
        },
        _ => {
            assert(done + Seq::<ConfigView>::empty() =~= done);
        },
    }
}

} // verus!
