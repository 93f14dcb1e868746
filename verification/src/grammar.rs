//! The grammar of records as sequences of tokens, and the proof that the
//! record parser reads exactly what the grammar writes.

use vstd::prelude::*;
use crate::config::{
    body, field, field_name, field_named, more_fields, record_tag, whole_record, Field,
    ParseErrorView, Slots,
};
use crate::lex::{Cursor, TokenView};

verus! {

/// A field with the value that the input gives it.
pub type Entry = (Field, Seq<char>);

/// The tokens of one field: `name : "value"`.
pub open spec fn entry_tokens(entry: Entry) -> Seq<TokenView> {
    seq![TokenView::Ident(field_name(entry.0)), TokenView::Colon, TokenView::String(entry.1)]
}

/// The tokens of the fields after the first: each behind a comma.
pub open spec fn more_tokens(entries: Seq<Entry>) -> Seq<TokenView>
    decreases entries.len(),
{
    if entries.len() == 0 {
        Seq::empty()
    } else {
        seq![TokenView::Comma] + entry_tokens(entries[0]) + more_tokens(entries.drop_first())
    }
}

/// One comma, where `trailing` is set.
pub open spec fn comma_if(trailing: bool) -> Seq<TokenView> {
    if trailing {
        seq![TokenView::Comma]
    } else {
        Seq::empty()
    }
}

/// The tokens between the parentheses: nothing, or the fields with commas
/// between them and, where `trailing` is set, one comma behind them.
pub open spec fn list_tokens(entries: Seq<Entry>, trailing: bool) -> Seq<TokenView> {
    if entries.len() == 0 {
        Seq::empty()
    } else {
        entry_tokens(entries[0]) + more_tokens(entries.drop_first()) + comma_if(trailing)
    }
}

/// The tokens of a record with the given fields.
pub open spec fn record_tokens(entries: Seq<Entry>, trailing: bool) -> Seq<TokenView> {
    seq![TokenView::Hash, TokenView::Ident(record_tag()), TokenView::LeftParen] + list_tokens(
        entries,
        trailing,
    ) + seq![TokenView::RightParen]
}

/// The slots after the fields were set one after the other: of a field
/// that comes twice the later value stays.
pub open spec fn filled(slots: Slots, entries: Seq<Entry>) -> Slots
    decreases entries.len(),
{
    if entries.len() == 0 {
        slots
    } else {
        filled(slots.set(entries[0].0, entries[0].1), entries.drop_first())
    }
}

/// Each field is found by its own name.
pub proof fn lemma_field_names(which: Field)
    ensures
        field_named(field_name(which)) == Some(which),
{
    reveal_strlit("name");
    reveal_strlit("vs_entry");
    reveal_strlit("fs_entry");
    assert("name"@.len() == 4);
    assert("vs_entry"@.len() == 8);
    assert("vs_entry"@[0] == 'v');
    assert("fs_entry"@[0] == 'f');
}

/// The fields after the first take four tokens each.
proof fn lemma_more_tokens_len(entries: Seq<Entry>)
    ensures
        more_tokens(entries).len() == 4 * entries.len(),
    decreases entries.len(),
{
    if entries.len() > 0 {
        lemma_more_tokens_len(entries.drop_first());
    }
}

/// One field is read from the three tokens that spell it.
proof fn lemma_field_read(tokens: Seq<TokenView>, at: int, entry: Entry, slots: Slots)
    requires
        0 <= at,
        at + 3 <= tokens.len(),
        tokens.subrange(at, at + 3) == entry_tokens(entry),
    ensures
        field(Cursor { tokens, index: at }, slots) == Ok::<(Cursor, Slots), ParseErrorView>(
            (Cursor { tokens, index: at + 3 }, slots.set(entry.0, entry.1)),
        ),
{
    let part = tokens.subrange(at, at + 3);
    assert(tokens[at] == part[0]);
    assert(tokens[at + 1] == part[1]);
    assert(tokens[at + 2] == part[2]);
    lemma_field_names(entry.0);
}

/// The fields after the first are read from the tokens that spell them,
/// up to the closing parenthesis.
proof fn lemma_more_fields_read(
    tokens: Seq<TokenView>,
    at: int,
    entries: Seq<Entry>,
    trailing: bool,
    slots: Slots,
)
    requires
        0 <= at,
        at + 4 * entries.len() + (if trailing {
            1int
        } else {
            0int
        }) < tokens.len(),
        tokens.subrange(at, at + 4 * entries.len()) == more_tokens(entries),
        trailing ==> tokens[at + 4 * entries.len()] == TokenView::Comma,
        tokens[at + 4 * entries.len() + (if trailing {
            1int
        } else {
            0int
        })] == TokenView::RightParen,
    ensures
        more_fields(Cursor { tokens, index: at }, slots) == Ok::<(Cursor, Slots), ParseErrorView>(
            (
                Cursor {
                    tokens,
                    index: at + 4 * entries.len() + (if trailing {
                        1int
                    } else {
                        0int
                    }),
                },
                filled(slots, entries),
            ),
        ),
    decreases entries.len(),
{
    if entries.len() > 0 {
        let rest = entries.drop_first();
        let part = tokens.subrange(at, at + 4 * entries.len());
        lemma_more_tokens_len(rest);
        assert(tokens[at] == part[0]);
        assert(tokens[at + 1] == part[1]);
        assert(tokens.subrange(at + 1, at + 4) =~= part.subrange(1, 4));
        assert(part.subrange(1, 4) =~= entry_tokens(entries[0]));
        assert(tokens.subrange(at + 4, at + 4 + 4 * rest.len()) =~= part.subrange(
            4,
            part.len() as int,
        ));
        assert(part.subrange(4, part.len() as int) =~= more_tokens(rest));
        lemma_field_read(tokens, at + 1, entries[0], slots);
        lemma_more_fields_read(
            tokens,
            at + 4,
            rest,
            trailing,
            slots.set(entries[0].0, entries[0].1),
        );
    }
}

/// A record that the grammar writes is read as the record of its fields:
/// in whatever order they stand, with or without a comma behind the last,
/// and with the later value of a field that comes twice. Where a field is
/// missing, the first one missing in the order of declaration is named.
pub proof fn theorem_written_record(entries: Seq<Entry>, trailing: bool)
    requires
        trailing ==> entries.len() > 0,
    ensures
        whole_record(record_tokens(entries, trailing)) == filled(Slots::empty(), entries).finish(),
{
    let tokens = record_tokens(entries, trailing);
    let list = list_tokens(entries, trailing);
    let start = Cursor { tokens, index: 0 };
    assert(tokens[0] == TokenView::Hash);
    assert(tokens[1] == TokenView::Ident(record_tag()));
    assert(tokens[2] == TokenView::LeftParen);
    let n = list.len() as int;
    assert(tokens.len() == 4 + n);
    assert(tokens[3 + n] == TokenView::RightParen);
    assert(tokens.subrange(3, 3 + n) =~= list);
    if entries.len() == 0 {
        assert(start.advance().advance().advance().peek() == Some(TokenView::RightParen));
    } else {
        let rest = entries.drop_first();
        let extra = if trailing {
            1int
        } else {
            0int
        };
        let m = 4 * rest.len() as int;
        lemma_more_tokens_len(rest);
        assert(n == 3 + m + extra);
        assert(tokens.subrange(3, 6) =~= entry_tokens(entries[0]));
        assert(tokens[3] == entry_tokens(entries[0])[0]);
        assert(tokens.subrange(6, 6 + m) =~= more_tokens(rest));
        if trailing {
            assert(tokens[6 + m] == list[3 + m]);
        }
        lemma_field_read(tokens, 3, entries[0], Slots::empty());
        lemma_more_fields_read(
            tokens,
            6,
            rest,
            trailing,
            Slots::empty().set(entries[0].0, entries[0].1),
        );
        let end = Cursor { tokens, index: 6 + m + extra };
        assert(end.peek() == Some(TokenView::RightParen));
        assert(body(Cursor { tokens, index: 2 }, Slots::empty()) == Ok::<
            (Cursor, Slots),
            ParseErrorView,
        >((end.advance(), filled(Slots::empty(), entries))));
    }
}

/// A field that was read stands in the tokens as the grammar writes it.
proof fn lemma_field_written(cursor: Cursor, slots: Slots) -> (entry: Entry)
    requires
        field(cursor, slots) is Ok,
    ensures
        0 <= cursor.index,
        cursor.index + 3 <= cursor.tokens.len(),
        cursor.tokens.subrange(cursor.index, cursor.index + 3) == entry_tokens(entry),
        field(cursor, slots) == Ok::<(Cursor, Slots), ParseErrorView>(
            (
                Cursor { tokens: cursor.tokens, index: cursor.index + 3 },
                slots.set(entry.0, entry.1),
            ),
        ),
{
    let tokens = cursor.tokens;
    let at = cursor.index;
    let name = tokens[at]->Ident_0;
    let which = field_named(name)->0;
    let value = tokens[at + 2]->String_0;
    let entry = (which, value);
    assert(tokens.subrange(at, at + 3) =~= entry_tokens(entry));
    entry
}

/// The fields after the first that were read stand in the tokens as the
/// grammar writes them, with at most one comma behind them.
proof fn lemma_more_fields_written(cursor: Cursor, slots: Slots) -> (written: (
    Seq<Entry>,
    bool,
))
    requires
        more_fields(cursor, slots) is Ok,
        0 <= cursor.index <= cursor.tokens.len(),
    ensures
        more_fields(cursor, slots) matches Ok((end, out)) && {
            &&& end.tokens == cursor.tokens
            &&& end.index == cursor.index + 4 * written.0.len() + comma_if(written.1).len()
            &&& end.index <= cursor.tokens.len()
            &&& cursor.tokens.subrange(cursor.index, end.index) == more_tokens(written.0)
                + comma_if(written.1)
            &&& out == filled(slots, written.0)
            &&& end.peek() != Some(TokenView::Comma)
        },
    decreases cursor.pending().len(),
{
    let tokens = cursor.tokens;
    let at = cursor.index;
    if cursor.peek() == Some(TokenView::Comma) {
        let next = cursor.advance();
        if next.peek() == Some(TokenView::RightParen) {
            let written = (Seq::<Entry>::empty(), true);
            assert(tokens.subrange(at, at + 1) =~= more_tokens(written.0) + comma_if(true));
            written
        } else {
            let entry = lemma_field_written(next, slots);
            let after = Cursor { tokens, index: at + 4 };
            let rest = lemma_more_fields_written(after, slots.set(entry.0, entry.1));
            let end = more_fields(cursor, slots)->Ok_0.0;
            let entries = seq![entry] + rest.0;
            assert(entries.drop_first() =~= rest.0);
            lemma_more_tokens_len(rest.0);
            assert(tokens.subrange(at, end.index) =~= seq![TokenView::Comma] + tokens.subrange(
                at + 1,
                at + 4,
            ) + tokens.subrange(at + 4, end.index));
            assert(seq![TokenView::Comma] + entry_tokens(entry) + (more_tokens(rest.0) + comma_if(
                rest.1,
            )) =~= more_tokens(entries) + comma_if(rest.1));
            (entries, rest.1)
        }
    } else {
        let written = (Seq::<Entry>::empty(), false);
        assert(tokens.subrange(at, at) =~= more_tokens(written.0) + comma_if(false));
        written
    }
}

/// A sequence of tokens that is read as a record is a record that the
/// grammar writes, with at least one field, and the record read is the
/// one of its fields.
pub proof fn theorem_read_record(tokens: Seq<TokenView>) -> (written: (Seq<Entry>, bool))
    requires
        whole_record(tokens) is Ok,
    ensures
        tokens == record_tokens(written.0, written.1),
        written.0.len() > 0,
        whole_record(tokens) == filled(Slots::empty(), written.0).finish(),
{
    let open = Cursor { tokens, index: 3 };
    assert(tokens[0] == TokenView::Hash);
    assert(tokens[1] == TokenView::Ident(record_tag()));
    assert(tokens[2] == TokenView::LeftParen);
    let head = seq![TokenView::Hash, TokenView::Ident(record_tag()), TokenView::LeftParen];
    assert(tokens.subrange(0, 3) =~= head);
    // Without a first field no slot is filled, and the record misses its name.
    assert(open.peek() matches Some(TokenView::Ident(_)));
    let first = lemma_field_written(open, Slots::empty());
    let after = Cursor { tokens, index: 6 };
    let rest = lemma_more_fields_written(after, Slots::empty().set(first.0, first.1));
    let end = more_fields(after, Slots::empty().set(first.0, first.1))->Ok_0.0;
    let entries = seq![first] + rest.0;
    assert(entries.drop_first() =~= rest.0);
    assert(end.peek() == Some(TokenView::RightParen));
    assert(end.advance().peek() is None);
    assert(tokens.len() == end.index + 1);
    assert(list_tokens(entries, rest.1) =~= entry_tokens(first) + (more_tokens(rest.0) + comma_if(
        rest.1,
    )));
    assert(tokens =~= tokens.subrange(0, 3) + tokens.subrange(3, 6) + tokens.subrange(
        6,
        end.index,
    ) + seq![TokenView::RightParen]);
    assert(tokens =~= record_tokens(entries, rest.1));
    (entries, rest.1)
}

} // verus!
