//! Views of a byte range of a borrowed buffer, read by code points.

use vstd::prelude::*;
use vstd::utf8::*;
use vstd::string::*;
use vstd::std_specs::convert::FromSpecImpl;
use vstd::std_specs::iter::IteratorSpec;
use crate::utf8::{
    byte_len, byte_offset, lemma_boundary_by_byte, lemma_boundary_in_prefix, lemma_offset_bounds,
    lemma_offset_is_boundary, lemma_offset_step, lemma_text_after_offset, lemma_valid_range,
};

verus! {

/// A half-open range of byte offsets into a buffer.
#[derive(Debug, Clone, Copy, PartialEq, Eq)]
struct Span {
    start_byte: usize,
    end_byte: usize,
}

/// What a [`SpannedStr`] stands for: the code points of its buffer and the
/// two byte offsets of its range.
pub struct SpanView {
    pub source: Seq<char>,
    pub start: int,
    pub end: int,
}

impl SpanView {
    /// The bytes of the whole buffer.
    pub open spec fn bytes(self) -> Seq<u8> {
        encode_utf8(self.source)
    }

    /// The range lies inside the buffer and both of its ends fall between
    /// code points.
    pub open spec fn aligned(self) -> bool {
        &&& 0 <= self.start <= self.end <= self.bytes().len()
        &&& is_char_boundary(self.bytes(), self.start)
        &&& is_char_boundary(self.bytes(), self.end)
    }

    /// The range can be read: it is empty or inverted, or it is aligned.
    pub open spec fn readable(self) -> bool {
        self.start < self.end ==> self.aligned()
    }

    /// The code points that the range covers; none when the range is empty
    /// or inverted.
    pub open spec fn text(self) -> Seq<char> {
        if self.start < self.end {
            decode_utf8(self.bytes().subrange(self.start, self.end))
        } else {
            Seq::empty()
        }
    }

    /// The range from the end of this one to the end of the buffer, if any
    /// bytes are left there.
    pub open spec fn remaining(self) -> Option<SpanView> {
        if self.end < self.bytes().len() {
            Some(SpanView { source: self.source, start: self.end, end: self.bytes().len() as int })
        } else {
            None
        }
    }

    /// The range with its start moved forward over `n` code points, if it
    /// holds more than `n`.
    pub open spec fn skip(self, n: int) -> Option<SpanView> {
        if n < self.text().len() {
            Some(
                SpanView {
                    source: self.source,
                    start: self.start + byte_offset(self.text(), n),
                    end: self.end,
                },
            )
        } else {
            None
        }
    }
}

/// An immutable view of a byte range of a borrowed buffer. It is cheap to
/// copy and owns nothing.
#[derive(Debug, Clone, Copy, PartialEq, Eq)]
pub struct SpannedStr<'a> {
    src: &'a str,
    span: Span,
}

impl<'a> View for SpannedStr<'a> {
    type V = SpanView;

    closed spec fn view(&self) -> SpanView {
        SpanView {
            source: self.src@,
            start: self.span.start_byte as int,
            end: self.span.end_byte as int,
        }
    }
}

/// The view that covers all of a buffer.
pub open spec fn whole(source: Seq<char>) -> SpanView {
    SpanView { source, start: 0, end: encode_utf8(source).len() as int }
}

/// The view of an optional view.
pub open spec fn view_of(o: Option<SpannedStr<'_>>) -> Option<SpanView> {
    match o {
        Some(v) => Some(v@),
        None => None,
    }
}

impl<'a> SpannedStr<'a> {
    /// A view of the bytes from `start_byte` up to `end_byte` of `src`.
    /// Nothing is asked of the two offsets here; to read the text of a
    /// view that is not empty, the view has to be aligned.
    pub fn new(src: &'a str, start_byte: usize, end_byte: usize) -> (r: Self)
        ensures
            r@ == (SpanView { source: src@, start: start_byte as int, end: end_byte as int }),
    {
        Self { src, span: Span { start_byte, end_byte } }
    }

    /// The text of the range, borrowed from the buffer.
    pub fn substring(&self) -> (r: &'a str)
        requires
            self@.readable(),
        ensures
            r@ == self@.text(),
    {
        if self.span.start_byte >= self.span.end_byte {
            let r = "";
            proof {
                reveal_strlit("");
                assert(r@ =~= Seq::<char>::empty());
            }
            r
        } else {
            proof {
                broadcast use vstd::utf8::group_utf8_lib;

                lemma_boundary_in_prefix(self@.bytes(), self@.start, self@.end);
            }
            let (head, _) = self.src.split_at(self.span.end_byte);
            let (_, r) = head.split_at(self.span.start_byte);
            proof {
                broadcast use vstd::utf8::group_utf8_lib;

                assert(r.spec_bytes() =~= self@.bytes().subrange(self@.start, self@.end));
                assert(decode_utf8(encode_utf8(r@)) == r@);
            }
            r
        }
    }

    /// The view from the end of this one to the end of the buffer.
    pub fn remaining(self) -> (r: Option<SpannedStr<'a>>)
        ensures
            view_of(r) == self@.remaining(),
    {
        let len = byte_len(self.src);
        if self.span.end_byte < len {
            Some(SpannedStr::new(self.src, self.span.end_byte, len))
        } else {
            None
        }
    }

    /// The first code point of the range.
    pub fn first_char(&self) -> (r: Option<char>)
        requires
            self@.readable(),
        ensures
            r == (if self@.text().len() > 0 {
                Some(self@.text()[0])
            } else {
                None
            }),
    {
        broadcast use vstd::string::group_string_axioms;

        let mut chars = self.substring().chars();
        chars.next()
    }

    /// The view with its start moved forward over `n` code points.
    pub fn skip(self, n: usize) -> (r: Option<SpannedStr<'a>>)
        requires
            self@.readable(),
        ensures
            view_of(r) == self@.skip(n as int),
    {
        broadcast use vstd::string::group_string_axioms;

        let text = self.substring();
        let ghost t = text@;
        let mut chars = text.chars();
        let mut offset: usize = 0;
        let mut seen: usize = 0;
        proof {
            assert(t.take(0) =~= Seq::<char>::empty());
        }
        loop
            invariant
                t == self@.text(),
                self@.readable(),
                0 <= seen <= n,
                seen <= t.len(),
                chars.remaining() == t.skip(seen as int),
                offset == byte_offset(t, seen as int),
            decreases t.len() - seen,
        {
            match chars.next() {
                None => {
                    return None;
                },
                Some(c) => {
                    if seen == n {
                        proof {
                            lemma_offset_in_view(self@, n as int);
                        }
                        return Some(
                            SpannedStr::new(self.src, self.span.start_byte + offset, self.span.end_byte),
                        );
                    }
                    proof {
                        assert(c == t[seen as int]);
                        lemma_offset_step(t, seen as int);
                        lemma_offset_bounds(t, seen as int + 1);
                        lemma_offset_in_view(self@, seen as int + 1);
                        assert(t.skip(seen as int).drop_first() =~= t.skip(seen as int + 1));
                    }
                    offset = offset + c.len_utf8();
                    seen = seen + 1;
                },
            }
        }
    }
}

impl<'a> From<&'a str> for SpannedStr<'a> {
    /// The view of the whole of `other`.
    fn from(other: &'a str) -> (r: Self)
        ensures
            r@ == whole(other@),
    {
        SpannedStr { src: other, span: Span { start_byte: 0, end_byte: byte_len(other) } }
    }
}

impl<'a> FromSpecImpl<&'a str> for SpannedStr<'a> {
    open spec fn obeys_from_spec() -> bool {
        true
    }

    closed spec fn from_spec(other: &'a str) -> Self {
        SpannedStr {
            src: other,
            span: Span { start_byte: 0, end_byte: encode_utf8(other@).len() as usize },
        }
    }
}

/// The view of a whole buffer is aligned and holds all of its text.
pub proof fn lemma_whole(source: Seq<char>)
    ensures
        whole(source).aligned(),
        whole(source).text() == source,
        whole(source).remaining() is None,
{
    broadcast use vstd::utf8::group_utf8_lib;

    lemma_offset_is_boundary(source, 0);
    lemma_offset_is_boundary(source, source.len() as int);
    lemma_offset_bounds(source, 0);
    assert(encode_utf8(source).subrange(0, encode_utf8(source).len() as int) =~= encode_utf8(
        source,
    ));
    if encode_utf8(source).len() == 0 {
        assert(decode_utf8(encode_utf8(source)) == source);
    }
}

/// The byte offset of a code point of a readable range, counted from the
/// start of the buffer, lies inside the range.
pub proof fn lemma_offset_in_view(v: SpanView, n: int)
    requires
        v.readable(),
        0 <= n <= v.text().len(),
    ensures
        v.start < v.end ==> v.start + byte_offset(v.text(), n) <= v.end,
        n == 0 ==> byte_offset(v.text(), n) == 0,
{
    broadcast use vstd::utf8::group_utf8_lib;

    assert(v.text().take(0) =~= Seq::<char>::empty());
    if v.start < v.end {
        lemma_valid_range(v.bytes(), v.start, v.end);
        lemma_offset_bounds(v.text(), n);
    }
}

/// Skipping `n` code points succeeds exactly on a range that holds more
/// than `n`, and leaves an aligned range whose text is the old text from
/// code point `n` on.
pub proof fn lemma_skip_text(v: SpanView, n: int)
    requires
        v.readable(),
        0 <= n,
    ensures
        v.skip(n).is_some() <==> n < v.text().len(),
        v.skip(n) matches Some(w) ==> w.aligned() && w.text() == v.text().skip(n),
{
    broadcast use vstd::utf8::group_utf8_lib;

    if n < v.text().len() {
        let w = v.skip(n)->0;
        let t = v.text();
        let inner = v.bytes().subrange(v.start, v.end);
        let off = byte_offset(t, n);
        lemma_valid_range(v.bytes(), v.start, v.end);
        lemma_offset_bounds(t, n);
        lemma_offset_is_boundary(t, n);
        lemma_text_after_offset(t, n);
        lemma_offset_step(t, n);
        lemma_boundary_by_byte(inner, off);
        lemma_boundary_by_byte(v.bytes(), v.start + off);
        assert(off < inner.len());
        assert(inner[off] == v.bytes()[v.start + off]);
        assert(v.bytes().subrange(w.start, w.end) =~= inner.subrange(off, inner.len() as int));
        assert(decode_utf8(encode_utf8(t.skip(n))) == t.skip(n));
    }
}

} // verus!
