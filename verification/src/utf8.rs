//! Facts that relate positions counted in code points to positions counted
//! in bytes of the UTF-8 encoding.

use vstd::prelude::*;
use vstd::utf8::*;

verus! {

/// The length of a string in bytes.
pub fn byte_len(s: &str) -> (n: usize)
    ensures
        n == encode_utf8(s@).len(),
{
    s.as_bytes().len()
}

/// The number of bytes that the first `i` code points of `s` occupy.
pub open spec fn byte_offset(s: Seq<char>, i: int) -> int {
    encode_utf8(s.take(i)).len() as int
}

/// Encoding distributes over concatenation.
pub proof fn lemma_encode_concat(a: Seq<char>, b: Seq<char>)
    ensures
        encode_utf8(a + b) == encode_utf8(a) + encode_utf8(b),
    decreases a.len(),
{
    if a.len() == 0 {
        assert(a + b =~= b);
        assert(encode_utf8(a) + encode_utf8(b) =~= encode_utf8(b));
    } else {
        lemma_encode_concat(a.drop_first(), b);
        assert((a + b).drop_first() =~= a.drop_first() + b);
        assert((a + b)[0] == a[0]);
        assert(encode_utf8(a + b) =~= encode_utf8(a) + encode_utf8(b));
    }
}

/// A position in a valid encoding falls between code points exactly when it
/// is the end of the bytes or the byte there does not continue a code point.
pub proof fn lemma_boundary_by_byte(bytes: Seq<u8>, index: int)
    requires
        valid_utf8(bytes),
    ensures
        is_char_boundary(bytes, index) <==> (index == bytes.len() || (0 <= index < bytes.len()
            && !is_continuation_byte(bytes[index]))),
{
    if 0 <= index < bytes.len() {
        is_char_boundary_iff_not_is_continuation_byte(bytes, index);
    } else if index == bytes.len() {
        is_char_boundary_start_end_of_seq(bytes);
    } else {
        reveal_with_fuel(is_char_boundary, 2);
    }
}

/// A boundary of the whole is a boundary of every prefix that itself ends
/// at a boundary.
pub proof fn lemma_boundary_in_prefix(bytes: Seq<u8>, index: int, end: int)
    requires
        valid_utf8(bytes),
        0 <= index <= end <= bytes.len(),
        is_char_boundary(bytes, index),
        is_char_boundary(bytes, end),
    ensures
        valid_utf8(bytes.subrange(0, end)),
        is_char_boundary(bytes.subrange(0, end), index),
{
    valid_utf8_split(bytes, end);
    lemma_boundary_by_byte(bytes, index);
    lemma_boundary_by_byte(bytes.subrange(0, end), index);
}

/// The bytes between two boundaries of a valid encoding are a valid
/// encoding themselves.
pub proof fn lemma_valid_range(bytes: Seq<u8>, start: int, end: int)
    requires
        valid_utf8(bytes),
        0 <= start <= end <= bytes.len(),
        is_char_boundary(bytes, start),
        is_char_boundary(bytes, end),
    ensures
        valid_utf8(bytes.subrange(start, end)),
        encode_utf8(decode_utf8(bytes.subrange(start, end))) == bytes.subrange(start, end),
{
    lemma_boundary_in_prefix(bytes, start, end);
    let head = bytes.subrange(0, end);
    valid_utf8_split(head, start);
    assert(head.subrange(start, head.len() as int) =~= bytes.subrange(start, end));
    decode_utf8_encode_utf8(bytes.subrange(start, end));
}

/// The offset of the next code point is the offset of this one plus its
/// width.
pub proof fn lemma_offset_step(s: Seq<char>, i: int)
    requires
        0 <= i < s.len(),
    ensures
        byte_offset(s, i + 1) == byte_offset(s, i) + encode_scalar(s[i] as u32).len(),
{
    let one = seq![s[i]];
    assert(s.take(i + 1) =~= s.take(i) + one);
    lemma_encode_concat(s.take(i), one);
    assert(one.drop_first() =~= Seq::<char>::empty());
    assert(encode_utf8(one) =~= encode_scalar(s[i] as u32)) by {
        reveal_with_fuel(encode_utf8, 2);
    }
}

/// Offsets lie inside the encoding, and the last one is its length.
pub proof fn lemma_offset_bounds(s: Seq<char>, i: int)
    requires
        0 <= i <= s.len(),
    ensures
        0 <= byte_offset(s, i) <= encode_utf8(s).len(),
        byte_offset(s, s.len() as int) == encode_utf8(s).len(),
        byte_offset(s, 0) == 0,
{
    assert(s =~= s.take(i) + s.skip(i));
    lemma_encode_concat(s.take(i), s.skip(i));
    assert(s.take(s.len() as int) =~= s);
    assert(s.take(0) =~= Seq::<char>::empty());
}

/// The bytes from the offset of code point `i` on encode the code points
/// from `i` on.
pub proof fn lemma_text_after_offset(s: Seq<char>, i: int)
    requires
        0 <= i <= s.len(),
    ensures
        encode_utf8(s).subrange(byte_offset(s, i), encode_utf8(s).len() as int) == encode_utf8(
            s.skip(i),
        ),
        encode_utf8(s).subrange(0, byte_offset(s, i)) == encode_utf8(s.take(i)),
{
    assert(s =~= s.take(i) + s.skip(i));
    lemma_encode_concat(s.take(i), s.skip(i));
    assert((encode_utf8(s.take(i)) + encode_utf8(s.skip(i))).subrange(
        byte_offset(s, i),
        encode_utf8(s).len() as int,
    ) =~= encode_utf8(s.skip(i)));
    assert((encode_utf8(s.take(i)) + encode_utf8(s.skip(i))).subrange(0, byte_offset(s, i))
        =~= encode_utf8(s.take(i)));
}

/// The offset of every code point, and the end of the encoding, is a
/// boundary of the encoding.
pub proof fn lemma_offset_is_boundary(s: Seq<char>, i: int)
    requires
        0 <= i <= s.len(),
    ensures
        is_char_boundary(encode_utf8(s), byte_offset(s, i)),
{
    let bytes = encode_utf8(s);
    let off = byte_offset(s, i);
    encode_utf8_valid_utf8(s);
    lemma_offset_bounds(s, i);
    lemma_boundary_by_byte(bytes, off);
    if off < bytes.len() {
        lemma_text_after_offset(s, i);
        let tail = s.skip(i);
        if tail.len() == 0 {
            assert(encode_utf8(tail).len() == 0);
            assert(bytes.subrange(off, bytes.len() as int).len() == bytes.len() - off);
        } else {
            encode_utf8_first_scalar(tail);
            assert(encode_utf8(tail)[0] == bytes.subrange(off, bytes.len() as int)[0]);
        }
    }
}

/// Offsets grow with the code points: by at least one byte for each.
pub proof fn lemma_offset_grows(s: Seq<char>, i: int, j: int)
    requires
        0 <= i <= j <= s.len(),
    ensures
        byte_offset(s, i) + (j - i) <= byte_offset(s, j),
    decreases j - i,
{
    if i < j {
        lemma_offset_grows(s, i, j - 1);
        lemma_offset_step(s, j - 1);
        lemma_scalar_width(s[j - 1]);
    }
}

/// The offset of a code point is the offset of an earlier one plus the
/// offset counted from there.
pub proof fn lemma_offset_split(s: Seq<char>, i: int, j: int)
    requires
        0 <= i <= s.len(),
        0 <= j <= s.len() - i,
    ensures
        byte_offset(s, i + j) == byte_offset(s, i) + byte_offset(s.skip(i), j),
{
    assert(s.take(i + j) =~= s.take(i) + s.skip(i).take(j));
    lemma_encode_concat(s.take(i), s.skip(i).take(j));
}

/// Every code point occupies between one and four bytes.
pub proof fn lemma_scalar_width(c: char)
    ensures
        1 <= encode_scalar(c as u32).len() <= 4,
{
}

} // verus!
