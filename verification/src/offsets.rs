//! Offsets in a text that count bytes of its UTF-8 encoding.
use vstd::prelude::*;
use vstd::utf8::*;

verus! {

/// Whether the text can be parted behind its first `n` bytes.
pub open spec fn parts_at(s: Seq<char>, n: int) -> bool {
    is_char_boundary(encode_utf8(s), n)
}

/// The text that the first `n` bytes spell.
pub open spec fn head(s: Seq<char>, n: int) -> Seq<char> {
    decode_utf8(encode_utf8(s).subrange(0, n))
}

/// The text that the bytes behind the first `n` spell.
pub open spec fn tail(s: Seq<char>, n: int) -> Seq<char> {
    decode_utf8(encode_utf8(s).subrange(n, encode_utf8(s).len() as int))
}

/// The parts of a line before and behind an offset.
pub fn part(line: &str, at: usize) -> (parts: (String, String))
    requires
        parts_at(line@, at as int),
    ensures
        parts.0@ == head(line@, at as int),
        parts.1@ == tail(line@, at as int),
{
    let (before, behind) = line.split_at(at);
    proof {
        encode_utf8_decode_utf8(before@);
        encode_utf8_decode_utf8(behind@);
    }
    (before.to_owned(), behind.to_owned())
}

pub(crate) proof fn lemma_encode_concat(a: Seq<char>, b: Seq<char>)
    ensures
        encode_utf8(a + b) == encode_utf8(a) + encode_utf8(b),
    decreases a.len(),
{
    if a.len() == 0 {
        assert(a + b =~= b);
    } else {
        assert((a + b).drop_first() =~= a.drop_first() + b);
        lemma_encode_concat(a.drop_first(), b);
        assert(encode_utf8(a + b) =~= encode_utf8(a) + encode_utf8(b));
    }
}

pub(crate) proof fn lemma_boundary_between(a: Seq<char>, b: Seq<char>)
    ensures
        parts_at(a + b, encode_utf8(a).len() as int),
        head(a + b, encode_utf8(a).len() as int) == a,
        tail(a + b, encode_utf8(a).len() as int) == b,
{
    let bytes = encode_utf8(a + b);
    let n = encode_utf8(a).len() as int;
    lemma_encode_concat(a, b);
    encode_utf8_valid_utf8(a + b);
    encode_utf8_valid_utf8(b);
    encode_utf8_decode_utf8(a);
    encode_utf8_decode_utf8(b);
    assert(bytes.subrange(0, n) =~= encode_utf8(a));
    assert(bytes.subrange(n, bytes.len() as int) =~= encode_utf8(b));
    if b.len() == 0 {
        assert(encode_utf8(b).len() == 0);
        is_char_boundary_start_end_of_seq(bytes);
    } else {
        encode_utf8_first_scalar(b);
        is_char_boundary_iff_is_leading_byte(bytes, n);
        assert(bytes[n] == encode_utf8(b)[0]);
    }
}

/// A text parted at an offset is its two parts one behind the other.
pub proof fn parts_make_the_text(s: Seq<char>, n: int)
    requires
        parts_at(s, n),
    ensures
        head(s, n) + tail(s, n) == s,
        encode_utf8(head(s, n)).len() == n,
{
    let bytes = encode_utf8(s);
    encode_utf8_valid_utf8(s);
    encode_utf8_decode_utf8(s);
    lemma_boundary_in_range(bytes, n);
    valid_utf8_split(bytes, n);
    decode_utf8_split(bytes, n);
    decode_utf8_encode_utf8(bytes.subrange(0, n));
}

proof fn lemma_boundary_in_range(bytes: Seq<u8>, n: int)
    requires
        valid_utf8(bytes),
        is_char_boundary(bytes, n),
    ensures
        0 <= n <= bytes.len(),
    decreases bytes.len(),
{
    if n != 0 && 0 <= n <= bytes.len() && bytes.len() > 0 {
        lemma_boundary_in_range(pop_first_scalar(bytes), n - length_of_first_scalar(bytes));
    }
}

/// What a text begins with, its part before a later offset begins with too.
pub proof fn head_keeps_beginning(s: Seq<char>, beginning: Seq<char>, n: int)
    requires
        crate::text::begins_with(s, beginning),
        encode_utf8(beginning).len() <= n,
        parts_at(s, n),
    ensures
        crate::text::begins_with(head(s, n), beginning),
{
    let rest = s.skip(beginning.len() as int);
    let m = encode_utf8(beginning).len() as int;
    assert(s =~= beginning + rest);
    lemma_boundary_between(beginning, rest);
    parts_make_the_text(s, n);
    let bytes = encode_utf8(s);
    let front = bytes.subrange(0, n);
    encode_utf8_valid_utf8(s);
    lemma_boundary_in_range(bytes, n);
    valid_utf8_split(bytes, n);
    if m < n {
        is_char_boundary_iff_not_is_continuation_byte(bytes, m);
        is_char_boundary_iff_not_is_continuation_byte(front, m);
    } else {
        is_char_boundary_start_end_of_seq(front);
    }
    decode_utf8_split(front, m);
    assert(front.subrange(0, m) =~= bytes.subrange(0, m));
    assert(head(s, n).take(beginning.len() as int) =~= beginning);
}

/// The text that the bytes from one offset up to another spell.
pub open spec fn between(s: Seq<char>, from: int, to: int) -> Seq<char> {
    decode_utf8(encode_utf8(s).subrange(from, to))
}

/// The part of a line from one offset up to another.
pub fn slice(line: &str, from: usize, to: usize) -> (text: String)
    requires
        from <= to,
        parts_at(line@, from as int),
        parts_at(line@, to as int),
    ensures
        text@ == between(line@, from as int, to as int),
{
    let (front, _) = line.split_at(to);
    let ghost bytes = encode_utf8(line@);
    proof {
        encode_utf8_valid_utf8(line@);
        lemma_boundary_in_range(bytes, to as int);
        valid_utf8_split(bytes, to as int);
        if from < to {
            is_char_boundary_iff_not_is_continuation_byte(bytes, from as int);
            is_char_boundary_iff_not_is_continuation_byte(encode_utf8(front@), from as int);
        } else {
            is_char_boundary_start_end_of_seq(encode_utf8(front@));
        }
    }
    let (_, text) = front.split_at(from);
    proof {
        encode_utf8_decode_utf8(text@);
        assert(encode_utf8(text@) =~= bytes.subrange(from as int, to as int));
    }
    text.to_owned()
}

/// The part of a text from one offset up to another has the bytes between them.
pub(crate) proof fn lemma_between(s: Seq<char>, from: int, to: int)
    requires
        from <= to,
        parts_at(s, from),
        parts_at(s, to),
    ensures
        encode_utf8(between(s, from, to)) == encode_utf8(s).subrange(from, to),
{
    let bytes = encode_utf8(s);
    encode_utf8_valid_utf8(s);
    lemma_boundary_in_range(bytes, to);
    lemma_boundary_in_range(bytes, from);
    valid_utf8_split(bytes, to);
    let front = bytes.subrange(0, to);
    if from < to {
        is_char_boundary_iff_not_is_continuation_byte(bytes, from);
        is_char_boundary_iff_not_is_continuation_byte(front, from);
    } else {
        is_char_boundary_start_end_of_seq(front);
    }
    valid_utf8_split(front, from);
    assert(front.subrange(from, to) =~= bytes.subrange(from, to));
    decode_utf8_encode_utf8(bytes.subrange(from, to));
}

} // verus!
