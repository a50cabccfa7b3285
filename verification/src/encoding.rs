//! How many bytes the characters of a text take in UTF-8, and the byte
//! offset of each character.

use vstd::prelude::*;
use vstd::utf8::{
    char_is_scalar, decode_utf8, encode_scalar, encode_utf8, encode_utf8_decode_utf8,
    encode_utf8_first_scalar, encode_utf8_valid_utf8, is_char_boundary, pop_first_scalar,
};

verus! {

/// The number of bytes that `c` takes in UTF-8.
pub open spec fn utf8_width(c: char) -> nat {
    if (c as u32) < 0x80 {
        1
    } else if (c as u32) < 0x800 {
        2
    } else if (c as u32) < 0x10000 {
        3
    } else {
        4
    }
}

/// The number of bytes that `c` takes in UTF-8.
pub fn len_utf8(c: char) -> (width: usize)
    ensures
        width == utf8_width(c),
        1 <= width <= 4,
{
    let code: u32 = c as u32;
    if code < 0x80 {
        1
    } else if code < 0x800 {
        2
    } else if code < 0x10000 {
        3
    } else {
        4
    }
}

/// `utf8_width` is the length of the character's encoding.
pub proof fn lemma_utf8_width_is_encoded_len(c: char)
    ensures
        utf8_width(c) == encode_scalar(c as u32).len(),
{
    char_is_scalar(c);
}

/// The byte offset of the character with index `n`: the widths of the `n`
/// characters before it, added up.
pub open spec fn byte_offset(text: Seq<char>, n: int) -> nat
    decreases n,
{
    if n <= 0 {
        0
    } else {
        byte_offset(text, n - 1) + utf8_width(text[n - 1])
    }
}

/// The byte length of the whole text.
pub open spec fn byte_len(text: Seq<char>) -> nat {
    byte_offset(text, text.len() as int)
}

/// Offsets grow with the index, by at least one byte per character.
pub proof fn lemma_byte_offset_grows(text: Seq<char>, m: int, n: int)
    requires
        0 <= m <= n,
    ensures
        byte_offset(text, m) + (n - m) <= byte_offset(text, n),
    decreases n - m,
{
    if m < n {
        lemma_byte_offset_grows(text, m, n - 1);
    }
}

/// Encoding a text piece by piece gives the encoding of the whole.
pub proof fn lemma_encode_utf8_concat(left: Seq<char>, right: Seq<char>)
    ensures
        encode_utf8(left + right) == encode_utf8(left) + encode_utf8(right),
    decreases left.len(),
{
    if left.len() == 0 {
        assert(left + right =~= right);
        assert(encode_utf8(left) + encode_utf8(right) =~= encode_utf8(right));
    } else {
        assert((left + right).drop_first() =~= left.drop_first() + right);
        lemma_encode_utf8_concat(left.drop_first(), right);
        assert(encode_utf8(left + right) =~= encode_utf8(left) + encode_utf8(right));
    }
}

/// The byte offset of a character is the length of the encoding of what
/// stands before it.
pub proof fn lemma_byte_offset_is_encoded_len(text: Seq<char>, n: int)
    requires
        0 <= n <= text.len(),
    ensures
        byte_offset(text, n) == encode_utf8(text.take(n)).len(),
    decreases n,
{
    if n > 0 {
        let last = seq![text[n - 1]];
        lemma_byte_offset_is_encoded_len(text, n - 1);
        assert(text.take(n) =~= text.take(n - 1) + last);
        lemma_encode_utf8_concat(text.take(n - 1), last);
        lemma_utf8_width_is_encoded_len(text[n - 1]);
        assert(last.drop_first() =~= Seq::<char>::empty());
        assert(encode_utf8(last) =~= encode_scalar(text[n - 1] as u32)) by {
            reveal_with_fuel(encode_utf8, 2);
        }
    } else {
        assert(text.take(0) =~= Seq::<char>::empty());
    }
}

/// The offset of a character, counted from the second character on.
pub proof fn lemma_byte_offset_drop_first(text: Seq<char>, n: int)
    requires
        1 <= n <= text.len(),
    ensures
        byte_offset(text, n) == utf8_width(text[0]) + byte_offset(text.drop_first(), n - 1),
    decreases n,
{
    let rest = text.drop_first();
    if n > 1 {
        lemma_byte_offset_drop_first(text, n - 1);
        assert(rest[n - 2] == text[n - 1]);
    } else {
        assert(byte_offset(text, 0) == 0);
        assert(byte_offset(rest, 0) == 0);
    }
}

/// Every character begins at a character boundary of the encoded text, and
/// so does the end of the text.
pub proof fn lemma_byte_offset_is_char_boundary(text: Seq<char>, n: int)
    requires
        0 <= n <= text.len(),
    ensures
        byte_offset(text, n) <= encode_utf8(text).len(),
        is_char_boundary(encode_utf8(text), byte_offset(text, n) as int),
    decreases n,
{
    let bytes = encode_utf8(text);
    encode_utf8_valid_utf8(text);
    lemma_byte_offset_is_encoded_len(text, text.len() as int);
    assert(text.take(text.len() as int) =~= text);
    lemma_byte_offset_grows(text, n, text.len() as int);
    if n > 0 {
        let rest = text.drop_first();
        encode_utf8_first_scalar(text);
        lemma_utf8_width_is_encoded_len(text[0]);
        assert(pop_first_scalar(bytes) =~= encode_utf8(rest));
        lemma_byte_offset_drop_first(text, n);
        lemma_byte_offset_is_char_boundary(rest, n - 1);
    }
}

/// The bytes between the offsets of two characters encode the characters
/// between them.
pub proof fn lemma_encoded_subrange(text: Seq<char>, from: int, to: int)
    requires
        0 <= from <= to <= text.len(),
    ensures
        byte_offset(text, from) <= byte_offset(text, to) <= encode_utf8(text).len(),
        encode_utf8(text).subrange(byte_offset(text, from) as int, byte_offset(text, to) as int)
            == encode_utf8(text.subrange(from, to)),
        decode_utf8(
            encode_utf8(text).subrange(byte_offset(text, from) as int, byte_offset(text, to) as int),
        ) == text.subrange(from, to),
{
    let head = text.take(from);
    let middle = text.subrange(from, to);
    let tail = text.skip(to);
    assert(text.take(to) =~= head + middle);
    assert(text =~= text.take(to) + tail);
    lemma_encode_utf8_concat(head, middle);
    lemma_encode_utf8_concat(text.take(to), tail);
    lemma_byte_offset_is_encoded_len(text, from);
    lemma_byte_offset_is_encoded_len(text, to);
    assert(encode_utf8(text).subrange(byte_offset(text, from) as int, byte_offset(text, to) as int)
        =~= encode_utf8(middle));
    encode_utf8_decode_utf8(middle);
}

/// The characters of `text`, in order.
pub fn chars_of(text: &str) -> (chars: Vec<char>)
    ensures
        chars@ == text@,
        byte_len(chars@) <= usize::MAX,
{
    let mut chars: Vec<char> = Vec::new();
    for c in it: text.chars()
        invariant
            chars@ == it.history(),
    {
        chars.push(c);
    }
    let bytes = text.as_bytes();
    let byte_count = bytes.len();
    proof {
        assert(text@.take(text@.len() as int) =~= text@);
        lemma_byte_offset_is_encoded_len(text@, text@.len() as int);
        assert(byte_len(text@) == byte_count);
        assert(chars@ == text@);
    }
    chars
}

} // verus!
