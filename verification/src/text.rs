//! Facts about text and its bytes that the header layout and the checksum rest on.

use vstd::prelude::*;
use vstd::string::*;
use vstd::utf8::*;

verus! {

/// The number of bytes that `text` takes when written as UTF-8.
pub open spec fn utf8_len(text: Seq<char>) -> nat {
    encode_utf8(text).len()
}

/// The bytes of a text of ASCII characters: one byte for each character.
pub open spec fn ascii_bytes(text: Seq<char>) -> Seq<u8> {
    Seq::new(text.len(), |i: int| text[i] as u8)
}

/// The text that bytes below 128 write: one character for each byte.
pub open spec fn ascii_text(bytes: Seq<u8>) -> Seq<char> {
    Seq::new(bytes.len(), |i: int| bytes[i] as char)
}

/// The sum of the code points of the characters of `text`.
pub open spec fn char_sum(text: Seq<char>) -> nat
    decreases text.len(),
{
    if text.len() == 0 {
        0
    } else {
        char_sum(text.drop_last()) + text.last() as nat
    }
}

/// Writing two texts one after the other writes their bytes one after the other.
pub proof fn lemma_encode_concat(a: Seq<char>, b: Seq<char>)
    ensures
        encode_utf8(a + b) == encode_utf8(a) + encode_utf8(b),
    decreases a.len(),
{
    if a.len() == 0 {
        assert(a + b =~= b);
        assert(encode_utf8(a) + encode_utf8(b) =~= encode_utf8(b));
    } else {
        lemma_encode_concat(a.drop_first(), b);
        assert((a + b).drop_first() =~= a.drop_first() + b);
        assert(encode_utf8(a + b) =~= encode_utf8(a) + encode_utf8(b));
    }
}

/// ASCII text is written with one byte for each character.
pub proof fn lemma_encode_ascii(text: Seq<char>)
    requires
        is_ascii_chars(text),
    ensures
        encode_utf8(text) == ascii_bytes(text),
{
    is_ascii_chars_encode_utf8(text);
    assert(encode_utf8(text) =~= ascii_bytes(text));
}

/// The bytes of an ASCII text write that text.
pub proof fn lemma_ascii_round_trip(text: Seq<char>)
    requires
        is_ascii_chars(text),
    ensures
        ascii_text(ascii_bytes(text)) == text,
{
    assert forall|i: int| 0 <= i < text.len() implies (#[trigger] text[i] as u8) as char
        == text[i] by {
        lemma_ascii_char(text[i]);
    }
    assert(ascii_text(ascii_bytes(text)) =~= text);
}

/// An ASCII character is its own byte, and below 128.
proof fn lemma_ascii_char(c: char)
    requires
        c <= '\u{7f}',
    ensures
        (c as u8) as char == c,
        c as nat <= 127,
{
}

/// A text has no more characters than bytes.
pub proof fn lemma_chars_within_bytes(text: Seq<char>)
    ensures
        text.len() <= utf8_len(text),
    decreases text.len(),
{
    if text.len() > 0 {
        lemma_chars_within_bytes(text.drop_first());
    }
}

/// The code points of two texts written one after the other add up.
pub proof fn lemma_char_sum_concat(a: Seq<char>, b: Seq<char>)
    ensures
        char_sum(a + b) == char_sum(a) + char_sum(b),
    decreases b.len(),
{
    if b.len() == 0 {
        assert(a + b =~= a);
    } else {
        lemma_char_sum_concat(a, b.drop_last());
        assert((a + b).drop_last() =~= a + b.drop_last());
    }
}

/// No code point is above `0x10FFFF`.
pub proof fn lemma_char_range(c: char)
    ensures
        c as nat <= 0x10FFFF,
{
}

/// No code point is above `0x10FFFF`, so neither is their mean.
pub proof fn lemma_char_sum_bound(text: Seq<char>)
    ensures
        char_sum(text) <= text.len() * 0x10FFFF,
    decreases text.len(),
{
    if text.len() > 0 {
        lemma_char_sum_bound(text.drop_last());
        lemma_char_range(text.last());
        assert(text.len() * 0x10FFFF == text.drop_last().len() * 0x10FFFF + 0x10FFFF);
    }
}

/// The sum of an ASCII text is at most 127 for each character.
pub proof fn lemma_char_sum_ascii(text: Seq<char>)
    requires
        is_ascii_chars(text),
    ensures
        char_sum(text) <= text.len() * 127,
    decreases text.len(),
{
    if text.len() > 0 {
        lemma_char_sum_ascii(text.drop_last());
        lemma_ascii_char(text.last());
        assert(text.len() * 127 == text.drop_last().len() * 127 + 127);
    }
}

/// The sum is at least what any two of the characters add up to.
pub proof fn lemma_char_sum_floor(text: Seq<char>, i: int, j: int)
    requires
        0 <= i < j < text.len(),
    ensures
        char_sum(text) >= text[i] as nat + text[j] as nat,
    decreases text.len(),
{
    if j == text.len() - 1 {
        lemma_char_sum_above(text.drop_last(), i);
    } else {
        lemma_char_sum_floor(text.drop_last(), i, j);
    }
}

/// The sum is at least any one of the characters.
pub proof fn lemma_char_sum_above(text: Seq<char>, i: int)
    requires
        0 <= i < text.len(),
    ensures
        char_sum(text) >= text[i] as nat,
    decreases text.len(),
{
    if i < text.len() - 1 {
        lemma_char_sum_above(text.drop_last(), i);
    }
}

/// The number of bytes of `text`.
pub fn byte_len(text: &str) -> (len: usize)
    ensures
        len == utf8_len(text@),
{
    text.as_bytes().len()
}

/// Adds up the code points of the characters of `text`.
pub fn sum_chars(text: &str) -> (sum: u64)
    requires
        char_sum(text@) <= u64::MAX,
    ensures
        sum == char_sum(text@),
{
    let count: usize = text.unicode_len();
    let mut sum: u64 = 0;
    let mut i: usize = 0;
    while i < count
        invariant
            count == text@.len(),
            i <= count,
            sum == char_sum(text@.take(i as int)),
            char_sum(text@) <= u64::MAX,
        decreases count - i,
    {
        let c: char = text.get_char(i);
        proof {
            let upto = text@.take(i + 1);
            assert(upto.drop_last() =~= text@.take(i as int));
            assert(upto.last() == c);
            assert(text@ =~= upto + text@.skip(i + 1));
            lemma_char_sum_concat(upto, text@.skip(i + 1));
        }
        sum = sum + c as u64;
        i = i + 1;
    }
    assert(text@.take(i as int) =~= text@);
    sum
}

} // verus!
