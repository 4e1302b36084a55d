//! The checksum of a header and its place in the record.
//!
//! The checksum is taken over the characters of the header text as it stands
//! before the checksum is written, with the checksum field filled with zeros,
//! and is then written over the first six bytes of that field.

use crate::codec::{
    is_octal_text, lemma_octal_width, lemma_padded_octal, octal_digits, octal_value,
    padded_octal, pow8, zero_bytes,
};
use crate::text::{ascii_bytes, char_sum, sum_chars};
use crate::Tatar;
use vstd::prelude::*;
use vstd::string::*;
use vstd::utf8::*;

verus! {

/// The offset of the checksum field in a record.
pub const CHECKSUM_OFFSET: usize = 148;

/// The number of octal digits of a checksum.
pub const CHECKSUM_WIDTH: usize = 6;

/// What is taken off the sum of the characters: the checksum field counts as
/// eight spaces, and it holds six zeros, a NUL and a space while the sum is taken.
pub const CHECKSUM_BIAS: u64 = 64;

/// The least number that has more digits than a checksum: eight to the power 6.
pub const CHECKSUM_LIMIT: u64 = 0o1_000_000;

/// The checksum of a header text as a number. Meant for a sum of at least 64.
pub open spec fn checksum_value(header: Seq<char>) -> nat {
    (char_sum(header) - 64) as nat
}

/// The header text has a checksum: the sum of its characters is at least 64,
/// and what remains of it fits in six octal digits.
pub open spec fn has_checksum(header: Seq<char>) -> bool {
    &&& char_sum(header) >= 64
    &&& octal_digits(checksum_value(header)).len() <= 6
}

/// The checksum of a header text as it is written: six octal digits.
pub open spec fn checksum_text(header: Seq<char>) -> Seq<char> {
    padded_octal(checksum_value(header), 6)
}

/// A record with `digits` written over it from the offset of the checksum field.
/// As with a file, a record that ends before the end of the digits is first
/// lengthened with zero bytes.
pub open spec fn patch_checksum(record: Seq<u8>, digits: Seq<char>) -> Seq<u8> {
    let end = 148 + digits.len();
    let whole = if record.len() < end {
        record + zero_bytes((end - record.len()) as nat)
    } else {
        record
    };
    whole.take(148) + ascii_bytes(digits) + whole.skip(end as int)
}

/// A header text has a checksum exactly when the sum of its characters is
/// from 64 up to, but not including, `64 + 8^6`.
pub proof fn lemma_has_checksum(header: Seq<char>)
    ensures
        has_checksum(header) <==> 64 <= char_sum(header) < 64 + 262144,
{
    reveal_with_fuel(pow8, 7);
    assert(pow8(6) == 262144);
    lemma_octal_width(checksum_value(header), 6);
}

/// Writing the checksum changes the six bytes from offset 148 and nothing
/// else; a record of at least 154 bytes keeps its length.
pub proof fn lemma_patch_checksum(record: Seq<u8>, digits: Seq<char>)
    requires
        digits.len() == 6,
        record.len() >= 154,
    ensures
        patch_checksum(record, digits).len() == record.len(),
        patch_checksum(record, digits).subrange(148, 154) == ascii_bytes(digits),
        forall|i: int|
            0 <= i < record.len() && !(148 <= i < 154) ==> #[trigger] patch_checksum(
                record,
                digits,
            )[i] == record[i],
{
    assert(patch_checksum(record, digits).subrange(148, 154) =~= ascii_bytes(digits));
}

impl Tatar {
    /// The checksum of a header text: the sum of the code points of its
    /// characters, less 64, as six octal digits.
    ///
    /// The text is the header as it stands before the checksum is written.
    pub fn calc_checksum(header: String) -> (text: String)
        requires
            has_checksum(header@),
        ensures
            text@ == checksum_text(header@),
            text@ == padded_octal((char_sum(header@) - 64) as nat, 6),
            text@.len() == 6,
            is_octal_text(text@),
            octal_value(text@) == char_sum(header@) - 64,
    {
        proof {
            lemma_has_checksum(header@);
            lemma_padded_octal(checksum_value(header@), 6);
        }
        let checksum: u64 = sum_chars(header.as_str());
        Self::dec_to_padded_octal(checksum - CHECKSUM_BIAS, CHECKSUM_WIDTH)
    }

    /// Writes the checksum of `header` into `record`, over the six bytes from
    /// offset 148. The two bytes that follow them stay as they are.
    ///
    /// `header` is the header text of the record as it stood when the record was made.
    pub fn write_checksum(record: Vec<u8>, header: String) -> (patched: Vec<u8>)
        requires
            has_checksum(header@),
        ensures
            patched@ == patch_checksum(record@, checksum_text(header@)),
    {
        let digits = Self::calc_checksum(header);
        let mut patched = record;
        let ghost whole = if record@.len() < 154 {
            record@ + zero_bytes((154 - record@.len()) as nat)
        } else {
            record@
        };
        while patched.len() < CHECKSUM_OFFSET + CHECKSUM_WIDTH
            invariant
                record@.len() <= patched@.len(),
                patched@.len() <= 154 || patched@.len() == record@.len(),
                patched@ == record@ + zero_bytes((patched@.len() - record@.len()) as nat),
            decreases 154 - patched@.len(),
        {
            patched.push(0u8);
            assert(patched@ =~= record@ + zero_bytes((patched@.len() - record@.len()) as nat));
        }
        assert(patched@ =~= whole);
        assert(is_ascii_chars(digits@)) by {
            assert forall|i: int| 0 <= i < digits@.len() implies '\0' <= #[trigger] digits@[i]
                <= '\u{7f}' by {
                assert('0' <= digits@[i] <= '7');
            }
        }
        let mut k: usize = 0;
        while k < CHECKSUM_WIDTH
            invariant
                k <= 6,
                digits@.len() == 6,
                is_ascii_chars(digits@),
                patched@.len() == whole.len(),
                whole.len() >= 154,
                patched@ == whole.take(148) + ascii_bytes(digits@.take(k as int)) + whole.skip(
                    148 + k,
                ),
            decreases 6 - k,
        {
            let digit: u8 = digits.as_str().get_ascii(k);
            patched.set(CHECKSUM_OFFSET + k, digit);
            k = k + 1;
            assert(patched@ =~= whole.take(148) + ascii_bytes(digits@.take(k as int))
                + whole.skip(148 + k));
        }
        assert(digits@.take(6) =~= digits@);
        patched
    }
}

} // verus!
