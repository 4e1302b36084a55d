//! Numbers as fixed-width text, NUL filler, and the rounding of a data section
//! to whole blocks.

use crate::Tatar;
use vstd::prelude::*;
use vstd::string::*;

verus! {

/// The size of a block: headers and data sections are whole multiples of it.
pub const EOF_PADDING: usize = 512;

/// The character that writes the digit `d`, for `d` below ten.
pub open spec fn digit_char(d: nat) -> char {
    (d + 48) as char
}

/// The digits of `n` in the given base, most significant first, without
/// leading zeros (a single `0` for zero). Meant for a base from two to ten.
pub open spec fn digits_in(n: nat, base: nat) -> Seq<char>
    decreases n,
{
    if base < 2 || n < base {
        seq![digit_char(n)]
    } else {
        proof {
            assert(n / base < n) by (nonlinear_arith)
                requires
                    2 <= base <= n,
            ;
        }
        digits_in(n / base, base).push(digit_char(n % base))
    }
}

/// The octal digits of `n`, most significant first, without leading zeros.
pub open spec fn octal_digits(n: nat) -> Seq<char> {
    digits_in(n, 8)
}

/// The decimal digits of `n`, most significant first, without leading zeros.
pub open spec fn decimal_digits(n: nat) -> Seq<char> {
    digits_in(n, 10)
}

/// `count` copies of the character `c`.
pub open spec fn repeated(c: char, count: nat) -> Seq<char> {
    Seq::new(count, |i: int| c)
}

/// `n` in octal, filled on the left with `0` up to `width` characters.
/// Meant for `octal_digits(n).len() <= width`.
pub open spec fn padded_octal(n: nat, width: nat) -> Seq<char> {
    repeated('0', (width - octal_digits(n).len()) as nat) + octal_digits(n)
}

/// The number that a text of octal digits writes.
pub open spec fn octal_value(text: Seq<char>) -> nat
    decreases text.len(),
{
    if text.len() == 0 {
        0
    } else {
        (octal_value(text.drop_last()) * 8 + (text.last() as nat - 48)) as nat
    }
}

/// Every character of `text` is one of `0` to `7`.
pub open spec fn is_octal_text(text: Seq<char>) -> bool {
    forall|i: int| 0 <= i < text.len() ==> '0' <= #[trigger] text[i] <= '7'
}

/// Eight to the power `k`.
pub open spec fn pow8(k: nat) -> nat
    decreases k,
{
    if k == 0 {
        1
    } else {
        8 * pow8((k - 1) as nat)
    }
}

/// A number has at most `k` octal digits exactly when it is below `8^k`.
pub proof fn lemma_octal_width(n: nat, k: nat)
    requires
        k >= 1,
    ensures
        octal_digits(n).len() >= 1,
        octal_digits(n).len() <= k <==> n < pow8(k),
    decreases n,
{
    lemma_pow8_positive((k - 1) as nat);
    if n >= 8 {
        if k >= 2 {
            lemma_octal_width(n / 8, (k - 1) as nat);
        } else {
            lemma_octal_width(n / 8, 1);
        }
    }
}

/// A power of eight is at least one.
pub proof fn lemma_pow8_positive(k: nat)
    ensures
        pow8(k) >= 1,
    decreases k,
{
    if k > 0 {
        lemma_pow8_positive((k - 1) as nat);
    }
}

/// Padded octal text has exactly the width asked for, consists of octal digits,
/// and writes the number it was made from.
pub proof fn lemma_padded_octal(n: nat, width: nat)
    requires
        octal_digits(n).len() <= width,
    ensures
        padded_octal(n, width).len() == width,
        is_octal_text(padded_octal(n, width)),
        octal_value(padded_octal(n, width)) == n,
{
    lemma_octal_digits(n);
    lemma_octal_value_padded(octal_digits(n), (width - octal_digits(n).len()) as nat);
}

/// The digits of a number are octal digits, and they write that number.
pub proof fn lemma_octal_digits(n: nat)
    ensures
        is_octal_text(octal_digits(n)),
        octal_value(octal_digits(n)) == n,
    decreases n,
{
    if n < 8 {
        let d = seq![digit_char(n)];
        assert(d.drop_last() =~= Seq::<char>::empty());
        assert(octal_value(d.drop_last()) == 0);
    } else {
        lemma_octal_digits(n / 8);
        let d = octal_digits(n);
        assert(d.drop_last() =~= octal_digits(n / 8));
    }
}

/// Zeros in front of a text do not change the number it writes.
pub proof fn lemma_octal_value_padded(text: Seq<char>, zeros: nat)
    ensures
        octal_value(repeated('0', zeros) + text) == octal_value(text),
        is_octal_text(text) ==> is_octal_text(repeated('0', zeros) + text),
    decreases text.len(),
{
    let whole = repeated('0', zeros) + text;
    if text.len() == 0 {
        assert(whole =~= repeated('0', zeros));
        lemma_octal_value_zeros(zeros);
    } else {
        lemma_octal_value_padded(text.drop_last(), zeros);
        assert(whole.drop_last() =~= repeated('0', zeros) + text.drop_last());
        assert(whole.last() == text.last());
    }
}

/// A text of zeros writes zero.
pub proof fn lemma_octal_value_zeros(zeros: nat)
    ensures
        octal_value(repeated('0', zeros)) == 0,
    decreases zeros,
{
    if zeros > 0 {
        lemma_octal_value_zeros((zeros - 1) as nat);
        assert(repeated('0', zeros).drop_last() =~= repeated('0', (zeros - 1) as nat));
    }
}

/// The length of the filler that [`Tatar::pad_data`] makes when asked for `length`:
/// one less than asked, and nothing when asked for nothing.
pub open spec fn pad_len(length: nat) -> nat {
    if length == 0 {
        0
    } else {
        (length - 1) as nat
    }
}

/// The length of a data section that holds `len` bytes of content: the least
/// multiple of the block size that is not below `len`, and never less than one block.
pub open spec fn block_pad(len: nat) -> nat {
    if len == 0 {
        512
    } else {
        ((len + 511) / 512) * 512
    }
}

/// `count` zero bytes.
pub open spec fn zero_bytes(count: nat) -> Seq<u8> {
    Seq::new(count, |i: int| 0u8)
}

/// The data section for `content`: the content, then zero bytes up to `block_pad`.
pub open spec fn data_block(content: Seq<u8>) -> Seq<u8> {
    content + zero_bytes((block_pad(content.len()) - content.len()) as nat)
}

/// `block_pad(len)` is a multiple of the block size, covers `len`, is at least
/// one block, and no multiple of the block size with these properties is smaller.
pub proof fn lemma_block_pad_least(len: nat, blocks: nat)
    ensures
        block_pad(len) % 512 == 0,
        block_pad(len) >= len,
        block_pad(len) >= 512,
        blocks >= 1 && blocks * 512 >= len ==> block_pad(len) <= blocks * 512,
{
}

/// A data section is as long as `block_pad` says.
pub proof fn lemma_data_block_len(content: Seq<u8>)
    ensures
        data_block(content).len() == block_pad(content.len()),
{
    lemma_block_pad_least(content.len(), 1);
}

/// The text of one digit.
pub(crate) fn digit_str(d: u8) -> (text: &'static str)
    requires
        d < 10,
    ensures
        text@ == seq![digit_char(d as nat)],
{
    proof {
        reveal_strlit("0");
        reveal_strlit("1");
        reveal_strlit("2");
        reveal_strlit("3");
        reveal_strlit("4");
        reveal_strlit("5");
        reveal_strlit("6");
        reveal_strlit("7");
        reveal_strlit("8");
        reveal_strlit("9");
    }
    let text = match d {
        0 => "0",
        1 => "1",
        2 => "2",
        3 => "3",
        4 => "4",
        5 => "5",
        6 => "6",
        7 => "7",
        8 => "8",
        _ => "9",
    };
    assert(text@ =~= seq![digit_char(d as nat)]);
    text
}

/// The digits of `num` in the given base as numbers, least significant first.
pub(crate) fn digits_reversed(num: u64, base: u64) -> (digits: Vec<u8>)
    requires
        2 <= base <= 10,
    ensures
        digits@.len() == digits_in(num as nat, base as nat).len(),
        forall|i: int|
            0 <= i < digits@.len() ==> digits@[i] < base && digit_char(
                #[trigger] digits@[i] as nat,
            ) == digits_in(num as nat, base as nat)[digits@.len() - 1 - i],
{
    let mut digits: Vec<u8> = Vec::new();
    let mut rest: u64 = num;
    let ghost mut emitted: Seq<char> = Seq::empty();
    loop
        invariant_except_break
            digits_in(num as nat, base as nat) == digits_in(rest as nat, base as nat) + emitted,
        invariant
            2 <= base <= 10,
            emitted.len() == digits@.len(),
            forall|i: int|
                0 <= i < digits@.len() ==> digits@[i] < base && digit_char(
                    #[trigger] digits@[i] as nat,
                ) == emitted[emitted.len() - 1 - i],
        ensures
            digits_in(num as nat, base as nat) == emitted,
            emitted.len() == digits@.len(),
            forall|i: int|
                0 <= i < digits@.len() ==> digits@[i] < base && digit_char(
                    #[trigger] digits@[i] as nat,
                ) == emitted[emitted.len() - 1 - i],
        decreases rest,
    {
        let d: u8 = (rest % base) as u8;
        assert(rest < base ==> rest % base == rest) by (nonlinear_arith)
            requires
                2 <= base,
        ;
        let ghost before = emitted;
        let ghost pending = rest;
        digits.push(d);
        proof {
            emitted = seq![digit_char(d as nat)] + before;
        }
        if rest < base {
            assert(digits_in(pending as nat, base as nat) + before =~= emitted);
            break ;
        }
        rest = rest / base;
        assert(digits_in(pending as nat, base as nat) + before =~= digits_in(
            rest as nat,
            base as nat,
        ) + emitted);
    }
    digits
}

impl Tatar {
    /// Writes `num` in octal, filled on the left with `0` to exactly `length` characters.
    ///
    /// The digits of `num` must fit: a number with more octal digits than
    /// `length` has no such text.
    pub fn dec_to_padded_octal(num: u64, length: usize) -> (text: String)
        requires
            octal_digits(num as nat).len() <= length,
        ensures
            text@ == padded_octal(num as nat, length as nat),
            text@.len() == length,
            is_octal_text(text@),
            octal_value(text@) == num,
    {
        let digits = digits_reversed(num, 8);
        let mut text = String::new();
        let fill: usize = length - digits.len();
        let mut written: usize = 0;
        while written < fill
            invariant
                written <= fill,
                text@ == repeated('0', written as nat),
            decreases fill - written,
        {
            proof {
                reveal_strlit("0");
            }
            text.append("0");
            written = written + 1;
            assert(text@ =~= repeated('0', written as nat));
        }
        let mut left: usize = digits.len();
        while left > 0
            invariant
                left <= digits@.len(),
                digits@.len() == octal_digits(num as nat).len(),
                forall|i: int|
                    0 <= i < digits@.len() ==> digits@[i] < 8 && digit_char(
                        #[trigger] digits@[i] as nat,
                    ) == octal_digits(num as nat)[digits@.len() - 1 - i],
                text@ == repeated('0', fill as nat) + octal_digits(num as nat).take(
                    digits@.len() - left,
                ),
            decreases left,
        {
            left = left - 1;
            text.append(digit_str(digits[left]));
            assert(text@ =~= repeated('0', fill as nat) + octal_digits(num as nat).take(
                digits@.len() - left,
            ));
        }
        proof {
            assert(octal_digits(num as nat).take(digits@.len() as int) =~= octal_digits(
                num as nat,
            ));
            lemma_padded_octal(num as nat, length as nat);
        }
        text
    }

    /// Makes NUL filler: one character less than `length`, and none for a `length` of zero.
    ///
    /// A caller that wants exactly `n` filler characters asks for `n + 1`.
    pub fn pad_data(length: usize) -> (padding: String)
        ensures
            padding@ == repeated('\0', pad_len(length as nat)),
    {
        let mut padding = String::new();
        let mut i: usize = 1;
        while i < length
            invariant
                1 <= i,
                i <= length || (length == 0 && i == 1),
                padding@ == repeated('\0', (i - 1) as nat),
            decreases length - i,
        {
            proof {
                reveal_strlit("\0");
            }
            padding.append("\0");
            i = i + 1;
            assert(padding@ =~= repeated('\0', (i - 1) as nat));
        }
        padding
    }

    /// The length of the data section for content of `len` bytes.
    pub fn block_pad(len: usize) -> (padded: usize)
        requires
            block_pad(len as nat) <= usize::MAX,
        ensures
            padded == block_pad(len as nat),
    {
        if len == 0 {
            EOF_PADDING
        } else {
            let blocks: usize = (len - 1) / EOF_PADDING + 1;
            blocks * EOF_PADDING
        }
    }

    /// Lays out the data section of one file: the content, then zero bytes up
    /// to the next whole block (a whole block of zeros for empty content).
    pub fn write_padded_data(data: &[u8]) -> (block: Vec<u8>)
        requires
            block_pad(data@.len()) <= usize::MAX,
        ensures
            block@ == data_block(data@),
            block@.len() == block_pad(data@.len()),
    {
        let total: usize = Self::block_pad(data.len());
        proof {
            lemma_block_pad_least(data@.len(), 1);
        }
        let mut block: Vec<u8> = Vec::new();
        let mut i: usize = 0;
        while i < data.len()
            invariant
                i <= data@.len(),
                block@ == data@.take(i as int),
            decreases data@.len() - i,
        {
            block.push(data[i]);
            i = i + 1;
            assert(block@ =~= data@.take(i as int));
        }
        assert(data@.take(i as int) =~= data@);
        while i < total
            invariant
                data@.len() <= i <= total,
                block@ == data@ + zero_bytes((i - data@.len()) as nat),
            decreases total - i,
        {
            block.push(0u8);
            i = i + 1;
            assert(block@ =~= data@ + zero_bytes((i - data@.len()) as nat));
        }
        block
    }
}

} // verus!
