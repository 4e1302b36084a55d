//! The header record of one file: a name field of 100 bytes, then fixed and
//! numeric fields at fixed offsets, 512 bytes in all.
//!
//! The header is first made as text, because the checksum is taken over its
//! characters; the bytes of the record are that text written as UTF-8.

use crate::codec::{
    lemma_padded_octal, octal_digits, octal_value, padded_octal, repeated, zero_bytes,
};
use crate::text::{
    ascii_bytes, ascii_text, lemma_ascii_round_trip, lemma_encode_ascii, lemma_encode_concat,
    utf8_len,
};
use vstd::prelude::*;
use vstd::utf8::*;

verus! {

/// The width of the name field, in bytes.
pub const NAME_WIDTH: usize = 100;

/// The number of octal digits in the size field and in the modification time field.
pub const NUMBER_WIDTH: usize = 11;

/// The least number that has more digits than the size field and the
/// modification time field hold: eight to the power 11.
pub const NUMBER_LIMIT: u64 = 0o100_000_000_000;

/// The text of the fields that follow the name field, for a file of `size`
/// bytes last modified at `mtime` seconds after the Unix epoch:
/// mode, owner, group, size, modification time, the checksum field filled with
/// zeros, the type flag of a regular file, filler, the format tag, filler.
pub open spec fn header_fields(size: nat, mtime: nat) -> Seq<char> {
    "0100777\0"@ + "0000000\0"@ + "0000000\0"@ + padded_octal(size, 11) + "\0"@ + padded_octal(
        mtime,
        11,
    ) + "\0"@ + "000000\0 "@ + "0"@ + repeated('\0', 100) + "ustar\0"@ + "00"@ + repeated(
        '\0',
        247,
    )
}

/// A file of this name, size and modification time has a header: the name
/// fits the name field, and the two numbers fit their fields.
pub open spec fn fits_header(name: Seq<char>, size: nat, mtime: nat) -> bool {
    &&& utf8_len(name) <= 100
    &&& octal_digits(size).len() <= 11
    &&& octal_digits(mtime).len() <= 11
}

/// The text of the header of the file `name`, before the checksum is written:
/// the name, NUL filler up to 100 bytes, and the other fields.
/// Meant for a name of at most 100 bytes.
pub open spec fn header_text(name: Seq<char>, size: nat, mtime: nat) -> Seq<char> {
    name + repeated('\0', (100 - utf8_len(name)) as nat) + header_fields(size, mtime)
}

/// The bytes of the header of the file `name`, before the checksum is written.
pub open spec fn header_bytes(name: Seq<char>, size: nat, mtime: nat) -> Seq<u8> {
    encode_utf8(header_text(name, size, mtime))
}

/// The `width` bytes of `record` from `offset` on.
pub open spec fn field(record: Seq<u8>, offset: int, width: int) -> Seq<u8> {
    record.subrange(offset, offset + width)
}

/// The fields after the name are 412 ASCII characters.
pub proof fn lemma_header_fields(size: nat, mtime: nat)
    requires
        octal_digits(size).len() <= 11,
        octal_digits(mtime).len() <= 11,
    ensures
        header_fields(size, mtime).len() == 412,
        is_ascii_chars(header_fields(size, mtime)),
{
    reveal_strlit("0100777\0");
    reveal_strlit("0000000\0");
    reveal_strlit("\0");
    reveal_strlit("000000\0 ");
    reveal_strlit("0");
    reveal_strlit("ustar\0");
    reveal_strlit("00");
    lemma_padded_octal(size, 11);
    lemma_padded_octal(mtime, 11);
    let s = padded_octal(size, 11);
    let m = padded_octal(mtime, 11);
    assert(is_ascii_chars(s)) by {
        assert forall|i: int| 0 <= i < s.len() implies '\0' <= #[trigger] s[i] <= '\u{7f}' by {
            assert('0' <= s[i] <= '7');
        }
    }
    assert(is_ascii_chars(m)) by {
        assert forall|i: int| 0 <= i < m.len() implies '\0' <= #[trigger] m[i] <= '\u{7f}' by {
            assert('0' <= m[i] <= '7');
        }
    }
    let f = header_fields(size, mtime);
    assert forall|i: int| 0 <= i < f.len() implies '\0' <= #[trigger] f[i] <= '\u{7f}' by {
        if 24 <= i < 35 {
            assert(f[i] == s[i - 24]);
        } else if 36 <= i < 47 {
            assert(f[i] == m[i - 36]);
        }
    }
}

/// The bytes of a header are the bytes of the name, zero bytes up to offset
/// 100, and one byte for each character of the other fields: 512 bytes.
pub proof fn lemma_header_bytes(name: Seq<char>, size: nat, mtime: nat)
    requires
        fits_header(name, size, mtime),
    ensures
        header_bytes(name, size, mtime) == encode_utf8(name) + zero_bytes(
            (100 - utf8_len(name)) as nat,
        ) + ascii_bytes(header_fields(size, mtime)),
        header_bytes(name, size, mtime).len() == 512,
{
    let fill = repeated('\0', (100 - utf8_len(name)) as nat);
    let fields = header_fields(size, mtime);
    lemma_header_fields(size, mtime);
    lemma_encode_concat(name + fill, fields);
    lemma_encode_concat(name, fill);
    lemma_encode_ascii(fill);
    lemma_encode_ascii(fields);
    assert(ascii_bytes(fill) =~= zero_bytes((100 - utf8_len(name)) as nat));
}

/// The layout of a header: every field stands at its offset, with its
/// width and its content, and the header is 512 bytes long.
///
/// The name field holds the bytes of the name and zero bytes after them. The
/// mode, owner and group are fixed. Size and modification time are eleven
/// octal digits and a NUL; read as octal, the digits give the number back.
/// The checksum field holds six zeros, a NUL and a space until the checksum
/// is written. Then come the type flag of a regular file, filler, the format
/// tag with its version, and filler to the end of the block.
pub proof fn lemma_header_layout(name: Seq<char>, size: nat, mtime: nat)
    requires
        fits_header(name, size, mtime),
    ensures
        header_bytes(name, size, mtime).len() == 512,
        field(header_bytes(name, size, mtime), 0, 100) == encode_utf8(name) + zero_bytes(
            (100 - utf8_len(name)) as nat,
        ),
        field(header_bytes(name, size, mtime), 100, 8) == ascii_bytes("0100777\0"@),
        field(header_bytes(name, size, mtime), 108, 8) == ascii_bytes("0000000\0"@),
        field(header_bytes(name, size, mtime), 116, 8) == ascii_bytes("0000000\0"@),
        field(header_bytes(name, size, mtime), 124, 12) == ascii_bytes(
            padded_octal(size, 11) + "\0"@,
        ),
        octal_value(ascii_text(field(header_bytes(name, size, mtime), 124, 11))) == size,
        field(header_bytes(name, size, mtime), 136, 12) == ascii_bytes(
            padded_octal(mtime, 11) + "\0"@,
        ),
        octal_value(ascii_text(field(header_bytes(name, size, mtime), 136, 11))) == mtime,
        field(header_bytes(name, size, mtime), 148, 8) == ascii_bytes("000000\0 "@),
        field(header_bytes(name, size, mtime), 156, 1) == ascii_bytes("0"@),
        field(header_bytes(name, size, mtime), 157, 100) == zero_bytes(100),
        field(header_bytes(name, size, mtime), 257, 8) == ascii_bytes("ustar\0"@ + "00"@),
        field(header_bytes(name, size, mtime), 265, 247) == zero_bytes(247),
{
    let h = header_bytes(name, size, mtime);
    let f = header_fields(size, mtime);
    let n = utf8_len(name) as int;
    lemma_header_bytes(name, size, mtime);
    lemma_header_fields(size, mtime);
    reveal_strlit("0100777\0");
    reveal_strlit("0000000\0");
    reveal_strlit("\0");
    reveal_strlit("000000\0 ");
    reveal_strlit("0");
    reveal_strlit("ustar\0");
    reveal_strlit("00");
    lemma_padded_octal(size, 11);
    lemma_padded_octal(mtime, 11);
    assert forall|i: int| 100 <= i < 512 implies #[trigger] h[i] == f[i - 100] as u8 by {}
    assert(field(h, 0, 100) =~= encode_utf8(name) + zero_bytes((100 - n) as nat));
    assert(field(h, 100, 8) =~= ascii_bytes("0100777\0"@));
    assert(field(h, 108, 8) =~= ascii_bytes("0000000\0"@));
    assert(field(h, 116, 8) =~= ascii_bytes("0000000\0"@));
    assert(field(h, 124, 12) =~= ascii_bytes(padded_octal(size, 11) + "\0"@));
    assert(field(h, 136, 12) =~= ascii_bytes(padded_octal(mtime, 11) + "\0"@));
    assert(field(h, 148, 8) =~= ascii_bytes("000000\0 "@));
    assert(field(h, 156, 1) =~= ascii_bytes("0"@));
    assert(field(h, 157, 100) =~= zero_bytes(100));
    assert(field(h, 257, 8) =~= ascii_bytes("ustar\0"@ + "00"@));
    assert(field(h, 265, 247) =~= zero_bytes(247));
    assert(field(h, 124, 11) =~= ascii_bytes(padded_octal(size, 11)));
    assert(field(h, 136, 11) =~= ascii_bytes(padded_octal(mtime, 11)));
    lemma_ascii_round_trip(padded_octal(size, 11));
    lemma_ascii_round_trip(padded_octal(mtime, 11));
}

} // verus!
