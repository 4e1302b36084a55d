//! One input file and the record that stands for it in an archive: a header
//! of 512 bytes with its checksum, then the content in whole blocks.

use crate::checksum::{
    checksum_text, checksum_value, has_checksum, lemma_has_checksum, lemma_patch_checksum,
    patch_checksum, CHECKSUM_BIAS, CHECKSUM_LIMIT,
};
use crate::codec::{
    block_pad, data_block, lemma_block_pad_least, lemma_data_block_len, lemma_octal_width,
    lemma_padded_octal, pow8, EOF_PADDING,
};
use crate::header::{
    field, fits_header, header_bytes, header_text, lemma_header_bytes, lemma_header_fields,
    lemma_header_layout, NAME_WIDTH, NUMBER_LIMIT, NUMBER_WIDTH,
};
use crate::text::{
    ascii_bytes, byte_len, char_sum, lemma_char_sum_ascii, lemma_char_sum_bound,
    lemma_char_sum_floor, lemma_chars_within_bytes, sum_chars, utf8_len,
};
use crate::Tatar;
use vstd::prelude::*;
use vstd::string::*;
use vstd::utf8::*;

verus! {

/// One input file as the encoder sees it.
#[derive(Debug, Clone, PartialEq, Eq)]
pub struct SourceFile {
    /// The path of the file, as it is written into the name field.
    pub path: String,
    /// The time of the last modification, in seconds after the Unix epoch
    /// (before it where negative).
    pub modified: i64,
    /// The whole content of the file.
    pub contents: Vec<u8>,
}

/// The record of a file before its checksum is written: header, then data section.
pub open spec fn plain_record(name: Seq<char>, mtime: nat, content: Seq<u8>) -> Seq<u8> {
    header_bytes(name, content.len(), mtime) + data_block(content)
}

/// The record of a file in an archive.
pub open spec fn tar_record(name: Seq<char>, mtime: nat, content: Seq<u8>) -> Seq<u8> {
    patch_checksum(
        plain_record(name, mtime, content),
        checksum_text(header_text(name, content.len(), mtime)),
    )
}

/// The sum of the characters of a header is never below 64, so a header has
/// a checksum exactly when the sum is below `64 + 8^6`.
pub proof fn lemma_header_sum(name: Seq<char>, size: nat, mtime: nat)
    requires
        fits_header(name, size, mtime),
    ensures
        char_sum(header_text(name, size, mtime)) >= 64,
        has_checksum(header_text(name, size, mtime)) <==> char_sum(
            header_text(name, size, mtime),
        ) < 64 + 262144,
{
    let h = header_text(name, size, mtime);
    let start = name.len() + (100 - utf8_len(name));
    lemma_header_fields(size, mtime);
    lemma_chars_within_bytes(name);
    reveal_strlit("0100777\0");
    assert(h[start + 4] == '7');
    assert(h[start + 5] == '7');
    lemma_char_sum_floor(h, start + 4, start + 5);
    lemma_has_checksum(h);
}

/// A header with a name of ASCII characters always has a checksum.
pub proof fn lemma_ascii_name_has_checksum(name: Seq<char>, size: nat, mtime: nat)
    requires
        is_ascii_chars(name),
        fits_header(name, size, mtime),
    ensures
        has_checksum(header_text(name, size, mtime)),
{
    let h = header_text(name, size, mtime);
    lemma_header_fields(size, mtime);
    lemma_chars_within_bytes(name);
    assert(is_ascii_chars(h));
    lemma_char_sum_ascii(h);
    lemma_header_sum(name, size, mtime);
}

/// The layout of a record: the header with the checksum written into it,
/// then the data section.
///
/// The checksum stands in the six bytes from offset 148. The NUL and the
/// space after it, and every other byte of the header, are as they were when
/// the checksum was taken. The content of the file starts at offset 512 and is
/// followed by zero bytes up to a whole number of blocks.
pub proof fn lemma_record_layout(name: Seq<char>, mtime: nat, content: Seq<u8>)
    requires
        fits_header(name, content.len(), mtime),
        has_checksum(header_text(name, content.len(), mtime)),
    ensures
        tar_record(name, mtime, content).len() == 512 + block_pad(content.len()),
        field(tar_record(name, mtime, content), 0, 148) == field(
            header_bytes(name, content.len(), mtime),
            0,
            148,
        ),
        field(tar_record(name, mtime, content), 148, 6) == ascii_bytes(
            checksum_text(header_text(name, content.len(), mtime)),
        ),
        field(tar_record(name, mtime, content), 154, 2) == ascii_bytes("\0 "@),
        field(tar_record(name, mtime, content), 154, 358) == field(
            header_bytes(name, content.len(), mtime),
            154,
            358,
        ),
        field(tar_record(name, mtime, content), 512, block_pad(content.len()) as int)
            == data_block(content),
        field(tar_record(name, mtime, content), 512, content.len() as int) == content,
{
    let h = header_bytes(name, content.len(), mtime);
    let plain = plain_record(name, mtime, content);
    let digits = checksum_text(header_text(name, content.len(), mtime));
    let r = tar_record(name, mtime, content);
    lemma_header_layout(name, content.len(), mtime);
    lemma_data_block_len(content);
    lemma_block_pad_least(content.len(), 1);
    lemma_padded_octal(checksum_value(header_text(name, content.len(), mtime)), 6);
    lemma_patch_checksum(plain, digits);
    reveal_strlit("\0 ");
    reveal_strlit("000000\0 ");
    assert(field(r, 0, 148) =~= field(h, 0, 148));
    assert(field(r, 148, 6) =~= ascii_bytes(digits));
    assert(field(r, 154, 358) =~= field(h, 154, 358));
    assert(field(r, 154, 2) =~= ascii_bytes("\0 "@)) by {
        assert(field(h, 148, 8)[6] == h[154]);
        assert(field(h, 148, 8)[7] == h[155]);
        assert(r[154] == h[154]);
        assert(r[155] == h[155]);
    }
    assert(field(r, 512, block_pad(content.len()) as int) =~= data_block(content));
    assert(field(r, 512, content.len() as int) =~= content);
}

impl SourceFile {
    /// The text of the header of this file, before the checksum is written.
    pub open spec fn header_text(&self) -> Seq<char> {
        header_text(self.path@, self.contents@.len(), self.modified as nat)
    }

    /// The record of this file in an archive.
    pub open spec fn record(&self) -> Seq<u8> {
        tar_record(self.path@, self.modified as nat, self.contents@)
    }

    /// The file can be written into an archive: it was not modified before
    /// the Unix epoch, its header can be made, the checksum of the header fits
    /// its field, and the length of its data section is a length that this
    /// machine can hold.
    pub open spec fn encodable(&self) -> bool {
        &&& self.modified >= 0
        &&& fits_header(self.path@, self.contents@.len(), self.modified as nat)
        &&& has_checksum(self.header_text())
        &&& block_pad(self.contents@.len()) <= usize::MAX
    }

    /// An archive of several files takes this file: its path is shorter than
    /// the name field.
    pub open spec fn included(&self) -> bool {
        utf8_len(self.path@) < 100
    }

    /// Tells whether an archive of several files takes this file.
    pub fn is_included(&self) -> (taken: bool)
        ensures
            taken == self.included(),
    {
        byte_len(self.path.as_str()) < NAME_WIDTH
    }

    /// Tells whether the file can be written into an archive.
    pub fn is_encodable(&self) -> (ok: bool)
        ensures
            ok == self.encodable(),
    {
        let size: usize = self.contents.len();
        proof {
            reveal_with_fuel(pow8, 12);
            assert(pow8(11) == 8589934592);
            lemma_octal_width(size as nat, 11);
            lemma_octal_width(self.modified as nat, 11);
        }
        if byte_len(self.path.as_str()) > NAME_WIDTH || size as u64 >= NUMBER_LIMIT
            || self.modified < 0 || self.modified as u64 >= NUMBER_LIMIT {
            return false;
        }
        if size > 0 {
            let blocks: usize = (size - 1) / EOF_PADDING + 1;
            if blocks.checked_mul(EOF_PADDING).is_none() {
                return false;
            }
        }
        let header = Tatar::header_for(self.path.as_str(), size as u64, self.modified as u64);
        proof {
            lemma_header_fields(size as nat, self.modified as nat);
            lemma_chars_within_bytes(self.path@);
            lemma_char_sum_bound(header@);
            lemma_has_checksum(header@);
        }
        let sum: u64 = sum_chars(header.as_str());
        CHECKSUM_BIAS <= sum && sum - CHECKSUM_BIAS < CHECKSUM_LIMIT
    }
}

impl Tatar {
    /// Makes the text of a header, before the checksum is written.
    pub fn header_for(filename: &str, size: u64, mtime: u64) -> (header: String)
        requires
            fits_header(filename@, size as nat, mtime as nat),
        ensures
            header@ == header_text(filename@, size as nat, mtime as nat),
    {
        let size_text = Self::dec_to_padded_octal(size, NUMBER_WIDTH);
        let modified = Self::dec_to_padded_octal(mtime, NUMBER_WIDTH);
        let mut fields = "0100777\0".to_owned();
        fields.append("0000000\0");
        fields.append("0000000\0");
        fields.append(size_text.as_str());
        fields.append("\0");
        fields.append(modified.as_str());
        fields.append("\0");
        fields.append("000000\0 ");
        fields.append("0");
        fields.append(Self::pad_data(101).as_str());
        fields.append("ustar\0");
        fields.append("00");
        fields.append(Self::pad_data(248).as_str());
        let mut header = filename.to_owned();
        header.append(Self::pad_data(NAME_WIDTH + 1 - byte_len(filename)).as_str());
        header.append(fields.as_str());
        header
    }

    /// Makes the record of one file, without its checksum: the header, then
    /// the content filled up to whole blocks. Returns the text of the header,
    /// over which the checksum is taken, and the bytes of the record.
    pub fn write_tar_entry(filename: &str, mtime: u64, contents: &[u8]) -> (made: (
        String,
        Vec<u8>,
    ))
        requires
            fits_header(filename@, contents@.len(), mtime as nat),
            block_pad(contents@.len()) <= usize::MAX,
        ensures
            made.0@ == header_text(filename@, contents@.len(), mtime as nat),
            made.1@ == plain_record(filename@, mtime as nat, contents@),
            made.1@.len() == 512 + block_pad(contents@.len()),
    {
        proof {
            lemma_header_bytes(filename@, contents@.len(), mtime as nat);
        }
        let header = Self::header_for(filename, contents.len() as u64, mtime);
        let mut record: Vec<u8> = header.as_str().as_bytes_vec();
        let mut data = Self::write_padded_data(contents);
        record.append(&mut data);
        (header, record)
    }
}

} // verus!
