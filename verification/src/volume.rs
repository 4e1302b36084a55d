//! Archives of one file and of several: which files are taken, under which
//! part names, and how their records make up the archive.

use crate::checksum::{checksum_text, checksum_value, lemma_patch_checksum};
use crate::codec::{
    block_pad, decimal_digits, digit_char, digit_str, digits_reversed, lemma_data_block_len,
    lemma_padded_octal, repeated, zero_bytes, EOF_PADDING,
};
use crate::entry::{plain_record, SourceFile};
use crate::header::lemma_header_bytes;
use crate::pattern::{regex_replace_all, replace_all};
use crate::text::{ascii_bytes, lemma_encode_ascii};
use crate::Tatar;
use vstd::prelude::*;
use vstd::string::*;
use vstd::utf8::*;

verus! {

/// Why an archive could not be made.
#[derive(Debug, Clone, Copy, PartialEq, Eq)]
pub enum TarError {
    /// The pattern that finds the suffix of the archive name was refused.
    Pattern,
}

/// One file taken into an archive of several, with the name of its part.
#[derive(Debug, Clone, PartialEq, Eq)]
pub struct TarEntry {
    /// The name of the archive part that holds the file.
    pub part: String,
    /// The path of the file.
    pub file: String,
    /// The place of the file in the list that the archive was asked for.
    pub index: usize,
}

/// The pattern that finds the suffix `.tar` at the end of an archive name.
pub const SUFFIX_PATTERN: &'static str = "\\.tar$";

/// What stands in place of the suffix in the name of part `index`: a dot and
/// the index in decimal.
pub open spec fn part_suffix(index: nat) -> Seq<char> {
    seq!['.'] + decimal_digits(index)
}

/// The name of part `index` of the archive `tarname`: the archive name with
/// its suffix `.tar` replaced; `None` where the pattern is refused.
pub open spec fn part_name(tarname: Seq<char>, index: nat) -> Option<Seq<char>> {
    regex_replace_all(SUFFIX_PATTERN@, tarname, part_suffix(index))
}

/// The places of the files that an archive of several takes, among the first
/// `n` of `files`, in rising order.
pub open spec fn included_indices(files: Seq<SourceFile>, n: nat) -> Seq<int>
    decreases n,
{
    if n == 0 {
        Seq::empty()
    } else if files[n - 1].included() {
        included_indices(files, (n - 1) as nat).push(n - 1)
    } else {
        included_indices(files, (n - 1) as nat)
    }
}

/// The records of the files at the places `indices`, one after the other.
pub open spec fn records_of(files: Seq<SourceFile>, indices: Seq<int>) -> Seq<u8>
    decreases indices.len(),
{
    if indices.len() == 0 {
        Seq::empty()
    } else {
        records_of(files, indices.drop_last()) + files[indices.last()].record()
    }
}

/// The length of the records of the files at the places `indices`: for each
/// file a header and its data section.
pub open spec fn records_len(files: Seq<SourceFile>, indices: Seq<int>) -> nat
    decreases indices.len(),
{
    if indices.len() == 0 {
        0
    } else {
        records_len(files, indices.drop_last()) + 512 + block_pad(
            files[indices.last()].contents@.len(),
        )
    }
}

/// What ends every archive: two blocks of zero bytes, then 1023 zero bytes more.
pub open spec fn end_of_archive() -> Seq<u8> {
    zero_bytes(1024) + zero_bytes(1023)
}

/// The archive of the single file `file`.
pub open spec fn single_archive(file: SourceFile) -> Seq<u8> {
    file.record() + end_of_archive()
}

/// The archive of those of `files` that an archive of several takes.
pub open spec fn multi_archive(files: Seq<SourceFile>) -> Seq<u8> {
    records_of(files, included_indices(files, files.len())) + end_of_archive()
}

/// Buffers written one after the other.
pub open spec fn joined(parts: Seq<Vec<u8>>) -> Seq<u8>
    decreases parts.len(),
{
    if parts.len() == 0 {
        Seq::empty()
    } else {
        joined(parts.drop_last()) + parts.last()@
    }
}

impl TarEntry {
    /// The entry stands for one of `files` in the archive `tarname`: it names a
    /// file that the archive takes, by its place and its path, and its part
    /// name is the one of that place.
    pub open spec fn wf(&self, tarname: Seq<char>, files: Seq<SourceFile>) -> bool {
        &&& self.index < files.len()
        &&& files[self.index as int].included()
        &&& self.file@ == files[self.index as int].path@
        &&& part_name(tarname, self.index as nat) == Some(self.part@)
    }
}

/// The places that a list of entries names.
pub open spec fn entry_indices(entries: Seq<TarEntry>) -> Seq<int> {
    Seq::new(entries.len(), |k: int| entries[k].index as int)
}

/// The places of the files taken are in range, rise, and are exactly the
/// places of the files whose path is shorter than the name field.
pub proof fn lemma_included_indices(files: Seq<SourceFile>, n: nat)
    requires
        n <= files.len(),
    ensures
        included_indices(files, n).len() <= n,
        forall|k: int|
            0 <= k < included_indices(files, n).len() ==> 0 <= #[trigger] included_indices(
                files,
                n,
            )[k] < n && files[included_indices(files, n)[k]].included(),
        forall|j: int, k: int|
            0 <= j < k < included_indices(files, n).len() ==> included_indices(files, n)[j]
                < included_indices(files, n)[k],
        forall|i: int|
            0 <= i < n && files[i].included() ==> #[trigger] included_indices(files, n).contains(
                i,
            ),
    decreases n,
{
    if n > 0 {
        let before = included_indices(files, (n - 1) as nat);
        lemma_included_indices(files, (n - 1) as nat);
        let now = included_indices(files, n);
        assert forall|i: int| 0 <= i < n && files[i].included() implies now.contains(i) by {
            if i < n - 1 {
                assert(before.contains(i));
                let k = choose|k: int| 0 <= k < before.len() && before[k] == i;
                assert(now[k] == i);
            } else {
                assert(now[now.len() - 1] == i);
            }
        }
    }
}

/// A record is a header and a data section long.
pub proof fn lemma_record_len(file: SourceFile)
    requires
        file.encodable(),
    ensures
        file.record().len() == 512 + block_pad(file.contents@.len()),
{
    let size = file.contents@.len();
    lemma_header_bytes(file.path@, size, file.modified as nat);
    lemma_data_block_len(file.contents@);
    lemma_padded_octal(checksum_value(file.header_text()), 6);
    lemma_patch_checksum(
        plain_record(file.path@, file.modified as nat, file.contents@),
        checksum_text(file.header_text()),
    );
}

/// The records of several files are as long as their headers and data
/// sections together.
pub proof fn lemma_records_len(files: Seq<SourceFile>, indices: Seq<int>)
    requires
        forall|k: int|
            0 <= k < indices.len() ==> 0 <= #[trigger] indices[k] < files.len()
                && files[indices[k]].encodable(),
    ensures
        records_of(files, indices).len() == records_len(files, indices),
    decreases indices.len(),
{
    if indices.len() > 0 {
        lemma_records_len(files, indices.drop_last());
        lemma_record_len(files[indices.last()]);
    }
}

/// An archive of one file is as long as the header and the data section of
/// the file, and 1024 and 1023 bytes more.
pub proof fn lemma_single_archive_len(file: SourceFile)
    requires
        file.encodable(),
    ensures
        single_archive(file).len() == 512 + block_pad(file.contents@.len()) + 1024 + 1023,
{
    lemma_record_len(file);
}

/// An archive of several files is as long as the headers and data sections of
/// the files it takes, and 1024 and 1023 bytes more.
pub proof fn lemma_multi_archive_len(files: Seq<SourceFile>)
    requires
        forall|i: int|
            0 <= i < files.len() && #[trigger] files[i].included() ==> files[i].encodable(),
    ensures
        multi_archive(files).len() == records_len(files, included_indices(files, files.len()))
            + 1024 + 1023,
{
    lemma_included_indices(files, files.len());
    lemma_records_len(files, included_indices(files, files.len()));
}

/// Buffers that hold the records of the files at `indices` are, written one
/// after the other, the records of those files.
proof fn lemma_joined_records(parts: Seq<Vec<u8>>, files: Seq<SourceFile>, indices: Seq<int>)
    requires
        parts.len() == indices.len(),
        forall|k: int|
            0 <= k < parts.len() ==> (#[trigger] parts[k])@ == files[indices[k]].record(),
    ensures
        joined(parts) == records_of(files, indices),
    decreases parts.len(),
{
    if parts.len() > 0 {
        lemma_joined_records(parts.drop_last(), files, indices.drop_last());
    }
}

/// The bytes of NUL filler are zero bytes.
proof fn lemma_nul_bytes(count: nat)
    ensures
        encode_utf8(repeated('\0', count)) == zero_bytes(count),
{
    lemma_encode_ascii(repeated('\0', count));
    assert(ascii_bytes(repeated('\0', count)) =~= zero_bytes(count));
}

impl Tatar {
    /// Replaces every match of `pattern` in `name` by a dot and `index` in decimal.
    pub fn substitute(pattern: &str, name: &str, index: usize) -> (renamed: Result<
        String,
        TarError,
    >)
        ensures
            match renamed {
                Ok(text) => regex_replace_all(pattern@, name@, part_suffix(index as nat)) == Some(
                    text@,
                ),
                Err(e) => e == TarError::Pattern && regex_replace_all(
                    pattern@,
                    name@,
                    part_suffix(index as nat),
                ) is None,
            },
    {
        let digits = digits_reversed(index as u64, 10);
        let mut rep = ".".to_owned();
        proof {
            reveal_strlit(".");
            assert(rep@ =~= seq!['.'] + decimal_digits(index as nat).take(0));
        }
        let mut left: usize = digits.len();
        while left > 0
            invariant
                left <= digits@.len(),
                digits@.len() == decimal_digits(index as nat).len(),
                forall|i: int|
                    0 <= i < digits@.len() ==> digits@[i] < 10 && digit_char(
                        #[trigger] digits@[i] as nat,
                    ) == decimal_digits(index as nat)[digits@.len() - 1 - i],
                rep@ == seq!['.'] + decimal_digits(index as nat).take(digits@.len() - left),
            decreases left,
        {
            left = left - 1;
            rep.append(digit_str(digits[left]));
            assert(rep@ =~= seq!['.'] + decimal_digits(index as nat).take(
                digits@.len() - left,
            ));
        }
        assert(decimal_digits(index as nat).take(digits@.len() as int) =~= decimal_digits(
            index as nat,
        ));
        match replace_all(pattern, name, rep.as_str()) {
            Ok(text) => Ok(text),
            Err(_) => Err(TarError::Pattern),
        }
    }

    /// Makes the name of part `index` of the archive `tarname`: a suffix
    /// `.tar` of the archive name gives way to a dot and the index.
    pub fn part_name(tarname: &str, index: usize) -> (name: Result<String, TarError>)
        ensures
            match name {
                Ok(part) => part_name(tarname@, index as nat) == Some(part@),
                Err(e) => e == TarError::Pattern && part_name(tarname@, index as nat) is None,
            },
    {
        Self::substitute(SUFFIX_PATTERN, tarname, index)
    }

    /// Chooses the files of an archive of several and names their parts. A
    /// file is taken when its path is shorter than the name field; the others
    /// are passed over in silence. A part is numbered by the place of its
    /// file in `files`, so a file passed over leaves a gap in the numbers.
    pub fn tar_entries(tarname: &str, files: &Vec<SourceFile>) -> (chosen: Result<
        Vec<TarEntry>,
        TarError,
    >)
        ensures
            chosen is Ok <==> forall|i: int|
                0 <= i < files@.len() && #[trigger] files@[i].included() ==> part_name(
                    tarname@,
                    i as nat,
                ) is Some,
            chosen matches Ok(entries) ==> {
                &&& entry_indices(entries@) == included_indices(files@, files@.len())
                &&& forall|k: int|
                    0 <= k < entries@.len() ==> (#[trigger] entries@[k]).wf(tarname@, files@)
            },
            chosen matches Err(e) ==> e == TarError::Pattern,
    {
        let mut entries: Vec<TarEntry> = Vec::new();
        let mut i: usize = 0;
        while i < files.len()
            invariant
                i <= files@.len(),
                entry_indices(entries@) == included_indices(files@, i as nat),
                forall|k: int|
                    0 <= k < entries@.len() ==> (#[trigger] entries@[k]).wf(tarname@, files@),
                forall|j: int|
                    0 <= j < i && #[trigger] files@[j].included() ==> part_name(
                        tarname@,
                        j as nat,
                    ) is Some,
            decreases files@.len() - i,
        {
            if files[i].is_included() {
                match Self::part_name(tarname, i) {
                    Ok(part) => {
                        let ghost before = entries@;
                        entries.push(TarEntry { part, file: files[i].path.clone(), index: i });
                        assert(entry_indices(entries@) =~= entry_indices(before).push(i as int));
                    },
                    Err(e) => {
                        return Err(e);
                    },
                }
            }
            i = i + 1;
        }
        Ok(entries)
    }

    /// Writes buffers one after the other into one.
    pub fn merge_entries(entries: Vec<Vec<u8>>) -> (merged: Vec<u8>)
        ensures
            merged@ == joined(entries@),
    {
        let mut merged: Vec<u8> = Vec::new();
        let mut k: usize = 0;
        while k < entries.len()
            invariant
                k <= entries@.len(),
                merged@ == joined(entries@.take(k as int)),
            decreases entries@.len() - k,
        {
            let entry = &entries[k];
            let ghost before = merged@;
            let mut j: usize = 0;
            while j < entry.len()
                invariant
                    j <= entry@.len(),
                    merged@ == before + entry@.take(j as int),
                decreases entry@.len() - j,
            {
                merged.push(entry[j]);
                j = j + 1;
                assert(merged@ =~= before + entry@.take(j as int));
            }
            k = k + 1;
            proof {
                assert(entry@.take(j as int) =~= entry@);
                assert(entries@.take(k as int).drop_last() =~= entries@.take(k - 1));
            }
        }
        assert(entries@.take(k as int) =~= entries@);
        merged
    }

    /// Ends an archive: after the records come two blocks of zero bytes, and
    /// 1023 zero bytes more.
    pub fn finalize_tar(merged: Vec<u8>) -> (archive: Vec<u8>)
        ensures
            archive@ == merged@ + end_of_archive(),
            archive@.len() == merged@.len() + 1024 + 1023,
    {
        let mut archive = merged;
        let end_marker = Self::pad_data(EOF_PADDING * 2 + 1);
        let filler = Self::pad_data(EOF_PADDING * 2);
        proof {
            lemma_nul_bytes(1024);
            lemma_nul_bytes(1023);
        }
        let mut end_bytes: Vec<u8> = end_marker.as_str().as_bytes_vec();
        let mut filler_bytes: Vec<u8> = filler.as_str().as_bytes_vec();
        archive.append(&mut end_bytes);
        archive.append(&mut filler_bytes);
        assert(archive@ =~= merged@ + end_of_archive());
        archive
    }

    /// Makes the archive of the files that `entries` names among `files`, in
    /// the order of the entries: the record of each, then the end of the archive.
    pub fn write_tar_entries(entries: &Vec<TarEntry>, files: &Vec<SourceFile>) -> (archive: Vec<
        u8,
    >)
        requires
            forall|k: int|
                0 <= k < entries@.len() ==> (#[trigger] entries@[k]).index < files@.len()
                    && files@[entries@[k].index as int].encodable(),
        ensures
            archive@ == records_of(files@, entry_indices(entries@)) + end_of_archive(),
            archive@.len() == records_len(files@, entry_indices(entries@)) + 1024 + 1023,
    {
        let mut parts: Vec<Vec<u8>> = Vec::new();
        let mut k: usize = 0;
        while k < entries.len()
            invariant
                k <= entries@.len(),
                parts@.len() == k,
                forall|j: int|
                    0 <= j < k ==> (#[trigger] parts@[j])@
                        == files@[entries@[j].index as int].record(),
                forall|k: int|
                    0 <= k < entries@.len() ==> (#[trigger] entries@[k]).index < files@.len()
                        && files@[entries@[k].index as int].encodable(),
            decreases entries@.len() - k,
        {
            let file = &files[entries[k].index];
            let (header, record) = Self::write_tar_entry(
                file.path.as_str(),
                file.modified as u64,
                file.contents.as_slice(),
            );
            parts.push(Self::write_checksum(record, header));
            k = k + 1;
        }
        proof {
            lemma_joined_records(parts@, files@, entry_indices(entries@));
            lemma_records_len(files@, entry_indices(entries@));
        }
        Self::finalize_tar(Self::merge_entries(parts))
    }

    /// Makes the archive of one file: its record, then the end of the archive.
    pub fn create_single_tar(file: &SourceFile) -> (archive: Vec<u8>)
        requires
            file.encodable(),
        ensures
            archive@ == single_archive(*file),
            archive@.len() == 512 + block_pad(file.contents@.len()) + 1024 + 1023,
    {
        let (header, record) = Self::write_tar_entry(
            file.path.as_str(),
            file.modified as u64,
            file.contents.as_slice(),
        );
        proof {
            lemma_record_len(*file);
        }
        Self::finalize_tar(Self::write_checksum(record, header))
    }

    /// Makes the archive `tarname` of several files: the records of the files
    /// whose path is shorter than the name field, in the order given, then the
    /// end of the archive. The other files are left out without an error.
    ///
    /// Each file taken is given a part name made from `tarname` and its place;
    /// where the pattern for that is refused, no archive is made.
    pub fn create_multi_tar(tarname: &str, files: &Vec<SourceFile>) -> (made: Result<
        Vec<u8>,
        TarError,
    >)
        requires
            forall|i: int|
                0 <= i < files@.len() && #[trigger] files@[i].included()
                    ==> files@[i].encodable(),
        ensures
            made is Ok <==> forall|i: int|
                0 <= i < files@.len() && #[trigger] files@[i].included() ==> part_name(
                    tarname@,
                    i as nat,
                ) is Some,
            made matches Ok(archive) ==> {
                &&& archive@ == multi_archive(files@)
                &&& archive@.len() == records_len(
                    files@,
                    included_indices(files@, files@.len()),
                ) + 1024 + 1023
            },
            made matches Err(e) ==> e == TarError::Pattern,
    {
        match Self::tar_entries(tarname, files) {
            Ok(entries) => {
                proof {
                    lemma_included_indices(files@, files@.len());
                }
                Ok(Self::write_tar_entries(&entries, files))
            },
            Err(e) => Err(e),
        }
    }
}

} // verus!
