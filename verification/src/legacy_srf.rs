//! The legacy encoding of a manifest: a line-oriented text that opens with
//! an eight-character magic, followed by one line for each file that
//! begins with the file's length.
//!
//! ```text
//! ADDON:1:<digest>:<name>
//! <length>:<digest>:<path>
//! ```

use vstd::prelude::*;
use crate::md5_digest::{all_hex, hex_number, Md5Digest};
use crate::srf::{files_view, lemma_files_view_push, File, FileModel, Mod, ModModel};
use crate::srf_json::after_bom;
use crate::text::{all_digits, chars_of, copy_range, decimal_number, parse_u64, string_of};

verus! {

/// Why a text is not a manifest in the legacy encoding.
#[derive(Clone, Copy, Debug, PartialEq, Eq, Structural)]
pub enum LegacyParse {
    /// The text does not open with the magic.
    BadMagic,
    /// A line ends before all its fields were read, or a field is empty.
    MissingField,
    /// A digest is not 32 hexadecimal characters.
    BadChecksum,
    /// A length is not a decimal number of at most 64 bits.
    BadLength,
}

/// The eight characters with which the legacy encoding opens.
pub open spec fn magic() -> Seq<char> {
    seq!['A', 'D', 'D', 'O', 'N', ':', '1', ':']
}

/// The place of the line feed that ends the line at `from`, or the end of
/// the text.
pub open spec fn line_end(s: Seq<char>, from: int) -> int
    decreases s.len() - from,
{
    if 0 <= from < s.len() && s[from] != '\n' {
        line_end(s, from + 1)
    } else {
        from
    }
}

/// The place where the content of the line at `from` stops: a carriage
/// return before the line feed does not count.
pub open spec fn line_stop(s: Seq<char>, from: int) -> int {
    let e = line_end(s, from);
    if e > from && s[e - 1] == '\r' {
        e - 1
    } else {
        e
    }
}

/// The first place from `from` up to `to` that holds the character `c`.
pub open spec fn index_from(s: Seq<char>, c: char, from: int, to: int) -> Option<int>
    decreases to - from,
{
    if from >= to {
        None
    } else if s[from] == c {
        Some(from)
    } else {
        index_from(s, c, from + 1, to)
    }
}

/// What the header line between `start` and `stop` says: the aggregate
/// digest and the name of the mod.
pub open spec fn header_at(s: Seq<char>, start: int, stop: int) -> Result<
    (u128, Seq<char>),
    LegacyParse,
> {
    if !(start + 8 <= stop && s.subrange(start, start + 8) == magic()) {
        Err(LegacyParse::BadMagic)
    } else if !(start + 41 <= stop && s[start + 40] == ':') {
        Err(LegacyParse::MissingField)
    } else if !all_hex(s.subrange(start + 8, start + 40)) {
        Err(LegacyParse::BadChecksum)
    } else if start + 41 == stop {
        Err(LegacyParse::MissingField)
    } else {
        Ok((hex_number(s.subrange(start + 8, start + 40)) as u128, s.subrange(start + 41, stop)))
    }
}

/// What the file line between `start` and `stop` says.
pub open spec fn entry_at(s: Seq<char>, start: int, stop: int) -> Result<FileModel, LegacyParse> {
    match index_from(s, ':', start, stop) {
        None => Err(LegacyParse::MissingField),
        Some(colon) => {
            let digits = s.subrange(start, colon);
            if digits.len() == 0 || !all_digits(digits) || decimal_number(digits) > u64::MAX {
                Err(LegacyParse::BadLength)
            } else if !(colon + 34 <= stop && s[colon + 33] == ':') {
                Err(LegacyParse::MissingField)
            } else if !all_hex(s.subrange(colon + 1, colon + 33)) {
                Err(LegacyParse::BadChecksum)
            } else if colon + 34 == stop {
                Err(LegacyParse::MissingField)
            } else {
                Ok(
                    FileModel {
                        path: s.subrange(colon + 34, stop),
                        length: decimal_number(digits) as u64,
                        checksum: hex_number(s.subrange(colon + 1, colon + 33)) as u128,
                    },
                )
            }
        },
    }
}

/// The files that the lines from `from` on say, after those in `found`.
/// Empty lines are passed over.
pub open spec fn entries_from(s: Seq<char>, from: int, found: Seq<FileModel>) -> Result<
    Seq<FileModel>,
    LegacyParse,
>
    decreases s.len() - from,
{
    if from < 0 || from >= s.len() {
        Ok(found)
    } else {
        let stop = line_stop(s, from);
        let next = line_end(s, from) + 1;
        let here = if stop == from {
            Ok(found)
        } else {
            match entry_at(s, from, stop) {
                Err(e) => Err(e),
                Ok(f) => Ok(found.push(f)),
            }
        };
        match here {
            Err(e) => Err(e),
            Ok(files) => if from < next <= s.len() {
                entries_from(s, next, files)
            } else {
                Ok(files)
            },
        }
    }
}

/// The manifest that a text in the legacy encoding says. A byte-order
/// mark before the magic is passed over.
pub open spec fn legacy_manifest(s: Seq<char>) -> Result<ModModel, LegacyParse> {
    let start = after_bom(s);
    match header_at(s, start, line_stop(s, start)) {
        Err(e) => Err(e),
        Ok((checksum, name)) => match entries_from(
            s,
            line_end(s, start) + 1,
            Seq::<FileModel>::empty(),
        ) {
            Err(e) => Err(e),
            Ok(files) => Ok(ModModel { name, checksum, files }),
        },
    }
}

fn find_line_end(s: &Vec<char>, from: usize) -> (e: usize)
    requires
        from <= s.len(),
    ensures
        e == line_end(s@, from as int),
        from <= e <= s.len(),
{
    let mut i: usize = from;
    while i < s.len() && s[i] != '\n'
        invariant
            from <= i <= s.len(),
            line_end(s@, from as int) == line_end(s@, i as int),
        decreases s.len() - i,
    {
        i += 1;
    }
    i
}

fn find_line_stop(s: &Vec<char>, from: usize, end: usize) -> (stop: usize)
    requires
        from <= end <= s.len(),
        end == line_end(s@, from as int),
    ensures
        stop == line_stop(s@, from as int),
        from <= stop <= end,
{
    if end > from && s[end - 1] == '\r' {
        end - 1
    } else {
        end
    }
}

fn find_char(s: &Vec<char>, c: char, from: usize, to: usize) -> (r: Option<usize>)
    requires
        from <= to <= s.len(),
    ensures
        match r {
            Some(i) => index_from(s@, c, from as int, to as int) == Some(i as int) && from <= i
                < to,
            None => index_from(s@, c, from as int, to as int) is None,
        },
{
    let mut i: usize = from;
    while i < to
        invariant
            from <= i <= to <= s.len(),
            index_from(s@, c, from as int, to as int) == index_from(s@, c, i as int, to as int),
        decreases to - i,
    {
        if s[i] == c {
            return Some(i);
        }
        i += 1;
    }
    None
}

fn starts_with_magic(s: &Vec<char>, start: usize, stop: usize) -> (b: bool)
    requires
        start <= stop <= s.len(),
    ensures
        b == (start + 8 <= stop && s@.subrange(start as int, start + 8) == magic()),
{
    if stop - start < 8 {
        return false;
    }
    let m: Vec<char> = vec!['A', 'D', 'D', 'O', 'N', ':', '1', ':'];
    assert(m@ == magic());
    let mut k: usize = 0;
    while k < 8
        invariant
            k <= 8,
            start + 8 <= stop <= s.len(),
            m@ == magic(),
            forall|j: int| 0 <= j < k ==> s@[start + j] == magic()[j],
        decreases 8 - k,
    {
        if s[start + k] != m[k] {
            assert(s@.subrange(start as int, start + 8)[k as int] != magic()[k as int]);
            return false;
        }
        k += 1;
    }
    assert(s@.subrange(start as int, start + 8) =~= magic());
    true
}

fn read_header(s: &Vec<char>, start: usize, stop: usize) -> (r: Result<
    (Md5Digest, String),
    LegacyParse,
>)
    requires
        start <= stop <= s.len(),
    ensures
        match r {
            Ok((d, name)) => header_at(s@, start as int, stop as int) == Ok::<
                (u128, Seq<char>),
                LegacyParse,
            >((d@, name@)),
            Err(e) => header_at(s@, start as int, stop as int) == Err::<
                (u128, Seq<char>),
                LegacyParse,
            >(e),
        },
{
    if !starts_with_magic(s, start, stop) {
        return Err(LegacyParse::BadMagic);
    }
    if !(stop - start >= 41 && s[start + 40] == ':') {
        return Err(LegacyParse::MissingField);
    }
    let hex = copy_range(s, start + 8, start + 40);
    let d = match Md5Digest::from_chars(&hex) {
        Ok(d) => d,
        Err(_) => {
            return Err(LegacyParse::BadChecksum);
        },
    };
    if start + 41 == stop {
        return Err(LegacyParse::MissingField);
    }
    let name = copy_range(s, start + 41, stop);
    Ok((d, string_of(&name)))
}

fn read_entry(s: &Vec<char>, start: usize, stop: usize) -> (r: Result<File, LegacyParse>)
    requires
        start <= stop <= s.len(),
    ensures
        match r {
            Ok(f) => entry_at(s@, start as int, stop as int) == Ok::<FileModel, LegacyParse>(f@),
            Err(e) => entry_at(s@, start as int, stop as int) == Err::<FileModel, LegacyParse>(e),
        },
{
    let colon = match find_char(s, ':', start, stop) {
        Some(i) => i,
        None => {
            return Err(LegacyParse::MissingField);
        },
    };
    let length = match parse_u64(s, start, colon) {
        Some(n) => n,
        None => {
            return Err(LegacyParse::BadLength);
        },
    };
    if !(stop - colon >= 34 && s[colon + 33] == ':') {
        return Err(LegacyParse::MissingField);
    }
    let hex = copy_range(s, colon + 1, colon + 33);
    let checksum = match Md5Digest::from_chars(&hex) {
        Ok(d) => d,
        Err(_) => {
            return Err(LegacyParse::BadChecksum);
        },
    };
    if colon + 34 == stop {
        return Err(LegacyParse::MissingField);
    }
    let path = copy_range(s, colon + 34, stop);
    Ok(File { path: string_of(&path), length, checksum })
}

fn read_entries(s: &Vec<char>, first: usize) -> (r: Result<Vec<File>, LegacyParse>)
    requires
        first <= s.len(),
    ensures
        match r {
            Ok(files) => entries_from(s@, first as int, Seq::<FileModel>::empty()) == Ok::<
                Seq<FileModel>,
                LegacyParse,
            >(files_view(files@)),
            Err(e) => entries_from(s@, first as int, Seq::<FileModel>::empty()) == Err::<
                Seq<FileModel>,
                LegacyParse,
            >(e),
        },
{
    let mut files: Vec<File> = Vec::new();
    let ghost whole = entries_from(s@, first as int, Seq::<FileModel>::empty());
    assert(files_view(files@) == Seq::<FileModel>::empty());
    let mut from: usize = first;
    while from < s.len()
        invariant
            from <= s.len(),
            whole == entries_from(s@, first as int, Seq::<FileModel>::empty()),
            whole == entries_from(s@, from as int, files_view(files@)),
        decreases s.len() - from,
    {
        let end = find_line_end(s, from);
        let stop = find_line_stop(s, from, end);
        if stop > from {
            match read_entry(s, from, stop) {
                Ok(f) => {
                    proof {
                        lemma_files_view_push(files@, f);
                    }
                    files.push(f);
                },
                Err(e) => {
                    return Err(e);
                },
            }
        }
        if end == s.len() {
            return Ok(files);
        }
        from = end + 1;
    }
    Ok(files)
}

/// Reads a manifest from its text in the legacy encoding.
pub fn deserialize_legacy_srf(text: &str) -> (r: Result<Mod, LegacyParse>)
    ensures
        match r {
            Ok(m) => legacy_manifest(text@) == Ok::<ModModel, LegacyParse>(m@),
            Err(e) => legacy_manifest(text@) == Err::<ModModel, LegacyParse>(e),
        },
{
    let s = chars_of(text);
    let start: usize = if s.len() > 0 && s[0] == '\u{feff}' {
        1
    } else {
        0
    };
    let end = find_line_end(&s, start);
    let stop = find_line_stop(&s, start, end);
    let (checksum, name) = match read_header(&s, start, stop) {
        Ok(h) => h,
        Err(e) => {
            return Err(e);
        },
    };
    let files = if end == s.len() {
        let none: Vec<File> = Vec::new();
        assert(files_view(none@) == Seq::<FileModel>::empty());
        none
    } else {
        match read_entries(&s, end + 1) {
            Ok(files) => files,
            Err(e) => {
                return Err(e);
            },
        }
    };
    Ok(Mod { name, checksum, files })
}

} // verus!
