//! Reading a manifest from its JSON text.
//!
//! The reader takes the current encoding: an object with the fields
//! `Name`, `Checksum` and `Files`, in any order and in any case, where
//! `Files` is an array of objects with `Path`, `Length` and `Checksum`.
//! Fields it does not know are passed over.

use vstd::prelude::*;
use crate::md5_digest::{all_hex, hex_number, is_digest_text, Md5Digest};
use crate::srf::{files_view, lemma_files_view_push, File, FileModel, Mod, ModModel};
use crate::srf_json::{after_bom, after_spaces, ascii_lower, is_space};
use crate::text::{all_digits, chars_of, decimal_number, parse_u64, same_text, string_of};

verus! {

/// Why a text is not the JSON text of a manifest.
#[derive(Clone, Copy, Debug, PartialEq, Eq, Structural)]
pub enum ParseError {
    /// The text is not formed as the reader expects.
    Syntax,
    /// A length is not a whole number of at most 64 bits.
    InvalidNumber,
    /// A checksum is not 32 hexadecimal characters.
    InvalidDigest,
    /// A field that the manifest needs is not there.
    MissingField,
}

/// Whether a number is the code of a character: it lies in the range of
/// Unicode and is no surrogate.
pub open spec fn is_char_code(v: nat) -> bool {
    v < 0xD800 || (0xE000 <= v <= 0x10FFFF)
}

/// Calls `char::from_u32`: the character with the given code, where there
/// is one.
#[verifier::external_body]
fn char_of_code(v: u32) -> (r: Option<char>)
    ensures
        r is Some <==> is_char_code(v as nat),
        r matches Some(c) ==> c as u32 == v,
{
    char::from_u32(v)
}

/// The number that the four hexadecimal digits at `p` spell.
pub open spec fn hex4_at(s: Seq<char>, p: int) -> Option<nat> {
    if 0 <= p && p + 4 <= s.len() && all_hex(s.subrange(p, p + 4)) {
        Some(hex_number(s.subrange(p, p + 4)))
    } else {
        None
    }
}

/// The character that a `\u` escape at `p` stands for, and the place after
/// the escape. `p` is the place after the `u`. Two escapes that are a
/// pair of surrogates stand for one character.
pub open spec fn unicode_escape_at(s: Seq<char>, p: int) -> Option<(char, int)> {
    match hex4_at(s, p) {
        None => None,
        Some(v) => if 0xD800 <= v <= 0xDBFF {
            if p + 6 <= s.len() && s[p + 4] == '\\' && s[p + 5] == 'u' {
                match hex4_at(s, p + 6) {
                    None => None,
                    Some(low) => if 0xDC00 <= low <= 0xDFFF {
                        Some(
                            (
                                ((0x10000 + (v - 0xD800) * 0x400 + (low - 0xDC00)) as u32) as char,
                                p + 10,
                            ),
                        )
                    } else {
                        None
                    },
                }
            } else {
                None
            }
        } else if 0xDC00 <= v <= 0xDFFF {
            None
        } else {
            Some(((v as u32) as char, p + 4))
        },
    }
}

/// The character that stands at `p` inside a string, plain or escaped,
/// and the place after it.
pub open spec fn char_at(s: Seq<char>, p: int) -> Option<(char, int)> {
    if !(0 <= p < s.len()) {
        None
    } else if s[p] != '\\' {
        Some((s[p], p + 1))
    } else if p + 1 >= s.len() {
        None
    } else if s[p + 1] == '"' {
        Some(('"', p + 2))
    } else if s[p + 1] == '\\' {
        Some(('\\', p + 2))
    } else if s[p + 1] == '/' {
        Some(('/', p + 2))
    } else if s[p + 1] == 'b' {
        Some(('\u{8}', p + 2))
    } else if s[p + 1] == 'f' {
        Some(('\u{c}', p + 2))
    } else if s[p + 1] == 'n' {
        Some(('\n', p + 2))
    } else if s[p + 1] == 'r' {
        Some(('\r', p + 2))
    } else if s[p + 1] == 't' {
        Some(('\t', p + 2))
    } else if s[p + 1] == 'u' {
        unicode_escape_at(s, p + 2)
    } else {
        None
    }
}

/// The text of the string whose characters begin at `p`, after those in
/// `found`, and the place after its closing quote.
pub open spec fn string_from(s: Seq<char>, p: int, found: Seq<char>) -> Option<(Seq<char>, int)>
    decreases s.len() - p,
{
    if !(0 <= p < s.len()) {
        None
    } else if s[p] == '"' {
        Some((found, p + 1))
    } else {
        match char_at(s, p) {
            None => None,
            Some((c, q)) => if p < q <= s.len() {
                string_from(s, q, found.push(c))
            } else {
                None
            },
        }
    }
}

/// The text of the string that opens at `p`, and the place after it.
pub open spec fn string_at(s: Seq<char>, p: int) -> Option<(Seq<char>, int)> {
    if 0 <= p < s.len() && s[p] == '"' {
        string_from(s, p + 1, Seq::empty())
    } else {
        None
    }
}

/// The place after the run of decimal digits that begins at `p`.
pub open spec fn digits_end(s: Seq<char>, p: int) -> int
    decreases s.len() - p,
{
    if 0 <= p < s.len() && '0' <= s[p] <= '9' {
        digits_end(s, p + 1)
    } else {
        p
    }
}

/// The whole number that stands at `p`, and the place after it. A number
/// with a sign, a fraction or an exponent is none.
pub open spec fn number_at(s: Seq<char>, p: int) -> Option<(u64, int)> {
    let e = digits_end(s, p);
    if e <= p {
        None
    } else if decimal_number(s.subrange(p, e)) > u64::MAX {
        None
    } else if e < s.len() && (s[e] == '.' || s[e] == 'e' || s[e] == 'E') {
        None
    } else {
        Some((decimal_number(s.subrange(p, e)) as u64, e))
    }
}

/// The place after the value that is passed over from `p` on, `depth`
/// brackets deep and inside a string or not. A value that is no string and
/// has no brackets ends before the comma, white space or closing bracket
/// that follows it.
pub open spec fn skip_from(s: Seq<char>, p: int, depth: nat, in_string: bool) -> Option<int>
    decreases s.len() - p,
{
    if !(0 <= p < s.len()) {
        None
    } else if in_string {
        if s[p] == '\\' {
            if p + 2 <= s.len() {
                skip_from(s, p + 2, depth, true)
            } else {
                None
            }
        } else if s[p] == '"' {
            if depth == 0 {
                Some(p + 1)
            } else {
                skip_from(s, p + 1, depth, false)
            }
        } else {
            skip_from(s, p + 1, depth, true)
        }
    } else if s[p] == '"' {
        skip_from(s, p + 1, depth, true)
    } else if s[p] == '{' || s[p] == '[' {
        skip_from(s, p + 1, depth + 1, false)
    } else if s[p] == '}' || s[p] == ']' {
        if depth == 0 {
            Some(p)
        } else if depth == 1 {
            Some(p + 1)
        } else {
            skip_from(s, p + 1, (depth - 1) as nat, false)
        }
    } else if depth == 0 && (s[p] == ',' || is_space(s[p])) {
        Some(p)
    } else {
        skip_from(s, p + 1, depth, false)
    }
}

/// The place after the value at `p` that is passed over.
pub open spec fn skip_at(s: Seq<char>, p: int) -> Option<int> {
    match skip_from(s, p, 0, false) {
        Some(q) => if q > p {
            Some(q)
        } else {
            None
        },
        None => None,
    }
}

/// A text with its ASCII letters in lower case.
pub open spec fn lowered(s: Seq<char>) -> Seq<char> {
    Seq::new(s.len(), |i: int| ascii_lower(s[i]))
}

fn hex4(s: &Vec<char>, p: usize) -> (r: Option<u32>)
    requires
        p <= s.len(),
    ensures
        match r {
            Some(v) => hex4_at(s@, p as int) == Some(v as nat) && v <= 0xFFFF,
            None => hex4_at(s@, p as int) is None,
        },
{
    if s.len() - p < 4 {
        return None;
    }
    let ghost digits = s@.subrange(p as int, p + 4);
    let mut v: u32 = 0;
    let mut k: usize = 0;
    assert(hex_number(digits.take(0)) == 0);
    while k < 4
        invariant
            k <= 4,
            p + 4 <= s.len(),
            digits == s@.subrange(p as int, p + 4),
            all_hex(digits.take(k as int)),
            v == hex_number(digits.take(k as int)),
            v < crate::md5_digest::pow16(k as nat),
        decreases 4 - k,
    {
        let d = match hex_code(s[p + k]) {
            Some(d) => d,
            None => {
                assert(digits[k as int] == s@[p + k]);
                return None;
            },
        };
        proof {
            let next = digits.take(k + 1);
            assert(next.drop_last() == digits.take(k as int));
            assert(next.last() == s@[p + k]);
            assert forall|j: int| 0 <= j < next.len() implies (
            #[trigger] crate::md5_digest::hex_value(next[j])) is Some by {
                if j < k {
                    assert(next[j] == digits.take(k as int)[j]);
                }
            }
            crate::md5_digest::lemma_hex_number_bound(next);
            reveal_with_fuel(crate::md5_digest::pow16, 5);
        }
        v = v * 16 + d as u32;
        k += 1;
    }
    assert(digits.take(4) == digits);
    proof {
        reveal_with_fuel(crate::md5_digest::pow16, 5);
    }
    Some(v)
}

fn hex_code(c: char) -> (r: Option<u8>)
    ensures
        match r {
            Some(d) => crate::md5_digest::hex_value(c) == Some(d as nat) && d < 16,
            None => crate::md5_digest::hex_value(c) is None,
        },
{
    if c >= '0' && c <= '9' {
        Some(c as u8 - 48)
    } else if c >= 'a' && c <= 'f' {
        Some(c as u8 - 87)
    } else if c >= 'A' && c <= 'F' {
        Some(c as u8 - 55)
    } else {
        None
    }
}

fn read_unicode_escape(s: &Vec<char>, p: usize) -> (r: Option<(char, usize)>)
    requires
        p <= s.len(),
    ensures
        match r {
            Some((c, q)) => unicode_escape_at(s@, p as int) == Some((c, q as int)) && p < q
                <= s.len(),
            None => unicode_escape_at(s@, p as int) is None,
        },
{
    let v = match hex4(s, p) {
        Some(v) => v,
        None => {
            return None;
        },
    };
    if v >= 0xD800 && v <= 0xDBFF {
        if !(s.len() - p >= 6 && s[p + 4] == '\\' && s[p + 5] == 'u') {
            return None;
        }
        let low = match hex4(s, p + 6) {
            Some(low) => low,
            None => {
                return None;
            },
        };
        if !(low >= 0xDC00 && low <= 0xDFFF) {
            return None;
        }
        let code: u32 = 0x10000 + (v - 0xD800) * 0x400 + (low - 0xDC00);
        match char_of_code(code) {
            Some(c) => {
                proof {
                    vstd::utf8::char_u32_cast(c, code);
                }
                Some((c, p + 10))
            },
            None => {
                assert(false);
                None
            },
        }
    } else if v >= 0xDC00 && v <= 0xDFFF {
        None
    } else {
        match char_of_code(v) {
            Some(c) => {
                proof {
                    vstd::utf8::char_u32_cast(c, v);
                }
                Some((c, p + 4))
            },
            None => {
                assert(false);
                None
            },
        }
    }
}

fn read_char(s: &Vec<char>, p: usize) -> (r: Option<(char, usize)>)
    requires
        p < s.len(),
    ensures
        match r {
            Some((c, q)) => char_at(s@, p as int) == Some((c, q as int)) && p < q <= s.len(),
            None => char_at(s@, p as int) is None,
        },
{
    let c = s[p];
    if c != '\\' {
        return Some((c, p + 1));
    }
    if p + 1 >= s.len() {
        return None;
    }
    let e = s[p + 1];
    if e == '"' {
        Some(('"', p + 2))
    } else if e == '\\' {
        Some(('\\', p + 2))
    } else if e == '/' {
        Some(('/', p + 2))
    } else if e == 'b' {
        Some(('\u{8}', p + 2))
    } else if e == 'f' {
        Some(('\u{c}', p + 2))
    } else if e == 'n' {
        Some(('\n', p + 2))
    } else if e == 'r' {
        Some(('\r', p + 2))
    } else if e == 't' {
        Some(('\t', p + 2))
    } else if e == 'u' {
        read_unicode_escape(s, p + 2)
    } else {
        None
    }
}

fn read_string(s: &Vec<char>, p: usize) -> (r: Option<(Vec<char>, usize)>)
    requires
        p <= s.len(),
    ensures
        match r {
            Some((text, q)) => string_at(s@, p as int) == Some((text@, q as int)) && p < q
                <= s.len(),
            None => string_at(s@, p as int) is None,
        },
{
    if !(p < s.len() && s[p] == '"') {
        return None;
    }
    let mut found: Vec<char> = Vec::new();
    let mut i: usize = p + 1;
    while i < s.len()
        invariant
            p < i <= s.len(),
            string_at(s@, p as int) == string_from(s@, i as int, found@),
        decreases s.len() - i,
    {
        if s[i] == '"' {
            return Some((found, i + 1));
        }
        match read_char(s, i) {
            Some((c, q)) => {
                found.push(c);
                i = q;
            },
            None => {
                return None;
            },
        }
    }
    None
}

/// The run of digits that begins at `p` holds only digits.
pub proof fn lemma_digits_end(s: Seq<char>, p: int)
    requires
        0 <= p <= s.len(),
    ensures
        p <= digits_end(s, p) <= s.len(),
        all_digits(s.subrange(p, digits_end(s, p))),
        digits_end(s, p) < s.len() ==> !('0' <= s[digits_end(s, p)] <= '9'),
    decreases s.len() - p,
{
    if p < s.len() && '0' <= s[p] <= '9' {
        lemma_digits_end(s, p + 1);
        let e = digits_end(s, p);
        assert forall|i: int| 0 <= i < e - p implies '0' <= #[trigger] s.subrange(p, e)[i]
            <= '9' by {
            if i > 0 {
                assert(s.subrange(p, e)[i] == s.subrange(p + 1, e)[i - 1]);
            }
        }
    }
}

fn read_number(s: &Vec<char>, p: usize) -> (r: Option<(u64, usize)>)
    requires
        p <= s.len(),
    ensures
        match r {
            Some((n, q)) => number_at(s@, p as int) == Some((n, q as int)) && p < q <= s.len(),
            None => number_at(s@, p as int) is None,
        },
{
    let mut e: usize = p;
    while e < s.len() && s[e] >= '0' && s[e] <= '9'
        invariant
            p <= e <= s.len(),
            digits_end(s@, p as int) == digits_end(s@, e as int),
        decreases s.len() - e,
    {
        e += 1;
    }
    proof {
        lemma_digits_end(s@, p as int);
    }
    if e <= p {
        return None;
    }
    let n = match parse_u64(s, p, e) {
        Some(n) => n,
        None => {
            return None;
        },
    };
    if e < s.len() && (s[e] == '.' || s[e] == 'e' || s[e] == 'E') {
        return None;
    }
    Some((n, e))
}

fn skip_value(s: &Vec<char>, p: usize) -> (r: Option<usize>)
    requires
        p <= s.len(),
    ensures
        match r {
            Some(q) => skip_at(s@, p as int) == Some(q as int) && p < q <= s.len(),
            None => skip_at(s@, p as int) is None,
        },
{
    let mut i: usize = p;
    let mut depth: usize = 0;
    let mut in_string = false;
    while i < s.len()
        invariant
            p <= i <= s.len(),
            depth <= i - p,
            skip_from(s@, p as int, 0, false) == skip_from(s@, i as int, depth as nat, in_string),
        decreases s.len() - i,
    {
        let c = s[i];
        if in_string {
            if c == '\\' {
                if s.len() - i < 2 {
                    return None;
                }
                i += 2;
            } else if c == '"' {
                if depth == 0 {
                    return Some(i + 1);
                }
                in_string = false;
                i += 1;
            } else {
                i += 1;
            }
        } else if c == '"' {
            in_string = true;
            i += 1;
        } else if c == '{' || c == '[' {
            depth += 1;
            i += 1;
        } else if c == '}' || c == ']' {
            if depth == 0 {
                return if i > p {
                    Some(i)
                } else {
                    None
                };
            } else if depth == 1 {
                return Some(i + 1);
            }
            depth -= 1;
            i += 1;
        } else if depth == 0 && (c == ',' || c == ' ' || c == '\t' || c == '\n' || c == '\r') {
            return if i > p {
                Some(i)
            } else {
                None
            };
        } else {
            i += 1;
        }
    }
    None
}

/// The fields of a file that have been read.
pub struct FileFields {
    pub path: Option<Seq<char>>,
    pub length: Option<u64>,
    pub checksum: Option<u128>,
}

/// The fields of a manifest that have been read.
pub struct ModFields {
    pub name: Option<Seq<char>>,
    pub checksum: Option<u128>,
    pub files: Option<Seq<FileModel>>,
}

pub open spec fn key_path() -> Seq<char> {
    seq!['p', 'a', 't', 'h']
}

pub open spec fn key_length() -> Seq<char> {
    seq!['l', 'e', 'n', 'g', 't', 'h']
}

pub open spec fn key_checksum() -> Seq<char> {
    seq!['c', 'h', 'e', 'c', 'k', 's', 'u', 'm']
}

pub open spec fn key_name() -> Seq<char> {
    seq!['n', 'a', 'm', 'e']
}

pub open spec fn key_files() -> Seq<char> {
    seq!['f', 'i', 'l', 'e', 's']
}

/// The digest that the string at `p` spells, and the place after it.
pub open spec fn digest_at(s: Seq<char>, p: int) -> Result<(u128, int), ParseError> {
    match string_at(s, p) {
        None => Err(ParseError::Syntax),
        Some((t, q)) => if is_digest_text(t) {
            Ok((hex_number(t) as u128, q))
        } else {
            Err(ParseError::InvalidDigest)
        },
    }
}

/// The name of the field that begins at `p`, in lower case, and the place
/// where its value begins.
pub open spec fn key_at(s: Seq<char>, p: int) -> Option<(Seq<char>, int)> {
    match string_at(s, p) {
        None => None,
        Some((k, at1)) => {
            let at2 = after_spaces(s, at1);
            if 0 <= at2 < s.len() && s[at2] == ':' {
                Some((lowered(k), after_spaces(s, at2 + 1)))
            } else {
                None
            }
        },
    }
}

/// The fields of a file after the value at `p` is read into the field of
/// the given name, and the place after the value.
pub open spec fn file_field(s: Seq<char>, p: int, key: Seq<char>, f: FileFields) -> Result<
    (FileFields, int),
    ParseError,
> {
    if key == key_path() {
        match string_at(s, p) {
            None => Err(ParseError::Syntax),
            Some((t, q)) => Ok((FileFields { path: Some(t), ..f }, q)),
        }
    } else if key == key_length() {
        match number_at(s, p) {
            None => Err(ParseError::InvalidNumber),
            Some((n, q)) => Ok((FileFields { length: Some(n), ..f }, q)),
        }
    } else if key == key_checksum() {
        match digest_at(s, p) {
            Err(e) => Err(e),
            Ok((d, q)) => Ok((FileFields { checksum: Some(d), ..f }, q)),
        }
    } else {
        match skip_at(s, p) {
            None => Err(ParseError::Syntax),
            Some(q) => Ok((f, q)),
        }
    }
}

/// The fields of the file object whose members begin at `p`, on top of
/// those in `f`, and the place after its closing brace.
pub open spec fn file_members(s: Seq<char>, p: int, f: FileFields) -> Result<
    (FileFields, int),
    ParseError,
>
    decreases s.len() - p,
{
    let at0 = after_spaces(s, p);
    if !(0 <= at0 < s.len()) {
        Err(ParseError::Syntax)
    } else if s[at0] == '}' {
        Ok((f, at0 + 1))
    } else {
        match key_at(s, at0) {
            None => Err(ParseError::Syntax),
            Some((key, at3)) => match file_field(s, at3, key, f) {
                Err(e) => Err(e),
                Ok((f2, at4)) => {
                    let at5 = after_spaces(s, at4);
                    if !(0 <= at5 < s.len()) {
                        Err(ParseError::Syntax)
                    } else if s[at5] == ',' {
                        if p < at5 + 1 {
                            file_members(s, at5 + 1, f2)
                        } else {
                            Err(ParseError::Syntax)
                        }
                    } else if s[at5] == '}' {
                        Ok((f2, at5 + 1))
                    } else {
                        Err(ParseError::Syntax)
                    }
                },
            },
        }
    }
}

/// No field of a file is read yet.
pub open spec fn no_file_fields() -> FileFields {
    FileFields { path: None, length: None, checksum: None }
}

/// The file that the object at `p` says, and the place after it.
pub open spec fn file_at(s: Seq<char>, p: int) -> Result<(FileModel, int), ParseError> {
    if !(0 <= p < s.len() && s[p] == '{') {
        Err(ParseError::Syntax)
    } else {
        match file_members(s, p + 1, no_file_fields()) {
            Err(e) => Err(e),
            Ok((f, q)) => if f.path is Some && f.length is Some && f.checksum is Some {
                Ok(
                    (
                        FileModel {
                            path: f.path->0,
                            length: f.length->0,
                            checksum: f.checksum->0,
                        },
                        q,
                    ),
                )
            } else {
                Err(ParseError::MissingField)
            },
        }
    }
}

/// The files that the elements of an array say from `p` on, after those
/// in `found`, and the place after its closing bracket.
pub open spec fn files_from(s: Seq<char>, p: int, found: Seq<FileModel>) -> Result<
    (Seq<FileModel>, int),
    ParseError,
>
    decreases s.len() - p,
{
    let at0 = after_spaces(s, p);
    if !(0 <= at0 < s.len()) {
        Err(ParseError::Syntax)
    } else if s[at0] == ']' {
        Ok((found, at0 + 1))
    } else {
        match file_at(s, at0) {
            Err(e) => Err(e),
            Ok((file, at1)) => {
                let at2 = after_spaces(s, at1);
                if !(0 <= at2 < s.len()) {
                    Err(ParseError::Syntax)
                } else if s[at2] == ',' {
                    if p < at2 + 1 {
                        files_from(s, at2 + 1, found.push(file))
                    } else {
                        Err(ParseError::Syntax)
                    }
                } else if s[at2] == ']' {
                    Ok((found.push(file), at2 + 1))
                } else {
                    Err(ParseError::Syntax)
                }
            },
        }
    }
}

/// The files that the array at `p` says, and the place after it.
pub open spec fn files_at(s: Seq<char>, p: int) -> Result<(Seq<FileModel>, int), ParseError> {
    if !(0 <= p < s.len() && s[p] == '[') {
        Err(ParseError::Syntax)
    } else {
        files_from(s, p + 1, Seq::empty())
    }
}

/// The fields of a manifest after the value at `p` is read into the field
/// of the given name, and the place after the value.
pub open spec fn mod_field(s: Seq<char>, p: int, key: Seq<char>, f: ModFields) -> Result<
    (ModFields, int),
    ParseError,
> {
    if key == key_name() {
        match string_at(s, p) {
            None => Err(ParseError::Syntax),
            Some((t, q)) => Ok((ModFields { name: Some(t), ..f }, q)),
        }
    } else if key == key_checksum() {
        match digest_at(s, p) {
            Err(e) => Err(e),
            Ok((d, q)) => Ok((ModFields { checksum: Some(d), ..f }, q)),
        }
    } else if key == key_files() {
        match files_at(s, p) {
            Err(e) => Err(e),
            Ok((files, q)) => Ok((ModFields { files: Some(files), ..f }, q)),
        }
    } else {
        match skip_at(s, p) {
            None => Err(ParseError::Syntax),
            Some(q) => Ok((f, q)),
        }
    }
}

/// The fields of the manifest object whose members begin at `p`, on top
/// of those in `f`, and the place after its closing brace.
pub open spec fn mod_members(s: Seq<char>, p: int, f: ModFields) -> Result<
    (ModFields, int),
    ParseError,
>
    decreases s.len() - p,
{
    let at0 = after_spaces(s, p);
    if !(0 <= at0 < s.len()) {
        Err(ParseError::Syntax)
    } else if s[at0] == '}' {
        Ok((f, at0 + 1))
    } else {
        match key_at(s, at0) {
            None => Err(ParseError::Syntax),
            Some((key, at3)) => match mod_field(s, at3, key, f) {
                Err(e) => Err(e),
                Ok((f2, at4)) => {
                    let at5 = after_spaces(s, at4);
                    if !(0 <= at5 < s.len()) {
                        Err(ParseError::Syntax)
                    } else if s[at5] == ',' {
                        if p < at5 + 1 {
                            mod_members(s, at5 + 1, f2)
                        } else {
                            Err(ParseError::Syntax)
                        }
                    } else if s[at5] == '}' {
                        Ok((f2, at5 + 1))
                    } else {
                        Err(ParseError::Syntax)
                    }
                },
            },
        }
    }
}

/// No field of a manifest is read yet.
pub open spec fn no_mod_fields() -> ModFields {
    ModFields { name: None, checksum: None, files: None }
}

/// The manifest that a JSON text says. A byte-order mark and white space
/// may stand before the object, white space after it. Of a field that
/// stands twice the later counts.
pub open spec fn json_manifest(s: Seq<char>) -> Result<ModModel, ParseError> {
    let at0 = after_spaces(s, after_bom(s));
    if !(0 <= at0 < s.len() && s[at0] == '{') {
        Err(ParseError::Syntax)
    } else {
        match mod_members(s, at0 + 1, no_mod_fields()) {
            Err(e) => Err(e),
            Ok((f, q)) => if after_spaces(s, q) != s.len() {
                Err(ParseError::Syntax)
            } else if f.name is Some && f.checksum is Some && f.files is Some {
                Ok(ModModel { name: f.name->0, checksum: f.checksum->0, files: f.files->0 })
            } else {
                Err(ParseError::MissingField)
            },
        }
    }
}

fn spaces(s: &Vec<char>, from: usize) -> (r: usize)
    requires
        from <= s.len(),
    ensures
        r == after_spaces(s@, from as int),
        from <= r <= s.len(),
{
    let mut i: usize = from;
    while i < s.len() && (s[i] == ' ' || s[i] == '\t' || s[i] == '\n' || s[i] == '\r')
        invariant
            from <= i <= s.len(),
            after_spaces(s@, from as int) == after_spaces(s@, i as int),
        decreases s.len() - i,
    {
        i += 1;
    }
    i
}

fn lower_char(c: char) -> (r: char)
    ensures
        r == ascii_lower(c),
{
    if c >= 'A' && c <= 'Z' {
        (c as u8 + 32) as char
    } else {
        c
    }
}

fn read_key(s: &Vec<char>, p: usize) -> (r: Option<(Vec<char>, usize)>)
    requires
        p <= s.len(),
    ensures
        match r {
            Some((key, q)) => key_at(s@, p as int) == Some((key@, q as int)) && p < q <= s.len(),
            None => key_at(s@, p as int) is None,
        },
{
    let (k, at1) = match read_string(s, p) {
        Some(r) => r,
        None => {
            return None;
        },
    };
    let at2 = spaces(s, at1);
    if !(at2 < s.len() && s[at2] == ':') {
        return None;
    }
    let mut key: Vec<char> = Vec::new();
    let mut i: usize = 0;
    while i < k.len()
        invariant
            i <= k.len(),
            key@ == lowered(k@).take(i as int),
        decreases k.len() - i,
    {
        key.push(lower_char(k[i]));
        assert(lowered(k@).take(i + 1) == lowered(k@).take(i as int).push(lowered(k@)[i as int]));
        i += 1;
    }
    assert(lowered(k@).take(k.len() as int) == lowered(k@));
    Some((key, spaces(s, at2 + 1)))
}

fn read_digest(s: &Vec<char>, p: usize) -> (r: Result<(Md5Digest, usize), ParseError>)
    requires
        p <= s.len(),
    ensures
        match r {
            Ok((d, q)) => digest_at(s@, p as int) == Ok::<(u128, int), ParseError>(
                (d@, q as int),
            ) && p < q <= s.len(),
            Err(e) => digest_at(s@, p as int) == Err::<(u128, int), ParseError>(e),
        },
{
    match read_string(s, p) {
        None => Err(ParseError::Syntax),
        Some((t, q)) => match Md5Digest::from_chars(&t) {
            Ok(d) => Ok((d, q)),
            Err(_) => Err(ParseError::InvalidDigest),
        },
    }
}

/// The fields of a file as they are read.
struct FileParts {
    path: Option<String>,
    length: Option<u64>,
    checksum: Option<Md5Digest>,
}

impl FileParts {
    spec fn fields(&self) -> FileFields {
        FileFields {
            path: match self.path {
                Some(p) => Some(p@),
                None => None,
            },
            length: self.length,
            checksum: match self.checksum {
                Some(d) => Some(d@),
                None => None,
            },
        }
    }
}

fn read_file_field(s: &Vec<char>, p: usize, key: &Vec<char>, f: FileParts) -> (r: Result<
    (FileParts, usize),
    ParseError,
>)
    requires
        p <= s.len(),
    ensures
        match r {
            Ok((f2, q)) => file_field(s@, p as int, key@, f.fields()) == Ok::<
                (FileFields, int),
                ParseError,
            >((f2.fields(), q as int)) && p < q <= s.len(),
            Err(e) => file_field(s@, p as int, key@, f.fields()) == Err::<
                (FileFields, int),
                ParseError,
            >(e),
        },
{
    let path_key: Vec<char> = vec!['p', 'a', 't', 'h'];
    let length_key: Vec<char> = vec!['l', 'e', 'n', 'g', 't', 'h'];
    let checksum_key: Vec<char> = vec!['c', 'h', 'e', 'c', 'k', 's', 'u', 'm'];
    assert(path_key@ == key_path());
    assert(length_key@ == key_length());
    assert(checksum_key@ == key_checksum());
    let mut f = f;
    if same_text(key, &path_key) {
        match read_string(s, p) {
            None => Err(ParseError::Syntax),
            Some((t, q)) => {
                f.path = Some(string_of(&t));
                Ok((f, q))
            },
        }
    } else if same_text(key, &length_key) {
        match read_number(s, p) {
            None => Err(ParseError::InvalidNumber),
            Some((n, q)) => {
                f.length = Some(n);
                Ok((f, q))
            },
        }
    } else if same_text(key, &checksum_key) {
        match read_digest(s, p) {
            Err(e) => Err(e),
            Ok((d, q)) => {
                f.checksum = Some(d);
                Ok((f, q))
            },
        }
    } else {
        match skip_value(s, p) {
            None => Err(ParseError::Syntax),
            Some(q) => Ok((f, q)),
        }
    }
}

fn read_file(s: &Vec<char>, p: usize) -> (r: Result<(File, usize), ParseError>)
    requires
        p <= s.len(),
    ensures
        match r {
            Ok((file, q)) => file_at(s@, p as int) == Ok::<(FileModel, int), ParseError>(
                (file@, q as int),
            ) && p < q <= s.len(),
            Err(e) => file_at(s@, p as int) == Err::<(FileModel, int), ParseError>(e),
        },
{
    if !(p < s.len() && s[p] == '{') {
        return Err(ParseError::Syntax);
    }
    let mut f = FileParts { path: None, length: None, checksum: None };
    let mut at: usize = p + 1;
    let ghost whole = file_members(s@, p + 1, no_file_fields());
    assert(f.fields() == no_file_fields());
    loop
        invariant
            p < at <= s.len(),
            s@[p as int] == '{',
            whole == file_members(s@, p + 1, no_file_fields()),
            whole == file_members(s@, at as int, f.fields()),
        decreases s.len() - at,
    {
        let at0 = spaces(s, at);
        if at0 >= s.len() {
            return Err(ParseError::Syntax);
        }
        if s[at0] == '}' {
            return finish_file(f, at0 + 1, Ghost(s@), Ghost(p as int));
        }
        let (key, at3) = match read_key(s, at0) {
            Some(r) => r,
            None => {
                return Err(ParseError::Syntax);
            },
        };
        let (f2, at4) = match read_file_field(s, at3, &key, f) {
            Ok(r) => r,
            Err(e) => {
                return Err(e);
            },
        };
        let at5 = spaces(s, at4);
        if at5 >= s.len() {
            return Err(ParseError::Syntax);
        }
        if s[at5] == ',' {
            f = f2;
            at = at5 + 1;
        } else if s[at5] == '}' {
            return finish_file(f2, at5 + 1, Ghost(s@), Ghost(p as int));
        } else {
            return Err(ParseError::Syntax);
        }
    }
}

fn finish_file(f: FileParts, end: usize, Ghost(s): Ghost<Seq<char>>, Ghost(p): Ghost<int>) -> (r:
    Result<(File, usize), ParseError>)
    requires
        0 <= p < s.len(),
        s[p] == '{',
        p < end <= s.len(),
        file_members(s, p + 1, no_file_fields()) == Ok::<(FileFields, int), ParseError>(
            (f.fields(), end as int),
        ),
    ensures
        match r {
            Ok((file, q)) => file_at(s, p) == Ok::<(FileModel, int), ParseError>((file@, q as int))
                && p < q <= s.len(),
            Err(e) => file_at(s, p) == Err::<(FileModel, int), ParseError>(e),
        },
{
    match (f.path, f.length, f.checksum) {
        (Some(path), Some(length), Some(checksum)) => Ok((File { path, length, checksum }, end)),
        _ => Err(ParseError::MissingField),
    }
}

fn read_files(s: &Vec<char>, p: usize) -> (r: Result<(Vec<File>, usize), ParseError>)
    requires
        p <= s.len(),
    ensures
        match r {
            Ok((files, q)) => files_at(s@, p as int) == Ok::<(Seq<FileModel>, int), ParseError>(
                (files_view(files@), q as int),
            ) && p < q <= s.len(),
            Err(e) => files_at(s@, p as int) == Err::<(Seq<FileModel>, int), ParseError>(e),
        },
{
    if !(p < s.len() && s[p] == '[') {
        return Err(ParseError::Syntax);
    }
    let mut files: Vec<File> = Vec::new();
    let mut at: usize = p + 1;
    let ghost whole = files_at(s@, p as int);
    assert(files_view(files@) == Seq::<FileModel>::empty());
    loop
        invariant
            p < at <= s.len(),
            whole == files_at(s@, p as int),
            whole == files_from(s@, at as int, files_view(files@)),
        decreases s.len() - at,
    {
        let at0 = spaces(s, at);
        if at0 >= s.len() {
            return Err(ParseError::Syntax);
        }
        if s[at0] == ']' {
            return Ok((files, at0 + 1));
        }
        let (file, at1) = match read_file(s, at0) {
            Ok(r) => r,
            Err(e) => {
                return Err(e);
            },
        };
        let at2 = spaces(s, at1);
        if at2 >= s.len() {
            return Err(ParseError::Syntax);
        }
        proof {
            lemma_files_view_push(files@, file);
        }
        if s[at2] == ',' {
            files.push(file);
            at = at2 + 1;
        } else if s[at2] == ']' {
            files.push(file);
            return Ok((files, at2 + 1));
        } else {
            return Err(ParseError::Syntax);
        }
    }
}

/// The fields of a manifest as they are read.
struct ModParts {
    name: Option<String>,
    checksum: Option<Md5Digest>,
    files: Option<Vec<File>>,
}

impl ModParts {
    spec fn fields(&self) -> ModFields {
        ModFields {
            name: match self.name {
                Some(n) => Some(n@),
                None => None,
            },
            checksum: match self.checksum {
                Some(d) => Some(d@),
                None => None,
            },
            files: match self.files {
                Some(f) => Some(files_view(f@)),
                None => None,
            },
        }
    }
}

fn read_mod_field(s: &Vec<char>, p: usize, key: &Vec<char>, f: ModParts) -> (r: Result<
    (ModParts, usize),
    ParseError,
>)
    requires
        p <= s.len(),
    ensures
        match r {
            Ok((f2, q)) => mod_field(s@, p as int, key@, f.fields()) == Ok::<
                (ModFields, int),
                ParseError,
            >((f2.fields(), q as int)) && p < q <= s.len(),
            Err(e) => mod_field(s@, p as int, key@, f.fields()) == Err::<
                (ModFields, int),
                ParseError,
            >(e),
        },
{
    let name_key: Vec<char> = vec!['n', 'a', 'm', 'e'];
    let checksum_key: Vec<char> = vec!['c', 'h', 'e', 'c', 'k', 's', 'u', 'm'];
    let files_key: Vec<char> = vec!['f', 'i', 'l', 'e', 's'];
    assert(name_key@ == key_name());
    assert(checksum_key@ == key_checksum());
    assert(files_key@ == key_files());
    let mut f = f;
    if same_text(key, &name_key) {
        match read_string(s, p) {
            None => Err(ParseError::Syntax),
            Some((t, q)) => {
                f.name = Some(string_of(&t));
                Ok((f, q))
            },
        }
    } else if same_text(key, &checksum_key) {
        match read_digest(s, p) {
            Err(e) => Err(e),
            Ok((d, q)) => {
                f.checksum = Some(d);
                Ok((f, q))
            },
        }
    } else if same_text(key, &files_key) {
        match read_files(s, p) {
            Err(e) => Err(e),
            Ok((files, q)) => {
                f.files = Some(files);
                Ok((f, q))
            },
        }
    } else {
        match skip_value(s, p) {
            None => Err(ParseError::Syntax),
            Some(q) => Ok((f, q)),
        }
    }
}

fn read_mod_members(s: &Vec<char>, p: usize) -> (r: Result<(ModParts, usize), ParseError>)
    requires
        p <= s.len(),
    ensures
        match r {
            Ok((f, q)) => mod_members(s@, p as int, no_mod_fields()) == Ok::<
                (ModFields, int),
                ParseError,
            >((f.fields(), q as int)) && p < q <= s.len(),
            Err(e) => mod_members(s@, p as int, no_mod_fields()) == Err::<
                (ModFields, int),
                ParseError,
            >(e),
        },
{
    let mut f = ModParts { name: None, checksum: None, files: None };
    let mut at: usize = p;
    let ghost whole = mod_members(s@, p as int, no_mod_fields());
    assert(f.fields() == no_mod_fields());
    loop
        invariant
            p <= at <= s.len(),
            whole == mod_members(s@, p as int, no_mod_fields()),
            whole == mod_members(s@, at as int, f.fields()),
        decreases s.len() - at,
    {
        let at0 = spaces(s, at);
        if at0 >= s.len() {
            return Err(ParseError::Syntax);
        }
        if s[at0] == '}' {
            return Ok((f, at0 + 1));
        }
        let (key, at3) = match read_key(s, at0) {
            Some(r) => r,
            None => {
                return Err(ParseError::Syntax);
            },
        };
        let (f2, at4) = match read_mod_field(s, at3, &key, f) {
            Ok(r) => r,
            Err(e) => {
                return Err(e);
            },
        };
        let at5 = spaces(s, at4);
        if at5 >= s.len() {
            return Err(ParseError::Syntax);
        }
        if s[at5] == ',' {
            f = f2;
            at = at5 + 1;
        } else if s[at5] == '}' {
            return Ok((f2, at5 + 1));
        } else {
            return Err(ParseError::Syntax);
        }
    }
}

/// Reads a manifest from its JSON text.
pub fn parse_json(text: &str) -> (r: Result<Mod, ParseError>)
    ensures
        match r {
            Ok(m) => json_manifest(text@) == Ok::<ModModel, ParseError>(m@),
            Err(e) => json_manifest(text@) == Err::<ModModel, ParseError>(e),
        },
{
    let s = chars_of(text);
    let bom: usize = if s.len() > 0 && s[0] == '\u{feff}' {
        1
    } else {
        0
    };
    let at0 = spaces(&s, bom);
    if !(at0 < s.len() && s[at0] == '{') {
        return Err(ParseError::Syntax);
    }
    let (f, q) = match read_mod_members(&s, at0 + 1) {
        Ok(r) => r,
        Err(e) => {
            return Err(e);
        },
    };
    if spaces(&s, q) != s.len() {
        return Err(ParseError::Syntax);
    }
    match (f.name, f.checksum, f.files) {
        (Some(name), Some(checksum), Some(files)) => Ok(Mod { name, checksum, files }),
        _ => Err(ParseError::MissingField),
    }
}

/// Why a text is not a manifest.
#[derive(Clone, Copy, Debug, PartialEq, Eq, Structural)]
pub enum Error {
    /// The text is in the current encoding and malformed.
    Parse(ParseError),
    /// The text is in the legacy encoding and malformed.
    LegacyParse(crate::legacy_srf::LegacyParse),
}

/// The manifest that a text says, in whichever encoding it is: the
/// current one where the first visible character is an opening brace,
/// else the legacy one.
pub open spec fn manifest_of(s: Seq<char>) -> Result<ModModel, Error> {
    if crate::srf_json::looks_legacy(s) {
        match crate::legacy_srf::legacy_manifest(s) {
            Ok(m) => Ok(m),
            Err(e) => Err(Error::LegacyParse(e)),
        }
    } else {
        match json_manifest(s) {
            Ok(m) => Ok(m),
            Err(e) => Err(Error::Parse(e)),
        }
    }
}

/// Reads a manifest from its text, in the current or the legacy encoding.
pub fn parse(text: &str) -> (r: Result<Mod, Error>)
    ensures
        match r {
            Ok(m) => manifest_of(text@) == Ok::<ModModel, Error>(m@),
            Err(e) => manifest_of(text@) == Err::<ModModel, Error>(e),
        },
{
    if crate::srf_json::is_legacy_srf(text) {
        match crate::legacy_srf::deserialize_legacy_srf(text) {
            Ok(m) => Ok(m),
            Err(e) => Err(Error::LegacyParse(e)),
        }
    } else {
        match parse_json(text) {
            Ok(m) => Ok(m),
            Err(e) => Err(Error::Parse(e)),
        }
    }
}

} // verus!
