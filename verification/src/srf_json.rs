//! The JSON text of a manifest, and the probe that reads the aggregate
//! digest from the first part of such a text without decoding it.

use vstd::prelude::*;
use crate::md5_digest::{
    all_hex, hex_char, hex_number, hex_text, hex_value, lemma_hex_text_number,
    lemma_hex_text_shape, lemma_pow16_32, InvalidDigest, Md5Digest,
};
use crate::srf::{files_view, File, FileModel, Mod, ModModel};
use crate::text::{chars_of, decimal_text, push_char, push_decimal, push_text};

verus! {

/// Why the probe could not read an aggregate digest.
#[derive(Clone, Copy, Debug, PartialEq, Eq, Structural)]
pub enum PartialChecksum {
    /// The text does not begin with an object.
    NoJsonStart,
    /// No checksum field was found.
    NoChecksumField,
    /// The value of the field does not have 32 characters.
    InvalidLength,
    /// The value of the field holds a character that is no hexadecimal
    /// digit.
    NonHex,
    /// The field is not followed by a colon and a quoted value.
    Malformed,
}

/// Whether a character is JSON white space.
pub open spec fn is_space(c: char) -> bool {
    c == ' ' || c == '\t' || c == '\n' || c == '\r'
}

/// The place after a leading byte-order mark, if there is one.
pub open spec fn after_bom(s: Seq<char>) -> int {
    if s.len() > 0 && s[0] == '\u{feff}' {
        1
    } else {
        0
    }
}

/// The first place from `from` on that holds no white space.
pub open spec fn after_spaces(s: Seq<char>, from: int) -> int
    decreases s.len() - from,
{
    if 0 <= from < s.len() && is_space(s[from]) {
        after_spaces(s, from + 1)
    } else {
        from
    }
}

/// The place of the first character that is neither the byte-order mark
/// nor white space.
pub open spec fn first_visible(s: Seq<char>) -> int {
    after_spaces(s, after_bom(s))
}

/// Whether a manifest text is in the legacy encoding: its first visible
/// character is not an opening brace.
pub open spec fn looks_legacy(s: Seq<char>) -> bool {
    !(first_visible(s) < s.len() && s[first_visible(s)] == '{')
}

/// An ASCII letter in lower case, any other character as it is.
pub open spec fn ascii_lower(c: char) -> char {
    if 'A' <= c <= 'Z' {
        ((c as u8 + 32) as u8) as char
    } else {
        c
    }
}

/// The quoted name of the checksum field, in lower case.
pub open spec fn field_name() -> Seq<char> {
    seq!['"', 'c', 'h', 'e', 'c', 'k', 's', 'u', 'm', '"']
}

/// Whether the quoted field name stands at place `p`, in any case.
pub open spec fn field_at(s: Seq<char>, p: int) -> bool {
    &&& 0 <= p
    &&& p + 10 <= s.len()
    &&& forall|k: int| 0 <= k < 10 ==> ascii_lower(#[trigger] s[p + k]) == field_name()[k]
}

/// The first place from `from` on at which the quoted field name stands.
pub open spec fn field_from(s: Seq<char>, from: int) -> Option<int>
    decreases s.len() - from,
{
    if from < 0 || from + 10 > s.len() {
        None
    } else if field_at(s, from) {
        Some(from)
    } else {
        field_from(s, from + 1)
    }
}

/// The first place from `from` on that holds a double quote.
pub open spec fn quote_from(s: Seq<char>, from: int) -> Option<int>
    decreases s.len() - from,
{
    if from < 0 || from >= s.len() {
        None
    } else if s[from] == '"' {
        Some(from)
    } else {
        quote_from(s, from + 1)
    }
}

/// What the probe reads from a text: after an optional byte-order mark and
/// white space an opening brace, then the first checksum field in any
/// case, a colon with or without white space round it, and the quoted
/// value, which must be a digest.
pub open spec fn partial_checksum(s: Seq<char>) -> Result<u128, PartialChecksum> {
    let start = first_visible(s);
    if !(start < s.len() && s[start] == '{') {
        Err(PartialChecksum::NoJsonStart)
    } else {
        match field_from(s, start + 1) {
            None => Err(PartialChecksum::NoChecksumField),
            Some(p) => {
                let colon = after_spaces(s, p + 10);
                if !(colon < s.len() && s[colon] == ':') {
                    Err(PartialChecksum::Malformed)
                } else {
                    let open = after_spaces(s, colon + 1);
                    if !(open < s.len() && s[open] == '"') {
                        Err(PartialChecksum::Malformed)
                    } else {
                        match quote_from(s, open + 1) {
                            None => Err(PartialChecksum::Malformed),
                            Some(close) => {
                                let value = s.subrange(open + 1, close);
                                if value.len() != 32 {
                                    Err(PartialChecksum::InvalidLength)
                                } else if !all_hex(value) {
                                    Err(PartialChecksum::NonHex)
                                } else {
                                    Ok(hex_number(value) as u128)
                                }
                            },
                        }
                    }
                }
            },
        }
    }
}

fn skip_spaces(s: &Vec<char>, from: usize) -> (r: usize)
    requires
        from <= s.len(),
    ensures
        r == after_spaces(s@, from as int),
        from <= r <= s.len(),
{
    let mut i: usize = from;
    while i < s.len() && (s[i] == ' ' || s[i] == '\t' || s[i] == '\n' || s[i] == '\r')
        invariant
            from <= i <= s.len(),
            after_spaces(s@, from as int) == after_spaces(s@, i as int),
        decreases s.len() - i,
    {
        i += 1;
    }
    i
}

fn skip_bom(s: &Vec<char>) -> (r: usize)
    ensures
        r == after_bom(s@),
        r <= s.len(),
{
    if s.len() > 0 && s[0] == '\u{feff}' {
        1
    } else {
        0
    }
}

fn lower(c: char) -> (r: char)
    ensures
        r == ascii_lower(c),
{
    if c >= 'A' && c <= 'Z' {
        (c as u8 + 32) as char
    } else {
        c
    }
}

fn is_field_at(s: &Vec<char>, p: usize, name: &Vec<char>) -> (b: bool)
    requires
        name@ == field_name(),
        p + 10 <= s.len(),
    ensures
        b == field_at(s@, p as int),
{
    let mut k: usize = 0;
    while k < 10
        invariant
            k <= 10,
            name@ == field_name(),
            p + 10 <= s.len(),
            forall|j: int| 0 <= j < k ==> ascii_lower(#[trigger] s@[p + j]) == field_name()[j],
        decreases 10 - k,
    {
        if lower(s[p + k]) != name[k] {
            assert(ascii_lower(s@[p + k]) != field_name()[k as int]);
            return false;
        }
        k += 1;
    }
    true
}

fn find_field(s: &Vec<char>, from: usize) -> (r: Option<usize>)
    requires
        from <= s.len(),
    ensures
        match r {
            Some(p) => field_from(s@, from as int) == Some(p as int) && p + 10 <= s.len(),
            None => field_from(s@, from as int) is None,
        },
{
    let name: Vec<char> = vec!['"', 'c', 'h', 'e', 'c', 'k', 's', 'u', 'm', '"'];
    assert(name@ == field_name());
    let mut i: usize = from;
    while s.len() - i >= 10
        invariant
            from <= i <= s.len(),
            name@ == field_name(),
            field_from(s@, from as int) == field_from(s@, i as int),
        decreases s.len() - i,
    {
        if is_field_at(s, i, &name) {
            return Some(i);
        }
        i += 1;
    }
    None
}

fn find_quote(s: &Vec<char>, from: usize) -> (r: Option<usize>)
    requires
        from <= s.len(),
    ensures
        match r {
            Some(q) => quote_from(s@, from as int) == Some(q as int) && from <= q < s.len(),
            None => quote_from(s@, from as int) is None,
        },
{
    let mut i: usize = from;
    while i < s.len()
        invariant
            from <= i <= s.len(),
            quote_from(s@, from as int) == quote_from(s@, i as int),
        decreases s.len() - i,
    {
        if s[i] == '"' {
            return Some(i);
        }
        i += 1;
    }
    None
}

/// Whether a manifest text is in the legacy encoding: after an optional
/// byte-order mark and white space it does not begin with an opening
/// brace.
pub fn is_legacy_srf(text: &str) -> (legacy: bool)
    ensures
        legacy == looks_legacy(text@),
{
    let s = chars_of(text);
    let start = skip_spaces(&s, skip_bom(&s));
    !(start < s.len() && s[start] == '{')
}

/// Reads the aggregate digest from the first part of the JSON text of a
/// manifest, without decoding the text.
pub fn extract_checksum(text: &str) -> (r: Result<Md5Digest, PartialChecksum>)
    ensures
        match r {
            Ok(d) => partial_checksum(text@) == Ok::<u128, PartialChecksum>(d@),
            Err(e) => partial_checksum(text@) == Err::<u128, PartialChecksum>(e),
        },
{
    let s = chars_of(text);
    let start = skip_spaces(&s, skip_bom(&s));
    if !(start < s.len() && s[start] == '{') {
        return Err(PartialChecksum::NoJsonStart);
    }
    let p = match find_field(&s, start + 1) {
        Some(p) => p,
        None => {
            return Err(PartialChecksum::NoChecksumField);
        },
    };
    let colon = skip_spaces(&s, p + 10);
    if !(colon < s.len() && s[colon] == ':') {
        return Err(PartialChecksum::Malformed);
    }
    let open = skip_spaces(&s, colon + 1);
    if !(open < s.len() && s[open] == '"') {
        return Err(PartialChecksum::Malformed);
    }
    let close = match find_quote(&s, open + 1) {
        Some(q) => q,
        None => {
            return Err(PartialChecksum::Malformed);
        },
    };
    let mut value: Vec<char> = Vec::new();
    let mut i: usize = open + 1;
    while i < close
        invariant
            open + 1 <= i <= close,
            close < s.len(),
            value@ == s@.subrange(open + 1, i as int),
        decreases close - i,
    {
        value.push(s[i]);
        assert(s@.subrange(open + 1, i + 1) == s@.subrange(open + 1, i as int).push(s@[i as int]));
        i += 1;
    }
    match Md5Digest::from_chars(&value) {
        Ok(d) => {
            assert(d@ == hex_number(value@) as u128);
            Ok(d)
        },
        Err(InvalidDigest::Length) => Err(PartialChecksum::InvalidLength),
        Err(InvalidDigest::NonHex) => Err(PartialChecksum::NonHex),
    }
}

/// What stands for one character inside a JSON string.
pub open spec fn escaped_char(c: char) -> Seq<char> {
    if c == '"' {
        seq!['\\', '"']
    } else if c == '\\' {
        seq!['\\', '\\']
    } else if c <= '\u{1f}' {
        seq!['\\', 'u', '0', '0', hex_char(c as nat / 16), hex_char(c as nat % 16)]
    } else {
        seq![c]
    }
}

/// What stands for a text inside a JSON string.
pub open spec fn escaped(s: Seq<char>) -> Seq<char>
    decreases s.len(),
{
    if s.len() == 0 {
        Seq::empty()
    } else {
        escaped(s.drop_last()) + escaped_char(s.last())
    }
}

/// A text as a JSON string, with its quotes.
pub open spec fn json_string(s: Seq<char>) -> Seq<char> {
    seq!['"'] + escaped(s) + seq!['"']
}

/// The JSON object of one file.
pub open spec fn file_json(f: FileModel) -> Seq<char> {
    "{\"Path\":"@ + json_string(f.path) + ",\"Length\":"@ + decimal_text(f.length as nat)
        + ",\"Checksum\":\""@ + hex_text(f.checksum as nat, 32) + "\"}"@
}

/// The JSON objects of a list of files, with commas between them.
pub open spec fn files_json(files: Seq<FileModel>) -> Seq<char>
    decreases files.len(),
{
    if files.len() == 0 {
        Seq::empty()
    } else if files.len() == 1 {
        file_json(files[0])
    } else {
        files_json(files.drop_last()) + seq![','] + file_json(files.last())
    }
}

/// How the JSON text of a manifest with the given digest begins: the
/// opening brace and the checksum field.
pub open spec fn json_head(checksum: u128) -> Seq<char> {
    "{\"Checksum\":\""@ + hex_text(checksum as nat, 32) + seq!['"']
}

/// What follows the checksum field in the JSON text of a manifest.
pub open spec fn json_tail(m: ModModel) -> Seq<char> {
    ",\"Name\":"@ + json_string(m.name) + ",\"Files\":["@ + files_json(m.files) + "]}"@
}

/// The JSON text of a manifest. The checksum field comes first, so that
/// the first bytes of the text are enough to read the aggregate digest.
pub open spec fn json_text(m: ModModel) -> Seq<char> {
    json_head(m.checksum) + json_tail(m)
}

fn push_escaped(out: &mut String, c: char)
    ensures
        final(out)@ == old(out)@ + escaped_char(c),
{
    if c == '"' {
        push_char(out, '\\');
        push_char(out, '"');
        assert(out@ == old(out)@ + seq!['\\', '"']);
    } else if c == '\\' {
        push_char(out, '\\');
        push_char(out, '\\');
        assert(out@ == old(out)@ + seq!['\\', '\\']);
    } else if c <= '\u{1f}' {
        let code: u8 = c as u8;
        push_char(out, '\\');
        push_char(out, 'u');
        push_char(out, '0');
        push_char(out, '0');
        push_char(out, hex_digit_char(code / 16));
        push_char(out, hex_digit_char(code % 16));
        assert(out@ == old(out)@ + seq![
            '\\',
            'u',
            '0',
            '0',
            hex_char(c as nat / 16),
            hex_char(c as nat % 16),
        ]);
    } else {
        push_char(out, c);
        assert(out@ == old(out)@ + seq![c]);
    }
}

fn push_json_string(out: &mut String, s: &str)
    ensures
        final(out)@ == old(out)@ + json_string(s@),
{
    let chars = chars_of(s);
    push_char(out, '"');
    let mut i: usize = 0;
    assert(old(out)@.push('"') + escaped(chars@.take(0)) == old(out)@.push('"'));
    while i < chars.len()
        invariant
            i <= chars.len(),
            chars@ == s@,
            out@ == old(out)@.push('"') + escaped(chars@.take(i as int)),
        decreases chars.len() - i,
    {
        let ghost before = out@;
        let c = chars[i];
        push_escaped(out, c);
        proof {
            assert(out@ == before + escaped_char(c));
            assert(chars@.take(i + 1).drop_last() == chars@.take(i as int));
            assert(chars@.take(i + 1).last() == c);
            assert(old(out)@.push('"') + escaped(chars@.take(i as int)) + escaped_char(c) == old(
                out,
            )@.push('"') + escaped(chars@.take(i + 1)));
        }
        i += 1;
    }
    assert(chars@.take(chars.len() as int) == chars@);
    push_char(out, '"');
    assert(out@ == old(out)@ + json_string(s@));
}

fn hex_digit_char(d: u8) -> (c: char)
    requires
        d < 16,
    ensures
        c == hex_char(d as nat),
{
    if d < 10 {
        (48 + d) as char
    } else {
        (87 + d) as char
    }
}

fn push_file_json(out: &mut String, f: &File)
    ensures
        final(out)@ == old(out)@ + file_json(f@),
{
    push_text(out, "{\"Path\":");
    push_json_string(out, f.path.as_str());
    push_text(out, ",\"Length\":");
    push_decimal(out, f.length);
    push_text(out, ",\"Checksum\":\"");
    let hex = f.checksum.to_hex();
    push_text(out, hex.as_str());
    push_text(out, "\"}");
    assert(out@ == old(out)@ + file_json(f@));
}

/// The JSON text of a manifest: the current encoding, with the files in
/// the order of the manifest.
pub fn to_json(m: &Mod) -> (out: String)
    ensures
        out@ == json_text(m@),
{
    let mut out = String::new();
    push_text(&mut out, "{\"Checksum\":\"");
    let hex = m.checksum.to_hex();
    push_text(&mut out, hex.as_str());
    push_char(&mut out, '"');
    assert(out@ == json_head(m@.checksum));
    push_text(&mut out, ",\"Name\":");
    push_json_string(&mut out, m.name.as_str());
    push_text(&mut out, ",\"Files\":[");
    let ghost start = out@;
    let ghost all = files_view(m.files@);
    let mut i: usize = 0;
    assert(start + files_json(all.take(0)) == start);
    while i < m.files.len()
        invariant
            i <= m.files.len(),
            all == files_view(m.files@),
            out@ == start + files_json(all.take(i as int)),
        decreases m.files.len() - i,
    {
        let ghost before = out@;
        if i > 0 {
            push_char(&mut out, ',');
        }
        push_file_json(&mut out, &m.files[i]);
        proof {
            let next = all.take(i + 1);
            assert(next.drop_last() == all.take(i as int));
            assert(next.last() == m.files@[i as int]@);
            if i == 0 {
                assert(next[0] == m.files@[0]@);
                assert(out@ == start + files_json(next));
            } else {
                assert(out@ == before.push(',') + file_json(next.last()));
                assert(before.push(',') + file_json(next.last()) == start + (files_json(
                    all.take(i as int),
                ) + seq![','] + file_json(next.last())));
            }
        }
        i += 1;
    }
    assert(all.take(m.files.len() as int) == all);
    push_text(&mut out, "]}");
    assert(out@ == json_head(m@.checksum) + json_tail(m@));
    out
}

/// The first quote after a run of characters that are no quotes is the
/// one that ends the run.
pub proof fn lemma_quote_after_run(s: Seq<char>, from: int, to: int)
    requires
        0 <= from <= to < s.len(),
        forall|j: int| from <= j < to ==> #[trigger] s[j] != '"',
        s[to] == '"',
    ensures
        quote_from(s, from) == Some(to),
    decreases to - from,
{
    if from < to {
        lemma_quote_after_run(s, from + 1, to);
    }
}

/// The probe reads the digest from every text that begins as the JSON
/// text of a manifest with that digest begins.
pub proof fn lemma_probe_reads_head(checksum: u128, rest: Seq<char>)
    ensures
        partial_checksum(json_head(checksum) + rest) == Ok::<u128, PartialChecksum>(checksum),
{
    reveal_strlit("{\"Checksum\":\"");
    let open_text = "{\"Checksum\":\""@;
    let hex = hex_text(checksum as nat, 32);
    let s = json_head(checksum) + rest;
    lemma_hex_text_shape(checksum as nat, 32);
    lemma_pow16_32();
    lemma_hex_text_number(checksum as nat, 32);
    assert(open_text.len() == 13);
    assert(s.len() >= 46);
    assert forall|k: int| 0 <= k < 13 implies s[k] == open_text[k] by {}
    assert forall|k: int| 13 <= k < 45 implies s[k] == #[trigger] hex[k - 13] by {}
    assert(s[45] == '"');
    assert(s[0] == '{');
    assert(after_bom(s) == 0);
    assert(after_spaces(s, 0) == 0);
    assert(field_at(s, 1)) by {
        assert forall|k: int| 0 <= k < 10 implies ascii_lower(#[trigger] s[1 + k])
            == field_name()[k] by {
            assert(s[1 + k] == open_text[1 + k]);
        }
    }
    assert(field_from(s, 1) == Some(1int));
    assert(s[11] == ':');
    assert(after_spaces(s, 11) == 11);
    assert(s[12] == '"');
    assert(after_spaces(s, 12) == 12);
    assert forall|j: int| 13 <= j < 45 implies #[trigger] s[j] != '"' by {
        assert(s[j] == hex[j - 13]);
        assert(hex_value(hex[j - 13]) is Some);
    }
    lemma_quote_after_run(s, 13, 45);
    assert(s.subrange(13, 45) == hex);
}

/// The probe reads the digest of a manifest from the first `n` characters
/// of its JSON text, for every `n` from 46 on: the text puts the checksum
/// field within its first 46 characters, which are as many bytes.
pub proof fn lemma_probe_reads_json(m: ModModel, n: int)
    requires
        46 <= n,
    ensures
        partial_checksum(json_text(m)) == Ok::<u128, PartialChecksum>(m.checksum),
        n <= json_text(m).len() ==> partial_checksum(json_text(m).take(n)) == Ok::<
            u128,
            PartialChecksum,
        >(m.checksum),
{
    reveal_strlit("{\"Checksum\":\"");
    lemma_hex_text_shape(m.checksum as nat, 32);
    lemma_probe_reads_head(m.checksum, json_tail(m));
    if n <= json_text(m).len() {
        assert(json_head(m.checksum).len() == 46);
        lemma_probe_reads_head(m.checksum, json_tail(m).take(n - 46));
        assert(json_text(m).take(n) == json_head(m.checksum) + json_tail(m).take(n - 46));
    }
}

} // verus!
