//! Writing a manifest as JSON and reading the text back gives the
//! manifest. This module holds the proof, piece by piece: strings,
//! numbers, digests, the object of a file, the array of files and the
//! manifest itself.

use vstd::prelude::*;
use crate::md5_digest::{
    all_hex, hex_char, hex_number, hex_text, hex_value, lemma_hex_text_number,
    lemma_hex_text_shape, lemma_pow16_32,
};
use crate::srf::{is_scan_of, FileModel, ModModel};
use crate::srf_json::{
    after_bom, after_spaces, escaped, escaped_char, file_json, files_json, is_space, json_head,
    json_string, json_tail, json_text,
};
use crate::srf_parse::{
    char_at, digest_at, digits_end, file_at, file_field, file_members, files_at, files_from,
    hex4_at, json_manifest, key_at, key_checksum, key_files, key_length, key_name, key_path,
    lowered, manifest_of, mod_field, mod_members, no_file_fields, no_mod_fields, number_at,
    string_at, string_from, unicode_escape_at, Error, FileFields, ModFields, ParseError,
};
use crate::text::{all_digits, decimal_number, decimal_text};

verus! {

/// Whether the text `t` stands in `s` at place `p`.
pub open spec fn holds_at(s: Seq<char>, p: int, t: Seq<char>) -> bool {
    0 <= p && p + t.len() <= s.len() && s.subrange(p, p + t.len()) == t
}

/// A text that stands at a place has each of its characters there.
pub proof fn lemma_holds_at_index(s: Seq<char>, p: int, t: Seq<char>, i: int)
    requires
        holds_at(s, p, t),
        0 <= i < t.len(),
    ensures
        s[p + i] == t[i],
{
    assert(s.subrange(p, p + t.len())[i] == s[p + i]);
}

/// Where two texts stand one after the other, each stands at its place.
pub proof fn lemma_holds_at_parts(s: Seq<char>, p: int, a: Seq<char>, b: Seq<char>)
    requires
        holds_at(s, p, a + b),
    ensures
        holds_at(s, p, a),
        holds_at(s, p + a.len(), b),
{
    let whole = a + b;
    assert(s.subrange(p, p + a.len()) =~= a) by {
        assert forall|i: int| 0 <= i < a.len() implies s.subrange(p, p + a.len())[i] == a[i] by {
            lemma_holds_at_index(s, p, whole, i);
        }
    }
    assert(s.subrange(p + a.len(), p + a.len() + b.len()) =~= b) by {
        assert forall|i: int| 0 <= i < b.len() implies s.subrange(
            p + a.len(),
            p + a.len() + b.len(),
        )[i] == b[i] by {
            lemma_holds_at_index(s, p, whole, a.len() + i);
        }
    }
}

/// Whether a character stands for itself inside a JSON string.
pub open spec fn is_plain(c: char) -> bool {
    c != '"' && c != '\\' && c > '\u{1f}'
}

/// Whether every character of a text stands for itself inside a JSON
/// string.
pub open spec fn all_plain(x: Seq<char>) -> bool {
    forall|i: int| 0 <= i < x.len() ==> is_plain(#[trigger] x[i])
}

/// The escaped form of two texts in a row is the escaped forms in a row.
pub proof fn lemma_escaped_concat(a: Seq<char>, b: Seq<char>)
    ensures
        escaped(a + b) == escaped(a) + escaped(b),
    decreases b.len(),
{
    if b.len() == 0 {
        assert(a + b == a);
        assert(escaped(a) + escaped(b) == escaped(a));
    } else {
        assert((a + b).drop_last() == a + b.drop_last());
        assert((a + b).last() == b.last());
        lemma_escaped_concat(a, b.drop_last());
        assert(escaped(a) + escaped(b.drop_last()) + escaped_char(b.last()) == escaped(a) + (
        escaped(b.drop_last()) + escaped_char(b.last())));
    }
}

/// The escaped form of a text begins with that of its first character.
pub proof fn lemma_escaped_front(x: Seq<char>)
    requires
        x.len() > 0,
    ensures
        escaped(x) == escaped_char(x[0]) + escaped(x.drop_first()),
{
    let first = seq![x[0]];
    assert(x == first + x.drop_first());
    lemma_escaped_concat(first, x.drop_first());
    assert(first.drop_last() == Seq::<char>::empty());
    assert(escaped(first) == escaped(Seq::<char>::empty()) + escaped_char(x[0]));
    assert(escaped(first) == escaped_char(x[0]));
}

/// A text of plain characters is its own escaped form.
pub proof fn lemma_escaped_plain(x: Seq<char>)
    requires
        all_plain(x),
    ensures
        escaped(x) == x,
    decreases x.len(),
{
    if x.len() > 0 {
        assert(is_plain(x.last()));
        assert forall|i: int| 0 <= i < x.drop_last().len() implies is_plain(
            #[trigger] x.drop_last()[i],
        ) by {
            assert(x.drop_last()[i] == x[i]);
        }
        lemma_escaped_plain(x.drop_last());
        assert(x.drop_last() + seq![x.last()] == x);
    }
}

/// Reading the escaped form of a character gives the character.
pub proof fn lemma_char_at(s: Seq<char>, p: int, c: char)
    requires
        holds_at(s, p, escaped_char(c)),
    ensures
        char_at(s, p) == Some((c, p + escaped_char(c).len())),
        s[p] != '"',
{
    let e = escaped_char(c);
    lemma_holds_at_index(s, p, e, 0);
    if c == '"' || c == '\\' {
        lemma_holds_at_index(s, p, e, 1);
    } else if c <= '\u{1f}' {
        lemma_holds_at_index(s, p, e, 1);
        let digits = s.subrange(p + 2, p + 6);
        let v = c as nat;
        assert(v < 32);
        assert(digits =~= seq!['0', '0', hex_char(v / 16), hex_char(v % 16)]) by {
            lemma_holds_at_index(s, p, e, 2);
            lemma_holds_at_index(s, p, e, 3);
            lemma_holds_at_index(s, p, e, 4);
            lemma_holds_at_index(s, p, e, 5);
        }
        assert(hex_value(digits[0]) == Some(0nat));
        assert(hex_value(digits[1]) == Some(0nat));
        assert(hex_value(digits[2]) == Some(v / 16));
        assert(hex_value(digits[3]) == Some(v % 16));
        assert(all_hex(digits));
        assert(hex_number(digits) == v) by {
            let d3 = digits.drop_last();
            let d2 = d3.drop_last();
            let d1 = d2.drop_last();
            assert(d3.last() == digits[2]);
            assert(d2.last() == digits[1]);
            assert(d1.last() == digits[0]);
            assert(d1.drop_last().len() == 0);
            assert(hex_number(d1.drop_last()) == 0);
            assert(hex_number(d1) == 0);
            assert(hex_number(d2) == 0);
            assert(hex_number(d3) == v / 16);
        }
        assert(hex4_at(s, p + 2) == Some(v));
        vstd::utf8::char_u32_cast(c, c as u32);
        assert(unicode_escape_at(s, p + 2) == Some((c, p + 6)));
    }
}

/// Reading the escaped form of a text up to the closing quote gives the
/// text.
pub proof fn lemma_string_from(s: Seq<char>, p: int, x: Seq<char>, found: Seq<char>)
    requires
        holds_at(s, p, escaped(x) + seq!['"']),
    ensures
        string_from(s, p, found) == Some((found + x, p + escaped(x).len() + 1)),
    decreases x.len(),
{
    lemma_holds_at_parts(s, p, escaped(x), seq!['"']);
    if x.len() == 0 {
        lemma_holds_at_index(s, p, seq!['"'], 0);
        assert(found + x == found);
    } else {
        lemma_escaped_front(x);
        let c = x[0];
        let rest = x.drop_first();
        lemma_holds_at_parts(s, p, escaped_char(c), escaped(rest));
        lemma_char_at(s, p, c);
        let q = p + escaped_char(c).len();
        assert(holds_at(s, q, escaped(rest) + seq!['"'])) by {
            assert(escaped(x) + seq!['"'] == escaped_char(c) + (escaped(rest) + seq!['"']));
            lemma_holds_at_parts(s, p, escaped_char(c), escaped(rest) + seq!['"']);
        }
        lemma_string_from(s, q, rest, found.push(c));
        assert(found.push(c) + rest == found + x);
    }
}

/// Reading the JSON string of a text gives the text.
pub proof fn lemma_string_at(s: Seq<char>, p: int, x: Seq<char>)
    requires
        holds_at(s, p, json_string(x)),
    ensures
        string_at(s, p) == Some((x, p + json_string(x).len())),
{
    assert(json_string(x) == seq!['"'] + (escaped(x) + seq!['"']));
    lemma_holds_at_parts(s, p, seq!['"'], escaped(x) + seq!['"']);
    lemma_holds_at_index(s, p, seq!['"'], 0);
    lemma_string_from(s, p + 1, x, Seq::empty());
    assert(Seq::<char>::empty() + x == x);
}

/// The decimal text of a number holds only digits, at least one, and
/// spells the number.
pub proof fn lemma_decimal_text(n: nat)
    ensures
        decimal_text(n).len() > 0,
        all_digits(decimal_text(n)),
        decimal_number(decimal_text(n)) == n,
    decreases n,
{
    let t = decimal_text(n);
    if n < 10 {
        assert(t.drop_last().len() == 0);
        assert(t.last() == ((48 + n) as u8) as char);
        assert(decimal_number(t.drop_last()) == 0);
    } else {
        lemma_decimal_text(n / 10);
        let before = decimal_text(n / 10);
        assert(t.drop_last() == before);
        assert(t.last() == ((48 + n % 10) as u8) as char);
        assert forall|i: int| 0 <= i < t.len() implies '0' <= #[trigger] t[i] <= '9' by {
            if i < before.len() {
                assert(t[i] == before[i]);
            }
        }
    }
}

/// A run of digits that is followed by another character ends there.
pub proof fn lemma_digits_run(s: Seq<char>, p: int, t: Seq<char>)
    requires
        holds_at(s, p, t),
        all_digits(t),
        p + t.len() < s.len(),
        !('0' <= s[p + t.len()] <= '9'),
    ensures
        digits_end(s, p) == p + t.len(),
    decreases t.len(),
{
    if t.len() > 0 {
        lemma_holds_at_index(s, p, t, 0);
        assert(holds_at(s, p + 1, t.drop_first())) by {
            assert(t == seq![t[0]] + t.drop_first());
            lemma_holds_at_parts(s, p, seq![t[0]], t.drop_first());
        }
        assert forall|i: int| 0 <= i < t.drop_first().len() implies '0' <= #[trigger] t.drop_first()[i]
            <= '9' by {
            assert(t.drop_first()[i] == t[i + 1]);
        }
        lemma_digits_run(s, p + 1, t.drop_first());
    }
}

/// Reading the decimal text of a length gives the length, where a comma
/// follows.
pub proof fn lemma_number_at(s: Seq<char>, p: int, n: u64)
    requires
        holds_at(s, p, decimal_text(n as nat) + seq![',']),
    ensures
        number_at(s, p) == Some((n, p + decimal_text(n as nat).len())),
{
    let t = decimal_text(n as nat);
    lemma_decimal_text(n as nat);
    lemma_holds_at_parts(s, p, t, seq![',']);
    lemma_holds_at_index(s, p + t.len(), seq![','], 0);
    lemma_digits_run(s, p, t);
}

/// Hexadecimal digits are plain characters.
pub proof fn lemma_hex_is_plain(x: Seq<char>)
    requires
        all_hex(x),
    ensures
        all_plain(x),
{
    assert forall|i: int| 0 <= i < x.len() implies is_plain(#[trigger] x[i]) by {
        assert(hex_value(x[i]) is Some);
    }
}

/// Reading the quoted text of a digest gives the digest.
pub proof fn lemma_digest_at(s: Seq<char>, p: int, d: u128)
    requires
        holds_at(s, p, seq!['"'] + hex_text(d as nat, 32) + seq!['"']),
    ensures
        digest_at(s, p) == Ok::<(u128, int), ParseError>((d, p + 34)),
{
    let hex = hex_text(d as nat, 32);
    lemma_hex_text_shape(d as nat, 32);
    lemma_pow16_32();
    lemma_hex_text_number(d as nat, 32);
    lemma_hex_is_plain(hex);
    lemma_escaped_plain(hex);
    lemma_string_at(s, p, hex);
}

/// A place that holds no white space is where the white space from it on
/// ends.
pub proof fn lemma_no_space(s: Seq<char>, p: int)
    requires
        0 <= p < s.len(),
        !is_space(s[p]),
    ensures
        after_spaces(s, p) == p,
{
}

/// The quoted name of a field with its colon.
pub open spec fn quoted_key(name: Seq<char>) -> Seq<char> {
    seq!['"'] + name + seq!['"', ':']
}

/// Reading a quoted field name and its colon gives the name in lower
/// case, where the value begins right after the colon.
pub proof fn lemma_key_at(s: Seq<char>, p: int, name: Seq<char>)
    requires
        holds_at(s, p, quoted_key(name)),
        all_plain(name),
        p + name.len() + 3 < s.len(),
        !is_space(s[p + name.len() + 3]),
    ensures
        key_at(s, p) == Some((lowered(name), p + name.len() + 3)),
{
    lemma_escaped_plain(name);
    assert(quoted_key(name) == json_string(name) + seq![':']);
    lemma_holds_at_parts(s, p, json_string(name), seq![':']);
    lemma_string_at(s, p, name);
    let at1 = p + name.len() + 2;
    lemma_holds_at_index(s, at1, seq![':'], 0);
    lemma_no_space(s, at1);
    lemma_no_space(s, at1 + 1);
}

/// The JSON object of a file, piece by piece.
pub open spec fn file_pieces(f: FileModel) -> Seq<char> {
    seq!['{'] + quoted_key("Path"@) + json_string(f.path) + seq![','] + quoted_key("Length"@)
        + decimal_text(f.length as nat) + seq![','] + quoted_key("Checksum"@) + (seq!['"']
        + hex_text(f.checksum as nat, 32) + seq!['"']) + seq!['}']
}

/// The JSON object of a file is its pieces in a row.
pub proof fn lemma_file_pieces(f: FileModel)
    ensures
        file_json(f) == file_pieces(f),
        lowered("Path"@) == key_path(),
        lowered("Length"@) == key_length(),
        lowered("Checksum"@) == key_checksum(),
        all_plain("Path"@),
        all_plain("Length"@),
        all_plain("Checksum"@),
        "Path"@.len() == 4,
        "Length"@.len() == 6,
        "Checksum"@.len() == 8,
{
    reveal_strlit("Path");
    reveal_strlit("Length");
    reveal_strlit("Checksum");
    reveal_strlit("{\"Path\":");
    reveal_strlit(",\"Length\":");
    reveal_strlit(",\"Checksum\":\"");
    reveal_strlit("\"}");
    assert("{\"Path\":"@ =~= seq!['{'] + quoted_key("Path"@));
    assert(",\"Length\":"@ =~= seq![','] + quoted_key("Length"@));
    assert(",\"Checksum\":\""@ =~= seq![','] + quoted_key("Checksum"@) + seq!['"']);
    assert("\"}"@ =~= seq!['"', '}']);
    assert(file_json(f) =~= file_pieces(f));
    assert(lowered("Path"@) =~= key_path());
    assert(lowered("Length"@) =~= key_length());
    assert(lowered("Checksum"@) =~= key_checksum());
}

/// Where a run of digits stands and a comma follows, the digits with
/// the comma stand there.
pub proof fn lemma_with_comma(s: Seq<char>, p: int, t: Seq<char>)
    requires
        holds_at(s, p, t),
        holds_at(s, p + t.len(), seq![',']),
    ensures
        holds_at(s, p, t + seq![',']),
{
    let whole = t + seq![','];
    assert(s.subrange(p, p + whole.len()) =~= whole) by {
        assert forall|i: int| 0 <= i < whole.len() implies s.subrange(p, p + whole.len())[i]
            == whole[i] by {
            if i < t.len() {
                lemma_holds_at_index(s, p, t, i);
            } else {
                lemma_holds_at_index(s, p + t.len(), seq![','], 0);
            }
        }
    }
}

/// The places at which the pieces of the JSON object of a file stand.
pub open spec fn file_places(s: Seq<char>, p: int, f: FileModel) -> bool {
    let v1 = json_string(f.path);
    let v2 = decimal_text(f.length as nat);
    let a1 = p + 8 + v1.len();
    let a2 = a1 + 10 + v2.len();
    &&& holds_at(s, p, seq!['{'])
    &&& holds_at(s, p + 1, quoted_key("Path"@))
    &&& holds_at(s, p + 8, v1)
    &&& holds_at(s, a1, seq![','])
    &&& holds_at(s, a1 + 1, quoted_key("Length"@))
    &&& holds_at(s, a1 + 10, v2)
    &&& holds_at(s, a2, seq![','])
    &&& holds_at(s, a2 + 1, quoted_key("Checksum"@))
    &&& holds_at(s, a2 + 12, seq!['"'] + hex_text(f.checksum as nat, 32) + seq!['"'])
    &&& holds_at(s, a2 + 46, seq!['}'])
    &&& file_json(f).len() == a2 + 47 - p
}

/// Where the JSON object of a file stands, its pieces stand at their
/// places.
pub proof fn lemma_file_places(s: Seq<char>, p: int, f: FileModel)
    requires
        holds_at(s, p, file_json(f)),
    ensures
        file_places(s, p, f),
{
    lemma_file_pieces(f);
    lemma_hex_text_shape(f.checksum as nat, 32);
    let k1 = quoted_key("Path"@);
    let v1 = json_string(f.path);
    let k2 = quoted_key("Length"@);
    let v2 = decimal_text(f.length as nat);
    let k3 = quoted_key("Checksum"@);
    let v3 = seq!['"'] + hex_text(f.checksum as nat, 32) + seq!['"'];
    let comma = seq![','];
    let t2 = seq!['{'] + k1;
    let t3 = t2 + v1;
    let t4 = t3 + comma;
    let t5 = t4 + k2;
    let t6 = t5 + v2;
    let t7 = t6 + comma;
    let t8 = t7 + k3;
    let t9 = t8 + v3;
    assert(file_pieces(f) == t9 + seq!['}']);
    lemma_holds_at_parts(s, p, t9, seq!['}']);
    lemma_holds_at_parts(s, p, t8, v3);
    lemma_holds_at_parts(s, p, t7, k3);
    lemma_holds_at_parts(s, p, t6, comma);
    lemma_holds_at_parts(s, p, t5, v2);
    lemma_holds_at_parts(s, p, t4, k2);
    lemma_holds_at_parts(s, p, t3, comma);
    lemma_holds_at_parts(s, p, t2, v1);
    lemma_holds_at_parts(s, p, seq!['{'], k1);
}

/// Reading the last member of the JSON object of a file, its checksum.
proof fn lemma_file_member_checksum(s: Seq<char>, at: int, d: u128, f2: FileFields)
    requires
        holds_at(s, at, quoted_key("Checksum"@)),
        holds_at(s, at + 11, seq!['"'] + hex_text(d as nat, 32) + seq!['"']),
        holds_at(s, at + 45, seq!['}']),
    ensures
        file_members(s, at, f2) == Ok::<(FileFields, int), ParseError>(
            (FileFields { checksum: Some(d), ..f2 }, at + 46),
        ),
{
    lemma_file_pieces(FileModel { path: Seq::empty(), length: 0, checksum: 0 });
    lemma_holds_at_index(s, at, quoted_key("Checksum"@), 0);
    lemma_holds_at_index(s, at + 11, seq!['"'] + hex_text(d as nat, 32) + seq!['"'], 0);
    lemma_holds_at_index(s, at + 45, seq!['}'], 0);
    lemma_no_space(s, at);
    lemma_key_at(s, at, "Checksum"@);
    lemma_digest_at(s, at + 11, d);
    assert(file_field(s, at + 11, key_checksum(), f2) == Ok::<(FileFields, int), ParseError>(
        (FileFields { checksum: Some(d), ..f2 }, at + 45),
    ));
    lemma_no_space(s, at + 45);
}

/// Reading the member of the JSON object of a file that holds its
/// length.
proof fn lemma_file_member_length(s: Seq<char>, at: int, n: u64, f1: FileFields)
    requires
        holds_at(s, at, quoted_key("Length"@)),
        holds_at(s, at + 9, decimal_text(n as nat)),
        holds_at(s, at + 9 + decimal_text(n as nat).len(), seq![',']),
    ensures
        key_at(s, at) == Some((key_length(), at + 9)),
        file_field(s, at + 9, key_length(), f1) == Ok::<(FileFields, int), ParseError>(
            (FileFields { length: Some(n), ..f1 }, at + 9 + decimal_text(n as nat).len()),
        ),
        after_spaces(s, at) == at,
        s[at] != '}',
        after_spaces(s, at + 9 + decimal_text(n as nat).len()) == at + 9 + decimal_text(
            n as nat,
        ).len(),
        s[at + 9 + decimal_text(n as nat).len()] == ',',
{
    lemma_file_pieces(FileModel { path: Seq::empty(), length: 0, checksum: 0 });
    let v2 = decimal_text(n as nat);
    lemma_decimal_text(n as nat);
    lemma_holds_at_index(s, at, quoted_key("Length"@), 0);
    lemma_holds_at_index(s, at + 9, v2, 0);
    lemma_holds_at_index(s, at + 9 + v2.len(), seq![','], 0);
    assert('0' <= v2[0] <= '9');
    lemma_no_space(s, at);
    lemma_key_at(s, at, "Length"@);
    lemma_with_comma(s, at + 9, v2);
    lemma_number_at(s, at + 9, n);
    lemma_no_space(s, at + 9 + v2.len());
}

/// Reading the member of the JSON object of a file that holds its path.
proof fn lemma_file_member_path(s: Seq<char>, at: int, path: Seq<char>, f0: FileFields)
    requires
        holds_at(s, at, quoted_key("Path"@)),
        holds_at(s, at + 7, json_string(path)),
        holds_at(s, at + 7 + json_string(path).len(), seq![',']),
    ensures
        key_at(s, at) == Some((key_path(), at + 7)),
        file_field(s, at + 7, key_path(), f0) == Ok::<(FileFields, int), ParseError>(
            (FileFields { path: Some(path), ..f0 }, at + 7 + json_string(path).len()),
        ),
        after_spaces(s, at) == at,
        s[at] != '}',
        after_spaces(s, at + 7 + json_string(path).len()) == at + 7 + json_string(path).len(),
        s[at + 7 + json_string(path).len()] == ',',
{
    lemma_file_pieces(FileModel { path: Seq::empty(), length: 0, checksum: 0 });
    let v1 = json_string(path);
    lemma_holds_at_index(s, at, quoted_key("Path"@), 0);
    lemma_holds_at_index(s, at + 7, v1, 0);
    lemma_holds_at_index(s, at + 7 + v1.len(), seq![','], 0);
    lemma_no_space(s, at);
    lemma_key_at(s, at, "Path"@);
    lemma_string_at(s, at + 7, path);
    lemma_no_space(s, at + 7 + v1.len());
}

/// Reading the JSON object of a file gives the file.
pub proof fn lemma_file_at(s: Seq<char>, p: int, f: FileModel)
    requires
        holds_at(s, p, file_json(f)),
    ensures
        file_at(s, p) == Ok::<(FileModel, int), ParseError>((f, p + file_json(f).len())),
{
    lemma_file_places(s, p, f);
    let v1 = json_string(f.path);
    let v2 = decimal_text(f.length as nat);
    let a1 = p + 8 + v1.len();
    let a2 = a1 + 10 + v2.len();
    let f0 = no_file_fields();
    let f1 = FileFields { path: Some(f.path), ..f0 };
    let f2 = FileFields { length: Some(f.length), ..f1 };
    let f3 = FileFields { checksum: Some(f.checksum), ..f2 };
    lemma_holds_at_index(s, p, seq!['{'], 0);
    lemma_file_member_checksum(s, a2 + 1, f.checksum, f2);
    lemma_file_member_length(s, a1 + 1, f.length, f1);
    assert(file_members(s, a1 + 1, f1) == file_members(s, a2 + 1, f2));
    lemma_file_member_path(s, p + 1, f.path, f0);
    assert(file_members(s, p + 1, f0) == file_members(s, a1 + 1, f1));
}

/// The JSON objects of a list of files begin with that of the first.
pub proof fn lemma_files_json_front(files: Seq<FileModel>)
    requires
        files.len() > 0,
    ensures
        files_json(files) == if files.len() == 1 {
            file_json(files[0])
        } else {
            file_json(files[0]) + seq![','] + files_json(files.drop_first())
        },
    decreases files.len(),
{
    if files.len() >= 2 {
        let before = files.drop_last();
        let rest = files.drop_first();
        assert(rest.last() == files.last());
        assert(before[0] == files[0]);
        assert(files_json(files) == files_json(before) + seq![','] + file_json(files.last()));
        if files.len() == 2 {
            assert(rest.len() == 1);
            assert(rest[0] == files.last());
            assert(before.len() == 1);
            assert(files_json(before) == file_json(before[0]));
            assert(files_json(rest) == file_json(rest[0]));
        } else {
            lemma_files_json_front(before);
            assert(before.drop_first() == rest.drop_last());
            assert(files_json(rest) == files_json(rest.drop_last()) + seq![','] + file_json(
                rest.last(),
            ));
            assert(files_json(before) == file_json(files[0]) + seq![','] + files_json(
                rest.drop_last(),
            ));
            assert(files_json(files) == file_json(files[0]) + seq![','] + files_json(
                rest.drop_last(),
            ) + seq![','] + file_json(files.last()));
            assert(file_json(files[0]) + seq![','] + files_json(rest.drop_last()) + seq![',']
                + file_json(files.last()) == file_json(files[0]) + seq![','] + (files_json(
                rest.drop_last(),
            ) + seq![','] + file_json(files.last())));
        }
    }
}

/// Reading the JSON objects of a list of files up to the closing bracket
/// gives the files.
pub proof fn lemma_files_from(s: Seq<char>, p: int, files: Seq<FileModel>, found: Seq<FileModel>)
    requires
        holds_at(s, p, files_json(files) + seq![']']),
    ensures
        files_from(s, p, found) == Ok::<(Seq<FileModel>, int), ParseError>(
            (found + files, p + files_json(files).len() + 1),
        ),
    decreases files.len(),
{
    let close = seq![']'];
    lemma_holds_at_parts(s, p, files_json(files), close);
    if files.len() == 0 {
        lemma_holds_at_index(s, p, close, 0);
        lemma_no_space(s, p);
        assert(found + files == found);
    } else {
        lemma_files_json_front(files);
        let first = file_json(files[0]);
        let rest = files.drop_first();
        let at1 = p + first.len();
        if files.len() == 1 {
            lemma_file_places(s, p, files[0]);
            lemma_holds_at_index(s, p, seq!['{'], 0);
            lemma_no_space(s, p);
            lemma_file_at(s, p, files[0]);
            lemma_holds_at_index(s, at1, close, 0);
            lemma_no_space(s, at1);
            assert(found.push(files[0]) == found + files);
        } else {
            let tail = seq![','] + files_json(rest) + close;
            assert(files_json(files) + close == first + tail);
            lemma_holds_at_parts(s, p, first, tail);
            assert(tail == seq![','] + (files_json(rest) + close));
            lemma_holds_at_parts(s, at1, seq![','], files_json(rest) + close);
            lemma_file_places(s, p, files[0]);
            lemma_holds_at_index(s, p, seq!['{'], 0);
            lemma_no_space(s, p);
            lemma_file_at(s, p, files[0]);
            lemma_holds_at_index(s, at1, seq![','], 0);
            lemma_no_space(s, at1);
            lemma_files_from(s, at1 + 1, rest, found.push(files[0]));
            assert(found.push(files[0]) + rest == found + files);
            assert(files_json(files).len() == first.len() + 1 + files_json(rest).len());
        }
    }
}

/// The JSON text of a manifest, piece by piece.
pub open spec fn manifest_pieces(m: ModModel) -> Seq<char> {
    seq!['{'] + quoted_key("Checksum"@) + (seq!['"'] + hex_text(m.checksum as nat, 32) + seq![
        '"',
    ]) + seq![','] + quoted_key("Name"@) + json_string(m.name) + seq![','] + quoted_key("Files"@)
        + seq!['['] + (files_json(m.files) + seq![']']) + seq!['}']
}

/// The JSON text of a manifest is its pieces in a row.
pub proof fn lemma_manifest_pieces(m: ModModel)
    ensures
        json_text(m) == manifest_pieces(m),
        lowered("Name"@) == key_name(),
        lowered("Files"@) == key_files(),
        lowered("Checksum"@) == key_checksum(),
        all_plain("Name"@),
        all_plain("Files"@),
        all_plain("Checksum"@),
        "Name"@.len() == 4,
        "Files"@.len() == 5,
        "Checksum"@.len() == 8,
{
    reveal_strlit("Name");
    reveal_strlit("Files");
    reveal_strlit("Checksum");
    reveal_strlit("{\"Checksum\":\"");
    reveal_strlit(",\"Name\":");
    reveal_strlit(",\"Files\":[");
    reveal_strlit("]}");
    assert("{\"Checksum\":\""@ =~= seq!['{'] + quoted_key("Checksum"@) + seq!['"']);
    assert(",\"Name\":"@ =~= seq![','] + quoted_key("Name"@));
    assert(",\"Files\":["@ =~= seq![','] + quoted_key("Files"@) + seq!['[']);
    assert("]}"@ =~= seq![']', '}']);
    assert(json_head(m.checksum) =~= seq!['{'] + quoted_key("Checksum"@) + (seq!['"'] + hex_text(
        m.checksum as nat,
        32,
    ) + seq!['"']));
    assert(json_tail(m) =~= seq![','] + quoted_key("Name"@) + json_string(m.name) + seq![',']
        + quoted_key("Files"@) + seq!['['] + (files_json(m.files) + seq![']']) + seq!['}']);
    assert(json_text(m) =~= manifest_pieces(m));
    assert(lowered("Name"@) =~= key_name());
    assert(lowered("Files"@) =~= key_files());
    assert(lowered("Checksum"@) =~= key_checksum());
}

/// The places at which the pieces of the JSON text of a manifest stand.
pub open spec fn manifest_places(s: Seq<char>, m: ModModel) -> bool {
    let b: int = 54 + json_string(m.name).len() as int;
    let e: int = b + 10 + files_json(m.files).len() + 1;
    &&& holds_at(s, 0, seq!['{'])
    &&& holds_at(s, 1, quoted_key("Checksum"@))
    &&& holds_at(s, 12, seq!['"'] + hex_text(m.checksum as nat, 32) + seq!['"'])
    &&& holds_at(s, 46, seq![','])
    &&& holds_at(s, 47, quoted_key("Name"@))
    &&& holds_at(s, 54, json_string(m.name))
    &&& holds_at(s, b, seq![','])
    &&& holds_at(s, b + 1, quoted_key("Files"@))
    &&& holds_at(s, b + 9, seq!['['])
    &&& holds_at(s, b + 10, files_json(m.files) + seq![']'])
    &&& holds_at(s, e, seq!['}'])
    &&& s.len() == e + 1
}

/// The pieces of the JSON text of a manifest stand at their places.
pub proof fn lemma_manifest_places(m: ModModel)
    ensures
        manifest_places(json_text(m), m),
{
    let s = json_text(m);
    lemma_manifest_pieces(m);
    lemma_hex_text_shape(m.checksum as nat, 32);
    let k1 = quoted_key("Checksum"@);
    let v1 = seq!['"'] + hex_text(m.checksum as nat, 32) + seq!['"'];
    let k2 = quoted_key("Name"@);
    let v2 = json_string(m.name);
    let k3 = quoted_key("Files"@);
    let v3 = files_json(m.files) + seq![']'];
    let comma = seq![','];
    let t2 = seq!['{'] + k1;
    let t3 = t2 + v1;
    let t4 = t3 + comma;
    let t5 = t4 + k2;
    let t6 = t5 + v2;
    let t7 = t6 + comma;
    let t8 = t7 + k3;
    let t9 = t8 + seq!['['];
    let t10 = t9 + v3;
    assert(manifest_pieces(m) == t10 + seq!['}']);
    assert(holds_at(s, 0, t10 + seq!['}'])) by {
        assert(s.subrange(0, s.len() as int) == s);
    }
    lemma_holds_at_parts(s, 0, t10, seq!['}']);
    lemma_holds_at_parts(s, 0, t9, v3);
    lemma_holds_at_parts(s, 0, t8, seq!['[']);
    lemma_holds_at_parts(s, 0, t7, k3);
    lemma_holds_at_parts(s, 0, t6, comma);
    lemma_holds_at_parts(s, 0, t5, v2);
    lemma_holds_at_parts(s, 0, t4, k2);
    lemma_holds_at_parts(s, 0, t3, comma);
    lemma_holds_at_parts(s, 0, t2, v1);
    lemma_holds_at_parts(s, 0, seq!['{'], k1);
}

/// Reading the last member of the JSON text of a manifest, its files.
proof fn lemma_mod_member_files(s: Seq<char>, at: int, files: Seq<FileModel>, f2: ModFields)
    requires
        holds_at(s, at, quoted_key("Files"@)),
        holds_at(s, at + 8, seq!['[']),
        holds_at(s, at + 9, files_json(files) + seq![']']),
        holds_at(s, at + 10 + files_json(files).len(), seq!['}']),
    ensures
        mod_members(s, at, f2) == Ok::<(ModFields, int), ParseError>(
            (ModFields { files: Some(files), ..f2 }, at + 11 + files_json(files).len()),
        ),
{
    lemma_manifest_pieces(ModModel { name: Seq::empty(), checksum: 0, files: Seq::empty() });
    let end = at + 10 + files_json(files).len();
    lemma_holds_at_index(s, at, quoted_key("Files"@), 0);
    lemma_holds_at_index(s, at + 8, seq!['['], 0);
    lemma_holds_at_index(s, end, seq!['}'], 0);
    lemma_no_space(s, at);
    lemma_key_at(s, at, "Files"@);
    lemma_files_from(s, at + 9, files, Seq::empty());
    assert(Seq::<FileModel>::empty() + files == files);
    assert(files_at(s, at + 8) == Ok::<(Seq<FileModel>, int), ParseError>((files, end)));
    assert(mod_field(s, at + 8, key_files(), f2) == Ok::<(ModFields, int), ParseError>(
        (ModFields { files: Some(files), ..f2 }, end),
    ));
    lemma_no_space(s, end);
}

/// Reading the member of the JSON text of a manifest that holds its
/// name.
proof fn lemma_mod_member_name(s: Seq<char>, at: int, name: Seq<char>, f1: ModFields)
    requires
        holds_at(s, at, quoted_key("Name"@)),
        holds_at(s, at + 7, json_string(name)),
        holds_at(s, at + 7 + json_string(name).len(), seq![',']),
    ensures
        mod_members(s, at, f1) == mod_members(
            s,
            at + 8 + json_string(name).len(),
            ModFields { name: Some(name), ..f1 },
        ),
{
    lemma_manifest_pieces(ModModel { name: Seq::empty(), checksum: 0, files: Seq::empty() });
    let v = json_string(name);
    lemma_holds_at_index(s, at, quoted_key("Name"@), 0);
    lemma_holds_at_index(s, at + 7, v, 0);
    lemma_holds_at_index(s, at + 7 + v.len(), seq![','], 0);
    lemma_no_space(s, at);
    lemma_key_at(s, at, "Name"@);
    lemma_string_at(s, at + 7, name);
    assert(mod_field(s, at + 7, key_name(), f1) == Ok::<(ModFields, int), ParseError>(
        (ModFields { name: Some(name), ..f1 }, at + 7 + v.len()),
    ));
    lemma_no_space(s, at + 7 + v.len());
}

/// Reading the member of the JSON text of a manifest that holds its
/// checksum.
proof fn lemma_mod_member_checksum(s: Seq<char>, at: int, d: u128, f0: ModFields)
    requires
        holds_at(s, at, quoted_key("Checksum"@)),
        holds_at(s, at + 11, seq!['"'] + hex_text(d as nat, 32) + seq!['"']),
        holds_at(s, at + 45, seq![',']),
    ensures
        mod_members(s, at, f0) == mod_members(
            s,
            at + 46,
            ModFields { checksum: Some(d), ..f0 },
        ),
{
    lemma_manifest_pieces(ModModel { name: Seq::empty(), checksum: 0, files: Seq::empty() });
    lemma_holds_at_index(s, at, quoted_key("Checksum"@), 0);
    lemma_holds_at_index(s, at + 11, seq!['"'] + hex_text(d as nat, 32) + seq!['"'], 0);
    lemma_holds_at_index(s, at + 45, seq![','], 0);
    lemma_no_space(s, at);
    lemma_key_at(s, at, "Checksum"@);
    lemma_digest_at(s, at + 11, d);
    assert(mod_field(s, at + 11, key_checksum(), f0) == Ok::<(ModFields, int), ParseError>(
        (ModFields { checksum: Some(d), ..f0 }, at + 45),
    ));
    lemma_no_space(s, at + 45);
}

/// Writing a manifest as JSON and reading the text back gives the
/// manifest.
pub proof fn lemma_json_round_trip(m: ModModel)
    ensures
        json_manifest(json_text(m)) == Ok::<ModModel, ParseError>(m),
{
    let s = json_text(m);
    lemma_manifest_places(m);
    let b: int = 54 + json_string(m.name).len() as int;
    let e: int = b + 10 + files_json(m.files).len() + 1;
    let f0 = no_mod_fields();
    let f1 = ModFields { checksum: Some(m.checksum), ..f0 };
    let f2 = ModFields { name: Some(m.name), ..f1 };
    let f3 = ModFields { files: Some(m.files), ..f2 };
    lemma_holds_at_index(s, 0, seq!['{'], 0);
    assert(after_bom(s) == 0);
    lemma_no_space(s, 0);
    lemma_mod_member_checksum(s, 1, m.checksum, f0);
    lemma_mod_member_name(s, 47, m.name, f1);
    lemma_mod_member_files(s, b + 1, m.files, f2);
    assert(mod_members(s, 1, f0) == Ok::<(ModFields, int), ParseError>((f3, e + 1)));
    assert(after_spaces(s, e + 1) == s.len());
}

/// The JSON text of a manifest is taken for the current encoding, and
/// reading it, as a text in whichever encoding, gives the manifest back:
/// reading undoes writing.
pub proof fn lemma_parse_undoes_write(m: ModModel)
    ensures
        !crate::srf_json::looks_legacy(json_text(m)),
        manifest_of(json_text(m)) == Ok::<ModModel, Error>(m),
{
    let s = json_text(m);
    lemma_manifest_places(m);
    lemma_holds_at_index(s, 0, seq!['{'], 0);
    assert(after_bom(s) == 0);
    lemma_no_space(s, 0);
    lemma_json_round_trip(m);
}

/// The manifest that a scan gives, written as JSON and read back, is the
/// manifest that the scan gave.
pub proof fn lemma_scan_write_parse(m: ModModel, name: Seq<char>, found: Seq<FileModel>)
    requires
        is_scan_of(m, name, found),
    ensures
        manifest_of(json_text(m)) == Ok::<ModModel, Error>(m),
{
    lemma_parse_undoes_write(m);
}

} // verus!
