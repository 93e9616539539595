//! A manifest written in the legacy encoding reads back as the manifest,
//! and so reads the same in both encodings.

use vstd::prelude::*;
use crate::legacy_srf::{
    entries_from, entry_at, header_at, index_from, legacy_manifest, line_end, line_stop, magic,
    LegacyParse,
};
use crate::md5_digest::{
    hex_text, hex_value, lemma_hex_text_number, lemma_hex_text_shape, lemma_pow16_32,
};
use crate::srf::{FileModel, ModModel};
use crate::srf_json::{after_bom, after_spaces, json_text, looks_legacy};
use crate::srf_laws::{
    holds_at, lemma_decimal_text, lemma_holds_at_index, lemma_holds_at_parts,
    lemma_parse_undoes_write,
};
use crate::srf_parse::{manifest_of, Error};
use crate::text::{all_digits, decimal_text};

verus! {

/// The line of a file in the legacy encoding.
pub open spec fn legacy_line(f: FileModel) -> Seq<char> {
    decimal_text(f.length as nat) + seq![':'] + hex_text(f.checksum as nat, 32) + seq![':']
        + f.path + seq!['\n']
}

/// The lines of a list of files in the legacy encoding.
pub open spec fn legacy_lines(files: Seq<FileModel>) -> Seq<char>
    decreases files.len(),
{
    if files.len() == 0 {
        Seq::empty()
    } else {
        legacy_lines(files.drop_last()) + legacy_line(files.last())
    }
}

/// The text of a manifest in the legacy encoding.
pub open spec fn legacy_text(m: ModModel) -> Seq<char> {
    magic() + hex_text(m.checksum as nat, 32) + seq![':'] + m.name + seq!['\n'] + legacy_lines(
        m.files,
    )
}

/// Whether a text can end a line of the legacy encoding: it is not empty,
/// holds no line feed and does not end in a carriage return.
pub open spec fn fits_line(t: Seq<char>) -> bool {
    t.len() > 0 && t.last() != '\r' && forall|i: int| 0 <= i < t.len() ==> #[trigger] t[i] != '\n'
}

/// Whether a manifest can be written in the legacy encoding: its name and
/// the path of each file can end a line.
pub open spec fn legacy_writable(m: ModModel) -> bool {
    fits_line(m.name) && forall|i: int| 0 <= i < m.files.len() ==> fits_line(
        #[trigger] m.files[i].path,
    )
}

/// A line ends at the first line feed.
pub proof fn lemma_line_end_run(s: Seq<char>, p: int, t: Seq<char>)
    requires
        holds_at(s, p, t + seq!['\n']),
        forall|i: int| 0 <= i < t.len() ==> #[trigger] t[i] != '\n',
    ensures
        line_end(s, p) == p + t.len(),
    decreases t.len(),
{
    let whole = t + seq!['\n'];
    lemma_holds_at_index(s, p, whole, 0);
    if t.len() > 0 {
        assert(whole[0] == t[0]);
        let rest = t.drop_first();
        assert(whole == seq![t[0]] + (rest + seq!['\n']));
        lemma_holds_at_parts(s, p, seq![t[0]], rest + seq!['\n']);
        assert forall|i: int| 0 <= i < rest.len() implies #[trigger] rest[i] != '\n' by {
            assert(rest[i] == t[i + 1]);
        }
        lemma_line_end_run(s, p + 1, rest);
    }
}

/// The first colon after a run of digits is the one that follows the run.
pub proof fn lemma_colon_after_digits(s: Seq<char>, p: int, t: Seq<char>, stop: int)
    requires
        holds_at(s, p, t + seq![':']),
        all_digits(t),
        p + t.len() < stop,
    ensures
        index_from(s, ':', p, stop) == Some(p + t.len()),
    decreases t.len(),
{
    let whole = t + seq![':'];
    lemma_holds_at_index(s, p, whole, 0);
    if t.len() > 0 {
        assert(whole[0] == t[0]);
        let rest = t.drop_first();
        assert(whole == seq![t[0]] + (rest + seq![':']));
        lemma_holds_at_parts(s, p, seq![t[0]], rest + seq![':']);
        assert forall|i: int| 0 <= i < rest.len() implies '0' <= #[trigger] rest[i] <= '9' by {
            assert(rest[i] == t[i + 1]);
        }
        lemma_colon_after_digits(s, p + 1, rest, stop);
    }
}

/// The places at which the pieces of the line of a file stand.
pub open spec fn line_places(s: Seq<char>, p: int, f: FileModel) -> bool {
    let colon = p + decimal_text(f.length as nat).len();
    &&& holds_at(s, p, decimal_text(f.length as nat))
    &&& holds_at(s, colon, seq![':'])
    &&& holds_at(s, colon + 1, hex_text(f.checksum as nat, 32))
    &&& holds_at(s, colon + 33, seq![':'])
    &&& holds_at(s, colon + 34, f.path)
    &&& holds_at(s, colon + 34 + f.path.len(), seq!['\n'])
    &&& legacy_line(f).len() == colon + 35 + f.path.len() - p
}

/// Where the line of a file stands, its pieces stand at their places.
pub proof fn lemma_line_places(s: Seq<char>, p: int, f: FileModel)
    requires
        holds_at(s, p, legacy_line(f)),
    ensures
        line_places(s, p, f),
{
    lemma_hex_text_shape(f.checksum as nat, 32);
    let t1 = decimal_text(f.length as nat);
    let t2 = t1 + seq![':'];
    let t3 = t2 + hex_text(f.checksum as nat, 32);
    let t4 = t3 + seq![':'];
    let t5 = t4 + f.path;
    lemma_holds_at_parts(s, p, t5, seq!['\n']);
    lemma_holds_at_parts(s, p, t4, f.path);
    lemma_holds_at_parts(s, p, t3, seq![':']);
    lemma_holds_at_parts(s, p, t2, hex_text(f.checksum as nat, 32));
    lemma_holds_at_parts(s, p, t1, seq![':']);
}

/// Two texts that stand one after the other stand there as one.
pub proof fn lemma_holds_at_join(s: Seq<char>, p: int, a: Seq<char>, b: Seq<char>)
    requires
        holds_at(s, p, a),
        holds_at(s, p + a.len(), b),
    ensures
        holds_at(s, p, a + b),
{
    let whole = a + b;
    assert(s.subrange(p, p + whole.len()) =~= whole) by {
        assert forall|i: int| 0 <= i < whole.len() implies s.subrange(p, p + whole.len())[i]
            == whole[i] by {
            if i < a.len() {
                lemma_holds_at_index(s, p, a, i);
            } else {
                lemma_holds_at_index(s, p + a.len(), b, i - a.len());
            }
        }
    }
}

/// The line of a file holds no line feed before its end.
pub proof fn lemma_line_has_one_feed(f: FileModel)
    requires
        fits_line(f.path),
    ensures
        forall|i: int|
            0 <= i < legacy_line(f).len() - 1 ==> #[trigger] legacy_line(f).drop_last()[i] != '\n',
        legacy_line(f) == legacy_line(f).drop_last() + seq!['\n'],
        legacy_line(f).len() > 0,
{
    lemma_hex_text_shape(f.checksum as nat, 32);
    lemma_decimal_text(f.length as nat);
    let d = decimal_text(f.length as nat);
    let h = hex_text(f.checksum as nat, 32);
    let body = d + seq![':'] + h + seq![':'] + f.path;
    assert(legacy_line(f).drop_last() == body);
    assert forall|i: int| 0 <= i < body.len() implies #[trigger] body[i] != '\n' by {
        if i < d.len() {
            assert(body[i] == d[i]);
        } else if i == d.len() {
        } else if i < d.len() + 33 {
            assert(body[i] == h[i - d.len() - 1]);
            assert(hex_value(h[i - d.len() - 1]) is Some);
        } else if i == d.len() + 33 {
        } else {
            assert(body[i] == f.path[i - d.len() - 34]);
        }
    }
}

/// Reading the line of a file gives the file.
pub proof fn lemma_entry_at(s: Seq<char>, p: int, f: FileModel)
    requires
        holds_at(s, p, legacy_line(f)),
        fits_line(f.path),
    ensures
        line_end(s, p) == p + legacy_line(f).len() - 1,
        line_stop(s, p) == line_end(s, p),
        line_stop(s, p) > p,
        entry_at(s, p, line_stop(s, p)) == Ok::<FileModel, LegacyParse>(f),
{
    lemma_line_places(s, p, f);
    lemma_line_has_one_feed(f);
    lemma_line_end_run(s, p, legacy_line(f).drop_last());
    lemma_decimal_text(f.length as nat);
    lemma_hex_text_shape(f.checksum as nat, 32);
    lemma_pow16_32();
    lemma_hex_text_number(f.checksum as nat, 32);
    let d = decimal_text(f.length as nat);
    let colon = p + d.len();
    let end = colon + 34 + f.path.len();
    assert(line_end(s, p) == end);
    lemma_holds_at_index(s, colon + 34, f.path, f.path.len() - 1);
    assert(s[end - 1] == f.path.last());
    lemma_holds_at_join(s, p, d, seq![':']);
    lemma_colon_after_digits(s, p, d, end);
    lemma_holds_at_index(s, colon + 33, seq![':'], 0);
    assert(s.subrange(p, colon) == d);
    assert(s.subrange(colon + 1, colon + 33) == hex_text(f.checksum as nat, 32));
    assert(s.subrange(colon + 34, end) == f.path);
}

/// The lines of two lists of files in a row are the lines of the lists in
/// a row.
pub proof fn lemma_legacy_lines_concat(a: Seq<FileModel>, b: Seq<FileModel>)
    ensures
        legacy_lines(a + b) == legacy_lines(a) + legacy_lines(b),
    decreases b.len(),
{
    if b.len() == 0 {
        assert(a + b == a);
        assert(legacy_lines(a) + legacy_lines(b) == legacy_lines(a));
    } else {
        assert((a + b).drop_last() == a + b.drop_last());
        assert((a + b).last() == b.last());
        lemma_legacy_lines_concat(a, b.drop_last());
        assert(legacy_lines(a) + legacy_lines(b.drop_last()) + legacy_line(b.last())
            == legacy_lines(a) + (legacy_lines(b.drop_last()) + legacy_line(b.last())));
    }
}

/// Reading the lines of a list of files up to the end of the text gives
/// the files.
pub proof fn lemma_entries_from(s: Seq<char>, p: int, files: Seq<FileModel>, found: Seq<FileModel>)
    requires
        holds_at(s, p, legacy_lines(files)),
        p + legacy_lines(files).len() == s.len(),
        forall|i: int| 0 <= i < files.len() ==> fits_line(#[trigger] files[i].path),
    ensures
        entries_from(s, p, found) == Ok::<Seq<FileModel>, LegacyParse>(found + files),
    decreases files.len(),
{
    if files.len() == 0 {
        assert(found + files == found);
    } else {
        let first = seq![files[0]];
        let rest = files.drop_first();
        assert(files == first + rest);
        lemma_legacy_lines_concat(first, rest);
        assert(first.drop_last() == Seq::<FileModel>::empty());
        assert(legacy_lines(first.drop_last()) == Seq::<char>::empty());
        assert(legacy_lines(first) == legacy_line(files[0])) by {
            assert(first.last() == files[0]);
            assert(Seq::<char>::empty() + legacy_line(files[0]) == legacy_line(files[0]));
        }
        lemma_holds_at_parts(s, p, legacy_line(files[0]), legacy_lines(rest));
        assert(fits_line(files[0].path));
        lemma_entry_at(s, p, files[0]);
        let next = p + legacy_line(files[0]).len();
        assert forall|i: int| 0 <= i < rest.len() implies fits_line(#[trigger] rest[i].path) by {
            assert(rest[i] == files[i + 1]);
        }
        lemma_entries_from(s, next, rest, found.push(files[0]));
        assert(found.push(files[0]) + rest == found + files);
    }
}

/// The header line of a manifest in the legacy encoding, without its
/// line feed.
pub open spec fn legacy_header(m: ModModel) -> Seq<char> {
    magic() + hex_text(m.checksum as nat, 32) + seq![':'] + m.name
}

/// The places at which the pieces of the legacy text of a manifest stand.
pub open spec fn legacy_places(s: Seq<char>, m: ModModel) -> bool {
    let end: int = 41 + m.name.len() as int;
    &&& holds_at(s, 0, legacy_header(m) + seq!['\n'])
    &&& holds_at(s, 0, magic())
    &&& holds_at(s, 8, hex_text(m.checksum as nat, 32))
    &&& holds_at(s, 40, seq![':'])
    &&& holds_at(s, 41, m.name)
    &&& holds_at(s, end + 1, legacy_lines(m.files))
    &&& s.len() == end + 1 + legacy_lines(m.files).len()
}

/// The pieces of the legacy text of a manifest stand at their places.
pub proof fn lemma_legacy_places(m: ModModel)
    ensures
        legacy_places(legacy_text(m), m),
{
    let s = legacy_text(m);
    let h = hex_text(m.checksum as nat, 32);
    lemma_hex_text_shape(m.checksum as nat, 32);
    let t1 = magic();
    let t2 = t1 + h;
    let t3 = t2 + seq![':'];
    let t4 = t3 + m.name;
    let t5 = t4 + seq!['\n'];
    assert(holds_at(s, 0, t5 + legacy_lines(m.files))) by {
        assert(s.subrange(0, s.len() as int) == s);
    }
    lemma_holds_at_parts(s, 0, t5, legacy_lines(m.files));
    lemma_holds_at_parts(s, 0, t4, seq!['\n']);
    lemma_holds_at_parts(s, 0, t3, m.name);
    lemma_holds_at_parts(s, 0, t2, seq![':']);
    lemma_holds_at_parts(s, 0, t1, h);
}

/// The header line of a manifest holds no line feed.
pub proof fn lemma_header_has_no_feed(m: ModModel)
    requires
        fits_line(m.name),
    ensures
        forall|i: int| 0 <= i < legacy_header(m).len() ==> #[trigger] legacy_header(m)[i] != '\n',
        legacy_header(m).len() == 41 + m.name.len(),
{
    let h = hex_text(m.checksum as nat, 32);
    lemma_hex_text_shape(m.checksum as nat, 32);
    let t = legacy_header(m);
    assert forall|i: int| 0 <= i < t.len() implies #[trigger] t[i] != '\n' by {
        if i < 8 {
            assert(t[i] == magic()[i]);
        } else if i < 40 {
            assert(t[i] == h[i - 8]);
            assert(hex_value(h[i - 8]) is Some);
        } else if i == 40 {
        } else {
            assert(t[i] == m.name[i - 41]);
        }
    }
}

/// Reading the header line of the legacy text of a manifest gives its
/// digest and its name.
pub proof fn lemma_header_at(s: Seq<char>, m: ModModel)
    requires
        legacy_places(s, m),
        fits_line(m.name),
    ensures
        line_end(s, 0) == 41 + m.name.len(),
        line_stop(s, 0) == 41 + m.name.len(),
        header_at(s, 0, 41 + m.name.len() as int) == Ok::<(u128, Seq<char>), LegacyParse>(
            (m.checksum, m.name),
        ),
{
    let h = hex_text(m.checksum as nat, 32);
    let end: int = 41 + m.name.len() as int;
    lemma_hex_text_shape(m.checksum as nat, 32);
    lemma_pow16_32();
    lemma_hex_text_number(m.checksum as nat, 32);
    lemma_header_has_no_feed(m);
    lemma_line_end_run(s, 0, legacy_header(m));
    lemma_holds_at_index(s, 41, m.name, m.name.len() - 1);
    assert(s[end - 1] == m.name.last());
    lemma_holds_at_index(s, 40, seq![':'], 0);
    assert(s.subrange(0, 8) == magic());
    assert(s.subrange(8, 40) == h);
    assert(s.subrange(41, end) == m.name);
}

/// A text that begins with the letter of the magic is taken for the
/// legacy encoding, and what its header and its lines say is what the text
/// says.
proof fn lemma_legacy_assemble(s: Seq<char>, m: ModModel, end: int)
    requires
        s.len() > 0,
        s[0] == 'A',
        line_end(s, 0) == end,
        line_stop(s, 0) == end,
        header_at(s, 0, end) == Ok::<(u128, Seq<char>), LegacyParse>((m.checksum, m.name)),
        entries_from(s, end + 1, Seq::<FileModel>::empty()) == Ok::<Seq<FileModel>, LegacyParse>(
            m.files,
        ),
    ensures
        looks_legacy(s),
        legacy_manifest(s) == Ok::<ModModel, LegacyParse>(m),
        manifest_of(s) == Ok::<ModModel, Error>(m),
{
    assert(after_bom(s) == 0);
    assert(after_spaces(s, 0) == 0);
}

/// What the header line of the legacy text of a manifest says.
proof fn lemma_header_of(m: ModModel)
    requires
        fits_line(m.name),
    ensures
        legacy_text(m).len() > 0,
        legacy_text(m)[0] == 'A',
        line_end(legacy_text(m), 0) == 41 + m.name.len(),
        line_stop(legacy_text(m), 0) == 41 + m.name.len(),
        header_at(legacy_text(m), 0, 41 + m.name.len() as int) == Ok::<
            (u128, Seq<char>),
            LegacyParse,
        >((m.checksum, m.name)),
{
    let s = legacy_text(m);
    lemma_legacy_places(m);
    lemma_holds_at_index(s, 0, magic(), 0);
    lemma_header_at(s, m);
}

/// What the lines after the header of the legacy text of a manifest say.
proof fn lemma_entries_of(m: ModModel)
    requires
        forall|i: int| 0 <= i < m.files.len() ==> fits_line(#[trigger] m.files[i].path),
    ensures
        entries_from(legacy_text(m), 42 + m.name.len() as int, Seq::<FileModel>::empty()) == Ok::<
            Seq<FileModel>,
            LegacyParse,
        >(m.files),
{
    let s = legacy_text(m);
    lemma_legacy_places(m);
    lemma_entries_from(s, 42 + m.name.len() as int, m.files, Seq::empty());
    assert(Seq::<FileModel>::empty() + m.files == m.files);
}

/// Writing a manifest in the legacy encoding and reading the text back
/// gives the manifest.
pub proof fn lemma_legacy_round_trip(m: ModModel)
    requires
        legacy_writable(m),
    ensures
        looks_legacy(legacy_text(m)),
        legacy_manifest(legacy_text(m)) == Ok::<ModModel, LegacyParse>(m),
        manifest_of(legacy_text(m)) == Ok::<ModModel, Error>(m),
{
    lemma_header_of(m);
    lemma_entries_of(m);
    lemma_legacy_assemble(legacy_text(m), m, 41 + m.name.len() as int);
}

/// A manifest that can be written in the legacy encoding reads the same
/// from its legacy text as from its JSON text.
pub proof fn lemma_encodings_agree(m: ModModel)
    requires
        legacy_writable(m),
    ensures
        manifest_of(legacy_text(m)) == manifest_of(json_text(m)),
{
    lemma_legacy_round_trip(m);
    lemma_parse_undoes_write(m);
}

} // verus!
