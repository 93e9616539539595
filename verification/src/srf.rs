//! The per-mod manifest: the files of a mod with their digests, and the
//! aggregate digest that stands for the whole tree.

use vstd::prelude::*;
use crate::md5_digest::{digest_of, hasher_input, hex_text, Md5Digest, Md5Hasher};
use crate::text::{
    chars_of, decimal_text, lemma_text_lt_total, lemma_text_lt_transitive, lowercase,
    lowercase_of, order_texts, push_decimal, slashed, text_lt, to_slashed, utf8, TextOrder,
};

verus! {

/// One file of a mod.
#[derive(Clone, Debug)]
pub struct File {
    /// Path below the mod directory, with forward slashes, case kept.
    pub path: String,
    /// Size of the file in bytes.
    pub length: u64,
    /// Digest of the file's bytes.
    pub checksum: Md5Digest,
}

/// What a `File` says.
pub struct FileModel {
    pub path: Seq<char>,
    pub length: u64,
    pub checksum: u128,
}

impl View for File {
    type V = FileModel;

    open spec fn view(&self) -> FileModel {
        FileModel { path: self.path@, length: self.length, checksum: self.checksum@ }
    }
}

/// The manifest of a mod.
#[derive(Clone, Debug)]
pub struct Mod {
    /// Name of the mod directory.
    pub name: String,
    /// Aggregate digest of the manifest.
    pub checksum: Md5Digest,
    /// The files of the mod.
    pub files: Vec<File>,
}

/// What a `Mod` says.
pub struct ModModel {
    pub name: Seq<char>,
    pub checksum: u128,
    pub files: Seq<FileModel>,
}

/// What a list of files says, file by file.
pub open spec fn files_view(files: Seq<File>) -> Seq<FileModel> {
    Seq::new(files.len(), |i: int| files[i]@)
}

impl View for Mod {
    type V = ModModel;

    open spec fn view(&self) -> ModModel {
        ModModel { name: self.name@, checksum: self.checksum@, files: files_view(self.files@) }
    }
}

/// The key under which a path is compared: forward slashes, lower case.
pub open spec fn path_key(path: Seq<char>) -> Seq<char> {
    lowercase_of(slashed(path))
}

/// The name of the manifest file inside a mod directory.
pub open spec fn manifest_file_name() -> Seq<char> {
    seq!['m', 'o', 'd', '.', 's', 'r', 'f']
}

/// Whether a path names the manifest file of the mod itself.
pub open spec fn is_manifest_path(path: Seq<char>) -> bool {
    path_key(path) == manifest_file_name()
}

/// The bytes that one file adds to the aggregate digest: its key, the text
/// of its digest and its length in decimal.
pub open spec fn entry_bytes(f: FileModel) -> Seq<u8> {
    utf8(path_key(f.path)) + utf8(hex_text(f.checksum as nat, 32)) + utf8(
        decimal_text(f.length as nat),
    )
}

/// The bytes that a list of files adds to the aggregate digest, in the
/// order of the list.
pub open spec fn entries_bytes(files: Seq<FileModel>) -> Seq<u8>
    decreases files.len(),
{
    if files.len() == 0 {
        Seq::empty()
    } else {
        entries_bytes(files.drop_last()) + entry_bytes(files.last())
    }
}

/// The aggregate digest of a manifest: the hash starts from the name and
/// folds in the files in their order.
pub open spec fn aggregate(name: Seq<char>, files: Seq<FileModel>) -> u128 {
    digest_of(utf8(name) + entries_bytes(files))
}

/// Whether the files stand in strictly rising order of their keys.
pub open spec fn sorted_by_key(files: Seq<FileModel>) -> bool {
    forall|i: int, j: int|
        0 <= i < j < files.len() ==> text_lt(
            #[trigger] path_key(files[i].path),
            #[trigger] path_key(files[j].path),
        )
}

/// Whether two of the files have the same key.
pub open spec fn has_conflict(files: Seq<FileModel>) -> bool {
    exists|i: int, j: int|
        0 <= i < j < files.len() && #[trigger] path_key(files[i].path) == #[trigger] path_key(
            files[j].path,
        )
}

/// A scanned file as the manifest records it: forward slashes in the path.
pub open spec fn recorded(f: FileModel) -> FileModel {
    FileModel { path: slashed(f.path), length: f.length, checksum: f.checksum }
}

/// The files that a scan records: all but the manifest file itself, each
/// with forward slashes in its path.
pub open spec fn recorded_files(found: Seq<FileModel>) -> Seq<FileModel>
    decreases found.len(),
{
    if found.len() == 0 {
        Seq::empty()
    } else if is_manifest_path(found.last().path) {
        recorded_files(found.drop_last())
    } else {
        recorded_files(found.drop_last()).push(recorded(found.last()))
    }
}

/// Why a scan could not give a manifest.
#[derive(Clone, Copy, Debug, PartialEq, Eq, Structural)]
pub enum ScanError {
    /// What was to be scanned is no directory.
    NotADirectory,
    /// Two files have paths that differ only in case or in the kind of
    /// slash.
    CaseConflict,
}

/// The view of a list with one more file is the view of the list with the
/// view of that file.
pub proof fn lemma_files_view_push(files: Seq<File>, f: File)
    ensures
        files_view(files.push(f)) == files_view(files).push(f@),
{
    assert(files_view(files.push(f)) =~= files_view(files).push(f@));
}

/// Replacing backslashes twice is replacing them once.
pub proof fn lemma_slashed_idempotent(path: Seq<char>)
    ensures
        slashed(slashed(path)) == slashed(path),
{
    assert(slashed(slashed(path)) =~= slashed(path));
}

/// The key under which `path` is compared.
pub fn key_text(path: &str) -> (key: String)
    ensures
        key@ == path_key(path@),
{
    let s = to_slashed(path);
    lowercase(s.as_str())
}

/// The key under which `path` is compared, as characters.
pub fn key_of(path: &str) -> (key: Vec<char>)
    ensures
        key@ == path_key(path@),
{
    let k = key_text(path);
    chars_of(k.as_str())
}

impl File {
    /// A file entry with the given path, length and digest.
    pub fn new(path: String, length: u64, checksum: Md5Digest) -> (f: File)
        ensures
            f@ == (FileModel { path: path@, length, checksum: checksum@ }),
    {
        File { path, length, checksum }
    }

    /// A copy of this entry.
    pub fn duplicate(&self) -> (f: File)
        ensures
            f == *self,
    {
        File { path: self.path.clone(), length: self.length, checksum: self.checksum }
    }
}

/// The aggregate digest of the files under the name.
pub fn compute_checksum(name: &str, files: &Vec<File>) -> (d: Md5Digest)
    ensures
        d@ == aggregate(name@, files_view(files@)),
{
    let mut h = Md5Hasher::new();
    h.update_text(name);
    assert(hasher_input(h) == utf8(name@) + entries_bytes(files_view(files@).take(0))) by {
        assert(Seq::<u8>::empty() + utf8(name@) == utf8(name@));
        assert(utf8(name@) + Seq::<u8>::empty() == utf8(name@));
    }
    let mut i: usize = 0;
    while i < files.len()
        invariant
            i <= files.len(),
            hasher_input(h) == utf8(name@) + entries_bytes(files_view(files@).take(i as int)),
        decreases files.len() - i,
    {
        let ghost before = hasher_input(h);
        let f = &files[i];
        let key = key_text(f.path.as_str());
        h.update_text(key.as_str());
        let hex = f.checksum.to_hex();
        h.update_text(hex.as_str());
        let mut dec = String::new();
        push_decimal(&mut dec, f.length);
        h.update_text(dec.as_str());
        proof {
            let all = files_view(files@);
            let next = all.take(i + 1);
            assert(next.drop_last() == all.take(i as int));
            assert(next.last() == f@);
            assert(dec@ == decimal_text(f.length as nat)) by {
                assert(Seq::<char>::empty() + decimal_text(f.length as nat) == decimal_text(
                    f.length as nat,
                ));
            }
            assert(hasher_input(h) == before + utf8(key@) + utf8(hex@) + utf8(dec@));
            assert(before + utf8(key@) + utf8(hex@) + utf8(dec@) == before + entry_bytes(f@));
            assert(utf8(name@) + entries_bytes(all.take(i as int)) + entry_bytes(f@) == utf8(name@)
                + entries_bytes(next));
        }
        i += 1;
    }
    assert(files_view(files@).take(files.len() as int) == files_view(files@));
    h.finish()
}

/// A file together with the key it is sorted under.
struct Keyed {
    key: Vec<char>,
    file: File,
}

/// What a list of keyed files says, file by file.
spec fn keyed_files(items: Seq<Keyed>) -> Seq<FileModel> {
    Seq::new(items.len(), |i: int| items[i].file@)
}

/// Each key is the key of its file's path.
spec fn keys_agree(items: Seq<Keyed>) -> bool {
    forall|i: int| 0 <= i < items.len() ==> (#[trigger] items[i]).key@ == path_key(items[i].file.path@)
}

/// Puts `item` at its place in the sorted list, or reports that its key is
/// taken.
fn place(sorted: &mut Vec<Keyed>, item: Keyed) -> (placed: bool)
    requires
        keys_agree(old(sorted)@),
        sorted_by_key(keyed_files(old(sorted)@)),
        item.key@ == path_key(item.file.path@),
    ensures
        keys_agree(final(sorted)@),
        sorted_by_key(keyed_files(final(sorted)@)),
        placed == !(exists|k: int|
            0 <= k < old(sorted)@.len() && #[trigger] path_key(keyed_files(old(sorted)@)[k].path)
                == item.key@),
        placed ==> keyed_files(final(sorted)@).to_multiset() == keyed_files(
            old(sorted)@,
        ).to_multiset().insert(item.file@),
        !placed ==> final(sorted)@ == old(sorted)@,
{
    let ghost before = keyed_files(sorted@);
    let mut i: usize = 0;
    while i < sorted.len()
        invariant
            i <= sorted.len(),
            sorted@ == old(sorted)@,
            keys_agree(sorted@),
            before == keyed_files(sorted@),
            sorted_by_key(before),
            item.key@ == path_key(item.file.path@),
            forall|k: int| 0 <= k < i ==> text_lt(#[trigger] path_key(before[k].path), item.key@),
        decreases sorted.len() - i,
    {
        let ghost here = path_key(before[i as int].path);
        assert(sorted@[i as int].key@ == here);
        match order_texts(&sorted[i].key, &item.key) {
            TextOrder::Before => {
                i += 1;
            },
            TextOrder::Same => {
                return false;
            },
            TextOrder::After => {
                proof {
                    lemma_text_lt_total(here, item.key@);
                    assert(text_lt(item.key@, here));
                    assert forall|k: int| 0 <= k < before.len() implies #[trigger] path_key(
                        before[k].path,
                    ) != item.key@ by {
                        lemma_text_lt_total(path_key(before[k].path), item.key@);
                        if k > i {
                            assert(text_lt(here, path_key(before[k].path)));
                            lemma_text_lt_transitive(item.key@, here, path_key(before[k].path));
                        }
                    }
                }
                let ghost added = item.file@;
                let ghost key = item.key@;
                sorted.insert(i, item);
                proof {
                    let after = keyed_files(sorted@);
                    assert(after == before.insert(i as int, added));
                    vstd::seq_lib::to_multiset_insert(before, i as int, added);
                    assert forall|a: int, b: int| 0 <= a < b < after.len() implies text_lt(
                        #[trigger] path_key(after[a].path),
                        #[trigger] path_key(after[b].path),
                    ) by {
                        if b < i {
                        } else if b == i {
                        } else if a < i {
                            assert(after[b] == before[b - 1]);
                        } else if a == i {
                            assert(after[b] == before[b - 1]);
                            if b - 1 > i {
                                assert(text_lt(here, path_key(before[b - 1].path)));
                                lemma_text_lt_transitive(key, here, path_key(before[b - 1].path));
                            }
                        } else {
                            assert(after[a] == before[a - 1]);
                            assert(after[b] == before[b - 1]);
                        }
                    }
                }
                return true;
            },
        }
    }
    proof {
        assert forall|k: int| 0 <= k < before.len() implies #[trigger] path_key(before[k].path)
            != item.key@ by {
            lemma_text_lt_total(path_key(before[k].path), item.key@);
        }
    }
    let ghost added = item.file@;
    sorted.push(item);
    proof {
        let after = keyed_files(sorted@);
        assert(after == before.push(added));
        vstd::seq_lib::to_multiset_build(before, added);
    }
    true
}

/// Whether `m` is what a scan records of the files found under a mod
/// directory of the given name: the recorded files in rising order of
/// their keys, under the aggregate digest of that list.
pub open spec fn is_scan_of(m: ModModel, name: Seq<char>, found: Seq<FileModel>) -> bool {
    &&& m.name == name
    &&& m.files.to_multiset() == recorded_files(found).to_multiset()
    &&& sorted_by_key(m.files)
    &&& m.checksum == aggregate(name, m.files)
}

/// A conflict among the first files found is a conflict among all.
proof fn lemma_conflict_stays(found: Seq<FileModel>, n: int)
    requires
        0 <= n <= found.len(),
        has_conflict(recorded_files(found.take(n))),
    ensures
        has_conflict(recorded_files(found)),
    decreases found.len() - n,
{
    if n == found.len() {
        assert(found.take(n) == found);
    } else {
        let less = recorded_files(found.take(n));
        let more = recorded_files(found.take(n + 1));
        assert(found.take(n + 1).drop_last() == found.take(n));
        let (i, j) = choose|i: int, j: int|
            0 <= i < j < less.len() && #[trigger] path_key(less[i].path) == #[trigger] path_key(
                less[j].path,
            );
        assert(more[i] == less[i]);
        assert(more[j] == less[j]);
        assert(path_key(more[i].path) == path_key(more[j].path));
        lemma_conflict_stays(found, n + 1);
    }
}

/// Builds the manifest of a mod from the files found under its directory:
/// the path, length and digest of each regular file, in any order. The
/// manifest file itself is left out, backslashes become forward slashes,
/// and the files are put in rising order of their lowercased paths. Two
/// files whose paths fold to one key are refused.
pub fn scan_mod(name: &str, found: &Vec<File>) -> (r: Result<Mod, ScanError>)
    ensures
        r is Err <==> has_conflict(recorded_files(files_view(found@))),
        r matches Err(e) ==> e == ScanError::CaseConflict,
        r matches Ok(m) ==> is_scan_of(m@, name@, files_view(found@)),
{
    let ghost all = files_view(found@);
    let manifest_name: Vec<char> = vec!['m', 'o', 'd', '.', 's', 'r', 'f'];
    assert(manifest_name@ == manifest_file_name());
    let mut sorted: Vec<Keyed> = Vec::new();
    let mut i: usize = 0;
    assert(keyed_files(sorted@) == recorded_files(all.take(0)));
    while i < found.len()
        invariant
            i <= found.len(),
            all == files_view(found@),
            manifest_name@ == manifest_file_name(),
            keys_agree(sorted@),
            sorted_by_key(keyed_files(sorted@)),
            keyed_files(sorted@).to_multiset() == recorded_files(all.take(i as int)).to_multiset(),
            !has_conflict(recorded_files(all.take(i as int))),
        decreases found.len() - i,
    {
        let ghost less = recorded_files(all.take(i as int));
        let ghost more = recorded_files(all.take(i + 1));
        let ghost held = keyed_files(sorted@);
        let f = &found[i];
        proof {
            assert(all.take(i + 1).drop_last() == all.take(i as int));
            assert(all.take(i + 1).last() == f@);
        }
        let path = to_slashed(f.path.as_str());
        let key = key_of(path.as_str());
        proof {
            lemma_slashed_idempotent(f.path@);
        }
        if order_texts(&key, &manifest_name) != TextOrder::Same {
            let item = Keyed { key, file: File { path, length: f.length, checksum: f.checksum } };
            let ghost added = item.file@;
            assert(added == recorded(f@));
            assert(more == less.push(added));
            let placed = place(&mut sorted, item);
            if !placed {
                proof {
                    let k = choose|k: int|
                        0 <= k < held.len() && #[trigger] path_key(held[k].path) == path_key(
                            added.path,
                        );
                    vstd::seq_lib::to_multiset_contains(held, held[k]);
                    vstd::seq_lib::to_multiset_contains(less, held[k]);
                    assert(held.contains(held[k]));
                    let j = choose|j: int| 0 <= j < less.len() && less[j] == held[k];
                    assert(more[j] == less[j]);
                    assert(more[less.len() as int] == added);
                    assert(path_key(more[j].path) == path_key(more[less.len() as int].path));
                    lemma_conflict_stays(all, i + 1);
                }
                return Err(ScanError::CaseConflict);
            }
            proof {
                vstd::seq_lib::to_multiset_build(less, added);
                if has_conflict(more) {
                    let (a, b) = choose|a: int, b: int|
                        0 <= a < b < more.len() && #[trigger] path_key(more[a].path)
                            == #[trigger] path_key(more[b].path);
                    if b < less.len() {
                        assert(more[a] == less[a]);
                        assert(more[b] == less[b]);
                        assert(path_key(less[a].path) == path_key(less[b].path));
                    } else {
                        assert(more[a] == less[a]);
                        vstd::seq_lib::to_multiset_contains(held, less[a]);
                        vstd::seq_lib::to_multiset_contains(less, less[a]);
                        assert(less.contains(less[a]));
                        let k = choose|k: int| 0 <= k < held.len() && held[k] == less[a];
                        assert(path_key(held[k].path) == path_key(added.path));
                    }
                }
            }
        }
        i += 1;
    }
    assert(all.take(found.len() as int) == all);
    let mut files: Vec<File> = Vec::new();
    let mut k: usize = 0;
    while k < sorted.len()
        invariant
            k <= sorted.len(),
            files_view(files@) == keyed_files(sorted@).take(k as int),
        decreases sorted.len() - k,
    {
        proof {
            lemma_files_view_push(files@, sorted@[k as int].file);
        }
        files.push(sorted[k].file.duplicate());
        assert(keyed_files(sorted@).take(k + 1) == keyed_files(sorted@).take(k as int).push(
            sorted@[k as int].file@,
        ));
        k += 1;
    }
    assert(keyed_files(sorted@).take(sorted.len() as int) == keyed_files(sorted@));
    let checksum = compute_checksum(name, &files);
    Ok(Mod { name: name.to_owned(), checksum, files })
}

/// Builds the manifest of a mod from what was found at its path: whether
/// a directory is there, and the files below it. What is no directory
/// cannot be scanned.
pub fn scan_dir(name: &str, is_dir: bool, found: &Vec<File>) -> (r: Result<Mod, ScanError>)
    ensures
        r is Err <==> !is_dir || has_conflict(recorded_files(files_view(found@))),
        r matches Err(e) ==> e == (if !is_dir {
            ScanError::NotADirectory
        } else {
            ScanError::CaseConflict
        }),
        r matches Ok(m) ==> is_scan_of(m@, name@, files_view(found@)),
{
    if !is_dir {
        return Err(ScanError::NotADirectory);
    }
    scan_mod(name, found)
}

impl Mod {
    /// A stand-in for the local manifest of a mod whose directory is
    /// absent: the remote's name, the all-zero digest and no files.
    pub fn generate_invalid(remote: &Mod) -> (m: Mod)
        ensures
            m@.name == remote@.name,
            m@.checksum == 0,
            m@.files == Seq::<FileModel>::empty(),
    {
        let m = Mod { name: remote.name.clone(), checksum: Md5Digest::invalid(), files: Vec::new() };
        assert(files_view(m.files@) == Seq::<FileModel>::empty());
        m
    }

    /// A copy of this manifest.
    pub fn duplicate(&self) -> (m: Mod)
        ensures
            m@ == self@,
    {
        let mut files: Vec<File> = Vec::new();
        let mut i: usize = 0;
        while i < self.files.len()
            invariant
                i <= self.files.len(),
                files_view(files@) == files_view(self.files@).take(i as int),
            decreases self.files.len() - i,
        {
            proof {
                lemma_files_view_push(files@, self.files@[i as int]);
            }
            files.push(self.files[i].duplicate());
            assert(files_view(self.files@).take(i + 1) == files_view(self.files@).take(
                i as int,
            ).push(self.files@[i as int]@));
            i += 1;
        }
        assert(files_view(self.files@).take(self.files.len() as int) == files_view(self.files@));
        Mod { name: self.name.clone(), checksum: self.checksum, files }
    }

    /// Whether the digest of this manifest is the aggregate of its name
    /// and files.
    pub open spec fn consistent(&self) -> bool {
        self@.checksum == aggregate(self@.name, self@.files)
    }

    /// Whether the digest of this manifest is the aggregate of its name
    /// and files.
    pub fn is_consistent(&self) -> (b: bool)
        ensures
            b == self.consistent(),
    {
        let d = compute_checksum(self.name.as_str(), &self.files);
        d.same_as(&self.checksum)
    }
}

/// No recorded file is the manifest file, and each has forward slashes in
/// its path.
pub proof fn lemma_recorded_files(found: Seq<FileModel>, i: int)
    requires
        0 <= i < recorded_files(found).len(),
    ensures
        !is_manifest_path(recorded_files(found)[i].path),
        slashed(recorded_files(found)[i].path) == recorded_files(found)[i].path,
    decreases found.len(),
{
    let before = recorded_files(found.drop_last());
    if is_manifest_path(found.last().path) || i < before.len() {
        lemma_recorded_files(found.drop_last(), i);
    } else {
        lemma_slashed_idempotent(found.last().path);
    }
}

/// The manifest that a scan gives never lists the manifest file itself.
pub proof fn lemma_scan_leaves_out_manifest(
    m: ModModel,
    name: Seq<char>,
    found: Seq<FileModel>,
    i: int,
)
    requires
        is_scan_of(m, name, found),
        0 <= i < m.files.len(),
    ensures
        !is_manifest_path(m.files[i].path),
{
    let kept = recorded_files(found);
    vstd::seq_lib::to_multiset_contains(m.files, m.files[i]);
    vstd::seq_lib::to_multiset_contains(kept, m.files[i]);
    assert(m.files.contains(m.files[i]));
    let k = choose|k: int| 0 <= k < kept.len() && kept[k] == m.files[i];
    lemma_recorded_files(found, k);
}

/// The manifest of a mod without files has the digest of the mod's name
/// alone.
pub proof fn lemma_empty_mod_digest(m: ModModel, name: Seq<char>, found: Seq<FileModel>)
    requires
        is_scan_of(m, name, found),
        recorded_files(found).len() == 0,
    ensures
        m.files.len() == 0,
        m.checksum == digest_of(utf8(name)),
{
    vstd::seq_lib::to_multiset_len(m.files);
    vstd::seq_lib::to_multiset_len(recorded_files(found));
    assert(utf8(name) + entries_bytes(m.files) == utf8(name));
}

/// What of a file enters the aggregate digest: key, length and digest.
pub open spec fn digest_item(f: FileModel) -> (Seq<char>, u64, u128) {
    (path_key(f.path), f.length, f.checksum)
}

/// What of each file of a list enters the aggregate digest.
pub open spec fn digest_items(files: Seq<FileModel>) -> Seq<(Seq<char>, u64, u128)> {
    Seq::new(files.len(), |i: int| digest_item(files[i]))
}

/// Two lists in rising order of keys that hold the same items, each as
/// often as the other, are the same list of items.
pub proof fn lemma_sorted_items_unique(a: Seq<FileModel>, b: Seq<FileModel>)
    requires
        sorted_by_key(a),
        sorted_by_key(b),
        digest_items(a).to_multiset() == digest_items(b).to_multiset(),
    ensures
        digest_items(a) == digest_items(b),
    decreases a.len(),
{
    let x = digest_items(a);
    let y = digest_items(b);
    vstd::seq_lib::to_multiset_len(x);
    vstd::seq_lib::to_multiset_len(y);
    if a.len() == 0 {
        assert(x =~= y);
    } else {
        let n = a.len() - 1;
        vstd::seq_lib::to_multiset_contains(x, y[n]);
        vstd::seq_lib::to_multiset_contains(y, y[n]);
        vstd::seq_lib::to_multiset_contains(x, x[n]);
        vstd::seq_lib::to_multiset_contains(y, x[n]);
        assert(y.contains(y[n]));
        assert(x.contains(x[n]));
        let i = choose|i: int| 0 <= i < x.len() && x[i] == y[n];
        let j = choose|j: int| 0 <= j < y.len() && y[j] == x[n];
        assert(path_key(a[i].path) == path_key(b[n].path));
        assert(path_key(b[j].path) == path_key(a[n].path));
        if i < n && j < n {
            assert(text_lt(path_key(a[i].path), path_key(a[n].path)));
            assert(text_lt(path_key(b[j].path), path_key(b[n].path)));
            lemma_text_lt_total(path_key(a[n].path), path_key(b[n].path));
        }
        assert(x[n] == y[n]);
        vstd::seq_lib::to_multiset_remove(x, n);
        vstd::seq_lib::to_multiset_remove(y, n);
        assert(x.remove(n) == digest_items(a.drop_last()));
        assert(y.remove(n) == digest_items(b.drop_last()));
        assert forall|p: int, q: int| 0 <= p < q < a.drop_last().len() implies text_lt(
            #[trigger] path_key(a.drop_last()[p].path),
            #[trigger] path_key(a.drop_last()[q].path),
        ) by {
            assert(a.drop_last()[p] == a[p] && a.drop_last()[q] == a[q]);
        }
        assert forall|p: int, q: int| 0 <= p < q < b.drop_last().len() implies text_lt(
            #[trigger] path_key(b.drop_last()[p].path),
            #[trigger] path_key(b.drop_last()[q].path),
        ) by {
            assert(b.drop_last()[p] == b[p] && b.drop_last()[q] == b[q]);
        }
        lemma_sorted_items_unique(a.drop_last(), b.drop_last());
        assert(x =~= digest_items(a.drop_last()).push(x[n]));
        assert(y =~= digest_items(b.drop_last()).push(y[n]));
    }
}

/// The bytes hashed depend on the files only through their items.
pub proof fn lemma_entries_bytes_by_items(a: Seq<FileModel>, b: Seq<FileModel>)
    requires
        digest_items(a) == digest_items(b),
    ensures
        entries_bytes(a) == entries_bytes(b),
    decreases a.len(),
{
    assert(a.len() == digest_items(a).len());
    assert(b.len() == digest_items(b).len());
    if a.len() > 0 {
        let n = a.len() - 1;
        assert(digest_items(a)[n] == digest_items(b)[n]);
        assert(digest_items(a.drop_last()) =~= digest_items(a).drop_last());
        assert(digest_items(b.drop_last()) =~= digest_items(b).drop_last());
        lemma_entries_bytes_by_items(a.drop_last(), b.drop_last());
    }
}

/// Two trees under one name whose files have the same lowercased paths,
/// lengths and digests, each as often as in the other, scan to the same
/// aggregate digest, in whatever order the files were found.
pub proof fn lemma_scan_digest_deterministic(
    name: Seq<char>,
    found_a: Seq<FileModel>,
    found_b: Seq<FileModel>,
    a: ModModel,
    b: ModModel,
)
    requires
        is_scan_of(a, name, found_a),
        is_scan_of(b, name, found_b),
        digest_items(recorded_files(found_a)).to_multiset() == digest_items(
            recorded_files(found_b),
        ).to_multiset(),
    ensures
        a.checksum == b.checksum,
{
    lemma_items_multiset(a.files, recorded_files(found_a));
    lemma_items_multiset(b.files, recorded_files(found_b));
    lemma_sorted_items_unique(a.files, b.files);
    lemma_entries_bytes_by_items(a.files, b.files);
}

/// Lists that hold the same files, each as often as the other, hold the
/// same items.
pub proof fn lemma_items_multiset(a: Seq<FileModel>, b: Seq<FileModel>)
    requires
        a.to_multiset() == b.to_multiset(),
    ensures
        digest_items(a).to_multiset() == digest_items(b).to_multiset(),
    decreases a.len(),
{
    vstd::seq_lib::to_multiset_len(a);
    vstd::seq_lib::to_multiset_len(b);
    if a.len() == 0 {
        assert(digest_items(a) =~= digest_items(b));
    } else {
        let n = a.len() - 1;
        vstd::seq_lib::to_multiset_contains(a, a[n]);
        vstd::seq_lib::to_multiset_contains(b, a[n]);
        assert(a.contains(a[n]));
        let j = choose|j: int| 0 <= j < b.len() && b[j] == a[n];
        vstd::seq_lib::to_multiset_remove(a, n);
        vstd::seq_lib::to_multiset_remove(b, j);
        assert(a.remove(n) == a.drop_last());
        lemma_items_multiset(a.drop_last(), b.remove(j));
        assert(digest_items(a.drop_last()) =~= digest_items(a).remove(n));
        assert(digest_items(b.remove(j)) =~= digest_items(b).remove(j));
        vstd::seq_lib::to_multiset_remove(digest_items(a), n);
        vstd::seq_lib::to_multiset_remove(digest_items(b), j);
        let ma = digest_items(a).to_multiset();
        let mb = digest_items(b).to_multiset();
        let item = digest_item(a[n]);
        assert(digest_items(a)[n] == item);
        assert(digest_items(b)[j] == item);
        vstd::seq_lib::to_multiset_contains(digest_items(a), item);
        vstd::seq_lib::to_multiset_contains(digest_items(b), item);
        assert(digest_items(a).contains(item));
        assert(digest_items(b).contains(item));
        assert(ma =~= ma.remove(item).insert(item));
        assert(mb =~= mb.remove(item).insert(item));
    }
}

} // verus!
