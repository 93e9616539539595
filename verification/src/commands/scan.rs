//! The comparison that the shell shows before a sync: for each required
//! mod, the files that differ from the remote manifest.

use vstd::prelude::*;
use crate::md5_digest::Md5Digest;
use crate::srf::{files_view, File, FileModel};

verus! {

/// A file that a sync would fetch.
#[derive(Clone, Debug)]
pub struct FileUpdate {
    pub path: String,
    pub checksum: Md5Digest,
    pub size: u64,
}

impl View for FileUpdate {
    type V = FileModel;

    open spec fn view(&self) -> FileModel {
        FileModel { path: self.path@, length: self.size, checksum: self.checksum@ }
    }
}

/// The files of a mod that a sync would fetch.
#[derive(Clone, Debug)]
pub struct ModUpdate {
    pub name: String,
    pub files: Vec<FileUpdate>,
}

/// What a list of updates says, file by file.
pub open spec fn updates_view(updates: Seq<FileUpdate>) -> Seq<FileModel> {
    Seq::new(updates.len(), |i: int| updates[i]@)
}

/// The first place in `files` of a file with exactly this path.
pub open spec fn place_of(files: Seq<FileModel>, path: Seq<char>) -> Option<int>
    decreases files.len(),
{
    if files.len() == 0 {
        None
    } else {
        match place_of(files.drop_last(), path) {
            Some(i) => Some(i),
            None => if files.last().path == path {
                Some(files.len() - 1)
            } else {
                None
            },
        }
    }
}

/// Whether a remote file differs from the local manifest: no local file
/// has its path, or the first that has it has another digest.
pub open spec fn file_changed(local: Seq<FileModel>, f: FileModel) -> bool {
    match place_of(local, f.path) {
        Some(i) => local[i].checksum != f.checksum,
        None => true,
    }
}

/// The remote files that differ from the local manifest, in order.
pub open spec fn changed(local: Seq<FileModel>, remote: Seq<FileModel>) -> Seq<FileModel>
    decreases remote.len(),
{
    if remote.len() == 0 {
        Seq::empty()
    } else if file_changed(local, remote.last()) {
        changed(local, remote.drop_last()).push(remote.last())
    } else {
        changed(local, remote.drop_last())
    }
}

fn update_of(f: &File) -> (u: FileUpdate)
    ensures
        u@ == f@,
{
    FileUpdate { path: f.path.clone(), checksum: f.checksum, size: f.length }
}

/// An update for every file of the list.
pub fn create_file_updates(files: &Vec<File>) -> (updates: Vec<FileUpdate>)
    ensures
        updates_view(updates@) == files_view(files@),
{
    let mut updates: Vec<FileUpdate> = Vec::new();
    let mut i: usize = 0;
    while i < files.len()
        invariant
            i <= files.len(),
            updates_view(updates@) == files_view(files@).take(i as int),
        decreases files.len() - i,
    {
        let ghost before = updates_view(updates@);
        let u = update_of(&files[i]);
        updates.push(u);
        assert(updates_view(updates@) == before.push(u@));
        assert(files_view(files@).take(i + 1) == files_view(files@).take(i as int).push(
            files@[i as int]@,
        ));
        i += 1;
    }
    assert(files_view(files@).take(files.len() as int) == files_view(files@));
    updates
}

fn find_path(files: &Vec<File>, path: &String) -> (r: Option<usize>)
    ensures
        match r {
            Some(i) => place_of(files_view(files@), path@) == Some(i as int) && i < files.len(),
            None => place_of(files_view(files@), path@) is None,
        },
{
    let ghost all = files_view(files@);
    let mut i: usize = 0;
    assert(place_of(all.take(0), path@) is None);
    while i < files.len()
        invariant
            i <= files.len(),
            all == files_view(files@),
            place_of(all.take(i as int), path@) is None,
        decreases files.len() - i,
    {
        assert(all.take(i + 1).drop_last() == all.take(i as int));
        assert(all.take(i + 1).last() == files@[i as int]@);
        if files[i].path == *path {
            proof {
                lemma_place_stays(all, path@, i + 1);
            }
            return Some(i);
        }
        i += 1;
    }
    assert(all.take(files.len() as int) == all);
    None
}

/// A place found among the first files is the place among all.
proof fn lemma_place_stays(files: Seq<FileModel>, path: Seq<char>, n: int)
    requires
        0 <= n <= files.len(),
        place_of(files.take(n), path) is Some,
    ensures
        place_of(files, path) == place_of(files.take(n), path),
    decreases files.len() - n,
{
    if n == files.len() {
        assert(files.take(n) == files);
    } else {
        assert(files.take(n + 1).drop_last() == files.take(n));
        lemma_place_stays(files, path, n + 1);
    }
}

/// The remote files that differ from the local manifest.
pub fn changed_files(local: &Vec<File>, remote: &Vec<File>) -> (updates: Vec<FileUpdate>)
    ensures
        updates_view(updates@) == changed(files_view(local@), files_view(remote@)),
{
    let ghost lf = files_view(local@);
    let ghost rf = files_view(remote@);
    let mut updates: Vec<FileUpdate> = Vec::new();
    let mut i: usize = 0;
    assert(updates_view(updates@) == changed(lf, rf.take(0)));
    while i < remote.len()
        invariant
            i <= remote.len(),
            lf == files_view(local@),
            rf == files_view(remote@),
            updates_view(updates@) == changed(lf, rf.take(i as int)),
        decreases remote.len() - i,
    {
        assert(rf.take(i + 1).drop_last() == rf.take(i as int));
        assert(rf.take(i + 1).last() == remote@[i as int]@);
        let differs = match find_path(local, &remote[i].path) {
            Some(j) => !local[j].checksum.same_as(&remote[i].checksum),
            None => true,
        };
        if differs {
            let ghost before = updates_view(updates@);
            let u = update_of(&remote[i]);
            updates.push(u);
            assert(updates_view(updates@) == before.push(u@));
        }
        i += 1;
    }
    assert(rf.take(remote.len() as int) == rf);
    updates
}

/// What is known of a required mod when it is scanned.
pub struct ScanInput {
    /// Whether the mod directory exists.
    pub dir_exists: bool,
    /// The local manifest, where there is one and it could be read.
    pub local: Option<crate::srf::Mod>,
    /// The remote manifest.
    pub remote: crate::srf::Mod,
}

/// The files of a mod that differ from the remote: all of them when the
/// scan is forced, the directory is missing or no local manifest could be
/// read, else those that differ from the local manifest.
pub open spec fn files_to_update(input: ScanInput, force_sync: bool) -> Seq<FileModel> {
    if force_sync || !input.dir_exists {
        input.remote@.files
    } else {
        match input.local {
            Some(local) => changed(local@.files, input.remote@.files),
            None => input.remote@.files,
        }
    }
}

/// Whether a mod is listed as needing updates: always when all its files
/// are taken, else where some file differs.
pub open spec fn is_listed(input: ScanInput, force_sync: bool) -> bool {
    force_sync || !input.dir_exists || input.local is None || files_to_update(
        input,
        force_sync,
    ).len() > 0
}

/// The update of one mod, if it needs one.
pub fn scan_mod_update(name: &str, input: &ScanInput, force_sync: bool) -> (r: Option<ModUpdate>)
    ensures
        r is Some <==> is_listed(*input, force_sync),
        r matches Some(u) ==> u.name@ == name@ && updates_view(u.files@) == files_to_update(
            *input,
            force_sync,
        ),
{
    if force_sync || !input.dir_exists {
        return Some(
            ModUpdate { name: name.to_owned(), files: create_file_updates(&input.remote.files) },
        );
    }
    match &input.local {
        Some(local) => {
            let files = changed_files(&local.files, &input.remote.files);
            if files.len() > 0 {
                Some(ModUpdate { name: name.to_owned(), files })
            } else {
                assert(updates_view(files@).len() == 0);
                None
            }
        },
        None => Some(
            ModUpdate { name: name.to_owned(), files: create_file_updates(&input.remote.files) },
        ),
    }
}

/// The updates of the first `n` mods that need one, in order.
pub open spec fn updates_among(inputs: Seq<(String, ScanInput)>, force_sync: bool, n: int) -> Seq<
    (Seq<char>, Seq<FileModel>),
>
    decreases n,
{
    if n <= 0 {
        Seq::empty()
    } else if is_listed(inputs[n - 1].1, force_sync) {
        updates_among(inputs, force_sync, n - 1).push(
            (inputs[n - 1].0@, files_to_update(inputs[n - 1].1, force_sync)),
        )
    } else {
        updates_among(inputs, force_sync, n - 1)
    }
}

/// What a list of mod updates says, mod by mod.
pub open spec fn mod_updates_view(updates: Seq<ModUpdate>) -> Seq<(Seq<char>, Seq<FileModel>)> {
    Seq::new(updates.len(), |i: int| (updates[i].name@, updates_view(updates[i].files@)))
}

/// The updates that the required mods need, in the order of the
/// repository. Each mod comes with its name and with what is known of it.
pub fn scan_local_mods(inputs: &Vec<(String, ScanInput)>, force_sync: bool) -> (updates: Vec<
    ModUpdate,
>)
    ensures
        mod_updates_view(updates@) == updates_among(inputs@, force_sync, inputs@.len() as int),
{
    let mut updates_needed: Vec<ModUpdate> = Vec::new();
    let mut i: usize = 0;
    assert(mod_updates_view(updates_needed@) == updates_among(inputs@, force_sync, 0));
    while i < inputs.len()
        invariant
            i <= inputs.len(),
            mod_updates_view(updates_needed@) == updates_among(inputs@, force_sync, i as int),
        decreases inputs.len() - i,
    {
        match scan_mod_update(inputs[i].0.as_str(), &inputs[i].1, force_sync) {
            Some(u) => {
                let ghost before = mod_updates_view(updates_needed@);
                let ghost added = (u.name@, updates_view(u.files@));
                updates_needed.push(u);
                assert(mod_updates_view(updates_needed@) == before.push(added));
            },
            None => {},
        }
        i += 1;
    }
    updates_needed
}

} // verus!
