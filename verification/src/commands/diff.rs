//! The two levels of comparison: which mods need work, and which files of
//! a mod are to be fetched or removed.

use vstd::prelude::*;
use crate::commands::types::{
    deletes_view, downloads_view, DeleteCommand, DownloadCommand, DownloadModel,
};
use crate::md5_digest::Md5Digest;
use crate::mod_cache::ModCache;
use crate::repository::{file_url, make_repo_file_url, normalize_repo_url, normalized_url};
use crate::srf::{files_view, key_of, key_text, path_key, File, FileModel, ModModel};
use crate::text::same_text;

verus! {

/// What the quick comparison of a mod says.
#[derive(Clone, Copy, Debug, PartialEq, Eq, Structural)]
pub enum QuickDiffResult {
    /// The local manifest has the digest that the remote announces.
    UpToDate,
    /// The full manifest has to be fetched and compared.
    NeedsFull,
}

/// The mods of the list whose digest the cache does not hold, in order.
pub open spec fn missing_mods(known: Set<u128>, mods: Seq<crate::repository::Mod>) -> Seq<
    crate::repository::Mod,
>
    decreases mods.len(),
{
    if mods.len() == 0 {
        Seq::empty()
    } else if known.contains(mods.last().checksum@) {
        missing_mods(known, mods.drop_last())
    } else {
        missing_mods(known, mods.drop_last()).push(mods.last())
    }
}

/// Adds to `out` the mods of the list that the cache does not hold.
fn collect_missing<'a>(
    mod_cache: &ModCache,
    mods: &'a Vec<crate::repository::Mod>,
    out: &mut Vec<&'a crate::repository::Mod>,
)
    ensures
        refs_view(final(out)@) == refs_view(old(out)@) + missing_mods(mod_cache.mods@.dom(), mods@),
{
    let ghost start = refs_view(out@);
    let ghost known = mod_cache.mods@.dom();
    let mut i: usize = 0;
    assert(start + missing_mods(known, mods@.take(0)) == start);
    while i < mods.len()
        invariant
            i <= mods.len(),
            known == mod_cache.mods@.dom(),
            refs_view(out@) == start + missing_mods(known, mods@.take(i as int)),
        decreases mods.len() - i,
    {
        assert(mods@.take(i + 1).drop_last() == mods@.take(i as int));
        if !mod_cache.contains(&mods[i].checksum) {
            let ghost before = refs_view(out@);
            out.push(&mods[i]);
            assert(refs_view(out@) == before.push(mods@[i as int]));
            assert(start + missing_mods(known, mods@.take(i + 1)) == (start + missing_mods(
                known,
                mods@.take(i as int),
            )).push(mods@[i as int]));
        }
        i += 1;
    }
    assert(mods@.take(mods.len() as int) == mods@);
}

/// The mods that a list of references points to.
pub open spec fn refs_view(refs: Seq<&crate::repository::Mod>) -> Seq<crate::repository::Mod> {
    Seq::new(refs.len(), |i: int| *refs[i])
}

/// The mods of the repository, required before optional, whose digest is
/// not in the cache, in the order of the manifest.
pub fn diff_repo<'a>(mod_cache: &ModCache, remote_repo: &'a crate::repository::Repository) -> (r:
    Vec<&'a crate::repository::Mod>)
    ensures
        refs_view(r@) == missing_mods(mod_cache.mods@.dom(), remote_repo.required_mods@)
            + missing_mods(mod_cache.mods@.dom(), remote_repo.optional_mods@),
{
    let mut downloads: Vec<&'a crate::repository::Mod> = Vec::new();
    assert(refs_view(downloads@) == Seq::<crate::repository::Mod>::empty());
    collect_missing(mod_cache, &remote_repo.required_mods, &mut downloads);
    collect_missing(mod_cache, &remote_repo.optional_mods, &mut downloads);
    assert(Seq::<crate::repository::Mod>::empty() + missing_mods(
        mod_cache.mods@.dom(),
        remote_repo.required_mods@,
    ) == missing_mods(mod_cache.mods@.dom(), remote_repo.required_mods@));
    downloads
}

/// Decides from the digest alone whether a mod is up to date: with no
/// local manifest the full comparison is needed; with one, it is needed
/// exactly when the digests differ.
pub fn quick_diff(local_srf: Option<&crate::srf::Mod>, remote_srf: &crate::srf::Mod) -> (r:
    QuickDiffResult)
    ensures
        r == match local_srf {
            Some(local) => if local@.checksum == remote_srf@.checksum {
                QuickDiffResult::UpToDate
            } else {
                QuickDiffResult::NeedsFull
            },
            None => QuickDiffResult::NeedsFull,
        },
{
    match local_srf {
        Some(local) => {
            if local.checksum.same_as(&remote_srf.checksum) {
                QuickDiffResult::UpToDate
            } else {
                QuickDiffResult::NeedsFull
            }
        },
        None => QuickDiffResult::NeedsFull,
    }
}

/// Where the local manifest of a mod comes from.
#[derive(Clone, Copy, Debug, PartialEq, Eq, Structural)]
pub enum LocalSource {
    /// The manifest file in the mod directory is read.
    Manifest,
    /// The mod directory is scanned, and the result is written as its
    /// manifest file.
    Scan,
    /// The directory is absent: a placeholder stands for the manifest.
    Placeholder,
}

/// What is done to a mod directory before the mod is compared.
#[derive(Clone, Copy, Debug, PartialEq, Eq, Structural)]
pub struct LocalPlan {
    /// The manifest file is removed first.
    pub remove_manifest: bool,
    /// The mod directory is created.
    pub create_dir: bool,
    /// Where the local manifest comes from.
    pub source: LocalSource,
}

/// Plans how the local manifest of a mod is obtained. A forced comparison
/// removes the manifest file, so that the manifest is rebuilt by a scan.
/// A missing directory is created. The manifest file is read where it is
/// left; else the directory is scanned where it was there; else a
/// placeholder is taken.
pub fn plan_local(force_scan: bool, manifest_exists: bool, dir_exists: bool) -> (plan: LocalPlan)
    ensures
        plan.remove_manifest == (force_scan && manifest_exists),
        plan.create_dir == !dir_exists,
        plan.source == if manifest_exists && !force_scan {
            LocalSource::Manifest
        } else if dir_exists {
            LocalSource::Scan
        } else {
            LocalSource::Placeholder
        },
{
    LocalPlan {
        remove_manifest: force_scan && manifest_exists,
        create_dir: !dir_exists,
        source: if manifest_exists && !force_scan {
            LocalSource::Manifest
        } else if dir_exists {
            LocalSource::Scan
        } else {
            LocalSource::Placeholder
        },
    }
}

/// The path below the mod directory at which a file of the manifest is
/// looked for on disk: forward slashes, lower case.
pub fn normalize_path(path: &str) -> (r: String)
    ensures
        r@ == path_key(path@),
{
    key_text(path)
}

/// The keys of a list of files, file by file.
pub open spec fn keys_of(files: Seq<FileModel>) -> Seq<Seq<char>> {
    Seq::new(files.len(), |i: int| path_key(files[i].path))
}

/// The place of the last of `keys` that equals `key`, if there is one: the
/// entry that an index by key holds for it.
pub open spec fn last_with_key(keys: Seq<Seq<char>>, key: Seq<char>) -> Option<int>
    decreases keys.len(),
{
    if keys.len() == 0 {
        None
    } else if keys.last() == key {
        Some(keys.len() - 1)
    } else {
        last_with_key(keys.drop_last(), key)
    }
}

/// The digest found on disk for the remote file at place `i`: none where
/// the list does not reach.
pub open spec fn probe(on_disk: Seq<Option<u128>>, i: int) -> Option<u128> {
    if 0 <= i < on_disk.len() {
        on_disk[i]
    } else {
        None
    }
}

/// Whether the manifest gives reason to fetch the remote file at place
/// `i`: it is the entry indexed under its key, and the local index has no
/// entry under that key or one with another digest.
pub open spec fn differs(
    local_keys: Seq<Seq<char>>,
    local: Seq<FileModel>,
    remote_keys: Seq<Seq<char>>,
    remote: Seq<FileModel>,
    i: int,
) -> bool {
    &&& last_with_key(remote_keys, remote_keys[i]) == Some(i)
    &&& match last_with_key(local_keys, remote_keys[i]) {
        Some(j) => local[j].checksum != remote[i].checksum,
        None => true,
    }
}

/// Whether the remote file at place `i` is fetched: the manifests give
/// reason to, and no file with the expected digest lies on disk.
pub open spec fn fetched(
    local_keys: Seq<Seq<char>>,
    local: Seq<FileModel>,
    remote_keys: Seq<Seq<char>>,
    remote: Seq<FileModel>,
    on_disk: Seq<Option<u128>>,
    i: int,
) -> bool {
    differs(local_keys, local, remote_keys, remote, i) && probe(on_disk, i) != Some(
        remote[i].checksum,
    )
}

/// Whether the local file at place `j` is an orphan: it is the entry
/// indexed under its key, and no remote file has that key.
pub open spec fn orphaned(local_keys: Seq<Seq<char>>, remote_keys: Seq<Seq<char>>, j: int) -> bool {
    last_with_key(local_keys, local_keys[j]) == Some(j) && last_with_key(
        remote_keys,
        local_keys[j],
    ) is None
}

/// The task that fetches a file of a mod.
pub open spec fn download_of(mod_name: Seq<char>, f: FileModel) -> DownloadModel {
    DownloadModel { file: file_url(normalized_url(mod_name), f.path), begin: 0, end: f.length }
}

/// The download tasks for the first `n` remote files, in their order.
pub open spec fn downloads_among(
    mod_name: Seq<char>,
    local_keys: Seq<Seq<char>>,
    local: Seq<FileModel>,
    remote_keys: Seq<Seq<char>>,
    remote: Seq<FileModel>,
    on_disk: Seq<Option<u128>>,
    n: int,
) -> Seq<DownloadModel>
    decreases n,
{
    if n <= 0 {
        Seq::empty()
    } else {
        let before = downloads_among(
            mod_name,
            local_keys,
            local,
            remote_keys,
            remote,
            on_disk,
            n - 1,
        );
        if fetched(local_keys, local, remote_keys, remote, on_disk, n - 1) {
            before.push(download_of(mod_name, remote[n - 1]))
        } else {
            before
        }
    }
}

/// The paths to delete among the first `n` local files, in their order.
pub open spec fn deletes_among(
    local_keys: Seq<Seq<char>>,
    local: Seq<FileModel>,
    remote_keys: Seq<Seq<char>>,
    n: int,
) -> Seq<Seq<char>>
    decreases n,
{
    if n <= 0 {
        Seq::empty()
    } else {
        let before = deletes_among(local_keys, local, remote_keys, n - 1);
        if orphaned(local_keys, remote_keys, n - 1) {
            before.push(local[n - 1].path)
        } else {
            before
        }
    }
}

/// The places of the first `n` remote files for which the manifests give
/// reason to fetch, in their order.
pub open spec fn differing_among(
    local_keys: Seq<Seq<char>>,
    local: Seq<FileModel>,
    remote_keys: Seq<Seq<char>>,
    remote: Seq<FileModel>,
    n: int,
) -> Seq<usize>
    decreases n,
{
    if n <= 0 {
        Seq::empty()
    } else {
        let before = differing_among(local_keys, local, remote_keys, remote, n - 1);
        if differs(local_keys, local, remote_keys, remote, n - 1) {
            before.push((n - 1) as usize)
        } else {
            before
        }
    }
}

/// Whether a mod is left alone without looking at its files: the
/// aggregate digests match, the manifests list as many files, and the
/// directory exists.
pub open spec fn unchanged(local: ModModel, remote: ModModel, dir_exists: bool) -> bool {
    local.checksum == remote.checksum && local.files.len() == remote.files.len() && dir_exists
}

/// The tasks that bring a mod from its local state to the remote one.
pub open spec fn mod_tasks(
    mod_name: Seq<char>,
    local: ModModel,
    remote: ModModel,
    dir_exists: bool,
    on_disk: Seq<Option<u128>>,
) -> (Seq<DownloadModel>, Seq<Seq<char>>) {
    if unchanged(local, remote, dir_exists) {
        (Seq::empty(), Seq::empty())
    } else {
        (
            downloads_among(
                mod_name,
                keys_of(local.files),
                local.files,
                keys_of(remote.files),
                remote.files,
                on_disk,
                remote.files.len() as int,
            ),
            deletes_among(
                keys_of(local.files),
                local.files,
                keys_of(remote.files),
                local.files.len() as int,
            ),
        )
    }
}

/// What a list of probed digests says, place by place.
pub open spec fn probes_view(on_disk: Seq<Option<Md5Digest>>) -> Seq<Option<u128>> {
    Seq::new(
        on_disk.len(),
        |i: int|
            match on_disk[i] {
                Some(d) => Some(d@),
                None => None,
            },
    )
}

/// What a list of keys says, key by key.
pub open spec fn keys_view(keys: Seq<Vec<char>>) -> Seq<Seq<char>> {
    Seq::new(keys.len(), |i: int| keys[i]@)
}

/// The keys of the files of a list.
pub fn file_keys(files: &Vec<File>) -> (keys: Vec<Vec<char>>)
    ensures
        keys_view(keys@) == keys_of(files_view(files@)),
{
    let mut keys: Vec<Vec<char>> = Vec::new();
    let mut i: usize = 0;
    while i < files.len()
        invariant
            i <= files.len(),
            keys_view(keys@) == keys_of(files_view(files@)).take(i as int),
        decreases files.len() - i,
    {
        let ghost before = keys_view(keys@);
        let key = key_of(files[i].path.as_str());
        keys.push(key);
        assert(keys_view(keys@) == before.push(key@));
        assert(keys_of(files_view(files@)).take(i + 1) == keys_of(files_view(files@)).take(
            i as int,
        ).push(path_key(files@[i as int].path@)));
        i += 1;
    }
    assert(keys_of(files_view(files@)).take(files.len() as int) == keys_of(files_view(files@)));
    keys
}

/// The place of the last key that equals `key`.
pub(crate) fn find_last(keys: &Vec<Vec<char>>, key: &Vec<char>) -> (r: Option<usize>)
    ensures
        match r {
            Some(i) => last_with_key(keys_view(keys@), key@) == Some(i as int) && i < keys.len(),
            None => last_with_key(keys_view(keys@), key@) is None,
        },
{
    let ghost all = keys_view(keys@);
    let mut n: usize = keys.len();
    assert(all.take(n as int) == all);
    while n > 0
        invariant
            n <= keys.len(),
            all == keys_view(keys@),
            last_with_key(all, key@) == last_with_key(all.take(n as int), key@),
        decreases n,
    {
        assert(all.take(n as int).last() == keys@[n - 1]@);
        assert(all.take(n as int).drop_last() == all.take(n - 1));
        if same_text(&keys[n - 1], key) {
            return Some(n - 1);
        }
        n -= 1;
    }
    None
}

/// Whether the manifests give reason to fetch the remote file at `i`.
fn file_differs(
    local: &Vec<File>,
    local_keys: &Vec<Vec<char>>,
    remote: &Vec<File>,
    remote_keys: &Vec<Vec<char>>,
    i: usize,
) -> (b: bool)
    requires
        local_keys.len() == local.len(),
        remote_keys.len() == remote.len(),
        i < remote.len(),
    ensures
        b == differs(
            keys_view(local_keys@),
            files_view(local@),
            keys_view(remote_keys@),
            files_view(remote@),
            i as int,
        ),
{
    match find_last(remote_keys, &remote_keys[i]) {
        Some(last) => {
            if last != i {
                return false;
            }
        },
        None => {
            return false;
        },
    }
    match find_last(local_keys, &remote_keys[i]) {
        Some(j) => !local[j].checksum.same_as(&remote[i].checksum),
        None => true,
    }
}

/// The places of the remote files that have to be looked for on disk
/// before the mod is compared: those for which the manifests give reason
/// to fetch.
pub fn probe_list(
    local: &Vec<File>,
    local_keys: &Vec<Vec<char>>,
    remote: &Vec<File>,
    remote_keys: &Vec<Vec<char>>,
) -> (places: Vec<usize>)
    requires
        local_keys.len() == local.len(),
        remote_keys.len() == remote.len(),
    ensures
        places@ == differing_among(
            keys_view(local_keys@),
            files_view(local@),
            keys_view(remote_keys@),
            files_view(remote@),
            remote.len() as int,
        ),
{
    let mut places: Vec<usize> = Vec::new();
    let mut i: usize = 0;
    while i < remote.len()
        invariant
            i <= remote.len(),
            local_keys.len() == local.len(),
            remote_keys.len() == remote.len(),
            places@ == differing_among(
                keys_view(local_keys@),
                files_view(local@),
                keys_view(remote_keys@),
                files_view(remote@),
                i as int,
            ),
        decreases remote.len() - i,
    {
        if file_differs(local, local_keys, remote, remote_keys, i) {
            places.push(i);
        }
        i += 1;
    }
    places
}

/// Compares the files of two manifests under the given keys. Each remote
/// file that its key indexes is fetched when the local index has no entry
/// under the key, or one with another digest, unless `on_disk` holds the
/// expected digest at its place. Each local file that its key indexes and
/// that no remote file shares the key with is deleted.
pub fn diff_files(
    mod_name: &str,
    local: &Vec<File>,
    local_keys: &Vec<Vec<char>>,
    remote: &Vec<File>,
    remote_keys: &Vec<Vec<char>>,
    on_disk: &Vec<Option<Md5Digest>>,
) -> (r: (Vec<DownloadCommand>, Vec<DeleteCommand>))
    requires
        local_keys.len() == local.len(),
        remote_keys.len() == remote.len(),
    ensures
        downloads_view(r.0@) == downloads_among(
            mod_name@,
            keys_view(local_keys@),
            files_view(local@),
            keys_view(remote_keys@),
            files_view(remote@),
            probes_view(on_disk@),
            remote.len() as int,
        ),
        deletes_view(r.1@) == deletes_among(
            keys_view(local_keys@),
            files_view(local@),
            keys_view(remote_keys@),
            local.len() as int,
        ),
{
    let ghost lk = keys_view(local_keys@);
    let ghost rk = keys_view(remote_keys@);
    let ghost lf = files_view(local@);
    let ghost rf = files_view(remote@);
    let ghost disk = probes_view(on_disk@);
    let mod_base = normalize_repo_url(mod_name);
    let mut download_list: Vec<DownloadCommand> = Vec::new();
    let mut i: usize = 0;
    assert(downloads_view(download_list@) == downloads_among(mod_name@, lk, lf, rk, rf, disk, 0));
    while i < remote.len()
        invariant
            i <= remote.len(),
            local_keys.len() == local.len(),
            remote_keys.len() == remote.len(),
            lk == keys_view(local_keys@),
            rk == keys_view(remote_keys@),
            lf == files_view(local@),
            rf == files_view(remote@),
            disk == probes_view(on_disk@),
            mod_base@ == normalized_url(mod_name@),
            downloads_view(download_list@) == downloads_among(
                mod_name@,
                lk,
                lf,
                rk,
                rf,
                disk,
                i as int,
            ),
        decreases remote.len() - i,
    {
        let mut wanted = file_differs(local, local_keys, remote, remote_keys, i);
        if wanted && i < on_disk.len() {
            match &on_disk[i] {
                Some(found) => {
                    if found.same_as(&remote[i].checksum) {
                        wanted = false;
                    }
                },
                None => {},
            }
        }
        assert(wanted == fetched(lk, lf, rk, rf, disk, i as int));
        if wanted {
            let ghost before = downloads_view(download_list@);
            let command = DownloadCommand {
                file: make_repo_file_url(mod_base.as_str(), remote[i].path.as_str()),
                begin: 0,
                end: remote[i].length,
            };
            assert(command@ == download_of(mod_name@, rf[i as int]));
            download_list.push(command);
            assert(downloads_view(download_list@) == before.push(command@));
        }
        i += 1;
    }
    let mut delete_list: Vec<DeleteCommand> = Vec::new();
    let mut j: usize = 0;
    assert(deletes_view(delete_list@) == deletes_among(lk, lf, rk, 0));
    while j < local.len()
        invariant
            j <= local.len(),
            local_keys.len() == local.len(),
            lk == keys_view(local_keys@),
            rk == keys_view(remote_keys@),
            lf == files_view(local@),
            deletes_view(delete_list@) == deletes_among(lk, lf, rk, j as int),
        decreases local.len() - j,
    {
        let indexed = match find_last(local_keys, &local_keys[j]) {
            Some(last) => last == j,
            None => false,
        };
        let orphan = indexed && find_last(remote_keys, &local_keys[j]).is_none();
        assert(orphan == orphaned(lk, rk, j as int));
        if orphan {
            let ghost before = deletes_view(delete_list@);
            let command = DeleteCommand { file: local[j].path.clone() };
            delete_list.push(command);
            assert(deletes_view(delete_list@) == before.push(lf[j as int].path));
        }
        j += 1;
    }
    (download_list, delete_list)
}

/// Compares a mod with its remote manifest. `local_srf` is the manifest
/// of the local tree, `dir_exists` says whether the mod directory was
/// there, and `on_disk` holds, at the place of each remote file, the
/// digest of the file found on disk at its normalized path, if any. With
/// matching digests, as many files and the directory in place there is
/// nothing to do; otherwise the files are compared one by one.
pub fn diff_mod(
    remote_mod: &crate::repository::Mod,
    local_srf: &crate::srf::Mod,
    remote_srf: &crate::srf::Mod,
    dir_exists: bool,
    on_disk: &Vec<Option<Md5Digest>>,
) -> (r: (Vec<DownloadCommand>, Vec<DeleteCommand>))
    ensures
        (downloads_view(r.0@), deletes_view(r.1@)) == mod_tasks(
            remote_mod.mod_name@,
            local_srf@,
            remote_srf@,
            dir_exists,
            probes_view(on_disk@),
        ),
{
    if local_srf.checksum.same_as(&remote_srf.checksum) && local_srf.files.len()
        == remote_srf.files.len() && dir_exists {
        let downloads: Vec<DownloadCommand> = Vec::new();
        let deletes: Vec<DeleteCommand> = Vec::new();
        assert(downloads_view(downloads@) == Seq::<DownloadModel>::empty());
        assert(deletes_view(deletes@) == Seq::<Seq<char>>::empty());
        return (downloads, deletes);
    }
    let local_keys = file_keys(&local_srf.files);
    let remote_keys = file_keys(&remote_srf.files);
    assert(local_keys.len() == local_srf.files.len()) by {
        assert(keys_view(local_keys@).len() == keys_of(files_view(local_srf.files@)).len());
    }
    assert(remote_keys.len() == remote_srf.files.len()) by {
        assert(keys_view(remote_keys@).len() == keys_of(files_view(remote_srf.files@)).len());
    }
    diff_files(
        remote_mod.mod_name.as_str(),
        &local_srf.files,
        &local_keys,
        &remote_srf.files,
        &remote_keys,
        on_disk,
    )
}

/// No key is indexed exactly when no key of the list equals it, and an
/// indexed place holds the key.
pub proof fn lemma_last_with_key(keys: Seq<Seq<char>>, key: Seq<char>)
    ensures
        last_with_key(keys, key) is None <==> forall|i: int|
            0 <= i < keys.len() ==> #[trigger] keys[i] != key,
        last_with_key(keys, key) matches Some(i) ==> 0 <= i < keys.len() && keys[i] == key,
    decreases keys.len(),
{
    if keys.len() > 0 {
        lemma_last_with_key(keys.drop_last(), key);
        if keys.last() != key {
            if last_with_key(keys.drop_last(), key) is None {
                assert forall|i: int| 0 <= i < keys.len() implies #[trigger] keys[i] != key by {
                    if i < keys.len() - 1 {
                        assert(keys.drop_last()[i] == keys[i]);
                    }
                }
            } else {
                let i = last_with_key(keys.drop_last(), key)->0;
                assert(keys.drop_last()[i] == keys[i]);
            }
        }
    }
}

/// A remote file that is fetched has its task among the downloads.
pub proof fn lemma_fetched_is_downloaded(
    mod_name: Seq<char>,
    local_keys: Seq<Seq<char>>,
    local: Seq<FileModel>,
    remote_keys: Seq<Seq<char>>,
    remote: Seq<FileModel>,
    on_disk: Seq<Option<u128>>,
    n: int,
    i: int,
)
    requires
        0 <= i < n,
        fetched(local_keys, local, remote_keys, remote, on_disk, i),
    ensures
        downloads_among(mod_name, local_keys, local, remote_keys, remote, on_disk, n).contains(
            download_of(mod_name, remote[i]),
        ),
    decreases n,
{
    let all = downloads_among(mod_name, local_keys, local, remote_keys, remote, on_disk, n);
    let before = downloads_among(mod_name, local_keys, local, remote_keys, remote, on_disk, n - 1);
    if i == n - 1 {
        assert(all.last() == download_of(mod_name, remote[i]));
    } else {
        lemma_fetched_is_downloaded(
            mod_name,
            local_keys,
            local,
            remote_keys,
            remote,
            on_disk,
            n - 1,
            i,
        );
        let k = choose|k: int| 0 <= k < before.len() && before[k] == download_of(mod_name, remote[i]);
        assert(all[k] == before[k]);
    }
}

/// Each download is the task of a remote file that is fetched.
pub proof fn lemma_downloaded_is_fetched(
    mod_name: Seq<char>,
    local_keys: Seq<Seq<char>>,
    local: Seq<FileModel>,
    remote_keys: Seq<Seq<char>>,
    remote: Seq<FileModel>,
    on_disk: Seq<Option<u128>>,
    n: int,
    k: int,
) -> (i: int)
    requires
        0 <= k < downloads_among(
            mod_name,
            local_keys,
            local,
            remote_keys,
            remote,
            on_disk,
            n,
        ).len(),
    ensures
        0 <= i < n,
        fetched(local_keys, local, remote_keys, remote, on_disk, i),
        downloads_among(mod_name, local_keys, local, remote_keys, remote, on_disk, n)[k]
            == download_of(mod_name, remote[i]),
    decreases n,
{
    let before = downloads_among(mod_name, local_keys, local, remote_keys, remote, on_disk, n - 1);
    if k < before.len() {
        lemma_downloaded_is_fetched(
            mod_name,
            local_keys,
            local,
            remote_keys,
            remote,
            on_disk,
            n - 1,
            k,
        )
    } else {
        n - 1
    }
}

/// A local file that is an orphan has its path among the deletes.
pub proof fn lemma_orphan_is_deleted(
    local_keys: Seq<Seq<char>>,
    local: Seq<FileModel>,
    remote_keys: Seq<Seq<char>>,
    n: int,
    j: int,
)
    requires
        0 <= j < n,
        orphaned(local_keys, remote_keys, j),
    ensures
        deletes_among(local_keys, local, remote_keys, n).contains(local[j].path),
    decreases n,
{
    let all = deletes_among(local_keys, local, remote_keys, n);
    let before = deletes_among(local_keys, local, remote_keys, n - 1);
    if j == n - 1 {
        assert(all.last() == local[j].path);
    } else {
        lemma_orphan_is_deleted(local_keys, local, remote_keys, n - 1, j);
        let k = choose|k: int| 0 <= k < before.len() && before[k] == local[j].path;
        assert(all[k] == before[k]);
    }
}

/// Each delete is the path of a local file that is an orphan.
pub proof fn lemma_deleted_is_orphan(
    local_keys: Seq<Seq<char>>,
    local: Seq<FileModel>,
    remote_keys: Seq<Seq<char>>,
    n: int,
    k: int,
) -> (j: int)
    requires
        0 <= k < deletes_among(local_keys, local, remote_keys, n).len(),
    ensures
        0 <= j < n,
        orphaned(local_keys, remote_keys, j),
        deletes_among(local_keys, local, remote_keys, n)[k] == local[j].path,
    decreases n,
{
    let before = deletes_among(local_keys, local, remote_keys, n - 1);
    if k < before.len() {
        lemma_deleted_is_orphan(local_keys, local, remote_keys, n - 1, k)
    } else {
        n - 1
    }
}

/// Whether the comparison file by file finds something to fetch or to
/// delete.
pub open spec fn has_work(local: ModModel, remote: ModModel, on_disk: Seq<Option<u128>>) -> bool {
    ||| exists|i: int|
        0 <= i < remote.files.len() && #[trigger] fetched(
            keys_of(local.files),
            local.files,
            keys_of(remote.files),
            remote.files,
            on_disk,
            i,
        )
    ||| exists|j: int|
        0 <= j < local.files.len() && #[trigger] orphaned(
            keys_of(local.files),
            keys_of(remote.files),
            j,
        )
}

/// A mod gets no task exactly when its aggregate digest and its number of
/// files match the remote's and its directory exists, or when the
/// comparison file by file finds nothing.
pub proof fn lemma_no_tasks_iff(
    mod_name: Seq<char>,
    local: ModModel,
    remote: ModModel,
    dir_exists: bool,
    on_disk: Seq<Option<u128>>,
)
    ensures
        mod_tasks(mod_name, local, remote, dir_exists, on_disk) == (
            Seq::<DownloadModel>::empty(),
            Seq::<Seq<char>>::empty(),
        ) <==> unchanged(local, remote, dir_exists) || !has_work(local, remote, on_disk),
{
    let lk = keys_of(local.files);
    let rk = keys_of(remote.files);
    let downloads = downloads_among(
        mod_name,
        lk,
        local.files,
        rk,
        remote.files,
        on_disk,
        remote.files.len() as int,
    );
    let deletes = deletes_among(lk, local.files, rk, local.files.len() as int);
    if !unchanged(local, remote, dir_exists) {
        if has_work(local, remote, on_disk) {
            if exists|i: int|
                0 <= i < remote.files.len() && #[trigger] fetched(
                    lk,
                    local.files,
                    rk,
                    remote.files,
                    on_disk,
                    i,
                ) {
                let i = choose|i: int|
                    0 <= i < remote.files.len() && #[trigger] fetched(
                        lk,
                        local.files,
                        rk,
                        remote.files,
                        on_disk,
                        i,
                    );
                lemma_fetched_is_downloaded(
                    mod_name,
                    lk,
                    local.files,
                    rk,
                    remote.files,
                    on_disk,
                    remote.files.len() as int,
                    i,
                );
                assert(downloads.len() > 0);
            } else {
                let j = choose|j: int| 0 <= j < local.files.len() && #[trigger] orphaned(lk, rk, j);
                lemma_orphan_is_deleted(lk, local.files, rk, local.files.len() as int, j);
                assert(deletes.len() > 0);
            }
        } else {
            if downloads.len() > 0 {
                let i = lemma_downloaded_is_fetched(
                    mod_name,
                    lk,
                    local.files,
                    rk,
                    remote.files,
                    on_disk,
                    remote.files.len() as int,
                    0,
                );
                assert(false);
            }
            if deletes.len() > 0 {
                let j = lemma_deleted_is_orphan(lk, local.files, rk, local.files.len() as int, 0);
                assert(false);
            }
            assert(downloads =~= Seq::<DownloadModel>::empty());
            assert(deletes =~= Seq::<Seq<char>>::empty());
        }
    }
}

/// Where the comparison file by file would find work, a mod gets no task
/// exactly when its aggregate digest and its number of files match the
/// remote's and its directory exists.
pub proof fn lemma_no_tasks_iff_unchanged(
    mod_name: Seq<char>,
    local: ModModel,
    remote: ModModel,
    dir_exists: bool,
    on_disk: Seq<Option<u128>>,
)
    requires
        has_work(local, remote, on_disk),
    ensures
        mod_tasks(mod_name, local, remote, dir_exists, on_disk) == (
            Seq::<DownloadModel>::empty(),
            Seq::<Seq<char>>::empty(),
        ) <==> unchanged(local, remote, dir_exists),
{
    lemma_no_tasks_iff(mod_name, local, remote, dir_exists, on_disk);
}

/// No file is both fetched and deleted by one comparison: a remote file
/// that is fetched and a local file that is deleted never share a key.
pub proof fn lemma_fetch_and_delete_disjoint(
    local_keys: Seq<Seq<char>>,
    local: Seq<FileModel>,
    remote_keys: Seq<Seq<char>>,
    remote: Seq<FileModel>,
    on_disk: Seq<Option<u128>>,
    i: int,
    j: int,
)
    requires
        0 <= i < remote_keys.len(),
        0 <= j < local_keys.len(),
        fetched(local_keys, local, remote_keys, remote, on_disk, i),
        orphaned(local_keys, remote_keys, j),
    ensures
        remote_keys[i] != local_keys[j],
{
    lemma_last_with_key(remote_keys, local_keys[j]);
}

/// Against a local manifest without files, every remote file that its key
/// indexes is fetched unless a file with its digest already lies on disk,
/// and nothing is deleted.
pub proof fn lemma_empty_local_fetches_all(
    mod_name: Seq<char>,
    local: ModModel,
    remote: ModModel,
    on_disk: Seq<Option<u128>>,
    i: int,
)
    requires
        local.files.len() == 0,
        !unchanged(local, remote, true),
        0 <= i < remote.files.len(),
        last_with_key(keys_of(remote.files), keys_of(remote.files)[i]) == Some(i),
        probe(on_disk, i) != Some(remote.files[i].checksum),
    ensures
        mod_tasks(mod_name, local, remote, true, on_disk).0.contains(
            download_of(mod_name, remote.files[i]),
        ),
        mod_tasks(mod_name, local, remote, true, on_disk).1 == Seq::<Seq<char>>::empty(),
{
    let lk = keys_of(local.files);
    let rk = keys_of(remote.files);
    lemma_last_with_key(lk, rk[i]);
    lemma_fetched_is_downloaded(
        mod_name,
        lk,
        local.files,
        rk,
        remote.files,
        on_disk,
        remote.files.len() as int,
        i,
    );
}

} // verus!
