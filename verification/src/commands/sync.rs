//! The order of a sync and what it decides for each mod. The caller
//! fetches, reads and writes; this module says what comes next and what
//! the results add up to.

use vstd::prelude::*;
use crate::commands::diff::QuickDiffResult;
use crate::commands::types::{DeleteCommand, DownloadCommand};
use crate::mod_cache::ModCache;
use crate::repository::{file_url, make_repo_file_url};
use crate::srf::files_view;
use crate::srf_json::{extract_checksum, partial_checksum, PartialChecksum};
use crate::text::{decimal_text, push_char, push_decimal, push_text};

verus! {

/// Why a sync did not end well.
#[derive(Debug)]
pub enum Error {
    /// A file or directory could not be read or written.
    Io { message: String },
    /// The transport failed, or the remote did not answer with success.
    Http { url: String, message: String },
    /// The repository manifest could not be fetched or decoded.
    RepositoryFetch { message: String },
    /// The cache file could not be opened.
    ModCacheOpen { message: String },
    /// The cache file is there and cannot be decoded.
    CacheCorrupt { message: String },
    /// A mod could not be compared.
    Diff { message: String },
    /// The user asked to stop.
    Cancelled,
    /// A manifest could not be decoded.
    SrfDeserialization { message: String },
    /// A manifest or the cache could not be encoded.
    Serialization { message: String },
}

/// The bytes of a manifest that the probe asks for.
pub const PARTIAL_BYTES: u64 = 512;

/// How a sync is to run.
#[derive(Clone, Copy, Debug, PartialEq, Eq, Structural)]
pub struct SyncOptions {
    /// Stop after the comparison, with nothing changed.
    pub dry_run: bool,
    /// Forget the cache and the local manifests first.
    pub force: bool,
}

/// A step of a sync.
#[derive(Clone, Copy, Debug, PartialEq, Eq, Structural)]
pub enum SyncStage {
    /// Delete the cache file; a failure is only logged.
    DeleteCache,
    /// Tell the caller's sink that the repository is being fetched.
    Announce,
    /// Fetch and decode the repository manifest.
    FetchRepository,
    /// Load the cache, or start an empty one where there is none.
    LoadCache,
    /// Fetch the first bytes of the manifest of every required mod and
    /// read the aggregate digest from them.
    ProbeMods,
    /// Compare every mod, fetching its full manifest where needed.
    DiffMods,
    /// Remove the orphans; a failure is only logged.
    ExecuteDeletes,
    /// Run the downloader on the collected tasks.
    Download,
    /// Write the manifest of every mod that needed work, and record it in
    /// the cache.
    WriteManifests,
    /// Mark the cache as synced and save it.
    CommitCache,
}

/// How a sync ended.
#[derive(Clone, Copy, Debug, PartialEq, Eq, Structural)]
pub enum SyncEnd {
    /// The cache was saved.
    Completed,
    /// The comparison was reported; nothing was changed.
    DryRunCompleted,
    /// The user asked to stop; the cache file was not written.
    Cancelled,
    /// A step failed; the cache file was not written.
    Failed,
}

/// What follows a step.
#[derive(Clone, Copy, Debug, PartialEq, Eq, Structural)]
pub enum SyncStep {
    Run(SyncStage),
    Stop(SyncEnd),
}

/// Whether the failure of a step is only logged.
pub open spec fn failure_is_logged(stage: SyncStage) -> bool {
    stage == SyncStage::DeleteCache || stage == SyncStage::ExecuteDeletes
}

/// Whether the cancellation flag is looked at after a step.
pub open spec fn checks_cancellation(stage: SyncStage) -> bool {
    ||| stage == SyncStage::FetchRepository
    ||| stage == SyncStage::ProbeMods
    ||| stage == SyncStage::DiffMods
    ||| stage == SyncStage::ExecuteDeletes
    ||| stage == SyncStage::Download
    ||| stage == SyncStage::WriteManifests
}

/// The step a sync begins with.
pub open spec fn first_stage(options: SyncOptions) -> SyncStage {
    if options.force {
        SyncStage::DeleteCache
    } else {
        SyncStage::Announce
    }
}

/// What follows a step that went well and saw no cancellation.
pub open spec fn stage_after(stage: SyncStage, options: SyncOptions) -> SyncStep {
    match stage {
        SyncStage::DeleteCache => SyncStep::Run(SyncStage::Announce),
        SyncStage::Announce => SyncStep::Run(SyncStage::FetchRepository),
        SyncStage::FetchRepository => SyncStep::Run(SyncStage::LoadCache),
        SyncStage::LoadCache => SyncStep::Run(SyncStage::ProbeMods),
        SyncStage::ProbeMods => SyncStep::Run(SyncStage::DiffMods),
        SyncStage::DiffMods => if options.dry_run {
            SyncStep::Stop(SyncEnd::DryRunCompleted)
        } else {
            SyncStep::Run(SyncStage::ExecuteDeletes)
        },
        SyncStage::ExecuteDeletes => SyncStep::Run(SyncStage::Download),
        SyncStage::Download => SyncStep::Run(SyncStage::WriteManifests),
        SyncStage::WriteManifests => SyncStep::Run(SyncStage::CommitCache),
        SyncStage::CommitCache => SyncStep::Stop(SyncEnd::Completed),
    }
}

/// What follows a step, given whether it failed and whether the
/// cancellation flag was set when it ended.
pub open spec fn sync_transition(
    stage: SyncStage,
    options: SyncOptions,
    failed: bool,
    cancelled: bool,
) -> SyncStep {
    if failed && !failure_is_logged(stage) {
        SyncStep::Stop(SyncEnd::Failed)
    } else if cancelled && checks_cancellation(stage) {
        SyncStep::Stop(SyncEnd::Cancelled)
    } else {
        stage_after(stage, options)
    }
}

/// The step a sync begins with: the cache file is deleted first when the
/// sync is forced.
pub fn start(options: SyncOptions) -> (stage: SyncStage)
    ensures
        stage == first_stage(options),
{
    if options.force {
        SyncStage::DeleteCache
    } else {
        SyncStage::Announce
    }
}

/// What follows a step, given whether it failed and whether the
/// cancellation flag was set when it ended.
pub fn next_step(stage: SyncStage, options: SyncOptions, failed: bool, cancelled: bool) -> (step:
    SyncStep)
    ensures
        step == sync_transition(stage, options, failed, cancelled),
{
    let logged = match stage {
        SyncStage::DeleteCache => true,
        SyncStage::ExecuteDeletes => true,
        _ => false,
    };
    if failed && !logged {
        return SyncStep::Stop(SyncEnd::Failed);
    }
    let checked = match stage {
        SyncStage::FetchRepository => true,
        SyncStage::ProbeMods => true,
        SyncStage::DiffMods => true,
        SyncStage::ExecuteDeletes => true,
        SyncStage::Download => true,
        SyncStage::WriteManifests => true,
        _ => false,
    };
    if cancelled && checked {
        return SyncStep::Stop(SyncEnd::Cancelled);
    }
    match stage {
        SyncStage::DeleteCache => SyncStep::Run(SyncStage::Announce),
        SyncStage::Announce => SyncStep::Run(SyncStage::FetchRepository),
        SyncStage::FetchRepository => SyncStep::Run(SyncStage::LoadCache),
        SyncStage::LoadCache => SyncStep::Run(SyncStage::ProbeMods),
        SyncStage::ProbeMods => SyncStep::Run(SyncStage::DiffMods),
        SyncStage::DiffMods => if options.dry_run {
            SyncStep::Stop(SyncEnd::DryRunCompleted)
        } else {
            SyncStep::Run(SyncStage::ExecuteDeletes)
        },
        SyncStage::ExecuteDeletes => SyncStep::Run(SyncStage::Download),
        SyncStage::Download => SyncStep::Run(SyncStage::WriteManifests),
        SyncStage::WriteManifests => SyncStep::Run(SyncStage::CommitCache),
        SyncStage::CommitCache => SyncStep::Stop(SyncEnd::Completed),
    }
}

/// How many steps lie before a step in the order of a sync.
pub open spec fn stage_rank(stage: SyncStage) -> nat {
    match stage {
        SyncStage::DeleteCache => 0,
        SyncStage::Announce => 1,
        SyncStage::FetchRepository => 2,
        SyncStage::LoadCache => 3,
        SyncStage::ProbeMods => 4,
        SyncStage::DiffMods => 5,
        SyncStage::ExecuteDeletes => 6,
        SyncStage::Download => 7,
        SyncStage::WriteManifests => 8,
        SyncStage::CommitCache => 9,
    }
}

/// How a sync ends that stands at `stage` and whose every further step,
/// this one included, goes well and ends with the cancellation flag set.
pub open spec fn end_when_cancelled(stage: SyncStage, options: SyncOptions) -> SyncEnd
    decreases 10 - stage_rank(stage),
{
    match sync_transition(stage, options, false, true) {
        SyncStep::Stop(end) => end,
        SyncStep::Run(next) => if stage_rank(next) > stage_rank(stage) {
            end_when_cancelled(next, options)
        } else {
            SyncEnd::Failed
        },
    }
}

/// A sync that is cancelled before its manifests are all written never
/// writes the cache: once the flag is set, no step leads to the commit of
/// the cache, and the sync ends as cancelled or, on a failure, as failed.
pub proof fn lemma_cancelled_sync_never_commits(
    stage: SyncStage,
    options: SyncOptions,
    failed: bool,
)
    ensures
        sync_transition(stage, options, failed, true) != SyncStep::Run(SyncStage::CommitCache),
        sync_transition(stage, options, failed, true) != SyncStep::Stop(SyncEnd::Completed)
            || stage == SyncStage::CommitCache,
        stage != SyncStage::CommitCache ==> end_when_cancelled(stage, options)
            == SyncEnd::Cancelled,
        checks_cancellation(stage) && !failed ==> sync_transition(stage, options, failed, true)
            == SyncStep::Stop(SyncEnd::Cancelled),
{
    reveal_with_fuel(end_when_cancelled, 4);
}

/// The cache is committed only after every step before it went well or
/// had its failure logged, and a dry run changes nothing: it never
/// reaches the deletes.
pub proof fn lemma_commit_comes_last(
    stage: SyncStage,
    options: SyncOptions,
    failed: bool,
    cancelled: bool,
)
    ensures
        sync_transition(stage, options, failed, cancelled) == SyncStep::Run(SyncStage::CommitCache)
            ==> stage == SyncStage::WriteManifests && !failed && !cancelled,
        options.dry_run ==> sync_transition(stage, options, failed, cancelled) != SyncStep::Run(
            SyncStage::ExecuteDeletes,
        ),
        sync_transition(stage, options, failed, cancelled) matches SyncStep::Run(next)
            ==> stage_rank(next) == stage_rank(stage) + 1,
{
}

/// What is done with a mod after the probe.
#[derive(Clone, Copy, Debug, PartialEq, Eq, Structural)]
pub enum ModAction {
    /// The mod is up to date.
    Skip,
    /// The full manifest is fetched, if the probe did not already bring
    /// it, and the mod is compared file by file.
    FullDiff,
}

/// What is done with a mod: a forced sync compares every mod in full;
/// otherwise the quick comparison decides.
pub fn mod_action(force: bool, quick: QuickDiffResult) -> (a: ModAction)
    ensures
        a == if force || quick == QuickDiffResult::NeedsFull {
            ModAction::FullDiff
        } else {
            ModAction::Skip
        },
{
    if force {
        ModAction::FullDiff
    } else {
        match quick {
            QuickDiffResult::UpToDate => ModAction::Skip,
            QuickDiffResult::NeedsFull => ModAction::FullDiff,
        }
    }
}

/// The name of the manifest below a mod.
pub open spec fn srf_suffix() -> Seq<char> {
    "/mod.srf"@
}

/// The address of the manifest of a mod.
pub fn srf_url(repo_url: &str, mod_name: &str) -> (url: String)
    ensures
        url@ == file_url(repo_url@, mod_name@ + srf_suffix()),
{
    let mut path = mod_name.to_owned();
    push_text(&mut path, "/mod.srf");
    make_repo_file_url(repo_url, path.as_str())
}

/// The value of the range header that asks for the bytes from `start` to
/// `end`, both included.
pub open spec fn range_text(start: u64, end: u64) -> Seq<char> {
    "bytes="@ + decimal_text(start as nat) + seq!['-'] + decimal_text(end as nat)
}

/// The value of the range header that asks for the bytes from `start` to
/// `end`, both included.
pub fn range_header(start: u64, end: u64) -> (value: String)
    ensures
        value@ == range_text(start, end),
{
    let mut value = String::new();
    push_text(&mut value, "bytes=");
    push_decimal(&mut value, start);
    push_char(&mut value, '-');
    push_decimal(&mut value, end);
    assert(value@ == range_text(start, end)) by {
        assert(Seq::<char>::empty() + "bytes="@ == "bytes="@);
    }
    value
}

/// The manifest that the first bytes of a remote manifest stand for: the
/// name of the mod, the digest read from the bytes, and no files. Where no
/// digest can be read there is none, and the full manifest is fetched.
pub fn partial_manifest(mod_name: &str, text: &str) -> (r: Option<crate::srf::Mod>)
    ensures
        match r {
            Some(m) => partial_checksum(text@) == Ok::<u128, PartialChecksum>(m@.checksum)
                && m@.name == mod_name@ && m@.files.len() == 0,
            None => partial_checksum(text@) is Err,
        },
{
    match extract_checksum(text) {
        Ok(checksum) => {
            let m = crate::srf::Mod { name: mod_name.to_owned(), checksum, files: Vec::new() };
            assert(files_view(m.files@).len() == 0);
            Some(m)
        },
        Err(_) => None,
    }
}

/// What the comparison of one mod brought.
pub struct ModOutcome {
    /// The files to fetch.
    pub downloads: Vec<DownloadCommand>,
    /// The remote manifest, where the mod needs work: it is written once
    /// the downloads have succeeded.
    pub manifest: Option<crate::srf::Mod>,
}

/// The outcome for a mod whose comparison gave these tasks: its remote
/// manifest is kept for writing exactly when there is something to fetch
/// or to delete.
pub fn process_mod_diff(
    downloads: Vec<DownloadCommand>,
    deletes: &Vec<DeleteCommand>,
    remote_srf: crate::srf::Mod,
) -> (r: ModOutcome)
    ensures
        r.downloads == downloads,
        r.manifest == if downloads@.len() > 0 || deletes@.len() > 0 {
            Some(remote_srf)
        } else {
            None
        },
{
    if downloads.len() > 0 || deletes.len() > 0 {
        ModOutcome { downloads, manifest: Some(remote_srf) }
    } else {
        ModOutcome { downloads, manifest: None }
    }
}

/// The download tasks of the outcomes, one mod after the other.
pub open spec fn all_downloads(outcomes: Seq<ModOutcome>) -> Seq<DownloadCommand>
    decreases outcomes.len(),
{
    if outcomes.len() == 0 {
        Seq::empty()
    } else {
        all_downloads(outcomes.drop_last()) + outcomes.last().downloads@
    }
}

/// The manifests of the outcomes that have one, in order.
pub open spec fn all_manifests(outcomes: Seq<ModOutcome>) -> Seq<crate::srf::Mod>
    decreases outcomes.len(),
{
    if outcomes.len() == 0 {
        Seq::empty()
    } else {
        match outcomes.last().manifest {
            Some(m) => all_manifests(outcomes.drop_last()).push(m),
            None => all_manifests(outcomes.drop_last()),
        }
    }
}

/// Puts the outcomes of all mods together: every download task, and the
/// manifests to write once the downloads have succeeded.
pub fn collect_outcomes(outcomes: Vec<ModOutcome>) -> (r: (Vec<DownloadCommand>, Vec<crate::srf::Mod>))
    ensures
        r.0@ == all_downloads(outcomes@),
        r.1@ == all_manifests(outcomes@),
{
    let ghost all = outcomes@;
    let mut left = outcomes;
    let mut downloads: Vec<DownloadCommand> = Vec::new();
    let mut manifests: Vec<crate::srf::Mod> = Vec::new();
    let mut taken: usize = 0;
    let total = left.len();
    assert(all.take(0) =~= Seq::<ModOutcome>::empty());
    assert(all.skip(0) == all);
    while left.len() > 0
        invariant
            all == outcomes@,
            total == all.len(),
            taken + left.len() == all.len(),
            left@ == all.skip(taken as int),
            downloads@ == all_downloads(all.take(taken as int)),
            manifests@ == all_manifests(all.take(taken as int)),
        decreases left.len(),
    {
        let mut outcome = left.remove(0);
        proof {
            assert(outcome == all[taken as int]);
            assert(all.take(taken + 1).drop_last() == all.take(taken as int));
            assert(all.take(taken + 1).last() == outcome);
            assert(all.skip(taken as int).remove(0) == all.skip(taken + 1));
        }
        downloads.append(&mut outcome.downloads);
        match outcome.manifest {
            Some(m) => {
                manifests.push(m);
            },
            None => {},
        }
        taken += 1;
    }
    assert(all.take(taken as int) == all);
    (downloads, manifests)
}

/// Records the mods of the written manifests in the cache, each under its
/// digest; of two with one digest the later counts.
pub fn update_mod_cache(manifests: Vec<crate::srf::Mod>, mod_cache: &mut ModCache)
    ensures
        final(mod_cache).names() == record_all(old(mod_cache).names(), manifests@),
        final(mod_cache).schema() == old(mod_cache).schema(),
        final(mod_cache).repository == old(mod_cache).repository,
        final(mod_cache).last_updated == old(mod_cache).last_updated,
        final(mod_cache).last_sync == old(mod_cache).last_sync,
{
    let ghost all = manifests@;
    let ghost start = mod_cache.names();
    let mut i: usize = 0;
    assert(all.take(0) =~= Seq::<crate::srf::Mod>::empty());
    while i < manifests.len()
        invariant
            i <= manifests.len(),
            all == manifests@,
            mod_cache.names() == record_all(start, all.take(i as int)),
            mod_cache.schema() == old(mod_cache).schema(),
            mod_cache.repository == old(mod_cache).repository,
            mod_cache.last_updated == old(mod_cache).last_updated,
            mod_cache.last_sync == old(mod_cache).last_sync,
        decreases manifests.len() - i,
    {
        assert(all.take(i + 1).drop_last() == all.take(i as int));
        assert(all.take(i + 1).last() == all[i as int]);
        mod_cache.insert_entry(&manifests[i].checksum, manifests[i].name.clone());
        i += 1;
    }
    assert(all.take(manifests.len() as int) == all);
}

/// The names under the digests after the mods of the manifests are
/// recorded on top of `names`.
pub open spec fn record_all(names: Map<u128, Seq<char>>, manifests: Seq<crate::srf::Mod>) -> Map<
    u128,
    Seq<char>,
>
    decreases manifests.len(),
{
    if manifests.len() == 0 {
        names
    } else {
        record_all(names, manifests.drop_last()).insert(
            manifests.last().checksum@,
            manifests.last().name@,
        )
    }
}

/// After the manifests are recorded the cache holds the digest of each,
/// and the repository-level comparison no longer lists a mod with such a
/// digest.
pub proof fn lemma_recorded_mods_are_known(
    names: Map<u128, Seq<char>>,
    manifests: Seq<crate::srf::Mod>,
    i: int,
)
    requires
        0 <= i < manifests.len(),
    ensures
        record_all(names, manifests).contains_key(manifests[i].checksum@),
        forall|d: u128| names.contains_key(d) ==> record_all(names, manifests).contains_key(d),
    decreases manifests.len(),
{
    let before = record_all(names, manifests.drop_last());
    if manifests.len() > 1 {
        let k = if i < manifests.len() - 1 {
            i
        } else {
            0
        };
        lemma_recorded_mods_are_known(names, manifests.drop_last(), k);
        assert(manifests.drop_last()[k] == manifests[k]);
    } else {
        assert(before == names);
    }
    assert forall|d: u128| names.contains_key(d) implies record_all(names, manifests).contains_key(
        d,
    ) by {
        assert(before.contains_key(d));
    }
}

} // verus!
