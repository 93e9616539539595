use nimble::commands::diff::QuickDiffResult;
use nimble::commands::download::{
    batch_result, queue_capacity, task_step, total_bytes, worker_count, Error as DownloadError,
    Progress, TaskAction, TaskEvent, TaskState,
};
use nimble::commands::gen_srf::{dir_name, gen_srf, gen_srf_for_mod, is_mod_dir, srf_path};
use nimble::commands::scan::{
    changed_files, create_file_updates, scan_local_mods, scan_mod_update, ScanInput,
};
use nimble::commands::sync::{
    collect_outcomes, mod_action, next_step, partial_manifest, process_mod_diff, range_header,
    srf_url, start, update_mod_cache, ModAction, SyncEnd, SyncOptions, SyncStage, SyncStep,
    PARTIAL_BYTES,
};
use nimble::commands::types::{DeleteCommand, DownloadCommand};
use nimble::md5_digest::{digest_bytes, Md5Digest};
use nimble::mod_cache::ModCache;
use nimble::srf::{scan_mod, File, Mod};
use nimble::srf_json::to_json;

fn file(path: &str, content: &[u8]) -> File {
    File::new(path.to_string(), content.len() as u64, digest_bytes(content))
}

fn download(file: &str, begin: u64, end: u64) -> DownloadCommand {
    DownloadCommand {
        file: file.to_string(),
        begin,
        end,
    }
}

fn run(options: SyncOptions, cancel_after: Option<SyncStage>, fail_at: Option<SyncStage>) -> (Vec<SyncStage>, SyncEnd) {
    let mut stage = start(options);
    let mut seen = Vec::new();
    let mut cancelled = false;
    loop {
        seen.push(stage);
        if cancel_after == Some(stage) {
            cancelled = true;
        }
        match next_step(stage, options, fail_at == Some(stage), cancelled) {
            SyncStep::Run(next) => stage = next,
            SyncStep::Stop(end) => return (seen, end),
        }
    }
}

#[test]
fn sync_runs_every_step_in_order() {
    let options = SyncOptions {
        dry_run: false,
        force: false,
    };
    let (seen, end) = run(options, None, None);
    assert_eq!(
        seen,
        vec![
            SyncStage::Announce,
            SyncStage::FetchRepository,
            SyncStage::LoadCache,
            SyncStage::ProbeMods,
            SyncStage::DiffMods,
            SyncStage::ExecuteDeletes,
            SyncStage::Download,
            SyncStage::WriteManifests,
            SyncStage::CommitCache,
        ]
    );
    assert_eq!(end, SyncEnd::Completed);
}

#[test]
fn forced_sync_deletes_cache_first() {
    let options = SyncOptions {
        dry_run: false,
        force: true,
    };
    let (seen, end) = run(options, None, Some(SyncStage::DeleteCache));
    assert_eq!(seen[0], SyncStage::DeleteCache);
    assert_eq!(seen[1], SyncStage::Announce);
    assert_eq!(end, SyncEnd::Completed);
}

#[test]
fn dry_run_stops_after_diff() {
    let options = SyncOptions {
        dry_run: true,
        force: false,
    };
    let (seen, end) = run(options, None, None);
    assert_eq!(seen.last(), Some(&SyncStage::DiffMods));
    assert_eq!(end, SyncEnd::DryRunCompleted);
}

#[test]
fn cancelled_sync_never_commits_cache() {
    let options = SyncOptions {
        dry_run: false,
        force: true,
    };
    for stage in [
        SyncStage::DeleteCache,
        SyncStage::Announce,
        SyncStage::FetchRepository,
        SyncStage::LoadCache,
        SyncStage::ProbeMods,
        SyncStage::DiffMods,
        SyncStage::ExecuteDeletes,
        SyncStage::Download,
        SyncStage::WriteManifests,
    ] {
        let (seen, end) = run(options, Some(stage), None);
        assert_eq!(end, SyncEnd::Cancelled);
        assert!(!seen.contains(&SyncStage::CommitCache));
    }
    let (_, end) = run(options, Some(SyncStage::CommitCache), None);
    assert_eq!(end, SyncEnd::Completed);
}

#[test]
fn failed_step_ends_sync_unless_only_logged() {
    let options = SyncOptions {
        dry_run: false,
        force: false,
    };
    let (seen, end) = run(options, None, Some(SyncStage::Download));
    assert_eq!(end, SyncEnd::Failed);
    assert_eq!(seen.last(), Some(&SyncStage::Download));
    let (_, end) = run(options, None, Some(SyncStage::ExecuteDeletes));
    assert_eq!(end, SyncEnd::Completed);
    let (_, end) = run(options, None, Some(SyncStage::FetchRepository));
    assert_eq!(end, SyncEnd::Failed);
}

#[test]
fn mod_action_after_probe() {
    assert_eq!(mod_action(false, QuickDiffResult::UpToDate), ModAction::Skip);
    assert_eq!(mod_action(false, QuickDiffResult::NeedsFull), ModAction::FullDiff);
    assert_eq!(mod_action(true, QuickDiffResult::UpToDate), ModAction::FullDiff);
    assert_eq!(mod_action(true, QuickDiffResult::NeedsFull), ModAction::FullDiff);
}

#[test]
fn manifest_address_and_range() {
    assert_eq!(srf_url("http://host/repo", "@a"), "http://host/repo/@a/mod.srf");
    assert_eq!(srf_url("http://host/repo///", "@a"), "http://host/repo/@a/mod.srf");
    assert_eq!(range_header(0, PARTIAL_BYTES - 1), "bytes=0-511");
    assert_eq!(range_header(10, 18446744073709551615), "bytes=10-18446744073709551615");
}

#[test]
fn partial_manifest_from_probe() {
    let remote = scan_mod("@a", &vec![file("x.bin", b"hi")]).unwrap();
    let text = to_json(&remote);
    let partial = partial_manifest("@a", &text[..60]).unwrap();
    assert_eq!(partial.name, "@a");
    assert_eq!(partial.checksum, remote.checksum);
    assert!(partial.files.is_empty());
    assert!(partial_manifest("@a", "<html>not found</html>").is_none());
    assert!(partial_manifest("@a", "{\"Checksum\":\"123\"}").is_none());
}

#[test]
fn outcomes_are_collected_in_order() {
    let m1 = scan_mod("@a", &vec![file("x.bin", b"hi")]).unwrap();
    let m2 = scan_mod("@b", &Vec::new()).unwrap();
    let m3 = scan_mod("@c", &vec![file("z.bin", b"z")]).unwrap();
    let o1 = process_mod_diff(vec![download("@a/x.bin", 0, 2)], &Vec::new(), m1.duplicate());
    assert!(o1.manifest.is_some());
    let o2 = process_mod_diff(Vec::new(), &Vec::new(), m2.duplicate());
    assert!(o2.manifest.is_none());
    let deletes = vec![DeleteCommand {
        file: "old.bin".to_string(),
    }];
    let o3 = process_mod_diff(Vec::new(), &deletes, m3.duplicate());
    assert!(o3.manifest.is_some());
    let o4 = process_mod_diff(
        vec![download("@d/1", 0, 1), download("@d/2", 0, 5)],
        &Vec::new(),
        scan_mod("@d", &Vec::new()).unwrap(),
    );
    let (downloads, manifests) = collect_outcomes(vec![o1, o2, o3, o4]);
    let files: Vec<&str> = downloads.iter().map(|d| d.file.as_str()).collect();
    assert_eq!(files, vec!["@a/x.bin", "@d/1", "@d/2"]);
    let names: Vec<&str> = manifests.iter().map(|m| m.name.as_str()).collect();
    assert_eq!(names, vec!["@a", "@c", "@d"]);
    let mut cache = ModCache::new_empty();
    update_mod_cache(manifests, &mut cache);
    assert_eq!(cache.mods.len(), 3);
    assert!(cache.contains(&m1.checksum));
    assert!(cache.contains(&m3.checksum));
    assert!(!cache.contains(&m2.checksum));
}

#[test]
fn workers_are_clamped() {
    assert_eq!(worker_count(None), 4);
    assert_eq!(worker_count(Some(0)), 1);
    assert_eq!(worker_count(Some(1)), 1);
    assert_eq!(worker_count(Some(8)), 8);
    assert_eq!(worker_count(Some(32)), 32);
    assert_eq!(worker_count(Some(33)), 32);
    assert_eq!(queue_capacity(4), 8);
}

#[test]
fn total_bytes_sums_and_saturates() {
    assert_eq!(total_bytes(&Vec::new()), 0);
    let tasks = vec![download("a", 0, 2), download("b", 10, 25), download("c", 7, 3)];
    assert_eq!(total_bytes(&tasks), 17);
    let huge = vec![download("a", 0, u64::MAX), download("b", 0, 2)];
    assert_eq!(total_bytes(&huge), u64::MAX);
}

#[test]
fn progress_counts() {
    let mut p = Progress::start(10, 2);
    p.add_chunk("x.bin", 4);
    p.add_chunk("y.bin", 3);
    assert_eq!(p.file, "y.bin");
    assert_eq!(p.bytes_done, 7);
    p.add_file();
    assert_eq!(p.files_done, 1);
    p.add_chunk("y.bin", u64::MAX);
    assert_eq!(p.bytes_done, u64::MAX);
    assert_eq!(p.bytes_total, 10);
    assert_eq!(p.files_total, 2);
}

#[test]
fn task_runs_to_completion() {
    let mut state = TaskState::Queued;
    let mut actions = Vec::new();
    for event in [
        TaskEvent::Dequeued { cancelled: false },
        TaskEvent::TempOpened,
        TaskEvent::ResponseOpened,
        TaskEvent::Chunk { cancelled: false },
        TaskEvent::Chunk { cancelled: false },
        TaskEvent::EndOfBody,
        TaskEvent::Placed,
    ] {
        let (next, action) = task_step(state, event);
        state = next;
        actions.push(action);
    }
    assert_eq!(state, TaskState::Done);
    assert_eq!(
        actions,
        vec![
            TaskAction::OpenTemp,
            TaskAction::SendRequest,
            TaskAction::ReadChunk,
            TaskAction::WriteChunk,
            TaskAction::WriteChunk,
            TaskAction::Place,
            TaskAction::Report,
        ]
    );
    assert_eq!(
        task_step(TaskState::Done, TaskEvent::Placed),
        (TaskState::Done, TaskAction::Ignore)
    );
}

#[test]
fn scenario_cancellation_mid_download() {
    assert_eq!(
        task_step(TaskState::Queued, TaskEvent::Dequeued { cancelled: true }),
        (TaskState::Cancelled, TaskAction::Report)
    );
    assert_eq!(
        task_step(TaskState::Receiving, TaskEvent::Chunk { cancelled: true }),
        (TaskState::Cancelled, TaskAction::DeleteTemp)
    );
    assert_eq!(
        task_step(TaskState::Receiving, TaskEvent::Failure),
        (TaskState::Failed, TaskAction::DeleteTemp)
    );
    let results = vec![Ok(()), Err(DownloadError::Cancelled), Err(DownloadError::Cancelled)];
    assert!(matches!(batch_result(results), Err(DownloadError::Cancelled)));
    let options = SyncOptions {
        dry_run: false,
        force: false,
    };
    assert_eq!(
        next_step(SyncStage::Download, options, true, true),
        SyncStep::Stop(SyncEnd::Failed)
    );
    assert_eq!(
        next_step(SyncStage::Download, options, false, true),
        SyncStep::Stop(SyncEnd::Cancelled)
    );
}

#[test]
fn batch_result_prefers_cancellation_then_first_error() {
    assert!(batch_result(Vec::new()).is_ok());
    assert!(batch_result(vec![Ok(()), Ok(())]).is_ok());
    let io = |m: &str| DownloadError::Io {
        message: m.to_string(),
    };
    let http = |m: &str| DownloadError::Http {
        url: "u".to_string(),
        message: m.to_string(),
    };
    match batch_result(vec![Ok(()), Err(http("first")), Err(io("second"))]) {
        Err(DownloadError::Http { url, message }) => {
            assert_eq!(url, "u");
            assert_eq!(message, "first");
        }
        other => panic!("unexpected {:?}", other),
    }
    assert!(matches!(
        batch_result(vec![Err(io("x")), Ok(()), Err(DownloadError::Cancelled)]),
        Err(DownloadError::Cancelled)
    ));
}

#[test]
fn scan_updates_for_mods() {
    let remote = scan_mod("@a", &vec![file("x.bin", b"hi"), file("y.bin", b"bye")]).unwrap();
    let local = Mod {
        name: "@a".to_string(),
        checksum: Md5Digest::invalid(),
        files: vec![file("x.bin", b"hi"), file("Y.bin", b"bye")],
    };
    let changed = changed_files(&local.files, &remote.files);
    assert_eq!(changed.len(), 1);
    assert_eq!(changed[0].path, "y.bin");
    assert_eq!(changed[0].size, 3);
    assert_eq!(changed[0].checksum, digest_bytes(b"bye"));
    assert_eq!(create_file_updates(&remote.files).len(), 2);
    let input = |dir_exists: bool, local: Option<Mod>| ScanInput {
        dir_exists,
        local,
        remote: remote.duplicate(),
    };
    let same = input(true, Some(remote.duplicate()));
    assert!(scan_mod_update("@a", &same, false).is_none());
    assert_eq!(scan_mod_update("@a", &same, true).unwrap().files.len(), 2);
    assert_eq!(
        scan_mod_update("@a", &input(false, None), false).unwrap().files.len(),
        2
    );
    assert_eq!(
        scan_mod_update("@a", &input(true, None), false).unwrap().files.len(),
        2
    );
    let u = scan_mod_update("@a", &input(true, Some(local.duplicate())), false).unwrap();
    assert_eq!(u.name, "@a");
    assert_eq!(u.files.len(), 1);
    let inputs = vec![
        ("@same".to_string(), same),
        ("@diff".to_string(), input(true, Some(local))),
        ("@new".to_string(), input(false, None)),
    ];
    let updates = scan_local_mods(&inputs, false);
    let names: Vec<&str> = updates.iter().map(|u| u.name.as_str()).collect();
    assert_eq!(names, vec!["@diff", "@new"]);
}

#[test]
fn manifest_generation_paths() {
    assert!(is_mod_dir("@ace", true));
    assert!(!is_mod_dir("@ace", false));
    assert!(!is_mod_dir("ace", true));
    assert!(!is_mod_dir("", true));
    assert_eq!(dir_name("/mods/@ace/"), "@ace");
    assert_eq!(dir_name("C:\\mods\\@ace"), "@ace");
    assert_eq!(dir_name(""), "");
    assert_eq!(srf_path("/mods/@ace", None), "/mods/@ace/mod.srf");
    assert_eq!(srf_path("/mods/@ace", Some("/out/")), "/out/@ace/mod.srf");
    let (m, path) = gen_srf_for_mod("/mods/@a", Some("/out"), &vec![file("x.bin", b"hi")]).unwrap();
    assert_eq!(m.name, "@a");
    assert_eq!(m.checksum.to_hex(), "5ea795b4fd38a3bfd0f4c98e385a90a5");
    assert_eq!(path, "/out/@a/mod.srf");
    let cache = gen_srf(vec![m.duplicate()]);
    assert!(cache.contains(&m.checksum));
    assert!(gen_srf_for_mod("/mods/@a", None, &vec![file("A", b"1"), file("a", b"2")]).is_err());
}
