use nimble::commands::diff::{
    diff_files, diff_mod, diff_repo, file_keys, normalize_path, plan_local, probe_list,
    quick_diff, LocalSource, QuickDiffResult,
};
use nimble::legacy_srf::deserialize_legacy_srf;
use nimble::md5_digest::{digest_bytes, Md5Digest};
use nimble::mod_cache::ModCache;
use nimble::repository::{Mod as RepoMod, Repository};
use nimble::srf::{scan_mod, File, Mod};

fn file(path: &str, content: &[u8]) -> File {
    File::new(path.to_string(), content.len() as u64, digest_bytes(content))
}

fn repo_mod(m: &Mod) -> RepoMod {
    RepoMod {
        mod_name: m.name.clone(),
        checksum: m.checksum,
        enabled: true,
    }
}

fn paths(v: &Vec<nimble::commands::types::DownloadCommand>) -> Vec<(String, u64, u64)> {
    v.iter().map(|c| (c.file.clone(), c.begin, c.end)).collect()
}

#[test]
fn scenario_fresh_install() {
    let remote = scan_mod("@a", &vec![file("x.bin", b"hi")]).unwrap();
    let local = Mod::generate_invalid(&remote);
    let rm = repo_mod(&remote);
    let mut repo = Repository::default();
    repo.required_mods.push(rm.duplicate());
    let mut cache = ModCache::new_empty();
    let pending = diff_repo(&cache, &repo);
    assert_eq!(pending.len(), 1);
    assert_eq!(pending[0].mod_name, "@a");
    assert_eq!(quick_diff(None, &remote), QuickDiffResult::NeedsFull);
    let (downloads, deletes) = diff_mod(&rm, &local, &remote, false, &vec![None]);
    assert_eq!(paths(&downloads), vec![("@a/x.bin".to_string(), 0, 2)]);
    assert!(deletes.is_empty());
    cache.insert(remote.duplicate());
    assert!(cache.contains(&remote.checksum));
    assert_eq!(cache.mods[&remote.checksum.value()].name, "@a");
    assert!(diff_repo(&cache, &repo).is_empty());
}

#[test]
fn scenario_noop_sync() {
    let remote = scan_mod("@a", &vec![file("x.bin", b"hi")]).unwrap();
    let local = scan_mod("@a", &vec![file("x.bin", b"hi")]).unwrap();
    assert_eq!(quick_diff(Some(&local), &remote), QuickDiffResult::UpToDate);
    let (downloads, deletes) = diff_mod(&repo_mod(&remote), &local, &remote, true, &Vec::new());
    assert!(downloads.is_empty());
    assert!(deletes.is_empty());
}

#[test]
fn scenario_file_changed_remotely() {
    let local = scan_mod("@a", &vec![file("x.bin", b"hi")]).unwrap();
    let remote = scan_mod("@a", &vec![file("x.bin", b"bye")]).unwrap();
    assert_eq!(quick_diff(Some(&local), &remote), QuickDiffResult::NeedsFull);
    let on_disk = vec![Some(digest_bytes(b"hi"))];
    let (downloads, deletes) = diff_mod(&repo_mod(&remote), &local, &remote, true, &on_disk);
    assert_eq!(paths(&downloads), vec![("@a/x.bin".to_string(), 0, 3)]);
    assert!(deletes.is_empty());
    let mut cache = ModCache::new_empty();
    cache.insert(local.duplicate());
    cache.remove(&local.checksum);
    cache.insert(remote.duplicate());
    assert!(!cache.contains(&local.checksum));
    assert!(cache.contains(&remote.checksum));
}

#[test]
fn scenario_file_removed_remotely() {
    let local = scan_mod("@a", &vec![file("x.bin", b"hi")]).unwrap();
    let remote = scan_mod("@a", &vec![file("y.bin", b"hi")]).unwrap();
    let (downloads, deletes) = diff_mod(&repo_mod(&remote), &local, &remote, true, &vec![None]);
    assert_eq!(paths(&downloads), vec![("@a/y.bin".to_string(), 0, 2)]);
    assert_eq!(deletes.len(), 1);
    assert_eq!(deletes[0].file, "x.bin");
}

#[test]
fn scenario_legacy_manifest_on_disk() {
    let remote = scan_mod("@a", &vec![file("x.bin", b"hi")]).unwrap();
    let legacy = deserialize_legacy_srf(
        "ADDON:1:5ea795b4fd38a3bfd0f4c98e385a90a5:@a\n2:49f68a5c8493ec2c0bf489821c21fc3b:x.bin\n",
    )
    .unwrap();
    let partial = Mod {
        name: "@a".to_string(),
        checksum: remote.checksum,
        files: Vec::new(),
    };
    assert_eq!(quick_diff(Some(&legacy), &partial), QuickDiffResult::UpToDate);
}

#[test]
fn diff_mod_verifies_before_fetching() {
    let local = Mod {
        name: "@a".to_string(),
        checksum: Md5Digest::invalid(),
        files: Vec::new(),
    };
    let remote = scan_mod("@a", &vec![file("x.bin", b"hi"), file("y.bin", b"bye")]).unwrap();
    let on_disk = vec![Some(digest_bytes(b"hi")), Some(digest_bytes(b"old"))];
    let (downloads, deletes) = diff_mod(&repo_mod(&remote), &local, &remote, true, &on_disk);
    assert_eq!(paths(&downloads), vec![("@a/y.bin".to_string(), 0, 3)]);
    assert!(deletes.is_empty());
}

#[test]
fn diff_mod_compares_paths_without_case() {
    let local = Mod {
        name: "@a".to_string(),
        checksum: Md5Digest::invalid(),
        files: vec![file("Addons\\X.PBO", b"hi"), file("old.txt", b"o")],
    };
    let remote = scan_mod("@a", &vec![file("addons/x.pbo", b"hi"), file("new.txt", b"n")]).unwrap();
    let (downloads, deletes) = diff_mod(&repo_mod(&remote), &local, &remote, true, &Vec::new());
    assert_eq!(paths(&downloads), vec![("@a/new.txt".to_string(), 0, 1)]);
    assert_eq!(deletes.len(), 1);
    assert_eq!(deletes[0].file, "old.txt");
}

#[test]
fn diff_mod_skips_only_when_digest_count_and_directory_agree() {
    let remote = scan_mod("@a", &vec![file("x.bin", b"hi")]).unwrap();
    let local = remote.duplicate();
    let rm = repo_mod(&remote);
    let (d, x) = diff_mod(&rm, &local, &remote, true, &vec![None]);
    assert!(d.is_empty() && x.is_empty());
    let mut fewer = remote.duplicate();
    fewer.files.clear();
    let (d, _) = diff_mod(&rm, &fewer, &remote, true, &vec![None]);
    assert_eq!(d.len(), 1);
    let mut stale = remote.duplicate();
    stale.checksum = Md5Digest::invalid();
    stale.files[0] = file("x.bin", b"old");
    let (d, _) = diff_mod(&rm, &stale, &remote, true, &vec![None]);
    assert_eq!(d.len(), 1);
}

#[test]
fn diff_files_indexes_last_entry_of_a_key() {
    let local = vec![file("a.txt", b"1")];
    let remote = vec![file("A.txt", b"2"), file("a.txt", b"1"), file("b.txt", b"3")];
    let lk = file_keys(&local);
    let rk = file_keys(&remote);
    assert_eq!(probe_list(&local, &lk, &remote, &rk), vec![2]);
    let (downloads, deletes) = diff_files("@m/", &local, &lk, &remote, &rk, &Vec::new());
    assert_eq!(paths(&downloads), vec![("@m/b.txt".to_string(), 0, 1)]);
    assert!(deletes.is_empty());
}

#[test]
fn diff_repo_keeps_manifest_order() {
    let mut repo = Repository::default();
    let m = |name: &str, v: u128| RepoMod {
        mod_name: name.to_string(),
        checksum: Md5Digest::from_value(v),
        enabled: true,
    };
    repo.required_mods = vec![m("@r1", 1), m("@r2", 2), m("@r3", 3)];
    repo.optional_mods = vec![m("@o1", 4), m("@o2", 2)];
    let mut cache = ModCache::new_empty();
    cache.insert(Mod {
        name: "@r2".to_string(),
        checksum: Md5Digest::from_value(2),
        files: Vec::new(),
    });
    let names: Vec<&str> = diff_repo(&cache, &repo)
        .iter()
        .map(|m| m.mod_name.as_str())
        .collect();
    assert_eq!(names, vec!["@r1", "@r3", "@o1"]);
}

#[test]
fn normalized_path_is_lowercase_with_forward_slashes() {
    assert_eq!(normalize_path("Addons\\Main.PBO"), "addons/main.pbo");
    assert_eq!(normalize_path("ÄÖ/x"), "äö/x");
}

#[test]
fn local_manifest_plan() {
    let p = plan_local(false, true, true);
    assert!(!p.remove_manifest && !p.create_dir);
    assert_eq!(p.source, LocalSource::Manifest);
    let p = plan_local(true, true, true);
    assert!(p.remove_manifest && !p.create_dir);
    assert_eq!(p.source, LocalSource::Scan);
    let p = plan_local(false, false, true);
    assert!(!p.remove_manifest);
    assert_eq!(p.source, LocalSource::Scan);
    let p = plan_local(false, false, false);
    assert!(p.create_dir && !p.remove_manifest);
    assert_eq!(p.source, LocalSource::Placeholder);
    let p = plan_local(true, false, false);
    assert!(p.create_dir);
    assert_eq!(p.source, LocalSource::Placeholder);
}
