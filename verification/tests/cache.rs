use nimble::md5_digest::Md5Digest;
use nimble::mod_cache::ModCache;
use nimble::repository::Repository;
use nimble::srf::Mod;

fn manifest(name: &str, v: u128) -> Mod {
    Mod {
        name: name.to_string(),
        checksum: Md5Digest::from_value(v),
        files: Vec::new(),
    }
}

#[test]
fn cache_insert_remove_contains() {
    let mut cache = ModCache::new_empty();
    assert_eq!(cache.version(), 1);
    let d = Md5Digest::from_value(7);
    assert!(!cache.contains(&d));
    cache.remove(&d);
    assert!(cache.mods.is_empty());
    cache.insert(manifest("@a", 7));
    assert!(cache.contains(&d));
    assert_eq!(cache.mods[&7].name, "@a");
    cache.insert(manifest("@b", 7));
    assert_eq!(cache.mods.len(), 1);
    assert_eq!(cache.mods[&7].name, "@b");
    cache.remove(&d);
    assert!(!cache.contains(&d));
}

#[test]
fn cache_from_manifests() {
    let cache = ModCache::new(vec![manifest("@a", 1), manifest("@b", 2), manifest("@c", 1)]);
    assert_eq!(cache.mods.len(), 2);
    assert_eq!(cache.mods[&1].name, "@c");
    assert_eq!(cache.mods[&2].name, "@b");
    let mut names = cache.mod_names();
    names.sort();
    assert_eq!(names, vec!["@b".to_string(), "@c".to_string()]);
    assert!(cache.repository.is_none());
    assert!(!cache.is_synced());
}

#[test]
fn cache_sync_marks() {
    let mut cache = ModCache::new_empty();
    assert!(!cache.is_synced());
    assert_eq!(cache.sync_age(100), None);
    assert!(!cache.is_cache_fresh(1, 100));
    cache.mark_synced(Repository::default(), 1000);
    assert!(cache.is_synced());
    assert_eq!(cache.last_sync, Some(1000));
    assert_eq!(cache.last_updated, None);
    assert_eq!(cache.get_repository().unwrap().version, "1.0.0");
    assert_eq!(cache.sync_age(1500), Some(500));
    assert_eq!(cache.sync_age(i64::MAX), Some(i64::MAX - 1000));
    cache.last_sync = Some(-10);
    assert_eq!(cache.sync_age(i64::MAX), None);
}

#[test]
fn cache_freshness_counts_whole_hours() {
    let mut cache = ModCache::new_empty();
    cache.update_repository(Repository::default(), 0);
    assert_eq!(cache.last_updated, Some(0));
    assert!(cache.is_cache_fresh(1, 3599));
    assert!(!cache.is_cache_fresh(1, 3600));
    assert!(cache.is_cache_fresh(2, 7199));
    assert!(!cache.is_cache_fresh(0, 0));
    assert!(!cache.is_cache_fresh(0, -3599));
    assert!(cache.is_cache_fresh(0, -3600));
    cache.update_from_remote(Repository::default(), 50);
    assert_eq!(cache.last_sync, Some(50));
    assert_eq!(cache.last_updated, Some(50));
}
