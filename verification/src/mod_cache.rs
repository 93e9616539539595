//! The record of what is installed locally: which mod digests are present,
//! the last known repository manifest and when it was last reconciled.

use std::collections::HashMap;
use vstd::prelude::*;
use crate::md5_digest::Md5Digest;
use crate::repository::Repository;

verus! {

broadcast use vstd::std_specs::hash::group_hash_axioms;

/// The schema version that this library writes.
pub const CACHE_VERSION: u32 = 1;

/// Seconds in an hour.
pub const SECONDS_PER_HOUR: i64 = 3600;

/// What the cache keeps of an installed mod.
#[derive(Clone, Debug)]
pub struct Mod {
    pub name: String,
}

/// The cache of one base directory. Instants are seconds since the Unix
/// epoch, in UTC.
pub struct ModCache {
    /// The schema version of the cache.
    pub version: u32,
    /// The installed mods, each under the value of its aggregate digest.
    pub mods: HashMap<u128, Mod>,
    /// The repository manifest last seen.
    pub repository: Option<Repository>,
    /// When the repository manifest was last stored.
    pub last_updated: Option<i64>,
    /// When the local tree was last reconciled with the remote.
    pub last_sync: Option<i64>,
}

/// The whole hours in a span of seconds, rounded towards zero.
pub open spec fn whole_hours(seconds: int) -> int {
    if seconds >= 0 {
        seconds / 3600
    } else {
        -((-seconds) / 3600)
    }
}

/// The names under the digests of a list of manifests; of two manifests
/// with one digest the later counts.
pub open spec fn names_by_digest(mods: Seq<crate::srf::Mod>) -> Map<u128, Seq<char>>
    decreases mods.len(),
{
    if mods.len() == 0 {
        Map::empty()
    } else {
        names_by_digest(mods.drop_last()).insert(mods.last().checksum@, mods.last().name@)
    }
}

impl ModCache {
    /// The names of the installed mods under the values of their digests.
    pub open spec fn names(&self) -> Map<u128, Seq<char>> {
        Map::new(|d: u128| self.mods@.contains_key(d), |d: u128| self.mods@[d].name@)
    }

    /// Whether a mod with this digest is recorded as installed.
    pub open spec fn has(&self, digest: u128) -> bool {
        self.mods@.contains_key(digest)
    }

    /// The schema version of the cache.
    pub open spec fn schema(&self) -> u32 {
        self.version
    }

    /// A cache that records the given manifests as installed.
    pub fn new(mods: Vec<crate::srf::Mod>) -> (c: ModCache)
        ensures
            c.names() == names_by_digest(mods@),
            c.schema() == CACHE_VERSION,
            c.repository is None,
            c.last_updated is None,
            c.last_sync is None,
    {
        let mut c = ModCache::new_empty();
        let mut i: usize = 0;
        assert(mods@.take(0) == Seq::<crate::srf::Mod>::empty());
        assert(c.names() == names_by_digest(mods@.take(0)));
        while i < mods.len()
            invariant
                i <= mods.len(),
                c.names() == names_by_digest(mods@.take(i as int)),
                c.schema() == CACHE_VERSION,
                c.repository is None,
                c.last_updated is None,
                c.last_sync is None,
            decreases mods.len() - i,
        {
            assert(mods@.take(i + 1).drop_last() == mods@.take(i as int));
            c.insert_entry(&mods[i].checksum, mods[i].name.clone());
            i += 1;
        }
        assert(mods@.take(mods.len() as int) == mods@);
        c
    }

    /// A cache that records nothing.
    pub fn new_empty() -> (c: ModCache)
        ensures
            c.names() == Map::<u128, Seq<char>>::empty(),
            c.mods@ == Map::<u128, Mod>::empty(),
            c.schema() == CACHE_VERSION,
            c.repository is None,
            c.last_updated is None,
            c.last_sync is None,
    {
        let c = ModCache {
            version: CACHE_VERSION,
            mods: HashMap::new(),
            repository: None,
            last_updated: None,
            last_sync: None,
        };
        assert(c.names() == Map::<u128, Seq<char>>::empty());
        c
    }

    /// The schema version of the cache.
    pub fn version(&self) -> (v: u32)
        ensures
            v == self.schema(),
    {
        self.version
    }

    /// Records the name under the digest, in place of what was recorded
    /// there.
    pub fn insert_entry(&mut self, checksum: &Md5Digest, name: String)
        ensures
            final(self).names() == old(self).names().insert(checksum@, name@),
            final(self).schema() == old(self).schema(),
            final(self).repository == old(self).repository,
            final(self).last_updated == old(self).last_updated,
            final(self).last_sync == old(self).last_sync,
    {
        self.mods.insert(checksum.value(), Mod { name });
        assert(self.names() == old(self).names().insert(checksum@, name@));
    }

    /// Records the mod of the manifest as installed: its name under its
    /// digest.
    pub fn insert(&mut self, manifest: crate::srf::Mod)
        ensures
            final(self).names() == old(self).names().insert(manifest.checksum@, manifest.name@),
            final(self).schema() == old(self).schema(),
            final(self).repository == old(self).repository,
            final(self).last_updated == old(self).last_updated,
            final(self).last_sync == old(self).last_sync,
    {
        let checksum = manifest.checksum;
        self.insert_entry(&checksum, manifest.name);
    }

    /// Forgets the mod under the digest, if one is recorded.
    pub fn remove(&mut self, checksum: &Md5Digest)
        ensures
            final(self).names() == old(self).names().remove(checksum@),
            final(self).schema() == old(self).schema(),
            final(self).repository == old(self).repository,
            final(self).last_updated == old(self).last_updated,
            final(self).last_sync == old(self).last_sync,
    {
        let key = checksum.value();
        self.mods.remove(&key);
        assert(self.names() == old(self).names().remove(checksum@));
    }

    /// Whether a mod with this digest is recorded as installed.
    pub fn contains(&self, checksum: &Md5Digest) -> (b: bool)
        ensures
            b == self.has(checksum@),
            b == self.names().contains_key(checksum@),
    {
        let key = checksum.value();
        self.mods.contains_key(&key)
    }

    /// Stores the repository manifest as seen at `now`.
    pub fn update_repository(&mut self, repo: Repository, now: i64)
        ensures
            final(self).repository == Some(repo),
            final(self).last_updated == Some(now),
            final(self).mods == old(self).mods,
            final(self).schema() == old(self).schema(),
            final(self).last_sync == old(self).last_sync,
    {
        self.repository = Some(repo);
        self.last_updated = Some(now);
    }

    /// The repository manifest last stored.
    pub fn get_repository(&self) -> (r: Option<&Repository>)
        ensures
            match r {
                Some(repo) => self.repository == Some(*repo),
                None => self.repository is None,
            },
    {
        self.repository.as_ref()
    }

    /// Whether the stored repository manifest is younger at `now` than the
    /// given number of hours.
    pub fn is_cache_fresh(&self, max_age_hours: i64, now: i64) -> (fresh: bool)
        ensures
            fresh == match self.last_updated {
                Some(then) => whole_hours(now - then) < max_age_hours,
                None => false,
            },
    {
        match self.last_updated {
            Some(then) => {
                let age: i128 = now as i128 - then as i128;
                let hours: i128 = if age >= 0 {
                    age / 3600
                } else {
                    -((-age) / 3600)
                };
                hours < max_age_hours as i128
            },
            None => false,
        }
    }

    /// Records a finished sync: the repository manifest it ran against and
    /// the instant it ended.
    pub fn mark_synced(&mut self, repo: Repository, now: i64)
        ensures
            final(self).repository == Some(repo),
            final(self).last_sync == Some(now),
            final(self).last_updated == old(self).last_updated,
            final(self).mods == old(self).mods,
            final(self).schema() == old(self).schema(),
    {
        self.repository = Some(repo);
        self.last_sync = Some(now);
    }

    /// Records a manifest fetched from the remote at `now`, as both seen
    /// and synced.
    pub fn update_from_remote(&mut self, repo: Repository, now: i64)
        ensures
            final(self).repository == Some(repo),
            final(self).last_sync == Some(now),
            final(self).last_updated == Some(now),
            final(self).mods == old(self).mods,
            final(self).schema() == old(self).schema(),
    {
        self.repository = Some(repo);
        self.last_sync = Some(now);
        self.last_updated = Some(now);
    }

    /// Whether the cache records a mod of this name.
    pub open spec fn has_name(&self, name: Seq<char>) -> bool {
        exists|d: u128| self.mods@.contains_key(d) && self.mods@[d].name@ == name
    }

    /// Whether `names` lists the recorded mods by the digests in `keys`:
    /// every digest of the cache stands once in `keys`, and each name is
    /// the one recorded under the digest at its place.
    pub open spec fn lists(&self, keys: Seq<u128>, names: Seq<Seq<char>>) -> bool {
        &&& keys.no_duplicates()
        &&& keys.to_set() == self.mods@.dom()
        &&& names.len() == keys.len()
        &&& forall|i: int|
            0 <= i < keys.len() ==> self.mods@.contains_key(#[trigger] keys[i])
                && self.mods@[keys[i]].name@ == names[i]
    }

    /// The names of the installed mods, in the order in which the map
    /// hands out their digests: each recorded mod is named once.
    pub fn mod_names(&self) -> (names: Vec<String>)
        ensures
            names@.len() == self.mods@.dom().len(),
            exists|keys: Seq<u128>| self.lists(keys, crate::commands::launch::names_view(names@)),
    {
        let mut names: Vec<String> = Vec::new();
        let ghost mut keys: Seq<u128> = Seq::empty();
        for k in it: self.mods.keys()
            invariant
                names@.len() == it.index(),
                it.seq().len() == self.mods@.dom().len(),
                it.seq().unref().to_set() == self.mods@.dom(),
                it.seq().unref().no_duplicates(),
                keys == it.seq().unref().take(it.index() as int),
                it.index() == it.seq().len() ==> keys == it.seq().unref(),
                forall|i: int|
                    0 <= i < keys.len() ==> self.mods@.contains_key(#[trigger] keys[i])
                        && self.mods@[keys[i]].name@ == names@[i]@,
        {
            proof {
                assert(*k == it.seq().unref()[it.index() as int]);
                assert(it.seq().unref().to_set().contains(*k));
            }
            let name = match self.mods.get(k) {
                Some(m) => m.name.clone(),
                None => {
                    assert(false);
                    String::new()
                },
            };
            names.push(name);
            proof {
                keys = keys.push(*k);
                assert(it.seq().unref().take(it.index() + 1) == it.seq().unref().take(
                    it.index() as int,
                ).push(*k));
                assert(it.seq().unref().take(it.seq().len() as int) == it.seq().unref());
            }
        }
        proof {
            let listed = crate::commands::launch::names_view(names@);
            assert(self.lists(keys, listed));
        }
        names
    }

    /// Whether a sync has ever been recorded.
    pub fn is_synced(&self) -> (b: bool)
        ensures
            b == self.last_sync is Some,
    {
        self.last_sync.is_some()
    }

    /// The seconds from the last recorded sync to `now`, where one is
    /// recorded and the span fits.
    pub fn sync_age(&self, now: i64) -> (age: Option<i64>)
        ensures
            age == match self.last_sync {
                Some(then) => if i64::MIN <= now - then <= i64::MAX {
                    Some((now - then) as i64)
                } else {
                    None
                },
                None => None,
            },
    {
        match self.last_sync {
            Some(then) => now.checked_sub(then),
            None => None,
        }
    }
}

} // verus!
