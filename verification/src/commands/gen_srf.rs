//! Generating the manifests of the mods under a base directory.

use vstd::prelude::*;
use crate::commands::diff::keys_view;
use crate::commands::launch::{mod_path, path_parts};
use crate::mod_cache::{names_by_digest, ModCache, CACHE_VERSION};
use crate::srf::{files_view, has_conflict, is_scan_of, recorded_files, File, ScanError};
use crate::text::{chars_of, slashed, string_of, to_slashed};

verus! {

/// Whether an entry of the base directory is a mod: a directory whose
/// name begins with `@`.
pub fn is_mod_dir(name: &str, is_dir: bool) -> (b: bool)
    ensures
        b == (is_dir && name@.len() > 0 && name@[0] == '@'),
{
    let chars = chars_of(name);
    is_dir && chars.len() > 0 && chars[0] == '@'
}

/// The last part of a path: the name of the directory or file it leads
/// to. Empty where the path has no part.
pub open spec fn last_part(path: Seq<char>) -> Seq<char> {
    if path_parts(slashed(path)).len() == 0 {
        Seq::empty()
    } else {
        path_parts(slashed(path)).last()
    }
}

/// The path of the manifest of a mod: below the mod directory, or, where
/// an output directory is given, below the mod's name in that directory.
pub open spec fn manifest_path(mod_dir: Seq<char>, output_dir: Option<Seq<char>>) -> Seq<char> {
    match output_dir {
        Some(out) => mod_path(mod_path(out, last_part(mod_dir)), "mod.srf"@),
        None => mod_path(mod_dir, "mod.srf"@),
    }
}

/// The name of the directory that a path leads to.
pub fn dir_name(path: &str) -> (name: String)
    ensures
        name@ == last_part(path@),
{
    let s = to_slashed(path);
    let chars = chars_of(s.as_str());
    let parts = crate::commands::launch::split_path(&chars);
    assert(keys_view(parts@).len() == parts@.len());
    if parts.len() == 0 {
        String::new()
    } else {
        assert(keys_view(parts@).last() == parts@[parts.len() - 1]@);
        string_of(&parts[parts.len() - 1])
    }
}

fn join(base: &str, name: &str) -> (p: String)
    ensures
        p@ == mod_path(base@, name@),
{
    let mut p = String::new();
    crate::commands::launch::push_mod_path(&mut p, &chars_of(base), name);
    assert(Seq::<char>::empty() + mod_path(base@, name@) == mod_path(base@, name@));
    p
}

/// The path to which the manifest of a mod is written.
pub fn srf_path(mod_dir: &str, output_dir: Option<&str>) -> (p: String)
    ensures
        p@ == manifest_path(
            mod_dir@,
            match output_dir {
                Some(o) => Some(o@),
                None => None,
            },
        ),
{
    match output_dir {
        Some(out) => {
            let name = dir_name(mod_dir);
            let below = join(out, name.as_str());
            join(below.as_str(), "mod.srf")
        },
        None => join(mod_dir, "mod.srf"),
    }
}

/// The manifest of the mod in `mod_dir`, built from the files found
/// there, and the path to which it is written.
pub fn gen_srf_for_mod(mod_dir: &str, output_dir: Option<&str>, found: &Vec<File>) -> (r: Result<
    (crate::srf::Mod, String),
    ScanError,
>)
    ensures
        r is Err <==> has_conflict(recorded_files(files_view(found@))),
        r matches Ok(made) ==> is_scan_of(made.0@, last_part(mod_dir@), files_view(found@))
            && made.1@ == manifest_path(
            mod_dir@,
            match output_dir {
                Some(o) => Some(o@),
                None => None,
            },
        ),
{
    let name = dir_name(mod_dir);
    match crate::srf::scan_mod(name.as_str(), found) {
        Ok(m) => Ok((m, srf_path(mod_dir, output_dir))),
        Err(e) => Err(e),
    }
}

/// The cache that records the generated manifests as installed.
pub fn gen_srf(manifests: Vec<crate::srf::Mod>) -> (cache: ModCache)
    ensures
        cache.names() == names_by_digest(manifests@),
        cache.schema() == CACHE_VERSION,
        cache.repository is None,
        cache.last_sync is None,
{
    ModCache::new(manifests)
}

} // verus!
