//! Tidying a directory before a repository is made of it: which entries
//! go, and which are renamed to lower case.

use vstd::prelude::*;
use crate::repository::{Mod, Repository};
use crate::text::{chars_of, lowercase, lowercase_of, same_text};

verus! {

/// What to tidy in a directory before a repository is made of it.
pub struct CleanOptions {
    pub force_lowercase: bool,
    /// File names to remove, separated by semicolons.
    pub excluded_files: String,
    pub cleanup_files: bool,
}

/// The names that a fresh set of options removes.
pub open spec fn default_excluded() -> Seq<char> {
    ".git;.gitignore;.gitattributes;.gitmodules;.DS_Store;Thumbs.db;desktop.ini"@
}

impl Default for CleanOptions {
    fn default() -> (o: CleanOptions)
        ensures
            o.force_lowercase,
            o.cleanup_files,
            o.excluded_files@ == default_excluded(),
    {
        CleanOptions {
            force_lowercase: true,
            excluded_files: ".git;.gitignore;.gitattributes;.gitmodules;.DS_Store;Thumbs.db;desktop.ini".to_owned(),
            cleanup_files: true,
        }
    }
}

/// Whether `part` stands in `s` at place `at`.
pub open spec fn occurs_at(s: Seq<char>, part: Seq<char>, at: int) -> bool {
    0 <= at && at + part.len() <= s.len() && s.subrange(at, at + part.len()) == part
}

/// Whether `part` stands somewhere in `s`.
pub open spec fn contains_text(s: Seq<char>, part: Seq<char>) -> bool {
    exists|at: int| occurs_at(s, part, at)
}

/// Whether the name holds one of the filters.
pub open spec fn is_filtered(name: Seq<char>, filters: Seq<Seq<char>>) -> bool {
    exists|k: int| 0 <= k < filters.len() && contains_text(name, #[trigger] filters[k])
}

fn stands_at(s: &Vec<char>, part: &Vec<char>, at: usize) -> (b: bool)
    requires
        at + part.len() <= s.len(),
    ensures
        b == occurs_at(s@, part@, at as int),
{
    let mut k: usize = 0;
    while k < part.len()
        invariant
            k <= part.len(),
            at + part.len() <= s.len(),
            forall|j: int| 0 <= j < k ==> s@[at + j] == part@[j],
        decreases part.len() - k,
    {
        if s[at + k] != part[k] {
            assert(s@.subrange(at as int, at + part.len())[k as int] != part@[k as int]);
            return false;
        }
        k += 1;
    }
    assert(s@.subrange(at as int, at + part.len()) =~= part@);
    true
}

/// Whether `part` stands somewhere in `s`.
pub fn has_text(s: &Vec<char>, part: &Vec<char>) -> (b: bool)
    ensures
        b == contains_text(s@, part@),
{
    if part.len() > s.len() {
        assert forall|at: int| !occurs_at(s@, part@, at) by {}
        return false;
    }
    let last = s.len() - part.len();
    let mut at: usize = 0;
    loop
        invariant
            at <= last,
            last == s.len() - part.len(),
            forall|a: int| 0 <= a < at ==> !occurs_at(s@, part@, a),
        decreases last - at,
    {
        if stands_at(s, part, at) {
            return true;
        }
        if at == last {
            assert forall|a: int| !occurs_at(s@, part@, a) by {}
            return false;
        }
        at += 1;
    }
}

/// An entry of the directory tree that is tidied.
pub struct DirEntry {
    /// The path of the entry.
    pub path: String,
    /// The name of the entry: the last part of its path.
    pub name: String,
    pub is_dir: bool,
}

/// What tidying does to one entry.
#[derive(Debug)]
pub enum CleanAction {
    /// The entry stays as it is.
    Keep,
    /// The entry is removed, with all below it if it is a directory.
    Remove,
    /// The entry gets this name.
    Rename(String),
}

/// What tidying does to an entry of the given name: it is removed where
/// the name holds a filter; else, where lower case is forced and the name
/// is not in lower case, it is renamed to its lower case.
pub open spec fn clean_action(
    name: Seq<char>,
    force_lowercase: bool,
    filters: Seq<Seq<char>>,
) -> Option<Option<Seq<char>>> {
    if is_filtered(name, filters) {
        Some(None)
    } else if force_lowercase && lowercase_of(name) != name {
        Some(Some(lowercase_of(name)))
    } else {
        None
    }
}

/// What an action says: nothing for keeping, an empty option for
/// removing, the new name for renaming.
pub open spec fn action_view(a: CleanAction) -> Option<Option<Seq<char>>> {
    match a {
        CleanAction::Keep => None,
        CleanAction::Remove => Some(None),
        CleanAction::Rename(n) => Some(Some(n@)),
    }
}

/// What the filters say, one by one.
pub open spec fn filters_view(filters: Seq<String>) -> Seq<Seq<char>> {
    Seq::new(filters.len(), |i: int| filters[i]@)
}

fn matches_filter(name: &Vec<char>, filters: &Vec<String>) -> (b: bool)
    ensures
        b == is_filtered(name@, filters_view(filters@)),
{
    let mut k: usize = 0;
    while k < filters.len()
        invariant
            k <= filters.len(),
            forall|j: int| 0 <= j < k ==> !contains_text(name@, #[trigger] filters_view(filters@)[j]),
        decreases filters.len() - k,
    {
        let f = chars_of(filters[k].as_str());
        assert(f@ == filters_view(filters@)[k as int]);
        if has_text(name, &f) {
            return true;
        }
        k += 1;
    }
    false
}

/// What tidying does to each entry of a directory tree, entry by entry.
/// The caller walks the tree and then removes and renames as told.
pub fn clean_directory(entries: &Vec<DirEntry>, force_lowercase: bool, filters: &Vec<String>) -> (plan:
    Vec<CleanAction>)
    ensures
        plan@.len() == entries@.len(),
        forall|i: int|
            0 <= i < entries@.len() ==> action_view(#[trigger] plan@[i]) == clean_action(
                entries@[i].name@,
                force_lowercase,
                filters_view(filters@),
            ),
{
    let mut plan: Vec<CleanAction> = Vec::new();
    let mut i: usize = 0;
    while i < entries.len()
        invariant
            i <= entries.len(),
            plan@.len() == i,
            forall|k: int|
                0 <= k < i ==> action_view(#[trigger] plan@[k]) == clean_action(
                    entries@[k].name@,
                    force_lowercase,
                    filters_view(filters@),
                ),
        decreases entries.len() - i,
    {
        let name = chars_of(entries[i].name.as_str());
        let action = if matches_filter(&name, filters) {
            CleanAction::Remove
        } else if force_lowercase {
            let lower = lowercase(entries[i].name.as_str());
            let lower_chars = chars_of(lower.as_str());
            if same_text(&lower_chars, &name) {
                CleanAction::Keep
            } else {
                CleanAction::Rename(lower)
            }
        } else {
            CleanAction::Keep
        };
        let ghost before = plan@;
        plan.push(action);
        assert forall|k: int| 0 <= k < i + 1 implies action_view(#[trigger] plan@[k])
            == clean_action(entries@[k].name@, force_lowercase, filters_view(filters@)) by {
            if k < i {
                assert(plan@[k] == before[k]);
            }
        }
        i += 1;
    }
    plan
}

/// Whether a mod of this name is in the list.
pub open spec fn has_mod(mods: Seq<Mod>, name: Seq<char>) -> bool {
    exists|i: int| 0 <= i < mods.len() && (#[trigger] mods[i]).mod_name@ == name
}

/// Whether a fresh list of mods differs from the current one: it has
/// another length, or a mod whose name the current list does not hold.
pub open spec fn mods_changed(current: Seq<Mod>, fresh: Seq<Mod>) -> bool {
    fresh.len() != current.len() || exists|i: int|
        0 <= i < fresh.len() && !has_mod(current, (#[trigger] fresh[i]).mod_name@)
}

fn holds_mod(mods: &Vec<Mod>, name: &String) -> (b: bool)
    ensures
        b == has_mod(mods@, name@),
{
    let mut i: usize = 0;
    while i < mods.len()
        invariant
            i <= mods.len(),
            forall|k: int| 0 <= k < i ==> (#[trigger] mods@[k]).mod_name@ != name@,
        decreases mods.len() - i,
    {
        if mods[i].mod_name == *name {
            return true;
        }
        i += 1;
    }
    false
}

/// Whether a fresh list of mods differs from the current one.
pub fn check_for_changes(current_mods: &Vec<Mod>, new_mods: &Vec<Mod>) -> (changed: bool)
    ensures
        changed == mods_changed(current_mods@, new_mods@),
{
    if new_mods.len() != current_mods.len() {
        return true;
    }
    let mut i: usize = 0;
    while i < new_mods.len()
        invariant
            i <= new_mods.len(),
            new_mods.len() == current_mods.len(),
            forall|k: int|
                0 <= k < i ==> has_mod(current_mods@, (#[trigger] new_mods@[k]).mod_name@),
        decreases new_mods.len() - i,
    {
        if !holds_mod(current_mods, &new_mods[i].mod_name) {
            return true;
        }
        i += 1;
    }
    false
}

/// Takes the fresh list as the required mods of the repository.
pub fn update_mods_list(repo: &mut Repository, new_mods: Vec<Mod>)
    ensures
        final(repo).required_mods == new_mods,
        final(repo).optional_mods == old(repo).optional_mods,
        final(repo).repo_name == old(repo).repo_name,
        final(repo).checksum == old(repo).checksum,
        final(repo).client_parameters == old(repo).client_parameters,
        final(repo).repo_basic_authentication == old(repo).repo_basic_authentication,
        final(repo).version == old(repo).version,
        final(repo).servers == old(repo).servers,
{
    repo.required_mods = new_mods;
}

} // verus!
