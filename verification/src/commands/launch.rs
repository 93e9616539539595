//! The command line with which the game is started, and the address that
//! hands it to the launcher.

use vstd::prelude::*;
use crate::commands::diff::{find_last, keys_view, last_with_key};
use crate::mod_cache::ModCache;
use crate::text::{
    chars_of, push_char, push_text, slashed, string_of, to_slashed, trim, trimmed, utf8,
};

verus! {

/// Why the game cannot be launched from a base directory.
#[derive(Clone, Copy, Debug, PartialEq, Eq, Structural)]
pub enum Error {
    /// No part of the base path is named `drive_c`.
    FailedToFindDriveC,
}

/// The path of a mod below the base directory, with forward slashes.
pub open spec fn mod_path(base: Seq<char>, name: Seq<char>) -> Seq<char> {
    if base.len() == 0 || base.last() == '/' || base.last() == '\\' {
        slashed(base + name)
    } else {
        slashed(base + seq!['/'] + name)
    }
}

/// The paths of the mods, each followed by a semicolon.
pub open spec fn mod_paths(base: Seq<char>, names: Seq<Seq<char>>) -> Seq<char>
    decreases names.len(),
{
    if names.len() == 0 {
        Seq::empty()
    } else {
        mod_paths(base, names.drop_last()) + mod_path(base, names.last()) + seq![';']
    }
}

/// The command line of the game: the launcher is switched off, the
/// trimmed launch parameters follow if there are any, then the mods.
pub open spec fn mod_args(base: Seq<char>, names: Seq<Seq<char>>, params: Option<Seq<char>>) -> Seq<
    char,
> {
    let head = match params {
        Some(p) => "-noLauncher "@ + trimmed(p),
        None => "-noLauncher"@,
    };
    if mod_paths(base, names).len() == 0 {
        head
    } else {
        head + " -mod="@ + mod_paths(base, names)
    }
}

/// What a list of names says, name by name.
pub open spec fn names_view(names: Seq<String>) -> Seq<Seq<char>> {
    Seq::new(names.len(), |i: int| names[i]@)
}

pub(crate) fn push_mod_path(out: &mut String, base: &Vec<char>, name: &str)
    ensures
        final(out)@ == old(out)@ + mod_path(base@, name@),
{
    let mut joined: Vec<char> = Vec::new();
    let mut i: usize = 0;
    while i < base.len()
        invariant
            i <= base.len(),
            joined@ == base@.take(i as int),
        decreases base.len() - i,
    {
        joined.push(base[i]);
        assert(base@.take(i + 1) == base@.take(i as int).push(base@[i as int]));
        i += 1;
    }
    assert(base@.take(base.len() as int) == base@);
    if !(base.len() == 0 || base[base.len() - 1] == '/' || base[base.len() - 1] == '\\') {
        joined.push('/');
    }
    let mut tail = chars_of(name);
    joined.append(&mut tail);
    let whole = string_of(&joined);
    let path = to_slashed(whole.as_str());
    push_text(out, path.as_str());
}

/// The command line of the game for the mods of the given names under the
/// base directory.
pub fn mod_args_for(base_path: &str, names: &Vec<String>, launch_params: Option<&str>) -> (args:
    String)
    ensures
        args@ == mod_args(
            base_path@,
            names_view(names@),
            match launch_params {
                Some(p) => Some(p@),
                None => None,
            },
        ),
{
    let base = chars_of(base_path);
    let mut args = String::new();
    push_text(&mut args, "-noLauncher");
    match launch_params {
        Some(p) => {
            push_char(&mut args, ' ');
            push_text(&mut args, trim(p));
            proof {
                reveal_strlit("-noLauncher");
                reveal_strlit("-noLauncher ");
                assert("-noLauncher"@.push(' ') == "-noLauncher "@);
            }
        },
        None => {},
    }
    let ghost head = args@;
    assert(head == match launch_params {
        Some(p) => "-noLauncher "@ + trimmed(p@),
        None => "-noLauncher"@,
    }) by {
        assert(Seq::<char>::empty() + "-noLauncher"@ == "-noLauncher"@);
    }
    let mut paths = String::new();
    let ghost all = names_view(names@);
    let mut i: usize = 0;
    assert(mod_paths(base@, all.take(0)) == Seq::<char>::empty());
    while i < names.len()
        invariant
            i <= names.len(),
            base@ == base_path@,
            all == names_view(names@),
            paths@ == mod_paths(base@, all.take(i as int)),
        decreases names.len() - i,
    {
        assert(all.take(i + 1).drop_last() == all.take(i as int));
        assert(all.take(i + 1).last() == names@[i as int]@);
        push_mod_path(&mut paths, &base, names[i].as_str());
        push_char(&mut paths, ';');
        i += 1;
    }
    assert(all.take(names.len() as int) == all);
    if !paths.as_str().is_empty() {
        push_text(&mut args, " -mod=");
        push_text(&mut args, paths.as_str());
    }
    args
}

/// The command line of the game for the mods that the cache records. The
/// mods stand in the order in which the cache hands them out: the command
/// line is that of a list that names each recorded mod once.
pub fn generate_mod_args(base_path: &str, mod_cache: &ModCache, launch_params: Option<&str>) -> (args:
    String)
    ensures
        exists|keys: Seq<u128>, names: Seq<Seq<char>>|
            {
                &&& mod_cache.lists(keys, names)
                &&& args@ == mod_args(
                    base_path@,
                    names,
                    match launch_params {
                        Some(p) => Some(p@),
                        None => None,
                    },
                )
            },
{
    let names = mod_cache.mod_names();
    let args = mod_args_for(base_path, &names, launch_params);
    proof {
        let keys = choose|keys: Seq<u128>| mod_cache.lists(keys, names_view(names@));
        assert(mod_cache.lists(keys, names_view(names@)));
    }
    args
}

/// The name of the directory that stands for drive C.
pub open spec fn drive_c() -> Seq<char> {
    seq!['d', 'r', 'i', 'v', 'e', '_', 'c']
}

/// The place of the slash that ends the part of a path at `from`, or the
/// end of the path.
pub open spec fn part_end(s: Seq<char>, from: int) -> int
    decreases s.len() - from,
{
    if 0 <= from < s.len() && s[from] != '/' {
        part_end(s, from + 1)
    } else {
        from
    }
}

/// Whether a part of a path counts: it is not empty, and it is not a
/// single dot after other parts.
pub open spec fn part_counts(part: Seq<char>, before: int) -> bool {
    part.len() > 0 && !(part == seq!['.'] && before > 0)
}

/// The parts of a path from `from` on, after those in `found`.
pub open spec fn parts_from(s: Seq<char>, from: int, found: Seq<Seq<char>>) -> Seq<Seq<char>>
    decreases s.len() - from,
{
    if from < 0 || from >= s.len() {
        found
    } else {
        let end = part_end(s, from);
        let part = s.subrange(from, end);
        let here = if part_counts(part, found.len() as int) {
            found.push(part)
        } else {
            found
        };
        if from < end + 1 <= s.len() {
            parts_from(s, end + 1, here)
        } else {
            here
        }
    }
}

/// The parts of a path: what stands between its slashes.
pub open spec fn path_parts(s: Seq<char>) -> Seq<Seq<char>> {
    parts_from(s, 0, Seq::empty())
}

/// Parts put together with slashes between them.
pub open spec fn joined(parts: Seq<Seq<char>>) -> Seq<char>
    decreases parts.len(),
{
    if parts.len() == 0 {
        Seq::empty()
    } else if parts.len() == 1 {
        parts[0]
    } else {
        joined(parts.drop_last()) + seq!['/'] + parts.last()
    }
}

/// The path under which the game sees a host path: what follows the last
/// part named `drive_c`, on drive C.
pub open spec fn proton_path(host: Seq<char>) -> Option<Seq<char>> {
    match last_with_key(path_parts(host), drive_c()) {
        Some(i) => Some(seq!['c', ':', '/'] + joined(path_parts(host).skip(i + 1))),
        None => None,
    }
}

pub(crate) fn split_path(s: &Vec<char>) -> (parts: Vec<Vec<char>>)
    ensures
        keys_view(parts@) == path_parts(s@),
{
    let mut parts: Vec<Vec<char>> = Vec::new();
    assert(keys_view(parts@) == Seq::<Seq<char>>::empty());
    let mut from: usize = 0;
    while from < s.len()
        invariant
            from <= s.len(),
            path_parts(s@) == parts_from(s@, from as int, keys_view(parts@)),
        decreases s.len() - from,
    {
        let mut end: usize = from;
        let mut part: Vec<char> = Vec::new();
        while end < s.len() && s[end] != '/'
            invariant
                from <= end <= s.len(),
                part_end(s@, from as int) == part_end(s@, end as int),
                part@ == s@.subrange(from as int, end as int),
            decreases s.len() - end,
        {
            part.push(s[end]);
            assert(s@.subrange(from as int, end + 1) == s@.subrange(from as int, end as int).push(
                s@[end as int],
            ));
            end += 1;
        }
        let is_dot = part.len() == 1 && part[0] == '.';
        assert(is_dot == (part@ == seq!['.'])) by {
            if is_dot {
                assert(part@ =~= seq!['.']);
            } else if part@ == seq!['.'] {
                assert(part@.len() == 1 && part@[0] == '.');
            }
        }
        if part.len() > 0 && !(is_dot && parts.len() > 0) {
            let ghost before = keys_view(parts@);
            let ghost added = part@;
            parts.push(part);
            assert(keys_view(parts@) == before.push(added));
        }
        if end == s.len() {
            return parts;
        }
        from = end + 1;
    }
    parts
}

/// The path under which the game, running under Proton, sees the host's
/// base directory.
pub fn convert_host_base_path_to_proton_base_path(host_base_path: &str) -> (r: Result<
    String,
    Error,
>)
    ensures
        match r {
            Ok(p) => proton_path(host_base_path@) == Some(p@),
            Err(e) => proton_path(host_base_path@) is None && e == Error::FailedToFindDriveC,
        },
{
    let s = chars_of(host_base_path);
    let parts = split_path(&s);
    let name: Vec<char> = vec!['d', 'r', 'i', 'v', 'e', '_', 'c'];
    assert(name@ == drive_c());
    let at = match find_last(&parts, &name) {
        Some(i) => i,
        None => {
            return Err(Error::FailedToFindDriveC);
        },
    };
    let mut out: Vec<char> = vec!['c', ':', '/'];
    let ghost rest = keys_view(parts@).skip(at + 1);
    let mut k: usize = at + 1;
    assert(rest.take(0) == Seq::<Seq<char>>::empty());
    while k < parts.len()
        invariant
            at + 1 <= k <= parts.len(),
            rest == keys_view(parts@).skip(at + 1),
            out@ == seq!['c', ':', '/'] + joined(rest.take(k - at - 1)),
        decreases parts.len() - k,
    {
        let ghost before = out@;
        if k > at + 1 {
            out.push('/');
        }
        let mut j: usize = 0;
        let ghost mid = out@;
        let part_len = parts[k].len();
        while j < part_len
            invariant
                k < parts.len(),
                part_len == parts[k as int].len(),
                j <= part_len,
                out@ == mid + parts[k as int]@.take(j as int),
            decreases part_len - j,
        {
            out.push(parts[k][j]);
            assert(parts[k as int]@.take(j + 1) == parts[k as int]@.take(j as int).push(
                parts[k as int]@[j as int],
            ));
            j += 1;
        }
        proof {
            let part = parts[k as int]@;
            assert(part.take(part.len() as int) == part);
            let next = rest.take(k + 1 - at - 1);
            assert(next.drop_last() == rest.take(k - at - 1));
            assert(next.last() == part);
            if k == at + 1 {
                assert(next[0] == part);
                assert(joined(rest.take(0)) == Seq::<char>::empty());
                assert(out@ == seq!['c', ':', '/'] + joined(next));
            } else {
                assert(out@ == seq!['c', ':', '/'] + (joined(rest.take(k - at - 1)) + seq!['/']
                    + part));
            }
        }
        k += 1;
    }
    assert(rest.take(parts.len() - at - 1) == rest);
    Ok(string_of(&out))
}

/// The base path that the game sees: on Windows the host's own path, else
/// the path under Proton.
pub fn game_base_path(host_base_path: &str, windows: bool) -> (r: Result<String, Error>)
    ensures
        windows ==> (r matches Ok(p) && p@ == host_base_path@),
        !windows ==> match r {
            Ok(p) => proton_path(host_base_path@) == Some(p@),
            Err(e) => proton_path(host_base_path@) is None && e == Error::FailedToFindDriveC,
        },
{
    if windows {
        Ok(host_base_path.to_owned())
    } else {
        convert_host_base_path_to_proton_base_path(host_base_path)
    }
}

/// The upper-case hexadecimal character for a value below 16.
pub open spec fn upper_hex(n: nat) -> char {
    if n < 10 {
        ((48 + n) as u8) as char
    } else {
        ((55 + n) as u8) as char
    }
}

/// Calls `percent_encode_byte` of the percent-encoding crate: a percent
/// sign and the two upper-case hexadecimal digits of the byte.
#[verifier::external_body]
fn encode_byte(byte: u8) -> (r: &'static str)
    ensures
        r@ == seq!['%', upper_hex(byte as nat / 16), upper_hex(byte as nat % 16)],
{
    percent_encoding::percent_encode_byte(byte)
}

/// Whether a byte of the command line is percent-encoded in the launch
/// address: controls, bytes outside ASCII, and the characters that the
/// launcher does not take as they are.
pub open spec fn is_encoded(b: u8) -> bool {
    ||| b < 0x20
    ||| b >= 0x7f
    ||| b == 0x20
    ||| b == 0x22
    ||| b == 0x25
    ||| b == 0x3c
    ||| b == 0x3e
    ||| b == 0x5c
    ||| b == 0x5e
    ||| b == 0x60
    ||| b == 0x7b
    ||| b == 0x7c
}

/// What stands for one byte of the command line in the launch address.
pub open spec fn encoded_byte(b: u8) -> Seq<char> {
    if is_encoded(b) {
        seq!['%', upper_hex(b as nat / 16), upper_hex(b as nat % 16)]
    } else {
        seq![b as char]
    }
}

/// What stands for the bytes of the command line in the launch address.
pub open spec fn encoded(bytes: Seq<u8>) -> Seq<char>
    decreases bytes.len(),
{
    if bytes.len() == 0 {
        Seq::empty()
    } else {
        encoded(bytes.drop_last()) + encoded_byte(bytes.last())
    }
}

/// The address that starts the game with the given command line.
pub open spec fn steam_url(cmdline: Seq<char>) -> Seq<char> {
    "steam://run/107410//"@ + encoded(utf8(cmdline)) + seq!['/']
}

fn must_encode(b: u8) -> (r: bool)
    ensures
        r == is_encoded(b),
{
    b < 0x20 || b >= 0x7f || b == 0x20 || b == 0x22 || b == 0x25 || b == 0x3c || b == 0x3e || b
        == 0x5c || b == 0x5e || b == 0x60 || b == 0x7b || b == 0x7c
}

fn push_encoded(out: &mut String, b: u8)
    ensures
        final(out)@ == old(out)@ + encoded_byte(b),
{
    if must_encode(b) {
        push_text(out, encode_byte(b));
    } else {
        push_char(out, b as char);
        assert(out@ == old(out)@ + seq![b as char]);
    }
}

/// The address that, handed to the system, starts the game with the given
/// command line.
pub fn launch_url(cmdline: &str) -> (url: String)
    ensures
        url@ == steam_url(cmdline@),
{
    let bytes = cmdline.as_bytes();
    let mut url = String::new();
    push_text(&mut url, "steam://run/107410//");
    let ghost head = url@;
    assert(head == "steam://run/107410//"@) by {
        assert(Seq::<char>::empty() + "steam://run/107410//"@ == "steam://run/107410//"@);
    }
    let mut i: usize = 0;
    assert(head + encoded(bytes@.take(0)) == head);
    while i < bytes.len()
        invariant
            i <= bytes.len(),
            bytes@ == utf8(cmdline@),
            url@ == head + encoded(bytes@.take(i as int)),
        decreases bytes.len() - i,
    {
        assert(bytes@.take(i + 1).drop_last() == bytes@.take(i as int));
        assert(bytes@.take(i + 1).last() == bytes@[i as int]);
        push_encoded(&mut url, bytes[i]);
        assert(head + encoded(bytes@.take(i as int)) + encoded_byte(bytes@[i as int]) == head
            + encoded(bytes@.take(i + 1)));
        i += 1;
    }
    assert(bytes@.take(bytes.len() as int) == bytes@);
    push_char(&mut url, '/');
    url
}

} // verus!
