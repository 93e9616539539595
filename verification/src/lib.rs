//! Synchronises a local tree of game mods with a remote repository.
//!
//! The library holds the rules: digests, manifests, the two levels of
//! diff, the cache, and what the downloader and the sync decide. Reading
//! and writing files and talking to the remote are left to the caller.

pub mod commands;
pub mod config;
pub mod gui;
pub mod legacy_laws;
pub mod legacy_srf;
pub mod md5_digest;
pub mod mod_cache;
pub mod repository;
pub mod srf;
pub mod srf_json;
pub mod srf_laws;
pub mod srf_parse;
pub mod text;

use vstd::prelude::*;
use crate::text::push_text;

verus! {

/// What the tool reports when a command fails.
#[derive(Debug)]
pub enum NimbleError {
    PathNotFound(String),
    NetworkError(String),
    LaunchError(String),
    Other(String),
}

impl NimbleError {
    /// The line that the tool prints for this error.
    pub open spec fn message(&self) -> Seq<char> {
        match self {
            NimbleError::PathNotFound(path) => "Path not found: "@ + path@,
            NimbleError::NetworkError(msg) => "Network error: "@ + msg@,
            NimbleError::LaunchError(msg) => "Launch error: "@ + msg@,
            NimbleError::Other(msg) => msg@,
        }
    }

    /// The line that the tool prints for this error.
    pub fn to_string(&self) -> (s: String)
        ensures
            s@ == self.message(),
    {
        let mut s = String::new();
        match self {
            NimbleError::PathNotFound(path) => {
                push_text(&mut s, "Path not found: ");
                push_text(&mut s, path.as_str());
            },
            NimbleError::NetworkError(msg) => {
                push_text(&mut s, "Network error: ");
                push_text(&mut s, msg.as_str());
            },
            NimbleError::LaunchError(msg) => {
                push_text(&mut s, "Launch error: ");
                push_text(&mut s, msg.as_str());
            },
            NimbleError::Other(msg) => {
                push_text(&mut s, msg.as_str());
            },
        }
        assert(s@ == self.message()) by {
            assert(Seq::<char>::empty() + "Path not found: "@ == "Path not found: "@);
            assert(Seq::<char>::empty() + "Network error: "@ == "Network error: "@);
            assert(Seq::<char>::empty() + "Launch error: "@ == "Launch error: "@);
            if let NimbleError::Other(msg) = self {
                assert(Seq::<char>::empty() + msg@ == msg@);
            }
        }
        s
    }
}

/// A command of the tool.
#[derive(Debug)]
pub enum Commands {
    /// Bring the mods under `path` to the state of the repository.
    Sync { repo_url: String, path: String, dry_run: bool, force: bool, threads: Option<usize> },
    /// Generate the manifests of the mods under `path`.
    GenSrf { path: String, output: Option<String> },
    /// Start the game with the mods under `path`.
    Launch { path: String, params: Option<String> },
}

/// The arguments of one run of the tool.
#[derive(Debug)]
pub struct Args {
    pub command: Commands,
}

/// How a run of the tool ended.
#[derive(Clone, Copy, Debug, PartialEq, Eq, Structural)]
pub enum RunEnd {
    Success,
    Failure,
    Cancelled,
}

/// The exit code of the tool: 0 on success, 1 on any error, 2 when the
/// user cancelled.
pub fn exit_code(end: RunEnd) -> (code: i32)
    ensures
        code == match end {
            RunEnd::Success => 0i32,
            RunEnd::Failure => 1i32,
            RunEnd::Cancelled => 2i32,
        },
{
    match end {
        RunEnd::Success => 0,
        RunEnd::Failure => 1,
        RunEnd::Cancelled => 2,
    }
}

} // verus!
