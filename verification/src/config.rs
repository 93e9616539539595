//! The settings of the command-line tool.

use vstd::prelude::*;

verus! {

/// Where the tool syncs from and to.
#[derive(Debug)]
pub struct Config {
    pub repo_url: String,
    pub local_path: String,
}

/// The repository that a fresh configuration points to.
pub open spec fn default_repo_url() -> Seq<char> {
    "http://swifty.peanutcommunityarma.com/"@
}

impl Default for Config {
    fn default() -> (c: Config)
        ensures
            c.repo_url@ == default_repo_url(),
            c.local_path@ == Seq::<char>::empty(),
    {
        Config {
            repo_url: "http://swifty.peanutcommunityarma.com/".to_owned(),
            local_path: String::new(),
        }
    }
}

} // verus!
