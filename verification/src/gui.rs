//! The state behind the graphical shell: what the panels hold and how it
//! changes, without any drawing.

pub mod create_repo;
pub mod panels;
pub mod widgets;

use vstd::prelude::*;

verus! {

/// The tab that the window shows.
#[derive(Clone, Copy, Debug, PartialEq, Eq, Structural)]
pub enum Tab {
    Server,
    CreateRepo,
}

impl Default for Tab {
    fn default() -> (t: Tab)
        ensures
            t == Tab::Server,
    {
        Tab::Server
    }
}

} // verus!
