//! The tasks that a diff gives to the downloader and to the cleaner.

use vstd::prelude::*;

verus! {

/// A file to fetch: its path below the repository and the bytes wanted.
#[derive(Clone, Debug)]
pub struct DownloadCommand {
    pub file: String,
    pub begin: u64,
    pub end: u64,
}

/// What a download task says.
pub struct DownloadModel {
    pub file: Seq<char>,
    pub begin: u64,
    pub end: u64,
}

impl View for DownloadCommand {
    type V = DownloadModel;

    open spec fn view(&self) -> DownloadModel {
        DownloadModel { file: self.file@, begin: self.begin, end: self.end }
    }
}

/// A local file to remove: its path below the mod directory.
#[derive(Clone, Debug)]
pub struct DeleteCommand {
    pub file: String,
}

impl View for DeleteCommand {
    type V = Seq<char>;

    open spec fn view(&self) -> Seq<char> {
        self.file@
    }
}

/// What a list of download tasks says, task by task.
pub open spec fn downloads_view(commands: Seq<DownloadCommand>) -> Seq<DownloadModel> {
    Seq::new(commands.len(), |i: int| commands[i]@)
}

/// What a list of delete tasks says, task by task.
pub open spec fn deletes_view(commands: Seq<DeleteCommand>) -> Seq<Seq<char>> {
    Seq::new(commands.len(), |i: int| commands[i]@)
}

} // verus!
