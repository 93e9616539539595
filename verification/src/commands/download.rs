//! What the downloader decides: how many workers run, what a task does
//! next, and how a batch of tasks ends. Fetching and writing are left to
//! the caller.

use vstd::prelude::*;
use crate::commands::types::{downloads_view, DownloadCommand, DownloadModel};

verus! {

/// Why a download did not end well.
#[derive(Debug)]
pub enum Error {
    /// A file could not be written or placed.
    Io { message: String },
    /// The transport failed, or the remote did not answer with success.
    Http { url: String, message: String },
    /// The user asked to stop.
    Cancelled,
}

/// The workers that run when the caller asks for no number.
pub const DEFAULT_WORKERS: usize = 4;

/// The most workers that run.
pub const MAX_WORKERS: usize = 32;

/// The workers that run for a request: four when none is asked for, else
/// what is asked, but at least one and at most 32.
pub fn worker_count(requested: Option<usize>) -> (n: usize)
    ensures
        1 <= n <= MAX_WORKERS,
        n == match requested {
            None => DEFAULT_WORKERS,
            Some(k) => if k < 1 {
                1
            } else if k > MAX_WORKERS {
                MAX_WORKERS
            } else {
                k
            },
        },
{
    match requested {
        None => DEFAULT_WORKERS,
        Some(k) => if k < 1 {
            1
        } else if k > MAX_WORKERS {
            MAX_WORKERS
        } else {
            k
        },
    }
}

/// The tasks that wait in the queue at most: two for each worker, or the
/// largest number where that does not fit.
pub fn queue_capacity(workers: usize) -> (n: usize)
    ensures
        n == if 2 * workers > usize::MAX {
            usize::MAX as int
        } else {
            2 * workers
        },
{
    if workers > usize::MAX / 2 {
        usize::MAX
    } else {
        2 * workers
    }
}

/// The bytes that a task asks for; none where its end lies before its
/// begin.
pub open spec fn task_bytes(c: DownloadModel) -> nat {
    if c.end >= c.begin {
        (c.end - c.begin) as nat
    } else {
        0
    }
}

/// The bytes that the tasks ask for in all.
pub open spec fn batch_bytes(commands: Seq<DownloadModel>) -> nat
    decreases commands.len(),
{
    if commands.len() == 0 {
        0
    } else {
        batch_bytes(commands.drop_last()) + task_bytes(commands.last())
    }
}

/// The bytes that the tasks ask for in all, or the largest number where
/// the sum does not fit.
pub fn total_bytes(commands: &Vec<DownloadCommand>) -> (total: u64)
    ensures
        total == if batch_bytes(downloads_view(commands@)) > u64::MAX {
            u64::MAX as nat
        } else {
            batch_bytes(downloads_view(commands@))
        },
{
    let ghost all = downloads_view(commands@);
    let mut total: u64 = 0;
    let mut i: usize = 0;
    while i < commands.len()
        invariant
            i <= commands.len(),
            all == downloads_view(commands@),
            total == if batch_bytes(all.take(i as int)) > u64::MAX {
                u64::MAX as nat
            } else {
                batch_bytes(all.take(i as int))
            },
        decreases commands.len() - i,
    {
        assert(all.take(i + 1).drop_last() == all.take(i as int));
        assert(all.take(i + 1).last() == commands@[i as int]@);
        let c = &commands[i];
        let size: u64 = if c.end >= c.begin {
            c.end - c.begin
        } else {
            0
        };
        total = if size > u64::MAX - total {
            u64::MAX
        } else {
            total + size
        };
        i += 1;
    }
    assert(all.take(commands.len() as int) == all);
    total
}

/// How far a batch has come, for the caller's progress sink.
#[derive(Clone, Debug)]
pub struct Progress {
    /// The file whose bytes came last.
    pub file: String,
    pub bytes_done: u64,
    pub bytes_total: u64,
    pub files_done: usize,
    pub files_total: usize,
}

impl Progress {
    /// The progress of a batch before its first byte.
    pub fn start(bytes_total: u64, files_total: usize) -> (p: Progress)
        ensures
            p.file@ == Seq::<char>::empty(),
            p.bytes_done == 0,
            p.bytes_total == bytes_total,
            p.files_done == 0,
            p.files_total == files_total,
    {
        Progress { file: String::new(), bytes_done: 0, bytes_total, files_done: 0, files_total }
    }

    /// Counts a chunk of `len` bytes of `file`.
    pub fn add_chunk(&mut self, file: &str, len: u64)
        ensures
            final(self).file@ == file@,
            final(self).bytes_done == if old(self).bytes_done + len > u64::MAX {
                u64::MAX as int
            } else {
                old(self).bytes_done + len
            },
            final(self).bytes_total == old(self).bytes_total,
            final(self).files_done == old(self).files_done,
            final(self).files_total == old(self).files_total,
    {
        self.file = file.to_owned();
        self.bytes_done = if len > u64::MAX - self.bytes_done {
            u64::MAX
        } else {
            self.bytes_done + len
        };
    }

    /// Counts a file as complete.
    pub fn add_file(&mut self)
        ensures
            final(self).files_done == if old(self).files_done < usize::MAX {
                old(self).files_done + 1
            } else {
                usize::MAX as int
            },
            final(self).file == old(self).file,
            final(self).bytes_done == old(self).bytes_done,
            final(self).bytes_total == old(self).bytes_total,
            final(self).files_total == old(self).files_total,
    {
        if self.files_done < usize::MAX {
            self.files_done = self.files_done + 1;
        }
    }
}

/// Where a task stands.
#[derive(Clone, Copy, Debug, PartialEq, Eq, Structural)]
pub enum TaskState {
    /// Waiting in the queue.
    Queued,
    /// Drawn from the queue; its temporary file is being opened.
    Staging,
    /// The temporary file is open; the request is on its way.
    Requesting,
    /// The body is arriving in the temporary file.
    Receiving,
    /// The body is complete; the file is being put in its place.
    Placing,
    /// The file is in its place.
    Done,
    /// Abandoned because the user asked to stop.
    Cancelled,
    /// Abandoned because of a failure.
    Failed,
}

/// What happened to a task.
#[derive(Clone, Copy, Debug, PartialEq, Eq, Structural)]
pub enum TaskEvent {
    /// A worker drew the task from the queue.
    Dequeued { cancelled: bool },
    /// The temporary file is open.
    TempOpened,
    /// The remote answered with success.
    ResponseOpened,
    /// A chunk of the body was read.
    Chunk { cancelled: bool },
    /// The body ended.
    EndOfBody,
    /// The file was moved to its place.
    Placed,
    /// The file system or the transport failed.
    Failure,
}

/// What the worker does next for a task.
#[derive(Clone, Copy, Debug, PartialEq, Eq, Structural)]
pub enum TaskAction {
    /// Open a temporary file on the file system of the destination.
    OpenTemp,
    /// Send the request for the file.
    SendRequest,
    /// Read the next chunk of the body.
    ReadChunk,
    /// Write the chunk to the temporary file, count it, report progress,
    /// then read the next.
    WriteChunk,
    /// Flush and close the temporary file, create the directory of the
    /// destination and move the file there.
    Place,
    /// Close and delete the temporary file, then report the task.
    DeleteTemp,
    /// Report the task; there is no temporary file.
    Report,
    /// The event does not belong to the state: nothing to do.
    Ignore,
}

/// Whether a task in this state owns a temporary file.
pub open spec fn holds_temp(state: TaskState) -> bool {
    state == TaskState::Requesting || state == TaskState::Receiving || state == TaskState::Placing
}

/// Whether a task in this state has ended.
pub open spec fn settled(state: TaskState) -> bool {
    state == TaskState::Done || state == TaskState::Cancelled || state == TaskState::Failed
}

/// The state a task goes to on an event, and what the worker does.
pub open spec fn task_transition(state: TaskState, event: TaskEvent) -> (TaskState, TaskAction) {
    match (state, event) {
        (TaskState::Queued, TaskEvent::Dequeued { cancelled }) => if cancelled {
            (TaskState::Cancelled, TaskAction::Report)
        } else {
            (TaskState::Staging, TaskAction::OpenTemp)
        },
        (TaskState::Staging, TaskEvent::TempOpened) => (
            TaskState::Requesting,
            TaskAction::SendRequest,
        ),
        (TaskState::Staging, TaskEvent::Failure) => (TaskState::Failed, TaskAction::Report),
        (TaskState::Requesting, TaskEvent::ResponseOpened) => (
            TaskState::Receiving,
            TaskAction::ReadChunk,
        ),
        (TaskState::Requesting, TaskEvent::Failure) => (TaskState::Failed, TaskAction::DeleteTemp),
        (TaskState::Receiving, TaskEvent::Chunk { cancelled }) => if cancelled {
            (TaskState::Cancelled, TaskAction::DeleteTemp)
        } else {
            (TaskState::Receiving, TaskAction::WriteChunk)
        },
        (TaskState::Receiving, TaskEvent::EndOfBody) => (TaskState::Placing, TaskAction::Place),
        (TaskState::Receiving, TaskEvent::Failure) => (TaskState::Failed, TaskAction::DeleteTemp),
        (TaskState::Placing, TaskEvent::Placed) => (TaskState::Done, TaskAction::Report),
        (TaskState::Placing, TaskEvent::Failure) => (TaskState::Failed, TaskAction::DeleteTemp),
        _ => (state, TaskAction::Ignore),
    }
}

/// The state a task goes to on an event, and what the worker does.
pub fn task_step(state: TaskState, event: TaskEvent) -> (r: (TaskState, TaskAction))
    ensures
        r == task_transition(state, event),
{
    match (state, event) {
        (TaskState::Queued, TaskEvent::Dequeued { cancelled }) => if cancelled {
            (TaskState::Cancelled, TaskAction::Report)
        } else {
            (TaskState::Staging, TaskAction::OpenTemp)
        },
        (TaskState::Staging, TaskEvent::TempOpened) => (
            TaskState::Requesting,
            TaskAction::SendRequest,
        ),
        (TaskState::Staging, TaskEvent::Failure) => (TaskState::Failed, TaskAction::Report),
        (TaskState::Requesting, TaskEvent::ResponseOpened) => (
            TaskState::Receiving,
            TaskAction::ReadChunk,
        ),
        (TaskState::Requesting, TaskEvent::Failure) => (TaskState::Failed, TaskAction::DeleteTemp),
        (TaskState::Receiving, TaskEvent::Chunk { cancelled }) => if cancelled {
            (TaskState::Cancelled, TaskAction::DeleteTemp)
        } else {
            (TaskState::Receiving, TaskAction::WriteChunk)
        },
        (TaskState::Receiving, TaskEvent::EndOfBody) => (TaskState::Placing, TaskAction::Place),
        (TaskState::Receiving, TaskEvent::Failure) => (TaskState::Failed, TaskAction::DeleteTemp),
        (TaskState::Placing, TaskEvent::Placed) => (TaskState::Done, TaskAction::Report),
        (TaskState::Placing, TaskEvent::Failure) => (TaskState::Failed, TaskAction::DeleteTemp),
        _ => (state, TaskAction::Ignore),
    }
}

/// A task that observes a cancellation, at the queue or at a chunk, ends as
/// cancelled, and a task that ends otherwise than by being placed leaves
/// no temporary file: where it owned one, the worker deletes it.
pub proof fn lemma_task_leaves_no_temp(state: TaskState, event: TaskEvent)
    ensures
        state == TaskState::Queued && event == (TaskEvent::Dequeued { cancelled: true })
            ==> task_transition(state, event).0 == TaskState::Cancelled,
        state == TaskState::Receiving && event == (TaskEvent::Chunk { cancelled: true })
            ==> task_transition(state, event) == (TaskState::Cancelled, TaskAction::DeleteTemp),
        !holds_temp(task_transition(state, event).0) && holds_temp(state) ==> {
            ||| task_transition(state, event) == (TaskState::Done, TaskAction::Report)
            ||| task_transition(state, event).1 == TaskAction::DeleteTemp
        },
        task_transition(state, event).0 == TaskState::Done ==> state == TaskState::Placing || state
            == TaskState::Done,
        settled(state) ==> task_transition(state, event) == (state, TaskAction::Ignore),
{
}

/// How a task ended, as the batch sees it.
pub open spec fn is_cancelled(r: Result<(), Error>) -> bool {
    r matches Err(Error::Cancelled)
}

/// The place of the first failed task.
pub open spec fn first_failure(results: Seq<Result<(), Error>>) -> Option<int>
    decreases results.len(),
{
    if results.len() == 0 {
        None
    } else {
        match first_failure(results.drop_last()) {
            Some(i) => Some(i),
            None => if results.last() is Err {
                Some(results.len() - 1)
            } else {
                None
            },
        }
    }
}

/// How a batch ends: as cancelled if any task was cancelled, else with
/// the first failure, else well.
pub open spec fn batch_outcome(results: Seq<Result<(), Error>>) -> Result<(), Error> {
    if exists|i: int| 0 <= i < results.len() && is_cancelled(#[trigger] results[i]) {
        Err(Error::Cancelled)
    } else {
        match first_failure(results) {
            Some(i) => results[i],
            None => Ok(()),
        }
    }
}

/// The result of a batch from the results of its tasks, once all have
/// settled.
pub fn batch_result(results: Vec<Result<(), Error>>) -> (r: Result<(), Error>)
    ensures
        r == batch_outcome(results@),
{
    let ghost all = results@;
    let mut left = results;
    let mut i: usize = 0;
    let mut first: Option<usize> = None;
    assert(all.take(0) =~= Seq::<Result<(), Error>>::empty());
    while i < left.len()
        invariant
            i <= left.len(),
            left@ == all,
            all == results@,
            forall|k: int| 0 <= k < i ==> !is_cancelled(#[trigger] all[k]),
            match first {
                Some(f) => first_failure(all.take(i as int)) == Some(f as int) && f < i,
                None => first_failure(all.take(i as int)) is None,
            },
        decreases left.len() - i,
    {
        assert(all.take(i + 1).drop_last() == all.take(i as int));
        assert(all.take(i + 1).last() == all[i as int]);
        match &left[i] {
            Ok(_) => {},
            Err(Error::Cancelled) => {
                assert(is_cancelled(all[i as int]));
                return Err(Error::Cancelled);
            },
            Err(_) => {
                if first.is_none() {
                    first = Some(i);
                }
            },
        }
        i += 1;
    }
    assert(all.take(left.len() as int) == all);
    match first {
        Some(f) => left.remove(f),
        None => Ok(()),
    }
}

} // verus!
