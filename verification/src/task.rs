//! The work on one image file: its backup in memory, its compression, and its restoration.
//!
//! As in a compression, each step takes what the last action led to and says what to do next.

use crate::cache::ResponseCache;
use crate::client::TinifyClient;
use crate::compress::{Action, Compression, Event, Failure, Step};
use crate::image::ImageResult;
use std::path::PathBuf;
use vstd::prelude::*;

verus! {

/// How far the work on an image file has come.
pub enum Task {
    /// The file is being read for its backup; its contents were loaded before.
    BackingUp { path: PathBuf, data: Vec<u8> },
    /// It is being found out whether there is such a file.
    Probing { path: PathBuf },
    /// The file is being read.
    Loading { path: PathBuf },
    /// The image is being compressed, with what the file is restored from if that fails.
    Compressing { compression: Compression, backup: Option<Vec<u8>> },
    /// The file is being restored after the image could not be compressed.
    Restoring { result: ImageResult },
    /// The file is being restored after the compression came to no result.
    Abandoning { failure: Failure },
}

/// What is to be done next.
pub enum TaskAction {
    /// Read the image's file.
    ReadFile,
    /// Find out whether the image's file is there.
    Probe,
    Compress(Action),
    /// Write the data to the image's file.
    Restore(Vec<u8>),
}

/// What an action led to.
pub enum TaskEvent {
    FileRead(Vec<u8>),
    Probed(bool),
    Compress(Event),
    Restored,
    /// The action failed.
    Failed,
}

/// Why the work on an image file came to no result.
#[derive(Clone, Copy, Debug, PartialEq, Eq, Structural)]
pub enum TaskFailure {
    Backup,
    Read,
    Compress(Failure),
    Restore,
}

/// Where the work on an image file stands after a step.
pub enum TaskStep {
    Do(Task, TaskAction),
    Done(ImageResult),
    Failed(TaskFailure),
}

pub open spec fn missing_message() -> Seq<char> {
    "文件不存在"@
}

/// The compression of loaded data begins.
pub open spec fn begins_compression(
    path: PathBuf,
    data: Seq<u8>,
    backup: Option<Seq<u8>>,
    client: TinifyClient,
    entries: Seq<(Seq<char>, Seq<u8>, u64)>,
    now: u64,
    step: TaskStep,
    entries_after: Seq<(Seq<char>, Seq<u8>, u64)>,
) -> bool {
    &&& step matches TaskStep::Do(Task::Compressing { compression, backup: kept }, TaskAction::Compress(
        action,
    ))
    &&& compression.path == path
    &&& compression.original_size == data.len()
    &&& compression.cache_key@ == crate::cache::key_of(data)
    &&& crate::compress::begins(data, client, entries, now, compression.phase, action)
    &&& match (backup, kept) {
        (Some(b), Some(k)) => k@ == b,
        (None, None) => true,
        _ => false,
    }
    &&& entries_after == crate::cache::touched(entries, crate::cache::key_of(data))
}

/// How the work starts: what was loaded before is compressed, after the file was read once more
/// if there is to be a backup; what was not is looked for.
pub open spec fn starts(
    path: PathBuf,
    preloaded: Option<Vec<u8>>,
    backup: bool,
    client: TinifyClient,
    entries: Seq<(Seq<char>, Seq<u8>, u64)>,
    now: u64,
    step: TaskStep,
    entries_after: Seq<(Seq<char>, Seq<u8>, u64)>,
) -> bool {
    match preloaded {
        Some(data) => if backup {
            &&& step matches TaskStep::Do(Task::BackingUp { path: p, data: d }, TaskAction::ReadFile)
            &&& p == path
            &&& d@ == data@
            &&& entries_after == entries
        } else {
            begins_compression(path, data@, None, client, entries, now, step, entries_after)
        },
        None => {
            &&& step matches TaskStep::Do(Task::Probing { path: p }, TaskAction::Probe)
            &&& p == path
            &&& entries_after == entries
        },
    }
}

/// What a step of the compression means for the file: whether the image could not be compressed or
/// the compression came to no result, the file is restored from its backup if there is one.
pub open spec fn follows(inner: Step, backup: Option<Vec<u8>>, step: TaskStep) -> bool {
    match inner {
        Step::Do(next, action) => step == TaskStep::Do(
            Task::Compressing { compression: next, backup },
            TaskAction::Compress(action),
        ),
        Step::Done(result) => match backup {
            Some(original) if !result.ok => step == TaskStep::Do(
                Task::Restoring { result },
                TaskAction::Restore(original),
            ),
            _ => step == TaskStep::Done(result),
        },
        Step::Failed(failure) => match backup {
            Some(original) => step == TaskStep::Do(
                Task::Abandoning { failure },
                TaskAction::Restore(original),
            ),
            None => step == TaskStep::Failed(TaskFailure::Compress(failure)),
        },
    }
}

/// An event that the work can take as it stands.
pub open spec fn admitted(task: Task, event: TaskEvent, client: TinifyClient) -> bool {
    match (task, event) {
        (Task::BackingUp { .. }, TaskEvent::FileRead(_)) => true,
        (Task::BackingUp { .. }, TaskEvent::Failed) => true,
        (Task::Probing { .. }, TaskEvent::Probed(_)) => true,
        (Task::Loading { .. }, TaskEvent::FileRead(_)) => true,
        (Task::Loading { .. }, TaskEvent::Failed) => true,
        (Task::Compressing { compression, .. }, TaskEvent::Compress(inner)) =>
            crate::compress::admitted(compression, inner, client),
        (Task::Restoring { .. }, TaskEvent::Restored) => true,
        (Task::Restoring { .. }, TaskEvent::Failed) => true,
        (Task::Abandoning { .. }, TaskEvent::Restored) => true,
        (Task::Abandoning { .. }, TaskEvent::Failed) => true,
        _ => false,
    }
}

/// What a step does: what comes next, and what it changes in the client and in the cache.
pub open spec fn steps(
    task: Task,
    event: TaskEvent,
    client: TinifyClient,
    entries: Seq<(Seq<char>, Seq<u8>, u64)>,
    now: u64,
    step: TaskStep,
    after: TinifyClient,
    entries_after: Seq<(Seq<char>, Seq<u8>, u64)>,
) -> bool {
    match (task, event) {
        (Task::BackingUp { path, data }, TaskEvent::FileRead(original)) => {
            &&& begins_compression(
                path,
                data@,
                Some(original@),
                client,
                entries,
                now,
                step,
                entries_after,
            )
            &&& after == client
        },
        (Task::BackingUp { .. }, TaskEvent::Failed) => {
            &&& step == TaskStep::Failed(TaskFailure::Backup)
            &&& after == client
            &&& entries_after == entries
        },
        (Task::Probing { path }, TaskEvent::Probed(found)) => {
            &&& if found {
                step == TaskStep::Do(Task::Loading { path }, TaskAction::ReadFile)
            } else {
                &&& step matches TaskStep::Done(r)
                &&& r.path == path
                &&& !r.ok
                &&& r.msg@ == missing_message()
                &&& r.original_size == 0
                &&& r.compressed_size == 0
            }
            &&& after == client
            &&& entries_after == entries
        },
        (Task::Loading { path }, TaskEvent::FileRead(data)) => {
            &&& begins_compression(path, data@, None, client, entries, now, step, entries_after)
            &&& after == client
        },
        (Task::Loading { .. }, TaskEvent::Failed) => {
            &&& step == TaskStep::Failed(TaskFailure::Read)
            &&& after == client
            &&& entries_after == entries
        },
        (Task::Compressing { compression, backup }, TaskEvent::Compress(inner)) => {
            exists|s: Step| #[trigger]
                crate::compress::steps(
                    compression,
                    inner,
                    client,
                    entries,
                    now,
                    s,
                    after,
                    entries_after,
                ) && follows(s, backup, step)
        },
        (Task::Restoring { result }, TaskEvent::Restored) => {
            &&& step == TaskStep::Done(result)
            &&& after == client
            &&& entries_after == entries
        },
        (Task::Restoring { .. }, TaskEvent::Failed) => {
            &&& step == TaskStep::Failed(TaskFailure::Restore)
            &&& after == client
            &&& entries_after == entries
        },
        (Task::Abandoning { failure }, TaskEvent::Restored) => {
            &&& step == TaskStep::Failed(TaskFailure::Compress(failure))
            &&& after == client
            &&& entries_after == entries
        },
        (Task::Abandoning { .. }, TaskEvent::Failed) => {
            &&& step == TaskStep::Failed(TaskFailure::Restore)
            &&& after == client
            &&& entries_after == entries
        },
        _ => false,
    }
}

impl Task {
    fn compressing(
        path: PathBuf,
        data: Vec<u8>,
        backup: Option<Vec<u8>>,
        client: &TinifyClient,
        cache: &mut ResponseCache,
        now: u64,
    ) -> (step: TaskStep)
        requires
            old(cache).wf(),
        ensures
            final(cache).wf(),
            begins_compression(
                path,
                data@,
                match backup {
                    Some(b) => Some(b@),
                    None => None,
                },
                *client,
                old(cache).entries(),
                now,
                step,
                final(cache).entries(),
            ),
    {
        let original_size = data.len() as u64;
        let (compression, action) = Compression::begin(
            path,
            data,
            original_size,
            client,
            cache,
            now,
        );
        TaskStep::Do(Task::Compressing { compression, backup }, TaskAction::Compress(action))
    }

    /// Starts to work on an image file.
    pub fn start(
        path: PathBuf,
        preloaded: Option<Vec<u8>>,
        backup: bool,
        client: &TinifyClient,
        cache: &mut ResponseCache,
        now: u64,
    ) -> (step: TaskStep)
        requires
            old(cache).wf(),
        ensures
            final(cache).wf(),
            starts(
                path,
                preloaded,
                backup,
                *client,
                old(cache).entries(),
                now,
                step,
                final(cache).entries(),
            ),
    {
        match preloaded {
            Some(data) => {
                if backup {
                    TaskStep::Do(Task::BackingUp { path, data }, TaskAction::ReadFile)
                } else {
                    Task::compressing(path, data, None, client, cache, now)
                }
            },
            None => TaskStep::Do(Task::Probing { path }, TaskAction::Probe),
        }
    }

    /// Tells whether the work can take an event as it stands.
    pub fn admits(&self, event: &TaskEvent, client: &TinifyClient) -> (r: bool)
        ensures
            r == admitted(*self, *event, *client),
    {
        match (self, event) {
            (Task::BackingUp { .. }, TaskEvent::FileRead(_)) => true,
            (Task::BackingUp { .. }, TaskEvent::Failed) => true,
            (Task::Probing { .. }, TaskEvent::Probed(_)) => true,
            (Task::Loading { .. }, TaskEvent::FileRead(_)) => true,
            (Task::Loading { .. }, TaskEvent::Failed) => true,
            (Task::Compressing { compression, .. }, TaskEvent::Compress(inner)) =>
                compression.admits(inner, client),
            (Task::Restoring { .. }, TaskEvent::Restored) => true,
            (Task::Restoring { .. }, TaskEvent::Failed) => true,
            (Task::Abandoning { .. }, TaskEvent::Restored) => true,
            (Task::Abandoning { .. }, TaskEvent::Failed) => true,
            _ => false,
        }
    }

    /// Takes what the last action led to.
    pub fn step(
        self,
        event: TaskEvent,
        client: &mut TinifyClient,
        cache: &mut ResponseCache,
        now: u64,
    ) -> (step: TaskStep)
        requires
            old(cache).wf(),
            admitted(self, event, *old(client)),
        ensures
            final(cache).wf(),
            steps(
                self,
                event,
                *old(client),
                old(cache).entries(),
                now,
                step,
                *final(client),
                final(cache).entries(),
            ),
    {
        match (self, event) {
            (Task::BackingUp { path, data }, TaskEvent::FileRead(original)) => Task::compressing(
                path,
                data,
                Some(original),
                client,
                cache,
                now,
            ),
            (Task::BackingUp { .. }, TaskEvent::Failed) => TaskStep::Failed(TaskFailure::Backup),
            (Task::Probing { path }, TaskEvent::Probed(found)) => {
                if found {
                    TaskStep::Do(Task::Loading { path }, TaskAction::ReadFile)
                } else {
                    TaskStep::Done(ImageResult::new(path, false, "文件不存在".to_owned(), 0, 0))
                }
            },
            (Task::Loading { path }, TaskEvent::FileRead(data)) => Task::compressing(
                path,
                data,
                None,
                client,
                cache,
                now,
            ),
            (Task::Loading { .. }, TaskEvent::Failed) => TaskStep::Failed(TaskFailure::Read),
            (Task::Compressing { compression, backup }, TaskEvent::Compress(inner)) => {
                let done = compression.step(inner, client, cache, now);
                let ghost inner_step = done;
                let step = match done {
                    Step::Do(compression, action) => TaskStep::Do(
                        Task::Compressing { compression, backup },
                        TaskAction::Compress(action),
                    ),
                    Step::Done(result) => match backup {
                        Some(original) => {
                            if result.ok {
                                TaskStep::Done(result)
                            } else {
                                TaskStep::Do(
                                    Task::Restoring { result },
                                    TaskAction::Restore(original),
                                )
                            }
                        },
                        None => TaskStep::Done(result),
                    },
                    Step::Failed(failure) => match backup {
                        Some(original) => TaskStep::Do(
                            Task::Abandoning { failure },
                            TaskAction::Restore(original),
                        ),
                        None => TaskStep::Failed(TaskFailure::Compress(failure)),
                    },
                };
                assert(follows(inner_step, backup, step));
                step
            },
            (Task::Restoring { result }, TaskEvent::Restored) => TaskStep::Done(result),
            (Task::Restoring { .. }, TaskEvent::Failed) => TaskStep::Failed(TaskFailure::Restore),
            (Task::Abandoning { failure }, TaskEvent::Restored) => TaskStep::Failed(
                TaskFailure::Compress(failure),
            ),
            (Task::Abandoning { .. }, TaskEvent::Failed) => TaskStep::Failed(TaskFailure::Restore),
            _ => vstd::pervasive::unreached(),
        }
    }
}

/// With a backup, a compression that failed, with a result or without one, leads to the restoration
/// of the file from the backup, and to nothing else.
pub proof fn law_failed_image_is_restored(
    compression: Compression,
    original: Vec<u8>,
    inner: Event,
    client: TinifyClient,
    entries: Seq<(Seq<char>, Seq<u8>, u64)>,
    now: u64,
    step: TaskStep,
    after: TinifyClient,
    entries_after: Seq<(Seq<char>, Seq<u8>, u64)>,
)
    requires
        steps(
            Task::Compressing { compression, backup: Some(original) },
            TaskEvent::Compress(inner),
            client,
            entries,
            now,
            step,
            after,
            entries_after,
        ),
    ensures
        !(step is Failed),
        step matches TaskStep::Done(r) ==> r.ok,
        step matches TaskStep::Do(Task::Restoring { result }, action) ==> !result.ok
            && action == TaskAction::Restore(original),
        step matches TaskStep::Do(Task::Abandoning { .. }, action) ==> action
            == TaskAction::Restore(original) && after == client && entries_after == entries,
        step matches TaskStep::Do(Task::Compressing { backup, .. }, _) ==> backup == Some(original),
        step matches TaskStep::Do(next, _) ==> next is Restoring || next is Abandoning
            || next is Compressing,
{
}

/// Once the file was restored, the work ends as the compression did: with its failed result, or
/// with what kept it from one.
pub proof fn law_restoration_keeps_the_outcome(
    task: Task,
    client: TinifyClient,
    entries: Seq<(Seq<char>, Seq<u8>, u64)>,
    now: u64,
    step: TaskStep,
    after: TinifyClient,
    entries_after: Seq<(Seq<char>, Seq<u8>, u64)>,
)
    requires
        steps(task, TaskEvent::Restored, client, entries, now, step, after, entries_after),
    ensures
        task matches Task::Restoring { result } ==> step == TaskStep::Done(result),
        task matches Task::Abandoning { failure } ==> step == TaskStep::Failed(
            TaskFailure::Compress(failure),
        ),
        after == client,
        entries_after == entries,
{
}

/// Without a backup nothing is written back.
pub proof fn law_no_backup_no_restoration(
    compression: Compression,
    inner: Event,
    client: TinifyClient,
    entries: Seq<(Seq<char>, Seq<u8>, u64)>,
    now: u64,
    step: TaskStep,
    after: TinifyClient,
    entries_after: Seq<(Seq<char>, Seq<u8>, u64)>,
)
    requires
        steps(
            Task::Compressing { compression, backup: None },
            TaskEvent::Compress(inner),
            client,
            entries,
            now,
            step,
            after,
            entries_after,
        ),
    ensures
        !(step matches TaskStep::Do(_, TaskAction::Restore(_))),
        step matches TaskStep::Do(Task::Compressing { backup, .. }, _) ==> backup is None,
{
}

/// A step that comes to no result leaves the keys and the cache as they are.
pub proof fn law_failure_changes_nothing(
    task: Task,
    event: TaskEvent,
    client: TinifyClient,
    entries: Seq<(Seq<char>, Seq<u8>, u64)>,
    now: u64,
    step: TaskStep,
    after: TinifyClient,
    entries_after: Seq<(Seq<char>, Seq<u8>, u64)>,
)
    requires
        steps(task, event, client, entries, now, step, after, entries_after),
        step is Failed,
    ensures
        after == client,
        entries_after == entries,
{
}

/// What was read for the backup is the backup, byte for byte, whatever was loaded before; and what
/// was loaded before is what is compressed.
pub proof fn law_backup_is_what_was_read(
    path: PathBuf,
    data: Vec<u8>,
    original: Vec<u8>,
    client: TinifyClient,
    entries: Seq<(Seq<char>, Seq<u8>, u64)>,
    now: u64,
    step: TaskStep,
    after: TinifyClient,
    entries_after: Seq<(Seq<char>, Seq<u8>, u64)>,
)
    requires
        steps(
            Task::BackingUp { path, data },
            TaskEvent::FileRead(original),
            client,
            entries,
            now,
            step,
            after,
            entries_after,
        ),
    ensures
        step matches TaskStep::Do(
            Task::Compressing { compression, backup: Some(kept) },
            TaskAction::Compress(action),
        ) && {
            &&& kept@ == original@
            &&& compression.path == path
            &&& compression.original_size == data@.len()
            &&& compression.cache_key@ == crate::cache::key_of(data@)
            &&& crate::compress::begins(data@, client, entries, now, compression.phase, action)
            &&& action matches crate::compress::Action::Post { body, .. } ==> body@ == data@
        },
        after == client,
        entries_after == crate::cache::touched(entries, crate::cache::key_of(data@)),
{
}

/// One step of the work on a file leads from one task to another.
pub open spec fn leads_to(task: Task, next: Task) -> bool {
    exists|
        event: TaskEvent,
        client: TinifyClient,
        entries: Seq<(Seq<char>, Seq<u8>, u64)>,
        now: u64,
        action: TaskAction,
        after: TinifyClient,
        entries_after: Seq<(Seq<char>, Seq<u8>, u64)>,
    | #[trigger]
        steps(
            task,
            event,
            client,
            entries,
            now,
            TaskStep::Do(next, action),
            after,
            entries_after,
        )
}

/// The file gets back what it held: whatever was loaded before, if the file was read as `original`
/// for its backup, and some later step of that work restores the file, after any number of steps
/// of its compression, the bytes that are written are those of `original`.
pub proof fn law_file_gets_back_what_it_held(
    path: PathBuf,
    data: Vec<u8>,
    original: Vec<u8>,
    client: TinifyClient,
    entries: Seq<(Seq<char>, Seq<u8>, u64)>,
    now: u64,
    first: TaskAction,
    after: TinifyClient,
    entries_after: Seq<(Seq<char>, Seq<u8>, u64)>,
    course: Seq<Task>,
    event: TaskEvent,
    later_client: TinifyClient,
    later_entries: Seq<(Seq<char>, Seq<u8>, u64)>,
    later: u64,
    last: TaskStep,
    client_at_end: TinifyClient,
    entries_at_end: Seq<(Seq<char>, Seq<u8>, u64)>,
)
    requires
        course.len() > 0,
        steps(
            Task::BackingUp { path, data },
            TaskEvent::FileRead(original),
            client,
            entries,
            now,
            TaskStep::Do(course[0], first),
            after,
            entries_after,
        ),
        forall|i: int| 0 <= i < course.len() - 1 ==> leads_to(#[trigger] course[i], course[i + 1]),
        steps(
            course.last(),
            event,
            later_client,
            later_entries,
            later,
            last,
            client_at_end,
            entries_at_end,
        ),
    ensures
        last matches TaskStep::Do(_, TaskAction::Restore(written)) ==> written@ == original@,
        last matches TaskStep::Done(r) ==> r.ok || course.last() is Restoring,
        last is Failed ==> course.last() is Restoring || course.last() is Abandoning,
{
    lemma_backup_stays(
        path,
        data,
        original,
        client,
        entries,
        now,
        first,
        after,
        entries_after,
        course,
    );
}

proof fn lemma_backup_stays(
    path: PathBuf,
    data: Vec<u8>,
    original: Vec<u8>,
    client: TinifyClient,
    entries: Seq<(Seq<char>, Seq<u8>, u64)>,
    now: u64,
    first: TaskAction,
    after: TinifyClient,
    entries_after: Seq<(Seq<char>, Seq<u8>, u64)>,
    course: Seq<Task>,
)
    requires
        course.len() > 0,
        steps(
            Task::BackingUp { path, data },
            TaskEvent::FileRead(original),
            client,
            entries,
            now,
            TaskStep::Do(course[0], first),
            after,
            entries_after,
        ),
        forall|i: int| 0 <= i < course.len() - 1 ==> leads_to(#[trigger] course[i], course[i + 1]),
    ensures
        match course.last() {
            Task::Compressing { backup, .. } => backup matches Some(kept) && kept@ == original@,
            Task::Restoring { .. } => true,
            Task::Abandoning { .. } => true,
            _ => false,
        },
    decreases course.len(),
{
    if course.len() > 1 {
        let before = course.drop_last();
        assert forall|i: int| 0 <= i < before.len() - 1 implies leads_to(
            #[trigger] before[i],
            before[i + 1],
        ) by {
            assert(course[i] == before[i] && course[i + 1] == before[i + 1]);
        }
        lemma_backup_stays(
            path,
            data,
            original,
            client,
            entries,
            now,
            first,
            after,
            entries_after,
            before,
        );
        let n = course.len() - 2;
        assert(before.last() == course[n]);
        assert(leads_to(course[n], course[n + 1]));
    }
}

/// What becomes of a step of the compression: it goes on with the same backup; a success ends the
/// work with its result, and so does a failed image or one without a result if there is no backup;
/// with one, its bytes are written back first.
pub proof fn law_outcome_of_the_compression(
    compression: Compression,
    backup: Option<Vec<u8>>,
    inner: Event,
    client: TinifyClient,
    entries: Seq<(Seq<char>, Seq<u8>, u64)>,
    now: u64,
    step: TaskStep,
    after: TinifyClient,
    entries_after: Seq<(Seq<char>, Seq<u8>, u64)>,
)
    requires
        steps(
            Task::Compressing { compression, backup },
            TaskEvent::Compress(inner),
            client,
            entries,
            now,
            step,
            after,
            entries_after,
        ),
    ensures
        exists|s: Step|
            {
                &&& #[trigger] crate::compress::steps(
                    compression,
                    inner,
                    client,
                    entries,
                    now,
                    s,
                    after,
                    entries_after,
                )
                &&& s matches Step::Do(next, action) ==> step == TaskStep::Do(
                    Task::Compressing { compression: next, backup },
                    TaskAction::Compress(action),
                )
                &&& s matches Step::Done(r) ==> (r.ok || backup is None ==> step == TaskStep::Done(
                    r,
                )) && (!r.ok ==> (backup matches Some(original) ==> step == TaskStep::Do(
                    Task::Restoring { result: r },
                    TaskAction::Restore(original),
                )))
                &&& s matches Step::Failed(failure) ==> (backup is None ==> step
                    == TaskStep::Failed(TaskFailure::Compress(failure))) && (
                backup matches Some(original) ==> step == TaskStep::Do(
                    Task::Abandoning { failure },
                    TaskAction::Restore(original),
                ))
            },
{
}

/// The work on a file that was loaded starts with its backup if there is to be one, and with the
/// compression of exactly what was loaded if not; the work on another one starts by looking for it.
pub proof fn law_start_of_the_work(
    path: PathBuf,
    preloaded: Option<Vec<u8>>,
    backup: bool,
    client: TinifyClient,
    entries: Seq<(Seq<char>, Seq<u8>, u64)>,
    now: u64,
    step: TaskStep,
    entries_after: Seq<(Seq<char>, Seq<u8>, u64)>,
)
    requires
        starts(path, preloaded, backup, client, entries, now, step, entries_after),
    ensures
        preloaded matches Some(data) ==> {
            &&& backup ==> entries_after == entries && (step matches TaskStep::Do(
                Task::BackingUp { path: p, data: d },
                TaskAction::ReadFile,
            ) && p == path && d@ == data@)
            &&& !backup ==> entries_after == crate::cache::touched(
                entries,
                crate::cache::key_of(data@),
            ) && (step matches TaskStep::Do(
                Task::Compressing { compression, backup: None },
                TaskAction::Compress(action),
            ) && compression.path == path && compression.original_size == data@.len()
                && compression.cache_key@ == crate::cache::key_of(data@)
                && crate::compress::begins(data@, client, entries, now, compression.phase, action)
                && (action matches crate::compress::Action::Post { body, .. } ==> body@ == data@))
        },
        preloaded is None ==> entries_after == entries && (step matches TaskStep::Do(
            Task::Probing { path: p },
            TaskAction::Probe,
        ) && p == path),
{
}

/// A file that was not loaded is read if it is there, and what was read is compressed as it is,
/// without a backup; if it is not there the image has failed, with nothing before and after.
pub proof fn law_file_that_was_not_loaded(
    path: PathBuf,
    data: Vec<u8>,
    client: TinifyClient,
    entries: Seq<(Seq<char>, Seq<u8>, u64)>,
    now: u64,
    step: TaskStep,
    after: TinifyClient,
    entries_after: Seq<(Seq<char>, Seq<u8>, u64)>,
)
    ensures
        steps(
            Task::Probing { path },
            TaskEvent::Probed(true),
            client,
            entries,
            now,
            step,
            after,
            entries_after,
        ) ==> step == TaskStep::Do(Task::Loading { path }, TaskAction::ReadFile) && after == client
            && entries_after == entries,
        steps(
            Task::Probing { path },
            TaskEvent::Probed(false),
            client,
            entries,
            now,
            step,
            after,
            entries_after,
        ) ==> (step matches TaskStep::Done(r) && r.path == path && !r.ok && r.msg@
            == "文件不存在"@ && r.original_size == 0 && r.compressed_size == 0) && after == client
            && entries_after == entries,
        steps(
            Task::Loading { path },
            TaskEvent::FileRead(data),
            client,
            entries,
            now,
            step,
            after,
            entries_after,
        ) ==> (step matches TaskStep::Do(
            Task::Compressing { compression, backup: None },
            TaskAction::Compress(action),
        ) && compression.path == path && compression.original_size == data@.len()
            && compression.cache_key@ == crate::cache::key_of(data@) && crate::compress::begins(
            data@,
            client,
            entries,
            now,
            compression.phase,
            action,
        ) && (action matches crate::compress::Action::Post { body, .. } ==> body@ == data@)) && after
            == client && entries_after == crate::cache::touched(
            entries,
            crate::cache::key_of(data@),
        ),
{
}

/// A file that cannot be read or written ends the work, and the reason says in which part: at the
/// backup, at its reading, or at its restoration.
pub proof fn law_file_that_cannot_be_used(
    task: Task,
    client: TinifyClient,
    entries: Seq<(Seq<char>, Seq<u8>, u64)>,
    now: u64,
    step: TaskStep,
    after: TinifyClient,
    entries_after: Seq<(Seq<char>, Seq<u8>, u64)>,
)
    requires
        steps(task, TaskEvent::Failed, client, entries, now, step, after, entries_after),
    ensures
        task is BackingUp ==> step == TaskStep::Failed(TaskFailure::Backup),
        task is Loading ==> step == TaskStep::Failed(TaskFailure::Read),
        task is Restoring || task is Abandoning ==> step == TaskStep::Failed(TaskFailure::Restore),
        task is BackingUp || task is Loading || task is Restoring || task is Abandoning,
        after == client,
        entries_after == entries,
{
}

/// Everything that an action can lead to is taken: a file that is read can be read or not, one that
/// is looked for can be there or not, one that is restored can be restored or not, and a
/// compression can take what it says that it can.
pub proof fn law_events_of_the_work(task: Task, event: TaskEvent, client: TinifyClient)
    ensures
        admitted(task, event, client) <==> match task {
            Task::BackingUp { .. } => event is FileRead || event is Failed,
            Task::Probing { .. } => event is Probed,
            Task::Loading { .. } => event is FileRead || event is Failed,
            Task::Compressing { compression, .. } => event matches TaskEvent::Compress(inner)
                && crate::compress::admitted(compression, inner, client),
            Task::Restoring { .. } => event is Restored || event is Failed,
            Task::Abandoning { .. } => event is Restored || event is Failed,
        },
{
}

} // verus!
