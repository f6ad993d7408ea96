//! The queue of thumbnail decodes shared between the window and the decoding worker.
//! The window replaces the waiting work whenever the visible part of the strip changes;
//! the worker takes one task at a time.

use std::collections::VecDeque;
use vstd::prelude::*;
use crate::image::DecodedImage;
use crate::thumbnail::THUMBNAIL_QUEUE_CAPACITY;

verus! {

/// The image files found next to the opened image, for one directory scan.
pub struct DirectoryScanResult {
    pub generation: u64,
    pub paths: Vec<String>,
}

/// A request to decode the preview of item `index` of the strip.
#[derive(Clone, Debug)]
pub struct ThumbnailTask {
    pub generation: u64,
    pub index: usize,
    pub path: String,
    pub target_size_px: u32,
}

/// A finished decode, or the reason it failed.
pub struct ThumbnailResult {
    pub generation: u64,
    pub index: usize,
    pub path: String,
    pub target_size_px: u32,
    pub decoded: Result<DecodedImage, String>,
}

/// What identifies a task: its generation, index, path and size.
pub type TaskIdentity = (u64, usize, String, u32);

/// Whether `task` is the one identified by `identity`.
pub open spec fn is_task(task: ThumbnailTask, identity: TaskIdentity) -> bool {
    &&& task.generation == identity.0
    &&& task.index == identity.1
    &&& task.path@ == identity.2@
    &&& task.target_size_px == identity.3
}

/// Whether `task` is the one running, if any.
pub open spec fn is_running(task: ThumbnailTask, current: Option<TaskIdentity>) -> bool {
    match current {
        Some(identity) => is_task(task, identity),
        None => false,
    }
}

/// The tasks of `tasks` that are not the running one, in their order.
pub open spec fn not_running(tasks: Seq<ThumbnailTask>, current: Option<TaskIdentity>) -> Seq<ThumbnailTask>
    decreases tasks.len(),
{
    if tasks.len() == 0 {
        Seq::empty()
    } else {
        let rest = not_running(tasks.drop_last(), current);
        if is_running(tasks.last(), current) {
            rest
        } else {
            rest.push(tasks.last())
        }
    }
}

/// The first `n` elements of `s`, or all of them when there are fewer.
pub open spec fn first_at_most<T>(s: Seq<T>, n: int) -> Seq<T> {
    if s.len() <= n {
        s
    } else {
        s.take(n)
    }
}

/// Every task that `not_running` keeps is one of `tasks` and is not the running one.
proof fn lemma_not_running(tasks: Seq<ThumbnailTask>, current: Option<TaskIdentity>)
    ensures
        not_running(tasks, current).len() <= tasks.len(),
        forall|i: int|
            0 <= i < not_running(tasks, current).len() ==> !is_running(
                #[trigger] not_running(tasks, current)[i],
                current,
            ) && tasks.contains(not_running(tasks, current)[i]),
    decreases tasks.len(),
{
    if tasks.len() > 0 {
        let rest = tasks.drop_last();
        lemma_not_running(rest, current);
        assert forall|i: int| 0 <= i < not_running(tasks, current).len() implies !is_running(
            #[trigger] not_running(tasks, current)[i],
            current,
        ) && tasks.contains(not_running(tasks, current)[i]) by {
            if i < not_running(rest, current).len() {
                let j = choose|j: int| 0 <= j < rest.len() && rest[j] == not_running(rest, current)[i];
                assert(tasks[j] == rest[j]);
            } else {
                assert(tasks[tasks.len() - 1] == tasks.last());
            }
        }
    }
}

/// After the waiting work is replaced by `tasks`, at most the queue capacity of tasks
/// wait, each of them one of `tasks`, and the running task is not among them.
pub proof fn replaced_work_is_bounded_and_skips_the_running_task(
    tasks: Seq<ThumbnailTask>,
    current: Option<TaskIdentity>,
)
    ensures
        first_at_most(not_running(tasks, current), THUMBNAIL_QUEUE_CAPACITY as int).len()
            <= THUMBNAIL_QUEUE_CAPACITY,
        forall|i: int|
            0 <= i < first_at_most(not_running(tasks, current), THUMBNAIL_QUEUE_CAPACITY as int).len()
                ==> !is_running(
                #[trigger] first_at_most(not_running(tasks, current), THUMBNAIL_QUEUE_CAPACITY as int)[i],
                current,
            ) && tasks.contains(
                first_at_most(not_running(tasks, current), THUMBNAIL_QUEUE_CAPACITY as int)[i],
            ),
{
    lemma_not_running(tasks, current);
    let kept = not_running(tasks, current);
    let waiting = first_at_most(kept, THUMBNAIL_QUEUE_CAPACITY as int);
    assert forall|i: int| 0 <= i < waiting.len() implies !is_running(#[trigger] waiting[i], current)
        && tasks.contains(waiting[i]) by {
        assert(waiting[i] == kept[i]);
    }
}

/// The identity of `task`.
pub fn task_identity(task: &ThumbnailTask) -> (r: TaskIdentity)
    ensures
        is_task(*task, r),
        r.2 == task.path,
{
    (task.generation, task.index, task.path.clone(), task.target_size_px)
}

/// Whether `task` is identified by `identity`.
fn matches_identity(task: &ThumbnailTask, identity: &Option<TaskIdentity>) -> (r: bool)
    ensures
        r == is_running(*task, *identity),
{
    match identity {
        Some(identity) => task.generation == identity.0 && task.index == identity.1 && task.path
            == identity.2 && task.target_size_px == identity.3,
        None => false,
    }
}

/// What the decoding worker does next.
pub enum WorkerStep {
    /// The loader was closed: stop.
    Stop,
    /// Nothing is waiting: sleep until woken.
    Wait,
    /// Decode the preview that the carried task asks for.
    Run(ThumbnailTask),
}

/// The shared state of the thumbnail loader.
pub struct TaskQueueState {
    pub pending: VecDeque<ThumbnailTask>,
    pub current: Option<TaskIdentity>,
    pub closed: bool,
}

impl TaskQueueState {
    /// An open queue with nothing waiting or running.
    pub fn new() -> (r: Self)
        ensures
            r.pending@.len() == 0,
            r.current is None,
            !r.closed,
    {
        TaskQueueState { pending: VecDeque::new(), current: None, closed: false }
    }

    /// Replaces the waiting work by `tasks`, dropping the task that is running (if it is
    /// among them) and keeping at most the queue capacity, in their order.
    pub fn replace_pending(&mut self, tasks: Vec<ThumbnailTask>)
        ensures
            final(self).pending@ == first_at_most(
                not_running(tasks@, old(self).current),
                THUMBNAIL_QUEUE_CAPACITY as int,
            ),
            final(self).current == old(self).current,
            final(self).closed == old(self).closed,
    {
        let ghost given = tasks@;
        let ghost current = self.current;
        let ghost closed = self.closed;
        let mut tasks = tasks;
        proof {
            assert(tasks@.len() == tasks.len());
        }
        self.pending.clear();
        let mut processed: usize = 0;
        assert(given.take(0) =~= Seq::<ThumbnailTask>::empty());
        while tasks.len() > 0
            invariant
                processed + tasks@.len() == given.len(),
                tasks@ == given.skip(processed as int),
                self.current == current,
                self.closed == closed,
                given.len() <= usize::MAX,
                self.pending@ == first_at_most(
                    not_running(given.take(processed as int), current),
                    THUMBNAIL_QUEUE_CAPACITY as int,
                ),
            decreases tasks@.len(),
        {
            let task = tasks.remove(0);
            proof {
                assert(task == given[processed as int]);
                assert(given.take(processed + 1).drop_last() =~= given.take(processed as int));
                assert(given.take(processed + 1).last() == task);
                assert(given.skip(processed as int).remove(0) =~= given.skip(processed + 1));
            }
            let running = matches_identity(&task, &self.current);
            if !running && self.pending.len() < THUMBNAIL_QUEUE_CAPACITY {
                self.pending.push_back(task);
            }
            processed = processed + 1;
        }
        assert(given.take(processed as int) =~= given);
    }

    /// Takes the next step of the worker: stop once closed, wait while nothing is waiting,
    /// otherwise take the first waiting task and mark it as running.
    pub fn next_step(&mut self) -> (r: WorkerStep)
        ensures
            old(self).closed ==> r is Stop && *final(self) == *old(self),
            !old(self).closed && old(self).pending@.len() == 0 ==> r is Wait && *final(self) == *old(self),
            !old(self).closed && old(self).pending@.len() > 0 ==> {
                &&& r matches WorkerStep::Run(task) && task == old(self).pending@[0] && is_running(
                    task,
                    final(self).current,
                )
                &&& final(self).pending@ == old(self).pending@.drop_first()
                &&& !final(self).closed
            },
    {
        if self.closed {
            return WorkerStep::Stop;
        }
        if self.pending.len() == 0 {
            return WorkerStep::Wait;
        }
        match self.pending.pop_front() {
            Some(task) => {
                self.current = Some(task_identity(&task));
                assert(self.pending@ =~= old(self).pending@.drop_first());
                WorkerStep::Run(task)
            },
            None => WorkerStep::Wait,
        }
    }

    /// Records that the running task has finished.
    pub fn finish_current(&mut self)
        ensures
            final(self).current is None,
            final(self).pending@ == old(self).pending@,
            final(self).closed == old(self).closed,
    {
        self.current = None;
    }

    /// Closes the queue: the worker stops and waiting work is dropped.
    pub fn close(&mut self)
        ensures
            final(self).closed,
            final(self).pending@.len() == 0,
            final(self).current == old(self).current,
    {
        self.closed = true;
        self.pending.clear();
    }
}

} // verus!
