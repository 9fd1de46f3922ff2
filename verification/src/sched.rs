//! The transfer scheduler: all per-file tasks of a run are dispatched
//! under one tree-wide concurrency bound, sized from the process's
//! file-descriptor headroom, so that descriptor exhaustion cannot occur
//! however wide a directory is.  A failed task does not cancel its
//! siblings: every task is attempted, and each outcome is collected.

use vstd::prelude::*;

use crate::transfer::TaskModel;
use crate::transfer::TransferTask;

verus! {

/// The most tasks ever allowed in flight at once, however high the
/// descriptor limit is.
pub const MAX_CONCURRENCY: usize = 64;

/// Sizes the concurrency bound from the effective soft limit on open
/// file descriptors: a quarter of the headroom, capped at
/// [`MAX_CONCURRENCY`], and at least one so the run can proceed.
pub fn compute_bound(soft_limit: u64) -> (r: usize)
    ensures
        r == (if soft_limit / 4 < 1 {
            1usize
        } else if soft_limit / 4 > MAX_CONCURRENCY {
            MAX_CONCURRENCY
        } else {
            (soft_limit / 4) as usize
        }),
        1 <= r <= MAX_CONCURRENCY,
{
    let quarter = soft_limit / 4;
    if quarter < 1 {
        1
    } else if quarter > MAX_CONCURRENCY as u64 {
        MAX_CONCURRENCY
    } else {
        quarter as usize
    }
}

/// The recorded outcome of one attempted task.
pub struct TaskOutcome {
    pub task: TransferTask,
    pub ok: bool,
}

impl View for TaskOutcome {
    type V = (TaskModel, bool);

    open spec fn view(&self) -> (TaskModel, bool) {
        (self.task@, self.ok)
    }
}

/// The tasks of a list, as their models.
pub open spec fn tasks_view(v: Vec<TransferTask>) -> Seq<TaskModel> {
    v@.map_values(|t: TransferTask| t@)
}

/// The outcomes of a list, as their models.
pub open spec fn outcomes_view(v: Vec<TaskOutcome>) -> Seq<(TaskModel, bool)> {
    v@.map_values(|o: TaskOutcome| o@)
}

/// The scheduler's state: tasks not yet started, tasks in flight, and
/// the outcomes already collected.  `running` never exceeds `bound`.
pub struct TransferScheduler {
    pub bound: usize,
    pub pending: Vec<TransferTask>,
    pub running: Vec<TransferTask>,
    pub results: Vec<TaskOutcome>,
}

impl TransferScheduler {
    /// The scheduler invariant: the bound is positive, and no more tasks
    /// are in flight than the bound allows.
    pub open spec fn wf(&self) -> bool {
        1 <= self.bound && self.running@.len() <= self.bound
    }

    /// A scheduler holding every task of the run, none started.
    pub fn new(tasks: Vec<TransferTask>, bound: usize) -> (r: TransferScheduler)
        requires
            1 <= bound,
        ensures
            r.wf(),
            r.bound == bound,
            tasks_view(r.pending) == tasks_view(tasks),
            r.running@.len() == 0,
            r.results@.len() == 0,
    {
        TransferScheduler { bound, pending: tasks, running: Vec::new(), results: Vec::new() }
    }

    /// Whether another task may start now: a task is waiting and the
    /// bound leaves room.
    pub fn can_start(&self) -> (r: bool)
        ensures
            r == (self.pending@.len() > 0 && self.running@.len() < self.bound),
    {
        self.pending.len() > 0 && self.running.len() < self.bound
    }

    /// Takes one waiting task into flight, if the bound leaves room.  The
    /// caller runs the returned task and reports back through
    /// [`TransferScheduler::complete`].
    pub fn start(&mut self) -> (r: Option<TransferTask>)
        requires
            old(self).wf(),
        ensures
            final(self).wf(),
            final(self).bound == old(self).bound,
            match r {
                Some(t) => {
                    &&& old(self).pending@.len() > 0
                    &&& old(self).running@.len() < old(self).bound
                    &&& t@ == tasks_view(old(self).pending).last()
                    &&& tasks_view(final(self).pending) == tasks_view(old(self).pending).drop_last()
                    &&& tasks_view(final(self).running) == tasks_view(old(self).running).push(t@)
                    &&& final(self).results == old(self).results
                },
                None => {
                    &&& !(old(self).pending@.len() > 0 && old(self).running@.len() < old(
                        self,
                    ).bound)
                    &&& *final(self) == *old(self)
                },
            },
    {
        if self.pending.len() > 0 && self.running.len() < self.bound {
            let ghost prev_pending = tasks_view(self.pending);
            let ghost prev_running = tasks_view(self.running);
            let t = match self.pending.pop() {
                Some(t) => t,
                None => unreached(),
            };
            let out = t.duplicate();
            self.running.push(t);
            proof {
                assert(tasks_view(self.pending) =~= prev_pending.drop_last());
                assert(tasks_view(self.running) =~= prev_running.push(out@));
            }
            Some(out)
        } else {
            None
        }
    }

    /// Records the outcome of the in-flight task at `idx`, freeing its
    /// slot.  A failure is collected like a success: it cancels nothing.
    pub fn complete(&mut self, idx: usize, ok: bool)
        requires
            old(self).wf(),
            idx < old(self).running@.len(),
        ensures
            final(self).wf(),
            final(self).bound == old(self).bound,
            final(self).pending == old(self).pending,
            tasks_view(final(self).running) == tasks_view(old(self).running).remove(idx as int),
            outcomes_view(final(self).results) == outcomes_view(old(self).results).push(
                (tasks_view(old(self).running)[idx as int], ok),
            ),
    {
        let ghost prev_running = tasks_view(self.running);
        let ghost prev_results = outcomes_view(self.results);
        let t = self.running.remove(idx);
        self.results.push(TaskOutcome { task: t, ok });
        proof {
            assert(tasks_view(self.running) =~= prev_running.remove(idx as int));
            assert(outcomes_view(self.results) =~= prev_results.push(
                (prev_running[idx as int], ok),
            ));
        }
    }

    /// Whether every task has been attempted and has reported back.
    pub fn done(&self) -> (r: bool)
        ensures
            r == (self.pending@.len() == 0 && self.running@.len() == 0),
    {
        self.pending.len() == 0 && self.running.len() == 0
    }
}

/// Law: bounded concurrency.  In every well-formed scheduler state — and
/// [`TransferScheduler::start`] and [`TransferScheduler::complete`] keep
/// every state well formed — the tasks in flight never exceed the bound.
pub proof fn lemma_bounded_in_flight(s: TransferScheduler)
    requires
        s.wf(),
    ensures
        s.running@.len() <= s.bound,
{
}

} // verus!
