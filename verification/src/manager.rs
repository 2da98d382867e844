//! The manager: a table of clone tasks keyed by URL, plus the credential
//! pool, wired for an event-driven orchestrator.
//!
//! The manager owns the state; the loop that spawns clone workers, samples
//! progress and awaits completion lives outside the library and drives the
//! state through `start_task`, `report_progress`, `complete_task` and
//! `fail_task`.  Every one of those promises `status_le` between the old and
//! the new status of every task, so any sequence of snapshots observes each
//! task moving along its lifecycle with non-decreasing progress and no
//! reverse edge.

use vstd::prelude::*;

use crate::tasks::{max_progress, status_le, CloneStatus, CloneTask, StatusView, TaskView};
use crate::text::str_eq;
use crate::token::{EntryView, TokenPool};

verus! {

/// Some task of the sequence has this URL.
pub open spec fn has_url(tasks: Seq<TaskView>, u: Seq<char>) -> bool {
    exists|i: int| 0 <= i < tasks.len() && tasks[i].url == u
}

/// The tasks carry pairwise distinct URLs.
pub open spec fn urls_distinct(tasks: Seq<TaskView>) -> bool {
    forall|i: int, j: int| 0 <= i < j < tasks.len() ==> tasks[i].url != tasks[j].url
}

/// A URL occurs at most once in the task table: the law behind "exactly one
/// task per URL".  Together with `RepoManager::new`, which puts one task in
/// the table for every URL of the construction list and nothing else, it
/// gives: each listed URL has exactly one task, duplicates included.
pub proof fn lemma_one_task_per_url(tasks: Seq<TaskView>, i: int, j: int)
    requires
        urls_distinct(tasks),
        0 <= i < tasks.len(),
        0 <= j < tasks.len(),
        tasks[i].url == tasks[j].url,
    ensures
        i == j,
{
    if i < j {
        assert(tasks[i].url != tasks[j].url);
    } else if j < i {
        assert(tasks[j].url != tasks[i].url);
    }
}

/// Between two statuses of one task in lifecycle order, progress does not
/// decrease.
pub proof fn lemma_progress_monotone(a: StatusView, b: StatusView)
    requires
        status_le(a, b),
        a is Cloning,
        b is Cloning,
    ensures
        a->Cloning_0 <= b->Cloning_0,
{
}

/// What cleanup does for one task.
#[derive(Debug, Clone, PartialEq)]
pub enum CleanupDecision {
    /// No task carries the URL.
    Unknown,
    /// The task is still cloning: cleanup is rejected for it.
    Active,
    /// There is no working directory: cleanup succeeds with nothing to do.
    Nothing,
    /// The working directory at this path is to be removed.
    Remove(String),
}

/// The mathematical value of a cleanup decision: `None` when no task carries
/// the URL.
pub ghost enum CleanupKind {
    Active,
    Nothing,
    Remove(Seq<char>),
}

impl View for CleanupDecision {
    type V = Option<CleanupKind>;

    open spec fn view(&self) -> Option<CleanupKind> {
        match self {
            CleanupDecision::Unknown => None,
            CleanupDecision::Active => Some(CleanupKind::Active),
            CleanupDecision::Nothing => Some(CleanupKind::Nothing),
            CleanupDecision::Remove(d) => Some(CleanupKind::Remove(d@)),
        }
    }
}

/// The cleanup rule for one task: a cloning task is left alone, a task
/// without a working directory needs nothing, and otherwise the directory is
/// removed.
pub open spec fn cleanup_rule(t: TaskView) -> CleanupKind {
    if t.status is Cloning {
        CleanupKind::Active
    } else if t.temp_dir is None {
        CleanupKind::Nothing
    } else {
        CleanupKind::Remove(t.temp_dir->Some_0)
    }
}

/// Cleanup is idempotent: once a task's working directory is gone — by a
/// removal or because cloning never began — cleanup decides `Nothing` for it,
/// a success with nothing to do, and decides so again on every later call as
/// long as the directory stays cleared.
pub proof fn lemma_cleanup_idempotent(t: TaskView)
    requires
        !(t.status is Cloning),
        t.temp_dir is None,
    ensures
        cleanup_rule(t) == CleanupKind::Nothing,
{
}

/// The task table seeded from a URL list: one queued task per distinct URL,
/// in first-occurrence order, later duplicates discarded.
pub open spec fn queued_tasks(urls: Seq<Seq<char>>) -> Seq<TaskView>
    decreases urls.len(),
{
    if urls.len() == 0 {
        Seq::empty()
    } else {
        let prefix = queued_tasks(urls.drop_last());
        if has_url(prefix, urls.last()) {
            prefix
        } else {
            prefix.push(TaskView { url: urls.last(), status: StatusView::Queued, temp_dir: None })
        }
    }
}

/// Every task of a seeded table is queued, without a working directory.
pub proof fn lemma_queued_tasks_queued(urls: Seq<Seq<char>>)
    ensures
        forall|i: int|
            0 <= i < queued_tasks(urls).len() ==> (#[trigger] queued_tasks(urls)[i]).status
                == StatusView::Queued && queued_tasks(urls)[i].temp_dir is None,
    decreases urls.len(),
{
    if urls.len() > 0 {
        lemma_queued_tasks_queued(urls.drop_last());
    }
}

/// A seeded table carries pairwise distinct URLs.
pub proof fn lemma_queued_tasks_distinct(urls: Seq<Seq<char>>)
    ensures
        urls_distinct(queued_tasks(urls)),
    decreases urls.len(),
{
    if urls.len() > 0 {
        lemma_queued_tasks_distinct(urls.drop_last());
    }
}

/// A URL has a task in the seeded table exactly when it stands in the list:
/// together with `lemma_queued_tasks_distinct` and `lemma_one_task_per_url`,
/// every URL of the construction list has exactly one task, duplicates
/// included, and no other task exists.
pub proof fn lemma_queued_tasks_membership(urls: Seq<Seq<char>>, u: Seq<char>)
    ensures
        has_url(queued_tasks(urls), u) <==> urls.contains(u),
    decreases urls.len(),
{
    if urls.len() > 0 {
        lemma_queued_tasks_membership(urls.drop_last(), u);
        let prefix = queued_tasks(urls.drop_last());
        if urls.contains(u) {
            let q = choose|q: int| 0 <= q < urls.len() && urls[q] == u;
            if q < urls.len() - 1 {
                assert(urls.drop_last().contains(u)) by {
                    assert(urls.drop_last()[q] == u);
                }
                let i = choose|i: int| 0 <= i < prefix.len() && prefix[i].url == u;
                if has_url(prefix, urls.last()) {
                    assert(queued_tasks(urls)[i].url == u);
                } else {
                    assert(queued_tasks(urls)[i].url == u);
                }
            } else {
                if has_url(prefix, urls.last()) {
                } else {
                    assert(queued_tasks(urls).last().url == u);
                }
            }
        }
        if has_url(queued_tasks(urls), u) {
            let i = choose|i: int|
                0 <= i < queued_tasks(urls).len() && queued_tasks(urls)[i].url == u;
            if i < prefix.len() {
                assert(prefix[i].url == u);
                let q = choose|q: int| 0 <= q < urls.drop_last().len() && urls.drop_last()[q] == u;
                assert(urls[q] == u);
            } else {
                assert(urls.last() == u);
            }
        }
    }
}

/// The mathematical value of a manager: its task table and its credential
/// pool.
pub ghost struct ManagerView {
    pub tasks: Seq<TaskView>,
    pub pool: Seq<EntryView>,
}

/// The clone orchestrator's state: a task per URL and a credential pool.
#[derive(Debug)]
pub struct RepoManager {
    tasks: Vec<CloneTask>,
    pool: TokenPool,
}

impl View for RepoManager {
    type V = ManagerView;

    closed spec fn view(&self) -> ManagerView {
        ManagerView {
            tasks: self.tasks@.map_values(|t: CloneTask| t@),
            pool: self.pool@,
        }
    }
}

impl RepoManager {
    /// Tasks are well formed with pairwise distinct URLs, and the pool is
    /// well formed.
    pub open spec fn wf(self) -> bool {
        &&& forall|i: int| 0 <= i < self@.tasks.len() ==> (#[trigger] self@.tasks[i]).status.wf()
        &&& urls_distinct(self@.tasks)
        &&& self.pool_wf()
    }

    /// The credential pool's own invariant.
    pub closed spec fn pool_wf(self) -> bool {
        self.pool.wf()
    }

    /// Builds a manager from a URL list and one credential.  Duplicate URLs
    /// are coalesced: the table is exactly `queued_tasks` of the list, one
    /// queued task per distinct URL in first-occurrence order.
    pub fn new(urls: Vec<String>, username: String, token: String) -> (m: RepoManager)
        ensures
            m.wf(),
            m@.tasks == queued_tasks(urls@.map_values(|s: String| s@)),
            m@.pool.len() == 1,
            m@.pool[0].identifier == username@,
            m@.pool[0].secret == token@,
    {
        let ghost useq = urls@.map_values(|s: String| s@);
        let mut tasks: Vec<CloneTask> = Vec::new();
        let n = urls.len();
        let mut k: usize = 0;
        proof {
            assert(tasks@.map_values(|t: CloneTask| t@) =~= queued_tasks(useq.take(0)));
        }
        while k < n
            invariant
                0 <= k <= n,
                n == urls@.len(),
                useq == urls@.map_values(|s: String| s@),
                tasks@.map_values(|t: CloneTask| t@) == queued_tasks(useq.take(k as int)),
            decreases n - k,
        {
            let url = urls[k].clone();
            let present = contains_url(&tasks, url.as_str());
            let ghost prior = tasks@.map_values(|t: CloneTask| t@);
            proof {
                assert(useq.take(k + 1).drop_last() =~= useq.take(k as int));
                assert(useq.take(k + 1).last() == useq[k as int]);
                assert(useq[k as int] == urls@[k as int]@);
            }
            if !present {
                let t = CloneTask::new(url);
                tasks.push(t);
                proof {
                    assert(tasks@.map_values(|t: CloneTask| t@) =~= prior.push(t@));
                    assert(t@ == (TaskView {
                        url: useq[k as int],
                        status: StatusView::Queued,
                        temp_dir: None,
                    }));
                }
            }
            k = k + 1;
        }
        proof {
            assert(useq.take(n as int) =~= useq);
        }
        let mut pool = TokenPool::new();
        pool.add(username, token);
        let m = RepoManager { tasks, pool };
        proof {
            lemma_queued_tasks_queued(useq);
            lemma_queued_tasks_distinct(useq);
        }
        m
    }

    /// A consistent point-in-time copy of the task table.
    pub fn snapshot_tasks(&self) -> (snap: Vec<CloneTask>)
        ensures
            snap@.map_values(|t: CloneTask| t@) == self@.tasks,
    {
        let n = self.tasks.len();
        let mut snap: Vec<CloneTask> = Vec::new();
        let mut i: usize = 0;
        while i < n
            invariant
                0 <= i <= n,
                n == self.tasks@.len(),
                snap@.len() == i,
                forall|j: int| 0 <= j < i ==> (#[trigger] snap@[j])@ == self@.tasks[j],
            decreases n - i,
        {
            proof {
                assert(self@.tasks[i as int] == self.tasks@[i as int]@);
            }
            snap.push(self.tasks[i].duplicate());
            i = i + 1;
        }
        proof {
            assert(snap@.map_values(|t: CloneTask| t@) =~= self@.tasks);
        }
        snap
    }

    /// How many tasks the manager holds.
    pub fn task_count(&self) -> (n: usize)
        ensures
            n == self@.tasks.len(),
    {
        self.tasks.len()
    }

    /// How many clone workers to run: the lesser of the number of pending
    /// tasks and the configured ceiling, and at least one when work is
    /// pending.
    pub fn worker_limit(pending: usize, ceiling: usize) -> (w: usize)
        ensures
            w == spec_worker_limit(pending, ceiling),
    {
        let floor_ceiling = if ceiling == 0 {
            1
        } else {
            ceiling
        };
        if pending < floor_ceiling {
            pending
        } else {
            floor_ceiling
        }
    }

    /// Begins the clone of one queued task: it moves to `Cloning(0)` and its
    /// working directory is set in the same step.  Returns whether a queued
    /// task with this URL existed; nothing else changes either way.  This is
    /// also the single-URL entry point: a URL outside the task set is not
    /// added, it is reported back as `false`.
    pub fn start_task(&mut self, url: &str, dir: String) -> (r: bool)
        requires
            old(self).wf(),
        ensures
            final(self).wf(),
            final(self)@.pool == old(self)@.pool,
            final(self)@.tasks.len() == old(self)@.tasks.len(),
            forall|i: int|
                0 <= i < old(self)@.tasks.len() ==> (#[trigger] final(self)@.tasks[i]).url == old(
                    self,
                )@.tasks[i].url,
            forall|i: int|
                0 <= i < old(self)@.tasks.len() ==> status_le(
                    (#[trigger] old(self)@.tasks[i]).status,
                    final(self)@.tasks[i].status,
                ),
            r == exists|i: int|
                0 <= i < old(self)@.tasks.len() && (#[trigger] old(self)@.tasks[i]).url == url@
                    && old(self)@.tasks[i].status is Queued,
            forall|i: int|
                0 <= i < old(self)@.tasks.len() && ((#[trigger] old(self)@.tasks[i]).url != url@
                    || !(old(self)@.tasks[i].status is Queued)) ==> final(self)@.tasks[i] == old(
                    self,
                )@.tasks[i],
            forall|i: int|
                0 <= i < old(self)@.tasks.len() && (#[trigger] old(self)@.tasks[i]).url == url@
                    && old(self)@.tasks[i].status is Queued ==> final(self)@.tasks[i]
                    == (TaskView {
                    status: StatusView::Cloning(0u8),
                    temp_dir: Some(dir@),
                    ..old(self)@.tasks[i]
                }),
    {
        match self.find_task(url) {
            Some(i) => {
                proof {
                    assert(self@.tasks[i as int] == self.tasks@[i as int]@);
                }
                if matches!(&self.tasks[i].status, CloneStatus::Queued) {
                    let mut t = self.tasks[i].duplicate();
                    t.start(dir);
                    self.tasks.set(i, t);
                    proof {
                        assert(final(self)@.tasks =~= old(self)@.tasks.update(i as int, t@));
                        assert forall|j: int|
                            0 <= j < old(self)@.tasks.len() && (#[trigger] old(
                                self,
                            )@.tasks[j]).url == url@ implies j == i as int by {
                            lemma_one_task_per_url(old(self)@.tasks, j, i as int);
                        }
                    }
                    true
                } else {
                    false
                }
            },
            None => false,
        }
    }

    /// Folds one progress sample into a cloning task: its progress becomes
    /// the maximum of the stored value and the sample clamped to 100.
    /// Returns whether a cloning task with this URL existed.
    pub fn report_progress(&mut self, url: &str, p: u8) -> (r: bool)
        requires
            old(self).wf(),
        ensures
            final(self).wf(),
            final(self)@.pool == old(self)@.pool,
            final(self)@.tasks.len() == old(self)@.tasks.len(),
            forall|i: int|
                0 <= i < old(self)@.tasks.len() ==> (#[trigger] final(self)@.tasks[i]).url == old(
                    self,
                )@.tasks[i].url,
            forall|i: int|
                0 <= i < old(self)@.tasks.len() ==> (#[trigger] final(self)@.tasks[i]).temp_dir
                    == old(self)@.tasks[i].temp_dir,
            forall|i: int|
                0 <= i < old(self)@.tasks.len() ==> status_le(
                    (#[trigger] old(self)@.tasks[i]).status,
                    final(self)@.tasks[i].status,
                ),
            r == exists|i: int|
                0 <= i < old(self)@.tasks.len() && (#[trigger] old(self)@.tasks[i]).url == url@
                    && old(self)@.tasks[i].status is Cloning,
            forall|i: int|
                0 <= i < old(self)@.tasks.len() && ((#[trigger] old(self)@.tasks[i]).url != url@
                    || !(old(self)@.tasks[i].status is Cloning)) ==> final(self)@.tasks[i] == old(
                    self,
                )@.tasks[i],
            forall|i: int|
                0 <= i < old(self)@.tasks.len() && (#[trigger] old(self)@.tasks[i]).url == url@
                    && old(self)@.tasks[i].status is Cloning ==> final(self)@.tasks[i].status
                    == StatusView::Cloning(
                    if p > 100 {
                        max_progress(old(self)@.tasks[i].status->Cloning_0, 100u8)
                    } else {
                        max_progress(old(self)@.tasks[i].status->Cloning_0, p)
                    },
                ),
    {
        match self.find_task(url) {
            Some(i) => {
                proof {
                    assert(self@.tasks[i as int] == self.tasks@[i as int]@);
                }
                if matches!(&self.tasks[i].status, CloneStatus::Cloning(_)) {
                    let mut t = self.tasks[i].duplicate();
                    t.report_progress(p);
                    self.tasks.set(i, t);
                    proof {
                        assert(final(self)@.tasks =~= old(self)@.tasks.update(i as int, t@));
                        assert forall|j: int|
                            0 <= j < old(self)@.tasks.len() && (#[trigger] old(
                                self,
                            )@.tasks[j]).url == url@ implies j == i as int by {
                            lemma_one_task_per_url(old(self)@.tasks, j, i as int);
                        }
                    }
                    true
                } else {
                    false
                }
            },
            None => false,
        }
    }

    /// Ends the clone of one cloning task successfully: it reaches
    /// `Completed` and keeps its working directory.  Returns whether a
    /// cloning task with this URL existed.
    pub fn complete_task(&mut self, url: &str) -> (r: bool)
        requires
            old(self).wf(),
        ensures
            final(self).wf(),
            final(self)@.pool == old(self)@.pool,
            final(self)@.tasks.len() == old(self)@.tasks.len(),
            forall|i: int|
                0 <= i < old(self)@.tasks.len() ==> (#[trigger] final(self)@.tasks[i]).url == old(
                    self,
                )@.tasks[i].url,
            forall|i: int|
                0 <= i < old(self)@.tasks.len() ==> (#[trigger] final(self)@.tasks[i]).temp_dir
                    == old(self)@.tasks[i].temp_dir,
            forall|i: int|
                0 <= i < old(self)@.tasks.len() ==> status_le(
                    (#[trigger] old(self)@.tasks[i]).status,
                    final(self)@.tasks[i].status,
                ),
            r == exists|i: int|
                0 <= i < old(self)@.tasks.len() && (#[trigger] old(self)@.tasks[i]).url == url@
                    && old(self)@.tasks[i].status is Cloning,
            forall|i: int|
                0 <= i < old(self)@.tasks.len() && ((#[trigger] old(self)@.tasks[i]).url != url@
                    || !(old(self)@.tasks[i].status is Cloning)) ==> final(self)@.tasks[i] == old(
                    self,
                )@.tasks[i],
            forall|i: int|
                0 <= i < old(self)@.tasks.len() && (#[trigger] old(self)@.tasks[i]).url == url@
                    && old(self)@.tasks[i].status is Cloning ==> final(self)@.tasks[i].status
                    == StatusView::Completed,
    {
        match self.find_task(url) {
            Some(i) => {
                proof {
                    assert(self@.tasks[i as int] == self.tasks@[i as int]@);
                }
                if matches!(&self.tasks[i].status, CloneStatus::Cloning(_)) {
                    let mut t = self.tasks[i].duplicate();
                    t.finish_ok();
                    self.tasks.set(i, t);
                    proof {
                        assert(final(self)@.tasks =~= old(self)@.tasks.update(i as int, t@));
                        assert forall|j: int|
                            0 <= j < old(self)@.tasks.len() && (#[trigger] old(
                                self,
                            )@.tasks[j]).url == url@ implies j == i as int by {
                            lemma_one_task_per_url(old(self)@.tasks, j, i as int);
                        }
                    }
                    true
                } else {
                    false
                }
            },
            None => false,
        }
    }

    /// Ends the clone of one cloning task in failure, recording the message
    /// in the task rather than raising it.  Returns whether a cloning task
    /// with this URL existed.
    pub fn fail_task(&mut self, url: &str, message: String) -> (r: bool)
        requires
            old(self).wf(),
        ensures
            final(self).wf(),
            final(self)@.pool == old(self)@.pool,
            final(self)@.tasks.len() == old(self)@.tasks.len(),
            forall|i: int|
                0 <= i < old(self)@.tasks.len() ==> (#[trigger] final(self)@.tasks[i]).url == old(
                    self,
                )@.tasks[i].url,
            forall|i: int|
                0 <= i < old(self)@.tasks.len() ==> (#[trigger] final(self)@.tasks[i]).temp_dir
                    == old(self)@.tasks[i].temp_dir,
            forall|i: int|
                0 <= i < old(self)@.tasks.len() ==> status_le(
                    (#[trigger] old(self)@.tasks[i]).status,
                    final(self)@.tasks[i].status,
                ),
            r == exists|i: int|
                0 <= i < old(self)@.tasks.len() && (#[trigger] old(self)@.tasks[i]).url == url@
                    && old(self)@.tasks[i].status is Cloning,
            forall|i: int|
                0 <= i < old(self)@.tasks.len() && ((#[trigger] old(self)@.tasks[i]).url != url@
                    || !(old(self)@.tasks[i].status is Cloning)) ==> final(self)@.tasks[i] == old(
                    self,
                )@.tasks[i],
            forall|i: int|
                0 <= i < old(self)@.tasks.len() && (#[trigger] old(self)@.tasks[i]).url == url@
                    && old(self)@.tasks[i].status is Cloning ==> final(self)@.tasks[i].status
                    == StatusView::Failed(message@),
    {
        match self.find_task(url) {
            Some(i) => {
                proof {
                    assert(self@.tasks[i as int] == self.tasks@[i as int]@);
                }
                if matches!(&self.tasks[i].status, CloneStatus::Cloning(_)) {
                    let mut t = self.tasks[i].duplicate();
                    t.finish_err(message);
                    self.tasks.set(i, t);
                    proof {
                        assert(final(self)@.tasks =~= old(self)@.tasks.update(i as int, t@));
                        assert forall|j: int|
                            0 <= j < old(self)@.tasks.len() && (#[trigger] old(
                                self,
                            )@.tasks[j]).url == url@ implies j == i as int by {
                            lemma_one_task_per_url(old(self)@.tasks, j, i as int);
                        }
                    }
                    true
                } else {
                    false
                }
            },
            None => false,
        }
    }

    /// Decides what cleanup does for the task with this URL, by the cleanup
    /// rule; `Unknown` when no task carries the URL.
    pub fn cleanup_decide(&self, url: &str) -> (d: CleanupDecision)
        requires
            self.wf(),
        ensures
            d@ is None <==> !has_url(self@.tasks, url@),
            forall|i: int|
                0 <= i < self@.tasks.len() && (#[trigger] self@.tasks[i]).url == url@ ==> d@
                    == Some(cleanup_rule(self@.tasks[i])),
    {
        match self.find_task(url) {
            Some(i) => {
                proof {
                    assert(self@.tasks[i as int] == self.tasks@[i as int]@);
                    assert(has_url(self@.tasks, url@)) by {
                        assert(self@.tasks[i as int].url == url@);
                    }
                    assert forall|j: int|
                        0 <= j < self@.tasks.len() && (#[trigger] self@.tasks[j]).url == url@
                            implies j == i as int by {
                        lemma_one_task_per_url(self@.tasks, j, i as int);
                    }
                }
                if matches!(&self.tasks[i].status, CloneStatus::Cloning(_)) {
                    CleanupDecision::Active
                } else {
                    match &self.tasks[i].temp_dir {
                        None => CleanupDecision::Nothing,
                        Some(d) => CleanupDecision::Remove(d.clone()),
                    }
                }
            },
            None => CleanupDecision::Unknown,
        }
    }

    /// Clears the working directory of one task after it was removed from
    /// disk; the status is untouched.  Returns whether a task with this URL
    /// existed.
    pub fn clear_task_dir(&mut self, url: &str) -> (r: bool)
        requires
            old(self).wf(),
        ensures
            final(self).wf(),
            final(self)@.pool == old(self)@.pool,
            final(self)@.tasks.len() == old(self)@.tasks.len(),
            r == exists|i: int|
                0 <= i < old(self)@.tasks.len() && (#[trigger] old(self)@.tasks[i]).url == url@
                    && !(old(self)@.tasks[i].status is Cloning),
            forall|i: int|
                0 <= i < old(self)@.tasks.len() && ((#[trigger] old(self)@.tasks[i]).url != url@
                    || old(self)@.tasks[i].status is Cloning) ==> final(self)@.tasks[i] == old(
                    self,
                )@.tasks[i],
            forall|i: int|
                0 <= i < old(self)@.tasks.len() && (#[trigger] old(self)@.tasks[i]).url == url@
                    && !(old(self)@.tasks[i].status is Cloning) ==> final(self)@.tasks[i]
                    == (TaskView { temp_dir: None, ..old(self)@.tasks[i] }),
            forall|i: int|
                0 <= i < old(self)@.tasks.len() ==> status_le(
                    (#[trigger] old(self)@.tasks[i]).status,
                    final(self)@.tasks[i].status,
                ),
    {
        match self.find_task(url) {
            Some(i) => {
                proof {
                    assert(self@.tasks[i as int] == self.tasks@[i as int]@);
                }
                if matches!(&self.tasks[i].status, CloneStatus::Cloning(_)) {
                    proof {
                        assert forall|j: int|
                            0 <= j < old(self)@.tasks.len() && (#[trigger] old(
                                self,
                            )@.tasks[j]).url == url@ implies j == i as int by {
                            lemma_one_task_per_url(old(self)@.tasks, j, i as int);
                        }
                        assert(forall|j: int|
                            0 <= j < old(self)@.tasks.len() ==> status_le(
                                (#[trigger] old(self)@.tasks[j]).status,
                                old(self)@.tasks[j].status,
                            )) by {
                            assert forall|j: int| 0 <= j < old(self)@.tasks.len() implies status_le(
                                (#[trigger] old(self)@.tasks[j]).status,
                                old(self)@.tasks[j].status,
                            ) by {
                                crate::tasks::lemma_status_le_refl(old(self)@.tasks[j].status);
                            }
                        }
                    }
                    return false;
                }
                let mut t = self.tasks[i].duplicate();
                t.clear_dir();
                self.tasks.set(i, t);
                proof {
                    assert(final(self)@.tasks =~= old(self)@.tasks.update(i as int, t@));
                    assert(has_url(old(self)@.tasks, url@)) by {
                        assert(old(self)@.tasks[i as int].url == url@);
                    }
                    assert forall|j: int|
                        0 <= j < old(self)@.tasks.len() && (#[trigger] old(self)@.tasks[j]).url
                            == url@ implies j == i as int by {
                        lemma_one_task_per_url(old(self)@.tasks, j, i as int);
                    }
                }
                true
            },
            None => false,
        }
    }

    /// Picks a credential for outbound work; see `TokenPool::select`.
    pub fn select_token(&self, now: u64) -> (r: Option<(usize, bool)>)
        ensures
            r is Some <==> self@.pool.len() > 0,
            r is Some ==> {
                let (i, exhausted) = r->Some_0;
                &&& i < self@.pool.len()
                &&& forall|j: int|
                    0 <= j < self@.pool.len() ==> (#[trigger] self@.pool[j]).remaining
                        <= self@.pool[i as int].remaining
                &&& forall|j: int|
                    0 <= j < self@.pool.len() && (#[trigger] self@.pool[j]).remaining
                        == self@.pool[i as int].remaining ==> self@.pool[i as int].last_used
                        <= self@.pool[j].last_used
                &&& exhausted == (self@.pool[i as int].remaining == 0
                    && self@.pool[i as int].reset_time > now)
            },
    {
        self.pool.select(now)
    }

    /// Returns a value copy of one credential entry.
    pub fn token_at(&self, i: usize) -> (e: crate::token::TokenEntry)
        requires
            i < self@.pool.len(),
        ensures
            e@ == self@.pool[i as int],
    {
        self.pool.entry_at(i)
    }

    /// Folds a work outcome into the credential named by `identifier`; see
    /// `TokenPool::record`.
    pub fn record_token(
        &mut self,
        identifier: &str,
        outcome: crate::token::RecordOutcome,
        now: u64,
    ) -> (r: bool)
        requires
            old(self).wf(),
        ensures
            final(self).wf(),
            final(self)@.tasks == old(self)@.tasks,
            r == crate::token::has_identifier(old(self)@.pool, identifier@),
            final(self)@.pool.len() == old(self)@.pool.len(),
            forall|j: int|
                0 <= j < old(self)@.pool.len() && (#[trigger] old(self)@.pool[j]).identifier
                    != identifier@ ==> final(self)@.pool[j] == old(self)@.pool[j],
            forall|j: int|
                0 <= j < old(self)@.pool.len() && (#[trigger] old(self)@.pool[j]).identifier
                    == identifier@ ==> final(self)@.pool[j] == crate::token::apply_outcome(
                    old(self)@.pool[j],
                    outcome,
                    now,
                ),
    {
        self.pool.record(identifier, outcome, now)
    }

    /// Finds the index of the task with this URL.
    fn find_task(&self, url: &str) -> (r: Option<usize>)
        ensures
            r is Some ==> r->Some_0 < self@.tasks.len() && self@.tasks[r->Some_0 as int].url
                == url@,
            r is None ==> !has_url(self@.tasks, url@),
    {
        let n = self.tasks.len();
        let mut i: usize = 0;
        while i < n
            invariant
                0 <= i <= n,
                n == self@.tasks.len(),
                forall|k: int| 0 <= k < i ==> (#[trigger] self@.tasks[k]).url != url@,
            decreases n - i,
        {
            proof {
                assert(self@.tasks[i as int] == self.tasks@[i as int]@);
            }
            if str_eq(self.tasks[i].url.as_str(), url) {
                return Some(i);
            }
            i = i + 1;
        }
        None
    }
}

/// Whether a URL occurs in a task vector.
fn contains_url(tasks: &Vec<CloneTask>, url: &str) -> (r: bool)
    ensures
        r == has_url(tasks@.map_values(|t: CloneTask| t@), url@),
{
    let n = tasks.len();
    let mut i: usize = 0;
    while i < n
        invariant
            0 <= i <= n,
            n == tasks@.len(),
            forall|k: int| 0 <= k < i ==> (#[trigger] tasks@[k])@.url != url@,
        decreases n - i,
    {
        if str_eq(tasks[i].url.as_str(), url) {
            proof {
                assert(has_url(tasks@.map_values(|t: CloneTask| t@), url@)) by {
                    assert(tasks@.map_values(|t: CloneTask| t@)[i as int].url == url@);
                }
            }
            return true;
        }
        i = i + 1;
    }
    proof {
        if has_url(tasks@.map_values(|t: CloneTask| t@), url@) {
            let views = tasks@.map_values(|t: CloneTask| t@);
            let k = choose|k: int| 0 <= k < views.len() && views[k].url == url@;
            assert(views[k] == tasks@[k]@);
        }
    }
    false
}

/// The lesser of the pending count and the ceiling, the ceiling raised to at
/// least one.
pub open spec fn spec_worker_limit(pending: usize, ceiling: usize) -> usize {
    let c: usize = if ceiling == 0 {
        1usize
    } else {
        ceiling
    };
    if pending < c {
        pending
    } else {
        c
    }
}

} // verus!
