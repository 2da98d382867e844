//! Clone tasks and their status lifecycle.
//!
//! A task starts `Queued`, moves to `Cloning` with a progress percentage that
//! only ever grows, and ends in `Completed` or `Failed`.  `status_le` is the
//! reachability order of that lifecycle: every mutation of a task's status
//! promises `status_le(old, new)`, so any two observations of one task are
//! ordered and its progress is non-decreasing.

use vstd::prelude::*;

verus! {

/// The lifecycle stage of one clone task.
#[derive(Debug, Clone, PartialEq)]
pub enum CloneStatus {
    /// Accepted but not yet started.
    Queued,
    /// Clone in flight, with a progress percentage of at most 100.
    Cloning(u8),
    /// The working tree is present at the task's directory.
    Completed,
    /// Terminal failure, with its message.
    Failed(String),
}

/// The mathematical value of a status: the failure message is a sequence of
/// characters.
pub ghost enum StatusView {
    Queued,
    Cloning(u8),
    Completed,
    Failed(Seq<char>),
}

impl View for CloneStatus {
    type V = StatusView;

    open spec fn view(&self) -> StatusView {
        match self {
            CloneStatus::Queued => StatusView::Queued,
            CloneStatus::Cloning(p) => StatusView::Cloning(*p),
            CloneStatus::Completed => StatusView::Completed,
            CloneStatus::Failed(m) => StatusView::Failed(m@),
        }
    }
}

impl StatusView {
    /// A status the library hands out: progress never exceeds 100.
    pub open spec fn wf(self) -> bool {
        match self {
            StatusView::Cloning(p) => p <= 100,
            _ => true,
        }
    }

    /// A status from which no further transition is possible.
    pub open spec fn is_terminal(self) -> bool {
        self is Completed || self is Failed
    }
}

/// `b` is reachable from `a` in the task lifecycle without reverse edges,
/// and without a drop in progress.
pub open spec fn status_le(a: StatusView, b: StatusView) -> bool {
    match (a, b) {
        (StatusView::Queued, _) => true,
        (StatusView::Cloning(p), StatusView::Cloning(q)) => p <= q,
        (StatusView::Cloning(_), StatusView::Completed) => true,
        (StatusView::Cloning(_), StatusView::Failed(_)) => true,
        (StatusView::Completed, StatusView::Completed) => true,
        (StatusView::Failed(e), StatusView::Failed(f)) => e == f,
        _ => false,
    }
}

/// The lifecycle order is reflexive: observing a task twice at the same
/// moment is consistent.
pub proof fn lemma_status_le_refl(a: StatusView)
    ensures
        status_le(a, a),
{
}

/// The lifecycle order is transitive: any chain of observations of one task
/// is ordered end to end, so progress is non-decreasing over the whole run
/// and no observation ever sees a reverse edge.
pub proof fn lemma_status_le_trans(a: StatusView, b: StatusView, c: StatusView)
    requires
        status_le(a, b),
        status_le(b, c),
    ensures
        status_le(a, c),
{
}

/// Any run of observations of one task whose neighbours respect the
/// lifecycle order is ordered end to end: between any earlier and any later
/// observation the status moves only forward along the lifecycle and its
/// progress never decreases.
pub proof fn lemma_observations_ordered(obs: Seq<StatusView>, i: int, j: int)
    requires
        forall|k: int| 0 <= k < obs.len() - 1 ==> status_le(#[trigger] obs[k], obs[k + 1]),
        0 <= i <= j < obs.len(),
    ensures
        status_le(obs[i], obs[j]),
    decreases j - i,
{
    if i == j {
        lemma_status_le_refl(obs[i]);
    } else {
        lemma_observations_ordered(obs, i, j - 1);
        lemma_status_le_trans(obs[i], obs[j - 1], obs[j]);
    }
}

/// A terminal status never changes again.
pub proof fn lemma_terminal_stays(a: StatusView, b: StatusView)
    requires
        a.is_terminal(),
        status_le(a, b),
    ensures
        b == a,
{
}

/// One repository clone: its source URL, where it stands, and its working
/// directory once cloning has begun.
#[derive(Debug, Clone)]
pub struct CloneTask {
    /// The source URL; the unique key of the task within a manager.
    pub url: String,
    /// Where the task stands in its lifecycle.
    pub status: CloneStatus,
    /// The working directory, present once cloning has begun and until
    /// cleanup removes it.
    pub temp_dir: Option<String>,
}

/// The mathematical value of a task.
pub ghost struct TaskView {
    pub url: Seq<char>,
    pub status: StatusView,
    pub temp_dir: Option<Seq<char>>,
}

impl View for CloneTask {
    type V = TaskView;

    open spec fn view(&self) -> TaskView {
        TaskView {
            url: self.url@,
            status: self.status@,
            temp_dir: match &self.temp_dir {
                Some(d) => Some(d@),
                None => None,
            },
        }
    }
}

impl CloneTask {
    /// Every task the library hands out satisfies this.
    pub open spec fn wf(self) -> bool {
        self@.status.wf()
    }

    /// A fresh task for one URL: queued, with no working directory yet.
    pub fn new(url: String) -> (t: CloneTask)
        ensures
            t@.url == url@,
            t@.status == StatusView::Queued,
            t@.temp_dir is None,
            t.wf(),
    {
        CloneTask { url, status: CloneStatus::Queued, temp_dir: None }
    }

    /// A value copy of the task, for snapshots.
    pub fn duplicate(&self) -> (t: CloneTask)
        ensures
            t@ == self@,
    {
        CloneTask {
            url: self.url.clone(),
            status: match &self.status {
                CloneStatus::Queued => CloneStatus::Queued,
                CloneStatus::Cloning(p) => CloneStatus::Cloning(*p),
                CloneStatus::Completed => CloneStatus::Completed,
                CloneStatus::Failed(m) => CloneStatus::Failed(m.clone()),
            },
            temp_dir: match &self.temp_dir {
                Some(d) => Some(d.clone()),
                None => None,
            },
        }
    }

    /// Begins the clone: the task leaves `Queued` for `Cloning(0)`, and the
    /// working directory is set in the same step.
    pub fn start(&mut self, dir: String)
        requires
            old(self)@.status == StatusView::Queued,
        ensures
            final(self)@.url == old(self)@.url,
            final(self)@.status == StatusView::Cloning(0u8),
            final(self)@.temp_dir == Some(dir@),
            status_le(old(self)@.status, final(self)@.status),
            final(self).wf(),
    {
        self.status = CloneStatus::Cloning(0);
        self.temp_dir = Some(dir);
    }

    /// Records a progress sample.  The stored progress is the maximum of the
    /// old value and the new one clamped to 100, so progress never decreases
    /// and never exceeds 100.
    pub fn report_progress(&mut self, p: u8)
        requires
            old(self)@.status is Cloning,
            old(self).wf(),
        ensures
            final(self)@.url == old(self)@.url,
            final(self)@.temp_dir == old(self)@.temp_dir,
            final(self)@.status == StatusView::Cloning(
                if p > 100 {
                    max_progress(old(self)@.status->Cloning_0, 100u8)
                } else {
                    max_progress(old(self)@.status->Cloning_0, p)
                },
            ),
            status_le(old(self)@.status, final(self)@.status),
            final(self).wf(),
    {
        let sample = if p > 100 {
            100
        } else {
            p
        };
        if let CloneStatus::Cloning(cur) = &self.status {
            let keep = *cur;
            if sample > keep {
                self.status = CloneStatus::Cloning(sample);
            } else {
                self.status = CloneStatus::Cloning(keep);
            }
        }
    }

    /// Ends the clone successfully: the task reaches `Completed`.
    pub fn finish_ok(&mut self)
        requires
            old(self)@.status is Cloning,
        ensures
            final(self)@.url == old(self)@.url,
            final(self)@.temp_dir == old(self)@.temp_dir,
            final(self)@.status == StatusView::Completed,
            status_le(old(self)@.status, final(self)@.status),
            final(self).wf(),
    {
        self.status = CloneStatus::Completed;
    }

    /// Ends the clone in failure: the task reaches `Failed` with the given
    /// message.
    pub fn finish_err(&mut self, message: String)
        requires
            old(self)@.status is Cloning,
        ensures
            final(self)@.url == old(self)@.url,
            final(self)@.temp_dir == old(self)@.temp_dir,
            final(self)@.status == StatusView::Failed(message@),
            status_le(old(self)@.status, final(self)@.status),
            final(self).wf(),
    {
        self.status = CloneStatus::Failed(message);
    }

    /// Clears the working directory after it was removed from disk; the
    /// status is untouched.
    pub fn clear_dir(&mut self)
        ensures
            final(self)@.url == old(self)@.url,
            final(self)@.status == old(self)@.status,
            final(self)@.temp_dir is None,
            status_le(old(self)@.status, final(self)@.status),
    {
        self.temp_dir = None;
        proof {
            lemma_status_le_refl(self@.status);
        }
    }
}

/// The larger of two progress values.
pub open spec fn max_progress(a: u8, b: u8) -> u8 {
    if a >= b {
        a
    } else {
        b
    }
}

} // verus!
