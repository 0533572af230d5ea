use vstd::prelude::*;
use crate::job::{Job, JobSignal, JobState, SignalRequest, group_signal};
use crate::prog::{Prog, NO_PID};
use crate::status::{WaitStatus, decode_status, status_kind};

verus! {

/// What the shell must do, in order, as the job table reacts to a change.
#[derive(Clone, Copy, Debug, PartialEq, Eq, Structural)]
pub enum ReapAction {
    /// Deliver a signal to a process group.
    Signal(SignalRequest),
    /// Hand the controlling terminal to this process group.
    GiveTerminal(i32),
    /// Take the controlling terminal back for the shell's own group.
    ReclaimTerminal,
    /// Announce that the job numbered `number` exited with `status`.
    Finished { number: usize, status: i32 },
    /// Announce that the job numbered `number` was killed by `signal`.
    Killed { number: usize, signal: i32 },
    /// Announce that the job numbered `number` stopped.
    Stopped { number: usize },
}

/// The outcome of one reported status change: what to do, and whether the
/// reap loop ends.
#[derive(Debug)]
pub struct ReapStep {
    pub actions: Vec<ReapAction>,
    pub done: bool,
}

/// How a reap loop begins: what to do first, and whether its waits block.
#[derive(Debug)]
pub struct ReapStart {
    pub actions: Vec<ReapAction>,
    pub blocking: bool,
}

#[derive(Clone, Copy, Debug, PartialEq, Eq, Structural)]
pub enum ReapError {
    /// A status change was reported for a process that no job holds.
    UnknownPid(i32),
}

/// All jobs known to the shell, by position (a job's number is its index plus
/// one), and the one, if any, that owns the terminal.
#[derive(Debug)]
pub struct JobList {
    pub forground_job: Option<usize>,
    pub list: Vec<Job>,
}

/// Descriptor `k` of job `j` runs as process `pid`.
pub open spec fn holds_pid(list: Seq<Job>, pid: i32, j: int, k: int) -> bool {
    &&& 0 <= j < list.len()
    &&& 0 <= k < list[j].progs@.len()
    &&& list[j].progs@[k].pid == pid
}

/// `(j, k)` is the first place, in table and pipeline order, that holds `pid`.
pub open spec fn first_holder(list: Seq<Job>, pid: i32, j: int, k: int) -> bool {
    &&& holds_pid(list, pid, j, k)
    &&& forall|j2: int, k2: int| #[trigger] holds_pid(list, pid, j2, k2) ==> j < j2 || (j == j2 && k <= k2)
}

/// Giving the terminal to a job: its group receives the terminal and then a
/// continue signal, as it may have been stopped.
pub open spec fn foreground_actions(job: Job) -> Seq<ReapAction> {
    if job.pgrp > 0 {
        seq![
            ReapAction::GiveTerminal(job.pgrp),
            ReapAction::Signal(SignalRequest { target: -job.pgrp as i32, signal: JobSignal::Cont }),
        ]
    } else {
        Seq::empty()
    }
}

pub open spec fn foreground_actions_of(list: Seq<Job>, fg: Option<usize>) -> Seq<ReapAction> {
    match fg {
        Some(i) => foreground_actions(list[i as int]),
        None => Seq::empty(),
    }
}

/// The job with its state set to running.
pub open spec fn running(job: Job) -> Job {
    Job { state: JobState::Running, ..job }
}

pub open spec fn stopped(job: Job) -> Job {
    Job { state: JobState::Stopped, ..job }
}

pub open spec fn after_foreground(list: Seq<Job>, fg: Option<usize>) -> Seq<Job> {
    match fg {
        Some(i) => list.update(i as int, running(list[i as int])),
        None => list,
    }
}

/// The foreground slot once job `j` has left the table.
pub open spec fn fg_after_remove(fg: Option<usize>, j: int) -> Option<usize> {
    match fg {
        Some(i) => if i == j {
            None
        } else if i > j {
            Some((i - 1) as usize)
        } else {
            Some(i)
        },
        None => None,
    }
}

pub open spec fn signal_actions(s: Option<SignalRequest>) -> Seq<ReapAction> {
    match s {
        Some(s) => seq![ReapAction::Signal(s)],
        None => Seq::empty(),
    }
}

/// `after` is `before` with the process id of descriptor `k` cleared.
pub open spec fn cleared_at(before: Job, after: Job, k: int) -> bool {
    &&& after.progs@ == before.progs@.update(k, Prog { pid: NO_PID, ..before.progs@[k] })
    &&& after.pgrp == before.pgrp
    &&& after.name == before.name
    &&& after.state == before.state
    &&& after.is_background == before.is_background
    &&& after.started == before.started
}

/// Every descriptor of `job` but `k` has no live process.
pub open spec fn only_live(job: Job, k: int) -> bool {
    forall|i: int| 0 <= i < job.progs@.len() && i != k ==> #[trigger] job.progs@[i].pid == NO_PID
}

pub open spec fn step_is(r: Result<ReapStep, ReapError>, actions: Seq<ReapAction>, done: bool) -> bool {
    &&& r is Ok
    &&& r->Ok_0.actions@ == actions
    &&& r->Ok_0.done == done
}

/// The notice for a job that ended, by how it ended.
pub open spec fn end_notice(number: usize, kind: WaitStatus) -> ReapAction {
    match kind {
        WaitStatus::Signaled(sig) => ReapAction::Killed { number, signal: sig },
        WaitStatus::Exited(code) => ReapAction::Finished { number, status: code },
        _ => ReapAction::Finished { number, status: 0 },
    }
}

/// What one status change for descriptor `k` of job `j` does to the table
/// `o`, which becomes `f`, and what the step `r` says.
pub open spec fn reap_outcome(
    o: &JobList,
    f: &JobList,
    j: int,
    k: int,
    kind: WaitStatus,
    r: Result<ReapStep, ReapError>,
) -> bool {
    let job = o.list@[j];
    match kind {
        WaitStatus::Exited(_) | WaitStatus::Signaled(_) => if job.started && only_live(job, k) {
            &&& f.list@ == o.list@.remove(j)
            &&& f.forground_job == fg_after_remove(o.forground_job, j)
            &&& if o.forground_job == Some(j as usize) {
                step_is(r, seq![ReapAction::ReclaimTerminal], true)
            } else {
                step_is(r, seq![end_notice((j + 1) as usize, kind)], false)
            }
        } else {
            &&& f.list@.len() == o.list@.len()
            &&& forall|i: int| 0 <= i < o.list@.len() && i != j ==> f.list@[i] == o.list@[i]
            &&& cleared_at(job, f.list@[j], k)
            &&& f.forground_job == o.forground_job
            &&& step_is(r, Seq::empty(), false)
        },
        WaitStatus::Stopped => if job.state == JobState::Stopped {
            &&& f.list@ == o.list@
            &&& f.forground_job == o.forground_job
            &&& step_is(r, Seq::empty(), false)
        } else {
            let l = o.list@.update(j, stopped(job));
            let first = signal_actions(group_signal(job.pgrp, JobSignal::Stop)) + (if o.forground_job.is_some() {
                seq![ReapAction::ReclaimTerminal]
            } else {
                Seq::empty()
            }) + seq![ReapAction::Stopped { number: (j + 1) as usize }];
            if o.forground_job == Some(j as usize) {
                &&& f.list@ == l
                &&& f.forground_job.is_none()
                &&& step_is(r, first, true)
            } else {
                &&& f.list@ == after_foreground(l, o.forground_job)
                &&& f.forground_job == o.forground_job
                &&& step_is(r, first + foreground_actions_of(l, o.forground_job), false)
            }
        },
        WaitStatus::Continued => {
            &&& f.list@ == o.list@.update(j, running(job))
            &&& f.forground_job == o.forground_job
            &&& step_is(r, Seq::empty(), false)
        },
        WaitStatus::Other => {
            &&& f.list@ == o.list@
            &&& f.forground_job == o.forground_job
            &&& step_is(r, Seq::empty(), false)
        },
    }
}

impl JobList {
    pub open spec fn wf(&self) -> bool {
        match self.forground_job {
            Some(i) => i < self.list@.len(),
            None => true,
        }
    }

    pub fn new() -> (r: JobList)
        ensures
            r.wf(),
            r.list@.len() == 0,
            r.forground_job.is_none(),
    {
        JobList { list: Vec::new(), forground_job: None }
    }

    /// Stores a job, at the end of the table; unless it runs in the background
    /// it becomes the foreground job. Returns its index.
    pub fn add_job(&mut self, job: Job) -> (r: usize)
        requires
            old(self).wf(),
        ensures
            final(self).wf(),
            r == old(self).list@.len(),
            final(self).list@ == old(self).list@.push(job),
            final(self).forground_job == (if job.is_background {
                old(self).forground_job
            } else {
                Some(r)
            }),
    {
        let bg = job.is_background;
        self.list.push(job);
        let idx = self.list.len() - 1;
        if !bg {
            self.forground_job = Some(idx);
        }
        idx
    }

    pub fn set_forground_job(&mut self, job: Option<usize>)
        requires
            match job {
                Some(i) => i < old(self).list@.len(),
                None => true,
            },
        ensures
            final(self).wf(),
            final(self).forground_job == job,
            final(self).list == old(self).list,
    {
        self.forground_job = job;
    }

    /// Takes job `job_index` out of the table; the foreground slot follows the
    /// jobs that move down, and is cleared if it named the removed job.
    pub fn remove_job(&mut self, job_index: usize)
        requires
            old(self).wf(),
            job_index < old(self).list@.len(),
        ensures
            final(self).wf(),
            final(self).list@ == old(self).list@.remove(job_index as int),
            final(self).forground_job == fg_after_remove(old(self).forground_job, job_index as int),
    {
        self.list.remove(job_index);
        match self.forground_job {
            Some(i) => {
                if i == job_index {
                    self.forground_job = None;
                } else if i > job_index {
                    self.forground_job = Some(i - 1);
                }
            },
            None => {},
        }
    }

    pub fn is_empty(&self) -> (r: bool)
        ensures
            r == (self.list@.len() == 0),
    {
        self.list.len() == 0
    }

    /// The index of the first job of group `pgrp`.
    pub fn find_pgrp(&self, pgrp: i32) -> (r: Option<usize>)
        ensures
            match r {
                Some(i) => i < self.list@.len() && self.list@[i as int].pgrp == pgrp && forall|i2: int|
                    0 <= i2 < i ==> #[trigger] self.list@[i2].pgrp != pgrp,
                None => forall|i2: int| 0 <= i2 < self.list@.len() ==> #[trigger] self.list@[i2].pgrp != pgrp,
            },
    {
        let mut i: usize = 0;
        while i < self.list.len()
            invariant
                i <= self.list@.len(),
                forall|i2: int| 0 <= i2 < i ==> #[trigger] self.list@[i2].pgrp != pgrp,
            decreases self.list@.len() - i,
        {
            if self.list[i].pgrp == pgrp {
                return Some(i);
            }
            i = i + 1;
        }
        None
    }

    /// The job index and descriptor index of the first descriptor that runs
    /// as process `pid`.
    pub fn find_pid(&self, pid: i32) -> (r: Option<(usize, usize)>)
        ensures
            match r {
                Some((j, k)) => first_holder(self.list@, pid, j as int, k as int),
                None => forall|j: int, k: int| !holds_pid(self.list@, pid, j, k),
            },
    {
        let mut i: usize = 0;
        while i < self.list.len()
            invariant
                i <= self.list@.len(),
                forall|j: int, k: int| #[trigger] holds_pid(self.list@, pid, j, k) ==> j >= i,
            decreases self.list@.len() - i,
        {
            let job = &self.list[i];
            let mut k: usize = 0;
            while k < job.progs.len()
                invariant
                    i < self.list@.len(),
                    job == self.list@[i as int],
                    k <= job.progs@.len(),
                    forall|j: int, k2: int| #[trigger] holds_pid(self.list@, pid, j, k2) ==> j > i || (j == i && k2
                        >= k),
                decreases job.progs@.len() - k,
            {
                if job.progs[k].pid == pid {
                    return Some((i, k));
                }
                k = k + 1;
            }
            i = i + 1;
        }
        None
    }

    /// Gives the terminal to the foreground job, if one is set, and continues
    /// it: a job about to own the terminal must run.
    pub fn make_job_forground(&mut self) -> (r: Vec<ReapAction>)
        requires
            old(self).wf(),
        ensures
            final(self).wf(),
            r@ == foreground_actions_of(old(self).list@, old(self).forground_job),
            final(self).list@ == after_foreground(old(self).list@, old(self).forground_job),
            final(self).forground_job == old(self).forground_job,
    {
        let mut r: Vec<ReapAction> = Vec::new();
        match self.forground_job {
            Some(i) => {
                let mut job = self.list.remove(i);
                let g = job.pgrp;
                let sig = job.cont();
                if g > 0 {
                    r.push(ReapAction::GiveTerminal(g));
                }
                match sig {
                    Some(s) => r.push(ReapAction::Signal(s)),
                    None => {},
                }
                self.list.insert(i, job);
                assert(self.list@ =~= after_foreground(old(self).list@, old(self).forground_job));
                assert(r@ =~= foreground_actions_of(old(self).list@, old(self).forground_job));
            },
            None => {},
        }
        r
    }

    /// Begins a reap loop: the foreground job, if any, takes the terminal,
    /// and the loop's waits block exactly when there is one.
    pub fn reap_start(&mut self) -> (r: ReapStart)
        requires
            old(self).wf(),
        ensures
            final(self).wf(),
            r.actions@ == foreground_actions_of(old(self).list@, old(self).forground_job),
            r.blocking == old(self).forground_job.is_some(),
            final(self).list@ == after_foreground(old(self).list@, old(self).forground_job),
            final(self).forground_job == old(self).forground_job,
    {
        let actions = self.make_job_forground();
        ReapStart { actions, blocking: self.forground_job.is_some() }
    }

    /// Reacts to one result of the wait for a child: `pid` is what the wait
    /// returned and `status` what it reported. A result of 0 (nothing changed)
    /// or below (no child to wait for) ends the loop at once.
    pub fn reap_event(&mut self, pid: i32, status: i32) -> (r: Result<ReapStep, ReapError>)
        requires
            old(self).wf(),
        ensures
            final(self).wf(),
            pid <= 0 ==> step_is(r, Seq::empty(), true) && final(self).list@ == old(self).list@
                && final(self).forground_job == old(self).forground_job,
            pid > 0 && (forall|j: int, k: int| !holds_pid(old(self).list@, pid, j, k)) ==> r == Err::<
                ReapStep,
                ReapError,
            >(ReapError::UnknownPid(pid)),
            forall|j: int, k: int|
                pid > 0 && #[trigger] first_holder(old(self).list@, pid, j, k) ==> reap_outcome(
                    old(self),
                    final(self),
                    j,
                    k,
                    status_kind(status),
                    r,
                ),
    {
        if pid <= 0 {
            return Ok(ReapStep { actions: Vec::new(), done: true });
        }
        let found = self.find_pid(pid);
        let (j, k) = match found {
            None => {
                return Err(ReapError::UnknownPid(pid));
            },
            Some(p) => p,
        };
        proof {
            assert forall|j2: int, k2: int| first_holder(old(self).list@, pid, j2, k2) implies j2 == j && k2
                == k by {
                assert(holds_pid(old(self).list@, pid, j as int, k as int));
                assert(holds_pid(old(self).list@, pid, j2, k2));
            }
        }
        let kind = decode_status(status);
        let len = self.list.len();
        assert(j < len);
        let number = j + 1;
        let mut actions: Vec<ReapAction> = Vec::new();
        match kind {
            WaitStatus::Exited(_) | WaitStatus::Signaled(_) => {
                let mut job = self.list.remove(j);
                job.clear_pid(k);
                let ghost oj = old(self).list@[j as int];
                assert(self.list@ == old(self).list@.remove(j as int));
                if job.has_exited() {
                    assert(only_live(oj, k as int)) by {
                        assert forall|i: int| 0 <= i < oj.progs@.len() && i != k implies #[trigger] oj.progs@[i].pid
                            == NO_PID by {
                            assert(job.progs@[i] == oj.progs@[i]);
                        }
                    }
                    let was_fg = match self.forground_job {
                        Some(i) => i == j,
                        None => false,
                    };
                    match self.forground_job {
                        Some(i) => {
                            if i == j {
                                self.forground_job = None;
                            } else if i > j {
                                self.forground_job = Some(i - 1);
                            }
                        },
                        None => {},
                    }
                    if was_fg {
                        actions.push(ReapAction::ReclaimTerminal);
                        return Ok(ReapStep { actions, done: true });
                    }
                    let notice = match kind {
                        WaitStatus::Signaled(sig) => ReapAction::Killed { number, signal: sig },
                        WaitStatus::Exited(code) => ReapAction::Finished { number, status: code },
                        _ => ReapAction::Finished { number, status: 0 },
                    };
                    actions.push(notice);
                    Ok(ReapStep { actions, done: false })
                } else {
                    assert(!(oj.started && only_live(oj, k as int))) by {
                        if job.started {
                        let i = choose|i: int| 0 <= i < job.progs@.len() && job.progs@[i].pid != NO_PID;
                        assert(i != k);
                        assert(job.progs@[i] == oj.progs@[i]);
                        }
                    }
                    self.list.insert(j, job);
                    assert(self.list@ =~= old(self).list@.update(j as int, self.list@[j as int]));
                    Ok(ReapStep { actions, done: false })
                }
            },
            WaitStatus::Stopped => {
                if self.list[j].state == JobState::Stopped {
                    return Ok(ReapStep { actions, done: false });
                }
                let mut job = self.list.remove(j);
                let sig = job.stop();
                self.list.insert(j, job);
                assert(self.list@ =~= old(self).list@.update(j as int, stopped(old(self).list@[j as int])));
                match sig {
                    Some(s) => actions.push(ReapAction::Signal(s)),
                    None => {},
                }
                if self.forground_job.is_some() {
                    actions.push(ReapAction::ReclaimTerminal);
                }
                actions.push(ReapAction::Stopped { number });
                let was_fg = match self.forground_job {
                    Some(i) => i == j,
                    None => false,
                };
                let ghost first = signal_actions(group_signal(old(self).list@[j as int].pgrp, JobSignal::Stop)) + (
                if old(self).forground_job.is_some() {
                    seq![ReapAction::ReclaimTerminal]
                } else {
                    Seq::empty()
                }) + seq![ReapAction::Stopped { number: (j + 1) as usize }];
                assert(actions@ =~= first);
                if was_fg {
                    self.forground_job = None;
                    return Ok(ReapStep { actions, done: true });
                }
                let ghost l = self.list@;
                let mut more = self.make_job_forground();
                actions.append(&mut more);
                assert(actions@ =~= first + foreground_actions_of(l, old(self).forground_job));
                Ok(ReapStep { actions, done: false })
            },
            WaitStatus::Continued => {
                let mut job = self.list.remove(j);
                job.mark_running();
                self.list.insert(j, job);
                assert(self.list@ =~= old(self).list@.update(j as int, running(old(self).list@[j as int])));
                Ok(ReapStep { actions, done: false })
            },
            WaitStatus::Other => Ok(ReapStep { actions, done: false }),
        }
    }

    /// The index of the job numbered `number` (numbers start at 1).
    pub fn job_index(&self, number: usize) -> (r: Option<usize>)
        ensures
            r == (if 1 <= number && number <= self.list@.len() {
                Some((number - 1) as usize)
            } else {
                None
            }),
    {
        if number >= 1 && number <= self.list.len() {
            Some(number - 1)
        } else {
            None
        }
    }
}

} // verus!
