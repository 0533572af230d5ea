use vstd::prelude::*;
use crate::prog::{Prog, NO_PID};

verus! {

#[derive(Clone, Copy, Debug, PartialEq, Eq, Structural)]
pub enum JobState {
    Stopped,
    Running,
}

/// A signal that the shell sends to a whole process group.
#[derive(Clone, Copy, Debug, PartialEq, Eq, Structural)]
pub enum JobSignal {
    Kill,
    Stop,
    Cont,
}

/// A signal to deliver: `target` is the negated group id, which addresses
/// every process of the group.
#[derive(Clone, Copy, Debug, PartialEq, Eq, Structural)]
pub struct SignalRequest {
    pub target: i32,
    pub signal: JobSignal,
}

/// One pipeline, run as a unit in one process group.
#[derive(Debug)]
pub struct Job {
    pub pgrp: i32,
    pub name: String,
    pub state: JobState,
    pub progs: Vec<Prog>,
    pub is_background: bool,
    /// Whether any descriptor of the job has been launched.
    pub started: bool,
}

/// The request that addresses group `pgrp` with `signal`; none when the job
/// has no group of its own, so that no signal can strike another group.
pub open spec fn group_signal(pgrp: i32, signal: JobSignal) -> Option<SignalRequest> {
    if pgrp > 0 {
        Some(SignalRequest { target: -pgrp as i32, signal })
    } else {
        None
    }
}

impl Job {
    /// Whether no descriptor of the job has a live process.
    pub open spec fn all_exited(&self) -> bool {
        forall|i: int| 0 <= i < self.progs@.len() ==> #[trigger] self.progs@[i].pid == NO_PID
    }

    /// The group that descriptor `i` joins when it is started: the job's group
    /// once its leader runs, else 0, which makes the new process a leader.
    pub open spec fn group_for_launch(&self) -> i32 {
        if self.pgrp > 0 {
            self.pgrp
        } else {
            0
        }
    }

    /// A job with no descriptors, no group, and not started.
    pub fn new() -> (r: Job)
        ensures
            r.pgrp == NO_PID,
            r.name@ == Seq::<char>::empty(),
            r.state == JobState::Stopped,
            r.progs@.len() == 0,
            !r.is_background,
            !r.started,
    {
        Job { pgrp: NO_PID, name: String::new(), state: JobState::Stopped, progs: Vec::new(), is_background: false, started: false }
    }

    pub fn add_prog(&mut self, prog: Prog)
        ensures
            final(self).progs@ == old(self).progs@.push(prog),
            final(self).pgrp == old(self).pgrp,
            final(self).name == old(self).name,
            final(self).state == old(self).state,
            final(self).is_background == old(self).is_background,
            final(self).started == old(self).started,
    {
        self.progs.push(prog);
    }

    /// Fixes the group that descriptor `i` is about to join, and returns it.
    pub fn launch_group(&mut self, i: usize) -> (r: i32)
        requires
            i < old(self).progs@.len(),
        ensures
            r == old(self).group_for_launch(),
            final(self).progs@ == old(self).progs@.update(i as int, final(self).progs@[i as int]),
            final(self).progs@[i as int].pgrp == r,
            final(self).progs@[i as int].same_stage(&old(self).progs@[i as int]),
            final(self).pgrp == old(self).pgrp,
            final(self).name == old(self).name,
            final(self).state == old(self).state,
            final(self).is_background == old(self).is_background,
            final(self).started == old(self).started,
    {
        let g: i32 = if self.pgrp > 0 {
            self.pgrp
        } else {
            0
        };
        let mut p = self.progs.remove(i);
        p.pgrp = g;
        self.progs.insert(i, p);
        assert(self.progs@ =~= old(self).progs@.update(i as int, self.progs@[i as int]));
        g
    }

    /// Records that descriptor `i` was started as process `pid` (`NO_PID` when
    /// creating it failed). The first process that starts becomes the leader:
    /// its id is the job's group. The streams that the descriptor owned are
    /// returned for the shell to close. The job is then running.
    pub fn record_launch(&mut self, i: usize, pid: i32) -> (r: Vec<i32>)
        requires
            i < old(self).progs@.len(),
        ensures
            r@ == old(self).progs@[i as int].owned(),
            final(self).progs@.len() == old(self).progs@.len(),
            forall|k: int| 0 <= k < old(self).progs@.len() && k != i ==> final(self).progs@[k] == old(self).progs@[k],
            final(self).progs@[i as int].pid == pid,
            final(self).progs@[i as int].owned().len() == 0,
            final(self).pgrp == (if old(self).pgrp <= 0 && pid > 0 { pid } else { old(self).pgrp }),
            final(self).progs@[i as int].pgrp == (if old(self).pgrp <= 0 && pid > 0 {
                pid
            } else {
                old(self).progs@[i as int].pgrp
            }),
            final(self).state == JobState::Running,
            final(self).name == old(self).name,
            final(self).is_background == old(self).is_background,
            final(self).started,
    {
        let mut p = self.progs.remove(i);
        let fds = p.record_spawn(pid);
        if self.pgrp <= 0 && pid > 0 {
            self.pgrp = pid;
            p.pgrp = pid;
        }
        self.progs.insert(i, p);
        self.state = JobState::Running;
        self.started = true;
        fds
    }

    /// Marks the job running, as after it was started or continued.
    pub fn mark_running(&mut self)
        ensures
            final(self).state == JobState::Running,
            final(self).progs == old(self).progs,
            final(self).pgrp == old(self).pgrp,
            final(self).name == old(self).name,
            final(self).is_background == old(self).is_background,
            final(self).started == old(self).started,
    {
        self.state = JobState::Running;
    }

    /// Terminates every process of the job; its state is left as it is.
    pub fn kill(&self) -> (r: Option<SignalRequest>)
        ensures
            r == group_signal(self.pgrp, JobSignal::Kill),
    {
        if self.pgrp > 0 {
            Some(SignalRequest { target: -self.pgrp, signal: JobSignal::Kill })
        } else {
            None
        }
    }

    /// Stops every process of the job, which is then stopped.
    pub fn stop(&mut self) -> (r: Option<SignalRequest>)
        ensures
            r == group_signal(old(self).pgrp, JobSignal::Stop),
            final(self).state == JobState::Stopped,
            final(self).progs == old(self).progs,
            final(self).pgrp == old(self).pgrp,
            final(self).name == old(self).name,
            final(self).is_background == old(self).is_background,
            final(self).started == old(self).started,
    {
        self.state = JobState::Stopped;
        if self.pgrp > 0 {
            Some(SignalRequest { target: -self.pgrp, signal: JobSignal::Stop })
        } else {
            None
        }
    }

    /// Continues every process of the job, which is then running.
    pub fn cont(&mut self) -> (r: Option<SignalRequest>)
        ensures
            r == group_signal(old(self).pgrp, JobSignal::Cont),
            final(self).state == JobState::Running,
            final(self).progs == old(self).progs,
            final(self).pgrp == old(self).pgrp,
            final(self).name == old(self).name,
            final(self).is_background == old(self).is_background,
            final(self).started == old(self).started,
    {
        self.state = JobState::Running;
        if self.pgrp > 0 {
            Some(SignalRequest { target: -self.pgrp, signal: JobSignal::Cont })
        } else {
            None
        }
    }

    /// Whether the job was started and every descriptor's process id has
    /// since been cleared. A job that never ran has not exited.
    pub fn has_exited(&self) -> (r: bool)
        ensures
            r == (self.started && self.all_exited()),
    {
        if !self.started {
            return false;
        }
        let mut i: usize = 0;
        while i < self.progs.len()
            invariant
                i <= self.progs@.len(),
                forall|k: int| 0 <= k < i ==> #[trigger] self.progs@[k].pid == NO_PID,
            decreases self.progs@.len() - i,
        {
            if self.progs[i].pid != NO_PID {
                return false;
            }
            i = i + 1;
        }
        true
    }

    /// Whether the job is one builtin, which the shell runs in its own process.
    pub fn is_simple_bulitin(&self) -> (r: bool)
        ensures
            r == (self.progs@.len() == 1 && self.progs@[0].builtin.is_some()),
    {
        self.progs.len() == 1 && self.progs[0].builtin.is_some()
    }

    /// Clears the process id of descriptor `k`, whose process has ended.
    pub fn clear_pid(&mut self, k: usize)
        requires
            k < old(self).progs@.len(),
        ensures
            final(self).progs@ == old(self).progs@.update(k as int, Prog { pid: NO_PID, ..old(self).progs@[k as int] }),
            final(self).pgrp == old(self).pgrp,
            final(self).name == old(self).name,
            final(self).state == old(self).state,
            final(self).is_background == old(self).is_background,
            final(self).started == old(self).started,
    {
        let mut p = self.progs.remove(k);
        p.pid = NO_PID;
        self.progs.insert(k, p);
        assert(self.progs@ =~= old(self).progs@.update(k as int, Prog { pid: NO_PID, ..old(self).progs@[k as int] }));
    }
}

} // verus!
