use vstd::prelude::*;
use vstd::string::*;
use crate::builtin::{ShellBuiltin, builtin_find_callback, builtin_of};

verus! {

/// The shell's standard input, output and error.
pub const STDIN_FD: i32 = 0;

pub const STDOUT_FD: i32 = 1;

pub const STDERR_FD: i32 = 2;

/// The process id (and group id) of a descriptor that has no process.
pub const NO_PID: i32 = -1;

/// One stage of a pipeline: what to run, its arguments, its three streams,
/// and the process that runs it once started.
#[derive(Debug)]
pub struct Prog {
    pub file: String,
    pub args: Vec<String>,
    pub stdin: i32,
    pub stdout: i32,
    pub stderr: i32,
    pub pgrp: i32,
    pub pid: i32,
    pub builtin: Option<ShellBuiltin>,
}

/// The streams of a descriptor that it owns, that is, those that are not
/// inherited from the shell, in the order input, output, error.
pub open spec fn owned_streams(stdin: i32, stdout: i32, stderr: i32) -> Seq<i32> {
    (if stdin != STDIN_FD { seq![stdin] } else { Seq::empty() })
        + (if stdout != STDOUT_FD { seq![stdout] } else { Seq::empty() })
        + (if stderr != STDERR_FD { seq![stderr] } else { Seq::empty() })
}

/// One replacement of a standard stream in a new process: `target` becomes
/// a copy of `source`, and `source` is then closed.
#[derive(Clone, Copy, Debug, PartialEq, Eq, Structural)]
pub struct Redirection {
    pub target: i32,
    pub source: i32,
}

/// The replacements that a new process makes before it runs the command.
pub open spec fn redirections_of(stdin: i32, stdout: i32, stderr: i32) -> Seq<Redirection> {
    (if stdin != STDIN_FD { seq![Redirection { target: STDIN_FD, source: stdin }] } else { Seq::empty() })
        + (if stdout != STDOUT_FD { seq![Redirection { target: STDOUT_FD, source: stdout }] } else { Seq::empty() })
        + (if stderr != STDERR_FD { seq![Redirection { target: STDERR_FD, source: stderr }] } else { Seq::empty() })
}

impl Prog {
    pub open spec fn owned(&self) -> Seq<i32> {
        owned_streams(self.stdin, self.stdout, self.stderr)
    }

    pub open spec fn arg_views(&self) -> Seq<Seq<char>> {
        self.args@.map_values(|a: String| a@)
    }

    /// The same command, streams and process, whatever its group.
    pub open spec fn same_stage(&self, other: &Prog) -> bool {
        &&& self.file@ == other.file@
        &&& self.arg_views() == other.arg_views()
        &&& self.stdin == other.stdin
        &&& self.stdout == other.stdout
        &&& self.stderr == other.stderr
        &&& self.pid == other.pid
        &&& self.builtin == other.builtin
    }

    /// The same descriptor with its three streams replaced.
    pub open spec fn same_but_streams(&self, other: &Prog) -> bool {
        &&& self.file@ == other.file@
        &&& self.arg_views() == other.arg_views()
        &&& self.pgrp == other.pgrp
        &&& self.pid == other.pid
        &&& self.builtin == other.builtin
    }

    /// An empty descriptor: no command, no arguments, the shell's streams,
    /// no process and no group.
    pub fn new() -> (r: Prog)
        ensures
            r.file@ == Seq::<char>::empty(),
            r.args@.len() == 0,
            r.stdin == STDIN_FD,
            r.stdout == STDOUT_FD,
            r.stderr == STDERR_FD,
            r.pgrp == NO_PID,
            r.pid == NO_PID,
            r.builtin.is_none(),
    {
        Prog {
            file: String::new(),
            args: Vec::new(),
            stdin: STDIN_FD,
            stdout: STDOUT_FD,
            stderr: STDERR_FD,
            pgrp: NO_PID,
            pid: NO_PID,
            builtin: None,
        }
    }

    /// Names the command, and resolves the builtin of that name.
    pub fn set_file(&mut self, s: String)
        ensures
            final(self).file@ == s@,
            final(self).builtin == builtin_of(s@),
            final(self).arg_views() == old(self).arg_views(),
            final(self).stdin == old(self).stdin,
            final(self).stdout == old(self).stdout,
            final(self).stderr == old(self).stderr,
            final(self).pgrp == old(self).pgrp,
            final(self).pid == old(self).pid,
    {
        self.builtin = builtin_find_callback(s.as_str());
        self.file = s;
    }

    pub fn add_arg(&mut self, s: &str)
        ensures
            final(self).arg_views() == old(self).arg_views().push(s@),
            final(self).file@ == old(self).file@,
            final(self).stdin == old(self).stdin,
            final(self).stdout == old(self).stdout,
            final(self).stderr == old(self).stderr,
            final(self).pgrp == old(self).pgrp,
            final(self).pid == old(self).pid,
            final(self).builtin == old(self).builtin,
    {
        let a = String::from_str(s);
        self.args.push(a);
        assert(self.arg_views() =~= old(self).arg_views().push(s@));
    }

    /// Gives up the streams that this descriptor owns: they are returned, for
    /// the caller to close, and the descriptor is left with the shell's own.
    /// So no stream is handed out twice.
    pub fn close_fds(&mut self) -> (r: Vec<i32>)
        ensures
            r@ == old(self).owned(),
            final(self).owned().len() == 0,
            final(self).stdin == STDIN_FD,
            final(self).stdout == STDOUT_FD,
            final(self).stderr == STDERR_FD,
            final(self).same_but_streams(old(self)),
    {
        let mut r: Vec<i32> = Vec::new();
        if self.stdin != STDIN_FD {
            r.push(self.stdin);
            self.stdin = STDIN_FD;
        }
        if self.stdout != STDOUT_FD {
            r.push(self.stdout);
            self.stdout = STDOUT_FD;
        }
        if self.stderr != STDERR_FD {
            r.push(self.stderr);
            self.stderr = STDERR_FD;
        }
        assert(r@ =~= old(self).owned());
        r
    }

    /// What a new process for this descriptor does to its standard streams.
    pub fn child_redirections(&self) -> (r: Vec<Redirection>)
        ensures
            r@ == redirections_of(self.stdin, self.stdout, self.stderr),
    {
        let mut r: Vec<Redirection> = Vec::new();
        if self.stdin != STDIN_FD {
            r.push(Redirection { target: STDIN_FD, source: self.stdin });
        }
        if self.stdout != STDOUT_FD {
            r.push(Redirection { target: STDOUT_FD, source: self.stdout });
        }
        if self.stderr != STDERR_FD {
            r.push(Redirection { target: STDERR_FD, source: self.stderr });
        }
        assert(r@ =~= redirections_of(self.stdin, self.stdout, self.stderr));
        r
    }

    /// Records the outcome of creating this descriptor's process (`NO_PID` when
    /// it could not be created) and hands back the streams it owned, which the
    /// shell must now close: the new process has its own copies.
    pub fn record_spawn(&mut self, pid: i32) -> (r: Vec<i32>)
        ensures
            final(self).pid == pid,
            r@ == old(self).owned(),
            final(self).owned().len() == 0,
            final(self).file@ == old(self).file@,
            final(self).arg_views() == old(self).arg_views(),
            final(self).pgrp == old(self).pgrp,
            final(self).builtin == old(self).builtin,
    {
        self.pid = pid;
        self.close_fds()
    }
}

} // verus!
