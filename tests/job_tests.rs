use rshell::builtin::{builtin_find_callback, echo_text, job_number_arg, resolve_cd, BuiltinKind};
use rshell::job::{Job, JobSignal, JobState, SignalRequest};
use rshell::job_list::{JobList, ReapAction, ReapError};
use rshell::prog::{Prog, Redirection, NO_PID, STDIN_FD, STDOUT_FD};
use rshell::status::{decode_status, WaitStatus};

fn prog(file: &str) -> Prog {
    let mut p = Prog::new();
    p.set_file(file.to_string());
    p
}

fn started_job(pids: &[i32], background: bool) -> Job {
    let mut job = Job::new();
    job.is_background = background;
    for (i, pid) in pids.iter().enumerate() {
        job.add_prog(prog(&format!("cmd{}", i)));
        let g = job.launch_group(i);
        assert_eq!(g, if i == 0 { 0 } else { pids[0] });
        assert!(job.record_launch(i, *pid).is_empty());
    }
    job.mark_running();
    job
}

const EXIT_1: i32 = 0x0100;
const STOPPED_TSTP: i32 = 0x147f;

#[test]
fn start_assigns_leader_group() {
    let job = started_job(&[100, 101, 102], false);
    assert_eq!(job.pgrp, 100);
    for p in &job.progs {
        assert_eq!(p.pgrp, 100);
    }
    assert_eq!(job.state, JobState::Running);
}

#[test]
fn record_launch_hands_back_owned_streams() {
    let mut job = Job::new();
    let mut p = prog("cat");
    p.stdin = 9;
    p.stdout = 10;
    job.add_prog(p);
    assert_eq!(job.progs[0].child_redirections(), vec![
        Redirection { target: STDIN_FD, source: 9 },
        Redirection { target: STDOUT_FD, source: 10 },
    ]);
    job.launch_group(0);
    assert_eq!(job.record_launch(0, 55), vec![9, 10]);
    assert_eq!(job.progs[0].stdin, STDIN_FD);
    assert_eq!(job.progs[0].stdout, STDOUT_FD);
    assert!(job.progs[0].child_redirections().is_empty());
    assert_eq!(job.progs[0].pid, 55);
}

#[test]
fn job_that_never_ran_has_not_exited() {
    assert!(!Job::new().has_exited());
    let mut job = Job::new();
    job.add_prog(prog("ls"));
    assert!(!job.has_exited());
    assert!(!job.started);
}

#[test]
fn has_exited_tracks_cleared_pids() {
    let mut job = started_job(&[200, 201], false);
    assert!(!job.has_exited());
    job.clear_pid(1);
    assert!(!job.has_exited());
    job.clear_pid(0);
    assert!(job.has_exited());
}

#[test]
fn state_changes_only_by_stop_and_cont() {
    let mut job = started_job(&[300], false);
    assert_eq!(job.state, JobState::Running);
    assert_eq!(job.kill(), Some(SignalRequest { target: -300, signal: JobSignal::Kill }));
    assert_eq!(job.state, JobState::Running);
    assert_eq!(job.stop(), Some(SignalRequest { target: -300, signal: JobSignal::Stop }));
    assert_eq!(job.state, JobState::Stopped);
    assert_eq!(job.cont(), Some(SignalRequest { target: -300, signal: JobSignal::Cont }));
    assert_eq!(job.state, JobState::Running);
}

#[test]
fn job_without_group_gets_no_signal() {
    let mut job = Job::new();
    assert_eq!(job.kill(), None);
    assert_eq!(job.stop(), None);
    assert_eq!(job.state, JobState::Stopped);
}

#[test]
fn decodes_wait_statuses() {
    assert_eq!(decode_status(0), WaitStatus::Exited(0));
    assert_eq!(decode_status(EXIT_1), WaitStatus::Exited(1));
    assert_eq!(decode_status(9), WaitStatus::Signaled(9));
    assert_eq!(decode_status(STOPPED_TSTP), WaitStatus::Stopped);
    assert_eq!(decode_status(0xffff), WaitStatus::Continued);
}

#[test]
fn poll_with_no_change_ends_reap_loop() {
    let mut list = JobList::new();
    list.add_job(started_job(&[400], true));
    let start = list.reap_start();
    assert!(start.actions.is_empty());
    assert!(!start.blocking);
    let step = list.reap_event(0, 0).unwrap();
    assert!(step.done);
    assert!(step.actions.is_empty());
    let step = list.reap_event(-1, 0).unwrap();
    assert!(step.done);
    assert_eq!(list.list.len(), 1);
}

#[test]
fn foreground_job_exit_returns_terminal() {
    let mut list = JobList::new();
    let i = list.add_job(started_job(&[500], false));
    assert_eq!(list.forground_job, Some(i));
    let start = list.reap_start();
    assert!(start.blocking);
    assert_eq!(start.actions, vec![
        ReapAction::GiveTerminal(500),
        ReapAction::Signal(SignalRequest { target: -500, signal: JobSignal::Cont }),
    ]);
    let step = list.reap_event(500, EXIT_1).unwrap();
    assert!(step.done);
    assert_eq!(step.actions, vec![ReapAction::ReclaimTerminal]);
    assert!(list.is_empty());
    assert_eq!(list.forground_job, None);
}

#[test]
fn background_job_stays_out_of_foreground() {
    let mut list = JobList::new();
    list.add_job(started_job(&[600], true));
    assert_eq!(list.forground_job, None);
    assert!(!list.reap_start().blocking);
}

#[test]
fn pipeline_removed_only_after_both_exit() {
    let mut list = JobList::new();
    list.add_job(started_job(&[700, 701], true));
    let step = list.reap_event(701, 0).unwrap();
    assert!(!step.done);
    assert!(step.actions.is_empty());
    assert_eq!(list.list.len(), 1);
    let step = list.reap_event(700, 9).unwrap();
    assert!(!step.done);
    assert_eq!(step.actions, vec![ReapAction::Killed { number: 1, signal: 9 }]);
    assert!(list.is_empty());
}

#[test]
fn background_job_finish_is_announced() {
    let mut list = JobList::new();
    list.add_job(started_job(&[800], true));
    list.add_job(started_job(&[900], true));
    let step = list.reap_event(900, EXIT_1).unwrap();
    assert_eq!(step.actions, vec![ReapAction::Finished { number: 2, status: 1 }]);
    assert_eq!(list.list.len(), 1);
    assert_eq!(list.find_pgrp(800), Some(0));
    assert_eq!(list.find_pgrp(900), None);
}

#[test]
fn foreground_job_stop_returns_to_prompt() {
    let mut list = JobList::new();
    list.add_job(started_job(&[1000, 1001], false));
    list.reap_start();
    let step = list.reap_event(1001, STOPPED_TSTP).unwrap();
    assert!(step.done);
    assert_eq!(step.actions, vec![
        ReapAction::Signal(SignalRequest { target: -1000, signal: JobSignal::Stop }),
        ReapAction::ReclaimTerminal,
        ReapAction::Stopped { number: 1 },
    ]);
    assert_eq!(list.forground_job, None);
    assert_eq!(list.list.len(), 1);
    assert_eq!(list.list[0].state, JobState::Stopped);
    // A second stop report for the same job changes nothing.
    let step = list.reap_event(1000, STOPPED_TSTP).unwrap();
    assert!(!step.done);
    assert!(step.actions.is_empty());
}

#[test]
fn continued_job_is_running_again() {
    let mut list = JobList::new();
    list.add_job(started_job(&[1100], true));
    list.reap_event(1100, STOPPED_TSTP).unwrap();
    assert_eq!(list.list[0].state, JobState::Stopped);
    let step = list.reap_event(1100, 0xffff).unwrap();
    assert!(!step.done);
    assert_eq!(list.list[0].state, JobState::Running);
}

#[test]
fn unknown_pid_is_an_error() {
    let mut list = JobList::new();
    list.add_job(started_job(&[1200], true));
    assert_eq!(list.reap_event(4242, 0).err(), Some(ReapError::UnknownPid(4242)));
}

#[test]
fn find_pid_locates_descriptor() {
    let mut list = JobList::new();
    list.add_job(started_job(&[1300], true));
    list.add_job(started_job(&[1400, 1401], true));
    assert_eq!(list.find_pid(1401), Some((1, 1)));
    assert_eq!(list.find_pid(1300), Some((0, 0)));
    assert_eq!(list.find_pid(77), None);
}

#[test]
fn removing_a_job_shifts_the_foreground_slot() {
    let mut list = JobList::new();
    list.add_job(started_job(&[1500], true));
    let i = list.add_job(started_job(&[1600], false));
    assert_eq!(i, 1);
    list.remove_job(0);
    assert_eq!(list.forground_job, Some(0));
    list.remove_job(0);
    assert_eq!(list.forground_job, None);
    list.set_forground_job(None);
    assert!(list.is_empty());
}

#[test]
fn job_numbers_map_to_indices() {
    let mut list = JobList::new();
    list.add_job(started_job(&[1700], true));
    assert_eq!(list.job_index(1), Some(0));
    assert_eq!(list.job_index(0), None);
    assert_eq!(list.job_index(2), None);
    assert_eq!(job_number_arg(&vec![]), Some(1));
    assert_eq!(job_number_arg(&vec!["3".to_string()]), Some(3));
    assert_eq!(job_number_arg(&vec!["x".to_string()]), None);
    assert_eq!(job_number_arg(&vec!["+7".to_string()]), Some(7));
    assert_eq!(job_number_arg(&vec!["".to_string()]), None);
    assert_eq!(job_number_arg(&vec!["-1".to_string()]), None);
    assert_eq!(job_number_arg(&vec!["99999999999999999999999".to_string()]), None);
}

#[test]
fn finds_builtins_by_exact_name() {
    assert_eq!(builtin_find_callback("cd").map(|b| b.kind), Some(BuiltinKind::Cd));
    assert_eq!(builtin_find_callback("echo").map(|b| b.kind), Some(BuiltinKind::Echo));
    assert_eq!(builtin_find_callback("jobs").map(|b| b.kind), Some(BuiltinKind::Jobs));
    assert_eq!(builtin_find_callback("ls"), None);
    assert_eq!(builtin_find_callback("cdx"), None);
    let p = prog("pwd");
    assert_eq!(p.builtin.map(|b| b.kind), Some(BuiltinKind::Pwd));
    assert_eq!(p.pid, NO_PID);
}

#[test]
fn echo_joins_arguments() {
    assert_eq!(echo_text(&vec!["hi".to_string()]), Some("hi\n".to_string()));
    assert_eq!(echo_text(&vec!["a".to_string(), "b".to_string()]), Some("a b\n".to_string()));
    assert_eq!(echo_text(&vec![]), None);
}

#[test]
fn cd_resolves_paths() {
    assert_eq!(resolve_cd("/a/b", ".."), "/a");
    assert_eq!(resolve_cd("/a", ".."), "/");
    assert_eq!(resolve_cd("/", ".."), "/");
    assert_eq!(resolve_cd("/a", "b/./c"), "/a/b/c");
    assert_eq!(resolve_cd("/a/b", "/x//y/"), "/x/y");
    assert_eq!(resolve_cd("/", "usr"), "/usr");
    assert_eq!(resolve_cd("/a/b", ""), "/");
}
