use rshell::builtin::BuiltinKind;
use rshell::job::{Job, JobState};
use rshell::lexer::{InputLexer, InputToken};
use rshell::parser::{JobPlan, RedirectMode};
use rshell::prog::{NO_PID, STDERR_FD, STDIN_FD, STDOUT_FD};

fn plan(s: &str) -> Option<JobPlan> {
    let mut l = InputLexer::new(s);
    Job::parse_job(&mut l)
}

#[test]
fn parses_pipeline_plan() {
    let p = plan("ls -la | grep foo > out.txt &").unwrap();
    assert!(p.is_background);
    assert_eq!(p.stages.len(), 2);
    assert_eq!(p.stages[0].file, "ls");
    assert_eq!(p.stages[0].args, vec!["-la".to_string()]);
    assert!(p.stages[0].redirects.is_empty());
    assert_eq!(p.stages[1].file, "grep");
    assert_eq!(p.stages[1].args, vec!["foo".to_string()]);
    assert_eq!(p.stages[1].redirects.len(), 1);
    assert_eq!(p.stages[1].redirects[0].mode, RedirectMode::Write);
    assert_eq!(p.stages[1].redirects[0].path, "out.txt");
}

#[test]
fn redirect_without_filename_is_an_error() {
    assert!(plan("cat <").is_none());
    assert!(plan("cat > | x").is_none());
}

#[test]
fn logic_operators_are_errors() {
    assert!(plan("a && b").is_none());
    assert!(plan("a || b").is_none());
}

#[test]
fn comment_ends_the_command() {
    let p = plan("echo hi # rest | of > line").unwrap();
    assert_eq!(p.stages.len(), 1);
    assert_eq!(p.stages[0].file, "echo");
    assert_eq!(p.stages[0].args, vec!["hi".to_string()]);
    assert!(!p.is_background);
}

#[test]
fn append_and_read_redirects_in_order() {
    let p = plan("sort < in >> out").unwrap();
    let modes: Vec<RedirectMode> = p.stages[0].redirects.iter().map(|r| r.mode).collect();
    assert_eq!(modes, vec![RedirectMode::Read, RedirectMode::Append]);
}

#[test]
fn empty_line_gives_one_empty_stage() {
    let p = plan("").unwrap();
    assert_eq!(p.stages.len(), 1);
    assert_eq!(p.stages[0].file, "");
}

#[test]
fn job_chains_pipes_between_stages() {
    let p = plan("a | b x | c").unwrap();
    let pipes = vec![(10, 11), (12, 13)];
    let (job, released) = Job::from_plan(&p, &vec![], &pipes);
    assert!(released.is_empty());
    assert_eq!(job.progs.len(), 3);
    assert_eq!(job.progs[0].file, "a");
    assert_eq!(job.progs[1].file, "b");
    assert_eq!(job.progs[1].args, vec!["x".to_string()]);
    assert_eq!(job.progs[2].file, "c");
    assert_eq!((job.progs[0].stdin, job.progs[0].stdout), (STDIN_FD, 11));
    assert_eq!((job.progs[1].stdin, job.progs[1].stdout), (10, 13));
    assert_eq!((job.progs[2].stdin, job.progs[2].stdout), (12, STDOUT_FD));
    for p in &job.progs {
        assert_eq!(p.stderr, STDERR_FD);
        assert_eq!(p.pid, NO_PID);
    }
    assert_eq!(job.state, JobState::Stopped);
}

#[test]
fn replaced_and_dropped_streams_are_released() {
    // The file for `> f` is replaced by the pipe; the trailing stage has no
    // command, so its pipe end and its file are released too.
    let p = plan("a > f | < g").unwrap();
    let (job, released) = Job::from_plan(&p, &vec![20, 21], &vec![(30, 31)]);
    assert_eq!(job.progs.len(), 1);
    assert_eq!(job.progs[0].stdout, 31);
    assert_eq!(released, vec![20, 30, 21]);
}

#[test]
fn redirects_set_streams() {
    let p = plan("sort < in > out").unwrap();
    let (mut job, released) = Job::from_plan(&p, &vec![7, 8], &vec![]);
    assert!(released.is_empty());
    assert_eq!((job.progs[0].stdin, job.progs[0].stdout), (7, 8));
    assert_eq!(job.progs[0].close_fds(), vec![7, 8]);
    assert_eq!(job.progs[0].close_fds(), Vec::<i32>::new());
}

#[test]
fn builtin_is_resolved_when_building() {
    let p = plan("cd ..").unwrap();
    let (mut job, _) = Job::from_plan(&p, &vec![], &vec![]);
    assert_eq!(job.progs[0].builtin.map(|b| b.kind), Some(BuiltinKind::Cd));
    assert!(job.is_simple_bulitin());
    let p = plan("echo hi | cat").unwrap();
    let (job2, _) = Job::from_plan(&p, &vec![], &vec![(3, 4)]);
    assert!(!job2.is_simple_bulitin());
    job.name = "cd ..".to_string();
}

#[test]
fn resources_must_match_the_plan() {
    let p = plan("a < x | b > y").unwrap();
    assert!(Job::resources_match(&p, &vec![5, 6], &vec![(7, 8)]));
    assert!(!Job::resources_match(&p, &vec![5], &vec![(7, 8)]));
    assert!(!Job::resources_match(&p, &vec![5, 6], &vec![]));
    assert!(!Job::resources_match(&p, &vec![5, 1], &vec![(7, 8)]));
    assert!(!Job::resources_match(&p, &vec![5, 6], &vec![(0, 8)]));
}

#[test]
fn comment_consumes_rest_of_line() {
    let mut l = InputLexer::new("ls -l # | wc\necho x");
    let p = Job::parse_job(&mut l).unwrap();
    assert_eq!(p.stages.len(), 1);
    assert_eq!(p.stages[0].file, "ls");
    assert_eq!(p.stages[0].args, vec!["-l".to_string()]);
    assert_eq!(l.tokens(), vec![InputToken::Identifier("echo".to_string()), InputToken::Identifier("x".to_string())]);
    let mut l = InputLexer::new("# x");
    let p = Job::parse_job(&mut l).unwrap();
    let (job, released) = Job::from_plan(&p, &vec![], &vec![]);
    assert!(job.progs.is_empty());
    assert!(released.is_empty());
    assert_eq!(l.next(), None);
}

#[test]
fn newline_ends_parse_and_leaves_next_line() {
    let mut l = InputLexer::new("a|b\nc");
    let p = Job::parse_job(&mut l).unwrap();
    assert_eq!(p.stages.len(), 2);
    assert_eq!(l.tokens(), vec![InputToken::Identifier("c".to_string())]);
}
