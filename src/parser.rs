use vstd::prelude::*;
use vstd::string::*;
use crate::lexer::{InputLexer, InputToken, TokenView, lex_all, lex_step, lemma_lex_step_progress};
use crate::job::{Job, JobState};
use crate::prog::{Prog, STDIN_FD, STDOUT_FD, STDERR_FD, NO_PID, owned_streams};
use crate::builtin::builtin_of;

verus! {

/// How a redirected path is opened: `<` reads, `>` writes from the start
/// (creating and truncating), `>>` appends (creating).
#[derive(Clone, Copy, Debug, PartialEq, Eq, Structural)]
pub enum RedirectMode {
    Read,
    Write,
    Append,
}

#[derive(Debug)]
pub struct Redirect {
    pub mode: RedirectMode,
    pub path: String,
}

/// One stage of a parsed pipeline, before any stream is opened: the command,
/// its arguments, and its redirections in the order they were written.
#[derive(Debug)]
pub struct StagePlan {
    pub file: String,
    pub args: Vec<String>,
    pub redirects: Vec<Redirect>,
}

/// A parsed command line: its stages in pipeline order (the last one may
/// name no command) and whether it runs in the background.
#[derive(Debug)]
pub struct JobPlan {
    pub stages: Vec<StagePlan>,
    pub is_background: bool,
}

pub struct StageView {
    pub file: Seq<char>,
    pub args: Seq<Seq<char>>,
    pub redirects: Seq<(RedirectMode, Seq<char>)>,
}

pub struct PlanView {
    pub stages: Seq<StageView>,
    pub is_background: bool,
}

impl View for Redirect {
    type V = (RedirectMode, Seq<char>);

    open spec fn view(&self) -> (RedirectMode, Seq<char>) {
        (self.mode, self.path@)
    }
}

impl View for StagePlan {
    type V = StageView;

    open spec fn view(&self) -> StageView {
        StageView {
            file: self.file@,
            args: self.args@.map_values(|a: String| a@),
            redirects: self.redirects@.map_values(|r: Redirect| r@),
        }
    }
}

pub open spec fn stage_views(s: Seq<StagePlan>) -> Seq<StageView> {
    s.map_values(|st: StagePlan| st@)
}

impl View for JobPlan {
    type V = PlanView;

    open spec fn view(&self) -> PlanView {
        PlanView { stages: stage_views(self.stages@), is_background: self.is_background }
    }
}

pub open spec fn empty_stage() -> StageView {
    StageView { file: Seq::empty(), args: Seq::empty(), redirects: Seq::empty() }
}

/// Before any token: one empty stage, in the foreground.
pub open spec fn initial_plan() -> PlanView {
    PlanView { stages: seq![empty_stage()], is_background: false }
}

/// A word names the command if the stage has none yet, else it is the next argument.
pub open spec fn with_word(st: StageView, w: Seq<char>) -> StageView {
    if st.file.len() == 0 {
        StageView { file: w, ..st }
    } else {
        StageView { args: st.args.push(w), ..st }
    }
}

pub open spec fn with_redirect(st: StageView, mode: RedirectMode, path: Seq<char>) -> StageView {
    StageView { redirects: st.redirects.push((mode, path)), ..st }
}

pub open spec fn map_last(p: PlanView, st: StageView) -> PlanView {
    PlanView { stages: p.stages.update(p.stages.len() - 1, st), ..p }
}

pub open spec fn redirect_mode(t: TokenView) -> Option<RedirectMode> {
    match t {
        TokenView::RedirectIn => Some(RedirectMode::Read),
        TokenView::RedirectOut => Some(RedirectMode::Write),
        TokenView::RedirectAppendOut => Some(RedirectMode::Append),
        _ => None,
    }
}

/// Parsing goes on from plan `p` with tokens `toks`; `None` is a syntax error.
/// A comment or a newline ends the command; a redirection takes the
/// identifier that follows it as its path; a pipe starts a new stage; `&`
/// marks the job for the background; `&&` and `||` are errors.
pub open spec fn parse_from(p: PlanView, toks: Seq<TokenView>) -> Option<PlanView>
    decreases toks.len(),
{
    if toks.len() == 0 {
        Some(p)
    } else {
        match toks[0] {
            TokenView::Comment => Some(p),
            TokenView::NewLine => Some(p),
            TokenView::Identifier(w) => parse_from(map_last(p, with_word(p.stages.last(), w)), toks.drop_first()),
            TokenView::RedirectIn | TokenView::RedirectOut | TokenView::RedirectAppendOut => {
                if toks.len() > 1 && toks[1] is Identifier {
                    parse_from(
                        map_last(
                            p,
                            with_redirect(p.stages.last(), redirect_mode(toks[0])->Some_0, toks[1]->Identifier_0),
                        ),
                        toks.skip(2),
                    )
                } else {
                    None
                }
            },
            TokenView::Pipe => parse_from(
                PlanView { stages: p.stages.push(empty_stage()), ..p },
                toks.drop_first(),
            ),
            TokenView::Background => parse_from(PlanView { is_background: true, ..p }, toks.drop_first()),
            _ => None,
        }
    }
}

/// The input left after a comment: tokens are read up to and including the
/// next newline, or to the end of the input.
pub open spec fn after_comment(s: Seq<char>) -> Seq<char>
    decreases s.len(),
{
    let (t, rest) = lex_step(s);
    match t {
        Some(TokenView::NewLine) => rest,
        Some(_) => if rest.len() < s.len() {
            after_comment(rest)
        } else {
            rest
        },
        None => rest,
    }
}

/// The input that parsing one command line from `s` leaves unread: it stops
/// after a newline, after the rest of a comment, at the end, or right after
/// the token that made it fail (for a redirection, the token after it).
pub open spec fn parse_rest(s: Seq<char>) -> Seq<char>
    decreases s.len(),
{
    let (t, rest) = lex_step(s);
    if rest.len() >= s.len() {
        rest
    } else {
        match t {
            Some(TokenView::Comment) => after_comment(rest),
            Some(TokenView::Identifier(_)) => parse_rest(rest),
            Some(TokenView::Pipe) => parse_rest(rest),
            Some(TokenView::Background) => parse_rest(rest),
            Some(TokenView::RedirectIn) | Some(TokenView::RedirectOut) | Some(TokenView::RedirectAppendOut) => {
                let (t2, rest2) = lex_step(rest);
                if t2 is Some && t2->Some_0 is Identifier && rest2.len() < rest.len() {
                    parse_rest(rest2)
                } else {
                    rest2
                }
            },
            _ => rest,
        }
    }
}

/// The plan of a whole token sequence.
pub open spec fn parse_tokens(toks: Seq<TokenView>) -> Option<PlanView> {
    parse_from(initial_plan(), toks)
}

impl StagePlan {
    pub fn new() -> (r: StagePlan)
        ensures
            r@ == empty_stage(),
    {
        let r = StagePlan { file: String::new(), args: Vec::new(), redirects: Vec::new() };
        assert(r@.args =~= Seq::<Seq<char>>::empty());
        assert(r@.redirects =~= Seq::<(RedirectMode, Seq<char>)>::empty());
        r
    }

    fn add_word(&mut self, w: String)
        ensures
            final(self)@ == with_word(old(self)@, w@),
    {
        if self.file.as_str().unicode_len() == 0 {
            self.file = w;
        } else {
            self.args.push(w);
            assert(self@.args =~= old(self)@.args.push(w@));
        }
    }

    fn add_redirect(&mut self, mode: RedirectMode, path: String)
        ensures
            final(self)@ == with_redirect(old(self)@, mode, path@),
    {
        self.redirects.push(Redirect { mode, path });
        assert(self@.redirects =~= old(self)@.redirects.push((mode, path@)));
    }
}


/// How many redirections come before stage `i`: the index of its first
/// opened file among all of them.
pub open spec fn redirect_offset(stages: Seq<StageView>, i: int) -> int
    decreases i,
{
    if i <= 0 {
        0
    } else {
        redirect_offset(stages, i - 1) + stages[i - 1].redirects.len()
    }
}

pub open spec fn modes_of(st: StageView) -> Seq<RedirectMode> {
    st.redirects.map_values(|r: (RedirectMode, Seq<char>)| r.0)
}

/// Applies redirections in order to an input and an output stream: each
/// replaces the stream it names, and a replaced stream that was not the
/// shell's own is collected, to be closed.
pub open spec fn apply_redirects(stdin: i32, stdout: i32, modes: Seq<RedirectMode>, fds: Seq<i32>) -> (
    i32,
    i32,
    Seq<i32>,
)
    decreases modes.len(),
{
    if modes.len() == 0 || fds.len() == 0 {
        (stdin, stdout, Seq::empty())
    } else {
        let (i2, o2, d) = if modes[0] == RedirectMode::Read {
            (fds[0], stdout, if stdin != STDIN_FD { seq![stdin] } else { Seq::empty() })
        } else {
            (stdin, fds[0], if stdout != STDOUT_FD { seq![stdout] } else { Seq::empty() })
        };
        let (a, b, rest) = apply_redirects(i2, o2, modes.drop_first(), fds.drop_first());
        (a, b, d + rest)
    }
}

/// The input, the output and the replaced streams of stage `i`: the input
/// starts as the previous pipe's read end, the redirections apply in order,
/// and the output of every stage but the last is then the next pipe's write
/// end.
pub open spec fn stage_streams(pv: PlanView, files: Seq<i32>, pipes: Seq<(i32, i32)>, i: int) -> (
    i32,
    i32,
    Seq<i32>,
) {
    let n = pv.stages.len();
    let init_in = if i > 0 { pipes[i - 1].0 } else { STDIN_FD };
    let (a, b, d) = apply_redirects(
        init_in,
        STDOUT_FD,
        modes_of(pv.stages[i]),
        files.subrange(redirect_offset(pv.stages, i), redirect_offset(pv.stages, i + 1)),
    );
    if i < n - 1 {
        (a, pipes[i].1, if b != STDOUT_FD { d.push(b) } else { d })
    } else {
        (a, b, d)
    }
}

/// The last stage is run only if it names a command.
pub open spec fn runs_last(pv: PlanView) -> bool {
    pv.stages.last().file.len() > 0
}

pub open spec fn stage_count(pv: PlanView) -> int {
    if runs_last(pv) {
        pv.stages.len() as int
    } else {
        pv.stages.len() - 1
    }
}

/// The streams of stage `i` that the shell must close at once: those that
/// were replaced, and, for a last stage that is dropped, its own.
pub open spec fn stage_released(pv: PlanView, files: Seq<i32>, pipes: Seq<(i32, i32)>, i: int) -> Seq<i32> {
    let (a, b, d) = stage_streams(pv, files, pipes, i);
    if i == pv.stages.len() - 1 && !runs_last(pv) {
        d + owned_streams(a, b, STDERR_FD)
    } else {
        d
    }
}

pub open spec fn released_upto(pv: PlanView, files: Seq<i32>, pipes: Seq<(i32, i32)>, i: int) -> Seq<i32>
    decreases i,
{
    if i <= 0 {
        Seq::empty()
    } else {
        released_upto(pv, files, pipes, i - 1) + stage_released(pv, files, pipes, i - 1)
    }
}

/// Descriptor `p` is stage `i` of the plan, with the streams it was given.
pub open spec fn prog_of_stage(p: Prog, pv: PlanView, files: Seq<i32>, pipes: Seq<(i32, i32)>, i: int) -> bool {
    let (a, b, d) = stage_streams(pv, files, pipes, i);
    &&& p.file@ == pv.stages[i].file
    &&& p.arg_views() == pv.stages[i].args
    &&& p.builtin == builtin_of(pv.stages[i].file)
    &&& p.stdin == a
    &&& p.stdout == b
    &&& p.stderr == STDERR_FD
    &&& p.pid == NO_PID
    &&& p.pgrp == NO_PID
}

/// Streams the shell opened for a plan: one file per redirection, in order,
/// and one pipe between each two stages; none is a standard stream.
pub open spec fn resources_fit(pv: PlanView, files: Seq<i32>, pipes: Seq<(i32, i32)>) -> bool {
    &&& pv.stages.len() >= 1
    &&& files.len() == redirect_offset(pv.stages, pv.stages.len() as int)
    &&& pipes.len() == pv.stages.len() - 1
    &&& forall|i: int| 0 <= i < files.len() ==> #[trigger] files[i] > STDERR_FD
    &&& forall|i: int| 0 <= i < pipes.len() ==> (#[trigger] pipes[i]).0 > STDERR_FD && pipes[i].1 > STDERR_FD
}

pub proof fn lemma_offset_nonneg(stages: Seq<StageView>, i: int)
    ensures
        0 <= redirect_offset(stages, i),
    decreases i,
{
    if i > 0 {
        lemma_offset_nonneg(stages, i - 1);
    }
}

pub proof fn lemma_offset_monotone(stages: Seq<StageView>, i: int, j: int)
    requires
        0 <= i <= j <= stages.len(),
    ensures
        0 <= redirect_offset(stages, i) <= redirect_offset(stages, j),
    decreases j - i,
{
    lemma_offset_nonneg(stages, i);
    if i < j {
        lemma_offset_monotone(stages, i, j - 1);
    }
}

pub open spec fn plan_of(done: Seq<StagePlan>, cur: StagePlan, bg: bool) -> PlanView {
    PlanView { stages: stage_views(done).push(cur@), is_background: bg }
}

fn finish_plan(done: Vec<StagePlan>, cur: StagePlan, bg: bool) -> (r: JobPlan)
    ensures
        r@ == plan_of(done@, cur, bg),
{
    let mut stages = done;
    stages.push(cur);
    let r = JobPlan { stages, is_background: bg };
    assert(r@.stages =~= plan_of(done@, cur, bg).stages);
    r
}

impl Job {
    /// Reads and drops tokens up to and including the next newline.
    fn skip_comment(lex: &mut InputLexer)
        requires
            old(lex).wf(),
        ensures
            final(lex).wf(),
            final(lex).rest() == after_comment(old(lex).rest()),
    {
        loop
            invariant
                lex.wf(),
                after_comment(lex.rest()) == after_comment(old(lex).rest()),
            decreases lex.rest().len(),
        {
            let ghost before = lex.rest();
            let t = lex.next();
            proof {
                lemma_lex_step_progress(before);
            }
            match t {
                None => {
                    return;
                },
                Some(InputToken::NewLine) => {
                    return;
                },
                Some(_) => {},
            }
        }
    }

    /// Reads one command line from the lexer and returns its plan, or `None`
    /// on a syntax error. Nothing is opened here: the plan's redirections and
    /// pipes are acquired afterwards, so an error leaves nothing to release.
    pub fn parse_job(lex: &mut InputLexer) -> (r: Option<JobPlan>)
        requires
            old(lex).wf(),
        ensures
            final(lex).wf(),
            final(lex).rest() == parse_rest(old(lex).rest()),
            match r {
                Some(p) => parse_tokens(lex_all(old(lex).rest())) == Some(p@),
                None => parse_tokens(lex_all(old(lex).rest())) is None,
            },
    {
        let mut done: Vec<StagePlan> = Vec::new();
        let mut cur = StagePlan::new();
        let mut bg = false;
        assert(plan_of(done@, cur, bg).stages =~= initial_plan().stages);
        loop
            invariant
                lex.wf(),
                parse_from(plan_of(done@, cur, bg), lex_all(lex.rest())) == parse_tokens(lex_all(old(lex).rest())),
                parse_rest(lex.rest()) == parse_rest(old(lex).rest()),
            decreases lex.rest().len(),
        {
            let ghost before = lex.rest();
            let ghost p = plan_of(done@, cur, bg);
            let tok = lex.next();
            proof {
                lemma_lex_step_progress(before);
            }
            match tok {
                None => {
                    assert(lex_all(before) =~= Seq::<TokenView>::empty());
                    return Some(finish_plan(done, cur, bg));
                },
                Some(t) => {
                    let ghost after = lex.rest();
                    assert(lex_all(before) == seq![t@] + lex_all(after));
                    assert((seq![t@] + lex_all(after)).drop_first() =~= lex_all(after));
                    match t {
                        InputToken::Comment => {
                            Self::skip_comment(lex);
                            return Some(finish_plan(done, cur, bg));
                        },
                        InputToken::NewLine => {
                            return Some(finish_plan(done, cur, bg));
                        },
                        InputToken::Identifier(w) => {
                            cur.add_word(w);
                            assert(plan_of(done@, cur, bg).stages =~= map_last(p, with_word(p.stages.last(), t@->Identifier_0)).stages);
                        },
                        InputToken::Pipe => {
                            done.push(cur);
                            cur = StagePlan::new();
                            assert(plan_of(done@, cur, bg).stages =~= p.stages.push(empty_stage()));
                        },
                        InputToken::Background => {
                            bg = true;
                        },
                        InputToken::RedirectIn | InputToken::RedirectOut | InputToken::RedirectAppendOut => {
                            let mode = match t {
                                InputToken::RedirectIn => RedirectMode::Read,
                                InputToken::RedirectOut => RedirectMode::Write,
                                _ => RedirectMode::Append,
                            };
                            let ghost mid = lex.rest();
                            let nt = lex.next();
                            proof {
                                lemma_lex_step_progress(mid);
                            }
                            match nt {
                                Some(InputToken::Identifier(path)) => {
                                    let ghost last = lex.rest();
                                    assert(lex_all(mid) == seq![nt->Some_0@] + lex_all(last));
                                    assert((seq![t@] + lex_all(after)).skip(2) =~= lex_all(last));
                                    cur.add_redirect(mode, path);
                                    assert(plan_of(done@, cur, bg).stages =~= map_last(
                                        p,
                                        with_redirect(p.stages.last(), mode, path@),
                                    ).stages);
                                },
                                _ => {
                                    if nt.is_some() {
                                        assert(lex_all(mid) == seq![nt->Some_0@] + lex_all(lex.rest()));
                                    } else {
                                        assert(lex_all(mid) =~= Seq::<TokenView>::empty());
                                    }
                                    return None;
                                },
                            }
                        },
                        _ => {
                            return None;
                        },
                    }
                },
            }
        }
    }

    /// Builds the job of a plan from the streams opened for it. Each stage
    /// becomes a descriptor in pipeline order, reading from the previous pipe
    /// and writing to the next unless a redirection says otherwise. The
    /// streams that no descriptor keeps (replaced by a later redirection, or
    /// belonging to a last stage that names no command) are returned, to be
    /// closed by the caller.
    pub fn from_plan(plan: &JobPlan, files: &Vec<i32>, pipes: &Vec<(i32, i32)>) -> (r: (Job, Vec<i32>))
        requires
            resources_fit(plan@, files@, pipes@),
        ensures
            r.0.progs@.len() == stage_count(plan@),
            forall|i: int| 0 <= i < r.0.progs@.len() ==> prog_of_stage(#[trigger] r.0.progs@[i], plan@, files@, pipes@, i),
            r.1@ == released_upto(plan@, files@, pipes@, plan@.stages.len() as int),
            r.0.is_background == plan.is_background,
            !r.0.started,
            r.0.state == JobState::Stopped,
            r.0.pgrp == NO_PID,
            r.0.name@ == Seq::<char>::empty(),
    {
        let ghost pv = plan@;
        let n = plan.stages.len();
        let flen = files.len();
        let mut job = Job::new();
        job.is_background = plan.is_background;
        let mut released: Vec<i32> = Vec::new();
        let mut off: usize = 0;
        let mut i: usize = 0;
        while i < n
            invariant
                pv == plan@,
                flen == files@.len(),
                resources_fit(pv, files@, pipes@),
                n == pv.stages.len(),
                i <= n,
                off == redirect_offset(pv.stages, i as int),
                job.progs@.len() == (if i == n { stage_count(pv) } else { i as int }),
                forall|k: int| 0 <= k < job.progs@.len() ==> prog_of_stage(#[trigger] job.progs@[k], pv, files@, pipes@, k),
                released@ == released_upto(pv, files@, pipes@, i as int),
                job.is_background == plan.is_background,
                !job.started,
                job.state == JobState::Stopped,
                job.pgrp == NO_PID,
                job.name@ == Seq::<char>::empty(),
            decreases n - i,
        {
            proof {
                lemma_offset_monotone(pv.stages, i as int, i + 1);
                lemma_offset_monotone(pv.stages, i + 1, n as int);
            }
            let stage = &plan.stages[i];
            assert(stage@ == pv.stages[i as int]);
            let mut prog = Prog::new();
            prog.set_file(stage.file.clone());
            let mut a: usize = 0;
            while a < stage.args.len()
                invariant
                    a <= stage.args@.len(),
                    prog.file@ == stage.file@,
                    prog.builtin == builtin_of(stage.file@),
                    prog.arg_views() == stage@.args.take(a as int),
                    prog.stdin == STDIN_FD,
                    prog.stdout == STDOUT_FD,
                    prog.stderr == STDERR_FD,
                    prog.pid == NO_PID,
                    prog.pgrp == NO_PID,
                decreases stage.args@.len() - a,
            {
                prog.add_arg(stage.args[a].as_str());
                assert(stage@.args.take(a + 1 as int) =~= stage@.args.take(a as int).push(stage.args@[a as int]@));
                a = a + 1;
            }
            assert(stage@.args.take(a as int) =~= stage@.args);
            let mut cur_in: i32 = if i > 0 {
                pipes[i - 1].0
            } else {
                STDIN_FD
            };
            let mut cur_out: i32 = STDOUT_FD;
            let mut dropped: Vec<i32> = Vec::new();
            let ghost init_in = cur_in;
            let ghost modes = modes_of(stage@);
            let ghost fds = files@.subrange(off as int, off + stage.redirects@.len());
            assert(modes.skip(0) =~= modes);
            assert(fds.skip(0) =~= fds);
            assert(dropped@ + apply_redirects(init_in, STDOUT_FD, modes, fds).2 =~= apply_redirects(init_in, STDOUT_FD, modes, fds).2);
            let mut r: usize = 0;
            while r < stage.redirects.len()
                invariant
                    r <= stage.redirects@.len(),
                    modes == modes_of(stage@),
                    modes.len() == stage.redirects@.len(),
                    fds.len() == stage.redirects@.len(),
                    fds == files@.subrange(off as int, off + stage.redirects@.len()),
                    off + stage.redirects@.len() <= files@.len(),
                    flen == files@.len(),
                    ({
                        let (a1, b1, d1) = apply_redirects(cur_in, cur_out, modes.skip(r as int), fds.skip(r as int));
                        apply_redirects(init_in, STDOUT_FD, modes, fds) == (a1, b1, dropped@ + d1)
                    }),
                decreases stage.redirects@.len() - r,
            {
                let fd = files[off + r];
                assert(fds.skip(r as int)[0] == fd);
                assert(modes.skip(r as int)[0] == stage.redirects@[r as int].mode);
                assert(modes.skip(r as int).drop_first() =~= modes.skip(r + 1 as int));
                assert(fds.skip(r as int).drop_first() =~= fds.skip(r + 1 as int));
                let ghost d0 = dropped@;
                match stage.redirects[r].mode {
                    RedirectMode::Read => {
                        if cur_in != STDIN_FD {
                            dropped.push(cur_in);
                        }
                        cur_in = fd;
                    },
                    _ => {
                        if cur_out != STDOUT_FD {
                            dropped.push(cur_out);
                        }
                        cur_out = fd;
                    },
                }
                proof {
                    let (a1, b1, d1) = apply_redirects(cur_in, cur_out, modes.skip(r + 1 as int), fds.skip(r + 1 as int));
                    assert(dropped@ + d1 =~= d0 + (dropped@.skip(d0.len() as int) + d1));
                }
                r = r + 1;
            }
            assert(modes.skip(r as int).len() == 0);
            let last = i + 1 == n;
            if !last {
                if cur_out != STDOUT_FD {
                    dropped.push(cur_out);
                }
                cur_out = pipes[i].1;
            }
            prog.stdin = cur_in;
            prog.stdout = cur_out;
            let ghost before = released@;
            let mut k: usize = 0;
            while k < dropped.len()
                invariant
                    k <= dropped@.len(),
                    released@ == before + dropped@.take(k as int),
                decreases dropped@.len() - k,
            {
                released.push(dropped[k]);
                assert(dropped@.take(k + 1 as int) =~= dropped@.take(k as int).push(dropped@[k as int]));
                k = k + 1;
            }
            assert(dropped@.take(k as int) =~= dropped@);
            if last && stage.file.as_str().unicode_len() == 0 {
                let mut own = prog.close_fds();
                released.append(&mut own);
            } else {
                job.add_prog(prog);
            }
            off = off + stage.redirects.len();
            i = i + 1;
        }
        (job, released)
    }

    /// Whether `files` and `pipes` are what `from_plan` needs for `plan`: one
    /// file per redirection, one pipe between each two stages, and none of
    /// them a standard stream.
    pub fn resources_match(plan: &JobPlan, files: &Vec<i32>, pipes: &Vec<(i32, i32)>) -> (r: bool)
        ensures
            r == resources_fit(plan@, files@, pipes@),
    {
        let ghost pv = plan@;
        let n = plan.stages.len();
        if n == 0 || pipes.len() != n - 1 {
            return false;
        }
        let mut total: usize = 0;
        let mut i: usize = 0;
        while i < n
            invariant
                pv == plan@,
                n == pv.stages.len(),
                i <= n,
                total == redirect_offset(pv.stages, i as int),
                total <= files@.len(),
            decreases n - i,
        {
            assert(plan.stages@[i as int]@.redirects.len() == plan.stages@[i as int].redirects@.len());
            let k = plan.stages[i].redirects.len();
            if k > files.len() - total {
                proof {
                    lemma_offset_monotone(pv.stages, i + 1, n as int);
                }
                return false;
            }
            total = total + k;
            i = i + 1;
        }
        if total != files.len() {
            return false;
        }
        let mut j: usize = 0;
        while j < files.len()
            invariant
                j <= files@.len(),
                forall|x: int| 0 <= x < j ==> #[trigger] files@[x] > STDERR_FD,
            decreases files@.len() - j,
        {
            if files[j] <= STDERR_FD {
                return false;
            }
            j = j + 1;
        }
        let mut q: usize = 0;
        while q < pipes.len()
            invariant
                q <= pipes@.len(),
                forall|x: int| 0 <= x < q ==> (#[trigger] pipes@[x]).0 > STDERR_FD && pipes@[x].1 > STDERR_FD,
            decreases pipes@.len() - q,
        {
            if pipes[q].0 <= STDERR_FD || pipes[q].1 <= STDERR_FD {
                return false;
            }
            q = q + 1;
        }
        true
    }
}

} // verus!
