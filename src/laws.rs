use vstd::prelude::*;
use crate::lexer::TokenView;
use crate::parser::{
    PlanView, RedirectMode, StageView, apply_redirects, empty_stage, initial_plan, lemma_offset_monotone, map_last,
    modes_of, parse_from, parse_tokens, prog_of_stage, redirect_offset, released_upto, resources_fit, runs_last,
    stage_count, stage_streams, with_word,
};
use crate::prog::{Prog, STDERR_FD, STDIN_FD, STDOUT_FD, owned_streams};
use vstd::seq_lib::lemma_multiset_commutative;
use crate::job::JobState;
use crate::job_list::{JobList, ReapError, ReapStep, reap_outcome};
use crate::status::WaitStatus;

verus! {

/// The tokens of one stage written as plain words.
pub open spec fn word_tokens(ws: Seq<Seq<char>>) -> Seq<TokenView> {
    ws.map_values(|w: Seq<char>| TokenView::Identifier(w))
}

/// The tokens of stages written as words and joined by pipes.
pub open spec fn pipeline_tokens(stages: Seq<Seq<Seq<char>>>) -> Seq<TokenView>
    decreases stages.len(),
{
    if stages.len() <= 1 {
        if stages.len() == 1 {
            word_tokens(stages[0])
        } else {
            Seq::empty()
        }
    } else {
        word_tokens(stages[0]) + seq![TokenView::Pipe] + pipeline_tokens(stages.drop_first())
    }
}

/// The stage that a command and its arguments make.
pub open spec fn stage_of_words(ws: Seq<Seq<char>>) -> StageView {
    StageView { file: ws[0], args: ws.drop_first(), redirects: Seq::empty() }
}

/// A stage written as words: a command whose name is not empty, then its arguments.
pub open spec fn is_command(ws: Seq<Seq<char>>) -> bool {
    ws.len() >= 1 && ws[0].len() > 0
}

proof fn lemma_words(p: PlanView, ws: Seq<Seq<char>>, rest: Seq<TokenView>)
    requires
        p.stages.len() >= 1,
        p.stages.last().file.len() > 0,
    ensures
        parse_from(p, word_tokens(ws) + rest) == parse_from(
            map_last(p, StageView { args: p.stages.last().args + ws, ..p.stages.last() }),
            rest,
        ),
    decreases ws.len(),
{
    let st = p.stages.last();
    if ws.len() == 0 {
        assert(word_tokens(ws) + rest =~= rest);
        assert(st.args + ws =~= st.args);
        assert(map_last(p, StageView { args: st.args + ws, ..st }).stages =~= p.stages);
    } else {
        let toks = word_tokens(ws) + rest;
        assert(toks[0] == TokenView::Identifier(ws[0]));
        assert(toks.drop_first() =~= word_tokens(ws.drop_first()) + rest);
        let next_plan = map_last(p, with_word(st, ws[0]));
        assert(next_plan.stages.last() == StageView { args: st.args.push(ws[0]), ..st });
        lemma_words(next_plan, ws.drop_first(), rest);
        assert(st.args.push(ws[0]) + ws.drop_first() =~= st.args + ws);
        assert(map_last(next_plan, StageView { args: st.args.push(ws[0]) + ws.drop_first(), ..next_plan.stages.last() }).stages
            =~= map_last(p, StageView { args: st.args + ws, ..st }).stages);
    }
}

proof fn lemma_stage(p: PlanView, ws: Seq<Seq<char>>, rest: Seq<TokenView>)
    requires
        p.stages.len() >= 1,
        p.stages.last() == empty_stage(),
        is_command(ws),
    ensures
        parse_from(p, word_tokens(ws) + rest) == parse_from(
            PlanView { stages: p.stages.drop_last().push(stage_of_words(ws)), ..p },
            rest,
        ),
{
    let toks = word_tokens(ws) + rest;
    assert(toks[0] == TokenView::Identifier(ws[0]));
    assert(toks.drop_first() =~= word_tokens(ws.drop_first()) + rest);
    let next_plan = map_last(p, with_word(p.stages.last(), ws[0]));
    lemma_words(next_plan, ws.drop_first(), rest);
    let st1 = next_plan.stages.last();
    assert(st1.args + ws.drop_first() =~= ws.drop_first());
    assert(map_last(next_plan, StageView { args: st1.args + ws.drop_first(), ..st1 }).stages
        =~= p.stages.drop_last().push(stage_of_words(ws)));
}

proof fn lemma_pipeline_from(p: PlanView, stages: Seq<Seq<Seq<char>>>)
    requires
        p.stages.len() >= 1,
        p.stages.last() == empty_stage(),
        stages.len() >= 1,
        forall|i: int| 0 <= i < stages.len() ==> is_command(#[trigger] stages[i]),
    ensures
        parse_from(p, pipeline_tokens(stages)) == Some(
            PlanView {
                stages: p.stages.drop_last() + stages.map_values(|ws: Seq<Seq<char>>| stage_of_words(ws)),
                ..p
            },
        ),
    decreases stages.len(),
{
    let all = stages.map_values(|ws: Seq<Seq<char>>| stage_of_words(ws));
    assert(is_command(stages[0]));
    if stages.len() == 1 {
        lemma_stage(p, stages[0], Seq::empty());
        assert(word_tokens(stages[0]) + Seq::<TokenView>::empty() =~= pipeline_tokens(stages));
        assert(p.stages.drop_last().push(stage_of_words(stages[0])) =~= p.stages.drop_last() + all);
    } else {
        let tail = seq![TokenView::Pipe] + pipeline_tokens(stages.drop_first());
        assert(pipeline_tokens(stages) =~= word_tokens(stages[0]) + tail);
        lemma_stage(p, stages[0], tail);
        let next_plan = PlanView { stages: p.stages.drop_last().push(stage_of_words(stages[0])), ..p };
        assert(tail[0] == TokenView::Pipe);
        assert(tail.drop_first() =~= pipeline_tokens(stages.drop_first()));
        let piped = PlanView { stages: next_plan.stages.push(empty_stage()), ..next_plan };
        assert(piped.stages.last() == empty_stage());
        assert forall|i: int| 0 <= i < stages.drop_first().len() implies is_command(
            #[trigger] stages.drop_first()[i],
        ) by {
            assert(stages.drop_first()[i] == stages[i + 1]);
        }
        lemma_pipeline_from(piped, stages.drop_first());
        assert(piped.stages.drop_last() + stages.drop_first().map_values(|ws: Seq<Seq<char>>| stage_of_words(ws))
            =~= p.stages.drop_last() + all);
    }
}

/// A line of N commands joined by pipes parses to a plan of exactly N
/// stages, in the order written, each with its command and arguments and no
/// redirection, in the foreground.
pub proof fn lemma_pipeline_parses(stages: Seq<Seq<Seq<char>>>)
    requires
        stages.len() >= 1,
        forall|i: int| 0 <= i < stages.len() ==> is_command(#[trigger] stages[i]),
    ensures
        parse_tokens(pipeline_tokens(stages)) == Some(
            PlanView {
                stages: stages.map_values(|ws: Seq<Seq<char>>| stage_of_words(ws)),
                is_background: false,
            },
        ),
{
    lemma_pipeline_from(initial_plan(), stages);
    assert(initial_plan().stages.drop_last() + stages.map_values(|ws: Seq<Seq<char>>| stage_of_words(ws))
        =~= stages.map_values(|ws: Seq<Seq<char>>| stage_of_words(ws)));
}

proof fn lemma_no_redirects(pv: PlanView, i: int)
    requires
        0 <= i <= pv.stages.len(),
        forall|k: int| 0 <= k < pv.stages.len() ==> (#[trigger] pv.stages[k]).redirects.len() == 0,
    ensures
        redirect_offset(pv.stages, i) == 0,
    decreases i,
{
    if i > 0 {
        lemma_no_redirects(pv, i - 1);
    }
}

/// Once built from the plan of N commands joined by pipes, the job has N
/// descriptors in the order written; the first reads the shell's input, the
/// last writes the shell's output, and each one writes into the pipe that the
/// next one reads from.
pub proof fn lemma_pipeline_chained(
    stages: Seq<Seq<Seq<char>>>,
    plan: PlanView,
    files: Seq<i32>,
    pipes: Seq<(i32, i32)>,
    progs: Seq<Prog>,
)
    requires
        stages.len() >= 1,
        forall|i: int| 0 <= i < stages.len() ==> is_command(#[trigger] stages[i]),
        parse_tokens(pipeline_tokens(stages)) == Some(plan),
        resources_fit(plan, files, pipes),
        progs.len() == stage_count(plan),
        forall|i: int| 0 <= i < progs.len() ==> prog_of_stage(#[trigger] progs[i], plan, files, pipes, i),
    ensures
        progs.len() == stages.len(),
        forall|i: int|
            0 <= i < progs.len() ==> (#[trigger] progs[i]).file@ == stages[i][0] && progs[i].arg_views()
                == stages[i].drop_first(),
        progs[0].stdin == STDIN_FD,
        progs[progs.len() - 1].stdout == STDOUT_FD,
        forall|i: int|
            0 <= i < progs.len() - 1 ==> (#[trigger] progs[i]).stdout == pipes[i].1 && progs[i + 1].stdin
                == pipes[i].0,
{
    lemma_pipeline_parses(stages);
    let n = stages.len();
    assert(plan.stages.len() == n);
    assert(is_command(stages[n - 1]));
    assert(plan.stages[n - 1] == stage_of_words(stages[n - 1]));
    assert(runs_last(plan));
    assert forall|k: int| 0 <= k < plan.stages.len() implies (#[trigger] plan.stages[k]).redirects.len() == 0 by {
        assert(plan.stages[k] == stage_of_words(stages[k]));
    }
    assert forall|i: int| 0 <= i < n implies ({
        &&& (#[trigger] stage_streams(plan, files, pipes, i)).0 == (if i > 0 { pipes[i - 1].0 } else { STDIN_FD })
        &&& stage_streams(plan, files, pipes, i).1 == (if i < n - 1 { pipes[i].1 } else { STDOUT_FD })
    }) by {
        lemma_no_redirects(plan, i);
        lemma_no_redirects(plan, i + 1);
        assert(modes_of(plan.stages[i]).len() == 0);
    }
    assert forall|i: int| 0 <= i < progs.len() implies (#[trigger] progs[i]).file@ == stages[i][0]
        && progs[i].arg_views() == stages[i].drop_first() by {
        assert(prog_of_stage(progs[i], plan, files, pipes, i));
        assert(plan.stages[i] == stage_of_words(stages[i]));
    }
    assert(prog_of_stage(progs[0], plan, files, pipes, 0));
    assert(prog_of_stage(progs[n - 1], plan, files, pipes, n - 1));
    assert forall|i: int| 0 <= i < progs.len() - 1 implies (#[trigger] progs[i]).stdout == pipes[i].1
        && progs[i + 1].stdin == pipes[i].0 by {
        assert(prog_of_stage(progs[i], plan, files, pipes, i));
        assert(prog_of_stage(progs[i + 1], plan, files, pipes, i + 1));
    }
}

proof fn lemma_redirects_conserve(stdin: i32, stdout: i32, modes: Seq<RedirectMode>, fds: Seq<i32>)
    requires
        modes.len() == fds.len(),
        forall|i: int| 0 <= i < fds.len() ==> #[trigger] fds[i] > STDERR_FD,
    ensures
        ({
            let (a, b, d) = apply_redirects(stdin, stdout, modes, fds);
            (owned_streams(a, b, STDERR_FD) + d).to_multiset() == (owned_streams(stdin, stdout, STDERR_FD)
                + fds).to_multiset()
        }),
    decreases modes.len(),
{
    broadcast use vstd::multiset::group_multiset_axioms;
    broadcast use lemma_multiset_commutative;

    if modes.len() == 0 {
        assert(fds =~= Seq::<i32>::empty());
        assert(owned_streams(stdin, stdout, STDERR_FD) + fds =~= owned_streams(stdin, stdout, STDERR_FD));
        assert(owned_streams(stdin, stdout, STDERR_FD) + Seq::<i32>::empty() =~= owned_streams(stdin, stdout, STDERR_FD));
    } else {
        let f = fds[0];
        assert(f > STDERR_FD);
        let (i2, o2, d0) = if modes[0] == RedirectMode::Read {
            (f, stdout, if stdin != STDIN_FD { seq![stdin] } else { Seq::empty() })
        } else {
            (stdin, f, if stdout != STDOUT_FD { seq![stdout] } else { Seq::empty() })
        };
        assert forall|i: int| 0 <= i < fds.drop_first().len() implies #[trigger] fds.drop_first()[i] > STDERR_FD by {
            assert(fds.drop_first()[i] == fds[i + 1]);
        }
        lemma_redirects_conserve(i2, o2, modes.drop_first(), fds.drop_first());
        let (a, b, rest) = apply_redirects(i2, o2, modes.drop_first(), fds.drop_first());
        assert(apply_redirects(stdin, stdout, modes, fds) == (a, b, d0 + rest));
        // The first redirection trades `f` for what it replaced.
        assert((owned_streams(i2, o2, STDERR_FD) + d0).to_multiset() == (owned_streams(stdin, stdout, STDERR_FD)
            + seq![f]).to_multiset());
        assert(fds =~= seq![f] + fds.drop_first());
        assert((owned_streams(a, b, STDERR_FD) + (d0 + rest)).to_multiset() =~= ((owned_streams(a, b, STDERR_FD) + rest)
            + d0).to_multiset());
        assert(owned_streams(stdin, stdout, STDERR_FD) + fds =~= (owned_streams(stdin, stdout, STDERR_FD) + seq![f])
            + fds.drop_first());
        assert(((owned_streams(i2, o2, STDERR_FD) + fds.drop_first()) + d0).to_multiset() =~= ((owned_streams(
            i2,
            o2,
            STDERR_FD,
        ) + d0) + fds.drop_first()).to_multiset());
    }
}

/// The streams opened for stage `i`: the read end of the pipe before it, its
/// files, and the write end of the pipe after it.
pub open spec fn stage_resources(pv: PlanView, files: Seq<i32>, pipes: Seq<(i32, i32)>, i: int) -> Seq<i32> {
    (if i > 0 { seq![pipes[i - 1].0] } else { Seq::empty() }) + files.subrange(
        redirect_offset(pv.stages, i),
        redirect_offset(pv.stages, i + 1),
    ) + (if i < pv.stages.len() - 1 { seq![pipes[i].1] } else { Seq::empty() })
}

/// Both ends of each pipe, in order.
pub open spec fn pipe_ends(pipes: Seq<(i32, i32)>) -> Seq<i32>
    decreases pipes.len(),
{
    if pipes.len() == 0 {
        Seq::empty()
    } else {
        pipe_ends(pipes.drop_last()) + seq![pipes.last().0, pipes.last().1]
    }
}

/// The streams that a descriptor keeps, over the first `i` descriptors.
pub open spec fn held_upto(progs: Seq<Prog>, i: int) -> Seq<i32>
    decreases i,
{
    if i <= 0 {
        Seq::empty()
    } else {
        held_upto(progs, i - 1) + progs[i - 1].owned()
    }
}

proof fn lemma_stage_conserves(pv: PlanView, files: Seq<i32>, pipes: Seq<(i32, i32)>, i: int)
    requires
        resources_fit(pv, files, pipes),
        0 <= i < pv.stages.len(),
    ensures
        ({
            let (a, b, d) = stage_streams(pv, files, pipes, i);
            (owned_streams(a, b, STDERR_FD) + d).to_multiset() == stage_resources(pv, files, pipes, i).to_multiset()
        }),
{
    broadcast use vstd::multiset::group_multiset_axioms;
    broadcast use lemma_multiset_commutative;

    let n = pv.stages.len();
    lemma_offset_monotone(pv.stages, i, i + 1);
    lemma_offset_monotone(pv.stages, i + 1, n as int);
    let lo = redirect_offset(pv.stages, i);
    let hi = redirect_offset(pv.stages, i + 1);
    let seg = files.subrange(lo, hi);
    let modes = modes_of(pv.stages[i]);
    assert(modes.len() == seg.len());
    assert forall|k: int| 0 <= k < seg.len() implies #[trigger] seg[k] > STDERR_FD by {
        assert(seg[k] == files[lo + k]);
    }
    let init_in = if i > 0 { pipes[i - 1].0 } else { STDIN_FD };
    lemma_redirects_conserve(init_in, STDOUT_FD, modes, seg);
    let (a, b, d) = apply_redirects(init_in, STDOUT_FD, modes, seg);
    let head: Seq<i32> = if i > 0 { seq![pipes[i - 1].0] } else { Seq::empty() };
    assert(owned_streams(init_in, STDOUT_FD, STDERR_FD) =~= head);
    if i < n - 1 {
        let w = pipes[i].1;
        assert(0 <= i < pipes.len());
        assert(pipes[i].0 > STDERR_FD && pipes[i].1 > STDERR_FD);
        let extra: Seq<i32> = if b != STDOUT_FD { seq![b] } else { Seq::empty() };
        let ina: Seq<i32> = if a != STDIN_FD { seq![a] } else { Seq::empty() };
        assert(owned_streams(a, w, STDERR_FD) =~= ina + seq![w]);
        assert(owned_streams(a, b, STDERR_FD) =~= ina + extra);
        assert((owned_streams(a, w, STDERR_FD) + (if b != STDOUT_FD { d.push(b) } else { d })).to_multiset()
            =~= ((owned_streams(a, b, STDERR_FD) + d) + seq![w]).to_multiset()) by {
            if b != STDOUT_FD {
                assert(d.push(b) =~= d + seq![b]);
            }
        }
        assert(stage_resources(pv, files, pipes, i) =~= (head + seg) + seq![w]);
    } else {
        assert(stage_resources(pv, files, pipes, i) =~= (head + seg) + Seq::<i32>::empty());
        assert((head + seg) + Seq::<i32>::empty() =~= head + seg);
    }
}

/// The streams opened for the first `i` stages, grouped by kind.
pub open spec fn opened_upto(pv: PlanView, files: Seq<i32>, pipes: Seq<(i32, i32)>, i: int) -> Seq<i32> {
    files.take(redirect_offset(pv.stages, i)) + (if i == 0 {
        Seq::empty()
    } else if i < pv.stages.len() {
        pipe_ends(pipes.take(i - 1)) + seq![pipes[i - 1].1]
    } else {
        pipe_ends(pipes)
    })
}

pub open spec fn min_int(a: int, b: int) -> int {
    if a < b {
        a
    } else {
        b
    }
}

proof fn lemma_conserve_upto(pv: PlanView, files: Seq<i32>, pipes: Seq<(i32, i32)>, progs: Seq<Prog>, i: int)
    requires
        resources_fit(pv, files, pipes),
        progs.len() == stage_count(pv),
        forall|k: int| 0 <= k < progs.len() ==> prog_of_stage(#[trigger] progs[k], pv, files, pipes, k),
        0 <= i <= pv.stages.len(),
    ensures
        (held_upto(progs, min_int(i, progs.len() as int)) + released_upto(pv, files, pipes, i)).to_multiset()
            == opened_upto(pv, files, pipes, i).to_multiset(),
    decreases i,
{
    broadcast use vstd::multiset::group_multiset_axioms;
    broadcast use lemma_multiset_commutative;

    let n = pv.stages.len() as int;
    if i == 0 {
        assert(redirect_offset(pv.stages, 0) == 0);
        assert(held_upto(progs, 0) + released_upto(pv, files, pipes, 0) =~= Seq::<i32>::empty());
        assert(opened_upto(pv, files, pipes, 0) =~= Seq::<i32>::empty());
    } else {
        let j = i - 1;
        lemma_conserve_upto(pv, files, pipes, progs, j);
        lemma_stage_conserves(pv, files, pipes, j);
        lemma_offset_monotone(pv.stages, j, i);
        lemma_offset_monotone(pv.stages, i, n);
        let lo = redirect_offset(pv.stages, j);
        let hi = redirect_offset(pv.stages, i);
        let seg = files.subrange(lo, hi);
        let (a, b, d) = stage_streams(pv, files, pipes, j);
        let kept = min_int(j, progs.len() as int);
        let kept2 = min_int(i, progs.len() as int);
        let before = held_upto(progs, kept) + released_upto(pv, files, pipes, j);
        let after = held_upto(progs, kept2) + released_upto(pv, files, pipes, i);
        if j == n - 1 && !runs_last(pv) {
            assert(kept2 == kept);
            assert(after.to_multiset() =~= before.to_multiset().add((owned_streams(a, b, STDERR_FD) + d).to_multiset()));
        } else {
            assert(kept2 == i);
            assert(kept == j);
            assert(prog_of_stage(progs[j], pv, files, pipes, j));
            assert(progs[j].owned() == owned_streams(a, b, STDERR_FD));
            assert(after.to_multiset() =~= before.to_multiset().add((owned_streams(a, b, STDERR_FD) + d).to_multiset()));
        }
        assert(files.take(hi) =~= files.take(lo) + seg);
        let head: Seq<i32> = if j > 0 { seq![pipes[j - 1].0] } else { Seq::empty() };
        let tail: Seq<i32> = if j < n - 1 { seq![pipes[j].1] } else { Seq::empty() };
        assert(stage_resources(pv, files, pipes, j) == head + seg + tail);
        let flo = files.take(lo);
        if i == n {
            assert(pipes.take(j) =~= pipes);
        }
        if j == 0 {
            assert(lo == 0);
            assert(flo =~= Seq::<i32>::empty());
            assert(pipe_ends(pipes.take(0)) =~= Seq::<i32>::empty());
            if i == n {
                assert(pipe_ends(pipes) =~= Seq::<i32>::empty());
            }
            assert(opened_upto(pv, files, pipes, j) =~= Seq::<i32>::empty());
            assert(opened_upto(pv, files, pipes, i) =~= stage_resources(pv, files, pipes, j));
        } else {
            let pe = pipe_ends(pipes.take(j - 1));
            let r = pipes[j - 1].0;
            let w = pipes[j - 1].1;
            assert(pipes.take(j).drop_last() =~= pipes.take(j - 1));
            assert(pipe_ends(pipes.take(j)) == pe + seq![r, w]);
            assert(opened_upto(pv, files, pipes, j) =~= flo + (pe + seq![w]));
            assert(stage_resources(pv, files, pipes, j) =~= seq![r] + seg + tail);
            assert(opened_upto(pv, files, pipes, i) =~= flo + seg + (pe + seq![r, w]) + tail);
            assert(seq![r, w] =~= seq![r] + seq![w]);
            assert(opened_upto(pv, files, pipes, i).to_multiset() =~= flo.to_multiset().add(seg.to_multiset()).add(
                pe.to_multiset(),
            ).add(seq![r].to_multiset()).add(seq![w].to_multiset()).add(tail.to_multiset()));
        }
        assert(opened_upto(pv, files, pipes, i).to_multiset() =~= opened_upto(pv, files, pipes, j).to_multiset().add(
            stage_resources(pv, files, pipes, j).to_multiset(),
        ));
    }
}

/// Every stream opened for a plan ends in exactly one place once the job is
/// built: kept by exactly one descriptor, or handed back to be closed once.
/// So none is closed twice and none is left open unowned.
pub proof fn lemma_from_plan_conserves(
    pv: PlanView,
    files: Seq<i32>,
    pipes: Seq<(i32, i32)>,
    progs: Seq<Prog>,
    released: Seq<i32>,
)
    requires
        resources_fit(pv, files, pipes),
        progs.len() == stage_count(pv),
        forall|i: int| 0 <= i < progs.len() ==> prog_of_stage(#[trigger] progs[i], pv, files, pipes, i),
        released == released_upto(pv, files, pipes, pv.stages.len() as int),
    ensures
        (held_upto(progs, progs.len() as int) + released).to_multiset() == (files + pipe_ends(pipes)).to_multiset(),
{
    let n = pv.stages.len() as int;
    lemma_conserve_upto(pv, files, pipes, progs, n);
    assert(min_int(n, progs.len() as int) == progs.len());
    assert(files.take(redirect_offset(pv.stages, n)) =~= files);
}

/// One reported status change moves jobs between running and stopped only
/// as reported: an exit changes no remaining job's state (jobs after a
/// removed one move down by one place); a stop makes only the reported job
/// stopped, and only the foreground job, handed the terminal, may be made
/// running; a continue makes only the reported job running; anything else
/// changes nothing.
pub proof fn lemma_reap_state_changes(
    o: &JobList,
    f: &JobList,
    j: int,
    k: int,
    kind: WaitStatus,
    r: Result<ReapStep, ReapError>,
)
    requires
        o.wf(),
        0 <= j < o.list@.len(),
        reap_outcome(o, f, j, k, kind, r),
    ensures
        (kind is Exited || kind is Signaled) ==> forall|i: int|
            0 <= i < f.list@.len() ==> (#[trigger] f.list@[i]).state == o.list@[if f.list@.len() == o.list@.len()
                || i < j {
                i
            } else {
                i + 1
            }].state,
        (kind is Exited || kind is Signaled) ==> f.list@.len() == o.list@.len() || f.list@.len() == o.list@.len() - 1,
        !(kind is Exited || kind is Signaled) ==> f.list@.len() == o.list@.len(),
        kind is Stopped ==> forall|i: int|
            0 <= i < f.list@.len() && (#[trigger] f.list@[i]).state != o.list@[i].state ==> (i == j && f.list@[i].state
                == JobState::Stopped) || (f.forground_job == Some(i as usize) && f.list@[i].state == JobState::Running),
        kind is Continued ==> forall|i: int|
            0 <= i < f.list@.len() && (#[trigger] f.list@[i]).state != o.list@[i].state ==> i == j && f.list@[i].state
                == JobState::Running,
        kind is Other ==> forall|i: int| 0 <= i < f.list@.len() ==> (#[trigger] f.list@[i]).state == o.list@[i].state,
{
}

/// The lists handed back, one after another.
pub open spec fn concat_all(h: Seq<Seq<i32>>, i: int) -> Seq<i32>
    decreases i,
{
    if i <= 0 {
        Seq::empty()
    } else {
        concat_all(h, i - 1) + h[i - 1]
    }
}

proof fn lemma_concat_held(progs: Seq<Prog>, handed: Seq<Seq<i32>>, i: int)
    requires
        0 <= i <= progs.len(),
        handed.len() == progs.len(),
        forall|x: int| 0 <= x < progs.len() ==> #[trigger] handed[x] == progs[x].owned(),
    ensures
        concat_all(handed, i) == held_upto(progs, i),
    decreases i,
{
    if i > 0 {
        lemma_concat_held(progs, handed, i - 1);
    }
}

proof fn lemma_pipe_ends_not_standard(pipes: Seq<(i32, i32)>)
    requires
        forall|i: int| 0 <= i < pipes.len() ==> (#[trigger] pipes[i]).0 > STDERR_FD && pipes[i].1 > STDERR_FD,
    ensures
        forall|x: int| 0 <= x < pipe_ends(pipes).len() ==> #[trigger] pipe_ends(pipes)[x] > STDERR_FD,
    decreases pipes.len(),
{
    if pipes.len() > 0 {
        let rest = pipes.drop_last();
        assert forall|i: int| 0 <= i < rest.len() implies (#[trigger] rest[i]).0 > STDERR_FD && rest[i].1
            > STDERR_FD by {
            assert(rest[i] == pipes[i]);
        }
        lemma_pipe_ends_not_standard(rest);
        let last = pipes[pipes.len() - 1];
        assert(last.0 > STDERR_FD && last.1 > STDERR_FD);
        let pe = pipe_ends(pipes);
        assert(pe == pipe_ends(rest) + seq![last.0, last.1]);
        assert forall|x: int| 0 <= x < pe.len() implies #[trigger] pe[x] > STDERR_FD by {
            if x < pipe_ends(rest).len() {
                assert(pe[x] == pipe_ends(rest)[x]);
            } else if x == pipe_ends(rest).len() {
                assert(pe[x] == last.0);
            } else {
                assert(pe[x] == last.1);
            }
        }
    }
}

/// Starting a job built from a plan closes, in the shell, every stream that
/// was opened for it exactly once: the streams that building it released,
/// then, for each descriptor as it is launched, the streams it owned and
/// handed back. None of them is a standard stream.
pub proof fn lemma_start_closes_each_once(
    pv: PlanView,
    files: Seq<i32>,
    pipes: Seq<(i32, i32)>,
    progs: Seq<Prog>,
    released: Seq<i32>,
    handed: Seq<Seq<i32>>,
)
    requires
        resources_fit(pv, files, pipes),
        progs.len() == stage_count(pv),
        forall|i: int| 0 <= i < progs.len() ==> prog_of_stage(#[trigger] progs[i], pv, files, pipes, i),
        released == released_upto(pv, files, pipes, pv.stages.len() as int),
        handed.len() == progs.len(),
        forall|i: int| 0 <= i < progs.len() ==> #[trigger] handed[i] == progs[i].owned(),
    ensures
        (concat_all(handed, handed.len() as int) + released).to_multiset() == (files + pipe_ends(
            pipes,
        )).to_multiset(),
        forall|x: i32| (concat_all(handed, handed.len() as int) + released).contains(x) ==> x > STDERR_FD,
{
    broadcast use vstd::seq_lib::group_to_multiset_ensures;

    lemma_from_plan_conserves(pv, files, pipes, progs, released);
    lemma_concat_held(progs, handed, progs.len() as int);
    lemma_pipe_ends_not_standard(pipes);
    let all = files + pipe_ends(pipes);
    let closed = concat_all(handed, handed.len() as int) + released;
    assert forall|x: i32| closed.contains(x) implies x > STDERR_FD by {
        closed.to_multiset_ensures();
        all.to_multiset_ensures();
        assert(all.to_multiset().count(x) > 0);
        assert(all.contains(x));
        let y = choose|y: int| 0 <= y < all.len() && all[y] == x;
        if y < files.len() {
            assert(all[y] == files[y]);
        } else {
            assert(all[y] == pipe_ends(pipes)[y - files.len()]);
        }
    }
}

} // verus!
