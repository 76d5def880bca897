use vstd::prelude::*;

use crate::cmd::{CmdInner, StdinConfig, ThrowBehavior};
use crate::error::CmdError;
use crate::exec::{
    adjusted, finished_as, is_cat_feeding, is_stub, single_result_ok, succeeded_zero, Execution, Finished, Frame, Phase, SpawnOutcome, Task,
};
use crate::pipeline::Pipeline;
use crate::result::RawOutput;

verus! {

/// What running each possible process would report: the world the
/// processes of an evaluation run in.
pub type World = spec_fn(CmdInner) -> SpawnOutcome;

/// The number of nodes of a pipeline.
pub open spec fn psize(p: Pipeline) -> nat
    decreases p,
{
    match p {
        Pipeline::Single(_) => 1,
        Pipeline::Pipe(l, r) => 1 + psize(*l) + psize(*r),
        Pipeline::And(l, r) => 1 + psize(*l) + psize(*r),
        Pipeline::Or(l, r) => 1 + psize(*l) + psize(*r),
        Pipeline::Then(l, r) => 1 + psize(*l) + psize(*r),
    }
}

/// A measure of the work a task stands for.
pub open spec fn task_measure(t: Task) -> nat {
    match t {
        Task::Exec(p, _, _) => 3 * psize(p),
        Task::NoThrow(p, _, _) => 3 * psize(p) + 1,
        Task::Inject(p, _, _, _) => 3 * psize(p) + 1,
        Task::InjectNoThrow(p, _, _, _) => 3 * psize(p) + 2,
        Task::PipeTo(l, r, _, _) => 3 * (psize(l) + psize(r)) + 2,
    }
}

/// One process, run in the world, gives this result.
pub open spec fn runs_as(job: CmdInner, w: World, v: Result<RawOutput, CmdError>) -> bool {
    single_result_ok(job, w(job), v)
}

/// How a result of a piece of work came about: the results of its parts
/// and how each of them came about.
pub enum Derivation {
    /// A single process ran.
    Ran,
    /// The work is the same as another piece of work.
    Via(Box<Derivation>),
    /// A first part gave a result; a second part may have followed.
    Then(Result<RawOutput, CmdError>, Box<Derivation>, Box<Derivation>),
    /// A pipe whose right side is itself a pipe: the left side, the first
    /// command of the right side, and (for a longer right side) the command
    /// that feeds what that command printed to the rest.
    Pipe(Result<RawOutput, CmdError>, Box<Derivation>, Result<RawOutput, CmdError>, Box<Derivation>, CmdInner, Box<Derivation>),
}

/// The meaning of a piece of work: in the world `w`, it can give the result
/// `v`, as `d` tells. A single command runs once; `a && b` runs `b` only
/// after `a` succeeded with code 0, `a || b` only after `a` did not, `a ; b`
/// always; `a | b` feeds the stdout of `a` to the stdin of `b` (to the first
/// command of `b` when `b` is itself a pipe or a chain), and an error of `a`
/// ends the pipe.
pub open spec fn derives(t: Task, w: World, v: Result<RawOutput, CmdError>, d: Derivation) -> bool
    decreases task_measure(t),
{
    match t {
        Task::Exec(p, cs, ce) => match p {
            Pipeline::Single(inner) => runs_as(adjusted(*inner, cs, ce), w, v),
            Pipeline::Pipe(l, r) => d matches Derivation::Via(d1) && derives(Task::PipeTo(*l, *r, cs, ce), w, v, *d1),
            Pipeline::And(l, r) => d matches Derivation::Then(vl, d1, d2) && derives(Task::Exec(*l, cs, ce), w, vl, *d1)
                && if succeeded_zero(vl) {
                    derives(Task::Exec(*r, cs, ce), w, v, *d2)
                } else {
                    v == vl
                },
            Pipeline::Or(l, r) => d matches Derivation::Then(vl, d1, d2) && derives(Task::NoThrow(*l, cs, ce), w, vl, *d1)
                && if succeeded_zero(vl) {
                    v == vl
                } else {
                    derives(Task::Exec(*r, cs, ce), w, v, *d2)
                },
            Pipeline::Then(l, r) => d matches Derivation::Then(vl, d1, d2) && derives(Task::NoThrow(*l, false, false), w, vl, *d1)
                && derives(Task::Exec(*r, cs, ce), w, v, *d2),
        },
        Task::NoThrow(p, cs, ce) => match p {
            Pipeline::Single(inner) => runs_as(CmdInner { throw: ThrowBehavior::NoThrow, ..adjusted(*inner, cs, ce) }, w, v),
            _ => d matches Derivation::Via(d1) && derives(Task::Exec(p, cs, ce), w, v, *d1),
        },
        Task::Inject(p, bytes, cs, ce) => match p {
            Pipeline::Single(inner) => runs_as(CmdInner { stdin: StdinConfig::Bytes(bytes), ..adjusted(*inner, cs, ce) }, w, v),
            Pipeline::Pipe(l, r) => d matches Derivation::Then(vl, d1, d2) && derives(Task::Inject(*l, bytes, true, false), w, vl, *d1)
                && match vl {
                    Ok(o) => derives(Task::Inject(*r, o.stdout, cs, ce), w, v, *d2),
                    Err(_) => v == vl,
                },
            Pipeline::And(l, r) => d matches Derivation::Then(vl, d1, d2) && derives(Task::Inject(*l, bytes, cs, ce), w, vl, *d1)
                && if succeeded_zero(vl) {
                    derives(Task::Exec(*r, cs, ce), w, v, *d2)
                } else {
                    v == vl
                },
            Pipeline::Or(l, r) => d matches Derivation::Then(vl, d1, d2)
                && derives(Task::InjectNoThrow(*l, bytes, cs, ce), w, vl, *d1) && if succeeded_zero(vl) {
                    v == vl
                } else {
                    derives(Task::Exec(*r, cs, ce), w, v, *d2)
                },
            Pipeline::Then(l, r) => d matches Derivation::Then(vl, d1, d2)
                && derives(Task::InjectNoThrow(*l, bytes, false, false), w, vl, *d1)
                && derives(Task::Exec(*r, cs, ce), w, v, *d2),
        },
        Task::InjectNoThrow(p, bytes, cs, ce) => match p {
            Pipeline::Single(inner) => runs_as(
                CmdInner { throw: ThrowBehavior::NoThrow, stdin: StdinConfig::Bytes(bytes), ..adjusted(*inner, cs, ce) },
                w,
                v,
            ),
            _ => d matches Derivation::Via(d1) && derives(Task::Inject(p, bytes, cs, ce), w, v, *d1),
        },
        Task::PipeTo(l, r, cs, ce) => match r {
            Pipeline::Pipe(il, ir) => d matches Derivation::Pipe(vl, d1, vi, d2, c, d3)
                && derives(Task::Exec(l, true, false), w, vl, *d1) && match vl {
                    Err(_) => v == vl,
                    Ok(o) => derives(Task::Inject(*il, o.stdout, true, false), w, vi, *d2) && match vi {
                        Err(_) => v == vi,
                        Ok(oi) => if (*ir) is Single {
                            derives(Task::Inject(*ir, oi.stdout, cs, ce), w, v, *d3)
                        } else {
                            is_cat_feeding(c, oi.stdout)
                                && derives(Task::PipeTo(Pipeline::Single(Box::new(c)), *ir, cs, ce), w, v, *d3)
                        },
                    },
                },
            _ => d matches Derivation::Then(vl, d1, d2) && derives(Task::Exec(l, true, false), w, vl, *d1)
                && match vl {
                    Err(_) => v == vl,
                    Ok(o) => derives(Task::Inject(r, o.stdout, cs, ce), w, v, *d2),
                },
        },
    }
}

/// A result that a piece of work can give in the world `w`.
pub open spec fn evals(t: Task, w: World, v: Result<RawOutput, CmdError>) -> bool {
    exists|d: Derivation| #[trigger] derives(t, w, v, d)
}

} // verus!

verus! {

/// One move of an evaluation driven in the world `w`: an awaited process is
/// answered with what the world says it reports; otherwise one step is taken.
pub open spec fn moves_to<O, E>(a: Execution<O, E>, b: Execution<O, E>, w: World) -> bool {
    match a.phase {
        Phase::Waiting(job) => {
            &&& b == (Execution::<O, E> { phase: b.phase, ..a })
            &&& b.phase matches Phase::Returned(r) && single_result_ok(job, w(job), r)
        },
        _ => !a.spec_done() && a.steps_to(b),
    }
}

/// The move from state `i` of a trace to the next.
pub open spec fn moved<O, E>(tr: Seq<Execution<O, E>>, w: World, i: int) -> bool {
    moves_to(tr[i], tr[i + 1], w)
}

/// A sequence of states of an evaluation, each one move from the one before.
pub open spec fn valid_trace<O, E>(tr: Seq<Execution<O, E>>, w: World) -> bool {
    forall|i: int| 0 <= i < tr.len() - 1 ==> #[trigger] moved(tr, w, i)
}

/// The stack `s` holds `f` at its bottom.
pub open spec fn above(s: Seq<Frame>, f: Seq<Frame>) -> bool {
    f.len() <= s.len() && s.take(f.len() as int) == f
}

/// A state of an evaluation that began with stack `f` and has not returned to it.
pub open spec fn pending_at<O, E>(x: Execution<O, E>, f: Seq<Frame>) -> bool {
    &&& above(x.frames@, f)
    &&& x.frames@.len() == f.len() ==> !(x.phase is Returned)
}

proof fn lemma_above_refl(f: Seq<Frame>)
    ensures
        above(f, f),
{
    assert(f.take(f.len() as int) =~= f);
}

proof fn lemma_above_push(s: Seq<Frame>, f: Seq<Frame>, fr: Frame)
    requires
        above(s, f.push(fr)),
    ensures
        above(s, f),
        s.len() > f.len(),
{
    assert(s.take(f.len() as int) =~= s.take(f.len() as int + 1).take(f.len() as int));
    assert(f.push(fr).take(f.len() as int) =~= f);
}

proof fn lemma_lift<O, E>(tr: Seq<Execution<O, E>>, f: Seq<Frame>, fr: Frame, b: int, j: int)
    requires
        forall|i: int| b <= i < j ==> pending_at(#[trigger] tr[i], f.push(fr)),
    ensures
        forall|i: int| b <= i < j ==> pending_at(#[trigger] tr[i], f),
{
    assert forall|i: int| b <= i < j implies pending_at(#[trigger] tr[i], f) by {
        lemma_above_push(tr[i].frames@, f, fr);
    }
}

proof fn lemma_pushed<O, E>(x: Execution<O, E>, f: Seq<Frame>, fr: Frame)
    requires
        x.frames@ == f.push(fr),
    ensures
        pending_at(x, f),
{
    lemma_above_refl(f.push(fr));
    lemma_above_push(x.frames@, f, fr);
}

proof fn lemma_psize_pos(p: Pipeline)
    ensures
        psize(p) >= 1,
{
}

/// The result a piece of work returns, when the trace gets that far.
pub open spec fn returns_at<O, E>(tr: Seq<Execution<O, E>>, w: World, a: int, t: Task, j: int, d: Derivation) -> bool {
    &&& a < j <= tr.len()
    &&& forall|i: int| a <= i < j ==> pending_at(#[trigger] tr[i], tr[a].frames@)
    &&& j < tr.len() ==> {
        &&& tr[j].frames@ == tr[a].frames@
        &&& tr[j].phase is Returned
        &&& derives(t, w, tr[j].phase->Returned_0, d)
    }
}

proof fn lemma_single<O, E>(tr: Seq<Execution<O, E>>, w: World, a: int, t: Task, job: CmdInner) -> (j: int)
    requires
        valid_trace(tr, w),
        0 <= a < tr.len(),
        tr[a].phase == Phase::Start(t),
        crate::exec::start_step(t) == (Option::<Frame>::None, Phase::Waiting(job)),
        forall|v: Result<RawOutput, CmdError>| runs_as(job, w, v) ==> #[trigger] derives(t, w, v, Derivation::Ran),
    ensures
        returns_at(tr, w, a, t, j, Derivation::Ran),
{
    let f = tr[a].frames@;
    lemma_above_refl(f);
    if a + 1 < tr.len() {
        assert(moved(tr, w, a));
        assert(tr[a + 1].frames@ == f);
        if a + 2 < tr.len() {
            assert(moved(tr, w, a + 1));
            a + 2
        } else {
            tr.len() as int
        }
    } else {
        tr.len() as int
    }
}

proof fn lemma_then_step<O, E>(tr: Seq<Execution<O, E>>, w: World, a: int, t: Task, t2: Task)
    requires
        valid_trace(tr, w),
        0 <= a < tr.len() - 1,
        tr[a].phase == Phase::Start(t),
        crate::exec::start_step(t) == (Option::<Frame>::None, Phase::Start(t2)),
    ensures
        tr[a + 1].frames@ == tr[a].frames@,
        tr[a + 1].phase == Phase::Start(t2),
{
    assert(moved(tr, w, a));
}

} // verus!


verus! {

proof fn lemma_eval<O, E>(tr: Seq<Execution<O, E>>, w: World, a: int, t: Task) -> (r: (int, Derivation))
    requires
        valid_trace(tr, w),
        0 <= a < tr.len(),
        tr[a].phase == Phase::Start(t),
    ensures
        returns_at(tr, w, a, t, r.0, r.1),
    decreases task_measure(t), 1nat,
{
    let f = tr[a].frames@;
    lemma_above_refl(f);
    match t {
        Task::Exec(p, cs, ce) => match p {
            Pipeline::Single(inner) => (lemma_single(tr, w, a, t, adjusted(*inner, cs, ce)), Derivation::Ran),
            Pipeline::Pipe(l, r) => {
                if a + 1 < tr.len() {
                    lemma_then_step(tr, w, a, t, Task::PipeTo(*l, *r, cs, ce));
                    let (j, d) = lemma_pipe_to(tr, w, a + 1, *l, *r, cs, ce);
                    (j, Derivation::Via(Box::new(d)))
                } else {
                    (tr.len() as int, Derivation::Ran)
                }
            },
            Pipeline::And(l, r) => lemma_and(tr, w, a, t, Task::Exec(*l, cs, ce), *r, cs, ce),
            Pipeline::Or(l, r) => lemma_or(tr, w, a, t, Task::NoThrow(*l, cs, ce), *r, cs, ce),
            Pipeline::Then(l, r) => lemma_then(tr, w, a, t, Task::NoThrow(*l, false, false), *r, cs, ce),
        },
        Task::NoThrow(p, cs, ce) => match p {
            Pipeline::Single(inner) => (
                lemma_single(tr, w, a, t, CmdInner { throw: ThrowBehavior::NoThrow, ..adjusted(*inner, cs, ce) }),
                Derivation::Ran,
            ),
            _ => {
                if a + 1 < tr.len() {
                    lemma_then_step(tr, w, a, t, Task::Exec(p, cs, ce));
                    let (j, d) = lemma_eval(tr, w, a + 1, Task::Exec(p, cs, ce));
                    (j, Derivation::Via(Box::new(d)))
                } else {
                    (tr.len() as int, Derivation::Ran)
                }
            },
        },
        Task::Inject(p, bytes, cs, ce) => match p {
            Pipeline::Single(inner) => (
                lemma_single(tr, w, a, t, CmdInner { stdin: StdinConfig::Bytes(bytes), ..adjusted(*inner, cs, ce) }),
                Derivation::Ran,
            ),
            Pipeline::Pipe(l, r) => lemma_inject_pipe(tr, w, a, *l, *r, bytes, cs, ce),
            Pipeline::And(l, r) => lemma_and(tr, w, a, t, Task::Inject(*l, bytes, cs, ce), *r, cs, ce),
            Pipeline::Or(l, r) => lemma_or(tr, w, a, t, Task::InjectNoThrow(*l, bytes, cs, ce), *r, cs, ce),
            Pipeline::Then(l, r) => lemma_then(tr, w, a, t, Task::InjectNoThrow(*l, bytes, false, false), *r, cs, ce),
        },
        Task::InjectNoThrow(p, bytes, cs, ce) => match p {
            Pipeline::Single(inner) => (
                lemma_single(
                    tr,
                    w,
                    a,
                    t,
                    CmdInner { throw: ThrowBehavior::NoThrow, stdin: StdinConfig::Bytes(bytes), ..adjusted(*inner, cs, ce) },
                ),
                Derivation::Ran,
            ),
            _ => {
                if a + 1 < tr.len() {
                    lemma_then_step(tr, w, a, t, Task::Inject(p, bytes, cs, ce));
                    let (j, d) = lemma_eval(tr, w, a + 1, Task::Inject(p, bytes, cs, ce));
                    (j, Derivation::Via(Box::new(d)))
                } else {
                    (tr.len() as int, Derivation::Ran)
                }
            },
        },
        Task::PipeTo(l, r, cs, ce) => lemma_pipe_to(tr, w, a, l, r, cs, ce),
    }
}

/// A part of a piece of work begun at `b` on the stack `f` under frame `fr`
/// runs until `j1`.
proof fn lemma_first_part<O, E>(tr: Seq<Execution<O, E>>, w: World, b: int, f: Seq<Frame>, fr: Frame, t1: Task) -> (r: (
    int,
    Derivation,
))
    requires
        valid_trace(tr, w),
        0 <= b < tr.len(),
        tr[b].frames@ == f.push(fr),
        tr[b].phase == Phase::Start(t1),
    ensures
        b < r.0 <= tr.len(),
        forall|i: int| b <= i < r.0 ==> pending_at(#[trigger] tr[i], f),
        r.0 < tr.len() ==> {
            &&& tr[r.0].frames@ == f.push(fr)
            &&& tr[r.0].phase is Returned
            &&& derives(t1, w, tr[r.0].phase->Returned_0, r.1)
            &&& pending_at(tr[r.0], f)
        },
    decreases task_measure(t1), 2nat,
{
    let (j1, d1) = lemma_eval(tr, w, b, t1);
    lemma_lift(tr, f, fr, b, j1);
    if j1 < tr.len() {
        lemma_pushed(tr[j1], f, fr);
    }
    (j1, d1)
}

proof fn lemma_pop<O, E>(tr: Seq<Execution<O, E>>, w: World, j1: int, f: Seq<Frame>, fr: Frame)
    requires
        valid_trace(tr, w),
        0 <= j1 < tr.len() - 1,
        tr[j1].frames@ == f.push(fr),
        tr[j1].phase is Returned,
    ensures
        crate::exec::pops_to(fr, tr[j1].phase->Returned_0, tr[j1 + 1].phase),
        tr[j1 + 1].frames@ == crate::exec::with_frame(f, crate::exec::pop_push(fr, tr[j1].phase->Returned_0)),
{
    assert(moved(tr, w, j1));
    assert(tr[j1].frames@.last() == fr);
    assert(tr[j1].frames@.drop_last() =~= f);
}

} // verus!

verus! {

proof fn lemma_and<O, E>(tr: Seq<Execution<O, E>>, w: World, a: int, t: Task, t1: Task, r: Pipeline, cs: bool, ce: bool) -> (res: (
    int,
    Derivation,
))
    requires
        valid_trace(tr, w),
        0 <= a < tr.len(),
        tr[a].phase == Phase::Start(t),
        crate::exec::start_step(t) == (Some(Frame::AndThen(r, cs, ce)), Phase::Start(t1)),
        task_measure(t1) < task_measure(t),
        task_measure(Task::Exec(r, cs, ce)) < task_measure(t),
        forall|v: Result<RawOutput, CmdError>, vl: Result<RawOutput, CmdError>, d1: Derivation, d2: Derivation|
            derives(t1, w, vl, d1) && (if succeeded_zero(vl) { derives(Task::Exec(r, cs, ce), w, v, d2) } else { v == vl })
                ==> #[trigger] derives(t, w, v, Derivation::Then(vl, Box::new(d1), Box::new(d2))),
    ensures
        returns_at(tr, w, a, t, res.0, res.1),
    decreases task_measure(t), 0nat,
{
    let f = tr[a].frames@;
    let fr = Frame::AndThen(r, cs, ce);
    lemma_above_refl(f);
    if a + 1 < tr.len() {
        assert(moved(tr, w, a));
        let (j1, d1) = lemma_first_part(tr, w, a + 1, f, fr, t1);
        if j1 + 1 < tr.len() {
            let vl = tr[j1].phase->Returned_0;
            lemma_pop(tr, w, j1, f, fr);
            if succeeded_zero(vl) {
                let (j2, d2) = lemma_eval(tr, w, j1 + 1, Task::Exec(r, cs, ce));
                (j2, Derivation::Then(vl, Box::new(d1), Box::new(d2)))
            } else {
                (j1 + 1, Derivation::Then(vl, Box::new(d1), Box::new(Derivation::Ran)))
            }
        } else {
            (tr.len() as int, Derivation::Ran)
        }
    } else {
        (tr.len() as int, Derivation::Ran)
    }
}

proof fn lemma_or<O, E>(tr: Seq<Execution<O, E>>, w: World, a: int, t: Task, t1: Task, r: Pipeline, cs: bool, ce: bool) -> (res: (
    int,
    Derivation,
))
    requires
        valid_trace(tr, w),
        0 <= a < tr.len(),
        tr[a].phase == Phase::Start(t),
        crate::exec::start_step(t) == (Some(Frame::OrElse(r, cs, ce)), Phase::Start(t1)),
        task_measure(t1) < task_measure(t),
        task_measure(Task::Exec(r, cs, ce)) < task_measure(t),
        forall|v: Result<RawOutput, CmdError>, vl: Result<RawOutput, CmdError>, d1: Derivation, d2: Derivation|
            derives(t1, w, vl, d1) && (if succeeded_zero(vl) { v == vl } else { derives(Task::Exec(r, cs, ce), w, v, d2) })
                ==> #[trigger] derives(t, w, v, Derivation::Then(vl, Box::new(d1), Box::new(d2))),
    ensures
        returns_at(tr, w, a, t, res.0, res.1),
    decreases task_measure(t), 0nat,
{
    let f = tr[a].frames@;
    let fr = Frame::OrElse(r, cs, ce);
    lemma_above_refl(f);
    if a + 1 < tr.len() {
        assert(moved(tr, w, a));
        let (j1, d1) = lemma_first_part(tr, w, a + 1, f, fr, t1);
        if j1 + 1 < tr.len() {
            let vl = tr[j1].phase->Returned_0;
            lemma_pop(tr, w, j1, f, fr);
            if succeeded_zero(vl) {
                (j1 + 1, Derivation::Then(vl, Box::new(d1), Box::new(Derivation::Ran)))
            } else {
                let (j2, d2) = lemma_eval(tr, w, j1 + 1, Task::Exec(r, cs, ce));
                (j2, Derivation::Then(vl, Box::new(d1), Box::new(d2)))
            }
        } else {
            (tr.len() as int, Derivation::Ran)
        }
    } else {
        (tr.len() as int, Derivation::Ran)
    }
}

proof fn lemma_then<O, E>(tr: Seq<Execution<O, E>>, w: World, a: int, t: Task, t1: Task, r: Pipeline, cs: bool, ce: bool) -> (res: (
    int,
    Derivation,
))
    requires
        valid_trace(tr, w),
        0 <= a < tr.len(),
        tr[a].phase == Phase::Start(t),
        crate::exec::start_step(t) == (Some(Frame::ThenRun(r, cs, ce)), Phase::Start(t1)),
        task_measure(t1) < task_measure(t),
        task_measure(Task::Exec(r, cs, ce)) < task_measure(t),
        forall|v: Result<RawOutput, CmdError>, vl: Result<RawOutput, CmdError>, d1: Derivation, d2: Derivation|
            derives(t1, w, vl, d1) && derives(Task::Exec(r, cs, ce), w, v, d2)
                ==> #[trigger] derives(t, w, v, Derivation::Then(vl, Box::new(d1), Box::new(d2))),
    ensures
        returns_at(tr, w, a, t, res.0, res.1),
    decreases task_measure(t), 0nat,
{
    let f = tr[a].frames@;
    let fr = Frame::ThenRun(r, cs, ce);
    lemma_above_refl(f);
    if a + 1 < tr.len() {
        assert(moved(tr, w, a));
        let (j1, d1) = lemma_first_part(tr, w, a + 1, f, fr, t1);
        if j1 + 1 < tr.len() {
            let vl = tr[j1].phase->Returned_0;
            lemma_pop(tr, w, j1, f, fr);
            let (j2, d2) = lemma_eval(tr, w, j1 + 1, Task::Exec(r, cs, ce));
            (j2, Derivation::Then(vl, Box::new(d1), Box::new(d2)))
        } else {
            (tr.len() as int, Derivation::Ran)
        }
    } else {
        (tr.len() as int, Derivation::Ran)
    }
}

proof fn lemma_inject_pipe<O, E>(
    tr: Seq<Execution<O, E>>,
    w: World,
    a: int,
    l: Pipeline,
    r: Pipeline,
    bytes: Vec<u8>,
    cs: bool,
    ce: bool,
) -> (res: (int, Derivation))
    requires
        valid_trace(tr, w),
        0 <= a < tr.len(),
        tr[a].phase == Phase::Start(Task::Inject(Pipeline::Pipe(Box::new(l), Box::new(r)), bytes, cs, ce)),
    ensures
        returns_at(tr, w, a, Task::Inject(Pipeline::Pipe(Box::new(l), Box::new(r)), bytes, cs, ce), res.0, res.1),
    decreases task_measure(Task::Inject(Pipeline::Pipe(Box::new(l), Box::new(r)), bytes, cs, ce)), 0nat,
{
    let f = tr[a].frames@;
    let fr = Frame::InjectRest(r, cs, ce);
    lemma_above_refl(f);
    if a + 1 < tr.len() {
        assert(moved(tr, w, a));
        let (j1, d1) = lemma_first_part(tr, w, a + 1, f, fr, Task::Inject(l, bytes, true, false));
        if j1 + 1 < tr.len() {
            let vl = tr[j1].phase->Returned_0;
            lemma_pop(tr, w, j1, f, fr);
            match vl {
                Ok(o) => {
                    let (j2, d2) = lemma_eval(tr, w, j1 + 1, Task::Inject(r, o.stdout, cs, ce));
                    (j2, Derivation::Then(vl, Box::new(d1), Box::new(d2)))
                },
                Err(_) => (j1 + 1, Derivation::Then(vl, Box::new(d1), Box::new(Derivation::Ran))),
            }
        } else {
            (tr.len() as int, Derivation::Ran)
        }
    } else {
        (tr.len() as int, Derivation::Ran)
    }
}

proof fn lemma_pipe_to<O, E>(tr: Seq<Execution<O, E>>, w: World, a: int, l: Pipeline, r: Pipeline, cs: bool, ce: bool) -> (res: (int, Derivation))
    requires
        valid_trace(tr, w),
        0 <= a < tr.len(),
        tr[a].phase == Phase::Start(Task::PipeTo(l, r, cs, ce)),
    ensures
        returns_at(tr, w, a, Task::PipeTo(l, r, cs, ce), res.0, res.1),
    decreases task_measure(Task::PipeTo(l, r, cs, ce)), 0nat,
{
    let f = tr[a].frames@;
    let fr = Frame::PipeInto(r, cs, ce);
    lemma_above_refl(f);
    lemma_psize_pos(l);
    lemma_psize_pos(r);
    if a + 1 < tr.len() {
        assert(moved(tr, w, a));
        let (j1, d1) = lemma_first_part(tr, w, a + 1, f, fr, Task::Exec(l, true, false));
        if j1 + 1 < tr.len() {
            let vl = tr[j1].phase->Returned_0;
            lemma_pop(tr, w, j1, f, fr);
            match r {
                Pipeline::Pipe(il, ir) => {
                    match vl {
                        Err(_) => (j1 + 1, Derivation::Pipe(vl, Box::new(d1), vl, Box::new(Derivation::Ran), arbitrary(),
                            Box::new(Derivation::Ran))),
                        Ok(o) => {
                            lemma_psize_pos(*il);
                            lemma_psize_pos(*ir);
                            let fr2 = Frame::PipeInner(*ir, cs, ce);
                            let (j2, d2) = lemma_first_part(tr, w, j1 + 1, f, fr2, Task::Inject(*il, o.stdout, true, false));
                            if j2 + 1 < tr.len() {
                                let vi = tr[j2].phase->Returned_0;
                                lemma_pop(tr, w, j2, f, fr2);
                                match vi {
                                    Err(_) => (j2 + 1, Derivation::Pipe(vl, Box::new(d1), vi, Box::new(d2), arbitrary(),
                                        Box::new(Derivation::Ran))),
                                    Ok(oi) => {
                                        if (*ir) is Single {
                                            let (j3, d3) = lemma_eval(tr, w, j2 + 1, Task::Inject(*ir, oi.stdout, cs, ce));
                                            (j3, Derivation::Pipe(vl, Box::new(d1), vi, Box::new(d2), arbitrary(), Box::new(d3)))
                                        } else {
                                            let c = tr[j2 + 1].phase->Start_0->PipeTo_0->Single_0;
                                            let t3 = Task::PipeTo(Pipeline::Single(Box::new(*c)), *ir, cs, ce);
                                            assert(tr[j2 + 1].phase == Phase::Start(t3));
                                            let (j3, d3) = lemma_eval(tr, w, j2 + 1, t3);
                                            (j3, Derivation::Pipe(vl, Box::new(d1), vi, Box::new(d2), *c, Box::new(d3)))
                                        }
                                    },
                                }
                            } else {
                                (tr.len() as int, Derivation::Ran)
                            }
                        },
                    }
                },
                _ => match vl {
                    Err(_) => (j1 + 1, Derivation::Then(vl, Box::new(d1), Box::new(Derivation::Ran))),
                    Ok(o) => {
                        let (j2, d2) = lemma_eval(tr, w, j1 + 1, Task::Inject(r, o.stdout, cs, ce));
                        (j2, Derivation::Then(vl, Box::new(d1), Box::new(d2)))
                    },
                },
            }
        } else {
            (tr.len() as int, Derivation::Ran)
        }
    } else {
        (tr.len() as int, Derivation::Ran)
    }
}

} // verus!

verus! {

/// Running a pipeline step by step, each process answered as the world `w`
/// says, ends with a result that the pipeline's meaning allows: whatever
/// sequence of steps leads from the start to the end, `a && b` ran `b` only
/// after `a` succeeded, `a || b` ran `b` only after `a` failed, `a ; b` ran
/// both, and `a | b` fed the stdout of `a` to `b`.
pub proof fn evaluation_law<O, E>(tr: Seq<Execution<O, E>>, w: World)
    requires
        valid_trace(tr, w),
        tr.len() > 0,
        tr[0].phase is Start,
        tr[0].frames@.len() == 0,
        tr.last().spec_done(),
    ensures
        evals(tr[0].phase->Start_0, w, tr.last().phase->Returned_0),
{
    let t = tr[0].phase->Start_0;
    let (j, d) = lemma_eval(tr, w, 0, t);
    if j < tr.len() {
        if j < tr.len() - 1 {
            assert(moved(tr, w, j));
        }
        assert(derives(t, w, tr.last().phase->Returned_0, d));
    } else {
        assert(pending_at(tr[tr.len() - 1], tr[0].frames@));
    }
}

proof fn lemma_flags<O, E>(tr: Seq<Execution<O, E>>, w: World, k: int)
    requires
        valid_trace(tr, w),
        0 <= k < tr.len(),
    ensures
        tr[k].no_err == tr[0].no_err,
        tr[k].no_warn == tr[0].no_warn,
        tr[k].pipeline_no_throw == tr[0].pipeline_no_throw,
        tr[k].announce == tr[0].announce,
    decreases k,
{
    if k > 0 {
        lemma_flags(tr, w, k - 1);
        assert(moved(tr, w, k - 1));
    }
}

/// Running a command with a chain: its result is one that the chain's
/// meaning allows, capturing as the command was configured; the options
/// that decide how it finishes are the command's own.
pub proof fn chain_law<O, E>(inner: CmdInner, tr: Seq<Execution<O, E>>, w: World)
    requires
        tr.len() > 0,
        crate::exec::started(inner, tr[0]),
        inner.deferred_error is None,
        !inner.dry,
        inner.pipeline is Some,
        valid_trace(tr, w),
        tr.last().spec_done(),
    ensures
        evals(
            Task::Exec(inner.pipeline->0, inner.stdout is Capture, inner.stderr is Capture),
            w,
            tr.last().phase->Returned_0,
        ),
        tr.last().no_err == inner.no_err,
        tr.last().no_warn == inner.no_warn,
        tr.last().pipeline_no_throw == (inner.throw is NoThrow),
{
    evaluation_law(tr, w);
    lemma_flags(tr, w, tr.len() - 1);
}

/// Running a single command: its one process runs as the command was
/// configured, and its result is what that run reports.
pub proof fn single_law<O, E>(inner: CmdInner, tr: Seq<Execution<O, E>>, w: World)
    requires
        tr.len() > 0,
        crate::exec::started(inner, tr[0]),
        inner.deferred_error is None,
        !inner.dry,
        inner.pipeline is None,
        valid_trace(tr, w),
        tr.last().spec_done(),
    ensures
        tr.len() == 2,
        runs_as(inner, w, tr.last().phase->Returned_0),
        tr.last().no_err == inner.no_err,
        tr.last().no_warn == inner.no_warn,
        !tr.last().pipeline_no_throw,
{
    assert(tr.len() > 1);
    assert(moved(tr, w, 0));
    if tr.len() > 2 {
        assert(moved(tr, w, 1));
    }
    lemma_flags(tr, w, tr.len() - 1);
}

} // verus!

verus! {

proof fn lemma_done_at_start<O, E>(tr: Seq<Execution<O, E>>, w: World)
    requires
        valid_trace(tr, w),
        tr.len() > 0,
        tr[0].spec_done(),
    ensures
        tr.len() == 1,
{
    if tr.len() > 1 {
        assert(moved(tr, w, 0));
    }
}

/// With exit-code errors off (as `run_exit_code`, `run_success` and
/// `run_no_exit_err` run), a command never ends with an exit-status error:
/// a non-zero exit code is reported as the result's code.
pub proof fn exit_code_off_law<O, E>(inner: CmdInner, tr: Seq<Execution<O, E>>, w: World, f: Finished<O, E>)
    requires
        tr.len() > 0,
        crate::exec::started(inner, tr[0]),
        inner.throw is NoThrow,
        valid_trace(tr, w),
        tr.last().spec_done(),
        finished_as(tr.last(), f),
    ensures
        !(f.result matches Err(CmdError::ExitStatus { .. })),
{
    if inner.deferred_error is Some || inner.dry {
        lemma_done_at_start(tr, w);
    } else if inner.pipeline is Some {
        chain_law(inner, tr, w);
    } else {
        single_law(inner, tr, w);
    }
}

/// For a single command, `run_success` and `run_exit_code` run in the same
/// world agree: one fails exactly when the other does, and otherwise both
/// finish with the same code, so what `Finished::succeeded` reports is
/// whether the code that `Finished::exit_code` reports is 0.
pub proof fn success_law<O, E>(
    c: CmdInner,
    w: World,
    ts: Seq<Execution<O, E>>,
    fs: Finished<O, E>,
    tc: Seq<Execution<O, E>>,
    fc: Finished<O, E>,
)
    requires
        c.pipeline is None,
        ts.len() > 0,
        crate::exec::started(CmdInner { throw: ThrowBehavior::NoThrow, ..c }, ts[0]),
        valid_trace(ts, w),
        ts.last().spec_done(),
        finished_as(ts.last(), fs),
        tc.len() > 0,
        crate::exec::started(
            CmdInner {
                throw: ThrowBehavior::NoThrow,
                stdout: if c.pipeline is Some { crate::cmd::OutputConfig::Null } else { c.stdout },
                ..c
            },
            tc[0],
        ),
        valid_trace(tc, w),
        tc.last().spec_done(),
        finished_as(tc.last(), fc),
    ensures
        (fs.result is Err) == (fc.result is Err),
        fc.result matches Ok(rc) ==> fs.result matches Ok(rs) && rs.code == rc.code,
{
    let job = CmdInner { throw: ThrowBehavior::NoThrow, ..c };
    if c.deferred_error is Some || c.dry {
        lemma_done_at_start(ts, w);
        lemma_done_at_start(tc, w);
    } else {
        single_law(job, ts, w);
        single_law(job, tc, w);
        let vs = ts.last().phase->Returned_0;
        let vc = tc.last().phase->Returned_0;
        assert(runs_as(job, w, vs));
        assert(runs_as(job, w, vc));
        match w(job) {
            SpawnOutcome::Exited { code, stdout, stderr } => {
                assert(vs is Ok && vc is Ok);
            },
            _ => {
                assert(vs is Err && vc is Err);
            },
        }
    }
}

/// `run_and_forget` never fails and never warns: a run that failed (other
/// than by the exit status of a chain run without exit-code errors) gives an
/// empty result with code -1.
pub proof fn forget_law<O, E>(c: CmdInner, tr: Seq<Execution<O, E>>, w: World, f: Finished<O, E>)
    requires
        tr.len() > 0,
        crate::exec::started(CmdInner { no_err: true, no_warn: true, ..c }, tr[0]),
        valid_trace(tr, w),
        tr.last().spec_done(),
        finished_as(tr.last(), f),
    ensures
        f.result is Ok,
        f.warning is None,
        tr.last().phase->Returned_0 is Ok ==> f.result == tr.last().phase->Returned_0,
        tr.last().phase->Returned_0 is Err && !(tr.last().pipeline_no_throw
            && tr.last().phase->Returned_0 matches Err(CmdError::ExitStatus { .. })) ==> crate::exec::is_stub(f.result, -1i32),
{
    lemma_flags(tr, w, tr.len() - 1);
}

/// `a && b` means: a result of `a` that is not a success with code 0, or,
/// after `a` succeeded with code 0, a result of `b`.
pub proof fn and_meaning_law(l: Pipeline, r: Pipeline, cs: bool, ce: bool, w: World, v: Result<RawOutput, CmdError>)
    ensures
        evals(Task::Exec(Pipeline::And(Box::new(l), Box::new(r)), cs, ce), w, v) <==> exists|vl: Result<RawOutput, CmdError>|
            #[trigger] evals(Task::Exec(l, cs, ce), w, vl) && if succeeded_zero(vl) {
                evals(Task::Exec(r, cs, ce), w, v)
            } else {
                v == vl
            },
{
    let t = Task::Exec(Pipeline::And(Box::new(l), Box::new(r)), cs, ce);
    if evals(t, w, v) {
        let d = choose|d: Derivation| derives(t, w, v, d);
        let vl = d->Then_0;
        assert(derives(Task::Exec(l, cs, ce), w, vl, *d->Then_1));
        assert(evals(Task::Exec(l, cs, ce), w, vl));
        if succeeded_zero(vl) {
            assert(derives(Task::Exec(r, cs, ce), w, v, *d->Then_2));
        }
    }
    if exists|vl: Result<RawOutput, CmdError>| #[trigger] evals(Task::Exec(l, cs, ce), w, vl) && if succeeded_zero(vl) {
        evals(Task::Exec(r, cs, ce), w, v)
    } else {
        v == vl
    } {
        let vl = choose|vl: Result<RawOutput, CmdError>| #[trigger] evals(Task::Exec(l, cs, ce), w, vl) && if succeeded_zero(vl) {
            evals(Task::Exec(r, cs, ce), w, v)
        } else {
            v == vl
        };
        let d1 = choose|d: Derivation| derives(Task::Exec(l, cs, ce), w, vl, d);
        if succeeded_zero(vl) {
            let d2 = choose|d: Derivation| derives(Task::Exec(r, cs, ce), w, v, d);
            assert(derives(t, w, v, Derivation::Then(vl, Box::new(d1), Box::new(d2))));
        } else {
            assert(derives(t, w, v, Derivation::Then(vl, Box::new(d1), Box::new(Derivation::Ran))));
        }
    }
}

/// `a || b` means: a result of `a` (run without exit-code errors) that is a
/// success with code 0, or, after any other result of `a`, a result of `b`.
pub proof fn or_meaning_law(l: Pipeline, r: Pipeline, cs: bool, ce: bool, w: World, v: Result<RawOutput, CmdError>)
    ensures
        evals(Task::Exec(Pipeline::Or(Box::new(l), Box::new(r)), cs, ce), w, v) <==> exists|vl: Result<RawOutput, CmdError>|
            #[trigger] evals(Task::NoThrow(l, cs, ce), w, vl) && if succeeded_zero(vl) {
                v == vl
            } else {
                evals(Task::Exec(r, cs, ce), w, v)
            },
{
    let t = Task::Exec(Pipeline::Or(Box::new(l), Box::new(r)), cs, ce);
    if evals(t, w, v) {
        let d = choose|d: Derivation| derives(t, w, v, d);
        let vl = d->Then_0;
        assert(derives(Task::NoThrow(l, cs, ce), w, vl, *d->Then_1));
        assert(evals(Task::NoThrow(l, cs, ce), w, vl));
        if !succeeded_zero(vl) {
            assert(derives(Task::Exec(r, cs, ce), w, v, *d->Then_2));
        }
    }
    if exists|vl: Result<RawOutput, CmdError>| #[trigger] evals(Task::NoThrow(l, cs, ce), w, vl) && if succeeded_zero(vl) {
        v == vl
    } else {
        evals(Task::Exec(r, cs, ce), w, v)
    } {
        let vl = choose|vl: Result<RawOutput, CmdError>| #[trigger] evals(Task::NoThrow(l, cs, ce), w, vl) && if succeeded_zero(vl) {
            v == vl
        } else {
            evals(Task::Exec(r, cs, ce), w, v)
        };
        let d1 = choose|d: Derivation| derives(Task::NoThrow(l, cs, ce), w, vl, d);
        if succeeded_zero(vl) {
            assert(derives(t, w, v, Derivation::Then(vl, Box::new(d1), Box::new(Derivation::Ran))));
        } else {
            let d2 = choose|d: Derivation| derives(Task::Exec(r, cs, ce), w, v, d);
            assert(derives(t, w, v, Derivation::Then(vl, Box::new(d1), Box::new(d2))));
        }
    }
}

/// `a ; b` means: a result of `b`, after some result of `a` (run without
/// exit-code errors or capture).
pub proof fn then_meaning_law(l: Pipeline, r: Pipeline, cs: bool, ce: bool, w: World, v: Result<RawOutput, CmdError>)
    ensures
        evals(Task::Exec(Pipeline::Then(Box::new(l), Box::new(r)), cs, ce), w, v) <==> (exists|vl: Result<RawOutput, CmdError>|
            #[trigger] evals(Task::NoThrow(l, false, false), w, vl)) && evals(Task::Exec(r, cs, ce), w, v),
{
    let t = Task::Exec(Pipeline::Then(Box::new(l), Box::new(r)), cs, ce);
    if evals(t, w, v) {
        let d = choose|d: Derivation| derives(t, w, v, d);
        let vl = d->Then_0;
        assert(derives(Task::NoThrow(l, false, false), w, vl, *d->Then_1));
        assert(evals(Task::NoThrow(l, false, false), w, vl));
        assert(derives(Task::Exec(r, cs, ce), w, v, *d->Then_2));
    }
    if (exists|vl: Result<RawOutput, CmdError>| #[trigger] evals(Task::NoThrow(l, false, false), w, vl)) && evals(Task::Exec(r, cs, ce), w, v) {
        let vl = choose|vl: Result<RawOutput, CmdError>| #[trigger] evals(Task::NoThrow(l, false, false), w, vl);
        let d1 = choose|d: Derivation| derives(Task::NoThrow(l, false, false), w, vl, d);
        let d2 = choose|d: Derivation| derives(Task::Exec(r, cs, ce), w, v, d);
        assert(derives(t, w, v, Derivation::Then(vl, Box::new(d1), Box::new(d2))));
    }
}

/// `a | b` with `b` a single command, a chain (`&&`, `||`, `;`) or a pipe
/// `b1 | b2` of a single `b2` means: an error of `a` (its stdout captured),
/// or, after `a` succeeded, a result of `b` whose first command reads
/// exactly `a`'s stdout bytes.
pub proof fn pipe_meaning_law(l: Pipeline, r: Pipeline, cs: bool, ce: bool, w: World, v: Result<RawOutput, CmdError>)
    requires
        r matches Pipeline::Pipe(_, ir) ==> (*ir) is Single,
    ensures
        evals(Task::Exec(Pipeline::Pipe(Box::new(l), Box::new(r)), cs, ce), w, v) <==> exists|vl: Result<RawOutput, CmdError>|
            #[trigger] evals(Task::Exec(l, true, false), w, vl) && match vl {
                Err(_) => v == vl,
                Ok(o) => evals(Task::Inject(r, o.stdout, cs, ce), w, v),
            },
{
    if r is Pipe {
        lemma_pipe_into_pipe(l, r, cs, ce, w, v);
    } else {
        let t = Task::Exec(Pipeline::Pipe(Box::new(l), Box::new(r)), cs, ce);
        let tp = Task::PipeTo(l, r, cs, ce);
        if evals(t, w, v) {
            let d = choose|d: Derivation| derives(t, w, v, d);
            let dp = *d->Via_0;
            assert(derives(tp, w, v, dp));
            let vl = dp->Then_0;
            assert(derives(Task::Exec(l, true, false), w, vl, *dp->Then_1));
            assert(evals(Task::Exec(l, true, false), w, vl));
            if let Ok(o) = vl {
                assert(derives(Task::Inject(r, o.stdout, cs, ce), w, v, *dp->Then_2));
            }
        }
        if exists|vl: Result<RawOutput, CmdError>| #[trigger] evals(Task::Exec(l, true, false), w, vl) && match vl {
            Err(_) => v == vl,
            Ok(o) => evals(Task::Inject(r, o.stdout, cs, ce), w, v),
        } {
            let vl = choose|vl: Result<RawOutput, CmdError>| #[trigger] evals(Task::Exec(l, true, false), w, vl) && match vl {
                Err(_) => v == vl,
                Ok(o) => evals(Task::Inject(r, o.stdout, cs, ce), w, v),
            };
            let d1 = choose|d: Derivation| derives(Task::Exec(l, true, false), w, vl, d);
            match vl {
                Err(_) => {
                    let dp = Derivation::Then(vl, Box::new(d1), Box::new(Derivation::Ran));
                    assert(derives(tp, w, v, dp));
                    assert(derives(t, w, v, Derivation::Via(Box::new(dp))));
                },
                Ok(o) => {
                    let d2 = choose|d: Derivation| derives(Task::Inject(r, o.stdout, cs, ce), w, v, d);
                    let dp = Derivation::Then(vl, Box::new(d1), Box::new(d2));
                    assert(derives(tp, w, v, dp));
                    assert(derives(t, w, v, Derivation::Via(Box::new(dp))));
                },
            }
        }
    }
}

proof fn lemma_pipe_into_pipe(l: Pipeline, r: Pipeline, cs: bool, ce: bool, w: World, v: Result<RawOutput, CmdError>)
    requires
        r matches Pipeline::Pipe(_, ir) && (*ir) is Single,
    ensures
        evals(Task::Exec(Pipeline::Pipe(Box::new(l), Box::new(r)), cs, ce), w, v) <==> exists|vl: Result<RawOutput, CmdError>|
            #[trigger] evals(Task::Exec(l, true, false), w, vl) && match vl {
                Err(_) => v == vl,
                Ok(o) => evals(Task::Inject(r, o.stdout, cs, ce), w, v),
            },
{
    let il = *r->Pipe_0;
    let ir = *r->Pipe_1;
    let t = Task::Exec(Pipeline::Pipe(Box::new(l), Box::new(r)), cs, ce);
    let tp = Task::PipeTo(l, r, cs, ce);
    if evals(t, w, v) {
        let d = choose|d: Derivation| derives(t, w, v, d);
        let dp = *d->Via_0;
        assert(derives(tp, w, v, dp));
        let vl = dp->Pipe_0;
        assert(derives(Task::Exec(l, true, false), w, vl, *dp->Pipe_1));
        assert(evals(Task::Exec(l, true, false), w, vl));
        if let Ok(o) = vl {
            let vi = dp->Pipe_2;
            let di = Derivation::Then(vi, dp->Pipe_3, dp->Pipe_5);
            assert(derives(Task::Inject(r, o.stdout, cs, ce), w, v, di));
        }
    }
    if exists|vl: Result<RawOutput, CmdError>| #[trigger] evals(Task::Exec(l, true, false), w, vl) && match vl {
        Err(_) => v == vl,
        Ok(o) => evals(Task::Inject(r, o.stdout, cs, ce), w, v),
    } {
        let vl = choose|vl: Result<RawOutput, CmdError>| #[trigger] evals(Task::Exec(l, true, false), w, vl) && match vl {
            Err(_) => v == vl,
            Ok(o) => evals(Task::Inject(r, o.stdout, cs, ce), w, v),
        };
        let d1 = choose|d: Derivation| derives(Task::Exec(l, true, false), w, vl, d);
        let c: CmdInner = vstd::pervasive::arbitrary();
        match vl {
            Err(_) => {
                let dp = Derivation::Pipe(vl, Box::new(d1), vl, Box::new(Derivation::Ran), c, Box::new(Derivation::Ran));
                assert(derives(tp, w, v, dp));
                assert(derives(t, w, v, Derivation::Via(Box::new(dp))));
            },
            Ok(o) => {
                let di = choose|d: Derivation| derives(Task::Inject(r, o.stdout, cs, ce), w, v, d);
                let vi = di->Then_0;
                assert(derives(Task::Inject(il, o.stdout, true, false), w, vi, *di->Then_1));
                let dp = Derivation::Pipe(vl, Box::new(d1), vi, di->Then_1, c, di->Then_2);
                assert(derives(tp, w, v, dp));
                assert(derives(t, w, v, Derivation::Via(Box::new(dp))));
            },
        }
    }
}

/// Law: a chain or pipeline run without exit-code errors (as
/// `run_exit_code` and `run_no_exit_err` run it) whose evaluation ends in an
/// exit-status error finishes `Ok` with exactly that error's code; any other
/// result of the evaluation is kept as it is.
pub proof fn chain_exit_code_law<O, E>(inner: CmdInner, tr: Seq<Execution<O, E>>, w: World, f: Finished<O, E>)
    requires
        tr.len() > 0,
        crate::exec::started(inner, tr[0]),
        inner.deferred_error is None,
        !inner.dry,
        inner.pipeline is Some,
        inner.throw is NoThrow,
        valid_trace(tr, w),
        tr.last().spec_done(),
        finished_as(tr.last(), f),
    ensures
        evals(
            Task::Exec(inner.pipeline->0, inner.stdout is Capture, inner.stderr is Capture),
            w,
            tr.last().phase->Returned_0,
        ),
        tr.last().phase->Returned_0 matches Err(CmdError::ExitStatus { code, .. }) ==> (f.result matches Ok(raw)
            && raw.code == code),
        tr.last().phase->Returned_0 matches Ok(raw) ==> f.result == Ok::<RawOutput, CmdError>(raw),
{
    chain_law(inner, tr, w);
    if tr.last().phase->Returned_0 is Err {
        if tr.last().phase->Returned_0 matches Err(CmdError::ExitStatus { .. }) {
            crate::exec::exit_status_code_law(tr.last(), f);
        }
    }
}

} // verus!
