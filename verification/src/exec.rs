use vstd::prelude::*;
use vstd::utf8::{valid_utf8, decode_utf8};
use std::marker::PhantomData;
use std::time::Duration;

use crate::cmd::{Cmd, CmdInner, OutputConfig, StdinConfig, ThrowBehavior, TimeoutConfig};
use crate::error::{CmdError, io_error_other, new_io_error_other};
use crate::pipeline::Pipeline;
use crate::result::{Captured, CmdResult, RawOutput};
use crate::time::{nanos_of, duration_nanos};

verus! {

/// Calls `String::from_utf8`: `Some` exactly when the bytes are valid UTF-8,
/// holding the characters they encode.
#[verifier::external_body]
pub(crate) fn utf8_string(bytes: Vec<u8>) -> (r: Option<String>)
    ensures
        r is Some <==> valid_utf8(bytes@),
        r matches Some(s) ==> s@ == decode_utf8(bytes@),
{
    String::from_utf8(bytes).ok()
}

/// What running one process reported, before the library interprets it.
/// The bytes of each stream that was not discarded are handed back: for a
/// stream configured to a file, the runner has already written them to the
/// file; for a stream left at `Inherit`, it has forwarded them to the
/// terminal as they came.
#[derive(Debug)]
pub enum SpawnOutcome {
    /// The configured working directory does not exist.
    CwdMissing,
    /// The program could not be found.
    ProgramNotFound,
    /// Spawning, feeding stdin, waiting or reading failed.
    Io(std::io::Error),
    /// The timeout expired and the process was signalled.
    TimedOut,
    /// The process exited; `code` is `None` when it was ended by a signal.
    Exited { code: Option<i32>, stdout: Vec<u8>, stderr: Vec<u8> },
}

/// Whether an exit code is an error under a throw behaviour.
pub open spec fn throws(t: ThrowBehavior, code: i32) -> bool {
    match t {
        ThrowBehavior::ThrowAlways => code != 0,
        ThrowBehavior::NoThrow => false,
        ThrowBehavior::NoThrowOn(codes) => code != 0 && !codes@.contains(code),
    }
}

pub fn should_throw(t: &ThrowBehavior, code: i32) -> (b: bool)
    ensures
        b == throws(*t, code),
{
    match t {
        ThrowBehavior::ThrowAlways => code != 0,
        ThrowBehavior::NoThrow => false,
        ThrowBehavior::NoThrowOn(codes) => {
            if code == 0 {
                return false;
            }
            for i in 0..codes.len()
                invariant
                    *t == ThrowBehavior::NoThrowOn(*codes),
                    code != 0,
                    forall|j: int| 0 <= j < i ==> codes@[j] != code,
            {
                if codes[i] == code {
                    assert(codes@[i as int] == code);
                    assert(codes@.contains(code));
                    return false;
                }
            }
            true
        },
    }
}

/// Whether a stream configured this way has its bytes written to a file.
pub open spec fn to_file(c: OutputConfig) -> bool {
    c is File || c is Append
}

/// The bytes kept of each stream once file redirects are applied and a
/// stream sent to the other one is appended to it: stderr sent to stdout
/// follows stdout's bytes; otherwise stdout sent to stderr follows stderr's.
pub open spec fn kept_streams(job: CmdInner, out: Seq<u8>, err: Seq<u8>) -> (Seq<u8>, Seq<u8>) {
    let o = if to_file(job.stdout) { Seq::<u8>::empty() } else { out };
    let e = if to_file(job.stderr) { Seq::<u8>::empty() } else { err };
    if job.stderr is ToOther {
        (o + e, Seq::<u8>::empty())
    } else if job.stdout is ToOther {
        (Seq::<u8>::empty(), e + o)
    } else {
        (o, e)
    }
}

/// The code reported for a process: its exit code, or -1 when a signal ended it.
pub open spec fn reported_code(code: Option<i32>) -> i32 {
    match code {
        Some(c) => c,
        None => -1i32,
    }
}

/// What one finished process amounts to.
pub open spec fn single_result_ok(job: CmdInner, outcome: SpawnOutcome, r: Result<RawOutput, CmdError>) -> bool {
    match outcome {
        SpawnOutcome::CwdMissing => r matches Err(CmdError::CwdNotFound { path }) && (job.cwd matches Some(c) ==> path@ == c@)
            && (job.cwd is None ==> path@.len() == 0),
        SpawnOutcome::ProgramNotFound => r matches Err(CmdError::NotFound { program }) && program@ == job.program@,
        SpawnOutcome::Io(e) => r == Err::<RawOutput, CmdError>(CmdError::Io(e)),
        SpawnOutcome::TimedOut => r matches Err(CmdError::Timeout { duration }) && (job.timeout matches Some(t) ==> duration == t.duration)
            && (job.timeout is None ==> duration == crate::time::secs_duration(0)),
        SpawnOutcome::Exited { code, stdout, stderr } => {
            let c = reported_code(code);
            let (o, e) = kept_streams(job, stdout@, stderr@);
            if throws(job.throw, c) {
                r matches Err(CmdError::ExitStatus { code: c2, stderr: msg }) && c2 == c && (
                    if e.len() == 0 {
                        msg is None
                    } else if valid_utf8(e) {
                        msg matches Some(m) && m@ == decode_utf8(e)
                    } else {
                        msg is None
                    })
            } else {
                r matches Ok(raw) && raw.code == c && raw.stdout@ == o && raw.stderr@ == e
            }
        },
    }
}

/// Interprets what running one process reported: file redirects keep no
/// bytes, stderr merged into stdout is appended to it, and a non-zero exit
/// code is an error unless the throw behaviour allows it.
pub fn finish_single(job: &CmdInner, outcome: SpawnOutcome) -> (r: Result<RawOutput, CmdError>)
    ensures
        single_result_ok(*job, outcome, r),
{
    match outcome {
        SpawnOutcome::CwdMissing => {
            let path = match &job.cwd {
                Some(c) => c.clone(),
                None => String::new(),
            };
            Err(CmdError::CwdNotFound { path })
        },
        SpawnOutcome::ProgramNotFound => Err(CmdError::NotFound { program: job.program.clone() }),
        SpawnOutcome::Io(e) => Err(CmdError::Io(e)),
        SpawnOutcome::TimedOut => {
            match &job.timeout {
                Some(t) => Err(CmdError::Timeout { duration: t.duration }),
                None => Err(CmdError::Timeout { duration: crate::time::duration_from_secs(0) }),
            }
        },
        SpawnOutcome::Exited { code, stdout, stderr } => {
            let ghost out0 = stdout@;
            let ghost err0 = stderr@;
            let mut out = stdout;
            let mut err = stderr;
            match &job.stdout {
                OutputConfig::File(_) | OutputConfig::Append(_) => {
                    out = Vec::new();
                },
                _ => {},
            }
            match &job.stderr {
                OutputConfig::File(_) | OutputConfig::Append(_) => {
                    err = Vec::new();
                },
                _ => {},
            }
            match (&job.stdout, &job.stderr) {
                (_, OutputConfig::ToOther) => {
                    out.append(&mut err);
                },
                (OutputConfig::ToOther, _) => {
                    err.append(&mut out);
                },
                _ => {},
            }
            assert((out@, err@) == kept_streams(*job, out0, err0));
            let c = match code {
                Some(c) => c,
                None => -1,
            };
            if should_throw(&job.throw, c) {
                let msg = if err.len() == 0 {
                    None
                } else {
                    utf8_string(err)
                };
                Err(CmdError::ExitStatus { code: c, stderr: msg })
            } else {
                Ok(RawOutput { code: c, stdout: out, stderr: err })
            }
        },
    }
}

} // verus!

verus! {

/// A piece of work of the pipeline evaluation.
#[derive(Debug)]
pub enum Task {
    /// Run a pipeline; `cs`/`ce` ask to capture stdout/stderr.
    Exec(Pipeline, bool, bool),
    /// Run a pipeline, a single command of it never erring on its exit code.
    NoThrow(Pipeline, bool, bool),
    /// Run a pipeline with these bytes fed to its first command's stdin.
    Inject(Pipeline, Vec<u8>, bool, bool),
    /// As `Inject`, a single command never erring on its exit code.
    InjectNoThrow(Pipeline, Vec<u8>, bool, bool),
    /// Run the left pipeline, then feed its stdout to the right one (`|`).
    PipeTo(Pipeline, Pipeline, bool, bool),
}

/// What remains to be done once the current piece of work has a result.
#[derive(Debug)]
pub enum Frame {
    /// `&&`: run the pipeline if the result succeeded with code 0.
    AndThen(Pipeline, bool, bool),
    /// `||`: run the pipeline unless the result succeeded with code 0.
    OrElse(Pipeline, bool, bool),
    /// `;`: run the pipeline whatever the result.
    ThenRun(Pipeline, bool, bool),
    /// `|`: feed the result's stdout to the pipeline.
    PipeInto(Pipeline, bool, bool),
    /// `|` nested on the right: feed the result's stdout onward.
    PipeInner(Pipeline, bool, bool),
    /// stdin injected into a pipe: feed the result's stdout to the rest.
    InjectRest(Pipeline, bool, bool),
}

/// Where an execution stands.
#[derive(Debug)]
pub enum Phase {
    /// A piece of work is about to be broken down.
    Start(Task),
    /// One process must be run (by the caller) and its outcome fed back.
    Waiting(CmdInner),
    /// The current piece of work has this result.
    Returned(Result<RawOutput, CmdError>),
}

/// A command with stdout/stderr capture turned on as asked.
pub open spec fn adjusted(inner: CmdInner, cs: bool, ce: bool) -> CmdInner {
    CmdInner {
        stdout: if cs { OutputConfig::Capture } else { inner.stdout },
        stderr: if ce && inner.stderr is Inherit { OutputConfig::Capture } else { inner.stderr },
        ..inner
    }
}

fn adjust(inner: CmdInner, cs: bool, ce: bool) -> (r: CmdInner)
    ensures
        r == adjusted(inner, cs, ce),
{
    let mut r = inner;
    if cs {
        r.stdout = OutputConfig::Capture;
    }
    if ce {
        if let OutputConfig::Inherit = r.stderr {
            r.stderr = OutputConfig::Capture;
        }
    }
    r
}

/// Breaking down a piece of work: the frame it leaves (if any) and what comes next.
pub open spec fn start_step(t: Task) -> (Option<Frame>, Phase) {
    match t {
        Task::Exec(p, cs, ce) => match p {
            Pipeline::Single(inner) => (None, Phase::Waiting(adjusted(*inner, cs, ce))),
            Pipeline::Pipe(l, r) => (None, Phase::Start(Task::PipeTo(*l, *r, cs, ce))),
            Pipeline::And(l, r) => (Some(Frame::AndThen(*r, cs, ce)), Phase::Start(Task::Exec(*l, cs, ce))),
            Pipeline::Or(l, r) => (Some(Frame::OrElse(*r, cs, ce)), Phase::Start(Task::NoThrow(*l, cs, ce))),
            Pipeline::Then(l, r) => (Some(Frame::ThenRun(*r, cs, ce)), Phase::Start(Task::NoThrow(*l, false, false))),
        },
        Task::NoThrow(p, cs, ce) => match p {
            Pipeline::Single(inner) => (
                None,
                Phase::Waiting(CmdInner { throw: ThrowBehavior::NoThrow, ..adjusted(*inner, cs, ce) }),
            ),
            _ => (None, Phase::Start(Task::Exec(p, cs, ce))),
        },
        Task::Inject(p, bytes, cs, ce) => match p {
            Pipeline::Single(inner) => (
                None,
                Phase::Waiting(CmdInner { stdin: StdinConfig::Bytes(bytes), ..adjusted(*inner, cs, ce) }),
            ),
            Pipeline::Pipe(l, r) => (Some(Frame::InjectRest(*r, cs, ce)), Phase::Start(Task::Inject(*l, bytes, true, false))),
            Pipeline::And(l, r) => (Some(Frame::AndThen(*r, cs, ce)), Phase::Start(Task::Inject(*l, bytes, cs, ce))),
            Pipeline::Or(l, r) => (Some(Frame::OrElse(*r, cs, ce)), Phase::Start(Task::InjectNoThrow(*l, bytes, cs, ce))),
            Pipeline::Then(l, r) => (Some(Frame::ThenRun(*r, cs, ce)), Phase::Start(Task::InjectNoThrow(*l, bytes, false, false))),
        },
        Task::InjectNoThrow(p, bytes, cs, ce) => match p {
            Pipeline::Single(inner) => (
                None,
                Phase::Waiting(CmdInner { throw: ThrowBehavior::NoThrow, stdin: StdinConfig::Bytes(bytes), ..adjusted(*inner, cs, ce) }),
            ),
            _ => (None, Phase::Start(Task::Inject(p, bytes, cs, ce))),
        },
        Task::PipeTo(l, r, cs, ce) => (Some(Frame::PipeInto(r, cs, ce)), Phase::Start(Task::Exec(l, true, false))),
    }
}

/// The frame a result leaves when it returns into a frame.
pub open spec fn pop_push(f: Frame, v: Result<RawOutput, CmdError>) -> Option<Frame> {
    match f {
        Frame::PipeInto(r, cs, ce) => match (v, r) {
            (Ok(_), Pipeline::Pipe(_, ir)) => Some(Frame::PipeInner(*ir, cs, ce)),
            _ => None,
        },
        _ => None,
    }
}

/// `cat` reading the given bytes, every other setting at its default.
pub open spec fn is_cat_feeding(c: CmdInner, bytes: Vec<u8>) -> bool {
    &&& (CmdInner { stdin: StdinConfig::Inherit, ..c }).is_fresh("cat"@)
    &&& c.stdin == StdinConfig::Bytes(bytes)
}

/// What comes next when a result returns into a frame.
pub open spec fn pops_to(f: Frame, v: Result<RawOutput, CmdError>, ph: Phase) -> bool {
    match f {
        Frame::AndThen(r, cs, ce) => match v {
            Ok(o) => if o.code == 0 { ph == Phase::Start(Task::Exec(r, cs, ce)) } else { ph == Phase::Returned(v) },
            Err(_) => ph == Phase::Returned(v),
        },
        Frame::OrElse(r, cs, ce) => if v matches Ok(o) && o.code == 0 {
            ph == Phase::Returned(v)
        } else {
            ph == Phase::Start(Task::Exec(r, cs, ce))
        },
        Frame::ThenRun(r, cs, ce) => ph == Phase::Start(Task::Exec(r, cs, ce)),
        Frame::PipeInto(r, cs, ce) => match v {
            Ok(o) => match r {
                Pipeline::Pipe(il, _) => ph == Phase::Start(Task::Inject(*il, o.stdout, true, false)),
                _ => ph == Phase::Start(Task::Inject(r, o.stdout, cs, ce)),
            },
            Err(_) => ph == Phase::Returned(v),
        },
        Frame::PipeInner(ir, cs, ce) => match v {
            Ok(o) => if ir is Single {
                ph == Phase::Start(Task::Inject(ir, o.stdout, cs, ce))
            } else {
                ph matches Phase::Start(Task::PipeTo(Pipeline::Single(c), r2, cs2, ce2))
                    && is_cat_feeding(*c, o.stdout) && r2 == ir && cs2 == cs && ce2 == ce
            },
            Err(_) => ph == Phase::Returned(v),
        },
        Frame::InjectRest(r, cs, ce) => match v {
            Ok(o) => ph == Phase::Start(Task::Inject(r, o.stdout, cs, ce)),
            Err(_) => ph == Phase::Returned(v),
        },
    }
}

/// A stack with an optional frame pushed.
pub open spec fn with_frame(s: Seq<Frame>, f: Option<Frame>) -> Seq<Frame> {
    match f {
        Some(fr) => s.push(fr),
        None => s,
    }
}

/// The execution of a command: a pipeline evaluation driven one step at a
/// time. The caller runs each process it is asked for and feeds back what
/// happened; nothing here touches the system.
pub struct Execution<O = Captured, E = Captured> {
    /// The line `$ <command>` to print to stderr before running, in verbose or dry mode.
    pub announce: Option<String>,
    pub frames: Vec<Frame>,
    pub phase: Phase,
    pub no_err: bool,
    pub no_warn: bool,
    /// A pipeline run with `no_exit_err`: its exit-status error becomes its code.
    pub pipeline_no_throw: bool,
    pub _phantom: PhantomData<(O, E)>,
}

impl<O, E> Execution<O, E> {
    pub open spec fn spec_done(&self) -> bool {
        self.phase is Returned && self.frames@.len() == 0
    }

    /// One step of the evaluation, when no process is awaited.
    pub open spec fn steps_to(self, next: Self) -> bool {
        &&& next == (Execution::<O, E> { frames: next.frames, phase: next.phase, ..self })
        &&& match self.phase {
            Phase::Start(t) => {
                let (f, ph) = start_step(t);
                &&& next.phase == ph
                &&& next.frames@ == with_frame(self.frames@, f)
            },
            Phase::Returned(v) => {
                let f = self.frames@.last();
                &&& pops_to(f, v, next.phase)
                &&& next.frames@ == with_frame(self.frames@.drop_last(), pop_push(f, v))
            },
            Phase::Waiting(_) => false,
        }
    }

    /// Whether the evaluation has its final result.
    pub fn is_done(&self) -> (b: bool)
        ensures
            b == self.spec_done(),
    {
        match &self.phase {
            Phase::Returned(_) => self.frames.len() == 0,
            _ => false,
        }
    }

    /// The process the caller must run now, if the evaluation waits for one.
    pub fn job(&self) -> (j: Option<&CmdInner>)
        ensures
            j matches Some(c) ==> self.phase == Phase::Waiting(*c),
            j is None ==> !(self.phase is Waiting),
    {
        match &self.phase {
            Phase::Waiting(c) => Some(c),
            _ => None,
        }
    }

    /// Hands back what running the awaited process reported.
    pub fn feed(self, outcome: SpawnOutcome) -> (next: Self)
        requires
            self.phase is Waiting,
        ensures
            next == (Execution::<O, E> { phase: next.phase, ..self }),
            next.phase matches Phase::Returned(r) && single_result_ok(self.phase->Waiting_0, outcome, r),
    {
        let Execution { announce, frames, phase, no_err, no_warn, pipeline_no_throw, _phantom } = self;
        match phase {
            Phase::Waiting(job) => {
                let r = finish_single(&job, outcome);
                Execution { announce, frames, phase: Phase::Returned(r), no_err, no_warn, pipeline_no_throw, _phantom }
            },
            _ => {
                proof {
                    assert(false);
                }
                Execution { announce, frames, phase, no_err, no_warn, pipeline_no_throw, _phantom }
            },
        }
    }

    /// Takes one step of the evaluation when no process is awaited and it is not done.
    pub fn advance(self) -> (next: Self)
        requires
            !(self.phase is Waiting),
            !self.spec_done(),
        ensures
            self.steps_to(next),
    {
        let Execution { announce, mut frames, phase, no_err, no_warn, pipeline_no_throw, _phantom } = self;
        match phase {
            Phase::Start(t) => {
                let (f, ph) = start(t);
                match f {
                    Some(fr) => frames.push(fr),
                    None => {},
                }
                Execution { announce, frames, phase: ph, no_err, no_warn, pipeline_no_throw, _phantom }
            },
            Phase::Returned(v) => {
                let f = frames.pop().unwrap();
                let (pushed, ph) = pop_frame(f, v);
                match pushed {
                    Some(fr) => frames.push(fr),
                    None => {},
                }
                Execution { announce, frames, phase: ph, no_err, no_warn, pipeline_no_throw, _phantom }
            },
            Phase::Waiting(c) => {
                proof {
                    assert(false);
                }
                Execution { announce, frames, phase: Phase::Waiting(c), no_err, no_warn, pipeline_no_throw, _phantom }
            },
        }
    }
}

fn start(t: Task) -> (r: (Option<Frame>, Phase))
    ensures
        r == start_step(t),
{
    match t {
        Task::Exec(p, cs, ce) => match p {
            Pipeline::Single(inner) => (None, Phase::Waiting(adjust(*inner, cs, ce))),
            Pipeline::Pipe(l, r) => (None, Phase::Start(Task::PipeTo(*l, *r, cs, ce))),
            Pipeline::And(l, r) => (Some(Frame::AndThen(*r, cs, ce)), Phase::Start(Task::Exec(*l, cs, ce))),
            Pipeline::Or(l, r) => (Some(Frame::OrElse(*r, cs, ce)), Phase::Start(Task::NoThrow(*l, cs, ce))),
            Pipeline::Then(l, r) => (Some(Frame::ThenRun(*r, cs, ce)), Phase::Start(Task::NoThrow(*l, false, false))),
        },
        Task::NoThrow(p, cs, ce) => match p {
            Pipeline::Single(inner) => {
                let mut c = adjust(*inner, cs, ce);
                c.throw = ThrowBehavior::NoThrow;
                (None, Phase::Waiting(c))
            },
            _ => (None, Phase::Start(Task::Exec(p, cs, ce))),
        },
        Task::Inject(p, bytes, cs, ce) => match p {
            Pipeline::Single(inner) => {
                let mut c = adjust(*inner, cs, ce);
                c.stdin = StdinConfig::Bytes(bytes);
                (None, Phase::Waiting(c))
            },
            Pipeline::Pipe(l, r) => (Some(Frame::InjectRest(*r, cs, ce)), Phase::Start(Task::Inject(*l, bytes, true, false))),
            Pipeline::And(l, r) => (Some(Frame::AndThen(*r, cs, ce)), Phase::Start(Task::Inject(*l, bytes, cs, ce))),
            Pipeline::Or(l, r) => (Some(Frame::OrElse(*r, cs, ce)), Phase::Start(Task::InjectNoThrow(*l, bytes, cs, ce))),
            Pipeline::Then(l, r) => (Some(Frame::ThenRun(*r, cs, ce)), Phase::Start(Task::InjectNoThrow(*l, bytes, false, false))),
        },
        Task::InjectNoThrow(p, bytes, cs, ce) => match p {
            Pipeline::Single(inner) => {
                let mut c = adjust(*inner, cs, ce);
                c.throw = ThrowBehavior::NoThrow;
                c.stdin = StdinConfig::Bytes(bytes);
                (None, Phase::Waiting(c))
            },
            _ => (None, Phase::Start(Task::Inject(p, bytes, cs, ce))),
        },
        Task::PipeTo(l, r, cs, ce) => (Some(Frame::PipeInto(r, cs, ce)), Phase::Start(Task::Exec(l, true, false))),
    }
}

fn pop_frame(f: Frame, v: Result<RawOutput, CmdError>) -> (r: (Option<Frame>, Phase))
    ensures
        r.0 == pop_push(f, v),
        pops_to(f, v, r.1),
{
    match f {
        Frame::AndThen(r, cs, ce) => match v {
            Ok(o) => if o.code == 0 {
                (None, Phase::Start(Task::Exec(r, cs, ce)))
            } else {
                (None, Phase::Returned(Ok(o)))
            },
            Err(e) => (None, Phase::Returned(Err(e))),
        },
        Frame::OrElse(r, cs, ce) => match v {
            Ok(o) => if o.code == 0 {
                (None, Phase::Returned(Ok(o)))
            } else {
                (None, Phase::Start(Task::Exec(r, cs, ce)))
            },
            Err(_) => (None, Phase::Start(Task::Exec(r, cs, ce))),
        },
        Frame::ThenRun(r, cs, ce) => (None, Phase::Start(Task::Exec(r, cs, ce))),
        Frame::PipeInto(r, cs, ce) => match v {
            Ok(o) => match r {
                Pipeline::Pipe(il, ir) => (Some(Frame::PipeInner(*ir, cs, ce)), Phase::Start(Task::Inject(*il, o.stdout, true, false))),
                _ => (None, Phase::Start(Task::Inject(r, o.stdout, cs, ce))),
            },
            Err(e) => (None, Phase::Returned(Err(e))),
        },
        Frame::PipeInner(ir, cs, ce) => match v {
            Ok(o) => match ir {
                Pipeline::Single(_) => (None, Phase::Start(Task::Inject(ir, o.stdout, cs, ce))),
                _ => {
                    let mut cat = CmdInner::new("cat");
                    cat.stdin = StdinConfig::Bytes(o.stdout);
                    (None, Phase::Start(Task::PipeTo(Pipeline::Single(Box::new(cat)), ir, cs, ce)))
                },
            },
            Err(e) => (None, Phase::Returned(Err(e))),
        },
        Frame::InjectRest(r, cs, ce) => match v {
            Ok(o) => (None, Phase::Start(Task::Inject(r, o.stdout, cs, ce))),
            Err(e) => (None, Phase::Returned(Err(e))),
        },
    }
}

} // verus!

verus! {

/// How an execution of `inner` begins.
pub open spec fn started<O, E>(inner: CmdInner, ex: Execution<O, E>) -> bool {
    &&& ex.no_err == inner.no_err
    &&& ex.no_warn == inner.no_warn
    &&& ex.frames@.len() == 0
    &&& match inner.deferred_error {
        Some(m) => {
            &&& ex.announce is None
            &&& !ex.pipeline_no_throw
            &&& ex.phase == Phase::Returned(Err(CmdError::Io(io_error_other(m@))))
        },
        None => {
            &&& (ex.announce is Some <==> (inner.verbose || inner.dry))
            &&& (ex.announce matches Some(a) ==> a@ == seq!['$', ' '] + crate::cmd::display_text(inner.program@, crate::text::strs(inner.args@)))
            &&& if inner.dry {
                &&& !ex.pipeline_no_throw
                &&& ex.phase matches Phase::Returned(Ok(raw)) && raw.code == 0 && raw.stdout@.len() == 0 && raw.stderr@.len() == 0
            } else if inner.pipeline is Some {
                &&& ex.pipeline_no_throw == (inner.throw is NoThrow)
                &&& ex.phase == Phase::Start(Task::Exec(inner.pipeline->0, inner.stdout is Capture, inner.stderr is Capture))
            } else {
                &&& !ex.pipeline_no_throw
                &&& ex.phase == Phase::Waiting(inner)
            }
        },
    }
}

/// Begins the execution of a command.
pub fn start_execution<O, E>(inner: CmdInner) -> (ex: Execution<O, E>)
    ensures
        started(inner, ex),
{
    let no_err = inner.no_err;
    let no_warn = inner.no_warn;
    match &inner.deferred_error {
        Some(m) => {
            let e = new_io_error_other(m.clone());
            return Execution {
                announce: None,
                frames: Vec::new(),
                phase: Phase::Returned(Err(CmdError::Io(e))),
                no_err,
                no_warn,
                pipeline_no_throw: false,
                _phantom: PhantomData,
            };
        },
        None => {},
    }
    let announce = if inner.verbose || inner.dry {
        let mut a = String::new();
        crate::text::push_char(&mut a, '$');
        crate::text::push_char(&mut a, ' ');
        let d = inner.display_string();
        crate::escape::push_str(&mut a, d.as_str());
        assert(a@ =~= seq!['$', ' '] + d@);
        Some(a)
    } else {
        None
    };
    if inner.dry {
        return Execution {
            announce,
            frames: Vec::new(),
            phase: Phase::Returned(Ok(RawOutput { code: 0, stdout: Vec::new(), stderr: Vec::new() })),
            no_err,
            no_warn,
            pipeline_no_throw: false,
            _phantom: PhantomData,
        };
    }
    let cs = match &inner.stdout {
        OutputConfig::Capture => true,
        _ => false,
    };
    let ce = match &inner.stderr {
        OutputConfig::Capture => true,
        _ => false,
    };
    let no_throw = match &inner.throw {
        ThrowBehavior::NoThrow => true,
        _ => false,
    };
    let mut inner = inner;
    match inner.pipeline.take() {
        Some(p) => Execution {
            announce,
            frames: Vec::new(),
            phase: Phase::Start(Task::Exec(p, cs, ce)),
            no_err,
            no_warn,
            pipeline_no_throw: no_throw,
            _phantom: PhantomData,
        },
        None => Execution {
            announce,
            frames: Vec::new(),
            phase: Phase::Waiting(inner),
            no_err,
            no_warn,
            pipeline_no_throw: false,
            _phantom: PhantomData,
        },
    }
}

/// The final outcome of an execution: its result and, when an error was
/// swallowed with warnings on, the error to warn about.
pub struct Finished<O = Captured, E = Captured> {
    pub result: Result<RawOutput, CmdError>,
    pub warning: Option<CmdError>,
    pub _phantom: PhantomData<(O, E)>,
}

/// Whether an error swallowed by `no_err` is serious enough to warn about:
/// a program not found, or permission denied.
pub open spec fn is_serious(e: CmdError) -> bool {
    ||| e is NotFound
    ||| (e matches CmdError::Io(x) && crate::error::is_permission_denied(x))
}

fn serious(e: &CmdError) -> (b: bool)
    ensures
        b == is_serious(*e),
{
    match e {
        CmdError::NotFound { .. } => true,
        CmdError::Io(x) => crate::error::permission_denied(x),
        _ => false,
    }
}

/// An empty output with the given code.
pub open spec fn is_stub(r: Result<RawOutput, CmdError>, code: i32) -> bool {
    r matches Ok(raw) && raw.code == code && raw.stdout@.len() == 0 && raw.stderr@.len() == 0
}

/// How a done execution finishes: a pipeline run without exit-code errors
/// turns its exit-status error into its code; with `no_err`, any error
/// becomes code -1 (warned about unless `no_warn`).
pub open spec fn finished_as<O, E>(ex: Execution<O, E>, f: Finished<O, E>) -> bool {
    let v = ex.phase->Returned_0;
    let after_throw_ok = ex.pipeline_no_throw && v matches Err(CmdError::ExitStatus { .. });
    if after_throw_ok {
        &&& is_stub(f.result, v->Err_0->ExitStatus_code)
        &&& f.warning is None
    } else if v is Ok {
        &&& f.result == v
        &&& f.warning is None
    } else if ex.no_err {
        &&& is_stub(f.result, -1i32)
        &&& (if !ex.no_warn && is_serious(v->Err_0) { f.warning == Some(v->Err_0) } else { f.warning is None })
    } else {
        &&& f.result == v
        &&& f.warning is None
    }
}

impl<O, E> Execution<O, E> {
    /// The final outcome, once the evaluation is done.
    pub fn finish(self) -> (f: Finished<O, E>)
        requires
            self.spec_done(),
        ensures
            finished_as(self, f),
    {
        let Execution { announce, frames, phase, no_err, no_warn, pipeline_no_throw, _phantom } = self;
        let v = match phase {
            Phase::Returned(v) => v,
            _ => {
                proof {
                    assert(false);
                }
                Ok(RawOutput { code: 0, stdout: Vec::new(), stderr: Vec::new() })
            },
        };
        let v = if pipeline_no_throw {
            match v {
                Err(CmdError::ExitStatus { code, stderr }) => {
                    return Finished {
                        result: Ok(RawOutput { code, stdout: Vec::new(), stderr: Vec::new() }),
                        warning: None,
                        _phantom: PhantomData,
                    };
                },
                other => other,
            }
        } else {
            v
        };
        match v {
            Ok(raw) => Finished { result: Ok(raw), warning: None, _phantom: PhantomData },
            Err(e) => {
                if no_err {
                    let warning = if !no_warn && serious(&e) {
                        Some(e)
                    } else {
                        None
                    };
                    Finished {
                        result: Ok(RawOutput { code: -1, stdout: Vec::new(), stderr: Vec::new() }),
                        warning,
                        _phantom: PhantomData,
                    }
                } else {
                    Finished { result: Err(e), warning: None, _phantom: PhantomData }
                }
            },
        }
    }
}

impl<O, E> Finished<O, E> {
    /// The typed result of `run`.
    pub fn into_result(self) -> (r: Result<CmdResult<O, E>, CmdError>)
        ensures
            self.result matches Ok(raw) ==> r matches Ok(c) && c.code == raw.code && c.stdout_data@ == raw.stdout@
                && c.stderr_data@ == raw.stderr@,
            self.result matches Err(e) ==> r == Err::<CmdResult<O, E>, CmdError>(e),
    {
        match self.result {
            Ok(raw) => Ok(CmdResult::from_raw(raw)),
            Err(e) => Err(e),
        }
    }

    /// The exit code, for `run_exit_code`.
    pub fn exit_code(self) -> (r: Result<i32, CmdError>)
        ensures
            self.result matches Ok(raw) ==> r == Ok::<i32, CmdError>(raw.code),
            self.result matches Err(e) ==> r == Err::<i32, CmdError>(e),
    {
        match self.result {
            Ok(raw) => Ok(raw.code),
            Err(e) => Err(e),
        }
    }

    /// Whether the code is 0, for `run_success`.
    pub fn succeeded(self) -> (r: Result<bool, CmdError>)
        ensures
            self.result matches Ok(raw) ==> r == Ok::<bool, CmdError>(raw.code == 0),
            self.result matches Err(e) ==> r == Err::<bool, CmdError>(e),
    {
        match self.result {
            Ok(raw) => Ok(raw.code == 0),
            Err(e) => Err(e),
        }
    }

    /// The result, or an empty one with code -1 on error, for `run_and_forget`.
    pub fn forget(self) -> (c: CmdResult<O, E>)
        ensures
            self.result matches Ok(raw) ==> c.code == raw.code && c.stdout_data@ == raw.stdout@ && c.stderr_data@ == raw.stderr@,
            self.result is Err ==> c.code == -1 && c.stdout_data@.len() == 0 && c.stderr_data@.len() == 0,
    {
        match self.result {
            Ok(raw) => CmdResult::from_raw(raw),
            Err(_) => CmdResult::from_raw(RawOutput { code: -1, stdout: Vec::new(), stderr: Vec::new() }),
        }
    }
}

impl<E> Finished<Captured, E> {
    /// Stdout as an untrimmed string, for `run_stdout`.
    pub fn stdout_text(self) -> (r: Result<String, CmdError>)
        ensures
            self.result matches Ok(raw) ==> r matches Ok(s) && s@ == crate::result::lossy_text(raw.stdout@),
            self.result matches Err(e) ==> r == Err::<String, CmdError>(e),
    {
        match self.result {
            Ok(raw) => {
                let c: CmdResult<Captured, E> = CmdResult::from_raw(raw);
                Ok(c.stdout())
            },
            Err(e) => Err(e),
        }
    }
}

impl<O> Finished<O, Captured> {
    /// Stderr as an untrimmed string, for `run_stderr`.
    pub fn stderr_text(self) -> (r: Result<String, CmdError>)
        ensures
            self.result matches Ok(raw) ==> r matches Ok(s) && s@ == crate::result::lossy_text(raw.stderr@),
            self.result matches Err(e) ==> r == Err::<String, CmdError>(e),
    {
        match self.result {
            Ok(raw) => {
                let c: CmdResult<O, Captured> = CmdResult::from_raw(raw);
                Ok(c.stderr())
            },
            Err(e) => Err(e),
        }
    }
}

impl Finished<Captured, Captured> {
    /// Stdout followed by stderr, for `run_out`.
    pub fn out_text(self) -> (r: Result<String, CmdError>)
        ensures
            self.result matches Ok(raw) ==> r matches Ok(s)
                && s@ == crate::result::lossy_text(raw.stdout@) + crate::result::lossy_text(raw.stderr@),
            self.result matches Err(e) ==> r == Err::<String, CmdError>(e),
    {
        match self.result {
            Ok(raw) => {
                let c: CmdResult<Captured, Captured> = CmdResult::from_raw(raw);
                Ok(c.out())
            },
            Err(e) => Err(e),
        }
    }
}

} // verus!

verus! {

impl<O, E> Cmd<O, E> {
    /// Execute the command: returns its execution, which the caller drives.
    pub fn run(self) -> (ex: Execution<O, E>)
        ensures
            started(self.inner, ex),
    {
        start_execution(self.inner)
    }

    /// Execute and report just the exit code; never errs on non-zero codes.
    /// A pipeline's stdout is discarded.
    pub fn run_exit_code(self) -> (ex: Execution<O, E>)
        ensures
            started(
                CmdInner {
                    throw: ThrowBehavior::NoThrow,
                    stdout: if self.inner.pipeline is Some { OutputConfig::Null } else { self.inner.stdout },
                    ..self.inner
                },
                ex,
            ),
    {
        let mut inner = self.inner;
        inner.throw = ThrowBehavior::NoThrow;
        if inner.pipeline.is_some() {
            inner.stdout = OutputConfig::Null;
        }
        start_execution(inner)
    }

    /// Execute and report whether the code is 0; never errs on non-zero codes.
    pub fn run_success(self) -> (ex: Execution<O, E>)
        ensures
            started(CmdInner { throw: ThrowBehavior::NoThrow, ..self.inner }, ex),
    {
        let mut inner = self.inner;
        inner.throw = ThrowBehavior::NoThrow;
        start_execution(inner)
    }

    /// Execute, ignoring non-zero exit codes (other errors still propagate).
    pub fn run_no_exit_err(self) -> (ex: Execution<O, E>)
        ensures
            started(CmdInner { throw: ThrowBehavior::NoThrow, ..self.inner }, ex),
    {
        let mut inner = self.inner;
        inner.throw = ThrowBehavior::NoThrow;
        start_execution(inner)
    }

    /// Same as `run_no_exit_err`.
    pub fn run_ignore_code(self) -> (ex: Execution<O, E>)
        ensures
            started(CmdInner { throw: ThrowBehavior::NoThrow, ..self.inner }, ex),
    {
        self.run_no_exit_err()
    }

    /// Execute, swallowing all errors silently (finish with `Finished::forget`).
    pub fn run_and_forget(self) -> (ex: Execution<O, E>)
        ensures
            started(CmdInner { no_err: true, no_warn: true, ..self.inner }, ex),
    {
        self.no_nothin().run()
    }
}

impl<E> Cmd<Captured, E> {
    /// Execute with stdout captured (finish with `Finished::stdout_text`).
    pub fn run_stdout(self) -> (ex: Execution<Captured, E>)
        ensures
            started(CmdInner { stdout: if self.inner.stdout is Inherit { OutputConfig::Capture } else { self.inner.stdout }, ..self.inner }, ex),
    {
        self.capture_stdout().run()
    }
}

impl<O> Cmd<O, Captured> {
    /// Execute with stderr captured (finish with `Finished::stderr_text`).
    pub fn run_stderr(self) -> (ex: Execution<O, Captured>)
        ensures
            started(CmdInner { stderr: if self.inner.stderr is Inherit { OutputConfig::Capture } else { self.inner.stderr }, ..self.inner }, ex),
    {
        self.capture_stderr().run()
    }
}

impl Cmd<Captured, Captured> {
    /// Execute with both streams captured (finish with `Finished::out_text`).
    pub fn run_out(self) -> (ex: Execution<Captured, Captured>)
        ensures
            started(
                CmdInner {
                    stdout: if self.inner.stdout is Inherit { OutputConfig::Capture } else { self.inner.stdout },
                    stderr: if self.inner.stderr is Inherit { OutputConfig::Capture } else { self.inner.stderr },
                    ..self.inner
                },
                ex,
            ),
    {
        self.capture().run()
    }
}

} // verus!

verus! {

/// Reads `libc::SIGKILL`, which is 9 on every Unix target the libc crate defines.
#[verifier::external_body]
pub(crate) fn sigkill() -> (s: i32)
    ensures
        s == 9,
{
    libc::SIGKILL
}

/// What to do next while waiting for a process that has a timeout.
#[derive(Debug)]
pub enum TimeoutAction {
    /// The process exited on its own: use its status.
    Finish,
    /// The process exited after being signalled: report a timeout.
    TimedOut,
    /// Send the signal, then `SIGKILL` at once if `kill_now` (no grace
    /// period); if `give_up`, wait for the process and report a timeout.
    Signal { signal: i32, kill_now: bool, give_up: bool },
    /// The grace period is over: kill the process, wait, report a timeout.
    KillAndGiveUp,
    /// Nothing to do yet: sleep a little and poll again.
    Sleep,
}

impl TimeoutConfig {
    pub open spec fn decision(self, exited: bool, signal_sent: bool, elapsed: Duration) -> TimeoutAction {
        if exited {
            if signal_sent { TimeoutAction::TimedOut } else { TimeoutAction::Finish }
        } else if !signal_sent && nanos_of(elapsed) >= nanos_of(self.duration) {
            TimeoutAction::Signal {
                signal: self.signal,
                kill_now: self.signal != 9 && self.kill_after is None,
                give_up: self.signal == 9 || self.kill_after is None,
            }
        } else if signal_sent && self.kill_after is Some
            && nanos_of(elapsed) >= nanos_of(self.duration) + nanos_of(self.kill_after->0) {
            TimeoutAction::KillAndGiveUp
        } else {
            TimeoutAction::Sleep
        }
    }

    /// Decides the next move while waiting: whether the process has exited,
    /// whether the signal was already sent, and how long it has been running.
    pub fn poll(&self, exited: bool, signal_sent: bool, elapsed: &Duration) -> (a: TimeoutAction)
        ensures
            a == self.decision(exited, signal_sent, *elapsed),
    {
        if exited {
            if signal_sent {
                return TimeoutAction::TimedOut;
            } else {
                return TimeoutAction::Finish;
            }
        }
        let e = duration_nanos(elapsed);
        let d = duration_nanos(&self.duration);
        if !signal_sent && e >= d {
            let is_kill = self.signal == sigkill();
            let give_up = is_kill || self.kill_after.is_none();
            let kill_now = !is_kill && self.kill_after.is_none();
            return TimeoutAction::Signal { signal: self.signal, kill_now, give_up };
        }
        if signal_sent {
            match &self.kill_after {
                Some(g) => {
                    let gn = duration_nanos(g);
                    if d <= u128::MAX - gn && e >= d + gn {
                        return TimeoutAction::KillAndGiveUp;
                    }
                    if d > u128::MAX - gn {
                        assert(nanos_of(self.duration) + nanos_of(*g) > u128::MAX);
                    }
                },
                None => {},
            }
        }
        TimeoutAction::Sleep
    }
}

} // verus!

verus! {

impl Pipeline {
    /// Execute the pipeline, capturing stdout and/or stderr of its last
    /// command as asked: returns its execution, which the caller drives.
    pub fn execute<O, E>(self, capture_stdout: bool, capture_stderr: bool) -> (ex: Execution<O, E>)
        ensures
            ex.announce is None,
            ex.frames@.len() == 0,
            ex.phase == Phase::Start(Task::Exec(self, capture_stdout, capture_stderr)),
            !ex.no_err && !ex.no_warn && !ex.pipeline_no_throw,
    {
        Execution {
            announce: None,
            frames: Vec::new(),
            phase: Phase::Start(Task::Exec(self, capture_stdout, capture_stderr)),
            no_err: false,
            no_warn: false,
            pipeline_no_throw: false,
            _phantom: PhantomData,
        }
    }
}

/// Whether a result is a success with exit code 0.
pub open spec fn succeeded_zero(v: Result<RawOutput, CmdError>) -> bool {
    v matches Ok(o) && o.code == 0
}

/// `a && b`: once the left side has its result, the right side starts only
/// if that result is a success with code 0; otherwise the left result is the
/// result of the whole.
pub proof fn and_law<O, E>(ex: Execution<O, E>, next: Execution<O, E>)
    requires
        ex.phase is Returned,
        ex.frames@.len() > 0,
        ex.frames@.last() is AndThen,
        ex.steps_to(next),
    ensures
        next.frames@ == ex.frames@.drop_last(),
        succeeded_zero(ex.phase->Returned_0) ==> next.phase == Phase::Start(Task::Exec(
            ex.frames@.last()->AndThen_0, ex.frames@.last()->AndThen_1, ex.frames@.last()->AndThen_2)),
        !succeeded_zero(ex.phase->Returned_0) ==> next.phase == ex.phase,
{
}

/// `a || b`: once the left side has its result, the right side starts only
/// if that result is not a success with code 0; otherwise the left result is
/// the result of the whole.
pub proof fn or_law<O, E>(ex: Execution<O, E>, next: Execution<O, E>)
    requires
        ex.phase is Returned,
        ex.frames@.len() > 0,
        ex.frames@.last() is OrElse,
        ex.steps_to(next),
    ensures
        next.frames@ == ex.frames@.drop_last(),
        !succeeded_zero(ex.phase->Returned_0) ==> next.phase == Phase::Start(Task::Exec(
            ex.frames@.last()->OrElse_0, ex.frames@.last()->OrElse_1, ex.frames@.last()->OrElse_2)),
        succeeded_zero(ex.phase->Returned_0) ==> next.phase == ex.phase,
{
}

/// `a ; b`: the right side starts whatever the left result.
pub proof fn then_law<O, E>(ex: Execution<O, E>, next: Execution<O, E>)
    requires
        ex.phase is Returned,
        ex.frames@.len() > 0,
        ex.frames@.last() is ThenRun,
        ex.steps_to(next),
    ensures
        next.frames@ == ex.frames@.drop_last(),
        next.phase == Phase::Start(Task::Exec(
            ex.frames@.last()->ThenRun_0, ex.frames@.last()->ThenRun_1, ex.frames@.last()->ThenRun_2)),
{
}

/// `a | b`: a failing left side ends the pipe with its error; otherwise the
/// right side starts with the left side's stdout as its stdin.
pub proof fn pipe_law<O, E>(ex: Execution<O, E>, next: Execution<O, E>)
    requires
        ex.phase is Returned,
        ex.frames@.len() > 0,
        ex.frames@.last() matches Frame::PipeInto(r, _, _) && r is Single,
        ex.steps_to(next),
    ensures
        next.frames@ == ex.frames@.drop_last(),
        ex.phase->Returned_0 is Err ==> next.phase == ex.phase,
        ex.phase->Returned_0 matches Ok(o) ==> next.phase == Phase::Start(Task::Inject(
            ex.frames@.last()->PipeInto_0, o.stdout, ex.frames@.last()->PipeInto_1, ex.frames@.last()->PipeInto_2)),
{
}

/// The left side of a pipe always has its stdout captured, to feed the right side.
pub proof fn pipe_left_captured<O, E>(ex: Execution<O, E>, next: Execution<O, E>)
    requires
        ex.phase matches Phase::Start(Task::PipeTo(..)),
        ex.steps_to(next),
    ensures
        next.phase matches Phase::Start(Task::Exec(l, cs, ce)) && cs && !ce,
        next.frames@.len() == ex.frames@.len() + 1,
        next.frames@.last() is PipeInto,
{
}

/// Stdin injected into a single command replaces its stdin with the bytes.
pub proof fn inject_law<O, E>(ex: Execution<O, E>, next: Execution<O, E>)
    requires
        ex.phase matches Phase::Start(Task::Inject(p, _, _, _)) && p is Single,
        ex.steps_to(next),
    ensures
        next.phase matches Phase::Waiting(job) && job.stdin == StdinConfig::Bytes(ex.phase->Start_0->Inject_1),
        next.frames@ == ex.frames@,
{
}

/// With `no_err`, an execution never finishes with an error: the error
/// becomes an empty result with code -1.
pub proof fn no_err_law<O, E>(ex: Execution<O, E>, f: Finished<O, E>)
    requires
        ex.spec_done(),
        ex.no_err,
        finished_as(ex, f),
    ensures
        f.result is Ok,
        ex.phase->Returned_0 is Err ==> (f.result matches Ok(raw) && (raw.code == -1 || ex.pipeline_no_throw)),
        ex.no_warn ==> f.warning is None,
        f.warning matches Some(e) ==> is_serious(e),
{
}

/// Exit codes: 0 never errs; `no_exit_err` never errs on a code; codes
/// listed for `no_exit_err_on` do not err, others do.
pub proof fn exit_code_law(code: i32, codes: Vec<i32>)
    ensures
        !throws(ThrowBehavior::ThrowAlways, 0),
        throws(ThrowBehavior::ThrowAlways, code) <==> code != 0,
        !throws(ThrowBehavior::NoThrow, code),
        codes@.contains(code) ==> !throws(ThrowBehavior::NoThrowOn(codes), code),
        code != 0 && !codes@.contains(code) ==> throws(ThrowBehavior::NoThrowOn(codes), code),
{
}

} // verus!

verus! {

/// Bytes fed to a chain go to its first command: for `a && b` they are fed
/// to `a`; for `a || b` and `a ; b` too, `a` then never erring on its exit code.
pub proof fn inject_chain_law<O, E>(ex: Execution<O, E>, next: Execution<O, E>)
    requires
        ex.phase matches Phase::Start(Task::Inject(p, _, _, _)) && !(p is Single) && !(p is Pipe),
        ex.steps_to(next),
    ensures
        next.frames@.len() == ex.frames@.len() + 1,
        ({
            let (p, bytes, cs, ce) = (ex.phase->Start_0->Inject_0, ex.phase->Start_0->Inject_1,
                ex.phase->Start_0->Inject_2, ex.phase->Start_0->Inject_3);
            match p {
                Pipeline::And(l, _) => next.phase == Phase::Start(Task::Inject(*l, bytes, cs, ce)),
                Pipeline::Or(l, _) => next.phase == Phase::Start(Task::InjectNoThrow(*l, bytes, cs, ce)),
                Pipeline::Then(l, _) => next.phase == Phase::Start(Task::InjectNoThrow(*l, bytes, false, false)),
                _ => true,
            }
        }),
{
}

} // verus!

verus! {

/// Law: a timeout escalates in order. Before `duration` has elapsed nothing
/// is sent; from then on the chosen signal is sent (followed at once by
/// `SIGKILL`, and the end of the wait, when there is no grace period; the
/// wait also ends when the signal is `SIGKILL` itself). Once it was sent, with a
/// grace period `g` the process is killed exactly when `duration + g` has
/// elapsed (the grace is counted from the moment the signal was due) and is
/// left alone before that; with no grace period nothing more is sent.
pub proof fn timeout_escalation_law(cfg: TimeoutConfig, elapsed: Duration)
    ensures
        nanos_of(elapsed) < nanos_of(cfg.duration) ==> cfg.decision(false, false, elapsed) is Sleep,
        nanos_of(elapsed) >= nanos_of(cfg.duration) ==> (cfg.decision(false, false, elapsed) matches TimeoutAction::Signal {
            signal,
            kill_now,
            give_up,
        } && signal == cfg.signal && kill_now == (cfg.kill_after is None && cfg.signal != 9) && give_up == (
        cfg.kill_after is None || cfg.signal == 9)),
        cfg.kill_after matches Some(g) ==> ((cfg.decision(false, true, elapsed) is KillAndGiveUp) <==> nanos_of(elapsed)
            >= nanos_of(cfg.duration) + nanos_of(g)),
        cfg.kill_after matches Some(g) && nanos_of(elapsed) < nanos_of(cfg.duration) + nanos_of(g) ==> cfg.decision(
            false,
            true,
            elapsed,
        ) is Sleep,
        cfg.kill_after is None ==> cfg.decision(false, true, elapsed) is Sleep,
        cfg.decision(true, false, elapsed) is Finish,
        cfg.decision(true, true, elapsed) is TimedOut,
{
}

/// Law: a pipeline run without exit-code errors that ends in an exit-status
/// error reports that error's code as its own, with empty output, and no
/// warning: the code is kept, never replaced by another.
pub proof fn exit_status_code_law<O, E>(ex: Execution<O, E>, f: Finished<O, E>)
    requires
        ex.spec_done(),
        finished_as(ex, f),
        ex.pipeline_no_throw,
        ex.phase->Returned_0 matches Err(CmdError::ExitStatus { .. }),
    ensures
        f.result matches Ok(raw) && raw.code == ex.phase->Returned_0->Err_0->ExitStatus_code && raw.stdout@.len() == 0
            && raw.stderr@.len() == 0,
        f.warning is None,
{
}

} // verus!
