use vstd::prelude::*;
use std::marker::PhantomData;
use std::time::Duration;

use crate::escape::IntoArgs;
use crate::env::{env_map, env_push, env_extend, env_extend_strs, insert_all, pair_views};
use crate::pipeline::Pipeline;
use crate::result::{Captured, Redirected};
use crate::text::{strs, words, split_whitespace};
use vstd::string::StringSliceAdditionalSpecFns;

verus! {

/// Configuration for stdin source.
#[derive(Debug)]
pub enum StdinConfig {
    /// Inherit stdin from the parent process (default).
    Inherit,
    /// No stdin (`/dev/null`).
    Null,
    /// Provide bytes as stdin.
    Bytes(Vec<u8>),
    /// Read stdin from a file.
    Path(String),
}

/// Configuration for an output stream (stdout or stderr).
#[derive(Debug)]
pub enum OutputConfig {
    /// Forward to the terminal, as the parent's own output, and keep the
    /// bytes on the result too (default).
    Inherit,
    /// Capture into memory for later access via `CmdResult`, without forwarding.
    Capture,
    /// Discard (`/dev/null`).
    Null,
    /// Write to a file (overwrite).
    File(String),
    /// Append to a file.
    Append(String),
    /// Redirect to the other stream (stdout → stderr, or stderr → stdout).
    ToOther,
}

/// Controls whether a non-zero exit code produces an error.
#[derive(Debug)]
pub enum ThrowBehavior {
    /// Error on any non-zero exit code (default).
    ThrowAlways,
    /// Never error on non-zero exit codes.
    NoThrow,
    /// Don't error for these specific exit codes; error on all others.
    NoThrowOn(Vec<i32>),
}

/// Configuration for command timeout.
#[derive(Debug)]
pub struct TimeoutConfig {
    /// Total time before sending the initial signal.
    pub duration: Duration,
    /// Signal to send first (default: SIGTERM = 15).
    pub signal: i32,
    /// Grace period after the initial signal before sending SIGKILL; `None` kills at once.
    pub kill_after: Option<Duration>,
}

/// Marker for the stdout stream.
#[derive(Debug, Clone, Copy)]
pub struct Stdout;

/// Marker for the stderr stream.
#[derive(Debug, Clone, Copy)]
pub struct Stderr;

/// Redirect target: discard output (`/dev/null`).
#[derive(Debug, Clone, Copy)]
pub struct Null;

/// Redirect target: append to a file instead of overwriting.
#[derive(Debug)]
pub struct Append<T>(pub T);

/// Where a redirected stream goes.
#[derive(Debug)]
pub enum RedirectTarget {
    File(String),
    AppendFile(String),
    Null,
    ToOther,
}

impl RedirectTarget {
    pub open spec fn spec_output_config(self) -> OutputConfig {
        match self {
            RedirectTarget::File(p) => OutputConfig::File(p),
            RedirectTarget::AppendFile(p) => OutputConfig::Append(p),
            RedirectTarget::Null => OutputConfig::Null,
            RedirectTarget::ToOther => OutputConfig::ToOther,
        }
    }

    /// The output configuration this target stands for.
    pub fn to_output_config(self) -> (c: OutputConfig)
        ensures
            c == self.spec_output_config(),
    {
        match self {
            RedirectTarget::File(p) => OutputConfig::File(p),
            RedirectTarget::AppendFile(p) => OutputConfig::Append(p),
            RedirectTarget::Null => OutputConfig::Null,
            RedirectTarget::ToOther => OutputConfig::ToOther,
        }
    }
}

/// The view of a redirect target: which kind, and the path where there is one.
pub enum TargetView {
    File(Seq<char>),
    AppendFile(Seq<char>),
    Null,
    ToOther,
}

pub open spec fn target_view(t: RedirectTarget) -> TargetView {
    match t {
        RedirectTarget::File(p) => TargetView::File(p@),
        RedirectTarget::AppendFile(p) => TargetView::AppendFile(p@),
        RedirectTarget::Null => TargetView::Null,
        RedirectTarget::ToOther => TargetView::ToOther,
    }
}

/// Values that name a redirect target: a path, `Append(path)`, `Null`, or the other stream.
pub trait IntoRedirectTarget: Sized {
    spec fn target_spec(&self) -> TargetView;

    fn into_target(self) -> (t: RedirectTarget)
        ensures
            target_view(t) == self.target_spec(),
    ;
}

impl<'a> IntoRedirectTarget for &'a str {
    open spec fn target_spec(&self) -> TargetView {
        TargetView::File(self@)
    }

    fn into_target(self) -> (t: RedirectTarget) {
        RedirectTarget::File(String::from_str(self))
    }
}

impl IntoRedirectTarget for String {
    open spec fn target_spec(&self) -> TargetView {
        TargetView::File(self@)
    }

    fn into_target(self) -> (t: RedirectTarget) {
        RedirectTarget::File(self)
    }
}

impl<'a> IntoRedirectTarget for &'a String {
    open spec fn target_spec(&self) -> TargetView {
        TargetView::File(self@)
    }

    fn into_target(self) -> (t: RedirectTarget) {
        RedirectTarget::File(self.clone())
    }
}

impl IntoRedirectTarget for Null {
    open spec fn target_spec(&self) -> TargetView {
        TargetView::Null
    }

    fn into_target(self) -> (t: RedirectTarget) {
        RedirectTarget::Null
    }
}

impl IntoRedirectTarget for Stdout {
    open spec fn target_spec(&self) -> TargetView {
        TargetView::ToOther
    }

    fn into_target(self) -> (t: RedirectTarget) {
        RedirectTarget::ToOther
    }
}

impl IntoRedirectTarget for Stderr {
    open spec fn target_spec(&self) -> TargetView {
        TargetView::ToOther
    }

    fn into_target(self) -> (t: RedirectTarget) {
        RedirectTarget::ToOther
    }
}

impl<'a> IntoRedirectTarget for Append<&'a str> {
    open spec fn target_spec(&self) -> TargetView {
        TargetView::AppendFile(self.0@)
    }

    fn into_target(self) -> (t: RedirectTarget) {
        RedirectTarget::AppendFile(String::from_str(self.0))
    }
}

#[verifier::external_type_specification]
#[verifier::external_body]
pub struct ExPathBuf(std::path::PathBuf);

#[verifier::external_type_specification]
#[verifier::external_body]
pub struct ExPath(std::path::Path);

/// The text `Path::to_string_lossy` gives a path (its bytes decoded, any
/// invalid sequence replaced); it depends on the path alone.
pub uninterp spec fn path_text(p: &std::path::Path) -> Seq<char>;

/// A path as text, by `Path::to_string_lossy`.
#[verifier::external_body]
fn path_string(p: &std::path::Path) -> (s: String)
    ensures
        s@ == path_text(p),
{
    p.to_string_lossy().into_owned()
}

/// The text `Path::to_string_lossy` gives the path a `PathBuf` holds.
pub uninterp spec fn path_buf_text(p: &std::path::PathBuf) -> Seq<char>;

/// An owned path as text, by `Path::to_string_lossy` on the path it holds.
#[verifier::external_body]
fn path_buf_string(p: &std::path::PathBuf) -> (s: String)
    ensures
        s@ == path_buf_text(p),
{
    p.to_string_lossy().into_owned()
}

impl IntoRedirectTarget for std::path::PathBuf {
    open spec fn target_spec(&self) -> TargetView {
        TargetView::File(path_buf_text(self))
    }

    fn into_target(self) -> (t: RedirectTarget) {
        RedirectTarget::File(path_buf_string(&self))
    }
}

impl<'a> IntoRedirectTarget for &'a std::path::PathBuf {
    open spec fn target_spec(&self) -> TargetView {
        TargetView::File(path_buf_text(*self))
    }

    fn into_target(self) -> (t: RedirectTarget) {
        RedirectTarget::File(path_buf_string(self))
    }
}

impl IntoRedirectTarget for Append<std::path::PathBuf> {
    open spec fn target_spec(&self) -> TargetView {
        TargetView::AppendFile(path_buf_text(&self.0))
    }

    fn into_target(self) -> (t: RedirectTarget) {
        RedirectTarget::AppendFile(path_buf_string(&self.0))
    }
}

impl<'a> IntoRedirectTarget for &'a std::path::Path {
    open spec fn target_spec(&self) -> TargetView {
        TargetView::File(path_text(*self))
    }

    fn into_target(self) -> (t: RedirectTarget) {
        RedirectTarget::File(path_string(self))
    }
}

impl<'a> IntoRedirectTarget for Append<&'a std::path::Path> {
    open spec fn target_spec(&self) -> TargetView {
        TargetView::AppendFile(path_text(self.0))
    }

    fn into_target(self) -> (t: RedirectTarget) {
        RedirectTarget::AppendFile(path_string(self.0))
    }
}

impl IntoRedirectTarget for Append<String> {
    open spec fn target_spec(&self) -> TargetView {
        TargetView::AppendFile(self.0@)
    }

    fn into_target(self) -> (t: RedirectTarget) {
        RedirectTarget::AppendFile(self.0)
    }
}

} // verus!

verus! {

/// Reusable options that can be shared across many commands.
#[derive(Debug)]
pub struct CmdOps {
    /// Environment variables to set, in order; a later setting of a key wins.
    pub env: Vec<(String, String)>,
    /// Working directory.
    pub cwd: Option<String>,
    /// Shell program and flag; when `None`, `/bin/sh -c` is used.
    pub shell: Option<(String, String)>,
    /// Print `$ command` to stderr before executing.
    pub verbose: bool,
    /// Print the command but don't execute it.
    pub dry: bool,
    /// Swallow all errors (prints warnings for serious ones like not-found).
    pub no_err: bool,
    /// Swallow all errors silently (no warnings); implies `no_err`.
    pub no_warn: bool,
}

impl CmdOps {
    /// Options that change nothing.
    pub open spec fn is_empty_ops(self) -> bool {
        &&& self.env@.len() == 0
        &&& self.cwd is None
        &&& self.shell is None
        &&& !self.verbose
        &&& !self.dry
        &&& !self.no_err
        &&& !self.no_warn
    }

    /// Create a new empty options set.
    pub fn new() -> (o: Self)
        ensures
            o.is_empty_ops(),
    {
        CmdOps { env: Vec::new(), cwd: None, shell: None, verbose: false, dry: false, no_err: false, no_warn: false }
    }

    /// Set the working directory.
    pub fn cwd(self, dir: &str) -> (o: Self)
        ensures
            o.cwd matches Some(c) && c@ == dir@,
            o == (CmdOps { cwd: o.cwd, ..self }),
    {
        CmdOps { cwd: Some(String::from_str(dir)), ..self }
    }

    /// Set an environment variable.
    pub fn env(self, key: &str, val: &str) -> (o: Self)
        ensures
            env_map(o.env@) == env_map(self.env@).insert(key@, val@),
            o == (CmdOps { env: o.env, ..self }),
    {
        let mut o = self;
        env_push(&mut o.env, String::from_str(key), String::from_str(val));
        o
    }

    /// Set multiple environment variables, in order.
    pub fn envs(self, vars: &[(&str, &str)]) -> (o: Self)
        ensures
            env_map(o.env@) == insert_all(env_map(self.env@), vars@.map_values(|p: (&str, &str)| (p.0@, p.1@))),
            o == (CmdOps { env: o.env, ..self }),
    {
        let mut o = self;
        env_extend_strs(&mut o.env, vars);
        o
    }

    /// Set the shell used by shell commands: the program and the flag that runs a string.
    pub fn shell_program(self, program: &str, flag: &str) -> (o: Self)
        ensures
            o.shell matches Some(p) && p.0@ == program@ && p.1@ == flag@,
            o == (CmdOps { shell: o.shell, ..self }),
    {
        CmdOps { shell: Some((String::from_str(program), String::from_str(flag))), ..self }
    }

    /// Print the command before executing.
    pub fn verbose(self, on: bool) -> (o: Self)
        ensures
            o == (CmdOps { verbose: on, ..self }),
    {
        CmdOps { verbose: on, ..self }
    }

    /// Only print the command, don't actually run it.
    pub fn dry(self, on: bool) -> (o: Self)
        ensures
            o == (CmdOps { dry: on, ..self }),
    {
        CmdOps { dry: on, ..self }
    }

    /// Swallow all errors (print warnings for serious ones).
    pub fn no_err(self, on: bool) -> (o: Self)
        ensures
            o == (CmdOps { no_err: on, ..self }),
    {
        CmdOps { no_err: on, ..self }
    }

    /// Swallow all errors silently (no warnings).
    pub fn no_warn(self, on: bool) -> (o: Self)
        ensures
            o == (CmdOps { no_warn: on, ..self }),
    {
        CmdOps { no_warn: on, ..self }
    }
}

impl Default for CmdOps {
    fn default() -> (o: Self)
        ensures
            o.is_empty_ops(),
    {
        CmdOps::new()
    }
}

/// Command state: everything a command (or a chain of commands) was built with.
#[derive(Debug)]
pub struct CmdInner {
    pub program: String,
    pub args: Vec<String>,
    pub env_vars: Vec<(String, String)>,
    pub env_remove: Vec<String>,
    pub env_clear: bool,
    pub cwd: Option<String>,
    pub stdin: StdinConfig,
    pub stdout: OutputConfig,
    pub stderr: OutputConfig,
    pub throw: ThrowBehavior,
    pub timeout: Option<TimeoutConfig>,
    pub pipeline: Option<Pipeline>,
    /// Stored error from builder methods like `.glob()`, returned at execution time.
    pub deferred_error: Option<String>,
    pub no_err: bool,
    pub no_warn: bool,
    pub verbose: bool,
    pub dry: bool,
}

impl CmdInner {
    /// A command for `program` with every other setting at its default.
    pub open spec fn is_fresh(self, program: Seq<char>) -> bool {
        &&& self.program@ == program
        &&& self.args@.len() == 0
        &&& self.pipeline is None
        &&& self.has_defaults()
    }

    /// Every setting other than the program, its arguments and the pipeline is at its default.
    pub open spec fn has_defaults(self) -> bool {
        &&& self.env_vars@.len() == 0
        &&& self.env_remove@.len() == 0
        &&& !self.env_clear
        &&& self.cwd is None
        &&& self.stdin is Inherit
        &&& self.stdout is Inherit
        &&& self.stderr is Inherit
        &&& self.throw is ThrowAlways
        &&& self.timeout is None
        &&& self.deferred_error is None
        &&& !self.no_err
        &&& !self.no_warn
        &&& !self.verbose
        &&& !self.dry
    }

    pub fn new(program: &str) -> (c: Self)
        ensures
            c.is_fresh(program@),
    {
        CmdInner {
            program: String::from_str(program),
            args: Vec::new(),
            env_vars: Vec::new(),
            env_remove: Vec::new(),
            env_clear: false,
            cwd: None,
            stdin: StdinConfig::Inherit,
            stdout: OutputConfig::Inherit,
            stderr: OutputConfig::Inherit,
            throw: ThrowBehavior::ThrowAlways,
            timeout: None,
            pipeline: None,
            deferred_error: None,
            no_err: false,
            no_warn: false,
            verbose: false,
            dry: false,
        }
    }
}

} // verus!

verus! {

/// A command builder with type-state tracking of stream configuration.
///
/// `O` tracks stdout and `E` tracks stderr: `Captured` (not redirected, the
/// default) or `Redirected`. Nothing runs until the command is executed.
#[derive(Debug)]
pub struct Cmd<O = Captured, E = Captured> {
    pub inner: CmdInner,
    pub _phantom: PhantomData<(O, E)>,
}

impl Cmd {
    /// Create a new command with the given program name.
    pub fn new(program: &str) -> (c: Self)
        ensures
            c.inner.is_fresh(program@),
    {
        Cmd { inner: CmdInner::new(program), _phantom: PhantomData }
    }

    /// Parse a command string by splitting on whitespace: the first word is
    /// the program, the rest are its arguments.
    pub fn parse(cmd_str: &str) -> (c: Self)
        ensures
            words(cmd_str@).len() == 0 ==> c.inner.is_fresh(Seq::empty()),
            words(cmd_str@).len() > 0 ==> {
                &&& c.inner.has_defaults()
                &&& c.inner.pipeline is None
                &&& c.inner.program@ == words(cmd_str@)[0]
                &&& strs(c.inner.args@) == words(cmd_str@).drop_first()
            },
    {
        let parts = split_whitespace(cmd_str);
        if parts.len() == 0 {
            proof {
                reveal_strlit("");
                assert(""@ =~= Seq::<char>::empty());
            }
            return Cmd::new("");
        }
        let mut cmd = Cmd::new(parts[0].as_str());
        let mut i: usize = 1;
        while i < parts.len()
            invariant
                1 <= i <= parts.len(),
                strs(parts@) == words(cmd_str@),
                cmd.inner.has_defaults(),
                cmd.inner.pipeline is None,
                cmd.inner.program@ == words(cmd_str@)[0],
                strs(cmd.inner.args@) == words(cmd_str@).subrange(1, i as int),
            decreases parts.len() - i,
        {
            let a = parts[i].clone();
            let ghost before = cmd.inner.args@;
            cmd.inner.args.push(a);
            assert(strs(parts@)[i as int] == parts@[i as int]@);
            assert(strs(cmd.inner.args@) =~= strs(before).push(a@));
            assert(strs(cmd.inner.args@) =~= words(cmd_str@).subrange(1, i + 1));
            i = i + 1;
        }
        assert(words(cmd_str@).subrange(1, parts.len() as int) =~= words(cmd_str@).drop_first());
        cmd
    }

    /// Create a shell command: `/bin/sh -c <cmd_str>`.
    pub fn shell(cmd_str: &str) -> (c: Self)
        ensures
            c.inner.has_defaults(),
            c.inner.pipeline is None,
            c.inner.program@ == "/bin/sh"@,
            strs(c.inner.args@) == seq!["-c"@, cmd_str@],
    {
        let mut cmd = Cmd::new("/bin/sh");
        let mut args: Vec<String> = Vec::new();
        args.push(String::from_str("-c"));
        args.push(String::from_str(cmd_str));
        cmd.inner.args = args;
        assert(strs(cmd.inner.args@) =~= seq!["-c"@, cmd_str@]);
        cmd
    }

    /// A command standing for a pipeline or chain.
    pub fn with_pipeline(pipeline: Pipeline) -> (c: Self)
        ensures
            c.inner.has_defaults(),
            c.inner.program@ == "__pipeline__"@,
            c.inner.args@.len() == 0,
            c.inner.pipeline == Some(pipeline),
    {
        let mut cmd = Cmd::new("__pipeline__");
        cmd.inner.pipeline = Some(pipeline);
        cmd
    }
}

impl<O, E> Cmd<O, E> {
    /// Append a single argument.
    pub fn arg(self, arg: &str) -> (c: Self)
        ensures
            strs(c.inner.args@) == strs(self.inner.args@).push(arg@),
            c.inner == (CmdInner { args: c.inner.args, ..self.inner }),
    {
        let mut c = self;
        c.inner.args.push(String::from_str(arg));
        assert(strs(c.inner.args@) =~= strs(self.inner.args@).push(arg@));
        c
    }

    /// Append multiple arguments, in order.
    pub fn args(self, args: &[&str]) -> (c: Self)
        ensures
            strs(c.inner.args@) == strs(self.inner.args@) + args@.map_values(|a: &str| a@),
            c.inner == (CmdInner { args: c.inner.args, ..self.inner }),
    {
        let mut c = self;
        for i in 0..args.len()
            invariant
                strs(c.inner.args@) == strs(self.inner.args@) + args@.map_values(|a: &str| a@).take(i as int),
                c.inner == (CmdInner { args: c.inner.args, ..self.inner }),
        {
            let ghost before = c.inner.args@;
            let a = String::from_str(args[i]);
            c.inner.args.push(a);
            assert(strs(c.inner.args@) =~= strs(before).push(a@));
            assert(strs(c.inner.args@) =~= strs(self.inner.args@) + args@.map_values(|a: &str| a@).take(i + 1));
        }
        assert(args@.map_values(|a: &str| a@).take(args.len() as int) =~= args@.map_values(|a: &str| a@));
        c
    }

    /// Append arguments from anything that stands for a list of them: a
    /// string is one argument, a vector or slice one per element.
    pub fn push_args<A: IntoArgs>(self, args: A) -> (c: Self)
        ensures
            strs(c.inner.args@) == strs(self.inner.args@) + args.arg_views(),
            c.inner == (CmdInner { args: c.inner.args, ..self.inner }),
    {
        let ghost ws = args.arg_views();
        let v = args.into_args();
        let mut c = self;
        for i in 0..v.len()
            invariant
                strs(v@) == ws,
                strs(c.inner.args@) == strs(self.inner.args@) + ws.take(i as int),
                c.inner == (CmdInner { args: c.inner.args, ..self.inner }),
        {
            let ghost before = c.inner.args@;
            let a = v[i].clone();
            c.inner.args.push(a);
            assert(strs(v@)[i as int] == v@[i as int]@);
            assert(strs(c.inner.args@) =~= strs(before).push(a@));
            assert(strs(c.inner.args@) =~= strs(self.inner.args@) + ws.take(i + 1));
        }
        assert(ws.take(v.len() as int) =~= ws);
        c
    }

    /// Internal: set a deferred error, unless one is already set.
    pub fn _set_deferred_error(self, msg: String) -> (c: Self)
        ensures
            self.inner.deferred_error is None ==> c.inner.deferred_error == Some(msg),
            self.inner.deferred_error is Some ==> c.inner.deferred_error == self.inner.deferred_error,
            c.inner == (CmdInner { deferred_error: c.inner.deferred_error, ..self.inner }),
    {
        let mut c = self;
        if c.inner.deferred_error.is_none() {
            c.inner.deferred_error = Some(msg);
        }
        c
    }

    /// Set an environment variable for the command.
    pub fn env(self, key: &str, val: &str) -> (c: Self)
        ensures
            env_map(c.inner.env_vars@) == env_map(self.inner.env_vars@).insert(key@, val@),
            c.inner == (CmdInner { env_vars: c.inner.env_vars, ..self.inner }),
    {
        let mut c = self;
        env_push(&mut c.inner.env_vars, String::from_str(key), String::from_str(val));
        c
    }

    /// Set multiple environment variables, in order.
    pub fn envs(self, vars: &[(&str, &str)]) -> (c: Self)
        ensures
            env_map(c.inner.env_vars@)
                == insert_all(env_map(self.inner.env_vars@), vars@.map_values(|p: (&str, &str)| (p.0@, p.1@))),
            c.inner == (CmdInner { env_vars: c.inner.env_vars, ..self.inner }),
    {
        let mut c = self;
        env_extend_strs(&mut c.inner.env_vars, vars);
        c
    }

    /// Remove an environment variable.
    pub fn env_remove(self, key: &str) -> (c: Self)
        ensures
            strs(c.inner.env_remove@) == strs(self.inner.env_remove@).push(key@),
            c.inner == (CmdInner { env_remove: c.inner.env_remove, ..self.inner }),
    {
        let mut c = self;
        c.inner.env_remove.push(String::from_str(key));
        assert(strs(c.inner.env_remove@) =~= strs(self.inner.env_remove@).push(key@));
        c
    }

    /// Clear all environment variables.
    pub fn env_clear(self) -> (c: Self)
        ensures
            c.inner == (CmdInner { env_clear: true, ..self.inner }),
    {
        let mut c = self;
        c.inner.env_clear = true;
        c
    }

    /// Set the working directory for the command.
    pub fn cwd(self, dir: &str) -> (c: Self)
        ensures
            c.inner.cwd matches Some(d) && d@ == dir@,
            c.inner == (CmdInner { cwd: c.inner.cwd, ..self.inner }),
    {
        let mut c = self;
        c.inner.cwd = Some(String::from_str(dir));
        c
    }

    /// Set stdin to a UTF-8 string.
    pub fn stdin_text(self, text: &str) -> (c: Self)
        ensures
            c.inner.stdin matches StdinConfig::Bytes(b) && b@ == text.spec_bytes(),
            c.inner == (CmdInner { stdin: c.inner.stdin, ..self.inner }),
    {
        let mut c = self;
        c.inner.stdin = StdinConfig::Bytes(crate::text::copy_slice(text.as_bytes()));
        c
    }

    /// Set stdin to raw bytes.
    pub fn stdin_bytes(self, bytes: Vec<u8>) -> (c: Self)
        ensures
            c.inner == (CmdInner { stdin: StdinConfig::Bytes(bytes), ..self.inner }),
    {
        let mut c = self;
        c.inner.stdin = StdinConfig::Bytes(bytes);
        c
    }

    /// Set stdin to read from a file.
    pub fn stdin_path(self, path: &str) -> (c: Self)
        ensures
            c.inner.stdin matches StdinConfig::Path(p) && p@ == path@,
            c.inner == (CmdInner { stdin: c.inner.stdin, ..self.inner }),
    {
        let mut c = self;
        c.inner.stdin = StdinConfig::Path(String::from_str(path));
        c
    }

    /// Set stdin to `/dev/null`.
    pub fn stdin_null(self) -> (c: Self)
        ensures
            c.inner == (CmdInner { stdin: StdinConfig::Null, ..self.inner }),
    {
        let mut c = self;
        c.inner.stdin = StdinConfig::Null;
        c
    }

    /// Swallow all errors; serious ones are reported as a warning.
    pub fn no_err(self) -> (c: Self)
        ensures
            c.inner == (CmdInner { no_err: true, ..self.inner }),
    {
        let mut c = self;
        c.inner.no_err = true;
        c
    }

    /// Like `no_err` but also silences the warnings.
    pub fn no_nothin(self) -> (c: Self)
        ensures
            c.inner == (CmdInner { no_err: true, no_warn: true, ..self.inner }),
    {
        let mut c = self;
        c.inner.no_err = true;
        c.inner.no_warn = true;
        c
    }

    /// Don't error on non-zero exit codes (but still on IO, not-found, etc).
    pub fn no_exit_err(self) -> (c: Self)
        ensures
            c.inner == (CmdInner { throw: ThrowBehavior::NoThrow, ..self.inner }),
    {
        let mut c = self;
        c.inner.throw = ThrowBehavior::NoThrow;
        c
    }

    /// Don't error for specific exit codes.
    pub fn no_exit_err_on(self, codes: &[i32]) -> (c: Self)
        ensures
            c.inner.throw matches ThrowBehavior::NoThrowOn(v) && v@ == codes@,
            c.inner == (CmdInner { throw: c.inner.throw, ..self.inner }),
    {
        let mut c = self;
        c.inner.throw = ThrowBehavior::NoThrowOn(crate::text::copy_slice(codes));
        c
    }

    /// Set a timeout: `SIGTERM` after `duration`, then `SIGKILL` after a 2s grace.
    pub fn timeout(self, duration: Duration) -> (c: Self)
        ensures
            c.inner.timeout == Some(TimeoutConfig { duration, signal: 15, kill_after: Some(crate::time::secs_duration(2)) }),
            c.inner == (CmdInner { timeout: c.inner.timeout, ..self.inner }),
    {
        let mut c = self;
        c.inner.timeout = Some(TimeoutConfig { duration, signal: 15, kill_after: Some(crate::time::duration_from_secs(2)) });
        c
    }

    /// Set a timeout with a specific signal and optional SIGKILL grace period.
    pub fn timeout_signal(self, duration: Duration, signal: i32, kill_after: Option<Duration>) -> (c: Self)
        ensures
            c.inner == (CmdInner { timeout: Some(TimeoutConfig { duration, signal, kill_after }), ..self.inner }),
    {
        let mut c = self;
        c.inner.timeout = Some(TimeoutConfig { duration, signal, kill_after });
        c
    }

    /// Swap stdout and stderr configurations (and type parameters).
    pub fn swap_streams(self) -> (c: Cmd<E, O>)
        ensures
            c.inner == (CmdInner { stdout: self.inner.stderr, stderr: self.inner.stdout, ..self.inner }),
    {
        let mut inner = self.inner;
        std::mem::swap(&mut inner.stdout, &mut inner.stderr);
        Cmd { inner, _phantom: PhantomData }
    }
}

} // verus!

verus! {

/// Whether an output configuration is the one a redirect target stands for.
pub open spec fn config_is_target(c: OutputConfig, t: TargetView) -> bool {
    match t {
        TargetView::File(p) => c matches OutputConfig::File(q) && q@ == p,
        TargetView::AppendFile(p) => c matches OutputConfig::Append(q) && q@ == p,
        TargetView::Null => c is Null,
        TargetView::ToOther => c is ToOther,
    }
}

/// Type-safe stream redirection: redirecting a stream changes its type state
/// to `Redirected`, so its data cannot be asked for afterwards.
pub trait RedirectFrom<S, T>: Sized {
    type Output;

    spec fn redirect_spec(self, target: T, out: Self::Output) -> bool;

    fn apply_redirect(self, source: S, target: T) -> (out: Self::Output)
        ensures
            Self::redirect_spec(self, target, out),
    ;
}

impl<E, T: IntoRedirectTarget> RedirectFrom<Stdout, T> for Cmd<Captured, E> {
    type Output = Cmd<Redirected, E>;

    open spec fn redirect_spec(self, target: T, out: Cmd<Redirected, E>) -> bool {
        &&& config_is_target(out.inner.stdout, target.target_spec())
        &&& out.inner == (CmdInner { stdout: out.inner.stdout, ..self.inner })
    }

    fn apply_redirect(self, source: Stdout, target: T) -> (out: Cmd<Redirected, E>) {
        let mut inner = self.inner;
        inner.stdout = target.into_target().to_output_config();
        Cmd { inner, _phantom: PhantomData }
    }
}

impl<O, T: IntoRedirectTarget> RedirectFrom<Stderr, T> for Cmd<O, Captured> {
    type Output = Cmd<O, Redirected>;

    open spec fn redirect_spec(self, target: T, out: Cmd<O, Redirected>) -> bool {
        &&& config_is_target(out.inner.stderr, target.target_spec())
        &&& out.inner == (CmdInner { stderr: out.inner.stderr, ..self.inner })
    }

    fn apply_redirect(self, source: Stderr, target: T) -> (out: Cmd<O, Redirected>) {
        let mut inner = self.inner;
        inner.stderr = target.into_target().to_output_config();
        Cmd { inner, _phantom: PhantomData }
    }
}

/// The pipeline a command stands for: its chain if it has one, else itself alone.
pub open spec fn pipeline_of(inner: CmdInner) -> Pipeline {
    match inner.pipeline {
        Some(p) => p,
        None => Pipeline::Single(Box::new(inner)),
    }
}

/// The command that `pipe`, `and`, `or` and `then` build around a pipeline.
pub open spec fn is_chain_cmd(inner: CmdInner, p: Pipeline) -> bool {
    &&& inner.has_defaults()
    &&& inner.program@ == "__pipeline__"@
    &&& inner.args@.len() == 0
    &&& inner.pipeline == Some(p)
}

/// What applying shared options does to a command: their variables are
/// set after its own, their directory and flags override, and their shell
/// replaces `/bin/sh -c` for a shell command.
pub open spec fn ops_applied(a: CmdInner, ops: CmdOps, c: CmdInner) -> bool {
    &&& env_map(c.env_vars@) == insert_all(env_map(a.env_vars@), pair_views(ops.env@))
    &&& ops.cwd matches Some(d) ==> c.cwd matches Some(e) && e@ == d@
    &&& ops.cwd is None ==> c.cwd == a.cwd
    &&& ({
        let is_shell = a.program@ == "/bin/sh"@ && a.args@.len() > 0 && a.args@[0]@ == "-c"@;
        if ops.shell is Some && is_shell {
            &&& c.program@ == ops.shell.unwrap().0@
            &&& strs(c.args@) == strs(a.args@).update(0, ops.shell.unwrap().1@)
        } else {
            &&& c.program == a.program
            &&& c.args == a.args
        }
    })
    &&& c == (CmdInner {
        env_vars: c.env_vars,
        cwd: c.cwd,
        program: c.program,
        args: c.args,
        verbose: a.verbose || ops.verbose,
        dry: a.dry || ops.dry,
        no_err: a.no_err || ops.no_err || ops.no_warn,
        no_warn: a.no_warn || ops.no_warn,
        ..a
    })
}

/// Empty options change nothing but the list of settings the environment
/// is built from, which still denotes the same environment.
pub proof fn empty_ops_law(a: CmdInner, ops: CmdOps, c: CmdInner)
    requires
        ops.is_empty_ops(),
        ops_applied(a, ops, c),
    ensures
        env_map(c.env_vars@) == env_map(a.env_vars@),
        c == (CmdInner { env_vars: c.env_vars, ..a }),
{
    assert(pair_views(ops.env@) =~= Seq::<(Seq<char>, Seq<char>)>::empty());
}

/// Swapping the streams twice gives back the command as it was.
pub proof fn swap_streams_law(a: CmdInner, b: CmdInner, c: CmdInner)
    requires
        b == (CmdInner { stdout: a.stderr, stderr: a.stdout, ..a }),
        c == (CmdInner { stdout: b.stderr, stderr: b.stdout, ..b }),
    ensures
        c == a,
{
}

/// Setting the same variable twice: the later value wins.
pub proof fn env_law(a: Seq<(String, String)>, b: Seq<(String, String)>, c: Seq<(String, String)>,
    key: Seq<char>, v1: Seq<char>, v2: Seq<char>)
    requires
        env_map(b) == env_map(a).insert(key, v1),
        env_map(c) == env_map(b).insert(key, v2),
    ensures
        env_map(c) == env_map(a).insert(key, v2),
        env_map(c)[key] == v2,
{
    assert(env_map(c) =~= env_map(a).insert(key, v2));
}

/// Capturing a stream that is already captured (or configured) changes nothing.
pub proof fn capture_law(a: CmdInner, b: CmdInner, c: CmdInner)
    requires
        a.stdout is Inherit ==> b == (CmdInner { stdout: OutputConfig::Capture, ..a }),
        !(a.stdout is Inherit) ==> b == a,
        b.stdout is Inherit ==> c == (CmdInner { stdout: OutputConfig::Capture, ..b }),
        !(b.stdout is Inherit) ==> c == b,
    ensures
        c == b,
        !(c.stdout is Inherit),
{
}

impl<O, E> Cmd<O, E> {
    /// Redirect a stream to a target: `redirect(Stdout, "out.txt")`,
    /// `redirect(Stderr, Null)`, `redirect(Stderr, Stdout)`, `redirect(Stdout, Append("log"))`.
    pub fn redirect<S, T>(self, source: S, target: T) -> (out: <Self as RedirectFrom<S, T>>::Output)
        where Self: RedirectFrom<S, T>
        ensures
            <Self as RedirectFrom<S, T>>::redirect_spec(self, target, out),
    {
        RedirectFrom::apply_redirect(self, source, target)
    }

    /// Apply a shared `CmdOps` configuration to this command.
    pub fn with_ops(self, ops: &CmdOps) -> (c: Self)
        ensures
            ops_applied(self.inner, *ops, c.inner),
    {
        let mut c = self;
        env_extend(&mut c.inner.env_vars, &ops.env);
        match &ops.cwd {
            Some(d) => {
                c.inner.cwd = Some(d.clone());
            },
            None => {},
        }
        match &ops.shell {
            Some(sh) => {
                if crate::text::str_eq(c.inner.program.as_str(), "/bin/sh") && c.inner.args.len() > 0
                    && crate::text::str_eq(c.inner.args[0].as_str(), "-c") {
                    let ghost before = c.inner.args@;
                    c.inner.program = sh.0.clone();
                    c.inner.args.set(0, sh.1.clone());
                    assert(strs(c.inner.args@) =~= strs(before).update(0, sh.1@));
                }
            },
            None => {},
        }
        if ops.verbose {
            c.inner.verbose = true;
        }
        if ops.dry {
            c.inner.dry = true;
        }
        if ops.no_err || ops.no_warn {
            c.inner.no_err = true;
        }
        if ops.no_warn {
            c.inner.no_warn = true;
        }
        c
    }

    /// The pipeline this command stands for.
    pub fn into_pipeline(self) -> (p: Pipeline)
        ensures
            p == pipeline_of(self.inner),
    {
        let mut inner = self.inner;
        match inner.pipeline.take() {
            Some(p) => p,
            None => Pipeline::Single(Box::new(inner)),
        }
    }

    /// Pipe this command's stdout into another command's stdin (`|`).
    pub fn pipe<O2, E2>(self, other: Cmd<O2, E2>) -> (c: Cmd)
        ensures
            is_chain_cmd(c.inner, Pipeline::Pipe(Box::new(pipeline_of(self.inner)), Box::new(pipeline_of(other.inner)))),
    {
        let left = self.into_pipeline();
        let right = other.into_pipeline();
        Cmd::with_pipeline(Pipeline::Pipe(Box::new(left), Box::new(right)))
    }

    /// Run another command only if this one succeeds (`&&`).
    pub fn and<O2, E2>(self, other: Cmd<O2, E2>) -> (c: Cmd)
        ensures
            is_chain_cmd(c.inner, Pipeline::And(Box::new(pipeline_of(self.inner)), Box::new(pipeline_of(other.inner)))),
    {
        let left = self.into_pipeline();
        let right = other.into_pipeline();
        Cmd::with_pipeline(Pipeline::And(Box::new(left), Box::new(right)))
    }

    /// Run another command only if this one fails (`||`).
    pub fn or<O2, E2>(self, other: Cmd<O2, E2>) -> (c: Cmd)
        ensures
            is_chain_cmd(c.inner, Pipeline::Or(Box::new(pipeline_of(self.inner)), Box::new(pipeline_of(other.inner)))),
    {
        let left = self.into_pipeline();
        let right = other.into_pipeline();
        Cmd::with_pipeline(Pipeline::Or(Box::new(left), Box::new(right)))
    }

    /// Run another command after this one regardless of exit code (`;`).
    pub fn then<O2, E2>(self, other: Cmd<O2, E2>) -> (c: Cmd)
        ensures
            is_chain_cmd(c.inner, Pipeline::Then(Box::new(pipeline_of(self.inner)), Box::new(pipeline_of(other.inner)))),
    {
        let left = self.into_pipeline();
        let right = other.into_pipeline();
        Cmd::with_pipeline(Pipeline::Then(Box::new(left), Box::new(right)))
    }
}

impl<E> Cmd<Captured, E> {
    /// Capture stdout into memory, unless it was already configured.
    pub fn capture_stdout(self) -> (c: Self)
        ensures
            self.inner.stdout is Inherit ==> c.inner == (CmdInner { stdout: OutputConfig::Capture, ..self.inner }),
            !(self.inner.stdout is Inherit) ==> c.inner == self.inner,
    {
        let mut c = self;
        if let OutputConfig::Inherit = c.inner.stdout {
            c.inner.stdout = OutputConfig::Capture;
        }
        c
    }

    /// Suppress stdout (redirect to `/dev/null`).
    pub fn quiet_stdout(self) -> (c: Cmd<Redirected, E>)
        ensures
            c.inner == (CmdInner { stdout: OutputConfig::Null, ..self.inner }),
    {
        self.redirect(Stdout, Null)
    }
}

impl<O> Cmd<O, Captured> {
    /// Capture stderr into memory, unless it was already configured.
    pub fn capture_stderr(self) -> (c: Self)
        ensures
            self.inner.stderr is Inherit ==> c.inner == (CmdInner { stderr: OutputConfig::Capture, ..self.inner }),
            !(self.inner.stderr is Inherit) ==> c.inner == self.inner,
    {
        let mut c = self;
        if let OutputConfig::Inherit = c.inner.stderr {
            c.inner.stderr = OutputConfig::Capture;
        }
        c
    }

    /// Suppress stderr (redirect to `/dev/null`).
    pub fn quiet_stderr(self) -> (c: Cmd<O, Redirected>)
        ensures
            c.inner == (CmdInner { stderr: OutputConfig::Null, ..self.inner }),
    {
        self.redirect(Stderr, Null)
    }
}

impl Cmd<Captured, Captured> {
    /// Capture both stdout and stderr into memory (streams already configured stay).
    pub fn capture(self) -> (c: Self)
        ensures
            c.inner == (CmdInner {
                stdout: if self.inner.stdout is Inherit { OutputConfig::Capture } else { self.inner.stdout },
                stderr: if self.inner.stderr is Inherit { OutputConfig::Capture } else { self.inner.stderr },
                ..self.inner
            }),
    {
        let mut c = self;
        if let OutputConfig::Inherit = c.inner.stdout {
            c.inner.stdout = OutputConfig::Capture;
        }
        if let OutputConfig::Inherit = c.inner.stderr {
            c.inner.stderr = OutputConfig::Capture;
        }
        c
    }

    /// Suppress both stdout and stderr (redirect to `/dev/null`).
    pub fn quiet(self) -> (c: Cmd<Redirected, Redirected>)
        ensures
            c.inner == (CmdInner { stdout: OutputConfig::Null, stderr: OutputConfig::Null, ..self.inner }),
    {
        self.redirect(Stdout, Null).redirect(Stderr, Null)
    }
}

} // verus!

verus! {

/// Whether an argument is shown escaped when a command is displayed: when it
/// holds a space or a quote.
pub open spec fn needs_display_quotes(a: Seq<char>) -> bool {
    a.contains(' ') || a.contains('\'') || a.contains('"')
}

/// An argument as it is displayed.
pub open spec fn shown_arg(a: Seq<char>) -> Seq<char> {
    if needs_display_quotes(a) {
        crate::escape::escaped(a)
    } else {
        a
    }
}

/// The displayed form of arguments: each preceded by a space.
pub open spec fn shown_args(args: Seq<Seq<char>>) -> Seq<char>
    decreases args.len(),
{
    if args.len() == 0 {
        seq![]
    } else {
        shown_args(args.drop_last()) + seq![' '] + shown_arg(args.last())
    }
}

/// The program followed by its displayed arguments, separated by spaces.
pub open spec fn display_text(program: Seq<char>, args: Seq<Seq<char>>) -> Seq<char> {
    program + shown_args(args)
}

fn has_display_quote(a: &str) -> (b: bool)
    ensures
        b == needs_display_quotes(a@),
{
    let cs = crate::text::chars_of(a);
    for i in 0..cs.len()
        invariant
            cs@ == a@,
            forall|j: int| 0 <= j < i ==> cs@[j] != ' ' && cs@[j] != '\'' && cs@[j] != '"',
    {
        if cs[i] == ' ' || cs[i] == '\'' || cs[i] == '"' {
            assert(a@[i as int] == cs[i as int]);
            return true;
        }
    }
    false
}

impl CmdInner {
    /// The command as it is shown to the user: program and arguments,
    /// arguments with spaces or quotes shell-escaped.
    pub fn display_string(&self) -> (s: String)
        ensures
            s@ == display_text(self.program@, strs(self.args@)),
    {
        let mut s = self.program.clone();
        let ghost ws = strs(self.args@);
        for i in 0..self.args.len()
            invariant
                ws == strs(self.args@),
                s@ == self.program@ + shown_args(ws.take(i as int)),
        {
            crate::text::push_char(&mut s, ' ');
            let a = self.args[i].as_str();
            if has_display_quote(a) {
                let e = crate::escape::escape_arg(a);
                crate::escape::push_str(&mut s, e.as_str());
            } else {
                crate::escape::push_str(&mut s, a);
            }
            assert(ws.take(i + 1).drop_last() =~= ws.take(i as int));
            assert(ws[i as int] == self.args@[i as int]@);
            assert(s@ =~= self.program@ + shown_args(ws.take(i + 1)));
        }
        assert(ws.take(self.args.len() as int) =~= ws);
        s
    }
}

} // verus!
