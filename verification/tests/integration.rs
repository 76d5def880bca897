use raxx::cmd::{CmdInner, OutputConfig, StdinConfig};
use raxx::exec::{Execution, Finished, SpawnOutcome, TimeoutAction};
use raxx::tail::{TailOutcome, TailRun};
use raxx::{glob, Cmd, CmdError, CmdOps, CmdResult, EscapeForShell, Stderr, Stdout, TailOptions};
use std::io::Write;
use std::path::Path;
use std::time::{Duration, Instant};

// ============================================================================
// A small runner: runs the processes an execution asks for, with duct.
// ============================================================================

fn expression(job: &CmdInner) -> duct::Expression {
    let mut e = duct::cmd(job.program.clone(), job.args.clone());
    let plan = raxx::env::env_plan(job.env_clear, &job.env_vars, &job.env_remove);
    if plan.clear {
        e = e.full_env(plan.set.clone());
    } else {
        for (k, v) in &plan.set {
            e = e.env(k, v);
        }
    }
    for k in &plan.unset {
        e = e.env_remove(k);
    }
    if let Some(dir) = &job.cwd {
        e = e.dir(dir);
    }
    match &job.stdin {
        StdinConfig::Inherit => {}
        StdinConfig::Null => e = e.stdin_null(),
        StdinConfig::Bytes(b) => e = e.stdin_bytes(b.clone()),
        StdinConfig::Path(p) => e = e.stdin_path(p),
    }
    match &job.stdout {
        OutputConfig::Null => e = e.stdout_null(),
        OutputConfig::File(p) => e = e.stdout_path(p),
        OutputConfig::Append(_) => panic!("appending to a file is left to the application runner"),
        OutputConfig::Inherit | OutputConfig::Capture | OutputConfig::ToOther => e = e.stdout_capture(),
    }
    match &job.stderr {
        OutputConfig::Null => e = e.stderr_null(),
        OutputConfig::File(p) => e = e.stderr_path(p),
        OutputConfig::Append(_) => panic!("appending to a file is left to the application runner"),
        OutputConfig::Inherit | OutputConfig::Capture | OutputConfig::ToOther => e = e.stderr_capture(),
    }
    e.unchecked()
}

/// Forwards what a process wrote to a stream left at `Inherit`: the bytes
/// are kept on the result and shown too.
fn reported(job: &CmdInner, code: Option<i32>, stdout: Vec<u8>, stderr: Vec<u8>) -> SpawnOutcome {
    if matches!(job.stdout, OutputConfig::Inherit) {
        let _ = std::io::stdout().write_all(&stdout);
    }
    if matches!(job.stderr, OutputConfig::Inherit) {
        let _ = std::io::stderr().write_all(&stderr);
    }
    SpawnOutcome::Exited { code, stdout, stderr }
}

fn spawn(job: &CmdInner) -> SpawnOutcome {
    if let Some(dir) = &job.cwd {
        if !Path::new(dir).exists() {
            return SpawnOutcome::CwdMissing;
        }
    }
    let e = expression(job);
    match &job.timeout {
        None => match e.run() {
            Ok(out) => reported(job, out.status.code(), out.stdout, out.stderr),
            Err(err) if err.kind() == std::io::ErrorKind::NotFound => SpawnOutcome::ProgramNotFound,
            Err(err) => SpawnOutcome::Io(err),
        },
        Some(t) => {
            let handle = match e.start() {
                Ok(h) => h,
                Err(err) if err.kind() == std::io::ErrorKind::NotFound => return SpawnOutcome::ProgramNotFound,
                Err(err) => return SpawnOutcome::Io(err),
            };
            let start = Instant::now();
            let mut signal_sent = false;
            loop {
                let (exited, out) = match handle.try_wait() {
                    Ok(Some(o)) => (true, Some(o.clone())),
                    Ok(None) => (false, None),
                    Err(err) => return SpawnOutcome::Io(err),
                };
                match t.poll(exited, signal_sent, &start.elapsed()) {
                    TimeoutAction::Finish => {
                        let out = out.unwrap();
                        return reported(job, out.status.code(), out.stdout, out.stderr);
                    }
                    TimeoutAction::TimedOut => return SpawnOutcome::TimedOut,
                    TimeoutAction::Signal { give_up, .. } => {
                        let _ = handle.kill();
                        signal_sent = true;
                        if give_up {
                            return SpawnOutcome::TimedOut;
                        }
                    }
                    TimeoutAction::KillAndGiveUp => {
                        let _ = handle.kill();
                        return SpawnOutcome::TimedOut;
                    }
                    TimeoutAction::Sleep => {}
                }
            }
        }
    }
}

fn drive<O, E>(mut ex: Execution<O, E>) -> Finished<O, E> {
    if let Some(a) = &ex.announce {
        println!("{}", a);
    }
    while !ex.is_done() {
        let outcome = match ex.job() {
            Some(job) => Some(spawn(job)),
            None => None,
        };
        ex = match outcome {
            Some(o) => ex.feed(o),
            None => ex.advance(),
        };
    }
    let f = ex.finish();
    if let Some(w) = &f.warning {
        println!("warning: {:?}", w);
    }
    f
}

fn run<O, E>(c: Cmd<O, E>) -> raxx::Result<CmdResult<O, E>> {
    drive(c.run()).into_result()
}

fn run_exit_code<O, E>(c: Cmd<O, E>) -> raxx::Result<i32> {
    drive(c.run_exit_code()).exit_code()
}

fn run_stdout<E>(c: Cmd<raxx::Captured, E>) -> raxx::Result<String> {
    drive(c.run_stdout()).stdout_text()
}

fn drive_tail(mut t: TailRun) -> raxx::Result<()> {
    let Some(pending_job) = t.job() else {
        return t.finish(None);
    };
    let mut job = pending_job.clone_for_tail();
    job.stdout = OutputConfig::Capture;
    job.stderr = OutputConfig::Capture;
    if let Some(dir) = &job.cwd {
        if !Path::new(dir).exists() {
            return t.finish(Some(TailOutcome::CwdMissing));
        }
    }
    let out = match expression(&job).run() {
        Ok(out) => out,
        Err(err) if err.kind() == std::io::ErrorKind::NotFound => return t.finish(Some(TailOutcome::ProgramNotFound)),
        Err(err) => return t.finish(Some(TailOutcome::Io(err))),
    };
    let stdout_text = String::from_utf8_lossy(&out.stdout).to_string();
    let stderr_text = String::from_utf8_lossy(&out.stderr).to_string();
    for line in stdout_text.lines().chain(stderr_text.lines()) {
        t.push_line(line.to_string());
        println!("{}", t.message(70));
    }
    let stderr_lines: Vec<&str> = stderr_text.lines().collect();
    let code = out.status.code();
    if code == Some(0) {
        println!("{}", t.done_line());
    } else {
        println!("{}", t.failed_line());
    }
    t.finish(Some(TailOutcome::Exited { code, stderr: stderr_lines.join("\n") }))
}

trait CloneForTail {
    fn clone_for_tail(&self) -> CmdInner;
}

impl CloneForTail for CmdInner {
    fn clone_for_tail(&self) -> CmdInner {
        let mut c = CmdInner::new(&self.program);
        for a in &self.args {
            c.args.push(a.clone());
        }
        for (k, v) in &self.env_vars {
            c.env_vars.push((k.clone(), v.clone()));
        }
        for k in &self.env_remove {
            c.env_remove.push(k.clone());
        }
        c.env_clear = self.env_clear;
        c.cwd = self.cwd.clone();
        c.stdin = match &self.stdin {
            StdinConfig::Inherit => StdinConfig::Inherit,
            StdinConfig::Null => StdinConfig::Null,
            StdinConfig::Bytes(b) => StdinConfig::Bytes(b.clone()),
            StdinConfig::Path(p) => StdinConfig::Path(p.clone()),
        };
        c
    }
}

fn sh(s: &str) -> Cmd {
    Cmd::shell(s)
}

fn cmd(program: &str, args: &[&str]) -> Cmd {
    Cmd::new(program).push_args(args)
}

// ============================================================================
// Basic execution
// ============================================================================

#[test]
fn test_run_success() {
    run(cmd("true", &[])).unwrap();
}

#[test]
fn test_run_failure() {
    let result = run(cmd("false", &[]));
    assert!(result.is_err());
}

#[test]
fn test_exit_code_zero() {
    let code = run_exit_code(cmd("true", &[])).unwrap();
    assert_eq!(code, 0);
}

#[test]
fn test_exit_code_nonzero() {
    let code = run_exit_code(cmd("false", &[])).unwrap();
    assert_eq!(code, 1);
}

#[test]
fn test_exit_code_custom() {
    let code = run_exit_code(sh("exit 42")).unwrap();
    assert_eq!(code, 42);
}

#[test]
fn test_output_code() {
    let result = run(sh("exit 5").no_exit_err()).unwrap();
    assert_eq!(result.code, 5);
}

#[test]
fn test_output_success() {
    let result = run(cmd("true", &[]).no_exit_err()).unwrap();
    assert!(result.success());
}

#[test]
fn test_output_failure() {
    let result = run(cmd("false", &[]).no_exit_err()).unwrap();
    assert!(!result.success());
}

// ============================================================================
// Escaping
// ============================================================================

#[test]
fn test_escape_arg_empty() {
    assert_eq!(raxx::escape_arg(""), "''");
}

#[test]
fn test_escape_arg_simple() {
    assert_eq!(raxx::escape_arg("hello"), "hello");
}

#[test]
fn test_escape_arg_with_space() {
    assert_eq!(raxx::escape_arg("hello world"), "'hello world'");
}

#[test]
fn test_escape_arg_with_single_quote() {
    let escaped = raxx::escape_arg("it's");
    assert_eq!(escaped, "'it'\"'\"'s'");
}

#[test]
fn test_escape_arg_with_special() {
    let escaped = raxx::escape_arg("$HOME");
    assert!(escaped.starts_with('\''));
}

// ============================================================================
// Redirection, chaining, exit codes
// ============================================================================

#[test]
fn test_stdout_null() {
    run(cmd("echo", &["discarded"]).quiet_stdout()).unwrap();
}

#[test]
fn test_stderr_null() {
    run(sh("echo error >&2").quiet_stderr()).unwrap();
}

#[test]
fn test_and_first_fails() {
    let code = run_exit_code(cmd("false", &[]).and(cmd("echo", &["never"]))).unwrap();
    assert_ne!(code, 0);
}

#[test]
fn test_no_exit_err() {
    let result = run(cmd("false", &[]).no_exit_err()).unwrap();
    assert_eq!(result.code, 1);
}

#[test]
fn test_no_exit_err_on_matching() {
    let result = run(sh("exit 42").no_exit_err_on(&[42])).unwrap();
    assert_eq!(result.code, 42);
}

#[test]
fn test_no_exit_err_on_non_matching() {
    let result = run(sh("exit 42").no_exit_err_on(&[1, 2, 3]));
    assert!(result.is_err());
}

#[test]
fn test_status_code_success() {
    let code = run_exit_code(cmd("true", &[])).unwrap();
    assert_eq!(code, 0);
}

#[test]
fn test_status_code_failure() {
    let code = run_exit_code(cmd("false", &[])).unwrap();
    assert_eq!(code, 1);
}

#[test]
fn test_timeout_does_not_expire() {
    run(cmd("echo", &["fast"]).timeout(Duration::from_secs(10))).unwrap();
}

#[test]
fn test_quiet_runs_silently() {
    run(cmd("echo", &["quiet"]).quiet()).unwrap();
}

#[test]
fn test_quiet_stdout() {
    run(cmd("echo", &["quiet"]).quiet_stdout()).unwrap();
}

#[test]
fn test_quiet_stderr() {
    run(sh("echo err >&2").quiet_stderr()).unwrap();
}

#[test]
fn test_shell_test_file_not_exists() {
    let code = run_exit_code(sh("test -f /nonexistent_file_xyz")).unwrap();
    assert_ne!(code, 0);
}

#[test]
fn test_shell_true() {
    let code = run_exit_code(sh("true")).unwrap();
    assert_eq!(code, 0);
}

#[test]
fn test_shell_false() {
    let code = run_exit_code(sh("false")).unwrap();
    assert_eq!(code, 1);
}

#[test]
fn test_shell_exit_wraps() {
    let code = run_exit_code(sh("exit 256")).unwrap();
    assert_eq!(code, 0);
}

#[test]
fn test_shell_exit_wraps_257() {
    let code = run_exit_code(sh("exit 257")).unwrap();
    assert_eq!(code, 1);
}

#[test]
fn test_shell_sleep() {
    run(sh("sleep 0.01")).unwrap();
}

#[test]
fn test_shell_negation() {
    let code = run_exit_code(sh("! false")).unwrap();
    assert_eq!(code, 0);
}

#[test]
fn test_shell_negation_true() {
    let code = run_exit_code(sh("! true")).unwrap();
    assert_eq!(code, 1);
}

#[test]
fn test_no_exit_err_then_check() {
    let result = run(sh("exit 42").no_exit_err()).unwrap();
    assert_eq!(result.code, 42);
}

// ============================================================================
// Glob
// ============================================================================

#[test]
fn test_glob_invalid_pattern() {
    let result = glob("[invalid");
    assert!(result.is_err());
}

#[test]
fn test_cmd_glob_invalid_pattern() {
    let result = run(Cmd::new("echo").glob("[invalid"));
    assert!(result.is_err());
}

#[test]
fn test_shell_inline_glob_no_matches_deferred() {
    // The expansion of shell!("echo {glob(\"...\")}"), written out by calls.
    let pattern = "/nonexistent_dir_xyz_99999/*.txt";
    let (files, err) = match raxx::glob::expand_glob(pattern) {
        Ok(files) => (files.escape_for_shell(), None),
        Err(f) => (String::new(), Some(raxx::glob::glob_failure_text(pattern, &f))),
    };
    let mut c = Cmd::shell(&format!("echo {files}"));
    if let Some(e) = err {
        c = c._set_deferred_error(e);
    }
    let result = run(c);
    assert!(result.is_err());
}

// ============================================================================
// run_with_tail
// ============================================================================

#[test]
fn test_run_with_tail_success() {
    drive_tail(sh("echo line1; echo line2; echo line3").run_with_tail("Running...", "Done", 3)).unwrap();
}

#[test]
fn test_run_with_tail_many_lines() {
    drive_tail(sh("seq 1 100").run_with_tail("Counting...", "Counted to 100", 5)).unwrap();
}

#[test]
fn test_run_with_tail_no_output() {
    drive_tail(cmd("true", &[]).run_with_tail("Waiting...", "Done", 3)).unwrap();
}

#[test]
fn test_run_with_tail_with_env() {
    drive_tail(sh("echo $MY_VAR").env("MY_VAR", "tail_test").run_with_tail("Env test...", "Env done", 3)).unwrap();
}

#[test]
fn test_run_with_tail_with_stdin() {
    drive_tail(cmd("cat", &[]).stdin_text("hello from stdin").run_with_tail("Stdin test...", "Stdin done", 3))
        .unwrap();
}

#[test]
fn test_run_with_tail_zero_lines() {
    drive_tail(sh("echo hidden").run_with_tail("No tail...", "Done", 0)).unwrap();
}

#[test]
fn test_run_with_tail_one_line() {
    drive_tail(sh("echo only_this").run_with_tail("One line...", "Done", 1)).unwrap();
}

#[test]
fn test_run_with_tail_binary_output() {
    drive_tail(sh("printf '\\x80\\x81\\ntext\\n'").run_with_tail("Binary...", "Done", 3)).unwrap();
}

#[test]
fn test_run_with_tail_long_lines() {
    let long = "a".repeat(500);
    drive_tail(cmd("echo", &[long.as_str()]).run_with_tail("Long...", "Done", 3)).unwrap();
}

#[test]
fn test_run_with_tail_failure() {
    let result = drive_tail(sh("echo output; exit 1").run_with_tail("Running...", "Done", 3));
    assert!(result.is_err());
    match result.unwrap_err() {
        CmdError::ExitStatus { code, .. } => assert_eq!(code, 1),
        other => panic!("Expected ExitStatus, got: {:?}", other),
    }
}

#[test]
fn test_run_with_tail_stderr_in_error() {
    let result = drive_tail(sh("echo err_msg >&2; exit 1").run_with_tail("Running...", "Done", 3));
    assert!(result.is_err());
    let err = result.unwrap_err();
    let msg = format!("{:?}", err);
    assert!(msg.contains("err_msg") || matches!(err, CmdError::ExitStatus { code: 1, .. }));
}

#[test]
fn test_run_with_tail_not_found() {
    let result = drive_tail(cmd("nonexistent_command_xyz_99999", &[]).run_with_tail("Looking...", "Found", 3));
    assert!(result.is_err());
    match result.unwrap_err() {
        CmdError::NotFound { program } => {
            assert_eq!(program, "nonexistent_command_xyz_99999");
        }
        other => panic!("Expected NotFound, got: {:?}", other),
    }
}

#[test]
fn test_run_with_tail_cwd_not_found() {
    let result = drive_tail(cmd("ls", &[]).cwd("/nonexistent_dir_xyz_99999").run_with_tail("Looking...", "Found", 3));
    assert!(result.is_err());
    match result.unwrap_err() {
        CmdError::CwdNotFound { .. } => {}
        other => panic!("Expected CwdNotFound, got: {:?}", other),
    }
}

#[test]
fn test_run_with_tail_opts() {
    drive_tail(
        sh("echo line1; echo line2").run_with_tail_opts(TailOptions::new("Custom...", "Custom done").lines(10).tick_ms(50)),
    )
    .unwrap();
}

#[test]
fn test_run_with_tail_opts_spinner() {
    drive_tail(
        cmd("echo", &["test"])
            .run_with_tail_opts(TailOptions::new("Spinning...", "Spun").spinner("⠋⠙⠹⠸⠼⠴⠦⠧⠇⠏").lines(3)),
    )
    .unwrap();
}

#[test]
fn test_run_with_tail_with_cwd() {
    drive_tail(cmd("pwd", &[]).cwd("/tmp").run_with_tail("Cwd test...", "Cwd done", 3)).unwrap();
}

// ============================================================================
// Error swallowing
// ============================================================================

#[test]
fn test_no_err_swallows_not_found() {
    let result = run(cmd("__nonexistent_command_xyz__", &[]).no_err());
    assert!(result.is_ok());
    assert_eq!(result.unwrap().code, -1);
}

#[test]
fn test_no_err_swallows_exit_code() {
    let result = run(cmd("false", &[]).no_err());
    assert!(result.is_ok());
}

#[test]
fn test_no_err_swallows_cwd_not_found() {
    let result = run(cmd("echo", &["hi"]).cwd("/nonexistent_dir_xyz_99").no_err());
    assert!(result.is_ok());
    assert_eq!(result.unwrap().code, -1);
}

#[test]
fn test_no_nothin_swallows_silently() {
    let result = run(cmd("__nonexistent_command_xyz__", &[]).no_nothin());
    assert!(result.is_ok());
    assert_eq!(result.unwrap().code, -1);
}

#[test]
fn test_no_err_with_deferred_error() {
    let result = run(cmd("echo", &[]).glob("/nonexistent_xyz_99/*.txt").no_err());
    assert!(result.is_ok());
}

#[test]
fn test_run_no_exit_err() {
    let result = drive(cmd("false", &[]).run_no_exit_err()).into_result();
    assert!(result.is_ok());
    let r = result.unwrap();
    assert_eq!(r.code, 1);
    assert!(!r.success());
}

#[test]
fn test_run_no_exit_err_still_errors_on_not_found() {
    let result = drive(cmd("__nonexistent_xyz__", &[]).run_no_exit_err()).into_result();
    assert!(result.is_err());
}

#[test]
fn test_run_ignore_code() {
    let result = drive(cmd("false", &[]).run_ignore_code()).into_result();
    assert!(result.is_ok());
    assert_eq!(result.unwrap().code, 1);
}

#[test]
fn test_run_ignore_code_success() {
    let result = drive(cmd("true", &[]).run_ignore_code()).into_result();
    assert!(result.is_ok());
    assert_eq!(result.unwrap().code, 0);
}

#[test]
fn test_cmd_ops_no_err() {
    let ops = CmdOps::new().no_err(true).no_warn(true);
    let result = run(Cmd::new("__nonexistent_xyz__").with_ops(&ops));
    assert!(result.is_ok());
}

// ============================================================================
// Errors, timeouts, options
// ============================================================================

#[test]
fn test_error_exit_status() {
    let err = run(cmd("false", &[])).unwrap_err();
    match err {
        CmdError::ExitStatus { code, .. } => assert_eq!(code, 1),
        other => panic!("Expected ExitStatus, got: {:?}", other),
    }
}

#[test]
fn test_error_not_found() {
    let err = run(cmd("nonexistent_command_xyz_12345", &[])).unwrap_err();
    match err {
        CmdError::NotFound { program } => {
            assert_eq!(program, "nonexistent_command_xyz_12345");
        }
        other => panic!("Expected NotFound, got: {:?}", other),
    }
}

#[test]
fn test_cwd_nonexistent() {
    let result = run(cmd("ls", &[]).cwd("/nonexistent_dir_12345"));
    assert!(result.is_err());
    match result.unwrap_err() {
        CmdError::CwdNotFound { path } => {
            assert!(path.contains("nonexistent"));
        }
        other => panic!("Expected CwdNotFound, got: {:?}", other),
    }
}

#[test]
fn test_timeout_expires() {
    let result = run(cmd("sleep", &["10"]).timeout(Duration::from_millis(100)));
    assert!(result.is_err());
    match result.unwrap_err() {
        CmdError::Timeout { duration } => {
            assert!(duration.as_millis() <= 200);
        }
        other => panic!("Expected Timeout, got: {:?}", other),
    }
}

#[test]
fn test_timeout_signal_sigkill() {
    let result = run(cmd("sleep", &["10"]).timeout_signal(Duration::from_millis(100), libc::SIGKILL, None));
    assert!(result.is_err());
    assert!(matches!(result.unwrap_err(), CmdError::Timeout { .. }));
}

#[test]
fn test_timeout_signal_with_grace_period() {
    let result = run(cmd("sleep", &["10"]).timeout_signal(
        Duration::from_millis(100),
        libc::SIGTERM,
        Some(Duration::from_millis(200)),
    ));
    assert!(result.is_err());
    assert!(matches!(result.unwrap_err(), CmdError::Timeout { .. }));
}

#[test]
fn test_shell_test_dir_exists() {
    let code = run_exit_code(sh(&format!("test -d {}", "/tmp"))).unwrap();
    assert_eq!(code, 0);
}

#[test]
fn test_glob_no_matches() {
    let pattern = format!("{}/*.nonexistent", "/nonexistent_dir_for_glob_xyz");
    let result = glob(&pattern);
    assert!(result.is_err());
    match result.unwrap_err() {
        CmdError::GlobNoMatches { pattern: p } => {
            assert!(p.contains("nonexistent"));
        }
        other => panic!("Expected GlobNoMatches, got: {:?}", other),
    }
}

#[test]
fn test_cmd_glob_method_no_matches() {
    let pattern = format!("{}/*.nonexistent", "/nonexistent_dir_for_glob_xyz");
    let result = run(Cmd::new("echo").glob(&pattern));
    assert!(result.is_err());
}

#[test]
fn test_cmd_ops_env() {
    let ops = CmdOps::new().env("MY_TEST_OP", "hello_ops");
    let text = run_stdout(cmd("sh", &["-c", "echo $MY_TEST_OP"]).with_ops(&ops)).unwrap();
    assert_eq!(text.trim(), "hello_ops");
}

#[test]
fn test_cmd_ops_dry() {
    let ops = CmdOps::new().dry(true);
    let result = run(cmd("echo", &["should not run"]).with_ops(&ops)).unwrap();
    assert_eq!(result.code, 0);
    assert_eq!(result.stdout_trimmed(), "");
}

#[test]
fn test_cmd_ops_reuse() {
    let ops = CmdOps::new().env("SHARED_VAR", "shared_val");
    let t1 = run_stdout(cmd("sh", &["-c", "echo $SHARED_VAR"]).with_ops(&ops)).unwrap();
    let t2 = run_stdout(cmd("sh", &["-c", "echo $SHARED_VAR"]).with_ops(&ops)).unwrap();
    assert_eq!(t1.trim(), "shared_val");
    assert_eq!(t2.trim(), "shared_val");
}

#[test]
fn test_shell_ops() {
    let ops = CmdOps::new().env("SHELL_OP_VAR", "works");
    let text = run_stdout(sh("echo $SHELL_OP_VAR").with_ops(&ops)).unwrap();
    assert_eq!(text.trim(), "works");
}

#[test]
fn test_shell_ops_dry() {
    let ops = CmdOps::new().dry(true);
    let result = run(sh("echo should not run").with_ops(&ops)).unwrap();
    assert_eq!(result.code, 0);
    assert_eq!(result.stdout_trimmed(), "");
}

#[test]
fn test_cmd_ops_with_args() {
    let ops = CmdOps::new().env("OPS_X", "42");
    let text = run_stdout(cmd("sh", &["-c", "echo $OPS_X extra"]).with_ops(&ops)).unwrap();
    assert_eq!(text.trim(), "42 extra");
}

#[test]
fn test_cmd_ops_shell_program() {
    let ops = CmdOps::new().shell_program("/bin/bash", "-c");
    let text = run_stdout(sh("echo hello from bash").with_ops(&ops)).unwrap();
    assert_eq!(text.trim(), "hello from bash");
}

#[test]
fn test_cmd_ops_shell_program_with_cmd_shell() {
    let ops = CmdOps::new().shell_program("/bin/bash", "-c");
    let text = run_stdout(raxx::Cmd::shell("echo via Cmd::shell").with_ops(&ops)).unwrap();
    assert_eq!(text.trim(), "via Cmd::shell");
}

#[test]
fn test_cmd_ops_shell_program_does_not_affect_cmd() {
    let ops = CmdOps::new().shell_program("/bin/bash", "-c");
    let text = run_stdout(cmd("echo", &["still works"]).with_ops(&ops)).unwrap();
    assert_eq!(text.trim(), "still works");
}

#[test]
fn test_cmd_ops_shell_program_with_interpolation() {
    // The expansion of shell!("echo hello {name}"; &ops), written out by calls.
    let ops = CmdOps::new().shell_program("/bin/bash", "-c");
    let name = "world";
    let name = name.escape_for_shell();
    let text = run_stdout(Cmd::shell(&format!("echo hello {name}")).with_ops(&ops)).unwrap();
    assert_eq!(text.trim(), "hello world");
}

#[test]
fn test_error_display() {
    let err = CmdError::ExitStatus { code: 1, stderr: Some("oops".to_string()) };
    let msg = err.to_string();
    assert!(msg.contains("1"));
    assert!(msg.contains("oops"));
}

#[test]
fn test_error_cwd_not_found_display() {
    let err = CmdError::CwdNotFound { path: "/no/such/dir".to_string() };
    let msg = err.to_string();
    assert!(msg.contains("/no/such/dir"));
    assert!(msg.contains("cwd"));
}

#[test]
fn test_lines() {
    let lines = run(sh("echo 'line1'; echo 'line2'; echo 'line3'")).unwrap().stdout_lines();
    assert_eq!(lines, vec!["line1", "line2", "line3"]);
}

#[test]
fn test_bytes() {
    let bytes = run(cmd("echo", &["hello"])).unwrap().stdout_bytes().to_vec();
    assert_eq!(bytes, b"hello\n");
}

#[test]
fn test_stdin_multiline() {
    let input = "line1\nline2\nline3";
    let lines = run(cmd("cat", &[]).stdin_text(input)).unwrap().stdout_lines();
    assert_eq!(lines, vec!["line1", "line2", "line3"]);
}

#[test]
fn test_stdin_binary() {
    let data: Vec<u8> = vec![0, 1, 2, 3, 255, 254, 253];
    let bytes = run(cmd("cat", &[]).stdin_bytes(data.clone())).unwrap().stdout_bytes().to_vec();
    assert_eq!(bytes, data);
}

#[test]
fn test_binary_through_pipe() {
    let data: Vec<u8> = (0..=255).collect();
    let bytes = run(cmd("cat", &[]).stdin_bytes(data.clone()).pipe(cmd("cat", &[])))
        .unwrap()
        .stdout_bytes()
        .to_vec();
    assert_eq!(bytes, data);
}

#[test]
fn test_output_stdout_lines() {
    let result = run(sh("echo line1; echo line2")).unwrap();
    let lines = result.stdout_lines();
    assert_eq!(lines, vec!["line1", "line2"]);
}

#[test]
fn test_output_stdout_text_raw() {
    let result = run(cmd("echo", &["hello"])).unwrap();
    let raw = result.stdout();
    assert_eq!(raw, "hello\n");
}

#[test]
fn test_output_stderr_text_raw() {
    let result = run(sh("echo err >&2")).unwrap();
    let raw = result.stderr();
    assert_eq!(raw, "err\n");
}

#[test]
fn test_stdout_to_stderr_moves_bytes() {
    let result = run(sh("echo out; echo err >&2").capture().redirect(raxx::Stdout, raxx::Stderr)).unwrap();
    assert_eq!(result.stderr(), "err\nout\n");
}

#[test]
fn test_pipe_into_chain_feeds_first_command() {
    let chain = cmd("grep", &["-q", "fed"]).and(cmd("echo", &["found"]));
    let text = run_stdout(cmd("echo", &["fed"]).pipe(chain)).unwrap();
    assert_eq!(text, "found\n");
}

#[test]
fn test_basic_echo() {
    let text = run(Cmd::new("echo").push_args("hello")).unwrap().stdout_trimmed();
    assert_eq!(text, "hello");
}

#[test]
fn test_echo_multiple_args() {
    let text = run(Cmd::new("echo").push_args("hello").push_args("world")).unwrap().stdout_trimmed();
    assert_eq!(text, "hello world");
}

#[test]
fn test_text_trims_output() {
    let text = run(Cmd::new("echo").push_args("  hello  ")).unwrap().stdout_trimmed();
    // echo adds a trailing newline, stdout_trimmed() trims it
    assert_eq!(text, "hello");
}

#[test]
fn test_text_multiline() {
    let text = run(Cmd::shell("echo 'line1'; echo 'line2'")).unwrap().stdout_trimmed();
    assert_eq!(text, "line1\nline2");
}

#[test]
fn test_output_stdout_and_stderr() {
    let result = run(Cmd::shell("echo out; echo err >&2")
        .no_exit_err())
        .unwrap();
    assert_eq!(result.stdout_trimmed(), "out");
    assert_eq!(result.stderr_trimmed(), "err");
}

#[test]
fn test_stdout_capture_explicit() {
    let result = run(Cmd::new("echo").push_args("hello")).unwrap();
    assert_eq!(result.stdout_trimmed(), "hello");
}

#[test]
fn test_stderr_capture_explicit() {
    let result = run(Cmd::shell("echo err >&2"))
        .unwrap();
    assert_eq!(result.stderr_trimmed(), "err");
}

#[test]
fn test_arg_with_spaces() {
    let name = "hello world";
    let text = run(Cmd::new("echo").push_args(name)).unwrap().stdout_trimmed();
    assert_eq!(text, "hello world");
}

#[test]
fn test_arg_with_single_quotes() {
    let text = run(Cmd::new("echo").push_args("it's")).unwrap().stdout_trimmed();
    assert_eq!(text, "it's");
}

#[test]
fn test_arg_with_double_quotes() {
    let text = run(Cmd::new("echo").push_args(r#"say "hello""#)).unwrap().stdout_trimmed();
    assert_eq!(text, r#"say "hello""#);
}

#[test]
fn test_arg_with_special_chars() {
    let text = run(Cmd::new("echo").push_args("hello$world")).unwrap().stdout_trimmed();
    assert_eq!(text, "hello$world");
}

#[test]
fn test_arg_with_newlines() {
    let text = run(Cmd::new("echo").push_args("line1\nline2")).unwrap().stdout_trimmed();
    assert_eq!(text, "line1\nline2");
}

#[test]
fn test_arg_with_backslash() {
    let text = run(Cmd::new("echo").push_args(r"back\slash")).unwrap().stdout_trimmed();
    assert_eq!(text, r"back\slash");
}

#[test]
fn test_arg_empty_string() {
    // An empty argument should be passed through
    let text = run(Cmd::new("printf").push_args("%s").push_args("")).unwrap().stdout_trimmed();
    assert_eq!(text, "");
}

#[test]
fn test_args_from_vec() {
    let items = vec!["a", "b", "c"];
    let text = run(Cmd::new("echo").args(&items)).unwrap().stdout_trimmed();
    assert_eq!(text, "a b c");
}

#[test]
fn test_args_mixed() {
    let extra = "extra arg";
    let text = run(Cmd::new("echo").push_args("fixed").push_args(extra)).unwrap().stdout_trimmed();
    assert_eq!(text, "fixed extra arg");
}

#[test]
fn test_cmd_first_arg_is_program() {
    let text = run(Cmd::new("echo").push_args("hello").push_args("world")).unwrap().stdout_trimmed();
    assert_eq!(text, "hello world");
}

#[test]
fn test_env_single() {
    let text = run(Cmd::shell("echo $MY_VAR")
        .env("MY_VAR", "hello"))
        .unwrap()
        .stdout_trimmed();
    assert_eq!(text, "hello");
}

#[test]
fn test_env_multiple() {
    let text = run(Cmd::shell("echo $VAR1 $VAR2")
        .env("VAR1", "hello")
        .env("VAR2", "world"))
        .unwrap()
        .stdout_trimmed();
    assert_eq!(text, "hello world");
}

#[test]
fn test_envs_iterator() {
    let text = run(Cmd::shell("echo $A $B")
        .envs(&[("A", "1"), ("B", "2")]))
        .unwrap()
        .stdout_trimmed();
    assert_eq!(text, "1 2");
}

#[test]
fn test_env_override() {
    // Set then override
    let text = run(Cmd::shell("echo $VAR")
        .env("VAR", "first")
        .env("VAR", "second"))
        .unwrap()
        .stdout_trimmed();
    assert_eq!(text, "second");
}

#[test]
fn test_env_clear() {
    let result = run(Cmd::new("env")
        .env_clear()
        .env("ONLY_THIS", "yes"))
        .unwrap();
    let text = result.stdout_trimmed();
    // Should only contain ONLY_THIS (and maybe some system ones on some platforms)
    assert!(text.contains("ONLY_THIS=yes"));
}

#[test]
fn test_env_with_spaces_in_value() {
    let text = run(Cmd::shell("echo $VAR")
        .env("VAR", "hello world"))
        .unwrap()
        .stdout_trimmed();
    assert_eq!(text, "hello world");
}

#[test]
fn test_env_with_equals_in_value() {
    let text = run(Cmd::shell("echo $VAR")
        .env("VAR", "key=value"))
        .unwrap()
        .stdout_trimmed();
    assert_eq!(text, "key=value");
}

#[test]
fn test_stdin_text() {
    let text = run(Cmd::new("cat").stdin_text("hello from stdin")).unwrap().stdout_trimmed();
    assert_eq!(text, "hello from stdin");
}

#[test]
fn test_stdin_bytes() {
    let text = run(Cmd::new("cat")
        .stdin_bytes(b"hello bytes".to_vec()))
        .unwrap()
        .stdout_trimmed();
    assert_eq!(text, "hello bytes");
}

#[test]
fn test_stdin_null() {
    // wc -c on null stdin should output 0
    let text = run(Cmd::new("wc").push_args("-c").stdin_null()).unwrap().stdout_trimmed();
    assert_eq!(text.trim(), "0");
}

#[test]
fn test_stdin_to_grep() {
    let text = run(Cmd::new("grep").push_args("hello")
        .stdin_text("hello world\ngoodbye world\nhello again"))
        .unwrap()
        .stdout_trimmed();
    assert_eq!(text, "hello world\nhello again");
}

#[test]
fn test_stderr_to_stdout() {
    let result = run(Cmd::shell("echo out; echo err >&2")
        .redirect(Stderr, Stdout))
        .unwrap();
    let text = result.stdout_trimmed();
    assert!(text.contains("out"));
    assert!(text.contains("err"));
}

#[test]
fn test_stdout_to_stderr() {
    // Capture stderr, stdout goes to stderr via redirect
    let result = run(Cmd::shell("echo out; echo err >&2")
        .redirect(Stdout, Stderr))
        .unwrap();
    let text = result.stderr_trimmed();
    assert!(text.contains("err"));
}

#[test]
fn test_pipe_simple() {
    let text = run(Cmd::new("echo").push_args("hello world")
        .pipe(Cmd::new("tr").push_args("a-z").push_args("A-Z")))
        .unwrap()
        .stdout_trimmed();
    assert_eq!(text, "HELLO WORLD");
}

#[test]
fn test_pipe_grep() {
    let text = run(Cmd::new("echo").push_args("hello\ngoodbye\nhello again")
        .pipe(Cmd::new("grep").push_args("hello")))
        .unwrap()
        .stdout_trimmed();
    assert!(text.contains("hello"));
    assert!(!text.contains("goodbye"));
}

#[test]
fn test_pipe_chain() {
    let text = run(Cmd::new("echo").push_args("3\n1\n2")
        .pipe(Cmd::new("sort"))
        .pipe(Cmd::new("head").push_args("-n").push_args("1")))
        .unwrap()
        .stdout_trimmed();
    assert_eq!(text, "1");
}

#[test]
fn test_pipe_wc() {
    let text = run(Cmd::shell("echo 'line1'; echo 'line2'; echo 'line3'")
        .pipe(Cmd::new("wc").push_args("-l")))
        .unwrap()
        .stdout_trimmed();
    assert_eq!(text.trim(), "3");
}

#[test]
fn test_pipe_with_stdin() {
    let text = run(Cmd::new("cat")
        .stdin_text("hello\nworld")
        .pipe(Cmd::new("grep").push_args("world")))
        .unwrap()
        .stdout_trimmed();
    assert_eq!(text, "world");
}

#[test]
fn test_pipe_preserves_env() {
    let text = run(Cmd::shell("echo $MY_VAR")
        .env("MY_VAR", "piped_value")
        .pipe(Cmd::new("cat")))
        .unwrap()
        .stdout_trimmed();
    assert_eq!(text, "piped_value");
}

#[test]
fn test_and_both_succeed() {
    let text = run(Cmd::new("echo").push_args("first")
        .and(Cmd::new("echo").push_args("second")))
        .unwrap()
        .stdout_trimmed();
    // and returns the output of the last successful command
    assert_eq!(text, "second");
}

#[test]
fn test_or_first_succeeds() {
    let text = run(Cmd::new("echo").push_args("first")
        .or(Cmd::new("echo").push_args("fallback")))
        .unwrap()
        .stdout_trimmed();
    assert_eq!(text, "first");
}

#[test]
fn test_or_first_fails() {
    let text = run(Cmd::new("false")
        .or(Cmd::new("echo").push_args("fallback")))
        .unwrap()
        .stdout_trimmed();
    assert_eq!(text, "fallback");
}

#[test]
fn test_then_runs_regardless() {
    let text = run(Cmd::new("false")
        .then(Cmd::new("echo").push_args("always")))
        .unwrap()
        .stdout_trimmed();
    assert_eq!(text, "always");
}

#[test]
fn test_then_first_succeeds() {
    let text = run(Cmd::new("true")
        .then(Cmd::new("echo").push_args("after")))
        .unwrap()
        .stdout_trimmed();
    assert_eq!(text, "after");
}

#[test]
fn test_chain_complex() {
    // (true && echo "a") || echo "b" -- should give "a"
    let text = run(Cmd::new("true")
        .and(Cmd::new("echo").push_args("a"))
        .or(Cmd::new("echo").push_args("b")))
        .unwrap()
        .stdout_trimmed();
    assert_eq!(text, "a");
}

#[test]
fn test_chain_complex_fallback() {
    // (false && echo "a") || echo "b" -- should give "b"
    let text = run(Cmd::new("false")
        .and(Cmd::new("echo").push_args("a"))
        .or(Cmd::new("echo").push_args("b")))
        .unwrap()
        .stdout_trimmed();
    assert_eq!(text, "b");
}

#[test]
fn test_shell_pipe() {
    let text = run(Cmd::shell("echo hello | tr a-z A-Z")).unwrap().stdout_trimmed();
    assert_eq!(text, "HELLO");
}

#[test]
fn test_shell_and() {
    let text = run(Cmd::shell("echo first && echo second")).unwrap().stdout_trimmed();
    assert_eq!(text, "first\nsecond");
}

#[test]
fn test_shell_or() {
    let text = run(Cmd::shell("false || echo fallback")).unwrap().stdout_trimmed();
    assert_eq!(text, "fallback");
}

#[test]
fn test_shell_semicolon() {
    let text = run(Cmd::shell("echo a; echo b")).unwrap().stdout_trimmed();
    assert_eq!(text, "a\nb");
}

#[test]
fn test_shell_subshell() {
    let text = run(Cmd::shell("(echo sub)")).unwrap().stdout_trimmed();
    assert_eq!(text, "sub");
}

#[test]
fn test_shell_variable() {
    let text = run(Cmd::shell("VAR=hello; echo $VAR")).unwrap().stdout_trimmed();
    assert_eq!(text, "hello");
}

#[test]
fn test_shell_export() {
    let text = run(Cmd::shell("export VAR=hello && echo $VAR")).unwrap().stdout_trimmed();
    assert_eq!(text, "hello");
}

#[test]
fn test_shell_pipe_chain() {
    let text = run(Cmd::shell("echo '3\n1\n2' | sort | head -n1")).unwrap().stdout_trimmed();
    assert_eq!(text, "1");
}

#[test]
fn test_shell_heredoc() {
    let text = run(Cmd::shell("cat <<EOF\nhello\nworld\nEOF")).unwrap().stdout_trimmed();
    assert_eq!(text, "hello\nworld");
}

#[test]
fn test_shell_backtick_substitution() {
    let text = run(Cmd::shell("echo `echo inner`")).unwrap().stdout_trimmed();
    assert_eq!(text, "inner");
}

#[test]
fn test_shell_command_substitution() {
    let text = run(Cmd::shell("echo $(echo inner)")).unwrap().stdout_trimmed();
    assert_eq!(text, "inner");
}

#[test]
fn test_stderr_captured_in_error() {
    let result = run(Cmd::shell("echo err_msg >&2; exit 1")
        .no_exit_err())
        .unwrap();
    assert_eq!(result.code, 1);
    assert!(result.stderr_trimmed().contains("err_msg"));
}

#[test]
fn test_quiet_still_captures() {
    // When you run(call).stdout_trimmed() it should still capture even with quiet
    let text = run(Cmd::new("echo").push_args("captured")).unwrap().stdout_trimmed();
    assert_eq!(text, "captured");
}

#[test]
fn test_builder_chaining() {
    let text = run(Cmd::new("echo")
        .arg("hello")
        .arg("world"))
        .unwrap()
        .stdout_trimmed();
    assert_eq!(text, "hello world");
}

#[test]
fn test_cmd_new_with_program() {
    let text = run(Cmd::new("echo").arg("test")).unwrap().stdout_trimmed();
    assert_eq!(text, "test");
}

#[test]
fn test_cmd_parse() {
    let text = run(Cmd::parse("echo hello world")).unwrap().stdout_trimmed();
    assert_eq!(text, "hello world");
}

#[test]
fn test_pipe_with_env() {
    let text = run(Cmd::shell("echo $MY_VAR")
        .env("MY_VAR", "value")
        .pipe(Cmd::new("tr").push_args("a-z").push_args("A-Z")))
        .unwrap()
        .stdout_trimmed();
    assert_eq!(text, "VALUE");
}

#[test]
fn test_stdin_text_pipe_grep() {
    let text = run(Cmd::new("cat")
        .stdin_text("apple\nbanana\ncherry")
        .pipe(Cmd::new("grep").push_args("an")))
        .unwrap()
        .stdout_trimmed();
    assert_eq!(text, "banana");
}

#[test]
fn test_env_in_chained_commands() {
    // Each command in a chain should inherit the env from the builder
    // But with our current implementation, env is set on the Cmd level
    let text = run(Cmd::shell("echo $VAR")
        .env("VAR", "hello"))
        .unwrap()
        .stdout_trimmed();
    assert_eq!(text, "hello");
}

#[test]
fn test_multiple_pipes_with_transform() {
    let text = run(Cmd::new("echo").push_args("Hello World")
        .pipe(Cmd::new("tr").push_args(" ").push_args("\n"))
        .pipe(Cmd::new("sort"))
        .pipe(Cmd::new("head").push_args("-n").push_args("1")))
        .unwrap()
        .stdout_trimmed();
    assert_eq!(text, "Hello");
}

#[test]
fn test_shell_complex_pipeline() {
    let text = run(Cmd::shell("echo 'one two three' | tr ' ' '\\n' | sort -r | head -1"))
        .unwrap()
        .stdout_trimmed();
    assert_eq!(text, "two");
}

#[test]
fn test_empty_output() {
    let text = run(Cmd::new("true")).unwrap().stdout_trimmed();
    assert_eq!(text, "");
}

#[test]
fn test_large_output() {
    // Generate a large output and verify we capture it all
    let text = run(Cmd::shell("seq 1 10000")).unwrap().stdout_trimmed();
    let lines: Vec<&str> = text.lines().collect();
    assert_eq!(lines.len(), 10000);
    assert_eq!(lines[0], "1");
    assert_eq!(lines[9999], "10000");
}

#[test]
fn test_unicode_output() {
    let text = run(Cmd::new("echo").push_args("こんにちは世界")).unwrap().stdout_trimmed();
    assert_eq!(text, "こんにちは世界");
}

#[test]
fn test_unicode_arg() {
    let arg = "café résumé naïve";
    let text = run(Cmd::new("echo").push_args(arg)).unwrap().stdout_trimmed();
    assert_eq!(text, "café résumé naïve");
}

#[test]
fn test_whitespace_preservation_in_args() {
    let text = run(Cmd::new("echo").push_args("  spaces  ")).unwrap().stdout_trimmed();
    assert_eq!(text, "spaces");
}

#[test]
fn test_tab_in_arg() {
    let text = run(Cmd::new("printf").push_args("%s").push_args("a\tb")).unwrap().stdout_trimmed();
    assert_eq!(text, "a\tb");
}

#[test]
fn test_shell_echo() {
    let text = run(Cmd::shell("echo hello")).unwrap().stdout_trimmed();
    assert_eq!(text, "hello");
}

#[test]
fn test_shell_which() {
    let text = run(Cmd::shell("which echo")).unwrap().stdout_trimmed();
    assert!(text.contains("echo"));
}

#[test]
fn test_shell_printenv() {
    let text = run(Cmd::shell("printenv MY_PRINTENV_VAR")
        .env("MY_PRINTENV_VAR", "found_it"))
        .unwrap()
        .stdout_trimmed();
    assert_eq!(text, "found_it");
}

#[test]
fn test_shell_tilde_expansion() {
    let text = run(Cmd::shell("echo ~")).unwrap().stdout_trimmed();
    assert!(text.starts_with('/'));
    assert!(!text.contains('~'));
}

#[test]
fn test_shell_variable_substitution() {
    let text = run(Cmd::shell("X=hello; echo $X")).unwrap().stdout_trimmed();
    assert_eq!(text, "hello");
}

#[test]
fn test_shell_variable_in_double_quotes() {
    let text = run(Cmd::shell("X=hello; echo \"$X world\"")).unwrap().stdout_trimmed();
    assert_eq!(text, "hello world");
}

#[test]
fn test_shell_variable_not_in_single_quotes() {
    let text = run(Cmd::shell("X=hello; echo '$X world'")).unwrap().stdout_trimmed();
    assert_eq!(text, "$X world");
}

#[test]
fn test_shell_arithmetic() {
    let text = run(Cmd::shell("echo $((2 + 3))")).unwrap().stdout_trimmed();
    assert_eq!(text, "5");
}

#[test]
fn test_shell_for_loop() {
    let text = run(Cmd::shell("for i in 1 2 3; do echo $i; done")).unwrap().stdout_trimmed();
    assert_eq!(text, "1\n2\n3");
}

#[test]
fn test_shell_if_else() {
    let text = run(Cmd::shell("if true; then echo yes; else echo no; fi"))
        .unwrap()
        .stdout_trimmed();
    assert_eq!(text, "yes");
}

#[test]
fn test_shell_if_else_false() {
    let text = run(Cmd::shell("if false; then echo yes; else echo no; fi"))
        .unwrap()
        .stdout_trimmed();
    assert_eq!(text, "no");
}

#[test]
fn test_shell_while_loop() {
    let text = run(Cmd::shell("i=0; while [ $i -lt 3 ]; do echo $i; i=$((i+1)); done"))
        .unwrap()
        .stdout_trimmed();
    assert_eq!(text, "0\n1\n2");
}

#[test]
fn test_independent_commands() {
    // Run multiple commands independently (not chained)
    let a = run(Cmd::new("echo").push_args("a")).unwrap().stdout_trimmed();
    let b = run(Cmd::new("echo").push_args("b")).unwrap().stdout_trimmed();
    assert_eq!(a, "a");
    assert_eq!(b, "b");
}

#[test]
fn test_output_reuse() {
    // Use output of one command as input to another
    let first = run(Cmd::new("echo").push_args("hello")).unwrap().stdout_trimmed();
    let text = run(Cmd::new("echo").push_args(&first)
        .pipe(Cmd::new("tr").push_args("a-z").push_args("A-Z")))
        .unwrap()
        .stdout_trimmed();
    assert_eq!(text, "HELLO");
}

#[test]
fn test_sort_unique() {
    let text = run(Cmd::new("cat")
        .stdin_text("banana\napple\ncherry\napple\nbanana")
        .pipe(Cmd::new("sort"))
        .pipe(Cmd::new("uniq")))
        .unwrap()
        .stdout_trimmed();
    assert_eq!(text, "apple\nbanana\ncherry");
}

#[test]
fn test_sed_transform() {
    let text = run(Cmd::new("echo").push_args("hello world")
        .pipe(Cmd::new("sed").push_args("s/world/rust/")))
        .unwrap()
        .stdout_trimmed();
    assert_eq!(text, "hello rust");
}

#[test]
fn test_awk_field() {
    let text = run(Cmd::new("echo").push_args("one two three")
        .pipe(Cmd::new("awk").push_args("{print $2}")))
        .unwrap()
        .stdout_trimmed();
    assert_eq!(text, "two");
}

#[test]
fn test_cut_field() {
    let text = run(Cmd::new("echo").push_args("a:b:c")
        .pipe(Cmd::new("cut").push_args("-d:").push_args("-f2")))
        .unwrap()
        .stdout_trimmed();
    assert_eq!(text, "b");
}

#[test]
fn test_env_path_lookup() {
    // Verify that commands are found via PATH
    let text = run(Cmd::new("echo").push_args("found")).unwrap().stdout_trimmed();
    assert_eq!(text, "found");
}

#[test]
fn test_absolute_path_command() {
    let text = run(Cmd::new("/bin/echo").arg("absolute")).unwrap().stdout_trimmed();
    assert_eq!(text, "absolute");
}

#[test]
fn test_fallback_on_failure() {
    let text = run(Cmd::new("false")
        .or(Cmd::new("echo").push_args("recovered")))
        .unwrap()
        .stdout_trimmed();
    assert_eq!(text, "recovered");
}

#[test]
fn test_cmd_vec_args() {
    let items = vec!["hello", "world"];
    let text = run(Cmd::new("echo").push_args(items)).unwrap().stdout_trimmed();
    assert_eq!(text, "hello world");
}

#[test]
fn test_cmd_vec_string_args() {
    let items: Vec<String> = vec!["hello".to_string(), "world".to_string()];
    let text = run(Cmd::new("echo").push_args(items)).unwrap().stdout_trimmed();
    assert_eq!(text, "hello world");
}

#[test]
fn test_cmd_slice_args() {
    let items: &[&str] = &["hello", "world"];
    let text = run(Cmd::new("echo").push_args(items)).unwrap().stdout_trimmed();
    assert_eq!(text, "hello world");
}

#[test]
fn test_cmd_array_args() {
    let text = run(Cmd::new("echo").push_args(["hello", "world"])).unwrap().stdout_trimmed();
    assert_eq!(text, "hello world");
}

#[test]
fn test_cmd_vec_with_spaces() {
    // Each element should be a separate arg, spaces preserved
    let items = vec!["hello world", "foo bar"];
    let text = run(Cmd::new("echo").push_args(items)).unwrap().stdout_trimmed();
    assert_eq!(text, "hello world foo bar");
}

#[test]
fn test_cmd_mixed_scalar_and_vec() {
    let files = vec!["b.txt", "c.txt"];
    let text = run(Cmd::new("echo").push_args("a.txt").push_args(files).push_args("d.txt")).unwrap().stdout_trimmed();
    assert_eq!(text, "a.txt b.txt c.txt d.txt");
}

#[test]
fn test_cmd_empty_vec() {
    let items: Vec<&str> = vec![];
    let text = run(Cmd::new("echo").push_args("hello").push_args(items)).unwrap().stdout_trimmed();
    assert_eq!(text, "hello");
}

#[test]
fn test_cmd_vec_as_argv_passthrough() {
    // Simulating passing part of argv through to a command
    let user_args = vec!["-l", "-a", "/tmp"];
    let text = run(Cmd::new("ls").push_args(user_args)).unwrap().stdout_trimmed();
    assert!(text.len() > 0);
}

#[test]
fn test_push_args_vec_str() {
    let args = vec!["a", "b", "c"];
    let text = run(Cmd::new("echo").push_args(args)).unwrap().stdout_trimmed();
    assert_eq!(text, "a b c");
}

#[test]
fn test_push_args_slice() {
    let args: &[&str] = &["a", "b", "c"];
    let text = run(Cmd::new("echo").push_args(args)).unwrap().stdout_trimmed();
    assert_eq!(text, "a b c");
}

/// A shell command with extra arguments appended, each escaped (the append
/// mode of shell interpolation).
fn sh_appending(base: &str, extra: Vec<Vec<String>>) -> Cmd {
    let mut s = base.to_string();
    for a in extra {
        raxx::_append_shell_args(&mut s, a);
    }
    Cmd::shell(&s)
}

fn owned(v: &[&str]) -> Vec<String> {
    v.iter().map(|x| x.to_string()).collect()
}

#[test]
fn test_large_stdin() {
    let input: String = (1..=10000).map(|i| format!("{}\n", i)).collect();
    let text = run(Cmd::new("wc").push_args("-l").stdin_text(&input)).unwrap().stdout_trimmed();
    assert_eq!(text.trim(), "10000");
}

#[test]
fn test_many_args() {
    let args: Vec<String> = (0..100).map(|i| format!("arg{}", i)).collect();
    let refs: Vec<&str> = args.iter().map(|s| s.as_str()).collect();
    let text = run(Cmd::new("echo").args(&refs)).unwrap().stdout_trimmed();
    assert!(text.contains("arg0"));
    assert!(text.contains("arg99"));
}

#[test]
fn test_shell_subshell_env_isolation() {
    // Variables set in a subshell should not leak
    let text = run(Cmd::shell("(X=inner); echo ${X:-outer}")).unwrap().stdout_trimmed();
    assert_eq!(text, "outer");
}

#[test]
fn test_shell_case() {
    let text = run(Cmd::shell("X=hello; case $X in hello) echo matched;; *) echo nope;; esac")).unwrap().stdout_trimmed();
    assert_eq!(text, "matched");
}

#[test]
fn test_shell_vec_args() {
    let items = vec!["hello", "world"];
    let text = run(sh_appending("echo", vec![owned(&items)])).unwrap().stdout_trimmed();
    assert_eq!(text, "hello world");
}

#[test]
fn test_shell_vec_with_spaces() {
    // Each element should be shell-escaped
    let items = vec!["hello world", "foo bar"];
    let text = run(sh_appending("echo", vec![owned(&items)])).unwrap().stdout_trimmed();
    assert_eq!(text, "hello world foo bar");
}

#[test]
fn test_shell_vec_with_special_chars() {
    // Shell special chars in vec elements should be escaped
    let items = vec!["$HOME", "$(whoami)"];
    let text = run(sh_appending("echo", vec![owned(&items)])).unwrap().stdout_trimmed();
    assert_eq!(text, "$HOME $(whoami)");
}

#[test]
fn test_shell_mixed_scalar_and_vec() {
    let flags = vec!["--verbose", "--all"];
    let text = run(sh_appending("echo start", vec![owned(&flags), owned(&["end"])])).unwrap().stdout_trimmed();
    assert_eq!(text, "start --verbose --all end");
}

#[test]
fn test_shell_empty_vec() {
    let items: Vec<&str> = vec![];
    let text = run(sh_appending("echo hello", vec![owned(&items)])).unwrap().stdout_trimmed();
    assert_eq!(text, "hello");
}

#[test]
fn test_shell_string_vec() {
    let items: Vec<String> = vec!["one".to_string(), "two".to_string()];
    let text = run(sh_appending("echo", vec![items])).unwrap().stdout_trimmed();
    assert_eq!(text, "one two");
}

#[test]
fn test_shell_single_quote_in_vec() {
    let items = vec!["it's", "fine"];
    let text = run(sh_appending("echo", vec![owned(&items)])).unwrap().stdout_trimmed();
    assert_eq!(text, "it's fine");
}

#[test]
fn test_shell_vec_prevents_injection() {
    // Even in shell!, vector args should be escaped and safe
    let evil = vec!["hello; rm -rf /"];
    let text = run(sh_appending("echo", vec![owned(&evil)])).unwrap().stdout_trimmed();
    assert_eq!(text, "hello; rm -rf /");
}

#[test]
fn test_shell_vec_as_argv_passthrough() {
    // Simulating passing part of argv through to a shell command
    let user_args = vec!["-l", "-a"];
    let text = run(sh_appending("ls", vec![owned(&user_args), owned(&["/tmp"])])).unwrap().stdout_trimmed();
    assert!(text.len() > 0);
}
