use raxx::cmd::{CmdInner, OutputConfig, StdinConfig, ThrowBehavior};
use raxx::exec::{finish_single, Execution, Frame, Phase, SpawnOutcome, Task, TimeoutAction};
use raxx::glob::{collect_glob_matches, glob_failure_text, GlobFailure};
use raxx::paths::sort_dedup_paths;
use raxx::pipeline::Pipeline;
use raxx::template::{
    extract_inline_calls, find_named_captures, is_rust_ident, parse_flag_if_call, parse_glob_call,
    transform_format_string,
};
use raxx::tail::{TailOutcome, TailStream};
use raxx::template::{plan_shell, ShellPlan};
use raxx::{glob_esc, Cmd, CmdError, CmdOps, CmdResult, EscapeForShell, RawOutput, TailOptions, TimeoutConfig};
use std::time::Duration;

fn exited(code: i32, out: &str, err: &str) -> SpawnOutcome {
    SpawnOutcome::Exited { code: Some(code), stdout: out.as_bytes().to_vec(), stderr: err.as_bytes().to_vec() }
}

/// Drives an execution, answering each process with the next canned outcome;
/// returns the programs that were asked for and the final result.
fn simulate<O, E>(mut ex: Execution<O, E>, mut outcomes: Vec<SpawnOutcome>) -> (Vec<String>, Result<RawOutput, CmdError>) {
    let mut asked = Vec::new();
    outcomes.reverse();
    while !ex.is_done() {
        let job = ex.job().map(|j| (j.program.clone(), j.args.clone()));
        ex = match job {
            Some((p, args)) => {
                asked.push(format!("{} {}", p, args.join(" ")).trim().to_string());
                ex.feed(outcomes.pop().expect("an outcome for every process asked for"))
            }
            None => ex.advance(),
        };
    }
    (asked, ex.finish().result)
}

/// Drives an execution like `simulate` and returns how it finished.
fn finish_with<O, E>(mut ex: Execution<O, E>, mut outcomes: Vec<SpawnOutcome>) -> raxx::exec::Finished<O, E> {
    outcomes.reverse();
    while !ex.is_done() {
        ex = if ex.job().is_some() {
            ex.feed(outcomes.pop().expect("an outcome for every process asked for"))
        } else {
            ex.advance()
        };
    }
    ex.finish()
}

#[test]
fn unit_run_success_agrees_with_run_exit_code() {
    for code in [0, 1, 3] {
        let ok = finish_with(Cmd::new("prog").run_success(), vec![exited(code, "", "")]).succeeded();
        let c = finish_with(Cmd::new("prog").run_exit_code(), vec![exited(code, "", "")]).exit_code();
        assert_eq!(c.unwrap(), code);
        assert_eq!(ok.unwrap(), code == 0);
    }
    let ok = finish_with(Cmd::new("prog").run_success(), vec![SpawnOutcome::ProgramNotFound]).succeeded();
    let c = finish_with(Cmd::new("prog").run_exit_code(), vec![SpawnOutcome::ProgramNotFound]).exit_code();
    assert!(matches!(ok, Err(CmdError::NotFound { .. })));
    assert!(matches!(c, Err(CmdError::NotFound { .. })));
}

#[test]
fn unit_run_and_forget_never_fails() {
    let f = finish_with(Cmd::new("prog").run_and_forget(), vec![SpawnOutcome::ProgramNotFound]);
    assert!(f.warning.is_none());
    let r = f.forget();
    assert_eq!(r.code, -1);
    assert!(r.stdout_data.is_empty() && r.stderr_data.is_empty());
    let f = finish_with(Cmd::new("prog").capture().run_and_forget(), vec![exited(2, "out", "err")]);
    assert!(f.warning.is_none());
    let r = f.forget();
    assert_eq!(r.code, -1);
    let f = finish_with(Cmd::new("prog").capture().run_and_forget(), vec![exited(0, "out", "")]);
    let r = f.forget();
    assert_eq!(r.code, 0);
    assert_eq!(r.stdout_data, b"out".to_vec());
}

// ---------------------------------------------------------------------------
// Escaping
// ---------------------------------------------------------------------------

#[test]
fn unit_glob_esc_examples() {
    assert_eq!(glob_esc("normal/path"), "normal/path");
    assert_eq!(glob_esc("dir[1]"), "dir[[]1[]]");
    assert_eq!(glob_esc("file*.txt"), "file[*].txt");
    assert_eq!(glob_esc("what?"), "what[?]");
}

#[test]
fn unit_escape_arg_roundtrip_through_shell_words() {
    assert_eq!(raxx::escape_arg("a b"), "'a b'");
    assert_eq!(raxx::escape_arg("plain-word_1.2/x"), "plain-word_1.2/x");
    assert_eq!(raxx::escape_arg("'"), "''\"'\"''");
}

#[test]
fn unit_escape_for_shell_vec() {
    let v = vec!["hello world", "it's", "a;b"];
    assert_eq!(v.escape_for_shell(), "'hello world' 'it'\"'\"'s' 'a;b'");
    let empty: Vec<&str> = vec![];
    assert_eq!(empty.escape_for_shell(), "");
}

#[test]
fn unit_append_shell_args() {
    let mut s = String::from("grep");
    raxx::_append_shell_args(&mut s, "hello world");
    raxx::_append_shell_args(&mut s, vec!["file.txt"]);
    assert_eq!(s, "grep 'hello world' file.txt");
}

// ---------------------------------------------------------------------------
// Format-string helpers
// ---------------------------------------------------------------------------

#[test]
fn unit_is_rust_ident() {
    assert!(is_rust_ident("verbose"));
    assert!(is_rust_ident("_x1"));
    assert!(is_rust_ident("café"));
    assert!(!is_rust_ident(""));
    assert!(!is_rust_ident("1abc"));
    assert!(!is_rust_ident("a-b"));
    assert!(!is_rust_ident("a b"));
}

#[test]
fn unit_parse_glob_call() {
    assert_eq!(parse_glob_call("glob(\"**/*.rs\")"), Some("**/*.rs".to_string()));
    assert_eq!(parse_glob_call("  glob( '*.txt' ) "), Some("*.txt".to_string()));
    assert_eq!(parse_glob_call("glob(\"\")"), Some("".to_string()));
    assert_eq!(parse_glob_call("glob(x)"), None);
    assert_eq!(parse_glob_call("glob(\"a')"), None);
    assert_eq!(parse_glob_call("globs(\"a\")"), None);
    assert_eq!(parse_glob_call("name"), None);
}

#[test]
fn unit_parse_flag_if_call() {
    assert_eq!(
        parse_flag_if_call("flag_if(\"-v\", verbose)"),
        Some(("-v".to_string(), "verbose".to_string()))
    );
    assert_eq!(
        parse_flag_if_call("flag_if('--all' ,all_files)"),
        Some(("--all".to_string(), "all_files".to_string()))
    );
    assert_eq!(parse_flag_if_call("flag_if(\"-v\", 1x)"), None);
    assert_eq!(parse_flag_if_call("flag_if(-v, verbose)"), None);
    assert_eq!(parse_flag_if_call("flag_if(\"-v\")"), None);
}

#[test]
fn unit_find_named_captures() {
    let names = find_named_captures("echo {a} {b:>3} {{x}} ${HOME} {a} {1} { c }");
    assert_eq!(names, vec!["a".to_string(), "b".to_string(), "c".to_string()]);
    assert!(find_named_captures("no braces here").is_empty());
}

#[test]
fn unit_transform_format_string() {
    let caps = vec!["a".to_string()];
    assert_eq!(transform_format_string("echo {a} ${HOME} {x} }", &caps), "echo {a} ${{HOME}} {{x}} }}");
    assert_eq!(transform_format_string("echo {{a}} {a:>3}", &caps), "echo {{a}} {a:>3}");
    assert_eq!(transform_format_string("plain text", &caps), "plain text");
}

#[test]
fn unit_transform_without_captures_renders_back() {
    let none: Vec<String> = Vec::new();
    let s = "echo ${X:-y} } { $ {a}";
    let f = transform_format_string(s, &none);
    assert_eq!(f, "echo ${{X:-y}} }} {{ $ {{a}}");
    assert_eq!(f.replace("{{", "{").replace("}}", "}"), s);
}

#[test]
fn unit_extract_inline_calls() {
    let r = extract_inline_calls("echo {glob(\"*.rs\")} {flag_if(\"-v\", v)} {{x}} ${y} {name}");
    assert_eq!(r.preprocessed, "echo {__raxx_glob_0} {__raxx_flag_0} {{x}} ${y} {name}");
    assert_eq!(r.globs.len(), 1);
    assert_eq!(r.globs[0].var_name, "__raxx_glob_0");
    assert_eq!(r.globs[0].pattern, "*.rs");
    assert_eq!(r.flag_ifs.len(), 1);
    assert_eq!(r.flag_ifs[0].var_name, "__raxx_flag_0");
    assert_eq!(r.flag_ifs[0].flag, "-v");
    assert_eq!(r.flag_ifs[0].condition, "v");
}

#[test]
fn unit_extract_many_globs_numbered() {
    let mut s = String::from("ls");
    for _ in 0..12 {
        s.push_str(" {glob('x')}");
    }
    let r = extract_inline_calls(&s);
    assert_eq!(r.globs.len(), 12);
    assert_eq!(r.globs[10].var_name, "__raxx_glob_10");
    assert!(r.preprocessed.ends_with("{__raxx_glob_11}"));
}

// ---------------------------------------------------------------------------
// Paths and glob
// ---------------------------------------------------------------------------

#[test]
fn unit_sort_dedup_paths() {
    let v = vec!["b".to_string(), "a/".to_string(), "a".to_string(), "a/b".to_string(), "/z".to_string()];
    assert_eq!(sort_dedup_paths(v), vec!["/z".to_string(), "a/".to_string(), "a/b".to_string(), "b".to_string()]);
}

#[test]
fn unit_path_order_follows_components() {
    // `.` inside a path is no component; a leading `.` and `..` come before names.
    let v = vec!["a/./b".to_string(), "a/b".to_string(), "a".to_string(), "./a".to_string(), "../a".to_string(), ".a".to_string()];
    let out = sort_dedup_paths(v.clone());
    let mut expected: Vec<std::path::PathBuf> = v.iter().map(std::path::PathBuf::from).collect();
    expected.sort();
    expected.dedup();
    let expected: Vec<String> = expected.iter().map(|p| p.to_string_lossy().to_string()).collect();
    assert_eq!(out, vec!["./a".to_string(), "../a".to_string(), ".a".to_string(), "a".to_string(), "a/./b".to_string()]);
    assert_eq!(out, expected);
    assert_eq!(raxx::paths::compare_paths("a/./b", "a/b"), 0);
    assert_eq!(raxx::paths::compare_paths("..", "a"), -1);
}

#[test]
fn unit_collect_glob_matches() {
    let entries = vec![Ok("b.rs".to_string()), Ok("a.rs".to_string()), Ok("a.rs".to_string())];
    assert_eq!(collect_glob_matches(entries).unwrap(), vec!["a.rs".to_string(), "b.rs".to_string()]);
    let failing = vec![Ok("a".to_string()), Err("denied".to_string()), Err("later".to_string())];
    match collect_glob_matches(failing) {
        Err(GlobFailure::Walk(m)) => assert_eq!(m, "denied"),
        other => panic!("unexpected {:?}", other),
    }
    assert!(matches!(collect_glob_matches(vec![]), Err(GlobFailure::NoMatches)));
}

#[test]
fn unit_glob_failure_text() {
    assert_eq!(
        glob_failure_text("x/*.txt", &GlobFailure::NoMatches),
        "Glob pattern matched zero files: x/*.txt"
    );
    assert_eq!(
        glob_failure_text("[", &GlobFailure::Pattern("bad".to_string())),
        "IO error: Invalid glob pattern: bad"
    );
    assert_eq!(glob_failure_text("x", &GlobFailure::Walk("oops".to_string())), "IO error: Glob error: oops");
}

#[test]
fn unit_glob_invalid_pattern_message() {
    match raxx::glob("[invalid") {
        Err(CmdError::Io(e)) => assert!(e.to_string().starts_with("Invalid glob pattern: ")),
        other => panic!("unexpected {:?}", other),
    }
}

#[test]
fn unit_cmd_glob_keeps_first_error() {
    let c = Cmd::new("echo").glob("[bad").glob("/nonexistent_dir_q/*");
    let d = c.inner.deferred_error.clone().unwrap();
    assert!(d.starts_with("IO error: Invalid glob pattern: "));
    assert!(c.inner.args.is_empty());
}

#[test]
fn unit_cmd_glob_appends_sorted_matches() {
    let c = Cmd::new("ls").arg("-d").glob("/bin");
    assert_eq!(c.inner.args, vec!["-d".to_string(), "/bin".to_string()]);
    assert!(c.inner.deferred_error.is_none());
}

// ---------------------------------------------------------------------------
// Builders
// ---------------------------------------------------------------------------

#[test]
fn unit_parse_splits_on_whitespace() {
    let c = Cmd::parse("  echo  hello \t world ");
    assert_eq!(c.inner.program, "echo");
    assert_eq!(c.inner.args, vec!["hello".to_string(), "world".to_string()]);
}

#[test]
fn unit_display_string() {
    let c = Cmd::new("echo").arg("hello world").arg("plain").arg("it's");
    assert_eq!(c.inner.display_string(), "echo 'hello world' plain 'it'\"'\"'s'");
}

#[test]
fn unit_push_args_kinds() {
    let c = Cmd::new("echo").push_args("a").push_args(vec!["b", "c"]).push_args(vec!["d".to_string()]);
    assert_eq!(c.inner.args, vec!["a", "b", "c", "d"]);
}

#[test]
fn unit_swap_streams_twice() {
    let c = Cmd::new("x").quiet_stdout();
    let before = format!("{:?}", c.inner);
    let d = c.swap_streams();
    assert!(matches!(d.inner.stderr, OutputConfig::Null));
    assert!(matches!(d.inner.stdout, OutputConfig::Inherit));
    let e = d.swap_streams();
    assert_eq!(format!("{:?}", e.inner), before);
}

#[test]
fn unit_capture_is_idempotent() {
    let c = Cmd::new("x").capture_stdout().capture_stdout();
    assert!(matches!(c.inner.stdout, OutputConfig::Capture));
    let q = Cmd::new("x").redirect(raxx::Stderr, raxx::Stdout);
    assert!(matches!(q.inner.stderr, OutputConfig::ToOther));
}

#[test]
fn unit_env_later_setting_wins() {
    let c = Cmd::new("x").env("K", "first").env("K", "second");
    let last = c.inner.env_vars.iter().rev().find(|(k, _)| k == "K").unwrap();
    assert_eq!(last.1, "second");
}

#[test]
fn unit_with_ops_applies_shell_and_flags() {
    let ops = CmdOps::new().shell_program("/bin/bash", "-c").verbose(true).cwd("/tmp");
    let c = Cmd::shell("echo hi").with_ops(&ops);
    assert_eq!(c.inner.program, "/bin/bash");
    assert_eq!(c.inner.args, vec!["-c".to_string(), "echo hi".to_string()]);
    assert!(c.inner.verbose);
    assert_eq!(c.inner.cwd.as_deref(), Some("/tmp"));
    let plain = Cmd::new("echo").arg("hi").with_ops(&CmdOps::new());
    assert_eq!(plain.inner.program, "echo");
    assert!(!plain.inner.verbose);
}

#[test]
fn unit_timeout_defaults() {
    let c = Cmd::new("x").timeout(Duration::from_millis(1500));
    let t = c.inner.timeout.unwrap();
    assert_eq!(t.duration, Duration::from_millis(1500));
    assert_eq!(t.signal, 15);
    assert_eq!(t.kill_after, Some(Duration::from_secs(2)));
}

// ---------------------------------------------------------------------------
// Results
// ---------------------------------------------------------------------------

#[test]
fn unit_result_accessors() {
    let r: CmdResult = CmdResult::from_raw(RawOutput {
        code: 3,
        stdout: b"  one\r\ntwo\n\n".to_vec(),
        stderr: b"err\n".to_vec(),
    });
    assert_eq!(r.stdout(), "  one\r\ntwo\n\n");
    assert_eq!(r.stdout_trimmed(), "one\r\ntwo");
    assert_eq!(r.stdout_lines(), vec!["one".to_string(), "two".to_string()]);
    assert_eq!(r.stderr_trimmed(), "err");
    assert_eq!(r.out(), "  one\r\ntwo\n\nerr\n");
    assert!(!r.success());
    let bad: CmdResult = CmdResult::from_raw(RawOutput { code: 0, stdout: vec![0x66, 0xff], stderr: vec![] });
    assert_eq!(bad.stdout(), "f\u{fffd}");
}

#[test]
fn unit_finish_single_merges_and_throws() {
    let mut job = CmdInner::new("x");
    job.stdout = OutputConfig::Capture;
    job.stderr = OutputConfig::ToOther;
    let r = finish_single(&job, exited(0, "out", "err")).unwrap();
    assert_eq!(r.stdout, b"outerr".to_vec());
    assert!(r.stderr.is_empty());

    let mut job = CmdInner::new("x");
    job.stderr = OutputConfig::Capture;
    match finish_single(&job, exited(2, "", "boom")) {
        Err(CmdError::ExitStatus { code, stderr }) => {
            assert_eq!(code, 2);
            assert_eq!(stderr.as_deref(), Some("boom"));
        }
        other => panic!("unexpected {:?}", other),
    }
    job.throw = ThrowBehavior::NoThrowOn(vec![2]);
    assert_eq!(finish_single(&job, exited(2, "", "boom")).unwrap().code, 2);
    match finish_single(&job, SpawnOutcome::Exited { code: None, stdout: vec![], stderr: vec![] }) {
        Err(CmdError::ExitStatus { code, stderr }) => {
            assert_eq!(code, -1);
            assert!(stderr.is_none());
        }
        other => panic!("unexpected {:?}", other),
    }
}

// ---------------------------------------------------------------------------
// The evaluation of pipelines and chains
// ---------------------------------------------------------------------------

#[test]
fn unit_and_stops_after_failure() {
    let c = Cmd::new("false").and(Cmd::new("echo").arg("never"));
    let (asked, result) = simulate(c.run(), vec![exited(1, "", "")]);
    assert_eq!(asked, vec!["false"]);
    assert!(matches!(result, Err(CmdError::ExitStatus { code: 1, .. })));
}

#[test]
fn unit_and_runs_both_on_success() {
    let c = Cmd::new("true").and(Cmd::new("echo").arg("second")).capture();
    let (asked, result) = simulate(c.run(), vec![exited(0, "", ""), exited(0, "second\n", "")]);
    assert_eq!(asked, vec!["true", "echo second"]);
    assert_eq!(result.unwrap().stdout, b"second\n".to_vec());
}

#[test]
fn unit_or_skips_right_after_success() {
    let c = Cmd::new("echo").arg("first").or(Cmd::new("echo").arg("fallback")).capture();
    let (asked, result) = simulate(c.run(), vec![exited(0, "first\n", "")]);
    assert_eq!(asked, vec!["echo first"]);
    assert_eq!(result.unwrap().stdout, b"first\n".to_vec());
}

#[test]
fn unit_or_runs_right_after_failure() {
    let c = Cmd::new("false").or(Cmd::new("echo").arg("fallback")).capture();
    let (asked, result) = simulate(c.run(), vec![exited(1, "", ""), exited(0, "fallback\n", "")]);
    assert_eq!(asked, vec!["false", "echo fallback"]);
    assert_eq!(result.unwrap().stdout, b"fallback\n".to_vec());
}

#[test]
fn unit_then_runs_regardless() {
    let c = Cmd::new("false").then(Cmd::new("echo").arg("always")).capture();
    let (asked, result) = simulate(c.run(), vec![exited(1, "", ""), exited(0, "always\n", "")]);
    assert_eq!(asked, vec!["false", "echo always"]);
    assert_eq!(result.unwrap().stdout, b"always\n".to_vec());
}

#[test]
fn unit_chain_complex_fallback() {
    let c = Cmd::new("false").and(Cmd::new("echo").arg("a")).or(Cmd::new("echo").arg("b")).capture();
    let (asked, result) = simulate(c.run(), vec![exited(1, "", ""), exited(0, "b\n", "")]);
    assert_eq!(asked, vec!["false", "echo b"]);
    assert_eq!(result.unwrap().stdout, b"b\n".to_vec());
}

#[test]
fn unit_pipe_feeds_stdout_to_stdin() {
    let c = Cmd::new("echo").arg("hi").pipe(Cmd::new("tr").arg("a-z").arg("A-Z")).capture();
    let mut ex = c.run();
    let mut seen_stdin = None;
    let mut outcomes = vec![exited(0, "HI\n", ""), exited(0, "hi\n", "")];
    while !ex.is_done() {
        let stdin = ex.job().map(|j| match &j.stdin {
            StdinConfig::Bytes(b) => Some(b.clone()),
            _ => None,
        });
        ex = match stdin {
            Some(s) => {
                if s.is_some() {
                    seen_stdin = s;
                }
                ex.feed(outcomes.pop().unwrap())
            }
            None => ex.advance(),
        };
    }
    assert_eq!(seen_stdin, Some(b"hi\n".to_vec()));
    assert_eq!(ex.finish().result.unwrap().stdout, b"HI\n".to_vec());
}

#[test]
fn unit_pipe_left_error_ends_pipe() {
    let c = Cmd::new("false").pipe(Cmd::new("cat"));
    let (asked, result) = simulate(c.run(), vec![exited(1, "", "")]);
    assert_eq!(asked, vec!["false"]);
    assert!(result.is_err());
}

#[test]
fn unit_three_stage_pipe_runs_in_order() {
    let c = Cmd::new("a").pipe(Cmd::new("b")).pipe(Cmd::new("c")).capture();
    let (asked, result) = simulate(c.run(), vec![exited(0, "1", ""), exited(0, "2", ""), exited(0, "3", "")]);
    assert_eq!(asked, vec!["a", "b", "c"]);
    assert_eq!(result.unwrap().stdout, b"3".to_vec());
}

#[test]
fn unit_run_exit_code_of_chain_discards_stdout() {
    let c = Cmd::new("false").and(Cmd::new("echo"));
    let (_, result) = simulate(c.run_exit_code(), vec![exited(1, "", "")]);
    assert_eq!(result.unwrap().code, 1);
}

#[test]
fn unit_dry_and_deferred_need_no_process() {
    let ops = CmdOps::new().dry(true);
    let (asked, result) = simulate(Cmd::new("rm").arg("-rf").with_ops(&ops).run(), vec![]);
    assert!(asked.is_empty());
    assert_eq!(result.unwrap().code, 0);
    let (asked, result) = simulate(Cmd::new("echo")._set_deferred_error("kept".to_string()).run(), vec![]);
    assert!(asked.is_empty());
    match result {
        Err(CmdError::Io(e)) => assert_eq!(e.to_string(), "kept"),
        other => panic!("unexpected {:?}", other),
    }
}

#[test]
fn unit_verbose_announces_command() {
    let ex = Cmd::new("echo").arg("a b").with_ops(&CmdOps::new().verbose(true)).run();
    assert_eq!(ex.announce.as_deref(), Some("$ echo 'a b'"));
}

#[test]
fn unit_no_err_turns_errors_into_code() {
    let ex = Cmd::new("missing").no_err().run();
    let mut ex = ex.feed(SpawnOutcome::ProgramNotFound);
    assert!(ex.is_done());
    let f = ex.finish();
    assert_eq!(f.result.unwrap().code, -1);
    assert!(matches!(f.warning, Some(CmdError::NotFound { .. })));
    ex = Cmd::new("missing").no_nothin().run().feed(SpawnOutcome::ProgramNotFound);
    assert!(ex.finish().warning.is_none());
    let quiet = Cmd::new("false").no_err().run().feed(exited(1, "", "")).finish();
    assert_eq!(quiet.result.unwrap().code, -1);
    assert!(quiet.warning.is_none());
    let denied = std::io::Error::new(std::io::ErrorKind::PermissionDenied, "denied");
    let loud = Cmd::new("x").no_err().run().feed(SpawnOutcome::Io(denied)).finish();
    assert!(matches!(loud.warning, Some(CmdError::Io(_))));
}

#[test]
fn unit_pipeline_execute_starts_at_the_root() {
    let p = Pipeline::And(
        Box::new(Cmd::new("true").into_pipeline()),
        Box::new(Cmd::new("echo").into_pipeline()),
    );
    let ex: Execution = p.execute(true, false);
    assert!(matches!(ex.phase, Phase::Start(Task::Exec(Pipeline::And(..), true, false))));
    let ex = ex.advance();
    assert!(matches!(ex.frames.last(), Some(Frame::AndThen(_, true, false))));
}

#[test]
fn unit_timeout_poll_decisions() {
    let t = TimeoutConfig { duration: Duration::from_millis(100), signal: 15, kill_after: Some(Duration::from_millis(50)) };
    assert!(matches!(t.poll(false, false, &Duration::from_millis(10)), TimeoutAction::Sleep));
    assert!(matches!(
        t.poll(false, false, &Duration::from_millis(100)),
        TimeoutAction::Signal { signal: 15, kill_now: false, give_up: false }
    ));
    assert!(matches!(t.poll(false, true, &Duration::from_millis(120)), TimeoutAction::Sleep));
    assert!(matches!(t.poll(false, true, &Duration::from_millis(150)), TimeoutAction::KillAndGiveUp));
    assert!(matches!(t.poll(true, true, &Duration::from_millis(150)), TimeoutAction::TimedOut));
    assert!(matches!(t.poll(true, false, &Duration::from_millis(1)), TimeoutAction::Finish));
    let n = TimeoutConfig { duration: Duration::from_millis(5), signal: 15, kill_after: None };
    assert!(matches!(n.poll(false, false, &Duration::from_millis(6)), TimeoutAction::Signal { signal: 15, kill_now: true, give_up: true }));
    let k = TimeoutConfig { duration: Duration::from_millis(5), signal: 9, kill_after: Some(Duration::from_millis(50)) };
    assert!(matches!(k.poll(false, false, &Duration::from_millis(5)), TimeoutAction::Signal { signal: 9, kill_now: false, give_up: true }));
}

// ---------------------------------------------------------------------------
// Tail runs
// ---------------------------------------------------------------------------

#[test]
fn unit_tail_keeps_last_lines() {
    let mut t = Cmd::new("x").run_with_tail("T", "D", 2);
    for l in ["a", "b", "c"] {
        t.push_line(l.to_string());
    }
    assert_eq!(t.tail, vec!["b".to_string(), "c".to_string()]);
    assert_eq!(t.message(80), "T\n     \x1b[2mb\x1b[0m\n     \x1b[2mc\x1b[0m");
    let mut z = Cmd::new("x").run_with_tail("T", "D", 0);
    z.push_line("hidden".to_string());
    assert!(z.tail.is_empty());
    assert_eq!(z.message(80), "T");
}

#[test]
fn unit_tail_message_cuts_long_lines() {
    let mut t = Cmd::new("x").run_with_tail("T", "D", 3);
    t.push_line("abcdefgh".to_string());
    assert_eq!(t.message(5), "T\n     \x1b[2mabcd…\x1b[0m");
    assert_eq!(t.message(8), "T\n     \x1b[2mabcdefgh\x1b[0m");
}

#[test]
fn unit_tail_lines_and_result() {
    let t = Cmd::new("x").arg("y z").run_with_tail("Work", "Finished", 3);
    assert_eq!(t.done_line(), "  \x1b[32m✓\x1b[0m  Finished");
    assert_eq!(t.failed_line(), "  \x1b[31m✗\x1b[0m  Work: failed");
    match t.finish(Some(TailOutcome::Exited { code: Some(4), stderr: "  bad\n".to_string() })) {
        Err(CmdError::ExitStatus { code, stderr }) => {
            assert_eq!(code, 4);
            assert_eq!(stderr.as_deref(), Some("x 'y z'\nbad"));
        }
        other => panic!("unexpected {:?}", other),
    }
    let t = Cmd::new("x").run_with_tail("Work", "Finished", 3);
    assert!(t.finish(Some(TailOutcome::Exited { code: Some(0), stderr: "noise".to_string() })).is_ok());
}

#[test]
fn unit_tail_options_builders() {
    let o = TailOptions::new("a", "b").lines(7).spinner("ab").tick_ms(20).stream(TailStream::StderrOnly);
    assert_eq!(o.title, "a");
    assert_eq!(o.done, "b");
    assert_eq!(o.tail_lines, 7);
    assert_eq!(o.spinner_chars, "ab");
    assert_eq!(o.tick_ms, 20);
    assert_eq!(o.stream, TailStream::StderrOnly);
    let d = TailOptions::new("a", "b");
    assert_eq!(d.spinner_chars, "◒◐◓◑◒");
    assert_eq!(d.tail_lines, 5);
    assert_eq!(d.tick_ms, 80);
    assert_eq!(d.stream, TailStream::Both);
}

#[test]
fn unit_tail_deferred_error_is_pending() {
    let t = Cmd::new("echo").glob("[bad").run_with_tail("a", "b", 1);
    assert!(matches!(t.pending, Some(CmdError::Io(_))));
    assert!(t.job().is_none());
    assert!(matches!(t.finish(None), Err(CmdError::Io(_))));
}

#[test]
fn unit_error_messages() {
    assert_eq!(CmdError::ExitStatus { code: -3, stderr: None }.to_string(), "Exited with code: -3");
    assert_eq!(
        CmdError::ExitStatus { code: 2, stderr: Some("bad".to_string()) }.to_string(),
        "Exited with code: 2\nstderr: bad"
    );
    assert_eq!(CmdError::ExitStatus { code: 2, stderr: Some(String::new()) }.to_string(), "Exited with code: 2");
    assert_eq!(CmdError::Signal { signal: 9 }.to_string(), "Killed by signal: 9");
    assert_eq!(CmdError::Timeout { duration: Duration::from_millis(100) }.to_string(), "Timed out after 0.1s");
    assert_eq!(CmdError::NotFound { program: "zz".to_string() }.to_string(), "Command not found: zz");
    assert_eq!(
        CmdError::BrokenPipe { upstream_code: i32::MIN }.to_string(),
        "Stdin pipe broken. Upstream exited with code: -2147483648"
    );
    assert_eq!(
        CmdError::GlobNoMatches { pattern: "*.x".to_string() }.to_string(),
        "Glob pattern matched zero files: *.x"
    );
    let io = CmdError::Io(std::io::Error::new(std::io::ErrorKind::Other, "kept"));
    assert_eq!(io.to_string(), "IO error: kept");
}

#[test]
fn unit_plan_shell() {
    assert!(matches!(plan_shell("echo hi", false), ShellPlan::Plain));
    assert!(matches!(plan_shell("grep", true), ShellPlan::Append));
    match plan_shell("echo {name} {glob(\"*.rs\")} ${HOME} {x:?}", false) {
        ShellPlan::Interpolate { format, captures, calls } => {
            assert_eq!(captures, vec!["name".to_string(), "x".to_string()]);
            assert_eq!(calls.globs.len(), 1);
            assert_eq!(format, "echo {name} {__raxx_glob_0} ${{HOME}} {x:?}");
        }
        other => panic!("unexpected {:?}", other),
    }
}

#[test]
fn unit_array_arguments() {
    let c = Cmd::new("echo").push_args(["a", "b c"]);
    assert_eq!(c.inner.args, vec!["a".to_string(), "b c".to_string()]);
    assert_eq!(["x y", "z"].escape_for_shell(), "'x y' z");
}

#[test]
fn unit_plain_format_strings_pass_through() {
    let r = extract_inline_calls("echo plain words");
    assert_eq!(r.preprocessed, "echo plain words");
    assert!(r.globs.is_empty() && r.flag_ifs.is_empty());
    assert_eq!(Cmd::parse("   ").inner.program, "");
}

#[test]
fn unit_pipe_into_chain_feeds_its_first_command() {
    let chain = Cmd::new("b").and(Cmd::new("c"));
    let mut ex = Cmd::new("a").pipe(chain).capture().run();
    let mut stdins = Vec::new();
    let mut outcomes = vec![exited(0, "from c", ""), exited(0, "", ""), exited(0, "from a", "")];
    while !ex.is_done() {
        let seen = ex.job().map(|j| match &j.stdin {
            StdinConfig::Bytes(b) => Some(b.clone()),
            _ => None,
        });
        ex = match seen {
            Some(s) => {
                stdins.push(s);
                ex.feed(outcomes.pop().unwrap())
            }
            None => ex.advance(),
        };
    }
    assert_eq!(stdins, vec![None, Some(b"from a".to_vec()), None]);
    assert_eq!(ex.finish().result.unwrap().stdout, b"from c".to_vec());
}

#[test]
fn unit_stdout_sent_to_stderr() {
    let mut job = CmdInner::new("x");
    job.stdout = OutputConfig::ToOther;
    job.stderr = OutputConfig::Capture;
    let r = finish_single(&job, exited(0, "out", "err")).unwrap();
    assert!(r.stdout.is_empty());
    assert_eq!(r.stderr, b"errout".to_vec());
}

#[test]
fn unit_env_plan_keeps_last_setting_and_drops_removed_names() {
    let vars = vec![
        ("A".to_string(), "1".to_string()),
        ("B".to_string(), "2".to_string()),
        ("A".to_string(), "3".to_string()),
        ("C".to_string(), "4".to_string()),
    ];
    let removed = vec!["B".to_string()];
    let p = raxx::env::env_plan(true, &vars, &removed);
    assert!(p.clear);
    let mut set = p.set.clone();
    set.sort();
    assert_eq!(set, vec![("A".to_string(), "3".to_string()), ("C".to_string(), "4".to_string())]);
    assert_eq!(p.unset, vec!["B".to_string()]);
    let q = raxx::env::env_plan(false, &Vec::new(), &Vec::new());
    assert!(!q.clear && q.set.is_empty() && q.unset.is_empty());
}

#[test]
fn unit_redirect_to_paths() {
    let p = std::path::PathBuf::from("/tmp/out.txt");
    let c = Cmd::new("x").redirect(raxx::Stdout, p.clone());
    assert!(matches!(&c.inner.stdout, OutputConfig::File(f) if f == "/tmp/out.txt"));
    let c = Cmd::new("x").redirect(raxx::Stderr, p.as_path());
    assert!(matches!(&c.inner.stderr, OutputConfig::File(f) if f == "/tmp/out.txt"));
    let c = Cmd::new("x").redirect(raxx::Stdout, &p);
    assert!(matches!(&c.inner.stdout, OutputConfig::File(f) if f == "/tmp/out.txt"));
    let c = Cmd::new("x").redirect(raxx::Stdout, raxx::Append(p.clone()));
    assert!(matches!(&c.inner.stdout, OutputConfig::Append(f) if f == "/tmp/out.txt"));
    let name = "log.txt".to_string();
    let c = Cmd::new("x").redirect(raxx::Stderr, &name);
    assert!(matches!(&c.inner.stderr, OutputConfig::File(f) if f == "log.txt"));
}

#[test]
fn unit_try_plan_shell_refuses_a_lone_quote() {
    assert!(raxx::template::try_extract_inline_calls("echo {glob(\")}").is_none());
    assert!(raxx::template::try_plan_shell("echo {flag_if(\", v)}", false).is_none());
    let calls = raxx::template::try_extract_inline_calls("echo {glob(\"*.rs\")}").unwrap();
    assert_eq!(calls.preprocessed, "echo {__raxx_glob_0}");
    assert!(matches!(raxx::template::try_plan_shell("echo hi", true), Some(ShellPlan::Append)));
    let broken: Vec<char> = "glob(')".chars().collect();
    assert!(raxx::template::glob_call_broken_chars(&broken));
}
