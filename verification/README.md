# raxx

A shell-scripting library: build commands (`Cmd::new`, `Cmd::shell`,
`Cmd::parse`), configure them (arguments, environment, working directory,
stdin, redirects, exit-code handling, timeouts, shared `CmdOps`), chain them
(`pipe`, `and`, `or`, `then`) and run them.

The library in `src/` is verified with Verus. It decides everything and
touches nothing: running a command returns an `Execution`, a state machine
that asks for one process at a time (`job`), takes back what that process
reported (`feed`) and otherwise steps (`advance`) until it is done
(`finish`). `app/` runs the processes with `std::process`, writes redirected
files, shows the spinner of `run_with_tail`, and parses JSON.

Output that is neither captured nor redirected is forwarded to the terminal
as it comes and also kept on the result, so `cmd!("echo", "hi").run()?`
both prints `hi` and hands it back; `.capture()` keeps it without printing.

Layout of `src/`:

- `cmd.rs` — the command builder and its configuration types.
- `exec.rs` — the execution state machine, single-process results, timeouts.
- `evaluation.rs` — the meaning of pipelines and chains, and the proof that
  the state machine computes it.
- `escape.rs`, `glob.rs`, `paths.rs` — shell escaping, glob expansion and
  escaping, path ordering (component by component, as `Path` orders paths).
- `template.rs` — the format-string analysis behind `shell!` interpolation
  (`plan_shell` and its helpers). The `shell!` macro itself is not part of
  this crate: a procedural macro needs a crate of its own. A caller that renders a plan
  escapes each interpolated value with `escape_arg` / `escape_for_shell`,
  and the escaping is verified for one argument at a time.
- `tail.rs` — running with a spinner and the tail of the output.
- `result.rs`, `error.rs`, `env.rs`, `text.rs`, `time.rs` — results, errors
  and their messages, environment settings and the plan of a child's
  environment (`env_plan`), string helpers, durations.
