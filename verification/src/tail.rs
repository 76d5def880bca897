use vstd::prelude::*;
use vstd::string::StringSliceAdditionalSpecFns;
use vstd::utf8::{decode_utf8, encode_utf8, is_char_boundary};

use crate::cmd::{Cmd, CmdInner};
use crate::error::{CmdError, io_error_other, new_io_error_other};
use crate::escape::push_str;
use crate::text::{push_char, strs, trimmed};
use std::collections::VecDeque;

verus! {

/// Which streams to tail while a command runs with a spinner.
#[derive(Debug, Clone, Copy, PartialEq, Eq, Structural)]
pub enum TailStream {
    /// Tail both stdout and stderr (merged, interleaved).
    Both,
    /// Tail only stdout; capture stderr in background.
    StdoutOnly,
    /// Tail only stderr; discard stdout.
    StderrOnly,
}

/// Options for running a command with a spinner and the tail of its output.
#[derive(Debug)]
pub struct TailOptions {
    /// Message shown on the spinner while running.
    pub title: String,
    /// Message printed on success.
    pub done: String,
    /// Number of trailing lines to display below the spinner.
    pub tail_lines: usize,
    /// Spinner tick characters.
    pub spinner_chars: String,
    /// Spinner tick interval in milliseconds.
    pub tick_ms: u64,
    /// Which streams to tail.
    pub stream: TailStream,
}

/// The default spinner characters.
pub open spec fn default_spinner() -> Seq<char> {
    seq!['◒', '◐', '◓', '◑', '◒']
}

impl TailOptions {
    /// Create new tail options with the given title and done message: five
    /// trailing lines, the default spinner ticking every 80 ms, both streams.
    pub fn new(title: &str, done: &str) -> (o: Self)
        ensures
            o.title@ == title@,
            o.done@ == done@,
            o.tail_lines == 5,
            o.spinner_chars@ == default_spinner(),
            o.tick_ms == 80,
            o.stream == TailStream::Both,
    {
        let mut sp = String::new();
        push_char(&mut sp, '◒');
        push_char(&mut sp, '◐');
        push_char(&mut sp, '◓');
        push_char(&mut sp, '◑');
        push_char(&mut sp, '◒');
        assert(sp@ =~= default_spinner());
        TailOptions {
            title: String::from_str(title),
            done: String::from_str(done),
            tail_lines: 5,
            spinner_chars: sp,
            tick_ms: 80,
            stream: TailStream::Both,
        }
    }

    /// Set the number of trailing lines to show.
    pub fn lines(self, n: usize) -> (o: Self)
        ensures
            o == (TailOptions { tail_lines: n, ..self }),
    {
        TailOptions { tail_lines: n, ..self }
    }

    /// Set the spinner characters.
    pub fn spinner(self, chars: &str) -> (o: Self)
        ensures
            o.spinner_chars@ == chars@,
            o == (TailOptions { spinner_chars: o.spinner_chars, ..self }),
    {
        TailOptions { spinner_chars: String::from_str(chars), ..self }
    }

    /// Set the spinner tick interval in milliseconds.
    pub fn tick_ms(self, ms: u64) -> (o: Self)
        ensures
            o == (TailOptions { tick_ms: ms, ..self }),
    {
        TailOptions { tick_ms: ms, ..self }
    }

    /// Set which streams to tail.
    pub fn stream(self, stream: TailStream) -> (o: Self)
        ensures
            o == (TailOptions { stream, ..self }),
    {
        TailOptions { stream, ..self }
    }
}

/// The last `n` lines (all of them when there are fewer).
pub open spec fn last_lines(lines: Seq<Seq<char>>, n: nat) -> Seq<Seq<char>> {
    if lines.len() <= n {
        lines
    } else {
        lines.skip(lines.len() - n)
    }
}

/// `a - b`, or 0 when `b` is larger.
pub open spec fn saturating_sub(a: nat, b: nat) -> nat {
    if a >= b { (a - b) as nat } else { 0 }
}

/// A line as shown under the spinner: cut to `width` bytes (one byte kept
/// for an ellipsis) when it is longer.
pub open spec fn shown_tail_line(line: Seq<char>, width: nat) -> Seq<char> {
    let b = encode_utf8(line);
    if b.len() > width {
        decode_utf8(b.take(saturating_sub(width, 1) as int)) + seq!['…']
    } else {
        line
    }
}

/// Whether cutting a line to `width` bytes falls on a character boundary
/// (always so for a line that is not cut).
pub open spec fn cuts_cleanly(line: Seq<char>, width: nat) -> bool {
    let b = encode_utf8(line);
    b.len() > width ==> is_char_boundary(b, saturating_sub(width, 1) as int)
}

/// One tail line of the spinner message: on its own line, indented, dimmed.
pub open spec fn tail_entry(line: Seq<char>, width: nat) -> Seq<char> {
    seq!['\n', ' ', ' ', ' ', ' ', ' ', '\x1b', '[', '2', 'm'] + shown_tail_line(line, width) + seq!['\x1b', '[', '0', 'm']
}

/// The tail lines as shown under the spinner.
pub open spec fn tail_entries(lines: Seq<Seq<char>>, width: nat) -> Seq<char>
    decreases lines.len(),
{
    if lines.len() == 0 {
        seq![]
    } else {
        tail_entries(lines.drop_last(), width) + tail_entry(lines.last(), width)
    }
}

/// A command being run with a spinner: the process to start, the options,
/// the lines of output kept so far, and an error found before starting.
pub struct TailRun {
    pub job: CmdInner,
    pub opts: TailOptions,
    pub tail: VecDeque<String>,
    pub pending: Option<CmdError>,
}

/// What running the process of a tailed command reported.
#[derive(Debug)]
pub enum TailOutcome {
    /// The configured working directory does not exist.
    CwdMissing,
    /// The program could not be found.
    ProgramNotFound,
    /// Spawning, feeding stdin or waiting failed.
    Io(std::io::Error),
    /// The process exited (`code` is `None` when a signal ended it), with
    /// the stderr lines it printed joined by newlines.
    Exited { code: Option<i32>, stderr: String },
}

/// How a tailed command's run ends.
pub open spec fn tail_result_ok(job: CmdInner, outcome: TailOutcome, r: Result<(), CmdError>) -> bool {
    match outcome {
        TailOutcome::CwdMissing => r matches Err(CmdError::CwdNotFound { path }) && (job.cwd matches Some(c) ==> path@ == c@)
            && (job.cwd is None ==> path@.len() == 0),
        TailOutcome::ProgramNotFound => r matches Err(CmdError::NotFound { program }) && program@ == job.program@,
        TailOutcome::Io(e) => r == Err::<(), CmdError>(CmdError::Io(e)),
        TailOutcome::Exited { code, stderr } => {
            if code == Some(0i32) {
                r is Ok
            } else {
                &&& r matches Err(CmdError::ExitStatus { code: c, stderr: msg })
                &&& c == crate::exec::reported_code(code)
                &&& if trimmed(stderr@).len() == 0 {
                    msg is None
                } else {
                    msg matches Some(m) && m@ == crate::cmd::display_text(job.program@, strs(job.args@)) + seq!['\n']
                        + trimmed(stderr@)
                }
            }
        },
    }
}

impl<O, E> Cmd<O, E> {
    /// Run the command with a spinner that streams its last `tail_lines`
    /// lines of output: returns the run, which the caller drives.
    pub fn run_with_tail(self, title: &str, done: &str, tail_lines: usize) -> (t: TailRun)
        ensures
            t.opts.title@ == title@,
            t.opts.done@ == done@,
            t.opts.tail_lines == tail_lines,
            t.opts.spinner_chars@ == default_spinner(),
            t.opts.tick_ms == 80,
            t.opts.stream == TailStream::Both,
            t.job == self.inner,
            t.tail@.len() == 0,
            self.inner.deferred_error matches Some(m) ==> t.pending == Some(CmdError::Io(io_error_other(m@))),
            self.inner.deferred_error is None ==> t.pending is None,
    {
        let opts = TailOptions::new(title, done).lines(tail_lines);
        self.run_with_tail_opts(opts)
    }

    /// Run the command with a spinner, under the given options: returns the
    /// run, which the caller drives. An error kept from building the command
    /// is reported before anything starts.
    pub fn run_with_tail_opts(self, opts: TailOptions) -> (t: TailRun)
        ensures
            t.opts == opts,
            t.job == self.inner,
            t.tail@.len() == 0,
            self.inner.deferred_error matches Some(m) ==> t.pending == Some(CmdError::Io(io_error_other(m@))),
            self.inner.deferred_error is None ==> t.pending is None,
    {
        let pending = match &self.inner.deferred_error {
            Some(m) => Some(CmdError::Io(new_io_error_other(m.clone()))),
            None => None,
        };
        TailRun { job: self.inner, opts, tail: VecDeque::new(), pending }
    }
}

impl TailRun {
    /// Takes one more line of output, keeping only the last lines asked for.
    pub fn push_line(&mut self, line: String)
        ensures
            strs(final(self).tail@) == last_lines(strs(old(self).tail@).push(line@), old(self).opts.tail_lines as nat),
            final(self).job == old(self).job,
            final(self).opts == old(self).opts,
            final(self).pending == old(self).pending,
    {
        let ghost before = strs(self.tail@);
        let n = self.opts.tail_lines;
        self.tail.push_back(line);
        let ghost full = strs(self.tail@);
        assert(full =~= before.push(line@));
        while self.tail.len() > n
            invariant
                n == self.opts.tail_lines,
                self.job == old(self).job,
                self.opts == old(self).opts,
                self.pending == old(self).pending,
                full == strs(old(self).tail@).push(line@),
                self.tail@.len() <= full.len(),
                strs(self.tail@) == full.skip(full.len() - self.tail@.len()),
                self.tail@.len() == full.len() || self.tail@.len() >= n,
            decreases self.tail@.len(),
        {
            let ghost b = self.tail@;
            self.tail.pop_front();
            assert(strs(self.tail@) =~= strs(b).skip(1));
            assert(full.skip(full.len() - self.tail@.len()) =~= full.skip(full.len() - b.len()).skip(1));
        }
        assert(full.skip(0) =~= full);
    }

    /// The spinner message: the title, then each kept line on its own line,
    /// cut to `width` bytes when longer.
    pub fn message(&self, width: usize) -> (s: String)
        requires
            forall|k: int| 0 <= k < self.tail@.len() ==> cuts_cleanly(#[trigger] self.tail@[k]@, width as nat),
        ensures
            s@ == self.opts.title@ + tail_entries(strs(self.tail@), width as nat),
    {
        let mut s = self.opts.title.clone();
        let ghost ls = strs(self.tail@);
        for k in 0..self.tail.len()
            invariant
                ls == strs(self.tail@),
                forall|j: int| 0 <= j < self.tail@.len() ==> cuts_cleanly(#[trigger] self.tail@[j]@, width as nat),
                s@ == self.opts.title@ + tail_entries(ls.take(k as int), width as nat),
        {
            let ghost s0 = s@;
            let line = self.tail[k].as_str();
            assert(ls[k as int] == line@);
            assert(cuts_cleanly(self.tail@[k as int]@, width as nat));
            push_char(&mut s, '\n');
            push_str(&mut s, "     ");
            push_char(&mut s, '\x1b');
            push_str(&mut s, "[2m");
            push_shown_line(&mut s, line, width);
            push_char(&mut s, '\x1b');
            push_str(&mut s, "[0m");
            proof {
                reveal_strlit("     ");
                reveal_strlit("[2m");
                reveal_strlit("[0m");
                assert(ls.take(k + 1).drop_last() =~= ls.take(k as int));
                assert(s@ =~= s0 + tail_entry(line@, width as nat));
            }
        }
        assert(ls.take(self.tail@.len() as int) =~= ls);
        s
    }

    /// The line printed when the command succeeded.
    pub fn done_line(&self) -> (s: String)
        ensures
            s@ == seq![' ', ' ', '\x1b', '[', '3', '2', 'm', '✓', '\x1b', '[', '0', 'm', ' ', ' '] + self.opts.done@,
    {
        let mut s = String::new();
        push_str(&mut s, "  ");
        push_char(&mut s, '\x1b');
        push_str(&mut s, "[32m");
        push_char(&mut s, '✓');
        push_char(&mut s, '\x1b');
        push_str(&mut s, "[0m  ");
        push_str(&mut s, self.opts.done.as_str());
        proof {
            reveal_strlit("  ");
            reveal_strlit("[32m");
            reveal_strlit("[0m  ");
        }
        assert(s@ =~= seq![' ', ' ', '\x1b', '[', '3', '2', 'm', '✓', '\x1b', '[', '0', 'm', ' ', ' '] + self.opts.done@);
        s
    }

    /// The line printed when the command failed.
    pub fn failed_line(&self) -> (s: String)
        ensures
            s@ == seq![' ', ' ', '\x1b', '[', '3', '1', 'm', '✗', '\x1b', '[', '0', 'm', ' ', ' '] + self.opts.title@
                + seq![':', ' ', 'f', 'a', 'i', 'l', 'e', 'd'],
    {
        let mut s = String::new();
        push_str(&mut s, "  ");
        push_char(&mut s, '\x1b');
        push_str(&mut s, "[31m");
        push_char(&mut s, '✗');
        push_char(&mut s, '\x1b');
        push_str(&mut s, "[0m  ");
        push_str(&mut s, self.opts.title.as_str());
        push_str(&mut s, ": failed");
        proof {
            reveal_strlit("  ");
            reveal_strlit("[31m");
            reveal_strlit("[0m  ");
            reveal_strlit(": failed");
        }
        assert(s@ =~= seq![' ', ' ', '\x1b', '[', '3', '1', 'm', '✗', '\x1b', '[', '0', 'm', ' ', ' '] + self.opts.title@
            + seq![':', ' ', 'f', 'a', 'i', 'l', 'e', 'd']);
        s
    }

    /// The process the caller must start, unless an error found before
    /// starting ends the run at once.
    pub fn job(&self) -> (j: Option<&CmdInner>)
        ensures
            self.pending is None ==> j == Some(&self.job),
            self.pending is Some ==> j is None,
    {
        match &self.pending {
            Some(_) => None,
            None => Some(&self.job),
        }
    }

    /// How the run ends: the error found before starting, if any (then no
    /// process ran and `outcome` is `None`); otherwise, from what running the
    /// process reported, success on exit code 0, else an exit-status error
    /// carrying the command and its stderr when it printed any.
    pub fn finish(self, outcome: Option<TailOutcome>) -> (r: Result<(), CmdError>)
        requires
            self.pending is None ==> outcome is Some,
        ensures
            self.pending matches Some(e) ==> r == Err::<(), CmdError>(e),
            self.pending is None ==> tail_result_ok(self.job, outcome->0, r),
    {
        let TailRun { job, opts, tail, pending } = self;
        if let Some(e) = pending {
            return Err(e);
        }
        let outcome = match outcome {
            Some(o) => o,
            None => {
                proof {
                    assert(false);
                }
                return Ok(());
            },
        };
        match outcome {
            TailOutcome::CwdMissing => {
                let path = match &job.cwd {
                    Some(c) => c.clone(),
                    None => String::new(),
                };
                Err(CmdError::CwdNotFound { path })
            },
            TailOutcome::ProgramNotFound => Err(CmdError::NotFound { program: job.program.clone() }),
            TailOutcome::Io(e) => Err(CmdError::Io(e)),
            TailOutcome::Exited { code, stderr } => {
                match code {
                    Some(c) => {
                        if c == 0 {
                            return Ok(());
                        }
                    },
                    None => {},
                }
                let c = match code {
                    Some(c) => c,
                    None => -1,
                };
                let t = crate::text::trim(stderr.as_str());
                assert(c == crate::exec::reported_code(code));
                if t.unicode_len() == 0 {
                    Err(CmdError::ExitStatus { code: c, stderr: None })
                } else {
                    let mut m = job.display_string();
                    push_char(&mut m, '\n');
                    push_str(&mut m, t.as_str());
                    assert(m@ =~= crate::cmd::display_text(job.program@, strs(job.args@)) + seq!['\n'] + trimmed(stderr@));
                    Err(CmdError::ExitStatus { code: c, stderr: Some(m) })
                }
            },
        }
    }
}

/// Appends a line as shown under the spinner.
fn push_shown_line(s: &mut String, line: &str, width: usize)
    requires
        cuts_cleanly(line@, width as nat),
    ensures
        final(s)@ == old(s)@ + shown_tail_line(line@, width as nat),
{
    proof {
        vstd::utf8::encode_utf8_valid_utf8(line@);
    }
    let nbytes = line.as_bytes().len();
    if nbytes > width {
        let cut: usize = if width >= 1 { width - 1 } else { 0 };
        let (head, _) = line.split_at(cut);
        proof {
            vstd::utf8::encode_utf8_decode_utf8(head@);
            assert(head.spec_bytes() =~= encode_utf8(line@).take(cut as int));
        }
        push_str(s, head);
        push_char(s, '…');
        assert(final(s)@ =~= old(s)@ + shown_tail_line(line@, width as nat));
    } else {
        push_str(s, line);
    }
}

} // verus!

verus! {

/// Keeping the last `n` lines as they come is keeping the last `n` of all
/// of them: pushing a line onto the kept lines and keeping the last `n`
/// gives the last `n` lines of everything pushed so far.
pub proof fn tail_window_law(all: Seq<Seq<char>>, line: Seq<char>, n: nat)
    ensures
        last_lines(last_lines(all, n).push(line), n) == last_lines(all.push(line), n),
        last_lines(all.push(line), n).len() == if all.len() + 1 <= n { all.len() + 1 } else { n },
{
    let kept = last_lines(all, n);
    if all.len() + 1 <= n {
        assert(kept == all);
    } else if all.len() <= n {
        assert(kept == all);
        assert(kept.push(line).skip(kept.len() + 1 - n) =~= all.push(line).skip(all.len() + 1 - n));
    } else {
        assert(kept =~= all.skip(all.len() - n));
        assert(kept.push(line).skip(1) =~= all.push(line).skip(all.len() + 1 - n));
    }
}

} // verus!
