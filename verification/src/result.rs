use vstd::prelude::*;
use std::marker::PhantomData;
use vstd::utf8::{valid_utf8, decode_utf8};
use crate::text::{lines, lines_of, strs, trim, trimmed};

verus! {

/// Marker type: stream data is captured and available on the result.
#[derive(Debug, Clone, Copy)]
pub struct Captured;

/// Marker type: stream was redirected (to file/null/other) — data not available.
#[derive(Debug, Clone, Copy)]
pub struct Redirected;

/// Raw output of a finished execution: exit code and the bytes kept of each stream.
#[derive(Debug)]
pub struct RawOutput {
    pub code: i32,
    pub stdout: Vec<u8>,
    pub stderr: Vec<u8>,
}

/// The result of a command execution, with type-state tracking of stream availability.
#[derive(Debug)]
pub struct CmdResult<O = Captured, E = Captured> {
    /// The exit code of the command.
    pub code: i32,
    pub stdout_data: Vec<u8>,
    pub stderr_data: Vec<u8>,
    pub _phantom: PhantomData<(O, E)>,
}

impl<O, E> CmdResult<O, E> {
    /// Wraps raw output as a typed result.
    pub fn from_raw(raw: RawOutput) -> (r: Self)
        ensures
            r.code == raw.code,
            r.stdout_data@ == raw.stdout@,
            r.stderr_data@ == raw.stderr@,
    {
        CmdResult { code: raw.code, stdout_data: raw.stdout, stderr_data: raw.stderr, _phantom: PhantomData }
    }

    /// Check if the command succeeded (exit code 0).
    pub fn success(&self) -> (b: bool)
        ensures
            b == (self.code == 0),
    {
        self.code == 0
    }
}

/// What `String::from_utf8_lossy` makes of bytes: the text they encode, with
/// each invalid sequence replaced by U+FFFD.
pub uninterp spec fn lossy_text(bytes: Seq<u8>) -> Seq<char>;

/// Calls `String::from_utf8_lossy`. Valid UTF-8 decodes exactly, as std
/// documents; what replaces invalid sequences is named by `lossy_text`.
#[verifier::external_body]
pub(crate) fn utf8_lossy(bytes: &[u8]) -> (s: String)
    ensures
        s@ == lossy_text(bytes@),
        valid_utf8(bytes@) ==> s@ == decode_utf8(bytes@),
{
    String::from_utf8_lossy(bytes).to_string()
}

impl<E> CmdResult<Captured, E> {
    /// Get stdout as an untrimmed string.
    pub fn stdout(&self) -> (s: String)
        ensures
            s@ == lossy_text(self.stdout_data@),
    {
        utf8_lossy(self.stdout_data.as_slice())
    }

    /// Get stdout as a trimmed string.
    pub fn stdout_trimmed(&self) -> (s: String)
        ensures
            s@ == trimmed(lossy_text(self.stdout_data@)),
    {
        let t = self.stdout();
        trim(t.as_str())
    }

    /// Get stdout as raw bytes.
    pub fn stdout_bytes(&self) -> (b: &[u8])
        ensures
            b@ == self.stdout_data@,
    {
        self.stdout_data.as_slice()
    }

    /// Get stdout split into lines (from trimmed output).
    pub fn stdout_lines(&self) -> (v: Vec<String>)
        ensures
            strs(v@) == lines_of(trimmed(lossy_text(self.stdout_data@))),
    {
        let t = self.stdout_trimmed();
        lines(t.as_str())
    }
}

impl<O> CmdResult<O, Captured> {
    /// Get stderr as an untrimmed string.
    pub fn stderr(&self) -> (s: String)
        ensures
            s@ == lossy_text(self.stderr_data@),
    {
        utf8_lossy(self.stderr_data.as_slice())
    }

    /// Get stderr as a trimmed string.
    pub fn stderr_trimmed(&self) -> (s: String)
        ensures
            s@ == trimmed(lossy_text(self.stderr_data@)),
    {
        let t = self.stderr();
        trim(t.as_str())
    }

    /// Get stderr as raw bytes.
    pub fn stderr_bytes(&self) -> (b: &[u8])
        ensures
            b@ == self.stderr_data@,
    {
        self.stderr_data.as_slice()
    }

    /// Get stderr split into lines (from trimmed output).
    pub fn stderr_lines(&self) -> (v: Vec<String>)
        ensures
            strs(v@) == lines_of(trimmed(lossy_text(self.stderr_data@))),
    {
        let t = self.stderr_trimmed();
        lines(t.as_str())
    }
}

impl CmdResult<Captured, Captured> {
    /// Get stdout + stderr concatenated.
    pub fn out(&self) -> (s: String)
        ensures
            s@ == lossy_text(self.stdout_data@) + lossy_text(self.stderr_data@),
    {
        let mut s = self.stdout();
        let e = self.stderr();
        crate::escape::push_str(&mut s, e.as_str());
        s
    }
}

} // verus!
