use vstd::prelude::*;
use std::time::Duration;

verus! {

#[verifier::external_type_specification]
#[verifier::external_body]
pub struct ExIoError(std::io::Error);

#[verifier::external_type_specification]
#[verifier::external_body]
pub struct ExFromUtf8Error(std::string::FromUtf8Error);

#[verifier::external_type_specification]
#[verifier::external_body]
pub struct ExJsonError(serde_json::Error);

/// Error type for command execution failures.
#[derive(Debug)]
pub enum CmdError {
    /// Command exited with a non-zero status code.
    ExitStatus { code: i32, stderr: Option<String> },
    /// Command was killed by a signal.
    Signal { signal: i32 },
    /// Command timed out.
    Timeout { duration: Duration },
    /// IO error during command execution.
    Io(std::io::Error),
    /// UTF-8 decoding error.
    Utf8(std::string::FromUtf8Error),
    /// JSON deserialization error.
    Json(serde_json::Error),
    /// The command was not found.
    NotFound { program: String },
    /// The specified working directory does not exist.
    CwdNotFound { path: String },
    /// Stdin pipe broken (upstream command failed).
    BrokenPipe { upstream_code: i32 },
    /// Glob pattern matched zero files.
    GlobNoMatches { pattern: String },
}

/// Result type alias for raxx operations.
pub type Result<T> = core::result::Result<T, CmdError>;

/// What `std::io::Error::new(ErrorKind::Other, msg)` builds for a message.
pub uninterp spec fn io_error_other(msg: Seq<char>) -> std::io::Error;

/// What `std::io::Error::new(ErrorKind::InvalidInput, msg)` builds for a message.
pub uninterp spec fn io_error_invalid_input(msg: Seq<char>) -> std::io::Error;

/// Whether an I/O error is of the kind `ErrorKind::PermissionDenied`.
pub uninterp spec fn is_permission_denied(e: std::io::Error) -> bool;

/// Calls `std::io::Error::kind` and tells whether it is `PermissionDenied`;
/// an error built with another kind is not.
#[verifier::external_body]
pub(crate) fn permission_denied(e: &std::io::Error) -> (b: bool)
    ensures
        b == is_permission_denied(*e),
        forall|m: Seq<char>| *e == io_error_other(m) ==> !b,
        forall|m: Seq<char>| *e == io_error_invalid_input(m) ==> !b,
{
    e.kind() == std::io::ErrorKind::PermissionDenied
}

/// Calls `std::io::Error::new` with `ErrorKind::Other`; the error it returns
/// is named by `io_error_other` of the message.
#[verifier::external_body]
pub(crate) fn new_io_error_other(msg: String) -> (e: std::io::Error)
    ensures
        e == io_error_other(msg@),
{
    std::io::Error::new(std::io::ErrorKind::Other, msg)
}

/// Calls `std::io::Error::new` with `ErrorKind::InvalidInput`; the error it
/// returns is named by `io_error_invalid_input` of the message.
#[verifier::external_body]
pub(crate) fn new_io_error_invalid_input(msg: String) -> (e: std::io::Error)
    ensures
        e == io_error_invalid_input(msg@),
{
    std::io::Error::new(std::io::ErrorKind::InvalidInput, msg)
}

} // verus!

verus! {

/// The text `Display` gives a `FromUtf8Error`.
pub uninterp spec fn utf8_error_text(e: std::string::FromUtf8Error) -> Seq<char>;

/// The seconds of a duration written with one decimal, as `{:.1}` writes
/// `Duration::as_secs_f64`.
pub uninterp spec fn secs_one_decimal(d: Duration) -> Seq<char>;

/// Displays an I/O error. An error built from a message displays that
/// message; what an error from the system displays (its description and
/// number) is not stated.
#[verifier::external_body]
fn io_text(e: &std::io::Error) -> (s: String)
    ensures
        forall|m: Seq<char>| *e == io_error_other(m) ==> s@ == m,
        forall|m: Seq<char>| *e == io_error_invalid_input(m) ==> s@ == m,
{
    e.to_string()
}

/// Displays a UTF-8 decoding error; the text is named by `utf8_error_text`.
#[verifier::external_body]
fn utf8_text(e: &std::string::FromUtf8Error) -> (s: String)
    ensures
        s@ == utf8_error_text(*e),
{
    e.to_string()
}

/// Displays a JSON error. Nothing is stated of the text: an error that
/// wraps an I/O error displays that error, whose text for an error from the
/// system depends on the process (its locale).
#[verifier::external_body]
fn json_text(e: &serde_json::Error) -> (s: String)
{
    e.to_string()
}

/// Writes the seconds of a duration with one decimal; the text is named by
/// `secs_one_decimal`.
#[verifier::external_body]
fn secs_text(d: &Duration) -> (s: String)
    ensures
        s@ == secs_one_decimal(*d),
{
    format!("{:.1}", d.as_secs_f64())
}

/// The decimal writing of an integer, sign first when negative.
pub open spec fn int_text(n: int) -> Seq<char> {
    if n < 0 {
        seq!['-'] + crate::template::decimal((-n) as nat)
    } else {
        crate::template::decimal(n as nat)
    }
}

/// The message of an error, given the text of the I/O or JSON error it
/// wraps (`inner`, unused for the other kinds).
pub open spec fn error_text(e: CmdError, inner: Seq<char>) -> Seq<char> {
    match e {
        CmdError::ExitStatus { code, stderr } => {
            let head = "Exited with code: "@ + int_text(code as int);
            match stderr {
                Some(s) => if s@.len() > 0 { head + "\nstderr: "@ + s@ } else { head },
                None => head,
            }
        },
        CmdError::Signal { signal } => "Killed by signal: "@ + int_text(signal as int),
        CmdError::Timeout { duration } => "Timed out after "@ + secs_one_decimal(duration) + "s"@,
        CmdError::Io(_) => "IO error: "@ + inner,
        CmdError::Utf8(u) => "UTF-8 error: "@ + utf8_error_text(u),
        CmdError::Json(_) => "JSON error: "@ + inner,
        CmdError::NotFound { program } => "Command not found: "@ + program@,
        CmdError::CwdNotFound { path } => "Failed to launch command because the cwd does not exist: "@ + path@,
        CmdError::BrokenPipe { upstream_code } => "Stdin pipe broken. Upstream exited with code: "@
            + int_text(upstream_code as int),
        CmdError::GlobNoMatches { pattern } => "Glob pattern matched zero files: "@ + pattern@,
    }
}

/// Appends the decimal writing of an integer.
fn push_int(s: &mut String, n: i32)
    ensures
        final(s)@ == old(s)@ + int_text(n as int),
{
    let mut digits: Vec<char> = Vec::new();
    if n < 0 {
        crate::text::push_char(s, '-');
        let m: u32 = if n == i32::MIN { 2147483648u32 } else { (-n) as u32 };
        crate::template::push_decimal(&mut digits, m as usize);
    } else {
        crate::template::push_decimal(&mut digits, n as usize);
    }
    let t = crate::text::string_of(&digits);
    crate::escape::push_str(s, t.as_str());
}

impl CmdError {
    /// The error's message, as it is displayed.
    pub fn to_string(&self) -> (s: String)
        ensures
            self matches CmdError::Io(e) ==> (forall|m: Seq<char>| e == io_error_other(m) ==> s@ == error_text(*self, m)),
            self matches CmdError::Io(e) ==> (forall|m: Seq<char>| e == io_error_invalid_input(m) ==> s@ == error_text(*self, m)),
            self is Json ==> exists|m: Seq<char>| s@ == #[trigger] error_text(*self, m),
            !(self is Io) && !(self is Json) ==> s@ == error_text(*self, seq![]),
    {
        let mut s = String::new();
        match self {
            CmdError::ExitStatus { code, stderr } => {
                crate::escape::push_str(&mut s, "Exited with code: ");
                push_int(&mut s, *code);
                match stderr {
                    Some(m) => {
                        if m.unicode_len() > 0 {
                            crate::escape::push_str(&mut s, "\nstderr: ");
                            crate::escape::push_str(&mut s, m.as_str());
                        }
                    },
                    None => {},
                }
            },
            CmdError::Signal { signal } => {
                crate::escape::push_str(&mut s, "Killed by signal: ");
                push_int(&mut s, *signal);
            },
            CmdError::Timeout { duration } => {
                crate::escape::push_str(&mut s, "Timed out after ");
                let t = secs_text(duration);
                crate::escape::push_str(&mut s, t.as_str());
                crate::escape::push_str(&mut s, "s");
            },
            CmdError::Io(e) => {
                crate::escape::push_str(&mut s, "IO error: ");
                let t = io_text(e);
                crate::escape::push_str(&mut s, t.as_str());
            },
            CmdError::Utf8(u) => {
                crate::escape::push_str(&mut s, "UTF-8 error: ");
                let t = utf8_text(u);
                crate::escape::push_str(&mut s, t.as_str());
            },
            CmdError::Json(j) => {
                crate::escape::push_str(&mut s, "JSON error: ");
                let t = json_text(j);
                crate::escape::push_str(&mut s, t.as_str());
                assert(s@ == error_text(*self, t@));
            },
            CmdError::NotFound { program } => {
                crate::escape::push_str(&mut s, "Command not found: ");
                crate::escape::push_str(&mut s, program.as_str());
            },
            CmdError::CwdNotFound { path } => {
                crate::escape::push_str(&mut s, "Failed to launch command because the cwd does not exist: ");
                crate::escape::push_str(&mut s, path.as_str());
            },
            CmdError::BrokenPipe { upstream_code } => {
                crate::escape::push_str(&mut s, "Stdin pipe broken. Upstream exited with code: ");
                push_int(&mut s, *upstream_code);
            },
            CmdError::GlobNoMatches { pattern } => {
                crate::escape::push_str(&mut s, "Glob pattern matched zero files: ");
                crate::escape::push_str(&mut s, pattern.as_str());
            },
        }
        s
    }
}

} // verus!
