use vstd::prelude::*;

use crate::cmd::{Cmd, CmdInner};
use crate::error::{CmdError, io_error_invalid_input, io_error_other, new_io_error_invalid_input, new_io_error_other};
use crate::escape::push_str;
use crate::text::{push_char, strs};

verus! {

/// The characters that have a meaning of their own in a glob pattern.
pub open spec fn is_glob_meta(c: char) -> bool {
    c == '*' || c == '?' || c == '[' || c == ']'
}

/// How one character is written so that a glob pattern matches it literally.
pub open spec fn glob_piece(c: char) -> Seq<char> {
    if is_glob_meta(c) {
        seq!['[', c, ']']
    } else {
        seq![c]
    }
}

/// A string written so that a glob pattern matches it literally: each
/// metacharacter is wrapped in a one-character class (`*` becomes `[*]`).
pub open spec fn glob_escaped(s: Seq<char>) -> Seq<char>
    decreases s.len(),
{
    if s.len() == 0 {
        seq![]
    } else {
        glob_piece(s[0]) + glob_escaped(s.skip(1))
    }
}

/// The text a pattern made only of literal characters and one-character
/// classes of metacharacters matches; `None` when it holds a metacharacter
/// outside such a class (a wildcard or a wider class).
pub open spec fn glob_literal(p: Seq<char>) -> Option<Seq<char>>
    decreases p.len(),
{
    if p.len() == 0 {
        Some(seq![])
    } else if p.len() >= 3 && p[0] == '[' && is_glob_meta(p[1]) && p[2] == ']' {
        match glob_literal(p.skip(3)) {
            Some(rest) => Some(seq![p[1]] + rest),
            None => None,
        }
    } else if is_glob_meta(p[0]) {
        None
    } else {
        match glob_literal(p.skip(1)) {
            Some(rest) => Some(seq![p[0]] + rest),
            None => None,
        }
    }
}

proof fn lemma_glob_escaped_append(a: Seq<char>, b: Seq<char>)
    ensures
        glob_escaped(a + b) == glob_escaped(a) + glob_escaped(b),
    decreases a.len(),
{
    if a.len() == 0 {
        assert(a + b =~= b);
    } else {
        assert((a + b).skip(1) =~= a.skip(1) + b);
        lemma_glob_escaped_append(a.skip(1), b);
        assert(glob_escaped(a + b) =~= glob_escaped(a) + glob_escaped(b));
    }
}

proof fn lemma_glob_escaped_one(c: char)
    ensures
        glob_escaped(seq![c]) == glob_piece(c),
{
    assert(seq![c].skip(1) =~= Seq::<char>::empty());
    assert(glob_escaped(seq![c].skip(1)) =~= Seq::<char>::empty());
    assert(glob_escaped(seq![c]) =~= glob_piece(c));
}

/// Reading back an escaped string as a glob pattern gives the string itself:
/// the escaped pattern matches exactly that text, whatever characters it holds.
pub proof fn glob_escape_roundtrip(s: Seq<char>)
    ensures
        glob_literal(glob_escaped(s)) == Some(s),
    decreases s.len(),
{
    if s.len() > 0 {
        let p = glob_escaped(s);
        let rest = glob_escaped(s.skip(1));
        glob_escape_roundtrip(s.skip(1));
        if is_glob_meta(s[0]) {
            assert(p.skip(3) =~= rest);
            assert(p[0] == '[' && p[1] == s[0] && p[2] == ']');
        } else {
            assert(p.skip(1) =~= rest);
            assert(p[0] == s[0]);
        }
        assert(seq![s[0]] + s.skip(1) =~= s);
    }
}

/// A string without metacharacters is left as it is.
pub proof fn glob_escape_identity(s: Seq<char>)
    requires
        forall|i: int| 0 <= i < s.len() ==> !is_glob_meta(#[trigger] s[i]),
    ensures
        glob_escaped(s) == s,
    decreases s.len(),
{
    if s.len() > 0 {
        assert forall|i: int| 0 <= i < s.skip(1).len() implies !is_glob_meta(#[trigger] s.skip(1)[i]) by {
            assert(s.skip(1)[i] == s[i + 1]);
        }
        glob_escape_identity(s.skip(1));
        assert(seq![s[0]] + s.skip(1) =~= s);
    }
}

/// Escape a string so it is treated as a literal path component in a glob
/// pattern: `*`, `?`, `[` and `]` are each wrapped in square brackets.
pub fn glob_esc(s: &str) -> (out: String)
    ensures
        out@ == glob_escaped(s@),
{
    let mut out = String::new();
    let n: usize = s.unicode_len();
    for i in 0..n
        invariant
            n == s@.len(),
            out@ == glob_escaped(s@.take(i as int)),
    {
        let c = s.get_char(i);
        proof {
            assert(s@.take(i + 1) =~= s@.take(i as int) + seq![c]);
            lemma_glob_escaped_append(s@.take(i as int), seq![c]);
            lemma_glob_escaped_one(c);
        }
        if c == '*' || c == '?' || c == '[' || c == ']' {
            push_char(&mut out, '[');
            push_char(&mut out, c);
            push_char(&mut out, ']');
        } else {
            push_char(&mut out, c);
        }
        assert(out@ =~= glob_escaped(s@.take(i + 1)));
    }
    assert(s@.take(n as int) =~= s@);
    out
}

} // verus!

verus! {

/// What `glob::glob` reports for a pattern it refuses: `Some` of the
/// displayed `PatternError`, or `None` when the pattern is valid.
pub uninterp spec fn glob_pattern_error(pattern: Seq<char>) -> Option<Seq<char>>;

/// Calls `glob::glob` and walks the matches it yields. Whether the pattern is
/// refused, and the message then (the `PatternError` displayed), depend on the
/// pattern alone and are named by `glob_pattern_error`. The entries depend on
/// the file system at the time of the call, so nothing is stated of them: each
/// is a matched path (as a string, lossily) or a `GlobError` displayed.
#[verifier::external_body]
fn glob_walk(pattern: &str) -> (r: Result<Vec<Result<String, String>>, String>)
    ensures
        r is Ok ==> glob_pattern_error(pattern@) is None,
        r matches Err(m) ==> glob_pattern_error(pattern@) == Some(m@),
{
    match glob::glob(pattern) {
        Ok(paths) => Ok(paths.map(|entry| match entry {
            Ok(path) => Ok(path.to_string_lossy().to_string()),
            Err(e) => Err(e.to_string()),
        }).collect()),
        Err(e) => Err(e.to_string()),
    }
}

/// Why expanding a glob pattern gave no paths.
#[derive(Debug)]
pub enum GlobFailure {
    /// The pattern is invalid; the message says why.
    Pattern(String),
    /// Reading the file system failed while walking the matches.
    Walk(String),
    /// The pattern matched nothing.
    NoMatches,
}

/// The first error met while walking, in walking order.
pub open spec fn first_walk_error(e: Seq<Result<String, String>>) -> Option<Seq<char>>
    decreases e.len(),
{
    if e.len() == 0 {
        None
    } else {
        match first_walk_error(e.drop_last()) {
            Some(m) => Some(m),
            None => match e.last() {
                Err(m) => Some(m@),
                Ok(_) => None,
            },
        }
    }
}

/// The paths met while walking, in walking order.
pub open spec fn walked_paths(e: Seq<Result<String, String>>) -> Seq<Seq<char>>
    decreases e.len(),
{
    if e.len() == 0 {
        seq![]
    } else {
        walked_paths(e.drop_last()) + match e.last() {
            Ok(p) => seq![p@],
            Err(_) => Seq::<Seq<char>>::empty(),
        }
    }
}

/// `v` holds the paths of `inp` sorted in path order, each place named once.
pub open spec fn sorted_paths_of(v: Seq<Seq<char>>, inp: Seq<Seq<char>>) -> bool {
    &&& crate::paths::strictly_sorted(v)
    &&& forall|i: int| 0 <= i < v.len() ==> inp.contains(#[trigger] v[i])
    &&& crate::paths::covers_all(v, inp)
}

/// Turns the entries walked for a pattern into its matches: the first walking
/// error wins; otherwise the paths, sorted and deduplicated, or `NoMatches`.
pub fn collect_glob_matches(entries: Vec<Result<String, String>>) -> (r: Result<Vec<String>, GlobFailure>)
    ensures
        first_walk_error(entries@) matches Some(m) ==> (r matches Err(GlobFailure::Walk(x)) && x@ == m),
        first_walk_error(entries@) is None && walked_paths(entries@).len() == 0 ==> r matches Err(GlobFailure::NoMatches),
        first_walk_error(entries@) is None && walked_paths(entries@).len() > 0 ==> (r matches Ok(v)
            && sorted_paths_of(strs(v@), walked_paths(entries@))),
        r matches Ok(v) ==> v@.len() > 0,
{
    let mut paths: Vec<String> = Vec::new();
    let n = entries.len();
    for i in 0..n
        invariant
            n == entries@.len(),
            first_walk_error(entries@.take(i as int)) is None,
            strs(paths@) == walked_paths(entries@.take(i as int)),
    {
        assert(entries@.take(i + 1).drop_last() =~= entries@.take(i as int));
        match &entries[i] {
            Ok(p) => {
                let ghost before = paths@;
                paths.push(p.clone());
                assert(strs(paths@) =~= strs(before).push(p@));
                assert(strs(paths@) =~= walked_paths(entries@.take(i + 1)));
            },
            Err(m) => {
                proof {
                    assert(first_walk_error(entries@.take(i + 1)) == Some(m@));
                    lemma_first_walk_error_prefix(entries@, i + 1);
                }
                return Err(GlobFailure::Walk(m.clone()));
            },
        }
    }
    assert(entries@.take(n as int) =~= entries@);
    if paths.len() == 0 {
        return Err(GlobFailure::NoMatches);
    }
    let ghost inp = strs(paths@);
    let out = sort_dedup(paths);
    proof {
        let o = strs(out@);
        assert(crate::paths::has_match(o, inp[0]));
    }
    Ok(out)
}

fn sort_dedup(paths: Vec<String>) -> (out: Vec<String>)
    ensures
        sorted_paths_of(strs(out@), strs(paths@)),
{
    crate::paths::sort_dedup_paths(paths)
}

proof fn lemma_first_walk_error_prefix(e: Seq<Result<String, String>>, k: int)
    requires
        0 <= k <= e.len(),
        first_walk_error(e.take(k)) is Some,
    ensures
        first_walk_error(e) == first_walk_error(e.take(k)),
    decreases e.len() - k,
{
    if k < e.len() {
        assert(e.take(k + 1).drop_last() =~= e.take(k));
        lemma_first_walk_error_prefix(e, k + 1);
    } else {
        assert(e.take(k) =~= e);
    }
}

/// Expands a glob pattern: its matches sorted and deduplicated, or why there
/// are none. An invalid pattern is reported as such; what the walk finds
/// depends on the file system.
pub fn expand_glob(pattern: &str) -> (r: Result<Vec<String>, GlobFailure>)
    ensures
        glob_pattern_error(pattern@) matches Some(m) ==> (r matches Err(GlobFailure::Pattern(x)) && x@ == m),
        glob_pattern_error(pattern@) is None ==> !(r matches Err(GlobFailure::Pattern(_))),
        r matches Ok(v) ==> (v@.len() > 0 && crate::paths::strictly_sorted(strs(v@))),
{
    match glob_walk(pattern) {
        Ok(entries) => collect_glob_matches(entries),
        Err(m) => Err(GlobFailure::Pattern(m)),
    }
}

} // verus!

verus! {

/// The error `glob` reports when expanding `pattern` failed this way.
pub open spec fn is_glob_error(pattern: Seq<char>, f: GlobFailure, e: CmdError) -> bool {
    match f {
        GlobFailure::Pattern(m) => e == CmdError::Io(io_error_invalid_input("Invalid glob pattern: "@ + m@)),
        GlobFailure::Walk(m) => e == CmdError::Io(io_error_other("Glob error: "@ + m@)),
        GlobFailure::NoMatches => e matches CmdError::GlobNoMatches { pattern: p } && p@ == pattern,
    }
}

/// An I/O error built for a failure met while walking the matches.
pub open spec fn is_walk_error(x: std::io::Error) -> bool {
    exists|m: Seq<char>| x == #[trigger] io_error_other("Glob error: "@ + m)
}

/// The error reported when expanding `pattern` failed this way.
pub fn glob_failure_error(pattern: &str, f: GlobFailure) -> (e: CmdError)
    ensures
        is_glob_error(pattern@, f, e),
{
    match f {
        GlobFailure::Pattern(m) => {
            let mut msg = String::from_str("Invalid glob pattern: ");
            push_str(&mut msg, m.as_str());
            CmdError::Io(new_io_error_invalid_input(msg))
        },
        GlobFailure::Walk(m) => {
            let mut msg = String::from_str("Glob error: ");
            push_str(&mut msg, m.as_str());
            CmdError::Io(new_io_error_other(msg))
        },
        GlobFailure::NoMatches => CmdError::GlobNoMatches { pattern: String::from_str(pattern) },
    }
}

/// Find files matching a glob pattern (`*` within a path component, `**`
/// across directories), relative to the current directory unless absolute.
/// Returns the paths sorted and deduplicated; an invalid pattern, an error
/// while walking, or no match at all is an error.
pub fn glob(pattern: &str) -> (r: Result<Vec<String>, CmdError>)
    ensures
        glob_pattern_error(pattern@) matches Some(m) ==> (r matches Err(CmdError::Io(x))
            && x == io_error_invalid_input("Invalid glob pattern: "@ + m)),
        r matches Ok(v) ==> (v@.len() > 0 && crate::paths::strictly_sorted(strs(v@))),
        r matches Err(e) ==> (glob_pattern_error(pattern@) is None ==> ((e matches CmdError::GlobNoMatches { pattern: p } && p@ == pattern@)
            || (e matches CmdError::Io(x) && is_walk_error(x)))),
{
    match expand_glob(pattern) {
        Ok(v) => Ok(v),
        Err(f) => {
            let ghost g = f;
            let e = glob_failure_error(pattern, f);
            proof {
                if let GlobFailure::Walk(m) = g {
                    assert(e->Io_0 == io_error_other("Glob error: "@ + m@));
                }
            }
            Err(e)
        },
    }
}

/// The text of the error reported when expanding `pattern` failed this way,
/// as the error displays it.
pub open spec fn glob_failure_message(pattern: Seq<char>, f: GlobFailure) -> Seq<char> {
    match f {
        GlobFailure::Pattern(m) => "IO error: Invalid glob pattern: "@ + m@,
        GlobFailure::Walk(m) => "IO error: Glob error: "@ + m@,
        GlobFailure::NoMatches => "Glob pattern matched zero files: "@ + pattern,
    }
}

/// The text of the error reported when expanding `pattern` failed this way.
pub fn glob_failure_text(pattern: &str, f: &GlobFailure) -> (s: String)
    ensures
        s@ == glob_failure_message(pattern@, *f),
{
    match f {
        GlobFailure::Pattern(m) => {
            let mut s = String::from_str("IO error: Invalid glob pattern: ");
            push_str(&mut s, m.as_str());
            s
        },
        GlobFailure::Walk(m) => {
            let mut s = String::from_str("IO error: Glob error: ");
            push_str(&mut s, m.as_str());
            s
        },
        GlobFailure::NoMatches => {
            let mut s = String::from_str("Glob pattern matched zero files: ");
            push_str(&mut s, pattern);
            s
        },
    }
}

impl<O, E> Cmd<O, E> {
    /// Appends the matches of an expanded pattern as arguments; when the
    /// expansion failed, keeps its error text to be reported at execution,
    /// unless an error is already kept.
    pub fn with_glob_matches(self, pattern: &str, expansion: Result<Vec<String>, GlobFailure>) -> (c: Self)
        ensures
            expansion matches Ok(v) ==> (strs(c.inner.args@) == strs(self.inner.args@) + strs(v@)
                && c.inner == (CmdInner { args: c.inner.args, ..self.inner })),
            expansion matches Err(f) ==> (c.inner == (CmdInner { deferred_error: c.inner.deferred_error, ..self.inner })
                && (self.inner.deferred_error is Some ==> c.inner.deferred_error == self.inner.deferred_error)
                && (self.inner.deferred_error is None ==> (c.inner.deferred_error matches Some(m)
                    && m@ == glob_failure_message(pattern@, f)))),
    {
        match expansion {
            Ok(v) => self.push_args(v),
            Err(f) => {
                let msg = glob_failure_text(pattern, &f);
                self._set_deferred_error(msg)
            },
        }
    }

    /// Expand a glob pattern now and append all matching files as arguments.
    /// If the pattern is invalid, matches nothing, or walking fails, the error
    /// is kept and reported when the command is executed.
    pub fn glob(self, pattern: &str) -> (c: Self)
        ensures
            c.inner == (CmdInner { args: c.inner.args, deferred_error: c.inner.deferred_error, ..self.inner }),
            self.inner.deferred_error is Some ==> c.inner.deferred_error == self.inner.deferred_error,
            glob_pattern_error(pattern@) matches Some(m) ==> (c.inner.args == self.inner.args
                && (self.inner.deferred_error is None ==> (c.inner.deferred_error matches Some(d)
                    && d@ == "IO error: Invalid glob pattern: "@ + m))),
            c.inner.args@.len() == self.inner.args@.len() ==> strs(c.inner.args@) == strs(self.inner.args@),
            c.inner.args@.len() > self.inner.args@.len() ==> (c.inner.deferred_error == self.inner.deferred_error
                && strs(c.inner.args@).take(self.inner.args@.len() as int) == strs(self.inner.args@)
                && crate::paths::strictly_sorted(strs(c.inner.args@).skip(self.inner.args@.len() as int))),
            c.inner.args@.len() == self.inner.args@.len() && self.inner.deferred_error is None ==> c.inner.deferred_error is Some,
    {
        let expansion = expand_glob(pattern);
        let ghost ex = expansion;
        let c = self.with_glob_matches(pattern, expansion);
        proof {
            if let Ok(v) = ex {
                let n = self.inner.args@.len() as int;
                assert(strs(c.inner.args@).take(n) =~= strs(self.inner.args@));
                assert(strs(c.inner.args@).skip(n) =~= strs(v@));
            }
        }
        c
    }
}

} // verus!
