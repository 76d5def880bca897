use vstd::prelude::*;
use crate::text::{push_char, chars_of, strs};

verus! {

/// Characters that never need quoting in a POSIX shell word.
pub open spec fn is_safe_char(c: char) -> bool {
    ('a' <= c && c <= 'z') || ('A' <= c && c <= 'Z') || ('0' <= c && c <= '9') || c == '-'
        || c == '_' || c == '=' || c == '/' || c == '.' || c == ',' || c == ':' || c == '@'
}

pub open spec fn all_safe(s: Seq<char>) -> bool {
    forall|i: int| 0 <= i < s.len() ==> is_safe_char(#[trigger] s[i])
}

/// What one character becomes inside a single-quoted shell string.
pub open spec fn quoted_piece(c: char) -> Seq<char> {
    if c == '\'' {
        seq!['\'', '"', '\'', '"', '\'']
    } else {
        seq![c]
    }
}

/// The body of a single-quoted word: every `'` becomes `'"'"'`.
pub open spec fn quote_body(s: Seq<char>) -> Seq<char>
    decreases s.len(),
{
    if s.len() == 0 {
        seq![]
    } else {
        quote_body(s.drop_last()) + quoted_piece(s.last())
    }
}

/// The shell word that `escape_arg` produces for `s`.
pub open spec fn escaped(s: Seq<char>) -> Seq<char> {
    if s.len() == 0 {
        seq!['\'', '\'']
    } else if all_safe(s) {
        s
    } else {
        seq!['\''] + quote_body(s) + seq!['\'']
    }
}

fn is_safe(c: char) -> (b: bool)
    ensures
        b == is_safe_char(c),
{
    ('a' <= c && c <= 'z') || ('A' <= c && c <= 'Z') || ('0' <= c && c <= '9') || c == '-'
        || c == '_' || c == '=' || c == '/' || c == '.' || c == ',' || c == ':' || c == '@'
}

/// Escape a string for safe use in a shell command.
///
/// The string comes back unchanged when it is non-empty and holds only
/// alphanumerics and `-_=/.,:@`; the empty string becomes `''`; anything else
/// is wrapped in single quotes, each embedded `'` written as `'"'"'`.
pub fn escape_arg(arg: &str) -> (out: String)
    ensures
        out@ == escaped(arg@),
{
    let cs = chars_of(arg);
    let mut out = String::new();
    if cs.len() == 0 {
        push_char(&mut out, '\'');
        push_char(&mut out, '\'');
        assert(out@ =~= seq!['\'', '\'']);
        return out;
    }
    let mut safe = true;
    for i in 0..cs.len()
        invariant
            cs@ == arg@,
            safe == all_safe(cs@.take(i as int)),
    {
        let ghost prev = cs@.take(i as int);
        assert(cs@.take(i + 1) =~= prev.push(cs@[i as int]));
        if !is_safe(cs[i]) {
            safe = false;
            assert(!is_safe_char(cs@.take(i + 1)[i as int]));
        } else if safe {
            assert forall|j: int| 0 <= j < i + 1 implies is_safe_char(#[trigger] cs@.take(i + 1)[j]) by {
                if j < i {
                    assert(cs@.take(i + 1)[j] == prev[j]);
                }
            }
        } else {
            let ghost j = choose|j: int| 0 <= j < prev.len() && !is_safe_char(prev[j]);
            assert(cs@.take(i + 1)[j] == prev[j]);
        }
    }
    assert(cs@.take(cs.len() as int) =~= cs@);
    if safe {
        for i in 0..cs.len()
            invariant
                cs@ == arg@,
                out@ == cs@.take(i as int),
        {
            push_char(&mut out, cs[i]);
            assert(cs@.take(i + 1) =~= cs@.take(i as int).push(cs@[i as int]));
        }
        return out;
    }
    push_char(&mut out, '\'');
    for i in 0..cs.len()
        invariant
            cs@ == arg@,
            out@ == seq!['\''] + quote_body(cs@.take(i as int)),
    {
        let c = cs[i];
        assert(cs@.take(i + 1).drop_last() =~= cs@.take(i as int));
        if c == '\'' {
            push_char(&mut out, '\'');
            push_char(&mut out, '"');
            push_char(&mut out, '\'');
            push_char(&mut out, '"');
            push_char(&mut out, '\'');
        } else {
            push_char(&mut out, c);
        }
        assert(out@ =~= seq!['\''] + quote_body(cs@.take(i + 1)));
    }
    assert(cs@.take(cs.len() as int) =~= cs@);
    push_char(&mut out, '\'');
    out
}

} // verus!

verus! {

/// Appends the characters of `s` to `out`.
pub fn push_str(out: &mut String, s: &str)
    ensures
        final(out)@ == old(out)@ + s@,
{
    out.append(s);
}

/// The words `ws`, each escaped, joined by single spaces.
pub open spec fn join_escaped(ws: Seq<Seq<char>>) -> Seq<char>
    decreases ws.len(),
{
    if ws.len() == 0 {
        seq![]
    } else if ws.len() == 1 {
        escaped(ws[0])
    } else {
        join_escaped(ws.drop_last()) + seq![' '] + escaped(ws.last())
    }
}

/// Each word escaped and preceded by a space, concatenated.
pub open spec fn appended_escaped(ws: Seq<Seq<char>>) -> Seq<char>
    decreases ws.len(),
{
    if ws.len() == 0 {
        seq![]
    } else {
        appended_escaped(ws.drop_last()) + seq![' '] + escaped(ws.last())
    }
}

/// Values that stand for a list of command arguments: a string is one
/// argument, a vector or slice gives one argument per element.
pub trait IntoArgs: Sized {
    spec fn arg_views(&self) -> Seq<Seq<char>>;

    fn into_args(self) -> (v: Vec<String>)
        ensures
            strs(v@) == self.arg_views(),
    ;
}

impl<'a> IntoArgs for &'a str {
    open spec fn arg_views(&self) -> Seq<Seq<char>> {
        seq![self@]
    }

    fn into_args(self) -> (v: Vec<String>) {
        let mut v: Vec<String> = Vec::new();
        v.push(String::from_str(self));
        assert(strs(v@) =~= seq![self@]);
        v
    }
}

impl IntoArgs for String {
    open spec fn arg_views(&self) -> Seq<Seq<char>> {
        seq![self@]
    }

    fn into_args(self) -> (v: Vec<String>) {
        let ghost w = self@;
        let mut v: Vec<String> = Vec::new();
        v.push(self);
        assert(strs(v@) =~= seq![w]);
        v
    }
}

impl<'a> IntoArgs for &'a String {
    open spec fn arg_views(&self) -> Seq<Seq<char>> {
        seq![(**self)@]
    }

    fn into_args(self) -> (v: Vec<String>) {
        let mut v: Vec<String> = Vec::new();
        v.push(self.clone());
        assert(strs(v@) =~= seq![(*self)@]);
        v
    }
}

impl IntoArgs for Vec<String> {
    open spec fn arg_views(&self) -> Seq<Seq<char>> {
        strs(self@)
    }

    fn into_args(self) -> (v: Vec<String>) {
        self
    }
}

impl<'a> IntoArgs for Vec<&'a str> {
    open spec fn arg_views(&self) -> Seq<Seq<char>> {
        self@.map_values(|a: &str| a@)
    }

    fn into_args(self) -> (v: Vec<String>) {
        strs_of(self.as_slice())
    }
}

impl<'a, 'b> IntoArgs for &'a [&'b str] {
    open spec fn arg_views(&self) -> Seq<Seq<char>> {
        self@.map_values(|a: &str| a@)
    }

    fn into_args(self) -> (v: Vec<String>) {
        strs_of(self)
    }
}

impl<'a> IntoArgs for &'a [String] {
    open spec fn arg_views(&self) -> Seq<Seq<char>> {
        strs(self@)
    }

    fn into_args(self) -> (v: Vec<String>) {
        let mut v: Vec<String> = Vec::new();
        for i in 0..self.len()
            invariant
                strs(v@) == strs(self@).take(i as int),
        {
            let ghost before = v@;
            let x = self[i].clone();
            v.push(x);
            assert(strs(v@) =~= strs(before).push(x@));
            assert(strs(v@) =~= strs(self@).take(i + 1));
        }
        assert(strs(self@).take(self.len() as int) =~= strs(self@));
        v
    }
}

impl<'a, const N: usize> IntoArgs for [&'a str; N] {
    open spec fn arg_views(&self) -> Seq<Seq<char>> {
        self@.map_values(|a: &str| a@)
    }

    fn into_args(self) -> (v: Vec<String>) {
        strs_of(self.as_slice())
    }
}

/// Owned copies of borrowed strings.
pub fn strs_of(xs: &[&str]) -> (v: Vec<String>)
    ensures
        strs(v@) == xs@.map_values(|a: &str| a@),
{
    let mut v: Vec<String> = Vec::new();
    for i in 0..xs.len()
        invariant
            strs(v@) == xs@.map_values(|a: &str| a@).take(i as int),
    {
        let s = String::from_str(xs[i]);
        let ghost before = v@;
        v.push(s);
        assert(strs(v@) =~= strs(before).push(s@));
        assert(strs(v@) =~= xs@.map_values(|a: &str| a@).take(i + 1));
    }
    assert(xs@.map_values(|a: &str| a@).take(xs.len() as int) =~= xs@.map_values(|a: &str| a@));
    v
}

/// Appends each argument to a shell command string, escaped and preceded by a space.
pub fn _append_shell_args<A: IntoArgs>(cmd: &mut String, args: A)
    ensures
        final(cmd)@ == old(cmd)@ + appended_escaped(args.arg_views()),
{
    let ghost ws = args.arg_views();
    let v = args.into_args();
    let ghost c0 = cmd@;
    for i in 0..v.len()
        invariant
            strs(v@) == ws,
            cmd@ == c0 + appended_escaped(ws.take(i as int)),
    {
        push_char(cmd, ' ');
        let e = escape_arg(v[i].as_str());
        push_str(cmd, e.as_str());
        assert(ws.take(i + 1).drop_last() =~= ws.take(i as int));
        assert(strs(v@)[i as int] == v@[i as int]@);
        assert(cmd@ =~= c0 + appended_escaped(ws.take(i + 1)));
    }
    assert(ws.take(v.len() as int) =~= ws);
}

/// Escapes a list of words and joins them with spaces.
pub fn join_escape_args(v: &Vec<String>) -> (s: String)
    ensures
        s@ == join_escaped(strs(v@)),
{
    let mut s = String::new();
    let ghost ws = strs(v@);
    for i in 0..v.len()
        invariant
            ws == strs(v@),
            s@ == join_escaped(ws.take(i as int)),
    {
        if i > 0 {
            push_char(&mut s, ' ');
        }
        let e = escape_arg(v[i].as_str());
        push_str(&mut s, e.as_str());
        assert(ws.take(i + 1).drop_last() =~= ws.take(i as int));
        assert(ws[i as int] == v@[i as int]@);
        assert(s@ =~= join_escaped(ws.take(i + 1)));
    }
    assert(ws.take(v.len() as int) =~= ws);
    s
}

/// Values that can be interpolated into a shell command string: a string is
/// escaped as one word; a list has each element escaped, joined by spaces.
pub trait EscapeForShell {
    spec fn shell_text(&self) -> Seq<char>;

    fn escape_for_shell(&self) -> (s: String)
        ensures
            s@ == self.shell_text(),
    ;
}

impl<'a> EscapeForShell for &'a str {
    open spec fn shell_text(&self) -> Seq<char> {
        escaped((*self)@)
    }

    fn escape_for_shell(&self) -> (s: String) {
        escape_arg(*self)
    }
}

impl EscapeForShell for String {
    open spec fn shell_text(&self) -> Seq<char> {
        escaped(self@)
    }

    fn escape_for_shell(&self) -> (s: String) {
        escape_arg(self.as_str())
    }
}

impl EscapeForShell for Vec<String> {
    open spec fn shell_text(&self) -> Seq<char> {
        join_escaped(strs(self@))
    }

    fn escape_for_shell(&self) -> (s: String) {
        join_escape_args(self)
    }
}

impl<'a> EscapeForShell for Vec<&'a str> {
    open spec fn shell_text(&self) -> Seq<char> {
        join_escaped(self@.map_values(|a: &str| a@))
    }

    fn escape_for_shell(&self) -> (s: String) {
        let v = strs_of(self.as_slice());
        join_escape_args(&v)
    }
}

impl<'a, 'b> EscapeForShell for &'a [&'b str] {
    open spec fn shell_text(&self) -> Seq<char> {
        join_escaped(self@.map_values(|a: &str| a@))
    }

    fn escape_for_shell(&self) -> (s: String) {
        let v = strs_of(*self);
        join_escape_args(&v)
    }
}

impl<'a, const N: usize> EscapeForShell for [&'a str; N] {
    open spec fn shell_text(&self) -> Seq<char> {
        join_escaped(self@.map_values(|a: &str| a@))
    }

    fn escape_for_shell(&self) -> (s: String) {
        let v = strs_of(self.as_slice());
        join_escape_args(&v)
    }
}

} // verus!

verus! {

/// Length of the leading run of characters other than `'`.
pub open spec fn sq_run(w: Seq<char>) -> nat
    decreases w.len(),
{
    if w.len() == 0 || w[0] == '\'' {
        0
    } else {
        1 + sq_run(w.drop_first())
    }
}

pub proof fn lemma_sq_run(t: Seq<char>)
    ensures
        sq_run(t) <= t.len(),
        forall|k: int| 0 <= k < sq_run(t) ==> #[trigger] t[k] != '\'',
        sq_run(t) == t.len() || t[sq_run(t) as int] == '\'',
    decreases t.len(),
{
    if t.len() > 0 && t[0] != '\'' {
        lemma_sq_run(t.drop_first());
        assert forall|k: int| 0 <= k < sq_run(t) implies #[trigger] t[k] != '\'' by {
            if k > 0 {
                assert(t[k] == t.drop_first()[k - 1]);
            }
        }
        if sq_run(t) < t.len() {
            assert(t[sq_run(t) as int] == t.drop_first()[sq_run(t.drop_first()) as int]);
        }
    }
}

pub proof fn lemma_sq_run_unique(t: Seq<char>, m: int)
    requires
        0 <= m <= t.len(),
        forall|k: int| 0 <= k < m ==> #[trigger] t[k] != '\'',
        m == t.len() || t[m] == '\'',
    ensures
        sq_run(t) == m,
{
    lemma_sq_run(t);
    if sq_run(t) < m {
        assert(t[sq_run(t) as int] != '\'');
    }
    if sq_run(t) > m {
        assert(t[m] != '\'');
    }
}

/// The string a POSIX shell reads from a word built of unquoted safe
/// characters, single-quoted runs `'...'`, and the double-quoted quote `"'"`;
/// `None` for a word outside that form.
pub open spec fn shell_word_value(w: Seq<char>) -> Option<Seq<char>>
    decreases w.len(),
{
    if w.len() == 0 {
        Some(seq![])
    } else if w[0] == '\'' {
        let body = w.drop_first();
        proof {
            lemma_sq_run(body);
        }
        let n = sq_run(body);
        if n < body.len() {
            match shell_word_value(body.skip(n as int + 1)) {
                Some(r) => Some(body.take(n as int) + r),
                None => None,
            }
        } else {
            None
        }
    } else if w[0] == '"' {
        if w.len() >= 3 && w[1] == '\'' && w[2] == '"' {
            match shell_word_value(w.skip(3)) {
                Some(r) => Some(seq!['\''] + r),
                None => None,
            }
        } else {
            None
        }
    } else if is_safe_char(w[0]) {
        match shell_word_value(w.drop_first()) {
            Some(r) => Some(seq![w[0]] + r),
            None => None,
        }
    } else {
        None
    }
}

pub proof fn lemma_quote_body_append(a: Seq<char>, b: Seq<char>)
    ensures
        quote_body(a + b) == quote_body(a) + quote_body(b),
    decreases b.len(),
{
    if b.len() == 0 {
        assert(a + b =~= a);
        assert(quote_body(a) + quote_body(b) =~= quote_body(a));
    } else {
        assert((a + b).drop_last() =~= a + b.drop_last());
        assert((a + b).last() == b.last());
        lemma_quote_body_append(a, b.drop_last());
        assert(quote_body(a + b) =~= quote_body(a) + quote_body(b));
    }
}

pub proof fn lemma_quote_body_plain(a: Seq<char>)
    requires
        forall|k: int| 0 <= k < a.len() ==> #[trigger] a[k] != '\'',
    ensures
        quote_body(a) == a,
    decreases a.len(),
{
    if a.len() > 0 {
        lemma_quote_body_plain(a.drop_last());
        assert(quote_body(a) =~= a.drop_last() + seq![a.last()]);
        assert(a.drop_last() + seq![a.last()] =~= a);
    }
}

pub proof fn lemma_safe_value(s: Seq<char>)
    requires
        all_safe(s),
    ensures
        shell_word_value(s) == Some(s),
    decreases s.len(),
{
    if s.len() > 0 {
        assert(is_safe_char(s[0]));
        assert(all_safe(s.drop_first())) by {
            assert forall|i: int| 0 <= i < s.drop_first().len() implies is_safe_char(#[trigger] s.drop_first()[i]) by {
                assert(s.drop_first()[i] == s[i + 1]);
            }
        }
        lemma_safe_value(s.drop_first());
        assert(seq![s[0]] + s.drop_first() =~= s);
    }
}

pub proof fn lemma_quote_body_len(s: Seq<char>)
    ensures
        quote_body(s).len() >= s.len(),
    decreases s.len(),
{
    if s.len() > 0 {
        lemma_quote_body_len(s.drop_last());
    }
}

pub proof fn lemma_quote_one()
    ensures
        quote_body(seq!['\'']) == seq!['\'', '"', '\'', '"', '\''],
{
    let x = seq!['\''];
    assert(x.drop_last() =~= Seq::<char>::empty());
    assert(quote_body(Seq::<char>::empty()) == Seq::<char>::empty());
    assert(x.last() == '\'');
    assert(quote_body(x) =~= quote_body(x.drop_last()) + quoted_piece(x.last()));
    assert(quote_body(x) =~= seq!['\'', '"', '\'', '"', '\'']);
}

pub proof fn lemma_quoted_value(s: Seq<char>)
    ensures
        shell_word_value(seq!['\''] + quote_body(s) + seq!['\'']) == Some(s),
    decreases s.len(),
{
    let w = seq!['\''] + quote_body(s) + seq!['\''];
    let body = w.drop_first();
    assert(w[0] == '\'');
    assert(body =~= quote_body(s) + seq!['\'']);
    lemma_sq_run(s);
    let i = sq_run(s) as int;
    if i == s.len() {
        assert forall|k: int| 0 <= k < s.len() implies #[trigger] s[k] != '\'' by {}
        lemma_quote_body_plain(s);
        assert(body =~= s + seq!['\'']);
        assert forall|k: int| 0 <= k < i implies #[trigger] body[k] != '\'' by {
            assert(body[k] == s[k]);
        }
        lemma_sq_run_unique(body, i);
        assert(body.skip(i + 1) =~= Seq::<char>::empty());
        assert(shell_word_value(body.skip(i + 1)) == Some(Seq::<char>::empty()));
        assert(body.take(i) =~= s);
        assert(s + Seq::<char>::empty() =~= s);
    } else {
        let a = s.take(i);
        let b = s.skip(i + 1);
        assert(s =~= a + seq!['\''] + b);
        assert forall|k: int| 0 <= k < a.len() implies #[trigger] a[k] != '\'' by {
            assert(a[k] == s[k]);
        }
        lemma_quote_body_plain(a);
        lemma_quote_body_append(a + seq!['\''], b);
        lemma_quote_body_append(a, seq!['\'']);
        lemma_quote_one();
        let q = seq!['\'', '"', '\'', '"', '\''];
        assert(quote_body(s) =~= a + q + quote_body(b));
        assert(body =~= a + q + quote_body(b) + seq!['\'']);
        assert forall|k: int| 0 <= k < i implies #[trigger] body[k] != '\'' by {
            assert(body[k] == a[k]);
        }
        assert(body[i] == '\'');
        lemma_sq_run_unique(body, i);
        let rest = body.skip(i + 1);
        let inner = seq!['\''] + quote_body(b) + seq!['\''];
        assert(rest =~= seq!['"', '\'', '"'] + inner);
        assert(rest[0] == '"' && rest[1] == '\'' && rest[2] == '"');
        assert(rest.skip(3) =~= inner);
        lemma_quoted_value(b);
        assert(shell_word_value(rest) == Some(seq!['\''] + b));
        assert(body.take(i) =~= a);
        assert(a + (seq!['\''] + b) =~= s);
    }
}

/// The shell reads the word that `escape_arg` makes back as exactly the
/// string it was made from: escaping never changes what the argument says.
pub proof fn escape_roundtrip(s: Seq<char>)
    ensures
        shell_word_value(escaped(s)) == Some(s),
{
    if s.len() == 0 {
        let w = seq!['\'', '\''];
        assert(escaped(s) == w);
        assert(w[0] == '\'');
        let body = w.drop_first();
        assert(body =~= seq!['\'']);
        lemma_sq_run_unique(body, 0);
        assert(body.skip(1) =~= Seq::<char>::empty());
        assert(shell_word_value(body.skip(1)) == Some(Seq::<char>::empty()));
        assert(body.take(0) + Seq::<char>::empty() =~= s);
    } else if all_safe(s) {
        lemma_safe_value(s);
    } else {
        lemma_quoted_value(s);
    }
}

/// Law: a string comes back unchanged from `escape_arg` exactly when it is
/// non-empty and holds only safe characters.
pub proof fn escape_identity(s: Seq<char>)
    ensures
        (escaped(s) == s) <==> (s.len() > 0 && all_safe(s)),
{
    if s.len() == 0 {
        assert(escaped(s).len() == 2);
    } else if !all_safe(s) {
        lemma_quote_body_len(s);
        assert(escaped(s).len() == quote_body(s).len() + 2);
    }
}

} // verus!

verus! {

/// Law: a list is interpolated as all of its elements, in order, each
/// escaped, with single spaces between them: an empty list gives nothing,
/// and adding an element to a list adds a space (when the list was not
/// empty) and that element escaped, after what the list gave before.
pub proof fn list_escape_law(u: Vec<String>, v: Vec<String>, e: String)
    requires
        u@ == v@.push(e),
    ensures
        v@.len() == 0 ==> v.shell_text() == Seq::<char>::empty(),
        u.shell_text() == (if v@.len() == 0 {
            escaped(e@)
        } else {
            v.shell_text() + seq![' '] + escaped(e@)
        }),
{
    assert(strs(u@) =~= strs(v@).push(e@));
    assert(strs(u@).drop_last() =~= strs(v@));
}

/// Law: a list of borrowed strings is interpolated exactly as the list of
/// owned strings with the same elements.
pub proof fn borrowed_list_escape_law(a: Vec<&str>, u: Vec<String>)
    requires
        a@.map_values(|x: &str| x@) == strs(u@),
    ensures
        a.shell_text() == u.shell_text(),
{
}

/// Law: a slice of strings is interpolated exactly as the list of owned
/// strings with the same elements.
pub proof fn slice_escape_law(a: &[&str], u: Vec<String>)
    requires
        a@.map_values(|x: &str| x@) == strs(u@),
    ensures
        a.shell_text() == u.shell_text(),
{
}

/// Law: an array of strings is interpolated exactly as the list of owned
/// strings with the same elements.
pub proof fn array_escape_law<const N: usize>(a: [&str; N], u: Vec<String>)
    requires
        a@.map_values(|x: &str| x@) == strs(u@),
    ensures
        a.shell_text() == u.shell_text(),
{
}

/// Law: a string is interpolated exactly as the list holding just that
/// string, whether owned or borrowed.
pub proof fn single_escape_law(e: String, b: &str, u: Vec<String>)
    requires
        u@ == seq![e],
        b@ == e@,
    ensures
        u.shell_text() == e.shell_text(),
        b.shell_text() == e.shell_text(),
{
    assert(strs(u@) =~= seq![e@]);
}

/// Law: appending arguments to a shell command adds, for each one in order,
/// a space and the argument escaped: appending one list and then another
/// adds what appending both at once adds, and one argument adds a space and
/// itself escaped.
pub proof fn append_escape_law(a: Seq<Seq<char>>, b: Seq<Seq<char>>, w: Seq<char>)
    ensures
        appended_escaped(a + b) == appended_escaped(a) + appended_escaped(b),
        appended_escaped(seq![w]) == seq![' '] + escaped(w),
        appended_escaped(Seq::<Seq<char>>::empty()) == Seq::<char>::empty(),
    decreases b.len(),
{
    if b.len() == 0 {
        assert(a + b =~= a);
        assert(appended_escaped(a) + appended_escaped(b) =~= appended_escaped(a));
    } else {
        append_escape_law(a, b.drop_last(), w);
        assert((a + b).drop_last() =~= a + b.drop_last());
        assert((a + b).last() == b.last());
        assert(appended_escaped(a + b) =~= appended_escaped(a) + appended_escaped(b));
    }
    assert(seq![w].drop_last() =~= Seq::<Seq<char>>::empty());
    assert(seq![w].last() == w);
    assert(appended_escaped(Seq::<Seq<char>>::empty()) == Seq::<char>::empty());
    assert(seq![' '] + escaped(w) =~= Seq::<char>::empty() + seq![' '] + escaped(w));
}

} // verus!
