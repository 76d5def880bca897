use vstd::prelude::*;

use crate::text::{chars_of, string_of, strs, trim_range, trimmed};

verus! {

/// Whether `char::is_alphabetic` holds of a character (the Unicode
/// `Alphabetic` property).
pub uninterp spec fn alphabetic(c: char) -> bool;

/// Whether `char::is_alphanumeric` holds of a character.
pub uninterp spec fn alphanumeric(c: char) -> bool;

/// Calls `char::is_alphabetic`; its result is named by `alphabetic`.
#[verifier::external_body]
fn char_is_alphabetic(c: char) -> (b: bool)
    ensures
        b == alphabetic(c),
{
    c.is_alphabetic()
}

/// Calls `char::is_alphanumeric`, which holds of every alphabetic character
/// (and of numeric ones); its result is named by `alphanumeric`.
#[verifier::external_body]
fn char_is_alphanumeric(c: char) -> (b: bool)
    ensures
        b == alphanumeric(c),
        alphabetic(c) ==> b,
{
    c.is_alphanumeric()
}

/// A character that may begin an identifier.
pub open spec fn ident_start(c: char) -> bool {
    alphabetic(c) || c == '_'
}

/// A character that may continue an identifier.
pub open spec fn ident_continue(c: char) -> bool {
    alphanumeric(c) || c == '_'
}

/// A valid Rust identifier, as a format string's named capture.
pub open spec fn is_ident(s: Seq<char>) -> bool {
    &&& s.len() > 0
    &&& ident_start(s[0])
    &&& forall|i: int| 1 <= i < s.len() ==> ident_continue(#[trigger] s[i])
}

/// Whether the characters form an identifier.
pub fn ident_chars(s: &Vec<char>) -> (b: bool)
    ensures
        b == is_ident(s@),
{
    if s.len() == 0 {
        return false;
    }
    let first = s[0];
    if !char_is_alphabetic(first) && first != '_' {
        return false;
    }
    let mut i: usize = 1;
    while i < s.len()
        invariant
            1 <= i <= s@.len(),
            ident_start(s@[0]),
            forall|k: int| 1 <= k < i ==> ident_continue(#[trigger] s@[k]),
        decreases s@.len() - i,
    {
        let c = s[i];
        if !char_is_alphanumeric(c) && c != '_' {
            assert(!ident_continue(s@[i as int]));
            return false;
        }
        i = i + 1;
    }
    true
}

/// Check if a string is a valid Rust identifier (for format string named captures).
pub fn is_rust_ident(s: &str) -> (b: bool)
    ensures
        b == is_ident(s@),
{
    let cs = chars_of(s);
    ident_chars(&cs)
}

/// A quote character: `"` or `'`.
pub open spec fn is_quote(c: char) -> bool {
    c == '"' || c == '\''
}

/// Begins and ends with the same quote character (a lone quote does both).
pub open spec fn quote_wrapped(t: Seq<char>) -> bool {
    t.len() > 0 && is_quote(t[0]) && t.last() == t[0]
}

/// What lies between the quotes of a quoted text.
pub open spec fn unquoted(t: Seq<char>) -> Seq<char> {
    t.subrange(1, t.len() - 1)
}

/// The part of `glob("...")` between the parentheses, trimmed; `None` when
/// the trimmed text is not such a call.
pub open spec fn glob_argument(s: Seq<char>) -> Option<Seq<char>> {
    let t = trimmed(s);
    if t.len() >= 6 && t.take(5) == seq!['g', 'l', 'o', 'b', '('] && t.last() == ')' {
        Some(trimmed(t.subrange(5, t.len() - 1)))
    } else {
        None
    }
}

/// The pattern of a `glob("pattern")` or `glob('pattern')` call.
pub open spec fn glob_call(s: Seq<char>) -> Option<Seq<char>> {
    match glob_argument(s) {
        Some(r) => if quote_wrapped(r) { Some(unquoted(r)) } else { None },
        None => None,
    }
}

/// A glob call whose argument is a lone quote, which cannot be unquoted.
pub open spec fn glob_call_broken(s: Seq<char>) -> bool {
    glob_argument(s) matches Some(r) && quote_wrapped(r) && r.len() == 1
}

/// Index of the first occurrence of `c` in `s`, or the length when absent.
pub open spec fn index_of(s: Seq<char>, c: char) -> int
    decreases s.len(),
{
    if s.len() == 0 {
        0
    } else if s[0] == c {
        0
    } else {
        1 + index_of(s.skip(1), c)
    }
}

pub proof fn lemma_index_of(s: Seq<char>, c: char)
    ensures
        0 <= index_of(s, c) <= s.len(),
        index_of(s, c) < s.len() ==> s[index_of(s, c)] == c,
        forall|k: int| 0 <= k < index_of(s, c) ==> s[k] != c,
    decreases s.len(),
{
    if s.len() > 0 && s[0] != c {
        lemma_index_of(s.skip(1), c);
        assert forall|k: int| 0 <= k < index_of(s, c) implies s[k] != c by {
            if k > 0 {
                assert(s[k] == s.skip(1)[k - 1]);
            }
        }
    }
}

/// The part of `flag_if(...)` between the parentheses; `None` when the
/// trimmed text is not such a call.
pub open spec fn flag_if_argument(s: Seq<char>) -> Option<Seq<char>> {
    let t = trimmed(s);
    if t.len() >= 9 && t.take(8) == seq!['f', 'l', 'a', 'g', '_', 'i', 'f', '('] && t.last() == ')' {
        Some(t.subrange(8, t.len() - 1))
    } else {
        None
    }
}

/// The flag part (before the first comma, trimmed) of a `flag_if` call.
pub open spec fn flag_part(rest: Seq<char>) -> Seq<char> {
    trimmed(rest.take(index_of(rest, ',')))
}

/// The condition part (after the first comma, trimmed) of a `flag_if` call.
pub open spec fn condition_part(rest: Seq<char>) -> Seq<char> {
    trimmed(rest.skip(index_of(rest, ',') + 1))
}

/// The flag and condition of a `flag_if("flag", condition)` call: the flag
/// quoted, the condition an identifier.
pub open spec fn flag_if_call(s: Seq<char>) -> Option<(Seq<char>, Seq<char>)> {
    match flag_if_argument(s) {
        Some(rest) => {
            if index_of(rest, ',') < rest.len() && quote_wrapped(flag_part(rest)) && is_ident(condition_part(rest)) {
                Some((unquoted(flag_part(rest)), condition_part(rest)))
            } else {
                None
            }
        },
        None => None,
    }
}

/// A `flag_if` call whose flag is a lone quote, which cannot be unquoted.
pub open spec fn flag_if_call_broken(s: Seq<char>) -> bool {
    flag_if_argument(s) matches Some(rest) && index_of(rest, ',') < rest.len()
        && quote_wrapped(flag_part(rest)) && flag_part(rest).len() == 1
}

/// The characters `v[lo..hi]` as a vector.
fn sub_chars(v: &Vec<char>, lo: usize, hi: usize) -> (r: Vec<char>)
    requires
        lo <= hi <= v@.len(),
    ensures
        r@ == v@.subrange(lo as int, hi as int),
{
    let mut r: Vec<char> = Vec::new();
    let mut k = lo;
    while k < hi
        invariant
            lo <= k <= hi <= v@.len(),
            r@ == v@.subrange(lo as int, k as int),
        decreases hi - k,
    {
        r.push(v[k]);
        assert(v@.subrange(lo as int, k + 1) =~= v@.subrange(lo as int, k as int).push(v@[k as int]));
        k = k + 1;
    }
    r
}

/// Whether the characters are wrapped in a matching pair of quotes.
fn quote_wrapped_chars(t: &Vec<char>) -> (b: bool)
    ensures
        b == quote_wrapped(t@),
{
    t.len() > 0 && (t[0] == '"' || t[0] == '\'') && t[t.len() - 1] == t[0]
}

/// Whether these characters hold a `glob(...)` call whose argument is a
/// lone quote.
pub fn glob_call_broken_chars(s: &Vec<char>) -> (b: bool)
    ensures
        b == glob_call_broken(s@),
{
    let t = trim_range(s, 0, s.len());
    assert(s@.subrange(0, s@.len() as int) =~= s@);
    let n = t.len();
    if !(n >= 6 && t[0] == 'g' && t[1] == 'l' && t[2] == 'o' && t[3] == 'b' && t[4] == '(' && t[n - 1] == ')') {
        proof {
            if t@.len() >= 6 && t@.take(5) == seq!['g', 'l', 'o', 'b', '('] {
                assert(t@.take(5)[0] == t@[0] && t@.take(5)[1] == t@[1] && t@.take(5)[2] == t@[2]);
                assert(t@.take(5)[3] == t@[3] && t@.take(5)[4] == t@[4]);
            }
        }
        return false;
    }
    assert(t@.take(5) =~= seq!['g', 'l', 'o', 'b', '(']);
    let r = trim_range(&t, 5, n - 1);
    quote_wrapped_chars(&r) && r.len() == 1
}

/// Whether these characters hold a `flag_if(...)` call whose flag is a
/// lone quote.
pub fn flag_if_call_broken_chars(s: &Vec<char>) -> (b: bool)
    ensures
        b == flag_if_call_broken(s@),
{
    let t = trim_range(s, 0, s.len());
    assert(s@.subrange(0, s@.len() as int) =~= s@);
    let n = t.len();
    if !(n >= 9 && t[0] == 'f' && t[1] == 'l' && t[2] == 'a' && t[3] == 'g' && t[4] == '_' && t[5] == 'i'
        && t[6] == 'f' && t[7] == '(' && t[n - 1] == ')') {
        proof {
            if t@.len() >= 9 && t@.take(8) == seq!['f', 'l', 'a', 'g', '_', 'i', 'f', '('] {
                assert(t@.take(8)[0] == t@[0] && t@.take(8)[1] == t@[1] && t@.take(8)[2] == t@[2]);
                assert(t@.take(8)[3] == t@[3] && t@.take(8)[4] == t@[4] && t@.take(8)[5] == t@[5]);
                assert(t@.take(8)[6] == t@[6] && t@.take(8)[7] == t@[7]);
            }
        }
        return false;
    }
    assert(t@.take(8) =~= seq!['f', 'l', 'a', 'g', '_', 'i', 'f', '(']);
    let rest = sub_chars(&t, 8, n - 1);
    let comma = find_char(&rest, ',');
    proof {
        lemma_index_of(rest@, ',');
    }
    if comma == rest.len() {
        return false;
    }
    let fp = trim_range(&rest, 0, comma);
    assert(rest@.subrange(0, comma as int) =~= rest@.take(comma as int));
    quote_wrapped_chars(&fp) && fp.len() == 1
}

/// The pattern of a `glob(...)` call held in these characters.
pub fn glob_call_chars(s: &Vec<char>) -> (r: Option<Vec<char>>)
    requires
        !glob_call_broken(s@),
    ensures
        r is Some <==> glob_call(s@) is Some,
        r matches Some(p) ==> glob_call(s@) == Some(p@),
{
    let t = trim_range(s, 0, s.len());
    assert(s@.subrange(0, s@.len() as int) =~= s@);
    let n = t.len();
    if !(n >= 6 && t[0] == 'g' && t[1] == 'l' && t[2] == 'o' && t[3] == 'b' && t[4] == '(' && t[n - 1] == ')') {
        proof {
            if t@.len() >= 6 && t@.take(5) == seq!['g', 'l', 'o', 'b', '('] {
                assert(t@.take(5)[0] == t@[0] && t@.take(5)[1] == t@[1] && t@.take(5)[2] == t@[2]);
                assert(t@.take(5)[3] == t@[3] && t@.take(5)[4] == t@[4]);
            }
        }
        return None;
    }
    assert(t@.take(5) =~= seq!['g', 'l', 'o', 'b', '(']);
    let r = trim_range(&t, 5, n - 1);
    if quote_wrapped_chars(&r) {
        Some(sub_chars(&r, 1, r.len() - 1))
    } else {
        None
    }
}

/// Try to parse `glob("pattern")` or `glob('pattern')` from a brace-content
/// string, giving the pattern.
pub fn parse_glob_call(s: &str) -> (r: Option<String>)
    requires
        !glob_call_broken(s@),
    ensures
        r is Some <==> glob_call(s@) is Some,
        r matches Some(p) ==> glob_call(s@) == Some(p@),
{
    let cs = chars_of(s);
    match glob_call_chars(&cs) {
        Some(p) => Some(string_of(&p)),
        None => None,
    }
}

/// Index of the first `c` in `v`, or its length when absent.
fn find_char(v: &Vec<char>, c: char) -> (k: usize)
    ensures
        k == index_of(v@, c),
{
    let mut k: usize = 0;
    assert(v@.skip(0) =~= v@);
    while k < v.len() && v[k] != c
        invariant
            k <= v@.len(),
            index_of(v@, c) == k + index_of(v@.skip(k as int), c),
        decreases v@.len() - k,
    {
        assert(v@.skip(k as int).skip(1) =~= v@.skip(k + 1));
        k = k + 1;
    }
    proof {
        if k < v@.len() {
            assert(v@.skip(k as int)[0] == c);
        }
    }
    k
}

/// The flag and condition of a `flag_if(...)` call held in these characters.
pub fn flag_if_call_chars(s: &Vec<char>) -> (r: Option<(Vec<char>, Vec<char>)>)
    requires
        !flag_if_call_broken(s@),
    ensures
        r is Some <==> flag_if_call(s@) is Some,
        r matches Some(fc) ==> flag_if_call(s@) == Some((fc.0@, fc.1@)),
{
    let t = trim_range(s, 0, s.len());
    assert(s@.subrange(0, s@.len() as int) =~= s@);
    let n = t.len();
    if !(n >= 9 && t[0] == 'f' && t[1] == 'l' && t[2] == 'a' && t[3] == 'g' && t[4] == '_' && t[5] == 'i'
        && t[6] == 'f' && t[7] == '(' && t[n - 1] == ')') {
        proof {
            if t@.len() >= 9 && t@.take(8) == seq!['f', 'l', 'a', 'g', '_', 'i', 'f', '('] {
                assert(t@.take(8)[0] == t@[0] && t@.take(8)[1] == t@[1] && t@.take(8)[2] == t@[2]);
                assert(t@.take(8)[3] == t@[3] && t@.take(8)[4] == t@[4] && t@.take(8)[5] == t@[5]);
                assert(t@.take(8)[6] == t@[6] && t@.take(8)[7] == t@[7]);
            }
        }
        return None;
    }
    assert(t@.take(8) =~= seq!['f', 'l', 'a', 'g', '_', 'i', 'f', '(']);
    let rest = sub_chars(&t, 8, n - 1);
    let comma = find_char(&rest, ',');
    proof {
        lemma_index_of(rest@, ',');
    }
    if comma == rest.len() {
        return None;
    }
    let fp = trim_range(&rest, 0, comma);
    let cp = trim_range(&rest, comma + 1, rest.len());
    assert(rest@.subrange(0, comma as int) =~= rest@.take(comma as int));
    assert(rest@.subrange(comma + 1, rest@.len() as int) =~= rest@.skip(comma + 1));
    if !quote_wrapped_chars(&fp) {
        return None;
    }
    let flag = sub_chars(&fp, 1, fp.len() - 1);
    if ident_chars(&cp) {
        Some((flag, cp))
    } else {
        None
    }
}

/// Try to parse `flag_if("flag", condition)` from a brace-content string,
/// giving the flag and the condition's name.
pub fn parse_flag_if_call(s: &str) -> (r: Option<(String, String)>)
    requires
        !flag_if_call_broken(s@),
    ensures
        r is Some <==> flag_if_call(s@) is Some,
        r matches Some(fc) ==> flag_if_call(s@) == Some((fc.0@, fc.1@)),
{
    let cs = chars_of(s);
    match flag_if_call_chars(&cs) {
        Some((f, c)) => Some((string_of(&f), string_of(&c))),
        None => None,
    }
}

} // verus!

verus! {

/// Index of the first `}` at or after `k`, or the length when there is none.
pub open spec fn close_at(c: Seq<char>, k: int) -> int
    decreases c.len() - k,
{
    if k < 0 || k >= c.len() {
        c.len() as int
    } else if c[k] == '}' {
        k
    } else {
        close_at(c, k + 1)
    }
}

pub proof fn lemma_close_at(c: Seq<char>, k: int)
    requires
        0 <= k <= c.len(),
    ensures
        k <= close_at(c, k) <= c.len(),
        close_at(c, k) < c.len() ==> c[close_at(c, k)] == '}',
        forall|j: int| k <= j < close_at(c, k) ==> c[j] != '}',
    decreases c.len() - k,
{
    if k < c.len() && c[k] != '}' {
        lemma_close_at(c, k + 1);
    }
}

/// The name of a `{...}` placeholder: its content trimmed, cut at the first
/// `:` (where a format spec begins), trimmed again.
pub open spec fn capture_name(content: Seq<char>) -> Seq<char> {
    let t = trimmed(content);
    trimmed(t.take(index_of(t, ':')))
}

/// The views of a vector of character vectors.
pub open spec fn char_seqs(v: Seq<Vec<char>>) -> Seq<Seq<char>> {
    v.map_values(|x: Vec<char>| x@)
}

/// The named captures found scanning from `i`, added to `names` in order,
/// each once. `{{`, `}}` and `${` are skipped; a placeholder whose name is
/// not an identifier is ignored.
pub open spec fn captures_from(c: Seq<char>, i: int, names: Seq<Seq<char>>) -> Seq<Seq<char>>
    decreases c.len() - i,
{
    if i < 0 || i >= c.len() {
        names
    } else if c[i] == '{' && i + 1 < c.len() && c[i + 1] == '{' {
        captures_from(c, i + 2, names)
    } else if c[i] == '{' && i > 0 && c[i - 1] == '$' {
        captures_from(c, i + 1, names)
    } else if c[i] == '{' && close_at(c, i + 1) < c.len() {
        let end = close_at(c, i + 1);
        let name = capture_name(c.subrange(i + 1, end));
        proof {
            lemma_close_at(c, i + 1);
        }
        captures_from(c, end + 1, if is_ident(name) && !names.contains(name) { names.push(name) } else { names })
    } else if c[i] == '}' && i + 1 < c.len() && c[i + 1] == '}' {
        captures_from(c, i + 2, names)
    } else {
        captures_from(c, i + 1, names)
    }
}

/// Every name is an identifier and none occurs twice.
pub open spec fn distinct_idents(names: Seq<Seq<char>>) -> bool {
    &&& forall|k: int| 0 <= k < names.len() ==> is_ident(#[trigger] names[k])
    &&& forall|k: int, l: int| 0 <= k < l < names.len() ==> names[k] != names[l]
}

proof fn lemma_captures_distinct(c: Seq<char>, i: int, names: Seq<Seq<char>>)
    requires
        distinct_idents(names),
    ensures
        distinct_idents(captures_from(c, i, names)),
    decreases c.len() - i,
{
    if 0 <= i < c.len() {
        if c[i] == '{' && i + 1 < c.len() && c[i + 1] == '{' {
            lemma_captures_distinct(c, i + 2, names);
        } else if c[i] == '{' && i > 0 && c[i - 1] == '$' {
            lemma_captures_distinct(c, i + 1, names);
        } else if c[i] == '{' && close_at(c, i + 1) < c.len() {
            let end = close_at(c, i + 1);
            let name = capture_name(c.subrange(i + 1, end));
            lemma_close_at(c, i + 1);
            let next = if is_ident(name) && !names.contains(name) { names.push(name) } else { names };
            if is_ident(name) && !names.contains(name) {
                assert forall|k: int, l: int| 0 <= k < l < next.len() implies next[k] != next[l] by {
                    if l == names.len() {
                        assert(names[k] == next[k]);
                        if names[k] == name {
                            assert(names.contains(name));
                        }
                    }
                }
            }
            lemma_captures_distinct(c, end + 1, next);
        } else if c[i] == '}' && i + 1 < c.len() && c[i + 1] == '}' {
            lemma_captures_distinct(c, i + 2, names);
        } else {
            lemma_captures_distinct(c, i + 1, names);
        }
    }
}

/// Index of the first `}` at or after `k`, or the length when there is none.
fn close_from(c: &Vec<char>, k: usize) -> (r: usize)
    requires
        k <= c@.len(),
    ensures
        r == close_at(c@, k as int),
{
    let mut j = k;
    while j < c.len() && c[j] != '}'
        invariant
            k <= j <= c@.len(),
            close_at(c@, k as int) == close_at(c@, j as int),
        decreases c@.len() - j,
    {
        j = j + 1;
    }
    j
}

/// The name of the placeholder whose content is `c[lo..hi]`.
fn capture_name_of(c: &Vec<char>, lo: usize, hi: usize) -> (r: Vec<char>)
    requires
        lo <= hi <= c@.len(),
    ensures
        r@ == capture_name(c@.subrange(lo as int, hi as int)),
{
    let t = trim_range(c, lo, hi);
    let k = find_char(&t, ':');
    proof {
        lemma_index_of(t@, ':');
    }
    assert(t@.subrange(0, k as int) =~= t@.take(k as int));
    trim_range(&t, 0, k)
}

/// Whether two character vectors hold the same characters.
fn chars_eq(a: &Vec<char>, b: &Vec<char>) -> (r: bool)
    ensures
        r == (a@ == b@),
{
    if a.len() != b.len() {
        return false;
    }
    let mut k: usize = 0;
    while k < a.len()
        invariant
            a@.len() == b@.len(),
            k <= a@.len(),
            forall|j: int| 0 <= j < k ==> a@[j] == b@[j],
        decreases a@.len() - k,
    {
        if a[k] != b[k] {
            return false;
        }
        k = k + 1;
    }
    assert(a@ =~= b@);
    true
}

/// Whether `x` is one of `names`.
fn contains_chars(names: &Vec<Vec<char>>, x: &Vec<char>) -> (r: bool)
    ensures
        r == char_seqs(names@).contains(x@),
{
    let mut k: usize = 0;
    while k < names.len()
        invariant
            k <= names@.len(),
            forall|j: int| 0 <= j < k ==> char_seqs(names@)[j] != x@,
        decreases names@.len() - k,
    {
        if chars_eq(&names[k], x) {
            assert(char_seqs(names@)[k as int] == x@);
            return true;
        }
        k = k + 1;
    }
    false
}

/// Character vectors as strings.
fn strings_of(v: &Vec<Vec<char>>) -> (r: Vec<String>)
    ensures
        strs(r@) == char_seqs(v@),
{
    let mut r: Vec<String> = Vec::new();
    for k in 0..v.len()
        invariant
            strs(r@) == char_seqs(v@).take(k as int),
    {
        let ghost before = r@;
        let s = string_of(&v[k]);
        r.push(s);
        assert(strs(r@) =~= strs(before).push(s@));
        assert(char_seqs(v@).take(k + 1) =~= char_seqs(v@).take(k as int).push(v@[k as int]@));
    }
    assert(char_seqs(v@).take(v@.len() as int) =~= char_seqs(v@));
    r
}

/// Scan the format string for `{name}` placeholders where `name` is a valid
/// Rust identifier, and return each such name once, in order of first
/// appearance. Escaped braces `{{`/`}}` and shell variables `${...}` are
/// skipped; a format spec after `:` is not part of the name.
#[verifier::spinoff_prover]
#[verifier::rlimit(40)]
pub fn find_named_captures(s: &str) -> (names: Vec<String>)
    ensures
        strs(names@) == captures_from(s@, 0, seq![]),
        distinct_idents(strs(names@)),
{
    let c = chars_of(s);
    let len = c.len();
    let mut names: Vec<Vec<char>> = Vec::new();
    let mut i: usize = 0;
    assert(char_seqs(names@) =~= Seq::<Seq<char>>::empty());
    while i < len
        invariant
            len == c@.len(),
            c@ == s@,
            i <= len + 1,
            captures_from(c@, i as int, char_seqs(names@)) == captures_from(c@, 0, seq![]),
        decreases len + 1 - i,
    {
        if c[i] == '{' {
            if i + 1 < len && c[i + 1] == '{' {
                i = i + 2;
                continue;
            }
            if i > 0 && c[i - 1] == '$' {
                i = i + 1;
                continue;
            }
            let start = i + 1;
            let end = close_from(&c, start);
            proof {
                lemma_close_at(c@, start as int);
            }
            if end < len {
                let name = capture_name_of(&c, start, end);
                if ident_chars(&name) && !contains_chars(&names, &name) {
                    let ghost before = names@;
                    names.push(name);
                    assert(char_seqs(names@) =~= char_seqs(before).push(name@));
                }
                i = end + 1;
            } else {
                i = i + 1;
            }
        } else if c[i] == '}' && i + 1 < len && c[i + 1] == '}' {
            i = i + 2;
        } else {
            i = i + 1;
        }
    }
    proof {
        assert(char_seqs(Seq::<Vec<char>>::empty()) =~= Seq::<Seq<char>>::empty());
        lemma_captures_distinct(c@, 0, seq![]);
    }
    strings_of(&names)
}

} // verus!

verus! {

/// The format string built from `c` scanning from `i`: placeholders named in
/// `caps` are kept, every other brace is doubled so that it stands for
/// itself, and a shell variable `${...}` is kept with its braces doubled.
pub open spec fn transform_from(c: Seq<char>, caps: Seq<Seq<char>>, i: int) -> Seq<char>
    decreases c.len() - i,
{
    if i < 0 || i >= c.len() {
        seq![]
    } else if c[i] == '{' && i + 1 < c.len() && c[i + 1] == '{' {
        seq!['{', '{'] + transform_from(c, caps, i + 2)
    } else if c[i] == '{' && i > 0 && c[i - 1] == '$' {
        let end = close_at(c, i + 1);
        proof {
            lemma_close_at(c, i + 1);
        }
        if end < c.len() {
            seq!['{', '{'] + c.subrange(i + 1, end) + seq!['}', '}'] + transform_from(c, caps, end + 1)
        } else {
            seq!['{', '{'] + c.subrange(i + 1, end)
        }
    } else if c[i] == '{' && close_at(c, i + 1) < c.len()
        && caps.contains(capture_name(c.subrange(i + 1, close_at(c, i + 1)))) {
        let end = close_at(c, i + 1);
        proof {
            lemma_close_at(c, i + 1);
        }
        seq!['{'] + c.subrange(i + 1, end + 1) + transform_from(c, caps, end + 1)
    } else if c[i] == '{' {
        seq!['{', '{'] + transform_from(c, caps, i + 1)
    } else if c[i] == '}' && i + 1 < c.len() && c[i + 1] == '}' {
        seq!['}', '}'] + transform_from(c, caps, i + 2)
    } else if c[i] == '}' {
        seq!['}', '}'] + transform_from(c, caps, i + 1)
    } else {
        seq![c[i]] + transform_from(c, caps, i + 1)
    }
}

/// Appends `c[lo..hi]` to `out`.
fn push_range(out: &mut Vec<char>, c: &Vec<char>, lo: usize, hi: usize)
    requires
        lo <= hi <= c@.len(),
    ensures
        final(out)@ == old(out)@ + c@.subrange(lo as int, hi as int),
{
    let mut k = lo;
    while k < hi
        invariant
            lo <= k <= hi <= c@.len(),
            out@ == old(out)@ + c@.subrange(lo as int, k as int),
        decreases hi - k,
    {
        out.push(c[k]);
        assert(c@.subrange(lo as int, k + 1) =~= c@.subrange(lo as int, k as int).push(c@[k as int]));
        k = k + 1;
    }
}

/// Transform the format string for use as a `format!` string: keep `{name}`
/// placeholders whose name is one of `captures` (not preceded by `$`), and
/// double every other `{` and `}` so that it stands for itself.
#[verifier::spinoff_prover]
#[verifier::rlimit(40)]
pub fn transform_format_string(s: &str, captures: &[String]) -> (r: String)
    ensures
        r@ == transform_from(s@, strs(captures@), 0),
{
    let c = chars_of(s);
    let len = c.len();
    let mut caps: Vec<Vec<char>> = Vec::new();
    for k in 0..captures.len()
        invariant
            char_seqs(caps@) == strs(captures@).take(k as int),
    {
        let ghost before = caps@;
        let x = chars_of(captures[k].as_str());
        caps.push(x);
        assert(char_seqs(caps@) =~= char_seqs(before).push(x@));
        assert(strs(captures@).take(k + 1) =~= strs(captures@).take(k as int).push(captures@[k as int]@));
    }
    assert(strs(captures@).take(captures@.len() as int) =~= strs(captures@));
    let ghost cp = strs(captures@);
    let mut out: Vec<char> = Vec::new();
    let mut i: usize = 0;
    while i < len
        invariant
            len == c@.len(),
            c@ == s@,
            char_seqs(caps@) == cp,
            i <= len,
            out@ + transform_from(c@, cp, i as int) == transform_from(c@, cp, 0),
        decreases len - i,
    {
        let ghost o = out@;
        if c[i] == '{' {
            if i + 1 < len && c[i + 1] == '{' {
                out.push('{');
                out.push('{');
                assert(o + transform_from(c@, cp, i as int) =~= out@ + transform_from(c@, cp, i + 2));
                i = i + 2;
                continue;
            }
            let start = i + 1;
            let end = close_from(&c, start);
            proof {
                lemma_close_at(c@, start as int);
            }
            if i > 0 && c[i - 1] == '$' {
                out.push('{');
                out.push('{');
                push_range(&mut out, &c, start, end);
                if end < len {
                    out.push('}');
                    out.push('}');
                    assert(o + transform_from(c@, cp, i as int) =~= out@ + transform_from(c@, cp, end + 1));
                    i = end + 1;
                } else {
                    assert(o + transform_from(c@, cp, i as int) =~= out@ + transform_from(c@, cp, end as int));
                    i = end;
                }
                continue;
            }
            if end < len {
                let name = capture_name_of(&c, start, end);
                if contains_chars(&caps, &name) {
                    out.push('{');
                    push_range(&mut out, &c, start, end + 1);
                    assert(o + transform_from(c@, cp, i as int) =~= out@ + transform_from(c@, cp, end + 1));
                    i = end + 1;
                    continue;
                }
            }
            out.push('{');
            out.push('{');
            assert(o + transform_from(c@, cp, i as int) =~= out@ + transform_from(c@, cp, i + 1));
            i = i + 1;
        } else if c[i] == '}' {
            out.push('}');
            out.push('}');
            if i + 1 < len && c[i + 1] == '}' {
                assert(o + transform_from(c@, cp, i as int) =~= out@ + transform_from(c@, cp, i + 2));
                i = i + 2;
            } else {
                assert(o + transform_from(c@, cp, i as int) =~= out@ + transform_from(c@, cp, i + 1));
                i = i + 1;
            }
        } else {
            out.push(c[i]);
            assert(o + transform_from(c@, cp, i as int) =~= out@ + transform_from(c@, cp, i + 1));
            i = i + 1;
        }
    }
    assert(out@ =~= transform_from(c@, cp, 0));
    string_of(&out)
}

} // verus!

verus! {

/// The decimal digit for `d < 10`.
pub open spec fn digit_char(d: nat) -> char {
    if d == 0 { '0' } else if d == 1 { '1' } else if d == 2 { '2' } else if d == 3 { '3' } else if d == 4 { '4' }
    else if d == 5 { '5' } else if d == 6 { '6' } else if d == 7 { '7' } else if d == 8 { '8' } else { '9' }
}

/// The decimal writing of a number, as `format!("{}")` gives it.
pub open spec fn decimal(n: nat) -> Seq<char>
    decreases n,
{
    if n < 10 {
        seq![digit_char(n)]
    } else {
        decimal(n / 10).push(digit_char(n % 10))
    }
}

fn digit(d: usize) -> (c: char)
    requires
        d < 10,
    ensures
        c == digit_char(d as nat),
{
    match d {
        0 => '0',
        1 => '1',
        2 => '2',
        3 => '3',
        4 => '4',
        5 => '5',
        6 => '6',
        7 => '7',
        8 => '8',
        _ => '9',
    }
}

/// Appends the decimal writing of `n`.
pub fn push_decimal(out: &mut Vec<char>, n: usize)
    ensures
        final(out)@ == old(out)@ + decimal(n as nat),
    decreases n,
{
    if n >= 10 {
        push_decimal(out, n / 10);
    }
    let ghost mid = out@;
    out.push(digit(n % 10));
    proof {
        if n >= 10 {
            assert(out@ =~= old(out)@ + decimal(n as nat));
        } else {
            assert(out@ =~= old(out)@ + decimal(n as nat));
        }
    }
}

/// The synthetic variable a glob call is replaced by: `__raxx_glob_<n>`.
pub open spec fn glob_var(n: nat) -> Seq<char> {
    seq!['_', '_', 'r', 'a', 'x', 'x', '_', 'g', 'l', 'o', 'b', '_'] + decimal(n)
}

/// The synthetic variable a `flag_if` call is replaced by: `__raxx_flag_<n>`.
pub open spec fn flag_var(n: nat) -> Seq<char> {
    seq!['_', '_', 'r', 'a', 'x', 'x', '_', 'f', 'l', 'a', 'g', '_'] + decimal(n)
}

/// A `{...}` placeholder for a variable.
pub open spec fn placeholder(v: Seq<char>) -> Seq<char> {
    seq!['{'] + v + seq!['}']
}

/// What extracting inline calls yields, as views: the rewritten format
/// string, the glob calls (variable, pattern) and the flag calls (variable,
/// flag, condition).
pub type ExtractView = (Seq<char>, Seq<(Seq<char>, Seq<char>)>, Seq<(Seq<char>, Seq<char>, Seq<char>)>);

/// Scanning from `i`: each `{glob("...")}` and `{flag_if("...", var)}`
/// is replaced by a placeholder for a fresh synthetic variable and recorded;
/// everything else is copied. `None` when a call's quoted argument is a
/// lone quote, which cannot be unquoted.
pub open spec fn extract_from(c: Seq<char>, i: int, acc: ExtractView) -> Option<ExtractView>
    decreases c.len() - i,
{
    let (out, globs, flags) = acc;
    if i < 0 || i >= c.len() {
        Some(acc)
    } else if c[i] == '{' && i + 1 < c.len() && c[i + 1] == '{' {
        extract_from(c, i + 2, (out + seq!['{', '{'], globs, flags))
    } else if c[i] == '{' && i > 0 && c[i - 1] == '$' {
        extract_from(c, i + 1, (out.push('{'), globs, flags))
    } else if c[i] == '{' && close_at(c, i + 1) < c.len() {
        let end = close_at(c, i + 1);
        let t = trimmed(c.subrange(i + 1, end));
        proof {
            lemma_close_at(c, i + 1);
        }
        if glob_call_broken(t) {
            None
        } else {
            match glob_call(t) {
                Some(p) => {
                    let v = glob_var(globs.len());
                    extract_from(c, end + 1, (out + placeholder(v), globs.push((v, p)), flags))
                },
                None => if flag_if_call_broken(t) {
                    None
                } else {
                    match flag_if_call(t) {
                        Some((f, cond)) => {
                            let v = flag_var(flags.len());
                            extract_from(c, end + 1, (out + placeholder(v), globs, flags.push((v, f, cond))))
                        },
                        None => extract_from(c, i + 1, (out.push('{'), globs, flags)),
                    }
                },
            }
        }
    } else {
        extract_from(c, i + 1, (out.push(c[i]), globs, flags))
    }
}

/// A glob call found in the format string, e.g. `{glob("**/*.rs")}`.
#[derive(Debug)]
pub struct GlobCall {
    /// Synthetic variable name, e.g. `__raxx_glob_0`.
    pub var_name: String,
    /// The glob pattern string, e.g. `**/*.rs`.
    pub pattern: String,
}

/// A flag_if call found in the format string, e.g. `{flag_if("-v", verbose)}`.
#[derive(Debug)]
pub struct FlagIfCall {
    /// Synthetic variable name, e.g. `__raxx_flag_0`.
    pub var_name: String,
    /// The flag string, e.g. `-v`.
    pub flag: String,
    /// The condition variable name, e.g. `verbose`.
    pub condition: String,
}

/// Result of pre-processing inline function calls in the format string.
#[derive(Debug)]
pub struct InlineCalls {
    /// The format string with function calls replaced by synthetic vars.
    pub preprocessed: String,
    /// Extracted glob calls.
    pub globs: Vec<GlobCall>,
    /// Extracted flag_if calls.
    pub flag_ifs: Vec<FlagIfCall>,
}

impl InlineCalls {
    pub open spec fn view_of(self) -> ExtractView {
        (
            self.preprocessed@,
            self.globs@.map_values(|g: GlobCall| (g.var_name@, g.pattern@)),
            self.flag_ifs@.map_values(|f: FlagIfCall| (f.var_name@, f.flag@, f.condition@)),
        )
    }
}

/// Pre-process the format string: find `{glob("...")}` and
/// `{flag_if("...", var)}` calls and replace them with placeholders for
/// synthetic variables, recording each call.
#[verifier::spinoff_prover]
#[verifier::rlimit(40)]
pub fn extract_inline_calls(s: &str) -> (r: InlineCalls)
    requires
        extract_from(s@, 0, (seq![], seq![], seq![])) is Some,
    ensures
        extract_from(s@, 0, (seq![], seq![], seq![])) == Some(r.view_of()),
{
    match try_extract_inline_calls(s) {
        Some(r) => r,
        None => vstd::pervasive::unreached(),
    }
}

/// Like `extract_inline_calls`, for any format string: `None` exactly when a
/// call's quoted argument is a lone quote, which cannot be unquoted.
#[verifier::spinoff_prover]
#[verifier::rlimit(40)]
pub fn try_extract_inline_calls(s: &str) -> (r: Option<InlineCalls>)
    ensures
        r is Some <==> extract_from(s@, 0, (seq![], seq![], seq![])) is Some,
        r matches Some(x) ==> extract_from(s@, 0, (seq![], seq![], seq![])) == Some(x.view_of()),
{
    let c = chars_of(s);
    let len = c.len();
    let mut out: Vec<char> = Vec::new();
    let mut globs: Vec<GlobCall> = Vec::new();
    let mut flag_ifs: Vec<FlagIfCall> = Vec::new();
    let ghost start = extract_from(s@, 0, (seq![], seq![], seq![]));
    assert(c@ == s@);
    let mut i: usize = 0;
    proof {
        assert(globs@.map_values(|g: GlobCall| (g.var_name@, g.pattern@)) =~= Seq::<(Seq<char>, Seq<char>)>::empty());
        assert(flag_ifs@.map_values(|f: FlagIfCall| (f.var_name@, f.flag@, f.condition@))
            =~= Seq::<(Seq<char>, Seq<char>, Seq<char>)>::empty());
    }
    while i < len
        invariant
            len == c@.len(),
            c@ == s@,
            i <= len + 1,
            start == extract_from(s@, 0, (seq![], seq![], seq![])),
            extract_from(c@, i as int, (
                out@,
                globs@.map_values(|g: GlobCall| (g.var_name@, g.pattern@)),
                flag_ifs@.map_values(|f: FlagIfCall| (f.var_name@, f.flag@, f.condition@)),
            )) == start,
        decreases len + 1 - i,
    {
        let ghost gv = globs@.map_values(|g: GlobCall| (g.var_name@, g.pattern@));
        let ghost fv = flag_ifs@.map_values(|f: FlagIfCall| (f.var_name@, f.flag@, f.condition@));
        let ghost o = out@;
        if c[i] == '{' {
            if i + 1 < len && c[i + 1] == '{' {
                out.push('{');
                out.push('{');
                assert(out@ =~= o + seq!['{', '{']);
                i = i + 2;
                continue;
            }
            if i > 0 && c[i - 1] == '$' {
                out.push('{');
                i = i + 1;
                continue;
            }
            let start_k = i + 1;
            let end = close_from(&c, start_k);
            proof {
                lemma_close_at(c@, start_k as int);
            }
            if end < len {
                let t = trim_range(&c, start_k, end);
                if glob_call_broken_chars(&t) {
                    assert(extract_from(c@, i as int, (o, gv, fv)) is None);
                    return None;
                }
                match glob_call_chars(&t) {
                    Some(p) => {
                        let mut v: Vec<char> = Vec::new();
                        v.push('_');
                        v.push('_');
                        v.push('r');
                        v.push('a');
                        v.push('x');
                        v.push('x');
                        v.push('_');
                        v.push('g');
                        v.push('l');
                        v.push('o');
                        v.push('b');
                        v.push('_');
                        push_decimal(&mut v, globs.len());
                        assert(v@ =~= glob_var(gv.len()));
                        out.push('{');
                        push_range(&mut out, &v, 0, v.len());
                        out.push('}');
                        assert(v@.subrange(0, v@.len() as int) =~= v@);
                        assert(out@ =~= o + placeholder(v@));
                        let g = GlobCall { var_name: string_of(&v), pattern: string_of(&p) };
                        globs.push(g);
                        assert(globs@.map_values(|g: GlobCall| (g.var_name@, g.pattern@)) =~= gv.push((v@, p@)));
                        i = end + 1;
                        continue;
                    },
                    None => {},
                }
                if flag_if_call_broken_chars(&t) {
                    assert(extract_from(c@, i as int, (o, gv, fv)) is None);
                    return None;
                }
                match flag_if_call_chars(&t) {
                    Some((f, cond)) => {
                        let mut v: Vec<char> = Vec::new();
                        v.push('_');
                        v.push('_');
                        v.push('r');
                        v.push('a');
                        v.push('x');
                        v.push('x');
                        v.push('_');
                        v.push('f');
                        v.push('l');
                        v.push('a');
                        v.push('g');
                        v.push('_');
                        push_decimal(&mut v, flag_ifs.len());
                        assert(v@ =~= flag_var(fv.len()));
                        out.push('{');
                        push_range(&mut out, &v, 0, v.len());
                        out.push('}');
                        assert(v@.subrange(0, v@.len() as int) =~= v@);
                        assert(out@ =~= o + placeholder(v@));
                        let fc = FlagIfCall { var_name: string_of(&v), flag: string_of(&f), condition: string_of(&cond) };
                        flag_ifs.push(fc);
                        assert(flag_ifs@.map_values(|f: FlagIfCall| (f.var_name@, f.flag@, f.condition@))
                            =~= fv.push((v@, f@, cond@)));
                        i = end + 1;
                        continue;
                    },
                    None => {},
                }
            }
            out.push('{');
            i = i + 1;
        } else {
            out.push(c[i]);
            i = i + 1;
        }
    }
    assert(extract_from(c@, i as int, (
        out@,
        globs@.map_values(|g: GlobCall| (g.var_name@, g.pattern@)),
        flag_ifs@.map_values(|f: FlagIfCall| (f.var_name@, f.flag@, f.condition@)),
    )) is Some);
    let r = InlineCalls { preprocessed: string_of(&out), globs, flag_ifs };
    Some(r)
}

} // verus!

verus! {

/// No brace occurs in the text.
pub open spec fn brace_free(c: Seq<char>) -> bool {
    forall|k: int| 0 <= k < c.len() ==> c[k] != '{' && c[k] != '}'
}

proof fn lemma_transform_plain(c: Seq<char>, caps: Seq<Seq<char>>, i: int)
    requires
        brace_free(c),
        0 <= i <= c.len(),
    ensures
        transform_from(c, caps, i) == c.skip(i),
    decreases c.len() - i,
{
    if i < c.len() {
        lemma_transform_plain(c, caps, i + 1);
        assert(seq![c[i]] + c.skip(i + 1) =~= c.skip(i));
    } else {
        assert(c.skip(i) =~= Seq::<char>::empty());
    }
}

/// A format string without braces is kept as it is.
pub proof fn transform_plain_law(c: Seq<char>, caps: Seq<Seq<char>>)
    requires
        brace_free(c),
    ensures
        transform_from(c, caps, 0) == c,
{
    lemma_transform_plain(c, caps, 0);
    assert(c.skip(0) =~= c);
}

/// What a format string without placeholders prints: `{{` prints `{`, `}}`
/// prints `}`, and any other character prints itself; `None` when a brace
/// stands alone, which `format!` refuses.
pub open spec fn format_rendering(f: Seq<char>) -> Option<Seq<char>>
    decreases f.len(),
{
    if f.len() == 0 {
        Some(seq![])
    } else if f[0] == '{' || f[0] == '}' {
        if f.len() >= 2 && f[1] == f[0] {
            match format_rendering(f.skip(2)) {
                Some(r) => Some(seq![f[0]] + r),
                None => None,
            }
        } else {
            None
        }
    } else {
        match format_rendering(f.skip(1)) {
            Some(r) => Some(seq![f[0]] + r),
            None => None,
        }
    }
}

/// Neither `{{` nor `}}` occurs in the text.
pub open spec fn no_doubled_braces(c: Seq<char>) -> bool {
    forall|k: int|
        0 <= k < c.len() - 1 ==> !(#[trigger] c[k] == '{' && c[k + 1] == '{') && !(c[k] == '}' && c[k + 1] == '}')
}

/// No `{` occurs inside a shell variable `${...}` (up to its `}`, or to the
/// end of the text when it is not closed).
pub open spec fn shell_vars_unnested(c: Seq<char>) -> bool {
    forall|i: int, j: int|
        #![trigger c[i], c[j]]
        0 < i < c.len() && c[i] == '{' && c[i - 1] == '$' && i < j < close_at(c, i + 1) ==> c[j] != '{'
}

proof fn lemma_rendering_concat(p: Seq<char>, q: Seq<char>)
    requires
        format_rendering(p) is Some,
    ensures
        format_rendering(p + q) == match format_rendering(q) {
            Some(y) => Some(format_rendering(p)->0 + y),
            None => None::<Seq<char>>,
        },
    decreases p.len(),
{
    if p.len() == 0 {
        assert(p + q =~= q);
        if let Some(y) = format_rendering(q) {
            assert(format_rendering(p)->0 + y =~= y);
        }
    } else if p[0] == '{' || p[0] == '}' {
        lemma_rendering_concat(p.skip(2), q);
        assert((p + q).skip(2) =~= p.skip(2) + q);
        assert((p + q)[0] == p[0] && (p + q)[1] == p[1]);
        if let Some(y) = format_rendering(q) {
            let r = format_rendering(p.skip(2))->0;
            assert(seq![p[0]] + (r + y) =~= (seq![p[0]] + r) + y);
        }
    } else {
        lemma_rendering_concat(p.skip(1), q);
        assert((p + q).skip(1) =~= p.skip(1) + q);
        assert((p + q)[0] == p[0]);
        if let Some(y) = format_rendering(q) {
            let r = format_rendering(p.skip(1))->0;
            assert(seq![p[0]] + (r + y) =~= (seq![p[0]] + r) + y);
        }
    }
}

proof fn lemma_rendering_plain(c: Seq<char>)
    requires
        brace_free(c),
    ensures
        format_rendering(c) == Some(c),
    decreases c.len(),
{
    if c.len() > 0 {
        assert(brace_free(c.skip(1)));
        lemma_rendering_plain(c.skip(1));
        assert(seq![c[0]] + c.skip(1) =~= c);
    }
}

proof fn lemma_rendering_pair(ch: char)
    requires
        ch == '{' || ch == '}',
    ensures
        format_rendering(seq![ch, ch]) == Some(seq![ch]),
{
    let f = seq![ch, ch];
    assert(f.skip(2) =~= Seq::<char>::empty());
    assert(format_rendering(f.skip(2)) == Some(Seq::<char>::empty()));
    assert(seq![ch] + Seq::<char>::empty() =~= seq![ch]);
}

proof fn lemma_transform_renders(c: Seq<char>, i: int)
    requires
        0 <= i <= c.len(),
        no_doubled_braces(c),
        shell_vars_unnested(c),
    ensures
        format_rendering(transform_from(c, Seq::empty(), i)) == Some(c.skip(i)),
    decreases c.len() - i,
{
    let caps = Seq::<Seq<char>>::empty();
    if i == c.len() {
        assert(c.skip(i) =~= Seq::<char>::empty());
    } else if c[i] == '{' && i + 1 < c.len() && c[i + 1] == '{' {
        assert(false);
    } else if c[i] == '{' && i > 0 && c[i - 1] == '$' {
        let end = close_at(c, i + 1);
        lemma_close_at(c, i + 1);
        let content = c.subrange(i + 1, end);
        assert forall|k: int| 0 <= k < content.len() implies content[k] != '{' && content[k] != '}' by {
            assert(c[i] == '{' && c[i + 1 + k] == c[i + 1 + k]);
        }
        lemma_rendering_plain(content);
        let open = seq!['{', '{'];
        lemma_rendering_pair('{');
        lemma_rendering_concat(open, content);
        assert(format_rendering(open + content) == Some(seq!['{'] + content));
        if end < c.len() {
            let close = seq!['}', '}'];
            lemma_rendering_pair('}');
            lemma_rendering_concat(open + content, close);
            let a = open + content + close;
            assert(format_rendering(a) == Some(seq!['{'] + content + seq!['}']));
            lemma_transform_renders(c, end + 1);
            lemma_rendering_concat(a, transform_from(c, caps, end + 1));
            assert(seq!['{'] + content + seq!['}'] + c.skip(end + 1) =~= c.skip(i));
        } else {
            assert(seq!['{'] + content =~= c.skip(i));
        }
    } else if c[i] == '{' {
        lemma_rendering_pair('{');
        lemma_transform_renders(c, i + 1);
        lemma_rendering_concat(seq!['{', '{'], transform_from(c, caps, i + 1));
        assert(seq!['{'] + c.skip(i + 1) =~= c.skip(i));
    } else if c[i] == '}' && i + 1 < c.len() && c[i + 1] == '}' {
        assert(false);
    } else if c[i] == '}' {
        lemma_rendering_pair('}');
        lemma_transform_renders(c, i + 1);
        lemma_rendering_concat(seq!['}', '}'], transform_from(c, caps, i + 1));
        assert(seq!['}'] + c.skip(i + 1) =~= c.skip(i));
    } else {
        lemma_rendering_plain(seq![c[i]]);
        lemma_transform_renders(c, i + 1);
        lemma_rendering_concat(seq![c[i]], transform_from(c, caps, i + 1));
        assert(seq![c[i]] + c.skip(i + 1) =~= c.skip(i));
    }
}

/// With no captures, a format string in which neither `{{` nor `}}` occurs
/// and no shell variable holds a `{` becomes a format string that `format!`
/// accepts and that prints the original text back.
pub proof fn transform_rendering_law(c: Seq<char>)
    requires
        no_doubled_braces(c),
        shell_vars_unnested(c),
    ensures
        format_rendering(transform_from(c, Seq::empty(), 0)) == Some(c),
{
    lemma_transform_renders(c, 0);
    assert(c.skip(0) =~= c);
}

proof fn lemma_extract_plain(c: Seq<char>, i: int, acc: ExtractView)
    requires
        brace_free(c),
        0 <= i <= c.len(),
    ensures
        extract_from(c, i, acc) == Some((acc.0 + c.skip(i), acc.1, acc.2)),
    decreases c.len() - i,
{
    if i < c.len() {
        lemma_extract_plain(c, i + 1, (acc.0.push(c[i]), acc.1, acc.2));
        assert(acc.0.push(c[i]) + c.skip(i + 1) =~= acc.0 + c.skip(i));
    } else {
        assert(acc.0 + c.skip(i) =~= acc.0);
    }
}

/// A format string without braces holds no inline call and is kept as it is.
pub proof fn extract_plain_law(c: Seq<char>)
    requires
        brace_free(c),
    ensures
        extract_from(c, 0, (seq![], seq![], seq![])) == Some((c, Seq::<(Seq<char>, Seq<char>)>::empty(),
            Seq::<(Seq<char>, Seq<char>, Seq<char>)>::empty())),
{
    lemma_extract_plain(c, 0, (seq![], seq![], seq![]));
    assert(Seq::<char>::empty() + c.skip(0) =~= c);
}

/// A format string without braces has no named capture.
pub proof fn captures_plain_law(c: Seq<char>)
    requires
        brace_free(c),
    ensures
        captures_from(c, 0, seq![]).len() == 0,
{
    lemma_captures_plain(c, 0);
}

proof fn lemma_captures_plain(c: Seq<char>, i: int)
    requires
        brace_free(c),
        0 <= i <= c.len(),
    ensures
        captures_from(c, i, seq![]) == Seq::<Seq<char>>::empty(),
    decreases c.len() - i,
{
    if i < c.len() {
        lemma_captures_plain(c, i + 1);
    }
}

} // verus!

verus! {

/// A name of the synthetic variables that inline calls are replaced by.
pub open spec fn is_synthetic(n: Seq<char>) -> bool {
    (n.len() >= 12 && n.take(12) == seq!['_', '_', 'r', 'a', 'x', 'x', '_', 'g', 'l', 'o', 'b', '_'])
    || (n.len() >= 12 && n.take(12) == seq!['_', '_', 'r', 'a', 'x', 'x', '_', 'f', 'l', 'a', 'g', '_'])
}

/// The names that are not synthetic, in order.
pub open spec fn user_names(names: Seq<Seq<char>>) -> Seq<Seq<char>>
    decreases names.len(),
{
    if names.len() == 0 {
        seq![]
    } else {
        user_names(names.drop_last()) + if is_synthetic(names.last()) {
            Seq::<Seq<char>>::empty()
        } else {
            seq![names.last()]
        }
    }
}

/// How a `shell!` invocation is expanded.
#[derive(Debug)]
pub enum ShellPlan {
    /// Named captures or inline calls: the command is `format` rendered, the
    /// captured variables shell-escaped and the calls evaluated.
    Interpolate { format: String, captures: Vec<String>, calls: InlineCalls },
    /// No placeholders but extra arguments: they are escaped and appended.
    Append,
    /// No placeholders and no extra arguments: the string is the command.
    Plain,
}

/// The variables a rendered format string refers to: the user's captures,
/// then the glob variables, then the flag variables.
pub open spec fn all_placeholders(x: ExtractView, caps: Seq<Seq<char>>) -> Seq<Seq<char>> {
    caps + x.1.map_values(|g: (Seq<char>, Seq<char>)| g.0) + x.2.map_values(|f: (Seq<char>, Seq<char>, Seq<char>)| f.0)
}

/// Whether a name begins with the prefix of the synthetic variables.
fn synthetic_chars(n: &Vec<char>) -> (b: bool)
    ensures
        b == is_synthetic(n@),
{
    if n.len() < 12 {
        return false;
    }
    let head = n[0] == '_' && n[1] == '_' && n[2] == 'r' && n[3] == 'a' && n[4] == 'x' && n[5] == 'x' && n[6] == '_';
    let glob = n[7] == 'g' && n[8] == 'l' && n[9] == 'o' && n[10] == 'b' && n[11] == '_';
    let flag = n[7] == 'f' && n[8] == 'l' && n[9] == 'a' && n[10] == 'g' && n[11] == '_';
    let b = head && (glob || flag);
    proof {
        let t = n@.take(12);
        assert(forall|k: int| 0 <= k < 12 ==> t[k] == n@[k]);
        if b {
            if glob {
                assert(t =~= seq!['_', '_', 'r', 'a', 'x', 'x', '_', 'g', 'l', 'o', 'b', '_']);
            } else {
                assert(t =~= seq!['_', '_', 'r', 'a', 'x', 'x', '_', 'f', 'l', 'a', 'g', '_']);
            }
        } else {
            if t == seq!['_', '_', 'r', 'a', 'x', 'x', '_', 'g', 'l', 'o', 'b', '_'] {
                assert(t[0] == '_' && t[1] == '_' && t[2] == 'r' && t[3] == 'a' && t[4] == 'x' && t[5] == 'x');
                assert(t[6] == '_' && t[7] == 'g' && t[8] == 'l' && t[9] == 'o' && t[10] == 'b' && t[11] == '_');
            }
            if t == seq!['_', '_', 'r', 'a', 'x', 'x', '_', 'f', 'l', 'a', 'g', '_'] {
                assert(t[0] == '_' && t[1] == '_' && t[2] == 'r' && t[3] == 'a' && t[4] == 'x' && t[5] == 'x');
                assert(t[6] == '_' && t[7] == 'f' && t[8] == 'l' && t[9] == 'a' && t[10] == 'g' && t[11] == '_');
            }
        }
    }
    b
}

/// The plan for a format string `s` whose calls can be extracted: an
/// interpolation when named captures (synthetic variables aside) or calls
/// remain, keeping exactly those placeholders; otherwise appending the extra
/// arguments when there are any, or the string as it is.
pub open spec fn planned(s: Seq<char>, has_extra_args: bool, p: ShellPlan) -> bool {
    let x = extract_from(s, 0, (seq![], seq![], seq![]))->0;
    let caps = user_names(captures_from(x.0, 0, seq![]));
    if caps.len() > 0 || x.1.len() > 0 || x.2.len() > 0 {
        &&& p matches ShellPlan::Interpolate { format, captures, calls }
        &&& calls.view_of() == x
        &&& strs(captures@) == caps
        &&& format@ == transform_from(x.0, all_placeholders(x, caps), 0)
    } else if has_extra_args {
        p is Append
    } else {
        p is Plain
    }
}

/// Like `plan_shell`, for any format string: `None` exactly when a call's
/// quoted argument is a lone quote, which cannot be unquoted.
pub fn try_plan_shell(format_str: &str, has_extra_args: bool) -> (r: Option<ShellPlan>)
    ensures
        r is Some <==> extract_from(format_str@, 0, (seq![], seq![], seq![])) is Some,
        r matches Some(p) ==> planned(format_str@, has_extra_args, p),
{
    match try_extract_inline_calls(format_str) {
        Some(_) => Some(plan_shell(format_str, has_extra_args)),
        None => None,
    }
}

/// Decides how a `shell!` format string is expanded, given whether extra
/// arguments follow it: inline calls are extracted first; the named
/// captures left (synthetic variables aside) and the calls make it an
/// interpolation, whose format string keeps exactly those placeholders.
pub fn plan_shell(format_str: &str, has_extra_args: bool) -> (p: ShellPlan)
    requires
        extract_from(format_str@, 0, (seq![], seq![], seq![])) is Some,
    ensures
        planned(format_str@, has_extra_args, p),
{
    let calls = extract_inline_calls(format_str);
    let ghost x = calls.view_of();
    let found = find_named_captures(calls.preprocessed.as_str());
    let ghost names = strs(found@);
    let mut captures: Vec<String> = Vec::new();
    for k in 0..found.len()
        invariant
            names == strs(found@),
            strs(captures@) == user_names(names.take(k as int)),
    {
        let cs = chars_of(found[k].as_str());
        assert(names.take(k + 1).drop_last() =~= names.take(k as int));
        assert(names.take(k + 1).last() == found@[k as int]@);
        if !synthetic_chars(&cs) {
            let ghost before = captures@;
            let c = found[k].clone();
            captures.push(c);
            assert(strs(captures@) =~= strs(before).push(c@));
            assert(strs(captures@) =~= user_names(names.take(k + 1)));
        } else {
            assert(user_names(names.take(k + 1)) =~= user_names(names.take(k as int)));
        }
    }
    assert(names.take(found@.len() as int) =~= names);
    if captures.len() > 0 || calls.globs.len() > 0 || calls.flag_ifs.len() > 0 {
        let mut all: Vec<String> = Vec::new();
        for k in 0..captures.len()
            invariant
                strs(all@) == strs(captures@).take(k as int),
        {
            let ghost before = all@;
            let c = captures[k].clone();
            all.push(c);
            assert(strs(all@) =~= strs(before).push(c@));
            assert(strs(captures@).take(k + 1) =~= strs(captures@).take(k as int).push(captures@[k as int]@));
        }
        assert(strs(captures@).take(captures@.len() as int) =~= strs(captures@));
        let ghost gv = x.1.map_values(|g: (Seq<char>, Seq<char>)| g.0);
        for k in 0..calls.globs.len()
            invariant
                x == calls.view_of(),
                gv == x.1.map_values(|g: (Seq<char>, Seq<char>)| g.0),
                strs(all@) == strs(captures@) + gv.take(k as int),
        {
            let ghost before = all@;
            let v = calls.globs[k].var_name.clone();
            all.push(v);
            assert(strs(all@) =~= strs(before).push(v@));
            assert(gv.take(k + 1) =~= gv.take(k as int).push(gv[k as int]));
        }
        assert(gv.take(calls.globs@.len() as int) =~= gv);
        let ghost fv = x.2.map_values(|f: (Seq<char>, Seq<char>, Seq<char>)| f.0);
        for k in 0..calls.flag_ifs.len()
            invariant
                x == calls.view_of(),
                fv == x.2.map_values(|f: (Seq<char>, Seq<char>, Seq<char>)| f.0),
                strs(all@) == strs(captures@) + gv + fv.take(k as int),
        {
            let ghost before = all@;
            let v = calls.flag_ifs[k].var_name.clone();
            all.push(v);
            assert(strs(all@) =~= strs(before).push(v@));
            assert(fv.take(k + 1) =~= fv.take(k as int).push(fv[k as int]));
        }
        assert(fv.take(calls.flag_ifs@.len() as int) =~= fv);
        let format = transform_format_string(calls.preprocessed.as_str(), all.as_slice());
        ShellPlan::Interpolate { format, captures, calls }
    } else if has_extra_args {
        ShellPlan::Append
    } else {
        ShellPlan::Plain
    }
}

} // verus!

verus! {

/// The value of a decimal digit character.
pub open spec fn digit_value(c: char) -> nat {
    if c == '1' { 1 } else if c == '2' { 2 } else if c == '3' { 3 } else if c == '4' { 4 } else if c == '5' { 5 }
    else if c == '6' { 6 } else if c == '7' { 7 } else if c == '8' { 8 } else if c == '9' { 9 } else { 0 }
}

/// The number a string of decimal digits reads as.
pub open spec fn decimal_value(s: Seq<char>) -> nat
    decreases s.len(),
{
    if s.len() == 0 {
        0
    } else {
        decimal_value(s.drop_last()) * 10 + digit_value(s.last())
    }
}

proof fn lemma_digit_value(d: nat)
    requires
        d < 10,
    ensures
        digit_value(digit_char(d)) == d,
{
    if d == 0 {} else if d == 1 {} else if d == 2 {} else if d == 3 {} else if d == 4 {}
    else if d == 5 {} else if d == 6 {} else if d == 7 {} else if d == 8 {} else {}
}

proof fn lemma_decimal_value(n: nat)
    ensures
        decimal_value(decimal(n)) == n,
        decimal(n).len() > 0,
    decreases n,
{
    if n < 10 {
        lemma_digit_value(n);
        assert(seq![digit_char(n)].drop_last() =~= Seq::<char>::empty());
        assert(decimal_value(Seq::<char>::empty()) == 0);
        assert(seq![digit_char(n)].last() == digit_char(n));
    } else {
        lemma_digit_value(n % 10);
        lemma_decimal_value(n / 10);
        let d = decimal(n / 10);
        assert(d.push(digit_char(n % 10)).drop_last() =~= d);
        assert(d.push(digit_char(n % 10)).last() == digit_char(n % 10));
        assert(n == (n / 10) * 10 + n % 10);
    }
}

/// Two synthetic variables of one kind are equal only for equal numbers.
proof fn lemma_synthetic_distinct(prefix: Seq<char>, i: nat, j: nat)
    requires
        prefix + decimal(i) == prefix + decimal(j),
    ensures
        i == j,
{
    assert((prefix + decimal(i)).skip(prefix.len() as int) =~= decimal(i));
    assert((prefix + decimal(j)).skip(prefix.len() as int) =~= decimal(j));
    lemma_decimal_value(i);
    lemma_decimal_value(j);
}

/// `w` occurs in `t` as a contiguous piece.
pub open spec fn occurs(w: Seq<char>, t: Seq<char>) -> bool {
    exists|p: int| 0 <= p && p + w.len() <= t.len() && #[trigger] t.subrange(p, p + w.len()) == w
}

proof fn lemma_occurs_append(w: Seq<char>, t: Seq<char>, u: Seq<char>)
    requires
        occurs(w, t),
    ensures
        occurs(w, t + u),
{
    let p = choose|p: int| 0 <= p && p + w.len() <= t.len() && #[trigger] t.subrange(p, p + w.len()) == w;
    assert((t + u).subrange(p, p + w.len()) =~= t.subrange(p, p + w.len()));
}

proof fn lemma_occurs_end(w: Seq<char>, t: Seq<char>)
    ensures
        occurs(w, t + w),
{
    assert((t + w).subrange(t.len() as int, (t.len() + w.len()) as int) =~= w);
}

/// Each recorded call's placeholder occurs in the text built so far.
pub open spec fn placed(acc: ExtractView) -> bool {
    &&& forall|k: int| 0 <= k < acc.1.len() ==> occurs(placeholder((#[trigger] acc.1[k]).0), acc.0)
    &&& forall|k: int| 0 <= k < acc.2.len() ==> occurs(placeholder((#[trigger] acc.2[k]).0), acc.0)
}

proof fn lemma_placed_grow(acc: ExtractView, u: Seq<char>)
    requires
        placed(acc),
    ensures
        placed((acc.0 + u, acc.1, acc.2)),
{
    assert forall|k: int| 0 <= k < acc.1.len() implies occurs(placeholder((#[trigger] acc.1[k]).0), acc.0 + u) by {
        lemma_occurs_append(placeholder(acc.1[k].0), acc.0, u);
    }
    assert forall|k: int| 0 <= k < acc.2.len() implies occurs(placeholder((#[trigger] acc.2[k]).0), acc.0 + u) by {
        lemma_occurs_append(placeholder(acc.2[k].0), acc.0, u);
    }
}

/// The glob calls and flag calls recorded so far are numbered in order.
pub open spec fn numbered(acc: ExtractView) -> bool {
    &&& forall|k: int| 0 <= k < acc.1.len() ==> (#[trigger] acc.1[k]).0 == glob_var(k as nat)
    &&& forall|k: int| 0 <= k < acc.2.len() ==> (#[trigger] acc.2[k]).0 == flag_var(k as nat)
}

proof fn lemma_extract_numbered(c: Seq<char>, i: int, acc: ExtractView, x: ExtractView)
    requires
        numbered(acc),
        placed(acc),
        extract_from(c, i, acc) == Some(x),
    ensures
        numbered(x),
        placed(x),
    decreases c.len() - i,
{
    let (out, globs, flags) = acc;
    if i < 0 || i >= c.len() {
    } else if c[i] == '{' && i + 1 < c.len() && c[i + 1] == '{' {
        lemma_placed_grow(acc, seq!['{', '{']);
        lemma_extract_numbered(c, i + 2, (out + seq!['{', '{'], globs, flags), x);
    } else if c[i] == '{' && i > 0 && c[i - 1] == '$' {
        lemma_placed_grow(acc, seq!['{']);
        assert(out.push('{') =~= out + seq!['{']);
        lemma_extract_numbered(c, i + 1, (out.push('{'), globs, flags), x);
    } else if c[i] == '{' && close_at(c, i + 1) < c.len() {
        let end = close_at(c, i + 1);
        lemma_close_at(c, i + 1);
        let t = trimmed(c.subrange(i + 1, end));
        if !glob_call_broken(t) {
            match glob_call(t) {
                Some(p) => {
                    let v = glob_var(globs.len());
                    let a2 = (out + placeholder(v), globs.push((v, p)), flags);
                    assert forall|k: int| 0 <= k < a2.1.len() implies (#[trigger] a2.1[k]).0 == glob_var(k as nat) by {
                        if k < globs.len() {
                            assert(a2.1[k] == globs[k]);
                        }
                    }
                    lemma_placed_grow(acc, placeholder(v));
                    lemma_occurs_end(placeholder(v), out);
                    assert forall|k: int| 0 <= k < a2.1.len() implies occurs(placeholder((#[trigger] a2.1[k]).0), a2.0) by {
                        if k < globs.len() {
                            assert(a2.1[k] == globs[k]);
                            assert(occurs(placeholder(acc.1[k].0), acc.0));
                            lemma_occurs_append(placeholder(globs[k].0), out, placeholder(v));
                        } else {
                            assert(a2.1[k].0 == v);
                        }
                    }
                    assert forall|k: int| 0 <= k < a2.2.len() implies occurs(placeholder((#[trigger] a2.2[k]).0), a2.0) by {
                        assert(a2.2[k] == flags[k]);
                        assert(occurs(placeholder(acc.2[k].0), acc.0));
                            lemma_occurs_append(placeholder(flags[k].0), out, placeholder(v));
                    }
                    lemma_extract_numbered(c, end + 1, a2, x);
                },
                None => if !flag_if_call_broken(t) {
                    match flag_if_call(t) {
                        Some((f, cond)) => {
                            let v = flag_var(flags.len());
                            let a2 = (out + placeholder(v), globs, flags.push((v, f, cond)));
                            assert forall|k: int| 0 <= k < a2.2.len() implies (#[trigger] a2.2[k]).0 == flag_var(
                                k as nat,
                            ) by {
                                if k < flags.len() {
                                    assert(a2.2[k] == flags[k]);
                                }
                            }
                            lemma_placed_grow(acc, placeholder(v));
                            lemma_occurs_end(placeholder(v), out);
                            assert forall|k: int| 0 <= k < a2.2.len() implies occurs(placeholder((#[trigger] a2.2[k]).0), a2.0) by {
                                if k < flags.len() {
                                    assert(a2.2[k] == flags[k]);
                                    assert(occurs(placeholder(acc.2[k].0), acc.0));
                            lemma_occurs_append(placeholder(flags[k].0), out, placeholder(v));
                                } else {
                                    assert(a2.2[k].0 == v);
                                }
                            }
                            assert forall|k: int| 0 <= k < a2.1.len() implies occurs(placeholder((#[trigger] a2.1[k]).0), a2.0) by {
                                assert(a2.1[k] == globs[k]);
                                assert(occurs(placeholder(acc.1[k].0), acc.0));
                            lemma_occurs_append(placeholder(globs[k].0), out, placeholder(v));
                            }
                            lemma_extract_numbered(c, end + 1, a2, x);
                        },
                        None => {
                            lemma_placed_grow(acc, seq!['{']);
                            assert(out.push('{') =~= out + seq!['{']);
                            lemma_extract_numbered(c, i + 1, (out.push('{'), globs, flags), x);
                        },
                    }
                },
            }
        }
    } else {
        lemma_placed_grow(acc, seq![c[i]]);
        assert(out.push(c[i]) =~= out + seq![c[i]]);
        lemma_extract_numbered(c, i + 1, (out.push(c[i]), globs, flags), x);
    }
}

/// Law: the k-th `{glob(...)}` call found is recorded under, and replaced by
/// a placeholder for, the variable `__raxx_glob_k`, and the k-th
/// `{flag_if(...)}` call under `__raxx_flag_k` (k = 0, 1, ...); so no two
/// recorded calls share a variable, and each placeholder takes its own
/// call's value.
pub proof fn synthetic_names_law(c: Seq<char>, x: ExtractView)
    requires
        extract_from(c, 0, (seq![], seq![], seq![])) == Some(x),
    ensures
        forall|k: int| 0 <= k < x.1.len() ==> (#[trigger] x.1[k]).0 == seq!['_', '_', 'r', 'a', 'x', 'x', '_', 'g', 'l', 'o', 'b', '_'] + decimal(k as nat),
        forall|k: int| 0 <= k < x.2.len() ==> (#[trigger] x.2[k]).0 == seq!['_', '_', 'r', 'a', 'x', 'x', '_', 'f', 'l', 'a', 'g', '_'] + decimal(k as nat),
        forall|i: int, j: int| 0 <= i < j < x.1.len() ==> (#[trigger] x.1[i]).0 != (#[trigger] x.1[j]).0,
        forall|i: int, j: int| 0 <= i < j < x.2.len() ==> (#[trigger] x.2[i]).0 != (#[trigger] x.2[j]).0,
        forall|i: int, j: int| 0 <= i < x.1.len() && 0 <= j < x.2.len() ==> (#[trigger] x.1[i]).0 != (#[trigger] x.2[j]).0,
        forall|k: int| 0 <= k < x.1.len() ==> occurs(seq!['{'] + (#[trigger] x.1[k]).0 + seq!['}'], x.0),
        forall|k: int| 0 <= k < x.2.len() ==> occurs(seq!['{'] + (#[trigger] x.2[k]).0 + seq!['}'], x.0),
{
    lemma_extract_numbered(c, 0, (seq![], seq![], seq![]), x);
    let gp = seq!['_', '_', 'r', 'a', 'x', 'x', '_', 'g', 'l', 'o', 'b', '_'];
    let fp = seq!['_', '_', 'r', 'a', 'x', 'x', '_', 'f', 'l', 'a', 'g', '_'];
    assert forall|i: int, j: int| 0 <= i < j < x.1.len() implies (#[trigger] x.1[i]).0 != (#[trigger] x.1[j]).0 by {
        if x.1[i].0 == x.1[j].0 {
            lemma_synthetic_distinct(gp, i as nat, j as nat);
        }
    }
    assert forall|i: int, j: int| 0 <= i < j < x.2.len() implies (#[trigger] x.2[i]).0 != (#[trigger] x.2[j]).0 by {
        if x.2[i].0 == x.2[j].0 {
            lemma_synthetic_distinct(fp, i as nat, j as nat);
        }
    }
    assert forall|i: int, j: int| 0 <= i < x.1.len() && 0 <= j < x.2.len() implies (#[trigger] x.1[i]).0 != (
    #[trigger] x.2[j]).0 by {
        assert(x.1[i].0[7] == 'g');
        assert(x.2[j].0[7] == 'f');
    }
}

} // verus!
