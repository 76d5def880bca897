use vstd::prelude::*;

verus! {

/// Appends one character to a string.
#[verifier::external_body]
pub(crate) fn push_char(s: &mut String, c: char)
    ensures
        final(s)@ == old(s)@.push(c),
{
    s.push(c);
}

/// The characters of a string slice, in order.
pub fn chars_of(s: &str) -> (v: Vec<char>)
    ensures
        v@ == s@,
{
    let mut v: Vec<char> = Vec::new();
    let n: usize = s.unicode_len();
    for i in 0..n
        invariant
            n == s@.len(),
            v@ == s@.take(i as int),
    {
        v.push(s.get_char(i));
        assert(s@.take(i + 1) =~= s@.take(i as int).push(s@[i as int]));
    }
    assert(s@.take(n as int) =~= s@);
    v
}

/// A string holding exactly the given characters.
pub fn string_of(v: &Vec<char>) -> (s: String)
    ensures
        s@ == v@,
{
    let mut s = String::new();
    for i in 0..v.len()
        invariant
            s@ == v@.take(i as int),
    {
        push_char(&mut s, v[i]);
        assert(v@.take(i + 1) =~= v@.take(i as int).push(v@[i as int]));
    }
    assert(v@.take(v.len() as int) =~= v@);
    s
}

} // verus!

verus! {

/// The views of a sequence of strings.
pub open spec fn strs(v: Seq<String>) -> Seq<Seq<char>> {
    v.map_values(|s: String| s@)
}

/// The Unicode `White_Space` property, as `char::is_whitespace` documents it.
pub open spec fn is_ws(c: char) -> bool {
    ('\u{9}' <= c && c <= '\u{d}') || c == ' ' || c == '\u{85}' || c == '\u{a0}' || c == '\u{1680}'
        || ('\u{2000}' <= c && c <= '\u{200a}') || c == '\u{2028}' || c == '\u{2029}' || c == '\u{202f}'
        || c == '\u{205f}' || c == '\u{3000}'
}

/// Whether a character is whitespace (`White_Space`).
pub fn is_whitespace(c: char) -> (b: bool)
    ensures
        b == is_ws(c),
{
    ('\u{9}' <= c && c <= '\u{d}') || c == ' ' || c == '\u{85}' || c == '\u{a0}' || c == '\u{1680}'
        || ('\u{2000}' <= c && c <= '\u{200a}') || c == '\u{2028}' || c == '\u{2029}' || c == '\u{202f}'
        || c == '\u{205f}' || c == '\u{3000}'
}

/// Length of the leading run of non-whitespace characters.
pub open spec fn run_len(s: Seq<char>) -> nat
    decreases s.len(),
{
    if s.len() == 0 || is_ws(s[0]) {
        0
    } else {
        1 + run_len(s.drop_first())
    }
}

/// The whitespace-separated words of a string, as `str::split_whitespace` yields them.
pub open spec fn words(s: Seq<char>) -> Seq<Seq<char>>
    decreases s.len(),
{
    if s.len() == 0 {
        seq![]
    } else if is_ws(s[0]) {
        words(s.drop_first())
    } else {
        proof {
            lemma_run_len(s);
        }
        seq![s.take(run_len(s) as int)] + words(s.skip(run_len(s) as int))
    }
}

pub proof fn lemma_run_len(t: Seq<char>)
    ensures
        run_len(t) <= t.len(),
        forall|k: int| 0 <= k < run_len(t) ==> !is_ws(#[trigger] t[k]),
        run_len(t) == t.len() || is_ws(t[run_len(t) as int]),
    decreases t.len(),
{
    if t.len() > 0 && !is_ws(t[0]) {
        lemma_run_len(t.drop_first());
        assert forall|k: int| 0 <= k < run_len(t) implies !is_ws(#[trigger] t[k]) by {
            if k > 0 {
                assert(t[k] == t.drop_first()[k - 1]);
            }
        }
        if run_len(t) < t.len() {
            assert(t[run_len(t) as int] == t.drop_first()[run_len(t.drop_first()) as int]);
        }
    }
}

pub proof fn lemma_run_len_unique(t: Seq<char>, m: int)
    requires
        0 <= m <= t.len(),
        forall|k: int| 0 <= k < m ==> !is_ws(#[trigger] t[k]),
        m == t.len() || is_ws(t[m]),
    ensures
        run_len(t) == m,
{
    lemma_run_len(t);
    if run_len(t) < m {
        assert(!is_ws(t[run_len(t) as int]));
    }
    if run_len(t) > m {
        assert(!is_ws(t[m]));
    }
}

/// Splits a string on whitespace.
pub fn split_whitespace(s: &str) -> (out: Vec<String>)
    ensures
        strs(out@) == words(s@),
{
    let cs = chars_of(s);
    let n = cs.len();
    let mut out: Vec<String> = Vec::new();
    let mut i: usize = 0;
    assert(cs@.skip(0) =~= cs@);
    while i < n
        invariant
            n == cs@.len(),
            cs@ == s@,
            i <= n,
            words(s@) == strs(out@) + words(cs@.skip(i as int)),
        decreases n - i,
    {
        let ghost t = cs@.skip(i as int);
        if is_whitespace(cs[i]) {
            assert(t.drop_first() =~= cs@.skip(i + 1));
            i = i + 1;
        } else {
            let start = i;
            let mut word = String::new();
            while i < n && !is_whitespace(cs[i])
                invariant
                    n == cs@.len(),
                    start <= i <= n,
                    forall|k: int| start <= k < i ==> !is_ws(#[trigger] cs@[k]),
                    word@ == cs@.subrange(start as int, i as int),
                decreases n - i,
            {
                push_char(&mut word, cs[i]);
                assert(cs@.subrange(start as int, i + 1) =~= cs@.subrange(start as int, i as int).push(cs@[i as int]));
                i = i + 1;
            }
            proof {
                let m = (i - start) as int;
                assert forall|k: int| 0 <= k < m implies !is_ws(#[trigger] t[k]) by {
                    assert(t[k] == cs@[start + k]);
                }
                if m < t.len() {
                    assert(t[m] == cs@[i as int]);
                }
                lemma_run_len_unique(t, m);
                assert(t.take(m) =~= word@);
                assert(t.skip(m) =~= cs@.skip(i as int));
                assert(strs(out@.push(word)) =~= strs(out@).push(word@));
            }
            out.push(word);
        }
    }
    assert(cs@.skip(n as int) =~= Seq::<char>::empty());
    assert(strs(out@) + Seq::<Seq<char>>::empty() =~= strs(out@));
    out
}

} // verus!

verus! {

/// Whether two string slices hold the same characters.
pub fn str_eq(a: &str, b: &str) -> (r: bool)
    ensures
        r == (a@ == b@),
{
    let x = chars_of(a);
    let y = chars_of(b);
    if x.len() != y.len() {
        return false;
    }
    for i in 0..x.len()
        invariant
            x@ == a@,
            y@ == b@,
            x@.len() == y@.len(),
            forall|j: int| 0 <= j < i ==> x@[j] == y@[j],
    {
        if x[i] != y[i] {
            return false;
        }
    }
    assert(x@ =~= y@);
    true
}

} // verus!

verus! {

/// A vector holding the elements of a slice.
pub fn copy_slice<T: Copy>(s: &[T]) -> (v: Vec<T>)
    ensures
        v@ == s@,
{
    let mut v: Vec<T> = Vec::new();
    for i in 0..s.len()
        invariant
            v@ == s@.take(i as int),
    {
        v.push(s[i]);
        assert(s@.take(i + 1) =~= s@.take(i as int).push(s@[i as int]));
    }
    assert(s@.take(s.len() as int) =~= s@);
    v
}

} // verus!

verus! {

/// The string without its leading whitespace.
pub open spec fn trim_start(s: Seq<char>) -> Seq<char>
    decreases s.len(),
{
    if s.len() > 0 && is_ws(s[0]) {
        trim_start(s.drop_first())
    } else {
        s
    }
}

/// The string without its trailing whitespace.
pub open spec fn trim_end(s: Seq<char>) -> Seq<char>
    decreases s.len(),
{
    if s.len() > 0 && is_ws(s.last()) {
        trim_end(s.drop_last())
    } else {
        s
    }
}

/// The string without leading and trailing whitespace, as `str::trim` returns it.
pub open spec fn trimmed(s: Seq<char>) -> Seq<char> {
    trim_end(trim_start(s))
}

pub proof fn lemma_trim_start_skip(s: Seq<char>, i: int)
    requires
        0 <= i <= s.len(),
        forall|k: int| 0 <= k < i ==> is_ws(#[trigger] s[k]),
    ensures
        trim_start(s) == trim_start(s.skip(i)),
    decreases i,
{
    if i > 0 {
        assert(s.skip(1) =~= s.drop_first());
        assert forall|k: int| 0 <= k < i - 1 implies is_ws(#[trigger] s.drop_first()[k]) by {
            assert(s.drop_first()[k] == s[k + 1]);
        }
        lemma_trim_start_skip(s.drop_first(), i - 1);
        assert(s.drop_first().skip(i - 1) =~= s.skip(i));
    } else {
        assert(s.skip(0) =~= s);
    }
}

pub proof fn lemma_trim_end_take(s: Seq<char>, j: int)
    requires
        0 <= j <= s.len(),
        forall|k: int| j <= k < s.len() ==> is_ws(#[trigger] s[k]),
    ensures
        trim_end(s) == trim_end(s.take(j)),
    decreases s.len() - j,
{
    if j < s.len() {
        assert(is_ws(s[s.len() - 1]));
        assert forall|k: int| j <= k < s.drop_last().len() implies is_ws(#[trigger] s.drop_last()[k]) by {
            assert(s.drop_last()[k] == s[k]);
        }
        lemma_trim_end_take(s.drop_last(), j);
        assert(s.drop_last().take(j) =~= s.take(j));
    } else {
        assert(s.take(j) =~= s);
    }
}

/// The characters of `cs[lo..hi]` without leading and trailing whitespace.
pub fn trim_range(cs: &Vec<char>, lo: usize, hi: usize) -> (r: Vec<char>)
    requires
        lo <= hi <= cs@.len(),
    ensures
        r@ == trimmed(cs@.subrange(lo as int, hi as int)),
{
    let ghost seg = cs@.subrange(lo as int, hi as int);
    let mut i: usize = lo;
    while i < hi && is_whitespace(cs[i])
        invariant
            lo <= i <= hi <= cs@.len(),
            seg == cs@.subrange(lo as int, hi as int),
            forall|k: int| 0 <= k < i - lo ==> is_ws(#[trigger] seg[k]),
        decreases hi - i,
    {
        assert(seg[i - lo] == cs@[i as int]);
        i = i + 1;
    }
    proof {
        lemma_trim_start_skip(seg, i - lo);
    }
    let ghost t = seg.skip(i - lo);
    assert(trim_start(seg) == t) by {
        if t.len() > 0 {
            assert(t[0] == cs@[i as int]);
        }
    }
    let mut j: usize = hi;
    while j > i && is_whitespace(cs[j - 1])
        invariant
            lo <= i <= j <= hi <= cs@.len(),
            forall|k: int| j <= k < hi ==> is_ws(#[trigger] cs@[k]),
        decreases j,
    {
        j = j - 1;
    }
    proof {
        assert forall|k: int| j - i <= k < t.len() implies is_ws(#[trigger] t[k]) by {
            assert(t[k] == cs@[i + k]);
        }
        lemma_trim_end_take(t, j - i);
        let u = t.take(j - i);
        if u.len() > 0 {
            assert(u.last() == cs@[j - 1]);
        }
    }
    let mut r: Vec<char> = Vec::new();
    let mut k: usize = i;
    while k < j
        invariant
            lo <= i <= k <= j <= hi <= cs@.len(),
            r@ == cs@.subrange(i as int, k as int),
        decreases j - k,
    {
        r.push(cs[k]);
        assert(cs@.subrange(i as int, k + 1) =~= cs@.subrange(i as int, k as int).push(cs@[k as int]));
        k = k + 1;
    }
    assert(r@ =~= t.take(j - i));
    r
}

/// Removes leading and trailing whitespace.
pub fn trim(s: &str) -> (r: String)
    ensures
        r@ == trimmed(s@),
{
    let cs = chars_of(s);
    let t = trim_range(&cs, 0, cs.len());
    assert(cs@.subrange(0, cs@.len() as int) =~= cs@);
    string_of(&t)
}

/// Length of the leading run of characters other than a newline.
pub open spec fn nl_run(s: Seq<char>) -> nat
    decreases s.len(),
{
    if s.len() == 0 || s[0] == '\n' {
        0
    } else {
        1 + nl_run(s.drop_first())
    }
}

pub proof fn lemma_nl_run(t: Seq<char>)
    ensures
        nl_run(t) <= t.len(),
        forall|k: int| 0 <= k < nl_run(t) ==> #[trigger] t[k] != '\n',
        nl_run(t) == t.len() || t[nl_run(t) as int] == '\n',
    decreases t.len(),
{
    if t.len() > 0 && t[0] != '\n' {
        lemma_nl_run(t.drop_first());
        assert forall|k: int| 0 <= k < nl_run(t) implies #[trigger] t[k] != '\n' by {
            if k > 0 {
                assert(t[k] == t.drop_first()[k - 1]);
            }
        }
        if nl_run(t) < t.len() {
            assert(t[nl_run(t) as int] == t.drop_first()[nl_run(t.drop_first()) as int]);
        }
    }
}

pub proof fn lemma_nl_run_unique(t: Seq<char>, m: int)
    requires
        0 <= m <= t.len(),
        forall|k: int| 0 <= k < m ==> #[trigger] t[k] != '\n',
        m == t.len() || t[m] == '\n',
    ensures
        nl_run(t) == m,
{
    lemma_nl_run(t);
    if nl_run(t) < m {
        assert(t[nl_run(t) as int] != '\n');
    }
    if nl_run(t) > m {
        assert(t[m] != '\n');
    }
}

/// A line without the `\r` of a `\r\n` ending.
pub open spec fn strip_cr(l: Seq<char>) -> Seq<char> {
    if l.len() > 0 && l.last() == '\r' {
        l.drop_last()
    } else {
        l
    }
}

/// The lines of a string, as `str::lines` yields them: split at `\n` (a `\r`
/// before it is dropped), with no empty line after a final newline.
pub open spec fn lines_of(s: Seq<char>) -> Seq<Seq<char>>
    decreases s.len(),
{
    if s.len() == 0 {
        seq![]
    } else {
        proof {
            lemma_nl_run(s);
        }
        let n = nl_run(s) as int;
        if n == s.len() {
            seq![s]
        } else {
            seq![strip_cr(s.take(n))] + lines_of(s.skip(n + 1))
        }
    }
}

/// Splits a string into lines.
pub fn lines(s: &str) -> (out: Vec<String>)
    ensures
        strs(out@) == lines_of(s@),
{
    let cs = chars_of(s);
    let n = cs.len();
    let mut out: Vec<String> = Vec::new();
    let mut i: usize = 0;
    assert(cs@.skip(0) =~= cs@);
    while i < n
        invariant
            n == cs@.len(),
            cs@ == s@,
            i <= n,
            lines_of(s@) == strs(out@) + lines_of(cs@.skip(i as int)),
        decreases n - i,
    {
        let ghost t = cs@.skip(i as int);
        let start = i;
        let mut line = String::new();
        while i < n && cs[i] != '\n'
            invariant
                n == cs@.len(),
                start <= i <= n,
                forall|k: int| start <= k < i ==> #[trigger] cs@[k] != '\n',
                line@ == cs@.subrange(start as int, i as int),
            decreases n - i,
        {
            push_char(&mut line, cs[i]);
            assert(cs@.subrange(start as int, i + 1) =~= cs@.subrange(start as int, i as int).push(cs@[i as int]));
            i = i + 1;
        }
        let ghost m = (i - start) as int;
        proof {
            assert forall|k: int| 0 <= k < m implies #[trigger] t[k] != '\n' by {
                assert(t[k] == cs@[start + k]);
            }
            if m < t.len() {
                assert(t[m] == cs@[i as int]);
            }
            lemma_nl_run_unique(t, m);
            assert(t.take(m) =~= line@);
        }
        if i < n {
            let ghost before = line@;
            let len = line.unicode_len();
            if len > 0 && line.get_char(len - 1) == '\r' {
                let trimmed_line = line.as_str().substring_char(0, len - 1);
                line = String::from_str(trimmed_line);
                assert(line@ =~= before.drop_last());
            }
            assert(line@ == strip_cr(t.take(m)));
            i = i + 1;
            assert(t.skip(m + 1) =~= cs@.skip(i as int));
        } else {
            assert(t =~= line@);
            assert(cs@.skip(i as int) =~= Seq::<char>::empty());
        }
        let ghost old_out = out@;
        out.push(line);
        assert(strs(out@) =~= strs(old_out).push(line@));
        assert(strs(old_out).push(line@) + lines_of(cs@.skip(i as int)) =~= strs(old_out) + (seq![line@] + lines_of(cs@.skip(i as int))));
    }
    assert(cs@.skip(n as int) =~= Seq::<char>::empty());
    assert(strs(out@) + Seq::<Seq<char>>::empty() =~= strs(out@));
    out
}

} // verus!
