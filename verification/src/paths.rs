use vstd::prelude::*;
use crate::text::{chars_of, push_char, strs};

verus! {

/// Length of the leading run of characters other than `/`.
pub open spec fn seg_run(s: Seq<char>) -> nat
    decreases s.len(),
{
    if s.len() == 0 || s[0] == '/' {
        0
    } else {
        1 + seg_run(s.drop_first())
    }
}

pub proof fn lemma_seg_run(t: Seq<char>)
    ensures
        seg_run(t) <= t.len(),
        forall|k: int| 0 <= k < seg_run(t) ==> #[trigger] t[k] != '/',
        seg_run(t) == t.len() || t[seg_run(t) as int] == '/',
    decreases t.len(),
{
    if t.len() > 0 && t[0] != '/' {
        lemma_seg_run(t.drop_first());
        assert forall|k: int| 0 <= k < seg_run(t) implies #[trigger] t[k] != '/' by {
            if k > 0 {
                assert(t[k] == t.drop_first()[k - 1]);
            }
        }
        if seg_run(t) < t.len() {
            assert(t[seg_run(t) as int] == t.drop_first()[seg_run(t.drop_first()) as int]);
        }
    }
}

pub proof fn lemma_seg_run_unique(t: Seq<char>, m: int)
    requires
        0 <= m <= t.len(),
        forall|k: int| 0 <= k < m ==> #[trigger] t[k] != '/',
        m == t.len() || t[m] == '/',
    ensures
        seg_run(t) == m,
{
    lemma_seg_run(t);
    if seg_run(t) < m {
        assert(t[seg_run(t) as int] != '/');
    }
    if seg_run(t) > m {
        assert(t[m] != '/');
    }
}

/// The non-empty `/`-separated components of a path.
pub open spec fn segs(s: Seq<char>) -> Seq<Seq<char>>
    decreases s.len(),
{
    if s.len() == 0 {
        seq![]
    } else if s[0] == '/' {
        segs(s.drop_first())
    } else {
        proof {
            lemma_seg_run(s);
        }
        seq![s.take(seg_run(s) as int)] + segs(s.skip(seg_run(s) as int))
    }
}

pub open spec fn is_abs(s: Seq<char>) -> bool {
    s.len() > 0 && s[0] == '/'
}

/// Lexicographic order of character sequences, by code point.
pub open spec fn chars_lt(a: Seq<char>, b: Seq<char>) -> bool
    decreases a.len(),
{
    if a.len() == 0 {
        b.len() > 0
    } else if b.len() == 0 {
        false
    } else if a[0] != b[0] {
        a[0] < b[0]
    } else {
        chars_lt(a.drop_first(), b.drop_first())
    }
}

/// Lexicographic order of component sequences.
pub open spec fn segs_lt(a: Seq<Seq<char>>, b: Seq<Seq<char>>) -> bool
    decreases a.len(),
{
    if a.len() == 0 {
        b.len() > 0
    } else if b.len() == 0 {
        false
    } else if a[0] != b[0] {
        chars_lt(a[0], b[0])
    } else {
        segs_lt(a.drop_first(), b.drop_first())
    }
}

/// The key of one `/`-separated piece, as `Path::components` sees it: `.`
/// in the middle of a path is no component; `..` is the parent component;
/// anything else is a name. Keys are ordered as components are: the root
/// (`\u{0}`) before a leading `.` (`\u{1}`) before `..` (`\u{2}`) before
/// names (`\u{3}` then the name), and names by character.
pub open spec fn key_of(seg: Seq<char>) -> Seq<Seq<char>> {
    if seg == seq!['.'] {
        seq![]
    } else if seg == seq!['.', '.'] {
        seq![seq!['\u{2}']]
    } else {
        seq![seq!['\u{3}'] + seg]
    }
}

/// The keys of a sequence of pieces.
pub open spec fn seg_keys(ss: Seq<Seq<char>>) -> Seq<Seq<char>>
    decreases ss.len(),
{
    if ss.len() == 0 {
        seq![]
    } else {
        seg_keys(ss.drop_last()) + key_of(ss.last())
    }
}

/// A relative path that begins with the current directory (`.` alone or
/// followed by `/`).
pub open spec fn starts_here(s: Seq<char>) -> bool {
    !is_abs(s) && s.len() > 0 && s[0] == '.' && (s.len() == 1 || s[1] == '/')
}

/// The key of the component that begins a path, if any: the root of an
/// absolute path, or the current directory leading a relative one.
pub open spec fn lead_keys(s: Seq<char>) -> Seq<Seq<char>> {
    if is_abs(s) {
        seq![seq!['\u{0}']]
    } else if starts_here(s) {
        seq![seq!['\u{1}']]
    } else {
        seq![]
    }
}

/// The components of a path (as `Path::components` yields them), as keys.
pub open spec fn comp_keys(s: Seq<char>) -> Seq<Seq<char>> {
    lead_keys(s) + seg_keys(segs(s))
}

/// The order of paths: component by component, as `Path` orders them.
pub open spec fn path_lt(a: Seq<char>, b: Seq<char>) -> bool {
    segs_lt(comp_keys(a), comp_keys(b))
}

/// Paths that name the same place: the same components.
pub open spec fn path_eq(a: Seq<char>, b: Seq<char>) -> bool {
    comp_keys(a) == comp_keys(b)
}

pub proof fn lemma_chars_lt_irrefl(a: Seq<char>)
    ensures
        !chars_lt(a, a),
    decreases a.len(),
{
    if a.len() > 0 {
        lemma_chars_lt_irrefl(a.drop_first());
    }
}

pub proof fn lemma_chars_lt_trans(a: Seq<char>, b: Seq<char>, c: Seq<char>)
    requires
        chars_lt(a, b),
        chars_lt(b, c),
    ensures
        chars_lt(a, c),
    decreases a.len(),
{
    if a.len() > 0 && b.len() > 0 && c.len() > 0 && a[0] == b[0] && b[0] == c[0] {
        lemma_chars_lt_trans(a.drop_first(), b.drop_first(), c.drop_first());
    }
}

pub proof fn lemma_chars_lt_total(a: Seq<char>, b: Seq<char>)
    ensures
        chars_lt(a, b) || chars_lt(b, a) || a == b,
    decreases a.len(),
{
    if a.len() > 0 && b.len() > 0 && a[0] == b[0] {
        lemma_chars_lt_total(a.drop_first(), b.drop_first());
        if a.drop_first() == b.drop_first() {
            assert(a =~= seq![a[0]] + a.drop_first());
            assert(b =~= seq![b[0]] + b.drop_first());
        }
    } else if a.len() == 0 && b.len() == 0 {
        assert(a =~= b);
    }
}

pub proof fn lemma_segs_lt_irrefl(a: Seq<Seq<char>>)
    ensures
        !segs_lt(a, a),
    decreases a.len(),
{
    if a.len() > 0 {
        lemma_segs_lt_irrefl(a.drop_first());
    }
}

pub proof fn lemma_segs_lt_trans(a: Seq<Seq<char>>, b: Seq<Seq<char>>, c: Seq<Seq<char>>)
    requires
        segs_lt(a, b),
        segs_lt(b, c),
    ensures
        segs_lt(a, c),
    decreases a.len(),
{
    if a.len() > 0 && b.len() > 0 && c.len() > 0 {
        if a[0] == b[0] && b[0] == c[0] {
            lemma_segs_lt_trans(a.drop_first(), b.drop_first(), c.drop_first());
        } else if a[0] != b[0] && b[0] != c[0] {
            lemma_chars_lt_trans(a[0], b[0], c[0]);
            if a[0] == c[0] {
                lemma_chars_lt_irrefl(a[0]);
            }
        } else if a[0] != b[0] {
            assert(b[0] == c[0]);
        } else {
            assert(a[0] == b[0]);
        }
    }
}

pub proof fn lemma_segs_lt_total(a: Seq<Seq<char>>, b: Seq<Seq<char>>)
    ensures
        segs_lt(a, b) || segs_lt(b, a) || a == b,
    decreases a.len(),
{
    if a.len() > 0 && b.len() > 0 {
        if a[0] == b[0] {
            lemma_segs_lt_total(a.drop_first(), b.drop_first());
            if a.drop_first() == b.drop_first() {
                assert(a =~= seq![a[0]] + a.drop_first());
                assert(b =~= seq![b[0]] + b.drop_first());
            }
        } else {
            lemma_chars_lt_total(a[0], b[0]);
        }
    } else if a.len() == 0 && b.len() == 0 {
        assert(a =~= b);
    }
}

/// Law: the path order is a strict total order on paths up to `path_eq`.
pub proof fn path_order_laws(a: Seq<char>, b: Seq<char>, c: Seq<char>)
    ensures
        !path_lt(a, a),
        path_lt(a, b) && path_lt(b, c) ==> path_lt(a, c),
        path_lt(a, b) || path_lt(b, a) || path_eq(a, b),
        path_eq(a, b) ==> !path_lt(a, b),
{
    lemma_segs_lt_irrefl(comp_keys(a));
    if path_lt(a, b) && path_lt(b, c) {
        lemma_segs_lt_trans(comp_keys(a), comp_keys(b), comp_keys(c));
    }
    lemma_segs_lt_total(comp_keys(a), comp_keys(b));
}

/// Splits a path into its non-empty `/`-separated components.
pub fn split_segments(s: &str) -> (out: Vec<Vec<char>>)
    ensures
        out@.map_values(|v: Vec<char>| v@) == segs(s@),
{
    let cs = chars_of(s);
    let n = cs.len();
    let mut out: Vec<Vec<char>> = Vec::new();
    let mut i: usize = 0;
    assert(cs@.skip(0) =~= cs@);
    while i < n
        invariant
            n == cs@.len(),
            cs@ == s@,
            i <= n,
            segs(s@) == out@.map_values(|v: Vec<char>| v@) + segs(cs@.skip(i as int)),
        decreases n - i,
    {
        let ghost t = cs@.skip(i as int);
        if cs[i] == '/' {
            assert(t.drop_first() =~= cs@.skip(i + 1));
            i = i + 1;
        } else {
            let start = i;
            let mut seg: Vec<char> = Vec::new();
            while i < n && cs[i] != '/'
                invariant
                    n == cs@.len(),
                    start <= i <= n,
                    forall|k: int| start <= k < i ==> #[trigger] cs@[k] != '/',
                    seg@ == cs@.subrange(start as int, i as int),
                decreases n - i,
            {
                seg.push(cs[i]);
                assert(cs@.subrange(start as int, i + 1) =~= cs@.subrange(start as int, i as int).push(cs@[i as int]));
                i = i + 1;
            }
            proof {
                let m = (i - start) as int;
                assert forall|k: int| 0 <= k < m implies #[trigger] t[k] != '/' by {
                    assert(t[k] == cs@[start + k]);
                }
                if m < t.len() {
                    assert(t[m] == cs@[i as int]);
                }
                lemma_seg_run_unique(t, m);
                assert(t.take(m) =~= seg@);
                assert(t.skip(m) =~= cs@.skip(i as int));
            }
            let ghost old_out = out@;
            out.push(seg);
            assert(out@.map_values(|v: Vec<char>| v@) =~= old_out.map_values(|v: Vec<char>| v@).push(seg@));
        }
    }
    assert(cs@.skip(n as int) =~= Seq::<char>::empty());
    assert(out@.map_values(|v: Vec<char>| v@) + Seq::<Seq<char>>::empty() =~= out@.map_values(|v: Vec<char>| v@));
    out
}

/// Compares two character sequences: -1, 0 or 1.
pub fn compare_chars(a: &Vec<char>, b: &Vec<char>) -> (r: i8)
    ensures
        r == -1 <==> chars_lt(a@, b@),
        r == 0 <==> a@ == b@,
        r == 1 <==> chars_lt(b@, a@),
{
    let mut i: usize = 0;
    let n = if a.len() < b.len() { a.len() } else { b.len() };
    assert(a@.skip(0) =~= a@);
    assert(b@.skip(0) =~= b@);
    while i < n
        invariant
            n <= a@.len(),
            n <= b@.len(),
            n == a@.len() || n == b@.len(),
            i <= n,
            forall|k: int| 0 <= k < i ==> a@[k] == b@[k],
            chars_lt(a@, b@) == chars_lt(a@.skip(i as int), b@.skip(i as int)),
            chars_lt(b@, a@) == chars_lt(b@.skip(i as int), a@.skip(i as int)),
        decreases n - i,
    {
        if a[i] != b[i] {
            if a[i] < b[i] {
                return -1;
            } else {
                return 1;
            }
        }
        assert(a@.skip(i as int).drop_first() =~= a@.skip(i + 1));
        assert(b@.skip(i as int).drop_first() =~= b@.skip(i + 1));
        i = i + 1;
    }
    if a.len() < b.len() {
        -1
    } else if a.len() > b.len() {
        1
    } else {
        assert(a@ =~= b@);
        proof { lemma_chars_lt_irrefl(a@); }
        0
    }
}

/// Compares two component sequences: -1, 0 or 1.
pub fn compare_segments(a: &Vec<Vec<char>>, b: &Vec<Vec<char>>) -> (r: i8)
    ensures
        r == -1 <==> segs_lt(a@.map_values(|v: Vec<char>| v@), b@.map_values(|v: Vec<char>| v@)),
        r == 0 <==> a@.map_values(|v: Vec<char>| v@) == b@.map_values(|v: Vec<char>| v@),
        r == 1 <==> segs_lt(b@.map_values(|v: Vec<char>| v@), a@.map_values(|v: Vec<char>| v@)),
{
    let ghost av = a@.map_values(|v: Vec<char>| v@);
    let ghost bv = b@.map_values(|v: Vec<char>| v@);
    let mut i: usize = 0;
    let n = if a.len() < b.len() { a.len() } else { b.len() };
    assert(av.skip(0) =~= av);
    assert(bv.skip(0) =~= bv);
    while i < n
        invariant
            av == a@.map_values(|v: Vec<char>| v@),
            bv == b@.map_values(|v: Vec<char>| v@),
            n <= a@.len(),
            n <= b@.len(),
            n == a@.len() || n == b@.len(),
            i <= n,
            forall|k: int| 0 <= k < i ==> av[k] == bv[k],
            segs_lt(av, bv) == segs_lt(av.skip(i as int), bv.skip(i as int)),
            segs_lt(bv, av) == segs_lt(bv.skip(i as int), av.skip(i as int)),
        decreases n - i,
    {
        let c = compare_chars(&a[i], &b[i]);
        assert(av[i as int] == a@[i as int]@);
        assert(bv[i as int] == b@[i as int]@);
        if c != 0 {
            return c;
        }
        assert(av.skip(i as int).drop_first() =~= av.skip(i + 1));
        assert(bv.skip(i as int).drop_first() =~= bv.skip(i + 1));
        i = i + 1;
    }
    if a.len() < b.len() {
        -1
    } else if a.len() > b.len() {
        1
    } else {
        assert(av =~= bv);
        proof { lemma_segs_lt_irrefl(av); }
        0
    }
}

} // verus!

verus! {

/// The components of a path, as keys (see `key_of`).
pub fn component_keys(s: &str) -> (out: Vec<Vec<char>>)
    ensures
        out@.map_values(|v: Vec<char>| v@) == comp_keys(s@),
{
    let pieces = split_segments(s);
    let ghost ps = segs(s@);
    let n = s.unicode_len();
    let mut out: Vec<Vec<char>> = Vec::new();
    if n > 0 && s.get_char(0) == '/' {
        let mut r: Vec<char> = Vec::new();
        r.push('\u{0}');
        assert(r@ =~= seq!['\u{0}']);
        out.push(r);
    } else if n > 0 && s.get_char(0) == '.' && (n == 1 || s.get_char(1) == '/') {
        let mut r: Vec<char> = Vec::new();
        r.push('\u{1}');
        assert(r@ =~= seq!['\u{1}']);
        out.push(r);
    }
    proof {
        assert(seg_keys(Seq::<Seq<char>>::empty()) == Seq::<Seq<char>>::empty());
        assert(out@.map_values(|v: Vec<char>| v@) =~= lead_keys(s@));
        assert(ps.take(0) =~= Seq::<Seq<char>>::empty());
        assert(lead_keys(s@) + seg_keys(ps.take(0)) =~= lead_keys(s@));
    }
    for i in 0..pieces.len()
        invariant
            ps == segs(s@),
            pieces@.map_values(|v: Vec<char>| v@) == ps,
            out@.map_values(|v: Vec<char>| v@) == lead_keys(s@) + seg_keys(ps.take(i as int)),
    {
        let ghost before = out@.map_values(|v: Vec<char>| v@);
        let seg = &pieces[i];
        let ghost sv = seg@;
        assert(sv == ps[i as int]);
        assert(ps.take(i + 1).drop_last() =~= ps.take(i as int));
        assert(ps.take(i + 1).last() == sv);
        assert(seg_keys(ps.take(i + 1)) == seg_keys(ps.take(i as int)) + key_of(sv));
        if seg.len() == 1 && seg[0] == '.' {
            assert(sv =~= seq!['.']);
            assert(out@.map_values(|v: Vec<char>| v@) =~= lead_keys(s@) + seg_keys(ps.take(i + 1)));
        } else if seg.len() == 2 && seg[0] == '.' && seg[1] == '.' {
            assert(sv =~= seq!['.', '.']);
            let mut r: Vec<char> = Vec::new();
            r.push('\u{2}');
            assert(r@ =~= seq!['\u{2}']);
            out.push(r);
            assert(out@.map_values(|v: Vec<char>| v@) =~= before.push(seq!['\u{2}']));
            assert(key_of(sv) == seq![seq!['\u{2}']]);
            assert(out@.map_values(|v: Vec<char>| v@) =~= lead_keys(s@) + seg_keys(ps.take(i + 1)));
        } else {
            assert(sv != seq!['.']);
            assert(sv != seq!['.', '.']);
            let mut k: Vec<char> = Vec::new();
            k.push('\u{3}');
            assert(sv.take(0) =~= Seq::<char>::empty());
            assert(k@ =~= seq!['\u{3}'] + sv.take(0));
            for j in 0..seg.len()
                invariant
                    seg@ == sv,
                    k@ == seq!['\u{3}'] + sv.take(j as int),
            {
                k.push(seg[j]);
                assert(sv.take(j + 1) =~= sv.take(j as int).push(sv[j as int]));
                assert(k@ =~= seq!['\u{3}'] + sv.take(j + 1));
            }
            assert(sv.take(sv.len() as int) =~= sv);
            let ghost kv = k@;
            out.push(k);
            assert(out@.map_values(|v: Vec<char>| v@) =~= before.push(kv));
            assert(key_of(sv) == seq![kv]);
            assert(out@.map_values(|v: Vec<char>| v@) =~= lead_keys(s@) + seg_keys(ps.take(i + 1)));
        }
    }
    assert(ps.take(pieces@.len() as int) =~= ps);
    out
}

/// Compares two paths in path order: -1, 0 (same place) or 1.
pub fn compare_paths(a: &str, b: &str) -> (r: i8)
    ensures
        r == -1 <==> path_lt(a@, b@),
        r == 0 <==> path_eq(a@, b@),
        r == 1 <==> path_lt(b@, a@),
{
    let x = component_keys(a);
    let y = component_keys(b);
    compare_segments(&x, &y)
}

/// Whether a sequence of paths is strictly increasing in path order.
pub open spec fn strictly_sorted(v: Seq<Seq<char>>) -> bool {
    forall|i: int, j: int| 0 <= i < j < v.len() ==> path_lt(#[trigger] v[i], #[trigger] v[j])
}

/// Every path of `inp` names the same place as some path of `o`.
pub open spec fn covers_all(o: Seq<Seq<char>>, inp: Seq<Seq<char>>) -> bool {
    forall|i: int| 0 <= i < inp.len() ==> has_match(o, #[trigger] inp[i])
}

/// Some path of `o` names the same place as `a`.
pub open spec fn has_match(o: Seq<Seq<char>>, a: Seq<char>) -> bool {
    exists|j: int| 0 <= j < o.len() && path_eq(a, #[trigger] o[j])
}

pub proof fn lemma_covers_intro(o: Seq<Seq<char>>, inp: Seq<Seq<char>>, w: Seq<int>)
    requires
        w.len() == inp.len(),
        forall|i: int| 0 <= i < inp.len() ==> 0 <= #[trigger] w[i] < o.len() && path_eq(inp[i], o[w[i]]),
    ensures
        covers_all(o, inp),
{
    assert forall|i: int| 0 <= i < inp.len() implies has_match(o, #[trigger] inp[i]) by {
        let j = w[i];
        assert(0 <= j < o.len() && path_eq(inp[i], o[j]));
    }
}

/// Sorts paths in path order, keeping the first of several that name the same place.
pub fn sort_dedup_paths(input: Vec<String>) -> (out: Vec<String>)
    ensures
        strictly_sorted(strs(out@)),
        forall|i: int| 0 <= i < out@.len() ==> strs(input@).contains(#[trigger] strs(out@)[i]),
        covers_all(strs(out@), strs(input@)),
{
    let mut out: Vec<String> = Vec::new();
    let ghost inv = strs(input@);
    let ghost mut wit: Seq<int> = Seq::empty();
    let mut k: usize = 0;
    while k < input.len()
        invariant
            k <= input@.len(),
            inv == strs(input@),
            strictly_sorted(strs(out@)),
            forall|i: int| 0 <= i < out@.len() ==> inv.contains(#[trigger] strs(out@)[i]),
            wit.len() == k,
            forall|i: int| 0 <= i < k ==> 0 <= #[trigger] wit[i] < out@.len() && path_eq(inv[i], strs(out@)[wit[i]]),
        decreases input@.len() - k,
    {
        let x = &input[k];
        assert(inv[k as int] == x@);
        let mut p: usize = 0;
        let mut found = false;
        let mut stop = false;
        while p < out.len() && !stop
            invariant
                inv == strs(input@),
                k < input@.len(),
                x@ == inv[k as int],
                p <= out@.len(),
                forall|i: int| 0 <= i < p ==> path_lt(#[trigger] strs(out@)[i], x@),
                stop ==> p < out@.len() && !path_lt(strs(out@)[p as int], x@),
                found ==> stop && path_eq(strs(out@)[p as int], x@),
                stop && !found ==> !path_eq(strs(out@)[p as int], x@),
            decreases out@.len() - p + (if stop { 0int } else { 1int }),
        {
            let c = compare_paths(out[p].as_str(), x.as_str());
            assert(strs(out@)[p as int] == out@[p as int]@);
            if c == -1 {
                p = p + 1;
            } else {
                stop = true;
                found = c == 0;
            }
        }
        let ghost so = strs(out@);
        if found {
            proof {
                path_order_laws(x@, so[p as int], x@);
                assert(path_eq(inv[k as int], so[p as int]));
                wit = wit.push(p as int);
            }
        } else {
            proof {
                if p < so.len() {
                    path_order_laws(so[p as int], x@, x@);
                    assert(path_lt(x@, so[p as int]));
                }
            }
            let y = x.clone();
            out.insert(p, y);
            let ghost sn = strs(out@);
            assert(sn =~= so.insert(p as int, x@));
            assert forall|i: int, j: int| 0 <= i < j < sn.len() implies path_lt(#[trigger] sn[i], #[trigger] sn[j]) by {
                if j < p {
                    assert(sn[i] == so[i] && sn[j] == so[j]);
                } else if j == p {
                    assert(sn[i] == so[i]);
                } else if i == p {
                    assert(sn[j] == so[j - 1]);
                    if j - 1 > p {
                        assert(path_lt(so[p as int], so[j - 1]));
                        path_order_laws(x@, so[p as int], so[j - 1]);
                    }
                } else if i < p {
                    assert(sn[i] == so[i] && sn[j] == so[j - 1]);
                    assert(path_lt(so[i], x@));
                    if p < so.len() {
                        assert(path_lt(x@, so[p as int]));
                        if j - 1 > p {
                            path_order_laws(x@, so[p as int], so[j - 1]);
                        }
                        path_order_laws(so[i], x@, so[j - 1]);
                    }
                } else {
                    assert(sn[i] == so[i - 1] && sn[j] == so[j - 1]);
                }
            }
            assert forall|i: int| 0 <= i < sn.len() implies inv.contains(#[trigger] sn[i]) by {
                if i < p {
                    assert(sn[i] == so[i]);
                } else if i == p {
                    assert(sn[i] == inv[k as int]);
                } else {
                    assert(sn[i] == so[i - 1]);
                }
            }
            proof {
                let old_wit = wit;
                wit = Seq::new(k as nat + 1, |i: int| if i == k { p as int } else if old_wit[i] >= p { old_wit[i] + 1 } else { old_wit[i] });
                assert forall|i: int| 0 <= i < k + 1 implies 0 <= #[trigger] wit[i] < sn.len() && path_eq(inv[i], sn[wit[i]]) by {
                    if i < k {
                        let w = old_wit[i];
                        if w >= p {
                            assert(sn[w + 1] == so[w]);
                        } else {
                            assert(sn[w] == so[w]);
                        }
                    }
                }
            }
        }
        k = k + 1;
    }
    proof {
        lemma_covers_intro(strs(out@), inv, wit);
    }
    out
}

} // verus!

verus! {

/// The name components of a path, in order: its `/`-separated pieces
/// without the `.` pieces (which name no component).
pub open spec fn named_pieces(ss: Seq<Seq<char>>) -> Seq<Seq<char>>
    decreases ss.len(),
{
    if ss.len() == 0 {
        seq![]
    } else if ss.last() == seq!['.'] {
        named_pieces(ss.drop_last())
    } else {
        named_pieces(ss.drop_last()).push(ss.last())
    }
}

/// What a key stands for: `None` for the root and a leading `.`, `..` for
/// the parent key, the name for a name key.
pub open spec fn key_piece(k: Seq<char>) -> Option<Seq<char>> {
    if k.len() > 0 && k[0] == '\u{2}' {
        Some(seq!['.', '.'])
    } else if k.len() > 0 && k[0] == '\u{3}' {
        Some(k.skip(1))
    } else {
        None
    }
}

/// The pieces a sequence of keys stands for, keys for no piece left out.
pub open spec fn key_pieces(ks: Seq<Seq<char>>) -> Seq<Seq<char>>
    decreases ks.len(),
{
    if ks.len() == 0 {
        seq![]
    } else {
        match key_piece(ks.last()) {
            Some(p) => key_pieces(ks.drop_last()).push(p),
            None => key_pieces(ks.drop_last()),
        }
    }
}

proof fn lemma_key_pieces_append(a: Seq<Seq<char>>, b: Seq<Seq<char>>)
    ensures
        key_pieces(a + b) == key_pieces(a) + key_pieces(b),
    decreases b.len(),
{
    if b.len() == 0 {
        assert(a + b =~= a);
        assert(key_pieces(a) + key_pieces(b) =~= key_pieces(a));
    } else {
        assert((a + b).drop_last() =~= a + b.drop_last());
        assert((a + b).last() == b.last());
        lemma_key_pieces_append(a, b.drop_last());
        match key_piece(b.last()) {
            Some(p) => {
                assert(key_pieces(a) + key_pieces(b) =~= (key_pieces(a) + key_pieces(b.drop_last())).push(p));
            },
            None => {},
        }
    }
}

proof fn lemma_seg_keys_pieces(ss: Seq<Seq<char>>)
    ensures
        key_pieces(seg_keys(ss)) == named_pieces(ss),
    decreases ss.len(),
{
    if ss.len() > 0 {
        lemma_seg_keys_pieces(ss.drop_last());
        let last = ss.last();
        lemma_key_pieces_append(seg_keys(ss.drop_last()), key_of(last));
        if last == seq!['.'] {
            assert(key_of(last) =~= Seq::<Seq<char>>::empty());
            assert(key_pieces(key_of(last)) =~= Seq::<Seq<char>>::empty());
        } else if last == seq!['.', '.'] {
            let k = seq!['\u{2}'];
            assert(key_of(last) == seq![k]);
            assert(seq![k].drop_last() =~= Seq::<Seq<char>>::empty());
            assert(seq![k].last() == k);
            assert(key_pieces(Seq::<Seq<char>>::empty()) == Seq::<Seq<char>>::empty());
            assert(key_piece(k) == Some(seq!['.', '.']));
            assert(key_pieces(seq![k]) =~= seq![seq!['.', '.']]);
        } else {
            let k = seq!['\u{3}'] + last;
            assert(key_of(last) == seq![k]);
            assert(seq![k].drop_last() =~= Seq::<Seq<char>>::empty());
            assert(seq![k].last() == k);
            assert(key_pieces(Seq::<Seq<char>>::empty()) == Seq::<Seq<char>>::empty());
            assert(k.skip(1) =~= last);
            assert(key_pieces(seq![k]) =~= seq![last]);
        }
        assert(key_pieces(seg_keys(ss)) =~= named_pieces(ss));
    } else {
        assert(seg_keys(ss) =~= Seq::<Seq<char>>::empty());
    }
}

/// Law: paths that the path order treats as the same (and so keeps only
/// one of) have the same components: both absolute or both relative, and
/// the same names in the same order, each compared in full (`.` pieces,
/// which name no component, aside).
pub proof fn path_eq_law(a: Seq<char>, b: Seq<char>)
    requires
        path_eq(a, b),
    ensures
        is_abs(a) == is_abs(b),
        named_pieces(segs(a)) == named_pieces(segs(b)),
{
    lemma_seg_keys_pieces(segs(a));
    lemma_seg_keys_pieces(segs(b));
    lemma_key_pieces_append(lead_keys(a), seg_keys(segs(a)));
    lemma_key_pieces_append(lead_keys(b), seg_keys(segs(b)));
    let r = seq!['\u{0}'];
    let h = seq!['\u{1}'];
    assert(key_piece(r) is None);
    assert(key_piece(h) is None);
    assert(seq![r].drop_last() =~= Seq::<Seq<char>>::empty());
    assert(seq![h].drop_last() =~= Seq::<Seq<char>>::empty());
    assert(seq![r].last() == r);
    assert(seq![h].last() == h);
    assert(key_pieces(Seq::<Seq<char>>::empty()) == Seq::<Seq<char>>::empty());
    assert(key_pieces(seq![r]) == Seq::<Seq<char>>::empty());
    assert(key_pieces(seq![h]) == Seq::<Seq<char>>::empty());
    assert(key_pieces(lead_keys(a)) =~= Seq::<Seq<char>>::empty());
    assert(key_pieces(lead_keys(b)) =~= Seq::<Seq<char>>::empty());
    assert(key_pieces(comp_keys(a)) =~= named_pieces(segs(a)));
    assert(key_pieces(comp_keys(b)) =~= named_pieces(segs(b)));
    if is_abs(a) != is_abs(b) {
        if is_abs(a) {
            assert(comp_keys(a)[0] == r);
            if lead_keys(b).len() > 0 {
                assert(comp_keys(b)[0] == h);
                assert(r[0] != h[0]);
            } else {
                lemma_seg_keys_first(segs(b));
            }
        } else {
            assert(comp_keys(b)[0] == r);
            if lead_keys(a).len() > 0 {
                assert(comp_keys(a)[0] == h);
                assert(r[0] != h[0]);
            } else {
                lemma_seg_keys_first(segs(a));
            }
        }
    }
}

/// Every key of pieces begins with the parent or the name mark.
proof fn lemma_seg_keys_first(ss: Seq<Seq<char>>)
    ensures
        forall|i: int| 0 <= i < seg_keys(ss).len() ==> #[trigger] seg_keys(ss)[i].len() > 0 && (seg_keys(ss)[i][0]
            == '\u{2}' || seg_keys(ss)[i][0] == '\u{3}'),
    decreases ss.len(),
{
    if ss.len() > 0 {
        lemma_seg_keys_first(ss.drop_last());
        let last = ss.last();
        let prev = seg_keys(ss.drop_last());
        assert forall|i: int| 0 <= i < seg_keys(ss).len() implies #[trigger] seg_keys(ss)[i].len() > 0 && (
        seg_keys(ss)[i][0] == '\u{2}' || seg_keys(ss)[i][0] == '\u{3}') by {
            if i < prev.len() {
                assert(seg_keys(ss)[i] == prev[i]);
            } else {
                assert(seg_keys(ss)[i] == key_of(last)[i - prev.len()]);
                if last == seq!['.', '.'] {
                    assert(key_of(last)[0] == seq!['\u{2}']);
                } else if last != seq!['.'] {
                    assert(key_of(last)[0] == seq!['\u{3}'] + last);
                    assert((seq!['\u{3}'] + last)[0] == '\u{3}');
                }
            }
        }
    }
}

/// Lexicographic order by code point, stated directly: at the first place
/// where they differ the smaller character comes first, and a proper prefix
/// comes before the longer text.
pub open spec fn text_before(a: Seq<char>, b: Seq<char>) -> bool {
    exists|k: int|
        0 <= k <= a.len() && k <= b.len() && #[trigger] a.take(k) == b.take(k) && ((k == a.len() && k < b.len()) || (k
            < a.len() && k < b.len() && a[k] < b[k]))
}

proof fn lemma_chars_lt_text_before(a: Seq<char>, b: Seq<char>)
    ensures
        chars_lt(a, b) <==> text_before(a, b),
    decreases a.len(),
{
    if a.len() == 0 {
        if b.len() > 0 {
            assert(a.take(0) =~= b.take(0));
        }
    } else if b.len() == 0 {
    } else if a[0] != b[0] {
        if a[0] < b[0] {
            assert(a.take(0) =~= b.take(0));
        } else {
            if text_before(a, b) {
                let k = choose|k: int|
                    0 <= k <= a.len() && k <= b.len() && #[trigger] a.take(k) == b.take(k) && ((k == a.len() && k
                        < b.len()) || (k < a.len() && k < b.len() && a[k] < b[k]));
                if k > 0 {
                    assert(a.take(k)[0] == b.take(k)[0]);
                }
            }
        }
    } else {
        lemma_chars_lt_text_before(a.drop_first(), b.drop_first());
        if text_before(a, b) {
            let k = choose|k: int|
                0 <= k <= a.len() && k <= b.len() && #[trigger] a.take(k) == b.take(k) && ((k == a.len() && k < b.len())
                    || (k < a.len() && k < b.len() && a[k] < b[k]));
            assert(k > 0);
            assert(a.drop_first().take(k - 1) =~= a.take(k).drop_first());
            assert(b.drop_first().take(k - 1) =~= b.take(k).drop_first());
            assert(a.drop_first().take(k - 1) == b.drop_first().take(k - 1));
        }
        if text_before(a.drop_first(), b.drop_first()) {
            let a1 = a.drop_first();
            let b1 = b.drop_first();
            let k = choose|k: int|
                0 <= k <= a1.len() && k <= b1.len() && #[trigger] a1.take(k) == b1.take(k) && ((k == a1.len() && k
                    < b1.len()) || (k < a1.len() && k < b1.len() && a1[k] < b1[k]));
            assert(a.take(k + 1) =~= seq![a[0]] + a1.take(k));
            assert(b.take(k + 1) =~= seq![b[0]] + b1.take(k));
            assert(a.take(k + 1) == b.take(k + 1));
        }
    }
}

/// A single name: not empty, no `/`, and neither `.` nor `..`.
pub open spec fn plain_name(a: Seq<char>) -> bool {
    &&& a.len() > 0
    &&& forall|k: int| 0 <= k < a.len() ==> a[k] != '/'
    &&& a != seq!['.']
    &&& a != seq!['.', '.']
}

proof fn lemma_name_keys(a: Seq<char>)
    requires
        plain_name(a),
    ensures
        comp_keys(a) == seq![seq!['\u{3}'] + a],
{
    lemma_seg_run_unique(a, a.len() as int);
    assert(a.take(a.len() as int) =~= a);
    assert(a.skip(a.len() as int) =~= Seq::<char>::empty());
    assert(a[0] != '/');
    assert(segs(Seq::<char>::empty()) == Seq::<Seq<char>>::empty());
    assert(segs(a) =~= seq![a]);
    assert(!starts_here(a)) by {
        if starts_here(a) {
            if a.len() > 1 {
                assert(a[1] != '/');
            } else {
                assert(a =~= seq!['.']);
            }
        }
    }
    assert(seq![a].drop_last() =~= Seq::<Seq<char>>::empty());
    assert(seq![a].last() == a);
    assert(seg_keys(Seq::<Seq<char>>::empty()) == Seq::<Seq<char>>::empty());
    assert(seg_keys(seq![a]) =~= seq![seq!['\u{3}'] + a]);
    assert(comp_keys(a) =~= seq![seq!['\u{3}'] + a]);
}

/// Law: two plain names are ordered by code point, lexicographically, and
/// are the same place only when they are the same text.
pub proof fn name_order_law(a: Seq<char>, b: Seq<char>)
    requires
        plain_name(a),
        plain_name(b),
    ensures
        path_lt(a, b) <==> text_before(a, b),
        path_eq(a, b) <==> a == b,
{
    lemma_name_keys(a);
    lemma_name_keys(b);
    let ka = seq!['\u{3}'] + a;
    let kb = seq!['\u{3}'] + b;
    assert(ka.drop_first() =~= a);
    assert(kb.drop_first() =~= b);
    lemma_chars_lt_text_before(a, b);
    assert(seq![ka].drop_first() =~= Seq::<Seq<char>>::empty());
    assert(seq![kb].drop_first() =~= Seq::<Seq<char>>::empty());
    assert(ka[0] == kb[0]);
    assert(chars_lt(ka, kb) == chars_lt(a, b));
    assert(seq![ka][0] == ka && seq![kb][0] == kb);
    if ka == kb {
        assert(a == b);
        lemma_chars_lt_irrefl(a);
        assert(segs_lt(Seq::<Seq<char>>::empty(), Seq::<Seq<char>>::empty()) == false);
        assert(!segs_lt(seq![ka], seq![kb]));
    } else {
        assert(segs_lt(seq![ka], seq![kb]) == chars_lt(ka, kb));
    }
    if a == b {
        assert(ka == kb);
    }
    if seq![ka] == seq![kb] {
        assert(seq![ka][0] == seq![kb][0]);
    }
}

} // verus!
