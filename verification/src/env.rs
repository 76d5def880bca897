use vstd::prelude::*;
use crate::text::strs;

verus! {

/// The views of a sequence of key/value string pairs.
pub open spec fn pair_views(v: Seq<(String, String)>) -> Seq<(Seq<char>, Seq<char>)> {
    v.map_values(|p: (String, String)| (p.0@, p.1@))
}

/// Inserts each pair into the map in order; a later pair overrides an earlier key.
pub open spec fn insert_all(m: Map<Seq<char>, Seq<char>>, s: Seq<(Seq<char>, Seq<char>)>) -> Map<Seq<char>, Seq<char>>
    decreases s.len(),
{
    if s.len() == 0 {
        m
    } else {
        insert_all(m, s.drop_last()).insert(s.last().0, s.last().1)
    }
}

/// The environment that a list of settings denotes: the last setting of a key wins.
pub open spec fn env_map(v: Seq<(String, String)>) -> Map<Seq<char>, Seq<char>> {
    insert_all(Map::empty(), pair_views(v))
}

pub proof fn lemma_insert_all_append(m: Map<Seq<char>, Seq<char>>, a: Seq<(Seq<char>, Seq<char>)>, b: Seq<(Seq<char>, Seq<char>)>)
    ensures
        insert_all(m, a + b) == insert_all(insert_all(m, a), b),
    decreases b.len(),
{
    if b.len() == 0 {
        assert(a + b =~= a);
    } else {
        assert((a + b).drop_last() =~= a + b.drop_last());
        lemma_insert_all_append(m, a, b.drop_last());
    }
}

/// Appends a setting to an environment list.
pub fn env_push(v: &mut Vec<(String, String)>, key: String, val: String)
    ensures
        env_map(final(v)@) == env_map(old(v)@).insert(key@, val@),
        final(v)@ == old(v)@.push((key, val)),
{
    let ghost k = key@;
    let ghost w = val@;
    v.push((key, val));
    assert(pair_views(final(v)@).drop_last() =~= pair_views(old(v)@));
}

/// Appends all settings of `src`, in order, to `dst`.
pub fn env_extend(dst: &mut Vec<(String, String)>, src: &Vec<(String, String)>)
    ensures
        env_map(final(dst)@) == insert_all(env_map(old(dst)@), pair_views(src@)),
{
    let ghost d0 = dst@;
    for i in 0..src.len()
        invariant
            env_map(dst@) == insert_all(env_map(d0), pair_views(src@).take(i as int)),
    {
        let k = src[i].0.clone();
        let w = src[i].1.clone();
        env_push(dst, k, w);
        assert(pair_views(src@).take(i + 1).drop_last() =~= pair_views(src@).take(i as int));
    }
    assert(pair_views(src@).take(src.len() as int) =~= pair_views(src@));
}

/// Appends borrowed key/value settings, in order, to `dst`.
pub fn env_extend_strs(dst: &mut Vec<(String, String)>, src: &[(&str, &str)])
    ensures
        env_map(final(dst)@) == insert_all(env_map(old(dst)@), src@.map_values(|p: (&str, &str)| (p.0@, p.1@))),
{
    let ghost d0 = dst@;
    let ghost sv = src@.map_values(|p: (&str, &str)| (p.0@, p.1@));
    for i in 0..src.len()
        invariant
            sv == src@.map_values(|p: (&str, &str)| (p.0@, p.1@)),
            env_map(dst@) == insert_all(env_map(d0), sv.take(i as int)),
    {
        let (k, w) = src[i];
        env_push(dst, String::from_str(k), String::from_str(w));
        assert(sv.take(i + 1).drop_last() =~= sv.take(i as int));
    }
    assert(sv.take(src.len() as int) =~= sv);
}

} // verus!

verus! {

/// The keys of a sequence of settings, as a set.
pub open spec fn keys_of(s: Seq<(Seq<char>, Seq<char>)>) -> Set<Seq<char>> {
    Set::new(|k: Seq<char>| exists|j: int| 0 <= j < s.len() && #[trigger] s[j].0 == k)
}

/// The environment a child process gets when it would otherwise inherit
/// `parent`: nothing inherited when `clear`, then the settings (the last
/// setting of a key wins), then the `removed` names gone.
pub open spec fn child_environment(
    parent: Map<Seq<char>, Seq<char>>,
    clear: bool,
    vars: Seq<(String, String)>,
    removed: Seq<String>,
) -> Map<Seq<char>, Seq<char>> {
    let base = if clear { Map::empty() } else { parent };
    base.union_prefer_right(env_map(vars)).remove_keys(strs(removed).to_set())
}

/// How a child's environment is set up from the one it would inherit:
/// cleared first when `clear`, then each of `set` set in order, then each of
/// `unset` removed.
pub struct EnvPlan {
    pub clear: bool,
    pub set: Vec<(String, String)>,
    pub unset: Vec<String>,
}

/// What applying a plan leaves of the environment `parent`.
pub open spec fn plan_applied(p: EnvPlan, parent: Map<Seq<char>, Seq<char>>) -> Map<Seq<char>, Seq<char>> {
    let base = if p.clear { Map::empty() } else { parent };
    insert_all(base, pair_views(p.set@)).remove_keys(strs(p.unset@).to_set())
}

pub proof fn lemma_insert_all_union(m: Map<Seq<char>, Seq<char>>, s: Seq<(Seq<char>, Seq<char>)>)
    ensures
        insert_all(m, s) == m.union_prefer_right(insert_all(Map::empty(), s)),
    decreases s.len(),
{
    if s.len() == 0 {
        assert(m.union_prefer_right(Map::empty()) =~= m);
    } else {
        lemma_insert_all_union(m, s.drop_last());
        assert(insert_all(m, s) =~= m.union_prefer_right(insert_all(Map::empty(), s)));
    }
}

pub proof fn lemma_insert_all_dom(s: Seq<(Seq<char>, Seq<char>)>)
    ensures
        insert_all(Map::empty(), s).dom() == keys_of(s),
    decreases s.len(),
{
    if s.len() > 0 {
        lemma_insert_all_dom(s.drop_last());
        assert forall|k: Seq<char>| keys_of(s).contains(k) implies insert_all(Map::empty(), s).dom().contains(k) by {
            let j = choose|j: int| 0 <= j < s.len() && #[trigger] s[j].0 == k;
            if j < s.len() - 1 {
                assert(s.drop_last()[j].0 == k);
            }
        }
        assert forall|k: Seq<char>| insert_all(Map::empty(), s).dom().contains(k) implies keys_of(s).contains(k) by {
            if k != s.last().0 {
                let j = choose|j: int| 0 <= j < s.drop_last().len() && #[trigger] s.drop_last()[j].0 == k;
                assert(s[j].0 == k);
            } else {
                assert(s[s.len() - 1].0 == k);
            }
        }
        assert(insert_all(Map::empty(), s).dom() =~= keys_of(s));
    } else {
        assert(keys_of(s) =~= Set::empty());
    }
}

/// Whether `names` holds `k`.
fn contains_name(names: &Vec<String>, k: &String) -> (b: bool)
    ensures
        b == strs(names@).contains(k@),
{
    for i in 0..names.len()
        invariant
            forall|j: int| 0 <= j < i ==> strs(names@)[j] != k@,
    {
        if crate::text::str_eq(names[i].as_str(), k.as_str()) {
            assert(strs(names@)[i as int] == k@);
            return true;
        }
    }
    false
}

/// Whether `s` sets the key `k`.
fn sets_key(s: &Vec<(String, String)>, k: &String) -> (b: bool)
    ensures
        b == keys_of(pair_views(s@)).contains(k@),
{
    for i in 0..s.len()
        invariant
            forall|j: int| 0 <= j < i ==> pair_views(s@)[j].0 != k@,
    {
        if crate::text::str_eq(s[i].0.as_str(), k.as_str()) {
            assert(pair_views(s@)[i as int].0 == k@);
            return true;
        }
    }
    false
}

/// Plans the environment of a child process: whether to clear what it
/// inherits, the variables to set (each key once, with its last setting,
/// and no removed name among them) and the names to remove. Applied to any
/// environment the child would inherit, the plan gives the child exactly
/// `child_environment`.
pub fn env_plan(clear: bool, vars: &Vec<(String, String)>, removed: &Vec<String>) -> (p: EnvPlan)
    ensures
        p.clear == clear,
        strs(p.unset@) == strs(removed@),
        env_map(p.set@) == env_map(vars@).remove_keys(strs(removed@).to_set()),
        forall|i: int, j: int| 0 <= i < j < p.set@.len() ==> #[trigger] p.set@[i].0@ != #[trigger] p.set@[j].0@,
        forall|i: int| 0 <= i < p.set@.len() ==> !strs(removed@).contains(#[trigger] p.set@[i].0@),
        forall|parent: Map<Seq<char>, Seq<char>>| #[trigger] plan_applied(p, parent) == child_environment(parent, clear, vars@, removed@),
{
    let ghost r = strs(removed@).to_set();
    let mut out: Vec<(String, String)> = Vec::new();
    let mut i = vars.len();
    assert(vars@.skip(i as int) =~= Seq::<(String, String)>::empty());
    assert(env_map(out@) =~= env_map(vars@.skip(i as int)).remove_keys(r));
    while i > 0
        invariant
            i <= vars@.len(),
            r == strs(removed@).to_set(),
            env_map(out@) == env_map(vars@.skip(i as int)).remove_keys(r),
            forall|a: int, b: int| 0 <= a < b < out@.len() ==> #[trigger] out@[a].0@ != #[trigger] out@[b].0@,
            forall|a: int| 0 <= a < out@.len() ==> !strs(removed@).contains(#[trigger] out@[a].0@),
        decreases i,
    {
        i = i - 1;
        let ghost rest = pair_views(vars@.skip(i + 1));
        let ghost e = (vars@[i as int].0@, vars@[i as int].1@);
        proof {
            assert(pair_views(vars@.skip(i as int)) =~= seq![e] + rest);
            lemma_insert_all_append(Map::empty(), seq![e], rest);
            assert(seq![e].drop_last() =~= Seq::<(Seq<char>, Seq<char>)>::empty());
            assert(insert_all(Map::empty(), Seq::<(Seq<char>, Seq<char>)>::empty()) == Map::<Seq<char>, Seq<char>>::empty());
            assert(seq![e].last() == e);
            assert(insert_all(Map::empty(), seq![e]) =~= Map::<Seq<char>, Seq<char>>::empty().insert(e.0, e.1));
            lemma_insert_all_union(Map::<Seq<char>, Seq<char>>::empty().insert(e.0, e.1), rest);
            lemma_insert_all_dom(rest);
            lemma_insert_all_dom(pair_views(out@));
        }
        let k = &vars[i].0;
        let gone = contains_name(removed, k);
        let present = sets_key(&out, k);
        if !gone && !present {
            let ghost before = out@;
            out.push((k.clone(), vars[i].1.clone()));
            proof {
                assert(pair_views(out@).drop_last() =~= pair_views(before));
                assert(!(strs(removed@).to_set().contains(e.0)));
                assert(env_map(out@) =~= env_map(vars@.skip(i as int)).remove_keys(r));
                assert forall|a: int, b: int| 0 <= a < b < out@.len() implies #[trigger] out@[a].0@ != #[trigger] out@[b].0@ by {
                    if b == out@.len() - 1 {
                        assert(pair_views(before)[a].0 == before[a].0@);
                    }
                }
            }
        } else {
            proof {
                if gone {
                    assert(strs(removed@).to_set().contains(e.0));
                } else {
                    assert(env_map(out@).dom().contains(e.0));
                }
                assert(env_map(out@) =~= env_map(vars@.skip(i as int)).remove_keys(r));
            }
        }
    }
    assert(vars@.skip(0) =~= vars@);
    let mut unset: Vec<String> = Vec::new();
    for j in 0..removed.len()
        invariant
            strs(unset@) == strs(removed@).take(j as int),
    {
        let ghost u = unset@;
        unset.push(removed[j].clone());
        assert(strs(unset@) =~= strs(u).push(removed@[j as int]@));
        assert(strs(removed@).take(j + 1) =~= strs(removed@).take(j as int).push(removed@[j as int]@));
    }
    assert(strs(removed@).take(removed@.len() as int) =~= strs(removed@));
    let p = EnvPlan { clear, set: out, unset };
    proof {
        assert forall|parent: Map<Seq<char>, Seq<char>>| #[trigger] plan_applied(p, parent) == child_environment(parent, clear, vars@, removed@) by {
            let base = if clear { Map::<Seq<char>, Seq<char>>::empty() } else { parent };
            lemma_insert_all_union(base, pair_views(p.set@));
            assert(strs(p.unset@).to_set() =~= r);
            assert(plan_applied(p, parent) =~= child_environment(parent, clear, vars@, removed@));
        }
    }
    p
}

/// A removed name is never in the child's environment, whatever was set
/// or inherited; and a cleared environment holds exactly the settings that
/// were not removed, nothing of the parent's.
pub proof fn child_environment_law(
    parent: Map<Seq<char>, Seq<char>>,
    clear: bool,
    vars: Seq<(String, String)>,
    removed: Seq<String>,
    key: Seq<char>,
)
    ensures
        strs(removed).contains(key) ==> !child_environment(parent, clear, vars, removed).dom().contains(key),
        clear ==> child_environment(parent, clear, vars, removed) == env_map(vars).remove_keys(strs(removed).to_set()),
        !clear && !strs(removed).contains(key) && !env_map(vars).dom().contains(key) && parent.dom().contains(key)
            ==> child_environment(parent, clear, vars, removed)[key] == parent[key],
{
    if clear {
        assert(Map::<Seq<char>, Seq<char>>::empty().union_prefer_right(env_map(vars)) =~= env_map(vars));
    }
}

} // verus!
