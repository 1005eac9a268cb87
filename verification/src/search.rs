//! Searching the dependencies by keyword.
use vstd::prelude::*;
use crate::metadata::{dep_views, DepSpec, Metadata};
use crate::text::{contains_text, lowercase_of, spec_contains, str_lowercase, string_views, to_chars, same_chars};

verus! {

/// Arguments of the `search` command.
pub struct SearchArgs {
    pub keyword: String,
}

/// The characters of `q` occur in `t` in order (matched greedily, from the left).
pub open spec fn is_subsequence(q: Seq<char>, t: Seq<char>) -> bool
    decreases t.len(),
{
    if q.len() == 0 {
        true
    } else if t.len() == 0 {
        false
    } else if t[0] == q[0] {
        is_subsequence(q.drop_first(), t.drop_first())
    } else {
        is_subsequence(q, t.drop_first())
    }
}

pub fn is_fuzzy_match(query: &str, target: &str) -> (r: bool)
    ensures
        r == is_subsequence(query@, target@),
{
    let q = to_chars(query);
    let t = to_chars(target);
    let mut qi: usize = 0;
    let mut i: usize = 0;
    assert(q@.skip(0) == q@);
    assert(t@.skip(0) == t@);
    while i < t.len()
        invariant
            qi <= q.len(),
            i <= t.len(),
            q@ == query@,
            t@ == target@,
            is_subsequence(q@, t@) == is_subsequence(q@.skip(qi as int), t@.skip(i as int)),
        decreases t.len() - i,
    {
        if qi == q.len() {
            assert(q@.skip(qi as int).len() == 0);
            return true;
        }
        assert(t@.skip(i as int).drop_first() == t@.skip(i + 1));
        assert(q@.skip(qi as int).drop_first() == q@.skip(qi + 1));
        assert(t@.skip(i as int)[0] == t@[i as int]);
        assert(q@.skip(qi as int)[0] == q@[qi as int]);
        if t[i] == q[qi] {
            qi = qi + 1;
        }
        i = i + 1;
    }
    assert(t@.skip(i as int).len() == 0);
    qi == q.len()
}

/// How well a dependency matches a lower-case query, from its lower-case
/// key, name and description: 100 for the key, 90 for the name, 80 when the
/// key contains the query, 70 the name, 60 the description, 50 when the
/// query's characters occur in order in the key or the name; else 0.
pub open spec fn spec_score(q: Seq<char>, key: Seq<char>, name: Seq<char>, desc: Seq<char>) -> u32 {
    if key == q {
        100
    } else if name == q {
        90
    } else if spec_contains(key, q) {
        80
    } else if spec_contains(name, q) {
        70
    } else if spec_contains(desc, q) {
        60
    } else if is_subsequence(q, key) || is_subsequence(q, name) {
        50
    } else {
        0
    }
}

pub open spec fn dep_score(d: DepSpec, q: Seq<char>) -> u32 {
    spec_score(q, str_lowercase(d.key), str_lowercase(d.text), str_lowercase(d.description))
}

/// The keys of the dependencies with score `s`, in order.
pub open spec fn keys_with_score(all: Seq<DepSpec>, q: Seq<char>, s: u32) -> Seq<Seq<char>>
    decreases all.len(),
{
    if all.len() == 0 {
        Seq::empty()
    } else {
        let prev = keys_with_score(all.drop_last(), q, s);
        if dep_score(all.last(), q) == s {
            prev.push(all.last().key)
        } else {
            prev
        }
    }
}

/// The keys of the matching dependencies, best score first, dependencies of
/// equal score in their order.
pub open spec fn spec_search(all: Seq<DepSpec>, keyword: Seq<char>) -> Seq<Seq<char>> {
    let q = str_lowercase(keyword);
    keys_with_score(all, q, 100) + keys_with_score(all, q, 90) + keys_with_score(all, q, 80)
        + keys_with_score(all, q, 70) + keys_with_score(all, q, 60) + keys_with_score(all, q, 50)
}

fn score_of(q: &Vec<char>, key: &Vec<char>, name: &Vec<char>, desc: &Vec<char>) -> (r: u32)
    ensures
        r == spec_score(q@, key@, name@, desc@),
{
    if same_chars(key, q) {
        100
    } else if same_chars(name, q) {
        90
    } else if contains_text(key, q) {
        80
    } else if contains_text(name, q) {
        70
    } else if contains_text(desc, q) {
        60
    } else if is_fuzzy_chars(q, key) || is_fuzzy_chars(q, name) {
        50
    } else {
        0
    }
}

fn is_fuzzy_chars(q: &Vec<char>, t: &Vec<char>) -> (r: bool)
    ensures
        r == is_subsequence(q@, t@),
{
    let mut qi: usize = 0;
    let mut i: usize = 0;
    assert(q@.skip(0) == q@);
    assert(t@.skip(0) == t@);
    while i < t.len()
        invariant
            qi <= q.len(),
            i <= t.len(),
            is_subsequence(q@, t@) == is_subsequence(q@.skip(qi as int), t@.skip(i as int)),
        decreases t.len() - i,
    {
        if qi == q.len() {
            assert(q@.skip(qi as int).len() == 0);
            return true;
        }
        assert(t@.skip(i as int).drop_first() == t@.skip(i + 1));
        assert(q@.skip(qi as int).drop_first() == q@.skip(qi + 1));
        assert(t@.skip(i as int)[0] == t@[i as int]);
        assert(q@.skip(qi as int)[0] == q@[qi as int]);
        if t[i] == q[qi] {
            qi = qi + 1;
        }
        i = i + 1;
    }
    assert(t@.skip(i as int).len() == 0);
    qi == q.len()
}

fn collect_with_score(meta: &Metadata, scores: &Vec<u32>, q: Ghost<Seq<char>>, s: u32, out: &mut Vec<String>)
    requires
        scores@.len() == meta.all_deps@.len(),
        forall|k: int| 0 <= k < scores@.len() ==> #[trigger] scores@[k] == dep_score(meta.all_deps@[k]@, q@),
    ensures
        string_views(final(out)@) == string_views(old(out)@) + keys_with_score(dep_views(meta.all_deps@), q@, s),
{
    let ghost all = dep_views(meta.all_deps@);
    let ghost start = string_views(out@);
    let mut i: usize = 0;
    assert(all.take(0) =~= Seq::<DepSpec>::empty());
    assert(start + keys_with_score(all.take(0), q@, s) =~= start);
    while i < scores.len()
        invariant
            i <= scores.len(),
            scores@.len() == meta.all_deps@.len(),
            forall|k: int| 0 <= k < scores@.len() ==> #[trigger] scores@[k] == dep_score(meta.all_deps@[k]@, q@),
            all == dep_views(meta.all_deps@),
            string_views(out@) == start + keys_with_score(all.take(i as int), q@, s),
        decreases scores.len() - i,
    {
        assert(all.take(i + 1).drop_last() == all.take(i as int));
        assert(all.take(i + 1).last() == meta.all_deps@[i as int]@);
        if scores[i] == s {
            let k = meta.all_deps[i].key.clone();
            assert(string_views(out@.push(k)) =~= string_views(out@).push(k@));
            out.push(k);
        }
        i = i + 1;
    }
    assert(all.take(scores.len() as int) == all);
}

/// The keys of the dependencies matching `keyword`, best match first (see
/// `spec_search`); empty when none matches.
pub fn search_dependencies(meta: &Metadata, keyword: &str) -> (r: Vec<String>)
    ensures
        string_views(r@) == spec_search(dep_views(meta.all_deps@), keyword@),
{
    let q = to_chars(lowercase_of(keyword).as_str());
    let ghost qv = str_lowercase(keyword@);
    let mut scores: Vec<u32> = Vec::new();
    let mut i: usize = 0;
    while i < meta.all_deps.len()
        invariant
            i <= meta.all_deps.len(),
            q@ == qv,
            scores@.len() == i,
            forall|k: int| 0 <= k < i ==> #[trigger] scores@[k] == dep_score(meta.all_deps@[k]@, qv),
        decreases meta.all_deps.len() - i,
    {
        let d = &meta.all_deps[i];
        let key = to_chars(lowercase_of(d.key.as_str()).as_str());
        let name = to_chars(lowercase_of(d.text.as_str()).as_str());
        let desc = to_chars(lowercase_of(d.description.as_str()).as_str());
        scores.push(score_of(&q, &key, &name, &desc));
        i = i + 1;
    }
    let mut out: Vec<String> = Vec::new();
    assert(string_views(out@) =~= Seq::<Seq<char>>::empty());
    collect_with_score(meta, &scores, Ghost(qv), 100, &mut out);
    collect_with_score(meta, &scores, Ghost(qv), 90, &mut out);
    collect_with_score(meta, &scores, Ghost(qv), 80, &mut out);
    collect_with_score(meta, &scores, Ghost(qv), 70, &mut out);
    collect_with_score(meta, &scores, Ghost(qv), 60, &mut out);
    collect_with_score(meta, &scores, Ghost(qv), 50, &mut out);
    out
}

/// `idx` places the characters of `q` in `t`, at increasing positions.
pub open spec fn is_embedding(idx: Seq<int>, q: Seq<char>, t: Seq<char>) -> bool {
    &&& idx.len() == q.len()
    &&& forall|k: int| 0 <= k < idx.len() ==> 0 <= #[trigger] idx[k] < t.len() && t[idx[k]] == q[k]
    &&& forall|k: int, j: int| 0 <= k < j < idx.len() ==> #[trigger] idx[k] < #[trigger] idx[j]
}

/// The characters of `q` occur in `t` in order, at some positions.
pub open spec fn embeds(q: Seq<char>, t: Seq<char>) -> bool {
    exists|idx: Seq<int>| is_embedding(idx, q, t)
}

/// The fuzzy match, which matches greedily from the left, finds the query
/// exactly when its characters occur in the target in order, wherever.
pub proof fn lemma_fuzzy_match_is_ordered_occurrence(q: Seq<char>, t: Seq<char>)
    ensures
        is_subsequence(q, t) <==> embeds(q, t),
    decreases t.len(),
{
    if q.len() == 0 {
        let idx = Seq::<int>::empty();
        assert(is_embedding(idx, q, t));
    } else if t.len() == 0 {
        if embeds(q, t) {
            let idx = choose|idx: Seq<int>| is_embedding(idx, q, t);
            assert(0 <= idx[0] < t.len());
        }
    } else {
        let t1 = t.drop_first();
        if t[0] == q[0] {
            let q1 = q.drop_first();
            lemma_fuzzy_match_is_ordered_occurrence(q1, t1);
            if is_subsequence(q, t) {
                let idx1 = choose|idx: Seq<int>| is_embedding(idx, q1, t1);
                let idx = seq![0int] + idx1.map_values(|i: int| i + 1);
                assert forall|k: int| 0 <= k < idx.len() implies 0 <= #[trigger] idx[k] < t.len() && t[idx[k]] == q[k] by {
                    if k > 0 {
                        assert(idx[k] == idx1[k - 1] + 1);
                        assert(0 <= idx1[k - 1] < t1.len());
                    }
                }
                assert forall|k: int, j: int| 0 <= k < j < idx.len() implies #[trigger] idx[k] < #[trigger] idx[j] by {
                    if k > 0 {
                        assert(idx1[k - 1] < idx1[j - 1]);
                    } else {
                        assert(0 <= idx1[j - 1]);
                    }
                }
                assert(is_embedding(idx, q, t));
            }
            if embeds(q, t) {
                let idx = choose|idx: Seq<int>| is_embedding(idx, q, t);
                let idx1 = idx.drop_first().map_values(|i: int| i - 1);
                assert forall|k: int| 0 <= k < idx1.len() implies 0 <= #[trigger] idx1[k] < t1.len() && t1[idx1[k]] == q1[k] by {
                    assert(idx[0] < idx[k + 1]);
                    assert(0 <= idx[0]);
                }
                assert forall|k: int, j: int| 0 <= k < j < idx1.len() implies #[trigger] idx1[k] < #[trigger] idx1[j] by {
                    assert(idx[k + 1] < idx[j + 1]);
                }
                assert(is_embedding(idx1, q1, t1));
            }
        } else {
            lemma_fuzzy_match_is_ordered_occurrence(q, t1);
            if is_subsequence(q, t) {
                let idx1 = choose|idx: Seq<int>| is_embedding(idx, q, t1);
                let idx = idx1.map_values(|i: int| i + 1);
                assert forall|k: int| 0 <= k < idx.len() implies 0 <= #[trigger] idx[k] < t.len() && t[idx[k]] == q[k] by {
                    assert(0 <= idx1[k] < t1.len());
                }
                assert forall|k: int, j: int| 0 <= k < j < idx.len() implies #[trigger] idx[k] < #[trigger] idx[j] by {
                    assert(idx1[k] < idx1[j]);
                }
                assert(is_embedding(idx, q, t));
            }
            if embeds(q, t) {
                let idx = choose|idx: Seq<int>| is_embedding(idx, q, t);
                assert(idx[0] != 0);
                let idx1 = idx.map_values(|i: int| i - 1);
                assert forall|k: int| 0 <= k < idx1.len() implies 0 <= #[trigger] idx1[k] < t1.len() && t1[idx1[k]] == q[k] by {
                    if k > 0 {
                        assert(idx[0] < idx[k]);
                    }
                    assert(0 <= idx[0]);
                }
                assert forall|k: int, j: int| 0 <= k < j < idx1.len() implies #[trigger] idx1[k] < #[trigger] idx1[j] by {
                    assert(idx[k] < idx[j]);
                }
                assert(is_embedding(idx1, q, t1));
            }
        }
    }
}

proof fn lemma_keys_with_score(all: Seq<DepSpec>, q: Seq<char>, s: u32, k: Seq<char>)
    ensures
        keys_with_score(all, q, s).contains(k) <==> exists|i: int| 0 <= i < all.len() && #[trigger] all[i].key == k && dep_score(all[i], q) == s,
    decreases all.len(),
{
    if all.len() > 0 {
        let init = all.drop_last();
        lemma_keys_with_score(init, q, s, k);
        let prev = keys_with_score(init, q, s);
        let cur = keys_with_score(all, q, s);
        if cur.contains(k) {
            let j = choose|j: int| 0 <= j < cur.len() && cur[j] == k;
            if j < prev.len() {
                assert(prev[j] == k);
                let i = choose|i: int| 0 <= i < init.len() && #[trigger] init[i].key == k && dep_score(init[i], q) == s;
                assert(all[i] == init[i]);
            } else {
                assert(all[all.len() - 1].key == k);
            }
        }
        if exists|i: int| 0 <= i < all.len() && #[trigger] all[i].key == k && dep_score(all[i], q) == s {
            let i = choose|i: int| 0 <= i < all.len() && #[trigger] all[i].key == k && dep_score(all[i], q) == s;
            if i < all.len() - 1 {
                assert(init[i] == all[i]);
                assert(init[i].key == k);
                let j = choose|j: int| 0 <= j < prev.len() && prev[j] == k;
                if dep_score(all.last(), q) == s {
                    assert(cur[j] == k);
                } else {
                    assert(cur[j] == k);
                }
            } else {
                assert(cur[prev.len() as int] == k);
            }
        }
    }
}

/// The search finds a key exactly when a dependency with that key matches
/// the keyword at all (has a positive score).
pub proof fn lemma_search_finds_every_match(all: Seq<DepSpec>, keyword: Seq<char>, k: Seq<char>)
    ensures
        spec_search(all, keyword).contains(k) <==> exists|i: int| 0 <= i < all.len() && #[trigger] all[i].key == k
            && dep_score(all[i], str_lowercase(keyword)) > 0,
{
    let q = str_lowercase(keyword);
    lemma_keys_with_score(all, q, 100, k);
    lemma_keys_with_score(all, q, 90, k);
    lemma_keys_with_score(all, q, 80, k);
    lemma_keys_with_score(all, q, 70, k);
    lemma_keys_with_score(all, q, 60, k);
    lemma_keys_with_score(all, q, 50, k);
    let a = keys_with_score(all, q, 100);
    let b = keys_with_score(all, q, 90);
    let c = keys_with_score(all, q, 80);
    let d = keys_with_score(all, q, 70);
    let e = keys_with_score(all, q, 60);
    let f = keys_with_score(all, q, 50);
    let r = a + b + c + d + e + f;
    assert forall|x: Seq<char>| #[trigger] r.contains(x) <==> (a.contains(x) || b.contains(x) || c.contains(x) || d.contains(x) || e.contains(x) || f.contains(x)) by {
        vstd::seq_lib::lemma_seq_concat_contains_all_elements(a + b + c + d + e, f, x);
        vstd::seq_lib::lemma_seq_concat_contains_all_elements(a + b + c + d, e, x);
        vstd::seq_lib::lemma_seq_concat_contains_all_elements(a + b + c, d, x);
        vstd::seq_lib::lemma_seq_concat_contains_all_elements(a + b, c, x);
        vstd::seq_lib::lemma_seq_concat_contains_all_elements(a, b, x);
    }
    if exists|i: int| 0 <= i < all.len() && #[trigger] all[i].key == k && dep_score(all[i], q) > 0 {
        let i = choose|i: int| 0 <= i < all.len() && #[trigger] all[i].key == k && dep_score(all[i], q) > 0;
        let sc = dep_score(all[i], q);
        assert(sc == 100 || sc == 90 || sc == 80 || sc == 70 || sc == 60 || sc == 50);
    }
}

} // verus!
