//! Mapping artifact ids found in build files to Spring Initializr keys.
use vstd::prelude::*;
use crate::artifacts::{artifact_key, dep_key_chars, spec_artifact_key};
use crate::metadata::{dep_keys, Metadata};
use crate::order::{insert_sorted, lemma_strictly_sorted_unique, strictly_sorted};
use crate::text::{
    chars_of_strings, from_chars, lemma_views_empty, lemma_views_push, same_chars, slice_range,
    string_views,
    strings_of, to_chars, views,
};

verus! {

/// `x` is the key of one of the artifact ids `ids`.
pub open spec fn is_found_key(ids: Seq<Seq<char>>, keys: Seq<Seq<char>>, x: Seq<char>) -> bool {
    exists|i: int| 0 <= i < ids.len() && spec_artifact_key(#[trigger] ids[i], keys) == Some(x)
}

/// The keys of the artifact ids `ids`, sorted and each once: the one
/// strictly sorted list with those members (see `lemma_found_keys_unique`).
pub open spec fn spec_found_keys(ids: Seq<Seq<char>>, keys: Seq<Seq<char>>) -> Seq<Seq<char>> {
    choose|s: Seq<Seq<char>>| strictly_sorted(s) && forall|x: Seq<char>| #[trigger] s.contains(x) <==> is_found_key(ids, keys, x)
}

/// Any strictly sorted list whose members are the keys of `ids` is
/// `spec_found_keys(ids, keys)`.
pub proof fn lemma_found_keys_unique(s: Seq<Seq<char>>, ids: Seq<Seq<char>>, keys: Seq<Seq<char>>)
    requires
        strictly_sorted(s),
        forall|x: Seq<char>| #[trigger] s.contains(x) <==> is_found_key(ids, keys, x),
    ensures
        s == spec_found_keys(ids, keys),
{
    let t = spec_found_keys(ids, keys);
    assert(strictly_sorted(t) && forall|x: Seq<char>| #[trigger] t.contains(x) <==> is_found_key(ids, keys, x));
    lemma_strictly_sorted_unique(s, t);
}

/// The artifact ids, each once in order of first appearance, whose key is
/// one of `to_remove`.
pub open spec fn removable_artifacts(
    ids: Seq<Seq<char>>,
    keys: Seq<Seq<char>>,
    to_remove: Seq<Seq<char>>,
) -> Seq<Seq<char>>
    decreases ids.len(),
{
    if ids.len() == 0 {
        Seq::empty()
    } else {
        let prev = removable_artifacts(ids.drop_last(), keys, to_remove);
        let a = ids.last();
        match spec_artifact_key(a, keys) {
            Some(k) => if to_remove.contains(k) && !prev.contains(a) {
                prev.push(a)
            } else {
                prev
            },
            None => prev,
        }
    }
}

/// An artifact id is resolved for removal exactly when it is one of the
/// ids and its key is one being removed; each comes once, and nothing is
/// resolved when nothing is removed.
pub proof fn lemma_removable_artifacts_are_those_removed(
    ids: Seq<Seq<char>>,
    keys: Seq<Seq<char>>,
    to_remove: Seq<Seq<char>>,
)
    ensures
        forall|x: Seq<char>| #[trigger] removable_artifacts(ids, keys, to_remove).contains(x) <==> (ids.contains(x)
            && (spec_artifact_key(x, keys) matches Some(k) && to_remove.contains(k))),
        forall|i: int, j: int| 0 <= i < j < removable_artifacts(ids, keys, to_remove).len() ==>
            #[trigger] removable_artifacts(ids, keys, to_remove)[i] != #[trigger] removable_artifacts(ids, keys, to_remove)[j],
        to_remove.len() == 0 ==> removable_artifacts(ids, keys, to_remove).len() == 0,
    decreases ids.len(),
{
    if ids.len() > 0 {
        let init = ids.drop_last();
        let a = ids.last();
        lemma_removable_artifacts_are_those_removed(init, keys, to_remove);
        let prev = removable_artifacts(init, keys, to_remove);
        let r = removable_artifacts(ids, keys, to_remove);
        assert forall|x: Seq<char>| ids.contains(x) <==> (init.contains(x) || x == a) by {
            if ids.contains(x) {
                let i = choose|i: int| 0 <= i < ids.len() && ids[i] == x;
                if i < ids.len() - 1 {
                    assert(init[i] == x);
                }
            }
            if init.contains(x) {
                let i = choose|i: int| 0 <= i < init.len() && init[i] == x;
                assert(ids[i] == x);
            }
            if x == a {
                assert(ids[ids.len() - 1] == a);
            }
        }
        let cond_a = match spec_artifact_key(a, keys) {
            Some(k) => to_remove.contains(k),
            None => false,
        };
        if cond_a && !prev.contains(a) {
            assert(r == prev.push(a));
            assert forall|x: Seq<char>| r.contains(x) <==> (prev.contains(x) || x == a) by {
                if r.contains(x) {
                    let i = choose|i: int| 0 <= i < r.len() && r[i] == x;
                    if i < prev.len() {
                        assert(prev[i] == x);
                    }
                }
                if prev.contains(x) {
                    let i = choose|i: int| 0 <= i < prev.len() && prev[i] == x;
                    assert(r[i] == x);
                }
                if x == a {
                    assert(r[prev.len() as int] == a);
                }
            }
            assert forall|i: int, j: int| 0 <= i < j < r.len() implies #[trigger] r[i] != #[trigger] r[j] by {
                if j == prev.len() {
                    assert(prev.contains(r[i]));
                } else {
                    assert(r[i] == prev[i] && r[j] == prev[j]);
                }
            }
        } else {
            assert(r == prev);
        }
        if to_remove.len() == 0 {
            assert(!to_remove.contains(a) || true);
            match spec_artifact_key(a, keys) {
                Some(k) => assert(!to_remove.contains(k)),
                None => {},
            }
        }
    }
}

/// Maps the artifact ids of build files to dependency keys.
pub struct ArtifactMapper;

/// Whether `x` is one of `list`.
pub fn list_contains(list: &Vec<Vec<char>>, x: &Vec<char>) -> (r: bool)
    ensures
        r == views(list@).contains(x@),
{
    let mut i: usize = 0;
    while i < list.len()
        invariant
            i <= list.len(),
            forall|k: int| 0 <= k < i ==> views(list@)[k] != x@,
        decreases list.len() - i,
    {
        if same_chars(&list[i], x) {
            assert(views(list@)[i as int] == x@);
            return true;
        }
        i = i + 1;
    }
    false
}

/// The sorted, duplicate-free keys of the artifact ids `ids`.
pub fn found_keys(ids: &Vec<Vec<char>>, keys: &Vec<Vec<char>>) -> (r: Vec<Vec<char>>)
    ensures
        views(r@) == spec_found_keys(views(ids@), views(keys@)),
        strictly_sorted(views(r@)),
        forall|x: Seq<char>| #[trigger] views(r@).contains(x) <==> is_found_key(
            views(ids@),
            views(keys@),
            x,
        ),
{
    let ghost is = views(ids@);
    let ghost ks = views(keys@);
    let mut out: Vec<Vec<char>> = Vec::new();
    let mut i: usize = 0;
    proof {
        lemma_views_empty();
    }
    while i < ids.len()
        invariant
            i <= ids.len(),
            is == views(ids@),
            ks == views(keys@),
            strictly_sorted(views(out@)),
            forall|x: Seq<char>| #[trigger] views(out@).contains(x) <==> is_found_key(
                is.take(i as int),
                ks,
                x,
            ),
        decreases ids.len() - i,
    {
        let ghost before = views(out@);
        let found = artifact_key(&ids[i], keys);
        match found {
            Some(k) => {
                let ghost kv = k@;
                insert_sorted(&mut out, k);
                assert forall|x: Seq<char>| #[trigger] views(out@).contains(x) <==> is_found_key(
                    is.take(i + 1),
                    ks,
                    x,
                ) by {
                    if is_found_key(is.take(i + 1), ks, x) {
                        let j = choose|j: int|
                            0 <= j < is.take(i + 1).len() && spec_artifact_key(
                                #[trigger] is.take(i + 1)[j],
                                ks,
                            ) == Some(x);
                        if j < i {
                            assert(is.take(i as int)[j] == is.take(i + 1)[j]);
                        }
                    }
                    if is_found_key(is.take(i as int), ks, x) {
                        let j = choose|j: int|
                            0 <= j < is.take(i as int).len() && spec_artifact_key(
                                #[trigger] is.take(i as int)[j],
                                ks,
                            ) == Some(x);
                        assert(is.take(i + 1)[j] == is.take(i as int)[j]);
                    }
                    if x == kv {
                        assert(is.take(i + 1)[i as int] == is[i as int]);
                    }
                }
            },
            None => {
                assert forall|x: Seq<char>| #[trigger] views(out@).contains(x) <==> is_found_key(
                    is.take(i + 1),
                    ks,
                    x,
                ) by {
                    if is_found_key(is.take(i + 1), ks, x) {
                        let j = choose|j: int|
                            0 <= j < is.take(i + 1).len() && spec_artifact_key(
                                #[trigger] is.take(i + 1)[j],
                                ks,
                            ) == Some(x);
                        if j < i {
                            assert(is.take(i as int)[j] == is.take(i + 1)[j]);
                        } else {
                            assert(is.take(i + 1)[j] == is[i as int]);
                        }
                    }
                    if is_found_key(is.take(i as int), ks, x) {
                        let j = choose|j: int|
                            0 <= j < is.take(i as int).len() && spec_artifact_key(
                                #[trigger] is.take(i as int)[j],
                                ks,
                            ) == Some(x);
                        assert(is.take(i + 1)[j] == is.take(i as int)[j]);
                    }
                }
            },
        }
        i = i + 1;
    }
    assert(is.take(ids.len() as int) == is);
    proof {
        lemma_found_keys_unique(views(out@), is, ks);
    }
    out
}

impl ArtifactMapper {
    /// The dependency key an artifact id stands for, if any.
    pub fn artifact_to_key(artifact_id: &str, meta: &Metadata) -> (r: Option<String>)
        ensures
            match r {
                Some(k) => spec_artifact_key(artifact_id@, dep_keys(meta)) == Some(k@),
                None => spec_artifact_key(artifact_id@, dep_keys(meta)) is None,
            },
    {
        let keys = dep_key_chars(meta);
        match artifact_key(&to_chars(artifact_id), &keys) {
            Some(k) => Some(from_chars(&k)),
            None => None,
        }
    }

    /// The keys of the dependencies the artifact ids stand for, sorted and
    /// each once.
    pub fn detect_existing(artifact_ids: &[String], meta: &Metadata) -> (r: Vec<String>)
        ensures
            string_views(r@) == spec_found_keys(string_views(artifact_ids@), dep_keys(meta)),
            strictly_sorted(string_views(r@)),
            forall|x: Seq<char>| #[trigger] string_views(r@).contains(x) <==> is_found_key(
                string_views(artifact_ids@),
                dep_keys(meta),
                x,
            ),
    {
        let keys = dep_key_chars(meta);
        let ids = chars_of_strings(artifact_ids);
        strings_of(&found_keys(&ids, &keys))
    }

    /// The artifact ids, each once in order of first appearance, whose key
    /// is one of `to_remove`.
    pub fn resolve_artifacts_for_removal(
        to_remove: &[String],
        artifact_ids: &[String],
        meta: &Metadata,
    ) -> (r: Vec<String>)
        ensures
            string_views(r@) == removable_artifacts(
                string_views(artifact_ids@),
                dep_keys(meta),
                string_views(to_remove@),
            ),
    {
        let keys = dep_key_chars(meta);
        let ids = chars_of_strings(artifact_ids);
        let removing = chars_of_strings(to_remove);
        let ghost is = views(ids@);
        let ghost rs = views(removing@);
        let mut out: Vec<Vec<char>> = Vec::new();
        let mut i: usize = 0;
        proof {
            lemma_views_empty();
            assert(is.take(0) == Seq::<Seq<char>>::empty());
        }
        while i < ids.len()
            invariant
                i <= ids.len(),
                is == views(ids@),
                rs == views(removing@),
                views(out@) == removable_artifacts(is.take(i as int), views(keys@), rs),
            decreases ids.len() - i,
        {
            assert(is.take(i + 1).drop_last() == is.take(i as int));
            match artifact_key(&ids[i], &keys) {
                Some(k) => {
                    let ghost old_out = out@;
                    if list_contains(&removing, &k) && !list_contains(&out, &ids[i]) {
                        out.push(slice_range(&ids[i], 0, ids[i].len()));
                        proof {
                            lemma_views_push(old_out, ids@[i as int]);
                        }
                        assert(ids@[i as int]@.subrange(0, ids@[i as int]@.len() as int) == ids@[i as int]@);
                    }
                },
                None => {},
            }
            i = i + 1;
        }
        assert(is.take(ids.len() as int) == is);
        strings_of(&out)
    }
}

} // verus!
