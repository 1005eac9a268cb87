//! Which Spring Initializr dependency an artifact id stands for.
use vstd::prelude::*;
use crate::metadata::{dep_keys, Metadata};
use crate::text::{
    views,
    contains_text, from_chars, has_prefix, is_text, replace_all, replace_all_chars, slice_range, spec_contains,
    spec_starts_with, to_chars,
};

verus! {

/// Artifact ids whose dependency key cannot be told from the id itself.
pub open spec fn spec_override_key(a: Seq<char>) -> Option<Seq<char>> {
    if a == "transformation"@ {
        Some("tanzu-scg-transformation"@)
    } else if a == "spring-cloud-starter-gateway-server-webflux"@ {
        Some("cloud-gateway"@)
    } else if a == "spring-rabbit-stream"@ {
        Some("amqp-streams"@)
    } else if a == "jcc"@ {
        Some("db2"@)
    } else if a == "spring-cloud-azure-starter"@ {
        Some("azure-support"@)
    } else if a == "spring-cloud-azure-starter-active-directory"@ {
        Some("azure-active-directory"@)
    } else if a == "spring-cloud-azure-starter-cosmos"@ {
        Some("azure-cosmos-db"@)
    } else if a == "spring-cloud-azure-starter-keyvault"@ {
        Some("azure-keyvault"@)
    } else if a == "spring-cloud-azure-starter-storage"@ {
        Some("azure-storage"@)
    } else if a == "spring-pulsar-reactive-spring-boot-starter"@ {
        Some("pulsar-reactive"@)
    } else if a == "solace-spring-boot-starter"@ {
        Some("solace"@)
    } else if a == "camel-spring-boot-starter"@ {
        Some("camel"@)
    } else if a == "spring-data-rest-hal-explorer"@ {
        Some("data-rest-explorer"@)
    } else if a == "graphql-dgs-spring-graphql-starter"@ {
        Some("netflix-dgs"@)
    } else if a == "com.netflix.dgs.codegen"@ {
        Some("dgs-codegen"@)
    } else {
        None
    }
}

/// The spellings under which a dependency key may appear in an artifact id:
/// the key, without hyphens, and for `spring-` keys also without `spring-`.
pub open spec fn key_variants(k: Seq<char>) -> Seq<Seq<char>> {
    let no_hyphen = replace_all(k, "-"@, Seq::empty());
    if spec_starts_with(k, "spring-"@) {
        let stripped = replace_all(k, "spring-"@, Seq::empty());
        seq![k, no_hyphen, stripped, replace_all(stripped, "-"@, Seq::empty())]
    } else {
        seq![k, no_hyphen]
    }
}

/// The length of `s` in bytes, encoded in UTF-8.
pub open spec fn byte_len(s: Seq<char>) -> int {
    vstd::utf8::encode_utf8(s).len() as int
}

fn byte_len_of(v: &Vec<char>) -> (r: usize)
    ensures
        r == byte_len(v@),
{
    let s = from_chars(v);
    s.as_str().as_bytes().len()
}

/// The longest-variant search over the variants `vs` of key `k`, from state
/// `st` (best key so far, byte length of its matched variant): a variant
/// contained in `a` and strictly longer in bytes than the best so far wins.
pub open spec fn step_variants(a: Seq<char>, k: Seq<char>, vs: Seq<Seq<char>>, st: (
    Option<Seq<char>>,
    int,
)) -> (Option<Seq<char>>, int)
    decreases vs.len(),
{
    if vs.len() == 0 {
        st
    } else {
        let prev = step_variants(a, k, vs.drop_last(), st);
        let v = vs.last();
        if spec_contains(a, v) && byte_len(v) > prev.1 {
            (Some(k), byte_len(v))
        } else {
            prev
        }
    }
}

pub open spec fn best_over(a: Seq<char>, keys: Seq<Seq<char>>) -> (Option<Seq<char>>, int)
    decreases keys.len(),
{
    if keys.len() == 0 {
        (None, 0)
    } else {
        step_variants(a, keys.last(), key_variants(keys.last()), best_over(a, keys.drop_last()))
    }
}

/// The dependency key of an artifact id: its override, else the first key
/// with the longest variant the id contains.
pub open spec fn spec_artifact_key(a: Seq<char>, keys: Seq<Seq<char>>) -> Option<Seq<char>> {
    match spec_override_key(a) {
        Some(k) => Some(k),
        None => best_over(a, keys).0,
    }
}

/// The same search as `step_variants`, except that a variant must be longer
/// in bytes than the best key so far (not its variant) to win.
pub open spec fn step_variants_by_key(a: Seq<char>, k: Seq<char>, vs: Seq<Seq<char>>, st: Option<
    Seq<char>,
>) -> Option<Seq<char>>
    decreases vs.len(),
{
    if vs.len() == 0 {
        st
    } else {
        let prev = step_variants_by_key(a, k, vs.drop_last(), st);
        let v = vs.last();
        let cur = match prev {
            Some(m) => byte_len(m),
            None => 0,
        };
        if spec_contains(a, v) && byte_len(v) > cur {
            Some(k)
        } else {
            prev
        }
    }
}

pub open spec fn best_by_key_over(a: Seq<char>, keys: Seq<Seq<char>>) -> Option<Seq<char>>
    decreases keys.len(),
{
    if keys.len() == 0 {
        None
    } else {
        step_variants_by_key(
            a,
            keys.last(),
            key_variants(keys.last()),
            best_by_key_over(a, keys.drop_last()),
        )
    }
}

/// The key a removal attributes an artifact id to.
pub open spec fn spec_removal_key(a: Seq<char>, keys: Seq<Seq<char>>) -> Option<Seq<char>> {
    match spec_override_key(a) {
        Some(k) => Some(k),
        None => best_by_key_over(a, keys),
    }
}

pub fn override_key(a: &Vec<char>) -> (r: Option<Vec<char>>)
    ensures
        match r {
            Some(k) => spec_override_key(a@) == Some(k@),
            None => spec_override_key(a@) is None,
        },
{
    if is_text(a, "transformation") {
        Some(to_chars("tanzu-scg-transformation"))
    } else if is_text(a, "spring-cloud-starter-gateway-server-webflux") {
        Some(to_chars("cloud-gateway"))
    } else if is_text(a, "spring-rabbit-stream") {
        Some(to_chars("amqp-streams"))
    } else if is_text(a, "jcc") {
        Some(to_chars("db2"))
    } else if is_text(a, "spring-cloud-azure-starter") {
        Some(to_chars("azure-support"))
    } else if is_text(a, "spring-cloud-azure-starter-active-directory") {
        Some(to_chars("azure-active-directory"))
    } else if is_text(a, "spring-cloud-azure-starter-cosmos") {
        Some(to_chars("azure-cosmos-db"))
    } else if is_text(a, "spring-cloud-azure-starter-keyvault") {
        Some(to_chars("azure-keyvault"))
    } else if is_text(a, "spring-cloud-azure-starter-storage") {
        Some(to_chars("azure-storage"))
    } else if is_text(a, "spring-pulsar-reactive-spring-boot-starter") {
        Some(to_chars("pulsar-reactive"))
    } else if is_text(a, "solace-spring-boot-starter") {
        Some(to_chars("solace"))
    } else if is_text(a, "camel-spring-boot-starter") {
        Some(to_chars("camel"))
    } else if is_text(a, "spring-data-rest-hal-explorer") {
        Some(to_chars("data-rest-explorer"))
    } else if is_text(a, "graphql-dgs-spring-graphql-starter") {
        Some(to_chars("netflix-dgs"))
    } else if is_text(a, "com.netflix.dgs.codegen") {
        Some(to_chars("dgs-codegen"))
    } else {
        None
    }
}

pub fn variants_of(k: &Vec<char>) -> (r: Vec<Vec<char>>)
    ensures
        views(r@) == key_variants(k@),
{
    let hyphen = to_chars("-");
    let empty: Vec<char> = Vec::new();
    proof {
        reveal_strlit("-");
        reveal_strlit("spring-");
    }
    let no_hyphen = replace_all_chars(k, &hyphen, &empty);
    let mut r: Vec<Vec<char>> = Vec::new();
    r.push(slice_range(k, 0, k.len()));
    r.push(no_hyphen);
    let prefix = to_chars("spring-");
    if has_prefix(k, &prefix) {
        let stripped = replace_all_chars(k, &prefix, &empty);
        let stripped_no_hyphen = replace_all_chars(&stripped, &hyphen, &empty);
        r.push(stripped);
        r.push(stripped_no_hyphen);
    }
    assert(k@.subrange(0, k@.len() as int) == k@);
    assert(views(r@) =~= key_variants(k@));
    r
}

/// The keys of all dependencies of `meta`, as character vectors.
pub fn dep_key_chars(meta: &Metadata) -> (r: Vec<Vec<char>>)
    ensures
        views(r@) == dep_keys(meta),
{
    let mut r: Vec<Vec<char>> = Vec::new();
    let mut i: usize = 0;
    while i < meta.all_deps.len()
        invariant
            i <= meta.all_deps.len(),
            r@.len() == i,
            forall|k: int| 0 <= k < i ==> #[trigger] r@[k]@ == meta.all_deps@[k].key@,
        decreases meta.all_deps.len() - i,
    {
        r.push(to_chars(meta.all_deps[i].key.as_str()));
        i = i + 1;
    }
    assert(views(r@) =~= dep_keys(meta));
    r
}

proof fn lemma_take_last<T>(s: Seq<T>, i: int)
    requires
        0 <= i < s.len(),
    ensures
        s.take(i + 1).drop_last() == s.take(i),
        s.take(i + 1).last() == s[i],
{
    assert(s.take(i + 1).drop_last() =~= s.take(i));
}

/// The longest-variant search over all keys.
fn best_key(a: &Vec<char>, keys: &Vec<Vec<char>>) -> (r: Option<Vec<char>>)
    ensures
        match r {
            Some(k) => best_over(a@, views(keys@)).0 == Some(k@),
            None => best_over(a@, views(keys@)).0 is None,
        },
{
    let ghost ks = views(keys@);
    let mut best: Option<Vec<char>> = None;
    let mut best_len: usize = 0;
    let mut i: usize = 0;
    assert(ks.take(0) == Seq::<Seq<char>>::empty());
    while i < keys.len()
        invariant
            i <= keys.len(),
            ks == views(keys@),
            best_over(a@, ks.take(i as int)) == (match best {
                Some(k) => Some(k@),
                None => None::<Seq<char>>,
            }, best_len as int),
        decreases keys.len() - i,
    {
        proof {
            lemma_take_last(ks, i as int);
        }
        let ghost st0 = best_over(a@, ks.take(i as int));
        let k = &keys[i];
        let vs = variants_of(k);
        let ghost vss = views(vs@);
        let mut j: usize = 0;
        assert(vss.take(0) == Seq::<Seq<char>>::empty());
        while j < vs.len()
            invariant
                j <= vs.len(),
                vss == views(vs@),
                step_variants(a@, k@, vss.take(j as int), st0) == (match best {
                    Some(b) => Some(b@),
                    None => None::<Seq<char>>,
                }, best_len as int),
            decreases vs.len() - j,
        {
            proof {
                lemma_take_last(vss, j as int);
            }
            let v = &vs[j];
            let vl = byte_len_of(v);
            if vl > best_len && contains_text(a, v) {
                best = Some(slice_range(k, 0, k.len()));
                best_len = vl;
                assert(k@.subrange(0, k@.len() as int) == k@);
            }
            j = j + 1;
        }
        assert(vss.take(vs.len() as int) == vss);
        i = i + 1;
    }
    assert(ks.take(keys.len() as int) == ks);
    best
}

/// The artifact-id key search of a removal, see `spec_removal_key`.
fn best_key_by_key(a: &Vec<char>, keys: &Vec<Vec<char>>) -> (r: Option<Vec<char>>)
    ensures
        match r {
            Some(k) => best_by_key_over(a@, views(keys@)) == Some(k@),
            None => best_by_key_over(a@, views(keys@)) is None,
        },
{
    let ghost ks = views(keys@);
    let mut best: Option<Vec<char>> = None;
    let mut i: usize = 0;
    assert(ks.take(0) == Seq::<Seq<char>>::empty());
    while i < keys.len()
        invariant
            i <= keys.len(),
            ks == views(keys@),
            best_by_key_over(a@, ks.take(i as int)) == match best {
                Some(k) => Some(k@),
                None => None::<Seq<char>>,
            },
        decreases keys.len() - i,
    {
        proof {
            lemma_take_last(ks, i as int);
        }
        let ghost st0 = best_by_key_over(a@, ks.take(i as int));
        let k = &keys[i];
        let vs = variants_of(k);
        let ghost vss = views(vs@);
        let mut j: usize = 0;
        assert(vss.take(0) == Seq::<Seq<char>>::empty());
        while j < vs.len()
            invariant
                j <= vs.len(),
                vss == views(vs@),
                step_variants_by_key(a@, k@, vss.take(j as int), st0) == match best {
                    Some(b) => Some(b@),
                    None => None::<Seq<char>>,
                },
            decreases vs.len() - j,
        {
            proof {
                lemma_take_last(vss, j as int);
            }
            let v = &vs[j];
            let cur = match &best {
                Some(m) => byte_len_of(m),
                None => 0,
            };
            if byte_len_of(v) > cur && contains_text(a, v) {
                best = Some(slice_range(k, 0, k.len()));
                assert(k@.subrange(0, k@.len() as int) == k@);
            }
            j = j + 1;
        }
        assert(vss.take(vs.len() as int) == vss);
        i = i + 1;
    }
    assert(ks.take(keys.len() as int) == ks);
    best
}

pub fn artifact_key(a: &Vec<char>, keys: &Vec<Vec<char>>) -> (r: Option<Vec<char>>)
    ensures
        match r {
            Some(k) => spec_artifact_key(a@, views(keys@)) == Some(k@),
            None => spec_artifact_key(a@, views(keys@)) is None,
        },
{
    match override_key(a) {
        Some(k) => Some(k),
        None => best_key(a, keys),
    }
}

pub fn removal_key(a: &Vec<char>, keys: &Vec<Vec<char>>) -> (r: Option<Vec<char>>)
    ensures
        match r {
            Some(k) => spec_removal_key(a@, views(keys@)) == Some(k@),
            None => spec_removal_key(a@, views(keys@)) is None,
        },
{
    match override_key(a) {
        Some(k) => Some(k),
        None => best_key_by_key(a, keys),
    }
}


/// Artifact ids whose key cannot be told from the id map to their listed
/// key, whatever dependencies the metadata holds: the fuzzy search never
/// overrules them, neither when detecting nor when removing.
pub proof fn lemma_overridden_artifacts_keep_their_key(keys: Seq<Seq<char>>)
    ensures
        spec_artifact_key("transformation"@, keys) == Some("tanzu-scg-transformation"@),
        spec_removal_key("transformation"@, keys) == Some("tanzu-scg-transformation"@),
        spec_artifact_key("spring-cloud-starter-gateway-server-webflux"@, keys) == Some("cloud-gateway"@),
        spec_removal_key("spring-cloud-starter-gateway-server-webflux"@, keys) == Some("cloud-gateway"@),
        spec_artifact_key("spring-rabbit-stream"@, keys) == Some("amqp-streams"@),
        spec_removal_key("spring-rabbit-stream"@, keys) == Some("amqp-streams"@),
        spec_artifact_key("jcc"@, keys) == Some("db2"@),
        spec_removal_key("jcc"@, keys) == Some("db2"@),
        spec_artifact_key("spring-cloud-azure-starter"@, keys) == Some("azure-support"@),
        spec_removal_key("spring-cloud-azure-starter"@, keys) == Some("azure-support"@),
        spec_artifact_key("spring-cloud-azure-starter-active-directory"@, keys) == Some("azure-active-directory"@),
        spec_removal_key("spring-cloud-azure-starter-active-directory"@, keys) == Some("azure-active-directory"@),
        spec_artifact_key("spring-cloud-azure-starter-cosmos"@, keys) == Some("azure-cosmos-db"@),
        spec_removal_key("spring-cloud-azure-starter-cosmos"@, keys) == Some("azure-cosmos-db"@),
        spec_artifact_key("spring-cloud-azure-starter-keyvault"@, keys) == Some("azure-keyvault"@),
        spec_removal_key("spring-cloud-azure-starter-keyvault"@, keys) == Some("azure-keyvault"@),
        spec_artifact_key("spring-cloud-azure-starter-storage"@, keys) == Some("azure-storage"@),
        spec_removal_key("spring-cloud-azure-starter-storage"@, keys) == Some("azure-storage"@),
        spec_artifact_key("spring-pulsar-reactive-spring-boot-starter"@, keys) == Some("pulsar-reactive"@),
        spec_removal_key("spring-pulsar-reactive-spring-boot-starter"@, keys) == Some("pulsar-reactive"@),
        spec_artifact_key("solace-spring-boot-starter"@, keys) == Some("solace"@),
        spec_removal_key("solace-spring-boot-starter"@, keys) == Some("solace"@),
        spec_artifact_key("camel-spring-boot-starter"@, keys) == Some("camel"@),
        spec_removal_key("camel-spring-boot-starter"@, keys) == Some("camel"@),
        spec_artifact_key("spring-data-rest-hal-explorer"@, keys) == Some("data-rest-explorer"@),
        spec_removal_key("spring-data-rest-hal-explorer"@, keys) == Some("data-rest-explorer"@),
        spec_artifact_key("graphql-dgs-spring-graphql-starter"@, keys) == Some("netflix-dgs"@),
        spec_removal_key("graphql-dgs-spring-graphql-starter"@, keys) == Some("netflix-dgs"@),
        spec_artifact_key("com.netflix.dgs.codegen"@, keys) == Some("dgs-codegen"@),
        spec_removal_key("com.netflix.dgs.codegen"@, keys) == Some("dgs-codegen"@),
{
    reveal_strlit("transformation");
    reveal_strlit("tanzu-scg-transformation");
    reveal_strlit("spring-cloud-starter-gateway-server-webflux");
    reveal_strlit("cloud-gateway");
    reveal_strlit("spring-rabbit-stream");
    reveal_strlit("amqp-streams");
    reveal_strlit("jcc");
    reveal_strlit("db2");
    reveal_strlit("spring-cloud-azure-starter");
    reveal_strlit("azure-support");
    reveal_strlit("spring-cloud-azure-starter-active-directory");
    reveal_strlit("azure-active-directory");
    reveal_strlit("spring-cloud-azure-starter-cosmos");
    reveal_strlit("azure-cosmos-db");
    reveal_strlit("spring-cloud-azure-starter-keyvault");
    reveal_strlit("azure-keyvault");
    reveal_strlit("spring-cloud-azure-starter-storage");
    reveal_strlit("azure-storage");
    reveal_strlit("spring-pulsar-reactive-spring-boot-starter");
    reveal_strlit("pulsar-reactive");
    reveal_strlit("solace-spring-boot-starter");
    reveal_strlit("solace");
    reveal_strlit("camel-spring-boot-starter");
    reveal_strlit("camel");
    reveal_strlit("spring-data-rest-hal-explorer");
    reveal_strlit("data-rest-explorer");
    reveal_strlit("graphql-dgs-spring-graphql-starter");
    reveal_strlit("netflix-dgs");
    reveal_strlit("com.netflix.dgs.codegen");
    reveal_strlit("dgs-codegen");
    assert("transformation"@.len() == 14);
    assert("spring-cloud-starter-gateway-server-webflux"@.len() == 43);
    assert("spring-rabbit-stream"@.len() == 20);
    assert("jcc"@.len() == 3);
    assert("spring-cloud-azure-starter"@.len() == 26);
    assert("spring-cloud-azure-starter-active-directory"@.len() == 43);
    assert("spring-cloud-azure-starter-cosmos"@.len() == 33);
    assert("spring-cloud-azure-starter-keyvault"@.len() == 35);
    assert("spring-cloud-azure-starter-storage"@.len() == 34);
    assert("spring-pulsar-reactive-spring-boot-starter"@.len() == 42);
    assert("solace-spring-boot-starter"@.len() == 26);
    assert("camel-spring-boot-starter"@.len() == 25);
    assert("spring-data-rest-hal-explorer"@.len() == 29);
    assert("graphql-dgs-spring-graphql-starter"@.len() == 34);
    assert("com.netflix.dgs.codegen"@.len() == 23);
    assert("spring-cloud-starter-gateway-server-webflux"@[13] != "spring-cloud-azure-starter-active-directory"@[13]);
    assert("spring-cloud-azure-starter"@[0] != "solace-spring-boot-starter"@[0] || "spring-cloud-azure-starter"@[1] != "solace-spring-boot-starter"@[1]);
    assert("spring-cloud-azure-starter-storage"@[0] != "graphql-dgs-spring-graphql-starter"@[0]);
}

} // verus!
