//! Looking up one dependency.
use vstd::prelude::*;
use crate::generate::first_with_key;
use crate::metadata::{dep_views, DepOption, DepSpec, Metadata};
use crate::text::{contains_text, extend, from_chars, lowercase_of, spec_contains, str_lowercase, to_chars};

verus! {

/// Arguments of the `info` command.
pub struct InfoArgs {
    pub dependency_id: String,
}

/// The first dependency whose key contains `q`.
pub open spec fn first_key_containing(all: Seq<DepSpec>, q: Seq<char>) -> Option<DepSpec>
    decreases all.len(),
{
    if all.len() == 0 {
        None
    } else if spec_contains(all[0].key, q) {
        Some(all[0])
    } else {
        first_key_containing(all.drop_first(), q)
    }
}

/// The dependency an id names, case ignored: the one with that key, else
/// the first whose key contains it; else the error.
pub open spec fn spec_find_dependency(all: Seq<DepSpec>, id: Seq<char>) -> Result<DepSpec, Seq<char>> {
    let q = str_lowercase(id);
    match first_with_key(all, q) {
        Some(d) => Ok(d),
        None => match first_key_containing(all, q) {
            Some(d) => Ok(d),
            None => Err("Dependency '"@ + q + "' not found"@),
        },
    }
}

pub fn find_dependency(meta: &Metadata, dependency_id: &str) -> (r: Result<DepOption, String>)
    ensures
        match r {
            Ok(d) => spec_find_dependency(dep_views(meta.all_deps@), dependency_id@) == Ok::<DepSpec, Seq<char>>(d@),
            Err(e) => spec_find_dependency(dep_views(meta.all_deps@), dependency_id@) == Err::<DepSpec, Seq<char>>(e@),
        },
{
    let query = lowercase_of(dependency_id);
    let q = to_chars(query.as_str());
    let ghost all = dep_views(meta.all_deps@);
    let mut i: usize = 0;
    assert(all.skip(0) == all);
    while i < meta.all_deps.len()
        invariant
            i <= meta.all_deps.len(),
            all == dep_views(meta.all_deps@),
            q@ == query@,
            query@ == str_lowercase(dependency_id@),
            first_with_key(all, q@) == first_with_key(all.skip(i as int), q@),
        decreases meta.all_deps.len() - i,
    {
        assert(all.skip(i as int)[0] == meta.all_deps@[i as int]@);
        assert(all.skip(i as int).drop_first() == all.skip(i + 1));
        if meta.all_deps[i].key == query {
            return Ok(meta.all_deps[i].clone_dep());
        }
        i = i + 1;
    }
    let mut j: usize = 0;
    while j < meta.all_deps.len()
        invariant
            j <= meta.all_deps.len(),
            all == dep_views(meta.all_deps@),
            q@ == query@,
            query@ == str_lowercase(dependency_id@),
            first_with_key(all, q@) is None,
            first_key_containing(all, q@) == first_key_containing(all.skip(j as int), q@),
        decreases meta.all_deps.len() - j,
    {
        assert(all.skip(j as int)[0] == meta.all_deps@[j as int]@);
        assert(all.skip(j as int).drop_first() == all.skip(j + 1));
        if contains_text(&to_chars(meta.all_deps[j].key.as_str()), &q) {
            return Ok(meta.all_deps[j].clone_dep());
        }
        j = j + 1;
    }
    let mut msg = to_chars("Dependency '");
    extend(&mut msg, &q);
    extend(&mut msg, &to_chars("' not found"));
    Err(from_chars(&msg))
}

/// The Maven coordinate of a dependency's Spring Boot starter.
pub fn starter_coordinate(key: &str) -> (r: String)
    ensures
        r@ == "org.springframework.boot:spring-boot-starter-"@ + key@,
{
    let mut out = to_chars("org.springframework.boot:spring-boot-starter-");
    extend(&mut out, &to_chars(key));
    from_chars(&out)
}

} // verus!
