//! Adding and removing dependencies of an existing project.
use vstd::prelude::*;
use crate::artifacts::dep_key_chars;
use crate::changes::{
    addition_defined, apply_addition, apply_removal, note_views, spec_apply_addition,
    spec_apply_removal, ChangeNote, NoteKind,
};
use crate::metadata::{dep_keys, dep_views, defaults_view, Defaults, DepGroup, DepOption, DepSpec, Metadata, MetadataSpec};
use crate::generate::first_with_key;
use crate::order::{insert_sorted, strictly_sorted};
use crate::project::dependency_map::{found_keys, is_found_key, list_contains, spec_found_keys};
use crate::scan::{build_artifact_ids, build_boot_version, spec_build_artifact_ids, spec_build_boot_version};
use crate::text::{
    join, joined, chars_of_strings, contains_text, extend, from_chars, lemma_views_empty, spec_contains,
    string_views, strings_of, to_chars, views,
};

verus! {

/// Arguments of the `add` command: dependency keys, possibly none.
pub struct AddArgs {
    pub deps: Vec<String>,
}

/// Arguments of the `remove` command: dependency keys, possibly none.
pub struct RemoveArgs {
    pub deps: Vec<String>,
}

/// The artifact ids a build file declares.
pub fn extract_artifact_ids_from_content(content: &str) -> (r: Vec<String>)
    ensures
        string_views(r@) == spec_build_artifact_ids(content@),
{
    strings_of(&build_artifact_ids(&to_chars(content)))
}

/// The Spring Initializr keys of the dependencies a build file declares,
/// sorted and each once.
pub fn detect_existing_deps(meta: &Metadata, content: &str) -> (r: Vec<String>)
    ensures
        string_views(r@) == spec_found_keys(spec_build_artifact_ids(content@), dep_keys(meta)),
        strictly_sorted(string_views(r@)),
        forall|x: Seq<char>| #[trigger] string_views(r@).contains(x) <==> is_found_key(
            spec_build_artifact_ids(content@),
            dep_keys(meta),
            x,
        ),
{
    let ids = build_artifact_ids(&to_chars(content));
    let keys = dep_key_chars(meta);
    strings_of(&found_keys(&ids, &keys))
}

/// Detecting a build file's dependencies is the mapper's detection over the
/// artifact ids the file declares: for any list of ids that
/// `extract_artifact_ids_from_content` gives, `detect_existing_deps` and
/// `ArtifactMapper::detect_existing` give the same list.
pub proof fn lemma_detection_is_the_mapping_of_ids(meta: &Metadata, content: Seq<char>, ids: Seq<String>)
    requires
        string_views(ids) == spec_build_artifact_ids(content),
    ensures
        spec_found_keys(spec_build_artifact_ids(content), dep_keys(meta)) == spec_found_keys(
            string_views(ids),
            dep_keys(meta),
        ),
{
}

/// The Spring Boot version a build file uses, if it names one.
pub fn extract_boot_version(content: &str) -> (r: Option<String>)
    ensures
        match r {
            Some(v) => spec_build_boot_version(content@) == Some(v@),
            None => spec_build_boot_version(content@) is None,
        },
{
    build_boot_version(&to_chars(content))
}

/// The address of the build snippet Spring Initializr generates for some
/// dependencies: a POM or a Gradle script.
pub open spec fn spec_snippet_url(deps: Seq<Seq<char>>, boot_version: Seq<char>, is_maven: bool) -> Seq<char> {
    (if is_maven {
        "https://start.spring.io/pom.xml?dependencies="@
    } else {
        "https://start.spring.io/build.gradle?dependencies="@
    }) + joined(deps, ","@) + "&bootVersion="@ + boot_version
}

pub fn snippet_url(deps: &[String], boot_version: &str, is_maven: bool) -> (r: String)
    ensures
        r@ == spec_snippet_url(string_views(deps@), boot_version@, is_maven),
{
    let mut out = if is_maven {
        to_chars("https://start.spring.io/pom.xml?dependencies=")
    } else {
        to_chars("https://start.spring.io/build.gradle?dependencies=")
    };
    extend(&mut out, &to_chars(join(deps, ",").as_str()));
    extend(&mut out, &to_chars("&bootVersion="));
    extend(&mut out, &to_chars(boot_version));
    from_chars(&out)
}

/// A build file after a change of its dependencies.
pub struct BuildEdit {
    pub content: String,
    pub changed: bool,
    pub notes: Vec<ChangeNote>,
}

pub open spec fn opt_view(o: Option<&str>) -> Option<Seq<char>> {
    match o {
        Some(s) => Some(s@),
        None => None,
    }
}

/// The removal step of a change: none when nothing is removed.
pub open spec fn removal_step(
    content: Seq<char>,
    to_remove: Seq<Seq<char>>,
    keys: Seq<Seq<char>>,
    is_maven: bool,
    snippet: Option<Seq<char>>,
) -> (Seq<char>, bool) {
    if to_remove.len() > 0 {
        spec_apply_removal(content, to_remove, keys, is_maven, snippet)
    } else {
        (content, false)
    }
}

/// The addition step of a change: none when nothing is added.
pub open spec fn addition_step(
    content: Seq<char>,
    to_add: Seq<Seq<char>>,
    is_maven: bool,
    snippet: Option<Seq<char>>,
) -> (Seq<char>, bool, Seq<(NoteKind, Seq<char>)>) {
    if to_add.len() > 0 {
        spec_apply_addition(content, to_add, is_maven, snippet)
    } else {
        (content, false, Seq::empty())
    }
}

/// Removes the dependencies `to_remove`, then adds `to_add`, to the text of
/// a build file, given the snippets Spring Initializr generated for each
/// (`None` where it could not be fetched).
pub fn edit_build_file(
    original_content: &str,
    to_add: &[String],
    to_remove: &[String],
    is_maven: bool,
    meta: &Metadata,
    removal_snippet: Option<&str>,
    addition_snippet: Option<&str>,
) -> (r: BuildEdit)
    requires
        match addition_snippet {
            Some(t) => is_maven && to_add@.len() > 0 ==> addition_defined(t@),
            None => true,
        },
    ensures
        ({
            let removed = removal_step(
                original_content@,
                string_views(to_remove@),
                dep_keys(meta),
                is_maven,
                opt_view(removal_snippet),
            );
            let added = addition_step(
                removed.0,
                string_views(to_add@),
                is_maven,
                opt_view(addition_snippet),
            );
            &&& r.content@ == added.0
            &&& r.changed == (removed.1 || added.1)
            &&& note_views(r.notes@) == added.2
        }),
{
    let content = to_chars(original_content);
    let (after_removal, removed) = if to_remove.len() > 0 {
        let keys = dep_key_chars(meta);
        let removing = chars_of_strings(to_remove);
        let snippet = match removal_snippet {
            Some(t) => Some(to_chars(t)),
            None => None,
        };
        let sref = match &snippet {
            Some(t) => Some(t),
            None => None,
        };
        apply_removal(&content, &removing, &keys, is_maven, sref)
    } else {
        (content, false)
    };
    if to_add.len() > 0 {
        let adding = chars_of_strings(to_add);
        let snippet = match addition_snippet {
            Some(t) => Some(to_chars(t)),
            None => None,
        };
        let sref = match &snippet {
            Some(t) => Some(t),
            None => None,
        };
        let (c, added, notes) = apply_addition(&after_removal, &adding, is_maven, sref);
        BuildEdit { content: from_chars(&c), changed: removed || added, notes }
    } else {
        let notes: Vec<ChangeNote> = Vec::new();
        assert(note_views(notes@) =~= Seq::<(NoteKind, Seq<char>)>::empty());
        BuildEdit { content: from_chars(&after_removal), changed: removed, notes }
    }
}

/// The first of `keys` that contains `d`.
pub open spec fn first_containing(keys: Seq<Seq<char>>, d: Seq<char>) -> Option<Seq<char>>
    decreases keys.len(),
{
    if keys.len() == 0 {
        None
    } else if spec_contains(keys[0], d) {
        Some(keys[0])
    } else {
        first_containing(keys.drop_first(), d)
    }
}

/// The dependency key a user's word stands for: itself when it is a key,
/// else the first key that contains it.
pub open spec fn spec_resolve_key(d: Seq<char>, keys: Seq<Seq<char>>) -> Option<Seq<char>> {
    if keys.contains(d) {
        Some(d)
    } else {
        first_containing(keys, d)
    }
}

proof fn lemma_first_containing(keys: Seq<Seq<char>>, d: Seq<char>)
    ensures
        first_containing(keys, d) matches Some(k) ==> exists|i: int|
            0 <= i < keys.len() && keys[i] == k && spec_contains(k, d) && forall|j: int|
                0 <= j < i ==> !spec_contains(#[trigger] keys[j], d),
        first_containing(keys, d) is None ==> forall|j: int| 0 <= j < keys.len() ==> !spec_contains(#[trigger] keys[j], d),
    decreases keys.len(),
{
    if keys.len() > 0 {
        let rest = keys.drop_first();
        lemma_first_containing(rest, d);
        if !spec_contains(keys[0], d) {
            if let Some(k) = first_containing(rest, d) {
                let i = choose|i: int|
                    0 <= i < rest.len() && rest[i] == k && spec_contains(k, d) && forall|j: int|
                        0 <= j < i ==> !spec_contains(#[trigger] rest[j], d);
                assert(keys[i + 1] == k);
                assert forall|j: int| 0 <= j < i + 1 implies !spec_contains(#[trigger] keys[j], d) by {
                    if j > 0 {
                        assert(keys[j] == rest[j - 1]);
                    }
                }
            } else {
                assert forall|j: int| 0 <= j < keys.len() implies !spec_contains(#[trigger] keys[j], d) by {
                    if j > 0 {
                        assert(keys[j] == rest[j - 1]);
                    }
                }
            }
        }
    }
}

/// What a word given on the command line resolves to. A word that is itself
/// a key resolves to that key, whatever the keys before it contain. Any
/// other word resolves to the first key that contains it, and to nothing
/// exactly when no key contains it. So a word always resolves to a key, and
/// to one that contains the word.
pub proof fn lemma_resolved_key_is_the_word_or_the_first_holding_it(d: Seq<char>, keys: Seq<Seq<char>>)
    ensures
        keys.contains(d) ==> spec_resolve_key(d, keys) == Some(d),
        spec_resolve_key(d, keys) matches Some(k) ==> keys.contains(k) && spec_contains(k, d),
        !keys.contains(d) ==> (spec_resolve_key(d, keys) matches Some(k) ==> exists|i: int|
            0 <= i < keys.len() && keys[i] == k && forall|j: int| 0 <= j < i ==> !spec_contains(#[trigger] keys[j], d)),
        spec_resolve_key(d, keys) is None <==> forall|j: int| 0 <= j < keys.len() ==> !spec_contains(#[trigger] keys[j], d),
{
    lemma_first_containing(keys, d);
    if keys.contains(d) {
        let i = choose|i: int| 0 <= i < keys.len() && keys[i] == d;
        crate::edit_laws::lemma_contains_self(d);
        assert(spec_contains(keys[i], d));
    } else if let Some(k) = first_containing(keys, d) {
        let i = choose|i: int|
            0 <= i < keys.len() && keys[i] == k && spec_contains(k, d) && forall|j: int|
                0 <= j < i ==> !spec_contains(#[trigger] keys[j], d);
        assert(keys.contains(k));
    }
}

/// The dependency key `d` stands for, if any.
pub fn resolve_key(d: &str, meta: &Metadata) -> (r: Option<String>)
    ensures
        match r {
            Some(k) => spec_resolve_key(d@, dep_keys(meta)) == Some(k@),
            None => spec_resolve_key(d@, dep_keys(meta)) is None,
        },
{
    let keys = dep_key_chars(meta);
    let dc = to_chars(d);
    if list_contains(&keys, &dc) {
        return Some(String::from_str(d));
    }
    let ghost ks = views(keys@);
    let mut i: usize = 0;
    assert(ks.skip(0) == ks);
    while i < keys.len()
        invariant
            i <= keys.len(),
            ks == views(keys@),
            ks == dep_keys(meta),
            !ks.contains(dc@),
            dc@ == d@,
            first_containing(ks, dc@) == first_containing(ks.skip(i as int), dc@),
        decreases keys.len() - i,
    {
        assert(ks.skip(i as int)[0] == keys@[i as int]@);
        assert(ks.skip(i as int).drop_first() == ks.skip(i + 1));
        if contains_text(&keys[i], &dc) {
            return Some(from_chars(&keys[i]));
        }
        i = i + 1;
    }
    None
}

/// The first of `input` that stands for no key.
pub open spec fn first_unresolved(input: Seq<Seq<char>>, keys: Seq<Seq<char>>) -> Option<Seq<char>>
    decreases input.len(),
{
    if input.len() == 0 {
        None
    } else if spec_resolve_key(input[0], keys) is None {
        Some(input[0])
    } else {
        first_unresolved(input.drop_first(), keys)
    }
}

/// `x` is the key one of `input` stands for.
pub open spec fn is_resolved_key(input: Seq<Seq<char>>, keys: Seq<Seq<char>>, x: Seq<char>) -> bool {
    exists|i: int| 0 <= i < input.len() && spec_resolve_key(#[trigger] input[i], keys) == Some(x)
}

/// The keys the words `input` stand for, sorted and each once; or, when a
/// word stands for none, the error naming the first such word.
pub fn resolve_cli_deps(input: &[String], meta: &Metadata) -> (r: Result<Vec<String>, String>)
    ensures
        match r {
            Ok(keys) => first_unresolved(string_views(input@), dep_keys(meta)) is None
                && strictly_sorted(string_views(keys@)) && forall|x: Seq<char>| #[trigger]
                string_views(keys@).contains(x) <==> is_resolved_key(
                string_views(input@),
                dep_keys(meta),
                x,
            ),
            Err(msg) => match first_unresolved(string_views(input@), dep_keys(meta)) {
                Some(d) => msg@ == "Unknown dependency ID: "@ + d,
                None => false,
            },
        },
{
    let ghost is = string_views(input@);
    let ghost ks = dep_keys(meta);
    let mut out: Vec<Vec<char>> = Vec::new();
    let mut i: usize = 0;
    proof {
        lemma_views_empty();
        assert(is.skip(0) == is);
    }
    while i < input.len()
        invariant
            i <= input.len(),
            is == string_views(input@),
            ks == dep_keys(meta),
            first_unresolved(is, ks) == first_unresolved(is.skip(i as int), ks),
            strictly_sorted(views(out@)),
            forall|x: Seq<char>| #[trigger] views(out@).contains(x) <==> is_resolved_key(
                is.take(i as int),
                ks,
                x,
            ),
        decreases input.len() - i,
    {
        assert(is.skip(i as int)[0] == input@[i as int]@);
        assert(is.skip(i as int).drop_first() == is.skip(i + 1));
        match resolve_key(input[i].as_str(), meta) {
            None => {
                let mut msg = to_chars("Unknown dependency ID: ");
                extend(&mut msg, &to_chars(input[i].as_str()));
                return Err(from_chars(&msg));
            },
            Some(k) => {
                let ghost kv = k@;
                insert_sorted(&mut out, to_chars(k.as_str()));
                assert forall|x: Seq<char>| #[trigger] views(out@).contains(x) <==> is_resolved_key(
                    is.take(i + 1),
                    ks,
                    x,
                ) by {
                    if is_resolved_key(is.take(i + 1), ks, x) {
                        let j = choose|j: int|
                            0 <= j < is.take(i + 1).len() && spec_resolve_key(
                                #[trigger] is.take(i + 1)[j],
                                ks,
                            ) == Some(x);
                        if j < i {
                            assert(is.take(i as int)[j] == is.take(i + 1)[j]);
                        }
                    }
                    if is_resolved_key(is.take(i as int), ks, x) {
                        let j = choose|j: int|
                            0 <= j < is.take(i as int).len() && spec_resolve_key(
                                #[trigger] is.take(i as int)[j],
                                ks,
                            ) == Some(x);
                        assert(is.take(i + 1)[j] == is.take(i as int)[j]);
                    }
                    if x == kv {
                        assert(is.take(i + 1)[i as int] == is[i as int]);
                    }
                }
            },
        }
        i = i + 1;
    }
    assert(is.take(input.len() as int) == is);
    assert(is.skip(input.len() as int) =~= Seq::<Seq<char>>::empty());
    Ok(strings_of(&out))
}

/// The members of `list`, in order, that are (`keep_present`) or are not
/// among `other`.
pub open spec fn filter_by_presence(list: Seq<Seq<char>>, other: Seq<Seq<char>>, keep_present: bool) -> Seq<Seq<char>>
    decreases list.len(),
{
    if list.len() == 0 {
        Seq::empty()
    } else {
        let prev = filter_by_presence(list.drop_last(), other, keep_present);
        if other.contains(list.last()) == keep_present {
            prev.push(list.last())
        } else {
            prev
        }
    }
}

pub fn keep_by_presence(list: &[String], other: &[String], keep_present: bool) -> (r: Vec<String>)
    ensures
        string_views(r@) == filter_by_presence(string_views(list@), string_views(other@), keep_present),
{
    let ghost ls = string_views(list@);
    let others = chars_of_strings(other);
    let mut out: Vec<String> = Vec::new();
    let mut i: usize = 0;
    assert(ls.take(0) =~= Seq::<Seq<char>>::empty());
    assert(string_views(out@) =~= Seq::<Seq<char>>::empty());
    while i < list.len()
        invariant
            i <= list.len(),
            ls == string_views(list@),
            views(others@) == string_views(other@),
            string_views(out@) == filter_by_presence(ls.take(i as int), string_views(other@), keep_present),
        decreases list.len() - i,
    {
        assert(ls.take(i + 1).drop_last() == ls.take(i as int));
        assert(ls.take(i + 1).last() == list@[i as int]@);
        if list_contains(&others, &to_chars(list[i].as_str())) == keep_present {
            let x = list[i].clone();
            assert(string_views(out@.push(x)) =~= string_views(out@).push(x@));
            out.push(x);
        }
        i = i + 1;
    }
    assert(ls.take(list.len() as int) == ls);
    out
}

/// Of the requested keys, those not installed yet.
pub fn deps_to_add(requested: &[String], existing: &[String]) -> (r: Vec<String>)
    ensures
        string_views(r@) == filter_by_presence(string_views(requested@), string_views(existing@), false),
{
    keep_by_presence(requested, existing, false)
}

/// Of the requested keys, those installed.
pub fn deps_to_remove(requested: &[String], existing: &[String]) -> (r: Vec<String>)
    ensures
        string_views(r@) == filter_by_presence(string_views(requested@), string_views(existing@), true),
{
    keep_by_presence(requested, existing, true)
}

/// Why a change of dependencies ends with nothing to do.
#[derive(PartialEq, Eq, Structural, Clone, Copy, Debug)]
pub enum NoChange {
    /// Removing by picker, but no installed dependency is recognized.
    NothingToRemove,
    /// The picker closed with nothing picked for removal.
    NoneSelectedToRemove,
    /// The picker closed with nothing picked to add.
    NoneSelectedToAdd,
    /// Every named dependency is installed already.
    AllInstalled,
    /// None of the named dependencies is installed.
    NoneInstalled,
}

/// What a change of dependencies does to the build file.
pub enum DepsPlan {
    Add(Vec<String>),
    Remove(Vec<String>),
    Nothing(NoChange),
}

/// The keys `keys` added or removed, or the reason `why` where there are
/// none.
pub open spec fn planned(is_add: bool, keys: Seq<Seq<char>>, why: NoChange, plan: DepsPlan) -> bool {
    if keys.len() == 0 {
        plan == DepsPlan::Nothing(why)
    } else if is_add {
        plan matches DepsPlan::Add(k) && string_views(k@) == keys
    } else {
        plan matches DepsPlan::Remove(k) && string_views(k@) == keys
    }
}

fn plan_of(is_add: bool, keys: Vec<String>, why: NoChange) -> (r: DepsPlan)
    ensures
        planned(is_add, string_views(keys@), why, r),
{
    if keys.len() == 0 {
        DepsPlan::Nothing(why)
    } else if is_add {
        DepsPlan::Add(keys)
    } else {
        DepsPlan::Remove(keys)
    }
}

/// Whether removing by picker ends before the picker: it does when no
/// installed dependency is recognized. Adding always shows the picker.
pub fn plan_before_picking(is_add: bool, existing: &[String]) -> (r: Option<NoChange>)
    ensures
        r == (if !is_add && existing@.len() == 0 {
            Some(NoChange::NothingToRemove)
        } else {
            None
        }),
{
    if !is_add && existing.len() == 0 {
        Some(NoChange::NothingToRemove)
    } else {
        None
    }
}

/// The change the picked keys make: they are added or removed, or nothing
/// is done when none was picked.
pub fn plan_picked(is_add: bool, picked: Vec<String>) -> (r: DepsPlan)
    ensures
        planned(
            is_add,
            string_views(picked@),
            if is_add {
                NoChange::NoneSelectedToAdd
            } else {
                NoChange::NoneSelectedToRemove
            },
            r,
        ),
{
    let why = if is_add {
        NoChange::NoneSelectedToAdd
    } else {
        NoChange::NoneSelectedToRemove
    };
    plan_of(is_add, picked, why)
}

/// The change the named dependencies make: the requested keys not yet
/// installed are added, or the installed ones are removed; nothing is done
/// when that leaves none.
pub fn plan_named(is_add: bool, requested: &[String], existing: &[String]) -> (r: DepsPlan)
    ensures
        planned(
            is_add,
            filter_by_presence(string_views(requested@), string_views(existing@), !is_add),
            if is_add {
                NoChange::AllInstalled
            } else {
                NoChange::NoneInstalled
            },
            r,
        ),
{
    if is_add {
        plan_of(true, deps_to_add(requested, existing), NoChange::AllInstalled)
    } else {
        plan_of(false, deps_to_remove(requested, existing), NoChange::NoneInstalled)
    }
}

/// The dependency options the removal menu offers for the installed keys:
/// each with its name where the metadata knows the key, else the key.
pub open spec fn installed_options(existing: Seq<Seq<char>>, all: Seq<DepSpec>) -> Seq<DepSpec> {
    existing.map_values(|k: Seq<char>| DepSpec {
        key: k,
        text: match first_with_key(all, k) {
            Some(d) => d.text,
            None => k,
        },
        description: "Select to REMOVE this dependency"@,
        group: "Installed"@,
        version_range: None,
    })
}

/// The metadata of the removal menu: one group of the installed
/// dependencies, no other choices, the same defaults.
pub open spec fn spec_removal_metadata(meta: MetadataSpec, existing: Seq<Seq<char>>) -> MetadataSpec {
    let deps = installed_options(existing, meta.all_deps);
    MetadataSpec {
        projects: Seq::empty(),
        languages: Seq::empty(),
        boot_versions: Seq::empty(),
        packagings: Seq::empty(),
        java_versions: Seq::empty(),
        config_formats: Seq::empty(),
        dependency_groups: seq![("Installed Dependencies"@, deps)],
        all_deps: deps,
        defaults: meta.defaults,
    }
}

fn clone_defaults(d: &Defaults) -> (r: Defaults)
    ensures
        defaults_view(r) == defaults_view(*d),
{
    Defaults {
        project: d.project.clone(),
        language: d.language.clone(),
        boot: d.boot.clone(),
        name: d.name.clone(),
        group: d.group.clone(),
        artifact: d.artifact.clone(),
        package_name: d.package_name.clone(),
        packaging: d.packaging.clone(),
        java: d.java.clone(),
        config_format: d.config_format.clone(),
    }
}

fn installed_deps(meta: &Metadata, existing: &[String]) -> (r: Vec<DepOption>)
    ensures
        dep_views(r@) == installed_options(string_views(existing@), dep_views(meta.all_deps@)),
{
    let ghost all = dep_views(meta.all_deps@);
    let mut out: Vec<DepOption> = Vec::new();
    let mut i: usize = 0;
    while i < existing.len()
        invariant
            i <= existing.len(),
            all == dep_views(meta.all_deps@),
            out@.len() == i,
            forall|k: int| 0 <= k < i ==> #[trigger] out@[k]@ == installed_options(string_views(existing@), all)[k],
        decreases existing.len() - i,
    {
        let key = &existing[i];
        let mut text = key.clone();
        let mut j: usize = 0;
        let mut found = false;
        assert(all.skip(0) == all);
        while j < meta.all_deps.len()
            invariant
                j <= meta.all_deps.len(),
                all == dep_views(meta.all_deps@),
                !found ==> first_with_key(all, key@) == first_with_key(all.skip(j as int), key@),
                !found ==> text@ == key@,
                found ==> (first_with_key(all, key@) matches Some(d) && d.text == text@),
            decreases meta.all_deps.len() - j,
        {
            if !found {
                assert(all.skip(j as int)[0] == meta.all_deps@[j as int]@);
                assert(all.skip(j as int).drop_first() == all.skip(j + 1));
                if meta.all_deps[j].key == *key {
                    text = meta.all_deps[j].text.clone();
                    found = true;
                }
            }
            j = j + 1;
        }
        let d = DepOption {
            key: key.clone(),
            text,
            description: "Select to REMOVE this dependency".to_owned(),
            group: "Installed".to_owned(),
            version_range: None,
        };
        out.push(d);
        i = i + 1;
    }
    assert(dep_views(out@) =~= installed_options(string_views(existing@), all));
    out
}

/// The metadata the removal menu shows: the installed dependencies only.
pub fn removal_metadata(meta: &Metadata, existing: &[String]) -> (r: Metadata)
    ensures
        r@ == spec_removal_metadata(meta@, string_views(existing@)),
{
    let deps = installed_deps(meta, existing);
    let mut group_deps: Vec<DepOption> = Vec::new();
    let mut i: usize = 0;
    while i < deps.len()
        invariant
            i <= deps.len(),
            group_deps@.len() == i,
            forall|k: int| 0 <= k < i ==> #[trigger] group_deps@[k]@ == deps@[k]@,
        decreases deps.len() - i,
    {
        group_deps.push(deps[i].clone_dep());
        i = i + 1;
    }
    assert(dep_views(group_deps@) =~= dep_views(deps@));
    let r = Metadata {
        projects: Vec::new(),
        languages: Vec::new(),
        boot_versions: Vec::new(),
        packagings: Vec::new(),
        java_versions: Vec::new(),
        config_formats: Vec::new(),
        dependency_groups: vec![DepGroup { name: "Installed Dependencies".to_owned(), deps: group_deps }],
        all_deps: deps,
        defaults: clone_defaults(&meta.defaults),
    };
    let ghost sp = spec_removal_metadata(meta@, string_views(existing@));
    assert(r@.projects =~= sp.projects);
    assert(r@.languages =~= sp.languages);
    assert(r@.boot_versions =~= sp.boot_versions);
    assert(r@.packagings =~= sp.packagings);
    assert(r@.java_versions =~= sp.java_versions);
    assert(r@.config_formats =~= sp.config_formats);
    assert(r@.dependency_groups =~= sp.dependency_groups);
    r
}

/// Requested keys split by presence: those kept as present are exactly the
/// requested ones already there, the others exactly the requested ones not
/// there; so nothing installed is added again and nothing missing is removed.
pub proof fn lemma_presence_split(list: Seq<Seq<char>>, other: Seq<Seq<char>>)
    ensures
        forall|x: Seq<char>| #[trigger] filter_by_presence(list, other, true).contains(x) <==> (list.contains(x) && other.contains(x)),
        forall|x: Seq<char>| #[trigger] filter_by_presence(list, other, false).contains(x) <==> (list.contains(x) && !other.contains(x)),
    decreases list.len(),
{
    if list.len() > 0 {
        let init = list.drop_last();
        lemma_presence_split(init, other);
        assert forall|x: Seq<char>| list.contains(x) <==> (init.contains(x) || x == list.last()) by {
            if list.contains(x) {
                let i = choose|i: int| 0 <= i < list.len() && list[i] == x;
                if i < list.len() - 1 {
                    assert(init[i] == x);
                }
            }
            if init.contains(x) {
                let i = choose|i: int| 0 <= i < init.len() && init[i] == x;
                assert(list[i] == x);
            }
            if x == list.last() {
                assert(list[list.len() - 1] == x);
            }
        }
        assert forall|b: bool, x: Seq<char>| #[trigger] filter_by_presence(list, other, b).contains(x) <==> (
        filter_by_presence(init, other, b).contains(x) || (x == list.last() && other.contains(x) == b)) by {
            let prev = filter_by_presence(init, other, b);
            if other.contains(list.last()) == b {
                assert(filter_by_presence(list, other, b) == prev.push(list.last()));
                if prev.push(list.last()).contains(x) {
                    let i = choose|i: int| 0 <= i < prev.push(list.last()).len() && prev.push(list.last())[i] == x;
                    if i < prev.len() {
                        assert(prev[i] == x);
                    }
                }
                if prev.contains(x) {
                    let i = choose|i: int| 0 <= i < prev.len() && prev[i] == x;
                    assert(prev.push(list.last())[i] == x);
                }
                if x == list.last() {
                    assert(prev.push(list.last())[prev.len() as int] == x);
                }
            }
        }
    }
}

} // verus!
