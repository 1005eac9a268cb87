//! The Spring Initializr metadata: the raw shape the service sends, the view
//! model the commands work on, and the mapping between them.
use vstd::prelude::*;
use crate::text::{spec_trim, lemma_trim_idempotent, lemma_trim_of_trimmed, joined, string_views, to_chars, from_chars, extend, trim_str, is_text, join};

verus! {

// ── Raw API types ──

pub struct RawMetadata {
    pub project_type: Option<TypeBlock>,
    pub language: Option<SimpleBlock>,
    pub boot_version: Option<SimpleBlock>,
    pub packaging: Option<SimpleBlock>,
    pub java_version: Option<SimpleBlock>,
    pub configuration_file_format: Option<SimpleBlock>,
    pub group_id: Option<DefaultOnly>,
    pub artifact_id: Option<DefaultOnly>,
    pub name: Option<DefaultOnly>,
    pub package_name: Option<DefaultOnly>,
    pub dependencies: Option<DependenciesBlock>,
}

pub struct TypeBlock {
    pub default: Option<String>,
    pub values: Option<Vec<TypeValue>>,
}

pub struct TypeValue {
    pub id: String,
    pub name: String,
    pub action: Option<String>,
}

pub struct SimpleBlock {
    pub default: Option<String>,
    pub values: Option<Vec<SimpleValue>>,
}

pub struct SimpleValue {
    pub id: String,
    pub name: String,
}

pub struct DefaultOnly {
    pub default: Option<String>,
}

pub struct DependenciesBlock {
    pub values: Option<Vec<DependencyGroup>>,
}

pub struct DependencyGroup {
    pub name: Option<String>,
    pub values: Option<Vec<DependencyValue>>,
}

pub struct DependencyValue {
    pub id: Option<String>,
    pub name: Option<String>,
    pub description: Option<String>,
    pub version_range: Option<String>,
}

// ── View model ──

/// One choice of a single-choice option (project type, language, ...).
#[derive(Clone, Debug)]
pub struct Option_ {
    pub key: String,
    pub text: String,
}

/// One dependency the service offers.
#[derive(Clone, Debug)]
pub struct DepOption {
    pub key: String,
    pub text: String,
    pub description: String,
    pub group: String,
    pub version_range: Option<String>,
}

#[derive(Clone, Debug)]
pub struct DepGroup {
    pub name: String,
    pub deps: Vec<DepOption>,
}

#[derive(Clone, Debug)]
pub struct Defaults {
    pub project: String,
    pub language: String,
    pub boot: String,
    pub name: String,
    pub group: String,
    pub artifact: String,
    pub package_name: String,
    pub packaging: String,
    pub java: String,
    pub config_format: String,
}

#[derive(Clone, Debug)]
pub struct Metadata {
    pub projects: Vec<Option_>,
    pub languages: Vec<Option_>,
    pub boot_versions: Vec<Option_>,
    pub packagings: Vec<Option_>,
    pub java_versions: Vec<Option_>,
    pub config_formats: Vec<Option_>,
    pub dependency_groups: Vec<DepGroup>,
    pub all_deps: Vec<DepOption>,
    pub defaults: Defaults,
}

/// Arguments of the `list` command (it takes none).
pub struct ListArgs {}

/// The keys of all dependencies, in order.
pub open spec fn dep_keys(meta: &Metadata) -> Seq<Seq<char>> {
    meta.all_deps@.map_values(|d: DepOption| d.key@)
}

// ── Views ──

/// What a dependency option says.
pub struct DepSpec {
    pub key: Seq<char>,
    pub text: Seq<char>,
    pub description: Seq<char>,
    pub group: Seq<char>,
    pub version_range: Option<Seq<char>>,
}

pub open spec fn opt_string_view(o: Option<String>) -> Option<Seq<char>> {
    match o {
        Some(s) => Some(s@),
        None => None,
    }
}

impl View for DepOption {
    type V = DepSpec;

    open spec fn view(&self) -> DepSpec {
        DepSpec {
            key: self.key@,
            text: self.text@,
            description: self.description@,
            group: self.group@,
            version_range: opt_string_view(self.version_range),
        }
    }
}

impl View for Option_ {
    type V = (Seq<char>, Seq<char>);

    open spec fn view(&self) -> (Seq<char>, Seq<char>) {
        (self.key@, self.text@)
    }
}

pub open spec fn option_views(v: Seq<Option_>) -> Seq<(Seq<char>, Seq<char>)> {
    v.map_values(|o: Option_| o@)
}

pub open spec fn dep_views(v: Seq<DepOption>) -> Seq<DepSpec> {
    v.map_values(|d: DepOption| d@)
}

pub open spec fn group_views(v: Seq<DepGroup>) -> Seq<(Seq<char>, Seq<DepSpec>)> {
    v.map_values(|g: DepGroup| (g.name@, dep_views(g.deps@)))
}

/// All the dependencies of the groups, in order.
pub open spec fn flatten_groups(groups: Seq<(Seq<char>, Seq<DepSpec>)>) -> Seq<DepSpec>
    decreases groups.len(),
{
    if groups.len() == 0 {
        Seq::empty()
    } else {
        flatten_groups(groups.drop_last()) + groups.last().1
    }
}

/// The ten defaults, in the order of `Defaults`' fields.
pub open spec fn defaults_view(d: Defaults) -> Seq<Seq<char>> {
    seq![
        d.project@,
        d.language@,
        d.boot@,
        d.name@,
        d.group@,
        d.artifact@,
        d.package_name@,
        d.packaging@,
        d.java@,
        d.config_format@,
    ]
}

/// What a `Metadata` says.
pub struct MetadataSpec {
    pub projects: Seq<(Seq<char>, Seq<char>)>,
    pub languages: Seq<(Seq<char>, Seq<char>)>,
    pub boot_versions: Seq<(Seq<char>, Seq<char>)>,
    pub packagings: Seq<(Seq<char>, Seq<char>)>,
    pub java_versions: Seq<(Seq<char>, Seq<char>)>,
    pub config_formats: Seq<(Seq<char>, Seq<char>)>,
    pub dependency_groups: Seq<(Seq<char>, Seq<DepSpec>)>,
    pub all_deps: Seq<DepSpec>,
    pub defaults: Seq<Seq<char>>,
}

impl View for Metadata {
    type V = MetadataSpec;

    open spec fn view(&self) -> MetadataSpec {
        MetadataSpec {
            projects: option_views(self.projects@),
            languages: option_views(self.languages@),
            boot_versions: option_views(self.boot_versions@),
            packagings: option_views(self.packagings@),
            java_versions: option_views(self.java_versions@),
            config_formats: option_views(self.config_formats@),
            dependency_groups: group_views(self.dependency_groups@),
            all_deps: dep_views(self.all_deps@),
            defaults: defaults_view(self.defaults),
        }
    }
}

// ── Readable names ──

/// What `char::to_uppercase` yields for `c`, collected into characters.
pub uninterp spec fn char_uppercase(c: char) -> Seq<char>;

/// `char::to_uppercase`, collected into a `String`: the result is
/// `char_uppercase(c)`, whatever the Unicode tables of the standard library say.
#[verifier::external_body]
fn uppercase_of(c: char) -> (r: String)
    ensures
        r@ == char_uppercase(c),
{
    c.to_uppercase().collect()
}

/// The characters that separate the words of a dependency id.
pub open spec fn is_id_sep(c: char) -> bool {
    c == '-' || c == '_' || c == '.'
}

/// The non-empty words of `s`, the word `cur` being already under way.
pub open spec fn words_from(s: Seq<char>, cur: Seq<char>) -> Seq<Seq<char>>
    decreases s.len(),
{
    if s.len() == 0 {
        if cur.len() > 0 { seq![cur] } else { Seq::empty() }
    } else if is_id_sep(s[0]) {
        (if cur.len() > 0 { seq![cur] } else { Seq::empty() }) + words_from(s.drop_first(), Seq::empty())
    } else {
        words_from(s.drop_first(), cur.push(s[0]))
    }
}

/// The non-empty pieces of `s` between `-`, `_` and `.`, in order.
pub open spec fn id_words(s: Seq<char>) -> Seq<Seq<char>> {
    words_from(s, Seq::empty())
}

/// A word with its first character in upper case.
pub open spec fn capitalized(w: Seq<char>) -> Seq<char> {
    if w.len() == 0 { w } else { char_uppercase(w[0]) + w.drop_first() }
}

/// The name shown for a dependency: its trimmed name where that is not
/// empty, else the words of its id, capitalized and joined by spaces.
pub open spec fn spec_readable_name(name: Option<Seq<char>>, id: Seq<char>) -> Seq<char> {
    match name {
        Some(n) if spec_trim(n).len() > 0 => spec_trim(n),
        _ => joined(id_words(id).map_values(|w: Seq<char>| capitalized(w)), " "@),
    }
}

fn words_of(id: &str) -> (r: Vec<String>)
    ensures
        string_views(r@) == id_words(id@),
{
    let s = to_chars(id);
    let mut out: Vec<String> = Vec::new();
    let mut cur: Vec<char> = Vec::new();
    let mut i: usize = 0;
    assert(s@.skip(0) == s@);
    assert(string_views(out@) + id_words(id@) == id_words(id@));
    while i < s.len()
        invariant
            i <= s.len(),
            s@ == id@,
            id_words(id@) == string_views(out@) + words_from(s@.skip(i as int), cur@),
        decreases s.len() - i,
    {
        let ghost t = s@.skip(i as int);
        assert(t.drop_first() == s@.skip(i + 1));
        assert(t[0] == s@[i as int]);
        let c = s[i];
        if c == '-' || c == '_' || c == '.' {
            if cur.len() > 0 {
                let w = from_chars(&cur);
                assert(string_views(out@.push(w)) == string_views(out@).push(w@));
                out.push(w);
            } else {
                assert(string_views(out@) + Seq::<Seq<char>>::empty() == string_views(out@));
            }
            cur = Vec::new();
        } else {
            cur.push(c);
        }
        i = i + 1;
    }
    if cur.len() > 0 {
        let w = from_chars(&cur);
        assert(string_views(out@.push(w)) == string_views(out@).push(w@));
        out.push(w);
    }
    assert(string_views(out@) + Seq::<Seq<char>>::empty() == string_views(out@));
    out
}

fn capitalize(w: &String) -> (r: String)
    ensures
        r@ == capitalized(w@),
{
    let cs = to_chars(w.as_str());
    if cs.len() == 0 {
        return from_chars(&cs);
    }
    let mut out = to_chars(uppercase_of(cs[0]).as_str());
    let mut i: usize = 1;
    let ghost head = out@;
    while i < cs.len()
        invariant
            1 <= i <= cs.len(),
            cs@ == w@,
            out@ == head + cs@.subrange(1, i as int),
        decreases cs.len() - i,
    {
        out.push(cs[i]);
        assert(cs@.subrange(1, i + 1) == cs@.subrange(1, i as int).push(cs@[i as int]));
        i = i + 1;
    }
    assert(cs@.subrange(1, cs.len() as int) == cs@.drop_first());
    from_chars(&out)
}

/// The name shown for a dependency (see `spec_readable_name`).
pub fn readable_name(name: Option<&str>, id: &str) -> (r: String)
    ensures
        r@ == spec_readable_name(match name { Some(n) => Some(n@), None => None }, id@),
{
    if let Some(n) = name {
        let trimmed = trim_str(n);
        if !trimmed.as_str().is_empty() {
            return trimmed;
        }
    }
    let words = words_of(id);
    let mut caps: Vec<String> = Vec::new();
    let mut i: usize = 0;
    while i < words.len()
        invariant
            i <= words.len(),
            caps@.len() == i,
            forall|k: int| 0 <= k < i ==> #[trigger] caps@[k]@ == capitalized(words@[k]@),
        decreases words.len() - i,
    {
        caps.push(capitalize(&words[i]));
        i = i + 1;
    }
    let ghost ws = id_words(id@);
    assert(string_views(caps@) =~= ws.map_values(|w: Seq<char>| capitalized(w)));
    let parts = caps.as_slice();
    join(parts, " ")
}

impl Option_ {
    /// The text shown for the choice.
    pub fn label(&self) -> (r: String)
        ensures
            r@ == self.text@,
    {
        self.text.clone()
    }
}

/// The text shown for a dependency: its name, then ` — ` and its
/// description where it has one.
pub open spec fn spec_dep_label(d: DepSpec) -> Seq<char> {
    if d.description.len() == 0 {
        d.text
    } else {
        d.text + " — "@ + d.description
    }
}

impl DepOption {
    /// The text shown for the dependency (see `spec_dep_label`).
    pub fn label(&self) -> (r: String)
        ensures
            r@ == spec_dep_label(self@),
    {
        if self.description.as_str().is_empty() {
            return self.text.clone();
        }
        let mut out = to_chars(self.text.as_str());
        extend(&mut out, &to_chars(" — "));
        extend(&mut out, &to_chars(self.description.as_str()));
        from_chars(&out)
    }

    /// A copy with the same view.
    pub fn clone_dep(&self) -> (r: DepOption)
        ensures
            r@ == self@,
    {
        DepOption {
            key: self.key.clone(),
            text: self.text.clone(),
            description: self.description.clone(),
            group: self.group.clone(),
            version_range: match &self.version_range {
                Some(v) => Some(v.clone()),
                None => None,
            },
        }
    }
}

// ── Mapping the raw metadata ──

/// `o`'s text, or `d` where there is none.
pub open spec fn opt_or(o: Option<String>, d: Seq<char>) -> Seq<char> {
    match o {
        Some(s) => s@,
        None => d,
    }
}

/// The choices of a single-choice block, in order.
pub open spec fn simple_values(b: Option<SimpleBlock>) -> Seq<(Seq<char>, Seq<char>)> {
    match b {
        Some(blk) => match blk.values {
            Some(vs) => vs@.map_values(|v: SimpleValue| (v.id@, v.name@)),
            None => Seq::empty(),
        },
        None => Seq::empty(),
    }
}

/// The project types of the type block.
pub open spec fn type_values(b: Option<TypeBlock>) -> Seq<TypeValue> {
    match b {
        Some(t) => match t.values {
            Some(vs) => vs@,
            None => Seq::empty(),
        },
        None => Seq::empty(),
    }
}

/// The project types whose action is `/starter.zip`, in order.
pub open spec fn starter_projects(vs: Seq<TypeValue>) -> Seq<(Seq<char>, Seq<char>)>
    decreases vs.len(),
{
    if vs.len() == 0 {
        Seq::empty()
    } else {
        let prev = starter_projects(vs.drop_last());
        let v = vs.last();
        if opt_string_view(v.action) == Some("/starter.zip"@) {
            prev.push((v.id@, v.name@))
        } else {
            prev
        }
    }
}

/// A version range, trimmed, where that leaves something.
pub open spec fn trimmed_range(r: Option<String>) -> Option<Seq<char>> {
    match r {
        Some(t) if spec_trim(t@).len() > 0 => Some(spec_trim(t@)),
        _ => None,
    }
}

/// The dependency option a raw dependency becomes in group `group`, if its
/// id is not blank.
pub open spec fn spec_dep_of(v: DependencyValue, group: Seq<char>) -> Option<DepSpec> {
    match v.id {
        Some(id) if spec_trim(id@).len() > 0 => Some(
            DepSpec {
                key: spec_trim(id@),
                text: spec_readable_name(opt_string_view(v.name), id@),
                description: spec_trim(opt_or(v.description, Seq::empty())),
                group: group,
                version_range: trimmed_range(v.version_range),
            },
        ),
        _ => None,
    }
}

/// The dependency options of a group's raw values, in order.
pub open spec fn spec_group_deps(vs: Seq<DependencyValue>, group: Seq<char>) -> Seq<DepSpec>
    decreases vs.len(),
{
    if vs.len() == 0 {
        Seq::empty()
    } else {
        let prev = spec_group_deps(vs.drop_last(), group);
        match spec_dep_of(vs.last(), group) {
            Some(d) => prev.push(d),
            None => prev,
        }
    }
}

/// A group's name, trimmed; `Dependencies` where it has none.
pub open spec fn spec_group_name(g: DependencyGroup) -> Seq<char> {
    spec_trim(opt_or(g.name, "Dependencies"@))
}

pub open spec fn group_values(g: DependencyGroup) -> Seq<DependencyValue> {
    match g.values {
        Some(vs) => vs@,
        None => Seq::empty(),
    }
}

pub open spec fn raw_groups(d: Option<DependenciesBlock>) -> Seq<DependencyGroup> {
    match d {
        Some(b) => match b.values {
            Some(gs) => gs@,
            None => Seq::empty(),
        },
        None => Seq::empty(),
    }
}

/// The dependencies of raw group `g`.
pub open spec fn spec_deps_of_group(g: DependencyGroup) -> Seq<DepSpec> {
    spec_group_deps(group_values(g), spec_group_name(g))
}

/// The groups that keep at least one dependency, in order.
pub open spec fn spec_mapped_groups(gs: Seq<DependencyGroup>) -> Seq<(Seq<char>, Seq<DepSpec>)>
    decreases gs.len(),
{
    if gs.len() == 0 {
        Seq::empty()
    } else {
        let prev = spec_mapped_groups(gs.drop_last());
        let deps = spec_deps_of_group(gs.last());
        if deps.len() > 0 {
            prev.push((spec_group_name(gs.last()), deps))
        } else {
            prev
        }
    }
}

/// Every dependency of every group, in order.
pub open spec fn spec_mapped_deps(gs: Seq<DependencyGroup>) -> Seq<DepSpec>
    decreases gs.len(),
{
    if gs.len() == 0 {
        Seq::empty()
    } else {
        spec_mapped_deps(gs.drop_last()) + spec_deps_of_group(gs.last())
    }
}

pub open spec fn type_default(b: Option<TypeBlock>) -> Option<String> {
    match b {
        Some(t) => t.default,
        None => None,
    }
}

pub open spec fn simple_default(b: Option<SimpleBlock>) -> Option<String> {
    match b {
        Some(t) => t.default,
        None => None,
    }
}

pub open spec fn only_default(b: Option<DefaultOnly>) -> Option<String> {
    match b {
        Some(t) => t.default,
        None => None,
    }
}

/// The defaults the service states, each with its fallback.
pub open spec fn spec_raw_defaults(raw: RawMetadata) -> Seq<Seq<char>> {
    seq![
        opt_or(type_default(raw.project_type), "maven-project"@),
        opt_or(simple_default(raw.language), "java"@),
        opt_or(simple_default(raw.boot_version), "3.4.4"@),
        opt_or(only_default(raw.name), "demo"@),
        opt_or(only_default(raw.group_id), "com.example"@),
        opt_or(only_default(raw.artifact_id), "demo"@),
        opt_or(only_default(raw.package_name), "com.example.demo"@),
        opt_or(simple_default(raw.packaging), "jar"@),
        opt_or(simple_default(raw.java_version), "21"@),
        opt_or(simple_default(raw.configuration_file_format), "properties"@),
    ]
}

pub open spec fn fallback_dep(key: Seq<char>, text: Seq<char>, description: Seq<char>) -> DepSpec {
    DepSpec { key, text, description, group: "Core"@, version_range: None }
}

pub open spec fn fallback_deps() -> Seq<DepSpec> {
    seq![
        fallback_dep("web"@, "Spring Web"@, "Build web, including RESTful applications"@),
        fallback_dep(
            "data-jpa"@,
            "Spring Data JPA"@,
            "Persist data in SQL stores with Java Persistence API"@,
        ),
    ]
}

/// The metadata used when the service's answer lacks project types,
/// languages or Boot versions.
pub open spec fn fallback_view() -> MetadataSpec {
    MetadataSpec {
        projects: seq![("maven-project"@, "Maven"@), ("gradle-project"@, "Gradle"@)],
        languages: seq![("java"@, "Java"@), ("kotlin"@, "Kotlin"@), ("groovy"@, "Groovy"@)],
        boot_versions: seq![("3.4.4"@, "3.4.4"@), ("3.3.10"@, "3.3.10"@)],
        packagings: seq![("jar"@, "Jar"@), ("war"@, "War"@)],
        java_versions: seq![("21"@, "21"@), ("17"@, "17"@)],
        config_formats: seq![("properties"@, "Properties"@), ("yaml"@, "YAML"@)],
        dependency_groups: seq![("Core"@, fallback_deps())],
        all_deps: fallback_deps(),
        defaults: seq![
            "maven-project"@,
            "java"@,
            "3.4.4"@,
            "demo"@,
            "com.example"@,
            "demo"@,
            "com.example.demo"@,
            "jar"@,
            "21"@,
            "properties"@,
        ],
    }
}

/// The view model of the service's answer.
pub open spec fn spec_map_metadata(raw: RawMetadata) -> MetadataSpec {
    let projects = starter_projects(type_values(raw.project_type));
    let languages = simple_values(raw.language);
    let boot_versions = simple_values(raw.boot_version);
    if projects.len() == 0 || languages.len() == 0 || boot_versions.len() == 0 {
        fallback_view()
    } else {
        MetadataSpec {
            projects,
            languages,
            boot_versions,
            packagings: simple_values(raw.packaging),
            java_versions: simple_values(raw.java_version),
            config_formats: simple_values(raw.configuration_file_format),
            dependency_groups: spec_mapped_groups(raw_groups(raw.dependencies)),
            all_deps: spec_mapped_deps(raw_groups(raw.dependencies)),
            defaults: spec_raw_defaults(raw),
        }
    }
}

/// The choices of a single-choice block.
pub fn map_simple(block: &Option<SimpleBlock>) -> (r: Vec<Option_>)
    ensures
        option_views(r@) == simple_values(*block),
{
    let mut out: Vec<Option_> = Vec::new();
    if let Some(b) = block {
        if let Some(vs) = &b.values {
            let mut i: usize = 0;
            while i < vs.len()
                invariant
                    i <= vs.len(),
                    out@.len() == i,
                    forall|k: int|
                        0 <= k < i ==> #[trigger] out@[k]@ == (vs@[k].id@, vs@[k].name@),
                decreases vs.len() - i,
            {
                out.push(Option_ { key: vs[i].id.clone(), text: vs[i].name.clone() });
                i = i + 1;
            }
            assert(option_views(out@) =~= simple_values(*block));
        }
    }
    assert(option_views(out@) =~= simple_values(*block));
    out
}

fn starter_options(vs: &Vec<TypeValue>) -> (r: Vec<Option_>)
    ensures
        option_views(r@) == starter_projects(vs@),
{
    let mut out: Vec<Option_> = Vec::new();
    let mut i: usize = 0;
    assert(vs@.take(0) =~= Seq::<TypeValue>::empty());
    assert(option_views(out@) =~= Seq::<(Seq<char>, Seq<char>)>::empty());
    while i < vs.len()
        invariant
            i <= vs.len(),
            option_views(out@) == starter_projects(vs@.take(i as int)),
        decreases vs.len() - i,
    {
        assert(vs@.take(i + 1).drop_last() == vs@.take(i as int));
        let v = &vs[i];
        let keep = match &v.action {
            Some(a) => is_text(&to_chars(a.as_str()), "/starter.zip"),
            None => false,
        };
        if keep {
            let o = Option_ { key: v.id.clone(), text: v.name.clone() };
            assert(option_views(out@.push(o)) =~= option_views(out@).push(o@));
            out.push(o);
        }
        i = i + 1;
    }
    assert(vs@.take(vs.len() as int) == vs@);
    out
}

fn trimmed_text(o: &Option<String>, d: &str) -> (r: String)
    ensures
        r@ == spec_trim(opt_or(*o, d@)),
{
    match o {
        Some(t) => trim_str(t.as_str()),
        None => trim_str(d),
    }
}

fn map_range(o: &Option<String>) -> (r: Option<String>)
    ensures
        opt_string_view(r) == trimmed_range(*o),
{
    match o {
        Some(t) => {
            let tr = trim_str(t.as_str());
            if tr.as_str().is_empty() {
                None
            } else {
                Some(tr)
            }
        },
        None => None,
    }
}

fn dep_of(v: &DependencyValue, group: &String) -> (r: Option<DepOption>)
    ensures
        match r {
            Some(d) => spec_dep_of(*v, group@) == Some(d@),
            None => spec_dep_of(*v, group@) is None,
        },
{
    match &v.id {
        Some(id) => {
            let key = trim_str(id.as_str());
            if key.as_str().is_empty() {
                return None;
            }
            let name = match &v.name {
                Some(n) => Some(n.as_str()),
                None => None,
            };
            let d = DepOption {
                key,
                text: readable_name(name, id.as_str()),
                description: trimmed_text(&v.description, ""),
                group: group.clone(),
                version_range: map_range(&v.version_range),
            };
            proof {
                reveal_strlit("");
            }
            assert(""@ == Seq::<char>::empty());
            Some(d)
        },
        None => None,
    }
}

fn deps_of_group(g: &DependencyGroup) -> (r: (String, Vec<DepOption>))
    ensures
        r.0@ == spec_group_name(*g),
        dep_views(r.1@) == spec_deps_of_group(*g),
{
    let name = trimmed_text(&g.name, "Dependencies");
    let mut deps: Vec<DepOption> = Vec::new();
    let empty: Vec<DependencyValue> = Vec::new();
    let vs = match &g.values {
        Some(vs) => vs,
        None => &empty,
    };
    assert(vs@ == group_values(*g));
    let mut i: usize = 0;
    assert(vs@.take(0) =~= Seq::<DependencyValue>::empty());
    assert(dep_views(deps@) =~= Seq::<DepSpec>::empty());
    while i < vs.len()
        invariant
            i <= vs.len(),
            name@ == spec_group_name(*g),
            dep_views(deps@) == spec_group_deps(vs@.take(i as int), name@),
        decreases vs.len() - i,
    {
        assert(vs@.take(i + 1).drop_last() == vs@.take(i as int));
        match dep_of(&vs[i], &name) {
            Some(d) => {
                assert(dep_views(deps@.push(d)) =~= dep_views(deps@).push(d@));
                deps.push(d);
            },
            None => {},
        }
        i = i + 1;
    }
    assert(vs@.take(vs.len() as int) == vs@);
    (name, deps)
}

/// The groups that keep a dependency, and all the dependencies, in order.
fn map_groups(gs: &Vec<DependencyGroup>) -> (r: (Vec<DepGroup>, Vec<DepOption>))
    ensures
        group_views(r.0@) == spec_mapped_groups(gs@),
        dep_views(r.1@) == spec_mapped_deps(gs@),
{
    let mut groups: Vec<DepGroup> = Vec::new();
    let mut all: Vec<DepOption> = Vec::new();
    let mut i: usize = 0;
    assert(gs@.take(0) =~= Seq::<DependencyGroup>::empty());
    assert(group_views(groups@) =~= Seq::<(Seq<char>, Seq<DepSpec>)>::empty());
    assert(dep_views(all@) =~= Seq::<DepSpec>::empty());
    while i < gs.len()
        invariant
            i <= gs.len(),
            group_views(groups@) == spec_mapped_groups(gs@.take(i as int)),
            dep_views(all@) == spec_mapped_deps(gs@.take(i as int)),
        decreases gs.len() - i,
    {
        assert(gs@.take(i + 1).drop_last() == gs@.take(i as int));
        let (name, deps) = deps_of_group(&gs[i]);
        let mut k: usize = 0;
        let ghost before = dep_views(all@);
        while k < deps.len()
            invariant
                k <= deps.len(),
                dep_views(all@) == before + dep_views(deps@).take(k as int),
            decreases deps.len() - k,
        {
            let c = deps[k].clone_dep();
            assert(dep_views(all@.push(c)) =~= dep_views(all@).push(c@));
            assert(dep_views(deps@).take(k + 1) =~= dep_views(deps@).take(k as int).push(deps@[k as int]@));
            all.push(c);
            k = k + 1;
        }
        assert(dep_views(deps@).take(deps.len() as int) =~= dep_views(deps@));
        if deps.len() > 0 {
            let g = DepGroup { name, deps };
            assert(group_views(groups@.push(g)) =~= group_views(groups@).push((g.name@, dep_views(g.deps@))));
            groups.push(g);
        }
        i = i + 1;
    }
    assert(gs@.take(gs.len() as int) == gs@);
    (groups, all)
}

fn text_or(o: &Option<String>, d: &str) -> (r: String)
    ensures
        r@ == opt_or(*o, d@),
{
    match o {
        Some(t) => t.clone(),
        None => d.to_owned(),
    }
}

fn type_default_or(b: &Option<TypeBlock>, d: &str) -> (r: String)
    ensures
        r@ == opt_or(type_default(*b), d@),
{
    match b {
        Some(t) => text_or(&t.default, d),
        None => d.to_owned(),
    }
}

fn simple_default_or(b: &Option<SimpleBlock>, d: &str) -> (r: String)
    ensures
        r@ == opt_or(simple_default(*b), d@),
{
    match b {
        Some(t) => text_or(&t.default, d),
        None => d.to_owned(),
    }
}

fn only_default_or(b: &Option<DefaultOnly>, d: &str) -> (r: String)
    ensures
        r@ == opt_or(only_default(*b), d@),
{
    match b {
        Some(t) => text_or(&t.default, d),
        None => d.to_owned(),
    }
}

fn choice(key: &str, text: &str) -> (r: Option_)
    ensures
        r@ == (key@, text@),
{
    Option_ { key: key.to_owned(), text: text.to_owned() }
}

fn core_dep(key: &str, text: &str, description: &str) -> (r: DepOption)
    ensures
        r@ == fallback_dep(key@, text@, description@),
{
    DepOption {
        key: key.to_owned(),
        text: text.to_owned(),
        description: description.to_owned(),
        group: "Core".to_owned(),
        version_range: None,
    }
}

fn core_deps() -> (r: Vec<DepOption>)
    ensures
        dep_views(r@) == fallback_deps(),
{
    let r = vec![
        core_dep("web", "Spring Web", "Build web, including RESTful applications"),
        core_dep(
            "data-jpa",
            "Spring Data JPA",
            "Persist data in SQL stores with Java Persistence API",
        ),
    ];
    assert(dep_views(r@) =~= fallback_deps());
    r
}

/// The metadata used when the service's answer is missing its essentials.
pub fn fallback() -> (m: Metadata)
    ensures
        m@ == fallback_view(),
{
    let projects = vec![choice("maven-project", "Maven"), choice("gradle-project", "Gradle")];
    let languages = vec![choice("java", "Java"), choice("kotlin", "Kotlin"), choice("groovy", "Groovy")];
    let boot_versions = vec![choice("3.4.4", "3.4.4"), choice("3.3.10", "3.3.10")];
    let packagings = vec![choice("jar", "Jar"), choice("war", "War")];
    let java_versions = vec![choice("21", "21"), choice("17", "17")];
    let config_formats = vec![choice("properties", "Properties"), choice("yaml", "YAML")];
    let dependency_groups = vec![DepGroup { name: "Core".to_owned(), deps: core_deps() }];
    let all_deps = core_deps();
    let defaults = Defaults {
        project: "maven-project".to_owned(),
        language: "java".to_owned(),
        boot: "3.4.4".to_owned(),
        name: "demo".to_owned(),
        group: "com.example".to_owned(),
        artifact: "demo".to_owned(),
        package_name: "com.example.demo".to_owned(),
        packaging: "jar".to_owned(),
        java: "21".to_owned(),
        config_format: "properties".to_owned(),
    };
    let m = Metadata {
        projects,
        languages,
        boot_versions,
        packagings,
        java_versions,
        config_formats,
        dependency_groups,
        all_deps,
        defaults,
    };
    let ghost f = fallback_view();
    assert(m@.projects =~= f.projects);
    assert(m@.languages =~= f.languages);
    assert(m@.boot_versions =~= f.boot_versions);
    assert(m@.packagings =~= f.packagings);
    assert(m@.java_versions =~= f.java_versions);
    assert(m@.config_formats =~= f.config_formats);
    assert(m@.dependency_groups =~= f.dependency_groups);
    assert(m@.defaults =~= f.defaults);
    m
}

/// The view model of the service's answer: the starter project types, the
/// choices of each option, the dependency groups that keep a dependency with
/// a non-blank id, all those dependencies, and the defaults; the fallback
/// where no project type, language or Boot version is left.
pub fn map_metadata(raw: RawMetadata) -> (m: Metadata)
    ensures
        m@ == spec_map_metadata(raw),
{
    let empty_types: Vec<TypeValue> = Vec::new();
    let type_vals = match &raw.project_type {
        Some(t) => match &t.values {
            Some(vs) => vs,
            None => &empty_types,
        },
        None => &empty_types,
    };
    assert(type_vals@ == type_values(raw.project_type));
    let projects = starter_options(type_vals);
    let languages = map_simple(&raw.language);
    let boot_versions = map_simple(&raw.boot_version);
    let packagings = map_simple(&raw.packaging);
    let java_versions = map_simple(&raw.java_version);
    let config_formats = map_simple(&raw.configuration_file_format);
    let empty_groups: Vec<DependencyGroup> = Vec::new();
    let groups = match &raw.dependencies {
        Some(b) => match &b.values {
            Some(gs) => gs,
            None => &empty_groups,
        },
        None => &empty_groups,
    };
    assert(groups@ == raw_groups(raw.dependencies));
    let (dependency_groups, all_deps) = map_groups(groups);
    let defaults = Defaults {
        project: type_default_or(&raw.project_type, "maven-project"),
        language: simple_default_or(&raw.language, "java"),
        boot: simple_default_or(&raw.boot_version, "3.4.4"),
        name: only_default_or(&raw.name, "demo"),
        group: only_default_or(&raw.group_id, "com.example"),
        artifact: only_default_or(&raw.artifact_id, "demo"),
        package_name: only_default_or(&raw.package_name, "com.example.demo"),
        packaging: simple_default_or(&raw.packaging, "jar"),
        java: simple_default_or(&raw.java_version, "21"),
        config_format: simple_default_or(&raw.configuration_file_format, "properties"),
    };
    if projects.len() == 0 || languages.len() == 0 || boot_versions.len() == 0 {
        return fallback();
    }
    let m = Metadata {
        projects,
        languages,
        boot_versions,
        packagings,
        java_versions,
        config_formats,
        dependency_groups,
        all_deps,
        defaults,
    };
    assert(m@.defaults =~= spec_raw_defaults(raw));
    m
}

/// Each group's dependencies, taken in order, are exactly all the
/// dependencies: the mapping files every dependency under its group.
pub proof fn lemma_mapped_deps_are_grouped(gs: Seq<DependencyGroup>)
    ensures
        flatten_groups(spec_mapped_groups(gs)) == spec_mapped_deps(gs),
    decreases gs.len(),
{
    if gs.len() > 0 {
        lemma_mapped_deps_are_grouped(gs.drop_last());
        let deps = spec_deps_of_group(gs.last());
        let prev = spec_mapped_groups(gs.drop_last());
        if deps.len() > 0 {
            let next = prev.push((spec_group_name(gs.last()), deps));
            assert(next.drop_last() == prev);
        } else {
            assert(spec_mapped_deps(gs.drop_last()) + deps == spec_mapped_deps(gs.drop_last()));
        }
    }
}

/// In the metadata the mapping gives, `all_deps` is the dependencies of
/// `dependency_groups` taken in order.
pub proof fn lemma_all_deps_are_the_groups(raw: RawMetadata)
    ensures
        flatten_groups(spec_map_metadata(raw).dependency_groups) == spec_map_metadata(raw).all_deps,
{
    lemma_mapped_deps_are_grouped(raw_groups(raw.dependencies));
    let f = fallback_view();
    assert(f.dependency_groups.drop_last() =~= Seq::<(Seq<char>, Seq<DepSpec>)>::empty());
    assert(flatten_groups(f.dependency_groups.drop_last()) == Seq::<DepSpec>::empty());
    assert(f.dependency_groups.last().1 == fallback_deps());
    assert(Seq::<DepSpec>::empty() + fallback_deps() =~= fallback_deps());
}


/// A dependency option as the mapping makes them, in group `group`: a
/// trimmed, non-empty key, a trimmed, non-empty range where there is one,
/// and `group` as its group.
pub open spec fn mapped_dep_ok(d: DepSpec, group: Seq<char>) -> bool {
    &&& d.key.len() > 0
    &&& spec_trim(d.key) == d.key
    &&& d.group == group
    &&& (d.version_range matches Some(r) ==> r.len() > 0 && spec_trim(r) == r)
}

/// Every group is non-empty and every dependency of it is well made.
pub open spec fn mapped_groups_ok(groups: Seq<(Seq<char>, Seq<DepSpec>)>) -> bool {
    forall|i: int| 0 <= i < groups.len() ==> {
        &&& (#[trigger] groups[i]).1.len() > 0
        &&& forall|j: int| 0 <= j < groups[i].1.len() ==> mapped_dep_ok(#[trigger] groups[i].1[j], groups[i].0)
    }
}

proof fn lemma_group_deps_ok(vs: Seq<DependencyValue>, group: Seq<char>)
    ensures
        forall|j: int| 0 <= j < spec_group_deps(vs, group).len() ==> mapped_dep_ok(#[trigger] spec_group_deps(vs, group)[j], group),
    decreases vs.len(),
{
    if vs.len() > 0 {
        lemma_group_deps_ok(vs.drop_last(), group);
        let prev = spec_group_deps(vs.drop_last(), group);
        match spec_dep_of(vs.last(), group) {
            Some(d) => {
                let id = vs.last().id.unwrap();
                lemma_trim_idempotent(id@);
                if let Some(t) = vs.last().version_range {
                    lemma_trim_idempotent(t@);
                }
                assert(mapped_dep_ok(d, group));
                assert forall|j: int| 0 <= j < prev.push(d).len() implies mapped_dep_ok(#[trigger] prev.push(d)[j], group) by {
                    if j < prev.len() {
                        assert(prev.push(d)[j] == prev[j]);
                    }
                }
            },
            None => {},
        }
    }
}

proof fn lemma_mapped_groups_ok(gs: Seq<DependencyGroup>)
    ensures
        mapped_groups_ok(spec_mapped_groups(gs)),
    decreases gs.len(),
{
    if gs.len() > 0 {
        lemma_mapped_groups_ok(gs.drop_last());
        let prev = spec_mapped_groups(gs.drop_last());
        let g = gs.last();
        let deps = spec_deps_of_group(g);
        lemma_group_deps_ok(group_values(g), spec_group_name(g));
        if deps.len() > 0 {
            let next = prev.push((spec_group_name(g), deps));
            assert forall|i: int| 0 <= i < next.len() implies {
                &&& (#[trigger] next[i]).1.len() > 0
                &&& forall|j: int| 0 <= j < next[i].1.len() ==> mapped_dep_ok(#[trigger] next[i].1[j], next[i].0)
            } by {
                if i < prev.len() {
                    assert(next[i] == prev[i]);
                }
            }
        }
    }
}

/// In the metadata the mapping gives, no group is empty, and every
/// dependency carries its group's name, a trimmed, non-empty key, and a
/// trimmed, non-empty version range where it has one.
pub proof fn lemma_mapped_metadata_is_well_made(raw: RawMetadata)
    ensures
        mapped_groups_ok(spec_map_metadata(raw).dependency_groups),
{
    lemma_mapped_groups_ok(raw_groups(raw.dependencies));
    let f = fallback_view();
    reveal_strlit("web");
    reveal_strlit("data-jpa");
    lemma_trim_of_trimmed("web"@);
    lemma_trim_of_trimmed("data-jpa"@);
    let g = f.dependency_groups;
    assert forall|i: int| 0 <= i < g.len() implies {
        &&& (#[trigger] g[i]).1.len() > 0
        &&& forall|j: int| 0 <= j < g[i].1.len() ==> mapped_dep_ok(#[trigger] g[i].1[j], g[i].0)
    } by {
        assert(i == 0);
        assert forall|j: int| 0 <= j < g[i].1.len() implies mapped_dep_ok(#[trigger] g[i].1[j], g[i].0) by {
            assert(j == 0 || j == 1);
        }
    }
}

} // verus!
