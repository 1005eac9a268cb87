//! Generating a new project: the settings resolved from the command line and
//! the metadata, their validation, and the address of the starter archive.
use vstd::prelude::*;
use crate::metadata::{dep_views, option_views, DepSpec, Metadata, Option_};
use crate::text::{
    extend, from_chars, join, joined, spec_contains, spec_trim, string_views, to_chars,
    contains_text, trim_str, lowercase_of, str_lowercase,
};
use crate::version::{format_range_defined, format_version_range, is_boot_version_in_range, spec_format_range, spec_in_range};

verus! {

/// Arguments of the `new` command.
pub struct NewArgs {
    pub project: Option<String>,
    pub language: Option<String>,
    pub boot: Option<String>,
    pub name: Option<String>,
    pub group: Option<String>,
    pub artifact: Option<String>,
    pub package_name: Option<String>,
    pub packaging: Option<String>,
    pub java: Option<String>,
    pub config_format: Option<String>,
    pub deps: Vec<String>,
    pub output: Option<String>,
    pub git: bool,
    pub docker: bool,
    pub template: Option<String>,
    pub ide: Option<String>,
    pub flat: bool,
}

pub open spec fn opt_text(o: Option<String>) -> Option<Seq<char>> {
    match o {
        Some(s) => Some(s@),
        None => None,
    }
}

// ── Defaults ──

/// A value given on the command line, trimmed, unless it is blank; else the default.
pub open spec fn spec_resolve_or_default(value: Option<Seq<char>>, default: Seq<char>) -> Seq<char> {
    match value {
        Some(v) if spec_trim(v).len() > 0 => spec_trim(v),
        _ => default,
    }
}

pub fn resolve_or_default(value: &Option<String>, default: &str) -> (r: String)
    ensures
        r@ == spec_resolve_or_default(opt_text(*value), default@),
{
    if let Some(v) = value {
        let t = trim_str(v.as_str());
        if !t.as_str().is_empty() {
            return t;
        }
    }
    default.to_owned()
}

/// An artifact id without its `-` and `_`.
pub open spec fn safe_artifact(a: Seq<char>) -> Seq<char> {
    a.filter(|c: char| c != '-' && c != '_')
}

/// The package a project gets unless one is given: `group.artifact`, the
/// artifact without `-` and `_`.
pub open spec fn spec_default_package(group: Seq<char>, artifact: Seq<char>) -> Seq<char> {
    group + "."@ + safe_artifact(artifact)
}

pub fn default_package_name(group: &str, artifact: &str) -> (r: String)
    ensures
        r@ == spec_default_package(group@, artifact@),
{
    let a = to_chars(artifact);
    let mut out = to_chars(group);
    extend(&mut out, &to_chars("."));
    let ghost start = out@;
    let mut i: usize = 0;
    assert(a@.take(0) =~= Seq::<char>::empty());
    proof {
        reveal(Seq::filter);
    }
    assert(start == start + safe_artifact(a@.take(0)));
    while i < a.len()
        invariant
            i <= a.len(),
            a@ == artifact@,
            out@ == start + safe_artifact(a@.take(i as int)),
        decreases a.len() - i,
    {
        let ghost t = a@.take(i + 1);
        assert(t.drop_last() == a@.take(i as int));
        proof {
            reveal(Seq::filter);
        }
        let c = a[i];
        if c != '-' && c != '_' {
            out.push(c);
        }
        i = i + 1;
    }
    assert(a@.take(a.len() as int) == a@);
    from_chars(&out)
}

/// The package of the new project: the one given unless it is blank (it is
/// kept as given), else the default package.
pub open spec fn spec_package_name(given: Option<Seq<char>>, group: Seq<char>, artifact: Seq<char>) -> Seq<char> {
    match given {
        Some(p) if spec_trim(p).len() > 0 => p,
        _ => spec_default_package(group, artifact),
    }
}

// ── Validation ──

/// The keys of some choices.
pub open spec fn option_keys(options: Seq<(Seq<char>, Seq<char>)>) -> Seq<Seq<char>> {
    options.map_values(|o: (Seq<char>, Seq<char>)| o.0)
}

pub open spec fn invalid_option_message(label: Seq<char>, value: Seq<char>, keys: Seq<Seq<char>>) -> Seq<char> {
    "Invalid "@ + label + ": '"@ + value + "'. Available: "@ + joined(keys, ", "@)
}

/// Accepts `value` when it is the key of one of `options`.
pub open spec fn spec_validate_option(value: Seq<char>, options: Seq<(Seq<char>, Seq<char>)>, label: Seq<char>) -> Result<(), Seq<char>> {
    if option_keys(options).contains(value) {
        Ok(())
    } else {
        Err(invalid_option_message(label, value, option_keys(options)))
    }
}

pub open spec fn unit_result(r: Result<(), String>) -> Result<(), Seq<char>> {
    match r {
        Ok(()) => Ok(()),
        Err(e) => Err(e@),
    }
}

/// The keys of `options`, in order.
pub fn keys_of(options: &[Option_]) -> (r: Vec<String>)
    ensures
        string_views(r@) == option_keys(option_views(options@)),
{
    let mut out: Vec<String> = Vec::new();
    let mut i: usize = 0;
    while i < options.len()
        invariant
            i <= options.len(),
            out@.len() == i,
            forall|k: int| 0 <= k < i ==> #[trigger] out@[k]@ == options@[k].key@,
        decreases options.len() - i,
    {
        out.push(options[i].key.clone());
        i = i + 1;
    }
    assert(string_views(out@) =~= option_keys(option_views(options@)));
    out
}

pub fn validate_option(value: &str, options: &[Option_], label: &str) -> (r: Result<(), String>)
    ensures
        unit_result(r) == spec_validate_option(value@, option_views(options@), label@),
{
    let keys = keys_of(options);
    let v = value.to_owned();
    let ghost ks = option_keys(option_views(options@));
    let mut i: usize = 0;
    while i < keys.len()
        invariant
            i <= keys.len(),
            string_views(keys@) == ks,
            ks == option_keys(option_views(options@)),
            v@ == value@,
            forall|k: int| 0 <= k < i ==> ks[k] != value@,
        decreases keys.len() - i,
    {
        if keys[i] == v {
            assert(string_views(keys@)[i as int] == keys@[i as int]@);
            assert(ks[i as int] == value@);
            assert(ks.contains(value@));
            return Ok(());
        }
        i = i + 1;
    }
    assert(!ks.contains(value@));
    let mut msg = to_chars("Invalid ");
    extend(&mut msg, &to_chars(label));
    extend(&mut msg, &to_chars(": '"));
    extend(&mut msg, &to_chars(value));
    extend(&mut msg, &to_chars("'. Available: "));
    let parts = keys.as_slice();
    extend(&mut msg, &to_chars(join(parts, ", ").as_str()));
    Err(from_chars(&msg))
}

/// The first dependency whose key is `key`.
pub open spec fn first_with_key(all: Seq<DepSpec>, key: Seq<char>) -> Option<DepSpec>
    decreases all.len(),
{
    if all.len() == 0 {
        None
    } else if all[0].key == key {
        Some(all[0])
    } else {
        first_with_key(all.drop_first(), key)
    }
}

/// A dependency offered in place of the unknown `dep`: its key contains
/// `dep`, or its name does ignoring case, and it fits Boot `boot`.
pub open spec fn is_suggestion(d: DepSpec, dep: Seq<char>, boot: Seq<char>) -> bool {
    (spec_contains(d.key, dep) || spec_contains(str_lowercase(d.text), str_lowercase(dep)))
        && spec_in_range(boot, d.version_range)
}

/// The keys of all the suggestions, in order.
pub open spec fn suggestion_keys(all: Seq<DepSpec>, dep: Seq<char>, boot: Seq<char>) -> Seq<Seq<char>>
    decreases all.len(),
{
    if all.len() == 0 {
        Seq::empty()
    } else {
        let prev = suggestion_keys(all.drop_last(), dep, boot);
        if is_suggestion(all.last(), dep, boot) {
            prev.push(all.last().key)
        } else {
            prev
        }
    }
}

/// At most the first `n` elements of `s`.
pub open spec fn first_n<A>(s: Seq<A>, n: int) -> Seq<A> {
    if s.len() <= n { s } else { s.take(n) }
}

pub open spec fn unknown_dep_message(dep: Seq<char>, suggestions: Seq<Seq<char>>) -> Seq<char> {
    "Unknown dependency: '"@ + dep + "'."@ + (if suggestions.len() == 0 {
        Seq::empty()
    } else {
        " Did you mean: "@ + joined(suggestions, ", "@) + "?"@
    })
}

pub open spec fn range_text(r: Option<Seq<char>>) -> Seq<char> {
    match r {
        Some(t) => t,
        None => Seq::empty(),
    }
}

pub open spec fn incompatible_dep_message(dep: Seq<char>, boot: Seq<char>, range: Option<Seq<char>>) -> Seq<char> {
    "Dependency '"@ + dep + "' is not compatible with Spring Boot "@ + boot + ". Required: "@
        + spec_format_range(range_text(range))
}

/// Accepts the dependencies when each is known and fits Boot `boot`; else
/// the error for the first that is not.
pub open spec fn spec_validate_deps(deps: Seq<Seq<char>>, all: Seq<DepSpec>, boot: Seq<char>) -> Result<(), Seq<char>>
    decreases deps.len(),
{
    if deps.len() == 0 {
        Ok(())
    } else {
        match first_with_key(all, deps[0]) {
            Some(d) => if spec_in_range(boot, d.version_range) {
                spec_validate_deps(deps.drop_first(), all, boot)
            } else {
                Err(incompatible_dep_message(deps[0], boot, d.version_range))
            },
            None => Err(unknown_dep_message(deps[0], first_n(suggestion_keys(all, deps[0], boot), 5))),
        }
    }
}

/// The version range that an error of `spec_validate_deps` shows can be
/// put in words (see `format_range_defined`).
pub open spec fn validate_deps_defined(deps: Seq<Seq<char>>, all: Seq<DepSpec>, boot: Seq<char>) -> bool
    decreases deps.len(),
{
    if deps.len() == 0 {
        true
    } else {
        match first_with_key(all, deps[0]) {
            Some(d) => if spec_in_range(boot, d.version_range) {
                validate_deps_defined(deps.drop_first(), all, boot)
            } else {
                format_range_defined(range_text(d.version_range))
            },
            None => true,
        }
    }
}

fn find_dep(meta: &Metadata, key: &String) -> (r: Option<usize>)
    ensures
        match r {
            Some(i) => i < meta.all_deps@.len() && first_with_key(dep_views(meta.all_deps@), key@) == Some(meta.all_deps@[i as int]@),
            None => first_with_key(dep_views(meta.all_deps@), key@) is None,
        },
{
    let ghost all = dep_views(meta.all_deps@);
    let mut i: usize = 0;
    assert(all.skip(0) == all);
    while i < meta.all_deps.len()
        invariant
            i <= meta.all_deps.len(),
            all == dep_views(meta.all_deps@),
            first_with_key(all, key@) == first_with_key(all.skip(i as int), key@),
        decreases meta.all_deps.len() - i,
    {
        assert(all.skip(i as int)[0] == meta.all_deps@[i as int]@);
        assert(all.skip(i as int).drop_first() == all.skip(i + 1));
        if meta.all_deps[i].key == *key {
            return Some(i);
        }
        i = i + 1;
    }
    None
}

fn opt_str(o: &Option<String>) -> (r: Option<&str>)
    ensures
        match r {
            Some(s) => *o matches Some(t) && s@ == t@,
            None => o is None,
        },
{
    match o {
        Some(t) => Some(t.as_str()),
        None => None,
    }
}

fn suggestions_for(meta: &Metadata, dep: &str, boot_version: &str) -> (r: Vec<String>)
    ensures
        string_views(r@) == first_n(suggestion_keys(dep_views(meta.all_deps@), dep@, boot_version@), 5),
{
    let ghost all = dep_views(meta.all_deps@);
    let dep_chars = to_chars(dep);
    let dep_lower = to_chars(lowercase_of(dep).as_str());
    let mut keys: Vec<String> = Vec::new();
    let mut i: usize = 0;
    assert(all.take(0) =~= Seq::<DepSpec>::empty());
    assert(string_views(keys@) =~= Seq::<Seq<char>>::empty());
    while i < meta.all_deps.len()
        invariant
            i <= meta.all_deps.len(),
            all == dep_views(meta.all_deps@),
            dep_chars@ == dep@,
            dep_lower@ == str_lowercase(dep@),
            string_views(keys@) == suggestion_keys(all.take(i as int), dep@, boot_version@),
        decreases meta.all_deps.len() - i,
    {
        assert(all.take(i + 1).drop_last() == all.take(i as int));
        assert(all.take(i + 1).last() == meta.all_deps@[i as int]@);
        let d = &meta.all_deps[i];
        let by_key = contains_text(&to_chars(d.key.as_str()), &dep_chars);
        let by_name = contains_text(&to_chars(lowercase_of(d.text.as_str()).as_str()), &dep_lower);
        if (by_key || by_name) && is_boot_version_in_range(boot_version, opt_str(&d.version_range)) {
            let k = d.key.clone();
            assert(string_views(keys@.push(k)) =~= string_views(keys@).push(k@));
            keys.push(k);
        }
        i = i + 1;
    }
    assert(all.take(meta.all_deps.len() as int) == all);
    if keys.len() <= 5 {
        return keys;
    }
    let mut out: Vec<String> = Vec::new();
    let mut k: usize = 0;
    while k < 5
        invariant
            k <= 5 < keys.len(),
            out@.len() == k,
            forall|j: int| 0 <= j < k ==> #[trigger] out@[j]@ == keys@[j]@,
        decreases 5 - k,
    {
        out.push(keys[k].clone());
        k = k + 1;
    }
    assert(string_views(out@) =~= string_views(keys@).take(5));
    out
}

fn unknown_dep_error(dep: &str, suggestions: &Vec<String>) -> (r: String)
    ensures
        r@ == unknown_dep_message(dep@, string_views(suggestions@)),
{
    let mut msg = to_chars("Unknown dependency: '");
    extend(&mut msg, &to_chars(dep));
    extend(&mut msg, &to_chars("'."));
    if suggestions.len() > 0 {
        extend(&mut msg, &to_chars(" Did you mean: "));
        let parts = suggestions.as_slice();
        extend(&mut msg, &to_chars(join(parts, ", ").as_str()));
        extend(&mut msg, &to_chars("?"));
    } else {
        assert(msg@ + Seq::<char>::empty() == msg@);
    }
    from_chars(&msg)
}

fn incompatible_dep_error(dep: &str, boot: &str, range: &Option<String>) -> (r: String)
    requires
        format_range_defined(range_text(opt_text(*range))),
    ensures
        r@ == incompatible_dep_message(dep@, boot@, opt_text(*range)),
{
    let mut msg = to_chars("Dependency '");
    extend(&mut msg, &to_chars(dep));
    extend(&mut msg, &to_chars("' is not compatible with Spring Boot "));
    extend(&mut msg, &to_chars(boot));
    extend(&mut msg, &to_chars(". Required: "));
    let raw = match range {
        Some(t) => t.as_str(),
        None => "",
    };
    proof {
        reveal_strlit("");
    }
    assert(raw@ == range_text(opt_text(*range)));
    extend(&mut msg, &to_chars(format_version_range(raw).as_str()));
    from_chars(&msg)
}

/// Checks each requested dependency: it must be known and fit the Boot version.
pub fn validate_deps(deps: &[String], meta: &Metadata, boot_version: &str) -> (r: Result<(), String>)
    requires
        validate_deps_defined(string_views(deps@), dep_views(meta.all_deps@), boot_version@),
    ensures
        unit_result(r) == spec_validate_deps(string_views(deps@), dep_views(meta.all_deps@), boot_version@),
{
    let ghost ds = string_views(deps@);
    let ghost all = dep_views(meta.all_deps@);
    let mut i: usize = 0;
    assert(ds.skip(0) == ds);
    while i < deps.len()
        invariant
            i <= deps.len(),
            ds == string_views(deps@),
            all == dep_views(meta.all_deps@),
            spec_validate_deps(ds, all, boot_version@) == spec_validate_deps(ds.skip(i as int), all, boot_version@),
            validate_deps_defined(ds.skip(i as int), all, boot_version@),
        decreases deps.len() - i,
    {
        let ghost rest = ds.skip(i as int);
        assert(rest[0] == deps@[i as int]@);
        assert(rest.drop_first() == ds.skip(i + 1));
        let dep = &deps[i];
        match find_dep(meta, dep) {
            Some(j) => {
                let found = &meta.all_deps[j];
                if !is_boot_version_in_range(boot_version, opt_str(&found.version_range)) {
                    return Err(incompatible_dep_error(dep.as_str(), boot_version, &found.version_range));
                }
            },
            None => {
                let sugs = suggestions_for(meta, dep.as_str(), boot_version);
                return Err(unknown_dep_error(dep.as_str(), &sugs));
            },
        }
        i = i + 1;
    }
    Ok(())
}

// ── Resolved settings ──

/// The settings of the project to generate.
pub struct Settings {
    pub project: String,
    pub language: String,
    pub boot: String,
    pub name: String,
    pub group: String,
    pub artifact: String,
    pub package_name: String,
    pub packaging: String,
    pub java: String,
    pub config_format: String,
    pub deps: Vec<String>,
}

/// The ten settings, in the order of `Settings`' fields.
pub open spec fn settings_view(s: Settings) -> Seq<Seq<char>> {
    seq![
        s.project@,
        s.language@,
        s.boot@,
        s.name@,
        s.group@,
        s.artifact@,
        s.package_name@,
        s.packaging@,
        s.java@,
        s.config_format@,
    ]
}

/// The first error among some checks, if any.
pub open spec fn first_err(checks: Seq<Result<(), Seq<char>>>) -> Result<(), Seq<char>>
    decreases checks.len(),
{
    if checks.len() == 0 {
        Ok(())
    } else {
        match checks[0] {
            Err(e) => Err(e),
            Ok(()) => first_err(checks.drop_first()),
        }
    }
}

/// The ten settings the command line and the metadata's defaults give.
pub open spec fn spec_settings(args: NewArgs, meta: Metadata) -> Seq<Seq<char>> {
    let d = meta.defaults;
    let group = spec_resolve_or_default(opt_text(args.group), d.group@);
    let artifact = spec_resolve_or_default(opt_text(args.artifact), d.artifact@);
    seq![
        spec_resolve_or_default(opt_text(args.project), d.project@),
        spec_resolve_or_default(opt_text(args.language), d.language@),
        spec_resolve_or_default(opt_text(args.boot), d.boot@),
        spec_resolve_or_default(opt_text(args.name), d.name@),
        group,
        artifact,
        spec_package_name(opt_text(args.package_name), group, artifact),
        spec_resolve_or_default(opt_text(args.packaging), d.packaging@),
        spec_resolve_or_default(opt_text(args.java), d.java@),
        spec_resolve_or_default(opt_text(args.config_format), d.config_format@),
    ]
}

/// The checks of the six single-choice settings, in the order they are made.
pub open spec fn option_checks(s: Seq<Seq<char>>, meta: Metadata) -> Seq<Result<(), Seq<char>>> {
    seq![
        spec_validate_option(s[0], option_views(meta.projects@), "project type"@),
        spec_validate_option(s[1], option_views(meta.languages@), "language"@),
        spec_validate_option(s[2], option_views(meta.boot_versions@), "boot version"@),
        spec_validate_option(s[7], option_views(meta.packagings@), "packaging"@),
        spec_validate_option(s[8], option_views(meta.java_versions@), "java version"@),
        spec_validate_option(s[9], option_views(meta.config_formats@), "config format"@),
    ]
}

/// The settings of the new project, or the first error: an option that is
/// not offered, then a dependency that is unknown or does not fit the Boot
/// version.
pub open spec fn spec_resolve_settings(args: NewArgs, meta: Metadata) -> Result<Seq<Seq<char>>, Seq<char>> {
    let s = spec_settings(args, meta);
    match first_err(option_checks(s, meta)) {
        Err(e) => Err(e),
        Ok(()) => match spec_validate_deps(string_views(args.deps@), dep_views(meta.all_deps@), s[2]) {
            Err(e) => Err(e),
            Ok(()) => Ok(s),
        },
    }
}

/// The dependency ranges an error can show can be put in words.
pub open spec fn resolve_settings_defined(args: NewArgs, meta: Metadata) -> bool {
    let s = spec_settings(args, meta);
    first_err(option_checks(s, meta)) is Ok ==> validate_deps_defined(
        string_views(args.deps@),
        dep_views(meta.all_deps@),
        s[2],
    )
}

fn clone_strings(v: &Vec<String>) -> (r: Vec<String>)
    ensures
        string_views(r@) == string_views(v@),
{
    let mut out: Vec<String> = Vec::new();
    let mut i: usize = 0;
    while i < v.len()
        invariant
            i <= v.len(),
            out@.len() == i,
            forall|k: int| 0 <= k < i ==> #[trigger] out@[k]@ == v@[k]@,
        decreases v.len() - i,
    {
        out.push(v[i].clone());
        i = i + 1;
    }
    assert(string_views(out@) =~= string_views(v@));
    out
}

/// Resolves and validates the settings of the `new` command: each value
/// given on the command line (trimmed, unless blank) or else the service's
/// default; the package given or `group.artifact`; then the checks.
pub fn resolve_settings(args: &NewArgs, meta: &Metadata) -> (r: Result<Settings, String>)
    requires
        resolve_settings_defined(*args, *meta),
    ensures
        match r {
            Ok(s) => spec_resolve_settings(*args, *meta) == Ok::<Seq<Seq<char>>, Seq<char>>(settings_view(s))
                && string_views(s.deps@) == string_views(args.deps@),
            Err(e) => spec_resolve_settings(*args, *meta) == Err::<Seq<Seq<char>>, Seq<char>>(e@),
        },
{
    let d = &meta.defaults;
    let project = resolve_or_default(&args.project, d.project.as_str());
    let language = resolve_or_default(&args.language, d.language.as_str());
    let boot = resolve_or_default(&args.boot, d.boot.as_str());
    let name = resolve_or_default(&args.name, d.name.as_str());
    let group = resolve_or_default(&args.group, d.group.as_str());
    let artifact = resolve_or_default(&args.artifact, d.artifact.as_str());
    let packaging = resolve_or_default(&args.packaging, d.packaging.as_str());
    let java = resolve_or_default(&args.java, d.java.as_str());
    let config_format = resolve_or_default(&args.config_format, d.config_format.as_str());
    let package_name = match &args.package_name {
        Some(p) if !trim_str(p.as_str()).as_str().is_empty() => p.clone(),
        _ => default_package_name(group.as_str(), artifact.as_str()),
    };
    let s = Settings {
        project,
        language,
        boot,
        name,
        group,
        artifact,
        package_name,
        packaging,
        java,
        config_format,
        deps: clone_strings(&args.deps),
    };
    let ghost sv = settings_view(s);
    assert(sv =~= spec_settings(*args, *meta));
    let ghost checks = option_checks(sv, *meta);
    proof {
        reveal_with_fuel(first_err, 7);
    }
    if let Err(e) = validate_option(s.project.as_str(), meta.projects.as_slice(), "project type") {
        return Err(e);
    }
    if let Err(e) = validate_option(s.language.as_str(), meta.languages.as_slice(), "language") {
        return Err(e);
    }
    if let Err(e) = validate_option(s.boot.as_str(), meta.boot_versions.as_slice(), "boot version") {
        return Err(e);
    }
    if let Err(e) = validate_option(s.packaging.as_str(), meta.packagings.as_slice(), "packaging") {
        return Err(e);
    }
    if let Err(e) = validate_option(s.java.as_str(), meta.java_versions.as_slice(), "java version") {
        return Err(e);
    }
    if let Err(e) = validate_option(s.config_format.as_str(), meta.config_formats.as_slice(), "config format") {
        return Err(e);
    }
    assert(first_err(checks) is Ok);
    if let Err(e) = validate_deps(args.deps.as_slice(), meta, s.boot.as_str()) {
        return Err(e);
    }
    Ok(s)
}

// ── The starter archive's address ──

/// The bytes a URL carries as they are: letters, digits and `-_.~`.
pub open spec fn is_unreserved(b: u8) -> bool {
    (65 <= b <= 90) || (97 <= b <= 122) || (48 <= b <= 57) || b == 45 || b == 95 || b == 46 || b == 126
}

/// An upper-case hexadecimal digit.
pub open spec fn spec_hex_digit(n: u8) -> char {
    if n < 10 {
        (48 + n) as char
    } else {
        (55 + n) as char
    }
}

/// One byte as it stands in a URL: itself, or `%` and two hex digits.
pub open spec fn encode_byte(b: u8) -> Seq<char> {
    if is_unreserved(b) {
        seq![b as char]
    } else {
        seq!['%', spec_hex_digit(b / 16), spec_hex_digit(b % 16)]
    }
}

pub open spec fn percent_encoded(bytes: Seq<u8>) -> Seq<char>
    decreases bytes.len(),
{
    if bytes.len() == 0 {
        Seq::empty()
    } else {
        percent_encoded(bytes.drop_last()) + encode_byte(bytes.last())
    }
}

/// `s` percent-encoded byte by byte, in UTF-8.
pub open spec fn spec_urlencoding(s: Seq<char>) -> Seq<char> {
    percent_encoded(vstd::utf8::encode_utf8(s))
}

/// The value of a hexadecimal digit, either case.
pub open spec fn hex_value(c: char) -> int {
    if '0' <= c && c <= '9' {
        c as int - 48
    } else if 'A' <= c && c <= 'F' {
        c as int - 55
    } else if 'a' <= c && c <= 'f' {
        c as int - 87
    } else {
        0
    }
}

/// Percent-decoding: `%` and two hex digits stand for that byte, any other
/// (ASCII) character for its own byte.
pub open spec fn percent_decoded(s: Seq<char>) -> Seq<u8>
    decreases s.len(),
{
    if s.len() == 0 {
        Seq::empty()
    } else if s[0] == '%' && s.len() >= 3 {
        seq![(hex_value(s[1]) * 16 + hex_value(s[2])) as u8] + percent_decoded(s.skip(3))
    } else {
        seq![s[0] as u8] + percent_decoded(s.skip(1))
    }
}

proof fn lemma_percent_encoded_first(bs: Seq<u8>)
    requires
        bs.len() > 0,
    ensures
        percent_encoded(bs) == encode_byte(bs[0]) + percent_encoded(bs.drop_first()),
    decreases bs.len(),
{
    if bs.len() == 1 {
        assert(bs.drop_last() =~= Seq::<u8>::empty());
        assert(bs.drop_first() =~= Seq::<u8>::empty());
        assert(percent_encoded(bs) =~= encode_byte(bs[0]) + percent_encoded(bs.drop_first()));
    } else {
        lemma_percent_encoded_first(bs.drop_last());
        assert(bs.drop_last().drop_first() =~= bs.drop_first().drop_last());
        assert(bs.drop_first().last() == bs.last());
        assert(bs.drop_last()[0] == bs[0]);
        assert(percent_encoded(bs) =~= encode_byte(bs[0]) + percent_encoded(bs.drop_first()));
    }
}

proof fn lemma_hex_round_trip(n: u8)
    requires
        n < 16,
    ensures
        hex_value(spec_hex_digit(n)) == n,
{
}

proof fn lemma_decode_byte(b: u8, rest: Seq<char>)
    ensures
        percent_decoded(encode_byte(b) + rest) == seq![b] + percent_decoded(rest),
{
    let s = encode_byte(b) + rest;
    if is_unreserved(b) {
        assert(s[0] == b as char);
        assert(s.skip(1) =~= rest);
    } else {
        assert(s[0] == '%');
        lemma_hex_round_trip(b / 16);
        lemma_hex_round_trip(b % 16);
        assert(s[1] == spec_hex_digit(b / 16));
        assert(s[2] == spec_hex_digit(b % 16));
        assert(s.skip(3) =~= rest);
        assert((hex_value(s[1]) * 16 + hex_value(s[2])) as u8 == b);
    }
}

/// Percent-decoding undoes percent-encoding: the bytes come back, in order.
pub proof fn lemma_percent_decoding_undoes_encoding(bs: Seq<u8>)
    ensures
        percent_decoded(percent_encoded(bs)) == bs,
    decreases bs.len(),
{
    if bs.len() > 0 {
        lemma_percent_encoded_first(bs);
        lemma_decode_byte(bs[0], percent_encoded(bs.drop_first()));
        lemma_percent_decoding_undoes_encoding(bs.drop_first());
        assert(seq![bs[0]] + bs.drop_first() =~= bs);
    }
}

/// `urlencoding` loses nothing: percent-decoding its result gives back the
/// UTF-8 bytes of the text.
pub proof fn lemma_urlencoding_round_trips(s: Seq<char>)
    ensures
        percent_decoded(spec_urlencoding(s)) == vstd::utf8::encode_utf8(s),
{
    lemma_percent_decoding_undoes_encoding(vstd::utf8::encode_utf8(s));
}

fn hex_digit(n: u8) -> (c: char)
    requires
        n < 16,
    ensures
        c == spec_hex_digit(n),
{
    if n < 10 {
        (48 + n) as char
    } else {
        (55 + n) as char
    }
}

pub fn urlencoding(s: &str) -> (r: String)
    ensures
        r@ == spec_urlencoding(s@),
{
    let bytes = s.as_bytes();
    let ghost bs = vstd::utf8::encode_utf8(s@);
    assert(bytes@ == bs);
    let mut out: Vec<char> = Vec::new();
    let mut i: usize = 0;
    assert(bs.take(0) =~= Seq::<u8>::empty());
    while i < bytes.len()
        invariant
            i <= bytes.len(),
            bytes@ == bs,
            out@ == percent_encoded(bs.take(i as int)),
        decreases bytes.len() - i,
    {
        assert(bs.take(i + 1).drop_last() == bs.take(i as int));
        let b = bytes[i];
        if (65 <= b && b <= 90) || (97 <= b && b <= 122) || (48 <= b && b <= 57) || b == 45 || b == 95 || b == 46 || b == 126 {
            out.push(b as char);
        } else {
            out.push('%');
            out.push(hex_digit(b / 16));
            out.push(hex_digit(b % 16));
        }
        assert(bs.take(i + 1).last() == b);
        i = i + 1;
    }
    assert(bs.take(bytes.len() as int) == bs);
    from_chars(&out)
}

/// The query parameters of the starter archive: the settings, with the
/// dependencies joined by commas where there are any.
pub open spec fn starter_params(s: Seq<Seq<char>>, deps: Seq<Seq<char>>) -> Seq<(Seq<char>, Seq<char>)> {
    let base = seq![
        ("type"@, s[0]),
        ("language"@, s[1]),
        ("bootVersion"@, s[2]),
        ("baseDir"@, s[3]),
        ("groupId"@, s[4]),
        ("artifactId"@, s[5]),
        ("packageName"@, s[6]),
        ("packaging"@, s[7]),
        ("javaVersion"@, s[8]),
        ("configurationFileFormat"@, s[9]),
    ];
    if deps.len() > 0 {
        base.push(("dependencies"@, joined(deps, ","@)))
    } else {
        base
    }
}

/// `key=value`, the value percent-encoded.
pub open spec fn query_pair(p: (Seq<char>, Seq<char>)) -> Seq<char> {
    p.0 + "="@ + spec_urlencoding(p.1)
}

/// The address the project's archive is downloaded from.
pub open spec fn spec_starter_zip_url(s: Seq<Seq<char>>, deps: Seq<Seq<char>>) -> Seq<char> {
    "https://start.spring.io/starter.zip?"@ + joined(
        starter_params(s, deps).map_values(|p: (Seq<char>, Seq<char>)| query_pair(p)),
        "&"@,
    )
}

fn pair_text(key: &str, value: &str) -> (r: String)
    ensures
        r@ == query_pair((key@, value@)),
{
    let mut out = to_chars(key);
    extend(&mut out, &to_chars("="));
    extend(&mut out, &to_chars(urlencoding(value).as_str()));
    from_chars(&out)
}

/// The address of the starter archive for some settings.
pub fn starter_zip_url(s: &Settings) -> (r: String)
    ensures
        r@ == spec_starter_zip_url(settings_view(*s), string_views(s.deps@)),
{
    let mut pairs: Vec<String> = Vec::new();
    pairs.push(pair_text("type", s.project.as_str()));
    pairs.push(pair_text("language", s.language.as_str()));
    pairs.push(pair_text("bootVersion", s.boot.as_str()));
    pairs.push(pair_text("baseDir", s.name.as_str()));
    pairs.push(pair_text("groupId", s.group.as_str()));
    pairs.push(pair_text("artifactId", s.artifact.as_str()));
    pairs.push(pair_text("packageName", s.package_name.as_str()));
    pairs.push(pair_text("packaging", s.packaging.as_str()));
    pairs.push(pair_text("javaVersion", s.java.as_str()));
    pairs.push(pair_text("configurationFileFormat", s.config_format.as_str()));
    if s.deps.len() > 0 {
        let deps = s.deps.as_slice();
        let joined_deps = join(deps, ",");
        pairs.push(pair_text("dependencies", joined_deps.as_str()));
    }
    let ghost ps = starter_params(settings_view(*s), string_views(s.deps@));
    assert(string_views(pairs@) =~= ps.map_values(|p: (Seq<char>, Seq<char>)| query_pair(p)));
    let mut out = to_chars("https://start.spring.io/starter.zip?");
    let parts = pairs.as_slice();
    extend(&mut out, &to_chars(join(parts, "&").as_str()));
    from_chars(&out)
}

/// The `new` command runs the interactive wizard when it is given no
/// setting at all (Git, Docker and a template aside).
pub open spec fn spec_wants_wizard(args: NewArgs) -> bool {
    &&& args.project is None
    &&& args.language is None
    &&& args.boot is None
    &&& args.name is None
    &&& args.group is None
    &&& args.artifact is None
    &&& args.package_name is None
    &&& args.packaging is None
    &&& args.java is None
    &&& args.config_format is None
    &&& args.deps@.len() == 0
    &&& args.output is None
    &&& args.ide is None
    &&& !args.flat
}

pub fn wants_wizard(args: &NewArgs) -> (r: bool)
    ensures
        r == spec_wants_wizard(*args),
{
    args.project.is_none() && args.language.is_none() && args.boot.is_none() && args.name.is_none()
        && args.group.is_none() && args.artifact.is_none() && args.package_name.is_none()
        && args.packaging.is_none() && args.java.is_none() && args.config_format.is_none()
        && args.deps.len() == 0 && args.output.is_none() && args.ide.is_none() && !args.flat
}

proof fn lemma_validated_deps_fit(deps: Seq<Seq<char>>, all: Seq<DepSpec>, boot: Seq<char>)
    requires
        spec_validate_deps(deps, all, boot) is Ok,
    ensures
        forall|i: int| 0 <= i < deps.len() ==> (first_with_key(all, #[trigger] deps[i]) matches Some(d) && spec_in_range(boot, d.version_range)),
    decreases deps.len(),
{
    if deps.len() > 0 {
        lemma_validated_deps_fit(deps.drop_first(), all, boot);
        assert forall|i: int| 0 <= i < deps.len() implies (first_with_key(all, #[trigger] deps[i]) matches Some(d) && spec_in_range(boot, d.version_range)) by {
            if i > 0 {
                assert(deps.drop_first()[i - 1] == deps[i]);
            }
        }
    }
}

/// Settings that resolve hold, for each single choice, one of the keys the
/// service offers, and only dependencies it knows that fit the chosen Boot
/// version.
pub proof fn lemma_resolved_settings_are_offered(args: NewArgs, meta: Metadata)
    requires
        spec_resolve_settings(args, meta) is Ok,
    ensures
        ({
            let s = spec_settings(args, meta);
            &&& option_keys(option_views(meta.projects@)).contains(s[0])
            &&& option_keys(option_views(meta.languages@)).contains(s[1])
            &&& option_keys(option_views(meta.boot_versions@)).contains(s[2])
            &&& option_keys(option_views(meta.packagings@)).contains(s[7])
            &&& option_keys(option_views(meta.java_versions@)).contains(s[8])
            &&& option_keys(option_views(meta.config_formats@)).contains(s[9])
            &&& forall|i: int| 0 <= i < args.deps@.len() ==> (first_with_key(dep_views(meta.all_deps@), #[trigger] args.deps@[i]@) matches Some(d)
                && spec_in_range(s[2], d.version_range))
        }),
{
    reveal_with_fuel(first_err, 7);
    let s = spec_settings(args, meta);
    let ds = string_views(args.deps@);
    lemma_validated_deps_fit(ds, dep_views(meta.all_deps@), s[2]);
    assert forall|i: int| 0 <= i < args.deps@.len() implies (first_with_key(dep_views(meta.all_deps@), #[trigger] args.deps@[i]@) matches Some(d)
        && spec_in_range(s[2], d.version_range)) by {
        assert(ds[i] == args.deps@[i]@);
    }
}

/// Every setting left out takes the service's default; the package, which
/// the service's default does not decide, is the default group and artifact
/// joined.
pub proof fn lemma_omitted_settings_take_defaults(args: NewArgs, meta: Metadata)
    requires
        args.project is None,
        args.language is None,
        args.boot is None,
        args.name is None,
        args.group is None,
        args.artifact is None,
        args.package_name is None,
        args.packaging is None,
        args.java is None,
        args.config_format is None,
    ensures
        ({
            let d = meta.defaults;
            spec_settings(args, meta) == seq![
                d.project@,
                d.language@,
                d.boot@,
                d.name@,
                d.group@,
                d.artifact@,
                spec_default_package(d.group@, d.artifact@),
                d.packaging@,
                d.java@,
                d.config_format@,
            ]
        }),
{
}

} // verus!
