//! Reading build files as text: the artifact ids they declare and the
//! Spring Boot version they use.
use vstd::prelude::*;
use crate::text::{
    lemma_views_empty, lemma_views_push, views,
    from_chars, contains_text, index_of, index_of_char_from, index_of_from, lemma_find_char_from_bounds,
    lemma_find_from_bounds, slice_range, spec_contains, spec_find, spec_find_char_from,
    spec_find_from, spec_starts_with, spec_trim, split_char, split_on, has_prefix, to_chars,
    trim_chars,
};

verus! {

// ───────────────────────── XML tag values ─────────────────────────

/// The trimmed texts between each `open` and the next `close`, scanning
/// from `from` on, as far as both keep being found.
pub open spec fn tag_values_from(s: Seq<char>, open: Seq<char>, close: Seq<char>, from: int) -> Seq<
    Seq<char>,
>
    decreases s.len() - from,
{
    if open.len() == 0 || from < 0 || from > s.len() {
        Seq::empty()
    } else {
        match spec_find_from(s, open, from) {
            None => Seq::empty(),
            Some(st) => match spec_find_from(s, close, st + open.len()) {
                None => Seq::empty(),
                Some(e) => if from < e + close.len() <= s.len() && st + open.len() <= e {
                    seq![spec_trim(s.subrange(st + open.len(), e))].add(
                        tag_values_from(s, open, close, e + close.len()),
                    )
                } else {
                    Seq::empty()
                },
            },
        }
    }
}

pub fn tag_values(s: &Vec<char>, open: &Vec<char>, close: &Vec<char>) -> (r: Vec<Vec<char>>)
    requires
        open.len() > 0,
    ensures
        views(r@) == tag_values_from(s@, open@, close@, 0),
{
    let mut out: Vec<Vec<char>> = Vec::new();
    let mut from: usize = 0;
    proof {
        lemma_views_empty();
    }
    loop
        invariant
            open.len() > 0,
            from <= s.len(),
            tag_values_from(s@, open@, close@, 0) == views(out@) + tag_values_from(
                s@,
                open@,
                close@,
                from as int,
            ),
        decreases s.len() - from,
    {
        proof {
            lemma_find_from_bounds(s@, open@, from as int);
        }
        let st = match index_of_from(s, open, from) {
            None => {
                assert(views(out@) + Seq::<Seq<char>>::empty() == views(out@));
                return out;
            },
            Some(st) => st,
        };
        let a = st + open.len();
        proof {
            lemma_find_from_bounds(s@, close@, a as int);
        }
        let e = match index_of_from(s, close, a) {
            None => {
                assert(views(out@) + Seq::<Seq<char>>::empty() == views(out@));
                return out;
            },
            Some(e) => e,
        };
        let value = trim_chars(&slice_range(s, a, e));
        proof {
            lemma_views_push(out@, value);
            assert(views(out@) + seq![value@].add(tag_values_from(s@, open@, close@, (e + close.len()) as int))
                == views(out@).push(value@) + tag_values_from(s@, open@, close@, (e + close.len()) as int));
        }
        out.push(value);
        from = e + close.len();
    }
}

// ───────────────────────── Gradle dependency lines ─────────────────────────

pub open spec fn is_quote(c: char) -> bool {
    c == '\'' || c == '"'
}

/// Index of the first quote character at or after `from`.
pub open spec fn spec_find_quote_from(s: Seq<char>, from: int) -> Option<int>
    decreases s.len() - from,
{
    if from < 0 || from >= s.len() {
        None
    } else if is_quote(s[from]) {
        Some(from)
    } else {
        spec_find_quote_from(s, from + 1)
    }
}

pub proof fn lemma_find_quote_from_bounds(s: Seq<char>, from: int)
    ensures
        spec_find_quote_from(s, from) matches Some(k) ==> from <= k < s.len() && is_quote(s[k]),
    decreases s.len() - from,
{
    if from >= 0 && from < s.len() && !is_quote(s[from]) {
        lemma_find_quote_from_bounds(s, from + 1);
    }
}

/// The texts of the closed quotations in `s` from `from` on: each opens at
/// a quote character and closes at the next occurrence of the same one.
pub open spec fn quoted_segments_from(s: Seq<char>, from: int) -> Seq<Seq<char>>
    decreases s.len() - from,
{
    match spec_find_quote_from(s, from) {
        None => Seq::empty(),
        Some(k) => if from <= k < s.len() {
            match spec_find_char_from(s, s[k], k + 1) {
                None => Seq::empty(),
                Some(e) => if k < e < s.len() {
                    seq![s.subrange(k + 1, e)].add(quoted_segments_from(s, e + 1))
                } else {
                    Seq::empty()
                },
            }
        } else {
            Seq::empty()
        },
    }
}

pub open spec fn has_char(s: Seq<char>, c: char) -> bool {
    spec_find_char_from(s, c, 0) is Some
}

/// The artifact id a quotation names: the trimmed second `:`-field of a
/// coordinate, or the whole quotation when it holds no `:` and no space.
pub open spec fn spec_quoted_id(seg: Seq<char>) -> Option<Seq<char>> {
    if has_char(seg, ':') {
        let parts = split_char(seg, ':');
        if parts.len() >= 2 {
            Some(spec_trim(parts[1]))
        } else {
            None
        }
    } else if !has_char(seg, ' ') {
        Some(seg)
    } else {
        None
    }
}

pub open spec fn ids_of_segments(segs: Seq<Seq<char>>) -> Seq<Seq<char>>
    decreases segs.len(),
{
    if segs.len() == 0 {
        Seq::empty()
    } else {
        match spec_quoted_id(segs[0]) {
            Some(id) => seq![id].add(ids_of_segments(segs.drop_first())),
            None => ids_of_segments(segs.drop_first()),
        }
    }
}

/// Configurations whose lines declare dependencies or plugins.
pub open spec fn spec_gradle_dependency_line(line: Seq<char>) -> bool {
    ||| spec_starts_with(line, "implementation"@)
    ||| spec_starts_with(line, "compileOnly"@)
    ||| spec_starts_with(line, "developmentOnly"@)
    ||| spec_starts_with(line, "annotationProcessor"@)
    ||| spec_starts_with(line, "testImplementation"@)
    ||| spec_starts_with(line, "testCompileOnly"@)
    ||| spec_starts_with(line, "testRuntimeOnly"@)
    ||| spec_starts_with(line, "testAnnotationProcessor"@)
    ||| spec_starts_with(line, "runtimeOnly"@)
    ||| spec_starts_with(line, "api"@)
    ||| spec_starts_with(line, "id "@)
}

pub open spec fn gradle_line_ids(line: Seq<char>) -> Seq<Seq<char>> {
    let t = spec_trim(line);
    if spec_gradle_dependency_line(t) {
        ids_of_segments(quoted_segments_from(t, 0))
    } else {
        Seq::empty()
    }
}

pub open spec fn gradle_ids(lines: Seq<Seq<char>>) -> Seq<Seq<char>>
    decreases lines.len(),
{
    if lines.len() == 0 {
        Seq::empty()
    } else {
        gradle_line_ids(lines[0]) + gradle_ids(lines.drop_first())
    }
}

/// The artifact ids of a Maven POM.
pub open spec fn spec_maven_artifact_ids(content: Seq<char>) -> Seq<Seq<char>> {
    tag_values_from(content, "<artifactId>"@, "</artifactId>"@, 0)
}

/// The artifact ids named in the dependency and plugin lines of a Gradle
/// build script.
pub open spec fn spec_gradle_artifact_ids(content: Seq<char>) -> Seq<Seq<char>> {
    gradle_ids(split_char(content, '\n'))
}

/// The artifact ids a build file declares: a POM's `<artifactId>` values,
/// or the ids in a Gradle script's dependency lines.
pub open spec fn spec_build_artifact_ids(content: Seq<char>) -> Seq<Seq<char>> {
    if spec_contains(content, "<project"@) {
        spec_maven_artifact_ids(content)
    } else {
        spec_gradle_artifact_ids(content)
    }
}

pub fn find_quote_from(s: &Vec<char>, from: usize) -> (r: Option<usize>)
    ensures
        r matches Some(k) ==> spec_find_quote_from(s@, from as int) == Some(k as int),
        r is None ==> spec_find_quote_from(s@, from as int) is None,
{
    let mut i = from;
    while i < s.len()
        invariant
            from <= i,
            spec_find_quote_from(s@, from as int) == spec_find_quote_from(s@, i as int),
        decreases s.len() - i,
    {
        if s[i] == '\'' || s[i] == '"' {
            return Some(i);
        }
        i = i + 1;
    }
    None
}

fn quoted_id(seg: &Vec<char>) -> (r: Option<Vec<char>>)
    ensures
        match r {
            Some(v) => spec_quoted_id(seg@) == Some(v@),
            None => spec_quoted_id(seg@) is None,
        },
{
    if index_of_char_from(seg, ':', 0).is_some() {
        let parts = split_on(seg, ':');
        if parts.len() >= 2 {
            Some(trim_chars(&parts[1]))
        } else {
            None
        }
    } else if index_of_char_from(seg, ' ', 0).is_none() {
        Some(slice_range(seg, 0, seg.len()))
    } else {
        None
    }
}

proof fn lemma_ids_of_segments_cons(x: Seq<char>, rest: Seq<Seq<char>>)
    ensures
        ids_of_segments(seq![x].add(rest)) == match spec_quoted_id(x) {
            Some(id) => seq![id].add(ids_of_segments(rest)),
            None => ids_of_segments(rest),
        },
{
    assert(seq![x].add(rest).drop_first() == rest);
}

/// The ids of the quotations in one (trimmed) line.
pub fn quoted_ids(t: &Vec<char>, out: &mut Vec<Vec<char>>)
    ensures
        views(final(out)@) == views(old(out)@) + ids_of_segments(quoted_segments_from(t@, 0)),
{
    let mut from: usize = 0;
    let ghost start = views(out@);
    assert(start + Seq::<Seq<char>>::empty() == start);
    loop
        invariant
            from <= t.len(),
            start == views(old(out)@),
            start + ids_of_segments(quoted_segments_from(t@, 0)) == views(out@) + ids_of_segments(
                quoted_segments_from(t@, from as int),
            ),
        decreases t.len() - from,
    {
        proof {
            lemma_find_quote_from_bounds(t@, from as int);
        }
        let k = match find_quote_from(t, from) {
            None => {
                assert(views(out@) + Seq::<Seq<char>>::empty() == views(out@));
                return;
            },
            Some(k) => k,
        };
        proof {
            lemma_find_char_from_bounds(t@, t@[k as int], k + 1);
        }
        let e = match index_of_char_from(t, t[k], k + 1) {
            None => {
                assert(views(out@) + Seq::<Seq<char>>::empty() == views(out@));
                return;
            },
            Some(e) => e,
        };
        let seg = slice_range(t, k + 1, e);
        proof {
            lemma_ids_of_segments_cons(seg@, quoted_segments_from(t@, e + 1));
        }
        match quoted_id(&seg) {
            Some(id) => {
                proof {
                    lemma_views_push(out@, id);
                    assert(views(out@) + seq![id@].add(ids_of_segments(quoted_segments_from(t@, e + 1)))
                        == views(out@).push(id@) + ids_of_segments(quoted_segments_from(t@, e + 1)));
                }
                out.push(id);
            },
            None => {},
        }
        from = e + 1;
    }
}

pub fn gradle_dependency_line(line: &Vec<char>) -> (r: bool)
    ensures
        r == spec_gradle_dependency_line(line@),
{
    has_prefix(line, &to_chars("implementation")) || has_prefix(line, &to_chars("compileOnly"))
        || has_prefix(line, &to_chars("developmentOnly")) || has_prefix(
        line,
        &to_chars("annotationProcessor"),
    ) || has_prefix(line, &to_chars("testImplementation")) || has_prefix(
        line,
        &to_chars("testCompileOnly"),
    ) || has_prefix(line, &to_chars("testRuntimeOnly")) || has_prefix(
        line,
        &to_chars("testAnnotationProcessor"),
    ) || has_prefix(line, &to_chars("runtimeOnly")) || has_prefix(line, &to_chars("api"))
        || has_prefix(line, &to_chars("id "))
}

proof fn lemma_gradle_ids_skip(lines: Seq<Seq<char>>, i: int)
    requires
        0 <= i < lines.len(),
    ensures
        gradle_ids(lines.skip(i)) == gradle_line_ids(lines[i]) + gradle_ids(lines.skip(i + 1)),
{
    assert(lines.skip(i).drop_first() == lines.skip(i + 1));
}

pub fn gradle_artifact_ids(content: &Vec<char>) -> (r: Vec<Vec<char>>)
    ensures
        views(r@) == spec_gradle_artifact_ids(content@),
{
    let lines = split_on(content, '\n');
    let ghost ls = split_char(content@, '\n');
    let mut out: Vec<Vec<char>> = Vec::new();
    let mut i: usize = 0;
    proof {
        lemma_views_empty();
        assert(ls.skip(0) == ls);
    }
    while i < lines.len()
        invariant
            i <= lines.len(),
            lines@.len() == ls.len(),
            forall|k: int| 0 <= k < lines@.len() ==> #[trigger] lines@[k]@ == ls[k],
            gradle_ids(ls) == views(out@) + gradle_ids(ls.skip(i as int)),
        decreases lines.len() - i,
    {
        proof {
            lemma_gradle_ids_skip(ls, i as int);
        }
        let t = trim_chars(&lines[i]);
        if gradle_dependency_line(&t) {
            quoted_ids(&t, &mut out);
        }
        i = i + 1;
    }
    assert(ls.skip(lines.len() as int) == Seq::<Seq<char>>::empty());
    assert(views(out@) + Seq::<Seq<char>>::empty() == views(out@));
    out
}

pub fn maven_artifact_ids(content: &Vec<char>) -> (r: Vec<Vec<char>>)
    ensures
        views(r@) == spec_maven_artifact_ids(content@),
{
    let open = to_chars("<artifactId>");
    proof {
        reveal_strlit("<artifactId>");
    }
    tag_values(content, &open, &to_chars("</artifactId>"))
}

pub fn build_artifact_ids(content: &Vec<char>) -> (r: Vec<Vec<char>>)
    ensures
        views(r@) == spec_build_artifact_ids(content@),
{
    if contains_text(content, &to_chars("<project")) {
        maven_artifact_ids(content)
    } else {
        gradle_artifact_ids(content)
    }
}

// ───────────────────────── Spring Boot version ─────────────────────────

/// A version that names a Spring Boot 2, 3 or 4 release.
pub open spec fn major_ok(v: Seq<char>) -> bool {
    v.len() > 0 && (v[0] == '2' || v[0] == '3' || v[0] == '4')
}

pub open spec fn find_quote_or_newline_from(s: Seq<char>, from: int) -> Option<int>
    decreases s.len() - from,
{
    if from < 0 || from >= s.len() {
        None
    } else if is_quote(s[from]) || s[from] == '\n' {
        Some(from)
    } else {
        find_quote_or_newline_from(s, from + 1)
    }
}

proof fn lemma_find_quote_or_newline_bounds(s: Seq<char>, from: int)
    ensures
        find_quote_or_newline_from(s, from) matches Some(k) ==> from <= k < s.len() && (is_quote(
            s[k],
        ) || s[k] == '\n'),
    decreases s.len() - from,
{
    if from >= 0 && from < s.len() && !(is_quote(s[from]) || s[from] == '\n') {
        lemma_find_quote_or_newline_bounds(s, from + 1);
    }
}

/// The quoted text at the start of `s`: empty when a line break comes
/// before any quote; an unclosed quotation runs to the end.
pub open spec fn version_literal(s: Seq<char>) -> Seq<char> {
    match find_quote_or_newline_from(s, 0) {
        None => Seq::empty(),
        Some(k) => if 0 <= k < s.len() && s[k] != '\n' {
            match spec_find_char_from(s, s[k], k + 1) {
                Some(e) => if k < e <= s.len() {
                    s.subrange(k + 1, e)
                } else {
                    Seq::empty()
                },
                None => s.skip(k + 1),
            }
        } else {
            Seq::empty()
        },
    }
}

/// The version given to the `org.springframework.boot` plugin of a Gradle
/// script.
pub open spec fn spec_gradle_boot_version(c: Seq<char>) -> Option<Seq<char>> {
    match spec_find(c, "org.springframework.boot"@) {
        None => None,
        Some(idx) => match spec_find_from(c, "version"@, idx) {
            None => None,
            Some(vi) => {
                let lit = version_literal(c.skip(vi + "version"@.len()));
                if 0 <= vi && vi + "version"@.len() <= c.len() && major_ok(lit) {
                    Some(spec_trim(lit))
                } else {
                    None
                }
            },
        },
    }
}

/// The text of the first `<version>` element starting at or after `from`.
pub open spec fn version_tag_after(c: Seq<char>, from: int) -> Option<Seq<char>> {
    match spec_find_from(c, "<version>"@, from) {
        None => None,
        Some(vs) => match spec_find_from(c, "</version>"@, vs) {
            None => None,
            Some(ve) => if vs + "<version>"@.len() <= ve <= c.len() {
                Some(c.subrange(vs + "<version>"@.len(), ve))
            } else {
                None
            },
        },
    }
}

pub open spec fn boot_version_of(v: Option<Seq<char>>) -> Option<Seq<char>> {
    match v {
        Some(t) => if major_ok(t) {
            Some(spec_trim(t))
        } else {
            None
        },
        None => None,
    }
}

/// The version of the `spring-boot-starter-parent` of a POM.
pub open spec fn spec_maven_parent_boot_version(c: Seq<char>) -> Option<Seq<char>> {
    match spec_find(c, "<artifactId>spring-boot-starter-parent</artifactId>"@) {
        None => None,
        Some(idx) => boot_version_of(version_tag_after(c, idx)),
    }
}

/// The first `<version>` of a POM, when it names a Spring Boot release.
pub open spec fn spec_first_boot_version(c: Seq<char>) -> Option<Seq<char>> {
    boot_version_of(version_tag_after(c, 0))
}

pub open spec fn spec_maven_boot_version(c: Seq<char>) -> Option<Seq<char>> {
    match spec_maven_parent_boot_version(c) {
        Some(v) => Some(v),
        None => spec_first_boot_version(c),
    }
}

/// The Spring Boot version a build file uses: the Gradle plugin version,
/// else the POM parent's, else the first POM `<version>`.
pub open spec fn spec_build_boot_version(c: Seq<char>) -> Option<Seq<char>> {
    match spec_gradle_boot_version(c) {
        Some(v) => Some(v),
        None => spec_maven_boot_version(c),
    }
}

fn find_quote_or_newline(s: &Vec<char>) -> (r: Option<usize>)
    ensures
        r matches Some(k) ==> find_quote_or_newline_from(s@, 0) == Some(k as int),
        r is None ==> find_quote_or_newline_from(s@, 0) is None,
{
    let mut i: usize = 0;
    while i < s.len()
        invariant
            find_quote_or_newline_from(s@, 0) == find_quote_or_newline_from(s@, i as int),
        decreases s.len() - i,
    {
        if s[i] == '\'' || s[i] == '"' || s[i] == '\n' {
            return Some(i);
        }
        i = i + 1;
    }
    None
}

fn read_version_literal(s: &Vec<char>) -> (r: Vec<char>)
    ensures
        r@ == version_literal(s@),
{
    proof {
        lemma_find_quote_or_newline_bounds(s@, 0);
    }
    match find_quote_or_newline(s) {
        None => Vec::new(),
        Some(k) => {
            if s[k] == '\n' {
                return Vec::new();
            }
            assert(k < s.len());
            proof {
                lemma_find_char_from_bounds(s@, s@[k as int], k + 1);
            }
            match index_of_char_from(s, s[k], k + 1) {
                Some(e) => slice_range(s, k + 1, e),
                None => slice_range(s, k + 1, s.len()),
            }
        },
    }
}

fn is_major_ok(v: &Vec<char>) -> (r: bool)
    ensures
        r == major_ok(v@),
{
    v.len() > 0 && (v[0] == '2' || v[0] == '3' || v[0] == '4')
}

pub fn gradle_boot_version(c: &Vec<char>) -> (r: Option<String>)
    ensures
        match r {
            Some(v) => spec_gradle_boot_version(c@) == Some(v@),
            None => spec_gradle_boot_version(c@) is None,
        },
{
    let idx = match index_of(c, &to_chars("org.springframework.boot")) {
        None => return None,
        Some(i) => i,
    };
    let kw = to_chars("version");
    proof {
        lemma_find_from_bounds(c@, kw@, idx as int);
    }
    let vi = match index_of_from(c, &kw, idx) {
        None => return None,
        Some(v) => v,
    };
    assert(vi + kw.len() <= c.len());
    let lit = read_version_literal(&slice_range(c, vi + kw.len(), c.len()));
    if is_major_ok(&lit) {
        Some(from_chars(&trim_chars(&lit)))
    } else {
        None
    }
}

fn read_version_tag_after(c: &Vec<char>, from: usize) -> (r: Option<Vec<char>>)
    ensures
        match r {
            Some(v) => version_tag_after(c@, from as int) == Some(v@),
            None => version_tag_after(c@, from as int) is None,
        },
{
    let open = to_chars("<version>");
    let close = to_chars("</version>");
    proof {
        lemma_find_from_bounds(c@, open@, from as int);
    }
    let vs = match index_of_from(c, &open, from) {
        None => return None,
        Some(v) => v,
    };
    proof {
        lemma_find_from_bounds(c@, close@, vs as int);
    }
    let ve = match index_of_from(c, &close, vs) {
        None => return None,
        Some(v) => v,
    };
    assert(vs + open.len() <= c.len());
    if vs + open.len() <= ve {
        Some(slice_range(c, vs + open.len(), ve))
    } else {
        None
    }
}

fn boot_version_from(v: Option<Vec<char>>) -> (r: Option<String>)
    ensures
        match r {
            Some(s) => boot_version_of(match v {
                Some(t) => Some(t@),
                None => None,
            }) == Some(s@),
            None => boot_version_of(match v {
                Some(t) => Some(t@),
                None => None,
            }) is None,
        },
{
    match v {
        Some(t) => if is_major_ok(&t) {
            Some(from_chars(&trim_chars(&t)))
        } else {
            None
        },
        None => None,
    }
}

pub fn maven_boot_version(c: &Vec<char>) -> (r: Option<String>)
    ensures
        match r {
            Some(v) => spec_maven_boot_version(c@) == Some(v@),
            None => spec_maven_boot_version(c@) is None,
        },
{
    let parent = match index_of(c, &to_chars("<artifactId>spring-boot-starter-parent</artifactId>")) {
        Some(idx) => boot_version_from(read_version_tag_after(c, idx)),
        None => None,
    };
    match parent {
        Some(v) => Some(v),
        None => boot_version_from(read_version_tag_after(c, 0)),
    }
}

pub fn build_boot_version(c: &Vec<char>) -> (r: Option<String>)
    ensures
        match r {
            Some(v) => spec_build_boot_version(c@) == Some(v@),
            None => spec_build_boot_version(c@) is None,
        },
{
    match gradle_boot_version(c) {
        Some(v) => Some(v),
        None => maven_boot_version(c),
    }
}


// ── Reading a quoted version ──

proof fn lemma_first_quote_after_plain(s: Seq<char>, w: Seq<char>, from: int)
    requires
        0 <= from <= w.len(),
        w.len() < s.len(),
        s.take(w.len() as int) == w,
        s[w.len() as int] == '\'' || s[w.len() as int] == '"',
        forall|k: int| 0 <= k < w.len() ==> #[trigger] w[k] != '\'' && w[k] != '"' && w[k] != '\n',
    ensures
        find_quote_or_newline_from(s, from) == Some(w.len() as int),
    decreases w.len() - from,
{
    if from < w.len() {
        assert(s[from] == w[from]);
        lemma_first_quote_after_plain(s, w, from + 1);
    }
}

proof fn lemma_closing_quote(s: Seq<char>, q: char, start: int, v: Seq<char>, from: int)
    requires
        0 <= start <= from <= start + v.len(),
        start + v.len() < s.len(),
        s.subrange(start, start + v.len()) == v,
        s[start + v.len()] == q,
        forall|k: int| 0 <= k < v.len() ==> #[trigger] v[k] != q,
    ensures
        spec_find_char_from(s, q, from) == Some(start + v.len()),
    decreases start + v.len() - from,
{
    if from < start + v.len() {
        assert(s[from] == v[from - start]);
        lemma_closing_quote(s, q, start, v, from + 1);
    }
}

/// The version literal after `version` is the text between the first quote
/// and the next quote of the same kind, single or double alike, when only
/// plain characters come before the opening quote.
pub proof fn lemma_version_literal_reads_either_quote(w: Seq<char>, q: char, v: Seq<char>, rest: Seq<char>)
    requires
        q == '\'' || q == '"',
        forall|k: int| 0 <= k < w.len() ==> #[trigger] w[k] != '\'' && w[k] != '"' && w[k] != '\n',
        forall|k: int| 0 <= k < v.len() ==> #[trigger] v[k] != q,
    ensures
        version_literal(w + seq![q] + v + seq![q] + rest) == v,
{
    let s = w + seq![q] + v + seq![q] + rest;
    let k = w.len() as int;
    assert(s.take(k) =~= w);
    assert(s[k] == q);
    lemma_first_quote_after_plain(s, w, 0);
    assert(s.subrange(k + 1, k + 1 + v.len()) =~= v);
    assert(s[k + 1 + v.len()] == q);
    lemma_closing_quote(s, q, k + 1, v, k + 1);
    assert(s.subrange(k + 1, k + 1 + v.len()) == v);
}

/// The Boot version of a Gradle script is read from the plugin's `version`
/// in single or in double quotes alike: where the first `version` after
/// `org.springframework.boot` is followed by plain characters and a quoted
/// `v` that names a Boot 2, 3 or 4 release, the script's Boot version is
/// `v`, trimmed, both as a Gradle script and as a build file of either kind.
pub proof fn lemma_gradle_boot_version_reads_either_quote(
    c: Seq<char>,
    w: Seq<char>,
    q: char,
    v: Seq<char>,
    rest: Seq<char>,
)
    requires
        q == '\'' || q == '"',
        forall|k: int| 0 <= k < w.len() ==> #[trigger] w[k] != '\'' && w[k] != '"' && w[k] != '\n',
        forall|k: int| 0 <= k < v.len() ==> #[trigger] v[k] != q,
        v.len() > 0 && (v[0] == '2' || v[0] == '3' || v[0] == '4'),
        spec_find(c, "org.springframework.boot"@) matches Some(idx) && (spec_find_from(c, "version"@, idx) matches Some(
            vi,
        ) && c.skip(vi + "version"@.len()) == w + seq![q] + v + seq![q] + rest),
    ensures
        spec_gradle_boot_version(c) == Some(spec_trim(v)),
        spec_build_boot_version(c) == Some(spec_trim(v)),
{
    let idx = spec_find(c, "org.springframework.boot"@).unwrap();
    let vi = spec_find_from(c, "version"@, idx).unwrap();
    lemma_find_from_bounds(c, "version"@, idx);
    lemma_find_from_bounds(c, "org.springframework.boot"@, 0);
    lemma_version_literal_reads_either_quote(w, q, v, rest);
}

} // verus!
