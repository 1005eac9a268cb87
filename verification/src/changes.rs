//! Changing the dependencies of a build file: what a removal or an addition
//! does to the file's text, given the build snippet Spring Initializr
//! generates for the dependencies concerned.
use vstd::prelude::*;
use crate::artifacts::{removal_key, spec_removal_key};
use crate::edit::{
    artifact_id_of, blocks, cut_block_at, cut_line_at, cut_line_with, insert_at, section,
    spec_artifact_id_of, spec_blocks_from, spec_cut_block_at, spec_cut_line_at, spec_cut_line_with,
    spec_insert_at, spec_section,
};
use crate::project::dependency_map::list_contains;
use crate::scan::{
    build_artifact_ids, gradle_dependency_line, ids_of_segments, quoted_ids, quoted_segments_from,
    spec_build_artifact_ids, spec_gradle_dependency_line, find_quote_from, has_char, lemma_find_quote_from_bounds, spec_find_quote_from};
use crate::text::{
    extend, from_chars, index_of, last_index_of, spec_find, spec_rfind, contains_text, has_prefix, lemma_views_empty, lemma_views_push, replace_all, replace_all_chars,
    index_of_char_from, index_of_from, is_text, last_index_before, lemma_find_from_bounds,
    lemma_rfind_before_bounds, spec_find_from, spec_rfind_before, slice_range, spec_contains, spec_starts_with, spec_trim, split_char, split_on, to_chars,
    trim_chars, views,
};

verus! {

/// Which lines of a snippet a step looks at.
#[derive(PartialEq, Eq, Structural, Clone, Copy)]
pub enum LineRule {
    /// A non-empty Maven property other than the Java version.
    Property,
    /// A Gradle `set(...)` line of an `ext` block.
    ExtSet,
    /// A Gradle `mavenBom ...` import.
    MavenBom,
}

pub open spec fn rule_holds(rule: LineRule, t: Seq<char>) -> bool {
    match rule {
        LineRule::Property => t.len() > 0 && !spec_contains(t, "<java.version>"@),
        LineRule::ExtSet => spec_starts_with(t, "set("@),
        LineRule::MavenBom => spec_starts_with(t, "mavenBom "@),
    }
}

pub fn rule_holds_exec(rule: LineRule, t: &Vec<char>) -> (r: bool)
    ensures
        r == rule_holds(rule, t@),
{
    match rule {
        LineRule::Property => t.len() > 0 && !contains_text(t, &to_chars("<java.version>")),
        LineRule::ExtSet => has_prefix(t, &to_chars("set(")),
        LineRule::MavenBom => has_prefix(t, &to_chars("mavenBom ")),
    }
}

/// `s` after cutting out, for each of `lines` in turn whose trimmed text
/// the rule picks, the line of `s` that holds that text; and whether any
/// line was cut.
pub open spec fn spec_cut_rule_lines(s: Seq<char>, lines: Seq<Seq<char>>, rule: LineRule) -> (Seq<char>, bool)
    decreases lines.len(),
{
    if lines.len() == 0 {
        (s, false)
    } else {
        let prev = spec_cut_rule_lines(s, lines.drop_last(), rule);
        let t = spec_trim(lines.last());
        if rule_holds(rule, t) {
            match spec_cut_line_with(prev.0, t) {
                Some(s2) => (s2, true),
                None => prev,
            }
        } else {
            prev
        }
    }
}

pub fn cut_rule_lines(s: Vec<char>, lines: &Vec<Vec<char>>, rule: LineRule) -> (r: (Vec<char>, bool))
    ensures
        (r.0@, r.1) == spec_cut_rule_lines(s@, views(lines@), rule),
{
    let ghost ls = views(lines@);
    let mut cur = s;
    let mut changed = false;
    let mut i: usize = 0;
    assert(ls.take(0) == Seq::<Seq<char>>::empty());
    while i < lines.len()
        invariant
            i <= lines.len(),
            ls == views(lines@),
            (cur@, changed) == spec_cut_rule_lines(s@, ls.take(i as int), rule),
        decreases lines.len() - i,
    {
        assert(ls.take(i + 1).drop_last() == ls.take(i as int));
        assert(ls.take(i + 1).last() == lines@[i as int]@);
        let t = trim_chars(&lines[i]);
        if rule_holds_exec(rule, &t) {
            match cut_line_with(&cur, &t) {
                Some(next) => {
                    cur = next;
                    changed = true;
                },
                None => {},
            }
        }
        i = i + 1;
    }
    assert(ls.take(lines.len() as int) == ls);
    (cur, changed)
}

/// The lines the rule picks, trimmed, each after `indent` and before a line
/// break, leaving out those `present` already holds.
pub open spec fn spec_collect_rule_lines(lines: Seq<Seq<char>>, rule: LineRule, indent: Seq<char>, present: Seq<char>) -> Seq<char>
    decreases lines.len(),
{
    if lines.len() == 0 {
        Seq::empty()
    } else {
        let prev = spec_collect_rule_lines(lines.drop_last(), rule, indent, present);
        let t = spec_trim(lines.last());
        if rule_holds(rule, t) && !spec_contains(present, t) {
            prev + indent + t + "\n"@
        } else {
            prev
        }
    }
}

pub fn collect_rule_lines(lines: &Vec<Vec<char>>, rule: LineRule, indent: &Vec<char>, present: &Vec<char>) -> (r: Vec<char>)
    ensures
        r@ == spec_collect_rule_lines(views(lines@), rule, indent@, present@),
{
    let ghost ls = views(lines@);
    let nl = to_chars("\n");
    let mut out: Vec<char> = Vec::new();
    let mut i: usize = 0;
    assert(ls.take(0) == Seq::<Seq<char>>::empty());
    while i < lines.len()
        invariant
            i <= lines.len(),
            ls == views(lines@),
            nl@ == "\n"@,
            out@ == spec_collect_rule_lines(ls.take(i as int), rule, indent@, present@),
        decreases lines.len() - i,
    {
        assert(ls.take(i + 1).drop_last() == ls.take(i as int));
        assert(ls.take(i + 1).last() == lines@[i as int]@);
        let t = trim_chars(&lines[i]);
        if rule_holds_exec(rule, &t) && !contains_text(present, &t) {
            extend(&mut out, indent);
            extend(&mut out, &t);
            extend(&mut out, &nl);
        }
        i = i + 1;
    }
    assert(ls.take(lines.len() as int) == ls);
    out
}

/// The lines of the text between `open` and the next `close` of `text`
/// (the tags themselves left out when `skip_open`), or none.
pub open spec fn spec_section_lines(text: Seq<char>, open: Seq<char>, close: Seq<char>, skip_open: bool) -> Seq<Seq<char>> {
    match spec_section(text, open, close) {
        None => Seq::empty(),
        Some((a, b)) => {
            let lo = if skip_open { a + open.len() } else { a };
            if 0 <= lo <= b <= text.len() {
                split_char(text.subrange(lo, b), '\n')
            } else {
                Seq::empty()
            }
        },
    }
}

pub fn section_lines(text: &Vec<char>, open: &Vec<char>, close: &Vec<char>, skip_open: bool) -> (r: Vec<Vec<char>>)
    ensures
        views(r@) == spec_section_lines(text@, open@, close@, skip_open),
{
    match section(text, open, close) {
        None => {
            proof {
                lemma_views_empty();
            }
            Vec::new()
        },
        Some((a, b)) => {
            let lo = if skip_open { a + open.len() } else { a };
            if lo <= b {
                let lines = split_on(&slice_range(text, lo, b), '\n');
                assert(views(lines@) =~= split_char(text@.subrange(lo as int, b as int), '\n'));
                lines
            } else {
                proof {
                    lemma_views_empty();
                }
                Vec::new()
            }
        },
    }
}

/// The four empty blocks a removal may leave behind, dropped.
pub open spec fn spec_drop_empty_blocks(s: Seq<char>) -> Seq<char> {
    let s1 = replace_all(s, "ext {\n}\n"@, Seq::empty());
    let s2 = replace_all(s1, "dependencyManagement {\n\timports {\n\t}\n}\n"@, Seq::empty());
    let s3 = replace_all(s2, "    <properties>\n    </properties>\n"@, Seq::empty());
    replace_all(
        s3,
        "    <dependencyManagement>\n        <dependencies>\n        </dependencies>\n    </dependencyManagement>\n"@,
        Seq::empty(),
    )
}

pub fn drop_empty_blocks(s: &Vec<char>) -> (r: Vec<char>)
    ensures
        r@ == spec_drop_empty_blocks(s@),
{
    let empty: Vec<char> = Vec::new();
    proof {
        reveal_strlit("ext {\n}\n");
        reveal_strlit("dependencyManagement {\n\timports {\n\t}\n}\n");
        reveal_strlit("    <properties>\n    </properties>\n");
        reveal_strlit(
            "    <dependencyManagement>\n        <dependencies>\n        </dependencies>\n    </dependencyManagement>\n",
        );
    }
    let s1 = replace_all_chars(s, &to_chars("ext {\n}\n"), &empty);
    let s2 = replace_all_chars(
        &s1,
        &to_chars("dependencyManagement {\n\timports {\n\t}\n}\n"),
        &empty,
    );
    let s3 = replace_all_chars(&s2, &to_chars("    <properties>\n    </properties>\n"), &empty);
    replace_all_chars(
        &s3,
        &to_chars(
            "    <dependencyManagement>\n        <dependencies>\n        </dependencies>\n    </dependencyManagement>\n",
        ),
        &empty,
    )
}

// ───────────────────────── removal ─────────────────────────

/// Artifacts every generated build declares, never removed or added.
pub open spec fn is_default_artifact(a: Seq<char>) -> bool {
    a == "spring-boot-starter"@ || a == "spring-boot-starter-test"@ || a
        == "junit-platform-launcher"@
}

pub fn default_artifact(a: &Vec<char>) -> (r: bool)
    ensures
        r == is_default_artifact(a@),
{
    is_text(a, "spring-boot-starter") || is_text(a, "spring-boot-starter-test") || is_text(
        a,
        "junit-platform-launcher",
    )
}

/// The artifact ids of the `<dependency>` blocks of a POM snippet, other
/// than the default ones.
pub open spec fn snippet_block_artifacts(blocks: Seq<Seq<char>>) -> Seq<Seq<char>>
    decreases blocks.len(),
{
    if blocks.len() == 0 {
        Seq::empty()
    } else {
        let prev = snippet_block_artifacts(blocks.drop_last());
        match spec_artifact_id_of(blocks.last()) {
            Some(a) => if !is_default_artifact(a) {
                prev.push(a)
            } else {
                prev
            },
            None => prev,
        }
    }
}

pub open spec fn spec_maven_snippet_artifacts(text: Seq<char>) -> Seq<Seq<char>> {
    snippet_block_artifacts(spec_blocks_from(text, "<dependency>"@, "</dependency>"@, 0))
}

pub fn maven_snippet_artifacts(text: &Vec<char>) -> (r: Vec<Vec<char>>)
    ensures
        views(r@) == spec_maven_snippet_artifacts(text@),
{
    let close = to_chars("</dependency>");
    proof {
        reveal_strlit("</dependency>");
    }
    let bs = blocks(text, &to_chars("<dependency>"), &close);
    let ghost b = views(bs@);
    let mut out: Vec<Vec<char>> = Vec::new();
    let mut i: usize = 0;
    proof {
        lemma_views_empty();
        assert(b.take(0) == Seq::<Seq<char>>::empty());
    }
    while i < bs.len()
        invariant
            i <= bs.len(),
            b == views(bs@),
            views(out@) == snippet_block_artifacts(b.take(i as int)),
        decreases bs.len() - i,
    {
        assert(b.take(i + 1).drop_last() == b.take(i as int));
        assert(b.take(i + 1).last() == bs@[i as int]@);
        match artifact_id_of(&bs[i]) {
            Some(a) => {
                if !default_artifact(&a) {
                    proof {
                        lemma_views_push(out@, a);
                    }
                    out.push(a);
                }
            },
            None => {},
        }
        i = i + 1;
    }
    assert(b.take(bs.len() as int) == b);
    out
}

/// The text of the first quotation of a line, closed by either quote.
pub open spec fn first_quotation(t: Seq<char>) -> Option<Seq<char>> {
    match spec_find_quote_from(t, 0) {
        None => None,
        Some(k) => match spec_find_quote_from(t, k + 1) {
            None => None,
            Some(e) => if 0 <= k < e <= t.len() {
                Some(t.subrange(k + 1, e))
            } else {
                None
            },
        },
    }
}

pub open spec fn transitive_dependency_line(t: Seq<char>) -> bool {
    spec_starts_with(t, "implementation"@) || spec_starts_with(t, "compileOnly"@)
        || spec_starts_with(t, "testImplementation"@) || spec_starts_with(t, "testRuntimeOnly"@)
}

/// The artifact a Gradle snippet line adds: the untrimmed second field of
/// its first quotation, when the line declares a dependency.
pub open spec fn transitive_line_artifact(line: Seq<char>) -> Option<Seq<char>> {
    let t = spec_trim(line);
    if transitive_dependency_line(t) {
        match first_quotation(t) {
            Some(q) => if has_char(q, ':') {
                let parts = split_char(q, ':');
                if parts.len() >= 2 {
                    Some(parts[1])
                } else {
                    None
                }
            } else {
                None
            },
            None => None,
        }
    } else {
        None
    }
}

pub open spec fn transitive_artifacts(lines: Seq<Seq<char>>) -> Seq<Seq<char>>
    decreases lines.len(),
{
    if lines.len() == 0 {
        Seq::empty()
    } else {
        let prev = transitive_artifacts(lines.drop_last());
        match transitive_line_artifact(lines.last()) {
            Some(a) => if !is_default_artifact(a) {
                prev.push(a)
            } else {
                prev
            },
            None => prev,
        }
    }
}

/// The non-default artifacts the `dependencies` block of a Gradle snippet
/// declares.
pub open spec fn spec_gradle_snippet_artifacts(text: Seq<char>) -> Seq<Seq<char>> {
    transitive_artifacts(spec_section_lines(text, "dependencies {"@, "}"@, false))
}

fn read_transitive_line_artifact(line: &Vec<char>) -> (r: Option<Vec<char>>)
    ensures
        match r {
            Some(a) => transitive_line_artifact(line@) == Some(a@),
            None => transitive_line_artifact(line@) is None,
        },
{
    let t = trim_chars(line);
    if !(has_prefix(&t, &to_chars("implementation")) || has_prefix(&t, &to_chars("compileOnly"))
        || has_prefix(&t, &to_chars("testImplementation")) || has_prefix(
        &t,
        &to_chars("testRuntimeOnly"),
    )) {
        return None;
    }
    proof {
        lemma_find_quote_from_bounds(t@, 0);
    }
    let k = match find_quote_from(&t, 0) {
        None => return None,
        Some(v) => v,
    };
    assert(k < t.len());
    proof {
        lemma_find_quote_from_bounds(t@, k + 1);
    }
    let e = match find_quote_from(&t, k + 1) {
        None => return None,
        Some(v) => v,
    };
    let q = slice_range(&t, k + 1, e);
    if index_of_char_from(&q, ':', 0).is_none() {
        return None;
    }
    let parts = split_on(&q, ':');
    if parts.len() >= 2 {
        Some(slice_range(&parts[1], 0, parts[1].len()))
    } else {
        None
    }
}

pub fn gradle_snippet_artifacts(text: &Vec<char>) -> (r: Vec<Vec<char>>)
    ensures
        views(r@) == spec_gradle_snippet_artifacts(text@),
{
    let lines = section_lines(text, &to_chars("dependencies {"), &to_chars("}"), false);
    let ghost ls = views(lines@);
    let mut out: Vec<Vec<char>> = Vec::new();
    let mut i: usize = 0;
    proof {
        lemma_views_empty();
        assert(ls.take(0) == Seq::<Seq<char>>::empty());
    }
    while i < lines.len()
        invariant
            i <= lines.len(),
            ls == views(lines@),
            views(out@) == transitive_artifacts(ls.take(i as int)),
        decreases lines.len() - i,
    {
        assert(ls.take(i + 1).drop_last() == ls.take(i as int));
        assert(ls.take(i + 1).last() == lines@[i as int]@);
        match read_transitive_line_artifact(&lines[i]) {
            Some(a) => {
                if !default_artifact(&a) {
                    proof {
                        lemma_views_push(out@, a);
                    }
                    out.push(a);
                }
            },
            None => {},
        }
        i = i + 1;
    }
    assert(ls.take(lines.len() as int) == ls);
    out
}

/// The artifact ids of the build file, each once in order of first
/// appearance, that a removal attributes to one of `to_remove`.
pub open spec fn removal_targets(ids: Seq<Seq<char>>, keys: Seq<Seq<char>>, to_remove: Seq<Seq<char>>) -> Seq<Seq<char>>
    decreases ids.len(),
{
    if ids.len() == 0 {
        Seq::empty()
    } else {
        let prev = removal_targets(ids.drop_last(), keys, to_remove);
        let a = ids.last();
        match spec_removal_key(a, keys) {
            Some(k) => if to_remove.contains(k) && !prev.contains(a) {
                prev.push(a)
            } else {
                prev
            },
            None => prev,
        }
    }
}

pub fn collect_removal_targets(ids: &Vec<Vec<char>>, keys: &Vec<Vec<char>>, to_remove: &Vec<Vec<char>>) -> (r: Vec<Vec<char>>)
    ensures
        views(r@) == removal_targets(views(ids@), views(keys@), views(to_remove@)),
{
    let ghost is = views(ids@);
    let mut out: Vec<Vec<char>> = Vec::new();
    let mut i: usize = 0;
    proof {
        lemma_views_empty();
        assert(is.take(0) == Seq::<Seq<char>>::empty());
    }
    while i < ids.len()
        invariant
            i <= ids.len(),
            is == views(ids@),
            views(out@) == removal_targets(is.take(i as int), views(keys@), views(to_remove@)),
        decreases ids.len() - i,
    {
        assert(is.take(i + 1).drop_last() == is.take(i as int));
        assert(is.take(i + 1).last() == ids@[i as int]@);
        match removal_key(&ids[i], keys) {
            Some(k) => {
                if list_contains(to_remove, &k) && !list_contains(&out, &ids[i]) {
                    let a = slice_range(&ids[i], 0, ids[i].len());
                    assert(a@ == ids@[i as int]@);
                    proof {
                        lemma_views_push(out@, a);
                    }
                    out.push(a);
                }
            },
            None => {},
        }
        i = i + 1;
    }
    assert(is.take(ids.len() as int) == is);
    out
}

/// The first index at or after `from` where any of `pats` occurs.
pub open spec fn spec_earliest(s: Seq<char>, pats: Seq<Seq<char>>, from: int) -> Option<int>
    decreases pats.len(),
{
    if pats.len() == 0 {
        None
    } else {
        let prev = spec_earliest(s, pats.drop_last(), from);
        match spec_find_from(s, pats.last(), from) {
            None => prev,
            Some(i) => match prev {
                None => Some(i),
                Some(p) => if i < p {
                    Some(i)
                } else {
                    Some(p)
                },
            },
        }
    }
}

pub proof fn lemma_earliest_bounds(s: Seq<char>, pats: Seq<Seq<char>>, from: int)
    requires
        0 <= from,
    ensures
        spec_earliest(s, pats, from) matches Some(i) ==> from <= i <= s.len(),
    decreases pats.len(),
{
    if pats.len() > 0 {
        lemma_earliest_bounds(s, pats.drop_last(), from);
        lemma_find_from_bounds(s, pats.last(), from);
    }
}

pub fn earliest(s: &Vec<char>, pats: &Vec<Vec<char>>, from: usize) -> (r: Option<usize>)
    ensures
        match r {
            Some(i) => spec_earliest(s@, views(pats@), from as int) == Some(i as int),
            None => spec_earliest(s@, views(pats@), from as int) is None,
        },
{
    let ghost ps = views(pats@);
    let mut best: Option<usize> = None;
    let mut i: usize = 0;
    assert(ps.take(0) == Seq::<Seq<char>>::empty());
    while i < pats.len()
        invariant
            i <= pats.len(),
            ps == views(pats@),
            spec_earliest(s@, ps.take(i as int), from as int) == match best {
                Some(b) => Some(b as int),
                None => None::<int>,
            },
        decreases pats.len() - i,
    {
        assert(ps.take(i + 1).drop_last() == ps.take(i as int));
        assert(ps.take(i + 1).last() == pats@[i as int]@);
        match index_of_from(s, &pats[i], from) {
            None => {},
            Some(found) => {
                match best {
                    None => {
                        best = Some(found);
                    },
                    Some(b) => {
                        if found < b {
                            best = Some(found);
                        }
                    },
                }
            },
        }
        i = i + 1;
    }
    assert(ps.take(pats.len() as int) == ps);
    best
}

/// Where the unit around index `idx` starts: its `<dependency>` for a POM,
/// its line break for a Gradle script.
pub open spec fn unit_start(s: Seq<char>, idx: int, maven: bool) -> Option<int> {
    if maven {
        spec_rfind_before(s, "<dependency>"@, idx)
    } else {
        spec_rfind_before(s, "\n"@, idx)
    }
}

/// `s` with the unit around index `idx` cut out.
pub open spec fn unit_cut(s: Seq<char>, idx: int, maven: bool) -> Option<Seq<char>> {
    if maven {
        spec_cut_block_at(s, idx, "<dependency>"@, "</dependency>"@)
    } else {
        spec_cut_line_at(s, idx)
    }
}

/// Repeatedly cuts out the unit (dependency block or line) around the
/// earliest occurrence of any of `pats` at or after `from`, resuming at the
/// start of what was cut, or one past an occurrence that could not be cut.
/// Also says whether anything was cut.
pub open spec fn spec_cut_matches(s: Seq<char>, pats: Seq<Seq<char>>, maven: bool, from: int) -> (Seq<char>, bool)
    decreases s.len(), s.len() - from,
{
    if from < 0 || from >= s.len() {
        (s, false)
    } else {
        match spec_earliest(s, pats, from) {
            None => (s, false),
            Some(idx) => if from <= idx <= s.len() {
                match (unit_cut(s, idx, maven), unit_start(s, idx, maven)) {
                    (Some(s2), Some(st)) => if s2.len() < s.len() && 0 <= st {
                        (spec_cut_matches(s2, pats, maven, st).0, true)
                    } else {
                        (s, false)
                    },
                    _ => if idx + 1 <= s.len() {
                        spec_cut_matches(s, pats, maven, idx + 1)
                    } else {
                        (s, false)
                    },
                }
            } else {
                (s, false)
            },
        }
    }
}

pub proof fn lemma_unit_cut_shrinks(s: Seq<char>, idx: int, maven: bool)
    requires
        0 <= idx <= s.len(),
    ensures
        unit_cut(s, idx, maven) matches Some(s2) ==> unit_start(s, idx, maven) matches Some(st)
            && 0 <= st && s2.len() < s.len() && st <= s2.len(),
{
    reveal_strlit("<dependency>");
    reveal_strlit("</dependency>");
    reveal_strlit("\n");
    if maven {
        lemma_rfind_before_bounds(s, "<dependency>"@, idx);
        lemma_find_from_bounds(s, "</dependency>"@, idx);
    } else {
        lemma_rfind_before_bounds(s, "\n"@, idx);
        lemma_find_from_bounds(s, "\n"@, idx);
    }
}

fn unit_cut_exec(s: &Vec<char>, idx: usize, maven: bool) -> (r: Option<(Vec<char>, usize)>)
    requires
        idx <= s.len(),
    ensures
        match r {
            Some((s2, st)) => unit_cut(s@, idx as int, maven) == Some(s2@) && unit_start(
                s@,
                idx as int,
                maven,
            ) == Some(st as int),
            None => unit_cut(s@, idx as int, maven) is None,
        },
{
    proof {
        lemma_unit_cut_shrinks(s@, idx as int, maven);
    }
    if maven {
        let open = to_chars("<dependency>");
        match cut_block_at(s, idx, &open, &to_chars("</dependency>")) {
            None => None,
            Some(s2) => match last_index_before(s, &open, idx) {
                Some(st) => Some((s2, st)),
                None => None,
            },
        }
    } else {
        match cut_line_at(s, idx) {
            None => None,
            Some(s2) => match last_index_before(s, &to_chars("\n"), idx) {
                Some(st) => Some((s2, st)),
                None => None,
            },
        }
    }
}

pub fn cut_matches(s: &Vec<char>, pats: &Vec<Vec<char>>, maven: bool) -> (r: (Vec<char>, bool))
    ensures
        (r.0@, r.1) == spec_cut_matches(s@, views(pats@), maven, 0),
{
    let ghost s0 = s@;
    let ghost ps = views(pats@);
    let mut cur = slice_range(s, 0, s.len());
    assert(s@.subrange(0, s@.len() as int) == s@);
    let mut from: usize = 0;
    let mut changed = false;
    loop
        invariant
            ps == views(pats@),
            s0 == s@,
            spec_cut_matches(s0, ps, maven, 0).0 == spec_cut_matches(cur@, ps, maven, from as int).0,
            spec_cut_matches(s0, ps, maven, 0).1 == (changed || spec_cut_matches(
                cur@,
                ps,
                maven,
                from as int,
            ).1),
        decreases cur@.len(), cur@.len() - from,
    {
        if from >= cur.len() {
            return (cur, changed);
        }
        proof {
            lemma_earliest_bounds(cur@, ps, from as int);
        }
        let idx = match earliest(&cur, pats, from) {
            None => return (cur, changed),
            Some(v) => v,
        };
        proof {
            lemma_unit_cut_shrinks(cur@, idx as int, maven);
        }
        match unit_cut_exec(&cur, idx, maven) {
            Some((s2, st)) => {
                cur = s2;
                from = st;
                changed = true;
            },
            None => {
                if idx >= cur.len() {
                    return (cur, changed);
                }
                from = idx + 1;
            },
        }
    }
}

pub open spec fn wrap_artifact(a: Seq<char>) -> Seq<char> {
    "<artifactId>"@ + a + "</artifactId>"@
}

/// The ways artifact `a` stands as a whole coordinate field in a Gradle
/// declaration: a quotation of its own (`'a'`), or a field after a `:` that
/// ends at the closing quote or at the next `:` (`'g:a'`, `"g:a:1.0"`).
pub open spec fn gradle_field_forms(a: Seq<char>) -> Seq<Seq<char>> {
    seq![
        "'"@ + a + "'"@,
        "\""@ + a + "\""@,
        ":"@ + a + "'"@,
        ":"@ + a + "\""@,
        ":"@ + a + ":"@,
    ]
}

/// The field forms of each target, target after target.
pub open spec fn gradle_field_patterns(targets: Seq<Seq<char>>) -> Seq<Seq<char>>
    decreases targets.len(),
{
    if targets.len() == 0 {
        Seq::empty()
    } else {
        gradle_field_patterns(targets.drop_last()) + gradle_field_forms(targets.last())
    }
}

/// What a removal searches the build file for: the `<artifactId>` element
/// of each target in a POM; in a Gradle script, each target as a whole
/// coordinate field, so that removing `web` leaves `webflux` alone.
pub open spec fn removal_patterns(targets: Seq<Seq<char>>, maven: bool) -> Seq<Seq<char>> {
    if maven {
        targets.map_values(|a: Seq<char>| wrap_artifact(a))
    } else {
        gradle_field_patterns(targets)
    }
}

/// The part of a removal the snippet drives: the snippet's properties (POM)
/// or `ext` settings and BOM imports (Gradle) cut from the file, and the
/// snippet's own artifacts added to the targets.
pub open spec fn spec_snippet_removal(content: Seq<char>, maven: bool, snippet: Option<Seq<char>>) -> (Seq<char>, bool, Seq<Seq<char>>) {
    match snippet {
        None => (content, false, Seq::empty()),
        Some(text) => if maven {
            let r = spec_cut_rule_lines(
                content,
                spec_section_lines(text, "<properties>"@, "</properties>"@, true),
                LineRule::Property,
            );
            (r.0, r.1, spec_maven_snippet_artifacts(text))
        } else {
            let r1 = spec_cut_rule_lines(
                content,
                spec_section_lines(text, "ext {"@, "}"@, false),
                LineRule::ExtSet,
            );
            let r2 = spec_cut_rule_lines(r1.0, split_char(text, '\n'), LineRule::MavenBom);
            (r2.0, r1.1 || r2.1, spec_gradle_snippet_artifacts(text))
        },
    }
}

/// What removing the dependencies `to_remove` does to a build file, given
/// the snippet generated for them (if it could be fetched): the new text
/// and whether it changed.
pub open spec fn spec_apply_removal(
    content: Seq<char>,
    to_remove: Seq<Seq<char>>,
    keys: Seq<Seq<char>>,
    maven: bool,
    snippet: Option<Seq<char>>,
) -> (Seq<char>, bool) {
    let own = removal_targets(spec_build_artifact_ids(content), keys, to_remove);
    let r = spec_snippet_removal(content, maven, snippet);
    let cleaned = spec_drop_empty_blocks(r.0);
    let cut = spec_cut_matches(cleaned, removal_patterns(own + r.2, maven), maven, 0);
    (cut.0, r.1 || cut.1)
}

pub fn snippet_removal(content: &Vec<char>, maven: bool, snippet: Option<&Vec<char>>) -> (r: (Vec<char>, bool, Vec<Vec<char>>))
    ensures
        (r.0@, r.1, views(r.2@)) == spec_snippet_removal(content@, maven, match snippet {
            Some(t) => Some(t@),
            None => None,
        }),
{
    match snippet {
        None => {
            proof {
                lemma_views_empty();
            }
            (slice_range(content, 0, content.len()), false, Vec::new())
        },
        Some(text) => {
            if maven {
                let lines = section_lines(
                    text,
                    &to_chars("<properties>"),
                    &to_chars("</properties>"),
                    true,
                );
                let r = cut_rule_lines(slice_range(content, 0, content.len()), &lines, LineRule::Property);
                assert(content@.subrange(0, content@.len() as int) == content@);
                (r.0, r.1, maven_snippet_artifacts(text))
            } else {
                let ext = section_lines(text, &to_chars("ext {"), &to_chars("}"), false);
                let r1 = cut_rule_lines(slice_range(content, 0, content.len()), &ext, LineRule::ExtSet);
                assert(content@.subrange(0, content@.len() as int) == content@);
                let all = split_on(text, '\n');
                assert(views(all@) =~= split_char(text@, '\n'));
                let r2 = cut_rule_lines(r1.0, &all, LineRule::MavenBom);
                (r2.0, r1.1 || r2.1, gradle_snippet_artifacts(text))
            }
        },
    }
}

fn enclosed(left: &str, a: &Vec<char>, right: &str) -> (r: Vec<char>)
    ensures
        r@ == left@ + a@ + right@,
{
    let mut p = to_chars(left);
    extend(&mut p, a);
    extend(&mut p, &to_chars(right));
    p
}

fn build_removal_patterns(targets: &Vec<Vec<char>>, maven: bool) -> (r: Vec<Vec<char>>)
    ensures
        views(r@) == removal_patterns(views(targets@), maven),
{
    let ghost ts = views(targets@);
    let mut out: Vec<Vec<char>> = Vec::new();
    if maven {
        let mut i: usize = 0;
        while i < targets.len()
            invariant
                i <= targets.len(),
                out@.len() == i,
                forall|k: int| 0 <= k < i ==> #[trigger] out@[k]@ == wrap_artifact(targets@[k]@),
            decreases targets.len() - i,
        {
            out.push(enclosed("<artifactId>", &targets[i], "</artifactId>"));
            i = i + 1;
        }
        assert(views(out@) =~= removal_patterns(ts, maven));
    } else {
        let mut i: usize = 0;
        assert(ts.take(0) =~= Seq::<Seq<char>>::empty());
        while i < targets.len()
            invariant
                i <= targets.len(),
                ts == views(targets@),
                views(out@) == gradle_field_patterns(ts.take(i as int)),
            decreases targets.len() - i,
        {
            let a = &targets[i];
            let ghost before = views(out@);
            let p0 = enclosed("'", a, "'");
            let p1 = enclosed("\"", a, "\"");
            let p2 = enclosed(":", a, "'");
            let p3 = enclosed(":", a, "\"");
            let p4 = enclosed(":", a, ":");
            proof {
                lemma_views_push(out@, p0);
            }
            out.push(p0);
            proof {
                lemma_views_push(out@, p1);
            }
            out.push(p1);
            proof {
                lemma_views_push(out@, p2);
            }
            out.push(p2);
            proof {
                lemma_views_push(out@, p3);
            }
            out.push(p3);
            proof {
                lemma_views_push(out@, p4);
            }
            out.push(p4);
            assert(ts.take(i + 1).drop_last() =~= ts.take(i as int));
            assert(ts.take(i + 1).last() == a@);
            assert(views(out@) =~= before + gradle_field_forms(a@));
            i = i + 1;
        }
        assert(ts.take(targets.len() as int) =~= ts);
    }
    out
}

pub fn apply_removal(
    content: &Vec<char>,
    to_remove: &Vec<Vec<char>>,
    keys: &Vec<Vec<char>>,
    maven: bool,
    snippet: Option<&Vec<char>>,
) -> (r: (Vec<char>, bool))
    ensures
        (r.0@, r.1) == spec_apply_removal(content@, views(to_remove@), views(keys@), maven, match snippet {
            Some(t) => Some(t@),
            None => None,
        }),
{
    let ids = build_artifact_ids(content);
    let own = collect_removal_targets(&ids, keys, to_remove);
    let (after_snippet, changed, extra) = snippet_removal(content, maven, snippet);
    let cleaned = drop_empty_blocks(&after_snippet);
    let mut targets = own;
    let ghost own_v = views(targets@);
    let mut i: usize = 0;
    while i < extra.len()
        invariant
            i <= extra.len(),
            views(targets@) == own_v + views(extra@).take(i as int),
        decreases extra.len() - i,
    {
        proof {
            lemma_views_push(targets@, extra@[i as int]);
            assert(views(extra@).take(i + 1) == views(extra@).take(i as int).push(extra@[i as int]@));
        }
        targets.push(slice_range(&extra[i], 0, extra[i].len()));
        assert(extra@[i as int]@.subrange(0, extra@[i as int]@.len() as int) == extra@[i as int]@);
        i = i + 1;
    }
    assert(views(extra@).take(extra.len() as int) == views(extra@));
    let pats = build_removal_patterns(&targets, maven);
    let (result, cut_changed) = cut_matches(&cleaned, &pats, maven);
    (result, changed || cut_changed)
}

// ───────────────────────── addition ─────────────────────────

/// What an addition reports it added.
#[derive(PartialEq, Eq, Structural, Clone, Copy, Debug)]
pub enum NoteKind {
    Dependency,
    Plugin,
    ConfigBlock,
}

/// One thing an addition put into the build file, for the user to see.
#[derive(Clone, Debug)]
pub struct ChangeNote {
    pub kind: NoteKind,
    pub text: String,
}

pub open spec fn note_views(notes: Seq<ChangeNote>) -> Seq<(NoteKind, Seq<char>)> {
    notes.map_values(|n: ChangeNote| (n.kind, n.text@))
}

proof fn lemma_note_views_push(notes: Seq<ChangeNote>, n: ChangeNote)
    ensures
        note_views(notes.push(n)) == note_views(notes).push((n.kind, n.text@)),
{
    assert(note_views(notes.push(n)) =~= note_views(notes).push((n.kind, n.text@)));
}

/// Dependencies every generated build has; the test ones count as such only
/// when the `test` dependency is not among those added.
pub open spec fn skipped_addition(a: Seq<char>, adding_test: bool) -> bool {
    a == "spring-boot-starter"@ || (!adding_test && (a == "spring-boot-starter-test"@ || a
        == "junit-platform-launcher"@))
}

fn is_skipped_addition(a: &Vec<char>, adding_test: bool) -> (r: bool)
    ensures
        r == skipped_addition(a@, adding_test),
{
    is_text(a, "spring-boot-starter") || (!adding_test && (is_text(a, "spring-boot-starter-test")
        || is_text(a, "junit-platform-launcher")))
}

/// The `<dependency>` blocks of the first `<dependencies>` section of a POM
/// snippet.
pub open spec fn snippet_dependency_blocks(text: Seq<char>) -> Seq<Seq<char>> {
    match (spec_find(text, "<dependencies>"@), spec_find(text, "</dependencies>"@)) {
        (Some(a), Some(b)) => if a <= b {
            spec_blocks_from(text.subrange(a, b), "<dependency>"@, "</dependency>"@, 0)
        } else {
            Seq::empty()
        },
        _ => Seq::empty(),
    }
}

/// Adding from a POM snippet slices it from its first `<dependencies>` to
/// its first `</dependencies>`; that slice exists only when the former does
/// not come after the latter.
pub open spec fn addition_defined(text: Seq<char>) -> bool {
    match (spec_find(text, "<dependencies>"@), spec_find(text, "</dependencies>"@)) {
        (Some(a), Some(b)) => a <= b,
        _ => true,
    }
}

/// The dependency blocks to add from a POM snippet, each with a line break,
/// and the artifacts added.
pub open spec fn maven_additions(blocks: Seq<Seq<char>>, adding_test: bool) -> (Seq<char>, Seq<(NoteKind, Seq<char>)>)
    decreases blocks.len(),
{
    if blocks.len() == 0 {
        (Seq::empty(), Seq::empty())
    } else {
        let prev = maven_additions(blocks.drop_last(), adding_test);
        let b = blocks.last();
        match spec_artifact_id_of(b) {
            Some(a) => if !skipped_addition(a, adding_test) {
                (prev.0 + b + "\n"@, prev.1.push((NoteKind::Dependency, a)))
            } else {
                prev
            },
            None => prev,
        }
    }
}

pub open spec fn last_or_empty(ids: Seq<Seq<char>>) -> Seq<char> {
    if ids.len() == 0 {
        Seq::empty()
    } else {
        ids.last()
    }
}

/// The artifact a dependency line of a Gradle snippet adds: the last id its
/// quotations name.
pub open spec fn gradle_line_addition(t: Seq<char>) -> Seq<char> {
    if spec_gradle_dependency_line(t) {
        last_or_empty(ids_of_segments(quoted_segments_from(t, 0)))
    } else {
        Seq::empty()
    }
}

/// The dependency lines to add from a Gradle snippet, each indented by a
/// tab, and the artifacts added.
pub open spec fn gradle_additions(lines: Seq<Seq<char>>, adding_test: bool) -> (Seq<char>, Seq<(NoteKind, Seq<char>)>)
    decreases lines.len(),
{
    if lines.len() == 0 {
        (Seq::empty(), Seq::empty())
    } else {
        let prev = gradle_additions(lines.drop_last(), adding_test);
        let t = spec_trim(lines.last());
        let a = gradle_line_addition(t);
        if a.len() > 0 && !skipped_addition(a, adding_test) {
            (prev.0 + "\t"@ + t + "\n"@, prev.1.push((NoteKind::Dependency, a)))
        } else {
            prev
        }
    }
}

pub open spec fn spec_dependency_additions(text: Seq<char>, maven: bool, adding_test: bool) -> (Seq<char>, Seq<(NoteKind, Seq<char>)>) {
    if maven {
        maven_additions(snippet_dependency_blocks(text), adding_test)
    } else {
        gradle_additions(spec_section_lines(text, "dependencies {"@, "}"@, false), adding_test)
    }
}

fn read_dependency_blocks(text: &Vec<char>) -> (r: Vec<Vec<char>>)
    ensures
        views(r@) == snippet_dependency_blocks(text@),
{
    proof {
        lemma_find_from_bounds(text@, "<dependencies>"@, 0);
        lemma_find_from_bounds(text@, "</dependencies>"@, 0);
        reveal_strlit("</dependency>");
    }
    match (index_of(text, &to_chars("<dependencies>")), index_of(text, &to_chars("</dependencies>"))) {
        (Some(a), Some(b)) => if a <= b {
            assert(b <= text.len());
            blocks(&slice_range(text, a, b), &to_chars("<dependency>"), &to_chars("</dependency>"))
        } else {
            proof {
                lemma_views_empty();
            }
            Vec::new()
        },
        _ => {
            proof {
                lemma_views_empty();
            }
            Vec::new()
        },
    }
}

fn last_id_of_line(t: &Vec<char>) -> (r: Vec<char>)
    ensures
        r@ == gradle_line_addition(t@),
{
    if !gradle_dependency_line(t) {
        return Vec::new();
    }
    let mut ids: Vec<Vec<char>> = Vec::new();
    proof {
        lemma_views_empty();
    }
    quoted_ids(t, &mut ids);
    assert(Seq::<Seq<char>>::empty() + ids_of_segments(quoted_segments_from(t@, 0))
        == ids_of_segments(quoted_segments_from(t@, 0)));
    if ids.len() == 0 {
        Vec::new()
    } else {
        let last = &ids[ids.len() - 1];
        slice_range(last, 0, last.len())
    }
}

pub fn dependency_additions(text: &Vec<char>, maven: bool, adding_test: bool) -> (r: (Vec<char>, Vec<ChangeNote>))
    ensures
        (r.0@, note_views(r.1@)) == spec_dependency_additions(text@, maven, adding_test),
{
    let nl = to_chars("\n");
    let tab = to_chars("\t");
    let mut out: Vec<char> = Vec::new();
    let mut notes: Vec<ChangeNote> = Vec::new();
    assert(note_views(notes@) =~= Seq::<(NoteKind, Seq<char>)>::empty());
    if maven {
        let bs = read_dependency_blocks(text);
        let ghost b = views(bs@);
        let mut i: usize = 0;
        assert(b.take(0) == Seq::<Seq<char>>::empty());
        while i < bs.len()
            invariant
                i <= bs.len(),
                b == views(bs@),
                nl@ == "\n"@,
                (out@, note_views(notes@)) == maven_additions(b.take(i as int), adding_test),
            decreases bs.len() - i,
        {
            assert(b.take(i + 1).drop_last() == b.take(i as int));
            assert(b.take(i + 1).last() == bs@[i as int]@);
            match artifact_id_of(&bs[i]) {
                Some(a) => {
                    if !is_skipped_addition(&a, adding_test) {
                        extend(&mut out, &bs[i]);
                        extend(&mut out, &nl);
                        let n = ChangeNote { kind: NoteKind::Dependency, text: from_chars(&a) };
                        proof {
                            lemma_note_views_push(notes@, n);
                        }
                        notes.push(n);
                    }
                },
                None => {},
            }
            i = i + 1;
        }
        assert(b.take(bs.len() as int) == b);
    } else {
        let lines = section_lines(text, &to_chars("dependencies {"), &to_chars("}"), false);
        let ghost ls = views(lines@);
        let mut i: usize = 0;
        assert(ls.take(0) == Seq::<Seq<char>>::empty());
        while i < lines.len()
            invariant
                i <= lines.len(),
                ls == views(lines@),
                nl@ == "\n"@,
                tab@ == "\t"@,
                (out@, note_views(notes@)) == gradle_additions(ls.take(i as int), adding_test),
            decreases lines.len() - i,
        {
            assert(ls.take(i + 1).drop_last() == ls.take(i as int));
            assert(ls.take(i + 1).last() == lines@[i as int]@);
            let t = trim_chars(&lines[i]);
            let a = last_id_of_line(&t);
            if a.len() > 0 && !is_skipped_addition(&a, adding_test) {
                extend(&mut out, &tab);
                extend(&mut out, &t);
                extend(&mut out, &nl);
                let n = ChangeNote { kind: NoteKind::Dependency, text: from_chars(&a) };
                proof {
                    lemma_note_views_push(notes@, n);
                }
                notes.push(n);
            }
            i = i + 1;
        }
        assert(ls.take(lines.len() as int) == ls);
    }
    (out, notes)
}

/// Puts dependency text into a build file: before the last
/// `</dependencies>` of a POM (with a line break), or before the `}` that
/// closes the last `dependencies {` of a Gradle script.
pub open spec fn spec_insert_dependencies(nc: Seq<char>, lines: Seq<char>, maven: bool) -> Option<Seq<char>> {
    if maven {
        match spec_rfind(nc, "</dependencies>"@) {
            Some(p) => Some(spec_insert_at(nc, p, lines + "\n"@)),
            None => None,
        }
    } else {
        match spec_rfind(nc, "dependencies {"@) {
            Some(p) => match spec_find_from(nc, "}"@, p) {
                Some(b) => Some(spec_insert_at(nc, b, lines)),
                None => None,
            },
            None => None,
        }
    }
}

pub fn insert_dependencies(nc: &Vec<char>, lines: &Vec<char>, maven: bool) -> (r: Option<Vec<char>>)
    ensures
        match r {
            Some(v) => spec_insert_dependencies(nc@, lines@, maven) == Some(v@),
            None => spec_insert_dependencies(nc@, lines@, maven) is None,
        },
{
    if maven {
        let close = to_chars("</dependencies>");
        proof {
            lemma_rfind_before_bounds(nc@, close@, nc@.len() as int);
        }
        match last_index_of(nc, &close) {
            Some(p) => {
                let mut t = slice_range(lines, 0, lines.len());
                extend(&mut t, &to_chars("\n"));
                assert(lines@.subrange(0, lines@.len() as int) == lines@);
                Some(insert_at(nc, p, &t))
            },
            None => None,
        }
    } else {
        let open = to_chars("dependencies {");
        proof {
            lemma_rfind_before_bounds(nc@, open@, nc@.len() as int);
        }
        match last_index_of(nc, &open) {
            Some(p) => {
                let brace = to_chars("}");
                proof {
                    lemma_find_from_bounds(nc@, brace@, p as int);
                }
                match index_of_from(nc, &brace, p) {
                    Some(b) => Some(insert_at(nc, b, lines)),
                    None => None,
                }
            },
            None => None,
        }
    }
}

/// The snippet's properties the POM lacks, indented for a `<properties>`
/// section.
pub open spec fn spec_properties_to_add(text: Seq<char>, nc: Seq<char>) -> Seq<char> {
    spec_collect_rule_lines(
        spec_section_lines(text, "<properties>"@, "</properties>"@, true),
        LineRule::Property,
        "        "@,
        nc,
    )
}

/// Puts properties before the POM's `</properties>`, or in a new
/// `<properties>` section before its first `<dependencies>`.
pub open spec fn spec_insert_properties(nc: Seq<char>, add: Seq<char>) -> Option<Seq<char>> {
    if add.len() == 0 {
        None
    } else {
        match spec_find(nc, "</properties>"@) {
            Some(p) => Some(spec_insert_at(nc, p, add)),
            None => match spec_find(nc, "<dependencies>"@) {
                Some(d) => Some(
                    spec_insert_at(nc, d, "    <properties>\n"@ + add + "    </properties>\n\n"@),
                ),
                None => None,
            },
        }
    }
}

pub fn properties_to_add(text: &Vec<char>, nc: &Vec<char>) -> (r: Vec<char>)
    ensures
        r@ == spec_properties_to_add(text@, nc@),
{
    let lines = section_lines(text, &to_chars("<properties>"), &to_chars("</properties>"), true);
    collect_rule_lines(&lines, LineRule::Property, &to_chars("        "), nc)
}

pub fn insert_properties(nc: &Vec<char>, add: &Vec<char>) -> (r: Option<Vec<char>>)
    ensures
        match r {
            Some(v) => spec_insert_properties(nc@, add@) == Some(v@),
            None => spec_insert_properties(nc@, add@) is None,
        },
{
    if add.len() == 0 {
        return None;
    }
    proof {
        lemma_find_from_bounds(nc@, "</properties>"@, 0);
        lemma_find_from_bounds(nc@, "<dependencies>"@, 0);
    }
    match index_of(nc, &to_chars("</properties>")) {
        Some(p) => Some(insert_at(nc, p, add)),
        None => match index_of(nc, &to_chars("<dependencies>")) {
            Some(d) => {
                let mut t = to_chars("    <properties>\n");
                extend(&mut t, add);
                extend(&mut t, &to_chars("    </properties>\n\n"));
                Some(insert_at(nc, d, &t))
            },
            None => None,
        },
    }
}

/// The `<dependency>` blocks inside the `<dependencies>` of the
/// `<dependencyManagement>` section of a POM snippet.
pub open spec fn managed_blocks(text: Seq<char>) -> Seq<Seq<char>> {
    match spec_section(text, "<dependencyManagement>"@, "</dependencyManagement>"@) {
        None => Seq::empty(),
        Some((a, b)) => if 0 <= a <= b + "</dependencyManagement>"@.len() <= text.len() {
            let dm = text.subrange(a, b + "</dependencyManagement>"@.len());
            match spec_section(dm, "<dependencies>"@, "</dependencies>"@) {
                None => Seq::empty(),
                Some((c, d)) => if 0 <= c + "<dependencies>"@.len() <= d <= dm.len() {
                    spec_blocks_from(
                        dm.subrange(c + "<dependencies>"@.len(), d),
                        "<dependency>"@,
                        "</dependency>"@,
                        0,
                    )
                } else {
                    Seq::empty()
                },
            }
        } else {
            Seq::empty()
        },
    }
}

/// The managed dependencies whose artifact the POM does not mention yet,
/// re-indented for its `<dependencyManagement>`.
pub open spec fn bom_entries(blocks: Seq<Seq<char>>, nc: Seq<char>) -> Seq<char>
    decreases blocks.len(),
{
    if blocks.len() == 0 {
        Seq::empty()
    } else {
        let prev = bom_entries(blocks.drop_last(), nc);
        let b = blocks.last();
        let found = match spec_artifact_id_of(b) {
            Some(a) => spec_contains(nc, a),
            None => false,
        };
        if !found {
            prev + "            "@ + replace_all(spec_trim(b), "\n"@, "\n            "@) + "\n"@
        } else {
            prev
        }
    }
}

pub open spec fn dm_open() -> Seq<char> {
    "    <dependencyManagement>\n        <dependencies>\n"@
}

pub open spec fn dm_close() -> Seq<char> {
    "        </dependencies>\n    </dependencyManagement>\n"@
}

/// Puts managed dependencies into the POM's `<dependencyManagement>`, or a
/// new such section before `<build>`, or else after the first
/// `</dependencies>`.
pub open spec fn spec_insert_bom(nc: Seq<char>, bom: Seq<char>) -> Option<Seq<char>> {
    if bom.len() == 0 {
        None
    } else {
        match spec_find(nc, "<dependencyManagement>"@) {
            Some(t) => match spec_find_from(nc, "</dependencies>"@, t) {
                Some(p) => Some(spec_insert_at(nc, p, bom)),
                None => None,
            },
            None => match spec_find(nc, "<build>"@) {
                Some(b) => Some(spec_insert_at(nc, b, dm_open() + bom + dm_close() + "\n"@)),
                None => match spec_find(nc, "</dependencies>"@) {
                    Some(d) => Some(
                        spec_insert_at(
                            nc,
                            d + "</dependencies>"@.len(),
                            "\n"@ + dm_open() + bom + dm_close(),
                        ),
                    ),
                    None => None,
                },
            },
        }
    }
}

fn managed_blocks_exec(text: &Vec<char>) -> (r: Vec<Vec<char>>)
    ensures
        views(r@) == managed_blocks(text@),
{
    proof {
        lemma_views_empty();
        reveal_strlit("</dependency>");
    }
    let dm_close_tag = to_chars("</dependencyManagement>");
    match section(text, &to_chars("<dependencyManagement>"), &dm_close_tag) {
        None => Vec::new(),
        Some((a, b)) => {
            let dm = slice_range(text, a, b + dm_close_tag.len());
            let open = to_chars("<dependencies>");
            match section(&dm, &open, &to_chars("</dependencies>")) {
                None => Vec::new(),
                Some((c, d)) => if c + open.len() <= d {
                    blocks(
                        &slice_range(&dm, c + open.len(), d),
                        &to_chars("<dependency>"),
                        &to_chars("</dependency>"),
                    )
                } else {
                    Vec::new()
                },
            }
        },
    }
}

pub fn bom_entries_exec(text: &Vec<char>, nc: &Vec<char>) -> (r: Vec<char>)
    ensures
        r@ == bom_entries(managed_blocks(text@), nc@),
{
    let bs = managed_blocks_exec(text);
    let ghost b = views(bs@);
    let indent = to_chars("            ");
    let nl = to_chars("\n");
    let nl_indent = to_chars("\n            ");
    proof {
        reveal_strlit("\n");
    }
    let mut out: Vec<char> = Vec::new();
    let mut i: usize = 0;
    assert(b.take(0) == Seq::<Seq<char>>::empty());
    while i < bs.len()
        invariant
            i <= bs.len(),
            b == views(bs@),
            indent@ == "            "@,
            nl@ == "\n"@,
            nl@.len() > 0,
            nl_indent@ == "\n            "@,
            out@ == bom_entries(b.take(i as int), nc@),
        decreases bs.len() - i,
    {
        assert(b.take(i + 1).drop_last() == b.take(i as int));
        assert(b.take(i + 1).last() == bs@[i as int]@);
        let found = match artifact_id_of(&bs[i]) {
            Some(a) => contains_text(nc, &a),
            None => false,
        };
        if !found {
            extend(&mut out, &indent);
            extend(&mut out, &replace_all_chars(&trim_chars(&bs[i]), &nl, &nl_indent));
            extend(&mut out, &nl);
        }
        i = i + 1;
    }
    assert(b.take(bs.len() as int) == b);
    out
}

pub fn insert_bom(nc: &Vec<char>, bom: &Vec<char>) -> (r: Option<Vec<char>>)
    ensures
        match r {
            Some(v) => spec_insert_bom(nc@, bom@) == Some(v@),
            None => spec_insert_bom(nc@, bom@) is None,
        },
{
    if bom.len() == 0 {
        return None;
    }
    let deps_close = to_chars("</dependencies>");
    proof {
        lemma_find_from_bounds(nc@, "<dependencyManagement>"@, 0);
        lemma_find_from_bounds(nc@, "<build>"@, 0);
        lemma_find_from_bounds(nc@, deps_close@, 0);
    }
    match index_of(nc, &to_chars("<dependencyManagement>")) {
        Some(t) => {
            proof {
                lemma_find_from_bounds(nc@, deps_close@, t as int);
            }
            match index_of_from(nc, &deps_close, t) {
                Some(p) => Some(insert_at(nc, p, bom)),
                None => None,
            }
        },
        None => match index_of(nc, &to_chars("<build>")) {
            Some(b) => {
                let mut x = to_chars("    <dependencyManagement>\n        <dependencies>\n");
                extend(&mut x, bom);
                extend(&mut x, &to_chars("        </dependencies>\n    </dependencyManagement>\n"));
                extend(&mut x, &to_chars("\n"));
                Some(insert_at(nc, b, &x))
            },
            None => match index_of(nc, &deps_close) {
                Some(d) => {
                    let mut x = to_chars("\n");
                    extend(&mut x, &to_chars("    <dependencyManagement>\n        <dependencies>\n"));
                    extend(&mut x, bom);
                    extend(&mut x, &to_chars("        </dependencies>\n    </dependencyManagement>\n"));
                    proof {
                        lemma_find_from_bounds(nc@, deps_close@, 0);
                    }
                    assert(spec_find(nc@, deps_close@) == Some(d as int));
                    assert(d + deps_close@.len() <= nc@.len());
                    let dl = deps_close.len();
                    assert(d + dl <= nc.len());
                    Some(insert_at(nc, d + dl, &x))
                },
                None => None,
            },
        },
    }
}

/// The snippet's `ext` settings the script lacks, indented by a tab.
pub open spec fn spec_ext_to_add(text: Seq<char>, nc: Seq<char>) -> Seq<char> {
    spec_collect_rule_lines(spec_section_lines(text, "ext {"@, "}"@, false), LineRule::ExtSet, "\t"@, nc)
}

/// Puts settings into the script's `ext` block, or a new one before its
/// `dependencies {`, or at its end.
pub open spec fn spec_insert_ext(nc: Seq<char>, add: Seq<char>) -> Option<Seq<char>> {
    if add.len() == 0 {
        None
    } else {
        match spec_find(nc, "ext {"@) {
            Some(t) => match spec_find_from(nc, "}"@, t) {
                Some(b) => Some(spec_insert_at(nc, b, add)),
                None => None,
            },
            None => match spec_find(nc, "dependencies {"@) {
                Some(d) => Some(spec_insert_at(nc, d, "ext {\n"@ + add + "}\n\n"@)),
                None => Some(nc + "\next {\n"@ + add + "}\n"@),
            },
        }
    }
}

/// The snippet's BOM imports the script lacks, indented by two tabs.
pub open spec fn spec_bom_imports_to_add(text: Seq<char>, nc: Seq<char>) -> Seq<char> {
    spec_collect_rule_lines(split_char(text, '\n'), LineRule::MavenBom, "\t\t"@, nc)
}

/// Puts BOM imports into the `imports` of the script's
/// `dependencyManagement`, or a new such block at its end.
pub open spec fn spec_insert_bom_imports(nc: Seq<char>, add: Seq<char>) -> Option<Seq<char>> {
    if add.len() == 0 {
        None
    } else {
        match spec_find(nc, "dependencyManagement {"@) {
            Some(t) => match spec_find_from(nc, "imports {"@, t) {
                Some(i) => match spec_find_from(nc, "}"@, i) {
                    Some(b) => Some(spec_insert_at(nc, b, add)),
                    None => None,
                },
                None => None,
            },
            None => Some(nc + "\ndependencyManagement {\n\timports {\n"@ + add + "\t}\n}\n"@),
        }
    }
}

pub fn ext_to_add(text: &Vec<char>, nc: &Vec<char>) -> (r: Vec<char>)
    ensures
        r@ == spec_ext_to_add(text@, nc@),
{
    let lines = section_lines(text, &to_chars("ext {"), &to_chars("}"), false);
    collect_rule_lines(&lines, LineRule::ExtSet, &to_chars("\t"), nc)
}

pub fn insert_ext(nc: &Vec<char>, add: &Vec<char>) -> (r: Option<Vec<char>>)
    ensures
        match r {
            Some(v) => spec_insert_ext(nc@, add@) == Some(v@),
            None => spec_insert_ext(nc@, add@) is None,
        },
{
    if add.len() == 0 {
        return None;
    }
    proof {
        lemma_find_from_bounds(nc@, "ext {"@, 0);
        lemma_find_from_bounds(nc@, "dependencies {"@, 0);
    }
    match index_of(nc, &to_chars("ext {")) {
        Some(t) => {
            let brace = to_chars("}");
            proof {
                lemma_find_from_bounds(nc@, brace@, t as int);
            }
            match index_of_from(nc, &brace, t) {
                Some(b) => Some(insert_at(nc, b, add)),
                None => None,
            }
        },
        None => match index_of(nc, &to_chars("dependencies {")) {
            Some(d) => {
                let mut x = to_chars("ext {\n");
                extend(&mut x, add);
                extend(&mut x, &to_chars("}\n\n"));
                Some(insert_at(nc, d, &x))
            },
            None => {
                let mut x = slice_range(nc, 0, nc.len());
                assert(nc@.subrange(0, nc@.len() as int) == nc@);
                extend(&mut x, &to_chars("\next {\n"));
                extend(&mut x, add);
                extend(&mut x, &to_chars("}\n"));
                Some(x)
            },
        },
    }
}

pub fn bom_imports_to_add(text: &Vec<char>, nc: &Vec<char>) -> (r: Vec<char>)
    ensures
        r@ == spec_bom_imports_to_add(text@, nc@),
{
    let lines = split_on(text, '\n');
    assert(views(lines@) =~= split_char(text@, '\n'));
    collect_rule_lines(&lines, LineRule::MavenBom, &to_chars("\t\t"), nc)
}

pub fn insert_bom_imports(nc: &Vec<char>, add: &Vec<char>) -> (r: Option<Vec<char>>)
    ensures
        match r {
            Some(v) => spec_insert_bom_imports(nc@, add@) == Some(v@),
            None => spec_insert_bom_imports(nc@, add@) is None,
        },
{
    if add.len() == 0 {
        return None;
    }
    proof {
        lemma_find_from_bounds(nc@, "dependencyManagement {"@, 0);
    }
    match index_of(nc, &to_chars("dependencyManagement {")) {
        Some(t) => {
            let imports = to_chars("imports {");
            proof {
                lemma_find_from_bounds(nc@, imports@, t as int);
            }
            match index_of_from(nc, &imports, t) {
                Some(i) => {
                    let brace = to_chars("}");
                    proof {
                        lemma_find_from_bounds(nc@, brace@, i as int);
                    }
                    match index_of_from(nc, &brace, i) {
                        Some(b) => Some(insert_at(nc, b, add)),
                        None => None,
                    }
                },
                None => None,
            }
        },
        None => {
            let mut x = slice_range(nc, 0, nc.len());
            assert(nc@.subrange(0, nc@.len() as int) == nc@);
            extend(&mut x, &to_chars("\ndependencyManagement {\n\timports {\n"));
            extend(&mut x, add);
            extend(&mut x, &to_chars("\t}\n}\n"));
            Some(x)
        },
    }
}

/// The `<plugin>` blocks of the `<plugins>` of the `<build>` of a POM
/// snippet.
pub open spec fn snippet_plugin_blocks(text: Seq<char>) -> Seq<Seq<char>> {
    match spec_find(text, "<build>"@) {
        None => Seq::empty(),
        Some(b) => match spec_find_from(text, "<plugins>"@, b) {
            None => Seq::empty(),
            Some(p) => match spec_find_from(text, "</plugins>"@, p) {
                None => Seq::empty(),
                Some(e) => if 0 <= p <= e <= text.len() {
                    spec_blocks_from(text.subrange(p, e), "<plugin>"@, "</plugin>"@, 0)
                } else {
                    Seq::empty()
                },
            },
        },
    }
}

/// The plugin blocks to add from a POM snippet (all but Spring Boot's own),
/// trimmed and indented, and the plugins' artifact ids.
pub open spec fn maven_plugin_additions(blocks: Seq<Seq<char>>) -> (Seq<char>, Seq<(NoteKind, Seq<char>)>)
    decreases blocks.len(),
{
    if blocks.len() == 0 {
        (Seq::empty(), Seq::empty())
    } else {
        let prev = maven_plugin_additions(blocks.drop_last());
        let b = blocks.last();
        if !spec_contains(b, "<artifactId>spring-boot-maven-plugin</artifactId>"@) {
            let notes = match spec_artifact_id_of(b) {
                Some(a) => prev.1.push((NoteKind::Plugin, a)),
                None => prev.1,
            };
            (prev.0 + "            "@ + spec_trim(b) + "\n"@, notes)
        } else {
            prev
        }
    }
}

/// Puts plugin blocks after the POM's `<plugins>` within `<build>`, or in a
/// new `<plugins>` right after `<build>`.
pub open spec fn spec_insert_maven_plugins(nc: Seq<char>, add: Seq<char>) -> Option<Seq<char>> {
    if add.len() == 0 {
        None
    } else {
        match spec_find(nc, "<build>"@) {
            Some(b) => match spec_find_from(nc, "<plugins>"@, b) {
                Some(p) => Some(spec_insert_at(nc, p + "<plugins>"@.len(), "\n"@ + add + "\n"@)),
                None => Some(
                    spec_insert_at(
                        nc,
                        b + "<build>"@.len(),
                        "\n        <plugins>\n"@ + add + "\n        </plugins>\n"@,
                    ),
                ),
            },
            None => None,
        }
    }
}

/// A Gradle plugin line that the generated build does not already have.
pub open spec fn third_party_plugin(t: Seq<char>) -> bool {
    spec_starts_with(t, "id "@) && !spec_contains(t, "id 'java'"@) && !spec_contains(
        t,
        "id 'org.springframework.boot'"@,
    ) && !spec_contains(t, "id 'io.spring.dependency-management'"@) && !spec_contains(
        t,
        "id 'org.jetbrains.kotlin"@,
    ) && !spec_contains(t, "id 'groovy'"@)
}

/// The plugin lines to add from a Gradle snippet, indented, and the lines
/// themselves.
pub open spec fn gradle_plugin_additions(lines: Seq<Seq<char>>) -> (Seq<char>, Seq<(NoteKind, Seq<char>)>)
    decreases lines.len(),
{
    if lines.len() == 0 {
        (Seq::empty(), Seq::empty())
    } else {
        let prev = gradle_plugin_additions(lines.drop_last());
        let t = spec_trim(lines.last());
        if third_party_plugin(t) {
            (prev.0 + "    "@ + t + "\n"@, prev.1.push((NoteKind::Plugin, t)))
        } else {
            prev
        }
    }
}

/// Puts plugin lines before the `}` closing the script's `plugins {`.
pub open spec fn spec_insert_gradle_plugins(nc: Seq<char>, add: Seq<char>) -> Option<Seq<char>> {
    if add.len() == 0 {
        None
    } else {
        match spec_find(nc, "plugins {"@) {
            Some(t) => match spec_find_from(nc, "}"@, t) {
                Some(b) => Some(spec_insert_at(nc, b, add + "\n"@)),
                None => None,
            },
            None => None,
        }
    }
}

/// The `generateJava` block of a Gradle snippet, through its first `}`.
pub open spec fn generate_java_block(text: Seq<char>) -> Option<Seq<char>> {
    match spec_section(text, "generateJava {"@, "}"@) {
        Some((a, b)) => if 0 <= a <= b + 1 <= text.len() {
            Some(text.subrange(a, b + 1))
        } else {
            None
        },
        None => None,
    }
}

pub open spec fn spec_plugin_additions(text: Seq<char>, maven: bool) -> (Seq<char>, Seq<(NoteKind, Seq<char>)>) {
    if maven {
        maven_plugin_additions(snippet_plugin_blocks(text))
    } else {
        gradle_plugin_additions(spec_section_lines(text, "plugins {"@, "}"@, false))
    }
}

pub open spec fn spec_insert_plugins(nc: Seq<char>, add: Seq<char>, maven: bool) -> Option<Seq<char>> {
    if maven {
        spec_insert_maven_plugins(nc, add)
    } else {
        spec_insert_gradle_plugins(nc, add)
    }
}

fn snippet_plugin_blocks_exec(text: &Vec<char>) -> (r: Vec<Vec<char>>)
    ensures
        views(r@) == snippet_plugin_blocks(text@),
{
    proof {
        lemma_views_empty();
        reveal_strlit("</plugin>");
        lemma_find_from_bounds(text@, "<build>"@, 0);
    }
    let b = match index_of(text, &to_chars("<build>")) {
        None => return Vec::new(),
        Some(v) => v,
    };
    let open = to_chars("<plugins>");
    proof {
        lemma_find_from_bounds(text@, open@, b as int);
    }
    let p = match index_of_from(text, &open, b) {
        None => return Vec::new(),
        Some(v) => v,
    };
    let close = to_chars("</plugins>");
    proof {
        lemma_find_from_bounds(text@, close@, p as int);
    }
    let e = match index_of_from(text, &close, p) {
        None => return Vec::new(),
        Some(v) => v,
    };
    blocks(&slice_range(text, p, e), &to_chars("<plugin>"), &to_chars("</plugin>"))
}

pub fn plugin_additions(text: &Vec<char>, maven: bool) -> (r: (Vec<char>, Vec<ChangeNote>))
    ensures
        (r.0@, note_views(r.1@)) == spec_plugin_additions(text@, maven),
{
    let nl = to_chars("\n");
    let mut out: Vec<char> = Vec::new();
    let mut notes: Vec<ChangeNote> = Vec::new();
    assert(note_views(notes@) =~= Seq::<(NoteKind, Seq<char>)>::empty());
    if maven {
        let bs = snippet_plugin_blocks_exec(text);
        let ghost b = views(bs@);
        let indent = to_chars("            ");
        let boot_plugin = to_chars("<artifactId>spring-boot-maven-plugin</artifactId>");
        let mut i: usize = 0;
        assert(b.take(0) == Seq::<Seq<char>>::empty());
        while i < bs.len()
            invariant
                i <= bs.len(),
                b == views(bs@),
                nl@ == "\n"@,
                indent@ == "            "@,
                boot_plugin@ == "<artifactId>spring-boot-maven-plugin</artifactId>"@,
                (out@, note_views(notes@)) == maven_plugin_additions(b.take(i as int)),
            decreases bs.len() - i,
        {
            assert(b.take(i + 1).drop_last() == b.take(i as int));
            assert(b.take(i + 1).last() == bs@[i as int]@);
            if !contains_text(&bs[i], &boot_plugin) {
                match artifact_id_of(&bs[i]) {
                    Some(a) => {
                        let n = ChangeNote { kind: NoteKind::Plugin, text: from_chars(&a) };
                        proof {
                            lemma_note_views_push(notes@, n);
                        }
                        notes.push(n);
                    },
                    None => {},
                }
                extend(&mut out, &indent);
                extend(&mut out, &trim_chars(&bs[i]));
                extend(&mut out, &nl);
            }
            i = i + 1;
        }
        assert(b.take(bs.len() as int) == b);
    } else {
        let lines = section_lines(text, &to_chars("plugins {"), &to_chars("}"), false);
        let ghost ls = views(lines@);
        let indent = to_chars("    ");
        let mut i: usize = 0;
        assert(ls.take(0) == Seq::<Seq<char>>::empty());
        while i < lines.len()
            invariant
                i <= lines.len(),
                ls == views(lines@),
                nl@ == "\n"@,
                indent@ == "    "@,
                (out@, note_views(notes@)) == gradle_plugin_additions(ls.take(i as int)),
            decreases lines.len() - i,
        {
            assert(ls.take(i + 1).drop_last() == ls.take(i as int));
            assert(ls.take(i + 1).last() == lines@[i as int]@);
            let t = trim_chars(&lines[i]);
            if has_prefix(&t, &to_chars("id ")) && !contains_text(&t, &to_chars("id 'java'"))
                && !contains_text(&t, &to_chars("id 'org.springframework.boot'")) && !contains_text(
                &t,
                &to_chars("id 'io.spring.dependency-management'"),
            ) && !contains_text(&t, &to_chars("id 'org.jetbrains.kotlin")) && !contains_text(
                &t,
                &to_chars("id 'groovy'"),
            ) {
                extend(&mut out, &indent);
                extend(&mut out, &t);
                extend(&mut out, &nl);
                let n = ChangeNote { kind: NoteKind::Plugin, text: from_chars(&t) };
                proof {
                    lemma_note_views_push(notes@, n);
                }
                notes.push(n);
            }
            i = i + 1;
        }
        assert(ls.take(lines.len() as int) == ls);
    }
    (out, notes)
}

pub fn insert_plugins(nc: &Vec<char>, add: &Vec<char>, maven: bool) -> (r: Option<Vec<char>>)
    ensures
        match r {
            Some(v) => spec_insert_plugins(nc@, add@, maven) == Some(v@),
            None => spec_insert_plugins(nc@, add@, maven) is None,
        },
{
    if add.len() == 0 {
        return None;
    }
    if maven {
        let build = to_chars("<build>");
        proof {
            lemma_find_from_bounds(nc@, build@, 0);
        }
        match index_of(nc, &build) {
            Some(b) => {
                let plugins = to_chars("<plugins>");
                proof {
                    lemma_find_from_bounds(nc@, plugins@, b as int);
                }
                match index_of_from(nc, &plugins, b) {
                    Some(p) => {
                        let mut x = to_chars("\n");
                        extend(&mut x, add);
                        extend(&mut x, &to_chars("\n"));
                        let pl = plugins.len();
                        assert(p + pl <= nc.len());
                        Some(insert_at(nc, p + pl, &x))
                    },
                    None => {
                        let mut x = to_chars("\n        <plugins>\n");
                        extend(&mut x, add);
                        extend(&mut x, &to_chars("\n        </plugins>\n"));
                        let bl = build.len();
                        assert(b + bl <= nc.len());
                        Some(insert_at(nc, b + bl, &x))
                    },
                }
            },
            None => None,
        }
    } else {
        let plugins = to_chars("plugins {");
        proof {
            lemma_find_from_bounds(nc@, plugins@, 0);
        }
        match index_of(nc, &plugins) {
            Some(t) => {
                let brace = to_chars("}");
                proof {
                    lemma_find_from_bounds(nc@, brace@, t as int);
                }
                match index_of_from(nc, &brace, t) {
                    Some(b) => {
                        let mut x = slice_range(add, 0, add.len());
                        assert(add@.subrange(0, add@.len() as int) == add@);
                        extend(&mut x, &to_chars("\n"));
                        Some(insert_at(nc, b, &x))
                    },
                    None => None,
                }
            },
            None => None,
        }
    }
}

pub fn read_generate_java_block(text: &Vec<char>) -> (r: Option<Vec<char>>)
    ensures
        match r {
            Some(v) => generate_java_block(text@) == Some(v@),
            None => generate_java_block(text@) is None,
        },
{
    let brace = to_chars("}");
    match section(text, &to_chars("generateJava {"), &brace) {
        Some((a, b)) => {
            assert(b + brace@.len() <= text.len());
            proof {
                reveal_strlit("}");
            }
            Some(slice_range(text, a, b + 1))
        },
        None => None,
    }
}

/// The state after one more edit: the edited text where it applies, and
/// whether any edit applied so far.
pub open spec fn then_edit(st: (Seq<char>, bool), edit: Option<Seq<char>>) -> (Seq<char>, bool) {
    match edit {
        Some(v) => (v, true),
        None => st,
    }
}

/// What adding the dependencies `to_add` does to a build file, given the
/// snippet generated for them (if it could be fetched): the new text,
/// whether it changed, and what was added, in order.
pub open spec fn spec_apply_addition(
    nc: Seq<char>,
    to_add: Seq<Seq<char>>,
    maven: bool,
    snippet: Option<Seq<char>>,
) -> (Seq<char>, bool, Seq<(NoteKind, Seq<char>)>) {
    match snippet {
        None => (nc, false, Seq::empty()),
        Some(text) => {
            let deps = spec_dependency_additions(text, maven, to_add.contains("test"@));
            let s1 = if deps.0.len() > 0 {
                then_edit((nc, false), spec_insert_dependencies(nc, deps.0, maven))
            } else {
                (nc, false)
            };
            let s3 = if maven {
                let s2 = then_edit(s1, spec_insert_properties(s1.0, spec_properties_to_add(text, s1.0)));
                then_edit(s2, spec_insert_bom(s2.0, bom_entries(managed_blocks(text), s2.0)))
            } else {
                let s2 = then_edit(s1, spec_insert_ext(s1.0, spec_ext_to_add(text, s1.0)));
                then_edit(s2, spec_insert_bom_imports(s2.0, spec_bom_imports_to_add(text, s2.0)))
            };
            let plugins = spec_plugin_additions(text, maven);
            let s4 = then_edit(s3, spec_insert_plugins(s3.0, plugins.0, maven));
            let notes = deps.1 + plugins.1;
            if maven {
                (s4.0, s4.1, notes)
            } else {
                match generate_java_block(text) {
                    None => (s4.0, s4.1, notes),
                    Some(g) => {
                        let notes2 = notes.push((NoteKind::ConfigBlock, "generateJava"@));
                        if !spec_contains(s4.0, "generateJava {"@) {
                            (s4.0 + "\n"@ + g + "\n"@, true, notes2)
                        } else {
                            (s4.0, s4.1, notes2)
                        }
                    },
                }
            }
        },
    }
}

fn take_edit(cur: Vec<char>, changed: bool, edit: Option<Vec<char>>) -> (r: (Vec<char>, bool))
    ensures
        (r.0@, r.1) == then_edit((cur@, changed), match edit {
            Some(v) => Some(v@),
            None => None,
        }),
{
    match edit {
        Some(v) => (v, true),
        None => (cur, changed),
    }
}

fn append_notes(notes: &mut Vec<ChangeNote>, more: Vec<ChangeNote>)
    ensures
        note_views(final(notes)@) == note_views(old(notes)@) + note_views(more@),
{
    let mut more = more;
    let ghost m = more@;
    let mut i: usize = 0;
    while i < more.len()
        invariant
            i <= more.len(),
            more@ == m,
            note_views(notes@) == note_views(old(notes)@) + note_views(m).take(i as int),
        decreases more.len() - i,
    {
        let n = ChangeNote { kind: more[i].kind, text: from_chars(&to_chars(more[i].text.as_str())) };
        proof {
            lemma_note_views_push(notes@, n);
            assert(note_views(m).take(i + 1) == note_views(m).take(i as int).push((n.kind, n.text@)));
        }
        notes.push(n);
        i = i + 1;
    }
    assert(note_views(m).take(m.len() as int) == note_views(m));
}

pub fn apply_addition(
    nc: &Vec<char>,
    to_add: &Vec<Vec<char>>,
    maven: bool,
    snippet: Option<&Vec<char>>,
) -> (r: (Vec<char>, bool, Vec<ChangeNote>))
    requires
        match snippet {
            Some(t) => maven ==> addition_defined(t@),
            None => true,
        },
    ensures
        (r.0@, r.1, note_views(r.2@)) == spec_apply_addition(nc@, views(to_add@), maven, match snippet {
            Some(t) => Some(t@),
            None => None,
        }),
{
    let text = match snippet {
        None => {
            let mut notes: Vec<ChangeNote> = Vec::new();
            assert(note_views(notes@) =~= Seq::<(NoteKind, Seq<char>)>::empty());
            return (slice_range(nc, 0, nc.len()), false, notes);
        },
        Some(t) => t,
    };
    assert(nc@.subrange(0, nc@.len() as int) == nc@);
    let adding_test = list_contains(to_add, &to_chars("test"));
    let (dep_lines, dep_notes) = dependency_additions(text, maven, adding_test);
    let (c1, ch1) = if dep_lines.len() > 0 {
        take_edit(slice_range(nc, 0, nc.len()), false, insert_dependencies(nc, &dep_lines, maven))
    } else {
        (slice_range(nc, 0, nc.len()), false)
    };
    let (c3, ch3) = if maven {
        let props = properties_to_add(text, &c1);
        let edit = insert_properties(&c1, &props);
        let (c2, ch2) = take_edit(c1, ch1, edit);
        let bom = bom_entries_exec(text, &c2);
        let edit2 = insert_bom(&c2, &bom);
        take_edit(c2, ch2, edit2)
    } else {
        let ext = ext_to_add(text, &c1);
        let edit = insert_ext(&c1, &ext);
        let (c2, ch2) = take_edit(c1, ch1, edit);
        let imports = bom_imports_to_add(text, &c2);
        let edit2 = insert_bom_imports(&c2, &imports);
        take_edit(c2, ch2, edit2)
    };
    let (plugin_lines, plugin_notes) = plugin_additions(text, maven);
    let edit3 = insert_plugins(&c3, &plugin_lines, maven);
    let (c4, ch4) = take_edit(c3, ch3, edit3);
    let mut notes = dep_notes;
    append_notes(&mut notes, plugin_notes);
    if maven {
        return (c4, ch4, notes);
    }
    match read_generate_java_block(text) {
        None => (c4, ch4, notes),
        Some(g) => {
            let n = ChangeNote { kind: NoteKind::ConfigBlock, text: String::from_str("generateJava") };
            proof {
                lemma_note_views_push(notes@, n);
            }
            notes.push(n);
            if !contains_text(&c4, &to_chars("generateJava {")) {
                let mut x = c4;
                extend(&mut x, &to_chars("\n"));
                extend(&mut x, &g);
                extend(&mut x, &to_chars("\n"));
                (x, true, notes)
            } else {
                (c4, ch4, notes)
            }
        },
    }
}

} // verus!
