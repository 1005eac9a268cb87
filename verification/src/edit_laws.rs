//! What editing a build file preserves: adding only ever inserts text, and
//! removing only ever cuts text out.
use vstd::prelude::*;
use crate::changes::{
    bom_entries, dm_close, dm_open, generate_java_block, managed_blocks, spec_apply_addition,
    spec_bom_imports_to_add, spec_dependency_additions, spec_ext_to_add, spec_insert_bom,
    spec_insert_bom_imports, spec_insert_dependencies, spec_insert_ext, spec_insert_plugins, spec_insert_properties,
    spec_plugin_additions, spec_properties_to_add, then_edit,
};
use crate::changes::{
    spec_apply_removal, spec_cut_matches, spec_cut_rule_lines, spec_drop_empty_blocks,
    spec_snippet_removal, unit_cut, LineRule,
};
use crate::edit::{spec_cut, spec_cut_block_at, spec_cut_line_at, spec_cut_line_with, spec_insert_at};
use crate::project::build_file::{
    spec_cleanup_empty_blocks, spec_cut_managed, spec_remove_bom, spec_remove_dependency_line,
    spec_remove_managed, spec_remove_properties,
};
use crate::text::{replace_all, spec_contains, spec_occurs_at, spec_trim, split_char};
use crate::changes::{
    gradle_field_forms, gradle_field_patterns, removal_patterns, rule_holds, spec_collect_rule_lines,
    spec_earliest, spec_section_lines,
};
use crate::project::build_file::{
    edited, spec_add_bom, spec_add_dependencies, spec_add_plugins, spec_add_properties,
};
use crate::search::is_embedding;
use crate::text::{
    lemma_find_from_bounds, lemma_rfind_before_bounds, spec_find, spec_find_from, spec_rfind,
    spec_rfind_before,
};

verus! {

/// `new` is `old` with text inserted: `old`'s characters all occur in
/// `new`, in order.
pub open spec fn only_inserts(old: Seq<char>, new: Seq<char>) -> bool {
    exists|idx: Seq<int>| is_embedding(idx, old, new)
}

proof fn lemma_only_inserts_refl(a: Seq<char>)
    ensures
        only_inserts(a, a),
{
    let idx = Seq::new(a.len(), |i: int| i);
    assert(is_embedding(idx, a, a));
}

proof fn lemma_only_inserts_trans(a: Seq<char>, b: Seq<char>, c: Seq<char>)
    requires
        only_inserts(a, b),
        only_inserts(b, c),
    ensures
        only_inserts(a, c),
{
    let i1 = choose|idx: Seq<int>| is_embedding(idx, a, b);
    let i2 = choose|idx: Seq<int>| is_embedding(idx, b, c);
    let idx = Seq::new(a.len(), |k: int| i2[i1[k]]);
    assert forall|k: int| 0 <= k < idx.len() implies 0 <= #[trigger] idx[k] < c.len() && c[idx[k]] == a[k] by {
        assert(0 <= i1[k] < b.len());
        assert(0 <= i2[i1[k]] < c.len());
    }
    assert forall|k: int, j: int| 0 <= k < j < idx.len() implies #[trigger] idx[k] < #[trigger] idx[j] by {
        assert(i1[k] < i1[j]);
        assert(0 <= i1[k] < b.len() && 0 <= i1[j] < b.len());
        assert(i2[i1[k]] < i2[i1[j]]);
    }
    assert(is_embedding(idx, a, c));
}

proof fn lemma_insert_at_only_inserts(s: Seq<char>, pos: int, t: Seq<char>)
    requires
        0 <= pos <= s.len(),
    ensures
        only_inserts(s, spec_insert_at(s, pos, t)),
{
    let r = spec_insert_at(s, pos, t);
    let idx = Seq::new(s.len(), |k: int| if k < pos { k } else { k + t.len() });
    assert forall|k: int| 0 <= k < idx.len() implies 0 <= #[trigger] idx[k] < r.len() && r[idx[k]] == s[k] by {
        if k >= pos {
            assert(r[k + t.len()] == s.skip(pos)[k - pos]);
        }
    }
    assert(is_embedding(idx, s, r));
}

proof fn lemma_append_only_inserts(s: Seq<char>, t: Seq<char>)
    ensures
        only_inserts(s, s + t),
{
    lemma_insert_at_only_inserts(s, s.len() as int, t);
    assert(spec_insert_at(s, s.len() as int, t) =~= s + t);
}

proof fn lemma_edited_only_inserts(c: Seq<char>, e: Option<Seq<char>>)
    requires
        e matches Some(v) ==> only_inserts(c, v),
    ensures
        only_inserts(c, edited(c, e)),
{
    if e is None {
        lemma_only_inserts_refl(c);
    }
}

proof fn lemma_found_in_range(s: Seq<char>, p: Seq<char>, from: int)
    ensures
        spec_find_from(s, p, from) matches Some(i) ==> 0 <= i && i + p.len() <= s.len(),
{
    lemma_find_from_bounds(s, p, from);
}

proof fn lemma_insert_dependencies_only_inserts(nc: Seq<char>, lines: Seq<char>, maven: bool)
    ensures
        spec_insert_dependencies(nc, lines, maven) matches Some(v) ==> only_inserts(nc, v),
{
    if maven {
        lemma_rfind_before_bounds(nc, "</dependencies>"@, nc.len() as int);
        if let Some(p) = spec_rfind(nc, "</dependencies>"@) {
            lemma_insert_at_only_inserts(nc, p, lines + "\n"@);
        }
    } else {
        lemma_rfind_before_bounds(nc, "dependencies {"@, nc.len() as int);
        if let Some(p) = spec_rfind(nc, "dependencies {"@) {
            lemma_found_in_range(nc, "}"@, p);
            if let Some(b) = spec_find_from(nc, "}"@, p) {
                lemma_insert_at_only_inserts(nc, b, lines);
            }
        }
    }
}

proof fn lemma_insert_properties_only_inserts(nc: Seq<char>, add: Seq<char>)
    ensures
        spec_insert_properties(nc, add) matches Some(v) ==> only_inserts(nc, v),
{
    lemma_found_in_range(nc, "</properties>"@, 0);
    lemma_found_in_range(nc, "<dependencies>"@, 0);
    if let Some(p) = spec_find(nc, "</properties>"@) {
        lemma_insert_at_only_inserts(nc, p, add);
    } else if let Some(d) = spec_find(nc, "<dependencies>"@) {
        lemma_insert_at_only_inserts(nc, d, "    <properties>\n"@ + add + "    </properties>\n\n"@);
    }
}

proof fn lemma_insert_bom_only_inserts(nc: Seq<char>, bom: Seq<char>)
    ensures
        spec_insert_bom(nc, bom) matches Some(v) ==> only_inserts(nc, v),
{
    lemma_found_in_range(nc, "<dependencyManagement>"@, 0);
    lemma_found_in_range(nc, "<build>"@, 0);
    lemma_found_in_range(nc, "</dependencies>"@, 0);
    if let Some(t) = spec_find(nc, "<dependencyManagement>"@) {
        lemma_found_in_range(nc, "</dependencies>"@, t);
        if let Some(p) = spec_find_from(nc, "</dependencies>"@, t) {
            lemma_insert_at_only_inserts(nc, p, bom);
        }
    } else if let Some(b) = spec_find(nc, "<build>"@) {
        lemma_insert_at_only_inserts(nc, b, dm_open() + bom + dm_close() + "\n"@);
    } else if let Some(d) = spec_find(nc, "</dependencies>"@) {
        lemma_insert_at_only_inserts(nc, d + "</dependencies>"@.len(), "\n"@ + dm_open() + bom + dm_close());
    }
}

proof fn lemma_insert_ext_only_inserts(nc: Seq<char>, add: Seq<char>)
    ensures
        spec_insert_ext(nc, add) matches Some(v) ==> only_inserts(nc, v),
{
    lemma_found_in_range(nc, "ext {"@, 0);
    lemma_found_in_range(nc, "dependencies {"@, 0);
    if let Some(t) = spec_find(nc, "ext {"@) {
        lemma_found_in_range(nc, "}"@, t);
        if let Some(b) = spec_find_from(nc, "}"@, t) {
            lemma_insert_at_only_inserts(nc, b, add);
        }
    } else if let Some(d) = spec_find(nc, "dependencies {"@) {
        lemma_insert_at_only_inserts(nc, d, "ext {\n"@ + add + "}\n\n"@);
    } else {
        lemma_append_only_inserts(nc, "\next {\n"@ + add + "}\n"@);
        assert(nc + "\next {\n"@ + add + "}\n"@ =~= nc + ("\next {\n"@ + add + "}\n"@));
    }
}

proof fn lemma_insert_bom_imports_only_inserts(nc: Seq<char>, add: Seq<char>)
    ensures
        spec_insert_bom_imports(nc, add) matches Some(v) ==> only_inserts(nc, v),
{
    lemma_found_in_range(nc, "dependencyManagement {"@, 0);
    if let Some(t) = spec_find(nc, "dependencyManagement {"@) {
        lemma_found_in_range(nc, "imports {"@, t);
        if let Some(i) = spec_find_from(nc, "imports {"@, t) {
            lemma_found_in_range(nc, "}"@, i);
            if let Some(b) = spec_find_from(nc, "}"@, i) {
                lemma_insert_at_only_inserts(nc, b, add);
            }
        }
    } else {
        let tail = "\ndependencyManagement {\n\timports {\n"@ + add + "\t}\n}\n"@;
        lemma_append_only_inserts(nc, tail);
        assert(nc + "\ndependencyManagement {\n\timports {\n"@ + add + "\t}\n}\n"@ =~= nc + tail);
    }
}

proof fn lemma_insert_plugins_only_inserts(nc: Seq<char>, add: Seq<char>, maven: bool)
    ensures
        spec_insert_plugins(nc, add, maven) matches Some(v) ==> only_inserts(nc, v),
{
    if maven {
        lemma_found_in_range(nc, "<build>"@, 0);
        if let Some(b) = spec_find(nc, "<build>"@) {
            lemma_found_in_range(nc, "<plugins>"@, b);
            if let Some(p) = spec_find_from(nc, "<plugins>"@, b) {
                lemma_insert_at_only_inserts(nc, p + "<plugins>"@.len(), "\n"@ + add + "\n"@);
            } else {
                lemma_insert_at_only_inserts(
                    nc,
                    b + "<build>"@.len(),
                    "\n        <plugins>\n"@ + add + "\n        </plugins>\n"@,
                );
            }
        }
    } else {
        lemma_found_in_range(nc, "plugins {"@, 0);
        if let Some(t) = spec_find(nc, "plugins {"@) {
            lemma_found_in_range(nc, "}"@, t);
            if let Some(b) = spec_find_from(nc, "}"@, t) {
                lemma_insert_at_only_inserts(nc, b, add + "\n"@);
            }
        }
    }
}

proof fn lemma_then_edit_only_inserts(nc: Seq<char>, st: (Seq<char>, bool), e: Option<Seq<char>>)
    requires
        only_inserts(nc, st.0),
        e matches Some(v) ==> only_inserts(st.0, v),
    ensures
        only_inserts(nc, then_edit(st, e).0),
{
    if let Some(v) = e {
        lemma_only_inserts_trans(nc, st.0, v);
    }
}

/// Adding dependencies only inserts text: every character of the build
/// file stays, in order, whatever the snippet.
pub proof fn lemma_addition_only_inserts(
    nc: Seq<char>,
    to_add: Seq<Seq<char>>,
    maven: bool,
    snippet: Option<Seq<char>>,
)
    ensures
        only_inserts(nc, spec_apply_addition(nc, to_add, maven, snippet).0),
{
    lemma_only_inserts_refl(nc);
    if let Some(text) = snippet {
        let deps = spec_dependency_additions(text, maven, to_add.contains("test"@));
        let s1 = if deps.0.len() > 0 {
            then_edit((nc, false), spec_insert_dependencies(nc, deps.0, maven))
        } else {
            (nc, false)
        };
        lemma_insert_dependencies_only_inserts(nc, deps.0, maven);
        lemma_then_edit_only_inserts(nc, (nc, false), spec_insert_dependencies(nc, deps.0, maven));
        let s3 = if maven {
            let e2 = spec_insert_properties(s1.0, spec_properties_to_add(text, s1.0));
            lemma_insert_properties_only_inserts(s1.0, spec_properties_to_add(text, s1.0));
            lemma_then_edit_only_inserts(nc, s1, e2);
            let s2 = then_edit(s1, e2);
            let e3 = spec_insert_bom(s2.0, bom_entries(managed_blocks(text), s2.0));
            lemma_insert_bom_only_inserts(s2.0, bom_entries(managed_blocks(text), s2.0));
            lemma_then_edit_only_inserts(nc, s2, e3);
            then_edit(s2, e3)
        } else {
            let e2 = spec_insert_ext(s1.0, spec_ext_to_add(text, s1.0));
            lemma_insert_ext_only_inserts(s1.0, spec_ext_to_add(text, s1.0));
            lemma_then_edit_only_inserts(nc, s1, e2);
            let s2 = then_edit(s1, e2);
            let e3 = spec_insert_bom_imports(s2.0, spec_bom_imports_to_add(text, s2.0));
            lemma_insert_bom_imports_only_inserts(s2.0, spec_bom_imports_to_add(text, s2.0));
            lemma_then_edit_only_inserts(nc, s2, e3);
            then_edit(s2, e3)
        };
        let plugins = spec_plugin_additions(text, maven);
        let e4 = spec_insert_plugins(s3.0, plugins.0, maven);
        lemma_insert_plugins_only_inserts(s3.0, plugins.0, maven);
        lemma_then_edit_only_inserts(nc, s3, e4);
        let s4 = then_edit(s3, e4);
        if !maven {
            if let Some(g) = generate_java_block(text) {
                lemma_append_only_inserts(s4.0, "\n"@ + g + "\n"@);
                assert(s4.0 + "\n"@ + g + "\n"@ =~= s4.0 + ("\n"@ + g + "\n"@));
                lemma_only_inserts_trans(nc, s4.0, s4.0 + "\n"@ + g + "\n"@);
            }
        }
    }
}

/// Each adding step of a build file only inserts text.
pub proof fn lemma_build_file_additions_only_insert(c: Seq<char>, text: Seq<char>, lines: Seq<char>, maven: bool)
    ensures
        only_inserts(c, spec_add_dependencies(c, lines, maven)),
        only_inserts(c, spec_add_bom(c, text, maven)),
        only_inserts(c, spec_add_properties(c, text, maven)),
        only_inserts(c, spec_add_plugins(c, text, maven).0),
{
    lemma_insert_dependencies_only_inserts(c, lines, maven);
    lemma_edited_only_inserts(c, spec_insert_dependencies(c, lines, maven));
    if maven {
        lemma_insert_bom_only_inserts(c, bom_entries(managed_blocks(text), c));
        lemma_edited_only_inserts(c, spec_insert_bom(c, bom_entries(managed_blocks(text), c)));
        lemma_insert_properties_only_inserts(c, spec_properties_to_add(text, c));
        lemma_edited_only_inserts(c, spec_insert_properties(c, spec_properties_to_add(text, c)));
    } else {
        let e1 = spec_insert_ext(c, spec_ext_to_add(text, c));
        lemma_insert_ext_only_inserts(c, spec_ext_to_add(text, c));
        lemma_edited_only_inserts(c, e1);
        let c1 = edited(c, e1);
        let e2 = spec_insert_bom_imports(c1, spec_bom_imports_to_add(text, c1));
        lemma_insert_bom_imports_only_inserts(c1, spec_bom_imports_to_add(text, c1));
        lemma_edited_only_inserts(c1, e2);
        lemma_only_inserts_trans(c, c1, edited(c1, e2));
        lemma_only_inserts_refl(c);
    }
    let p = spec_plugin_additions(text, maven);
    let e = spec_insert_plugins(c, p.0, maven);
    lemma_insert_plugins_only_inserts(c, p.0, maven);
    lemma_edited_only_inserts(c, e);
    let c1 = edited(c, e);
    if !maven {
        if let Some(g) = generate_java_block(text) {
            lemma_append_only_inserts(c1, "\n"@ + g + "\n"@);
            assert(c1 + "\n"@ + g + "\n"@ =~= c1 + ("\n"@ + g + "\n"@));
            lemma_only_inserts_trans(c, c1, c1 + "\n"@ + g + "\n"@);
        }
    }
}

// ── Removing only cuts ──

proof fn lemma_cut_only_deletes(s: Seq<char>, a: int, b: int)
    requires
        0 <= a <= b <= s.len(),
    ensures
        only_inserts(spec_cut(s, a, b), s),
{
    let r = spec_cut(s, a, b);
    let idx = Seq::new(r.len(), |k: int| if k < a { k } else { k + (b - a) });
    assert forall|k: int| 0 <= k < idx.len() implies 0 <= #[trigger] idx[k] < s.len() && s[idx[k]] == r[k] by {
        if k >= a {
            assert(r[k] == s.skip(b)[k - a]);
        }
    }
    assert(is_embedding(idx, r, s));
}

proof fn lemma_cut_line_at_only_deletes(s: Seq<char>, idx: int)
    ensures
        spec_cut_line_at(s, idx) matches Some(v) ==> only_inserts(v, s),
{
    if let Some(v) = spec_cut_line_at(s, idx) {
        let start = spec_rfind_before(s, "\n"@, idx).unwrap();
        let end = spec_find_from(s, "\n"@, idx).unwrap();
        lemma_cut_only_deletes(s, start, end);
    }
}

proof fn lemma_cut_block_at_only_deletes(s: Seq<char>, idx: int, open: Seq<char>, close: Seq<char>)
    ensures
        spec_cut_block_at(s, idx, open, close) matches Some(v) ==> only_inserts(v, s),
{
    if let Some(v) = spec_cut_block_at(s, idx, open, close) {
        let start = spec_rfind_before(s, open, idx).unwrap();
        let end = spec_find_from(s, close, idx).unwrap();
        lemma_cut_only_deletes(s, start, end + close.len());
    }
}

proof fn lemma_cut_line_with_only_deletes(s: Seq<char>, t: Seq<char>)
    ensures
        spec_cut_line_with(s, t) matches Some(v) ==> only_inserts(v, s),
{
    if let Some(idx) = spec_find(s, t) {
        lemma_cut_line_at_only_deletes(s, idx);
    }
}

proof fn lemma_cut_rule_lines_only_deletes(s: Seq<char>, lines: Seq<Seq<char>>, rule: LineRule)
    ensures
        only_inserts(spec_cut_rule_lines(s, lines, rule).0, s),
    decreases lines.len(),
{
    if lines.len() == 0 {
        lemma_only_inserts_refl(s);
    } else {
        lemma_cut_rule_lines_only_deletes(s, lines.drop_last(), rule);
        let prev = spec_cut_rule_lines(s, lines.drop_last(), rule);
        let t = crate::text::spec_trim(lines.last());
        lemma_cut_line_with_only_deletes(prev.0, t);
        if let Some(s2) = spec_cut_line_with(prev.0, t) {
            lemma_only_inserts_trans(s2, prev.0, s);
        }
    }
}

proof fn lemma_replace_by_nothing_only_deletes(s: Seq<char>, from: Seq<char>)
    ensures
        only_inserts(replace_all(s, from, Seq::empty()), s),
    decreases s.len(),
{
    if from.len() == 0 {
        lemma_only_inserts_refl(s);
    } else {
        match spec_find(s, from) {
            None => lemma_only_inserts_refl(s),
            Some(i) => if 0 <= i && i + from.len() <= s.len() {
                let rest = s.skip(i + from.len());
                lemma_replace_by_nothing_only_deletes(rest, from);
                let rr = replace_all(rest, from, Seq::empty());
                let r = s.take(i) + Seq::<char>::empty() + rr;
                let inner = choose|idx: Seq<int>| is_embedding(idx, rr, rest);
                let off = i + from.len();
                let idx = Seq::new(r.len(), |k: int| if k < i { k } else { inner[k - i] + off });
                assert forall|k: int| 0 <= k < idx.len() implies 0 <= #[trigger] idx[k] < s.len() && s[idx[k]] == r[k] by {
                    if k >= i {
                        assert(0 <= inner[k - i] < rest.len());
                        assert(rest[inner[k - i]] == rr[k - i]);
                        assert(s[inner[k - i] + off] == rest[inner[k - i]]);
                        assert(r[k] == rr[k - i]);
                    }
                }
                assert forall|k: int, j: int| 0 <= k < j < idx.len() implies #[trigger] idx[k] < #[trigger] idx[j] by {
                    if k >= i {
                        assert(inner[k - i] < inner[j - i]);
                    } else if j >= i {
                        assert(0 <= inner[j - i]);
                    }
                }
                assert(is_embedding(idx, r, s));
            } else {
                lemma_only_inserts_refl(s);
            },
        }
    }
}

proof fn lemma_drop_empty_blocks_only_deletes(s: Seq<char>)
    ensures
        only_inserts(spec_drop_empty_blocks(s), s),
{
    let s1 = replace_all(s, "ext {\n}\n"@, Seq::empty());
    let s2 = replace_all(s1, "dependencyManagement {\n\timports {\n\t}\n}\n"@, Seq::empty());
    let s3 = replace_all(s2, "    <properties>\n    </properties>\n"@, Seq::empty());
    lemma_replace_by_nothing_only_deletes(s, "ext {\n}\n"@);
    lemma_replace_by_nothing_only_deletes(s1, "dependencyManagement {\n\timports {\n\t}\n}\n"@);
    lemma_replace_by_nothing_only_deletes(s2, "    <properties>\n    </properties>\n"@);
    lemma_replace_by_nothing_only_deletes(
        s3,
        "    <dependencyManagement>\n        <dependencies>\n        </dependencies>\n    </dependencyManagement>\n"@,
    );
    lemma_only_inserts_trans(s2, s1, s);
    lemma_only_inserts_trans(s3, s2, s);
    lemma_only_inserts_trans(spec_drop_empty_blocks(s), s3, s);
}

proof fn lemma_cut_matches_only_deletes(s: Seq<char>, pats: Seq<Seq<char>>, maven: bool, from: int)
    ensures
        only_inserts(spec_cut_matches(s, pats, maven, from).0, s),
    decreases s.len(), s.len() - from,
{
    if from < 0 || from >= s.len() {
        lemma_only_inserts_refl(s);
    } else {
        match crate::changes::spec_earliest(s, pats, from) {
            None => lemma_only_inserts_refl(s),
            Some(idx) => if from <= idx <= s.len() {
                match (unit_cut(s, idx, maven), crate::changes::unit_start(s, idx, maven)) {
                    (Some(s2), Some(st)) => if s2.len() < s.len() && 0 <= st {
                        lemma_cut_matches_only_deletes(s2, pats, maven, st);
                        if maven {
                            lemma_cut_block_at_only_deletes(s, idx, "<dependency>"@, "</dependency>"@);
                        } else {
                            lemma_cut_line_at_only_deletes(s, idx);
                        }
                        lemma_only_inserts_trans(spec_cut_matches(s2, pats, maven, st).0, s2, s);
                    } else {
                        lemma_only_inserts_refl(s);
                    },
                    _ => if idx + 1 <= s.len() {
                        lemma_cut_matches_only_deletes(s, pats, maven, idx + 1);
                    } else {
                        lemma_only_inserts_refl(s);
                    },
                }
            } else {
                lemma_only_inserts_refl(s);
            },
        }
    }
}

proof fn lemma_snippet_removal_only_deletes(content: Seq<char>, maven: bool, snippet: Option<Seq<char>>)
    ensures
        only_inserts(spec_snippet_removal(content, maven, snippet).0, content),
{
    match snippet {
        None => lemma_only_inserts_refl(content),
        Some(text) => if maven {
            lemma_cut_rule_lines_only_deletes(
                content,
                crate::changes::spec_section_lines(text, "<properties>"@, "</properties>"@, true),
                LineRule::Property,
            );
        } else {
            let r1 = spec_cut_rule_lines(
                content,
                crate::changes::spec_section_lines(text, "ext {"@, "}"@, false),
                LineRule::ExtSet,
            );
            lemma_cut_rule_lines_only_deletes(
                content,
                crate::changes::spec_section_lines(text, "ext {"@, "}"@, false),
                LineRule::ExtSet,
            );
            lemma_cut_rule_lines_only_deletes(r1.0, crate::text::split_char(text, '\n'), LineRule::MavenBom);
            lemma_only_inserts_trans(
                spec_cut_rule_lines(r1.0, crate::text::split_char(text, '\n'), LineRule::MavenBom).0,
                r1.0,
                content,
            );
        },
    }
}

/// Removing dependencies only cuts text out: the new build file is the old
/// one with parts taken away, whatever the snippet.
pub proof fn lemma_removal_only_deletes(
    content: Seq<char>,
    to_remove: Seq<Seq<char>>,
    keys: Seq<Seq<char>>,
    maven: bool,
    snippet: Option<Seq<char>>,
)
    ensures
        only_inserts(spec_apply_removal(content, to_remove, keys, maven, snippet).0, content),
{
    let r = spec_snippet_removal(content, maven, snippet);
    lemma_snippet_removal_only_deletes(content, maven, snippet);
    let cleaned = spec_drop_empty_blocks(r.0);
    lemma_drop_empty_blocks_only_deletes(r.0);
    lemma_only_inserts_trans(cleaned, r.0, content);
    let own = crate::changes::removal_targets(crate::scan::spec_build_artifact_ids(content), keys, to_remove);
    let pats = crate::changes::removal_patterns(own + r.2, maven);
    lemma_cut_matches_only_deletes(cleaned, pats, maven, 0);
    lemma_only_inserts_trans(spec_cut_matches(cleaned, pats, maven, 0).0, cleaned, content);
}

proof fn lemma_remove_managed_only_deletes(c: Seq<char>, artifacts: Seq<Seq<char>>)
    ensures
        only_inserts(spec_remove_managed(c, artifacts).0, c),
    decreases artifacts.len(),
{
    if artifacts.len() == 0 {
        lemma_only_inserts_refl(c);
    } else {
        lemma_remove_managed_only_deletes(c, artifacts.drop_last());
        let r = spec_remove_managed(c, artifacts.drop_last());
        let a = artifacts.last();
        if let Some(dm) = spec_find(r.0, "<dependencyManagement>"@) {
            if let Some(idx) = spec_find_from(r.0, crate::changes::wrap_artifact(a), dm) {
                lemma_cut_block_at_only_deletes(r.0, idx, "<dependency>"@, "</dependency>"@);
                if let Some(t) = spec_cut_managed(r.0, a) {
                    lemma_only_inserts_trans(t, r.0, c);
                }
            }
        }
    }
}

/// Each removing step of a build file only cuts text out.
pub proof fn lemma_build_file_removals_only_delete(c: Seq<char>, text: Seq<char>, artifact: Seq<char>, maven: bool)
    ensures
        spec_remove_dependency_line(c, artifact, maven) matches Some(v) ==> only_inserts(v, c),
        only_inserts(spec_remove_bom(c, text, maven).0, c),
        only_inserts(spec_remove_properties(c, text, maven).0, c),
        only_inserts(spec_cleanup_empty_blocks(c, maven), c),
{
    if maven {
        if let Some(idx) = spec_find(c, crate::changes::wrap_artifact(artifact)) {
            lemma_cut_block_at_only_deletes(c, idx, "<dependency>"@, "</dependency>"@);
        }
        lemma_remove_managed_only_deletes(c, crate::changes::spec_maven_snippet_artifacts(text));
        lemma_snippet_removal_only_deletes(c, true, Some(text));
        let s1 = replace_all(c, "    <properties>\n    </properties>\n"@, Seq::empty());
        lemma_replace_by_nothing_only_deletes(c, "    <properties>\n    </properties>\n"@);
        lemma_replace_by_nothing_only_deletes(
            s1,
            "    <dependencyManagement>\n        <dependencies>\n        </dependencies>\n    </dependencyManagement>\n"@,
        );
        lemma_only_inserts_trans(spec_cleanup_empty_blocks(c, maven), s1, c);
    } else {
        lemma_cut_line_with_only_deletes(c, artifact);
        lemma_snippet_removal_only_deletes(c, false, Some(text));
        lemma_only_inserts_refl(c);
        let s1 = replace_all(c, "ext {\n}\n"@, Seq::empty());
        lemma_replace_by_nothing_only_deletes(c, "ext {\n}\n"@);
        lemma_replace_by_nothing_only_deletes(s1, "dependencyManagement {\n\timports {\n\t}\n}\n"@);
        lemma_only_inserts_trans(spec_cleanup_empty_blocks(c, maven), s1, c);
    }
}


// ── Adding a BOM twice ──

proof fn lemma_contains_iff(s: Seq<char>, t: Seq<char>)
    ensures
        spec_contains(s, t) <==> exists|i: int| #[trigger] spec_occurs_at(s, t, i),
{
    lemma_find_from_bounds(s, t, 0);
    if exists|i: int| #[trigger] spec_occurs_at(s, t, i) {
        let i = choose|i: int| #[trigger] spec_occurs_at(s, t, i);
        assert(0 <= i);
    }
}

pub proof fn lemma_contains_self(t: Seq<char>)
    ensures
        spec_contains(t, t),
{
    assert(t.subrange(0, t.len() as int) =~= t);
    assert(spec_occurs_at(t, t, 0));
    lemma_contains_iff(t, t);
}

proof fn lemma_contains_in_middle(a: Seq<char>, x: Seq<char>, b: Seq<char>, t: Seq<char>)
    requires
        spec_contains(x, t),
    ensures
        spec_contains(a + x + b, t),
{
    lemma_contains_iff(x, t);
    let i = choose|i: int| #[trigger] spec_occurs_at(x, t, i);
    let r = a + x + b;
    assert(r.subrange(a.len() + i, a.len() + i + t.len()) =~= x.subrange(i, i + t.len()));
    assert(spec_occurs_at(r, t, a.len() + i));
    lemma_contains_iff(r, t);
}

/// Where `s` holds `t`, some copy of it does not run across index `pos`,
/// so that text put in at `pos` leaves that copy whole.
pub open spec fn survives_at(s: Seq<char>, t: Seq<char>, pos: int) -> bool {
    spec_contains(s, t) ==> exists|i: int| #[trigger] spec_occurs_at(s, t, i) && !(i < pos < i + t.len())
}

proof fn lemma_insert_keeps(s: Seq<char>, pos: int, x: Seq<char>, t: Seq<char>)
    requires
        0 <= pos <= s.len(),
        spec_contains(s, t),
        survives_at(s, t, pos),
    ensures
        spec_contains(spec_insert_at(s, pos, x), t),
{
    let i = choose|i: int| #[trigger] spec_occurs_at(s, t, i) && !(i < pos < i + t.len());
    let r = spec_insert_at(s, pos, x);
    if i + t.len() <= pos {
        assert(r.subrange(i, i + t.len()) =~= s.subrange(i, i + t.len()));
        assert(spec_occurs_at(r, t, i));
    } else {
        assert(i >= pos);
        assert(r.subrange(i + x.len(), i + x.len() + t.len()) =~= s.subrange(i, i + t.len()));
        assert(spec_occurs_at(r, t, i + x.len()));
    }
    lemma_contains_iff(r, t);
}

/// `s[b]` is a `}` where the search for one found it.
proof fn lemma_found_brace(s: Seq<char>, from: int)
    ensures
        spec_find_from(s, "}"@, from) matches Some(b) ==> 0 <= b < s.len() && s[b] == '}',
{
    reveal_strlit("}");
    lemma_find_from_bounds(s, "}"@, from);
    if let Some(b) = spec_find_from(s, "}"@, from) {
        if from >= 0 {
            assert(s.subrange(b, b + 1)[0] == s[b]);
        } else {
            lemma_find_from_bounds(s, "}"@, from);
        }
    }
}

/// A line the rule picks is in `p` already, or in what collecting adds.
proof fn lemma_collect_covers(lines: Seq<Seq<char>>, rule: LineRule, ind: Seq<char>, p: Seq<char>, k: int)
    requires
        0 <= k < lines.len(),
        rule_holds(rule, spec_trim(lines[k])),
    ensures
        spec_contains(p, spec_trim(lines[k])) || spec_contains(
            spec_collect_rule_lines(lines, rule, ind, p),
            spec_trim(lines[k]),
        ),
    decreases lines.len(),
{
    let t = spec_trim(lines[k]);
    let prev = spec_collect_rule_lines(lines.drop_last(), rule, ind, p);
    let last = spec_trim(lines.last());
    if k == lines.len() - 1 {
        if !spec_contains(p, t) {
            lemma_contains_self(t);
            lemma_contains_in_middle(prev + ind, t, "\n"@, t);
        }
    } else {
        assert(lines.drop_last()[k] == lines[k]);
        lemma_collect_covers(lines.drop_last(), rule, ind, p, k);
        if spec_contains(prev, t) {
            lemma_contains_in_middle(Seq::empty(), prev, ind + last + "\n"@, t);
            assert(Seq::<char>::empty() + prev + (ind + last + "\n"@) =~= prev + ind + last + "\n"@);
            lemma_contains_in_middle(Seq::empty(), prev, Seq::empty(), t);
            assert(Seq::<char>::empty() + prev + Seq::<char>::empty() =~= prev);
        }
    }
}

/// Nothing is collected when `p` holds every line the rule picks.
proof fn lemma_collect_nothing(lines: Seq<Seq<char>>, rule: LineRule, ind: Seq<char>, p: Seq<char>)
    requires
        forall|k: int| 0 <= k < lines.len() && rule_holds(rule, spec_trim(#[trigger] lines[k])) ==> spec_contains(
            p,
            spec_trim(lines[k]),
        ),
    ensures
        spec_collect_rule_lines(lines, rule, ind, p) == Seq::<char>::empty(),
    decreases lines.len(),
{
    if lines.len() > 0 {
        assert forall|k: int| 0 <= k < lines.drop_last().len() && rule_holds(rule, spec_trim(#[trigger] lines.drop_last()[k])) implies spec_contains(
            p,
            spec_trim(lines.drop_last()[k]),
        ) by {
            assert(lines.drop_last()[k] == lines[k]);
        }
        lemma_collect_nothing(lines.drop_last(), rule, ind, p);
        assert(lines.last() == lines[lines.len() - 1]);
    }
}

/// A picked line is never empty.
proof fn lemma_picked_not_in_nothing(rule: LineRule, t: Seq<char>)
    requires
        rule_holds(rule, t),
    ensures
        !spec_contains(Seq::empty(), t),
{
    reveal_strlit("set(");
    reveal_strlit("mavenBom ");
    lemma_contains_iff(Seq::empty(), t);
}

/// The lines of the snippet that adding a BOM to a Gradle script copies:
/// its `ext` settings, and its `mavenBom` imports.
pub open spec fn gradle_ext_lines(text: Seq<char>) -> Seq<Seq<char>> {
    spec_section_lines(text, "ext {"@, "}"@, false)
}

/// Where adding `ext` settings puts them: before the `}` that closes the
/// script's first `ext {`, or, without one, where a new `ext` block goes,
/// before the first `dependencies {`. `None` where they are put at the end.
pub open spec fn ext_insert_point(c: Seq<char>) -> Option<int> {
    match spec_find(c, "ext {"@) {
        Some(te) => spec_find_from(c, "}"@, te),
        None => spec_find(c, "dependencies {"@),
    }
}

/// Where adding BOM imports puts them: before the `}` that closes the
/// `imports {` of the script's first `dependencyManagement {`.
pub open spec fn imports_insert_point(c: Seq<char>) -> Option<int> {
    match spec_find(c, "dependencyManagement {"@) {
        Some(tm) => match spec_find_from(c, "imports {"@, tm) {
            Some(im) => spec_find_from(c, "}"@, im),
            None => None,
        },
        None => None,
    }
}

/// The script after the first step of adding a BOM, its `ext` settings.
pub open spec fn ext_step(c: Seq<char>, text: Seq<char>) -> Seq<char> {
    edited(c, spec_insert_ext(c, spec_ext_to_add(text, c)))
}

/// Every line `rule` picks from `lines` that `s` holds keeps a copy clear
/// of `pos`.
pub open spec fn picked_survive(s: Seq<char>, lines: Seq<Seq<char>>, rule: LineRule, pos: int) -> bool {
    forall|k: int| 0 <= k < lines.len() && rule_holds(rule, spec_trim(#[trigger] lines[k])) ==> survives_at(
        s,
        spec_trim(lines[k]),
        pos,
    )
}

/// When something is put into `s` at `point`, every copied line (`ext`
/// setting or BOM import) that `s` holds keeps a copy clear of it.
pub open spec fn copies_survive(s: Seq<char>, text: Seq<char>, adds: bool, point: Option<int>) -> bool {
    adds ==> (point matches Some(p) ==> picked_survive(s, gradle_ext_lines(text), LineRule::ExtSet, p)
        && picked_survive(s, split_char(text, '\n'), LineRule::MavenBom, p))
}

/// The scripts and snippets on which a second `add_bom` is sure to find
/// everything in place: the script's first `ext {` is closed by a `}`, and
/// neither step of the first `add_bom` cuts through every copy of a line
/// it would otherwise add again.
pub open spec fn gradle_bom_repeatable(c: Seq<char>, text: Seq<char>) -> bool {
    &&& (spec_find(c, "ext {"@) matches Some(t) ==> spec_find_from(c, "}"@, t) is Some)
    &&& copies_survive(c, text, spec_ext_to_add(text, c).len() > 0, ext_insert_point(c))
    &&& copies_survive(
        ext_step(c, text),
        text,
        spec_bom_imports_to_add(text, ext_step(c, text)).len() > 0,
        imports_insert_point(ext_step(c, text)),
    )
}

/// What holds of a picked line in `s`: it is there.
pub open spec fn all_picked_in(s: Seq<char>, lines: Seq<Seq<char>>, rule: LineRule) -> bool {
    forall|k: int| 0 <= k < lines.len() && rule_holds(rule, spec_trim(#[trigger] lines[k])) ==> spec_contains(
        s,
        spec_trim(lines[k]),
    )
}

/// Every picked line `c` holds, `c2` holds too.
pub open spec fn picked_kept(c: Seq<char>, c2: Seq<char>, lines: Seq<Seq<char>>, rule: LineRule) -> bool {
    forall|k: int| 0 <= k < lines.len() && rule_holds(rule, spec_trim(#[trigger] lines[k])) && spec_contains(
        c,
        spec_trim(lines[k]),
    ) ==> spec_contains(c2, spec_trim(lines[k]))
}

proof fn lemma_ext_step(c: Seq<char>, text: Seq<char>)
    requires
        gradle_bom_repeatable(c, text),
    ensures
        all_picked_in(
            edited(c, spec_insert_ext(c, spec_ext_to_add(text, c))),
            gradle_ext_lines(text),
            LineRule::ExtSet,
        ),
        picked_kept(
            c,
            edited(c, spec_insert_ext(c, spec_ext_to_add(text, c))),
            split_char(text, '\n'),
            LineRule::MavenBom,
        ),
{
    let el = gradle_ext_lines(text);
    let bl = split_char(text, '\n');
    let a = spec_ext_to_add(text, c);
    let c1 = edited(c, spec_insert_ext(c, a));
    lemma_found_in_range(c, "ext {"@, 0);
    lemma_found_in_range(c, "dependencies {"@, 0);
    if a.len() == 0 {
        assert forall|k: int| 0 <= k < el.len() && rule_holds(LineRule::ExtSet, spec_trim(#[trigger] el[k])) implies spec_contains(
            c1,
            spec_trim(el[k]),
        ) by {
            lemma_collect_covers(el, LineRule::ExtSet, "\t"@, c, k);
            lemma_picked_not_in_nothing(LineRule::ExtSet, spec_trim(el[k]));
            assert(a =~= Seq::<char>::empty());
        }
    } else {
        match spec_find(c, "ext {"@) {
            Some(te) => {
                let b = spec_find_from(c, "}"@, te).unwrap();
                lemma_found_brace(c, te);
                assert(c1 == spec_insert_at(c, b, a));
                assert forall|k: int| 0 <= k < el.len() && rule_holds(LineRule::ExtSet, spec_trim(#[trigger] el[k])) implies spec_contains(
                    c1,
                    spec_trim(el[k]),
                ) by {
                    let t = spec_trim(el[k]);
                    lemma_collect_covers(el, LineRule::ExtSet, "\t"@, c, k);
                    if spec_contains(c, t) {
                        lemma_insert_keeps(c, b, a, t);
                    } else {
                        lemma_contains_in_middle(c.take(b), a, c.skip(b), t);
                    }
                }
                assert forall|k: int| 0 <= k < bl.len() && rule_holds(LineRule::MavenBom, spec_trim(#[trigger] bl[k]))
                    && spec_contains(c, spec_trim(bl[k])) implies spec_contains(c1, spec_trim(bl[k])) by {
                    lemma_insert_keeps(c, b, a, spec_trim(bl[k]));
                }
            },
            None => match spec_find(c, "dependencies {"@) {
                Some(d) => {
                    let x = "ext {\n"@ + a + "}\n\n"@;
                    assert(c1 == spec_insert_at(c, d, x));
                    assert forall|k: int| 0 <= k < el.len() && rule_holds(LineRule::ExtSet, spec_trim(#[trigger] el[k])) implies spec_contains(
                        c1,
                        spec_trim(el[k]),
                    ) by {
                        let t = spec_trim(el[k]);
                        lemma_collect_covers(el, LineRule::ExtSet, "\t"@, c, k);
                        if spec_contains(c, t) {
                            lemma_insert_keeps(c, d, x, t);
                        } else {
                            lemma_contains_in_middle("ext {\n"@, a, "}\n\n"@, t);
                            lemma_contains_in_middle(c.take(d), x, c.skip(d), t);
                        }
                    }
                    assert forall|k: int| 0 <= k < bl.len() && rule_holds(LineRule::MavenBom, spec_trim(#[trigger] bl[k]))
                        && spec_contains(c, spec_trim(bl[k])) implies spec_contains(c1, spec_trim(bl[k])) by {
                        lemma_insert_keeps(c, d, x, spec_trim(bl[k]));
                    }
                },
                None => {
                    let pre = c + "\next {\n"@;
                    assert(c1 == pre + a + "}\n"@);
                    assert forall|k: int| 0 <= k < el.len() && rule_holds(LineRule::ExtSet, spec_trim(#[trigger] el[k])) implies spec_contains(
                        c1,
                        spec_trim(el[k]),
                    ) by {
                        let t = spec_trim(el[k]);
                        lemma_collect_covers(el, LineRule::ExtSet, "\t"@, c, k);
                        if spec_contains(c, t) {
                            lemma_contains_in_middle(Seq::empty(), c, "\next {\n"@ + a + "}\n"@, t);
                            assert(Seq::<char>::empty() + c + ("\next {\n"@ + a + "}\n"@) =~= c1);
                        } else {
                            lemma_contains_in_middle(pre, a, "}\n"@, t);
                        }
                    }
                    assert forall|k: int| 0 <= k < bl.len() && rule_holds(LineRule::MavenBom, spec_trim(#[trigger] bl[k]))
                        && spec_contains(c, spec_trim(bl[k])) implies spec_contains(c1, spec_trim(bl[k])) by {
                        lemma_contains_in_middle(Seq::empty(), c, "\next {\n"@ + a + "}\n"@, spec_trim(bl[k]));
                        assert(Seq::<char>::empty() + c + ("\next {\n"@ + a + "}\n"@) =~= c1);
                    }
                },
            },
        }
    }
}

proof fn lemma_bom_step(c1: Seq<char>, text: Seq<char>)
    requires
        copies_survive(c1, text, spec_bom_imports_to_add(text, c1).len() > 0, imports_insert_point(c1)),
        all_picked_in(c1, gradle_ext_lines(text), LineRule::ExtSet),
    ensures
        ({
            let b = spec_bom_imports_to_add(text, c1);
            let c2 = edited(c1, spec_insert_bom_imports(c1, b));
            &&& all_picked_in(c2, gradle_ext_lines(text), LineRule::ExtSet)
            &&& (all_picked_in(c2, split_char(text, '\n'), LineRule::MavenBom) || (c2 == c1
                && spec_insert_bom_imports(c1, b) is None))
        }),
{
    let el = gradle_ext_lines(text);
    let bl = split_char(text, '\n');
    let b = spec_bom_imports_to_add(text, c1);
    let e = spec_insert_bom_imports(c1, b);
    let c2 = edited(c1, e);
    if b.len() == 0 {
        assert forall|k: int| 0 <= k < bl.len() && rule_holds(LineRule::MavenBom, spec_trim(#[trigger] bl[k])) implies spec_contains(
            c2,
            spec_trim(bl[k]),
        ) by {
            lemma_collect_covers(bl, LineRule::MavenBom, "\t\t"@, c1, k);
            lemma_picked_not_in_nothing(LineRule::MavenBom, spec_trim(bl[k]));
            assert(b =~= Seq::<char>::empty());
        }
    } else {
        lemma_found_in_range(c1, "dependencyManagement {"@, 0);
        match spec_find(c1, "dependencyManagement {"@) {
            Some(tm) => {
                lemma_found_in_range(c1, "imports {"@, tm);
                match spec_find_from(c1, "imports {"@, tm) {
                    Some(im) => {
                        lemma_found_brace(c1, im);
                        match spec_find_from(c1, "}"@, im) {
                            Some(bb) => {
                                assert(c2 == spec_insert_at(c1, bb, b));
                                assert forall|k: int| 0 <= k < el.len() && rule_holds(LineRule::ExtSet, spec_trim(#[trigger] el[k])) implies spec_contains(
                                    c2,
                                    spec_trim(el[k]),
                                ) by {
                                    lemma_insert_keeps(c1, bb, b, spec_trim(el[k]));
                                }
                                assert forall|k: int| 0 <= k < bl.len() && rule_holds(LineRule::MavenBom, spec_trim(#[trigger] bl[k])) implies spec_contains(
                                    c2,
                                    spec_trim(bl[k]),
                                ) by {
                                    let t = spec_trim(bl[k]);
                                    lemma_collect_covers(bl, LineRule::MavenBom, "\t\t"@, c1, k);
                                    if spec_contains(c1, t) {
                                        lemma_insert_keeps(c1, bb, b, t);
                                    } else {
                                        lemma_contains_in_middle(c1.take(bb), b, c1.skip(bb), t);
                                    }
                                }
                            },
                            None => {},
                        }
                    },
                    None => {},
                }
            },
            None => {
                let pre = c1 + "\ndependencyManagement {\n\timports {\n"@;
                let post = "\t}\n}\n"@;
                assert(c2 == pre + b + post);
                assert forall|k: int| 0 <= k < el.len() && rule_holds(LineRule::ExtSet, spec_trim(#[trigger] el[k])) implies spec_contains(
                    c2,
                    spec_trim(el[k]),
                ) by {
                    lemma_contains_in_middle(Seq::empty(), c1, "\ndependencyManagement {\n\timports {\n"@ + b + post, spec_trim(el[k]));
                    assert(Seq::<char>::empty() + c1 + ("\ndependencyManagement {\n\timports {\n"@ + b + post) =~= c2);
                }
                assert forall|k: int| 0 <= k < bl.len() && rule_holds(LineRule::MavenBom, spec_trim(#[trigger] bl[k])) implies spec_contains(
                    c2,
                    spec_trim(bl[k]),
                ) by {
                    let t = spec_trim(bl[k]);
                    lemma_collect_covers(bl, LineRule::MavenBom, "\t\t"@, c1, k);
                    if spec_contains(c1, t) {
                        lemma_contains_in_middle(Seq::empty(), c1, "\ndependencyManagement {\n\timports {\n"@ + b + post, t);
                        assert(Seq::<char>::empty() + c1 + ("\ndependencyManagement {\n\timports {\n"@ + b + post) =~= c2);
                    } else {
                        lemma_contains_in_middle(pre, b, post, t);
                    }
                }
            },
        }
    }
}

/// Adding a BOM to a Gradle script a second time changes nothing: no `set`
/// setting or `mavenBom` import is put in twice. This holds when the
/// script's first `ext {` is closed and the first call leaves a copy of
/// each copied line whole (see `gradle_bom_repeatable`).
pub proof fn lemma_gradle_add_bom_twice(c: Seq<char>, text: Seq<char>)
    requires
        gradle_bom_repeatable(c, text),
    ensures
        spec_add_bom(spec_add_bom(c, text, false), text, false) == spec_add_bom(c, text, false),
{
    let el = gradle_ext_lines(text);
    let bl = split_char(text, '\n');
    let c1 = edited(c, spec_insert_ext(c, spec_ext_to_add(text, c)));
    lemma_ext_step(c, text);
    lemma_bom_step(c1, text);
    let b = spec_bom_imports_to_add(text, c1);
    let c2 = edited(c1, spec_insert_bom_imports(c1, b));
    assert(c2 == spec_add_bom(c, text, false));
    lemma_collect_nothing(el, LineRule::ExtSet, "\t"@, c2);
    assert(spec_ext_to_add(text, c2) == Seq::<char>::empty());
    assert(spec_insert_ext(c2, spec_ext_to_add(text, c2)) is None);
    if all_picked_in(c2, bl, LineRule::MavenBom) {
        lemma_collect_nothing(bl, LineRule::MavenBom, "\t\t"@, c2);
        assert(spec_insert_bom_imports(c2, spec_bom_imports_to_add(text, c2)) is None);
    }
}


// ── Removing from a Gradle script ──

proof fn lemma_field_forms_in_patterns(targets: Seq<Seq<char>>, t: int)
    requires
        0 <= t < targets.len(),
    ensures
        forall|k: int| 0 <= k < 5 ==> gradle_field_patterns(targets).contains(
            #[trigger] gradle_field_forms(targets[t])[k],
        ),
    decreases targets.len(),
{
    let init = targets.drop_last();
    let pats = gradle_field_patterns(targets);
    let prev = gradle_field_patterns(init);
    let forms = gradle_field_forms(targets.last());
    assert(pats == prev + forms);
    if t == targets.len() - 1 {
        assert forall|k: int| 0 <= k < 5 implies pats.contains(#[trigger] gradle_field_forms(targets[t])[k]) by {
            assert(pats[prev.len() + k] == forms[k]);
        }
    } else {
        assert(init[t] == targets[t]);
        lemma_field_forms_in_patterns(init, t);
        assert forall|k: int| 0 <= k < 5 implies pats.contains(#[trigger] gradle_field_forms(targets[t])[k]) by {
            let j = choose|j: int| 0 <= j < prev.len() && prev[j] == gradle_field_forms(init[t])[k];
            assert(pats[j] == prev[j]);
        }
    }
}

/// A Gradle removal searches for each target in every quote style: as a
/// quotation of its own, and as a field after a `:` that ends at a single
/// quote, a double quote, or the next `:`.
pub proof fn lemma_gradle_removal_searches_every_quote_style(targets: Seq<Seq<char>>, a: Seq<char>)
    requires
        targets.contains(a),
    ensures
        removal_patterns(targets, false).contains("'"@ + a + "'"@),
        removal_patterns(targets, false).contains("\""@ + a + "\""@),
        removal_patterns(targets, false).contains(":"@ + a + "'"@),
        removal_patterns(targets, false).contains(":"@ + a + "\""@),
        removal_patterns(targets, false).contains(":"@ + a + ":"@),
{
    let t = choose|t: int| 0 <= t < targets.len() && targets[t] == a;
    lemma_field_forms_in_patterns(targets, t);
    let f = gradle_field_forms(a);
    assert(f[0] == "'"@ + a + "'"@);
    assert(f[1] == "\""@ + a + "\""@);
    assert(f[2] == ":"@ + a + "'"@);
    assert(f[3] == ":"@ + a + "\""@);
    assert(f[4] == ":"@ + a + ":"@);
}

proof fn lemma_earliest_at_most(s: Seq<char>, pats: Seq<Seq<char>>, from: int, p: Seq<char>, i: int)
    requires
        0 <= from <= i,
        pats.contains(p),
        spec_occurs_at(s, p, i),
    ensures
        spec_earliest(s, pats, from) matches Some(e) && from <= e <= i,
    decreases pats.len(),
{
    let prev = spec_earliest(s, pats.drop_last(), from);
    crate::changes::lemma_earliest_bounds(s, pats.drop_last(), from);
    lemma_find_from_bounds(s, pats.last(), from);
    if pats.last() == p {
        assert(spec_find_from(s, p, from) is Some);
    } else {
        let k = choose|k: int| 0 <= k < pats.len() && pats[k] == p;
        assert(k < pats.len() - 1);
        assert(pats.drop_last()[k] == p);
        lemma_earliest_at_most(s, pats.drop_last(), from, p, i);
    }
}

proof fn lemma_break_occurs(s: Seq<char>, j: int)
    requires
        0 <= j < s.len(),
        s[j] == '\n',
    ensures
        spec_occurs_at(s, "\n"@, j),
{
    reveal_strlit("\n");
    assert(s.subrange(j, j + 1) =~= "\n"@);
}

proof fn lemma_line_cut_exists(s: Seq<char>, i: int, before: int, after: int)
    requires
        0 <= before < i <= after < s.len(),
        s[before] == '\n',
        s[after] == '\n',
    ensures
        unit_cut(s, i, false) is Some,
{
    reveal_strlit("\n");
    lemma_break_occurs(s, before);
    lemma_break_occurs(s, after);
    lemma_rfind_before_bounds(s, "\n"@, i);
    lemma_find_from_bounds(s, "\n"@, i);
}

proof fn lemma_cut_matches_no_longer(s: Seq<char>, pats: Seq<Seq<char>>, maven: bool, from: int)
    ensures
        spec_cut_matches(s, pats, maven, from).0.len() <= s.len(),
    decreases s.len(), s.len() - from,
{
    if 0 <= from < s.len() {
        match spec_earliest(s, pats, from) {
            None => {},
            Some(idx) => if from <= idx <= s.len() {
                match (unit_cut(s, idx, maven), crate::changes::unit_start(s, idx, maven)) {
                    (Some(s2), Some(st)) => if s2.len() < s.len() && 0 <= st {
                        lemma_cut_matches_no_longer(s2, pats, maven, st);
                    },
                    _ => if idx + 1 <= s.len() {
                        lemma_cut_matches_no_longer(s, pats, maven, idx + 1);
                    },
                }
            },
        }
    }
}

proof fn lemma_gradle_cut_matches_cuts(s: Seq<char>, pats: Seq<Seq<char>>, from: int, p: Seq<char>, i: int, before: int, after: int)
    requires
        0 <= from <= i,
        pats.contains(p),
        spec_occurs_at(s, p, i),
        0 <= before < i <= after < s.len(),
        s[before] == '\n',
        s[after] == '\n',
    ensures
        spec_cut_matches(s, pats, false, from).1,
        spec_cut_matches(s, pats, false, from).0.len() < s.len(),
    decreases s.len() - from,
{
    lemma_earliest_at_most(s, pats, from, p, i);
    let idx = spec_earliest(s, pats, from).unwrap();
    crate::changes::lemma_unit_cut_shrinks(s, idx, false);
    if idx == i {
        lemma_line_cut_exists(s, i, before, after);
    }
    match (unit_cut(s, idx, false), crate::changes::unit_start(s, idx, false)) {
        (Some(s2), Some(st)) => {
            lemma_cut_matches_no_longer(s2, pats, false, st);
        },
        _ => {
            lemma_gradle_cut_matches_cuts(s, pats, idx + 1, p, i, before, after);
        },
    }
}

/// Removing from a Gradle script cuts the declaration of a target whatever
/// its quote style: where a target `a` stands after a `:` and before a
/// closing single or double quote, on a line with a line break before it
/// and one after it, the removal changes the script and makes it shorter.
pub proof fn lemma_gradle_removal_cuts_a_declared_target(
    s: Seq<char>,
    targets: Seq<Seq<char>>,
    a: Seq<char>,
    q: char,
    i: int,
    before: int,
    after: int,
)
    requires
        targets.contains(a),
        q == '\'' || q == '"',
        spec_occurs_at(s, ":"@ + a + seq![q], i),
        0 <= before < i <= after < s.len(),
        s[before] == '\n',
        s[after] == '\n',
    ensures
        spec_cut_matches(s, removal_patterns(targets, false), false, 0).1,
        spec_cut_matches(s, removal_patterns(targets, false), false, 0).0.len() < s.len(),
{
    reveal_strlit("'");
    reveal_strlit("\"");
    lemma_gradle_removal_searches_every_quote_style(targets, a);
    let p = ":"@ + a + seq![q];
    if q == '\'' {
        assert(p =~= ":"@ + a + "'"@);
    } else {
        assert(p =~= ":"@ + a + "\""@);
    }
    lemma_gradle_cut_matches_cuts(s, removal_patterns(targets, false), 0, p, i, before, after);
}

} // verus!
