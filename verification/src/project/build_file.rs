//! Build files as objects: a Gradle script or a POM, read and changed one
//! step at a time.
use vstd::prelude::*;
use crate::changes::{
    bom_entries, bom_entries_exec, generate_java_block, insert_bom, insert_bom_imports,
    insert_dependencies, insert_ext, insert_plugins, insert_properties, managed_blocks,
    note_views, plugin_additions, properties_to_add, ext_to_add, bom_imports_to_add,
    read_generate_java_block, snippet_removal, spec_bom_imports_to_add, spec_ext_to_add,
    spec_insert_bom, spec_insert_bom_imports, spec_insert_dependencies, spec_insert_ext,
    spec_insert_plugins, spec_insert_properties, spec_maven_snippet_artifacts,
    spec_plugin_additions, spec_properties_to_add, spec_snippet_removal, wrap_artifact,
    maven_snippet_artifacts, ChangeNote, NoteKind,
};
use crate::edit::{cut_block_at, cut_line_with, spec_cut_block_at, spec_cut_line_with};
use crate::scan::{
    gradle_artifact_ids, gradle_boot_version, maven_artifact_ids, maven_boot_version,
    spec_gradle_artifact_ids, spec_gradle_boot_version, spec_maven_artifact_ids,
    spec_maven_boot_version, major_ok, spec_build_boot_version, boot_version_of, version_tag_after,
};
use crate::text::{
    contains_text, extend, from_chars, has_suffix, index_of, index_of_from, lemma_find_from_bounds,
    replace_all, replace_all_chars, spec_contains, spec_ends_with, spec_find, lemma_trim_keeps_first,
    spec_find_from, string_views, strings_of, to_chars, views,
};

verus! {

// ── What each step does ──

/// The new text where an edit applies, else the old one.
pub open spec fn edited(c: Seq<char>, e: Option<Seq<char>>) -> Seq<char> {
    match e {
        Some(v) => v,
        None => c,
    }
}

pub open spec fn spec_build_tool_name(file_name: Seq<char>, maven: bool) -> Seq<char> {
    if maven {
        "Maven"@
    } else if spec_ends_with(file_name, ".kts"@) {
        "Gradle Kotlin DSL"@
    } else {
        "Gradle Groovy DSL"@
    }
}

pub open spec fn spec_file_artifact_ids(c: Seq<char>, maven: bool) -> Seq<Seq<char>> {
    if maven {
        spec_maven_artifact_ids(c)
    } else {
        spec_gradle_artifact_ids(c)
    }
}

pub open spec fn spec_file_boot_version(c: Seq<char>, maven: bool) -> Option<Seq<char>> {
    if maven {
        spec_maven_boot_version(c)
    } else {
        spec_gradle_boot_version(c)
    }
}

/// Dependency text put before the last `</dependencies>` (POM) or the `}`
/// closing the last `dependencies {` (Gradle).
pub open spec fn spec_add_dependencies(c: Seq<char>, lines: Seq<char>, maven: bool) -> Seq<char> {
    edited(c, spec_insert_dependencies(c, lines, maven))
}

/// The text without the dependency of artifact `a`: the `<dependency>`
/// block around its first `<artifactId>` element (POM), or the line of its
/// first occurrence (Gradle); none when that cannot be cut.
pub open spec fn spec_remove_dependency_line(c: Seq<char>, a: Seq<char>, maven: bool) -> Option<Seq<char>> {
    if maven {
        match spec_find(c, wrap_artifact(a)) {
            Some(idx) => spec_cut_block_at(c, idx, "<dependency>"@, "</dependency>"@),
            None => None,
        }
    } else {
        spec_cut_line_with(c, a)
    }
}

/// The snippet's managed dependencies (POM) or `ext` settings and BOM
/// imports (Gradle) that the file lacks, added.
pub open spec fn spec_add_bom(c: Seq<char>, text: Seq<char>, maven: bool) -> Seq<char> {
    if maven {
        edited(c, spec_insert_bom(c, bom_entries(managed_blocks(text), c)))
    } else {
        let c1 = edited(c, spec_insert_ext(c, spec_ext_to_add(text, c)));
        edited(c1, spec_insert_bom_imports(c1, spec_bom_imports_to_add(text, c1)))
    }
}

/// The POM's `<dependencyManagement>` without the `<dependency>` block of
/// artifact `a`.
pub open spec fn spec_cut_managed(c: Seq<char>, a: Seq<char>) -> Option<Seq<char>> {
    match spec_find(c, "<dependencyManagement>"@) {
        None => None,
        Some(dm) => match spec_find_from(c, wrap_artifact(a), dm) {
            None => None,
            Some(idx) => spec_cut_block_at(c, idx, "<dependency>"@, "</dependency>"@),
        },
    }
}

/// Each of the artifacts cut from the POM's `<dependencyManagement>` in
/// turn, and whether any was.
pub open spec fn spec_remove_managed(c: Seq<char>, artifacts: Seq<Seq<char>>) -> (Seq<char>, bool)
    decreases artifacts.len(),
{
    if artifacts.len() == 0 {
        (c, false)
    } else {
        let r = spec_remove_managed(c, artifacts.drop_last());
        match spec_cut_managed(r.0, artifacts.last()) {
            Some(t) => (t, true),
            None => r,
        }
    }
}

/// The snippet's managed artifacts cut from the POM's
/// `<dependencyManagement>`, or its `ext` settings and BOM imports cut from
/// the Gradle script; and whether anything was cut.
pub open spec fn spec_remove_bom(c: Seq<char>, text: Seq<char>, maven: bool) -> (Seq<char>, bool) {
    if maven {
        spec_remove_managed(c, spec_maven_snippet_artifacts(text))
    } else {
        let r = spec_snippet_removal(c, false, Some(text));
        (r.0, r.1)
    }
}

/// The snippet's properties the POM lacks, added (a Gradle script keeps
/// its settings in `ext`, see `spec_add_bom`).
pub open spec fn spec_add_properties(c: Seq<char>, text: Seq<char>, maven: bool) -> Seq<char> {
    if maven {
        edited(c, spec_insert_properties(c, spec_properties_to_add(text, c)))
    } else {
        c
    }
}

/// The lines of the snippet's properties cut from the POM, and whether any
/// was.
pub open spec fn spec_remove_properties(c: Seq<char>, text: Seq<char>, maven: bool) -> (Seq<char>, bool) {
    if maven {
        let r = spec_snippet_removal(c, true, Some(text));
        (r.0, r.1)
    } else {
        (c, false)
    }
}

/// The snippet's plugins added, and for Gradle its `generateJava` block
/// where the script has none; with what was added, for the user to see.
pub open spec fn spec_add_plugins(c: Seq<char>, text: Seq<char>, maven: bool) -> (Seq<char>, Seq<(NoteKind, Seq<char>)>) {
    let p = spec_plugin_additions(text, maven);
    let c1 = edited(c, spec_insert_plugins(c, p.0, maven));
    if maven {
        (c1, p.1)
    } else {
        match generate_java_block(text) {
            None => (c1, p.1),
            Some(g) => (
                if !spec_contains(c1, "generateJava {"@) {
                    c1 + "\n"@ + g + "\n"@
                } else {
                    c1
                },
                p.1.push((NoteKind::ConfigBlock, "generateJava"@)),
            ),
        }
    }
}

/// The empty blocks the file's own kind of removal can leave, dropped.
pub open spec fn spec_cleanup_empty_blocks(c: Seq<char>, maven: bool) -> Seq<char> {
    if maven {
        replace_all(
            replace_all(c, "    <properties>\n    </properties>\n"@, Seq::empty()),
            "    <dependencyManagement>\n        <dependencies>\n        </dependencies>\n    </dependencyManagement>\n"@,
            Seq::empty(),
        )
    } else {
        replace_all(
            replace_all(c, "ext {\n}\n"@, Seq::empty()),
            "dependencyManagement {\n\timports {\n\t}\n}\n"@,
            Seq::empty(),
        )
    }
}

// ── The trait ──

/// A build file: its name, its kind, its text, and the steps that change
/// its dependencies. Every step keeps the name and the kind.
pub trait BuildFile {
    spec fn name_view(&self) -> Seq<char>;

    spec fn maven_view(&self) -> bool;

    spec fn content_view(&self) -> Seq<char>;

    fn file_name(&self) -> (r: &str)
        ensures
            r@ == self.name_view(),
    ;

    fn is_maven(&self) -> (r: bool)
        ensures
            r == self.maven_view(),
    ;

    fn content(&self) -> (r: &str)
        ensures
            r@ == self.content_view(),
    ;

    fn set_content(&mut self, content: String)
        ensures
            final(self).content_view() == content@,
            final(self).name_view() == old(self).name_view(),
            final(self).maven_view() == old(self).maven_view(),
    ;

    fn build_tool_name(&self) -> (r: &str)
        ensures
            r@ == spec_build_tool_name(self.name_view(), self.maven_view()),
    ;

    fn extract_artifact_ids(&self) -> (r: Vec<String>)
        ensures
            string_views(r@) == spec_file_artifact_ids(self.content_view(), self.maven_view()),
    ;

    fn extract_boot_version(&self) -> (r: Option<String>)
        ensures
            match r {
                Some(v) => spec_file_boot_version(self.content_view(), self.maven_view()) == Some(v@),
                None => spec_file_boot_version(self.content_view(), self.maven_view()) is None,
            },
    ;

    fn add_dependencies(&mut self, lines: &str)
        ensures
            final(self).content_view() == spec_add_dependencies(old(self).content_view(), lines@, old(self).maven_view()),
            final(self).name_view() == old(self).name_view(),
            final(self).maven_view() == old(self).maven_view(),
    ;

    fn remove_dependency_line(&mut self, artifact_id: &str) -> (r: bool)
        ensures
            r == spec_remove_dependency_line(old(self).content_view(), artifact_id@, old(self).maven_view()) is Some,
            final(self).content_view() == edited(
                old(self).content_view(),
                spec_remove_dependency_line(old(self).content_view(), artifact_id@, old(self).maven_view()),
            ),
            final(self).name_view() == old(self).name_view(),
            final(self).maven_view() == old(self).maven_view(),
    ;

    fn add_bom(&mut self, downloaded_text: &str)
        ensures
            final(self).content_view() == spec_add_bom(old(self).content_view(), downloaded_text@, old(self).maven_view()),
            final(self).name_view() == old(self).name_view(),
            final(self).maven_view() == old(self).maven_view(),
    ;

    fn remove_bom(&mut self, downloaded_text: &str) -> (r: bool)
        ensures
            (final(self).content_view(), r) == spec_remove_bom(old(self).content_view(), downloaded_text@, old(self).maven_view()),
            final(self).name_view() == old(self).name_view(),
            final(self).maven_view() == old(self).maven_view(),
    ;

    fn add_properties(&mut self, downloaded_text: &str)
        ensures
            final(self).content_view() == spec_add_properties(old(self).content_view(), downloaded_text@, old(self).maven_view()),
            final(self).name_view() == old(self).name_view(),
            final(self).maven_view() == old(self).maven_view(),
    ;

    fn remove_properties(&mut self, downloaded_text: &str) -> (r: bool)
        ensures
            (final(self).content_view(), r) == spec_remove_properties(old(self).content_view(), downloaded_text@, old(self).maven_view()),
            final(self).name_view() == old(self).name_view(),
            final(self).maven_view() == old(self).maven_view(),
    ;

    fn add_plugins(&mut self, downloaded_text: &str) -> (r: Vec<ChangeNote>)
        ensures
            (final(self).content_view(), note_views(r@)) == spec_add_plugins(old(self).content_view(), downloaded_text@, old(self).maven_view()),
            final(self).name_view() == old(self).name_view(),
            final(self).maven_view() == old(self).maven_view(),
    ;

    fn cleanup_empty_blocks(&mut self)
        ensures
            final(self).content_view() == spec_cleanup_empty_blocks(old(self).content_view(), old(self).maven_view()),
            final(self).name_view() == old(self).name_view(),
            final(self).maven_view() == old(self).maven_view(),
    ;
}

// ── Steps shared by both kinds ──

fn ids_of(c: &String, maven: bool) -> (r: Vec<String>)
    ensures
        string_views(r@) == spec_file_artifact_ids(c@, maven),
{
    let cs = to_chars(c.as_str());
    let ids = if maven { maven_artifact_ids(&cs) } else { gradle_artifact_ids(&cs) };
    strings_of(&ids)
}

fn boot_of(c: &String, maven: bool) -> (r: Option<String>)
    ensures
        match r {
            Some(v) => spec_file_boot_version(c@, maven) == Some(v@),
            None => spec_file_boot_version(c@, maven) is None,
        },
{
    let cs = to_chars(c.as_str());
    if maven { maven_boot_version(&cs) } else { gradle_boot_version(&cs) }
}

fn text_after(c: Vec<char>, e: Option<Vec<char>>) -> (r: Vec<char>)
    ensures
        r@ == edited(c@, match e {
            Some(v) => Some(v@),
            None => None,
        }),
{
    match e {
        Some(v) => v,
        None => c,
    }
}

fn with_dependencies(c: &String, lines: &str, maven: bool) -> (r: String)
    ensures
        r@ == spec_add_dependencies(c@, lines@, maven),
{
    let cs = to_chars(c.as_str());
    let e = insert_dependencies(&cs, &to_chars(lines), maven);
    from_chars(&text_after(cs, e))
}

fn without_dependency(c: &String, a: &str, maven: bool) -> (r: Option<String>)
    ensures
        match r {
            Some(v) => spec_remove_dependency_line(c@, a@, maven) == Some(v@),
            None => spec_remove_dependency_line(c@, a@, maven) is None,
        },
{
    let cs = to_chars(c.as_str());
    let e = if maven {
        let mut pat = to_chars("<artifactId>");
        extend(&mut pat, &to_chars(a));
        extend(&mut pat, &to_chars("</artifactId>"));
        proof {
            lemma_find_from_bounds(cs@, pat@, 0);
        }
        match index_of(&cs, &pat) {
            Some(idx) => cut_block_at(&cs, idx, &to_chars("<dependency>"), &to_chars("</dependency>")),
            None => None,
        }
    } else {
        cut_line_with(&cs, &to_chars(a))
    };
    match e {
        Some(v) => Some(from_chars(&v)),
        None => None,
    }
}

fn with_bom(c: &String, text: &str, maven: bool) -> (r: String)
    ensures
        r@ == spec_add_bom(c@, text@, maven),
{
    let cs = to_chars(c.as_str());
    let t = to_chars(text);
    if maven {
        let bom = bom_entries_exec(&t, &cs);
        let e = insert_bom(&cs, &bom);
        from_chars(&text_after(cs, e))
    } else {
        let ext = ext_to_add(&t, &cs);
        let e1 = insert_ext(&cs, &ext);
        let c1 = text_after(cs, e1);
        let imports = bom_imports_to_add(&t, &c1);
        let e2 = insert_bom_imports(&c1, &imports);
        from_chars(&text_after(c1, e2))
    }
}

fn cut_managed(c: &Vec<char>, a: &Vec<char>) -> (r: Option<Vec<char>>)
    ensures
        match r {
            Some(v) => spec_cut_managed(c@, a@) == Some(v@),
            None => spec_cut_managed(c@, a@) is None,
        },
{
    let dm = to_chars("<dependencyManagement>");
    proof {
        lemma_find_from_bounds(c@, dm@, 0);
    }
    match index_of(c, &dm) {
        None => None,
        Some(d) => {
            let mut pat = to_chars("<artifactId>");
            extend(&mut pat, a);
            extend(&mut pat, &to_chars("</artifactId>"));
            proof {
                lemma_find_from_bounds(c@, pat@, d as int);
            }
            match index_of_from(c, &pat, d) {
                None => None,
                Some(idx) => cut_block_at(c, idx, &to_chars("<dependency>"), &to_chars("</dependency>")),
            }
        },
    }
}

fn without_bom(c: &String, text: &str, maven: bool) -> (r: (String, bool))
    ensures
        (r.0@, r.1) == spec_remove_bom(c@, text@, maven),
{
    let cs = to_chars(c.as_str());
    let t = to_chars(text);
    if maven {
        let arts = maven_snippet_artifacts(&t);
        let ghost av = views(arts@);
        let mut cur = cs;
        let mut changed = false;
        let mut i: usize = 0;
        assert(av.take(0) =~= Seq::<Seq<char>>::empty());
        while i < arts.len()
            invariant
                i <= arts.len(),
                av == views(arts@),
                (cur@, changed) == spec_remove_managed(c@, av.take(i as int)),
            decreases arts.len() - i,
        {
            assert(av.take(i + 1).drop_last() == av.take(i as int));
            assert(av.take(i + 1).last() == arts@[i as int]@);
            match cut_managed(&cur, &arts[i]) {
                Some(v) => {
                    cur = v;
                    changed = true;
                },
                None => {},
            }
            i = i + 1;
        }
        assert(av.take(arts.len() as int) == av);
        (from_chars(&cur), changed)
    } else {
        let r = snippet_removal(&cs, false, Some(&t));
        (from_chars(&r.0), r.1)
    }
}

fn with_properties(c: &String, text: &str, maven: bool) -> (r: String)
    ensures
        r@ == spec_add_properties(c@, text@, maven),
{
    if !maven {
        return c.clone();
    }
    let cs = to_chars(c.as_str());
    let props = properties_to_add(&to_chars(text), &cs);
    let e = insert_properties(&cs, &props);
    from_chars(&text_after(cs, e))
}

fn without_properties(c: &String, text: &str, maven: bool) -> (r: (String, bool))
    ensures
        (r.0@, r.1) == spec_remove_properties(c@, text@, maven),
{
    if !maven {
        return (c.clone(), false);
    }
    let cs = to_chars(c.as_str());
    let t = to_chars(text);
    let r = snippet_removal(&cs, true, Some(&t));
    (from_chars(&r.0), r.1)
}

fn with_plugins(c: &String, text: &str, maven: bool) -> (r: (String, Vec<ChangeNote>))
    ensures
        (r.0@, note_views(r.1@)) == spec_add_plugins(c@, text@, maven),
{
    let cs = to_chars(c.as_str());
    let t = to_chars(text);
    let (lines, mut notes) = plugin_additions(&t, maven);
    let e = insert_plugins(&cs, &lines, maven);
    let c1 = text_after(cs, e);
    if maven {
        return (from_chars(&c1), notes);
    }
    match read_generate_java_block(&t) {
        None => (from_chars(&c1), notes),
        Some(g) => {
            let n = ChangeNote { kind: NoteKind::ConfigBlock, text: "generateJava".to_owned() };
            assert(note_views(notes@.push(n)) =~= note_views(notes@).push((n.kind, n.text@)));
            notes.push(n);
            if !contains_text(&c1, &to_chars("generateJava {")) {
                let mut x = c1;
                extend(&mut x, &to_chars("\n"));
                extend(&mut x, &g);
                extend(&mut x, &to_chars("\n"));
                (from_chars(&x), notes)
            } else {
                (from_chars(&c1), notes)
            }
        },
    }
}

fn cleaned(c: &String, maven: bool) -> (r: String)
    ensures
        r@ == spec_cleanup_empty_blocks(c@, maven),
{
    let cs = to_chars(c.as_str());
    let empty: Vec<char> = Vec::new();
    proof {
        reveal_strlit("ext {\n}\n");
        reveal_strlit("dependencyManagement {\n\timports {\n\t}\n}\n");
        reveal_strlit("    <properties>\n    </properties>\n");
        reveal_strlit(
            "    <dependencyManagement>\n        <dependencies>\n        </dependencies>\n    </dependencyManagement>\n",
        );
    }
    if maven {
        let s1 = replace_all_chars(&cs, &to_chars("    <properties>\n    </properties>\n"), &empty);
        from_chars(
            &replace_all_chars(
                &s1,
                &to_chars(
                    "    <dependencyManagement>\n        <dependencies>\n        </dependencies>\n    </dependencyManagement>\n",
                ),
                &empty,
            ),
        )
    } else {
        let s1 = replace_all_chars(&cs, &to_chars("ext {\n}\n"), &empty);
        from_chars(
            &replace_all_chars(&s1, &to_chars("dependencyManagement {\n\timports {\n\t}\n}\n"), &empty),
        )
    }
}

// ── Gradle ──

/// A Gradle build script, Kotlin or Groovy.
pub struct GradleBuildFile {
    file_name: String,
    content: String,
}

impl GradleBuildFile {
    pub fn new(file_name: String, content: String) -> (r: Self)
        ensures
            r.name_view() == file_name@,
            r.content_view() == content@,
            !r.maven_view(),
    {
        Self { file_name, content }
    }
}

impl BuildFile for GradleBuildFile {
    closed spec fn name_view(&self) -> Seq<char> {
        self.file_name@
    }

    closed spec fn maven_view(&self) -> bool {
        false
    }

    closed spec fn content_view(&self) -> Seq<char> {
        self.content@
    }

    fn file_name(&self) -> (r: &str) {
        self.file_name.as_str()
    }

    fn is_maven(&self) -> (r: bool) {
        false
    }

    fn content(&self) -> (r: &str) {
        self.content.as_str()
    }

    fn set_content(&mut self, content: String) {
        self.content = content;
    }

    fn build_tool_name(&self) -> (r: &str) {
        if has_suffix(&to_chars(self.file_name.as_str()), &to_chars(".kts")) {
            "Gradle Kotlin DSL"
        } else {
            "Gradle Groovy DSL"
        }
    }

    fn extract_artifact_ids(&self) -> (r: Vec<String>) {
        ids_of(&self.content, false)
    }

    fn extract_boot_version(&self) -> (r: Option<String>) {
        boot_of(&self.content, false)
    }

    fn add_dependencies(&mut self, lines: &str) {
        self.content = with_dependencies(&self.content, lines, false);
    }

    fn remove_dependency_line(&mut self, artifact_id: &str) -> (r: bool) {
        match without_dependency(&self.content, artifact_id, false) {
            Some(v) => {
                self.content = v;
                true
            },
            None => false,
        }
    }

    fn add_bom(&mut self, downloaded_text: &str) {
        self.content = with_bom(&self.content, downloaded_text, false);
    }

    fn remove_bom(&mut self, downloaded_text: &str) -> (r: bool) {
        let (c, changed) = without_bom(&self.content, downloaded_text, false);
        self.content = c;
        changed
    }

    fn add_properties(&mut self, downloaded_text: &str) {
    }

    fn remove_properties(&mut self, downloaded_text: &str) -> (r: bool) {
        false
    }

    fn add_plugins(&mut self, downloaded_text: &str) -> (r: Vec<ChangeNote>) {
        let (c, notes) = with_plugins(&self.content, downloaded_text, false);
        self.content = c;
        notes
    }

    fn cleanup_empty_blocks(&mut self) {
        self.content = cleaned(&self.content, false);
    }
}

// ── Maven ──

/// A Maven POM.
pub struct MavenBuildFile {
    content: String,
}

impl MavenBuildFile {
    pub fn new(content: String) -> (r: Self)
        ensures
            r.name_view() == "pom.xml"@,
            r.content_view() == content@,
            r.maven_view(),
    {
        Self { content }
    }
}

impl BuildFile for MavenBuildFile {
    closed spec fn name_view(&self) -> Seq<char> {
        "pom.xml"@
    }

    closed spec fn maven_view(&self) -> bool {
        true
    }

    closed spec fn content_view(&self) -> Seq<char> {
        self.content@
    }

    fn file_name(&self) -> (r: &str) {
        "pom.xml"
    }

    fn is_maven(&self) -> (r: bool) {
        true
    }

    fn content(&self) -> (r: &str) {
        self.content.as_str()
    }

    fn set_content(&mut self, content: String) {
        self.content = content;
    }

    fn build_tool_name(&self) -> (r: &str) {
        "Maven"
    }

    fn extract_artifact_ids(&self) -> (r: Vec<String>) {
        ids_of(&self.content, true)
    }

    fn extract_boot_version(&self) -> (r: Option<String>) {
        boot_of(&self.content, true)
    }

    fn add_dependencies(&mut self, lines: &str) {
        self.content = with_dependencies(&self.content, lines, true);
    }

    fn remove_dependency_line(&mut self, artifact_id: &str) -> (r: bool) {
        match without_dependency(&self.content, artifact_id, true) {
            Some(v) => {
                self.content = v;
                true
            },
            None => false,
        }
    }

    fn add_bom(&mut self, downloaded_text: &str) {
        self.content = with_bom(&self.content, downloaded_text, true);
    }

    fn remove_bom(&mut self, downloaded_text: &str) -> (r: bool) {
        let (c, changed) = without_bom(&self.content, downloaded_text, true);
        self.content = c;
        changed
    }

    fn add_properties(&mut self, downloaded_text: &str) {
        self.content = with_properties(&self.content, downloaded_text, true);
    }

    fn remove_properties(&mut self, downloaded_text: &str) -> (r: bool) {
        let (c, changed) = without_properties(&self.content, downloaded_text, true);
        self.content = c;
        changed
    }

    fn add_plugins(&mut self, downloaded_text: &str) -> (r: Vec<ChangeNote>) {
        let (c, notes) = with_plugins(&self.content, downloaded_text, true);
        self.content = c;
        notes
    }

    fn cleanup_empty_blocks(&mut self) {
        self.content = cleaned(&self.content, true);
    }
}


// ── The Spring Boot version of a build file ──

proof fn lemma_boot_version_of_major(v: Option<Seq<char>>)
    ensures
        boot_version_of(v) matches Some(b) ==> major_ok(b),
{
    if let Some(t) = v {
        if major_ok(t) {
            lemma_trim_keeps_first(t);
        }
    }
}

/// The Spring Boot version of a build file is what reading it as a Gradle
/// script gives, else what reading it as a POM gives; and every version
/// read names a Spring Boot 2, 3 or 4 release.
pub proof fn lemma_build_boot_version_reads_both_files(c: Seq<char>)
    ensures
        spec_build_boot_version(c) == match spec_file_boot_version(c, false) {
            Some(v) => Some(v),
            None => spec_file_boot_version(c, true),
        },
        spec_build_boot_version(c) matches Some(v) ==> major_ok(v),
{
    match spec_gradle_boot_version(c) {
        Some(v) => {
            let vi = spec_find_from(c, "version"@, spec_find(c, "org.springframework.boot"@).unwrap()).unwrap();
            let lit = crate::scan::version_literal(c.skip(vi + "version"@.len()));
            lemma_trim_keeps_first(lit);
        },
        None => {
            lemma_boot_version_of_major(version_tag_after(c, 0));
            match spec_find(c, "<artifactId>spring-boot-starter-parent</artifactId>"@) {
                Some(idx) => lemma_boot_version_of_major(version_tag_after(c, idx)),
                None => {},
            }
        },
    }
}

} // verus!
