use springx::changes::NoteKind;
use springx::deps::{
    deps_to_add, deps_to_remove, detect_existing_deps, edit_build_file, extract_artifact_ids_from_content,
    extract_boot_version, plan_before_picking, plan_named, plan_picked, removal_metadata, resolve_cli_deps,
    resolve_key, snippet_url, DepsPlan, NoChange,
};
use springx::metadata::{fallback, DepGroup, DepOption, Metadata};
use springx::update::{select_updates, UpdateNote};
use springx::project::dependency_map::ArtifactMapper;

fn dep(key: &str, text: &str) -> DepOption {
    DepOption { key: key.into(), text: text.into(), description: String::new(), group: "G".into(), version_range: None }
}

fn meta() -> Metadata {
    let mut m = fallback();
    let deps = vec![dep("web", "Spring Web"), dep("data-jpa", "Spring Data JPA"), dep("lombok", "Lombok")];
    m.dependency_groups = vec![DepGroup { name: "G".into(), deps: deps.iter().map(|d| d.clone_dep()).collect() }];
    m.all_deps = deps;
    m
}

const GRADLE: &str = "plugins {\n\tid 'java'\n\tid 'org.springframework.boot' version '3.4.4'\n}\n\ndependencies {\n\timplementation 'org.springframework.boot:spring-boot-starter'\n\tcompileOnly 'org.projectlombok:lombok'\n}\n";

const GRADLE_SNIPPET: &str = "plugins {\n\tid 'java'\n\tid 'org.springframework.boot' version '3.4.4'\n}\n\ndependencies {\n\timplementation 'org.springframework.boot:spring-boot-starter-web'\n\ttestImplementation 'org.springframework.boot:spring-boot-starter-test'\n}\n";

const POM: &str = "<project>\n    <parent>\n        <groupId>org.springframework.boot</groupId>\n        <artifactId>spring-boot-starter-parent</artifactId>\n        <version>3.3.1</version>\n    </parent>\n    <dependencies>\n        <dependency>\n            <groupId>org.springframework.boot</groupId>\n            <artifactId>spring-boot-starter-data-jpa</artifactId>\n        </dependency>\n    </dependencies>\n</project>\n";

const POM_SNIPPET: &str = "<project>\n\t<dependencies>\n\t\t<dependency>\n\t\t\t<groupId>org.springframework.boot</groupId>\n\t\t\t<artifactId>spring-boot-starter-web</artifactId>\n\t\t</dependency>\n\t\t<dependency>\n\t\t\t<groupId>org.springframework.boot</groupId>\n\t\t\t<artifactId>spring-boot-starter-test</artifactId>\n\t\t\t<scope>test</scope>\n\t\t</dependency>\n\t</dependencies>\n</project>\n";

#[test]
fn boot_version_from_gradle_plugin_or_pom_parent() {
    assert_eq!(extract_boot_version(GRADLE), Some("3.4.4".to_string()));
    assert_eq!(extract_boot_version(POM), Some("3.3.1".to_string()));
    assert_eq!(extract_boot_version("<project><version>1.0.0</version></project>"), None);
    assert_eq!(extract_boot_version("<version> 2.7.0 </version>"), None);
    assert_eq!(extract_boot_version("<version>2.7.0 </version>"), Some("2.7.0".to_string()));
}

#[test]
fn artifact_ids_of_both_kinds_of_build_file() {
    let g = extract_artifact_ids_from_content(GRADLE);
    assert_eq!(g, vec!["java", "org.springframework.boot", "3.4.4", "spring-boot-starter", "lombok"]);
    let p = extract_artifact_ids_from_content(POM);
    assert_eq!(p, vec!["spring-boot-starter-parent", "spring-boot-starter-data-jpa"]);
}

#[test]
fn existing_dependencies_are_sorted_keys() {
    let m = meta();
    let content = format!("{GRADLE}\nimplementation 'org.springframework.boot:spring-boot-starter-web'\n");
    assert_eq!(detect_existing_deps(&m, &content), vec!["lombok".to_string(), "web".to_string()]);
    assert_eq!(detect_existing_deps(&m, POM), vec!["data-jpa".to_string()]);
}

#[test]
fn words_resolve_to_keys_once_each() {
    let m = meta();
    let r = resolve_cli_deps(&["jpa".to_string(), "web".to_string(), "web".to_string()], &m);
    assert_eq!(r, Ok(vec!["data-jpa".to_string(), "web".to_string()]));
    assert_eq!(resolve_key("lombok", &m), Some("lombok".to_string()));
    assert_eq!(resolve_key("zzz", &m), None);
}

#[test]
fn unknown_word_is_an_error() {
    let m = meta();
    let r = resolve_cli_deps(&["web".to_string(), "zzz".to_string(), "qqq".to_string()], &m);
    assert_eq!(r, Err("Unknown dependency ID: zzz".to_string()));
}

#[test]
fn requested_keys_split_by_presence() {
    let req = vec!["web".to_string(), "lombok".to_string(), "data-jpa".to_string()];
    let existing = vec!["lombok".to_string()];
    assert_eq!(deps_to_add(&req, &existing), vec!["web".to_string(), "data-jpa".to_string()]);
    assert_eq!(deps_to_remove(&req, &existing), vec!["lombok".to_string()]);
}

#[test]
fn snippet_addresses() {
    let d = vec!["web".to_string(), "lombok".to_string()];
    assert_eq!(snippet_url(&d, "3.4.4", true), "https://start.spring.io/pom.xml?dependencies=web,lombok&bootVersion=3.4.4");
    assert_eq!(snippet_url(&d, "3.4.4", false), "https://start.spring.io/build.gradle?dependencies=web,lombok&bootVersion=3.4.4");
}

#[test]
fn gradle_addition_inserts_the_snippet_lines() {
    let m = meta();
    let e = edit_build_file(GRADLE, &["web".to_string()], &[], false, &m, None, Some(GRADLE_SNIPPET));
    let expected = GRADLE.replace(
        "\tcompileOnly 'org.projectlombok:lombok'\n}",
        "\tcompileOnly 'org.projectlombok:lombok'\n\timplementation 'org.springframework.boot:spring-boot-starter-web'\n}",
    );
    assert_eq!(e.content, expected);
    assert!(e.changed);
    assert_eq!(e.notes.len(), 1);
    assert_eq!(e.notes[0].kind, NoteKind::Dependency);
    assert_eq!(e.notes[0].text, "spring-boot-starter-web");
}

#[test]
fn addition_with_test_keeps_the_test_starter() {
    let m = meta();
    let e = edit_build_file(GRADLE, &["web".to_string(), "test".to_string()], &[], false, &m, None, Some(GRADLE_SNIPPET));
    assert!(e.content.contains("\ttestImplementation 'org.springframework.boot:spring-boot-starter-test'\n"));
    assert_eq!(e.notes.len(), 2);
}

#[test]
fn gradle_removal_cuts_the_dependency_line() {
    let m = meta();
    let e = edit_build_file(GRADLE, &[], &["lombok".to_string()], false, &m, None, None);
    assert_eq!(e.content, GRADLE.replace("\n\tcompileOnly 'org.projectlombok:lombok'", ""));
    assert!(e.changed);
    assert!(e.notes.is_empty());
}

#[test]
fn nothing_to_do_leaves_the_file() {
    let m = meta();
    let e = edit_build_file(GRADLE, &["web".to_string()], &[], false, &m, None, None);
    assert_eq!(e.content, GRADLE);
    assert!(!e.changed);
}

#[test]
fn maven_addition_puts_the_block_before_dependencies_end() {
    let m = meta();
    let e = edit_build_file(POM, &["web".to_string()], &[], true, &m, None, Some(POM_SNIPPET));
    let block = "<dependency>\n\t\t\t<groupId>org.springframework.boot</groupId>\n\t\t\t<artifactId>spring-boot-starter-web</artifactId>\n\t\t</dependency>";
    let expected = POM.replace("    </dependencies>", &format!("    {block}\n\n</dependencies>"));
    assert_eq!(e.content, expected);
    assert!(e.changed);
    assert_eq!(e.notes[0].text, "spring-boot-starter-web");
}

#[test]
fn maven_removal_cuts_the_dependency_block() {
    let m = meta();
    let e = edit_build_file(POM, &[], &["data-jpa".to_string()], true, &m, None, None);
    let expected = POM.replace(
        "<dependency>\n            <groupId>org.springframework.boot</groupId>\n            <artifactId>spring-boot-starter-data-jpa</artifactId>\n        </dependency>",
        "",
    );
    assert_eq!(e.content, expected);
    assert!(e.changed);
}

#[test]
fn removal_menu_lists_installed_keys() {
    let m = meta();
    let r = removal_metadata(&m, &["web".to_string(), "unknown".to_string()]);
    assert_eq!(r.all_deps.len(), 2);
    assert_eq!(r.all_deps[0].text, "Spring Web");
    assert_eq!(r.all_deps[1].text, "unknown");
    assert_eq!(r.all_deps[0].description, "Select to REMOVE this dependency");
    assert_eq!(r.all_deps[0].group, "Installed");
    assert_eq!(r.dependency_groups.len(), 1);
    assert_eq!(r.dependency_groups[0].name, "Installed Dependencies");
    assert_eq!(r.dependency_groups[0].deps.len(), 2);
    assert!(r.projects.is_empty() && r.boot_versions.is_empty());
    assert_eq!(r.defaults.boot, m.defaults.boot);
}

#[test]
fn updates_default_to_everything_installed() {
    let m = meta();
    let existing = vec!["lombok".to_string(), "web".to_string()];
    let (u, notes) = select_updates(&[], &existing, &m);
    assert_eq!(u, existing);
    assert!(notes.is_empty());
}

#[test]
fn updates_keep_installed_requests_and_report_the_rest() {
    let m = meta();
    let existing = vec!["data-jpa".to_string()];
    let (u, notes) = select_updates(&["jpa".to_string(), "web".to_string(), "zzz".to_string()], &existing, &m);
    assert_eq!(u, vec!["data-jpa".to_string()]);
    assert_eq!(notes.len(), 3);
    assert!(matches!(&notes[0], UpdateNote::Resolved(w, k) if w == "jpa" && k == "data-jpa"));
    assert!(matches!(&notes[1], UpdateNote::NotInstalled(k) if k == "web"));
    assert!(matches!(&notes[2], UpdateNote::NotInstalled(k) if k == "zzz"));
}

fn occurs_in_order(small: &str, big: &str) -> bool {
    let mut it = big.chars();
    small.chars().all(|c| it.any(|d| d == c))
}

#[test]
fn addition_keeps_every_character_of_the_build_file() {
    let m = meta();
    let g = edit_build_file(GRADLE, &["web".to_string(), "test".to_string()], &[], false, &m, None, Some(GRADLE_SNIPPET));
    assert!(g.content.len() > GRADLE.len());
    assert!(occurs_in_order(GRADLE, &g.content));
    let p = edit_build_file(POM, &["web".to_string()], &[], true, &m, None, Some(POM_SNIPPET));
    assert!(p.content.len() > POM.len());
    assert!(occurs_in_order(POM, &p.content));
}

#[test]
fn removal_only_cuts_text_out() {
    let m = meta();
    let g = edit_build_file(GRADLE, &[], &["lombok".to_string()], false, &m, Some(GRADLE_SNIPPET), None);
    assert!(g.content.len() < GRADLE.len());
    assert!(occurs_in_order(&g.content, GRADLE));
    let p = edit_build_file(POM, &[], &["data-jpa".to_string()], true, &m, Some(POM_SNIPPET), None);
    assert!(p.content.len() < POM.len());
    assert!(occurs_in_order(&p.content, POM));
}

#[test]
fn removing_web_leaves_webflux() {
    let mut m = fallback();
    let deps = vec![dep("web", "Spring Web"), dep("webflux", "Spring Reactive Web")];
    m.dependency_groups = vec![DepGroup { name: "G".into(), deps: deps.iter().map(|d| d.clone_dep()).collect() }];
    m.all_deps = deps;
    let content = "dependencies {\n\timplementation 'x:spring-boot-starter-webflux'\n\timplementation 'x:spring-boot-starter-web'\n}\n";
    let e = edit_build_file(content, &[], &["web".to_string()], false, &m, None, None);
    assert_eq!(e.content, "dependencies {\n\timplementation 'x:spring-boot-starter-webflux'\n}\n");
    assert!(e.changed);
}

#[test]
fn gradle_removal_matches_a_whole_field_with_a_version() {
    let m = meta();
    let content = "dependencies {\n\tcompileOnly \"org.projectlombok:lombok:1.18.30\"\n\timplementation 'org.springframework.boot:spring-boot-starter-web'\n}\n";
    let e = edit_build_file(content, &[], &["lombok".to_string()], false, &m, None, None);
    assert_eq!(e.content, "dependencies {\n\timplementation 'org.springframework.boot:spring-boot-starter-web'\n}\n");
}

#[test]
fn longest_variant_is_measured_in_bytes() {
    let mut m = fallback();
    m.all_deps = vec![dep("é", "E"), dep("ab", "AB")];
    assert_eq!(ArtifactMapper::artifact_to_key("éab", &m).as_deref(), Some("é"));
    assert_eq!(ArtifactMapper::artifact_to_key("xab", &m).as_deref(), Some("ab"));
}

#[test]
fn detection_is_the_mapping_of_the_declared_ids() {
    let m = meta();
    for c in [GRADLE, POM] {
        let ids = extract_artifact_ids_from_content(c);
        assert_eq!(detect_existing_deps(&m, c), ArtifactMapper::detect_existing(&ids, &m));
    }
}

#[test]
fn artifacts_resolved_for_removal_are_those_of_removed_keys() {
    let m = meta();
    let ids = extract_artifact_ids_from_content(GRADLE);
    let r = ArtifactMapper::resolve_artifacts_for_removal(&["lombok".to_string()], &ids, &m);
    assert_eq!(r, vec!["lombok".to_string()]);
    assert!(ArtifactMapper::resolve_artifacts_for_removal(&[], &ids, &m).is_empty());
}

#[test]
fn named_dependencies_plan_the_change() {
    let existing = vec!["lombok".to_string()];
    let req = vec!["web".to_string(), "lombok".to_string()];
    assert!(matches!(plan_named(true, &req, &existing), DepsPlan::Add(k) if k == vec!["web".to_string()]));
    assert!(matches!(plan_named(false, &req, &existing), DepsPlan::Remove(k) if k == vec!["lombok".to_string()]));
    assert!(matches!(plan_named(true, &existing, &existing), DepsPlan::Nothing(NoChange::AllInstalled)));
    assert!(matches!(plan_named(false, &["web".to_string()], &existing), DepsPlan::Nothing(NoChange::NoneInstalled)));
}

#[test]
fn picked_dependencies_plan_the_change() {
    assert!(matches!(plan_picked(true, vec![]), DepsPlan::Nothing(NoChange::NoneSelectedToAdd)));
    assert!(matches!(plan_picked(false, vec![]), DepsPlan::Nothing(NoChange::NoneSelectedToRemove)));
    assert!(matches!(plan_picked(false, vec!["web".to_string()]), DepsPlan::Remove(k) if k == vec!["web".to_string()]));
    assert_eq!(plan_before_picking(false, &[]), Some(NoChange::NothingToRemove));
    assert_eq!(plan_before_picking(true, &[]), None);
    assert_eq!(plan_before_picking(false, &["web".to_string()]), None);
}
