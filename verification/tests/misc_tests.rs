use springx::docker::docker_files;
use springx::doctor::{command_text, doctor_report, text_lines_exec, CheckMark};
use springx::git::{git_step, GitAction, GitEvent, GitMessage};
use springx::info::{find_dependency, starter_coordinate};
use springx::metadata::{fallback, DepOption, Metadata};
use springx::paths::{
    command_candidates, expand_home, mac_app_paths, normalize_folder_name, path_join, shellexpand, target_dir,
};
use springx::search::{is_fuzzy_match, search_dependencies};
use springx::template::{pick_source_dir, resolve_template, source_dirs, CleanArchitectureTemplate, ProjectTemplate};
use springx::tree::{tree_lines, TreeEntry, TreeLine, CHILD_LIMIT};

fn dep(key: &str, text: &str, desc: &str) -> DepOption {
    DepOption { key: key.into(), text: text.into(), description: desc.into(), group: "G".into(), version_range: None }
}

fn meta() -> Metadata {
    let mut m = fallback();
    m.all_deps = vec![
        dep("data-jpa", "Spring Data JPA", "Persist data with JPA"),
        dep("web", "Spring Web", "Build web apps"),
        dep("webflux", "Spring Reactive Web", "Reactive"),
        dep("jdbc", "JDBC API", "Database access via web of drivers"),
        dep("wb", "Weird", "x"),
        dep("security", "Spring Security", "Auth"),
    ];
    m
}

#[test]
fn fuzzy_match_is_an_ordered_subsequence() {
    assert!(is_fuzzy_match("wbf", "webflux"));
    assert!(is_fuzzy_match("", "anything"));
    assert!(!is_fuzzy_match("fw", "webflux"));
    assert!(!is_fuzzy_match("web", "we"));
    assert!(is_fuzzy_match("sec", "spring security"));
}

#[test]
fn search_ranks_by_how_well_it_matches() {
    let m = meta();
    assert_eq!(search_dependencies(&m, "WEB"), vec!["web", "webflux", "jdbc"]);
    assert_eq!(search_dependencies(&m, "spring web"), vec!["web", "webflux"]);
    assert_eq!(search_dependencies(&m, "wb"), vec!["wb", "web", "webflux"]);
    assert!(search_dependencies(&m, "zzz").is_empty());
}

#[test]
fn info_finds_by_key_then_by_part() {
    let m = meta();
    assert_eq!(find_dependency(&m, "WEB").unwrap().key, "web");
    assert_eq!(find_dependency(&m, "jpa").unwrap().key, "data-jpa");
    assert_eq!(find_dependency(&m, "We").unwrap().key, "web");
    assert_eq!(find_dependency(&m, "NOPE").err(), Some("Dependency 'nope' not found".to_string()));
    assert_eq!(starter_coordinate("web"), "org.springframework.boot:spring-boot-starter-web");
}

#[test]
fn paths_join_as_on_unix() {
    assert_eq!(path_join("/home/u", "x"), "/home/u/x");
    assert_eq!(path_join("/home/u/", "x"), "/home/u/x");
    assert_eq!(path_join("/home/u", "/etc"), "/etc");
    assert_eq!(path_join("", "x"), "x");
    assert_eq!(path_join("/a", ""), "/a/");
}

#[test]
fn tilde_expands_to_home() {
    let home = Some("/home/u".to_string());
    assert_eq!(expand_home("~/projects", &home), "/home/u/projects");
    assert_eq!(expand_home("~", &home), "/home/u");
    assert_eq!(expand_home("~user/x", &home), "~user/x");
    assert_eq!(expand_home("~/x", &None), "~/x");
    assert_eq!(shellexpand("/tmp/out"), "/tmp/out");
    assert!(!shellexpand("~/x").starts_with('~') || shellexpand("~/x") == "~/x");
}

#[test]
fn command_and_app_locations() {
    assert_eq!(command_candidates("/usr/bin:/bin/:", "code"), vec!["/usr/bin/code", "/bin/code", "code"]);
    assert_eq!(mac_app_paths("code", "/Users/u"), vec!["/Applications/Visual Studio Code.app", "/Users/u/Applications/Visual Studio Code.app"]);
    assert_eq!(mac_app_paths("idea", "/Users/u").len(), 4);
    assert!(mac_app_paths("vim", "/Users/u").is_empty());
}

#[test]
fn folder_names_are_made_safe() {
    assert_eq!(normalize_folder_name("  my:app?  "), "my-app-");
    assert_eq!(normalize_folder_name("a/b\\c*d\"e<f>g|h"), "a-b-c-d-e-f-g-h");
    assert_eq!(normalize_folder_name("   "), "project");
    assert_eq!(target_dir("/out", " demo ", false), "/out/demo");
    assert_eq!(target_dir("/out", "demo", true), "/out");
}

#[test]
fn templates_lay_out_the_layers() {
    let t = resolve_template("Clean-Architecture").ok().unwrap();
    let dirs = source_dirs("/p", "com.example.demo");
    assert_eq!(dirs, vec!["/p/src/main/java/com/example/demo", "/p/src/main/kotlin/com/example/demo", "/p/src/main/groovy/com/example/demo"]);
    assert_eq!(pick_source_dir(&dirs, false, true), "/p/src/main/groovy/com/example/demo");
    assert_eq!(pick_source_dir(&dirs, true, true), "/p/src/main/kotlin/com/example/demo");
    assert_eq!(pick_source_dir(&dirs, false, false), "/p/src/main/java/com/example/demo");
    let folders = t.folders("/b");
    assert_eq!(folders, vec!["/b/controller", "/b/service", "/b/repository", "/b/entity", "/b/dto", "/b/config"]);
    let _ = CleanArchitectureTemplate;
    assert_eq!(
        resolve_template("hexagonal").err(),
        Some("Unknown template: hexagonal. Available templates: clean-architecture".to_string())
    );
}

#[test]
fn lines_split_like_str_lines() {
    let l: Vec<String> = text_lines_exec(&"a\r\nb\n\nc\r".chars().collect()).iter().map(|v| v.iter().collect()).collect();
    assert_eq!(l, vec!["a", "b", "", "c\r"]);
    assert!(text_lines_exec(&Vec::new()).is_empty());
    assert_eq!(text_lines_exec(&"x\n".chars().collect()).len(), 1);
}

#[test]
fn doctor_reports_each_tool() {
    let (lines, ok) = doctor_report(
        Some("openjdk version \"21\"\nmore".into()),
        Some("  git version 2.40  \n".into()),
        None,
        Some("\n------\nGradle 8.5\n".into()),
        Some(" Docker version 24 \n".into()),
        false,
        true,
    );
    assert!(ok);
    let got: Vec<(CheckMark, &str)> = lines.iter().map(|l| (l.mark, l.text.as_str())).collect();
    assert_eq!(
        got,
        vec![
            (CheckMark::Found, "openjdk version \"21\""),
            (CheckMark::Found, "git version 2.40"),
            (CheckMark::Warning, "Maven not found"),
            (CheckMark::Found, "Gradle 8.5"),
            (CheckMark::Found, "Docker version 24"),
            (CheckMark::Warning, "IntelliJ IDEA not found in PATH or standard locations"),
            (CheckMark::Found, "VS Code"),
        ]
    );
    let (lines, ok) = doctor_report(None, None, Some(String::new()), Some("no".into()), None, true, false);
    assert!(!ok);
    assert_eq!(lines[0].text, "Java not found (critical)");
    assert_eq!(lines[0].mark, CheckMark::Missing);
    assert_eq!(lines[2].text, "Maven");
    assert_eq!(lines[3].text, "Gradle");
    assert_eq!(command_text(String::new(), "err".into()), "err");
    assert_eq!(command_text("out".into(), "err".into()), "out");
}

#[test]
fn git_setup_stops_at_the_first_failure() {
    assert_eq!(git_step(GitAction::CheckGit, GitEvent::NotStarted), (GitAction::Stop, GitMessage::GitMissing));
    assert_eq!(git_step(GitAction::CheckGit, GitEvent::Finished(false)), (GitAction::CheckRepository, GitMessage::Nothing));
    assert_eq!(git_step(GitAction::CheckRepository, GitEvent::RepositoryFound(true)), (GitAction::Stop, GitMessage::AlreadyRepository));
    assert_eq!(git_step(GitAction::Init, GitEvent::NotStarted), (GitAction::AddAll, GitMessage::Nothing));
    assert_eq!(git_step(GitAction::AddAll, GitEvent::Finished(false)), (GitAction::Stop, GitMessage::AddFailed));
    assert_eq!(git_step(GitAction::Commit, GitEvent::Finished(true)), (GitAction::Stop, GitMessage::Committed));
    assert_eq!(git_step(GitAction::Commit, GitEvent::NotStarted), (GitAction::Stop, GitMessage::Nothing));
}

#[test]
fn docker_files_name_the_database_after_the_artifact() {
    let files = docker_files("shop");
    let names: Vec<&str> = files.iter().map(|(n, _)| n.as_str()).collect();
    assert_eq!(names, vec!["Dockerfile", "docker-compose.yml", ".env"]);
    assert_eq!(files[2].1, "POSTGRES_USER=myuser\nPOSTGRES_PASSWORD=secret\nPOSTGRES_DB=shop\n");
    assert!(files[0].1.contains("-exec cp {} /app/app.jar \\;"));
    assert!(files[1].1.contains("jdbc:postgresql://db:5432/${POSTGRES_DB}"));
}

fn entry(name: &str, is_dir: bool) -> TreeEntry {
    TreeEntry { name: name.to_string(), is_dir }
}

#[test]
fn top_level_listing_stops_at_the_limit_and_counts_the_rest() {
    let entries = vec![entry("src", true), entry("build.gradle", false), entry("gradlew", false), entry("HELP.md", false)];
    let lines = tree_lines(&entries, 0, 2);
    assert_eq!(lines.len(), 3);
    assert!(matches!(&lines[0], TreeLine::Dir { name, descend: true } if name == "src"));
    assert!(matches!(&lines[1], TreeLine::File { name } if name == "build.gradle"));
    assert!(matches!(&lines[2], TreeLine::More { remaining: 2 }));
}

#[test]
fn nested_listing_shows_everything_and_stops_descending_at_depth_two() {
    let entries = vec![entry("main", true), entry("a.txt", false), entry("b.txt", false)];
    let lines = tree_lines(&entries, 2, 1);
    assert_eq!(lines.len(), 3);
    assert!(matches!(&lines[0], TreeLine::Dir { name, descend: false } if name == "main"));
    assert!(matches!(&lines[2], TreeLine::File { name } if name == "b.txt"));
    let one = tree_lines(&entries, 1, 1);
    assert!(matches!(&one[0], TreeLine::Dir { descend: true, .. }));
    assert_eq!(CHILD_LIMIT, 8);
}

#[test]
fn top_level_listing_within_the_limit_has_no_summary() {
    let entries = vec![entry("a", false), entry("b", false)];
    let lines = tree_lines(&entries, 0, 12);
    assert_eq!(lines.len(), 2);
    assert!(!lines.iter().any(|l| matches!(l, TreeLine::More { .. })));
}
