use springx::interactive::{
    build_pages, decimal_text, default_index, ide_choices, DepPage, DepSelection, PickerKey, PAGE_SIZE,
};
use springx::metadata::{fallback, DepGroup, DepOption, Metadata, Option_};

fn dep(key: &str, range: Option<&str>) -> DepOption {
    DepOption {
        key: key.into(),
        text: key.to_uppercase(),
        description: String::new(),
        group: "G".into(),
        version_range: range.map(|s| s.to_string()),
    }
}

fn meta_with(groups: Vec<(&str, usize)>) -> Metadata {
    let mut m = fallback();
    let mut all = Vec::new();
    m.dependency_groups = groups
        .into_iter()
        .map(|(name, n)| {
            let deps: Vec<DepOption> = (0..n).map(|i| dep(&format!("{name}{i}"), None)).collect();
            all.extend(deps.iter().map(|d| d.clone_dep()));
            DepGroup { name: name.into(), deps }
        })
        .collect();
    m.all_deps = all;
    m
}

fn page(title: &str, deps: Vec<DepOption>) -> DepPage {
    DepPage { title: title.into(), deps }
}

#[test]
fn numbers_are_written_in_decimal() {
    assert_eq!(decimal_text(0).iter().collect::<String>(), "0");
    assert_eq!(decimal_text(7).iter().collect::<String>(), "7");
    assert_eq!(decimal_text(1203).iter().collect::<String>(), "1203");
}

#[test]
fn large_groups_are_split_into_numbered_pages() {
    let m = meta_with(vec![("web", 25), ("empty", 0), ("sql", 10)]);
    let pages = build_pages(&m);
    let titles: Vec<&str> = pages.iter().map(|p| p.title.as_str()).collect();
    assert_eq!(titles, vec!["web (1/3)", "web (2/3)", "web (3/3)", "sql"]);
    let sizes: Vec<usize> = pages.iter().map(|p| p.deps.len()).collect();
    assert_eq!(sizes, vec![10, 10, 5, 10]);
    assert_eq!(PAGE_SIZE, 10);
}

#[test]
fn pages_hold_every_dependency_once_in_order() {
    let m = meta_with(vec![("a", 3), ("b", 21), ("c", 1)]);
    let pages = build_pages(&m);
    let on_pages: Vec<String> = pages.iter().flat_map(|p| p.deps.iter().map(|d| d.key.clone())).collect();
    let all: Vec<String> = m.all_deps.iter().map(|d| d.key.clone()).collect();
    assert_eq!(on_pages, all);
    assert!(pages.iter().all(|p| !p.deps.is_empty() && p.deps.len() <= PAGE_SIZE));
}

#[test]
fn picker_starts_on_the_first_page_with_the_preselection() {
    let pages = vec![page("A", vec![dep("x", None)])];
    let s = DepSelection::start(&pages, &["x".to_string(), "x".to_string(), "y".to_string()]).unwrap();
    assert_eq!((s.page_idx, s.cursor), (0, 0));
    assert_eq!(s.selected, vec!["x".to_string(), "y".to_string()]);
    assert!(DepSelection::start(&Vec::new(), &[]).is_none());
}

#[test]
fn arrows_wrap_around() {
    let pages = vec![
        page("A", vec![dep("a0", None), dep("a1", None), dep("a2", None)]),
        page("B", vec![dep("b0", None)]),
    ];
    let mut s = DepSelection::start(&pages, &[]).unwrap();
    assert!(!s.step(&pages, "3.4.4", PickerKey::Up));
    assert_eq!(s.cursor, 2);
    assert!(!s.step(&pages, "3.4.4", PickerKey::Down));
    assert_eq!(s.cursor, 0);
    assert!(!s.step(&pages, "3.4.4", PickerKey::Left));
    assert_eq!((s.page_idx, s.cursor), (1, 0));
    assert!(!s.step(&pages, "3.4.4", PickerKey::Right));
    assert_eq!((s.page_idx, s.cursor), (0, 0));
    s.step(&pages, "3.4.4", PickerKey::Down);
    s.step(&pages, "3.4.4", PickerKey::Right);
    s.step(&pages, "3.4.4", PickerKey::Left);
    assert_eq!((s.page_idx, s.cursor), (0, 0));
    assert!(!s.step(&pages, "3.4.4", PickerKey::Other));
    assert!(s.step(&pages, "3.4.4", PickerKey::Enter));
    assert!(s.step(&pages, "3.4.4", PickerKey::Escape));
}

#[test]
fn space_toggles_only_what_fits() {
    let pages = vec![page("A", vec![dep("new", None), dep("old", Some("[2.0.0,3.0.0)"))])];
    let mut s = DepSelection::start(&pages, &[]).unwrap();
    s.step(&pages, "3.4.4", PickerKey::Space);
    assert_eq!(s.selected, vec!["new".to_string()]);
    s.step(&pages, "3.4.4", PickerKey::Space);
    assert!(s.selected.is_empty());
    s.step(&pages, "3.4.4", PickerKey::Down);
    s.step(&pages, "3.4.4", PickerKey::Space);
    assert!(s.selected.is_empty());
}

#[test]
fn rows_show_state_and_requirements() {
    let pages = vec![page("A", vec![dep("new", None), dep("old", Some("[2.0.0,3.0.0)"))])];
    let s = DepSelection::start(&pages, &["new".to_string(), "old".to_string()]).unwrap();
    let rows = s.page_rows(&pages, "3.4.4");
    assert_eq!(rows.len(), 2);
    assert!(rows[0].compatible && rows[0].selected && rows[0].at_cursor);
    assert_eq!(rows[0].requirement, None);
    assert_eq!(rows[0].text, "NEW");
    assert!(!rows[1].compatible && !rows[1].selected && !rows[1].at_cursor);
    assert_eq!(rows[1].requirement.as_deref(), Some(">= 2.0.0, < 3.0.0"));
}

#[test]
fn summary_and_result_follow_the_metadata_order() {
    let all: Vec<DepOption> = (0..8).map(|i| dep(&format!("d{i}"), None)).collect();
    let pages = vec![page("A", all.iter().map(|d| d.clone_dep()).collect())];
    let pre: Vec<String> = vec!["d3".into(), "d1".into(), "zz".into()];
    let s = DepSelection::start(&pages, &pre).unwrap();
    let (n, text) = s.summary(&all);
    assert_eq!(n, 3);
    assert_eq!(text, "D1, D3");
    let chosen: Vec<String> = s.chosen(&all).iter().map(|d| d.key.clone()).collect();
    assert_eq!(chosen, vec!["d1", "d3"]);
    let many: Vec<String> = (0..8).map(|i| format!("d{i}")).collect();
    let t = DepSelection::start(&pages, &many).unwrap();
    assert_eq!(t.summary(&all), (8, "D0, D1, D2, D3, D4, ... +3 more".to_string()));
}

#[test]
fn prompts_start_on_the_default() {
    let opts = vec![Option_ { key: "a".into(), text: "A".into() }, Option_ { key: "b".into(), text: "B".into() }];
    assert_eq!(default_index(&opts, "b"), 1);
    assert_eq!(default_index(&opts, "zz"), 0);
}

#[test]
fn ide_choices_list_what_was_found() {
    let all = ide_choices(true, true);
    let texts: Vec<&str> = all.iter().map(|(t, _)| t.as_str()).collect();
    assert_eq!(texts, vec!["None", "idea (IntelliJ IDEA)", "code (VS Code)", "Other"]);
    assert_eq!(all[0].1, None);
    assert_eq!(all[3].1.as_deref(), Some("other"));
    let few = ide_choices(false, true);
    assert_eq!(few.len(), 3);
    assert_eq!(few[1].1.as_deref(), Some("code"));
}
