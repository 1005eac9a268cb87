use springx::metadata::{
    fallback, map_metadata, map_simple, readable_name, DefaultOnly, DepOption, DependenciesBlock,
    DependencyGroup, DependencyValue, Option_, RawMetadata, SimpleBlock, SimpleValue, TypeBlock,
    TypeValue,
};

fn simple(default: Option<&str>, values: &[(&str, &str)]) -> Option<SimpleBlock> {
    Some(SimpleBlock {
        default: default.map(|s| s.to_string()),
        values: Some(
            values
                .iter()
                .map(|(id, name)| SimpleValue { id: id.to_string(), name: name.to_string() })
                .collect(),
        ),
    })
}

fn dep_value(id: Option<&str>, name: Option<&str>, desc: Option<&str>, range: Option<&str>) -> DependencyValue {
    DependencyValue {
        id: id.map(|s| s.to_string()),
        name: name.map(|s| s.to_string()),
        description: desc.map(|s| s.to_string()),
        version_range: range.map(|s| s.to_string()),
    }
}

fn raw() -> RawMetadata {
    RawMetadata {
        project_type: Some(TypeBlock {
            default: Some("gradle-project".to_string()),
            values: Some(vec![
                TypeValue { id: "maven-project".into(), name: "Maven".into(), action: Some("/starter.zip".into()) },
                TypeValue { id: "maven-build".into(), name: "Maven POM".into(), action: Some("/pom.xml".into()) },
                TypeValue { id: "gradle-project".into(), name: "Gradle".into(), action: Some("/starter.zip".into()) },
                TypeValue { id: "other".into(), name: "Other".into(), action: None },
            ]),
        }),
        language: simple(Some("java"), &[("java", "Java"), ("kotlin", "Kotlin")]),
        boot_version: simple(None, &[("3.5.0", "3.5.0"), ("3.4.4", "3.4.4")]),
        packaging: simple(Some("war"), &[("jar", "Jar")]),
        java_version: None,
        configuration_file_format: simple(None, &[]),
        group_id: Some(DefaultOnly { default: Some("org.acme".into()) }),
        artifact_id: None,
        name: Some(DefaultOnly { default: None }),
        package_name: None,
        dependencies: Some(DependenciesBlock {
            values: Some(vec![
                DependencyGroup {
                    name: Some("  Web  ".into()),
                    values: Some(vec![
                        dep_value(Some(" web "), Some(" Spring Web "), Some(" Build web apps "), None),
                        dep_value(Some("spring-boot-devtools"), None, None, Some("  ")),
                        dep_value(Some("   "), Some("Blank"), None, None),
                        dep_value(None, Some("No id"), None, None),
                        dep_value(Some("data.jpa_x"), Some("   "), None, Some(" [3.0.0,3.5.0) ")),
                    ]),
                },
                DependencyGroup { name: Some("Empty".into()), values: Some(vec![dep_value(Some(""), None, None, None)]) },
                DependencyGroup { name: None, values: Some(vec![dep_value(Some("lombok"), Some("Lombok"), None, None)]) },
                DependencyGroup { name: Some("None at all".into()), values: None },
            ]),
        }),
    }
}

#[test]
fn only_starter_project_types_are_kept() {
    let m = map_metadata(raw());
    let keys: Vec<&str> = m.projects.iter().map(|o| o.key.as_str()).collect();
    assert_eq!(keys, vec!["maven-project", "gradle-project"]);
    assert_eq!(m.projects[1].text, "Gradle");
}

#[test]
fn dependencies_are_trimmed_named_and_grouped() {
    let m = map_metadata(raw());
    let groups: Vec<&str> = m.dependency_groups.iter().map(|g| g.name.as_str()).collect();
    assert_eq!(groups, vec!["Web", "Dependencies"]);
    let web = &m.dependency_groups[0].deps;
    assert_eq!(web.len(), 3);
    assert_eq!(web[0].key, "web");
    assert_eq!(web[0].text, "Spring Web");
    assert_eq!(web[0].description, "Build web apps");
    assert_eq!(web[0].group, "Web");
    assert_eq!(web[0].version_range, None);
    assert_eq!(web[1].key, "spring-boot-devtools");
    assert_eq!(web[1].text, "Spring Boot Devtools");
    assert_eq!(web[1].description, "");
    assert_eq!(web[1].version_range, None);
    assert_eq!(web[2].text, "Data Jpa X");
    assert_eq!(web[2].version_range.as_deref(), Some("[3.0.0,3.5.0)"));
    assert_eq!(m.dependency_groups[1].deps[0].group, "Dependencies");
}

#[test]
fn all_deps_are_the_groups_dependencies_in_order() {
    let m = map_metadata(raw());
    let from_groups: Vec<String> = m
        .dependency_groups
        .iter()
        .flat_map(|g| g.deps.iter().map(|d| d.key.clone()))
        .collect();
    let all: Vec<String> = m.all_deps.iter().map(|d| d.key.clone()).collect();
    assert_eq!(all, from_groups);
    assert_eq!(all, vec!["web", "spring-boot-devtools", "data.jpa_x", "lombok"]);
    let f = fallback();
    let fg: Vec<String> = f.dependency_groups.iter().flat_map(|g| g.deps.iter().map(|d| d.key.clone())).collect();
    let fa: Vec<String> = f.all_deps.iter().map(|d| d.key.clone()).collect();
    assert_eq!(fg, fa);
}

#[test]
fn defaults_come_from_the_service_or_fall_back() {
    let m = map_metadata(raw());
    assert_eq!(m.defaults.project, "gradle-project");
    assert_eq!(m.defaults.language, "java");
    assert_eq!(m.defaults.boot, "3.4.4");
    assert_eq!(m.defaults.name, "demo");
    assert_eq!(m.defaults.group, "org.acme");
    assert_eq!(m.defaults.artifact, "demo");
    assert_eq!(m.defaults.package_name, "com.example.demo");
    assert_eq!(m.defaults.packaging, "war");
    assert_eq!(m.defaults.java, "21");
    assert_eq!(m.defaults.config_format, "properties");
    assert!(m.java_versions.is_empty());
    assert!(m.config_formats.is_empty());
}

#[test]
fn missing_essentials_give_the_fallback() {
    let mut r = raw();
    r.boot_version = None;
    let m = map_metadata(r);
    let keys: Vec<&str> = m.boot_versions.iter().map(|o| o.key.as_str()).collect();
    assert_eq!(keys, vec!["3.4.4", "3.3.10"]);
    assert_eq!(m.defaults.project, "maven-project");
    assert_eq!(m.all_deps.len(), 2);
    assert_eq!(m.all_deps[1].key, "data-jpa");
    assert_eq!(m.all_deps[1].group, "Core");
    let langs: Vec<&str> = m.languages.iter().map(|o| o.text.as_str()).collect();
    assert_eq!(langs, vec!["Java", "Kotlin", "Groovy"]);
    assert_eq!(m.config_formats[1].text, "YAML");
}

#[test]
fn simple_blocks_map_in_order() {
    let opts = map_simple(&simple(None, &[("a", "A"), ("b", "B")]));
    assert_eq!(opts.len(), 2);
    assert_eq!((opts[1].key.as_str(), opts[1].text.as_str()), ("b", "B"));
    assert!(map_simple(&None).is_empty());
    assert!(map_simple(&Some(SimpleBlock { default: None, values: None })).is_empty());
}

#[test]
fn readable_names_prefer_the_given_name() {
    assert_eq!(readable_name(Some("  Spring Data JPA "), "data-jpa"), "Spring Data JPA");
    assert_eq!(readable_name(Some("   "), "data-jpa"), "Data Jpa");
    assert_eq!(readable_name(None, "--spring..boot__x-"), "Spring Boot X");
    assert_eq!(readable_name(None, "ébène-x"), "Ébène X");
    assert_eq!(readable_name(None, "---"), "");
}

#[test]
fn labels_show_the_description_after_a_dash() {
    let d = DepOption {
        key: "web".into(),
        text: "Spring Web".into(),
        description: "Build web".into(),
        group: "Web".into(),
        version_range: None,
    };
    assert_eq!(d.label(), "Spring Web — Build web");
    let mut e = d.clone_dep();
    e.description = String::new();
    assert_eq!(e.label(), "Spring Web");
    let o = Option_ { key: "jar".into(), text: "Jar".into() };
    assert_eq!(o.label(), "Jar");
}

#[test]
fn mapped_groups_are_non_empty_with_trimmed_keys_and_ranges() {
    let m = map_metadata(raw());
    assert!(!m.dependency_groups.is_empty());
    for g in &m.dependency_groups {
        assert!(!g.deps.is_empty());
        for d in &g.deps {
            assert_eq!(d.group, g.name);
            assert!(!d.key.is_empty());
            assert_eq!(d.key, d.key.trim());
            if let Some(r) = &d.version_range {
                assert!(!r.is_empty());
                assert_eq!(r, r.trim());
            }
        }
    }
}
