use springx::generate::{
    default_package_name, resolve_or_default, resolve_settings, starter_zip_url, urlencoding,
    validate_deps, validate_option, wants_wizard, NewArgs,
};
use springx::metadata::{fallback, DepGroup, DepOption, Metadata, Option_};

fn dep(key: &str, text: &str, range: Option<&str>) -> DepOption {
    DepOption {
        key: key.into(),
        text: text.into(),
        description: String::new(),
        group: "G".into(),
        version_range: range.map(|s| s.to_string()),
    }
}

fn meta() -> Metadata {
    let mut m = fallback();
    let deps = vec![
        dep("web", "Spring Web", None),
        dep("webflux", "Spring Reactive Web", None),
        dep("web-services", "Spring Web Services", Some("[3.0.0,3.4.0)")),
        dep("data-jpa", "Spring Data JPA", None),
        dep("legacy", "Old Thing", Some("[2.0.0,3.0.0)")),
    ];
    m.dependency_groups = vec![DepGroup { name: "G".into(), deps: deps.iter().map(|d| d.clone_dep()).collect() }];
    m.all_deps = deps;
    m
}

fn args() -> NewArgs {
    NewArgs {
        project: None,
        language: None,
        boot: None,
        name: None,
        group: None,
        artifact: None,
        package_name: None,
        packaging: None,
        java: None,
        config_format: None,
        deps: Vec::new(),
        output: None,
        git: false,
        docker: false,
        template: None,
        ide: None,
        flat: false,
    }
}

#[test]
fn given_values_are_trimmed_and_blank_ones_default() {
    assert_eq!(resolve_or_default(&Some("  kotlin ".into()), "java"), "kotlin");
    assert_eq!(resolve_or_default(&Some("   ".into()), "java"), "java");
    assert_eq!(resolve_or_default(&None, "java"), "java");
}

#[test]
fn default_package_drops_dashes_and_underscores() {
    assert_eq!(default_package_name("com.example", "my-cool_app"), "com.example.mycoolapp");
    assert_eq!(default_package_name("", ""), ".");
}

#[test]
fn unknown_options_list_what_is_offered() {
    let opts = vec![Option_ { key: "jar".into(), text: "Jar".into() }, Option_ { key: "war".into(), text: "War".into() }];
    assert_eq!(validate_option("war", &opts, "packaging"), Ok(()));
    assert_eq!(
        validate_option("ear", &opts, "packaging"),
        Err("Invalid packaging: 'ear'. Available: jar, war".to_string())
    );
    assert_eq!(validate_option("x", &[], "language"), Err("Invalid language: 'x'. Available: ".to_string()));
}

#[test]
fn unknown_dependency_suggests_matches_that_fit() {
    let m = meta();
    let r = validate_deps(&["WEB".to_string()], &m, "3.5.0");
    assert_eq!(r, Err("Unknown dependency: 'WEB'. Did you mean: web, webflux?".to_string()));
    let r = validate_deps(&["eb".to_string()], &m, "3.3.0");
    assert_eq!(r, Err("Unknown dependency: 'eb'. Did you mean: web, webflux, web-services?".to_string()));
    let r = validate_deps(&["zzz".to_string()], &m, "3.5.0");
    assert_eq!(r, Err("Unknown dependency: 'zzz'.".to_string()));
}

#[test]
fn suggestions_stop_at_five() {
    let mut m = meta();
    m.all_deps = (1..=7).map(|i| dep(&format!("web{i}"), "W", None)).collect();
    let r = validate_deps(&["we".to_string()], &m, "3.5.0");
    assert_eq!(r, Err("Unknown dependency: 'we'. Did you mean: web1, web2, web3, web4, web5?".to_string()));
}

#[test]
fn incompatible_dependency_names_the_range() {
    let m = meta();
    let r = validate_deps(&["web".to_string(), "legacy".to_string(), "nope".to_string()], &m, "3.5.0");
    assert_eq!(
        r,
        Err("Dependency 'legacy' is not compatible with Spring Boot 3.5.0. Required: >= 2.0.0, < 3.0.0".to_string())
    );
    assert_eq!(validate_deps(&["web".to_string(), "data-jpa".to_string()], &m, "3.5.0"), Ok(()));
    assert_eq!(validate_deps(&[], &m, "3.5.0"), Ok(()));
}

#[test]
fn settings_resolve_with_defaults() {
    let m = meta();
    let mut a = args();
    a.artifact = Some(" my-app ".into());
    a.group = Some("org.acme".into());
    a.deps = vec!["web".into()];
    let s = resolve_settings(&a, &m).unwrap();
    assert_eq!(s.project, "maven-project");
    assert_eq!(s.language, "java");
    assert_eq!(s.boot, "3.4.4");
    assert_eq!(s.name, "demo");
    assert_eq!(s.group, "org.acme");
    assert_eq!(s.artifact, "my-app");
    assert_eq!(s.package_name, "org.acme.myapp");
    assert_eq!(s.packaging, "jar");
    assert_eq!(s.java, "21");
    assert_eq!(s.config_format, "properties");
    assert_eq!(s.deps, vec!["web".to_string()]);
}

#[test]
fn given_package_is_kept_as_given() {
    let m = meta();
    let mut a = args();
    a.package_name = Some(" com.x ".into());
    assert_eq!(resolve_settings(&a, &m).unwrap().package_name, " com.x ");
}

#[test]
fn settings_report_the_first_error() {
    let m = meta();
    let mut a = args();
    a.language = Some("cobol".into());
    a.packaging = Some("ear".into());
    assert_eq!(
        resolve_settings(&a, &m).err(),
        Some("Invalid language: 'cobol'. Available: java, kotlin, groovy".to_string())
    );
    let mut b = args();
    b.boot = Some("3.3.10".into());
    b.deps = vec!["legacy".into()];
    assert_eq!(
        resolve_settings(&b, &m).err(),
        Some("Dependency 'legacy' is not compatible with Spring Boot 3.3.10. Required: >= 2.0.0, < 3.0.0".to_string())
    );
}

#[test]
fn url_encoding_escapes_reserved_bytes() {
    assert_eq!(urlencoding("a-b_c.d~E9"), "a-b_c.d~E9");
    assert_eq!(urlencoding("a b/ü"), "a%20b%2F%C3%BC");
    assert_eq!(urlencoding("web,data-jpa"), "web%2Cdata-jpa");
}

#[test]
fn starter_url_lists_every_setting() {
    let m = meta();
    let mut a = args();
    a.name = Some("My App".into());
    a.deps = vec!["web".into(), "data-jpa".into()];
    let s = resolve_settings(&a, &m).unwrap();
    assert_eq!(
        starter_zip_url(&s),
        "https://start.spring.io/starter.zip?type=maven-project&language=java&bootVersion=3.4.4&baseDir=My%20App&groupId=com.example&artifactId=demo&packageName=com.example.demo&packaging=jar&javaVersion=21&configurationFileFormat=properties&dependencies=web%2Cdata-jpa"
    );
    let b = resolve_settings(&args(), &m).unwrap();
    assert!(!starter_zip_url(&b).contains("dependencies="));
}

#[test]
fn wizard_runs_only_without_settings() {
    let mut a = args();
    a.git = true;
    a.docker = true;
    a.template = Some("clean-architecture".into());
    assert!(wants_wizard(&a));
    a.flat = true;
    assert!(!wants_wizard(&a));
    let mut b = args();
    b.deps = vec!["web".into()];
    assert!(!wants_wizard(&b));
}

#[test]
fn omitted_settings_take_the_service_defaults() {
    let mut m = meta();
    m.defaults.group = "org.acme".into();
    m.defaults.artifact = "shop-api".into();
    m.defaults.package_name = "ignored.pkg".into();
    let s = resolve_settings(&args(), &m).unwrap();
    assert_eq!(s.group, "org.acme");
    assert_eq!(s.artifact, "shop-api");
    assert_eq!(s.package_name, "org.acme.shopapi");
    assert_eq!(s.boot, m.defaults.boot);
    assert_eq!(s.project, m.defaults.project);
}

fn percent_decode(s: &str) -> Vec<u8> {
    let b = s.as_bytes();
    let mut out = Vec::new();
    let mut i = 0;
    while i < b.len() {
        if b[i] == b'%' && i + 2 < b.len() {
            out.push(u8::from_str_radix(&s[i + 1..i + 3], 16).unwrap());
            i += 3;
        } else {
            out.push(b[i]);
            i += 1;
        }
    }
    out
}

#[test]
fn urlencoding_round_trips_through_percent_decoding() {
    let s = "my app/é,x";
    let e = urlencoding(s);
    assert_eq!(e, "my%20app%2F%C3%A9%2Cx");
    assert_eq!(percent_decode(&e), s.as_bytes().to_vec());
}
