use springx::deps::extract_boot_version;
use springx::build_tool::{select_build_tool, BuildTool};
use springx::changes::NoteKind;
use springx::project::detector::DetectedBuildFile;
use springx::project::{BuildFile, GradleBuildFile, MavenBuildFile, ProjectDetector};

const GRADLE: &str = "plugins {\n\tid 'java'\n\tid 'org.springframework.boot' version '3.4.4'\n}\n\ndependencies {\n\timplementation 'org.springframework.boot:spring-boot-starter'\n\tcompileOnly 'org.projectlombok:lombok'\n}\n";

const POM: &str = "<project>\n    <parent>\n        <groupId>org.springframework.boot</groupId>\n        <artifactId>spring-boot-starter-parent</artifactId>\n        <version>3.3.1</version>\n    </parent>\n    <dependencies>\n        <dependency>\n            <groupId>org.springframework.boot</groupId>\n            <artifactId>spring-boot-starter-data-jpa</artifactId>\n        </dependency>\n    </dependencies>\n</project>\n";

const GRADLE_BOM: &str = "ext {\n\tset('springCloudVersion', \"2024.0.1\")\n}\n\ndependencyManagement {\n\timports {\n\t\tmavenBom \"org.springframework.cloud:spring-cloud-dependencies:${springCloudVersion}\"\n\t}\n}\n";

#[test]
fn gradle_file_names_its_dsl() {
    let k = GradleBuildFile::new("build.gradle.kts".into(), String::new());
    assert_eq!(k.build_tool_name(), "Gradle Kotlin DSL");
    assert_eq!(k.file_name(), "build.gradle.kts");
    assert!(!k.is_maven());
    let g = GradleBuildFile::new("build.gradle".into(), GRADLE.into());
    assert_eq!(g.build_tool_name(), "Gradle Groovy DSL");
    assert_eq!(g.extract_boot_version(), Some("3.4.4".to_string()));
    assert_eq!(g.extract_artifact_ids(), vec!["java", "org.springframework.boot", "3.4.4", "spring-boot-starter", "lombok"]);
}

#[test]
fn gradle_dependencies_go_in_and_out() {
    let mut g = GradleBuildFile::new("build.gradle".into(), GRADLE.into());
    g.add_dependencies("\timplementation 'org.springframework.boot:spring-boot-starter-web'\n");
    assert_eq!(
        g.content(),
        GRADLE.replace("lombok'\n}", "lombok'\n\timplementation 'org.springframework.boot:spring-boot-starter-web'\n}")
    );
    assert!(g.remove_dependency_line("spring-boot-starter-web"));
    assert_eq!(g.content(), GRADLE);
    assert!(!g.remove_dependency_line("absent"));
    assert_eq!(g.content(), GRADLE);
}

#[test]
fn gradle_bom_added_removed_and_cleaned() {
    let mut g = GradleBuildFile::new("build.gradle".into(), GRADLE.into());
    g.add_bom(GRADLE_BOM);
    let expected = format!(
        "{}\n\ndependencyManagement {{\n\timports {{\n\t\tmavenBom \"org.springframework.cloud:spring-cloud-dependencies:${{springCloudVersion}}\"\n\t}}\n}}\n",
        GRADLE.replace("}\n\ndependencies {", "}\n\next {\n\tset('springCloudVersion', \"2024.0.1\")\n}\n\ndependencies {").trim_end_matches('\n')
    );
    assert_eq!(g.content(), expected);
    assert!(g.remove_bom(GRADLE_BOM));
    g.cleanup_empty_blocks();
    assert_eq!(g.content(), format!("{}\n", GRADLE.replace("}\n\ndependencies {", "}\n\n\ndependencies {")));
    g.add_properties("<properties><a>1</a></properties>");
    assert!(!g.remove_properties("<properties><a>1</a></properties>"));
}

#[test]
fn gradle_plugins_and_generate_java() {
    let mut g = GradleBuildFile::new("build.gradle".into(), GRADLE.into());
    let snippet = "plugins {\n\tid 'java'\n\tid 'com.netflix.dgs.codegen' version '7.0.3'\n}\n\ngenerateJava {\n\tpackageName = 'com.example.codegen'\n}\n";
    let notes = g.add_plugins(snippet);
    let expected = format!(
        "{}\ngenerateJava {{\n\tpackageName = 'com.example.codegen'\n}}\n",
        GRADLE.replace("'3.4.4'\n}", "'3.4.4'\n    id 'com.netflix.dgs.codegen' version '7.0.3'\n\n}")
    );
    assert_eq!(g.content(), expected);
    assert_eq!(notes.len(), 2);
    assert_eq!(notes[0].kind, NoteKind::Plugin);
    assert_eq!(notes[0].text, "id 'com.netflix.dgs.codegen' version '7.0.3'");
    assert_eq!(notes[1].kind, NoteKind::ConfigBlock);
    assert_eq!(notes[1].text, "generateJava");
    let again = g.add_plugins("generateJava {\n\tx = 1\n}\n");
    assert_eq!(again.len(), 1);
    assert_eq!(g.content(), expected);
}

#[test]
fn maven_file_basics() {
    let mut m = MavenBuildFile::new(POM.into());
    assert_eq!(m.file_name(), "pom.xml");
    assert_eq!(m.build_tool_name(), "Maven");
    assert!(m.is_maven());
    assert_eq!(m.extract_boot_version(), Some("3.3.1".to_string()));
    assert_eq!(m.extract_artifact_ids(), vec!["spring-boot-starter-parent", "spring-boot-starter-data-jpa"]);
    m.set_content("x".into());
    assert_eq!(m.content(), "x");
}

#[test]
fn maven_dependencies_go_in_and_out() {
    let mut m = MavenBuildFile::new(POM.into());
    m.add_dependencies("<dependency><artifactId>x</artifactId></dependency>");
    assert_eq!(
        m.content(),
        POM.replace("    </dependencies>", "    <dependency><artifactId>x</artifactId></dependency>\n</dependencies>")
    );
    assert!(m.remove_dependency_line("spring-boot-starter-data-jpa"));
    assert!(!m.content().contains("data-jpa"));
    assert!(!m.remove_dependency_line("data"));
}

#[test]
fn maven_properties_added_removed_and_cleaned() {
    let mut m = MavenBuildFile::new(POM.into());
    let snippet = "<properties>\n\t\t<java.version>21</java.version>\n\t\t<spring-cloud.version>2024.0.1</spring-cloud.version>\n\t</properties>";
    m.add_properties(snippet);
    assert_eq!(
        m.content(),
        POM.replace(
            "    <dependencies>",
            "        <properties>\n        <spring-cloud.version>2024.0.1</spring-cloud.version>\n    </properties>\n\n<dependencies>"
        )
    );
    assert!(m.remove_properties(snippet));
    m.cleanup_empty_blocks();
    assert_eq!(m.content(), POM.replace("    <dependencies>", "    \n<dependencies>"));
}

#[test]
fn maven_bom_added_then_removed() {
    let mut m = MavenBuildFile::new(POM.into());
    let snippet = "<dependencyManagement>\n\t\t<dependencies>\n\t\t\t<dependency>\n\t\t\t\t<artifactId>spring-cloud-dependencies</artifactId>\n\t\t\t\t<type>pom</type>\n\t\t\t</dependency>\n\t\t</dependencies>\n\t</dependencyManagement>";
    m.add_bom(snippet);
    let bom = "            <dependency>\n            \t\t\t\t<artifactId>spring-cloud-dependencies</artifactId>\n            \t\t\t\t<type>pom</type>\n            \t\t\t</dependency>\n";
    let expected = POM.replace(
        "    </dependencies>\n",
        &format!("    </dependencies>\n    <dependencyManagement>\n        <dependencies>\n{bom}        </dependencies>\n    </dependencyManagement>\n\n"),
    );
    assert_eq!(m.content(), expected);
    assert!(m.remove_bom(snippet));
    assert!(!m.content().contains("spring-cloud-dependencies"));
    assert!(!m.remove_bom(snippet));
}

#[test]
fn maven_plugins_are_added_under_build() {
    let pom = POM.replace("</project>", "    <build>\n    </build>\n</project>");
    let mut m = MavenBuildFile::new(pom.clone());
    let snippet = "<build>\n\t\t<plugins>\n\t\t\t<plugin>\n\t\t\t\t<artifactId>native-maven-plugin</artifactId>\n\t\t\t</plugin>\n\t\t\t<plugin>\n\t\t\t\t<artifactId>spring-boot-maven-plugin</artifactId>\n\t\t\t</plugin>\n\t\t</plugins>\n\t</build>";
    let notes = m.add_plugins(snippet);
    assert_eq!(
        m.content(),
        pom.replace(
            "<build>",
            "<build>\n        <plugins>\n            <plugin>\n\t\t\t\t<artifactId>native-maven-plugin</artifactId>\n\t\t\t</plugin>\n\n        </plugins>\n"
        )
    );
    assert_eq!(notes.len(), 1);
    assert_eq!(notes[0].text, "native-maven-plugin");
}

#[test]
fn build_tool_priority() {
    let (t, c) = select_build_tool(Some("k".into()), Some("g".into()), Some("p".into())).unwrap();
    assert_eq!((t, c.as_str()), (BuildTool::GradleKotlin, "k"));
    let (t, _) = select_build_tool(None, None, Some("p".into())).unwrap();
    assert_eq!(t, BuildTool::Maven);
    assert_eq!(t.file_name(), "pom.xml");
    assert_eq!(t.as_str(), "Maven");
    assert!(t.is_maven());
    assert_eq!(BuildTool::GradleGroovy.file_name(), "build.gradle");
    assert_eq!(BuildTool::GradleKotlin.as_str(), "Gradle Kotlin DSL");
    assert_eq!(
        select_build_tool(None, None, None).err(),
        Some("Could not find build.gradle.kts, build.gradle, or pom.xml in the current directory. Are you in a Spring Boot project?".to_string())
    );
}

#[test]
fn detector_opens_the_first_build_file() {
    match ProjectDetector::select(None, Some("g".into()), Some("p".into())) {
        Ok(DetectedBuildFile::Gradle(g)) => {
            assert_eq!(g.file_name(), "build.gradle");
            assert_eq!(g.content(), "g");
        },
        _ => panic!("expected the Groovy script"),
    }
    match ProjectDetector::select(None, None, Some("p".into())) {
        Ok(DetectedBuildFile::Maven(m)) => assert_eq!(m.content(), "p"),
        _ => panic!("expected the POM"),
    }
    assert!(ProjectDetector::select(None, None, None).is_err());
}

#[test]
fn gradle_bom_added_twice_is_added_once() {
    let mut g = GradleBuildFile::new("build.gradle".into(), GRADLE.into());
    g.add_bom(GRADLE_BOM);
    let once = g.content().to_string();
    assert!(once.contains("set('springCloudVersion', \"2024.0.1\")"));
    g.add_bom(GRADLE_BOM);
    assert_eq!(g.content(), once);
}

#[test]
fn boot_version_reads_gradle_then_pom_and_names_a_boot_release() {
    for c in [GRADLE, POM, "<project><version>1.0.0</version></project>"] {
        let g = GradleBuildFile::new("build.gradle".into(), c.to_string()).extract_boot_version();
        let m = MavenBuildFile::new(c.to_string()).extract_boot_version();
        let v = extract_boot_version(c);
        assert_eq!(v, g.or(m));
        if let Some(v) = v {
            assert!(v.starts_with('2') || v.starts_with('3') || v.starts_with('4'));
        }
    }
    assert_eq!(extract_boot_version("<project><version>1.0.0</version></project>"), None);
}

#[test]
fn gradle_bom_with_interpolated_lines_added_twice_is_added_once() {
    let snippet = "ext {\n\tset('cloudVersion', \"2024.0.1\")\n}\n\ndependencyManagement {\n\timports {\n\t\tmavenBom \"org.springframework.cloud:spring-cloud-dependencies:${cloudVersion}\"\n\t}\n}\n";
    let mut g = GradleBuildFile::new("build.gradle".into(), GRADLE.into());
    g.add_bom(snippet);
    let once = g.content().to_string();
    assert!(once.contains("set('cloudVersion', \"2024.0.1\")"));
    assert!(once.contains("mavenBom \"org.springframework.cloud:spring-cloud-dependencies:${cloudVersion}\""));
    g.add_bom(snippet);
    assert_eq!(g.content(), once);
}
