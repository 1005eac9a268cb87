//! Project templates: the folders a template lays out in a new project.
use vstd::prelude::*;
use crate::paths::{path_join, spec_path_join};
use crate::text::{extend, from_chars, lowercase_of, str_lowercase, string_views, to_chars, is_text};

verus! {

/// A layout a new project can be given.
pub trait ProjectTemplate {
    /// The folders the template creates below the sources' base folder.
    fn folders(&self, base_dir: &str) -> Vec<String>;
}

/// Controllers, services, repositories, entities, DTOs and configuration,
/// each in a package of its own.
pub struct CleanArchitectureTemplate;

/// The packages of the clean architecture.
pub open spec fn clean_layers() -> Seq<Seq<char>> {
    seq!["controller"@, "service"@, "repository"@, "entity"@, "dto"@, "config"@]
}

impl ProjectTemplate for CleanArchitectureTemplate {
    fn folders(&self, base_dir: &str) -> (r: Vec<String>)
        ensures
            string_views(r@) == clean_layers().map_values(|l: Seq<char>| spec_path_join(base_dir@, l)),
    {
        let mut out: Vec<String> = Vec::new();
        out.push(path_join(base_dir, "controller"));
        out.push(path_join(base_dir, "service"));
        out.push(path_join(base_dir, "repository"));
        out.push(path_join(base_dir, "entity"));
        out.push(path_join(base_dir, "dto"));
        out.push(path_join(base_dir, "config"));
        assert(string_views(out@) =~= clean_layers().map_values(|l: Seq<char>| spec_path_join(base_dir@, l)));
        out
    }
}

/// The folder of a package: its name with each `.` turned into `/`.
pub open spec fn package_path(package_name: Seq<char>) -> Seq<char> {
    package_name.map_values(|c: char| if c == '.' { '/' } else { c })
}

/// The package's folder under the Java, Kotlin and Groovy sources.
pub open spec fn spec_source_dirs(project: Seq<char>, package_name: Seq<char>) -> Seq<Seq<char>> {
    seq![
        spec_path_join(spec_path_join(project, "src/main/java"@), package_path(package_name)),
        spec_path_join(spec_path_join(project, "src/main/kotlin"@), package_path(package_name)),
        spec_path_join(spec_path_join(project, "src/main/groovy"@), package_path(package_name)),
    ]
}

pub fn source_dirs(project: &str, package_name: &str) -> (r: Vec<String>)
    ensures
        string_views(r@) == spec_source_dirs(project@, package_name@),
{
    let p = to_chars(package_name);
    let mut out: Vec<char> = Vec::new();
    let mut i: usize = 0;
    while i < p.len()
        invariant
            i <= p.len(),
            p@ == package_name@,
            out@.len() == i,
            forall|k: int| 0 <= k < i ==> #[trigger] out@[k] == (if p@[k] == '.' { '/' } else { p@[k] }),
        decreases p.len() - i,
    {
        if p[i] == '.' {
            out.push('/');
        } else {
            out.push(p[i]);
        }
        i = i + 1;
    }
    assert(out@ =~= package_path(package_name@));
    let pkg = from_chars(&out);
    let mut dirs: Vec<String> = Vec::new();
    dirs.push(path_join(path_join(project, "src/main/java").as_str(), pkg.as_str()));
    dirs.push(path_join(path_join(project, "src/main/kotlin").as_str(), pkg.as_str()));
    dirs.push(path_join(path_join(project, "src/main/groovy").as_str(), pkg.as_str()));
    assert(string_views(dirs@) =~= spec_source_dirs(project@, package_name@));
    dirs
}

/// The sources' base folder: Kotlin's where it exists, else Groovy's where
/// it exists, else Java's.
pub fn pick_source_dir(dirs: &Vec<String>, kotlin_exists: bool, groovy_exists: bool) -> (r: String)
    requires
        dirs@.len() == 3,
    ensures
        r@ == if kotlin_exists {
            dirs@[1]@
        } else if groovy_exists {
            dirs@[2]@
        } else {
            dirs@[0]@
        },
{
    if kotlin_exists {
        dirs[1].clone()
    } else if groovy_exists {
        dirs[2].clone()
    } else {
        dirs[0].clone()
    }
}

/// The template a name stands for, case ignored; else the error.
pub fn resolve_template(template_name: &str) -> (r: Result<CleanArchitectureTemplate, String>)
    ensures
        r is Ok <==> str_lowercase(template_name@) == "clean-architecture"@,
        r matches Err(e) ==> e@ == "Unknown template: "@ + template_name@ + ". Available templates: clean-architecture"@,
{
    let lower = to_chars(lowercase_of(template_name).as_str());
    if is_text(&lower, "clean-architecture") {
        Ok(CleanArchitectureTemplate)
    } else {
        let mut msg = to_chars("Unknown template: ");
        extend(&mut msg, &to_chars(template_name));
        extend(&mut msg, &to_chars(". Available templates: clean-architecture"));
        Err(from_chars(&msg))
    }
}

} // verus!
