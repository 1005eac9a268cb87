//! The build tools a project can use, and which one a directory holds.
use vstd::prelude::*;

verus! {

/// The build tool of a project, named by its build file.
#[derive(PartialEq, Eq, Structural, Clone, Copy, Debug)]
pub enum BuildTool {
    GradleKotlin,
    GradleGroovy,
    Maven,
}

pub open spec fn spec_tool_file_name(t: BuildTool) -> Seq<char> {
    match t {
        BuildTool::GradleKotlin => "build.gradle.kts"@,
        BuildTool::GradleGroovy => "build.gradle"@,
        BuildTool::Maven => "pom.xml"@,
    }
}

pub open spec fn spec_tool_name(t: BuildTool) -> Seq<char> {
    match t {
        BuildTool::GradleKotlin => "Gradle Kotlin DSL"@,
        BuildTool::GradleGroovy => "Gradle Groovy DSL"@,
        BuildTool::Maven => "Maven"@,
    }
}

impl BuildTool {
    /// The name of the tool's build file.
    pub fn file_name(&self) -> (r: &'static str)
        ensures
            r@ == spec_tool_file_name(*self),
    {
        match self {
            BuildTool::GradleKotlin => "build.gradle.kts",
            BuildTool::GradleGroovy => "build.gradle",
            BuildTool::Maven => "pom.xml",
        }
    }

    pub fn is_maven(&self) -> (r: bool)
        ensures
            r == (*self == BuildTool::Maven),
    {
        matches!(self, BuildTool::Maven)
    }

    /// The tool's name for people.
    pub fn as_str(&self) -> (r: &'static str)
        ensures
            r@ == spec_tool_name(*self),
    {
        match self {
            BuildTool::GradleKotlin => "Gradle Kotlin DSL",
            BuildTool::GradleGroovy => "Gradle Groovy DSL",
            BuildTool::Maven => "Maven",
        }
    }
}

pub open spec fn no_build_file_message() -> Seq<char> {
    "Could not find build.gradle.kts, build.gradle, or pom.xml in the current directory. Are you in a Spring Boot project?"@
}

/// The tool whose build file comes first in the order `build.gradle.kts`,
/// `build.gradle`, `pom.xml`, given the text of each file that could be
/// read (`None` for one that is missing or unreadable).
pub open spec fn spec_select_build_tool(
    kts: Option<Seq<char>>,
    groovy: Option<Seq<char>>,
    pom: Option<Seq<char>>,
) -> Result<(BuildTool, Seq<char>), Seq<char>> {
    match kts {
        Some(c) => Ok((BuildTool::GradleKotlin, c)),
        None => match groovy {
            Some(c) => Ok((BuildTool::GradleGroovy, c)),
            None => match pom {
                Some(c) => Ok((BuildTool::Maven, c)),
                None => Err(no_build_file_message()),
            },
        },
    }
}

pub open spec fn opt_string(o: Option<String>) -> Option<Seq<char>> {
    match o {
        Some(s) => Some(s@),
        None => None,
    }
}

/// Picks the project's build tool from the build files found.
pub fn select_build_tool(
    kts: Option<String>,
    groovy: Option<String>,
    pom: Option<String>,
) -> (r: Result<(BuildTool, String), String>)
    ensures
        match r {
            Ok((t, c)) => spec_select_build_tool(opt_string(kts), opt_string(groovy), opt_string(pom))
                == Ok::<(BuildTool, Seq<char>), Seq<char>>((t, c@)),
            Err(e) => spec_select_build_tool(opt_string(kts), opt_string(groovy), opt_string(pom))
                == Err::<(BuildTool, Seq<char>), Seq<char>>(e@),
        },
{
    if let Some(c) = kts {
        return Ok((BuildTool::GradleKotlin, c));
    }
    if let Some(c) = groovy {
        return Ok((BuildTool::GradleGroovy, c));
    }
    if let Some(c) = pom {
        return Ok((BuildTool::Maven, c));
    }
    Err("Could not find build.gradle.kts, build.gradle, or pom.xml in the current directory. Are you in a Spring Boot project?".to_owned())
}

} // verus!
