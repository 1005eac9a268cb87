//! Opening the build file of the project in a directory.
use vstd::prelude::*;
use crate::build_tool::{no_build_file_message, opt_string};
use crate::project::build_file::{BuildFile, GradleBuildFile, MavenBuildFile};

verus! {

/// The build file found: a Gradle script or a POM.
pub enum DetectedBuildFile {
    Gradle(GradleBuildFile),
    Maven(MavenBuildFile),
}

impl DetectedBuildFile {
    pub open spec fn name_view(&self) -> Seq<char> {
        match self {
            DetectedBuildFile::Gradle(g) => g.name_view(),
            DetectedBuildFile::Maven(m) => m.name_view(),
        }
    }

    pub open spec fn content_view(&self) -> Seq<char> {
        match self {
            DetectedBuildFile::Gradle(g) => g.content_view(),
            DetectedBuildFile::Maven(m) => m.content_view(),
        }
    }

    pub open spec fn maven_view(&self) -> bool {
        match self {
            DetectedBuildFile::Gradle(g) => g.maven_view(),
            DetectedBuildFile::Maven(m) => m.maven_view(),
        }
    }
}

/// Finds the build file of the project.
pub struct ProjectDetector;

/// The build file that comes first in the order `build.gradle.kts`,
/// `build.gradle`, `pom.xml`, as (file name, text, whether a POM), given
/// the text of each file that could be read.
pub open spec fn spec_detect(
    kts: Option<Seq<char>>,
    groovy: Option<Seq<char>>,
    pom: Option<Seq<char>>,
) -> Result<(Seq<char>, Seq<char>, bool), Seq<char>> {
    match kts {
        Some(c) => Ok(("build.gradle.kts"@, c, false)),
        None => match groovy {
            Some(c) => Ok(("build.gradle"@, c, false)),
            None => match pom {
                Some(c) => Ok(("pom.xml"@, c, true)),
                None => Err(no_build_file_message()),
            },
        },
    }
}

impl ProjectDetector {
    /// Opens the project's build file, given the text of each candidate
    /// file that could be read (`None` for one missing or unreadable).
    pub fn select(
        kts: Option<String>,
        groovy: Option<String>,
        pom: Option<String>,
    ) -> (r: Result<DetectedBuildFile, String>)
        ensures
            match r {
                Ok(f) => spec_detect(opt_string(kts), opt_string(groovy), opt_string(pom))
                    == Ok::<(Seq<char>, Seq<char>, bool), Seq<char>>((f.name_view(), f.content_view(), f.maven_view())),
                Err(e) => spec_detect(opt_string(kts), opt_string(groovy), opt_string(pom))
                    == Err::<(Seq<char>, Seq<char>, bool), Seq<char>>(e@),
            },
    {
        if let Some(c) = kts {
            return Ok(DetectedBuildFile::Gradle(GradleBuildFile::new("build.gradle.kts".to_owned(), c)));
        }
        if let Some(c) = groovy {
            return Ok(DetectedBuildFile::Gradle(GradleBuildFile::new("build.gradle".to_owned(), c)));
        }
        if let Some(c) = pom {
            return Ok(DetectedBuildFile::Maven(MavenBuildFile::new(c)));
        }
        Err("Could not find build.gradle.kts, build.gradle, or pom.xml in the current directory. Are you in a Spring Boot project?".to_owned())
    }
}

} // verus!
