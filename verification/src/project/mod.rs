pub mod dependency_map;
pub mod build_file;
pub mod detector;

pub use dependency_map::ArtifactMapper;
pub use build_file::{BuildFile, GradleBuildFile, MavenBuildFile};
pub use detector::ProjectDetector;
