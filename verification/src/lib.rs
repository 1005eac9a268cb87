pub mod metadata;
pub mod order;
pub mod text;
pub mod version;
pub mod version_laws;
pub mod scan;
pub mod artifacts;
pub mod project;
pub mod edit;
pub mod changes;
pub mod deps;
pub mod generate;
pub mod tree;
pub mod build_tool;
pub mod search;
pub mod info;
pub mod update;
pub mod interactive;
pub mod paths;
pub mod archive;
pub mod template;
pub mod doctor;
pub mod git;
pub mod docker;
pub mod client;
pub mod project_deps;
pub mod upgrade;
pub mod edit_laws;
