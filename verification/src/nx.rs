//! Projects described by a `project.json` file.

pub mod nx_project;

pub use nx_project::{NxProject, ProjectType};
