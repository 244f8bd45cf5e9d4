//! Projects described by a `package.json` file.

pub mod node_project;

pub use node_project::NodeProject;
