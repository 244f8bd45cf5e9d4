//! The descriptor of an Nx project.

use vstd::prelude::*;
use crate::config::text_of;
use crate::projects::Project;

verus! {

/// What a `project.json` file declares. Each field may be absent.
#[derive(Debug)]
pub struct NxProject {
    /// The name of the project.
    pub name: Option<String>,
    /// The project's location relative to the root of the workspace.
    pub root: Option<String>,
    /// The location of the project's sources relative to the root of the
    /// workspace.
    pub source_root: Option<String>,
    /// Whether the project is a library or an application.
    pub project_type: Option<ProjectType>,
    pub tags: Option<Vec<String>>,
    /// The names of the projects it depends on, or globs over such names.
    pub implicit_dependencies: Option<Vec<String>>,
}

/// The kind of a project.
#[derive(Debug)]
pub enum ProjectType {
    Library,
    Application,
}

impl Project for NxProject {
    open spec fn declared_name(&self) -> Option<Seq<char>> {
        text_of(self.name)
    }

    fn name(&self) -> (r: Option<&str>) {
        match &self.name {
            Some(n) => Some(n.as_str()),
            None => None,
        }
    }
}

impl NxProject {
    /// The descriptor found in the directory `project_path`, with the
    /// defaults that depend on where it was found: where it declares no
    /// location of its own, that directory is its location, and where it
    /// declares no source root, that directory is its source root. The name
    /// is kept as declared; a project without one gets its placeholder
    /// where a graph node is made of it.
    pub fn load(project_path: &str, declared: NxProject) -> (project: NxProject)
        ensures
            text_of(project.root) == Some(
                match declared.root {
                    Some(r) => r@,
                    None => project_path@,
                },
            ),
            text_of(project.source_root) == Some(
                match declared.source_root {
                    Some(s) => s@,
                    None => project_path@,
                },
            ),
            project.name == declared.name,
            project.project_type == declared.project_type,
            project.tags == declared.tags,
            project.implicit_dependencies == declared.implicit_dependencies,
    {
        let NxProject { name, root, source_root, project_type, tags, implicit_dependencies } =
            declared;
        let root = match root {
            Some(r) => Some(r),
            None => Some(String::from_str(project_path)),
        };
        let source_root = match source_root {
            Some(s) => Some(s),
            None => Some(String::from_str(project_path)),
        };
        NxProject { name, root, source_root, project_type, tags, implicit_dependencies }
    }
}

} // verus!
