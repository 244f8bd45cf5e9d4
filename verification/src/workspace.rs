//! The workspace: a root directory, its configuration, and what a load
//! derives from the repository and the project descriptors.
//!
//! The library reads no disk and no repository. Whoever runs it walks the
//! tree, asks the version control system and reads the descriptors, and
//! hands what was found to the functions of this module.

use vstd::prelude::*;
use crate::config::{pointed, text_of, Config, Task};
use crate::dependencies::{
    build_graph, buildable, dependency_graph, depends_at, edges_between,
    graph_failure, lists, project_views, total_edges, unresolved, DependencyRef,
    GraphBuild, GraphError, LoadedProject,
};
use crate::graph::{
    affected_projects, count_edges, graph_edges, graph_new, graph_view, ProjectView,
    WorkspaceGraph,
};
use crate::projects::slice_text;
use crate::nx::NxProject;
use crate::string_set::StringSet;
use crate::tasks::{run_tasks, TaskRun, TaskRunError};

verus! {

/// Why the changed files could not be told.
#[derive(Debug)]
pub enum VcsError {
    /// The repository could not be opened.
    OpenRepository,
    /// `HEAD` could not be resolved.
    Head,
    /// The configured base branch is no local branch.
    BaseBranchNotFound { name: String },
    /// No base branch is configured, and neither `main` nor `master` is a
    /// local branch.
    NoBaseBranch,
    /// The base commit or its tree could not be found, or the comparison
    /// with the working copy failed.
    Diff,
}

/// The branch that the changes are measured against: the configured one
/// where there is one, else `main`, else `master`; in each case only where
/// it exists.
pub open spec fn base_branch(
    base: Option<Seq<char>>,
    base_exists: bool,
    main_exists: bool,
    master_exists: bool,
) -> Option<Seq<char>> {
    match base {
        Some(name) => if base_exists {
            Some(name)
        } else {
            None
        },
        None => if main_exists {
            Some("main"@)
        } else if master_exists {
            Some("master"@)
        } else {
            None
        },
    }
}

/// Chooses the base branch. `base` is the configured name, `base_exists`
/// says whether it is a local branch, and the other two say the same of
/// `main` and `master`. A configured base that does not exist is an error:
/// nothing is chosen in its place.
pub fn resolve_base_branch(
    base: Option<&str>,
    base_exists: bool,
    main_exists: bool,
    master_exists: bool,
) -> (r: Result<String, VcsError>)
    ensures
        match r {
            Ok(name) => base_branch(
                slice_text(base),
                base_exists,
                main_exists,
                master_exists,
            ) == Some(name@),
            Err(VcsError::BaseBranchNotFound { name }) => !base_exists
                && slice_text(base) == Some(name@),
            Err(VcsError::NoBaseBranch) => base is None && !main_exists && !master_exists,
            Err(_) => false,
        },
{
    match base {
        Some(name) => {
            if base_exists {
                Ok(String::from_str(name))
            } else {
                Err(VcsError::BaseBranchNotFound { name: String::from_str(name) })
            }
        },
        None => {
            if main_exists {
                Ok(String::from_str("main"))
            } else if master_exists {
                Ok(String::from_str("master"))
            } else {
                Err(VcsError::NoBaseBranch)
            }
        },
    }
}

/// Some delta of `deltas` has `path` on its new side.
pub open spec fn has_new_side(deltas: Seq<Option<String>>, path: Seq<char>) -> bool {
    exists|i: int|
        0 <= i < deltas.len() && text_of(#[trigger] deltas[i]) == Some(path)
}

/// The changed files: the path on the new side of each delta that has one.
/// A delta without a new side, which is a deletion, gives none.
pub fn find_affected_files(deltas: &Vec<Option<String>>) -> (files: StringSet)
    ensures
        forall|path: Seq<char>| files@.contains(path) <==> has_new_side(deltas@, path),
{
    let mut files = StringSet::new();
    let mut i: usize = 0;
    while i < deltas.len()
        invariant
            i <= deltas.len(),
            forall|path: Seq<char>| files@.contains(path) <==> has_new_side(
                deltas@.take(i as int),
                path,
            ),
        decreases deltas.len() - i,
    {
        let ghost done = deltas@.take(i as int);
        let ghost more = deltas@.take(i + 1);
        match &deltas[i] {
            Some(path) => {
                files.insert(path.clone());
            },
            None => {},
        }
        proof {
            assert forall|path: Seq<char>| files@.contains(path) <==> has_new_side(more, path) by {
                if has_new_side(done, path) {
                    let k = choose|k: int|
                        0 <= k < done.len() && text_of(#[trigger] done[k]) == Some(path);
                    assert(more[k] == done[k]);
                }
                if has_new_side(more, path) {
                    let k = choose|k: int|
                        0 <= k < more.len() && text_of(#[trigger] more[k]) == Some(path);
                    if k < i {
                        assert(done[k] == more[k]);
                    }
                }
                if text_of(deltas@[i as int]) == Some(path) {
                    assert(more[i as int] == deltas@[i as int]);
                }
            }
        }
        i = i + 1;
    }
    assert(deltas@.take(deltas@.len() as int) =~= deltas@);
    files
}

/// A directory entry that the walk of the tree came upon.
#[derive(Debug)]
pub struct WalkedEntry {
    /// The entry's path relative to the root of the walk; empty for the
    /// root itself.
    pub relative_path: String,
    /// Whether the entry passed the test for a project directory.
    pub is_project: bool,
}

/// Some entry that counts as a project has the path `path`.
pub open spec fn walked_project(entries: Seq<WalkedEntry>, path: Seq<char>) -> bool {
    exists|i: int|
        0 <= i < entries.len() && (#[trigger] entries[i]).is_project && entries[i].relative_path@
            == path
}

/// The project directories among what a walk found: the relative path of
/// each entry that passed the test, the root of the walk left out.
pub fn inspect_workspace(entries: &Vec<WalkedEntry>) -> (paths: StringSet)
    ensures
        forall|path: Seq<char>|
            paths@.contains(path) <==> path.len() > 0 && walked_project(entries@, path),
{
    let mut paths = StringSet::new();
    let mut i: usize = 0;
    while i < entries.len()
        invariant
            i <= entries.len(),
            forall|path: Seq<char>|
                paths@.contains(path) <==> path.len() > 0 && walked_project(
                    entries@.take(i as int),
                    path,
                ),
        decreases entries.len() - i,
    {
        let ghost done = entries@.take(i as int);
        let ghost more = entries@.take(i + 1);
        let entry = &entries[i];
        if !entry.relative_path.as_str().is_empty() && entry.is_project {
            paths.insert(entry.relative_path.clone());
        }
        proof {
            assert forall|path: Seq<char>|
                paths@.contains(path) <==> path.len() > 0 && walked_project(more, path) by {
                if walked_project(done, path) {
                    let k = choose|k: int|
                        0 <= k < done.len() && (#[trigger] done[k]).is_project
                            && done[k].relative_path@ == path;
                    assert(more[k] == done[k]);
                }
                if walked_project(more, path) {
                    let k = choose|k: int|
                        0 <= k < more.len() && (#[trigger] more[k]).is_project
                            && more[k].relative_path@ == path;
                    if k < i {
                        assert(done[k] == more[k]);
                    }
                }
                if entry.is_project && entry.relative_path@ == path {
                    assert(more[i as int] == entries@[i as int]);
                }
            }
        }
        i = i + 1;
    }
    assert(entries@.take(entries@.len() as int) =~= entries@);
    paths
}

/// Why a project's descriptor gave no project.
#[derive(Debug, Clone, Copy, PartialEq, Eq)]
pub enum DescriptorError {
    /// The descriptor file could not be read.
    Io,
    /// The file's content is no descriptor.
    Parse,
}

/// A project directory and what reading its descriptor gave.
#[derive(Debug)]
pub struct ProjectCandidate {
    pub path: String,
    pub descriptor: Result<NxProject, DescriptorError>,
}

/// A project directory that is left out of the graph, and why.
#[derive(Debug)]
pub struct SkippedProject {
    pub path: String,
    pub error: DescriptorError,
}

/// The candidates whose descriptor was read, in their order.
pub open spec fn readable(candidates: Seq<ProjectCandidate>) -> Seq<LoadedProject>
    decreases candidates.len(),
{
    if candidates.len() == 0 {
        Seq::empty()
    } else {
        let last = candidates.last();
        match last.descriptor {
            Ok(project) => readable(candidates.drop_last()).push(
                LoadedProject { path: last.path, project },
            ),
            Err(_) => readable(candidates.drop_last()),
        }
    }
}

/// The candidates whose descriptor was not read, in their order.
pub open spec fn unreadable(candidates: Seq<ProjectCandidate>) -> Seq<SkippedProject>
    decreases candidates.len(),
{
    if candidates.len() == 0 {
        Seq::empty()
    } else {
        let last = candidates.last();
        match last.descriptor {
            Ok(_) => unreadable(candidates.drop_last()),
            Err(error) => unreadable(candidates.drop_last()).push(
                SkippedProject { path: last.path, error },
            ),
        }
    }
}

/// Parts the candidates: those whose descriptor was read go on to the
/// graph, the others are set aside with their error. A descriptor that
/// cannot be read costs its own project only.
pub fn loaded_projects(candidates: Vec<ProjectCandidate>) -> (r: (
    Vec<LoadedProject>,
    Vec<SkippedProject>,
))
    ensures
        r.0@ == readable(candidates@),
        r.1@ == unreadable(candidates@),
{
    let ghost all = candidates@;
    let mut rest = candidates;
    let mut reversed: Vec<ProjectCandidate> = Vec::new();
    while rest.len() > 0
        invariant
            rest@.len() + reversed@.len() == all.len(),
            forall|i: int| 0 <= i < rest@.len() ==> rest@[i] == all[i],
            forall|i: int|
                0 <= i < reversed@.len() ==> reversed@[i] == all[all.len() - 1 - i],
        decreases rest.len(),
    {
        match rest.pop() {
            Some(candidate) => {
                reversed.push(candidate);
            },
            None => {},
        }
    }
    let mut loaded: Vec<LoadedProject> = Vec::new();
    let mut skipped: Vec<SkippedProject> = Vec::new();
    let ghost mut done: int = 0;
    while reversed.len() > 0
        invariant
            0 <= done <= all.len(),
            reversed@.len() + done == all.len(),
            forall|i: int|
                0 <= i < reversed@.len() ==> reversed@[i] == all[all.len() - 1 - i],
            loaded@ == readable(all.take(done)),
            skipped@ == unreadable(all.take(done)),
        decreases reversed.len(),
    {
        proof {
            assert(all.take(done + 1).drop_last() =~= all.take(done));
            assert(all.take(done + 1).last() == all[done]);
            assert(reversed@[reversed@.len() - 1] == all[done]);
        }
        match reversed.pop() {
            Some(candidate) => {
                let ProjectCandidate { path, descriptor } = candidate;
                match descriptor {
                    Ok(project) => {
                        loaded.push(LoadedProject { path, project });
                    },
                    Err(error) => {
                        skipped.push(SkippedProject { path, error });
                    },
                }
            },
            None => {},
        }
        proof {
            done = done + 1;
        }
    }
    assert(all.take(all.len() as int) =~= all);
    (loaded, skipped)
}

/// Whether a load with these changes looks at the projects at all: it does
/// where the changed files are known and there is one. Else no descriptor
/// need be read.
pub fn reads_projects(changes: &Result<StringSet, VcsError>) -> (r: bool)
    ensures
        r == match *changes {
            Ok(files) => !files@.is_empty(),
            Err(_) => false,
        },
{
    match changes {
        Ok(files) => !files.is_empty(),
        Err(_) => false,
    }
}

/// Why a load left the workspace as it was.
#[derive(Debug)]
pub enum LoadError {
    /// The changed files could not be told.
    Vcs(VcsError),
    /// The dependency graph could not be built.
    Graph(GraphError),
}

/// A root directory with its configuration and, once loaded, the graph of
/// its projects and what the changes affect.
///
/// A workspace is made without derived state. One call of `load` fills the
/// graph, the affected files and the affected projects together, or
/// leaves all three as they were. Before that, every query answers with
/// the empty value.
pub struct Workspace {
    root: String,
    config: Option<Config>,
    graph: Option<WorkspaceGraph>,
    affected_files: Option<StringSet>,
    affected_projects: Option<StringSet>,
}

impl Workspace {
    /// The root directory.
    pub closed spec fn root_path(&self) -> Seq<char> {
        self.root@
    }

    /// The configuration, if one was given.
    pub closed spec fn configuration(&self) -> Option<Config> {
        self.config
    }

    /// The graph, once loaded.
    pub closed spec fn loaded_graph(&self) -> Option<WorkspaceGraph> {
        self.graph
    }

    /// Whether a load has filled the derived state.
    pub open spec fn is_loaded(&self) -> bool {
        self.loaded_graph() is Some
    }

    /// The changed files; none before a load.
    pub closed spec fn files(&self) -> Set<Seq<char>> {
        match self.affected_files {
            Some(files) => files@,
            None => Set::empty(),
        }
    }

    /// The names of the affected projects; none before a load.
    pub closed spec fn projects(&self) -> Set<Seq<char>> {
        match self.affected_projects {
            Some(projects) => projects@,
            None => Set::empty(),
        }
    }

    /// The derived state is either all there or all absent; and where it is
    /// there, the affected projects are what the changed files affect in
    /// the graph.
    #[verifier::type_invariant]
    spec fn consistent(self) -> bool {
        match self.graph {
            Some(graph) => self.affected_files is Some && self.affected_projects is Some
                && self.projects() == graph_view(graph).affected(self.files()),
            None => self.affected_files is None && self.affected_projects is None,
        }
    }

    /// A workspace at `root`, without configuration.
    pub fn new(root: &str) -> (w: Self)
        ensures
            w.root_path() == root@,
            w.configuration() is None,
            !w.is_loaded(),
            w.loaded_graph() is None,
            w.files().is_empty(),
            w.projects().is_empty(),
    {
        Workspace {
            root: String::from_str(root),
            config: None,
            graph: None,
            affected_files: None,
            affected_projects: None,
        }
    }

    /// A workspace at `root` with a configuration.
    pub fn with_config(root: &str, config: Config) -> (w: Self)
        ensures
            w.root_path() == root@,
            w.configuration() == Some(config),
            !w.is_loaded(),
            w.loaded_graph() is None,
            w.files().is_empty(),
            w.projects().is_empty(),
    {
        Workspace {
            root: String::from_str(root),
            config: Some(config),
            graph: None,
            affected_files: None,
            affected_projects: None,
        }
    }

    /// The root directory.
    pub fn root(&self) -> (r: &str)
        ensures
            r@ == self.root_path(),
    {
        self.root.as_str()
    }

    /// The configuration, if one was given.
    pub fn config(&self) -> (r: Option<&Config>)
        ensures
            match r {
                Some(c) => self.configuration() == Some(*c),
                None => self.configuration() is None,
            },
    {
        self.config.as_ref()
    }

    /// The dependency graph, once loaded.
    pub fn graph(&self) -> (r: Option<&WorkspaceGraph>)
        ensures
            r is Some <==> self.is_loaded(),
            match r {
                Some(g) => self.loaded_graph() == Some(*g),
                None => self.loaded_graph() is None,
            },
    {
        self.graph.as_ref()
    }

    /// Fills the workspace from what was found: `changes` is what the
    /// version control system said of the changed files, `projects` are the
    /// project directories with their descriptors.
    ///
    /// Without a configuration nothing is loaded. Where the changed files
    /// could not be told, or no graph can be built, the load fails and the
    /// workspace stays as it was. Else the changed files are kept, the
    /// graph is the dependency graph of the projects (an empty graph where
    /// nothing changed), and the affected projects are what the changed
    /// files affect in it. The result lists the dependencies that led
    /// nowhere.
    pub fn load(&mut self, changes: Result<StringSet, VcsError>, projects: &Vec<LoadedProject>) -> (r:
        Result<Vec<DependencyRef>, LoadError>)
        ensures
            final(self).root_path() == old(self).root_path(),
            final(self).configuration() == old(self).configuration(),
            match r {
                Ok(listed) => match (old(self).configuration(), changes) {
                    (None, _) => *final(self) == *old(self) && listed@.len() == 0,
                    (Some(_), Ok(files)) => {
                        let ps = load_input(files@, projects@);
                        &&& final(self).is_loaded()
                        &&& final(self).files() == files@
                        &&& graph_view(final(self).loaded_graph()->0) == dependency_graph(ps)
                        &&& forall|e: (int, int)| #[trigger]
                            count_edges(graph_edges(final(self).loaded_graph()->0), e)
                                == edges_between(ps, e.0, e.1)
                        &&& final(self).projects() == dependency_graph(ps).affected(files@)
                        &&& buildable(ps)
                        &&& forall|a: int, k: int| #[trigger]
                            lists(listed@, a, k) <==> unresolved(ps, a, k)
                    },
                    (Some(_), Err(_)) => false,
                },
                Err(LoadError::Vcs(e)) => old(self).configuration() is Some && changes == Err::<
                    StringSet,
                    VcsError,
                >(e) && *final(self) == *old(self),
                Err(LoadError::Graph(e)) => {
                    &&& old(self).configuration() is Some
                    &&& changes matches Ok(files)
                    &&& *final(self) == *old(self)
                    &&& graph_failure(load_input(files@, projects@), e)
                },
            },
    {
        let mut taken = Workspace::new("");
        std::mem::swap(self, &mut taken);
        proof {
            use_type_invariant(&taken);
        }
        let Workspace { root, config, graph, affected_files, affected_projects: affected } = taken;
        if config.is_none() {
            *self = Workspace { root, config, graph, affected_files, affected_projects: affected };
            return Ok(Vec::new());
        }
        let files = match changes {
            Ok(files) => files,
            Err(e) => {
                *self = Workspace {
                    root,
                    config,
                    graph,
                    affected_files,
                    affected_projects: affected,
                };
                return Err(LoadError::Vcs(e));
            },
        };
        let ghost ps = load_input(files@, projects@);
        if files.is_empty() {
            let empty = graph_new();
            let none_affected = affected_projects(&empty, &files);
            proof {
                assert(graph_view(empty).nodes =~= dependency_graph(ps).nodes);
                assert(graph_view(empty).edges =~= dependency_graph(ps).edges) by {
                    assert forall|e: (int, int)| !dependency_graph(ps).edges.contains(e) by {
                        assert(forall|k: int| !#[trigger] depends_at(ps, e.0, k, e.1));
                    }
                }
                assert(graph_view(empty) == dependency_graph(ps));
                assert(total_edges(ps) == 0);
                assert(buildable(ps));
            }
            *self = Workspace {
                root,
                config,
                graph: Some(empty),
                affected_files: Some(files),
                affected_projects: Some(none_affected),
            };
            let none: Vec<DependencyRef> = Vec::new();
            proof {
                assert forall|a: int, k: int| #[trigger]
                    lists(none@, a, k) <==> unresolved(ps, a, k) by {}
            }
            return Ok(none);
        }
        match build_graph(projects) {
            Err(e) => {
                *self = Workspace {
                    root,
                    config,
                    graph,
                    affected_files,
                    affected_projects: affected,
                };
                Err(LoadError::Graph(e))
            },
            Ok(build) => {
                let GraphBuild { graph: built, unresolved: listed } = build;
                let now_affected = affected_projects(&built, &files);
                *self = Workspace {
                    root,
                    config,
                    graph: Some(built),
                    affected_files: Some(files),
                    affected_projects: Some(now_affected),
                };
                Ok(listed)
            },
        }
    }

    /// The changed files, in the order in which the load met them; none
    /// before a load.
    pub fn affected_files(&self) -> (files: StringSet)
        ensures
            files@ == self.files(),
            files.order() == self.affected_files_in_order(),
            !self.is_loaded() ==> files@.is_empty(),
    {
        proof {
            use_type_invariant(self);
        }
        match &self.affected_files {
            Some(files) => files.duplicate(),
            None => StringSet::new(),
        }
    }

    /// The names of the affected projects, in the order in which the
    /// traversal met them; none before a load. Whatever was loaded, they are
    /// what the changed files affect in the graph.
    pub fn affected_projects(&self) -> (projects: StringSet)
        ensures
            projects@ == self.projects(),
            projects.order() == self.affected_projects_in_order(),
            projects@ == match self.loaded_graph() {
                Some(graph) => graph_view(graph).affected(self.files()),
                None => Set::empty(),
            },
    {
        proof {
            use_type_invariant(self);
        }
        match &self.affected_projects {
            Some(projects) => projects.duplicate(),
            None => StringSet::new(),
        }
    }

    /// The tasks of the configuration, in their order. The workspace has to
    /// have a configuration.
    pub fn tasks(&self) -> (r: Vec<&Task>)
        requires
            self.configuration() is Some,
        ensures
            pointed(r@) == self.configuration()->0.task_list(),
    {
        let mut out: Vec<&Task> = Vec::new();
        match &self.config {
            None => {},
            Some(config) => {
                match &config.tasks {
                    None => {},
                    Some(tasks) => {
                        let mut i: usize = 0;
                        while i < tasks.len()
                            invariant
                                i <= tasks.len(),
                                pointed(out@) == tasks@.take(i as int),
                            decreases tasks.len() - i,
                        {
                            let ghost before = pointed(out@);
                            out.push(&tasks[i]);
                            assert(pointed(out@) =~= before.push(tasks@[i as int]));
                            assert(tasks@.take(i + 1) =~= tasks@.take(i as int).push(
                                tasks@[i as int],
                            ));
                            i = i + 1;
                        }
                        assert(tasks@.take(tasks@.len() as int) =~= tasks@);
                    },
                }
            },
        }
        assert(pointed(out@) =~= self.configuration()->0.task_list());
        out
    }

    /// What is to be run for the tasks that `pattern` selects: see
    /// `run_tasks`. `on_disk` holds the affected files that still exist.
    pub fn run_task(&self, pattern: &str, on_disk: &StringSet) -> (r: Result<
        Vec<TaskRun<'_>>,
        TaskRunError,
    >)
        ensures
            crate::tasks::runs_selected(self, pattern@, on_disk@, r),
    {
        run_tasks(self, pattern, on_disk)
    }

    /// The changed files in the order in which the load met them.
    pub closed spec fn affected_files_in_order(&self) -> Seq<Seq<char>> {
        match self.affected_files {
            Some(files) => files.order(),
            None => Seq::empty(),
        }
    }

    /// The names of the affected projects in the order in which the
    /// traversal met them.
    pub closed spec fn affected_projects_in_order(&self) -> Seq<Seq<char>> {
        match self.affected_projects {
            Some(projects) => projects.order(),
            None => Seq::empty(),
        }
    }

    /// Whether a directory is a project: it holds a `project.json` or a
    /// `package.json` file.
    pub fn is_project_dir(is_dir: bool, has_project_json: bool, has_package_json: bool) -> (r: bool)
        ensures
            r == (is_dir && (has_project_json || has_package_json)),
    {
        is_dir && (has_project_json || has_package_json)
    }

    /// Whether a directory is an Nx project: it holds a `project.json` file.
    pub fn is_nx_project_dir(is_dir: bool, has_project_json: bool) -> (r: bool)
        ensures
            r == (is_dir && has_project_json),
    {
        is_dir && has_project_json
    }
}

/// The projects that a load builds its graph of: none where nothing
/// changed, else those given.
pub open spec fn load_input(files: Set<Seq<char>>, projects: Seq<LoadedProject>) -> Seq<
    ProjectView,
> {
    if files.is_empty() {
        Seq::empty()
    } else {
        project_views(projects)
    }
}

} // verus!
