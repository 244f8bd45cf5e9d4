//! From project descriptors to the dependency graph: one node for each
//! project, and one edge for each project that a declared dependency
//! resolves to.

use vstd::prelude::*;
use vstd::hash_map::StringHashMap;
use crate::glob::{
    compile_pattern, glob_matches, lemma_matches_single, patterns_compile,
};
use crate::graph::{
    count_edges, graph_add_edge, graph_add_node, graph_edges, graph_new, graph_nodes, graph_view,
    lemma_count_edges_push, GraphView, NodeType, NodeView, ProjectNode, ProjectView,
    WorkspaceGraph,
};
use crate::nx::NxProject;
use crate::text::views;

verus! {

/// A project directory together with the descriptor found in it.
#[derive(Debug)]
pub struct LoadedProject {
    /// The directory, relative to the workspace root.
    pub path: String,
    /// What the directory's `project.json` declares.
    pub project: NxProject,
}

impl View for LoadedProject {
    type V = ProjectView;

    /// The node that stands for the project. A project without a name is
    /// called `Unnamed`; one without a source root has its directory as
    /// source root.
    open spec fn view(&self) -> ProjectView {
        ProjectView {
            name: match self.project.name {
                Some(n) => n@,
                None => "Unnamed"@,
            },
            root: self.path@,
            path: Some(
                match self.project.source_root {
                    Some(s) => s@,
                    None => self.path@,
                },
            ),
            implicit_dependencies: match self.project.implicit_dependencies {
                Some(list) => Some(views(list@)),
                None => None,
            },
        }
    }
}

/// The nodes that stand for `projects`, in their order.
pub open spec fn project_views(projects: Seq<LoadedProject>) -> Seq<ProjectView> {
    projects.map_values(|p: LoadedProject| p@)
}

/// Some project of `ps` is called `name`.
pub open spec fn has_name(ps: Seq<ProjectView>, name: Seq<char>) -> bool {
    exists|i: int| 0 <= i < ps.len() && (#[trigger] ps[i]).name == name
}

/// The project at `t` is the one that its name leads to: no later project
/// has the same name.
pub open spec fn indexed(ps: Seq<ProjectView>, t: int) -> bool {
    &&& 0 <= t < ps.len()
    &&& forall|j: int| t < j < ps.len() ==> (#[trigger] ps[j]).name != ps[t].name
}

/// The declared dependency `dependency` leads to the project at `t`. Where
/// some project is called `dependency`, it leads to the project that this
/// name leads to; else `dependency` is read as a glob, and leads to each
/// project whose name it matches and leads to.
pub open spec fn resolves(ps: Seq<ProjectView>, dependency: Seq<char>, t: int) -> bool {
    &&& indexed(ps, t)
    &&& if has_name(ps, dependency) {
        ps[t].name == dependency
    } else {
        glob_matches(dependency, ps[t].name)
    }
}

/// `k` is the position of a dependency that the project at `a` declares.
pub open spec fn declares(ps: Seq<ProjectView>, a: int, k: int) -> bool {
    0 <= a < ps.len() && 0 <= k < ps[a].dependencies().len()
}

/// The `k`-th dependency of the project at `a` leads to the project at `t`.
pub open spec fn depends_at(ps: Seq<ProjectView>, a: int, k: int, t: int) -> bool {
    declares(ps, a, k) && resolves(ps, ps[a].dependencies()[k], t)
}

/// Some dependency of the project at `a` leads to the project at `t`.
pub open spec fn depends_on(ps: Seq<ProjectView>, a: int, t: int) -> bool {
    exists|k: int| #[trigger] depends_at(ps, a, k, t)
}

/// The edges of the dependency graph: from each project to each project
/// that one of its declared dependencies leads to.
pub open spec fn dependency_edges(ps: Seq<ProjectView>) -> Set<(int, int)> {
    Set::new(|e: (int, int)| depends_on(ps, e.0, e.1))
}

/// The dependency graph of `ps`.
pub open spec fn dependency_graph(ps: Seq<ProjectView>) -> GraphView {
    GraphView {
        nodes: ps.map_values(|p: ProjectView| NodeView::Project(p)),
        edges: dependency_edges(ps),
    }
}

/// How many of the first `k` dependencies of the project at `a` lead to the
/// project at `t`.
pub open spec fn leading(ps: Seq<ProjectView>, a: int, t: int, k: int) -> nat
    decreases k,
{
    if k <= 0 {
        0
    } else {
        leading(ps, a, t, k - 1) + if depends_at(ps, a, k - 1, t) {
            1nat
        } else {
            0nat
        }
    }
}

/// How many edges the graph has from the project at `a` to the project at
/// `t`: one for each dependency of `a` that leads to `t`.
pub open spec fn edges_between(ps: Seq<ProjectView>, a: int, t: int) -> nat {
    if 0 <= a < ps.len() {
        leading(ps, a, t, ps[a].dependencies().len() as int)
    } else {
        0
    }
}

/// How many edges from `e.0` to `e.1` the dependencies before `(a, k)` give.
pub open spec fn counted_before(ps: Seq<ProjectView>, e: (int, int), a: int, k: int) -> nat {
    if 0 <= e.0 < a && e.0 < ps.len() {
        edges_between(ps, e.0, e.1)
    } else if e.0 == a && 0 <= a < ps.len() {
        leading(ps, a, e.1, k)
    } else {
        0
    }
}

/// The `k`-th dependency of the project at `a` is neither the name of a
/// project nor a glob that compiles.
pub open spec fn unusable(ps: Seq<ProjectView>, a: int, k: int) -> bool {
    &&& declares(ps, a, k)
    &&& !has_name(ps, ps[a].dependencies()[k])
    &&& !patterns_compile(seq![ps[a].dependencies()[k]])
}

/// The `k`-th dependency of the project at `a` leads to no project.
pub open spec fn unresolved(ps: Seq<ProjectView>, a: int, k: int) -> bool {
    &&& declares(ps, a, k)
    &&& forall|t: int| !resolves(ps, #[trigger] ps[a].dependencies()[k], t)
}

/// The position `(a, k)` comes before `(b, m)` where the dependencies are
/// read project by project, each in its declared order.
pub open spec fn comes_before(a: int, k: int, b: int, m: int) -> bool {
    a < b || (a == b && k < m)
}

/// How many of the first `t` projects `dependency` leads to.
pub open spec fn leads_to_count(ps: Seq<ProjectView>, dependency: Seq<char>, t: int) -> nat
    decreases t,
{
    if t <= 0 {
        0
    } else {
        leads_to_count(ps, dependency, t - 1) + if resolves(ps, dependency, t - 1) {
            1nat
        } else {
            0nat
        }
    }
}

/// How many edges the first `k` dependencies of the project at `a` give.
pub open spec fn edges_of(ps: Seq<ProjectView>, a: int, k: int) -> nat
    decreases k,
{
    if k <= 0 {
        0
    } else {
        edges_of(ps, a, k - 1) + leads_to_count(
            ps,
            ps[a].dependencies()[k - 1],
            ps.len() as int,
        )
    }
}

/// How many edges the first `a` projects give.
pub open spec fn edges_of_first(ps: Seq<ProjectView>, a: int) -> nat
    decreases a,
{
    if a <= 0 {
        0
    } else {
        edges_of_first(ps, a - 1) + edges_of(ps, a - 1, ps[a - 1].dependencies().len() as int)
    }
}

/// How many edges the dependencies before `(a, k)` give.
pub open spec fn edges_until(ps: Seq<ProjectView>, a: int, k: int) -> nat {
    edges_of_first(ps, a) + edges_of(ps, a, k)
}

/// How many edges the graph of `ps` has.
pub open spec fn total_edges(ps: Seq<ProjectView>) -> nat {
    edges_of_first(ps, ps.len() as int)
}

/// With the dependency at `(a, k)` the graph has more edges than it can
/// number: more than `u32::MAX`.
pub open spec fn overfull(ps: Seq<ProjectView>, a: int, k: int) -> bool {
    declares(ps, a, k) && edges_until(ps, a, k + 1) > u32::MAX
}

/// Among more projects a dependency leads to no fewer.
proof fn lemma_leads_monotone(ps: Seq<ProjectView>, dependency: Seq<char>, t: int, m: int)
    requires
        t <= m,
    ensures
        leads_to_count(ps, dependency, t) <= leads_to_count(ps, dependency, m),
    decreases m - t,
{
    if t < m {
        lemma_leads_monotone(ps, dependency, t, m - 1);
    }
}

/// A dependency that leads to the project at `t` and to no other is
/// counted once, from `t` on.
proof fn lemma_leads_once(ps: Seq<ProjectView>, dependency: Seq<char>, t: int, m: int)
    requires
        resolves(ps, dependency, t),
        forall|u: int| #[trigger] resolves(ps, dependency, u) ==> u == t,
    ensures
        leads_to_count(ps, dependency, m) == if t < m {
            1nat
        } else {
            0nat
        },
    decreases m,
{
    if m > 0 {
        lemma_leads_once(ps, dependency, t, m - 1);
    }
}

/// The name that leads to `t` leads nowhere else.
pub proof fn lemma_indexed_unique(ps: Seq<ProjectView>, s: int, t: int)
    requires
        indexed(ps, s),
        indexed(ps, t),
        ps[s].name == ps[t].name,
    ensures
        s == t,
{
    if s < t {
        assert(ps[t].name != ps[s].name);
    }
    if t < s {
        assert(ps[s].name != ps[t].name);
    }
}

/// A copy of the strings of `list`.
fn copy_strings(list: &Vec<String>) -> (r: Vec<String>)
    ensures
        r@ == list@,
{
    let mut out: Vec<String> = Vec::new();
    let mut i: usize = 0;
    while i < list.len()
        invariant
            i <= list.len(),
            out@ == list@.take(i as int),
        decreases list.len() - i,
    {
        out.push(list[i].clone());
        assert(list@.take(i + 1) =~= list@.take(i as int).push(list@[i as int]));
        i = i + 1;
    }
    assert(list@.take(list@.len() as int) =~= list@);
    out
}

/// The node that stands for `entry`.
pub fn project_node(entry: &LoadedProject) -> (node: ProjectNode)
    ensures
        node@ == entry@,
{
    let name = match &entry.project.name {
        Some(n) => n.clone(),
        None => String::from_str("Unnamed"),
    };
    let path = match &entry.project.source_root {
        Some(s) => s.clone(),
        None => entry.path.clone(),
    };
    let implicit_dependencies = match &entry.project.implicit_dependencies {
        Some(list) => Some(copy_strings(list)),
        None => None,
    };
    ProjectNode { name, root: entry.path.clone(), path: Some(path), implicit_dependencies }
}

/// `index` leads from each name among the first `n` projects to the last of
/// them that has it.
pub open spec fn index_of_first(index: Map<Seq<char>, usize>, ps: Seq<ProjectView>, n: int) -> bool {
    &&& forall|name: Seq<char>| #[trigger] index.contains_key(name) <==> has_name(ps.take(n), name)
    &&& forall|name: Seq<char>| #[trigger]
        index.contains_key(name) ==> indexed(ps.take(n), index[name] as int) && ps[index[name] as int].name
            == name
}

/// One more project, and the index that leads to it by its name.
proof fn lemma_index_grows(index: Map<Seq<char>, usize>, ps: Seq<ProjectView>, n: int)
    requires
        0 <= n < ps.len(),
        n <= usize::MAX,
        index_of_first(index, ps, n),
    ensures
        index_of_first(index.insert(ps[n].name, n as usize), ps, n + 1),
{
    let longer = ps.take(n + 1);
    let shorter = ps.take(n);
    let grown = index.insert(ps[n].name, n as usize);
    assert forall|name: Seq<char>| #[trigger] grown.contains_key(name) <==> has_name(
        longer,
        name,
    ) by {
        if has_name(longer, name) {
            let i = choose|i: int| 0 <= i < longer.len() && (#[trigger] longer[i]).name == name;
            if i < n {
                assert(shorter[i].name == name);
            }
        }
        if index.contains_key(name) {
            let i = choose|i: int| 0 <= i < shorter.len() && (#[trigger] shorter[i]).name == name;
            assert(longer[i].name == name);
        }
        if name == ps[n].name {
            assert(longer[n].name == name);
        }
    }
    assert forall|name: Seq<char>| #[trigger] grown.contains_key(name) implies indexed(
        longer,
        grown[name] as int,
    ) && ps[grown[name] as int].name == name by {
        if name != ps[n].name {
            let t = index[name] as int;
            assert(indexed(shorter, t));
            assert forall|j: int| t < j < longer.len() implies (#[trigger] longer[j]).name
                != longer[t].name by {
                if j < n {
                    assert(shorter[j].name != shorter[t].name);
                }
            }
        }
    }
}

/// The edges from `a` to the first `upto` projects that `dependency` leads to.
pub open spec fn links(ps: Seq<ProjectView>, a: int, dependency: Seq<char>, upto: int) -> Set<
    (int, int),
> {
    Set::new(|e: (int, int)| e.0 == a && 0 <= e.1 < upto && resolves(ps, dependency, e.1))
}

/// `dependency` leads to some project.
pub open spec fn leads_somewhere(ps: Seq<ProjectView>, dependency: Seq<char>) -> bool {
    exists|t: int| #[trigger] resolves(ps, dependency, t)
}

/// `names` holds the names of the projects, and `index` leads from each
/// name to the last project that has it.
spec fn describes(names: Seq<String>, index: Map<Seq<char>, usize>, ps: Seq<ProjectView>) -> bool {
    &&& names.len() == ps.len()
    &&& forall|i: int| 0 <= i < names.len() ==> (#[trigger] names[i])@ == ps[i].name
    &&& index_of_first(index, ps, ps.len() as int)
}

/// Why a dependency gave no edges, or not all of them.
enum LinkFailure {
    /// It is neither a project's name nor a glob that compiles.
    Unusable,
    /// The graph cannot number all the edges that it gives.
    Overfull,
}

/// Adds the edges from the project at `a` to the projects that
/// `dependency` leads to, and says whether there was one, and how many
/// edges the graph has then. `edge_count` is the number of edges before.
/// It fails, and adds nothing, where `dependency` is neither a project's
/// name nor a glob that compiles; and it fails where the graph would get
/// more edges than it can number.
fn link_dependency(
    graph: &mut WorkspaceGraph,
    names: &Vec<String>,
    index: &StringHashMap<usize>,
    a: usize,
    dependency: &str,
    edge_count: usize,
    Ghost(ps): Ghost<Seq<ProjectView>>,
) -> (r: Result<(bool, usize), LinkFailure>)
    requires
        graph_nodes(*old(graph)).len() == ps.len(),
        describes(names@, index@, ps),
        a < ps.len(),
        edge_count == graph_edges(*old(graph)).len(),
        edge_count <= u32::MAX,
    ensures
        graph_nodes(*final(graph)) == graph_nodes(*old(graph)),
        match r {
            Ok((found, count)) => {
                &&& has_name(ps, dependency@) || patterns_compile(seq![dependency@])
                &&& count == graph_edges(*final(graph)).len()
                &&& count <= u32::MAX
                &&& graph_edges(*final(graph)).to_set() == graph_edges(*old(graph)).to_set().union(
                    links(ps, a as int, dependency@, ps.len() as int),
                )
                &&& forall|e: (int, int)| #[trigger]
                    count_edges(graph_edges(*final(graph)), e) == count_edges(
                        graph_edges(*old(graph)),
                        e,
                    ) + if links(ps, a as int, dependency@, ps.len() as int).contains(e) {
                        1nat
                    } else {
                        0nat
                    }
                &&& graph_edges(*final(graph)).len() == graph_edges(*old(graph)).len()
                    + leads_to_count(ps, dependency@, ps.len() as int)
                &&& found == leads_somewhere(ps, dependency@)
            },
            Err(LinkFailure::Unusable) => {
                &&& !has_name(ps, dependency@)
                &&& !patterns_compile(seq![dependency@])
                &&& graph_edges(*final(graph)) == graph_edges(*old(graph))
            },
            Err(LinkFailure::Overfull) => {
                &&& has_name(ps, dependency@) || patterns_compile(seq![dependency@])
                &&& graph_edges(*old(graph)).len() + leads_to_count(
                    ps,
                    dependency@,
                    ps.len() as int,
                ) > u32::MAX
            },
        },
{
    let ghost n = ps.len() as int;
    let ghost before = graph_edges(*graph);
    let ghost dep = dependency@;
    proof {
        assert(ps.take(n) =~= ps);
    }
    match index.get(dependency) {
        Some(target) => {
            let t = *target;
            proof {
                assert(resolves(ps, dep, t as int));
                assert forall|u: int| #[trigger] resolves(ps, dep, u) implies u == t by {
                    lemma_indexed_unique(ps, u, t as int);
                }
                lemma_leads_once(ps, dep, t as int, n);
            }
            if edge_count >= u32::MAX as usize {
                return Err(LinkFailure::Overfull);
            }
            graph_add_edge(graph, a, t);
            proof {
                before.lemma_push_to_set_commute((a as int, t as int));
                assert forall|e: (int, int)| #[trigger]
                    count_edges(graph_edges(*graph), e) == count_edges(before, e) + if (a as int, t as int)
                        == e {
                        1nat
                    } else {
                        0nat
                    } by {
                    lemma_count_edges_push(before, (a as int, t as int), e);
                }
                assert(resolves(ps, dep, t as int));
                assert forall|e: (int, int)|
                    links(ps, a as int, dep, n).contains(e) <==> e == (a as int, t as int) by {
                    if links(ps, a as int, dep, n).contains(e) {
                        lemma_indexed_unique(ps, e.1, t as int);
                    }
                }
                assert(graph_edges(*graph).to_set() =~= before.to_set().union(
                    links(ps, a as int, dep, n),
                ));
            }
            Ok((true, edge_count + 1))
        },
        None => {
            match compile_pattern(dependency) {
                Err(_) => Err(LinkFailure::Unusable),
                Ok(set) => {
                    let mut found = false;
                    let mut count = edge_count;
                    let mut t: usize = 0;
                    proof {
                        assert(before.to_set() =~= before.to_set().union(
                            links(ps, a as int, dep, 0),
                        ));
                    }
                    while t < names.len()
                        invariant
                            t <= names.len(),
                            n == ps.len(),
                            dep == dependency@,
                            before == graph_edges(*old(graph)),
                            graph_nodes(*graph) == graph_nodes(*old(graph)),
                            graph_nodes(*graph).len() == ps.len(),
                            describes(names@, index@, ps),
                            ps.take(n) == ps,
                            a < ps.len(),
                            count == graph_edges(*graph).len(),
                            count <= u32::MAX,
                            !has_name(ps, dep),
                            patterns_compile(seq![dep]),
                            set.patterns() == seq![dep],
                            graph_edges(*graph).to_set() == before.to_set().union(
                                links(ps, a as int, dep, t as int),
                            ),
                            forall|e: (int, int)| #[trigger]
                                count_edges(graph_edges(*graph), e) == count_edges(before, e) + if links(
                                    ps,
                                    a as int,
                                    dep,
                                    t as int,
                                ).contains(e) {
                                    1nat
                                } else {
                                    0nat
                                },
                            graph_edges(*graph).len() == before.len() + leads_to_count(
                                ps,
                                dep,
                                t as int,
                            ),
                            found == exists|u: int| 0 <= u < t && #[trigger] resolves(ps, dep, u),
                        decreases names.len() - t,
                    {
                        let ghost so_far = graph_edges(*graph);
                        let leads_here = match index.get(names[t].as_str()) {
                            Some(i) => *i == t,
                            None => false,
                        };
                        proof {
                            assert(ps[t as int].name == names@[t as int]@);
                            assert(has_name(ps, ps[t as int].name));
                            let i = index@[ps[t as int].name] as int;
                            if indexed(ps, t as int) {
                                lemma_indexed_unique(ps, i, t as int);
                            }
                            assert(leads_here == indexed(ps, t as int));
                            lemma_matches_single(dep, ps[t as int].name);
                        }
                        let hit = leads_here && set.matches(names[t].as_str());
                        assert(hit == resolves(ps, dep, t as int));
                        if hit {
                            if count >= u32::MAX as usize {
                                proof {
                                    lemma_leads_monotone(ps, dep, t + 1, n);
                                }
                                return Err(LinkFailure::Overfull);
                            }
                            graph_add_edge(graph, a, t);
                            found = true;
                            count = count + 1;
                            proof {
                                so_far.lemma_push_to_set_commute((a as int, t as int));
                                assert forall|e: (int, int)| #[trigger]
                                    count_edges(graph_edges(*graph), e) == count_edges(so_far, e)
                                        + if (a as int, t as int) == e {
                                        1nat
                                    } else {
                                        0nat
                                    } by {
                                    lemma_count_edges_push(so_far, (a as int, t as int), e);
                                }
                            }
                        }
                        proof {
                            assert(graph_edges(*graph).to_set() =~= before.to_set().union(
                                links(ps, a as int, dep, t + 1),
                            ));
                        }
                        t = t + 1;
                    }
                    proof {
                        if leads_somewhere(ps, dep) {
                            let u = choose|u: int| #[trigger] resolves(ps, dep, u);
                            assert(0 <= u < t);
                        }
                    }
                    Ok((found, count))
                },
            }
        },
    }
}

/// A declared dependency, by the position of its project and its own
/// position in that project's list.
#[derive(Debug, Clone, Copy, PartialEq, Eq)]
pub struct DependencyRef {
    pub project: usize,
    pub dependency: usize,
}

/// A dependency graph, and the declared dependencies that led nowhere.
pub struct GraphBuild {
    pub graph: WorkspaceGraph,
    /// The dependencies that neither name a project nor match one. They
    /// are left out of the graph, and listed here for a warning.
    pub unresolved: Vec<DependencyRef>,
}

/// Why no graph was built.
#[derive(Debug, Clone, Copy, PartialEq, Eq)]
pub enum GraphError {
    /// The graph would have more nodes or more edges than it can number:
    /// more than `u32::MAX` of either.
    TooLarge,
    /// This dependency is neither the name of a project nor a glob that
    /// compiles. It is the first such in the order of reading.
    InvalidDependency { project: usize, dependency: usize },
}

/// The list names the dependency at `(a, k)`.
pub open spec fn lists(list: Seq<DependencyRef>, a: int, k: int) -> bool {
    exists|m: int| 0 <= m < list.len() && (#[trigger] list[m]).project == a && list[m].dependency == k
}

/// The list goes from each dependency to a later one.
pub open spec fn in_reading_order(list: Seq<DependencyRef>) -> bool {
    forall|m1: int, m2: int|
        0 <= m1 < m2 < list.len() ==> comes_before(
            (#[trigger] list[m1]).project as int,
            list[m1].dependency as int,
            (#[trigger] list[m2]).project as int,
            list[m2].dependency as int,
        )
}

/// Some dependency that comes before `(a, k)` leads from `from` to `to`.
pub open spec fn depends_before(ps: Seq<ProjectView>, from: int, to: int, a: int, k: int) -> bool {
    exists|j: int| #[trigger] depends_at(ps, from, j, to) && comes_before(from, j, a, k)
}

/// The edges that the dependencies before `(a, k)` give.
pub open spec fn edges_before(ps: Seq<ProjectView>, a: int, k: int) -> Set<(int, int)> {
    Set::new(|e: (int, int)| depends_before(ps, e.0, e.1, a, k))
}

/// The number of dependencies that the project at `i` declares.
fn dependency_count(projects: &Vec<LoadedProject>, i: usize) -> (n: usize)
    requires
        i < projects.len(),
    ensures
        n == project_views(projects@)[i as int].dependencies().len(),
{
    match &projects[i].project.implicit_dependencies {
        Some(list) => list.len(),
        None => 0,
    }
}

/// A graph can be built of `ps`: it can number its nodes and its edges,
/// of which it can hold `u32::MAX` each, and each dependency is a project's
/// name or a glob that compiles.
pub open spec fn buildable(ps: Seq<ProjectView>) -> bool {
    &&& ps.len() <= u32::MAX
    &&& total_edges(ps) <= u32::MAX
    &&& forall|a: int, k: int| !#[trigger] unusable(ps, a, k)
}

/// `e` is the reason why no graph can be built of `ps`, the dependencies
/// read in their order. It is `TooLarge` where there are more projects than
/// the graph can number, or where some dependency brings more edges than it
/// can number and none up to that one is unusable. It names a dependency
/// where that one is the first that is unusable, and the edges before it
/// can be numbered.
pub open spec fn graph_failure(ps: Seq<ProjectView>, e: GraphError) -> bool {
    match e {
        GraphError::TooLarge => {
            ||| ps.len() > u32::MAX
            ||| exists|a: int, k: int|
                #[trigger] overfull(ps, a, k) && !unusable(ps, a, k) && forall|b: int, j: int|
                    comes_before(b, j, a, k) ==> !#[trigger] unusable(ps, b, j)
        },
        GraphError::InvalidDependency { project, dependency } => {
            &&& ps.len() <= u32::MAX
            &&& unusable(ps, project as int, dependency as int)
            &&& edges_until(ps, project as int, dependency as int) <= u32::MAX
            &&& forall|a: int, k: int|
                comes_before(a, k, project as int, dependency as int) ==> !#[trigger] unusable(
                    ps,
                    a,
                    k,
                )
        },
    }
}

/// The dependency graph of `projects`: a node for each project, in their
/// order, and an edge from a project to each project that one of its
/// declared dependencies leads to. A dependency that leads nowhere gives no
/// edge and is listed in the result.
///
/// No graph is built where it would have more nodes or more edges than it
/// can number, or where a dependency is neither a project's name nor a glob
/// that compiles; whichever comes first as the dependencies are read.
pub fn build_graph(projects: &Vec<LoadedProject>) -> (r: Result<GraphBuild, GraphError>)
    ensures
        match r {
            Ok(build) => {
                let ps = project_views(projects@);
                &&& buildable(ps)
                &&& graph_view(build.graph) == dependency_graph(ps)
                &&& graph_edges(build.graph).len() == total_edges(ps)
                &&& forall|e: (int, int)| #[trigger]
                    count_edges(graph_edges(build.graph), e) == edges_between(ps, e.0, e.1)
                &&& forall|a: int, k: int| #[trigger] lists(build.unresolved@, a, k) <==> unresolved(ps, a, k)
                &&& in_reading_order(build.unresolved@)
            },
            Err(e) => graph_failure(project_views(projects@), e),
        },
{
    let ghost ps = project_views(projects@);
    let n = projects.len();
    if n > u32::MAX as usize {
        return Err(GraphError::TooLarge);
    }
    let mut graph = graph_new();
    let mut names: Vec<String> = Vec::new();
    let mut index: StringHashMap<usize> = StringHashMap::new();
    let mut i: usize = 0;
    proof {
        assert(graph_view(graph).nodes =~= dependency_graph(ps.take(0)).nodes);
    }
    while i < n
        invariant
            i <= n,
            n == projects.len(),
            n <= u32::MAX,
            ps == project_views(projects@),
            graph_nodes(graph).len() == i,
            graph_edges(graph) == Seq::<(int, int)>::empty(),
            graph_view(graph).nodes == dependency_graph(ps.take(i as int)).nodes,
            names@.len() == i,
            forall|j: int| 0 <= j < i ==> (#[trigger] names@[j])@ == ps[j].name,
            index_of_first(index@, ps, i as int),
        decreases n - i,
    {
        let ghost view_before = graph_view(graph).nodes;
        let node = project_node(&projects[i]);
        let name = node.name.clone();
        let key = node.name.clone();
        proof {
            lemma_index_grows(index@, ps, i as int);
        }
        graph_add_node(&mut graph, NodeType::Project(node));
        names.push(name);
        index.insert(key, i);
        proof {
            let now = graph_view(graph).nodes;
            let wanted = dependency_graph(ps.take(i + 1)).nodes;
            assert forall|j: int| 0 <= j < now.len() implies now[j] == wanted[j] by {
                if j < i {
                    assert(now[j] == view_before[j]);
                    assert(view_before[j] == dependency_graph(ps.take(i as int)).nodes[j]);
                }
            }
            assert(now =~= wanted);
        }
        i = i + 1;
    }
    proof {
        assert(ps.take(n as int) =~= ps);
        assert(graph_edges(graph).to_set() =~= edges_before(ps, 0, 0));
    }

    let mut unresolved_list: Vec<DependencyRef> = Vec::new();
    let mut edge_count: usize = 0;
    let mut a: usize = 0;
    while a < n
        invariant
            a <= n,
            n == projects.len(),
            n == ps.len(),
            ps == project_views(projects@),
            n <= u32::MAX,
            graph_nodes(graph).len() == n,
            graph_view(graph).nodes == dependency_graph(ps).nodes,
            describes(names@, index@, ps),
            graph_edges(graph).to_set() == edges_before(ps, a as int, 0),
            forall|e: (int, int)| #[trigger]
                count_edges(graph_edges(graph), e) == counted_before(ps, e, a as int, 0),
            edge_count == graph_edges(graph).len(),
            edge_count == edges_until(ps, a as int, 0),
            edge_count <= u32::MAX,
            forall|b: int, k: int| comes_before(b, k, a as int, 0) ==> !#[trigger] unusable(ps, b, k),
            forall|b: int, k: int|
                #![trigger lists(unresolved_list@, b, k)]
                #![trigger unresolved(ps, b, k)]
                lists(unresolved_list@, b, k) <==> unresolved(ps, b, k) && comes_before(
                    b,
                    k,
                    a as int,
                    0,
                ),
            in_reading_order(unresolved_list@),
        decreases n - a,
    {
        let count = dependency_count(projects, a);
        let mut k: usize = 0;
        match &projects[a].project.implicit_dependencies {
            None => {},
            Some(list) => {
                while k < count
                    invariant
                        k <= count,
                        count == list.len(),
                        a < n,
                        projects@[a as int].project.implicit_dependencies == Some(*list),
                        n == projects.len(),
                        n == ps.len(),
                        ps == project_views(projects@),
                        n <= u32::MAX,
                        count == ps[a as int].dependencies().len(),
                        graph_nodes(graph).len() == n,
                        graph_view(graph).nodes == dependency_graph(ps).nodes,
                        describes(names@, index@, ps),
                        graph_edges(graph).to_set() == edges_before(ps, a as int, k as int),
                        forall|e: (int, int)| #[trigger]
                            count_edges(graph_edges(graph), e) == counted_before(
                                ps,
                                e,
                                a as int,
                                k as int,
                            ),
                        edge_count == graph_edges(graph).len(),
                        edge_count == edges_until(ps, a as int, k as int),
                        edge_count <= u32::MAX,
                        forall|b: int, j: int|
                            comes_before(b, j, a as int, k as int) ==> !#[trigger] unusable(ps, b, j),
                        forall|b: int, j: int|
                            #![trigger lists(unresolved_list@, b, j)]
                            #![trigger unresolved(ps, b, j)]
                            lists(unresolved_list@, b, j) <==> unresolved(ps, b, j) && comes_before(
                                b,
                                j,
                                a as int,
                                k as int,
                            ),
                        in_reading_order(unresolved_list@),
                    decreases count - k,
                {
                    let ghost edges_then = graph_edges(graph);
                    let ghost listed_then = unresolved_list@;
                    let ghost dep = ps[a as int].dependencies()[k as int];
                    match link_dependency(
                        &mut graph,
                        &names,
                        &index,
                        a,
                        list[k].as_str(),
                        edge_count,
                        Ghost(ps),
                    ) {
                        Err(LinkFailure::Unusable) => {
                            return Err(GraphError::InvalidDependency { project: a, dependency: k });
                        },
                        Err(LinkFailure::Overfull) => {
                            proof {
                                assert(overfull(ps, a as int, k as int));
                            }
                            return Err(GraphError::TooLarge);
                        },
                        Ok((found, count_now)) => {
                            edge_count = count_now;
                            proof {
                                assert(graph_view(graph).nodes =~= dependency_graph(ps).nodes);
                                assert forall|e: (int, int)|
                                    edges_before(ps, a as int, k + 1).contains(e) <==> edges_then.to_set().union(
                                        links(ps, a as int, dep, n as int),
                                    ).contains(e) by {
                                    if depends_before(ps, e.0, e.1, a as int, k + 1) {
                                        let j = choose|j: int| #[trigger]
                                            depends_at(ps, e.0, j, e.1) && comes_before(e.0, j, a as int, k + 1);
                                        if comes_before(e.0, j, a as int, k as int) {
                                            assert(depends_before(ps, e.0, e.1, a as int, k as int));
                                        }
                                    }
                                    if depends_before(ps, e.0, e.1, a as int, k as int) {
                                        let j = choose|j: int| #[trigger]
                                            depends_at(ps, e.0, j, e.1) && comes_before(
                                                e.0,
                                                j,
                                                a as int,
                                                k as int,
                                            );
                                        assert(depends_at(ps, e.0, j, e.1) && comes_before(
                                            e.0,
                                            j,
                                            a as int,
                                            k + 1,
                                        ));
                                    }
                                    if links(ps, a as int, dep, n as int).contains(e) {
                                        assert(depends_at(ps, a as int, k as int, e.1));
                                    }
                                }
                                assert(graph_edges(graph).to_set() =~= edges_before(ps, a as int, k + 1));
                                assert forall|e: (int, int)| #[trigger]
                                    count_edges(graph_edges(graph), e) == counted_before(
                                        ps,
                                        e,
                                        a as int,
                                        k + 1,
                                    ) by {
                                    assert(count_edges(edges_then, e) == counted_before(
                                        ps,
                                        e,
                                        a as int,
                                        k as int,
                                    ));
                                    assert(links(ps, a as int, dep, n as int).contains(e) == (e.0 == a
                                        && depends_at(ps, a as int, k as int, e.1)));
                                }
                                assert(found == leads_somewhere(ps, dep));
                                assert(!found == unresolved(ps, a as int, k as int)) by {
                                    if leads_somewhere(ps, dep) {
                                        let t = choose|t: int| #[trigger] resolves(ps, dep, t);
                                        assert(resolves(ps, ps[a as int].dependencies()[k as int], t));
                                    }
                                }
                            }
                            if !found {
                                unresolved_list.push(DependencyRef { project: a, dependency: k });
                                proof {
                                    assert(unresolved_list@[listed_then.len() as int].project == a);
                                    assert forall|m1: int, m2: int|
                                        0 <= m1 < m2 < unresolved_list@.len() implies comes_before(
                                        (#[trigger] unresolved_list@[m1]).project as int,
                                        unresolved_list@[m1].dependency as int,
                                        (#[trigger] unresolved_list@[m2]).project as int,
                                        unresolved_list@[m2].dependency as int,
                                    ) by {
                                        if m2 == listed_then.len() {
                                            assert(listed_then[m1] == unresolved_list@[m1]);
                                            assert(lists(
                                                listed_then,
                                                listed_then[m1].project as int,
                                                listed_then[m1].dependency as int,
                                            ));
                                        } else {
                                            assert(listed_then[m1] == unresolved_list@[m1]);
                                            assert(listed_then[m2] == unresolved_list@[m2]);
                                        }
                                    }
                                }
                            }
                            proof {
                                assert forall|b: int, j: int|
                                    #![trigger lists(unresolved_list@, b, j)]
                                    #![trigger unresolved(ps, b, j)]
                                    lists(unresolved_list@, b, j) <==> unresolved(ps, b, j) && comes_before(
                                        b,
                                        j,
                                        a as int,
                                        k + 1,
                                    ) by {
                                    if lists(unresolved_list@, b, j) {
                                        let m = choose|m: int|
                                            0 <= m < unresolved_list@.len() && (
                                            #[trigger] unresolved_list@[m]).project == b
                                                && unresolved_list@[m].dependency == j;
                                        if m < listed_then.len() {
                                            assert(listed_then[m] == unresolved_list@[m]);
                                            assert(lists(listed_then, b, j));
                                        }
                                    }
                                    if unresolved(ps, b, j) && comes_before(b, j, a as int, k + 1) {
                                        if comes_before(b, j, a as int, k as int) {
                                            assert(lists(listed_then, b, j));
                                            let m = choose|m: int|
                                                0 <= m < listed_then.len() && (
                                                #[trigger] listed_then[m]).project == b
                                                    && listed_then[m].dependency == j;
                                            assert(unresolved_list@[m] == listed_then[m]);
                                        } else {
                                            assert(b == a && j == k);
                                            assert(unresolved_list@[listed_then.len() as int].project == a);
                                        }
                                    }
                                }
                            }
                        },
                    }
                    k = k + 1;
                }
            },
        }
        proof {
            assert forall|e: (int, int)|
                edges_before(ps, a as int, count as int).contains(e) <==> edges_before(
                    ps,
                    a + 1,
                    0,
                ).contains(e) by {
                if depends_before(ps, e.0, e.1, a as int, count as int) {
                    let j = choose|j: int| #[trigger]
                        depends_at(ps, e.0, j, e.1) && comes_before(e.0, j, a as int, count as int);
                    assert(depends_at(ps, e.0, j, e.1) && comes_before(e.0, j, a + 1, 0));
                }
                if depends_before(ps, e.0, e.1, a + 1, 0) {
                    let j = choose|j: int| #[trigger]
                        depends_at(ps, e.0, j, e.1) && comes_before(e.0, j, a + 1, 0);
                    assert(depends_at(ps, e.0, j, e.1) && comes_before(e.0, j, a as int, count as int));
                }
            }
            assert(edges_before(ps, a as int, count as int) =~= edges_before(ps, a + 1, 0));
            assert forall|e: (int, int)| #[trigger]
                count_edges(graph_edges(graph), e) == counted_before(ps, e, a + 1, 0) by {
                assert(count_edges(graph_edges(graph), e) == counted_before(
                    ps,
                    e,
                    a as int,
                    count as int,
                ));
            }
            assert forall|b: int, j: int| comes_before(b, j, a + 1, 0) implies !#[trigger] unusable(
                ps,
                b,
                j,
            ) by {
                if unusable(ps, b, j) {
                    assert(comes_before(b, j, a as int, count as int));
                }
            }
            assert forall|b: int, j: int|
                #![trigger lists(unresolved_list@, b, j)]
                #![trigger unresolved(ps, b, j)]
                lists(unresolved_list@, b, j) <==> unresolved(ps, b, j) && comes_before(
                    b,
                    j,
                    a + 1,
                    0,
                ) by {
                if unresolved(ps, b, j) && comes_before(b, j, a + 1, 0) {
                    assert(comes_before(b, j, a as int, count as int));
                }
            }
        }
        a = a + 1;
    }
    proof {
        assert forall|e: (int, int)|
            edges_before(ps, n as int, 0).contains(e) <==> dependency_edges(ps).contains(e) by {
            if depends_on(ps, e.0, e.1) {
                let j = choose|j: int| #[trigger] depends_at(ps, e.0, j, e.1);
                assert(depends_at(ps, e.0, j, e.1) && comes_before(e.0, j, n as int, 0));
            }
        }
        assert(graph_edges(graph).to_set() =~= dependency_edges(ps));
        assert forall|e: (int, int)| #[trigger]
            count_edges(graph_edges(graph), e) == edges_between(ps, e.0, e.1) by {
            assert(count_edges(graph_edges(graph), e) == counted_before(ps, e, n as int, 0));
        }
        assert forall|b: int, j: int| !#[trigger] unusable(ps, b, j) by {
            if unusable(ps, b, j) {
                assert(comes_before(b, j, n as int, 0));
            }
        }
        assert forall|b: int, j: int| #[trigger] lists(unresolved_list@, b, j) <==> unresolved(ps, b, j) by {
            if unresolved(ps, b, j) {
                assert(comes_before(b, j, n as int, 0));
            }
        }
    }
    Ok(GraphBuild { graph, unresolved: unresolved_list })
}

/// No two projects of `ps` have the same name.
pub open spec fn distinct_names(ps: Seq<ProjectView>) -> bool {
    forall|i: int, j: int|
        0 <= i < ps.len() && 0 <= j < ps.len() && (#[trigger] ps[i]).name == (#[trigger] ps[j]).name
            ==> i == j
}

/// Each project of `ps` is among `qs`.
pub open spec fn all_among(ps: Seq<ProjectView>, qs: Seq<ProjectView>) -> bool {
    forall|i: int| 0 <= i < ps.len() ==> qs.contains(#[trigger] ps[i])
}

/// A position of `p` in `qs`.
pub open spec fn place(qs: Seq<ProjectView>, p: ProjectView) -> int {
    choose|j: int| 0 <= j < qs.len() && qs[j] == p
}

/// Where the project at `i` stands in `qs`.
proof fn lemma_place(ps: Seq<ProjectView>, qs: Seq<ProjectView>, i: int)
    requires
        all_among(ps, qs),
        0 <= i < ps.len(),
    ensures
        0 <= place(qs, ps[i]) < qs.len(),
        qs[place(qs, ps[i])] == ps[i],
{
    assert(qs.contains(ps[i]));
}

/// Two lists of the same projects know the same names.
proof fn lemma_same_names(ps: Seq<ProjectView>, qs: Seq<ProjectView>, name: Seq<char>)
    requires
        all_among(ps, qs),
        has_name(ps, name),
    ensures
        has_name(qs, name),
{
    let i = choose|i: int| 0 <= i < ps.len() && (#[trigger] ps[i]).name == name;
    lemma_place(ps, qs, i);
    assert(qs[place(qs, ps[i])].name == name);
}

/// What a dependency leads to in one order of the projects, it leads to in
/// any other.
proof fn lemma_resolves_moves(
    ps: Seq<ProjectView>,
    qs: Seq<ProjectView>,
    dependency: Seq<char>,
    t: int,
)
    requires
        all_among(ps, qs),
        all_among(qs, ps),
        distinct_names(qs),
        resolves(ps, dependency, t),
    ensures
        resolves(qs, dependency, place(qs, ps[t])),
{
    lemma_place(ps, qs, t);
    if has_name(ps, dependency) {
        lemma_same_names(ps, qs, dependency);
    }
    if has_name(qs, dependency) {
        lemma_same_names(qs, ps, dependency);
    }
}

/// A link in one order of the projects is a link in any other.
proof fn lemma_linked_moves(ps: Seq<ProjectView>, qs: Seq<ProjectView>, a: int, b: int)
    requires
        all_among(ps, qs),
        all_among(qs, ps),
        distinct_names(qs),
        dependency_graph(ps).linked(a, b),
    ensures
        dependency_graph(qs).linked(place(qs, ps[a]), place(qs, ps[b])),
{
    lemma_place(ps, qs, a);
    lemma_place(ps, qs, b);
    let pa = place(qs, ps[a]);
    let pb = place(qs, ps[b]);
    if depends_on(ps, a, b) {
        let k = choose|k: int| #[trigger] depends_at(ps, a, k, b);
        lemma_resolves_moves(ps, qs, ps[a].dependencies()[k], b);
        assert(depends_at(qs, pa, k, pb));
        assert(dependency_edges(qs).contains((pa, pb)));
    }
    if depends_on(ps, b, a) {
        let k = choose|k: int| #[trigger] depends_at(ps, b, k, a);
        lemma_resolves_moves(ps, qs, ps[b].dependencies()[k], a);
        assert(depends_at(qs, pb, k, pa));
        assert(dependency_edges(qs).contains((pb, pa)));
    }
}

/// The first `n` nodes of a walk in one order of the projects are joined
/// in any other.
proof fn lemma_walk_moves(ps: Seq<ProjectView>, qs: Seq<ProjectView>, walk: Seq<int>, n: int)
    requires
        all_among(ps, qs),
        all_among(qs, ps),
        distinct_names(qs),
        dependency_graph(ps).is_walk(walk),
        1 <= n <= walk.len(),
    ensures
        0 <= walk[n - 1] < ps.len(),
        dependency_graph(qs).connected(place(qs, ps[walk[0]]), place(qs, ps[walk[n - 1]])),
    decreases n,
{
    let g = dependency_graph(ps);
    let h = dependency_graph(qs);
    if n == 1 {
        lemma_place(ps, qs, walk[0]);
        h.lemma_connected_self(place(qs, ps[walk[0]]));
    } else {
        lemma_walk_moves(ps, qs, walk, n - 1);
        assert(g.linked(walk[n - 2], walk[n - 2 + 1]));
        lemma_linked_moves(ps, qs, walk[n - 2], walk[n - 1]);
        h.lemma_connected_step(
            place(qs, ps[walk[0]]),
            place(qs, ps[walk[n - 2]]),
            place(qs, ps[walk[n - 1]]),
        );
    }
}

/// What the files affect in one order of the projects, they affect in any
/// other.
proof fn lemma_affected_moves(ps: Seq<ProjectView>, qs: Seq<ProjectView>, files: Set<Seq<char>>)
    requires
        all_among(ps, qs),
        all_among(qs, ps),
        distinct_names(qs),
    ensures
        dependency_graph(ps).affected(files).subset_of(dependency_graph(qs).affected(files)),
{
    let g = dependency_graph(ps);
    let h = dependency_graph(qs);
    assert forall|name: Seq<char>| g.affected(files).contains(name) implies h.affected(
        files,
    ).contains(name) by {
        let i = choose|i: int| #[trigger] g.reaches(g.seed(files), i) && g.name(i) == name;
        let s = choose|s: int| g.named_in(g.seed(files), s) && #[trigger] g.connected(s, i);
        let walk = choose|walk: Seq<int>| #[trigger] g.walk_between(walk, s, i);
        lemma_walk_moves(ps, qs, walk, walk.len() as int);
        let hs = place(qs, ps[s]);
        let hi = place(qs, ps[i]);
        lemma_place(ps, qs, s);
        lemma_place(ps, qs, i);
        let origin = choose|o: int| #[trigger] g.seeded_at(files, g.name(s), o);
        lemma_place(ps, qs, origin);
        assert(h.seeded_at(files, g.name(s), place(qs, ps[origin])));
        assert(h.seed(files).contains(h.name(hs)));
        assert(h.named_in(h.seed(files), hs));
        assert(h.reaches(h.seed(files), hi));
        assert(h.reaches_name(h.seed(files), name));
    }
}

/// The order in which the projects are given does not change what a change
/// affects: two lists of the same projects, each with distinct names, give
/// the same set of affected names for the same files.
pub proof fn lemma_order_is_irrelevant(
    ps: Seq<ProjectView>,
    qs: Seq<ProjectView>,
    files: Set<Seq<char>>,
)
    requires
        ps.to_multiset() == qs.to_multiset(),
        distinct_names(ps),
        distinct_names(qs),
    ensures
        dependency_graph(ps).affected(files) == dependency_graph(qs).affected(files),
{
    broadcast use vstd::seq_lib::to_multiset_contains;

    assert forall|i: int| 0 <= i < ps.len() implies qs.contains(#[trigger] ps[i]) by {
        assert(ps.contains(ps[i]));
        assert(ps.to_multiset().count(ps[i]) > 0);
    }
    assert forall|i: int| 0 <= i < qs.len() implies ps.contains(#[trigger] qs[i]) by {
        assert(qs.contains(qs[i]));
        assert(qs.to_multiset().count(qs[i]) > 0);
    }
    lemma_affected_moves(ps, qs, files);
    lemma_affected_moves(qs, ps, files);
    assert(dependency_graph(ps).affected(files) =~= dependency_graph(qs).affected(files));
}

} // verus!
