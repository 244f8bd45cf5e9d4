//! The dependency graph of a workspace and the spread of a change over it.
//!
//! The graph itself is a `petgraph` graph. Verus does not read that crate:
//! the declarations in the first part of this file state what its source
//! shows of the few operations used here, and everything after them is
//! proved from those statements.

use vstd::prelude::*;
use crate::string_set::StringSet;
use crate::text::{chars_start_with, to_chars, views};

verus! {

/// A node of the workspace graph.
#[derive(Debug, Clone)]
pub enum NodeType {
    Project(ProjectNode),
    File(FileNode),
}

/// A project of the workspace, as the graph holds it.
#[derive(Debug, Default, Clone)]
pub struct ProjectNode {
    /// The name by which other projects refer to this one.
    pub name: String,
    /// The project's directory, relative to the workspace root.
    pub root: String,
    /// Where the project's sources lie.
    pub path: Option<String>,
    /// The names of the projects it depends on, or globs over such names.
    pub implicit_dependencies: Option<Vec<String>>,
}

/// A single file. The variant is kept for later use; no graph built here
/// holds one, and no traversal passes through one.
#[derive(Debug, Clone)]
pub struct FileNode {
    pub name: String,
    pub path: String,
}

/// A project node as plain text.
pub struct ProjectView {
    pub name: Seq<char>,
    pub root: Seq<char>,
    pub path: Option<Seq<char>>,
    pub implicit_dependencies: Option<Seq<Seq<char>>>,
}

impl ProjectView {
    /// The declared dependencies, in their order; none where the list is
    /// absent.
    pub open spec fn dependencies(self) -> Seq<Seq<char>> {
        match self.implicit_dependencies {
            Some(list) => list,
            None => Seq::empty(),
        }
    }
}

/// A file node as plain text.
pub struct FileView {
    pub name: Seq<char>,
    pub path: Seq<char>,
}

/// A node as plain text.
pub enum NodeView {
    Project(ProjectView),
    File(FileView),
}

impl View for ProjectNode {
    type V = ProjectView;

    open spec fn view(&self) -> ProjectView {
        ProjectView {
            name: self.name@,
            root: self.root@,
            path: match self.path {
                Some(p) => Some(p@),
                None => None,
            },
            implicit_dependencies: match self.implicit_dependencies {
                Some(list) => Some(views(list@)),
                None => None,
            },
        }
    }
}

impl View for FileNode {
    type V = FileView;

    open spec fn view(&self) -> FileView {
        FileView { name: self.name@, path: self.path@ }
    }
}

impl View for NodeType {
    type V = NodeView;

    open spec fn view(&self) -> NodeView {
        match self {
            NodeType::Project(p) => NodeView::Project(p@),
            NodeType::File(f) => NodeView::File(f@),
        }
    }
}

/// `petgraph::graph::Graph`: a graph with node weights `N` and edge weights
/// `E`. Nothing is known of its inside; what it holds is spoken of through
/// `graph_nodes` and `graph_edges`.
#[verifier::external_type_specification]
#[verifier::external_body]
#[verifier::reject_recursive_types(N)]
#[verifier::reject_recursive_types(E)]
#[verifier::reject_recursive_types(Ty)]
#[verifier::reject_recursive_types(Ix)]
pub struct ExGraph<N, E, Ty, Ix>(petgraph::graph::Graph<N, E, Ty, Ix>);

/// `petgraph::Directed`: the marker of a graph whose edges have a direction.
#[verifier::external_type_specification]
#[verifier::external_body]
pub struct ExDirected(petgraph::Directed);

/// The graph of a workspace: a directed graph whose nodes are projects and
/// whose edges lead from a project to what it depends on.
pub type WorkspaceGraph = petgraph::graph::Graph<NodeType, (), petgraph::Directed, u32>;

/// The node weights of a graph, by node index.
pub uninterp spec fn graph_nodes(g: WorkspaceGraph) -> Seq<NodeType>;

/// The edges of a graph as pairs of node indices, source first, in the
/// order of their addition.
pub uninterp spec fn graph_edges(g: WorkspaceGraph) -> Seq<(int, int)>;

/// The targets of the edges that leave `a`, the most recently added first.
pub open spec fn targets_from(edges: Seq<(int, int)>, a: int) -> Seq<int>
    decreases edges.len(),
{
    if edges.len() == 0 {
        Seq::empty()
    } else if edges.last().0 == a {
        seq![edges.last().1] + targets_from(edges.drop_last(), a)
    } else {
        targets_from(edges.drop_last(), a)
    }
}

/// The sources of the edges that enter `b`, the most recently added first.
pub open spec fn sources_to(edges: Seq<(int, int)>, b: int) -> Seq<int>
    decreases edges.len(),
{
    if edges.len() == 0 {
        Seq::empty()
    } else if edges.last().1 == b {
        seq![edges.last().0] + sources_to(edges.drop_last(), b)
    } else {
        sources_to(edges.drop_last(), b)
    }
}

/// How many edges of the list lead from `e.0` to `e.1`.
pub open spec fn count_edges(edges: Seq<(int, int)>, e: (int, int)) -> nat
    decreases edges.len(),
{
    if edges.len() == 0 {
        0
    } else {
        count_edges(edges.drop_last(), e) + if edges.last() == e {
            1nat
        } else {
            0nat
        }
    }
}

/// One more edge is counted once, for its own ends.
pub proof fn lemma_count_edges_push(edges: Seq<(int, int)>, added: (int, int), e: (int, int))
    ensures
        count_edges(edges.push(added), e) == count_edges(edges, e) + if added == e {
            1nat
        } else {
            0nat
        },
{
    assert(edges.push(added).drop_last() =~= edges);
}

/// Node indices as integers.
pub open spec fn as_ints(indices: Seq<usize>) -> Seq<int> {
    indices.map_values(|i: usize| i as int)
}

/// `petgraph::graph::Graph::new`: a directed graph without nodes or edges.
#[verifier::external_body]
pub(crate) fn graph_new() -> (g: WorkspaceGraph)
    ensures
        graph_nodes(g) == Seq::<NodeType>::empty(),
        graph_edges(g) == Seq::<(int, int)>::empty(),
{
    petgraph::graph::Graph::new()
}

/// `Graph::node_count`: the number of nodes.
#[verifier::external_body]
pub(crate) fn graph_node_count(g: &WorkspaceGraph) -> (n: usize)
    ensures
        n == graph_nodes(*g).len(),
{
    g.node_count()
}

/// `Graph::add_node`: appends a node, whose index is the number of nodes
/// before it; the edges stay. It panics on a graph that holds `u32::MAX`
/// nodes, which the precondition leaves out.
#[verifier::external_body]
pub(crate) fn graph_add_node(g: &mut WorkspaceGraph, weight: NodeType) -> (index: usize)
    requires
        graph_nodes(*old(g)).len() < u32::MAX,
    ensures
        graph_nodes(*final(g)) == graph_nodes(*old(g)).push(weight),
        graph_edges(*final(g)) == graph_edges(*old(g)),
        index == graph_nodes(*old(g)).len(),
{
    g.add_node(weight).index()
}

/// `Graph::add_edge`: appends an edge from `a` to `b`; the nodes stay. It
/// panics where a node does not exist or the graph holds `u32::MAX` edges,
/// which the preconditions leave out.
#[verifier::external_body]
pub(crate) fn graph_add_edge(g: &mut WorkspaceGraph, a: usize, b: usize)
    requires
        a < graph_nodes(*old(g)).len(),
        b < graph_nodes(*old(g)).len(),
        graph_edges(*old(g)).len() < u32::MAX,
    ensures
        graph_nodes(*final(g)) == graph_nodes(*old(g)),
        graph_edges(*final(g)) == graph_edges(*old(g)).push((a as int, b as int)),
{
    g.add_edge(petgraph::graph::NodeIndex::new(a), petgraph::graph::NodeIndex::new(b), ());
}

/// Indexing a graph by a node index: the weight of that node. It panics
/// where the node does not exist, which the precondition leaves out.
#[verifier::external_body]
pub(crate) fn graph_node(g: &WorkspaceGraph, i: usize) -> (node: &NodeType)
    requires
        i < graph_nodes(*g).len(),
    ensures
        *node == graph_nodes(*g)[i as int],
{
    &g[petgraph::graph::NodeIndex::new(i)]
}

/// `Graph::neighbors`: for a directed graph, the targets of the edges that
/// leave `a`, the most recently added edge first. Each is a node of the
/// graph.
#[verifier::external_body]
pub(crate) fn graph_neighbors(g: &WorkspaceGraph, a: usize) -> (r: Vec<usize>)
    requires
        a < graph_nodes(*g).len(),
    ensures
        as_ints(r@) == targets_from(graph_edges(*g), a as int),
        forall|k: int| 0 <= k < r@.len() ==> r@[k] < graph_nodes(*g).len(),
{
    g.neighbors(petgraph::graph::NodeIndex::new(a)).map(|n| n.index()).collect()
}

/// `Graph::neighbors_directed` with `Incoming`: the sources of the edges
/// that enter `a`, the most recently added edge first. Each is a node of
/// the graph.
#[verifier::external_body]
pub(crate) fn graph_neighbors_incoming(g: &WorkspaceGraph, a: usize) -> (r: Vec<usize>)
    requires
        a < graph_nodes(*g).len(),
    ensures
        as_ints(r@) == sources_to(graph_edges(*g), a as int),
        forall|k: int| 0 <= k < r@.len() ==> r@[k] < graph_nodes(*g).len(),
{
    g.neighbors_directed(petgraph::graph::NodeIndex::new(a), petgraph::Direction::Incoming).map(
        |n| n.index(),
    ).collect()
}

/// A graph as mathematics: its nodes as plain text, by index, and the set
/// of its edges.
pub struct GraphView {
    pub nodes: Seq<NodeView>,
    pub edges: Set<(int, int)>,
}

/// The mathematical graph that `g` stands for.
pub open spec fn graph_view(g: WorkspaceGraph) -> GraphView {
    GraphView { nodes: graph_nodes(g).map_values(|n: NodeType| n@), edges: graph_edges(g).to_set() }
}

/// Some file of `files` begins with the text of `root`.
pub open spec fn touches(files: Set<Seq<char>>, root: Seq<char>) -> bool {
    exists|f: Seq<char>| files.contains(f) && #[trigger] root.is_prefix_of(f)
}

impl GraphView {
    /// `i` is the index of a project node.
    pub open spec fn is_project(self, i: int) -> bool {
        0 <= i < self.nodes.len() && self.nodes[i] is Project
    }

    /// The project at `i`.
    pub open spec fn project(self, i: int) -> ProjectView {
        match self.nodes[i] {
            NodeView::Project(p) => p,
            NodeView::File(_) => arbitrary(),
        }
    }

    /// The name of the project at `i`.
    pub open spec fn name(self, i: int) -> Seq<char> {
        self.project(i).name
    }

    /// `a` and `b` are projects with an edge between them, whichever way it
    /// points.
    pub open spec fn linked(self, a: int, b: int) -> bool {
        &&& self.is_project(a)
        &&& self.is_project(b)
        &&& (self.edges.contains((a, b)) || self.edges.contains((b, a)))
    }

    /// `walk` is a list of projects in which each is linked to the next.
    pub open spec fn is_walk(self, walk: Seq<int>) -> bool {
        &&& walk.len() > 0
        &&& self.is_project(walk[0])
        &&& forall|k: int| 0 <= k < walk.len() - 1 ==> #[trigger] self.linked(walk[k], walk[k + 1])
    }

    /// `walk` leads from `a` to `b`.
    pub open spec fn walk_between(self, walk: Seq<int>, a: int, b: int) -> bool {
        self.is_walk(walk) && walk.first() == a && walk.last() == b
    }

    /// Some walk leads from `a` to `b`.
    pub open spec fn connected(self, a: int, b: int) -> bool {
        exists|walk: Seq<int>| #[trigger] self.walk_between(walk, a, b)
    }

    /// `i` is a project whose name is in `names`.
    pub open spec fn named_in(self, names: Set<Seq<char>>, i: int) -> bool {
        self.is_project(i) && names.contains(self.name(i))
    }

    /// `i` is connected to a project whose name is in `seeds`.
    pub open spec fn reaches(self, seeds: Set<Seq<char>>, i: int) -> bool {
        exists|s: int| self.named_in(seeds, s) && #[trigger] self.connected(s, i)
    }

    /// Some project that `seeds` reaches is called `name`.
    pub open spec fn reaches_name(self, seeds: Set<Seq<char>>, name: Seq<char>) -> bool {
        exists|i: int| #[trigger] self.reaches(seeds, i) && self.name(i) == name
    }

    /// The names of the projects connected to a project whose name is in
    /// `seeds`: each project so named, and all that an unbroken chain of
    /// edges joins to one of them, whichever way the edges point.
    pub open spec fn propagate(self, seeds: Set<Seq<char>>) -> Set<Seq<char>> {
        Set::new(|name: Seq<char>| self.reaches_name(seeds, name))
    }

    /// The project at `i` is called `name`, and a file of `files` begins
    /// with the text of its directory.
    pub open spec fn seeded_at(self, files: Set<Seq<char>>, name: Seq<char>, i: int) -> bool {
        self.is_project(i) && self.name(i) == name && touches(files, self.project(i).root)
    }

    /// The names of the projects that a changed file lies in: those whose
    /// directory path is a textual prefix of the path of a file of `files`.
    pub open spec fn seed(self, files: Set<Seq<char>>) -> Set<Seq<char>> {
        Set::new(|name: Seq<char>| exists|i: int| #[trigger] self.seeded_at(files, name, i))
    }

    /// The names of the projects that `files` affect: the seed, spread over
    /// the graph.
    pub open spec fn affected(self, files: Set<Seq<char>>) -> Set<Seq<char>> {
        self.propagate(self.seed(files))
    }

    /// No two projects have the same name of `names`.
    pub open spec fn distinct_among(self, names: Set<Seq<char>>) -> bool {
        forall|i: int, j: int|
            self.is_project(i) && self.is_project(j) && #[trigger] self.name(i) == #[trigger] self.name(
                j,
            ) && names.contains(self.name(i)) ==> i == j
    }

    /// The projects marked in `marks` have all their linked projects marked.
    pub open spec fn closed(self, marks: Seq<bool>) -> bool {
        forall|a: int, b: int|
            0 <= a < marks.len() && marks[a] && #[trigger] self.linked(a, b) ==> 0 <= b
                < marks.len() && marks[b]
    }

    /// Some project marked in `marks` is called `name`.
    pub open spec fn marks_name(self, marks: Seq<bool>, name: Seq<char>) -> bool {
        exists|i: int| 0 <= i < marks.len() && #[trigger] marks[i] && self.is_project(i) && self.name(i) == name
    }

    /// The names of the projects marked in `marks`.
    pub open spec fn marked_names(self, marks: Seq<bool>) -> Set<Seq<char>> {
        Set::new(|name: Seq<char>| self.marks_name(marks, name))
    }
}

/// A target is among `targets_from` exactly where its edge is in the list.
pub proof fn lemma_targets_from(edges: Seq<(int, int)>, a: int, b: int)
    ensures
        targets_from(edges, a).contains(b) <==> edges.contains((a, b)),
    decreases edges.len(),
{
    if edges.len() > 0 {
        let rest = edges.drop_last();
        lemma_targets_from(rest, a, b);
        let found = targets_from(edges, a);
        let before = targets_from(rest, a);
        if edges.contains((a, b)) {
            let k = choose|k: int| 0 <= k < edges.len() && edges[k] == (a, b);
            if k == edges.len() - 1 {
                assert(found[0] == b);
            } else {
                assert(rest[k] == (a, b));
                let m = choose|m: int| 0 <= m < before.len() && before[m] == b;
                if edges.last().0 == a {
                    assert(found[m + 1] == b);
                }
            }
        }
        if found.contains(b) {
            let m = choose|m: int| 0 <= m < found.len() && found[m] == b;
            if edges.last().0 == a && m == 0 {
                assert(edges[edges.len() - 1] == (a, b));
            } else {
                if edges.last().0 == a {
                    assert(before[m - 1] == b);
                }
                let k = choose|k: int| 0 <= k < rest.len() && rest[k] == (a, b);
                assert(edges[k] == (a, b));
            }
        }
    }
}

/// A source is among `sources_to` exactly where its edge is in the list.
pub proof fn lemma_sources_to(edges: Seq<(int, int)>, a: int, b: int)
    ensures
        sources_to(edges, b).contains(a) <==> edges.contains((a, b)),
    decreases edges.len(),
{
    if edges.len() > 0 {
        let rest = edges.drop_last();
        lemma_sources_to(rest, a, b);
        let found = sources_to(edges, b);
        let before = sources_to(rest, b);
        if edges.contains((a, b)) {
            let k = choose|k: int| 0 <= k < edges.len() && edges[k] == (a, b);
            if k == edges.len() - 1 {
                assert(found[0] == a);
            } else {
                assert(rest[k] == (a, b));
                let m = choose|m: int| 0 <= m < before.len() && before[m] == a;
                if edges.last().1 == b {
                    assert(found[m + 1] == a);
                }
            }
        }
        if found.contains(a) {
            let m = choose|m: int| 0 <= m < found.len() && found[m] == a;
            if edges.last().1 == b && m == 0 {
                assert(edges[edges.len() - 1] == (a, b));
            } else {
                if edges.last().1 == b {
                    assert(before[m - 1] == a);
                }
                let k = choose|k: int| 0 <= k < rest.len() && rest[k] == (a, b);
                assert(edges[k] == (a, b));
            }
        }
    }
}

/// How many entries of `marks` are set.
pub open spec fn count_set(marks: Seq<bool>) -> nat
    decreases marks.len(),
{
    if marks.len() == 0 {
        0
    } else {
        count_set(marks.drop_last()) + if marks.last() {
            1nat
        } else {
            0nat
        }
    }
}

/// No more entries are set than there are.
proof fn lemma_count_bound(marks: Seq<bool>)
    ensures
        count_set(marks) <= marks.len(),
    decreases marks.len(),
{
    if marks.len() > 0 {
        lemma_count_bound(marks.drop_last());
    }
}

/// Where `more` has set all that `fewer` has set, it has set at least as
/// many; and one more where it has set an entry that `fewer` has not.
proof fn lemma_count_grows(fewer: Seq<bool>, more: Seq<bool>)
    requires
        fewer.len() == more.len(),
        forall|i: int| 0 <= i < fewer.len() && fewer[i] ==> more[i],
    ensures
        count_set(fewer) <= count_set(more),
        (exists|i: int| 0 <= i < fewer.len() && !fewer[i] && more[i]) ==> count_set(fewer)
            < count_set(more),
    decreases fewer.len(),
{
    if fewer.len() > 0 {
        let f = fewer.drop_last();
        let m = more.drop_last();
        assert forall|i: int| 0 <= i < f.len() && f[i] implies m[i] by {
            assert(fewer[i]);
        }
        lemma_count_grows(f, m);
        if exists|i: int| 0 <= i < fewer.len() && !fewer[i] && more[i] {
            let i = choose|i: int| 0 <= i < fewer.len() && !fewer[i] && more[i];
            if i < fewer.len() - 1 {
                assert(!f[i] && m[i]);
            }
        }
    }
}

impl GraphView {
    /// Every project is connected to itself.
    pub proof fn lemma_connected_self(self, a: int)
        requires
            self.is_project(a),
        ensures
            self.connected(a, a),
    {
        assert(self.walk_between(seq![a], a, a));
    }

    /// A walk goes on over one more link.
    pub proof fn lemma_connected_step(self, a: int, b: int, c: int)
        requires
            self.connected(a, b),
            self.linked(b, c),
        ensures
            self.connected(a, c),
    {
        let walk = choose|walk: Seq<int>| self.walk_between(walk, a, b);
        let longer = walk.push(c);
        assert forall|k: int| 0 <= k < longer.len() - 1 implies #[trigger] self.linked(
            longer[k],
            longer[k + 1],
        ) by {
            if k < walk.len() - 1 {
                assert(self.linked(walk[k], walk[k + 1]));
            }
        }
        assert(self.walk_between(longer, a, c));
    }

    /// What is connected to `a` is connected to what `a` is connected to.
    pub proof fn lemma_connected_transitive(self, a: int, b: int, c: int)
        requires
            self.connected(a, b),
            self.connected(b, c),
        ensures
            self.connected(a, c),
    {
        let walk = choose|walk: Seq<int>| self.walk_between(walk, b, c);
        self.lemma_connected_along(a, walk, walk.len() as int);
        assert(walk.take(walk.len() as int) =~= walk);
    }

    /// Whatever is connected to the start of a walk is connected to each of
    /// its nodes.
    proof fn lemma_connected_along(self, a: int, walk: Seq<int>, n: int)
        requires
            self.is_walk(walk),
            self.connected(a, walk[0]),
            1 <= n <= walk.len(),
        ensures
            self.connected(a, walk[n - 1]),
        decreases n,
    {
        if n > 1 {
            self.lemma_connected_along(a, walk, n - 1);
            assert(self.linked(walk[n - 2], walk[n - 2 + 1]));
            self.lemma_connected_step(a, walk[n - 2], walk[n - 1]);
        }
    }

    /// A walk can be walked backwards.
    pub proof fn lemma_connected_symmetric(self, a: int, b: int)
        requires
            self.connected(a, b),
        ensures
            self.connected(b, a),
    {
        let walk = choose|walk: Seq<int>| self.walk_between(walk, a, b);
        self.lemma_back_along(walk, walk.len() as int);
    }

    /// Each node of a walk is connected to its start.
    proof fn lemma_back_along(self, walk: Seq<int>, n: int)
        requires
            self.is_walk(walk),
            1 <= n <= walk.len(),
        ensures
            self.connected(walk[n - 1], walk[0]),
            self.is_project(walk[n - 1]),
        decreases n,
    {
        if n == 1 {
            self.lemma_connected_self(walk[0]);
        } else {
            self.lemma_back_along(walk, n - 1);
            assert(self.linked(walk[n - 2], walk[n - 2 + 1]));
            self.lemma_connected_self(walk[n - 1]);
            self.lemma_connected_step(walk[n - 1], walk[n - 1], walk[n - 2]);
            self.lemma_connected_transitive(walk[n - 1], walk[n - 2], walk[0]);
        }
    }

    /// Marks that are closed and hold the start of a walk hold all of it.
    proof fn lemma_closed_along(self, marks: Seq<bool>, walk: Seq<int>, n: int)
        requires
            self.closed(marks),
            self.is_walk(walk),
            0 <= walk[0] < marks.len(),
            marks[walk[0]],
            1 <= n <= walk.len(),
        ensures
            0 <= walk[n - 1] < marks.len(),
            marks[walk[n - 1]],
        decreases n,
    {
        if n > 1 {
            self.lemma_closed_along(marks, walk, n - 1);
            assert(self.linked(walk[n - 2], walk[n - 2 + 1]));
        }
    }

    /// Marks that are closed hold whatever is connected to a marked project.
    proof fn lemma_closed_holds_connected(self, marks: Seq<bool>, a: int, b: int)
        requires
            self.closed(marks),
            0 <= a < marks.len(),
            marks[a],
            self.connected(a, b),
        ensures
            0 <= b < marks.len(),
            marks[b],
    {
        let walk = choose|walk: Seq<int>| self.walk_between(walk, a, b);
        self.lemma_closed_along(marks, walk, walk.len() as int);
    }

    /// Where more is marked, more names are marked.
    proof fn lemma_marked_names_grow(self, marks: Seq<bool>, more: Seq<bool>)
        requires
            marks.len() == more.len(),
            forall|i: int| 0 <= i < marks.len() && marks[i] ==> more[i],
        ensures
            self.marked_names(marks).subset_of(self.marked_names(more)),
    {
        assert forall|name: Seq<char>| self.marks_name(marks, name) implies self.marks_name(
            more,
            name,
        ) by {
            let k = choose|k: int|
                0 <= k < marks.len() && #[trigger] marks[k] && self.is_project(k) && self.name(k)
                    == name;
            assert(more[k]);
        }
    }

    /// Setting the mark of a node that is no project marks no name.
    proof fn lemma_mark_of_file(self, marks: Seq<bool>, i: int)
        requires
            0 <= i < marks.len(),
            !self.is_project(i),
        ensures
            self.marked_names(marks.update(i, true)) == self.marked_names(marks),
    {
        let after = marks.update(i, true);
        assert forall|name: Seq<char>| self.marks_name(after, name) == self.marks_name(
            marks,
            name,
        ) by {
            if self.marks_name(after, name) {
                let k = choose|k: int|
                    0 <= k < after.len() && #[trigger] after[k] && self.is_project(k) && self.name(
                        k,
                    ) == name;
                assert(marks[k]);
            }
            if self.marks_name(marks, name) {
                let k = choose|k: int|
                    0 <= k < marks.len() && #[trigger] marks[k] && self.is_project(k) && self.name(
                        k,
                    ) == name;
                assert(after[k]);
            }
        }
        assert(self.marked_names(after) =~= self.marked_names(marks));
    }

    /// Setting the mark of a project adds its name to the marked names.
    proof fn lemma_mark_adds_name(self, marks: Seq<bool>, i: int)
        requires
            0 <= i < marks.len(),
            self.is_project(i),
        ensures
            self.marked_names(marks.update(i, true)) == self.marked_names(marks).insert(
                self.name(i),
            ),
    {
        let after = marks.update(i, true);
        assert forall|name: Seq<char>|
            self.marked_names(after).contains(name) == self.marked_names(marks).insert(
                self.name(i),
            ).contains(name) by {
            if self.marks_name(after, name) {
                let k = choose|k: int|
                    0 <= k < after.len() && #[trigger] after[k] && self.is_project(k) && self.name(
                        k,
                    ) == name;
                if k != i {
                    assert(marks[k]);
                }
            }
            if self.marks_name(marks, name) {
                let k = choose|k: int|
                    0 <= k < marks.len() && #[trigger] marks[k] && self.is_project(k) && self.name(
                        k,
                    ) == name;
                assert(after[k]);
            }
            if name == self.name(i) {
                assert(after[i]);
            }
        }
        assert(self.marked_names(after) =~= self.marked_names(marks).insert(self.name(i)));
    }
}

/// Whether the node at `i` is a project.
fn is_project_at(graph: &WorkspaceGraph, i: usize) -> (r: bool)
    requires
        i < graph_nodes(*graph).len(),
    ensures
        r == graph_view(*graph).is_project(i as int),
{
    match graph_node(graph, i) {
        NodeType::Project(_) => true,
        NodeType::File(_) => false,
    }
}

/// Marks the node at `node_index`, and where it is a project, marks every
/// project connected to it that was not yet marked and records the names of
/// all it marks. A node that is marked already is left alone, which is what
/// ends the traversal on a cycle; names recorded before are kept.
fn dfs_visit(
    graph: &WorkspaceGraph,
    node_index: usize,
    visited: &mut Vec<bool>,
    affected_projects: &mut StringSet,
)
    requires
        node_index < graph_nodes(*graph).len(),
        old(visited)@.len() == graph_nodes(*graph).len(),
        graph_view(*graph).marked_names(old(visited)@).subset_of(old(affected_projects)@),
    ensures
        final(visited)@.len() == old(visited)@.len(),
        forall|i: int| 0 <= i < old(visited)@.len() && old(visited)@[i] ==> final(visited)@[i],
        final(visited)@[node_index as int],
        old(visited)@[node_index as int] ==> final(visited)@ == old(visited)@
            && final(affected_projects)@ == old(affected_projects)@,
        !graph_view(*graph).is_project(node_index as int) ==> final(visited)@
            == old(visited)@.update(node_index as int, true)
            && final(affected_projects)@ == old(affected_projects)@,
        forall|i: int|
            0 <= i < old(visited)@.len() && final(visited)@[i] && !old(visited)@[i] ==> i
                == node_index || graph_view(*graph).connected(node_index as int, i),
        forall|a: int, b: int|
            0 <= a < old(visited)@.len() && final(visited)@[a] && !old(visited)@[a]
                && #[trigger] graph_view(*graph).linked(a, b) ==> 0 <= b < old(visited)@.len()
                && final(visited)@[b],
        final(affected_projects)@ == old(affected_projects)@.union(
            graph_view(*graph).marked_names(final(visited)@),
        ),
    decreases graph_nodes(*graph).len() - count_set(old(visited)@),
{
    let ghost names_entry = affected_projects@;
    if visited[node_index] {
        assert(affected_projects@ =~= names_entry.union(
            graph_view(*graph).marked_names(visited@),
        ));
        return ;
    }

    let ghost gv = graph_view(*graph);
    let ghost edges = graph_edges(*graph);
    let ghost entry = visited@;
    let ghost v = node_index as int;
    let n = visited.len();

    visited.set(node_index, true);

    let node = graph_node(graph, node_index);
    match node {
        NodeType::File(_) => {
            proof {
                gv.lemma_mark_of_file(entry, v);
                assert(affected_projects@ =~= names_entry.union(gv.marked_names(visited@)));
            }
        },
        NodeType::Project(project_node) => {
            affected_projects.insert(project_node.name.clone());
            proof {
                gv.lemma_mark_adds_name(entry, v);
                gv.lemma_connected_self(v);
                assert(affected_projects@ =~= names_entry.union(gv.marked_names(visited@)));
            }

            let neighbors = graph_neighbors(graph, node_index);
            let mut k: usize = 0;
            while k < neighbors.len()
                invariant
                    k <= neighbors.len(),
                    gv == graph_view(*graph),
                    edges == graph_edges(*graph),
                    v == node_index as int,
                    n == graph_nodes(*graph).len(),
                    entry == old(visited)@,
                    entry.len() == n,
                    visited@.len() == n,
                    gv.is_project(v),
                    !entry[v],
                    visited@[v],
                    as_ints(neighbors@) == targets_from(edges, v),
                    forall|m: int| 0 <= m < neighbors@.len() ==> neighbors@[m] < n,
                    forall|i: int| 0 <= i < n && entry[i] ==> visited@[i],
                    forall|i: int| 0 <= i < n && visited@[i] && !entry[i] ==> gv.connected(v, i),
                    forall|a: int, b: int|
                        0 <= a < n && visited@[a] && !entry[a] && a != v && #[trigger] gv.linked(
                            a,
                            b,
                        ) ==> 0 <= b < n && visited@[b],
                    forall|m: int|
                        0 <= m < k && gv.is_project(neighbors@[m] as int) ==> visited@[neighbors@[m] as int],
                    names_entry == old(affected_projects)@,
                    affected_projects@ == names_entry.union(gv.marked_names(visited@)),
                decreases neighbors.len() - k,
            {
                let neighbor = neighbors[k];
                if is_project_at(graph, neighbor) {
                    let ghost before = visited@;
                    proof {
                        assert(!entry[v] && before[v]);
                        lemma_count_grows(entry, before);
                        lemma_count_bound(before);
                        assert(as_ints(neighbors@)[k as int] == neighbor as int);
                        assert(targets_from(edges, v).contains(neighbor as int));
                        lemma_targets_from(edges, v, neighbor as int);
                        assert(gv.linked(v, neighbor as int));
                        gv.lemma_connected_step(v, v, neighbor as int);
                    }
                    dfs_visit(graph, neighbor, visited, affected_projects);
                    proof {
                        gv.lemma_marked_names_grow(before, visited@);
                        assert(affected_projects@ =~= names_entry.union(
                            gv.marked_names(visited@),
                        ));
                        assert forall|i: int|
                            0 <= i < n && visited@[i] && !entry[i] implies gv.connected(v, i) by {
                            if !before[i] && i != neighbor {
                                gv.lemma_connected_transitive(v, neighbor as int, i);
                            }
                        }
                    }
                }
                k = k + 1;
            }
            proof {
                assert forall|b: int| gv.is_project(b) && edges.contains((v, b)) implies visited@[b] by {
                    lemma_targets_from(edges, v, b);
                    let m = choose|m: int|
                        0 <= m < targets_from(edges, v).len() && targets_from(edges, v)[m] == b;
                    assert(as_ints(neighbors@)[m] == b);
                }
            }

            let incoming_neighbors = graph_neighbors_incoming(graph, node_index);
            let mut k: usize = 0;
            while k < incoming_neighbors.len()
                invariant
                    k <= incoming_neighbors.len(),
                    gv == graph_view(*graph),
                    edges == graph_edges(*graph),
                    v == node_index as int,
                    n == graph_nodes(*graph).len(),
                    entry == old(visited)@,
                    entry.len() == n,
                    visited@.len() == n,
                    gv.is_project(v),
                    !entry[v],
                    visited@[v],
                    as_ints(incoming_neighbors@) == sources_to(edges, v),
                    forall|m: int| 0 <= m < incoming_neighbors@.len() ==> incoming_neighbors@[m] < n,
                    forall|i: int| 0 <= i < n && entry[i] ==> visited@[i],
                    forall|i: int| 0 <= i < n && visited@[i] && !entry[i] ==> gv.connected(v, i),
                    forall|a: int, b: int|
                        0 <= a < n && visited@[a] && !entry[a] && a != v && #[trigger] gv.linked(
                            a,
                            b,
                        ) ==> 0 <= b < n && visited@[b],
                    forall|b: int| gv.is_project(b) && edges.contains((v, b)) ==> visited@[b],
                    forall|m: int|
                        0 <= m < k && gv.is_project(incoming_neighbors@[m] as int)
                            ==> visited@[incoming_neighbors@[m] as int],
                    names_entry == old(affected_projects)@,
                    affected_projects@ == names_entry.union(gv.marked_names(visited@)),
                decreases incoming_neighbors.len() - k,
            {
                let neighbor = incoming_neighbors[k];
                if is_project_at(graph, neighbor) {
                    let ghost before = visited@;
                    proof {
                        assert(!entry[v] && before[v]);
                        lemma_count_grows(entry, before);
                        lemma_count_bound(before);
                        assert(as_ints(incoming_neighbors@)[k as int] == neighbor as int);
                        assert(sources_to(edges, v).contains(neighbor as int));
                        lemma_sources_to(edges, neighbor as int, v);
                        assert(gv.linked(v, neighbor as int));
                        gv.lemma_connected_step(v, v, neighbor as int);
                    }
                    dfs_visit(graph, neighbor, visited, affected_projects);
                    proof {
                        gv.lemma_marked_names_grow(before, visited@);
                        assert(affected_projects@ =~= names_entry.union(
                            gv.marked_names(visited@),
                        ));
                        assert forall|i: int|
                            0 <= i < n && visited@[i] && !entry[i] implies gv.connected(v, i) by {
                            if !before[i] && i != neighbor {
                                gv.lemma_connected_transitive(v, neighbor as int, i);
                            }
                        }
                    }
                }
                k = k + 1;
            }
            proof {
                assert forall|b: int| gv.is_project(b) && edges.contains((b, v)) implies visited@[b] by {
                    lemma_sources_to(edges, b, v);
                    let m = choose|m: int|
                        0 <= m < sources_to(edges, v).len() && sources_to(edges, v)[m] == b;
                    assert(as_ints(incoming_neighbors@)[m] == b);
                }
            }
        },
    }
}

/// The names of all projects connected to a project whose name is in
/// `initial_affected_projects`, by edges in either direction. The
/// traversal marks each node once, so a cycle does not keep it going.
pub fn check_graph_recursively(
    graph: &WorkspaceGraph,
    initial_affected_projects: &StringSet,
) -> (affected_projects: StringSet)
    ensures
        affected_projects@ == graph_view(*graph).propagate(initial_affected_projects@),
{
    let ghost gv = graph_view(*graph);
    let ghost seeds = initial_affected_projects@;
    let n = graph_node_count(graph);
    let mut visited: Vec<bool> = Vec::new();
    let mut i: usize = 0;
    while i < n
        invariant
            i <= n,
            visited@.len() == i,
            forall|k: int| 0 <= k < i ==> !visited@[k],
        decreases n - i,
    {
        visited.push(false);
        i = i + 1;
    }
    let mut affected_projects = StringSet::new();
    assert(affected_projects@ =~= gv.marked_names(visited@));

    let mut node_index: usize = 0;
    while node_index < n
        invariant
            node_index <= n,
            n == graph_nodes(*graph).len(),
            gv == graph_view(*graph),
            seeds == initial_affected_projects@,
            visited@.len() == n,
            gv.closed(visited@),
            forall|a: int| 0 <= a < n && visited@[a] ==> gv.reaches(seeds, a),
            forall|s: int| 0 <= s < node_index && gv.named_in(seeds, s) ==> visited@[s],
            affected_projects@ == gv.marked_names(visited@),
        decreases n - node_index,
    {
        match graph_node(graph, node_index) {
            NodeType::File(_) => {},
            NodeType::Project(project_node) => {
                if initial_affected_projects.contains(project_node.name.as_str()) {
                    let ghost before = visited@;
                    dfs_visit(graph, node_index, &mut visited, &mut affected_projects);
                    proof {
                        gv.lemma_marked_names_grow(before, visited@);
                        assert(affected_projects@ =~= gv.marked_names(visited@));
                        assert(gv.named_in(seeds, node_index as int));
                        gv.lemma_connected_self(node_index as int);
                        assert forall|a: int| 0 <= a < n && visited@[a] implies gv.reaches(
                            seeds,
                            a,
                        ) by {
                            if !before[a] {
                                assert(gv.connected(node_index as int, a));
                            }
                        }
                        assert forall|a: int, b: int|
                            0 <= a < n && visited@[a] && #[trigger] gv.linked(a, b) implies 0 <= b
                            < n && visited@[b] by {
                            if before[a] {
                                assert(before[b]);
                            }
                        }
                    }
                }
            },
        }
        node_index = node_index + 1;
    }
    proof {
        assert forall|name: Seq<char>|
            gv.marked_names(visited@).contains(name) == gv.propagate(seeds).contains(name) by {
            if gv.marks_name(visited@, name) {
                let a = choose|a: int|
                    0 <= a < visited@.len() && #[trigger] visited@[a] && gv.is_project(a) && gv.name(a)
                        == name;
                assert(gv.reaches(seeds, a));
            }
            if gv.reaches_name(seeds, name) {
                let a = choose|a: int| #[trigger] gv.reaches(seeds, a) && gv.name(a) == name;
                let s = choose|s: int| gv.named_in(seeds, s) && #[trigger] gv.connected(s, a);
                gv.lemma_closed_holds_connected(visited@, s, a);
                gv.lemma_connected_symmetric(s, a);
                assert(visited@[a] && gv.is_project(a));
            }
        }
        assert(gv.marked_names(visited@) =~= gv.propagate(seeds));
    }
    affected_projects
}

impl GraphView {
    /// Spreading a change never loses a project that it started from: each
    /// seed of `files` is among the projects that the seed affects.
    pub proof fn lemma_seed_within_propagation(self, files: Set<Seq<char>>)
        ensures
            self.seed(files).subset_of(self.propagate(self.seed(files))),
    {
        let seeds = self.seed(files);
        assert forall|name: Seq<char>| seeds.contains(name) implies self.propagate(seeds).contains(
            name,
        ) by {
            let i = choose|i: int| #[trigger] self.seeded_at(files, name, i);
            self.lemma_names_within_propagation(seeds, i);
        }
    }

    /// A project whose name is among the seeds is among what they affect.
    pub proof fn lemma_names_within_propagation(self, seeds: Set<Seq<char>>, i: int)
        requires
            self.named_in(seeds, i),
        ensures
            self.reaches(seeds, i),
            self.propagate(seeds).contains(self.name(i)),
    {
        self.lemma_connected_self(i);
        assert(self.reaches(seeds, i));
        assert(self.reaches_name(seeds, self.name(i)));
    }

    /// Spreading again loses nothing: what the seeds affect is among what
    /// that affects in turn.
    pub proof fn lemma_propagate_extensive(self, seeds: Set<Seq<char>>)
        ensures
            self.propagate(seeds).subset_of(self.propagate(self.propagate(seeds))),
    {
        let once = self.propagate(seeds);
        assert forall|name: Seq<char>| once.contains(name) implies self.propagate(once).contains(
            name,
        ) by {
            let i = choose|i: int| #[trigger] self.reaches(seeds, i) && self.name(i) == name;
            let s = choose|s: int| self.named_in(seeds, s) && #[trigger] self.connected(s, i);
            self.lemma_connected_symmetric(s, i);
            self.lemma_names_within_propagation(once, i);
        }
    }

    /// Spreading twice gives what spreading once gives, where no two
    /// projects share a name that the seeds affect. (Two projects of one
    /// name are both started from as soon as the name is affected, though
    /// only one of them may have been reached.)
    pub proof fn lemma_propagate_idempotent(self, seeds: Set<Seq<char>>)
        requires
            self.distinct_among(self.propagate(seeds)),
        ensures
            self.propagate(self.propagate(seeds)) == self.propagate(seeds),
    {
        let once = self.propagate(seeds);
        let twice = self.propagate(once);
        self.lemma_propagate_extensive(seeds);
        assert forall|name: Seq<char>| twice.contains(name) implies once.contains(name) by {
            let i = choose|i: int| #[trigger] self.reaches(once, i) && self.name(i) == name;
            let s = choose|s: int| self.named_in(once, s) && #[trigger] self.connected(s, i);
            assert(self.reaches_name(seeds, self.name(s)));
            let j = choose|j: int| #[trigger] self.reaches(seeds, j) && self.name(j) == self.name(s);
            let s0 = choose|s0: int| self.named_in(seeds, s0) && #[trigger] self.connected(s0, j);
            self.lemma_connected_symmetric(s0, j);
            assert(j == s);
            self.lemma_connected_transitive(s0, s, i);
            assert(self.reaches(seeds, i));
        }
        assert(once =~= twice);
    }
}

/// The characters of each string of `items`.
fn all_chars(items: &Vec<String>) -> (r: Vec<Vec<char>>)
    ensures
        r@.len() == items@.len(),
        forall|k: int| 0 <= k < r@.len() ==> (#[trigger] r@[k])@ == items@[k]@,
{
    let mut out: Vec<Vec<char>> = Vec::new();
    let mut i: usize = 0;
    while i < items.len()
        invariant
            i <= items.len(),
            out@.len() == i,
            forall|k: int| 0 <= k < i ==> (#[trigger] out@[k])@ == items@[k]@,
        decreases items.len() - i,
    {
        out.push(to_chars(items[i].as_str()));
        i = i + 1;
    }
    out
}

/// Whether one of `files` begins with `root`.
fn any_starts_with(files: &Vec<Vec<char>>, root: &Vec<char>) -> (r: bool)
    ensures
        r == exists|k: int| 0 <= k < files@.len() && root@.is_prefix_of(#[trigger] files@[k]@),
{
    let mut i: usize = 0;
    while i < files.len()
        invariant
            i <= files.len(),
            forall|k: int| 0 <= k < i ==> !root@.is_prefix_of(#[trigger] files@[k]@),
        decreases files.len() - i,
    {
        if chars_start_with(&files[i], root) {
            return true;
        }
        i = i + 1;
    }
    false
}

/// The names of the projects that a changed file lies in: those whose
/// directory path is a textual prefix of the path of a file of `files`.
/// The test knows nothing of path separators: a file in `libs/foo-bar`
/// counts for a project in `libs/foo` too.
pub fn seed_projects(graph: &WorkspaceGraph, files: &StringSet) -> (seeds: StringSet)
    ensures
        seeds@ == graph_view(*graph).seed(files@),
{
    let ghost gv = graph_view(*graph);
    let paths = files.items();
    let file_chars = all_chars(paths);
    let n = graph_node_count(graph);
    let mut seeds = StringSet::new();
    let mut i: usize = 0;
    while i < n
        invariant
            i <= n,
            n == graph_nodes(*graph).len(),
            gv == graph_view(*graph),
            views(paths@).to_set() == files@,
            file_chars@.len() == paths@.len(),
            forall|k: int| 0 <= k < file_chars@.len() ==> (#[trigger] file_chars@[k])@ == paths@[k]@,
            forall|name: Seq<char>|
                seeds@.contains(name) <==> exists|j: int|
                    0 <= j < i && #[trigger] gv.seeded_at(files@, name, j),
        decreases n - i,
    {
        let ghost before = seeds@;
        match graph_node(graph, i) {
            NodeType::File(_) => {},
            NodeType::Project(project_node) => {
                let root = to_chars(project_node.root.as_str());
                let hit = any_starts_with(&file_chars, &root);
                proof {
                    if hit {
                        let k = choose|k: int|
                            0 <= k < file_chars@.len() && root@.is_prefix_of(
                                #[trigger] file_chars@[k]@,
                            );
                        assert(views(paths@)[k] == paths@[k]@);
                        assert(files@.contains(paths@[k]@));
                    }
                    if touches(files@, root@) {
                        let f = choose|f: Seq<char>|
                            files@.contains(f) && #[trigger] root@.is_prefix_of(f);
                        let k = choose|k: int| 0 <= k < views(paths@).len() && views(paths@)[k] == f;
                        assert(file_chars@[k]@ == f);
                    }
                    assert(hit == touches(files@, gv.project(i as int).root));
                }
                if hit {
                    seeds.insert(project_node.name.clone());
                }
            },
        }
        proof {
            assert forall|name: Seq<char>|
                seeds@.contains(name) <==> exists|j: int|
                    0 <= j < i + 1 && #[trigger] gv.seeded_at(files@, name, j) by {
                if before.contains(name) {
                    let j = choose|j: int| 0 <= j < i && #[trigger] gv.seeded_at(files@, name, j);
                    assert(0 <= j < i + 1 && gv.seeded_at(files@, name, j));
                }
                if gv.seeded_at(files@, name, i as int) {
                    assert(seeds@.contains(name));
                }
                if exists|j: int| 0 <= j < i + 1 && #[trigger] gv.seeded_at(files@, name, j) {
                    let j = choose|j: int|
                        0 <= j < i + 1 && #[trigger] gv.seeded_at(files@, name, j);
                    if j < i {
                        assert(before.contains(name));
                    }
                }
            }
        }
        i = i + 1;
    }
    proof {
        assert forall|name: Seq<char>| seeds@.contains(name) == gv.seed(files@).contains(name) by {
            if gv.seed(files@).contains(name) {
                let j = choose|j: int| #[trigger] gv.seeded_at(files@, name, j);
                assert(0 <= j < n);
            }
        }
        assert(seeds@ =~= gv.seed(files@));
    }
    seeds
}

/// The names of the projects that the changed `files` affect: the projects
/// that a file lies in, and every project connected to one of them.
pub fn affected_projects(graph: &WorkspaceGraph, files: &StringSet) -> (affected: StringSet)
    ensures
        affected@ == graph_view(*graph).affected(files@),
{
    let seeds = seed_projects(graph, files);
    check_graph_recursively(graph, &seeds)
}

} // verus!
