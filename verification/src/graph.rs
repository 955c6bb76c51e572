//! The dependency graph: one node per package, one edge per resolved
//! dependency.

use crate::package::{DepKind, PackageId};
use petgraph::visit::EdgeRef;
use std::collections::HashMap;
use vstd::prelude::*;

verus! {

broadcast use vstd::std_specs::hash::group_hash_axioms;

/// `petgraph::graph::Graph`, the graph that stores the nodes and edges.
/// Nothing is known of a value of it but what the functions below say.
#[verifier::external_type_specification]
#[verifier::external_body]
#[verifier::reject_recursive_types(N)]
#[verifier::reject_recursive_types(E)]
#[verifier::reject_recursive_types(Ty)]
#[verifier::reject_recursive_types(Ix)]
pub struct ExPetGraph<N, E, Ty, Ix>(petgraph::graph::Graph<N, E, Ty, Ix>);

/// `petgraph::Directed`, the marker of a graph whose edges have a
/// direction.
#[verifier::external_type_specification]
#[verifier::external_body]
pub struct ExDirected(petgraph::Directed);

/// One stored edge: the indices of its two nodes, and its kind.
#[derive(Debug, Clone, Copy, PartialEq, Eq, Structural)]
pub struct RawEdge {
    pub source: usize,
    pub target: usize,
    pub kind: DepKind,
}

/// One dependency: the package that depends, the package depended on, and
/// the kind of the dependency.
#[derive(Debug, Clone, Copy, PartialEq, Eq, Structural)]
pub struct DepEdge {
    pub from: PackageId,
    pub to: PackageId,
    pub kind: DepKind,
}

/// Direction in which the edges of a node are followed.
#[derive(Debug, Clone, Copy, PartialEq, Eq, Structural)]
pub enum EdgeDirection {
    Outgoing,
    Incoming,
}

/// The node weights of a stored graph, by node index.
pub uninterp spec fn graph_nodes(
    g: petgraph::graph::Graph<PackageId, DepKind, petgraph::Directed, usize>,
) -> Seq<PackageId>;

/// The edges of a stored graph, in the order in which they were added.
pub uninterp spec fn graph_edges(
    g: petgraph::graph::Graph<PackageId, DepKind, petgraph::Directed, usize>,
) -> Seq<RawEdge>;

/// The stored edges that leave node `a` (outgoing) or enter it (incoming),
/// in the order in which they were added.
pub open spec fn incident(edges: Seq<RawEdge>, a: usize, dir: EdgeDirection) -> Seq<RawEdge>
    decreases edges.len(),
{
    if edges.len() == 0 {
        Seq::empty()
    } else {
        let rest = incident(edges.drop_last(), a, dir);
        let e = edges.last();
        let here = match dir {
            EdgeDirection::Outgoing => e.source == a,
            EdgeDirection::Incoming => e.target == a,
        };
        if here {
            rest.push(e)
        } else {
            rest
        }
    }
}

/// `petgraph::graph::Graph::with_capacity`, with both capacities 0: a
/// directed graph without nodes or edges.
#[verifier::external_body]
fn graph_new() -> (g: petgraph::graph::Graph<PackageId, DepKind, petgraph::Directed, usize>)
    ensures
        graph_nodes(g) == Seq::<PackageId>::empty(),
        graph_edges(g) == Seq::<RawEdge>::empty(),
{
    petgraph::graph::Graph::with_capacity(0, 0)
}

/// `Graph::add_node`: the weight becomes the last node, whose index is
/// returned; the edges stay. With `usize` indices the outside function has
/// no limit on the number of nodes.
#[verifier::external_body]
fn graph_add_node(
    g: &mut petgraph::graph::Graph<PackageId, DepKind, petgraph::Directed, usize>,
    id: PackageId,
) -> (idx: usize)
    ensures
        graph_nodes(*final(g)) == graph_nodes(*old(g)).push(id),
        graph_edges(*final(g)) == graph_edges(*old(g)),
        idx == graph_nodes(*old(g)).len(),
{
    g.add_node(id).index()
}

/// `Graph::add_edge`: an edge from node `a` to node `b` becomes the last
/// edge; the nodes stay. The outside function panics when one of the two
/// nodes does not exist.
#[verifier::external_body]
fn graph_add_edge(
    g: &mut petgraph::graph::Graph<PackageId, DepKind, petgraph::Directed, usize>,
    a: usize,
    b: usize,
    kind: DepKind,
)
    requires
        a < graph_nodes(*old(g)).len(),
        b < graph_nodes(*old(g)).len(),
    ensures
        graph_nodes(*final(g)) == graph_nodes(*old(g)),
        graph_edges(*final(g)) == graph_edges(*old(g)).push(
            RawEdge { source: a, target: b, kind },
        ),
{
    g.add_edge(petgraph::graph::NodeIndex::new(a), petgraph::graph::NodeIndex::new(b), kind);
}

/// Indexing a `Graph` by a node index: the weight of that node. The
/// outside function panics when the node does not exist.
#[verifier::external_body]
fn graph_node_weight(
    g: &petgraph::graph::Graph<PackageId, DepKind, petgraph::Directed, usize>,
    a: usize,
) -> (id: PackageId)
    requires
        a < graph_nodes(*g).len(),
    ensures
        id == graph_nodes(*g)[a as int],
{
    g[petgraph::graph::NodeIndex::new(a)]
}

/// `Graph::edges_directed`: the edges that leave node `a`, or that enter
/// it, the one added last coming first.
#[verifier::external_body]
fn graph_edges_directed(
    g: &petgraph::graph::Graph<PackageId, DepKind, petgraph::Directed, usize>,
    a: usize,
    dir: EdgeDirection,
) -> (edges: Vec<RawEdge>)
    ensures
        edges@ == incident(graph_edges(*g), a, dir).reverse(),
{
    let d = match dir {
        EdgeDirection::Outgoing => petgraph::Direction::Outgoing,
        EdgeDirection::Incoming => petgraph::Direction::Incoming,
    };
    g.edges_directed(petgraph::graph::NodeIndex::new(a), d).map(
        |e| RawEdge { source: e.source().index(), target: e.target().index(), kind: *e.weight() },
    ).collect()
}

/// What a graph holds: its packages, in the order in which they were
/// discovered, and its dependencies, in the order in which they were added.
pub struct GraphView {
    pub nodes: Seq<PackageId>,
    pub edges: Seq<DepEdge>,
}

impl GraphView {
    /// The dependencies of `id` (outgoing) or on `id` (incoming), in the
    /// order in which they were added.
    pub open spec fn edges_of(self, id: PackageId, dir: EdgeDirection) -> Seq<DepEdge> {
        edges_at(self.edges, id, dir)
    }

    /// Whether package `a` depends on package `b`.
    pub open spec fn depends(self, a: PackageId, b: PackageId) -> bool {
        exists|k: int|
            0 <= k < self.edges.len() && (#[trigger] self.edges[k]).from == a && self.edges[k].to
                == b
    }

    /// Whether each package of `path` depends on the next.
    pub open spec fn is_path(self, path: Seq<PackageId>) -> bool {
        &&& path.len() > 0
        &&& forall|k: int| 0 <= k < path.len() - 1 ==> self.depends(#[trigger] path[k], path[k + 1])
    }

    /// Whether `id` is `root` or is reached from it over dependencies.
    pub open spec fn reaches(self, root: PackageId, id: PackageId) -> bool {
        exists|path: Seq<PackageId>| #[trigger]
            self.is_path(path) && path[0] == root && path.last() == id
    }

    /// A package reaches itself.
    pub proof fn lemma_reaches_itself(self, root: PackageId)
        ensures
            self.reaches(root, root),
    {
        assert(self.is_path(seq![root]));
    }

    /// What a reached package depends on is reached.
    pub proof fn lemma_reaches_step(self, root: PackageId, a: PackageId, b: PackageId)
        requires
            self.reaches(root, a),
            self.depends(a, b),
        ensures
            self.reaches(root, b),
    {
        let path = choose|path: Seq<PackageId>| #[trigger]
            self.is_path(path) && path[0] == root && path.last() == a;
        let longer = path.push(b);
        assert forall|k: int| 0 <= k < longer.len() - 1 implies self.depends(
            #[trigger] longer[k],
            longer[k + 1],
        ) by {
            if k < path.len() - 1 {
                assert(self.depends(path[k], path[k + 1]));
            }
        }
        assert(self.is_path(longer));
    }

    /// Every package stands once, and every dependency joins two packages
    /// of the graph.
    pub open spec fn wf(self) -> bool {
        &&& self.nodes.no_duplicates()
        &&& forall|k: int|
            0 <= k < self.edges.len() ==> self.nodes.contains(#[trigger] self.edges[k].from)
                && self.nodes.contains(self.edges[k].to)
    }
}

/// The dependencies in `edges` of `id` (outgoing) or on `id` (incoming), in
/// their order in `edges`.
pub open spec fn edges_at(edges: Seq<DepEdge>, id: PackageId, dir: EdgeDirection) -> Seq<DepEdge>
    decreases edges.len(),
{
    if edges.len() == 0 {
        Seq::empty()
    } else {
        let rest = edges_at(edges.drop_last(), id, dir);
        let e = edges.last();
        let here = match dir {
            EdgeDirection::Outgoing => e.from == id,
            EdgeDirection::Incoming => e.to == id,
        };
        if here {
            rest.push(e)
        } else {
            rest
        }
    }
}

/// The dependencies of a package are dependencies of the graph, and are
/// those that leave (or enter) the package.
pub proof fn lemma_edges_at_sound(edges: Seq<DepEdge>, id: PackageId, dir: EdgeDirection, m: int)
    requires
        0 <= m < edges_at(edges, id, dir).len(),
    ensures
        edges.contains(edges_at(edges, id, dir)[m]),
        match dir {
            EdgeDirection::Outgoing => edges_at(edges, id, dir)[m].from == id,
            EdgeDirection::Incoming => edges_at(edges, id, dir)[m].to == id,
        },
    decreases edges.len(),
{
    if edges.len() > 0 {
        let rest = edges_at(edges.drop_last(), id, dir);
        if m < rest.len() {
            lemma_edges_at_sound(edges.drop_last(), id, dir, m);
            let k = choose|k: int|
                0 <= k < edges.drop_last().len() && edges.drop_last()[k] == rest[m];
            assert(edges[k] == rest[m]);
        } else {
            assert(edges[edges.len() - 1] == edges.last());
        }
    }
}

/// Each dependency that leaves (or enters) a package is among the
/// dependencies of the package.
pub proof fn lemma_edges_at_complete(edges: Seq<DepEdge>, id: PackageId, dir: EdgeDirection, k: int)
    requires
        0 <= k < edges.len(),
        match dir {
            EdgeDirection::Outgoing => edges[k].from == id,
            EdgeDirection::Incoming => edges[k].to == id,
        },
    ensures
        edges_at(edges, id, dir).contains(edges[k]),
    decreases edges.len(),
{
    let all = edges_at(edges, id, dir);
    let rest = edges_at(edges.drop_last(), id, dir);
    if k < edges.len() - 1 {
        lemma_edges_at_complete(edges.drop_last(), id, dir, k);
        let m = choose|m: int| 0 <= m < rest.len() && rest[m] == edges.drop_last()[k];
        assert(all[m] == edges[k]);
    } else {
        assert(all[all.len() - 1] == edges[k]);
    }
}

/// The dependency that a stored edge stands for.
pub open spec fn dep_edge(nodes: Seq<PackageId>, e: RawEdge) -> DepEdge {
    DepEdge { from: nodes[e.source as int], to: nodes[e.target as int], kind: e.kind }
}

/// The dependencies that stored edges stand for.
pub open spec fn dep_edges(nodes: Seq<PackageId>, edges: Seq<RawEdge>) -> Seq<DepEdge> {
    Seq::new(edges.len(), |k: int| dep_edge(nodes, edges[k]))
}

/// The dependency graph of a resolution. Each package is one node, found
/// again by its identity.
pub struct DependencyGraph {
    graph: petgraph::graph::Graph<PackageId, DepKind, petgraph::Directed, usize>,
    nodes: HashMap<PackageId, usize>,
}

impl View for DependencyGraph {
    type V = GraphView;

    closed spec fn view(&self) -> GraphView {
        GraphView {
            nodes: graph_nodes(self.graph),
            edges: dep_edges(graph_nodes(self.graph), graph_edges(self.graph)),
        }
    }
}

impl DependencyGraph {
    /// The index map and the stored graph agree: a package is mapped to
    /// the node that holds it, every node is mapped, and every edge joins
    /// two nodes.
    pub closed spec fn wf(&self) -> bool {
        let nodes = graph_nodes(self.graph);
        let edges = graph_edges(self.graph);
        &&& forall|id: PackageId| #[trigger]
            self.nodes@.contains_key(id) ==> self.nodes@[id] < nodes.len()
                && nodes[self.nodes@[id] as int] == id
        &&& forall|i: int|
            0 <= i < nodes.len() ==> self.nodes@.contains_key(#[trigger] nodes[i])
                && self.nodes@[nodes[i]] == i
        &&& forall|k: int|
            0 <= k < edges.len() ==> (#[trigger] edges[k]).source < nodes.len() && edges[k].target
                < nodes.len()
    }

    /// A well-formed graph holds each package once, and its dependencies
    /// join its own packages.
    pub proof fn lemma_wf_view(&self)
        requires
            self.wf(),
        ensures
            self@.wf(),
    {
        let nodes = graph_nodes(self.graph);
        let edges = graph_edges(self.graph);
        assert forall|i: int, j: int| 0 <= i < nodes.len() && 0 <= j < nodes.len() && i != j implies nodes[i] != nodes[j] by {
            assert(self.nodes@[nodes[i]] == i);
            assert(self.nodes@[nodes[j]] == j);
        }
        assert forall|k: int| 0 <= k < self@.edges.len() implies self@.nodes.contains(
            #[trigger] self@.edges[k].from,
        ) && self@.nodes.contains(self@.edges[k].to) by {
            let e = edges[k];
            assert(nodes[e.source as int] == self@.edges[k].from);
            assert(nodes[e.target as int] == self@.edges[k].to);
        }
    }

    /// The graph without packages.
    pub fn new() -> (g: DependencyGraph)
        ensures
            g.wf(),
            g@.nodes == Seq::<PackageId>::empty(),
            g@.edges == Seq::<DepEdge>::empty(),
    {
        let g = DependencyGraph { graph: graph_new(), nodes: HashMap::new() };
        assert(g@.edges =~= Seq::<DepEdge>::empty());
        g
    }

    /// Adds a package that the graph does not hold yet.
    pub fn add_node(&mut self, id: PackageId)
        requires
            old(self).wf(),
            !old(self)@.nodes.contains(id),
        ensures
            final(self).wf(),
            final(self)@.nodes == old(self)@.nodes.push(id),
            final(self)@.edges == old(self)@.edges,
    {
        let ghost nodes0 = graph_nodes(self.graph);
        let ghost edges0 = graph_edges(self.graph);
        proof {
            if self.nodes@.contains_key(id) {
                assert(nodes0[self.nodes@[id] as int] == id);
            }
        }
        let idx = graph_add_node(&mut self.graph, id);
        self.nodes.insert(id, idx);
        proof {
            let nodes1 = graph_nodes(self.graph);
            assert forall|i: int| 0 <= i < nodes1.len() implies self.nodes@.contains_key(
                #[trigger] nodes1[i],
            ) && self.nodes@[nodes1[i]] == i by {
                if i < nodes0.len() {
                    assert(nodes1[i] == nodes0[i]);
                    assert(old(self).nodes@[nodes0[i]] == i);
                }
            }
            assert(self@.edges =~= old(self)@.edges);
        }
    }

    /// Adds a dependency between two packages of the graph.
    pub fn add_edge(&mut self, from: PackageId, to: PackageId, kind: DepKind)
        requires
            old(self).wf(),
            old(self)@.nodes.contains(from),
            old(self)@.nodes.contains(to),
        ensures
            final(self).wf(),
            final(self)@.nodes == old(self)@.nodes,
            final(self)@.edges == old(self)@.edges.push(DepEdge { from, to, kind }),
    {
        proof {
            self.lemma_mapped(from);
            self.lemma_mapped(to);
        }
        let a = *self.nodes.get(&from).unwrap();
        let b = *self.nodes.get(&to).unwrap();
        graph_add_edge(&mut self.graph, a, b, kind);
        proof {
            assert(self@.edges =~= old(self)@.edges.push(DepEdge { from, to, kind }));
        }
    }

    /// Whether the graph holds the package.
    pub fn contains(&self, id: PackageId) -> (r: bool)
        requires
            self.wf(),
        ensures
            r == self@.nodes.contains(id),
    {
        proof {
            self.lemma_mapped(id);
        }
        self.nodes.contains_key(&id)
    }

    /// The index map holds exactly the packages of the stored graph.
    proof fn lemma_mapped(&self, id: PackageId)
        requires
            self.wf(),
        ensures
            self.nodes@.contains_key(id) <==> self@.nodes.contains(id),
    {
        let nodes = graph_nodes(self.graph);
        if self.nodes@.contains_key(id) {
            assert(nodes[self.nodes@[id] as int] == id);
        }
        if nodes.contains(id) {
            let i = choose|i: int| 0 <= i < nodes.len() && nodes[i] == id;
            assert(self.nodes@.contains_key(nodes[i]));
        }
    }

    /// The dependencies of package `id` (outgoing) or on it (incoming),
    /// the one added last coming first.
    pub fn edges_directed(&self, id: PackageId, dir: EdgeDirection) -> (r: Vec<DepEdge>)
        requires
            self.wf(),
            self@.nodes.contains(id),
        ensures
            r@ == self@.edges_of(id, dir).reverse(),
            forall|m: int|
                0 <= m < r@.len() ==> self@.nodes.contains(#[trigger] r@[m].from)
                    && self@.nodes.contains(r@[m].to),
    {
        proof {
            self.lemma_mapped(id);
        }
        let idx = *self.nodes.get(&id).unwrap();
        let raw = graph_edges_directed(&self.graph, idx, dir);
        let ghost nodes = graph_nodes(self.graph);
        let ghost edges = graph_edges(self.graph);
        proof {
            self.lemma_incident(edges.len() as int, idx, id, dir);
            assert(edges.take(edges.len() as int) == edges);
            assert(dep_edges(nodes, edges).take(edges.len() as int) == dep_edges(nodes, edges));
        }
        let ghost inc = incident(edges, idx, dir);
        let mut out: Vec<DepEdge> = Vec::new();
        let mut k: usize = 0;
        while k < raw.len()
            invariant
                self.wf(),
                nodes == graph_nodes(self.graph),
                edges == graph_edges(self.graph),
                inc == incident(edges, idx, dir),
                raw@ == inc.reverse(),
                forall|m: int| 0 <= m < inc.len() ==> (#[trigger] inc[m]).source < nodes.len() && inc[m].target < nodes.len(),
                k <= raw.len(),
                out@.len() == k,
                forall|m: int| 0 <= m < k ==> #[trigger] out@[m] == dep_edge(nodes, raw@[m]),
            decreases raw.len() - k,
        {
            let e = raw[k];
            assert(e == inc[inc.len() - 1 - k]);
            let from = graph_node_weight(&self.graph, e.source);
            let to = graph_node_weight(&self.graph, e.target);
            out.push(DepEdge { from, to, kind: e.kind });
            k = k + 1;
        }
        proof {
            let want = self@.edges_of(id, dir).reverse();
            assert(want.len() == out@.len());
            assert forall|m: int| 0 <= m < out@.len() implies out@[m] == want[m] by {
                assert(raw@[m] == inc[inc.len() - 1 - m]);
            }
            assert(out@ =~= want);
            assert forall|m: int| 0 <= m < out@.len() implies self@.nodes.contains(
                #[trigger] out@[m].from,
            ) && self@.nodes.contains(out@[m].to) by {
                let e = raw@[m];
                assert(e == inc[inc.len() - 1 - m]);
                assert(nodes[e.source as int] == out@[m].from);
                assert(nodes[e.target as int] == out@[m].to);
            }
        }
        out
    }

    /// The stored edges at a node stand, one for one and in order, for the
    /// dependencies at the package that the node holds.
    proof fn lemma_incident(&self, n: int, idx: usize, id: PackageId, dir: EdgeDirection)
        requires
            self.wf(),
            0 <= n <= graph_edges(self.graph).len(),
            idx < graph_nodes(self.graph).len(),
            graph_nodes(self.graph)[idx as int] == id,
        ensures
            ({
                let nodes = graph_nodes(self.graph);
                let raw = incident(graph_edges(self.graph).take(n), idx, dir);
                let deps = edges_at(dep_edges(nodes, graph_edges(self.graph)).take(n), id, dir);
                &&& raw.len() == deps.len()
                &&& forall|m: int| 0 <= m < raw.len() ==> #[trigger] deps[m] == dep_edge(nodes, raw[m])
                &&& forall|m: int| 0 <= m < raw.len() ==> (#[trigger] raw[m]).source < nodes.len() && raw[m].target < nodes.len()
            }),
        decreases n,
    {
        let nodes = graph_nodes(self.graph);
        let edges = graph_edges(self.graph);
        let all = dep_edges(nodes, edges);
        if n > 0 {
            self.lemma_incident(n - 1, idx, id, dir);
            assert(edges.take(n).drop_last() == edges.take(n - 1));
            assert(all.take(n).drop_last() == all.take(n - 1));
            let e = edges[n - 1];
            assert(edges.take(n).last() == e);
            assert(all.take(n).last() == dep_edge(nodes, e));
            assert(self.nodes@[nodes[e.source as int]] == e.source);
            assert(self.nodes@[nodes[e.target as int]] == e.target);
            assert(self.nodes@[nodes[idx as int]] == idx);
        }
    }
}

} // verus!
