//! Building the dependency graph from the resolver's result.

use crate::graph::{edges_at, DepEdge, DependencyGraph, EdgeDirection, GraphView};
use crate::package::{ExtraDeps, PackageId, Resolve, ResolvedDep, ResolvedPackage};
use vstd::prelude::*;
use vstd::set_lib::{lemma_int_range, lemma_len_subset, set_int_range};

verus! {

/// Why no graph could be built.
#[derive(Debug, Clone, Copy, PartialEq, Eq, Structural)]
pub enum GraphError {
    /// The resolution lacks a package that the graph has to hold.
    UnknownPackage(PackageId),
}

/// The edges that the first `n` declarations of one resolved dependency of
/// package `from` give, in the order of the declarations.
pub open spec fn declared_edges(
    from: PackageId,
    dep: ResolvedDep,
    n: int,
    filter_by_target: bool,
    extra_deps: ExtraDeps,
) -> Seq<DepEdge>
    decreases n,
{
    if n <= 0 {
        Seq::empty()
    } else {
        let rest = declared_edges(from, dep, n - 1, filter_by_target, extra_deps);
        let d = dep.declared[n - 1];
        if d.spec_included(filter_by_target, extra_deps) {
            rest.push(DepEdge { from, to: dep.spec_target(), kind: d.kind })
        } else {
            rest
        }
    }
}

/// The edges that the first `n` resolved dependencies of package `from`
/// give: dependency by dependency, declaration by declaration.
pub open spec fn package_edges(
    from: PackageId,
    pkg: ResolvedPackage,
    n: int,
    filter_by_target: bool,
    extra_deps: ExtraDeps,
) -> Seq<DepEdge>
    decreases n,
{
    if n <= 0 {
        Seq::empty()
    } else {
        package_edges(from, pkg, n - 1, filter_by_target, extra_deps) + declared_edges(
            from,
            pkg.deps[n - 1],
            pkg.deps[n - 1].declared.len() as int,
            filter_by_target,
            extra_deps,
        )
    }
}

/// What the graph of a resolution holds: the packages reachable from the
/// root, each once, and for each of them the edges that its dependencies
/// give.
pub open spec fn is_graph_of(
    gv: GraphView,
    resolve: &Resolve,
    root: PackageId,
    filter_by_target: bool,
    extra_deps: ExtraDeps,
) -> bool {
    &&& gv.wf()
    &&& gv.nodes.len() > 0
    &&& gv.nodes[0] == root
    &&& forall|p: PackageId|
        gv.nodes.contains(p) <==> #[trigger] resolve.reachable(
            root,
            p,
            filter_by_target,
            extra_deps,
        )
    &&& forall|p: PackageId| #[trigger] gv.nodes.contains(p) ==> resolve.knows(p)
    &&& forall|a: PackageId| #[trigger]
        edges_at(gv.edges, a, EdgeDirection::Outgoing) == (if gv.nodes.contains(a) {
            package_edges(
                a,
                resolve.packages[a as int],
                resolve.packages[a as int].deps.len() as int,
                filter_by_target,
                extra_deps,
            )
        } else {
            Seq::empty()
        })
}

/// Whether the targets of the edges that the first `n` resolved
/// dependencies of `a` give are among `nodes`.
spec fn closed_at(
    resolve: &Resolve,
    nodes: Seq<PackageId>,
    a: PackageId,
    n: int,
    filter_by_target: bool,
    extra_deps: ExtraDeps,
) -> bool {
    forall|i: int, j: int|
        0 <= i < n && 0 <= j < resolve.packages[a as int].deps[i].declared.len()
            && #[trigger] resolve.packages[a as int].deps[i].declared[j].spec_included(
            filter_by_target,
            extra_deps,
        ) ==> nodes.contains(resolve.packages[a as int].deps[i].spec_target())
}

/// The state between two steps of the construction. `done` holds the
/// packages whose dependencies have all been followed, `pending` those
/// that wait for it, `current` the one whose dependencies are being
/// followed.
spec fn building(
    resolve: &Resolve,
    root: PackageId,
    filter_by_target: bool,
    extra_deps: ExtraDeps,
    gv: GraphView,
    pending: Seq<PackageId>,
    done: Set<int>,
    current: Option<PackageId>,
) -> bool {
    &&& gv.nodes.len() > 0
    &&& gv.nodes[0] == root
    &&& gv.nodes.no_duplicates()
    &&& pending.no_duplicates()
    &&& forall|i: int| 0 <= i < gv.nodes.len() ==> resolve.knows(#[trigger] gv.nodes[i])
    &&& forall|i: int|
        0 <= i < gv.nodes.len() ==> resolve.reachable(
            root,
            #[trigger] gv.nodes[i],
            filter_by_target,
            extra_deps,
        )
    &&& done.finite()
    &&& done.subset_of(set_int_range(0, resolve.packages.len() as int))
    &&& forall|p: PackageId| #[trigger] done.contains(p as int) ==> gv.nodes.contains(p)
    &&& forall|k: int|
        0 <= k < pending.len() ==> gv.nodes.contains(#[trigger] pending[k]) && !done.contains(
            pending[k] as int,
        ) && current != Some(pending[k])
    &&& forall|i: int|
        0 <= i < gv.nodes.len() ==> done.contains(#[trigger] gv.nodes[i] as int)
            || pending.contains(gv.nodes[i]) || current == Some(gv.nodes[i])
    &&& current matches Some(c) ==> gv.nodes.contains(c) && !done.contains(c as int)
    &&& forall|a: PackageId| #[trigger]
        done.contains(a as int) ==> closed_at(
            resolve,
            gv.nodes,
            a,
            resolve.packages[a as int].deps.len() as int,
            filter_by_target,
            extra_deps,
        )
    &&& forall|a: PackageId|
        current != Some(a) ==> #[trigger] edges_at(gv.edges, a, EdgeDirection::Outgoing) == (
        if done.contains(a as int) {
            package_edges(
                a,
                resolve.packages[a as int],
                resolve.packages[a as int].deps.len() as int,
                filter_by_target,
                extra_deps,
            )
        } else {
            Seq::empty()
        })
}

/// An edge added at the end shows among the edges of a package exactly
/// where it leaves (or enters) that package.
proof fn lemma_edges_at_push(edges: Seq<DepEdge>, e: DepEdge, id: PackageId, dir: EdgeDirection)
    ensures
        edges_at(edges.push(e), id, dir) == (if (match dir {
            EdgeDirection::Outgoing => e.from == id,
            EdgeDirection::Incoming => e.to == id,
        }) {
            edges_at(edges, id, dir).push(e)
        } else {
            edges_at(edges, id, dir)
        }),
{
    assert(edges.push(e).drop_last() == edges);
}

/// Where every package of the graph has the targets of its edges in the
/// graph, the graph holds every package that is reachable from its root.
proof fn lemma_closed_holds_path(
    resolve: &Resolve,
    nodes: Seq<PackageId>,
    path: Seq<PackageId>,
    k: int,
    filter_by_target: bool,
    extra_deps: ExtraDeps,
)
    requires
        resolve.is_path(path, filter_by_target, extra_deps),
        nodes.contains(path[0]),
        0 <= k < path.len(),
        forall|a: PackageId| #[trigger]
            nodes.contains(a) ==> resolve.knows(a) && closed_at(
                resolve,
                nodes,
                a,
                resolve.packages[a as int].deps.len() as int,
                filter_by_target,
                extra_deps,
            ),
    ensures
        nodes.contains(path[k]),
    decreases k,
{
    if k > 0 {
        lemma_closed_holds_path(resolve, nodes, path, k - 1, filter_by_target, extra_deps);
        let a = path[k - 1];
        assert(resolve.step(a, path[k - 1 + 1], filter_by_target, extra_deps));
        assert(nodes.contains(a));
        assert(closed_at(
            resolve,
            nodes,
            a,
            resolve.packages[a as int].deps.len() as int,
            filter_by_target,
            extra_deps,
        ));
    }
}

/// Makes sure that the graph holds the package `to`, which the current
/// package depends on, and adds the edge between the two.
fn link(
    resolve: &Resolve,
    root: PackageId,
    filter_by_target: bool,
    extra_deps: ExtraDeps,
    graph: &mut DependencyGraph,
    pending: &mut Vec<PackageId>,
    Ghost(done): Ghost<Set<int>>,
    from: PackageId,
    to: PackageId,
    kind: crate::package::DepKind,
) -> (r: Result<(), GraphError>)
    requires
        old(graph).wf(),
        building(
            resolve,
            root,
            filter_by_target,
            extra_deps,
            old(graph)@,
            old(pending)@,
            done,
            Some(from),
        ),
        resolve.step(from, to, filter_by_target, extra_deps),
    ensures
        match r {
            Ok(()) => {
                &&& final(graph).wf()
                &&& building(
                    resolve,
                    root,
                    filter_by_target,
                    extra_deps,
                    final(graph)@,
                    final(pending)@,
                    done,
                    Some(from),
                )
                &&& final(graph)@.nodes.contains(to)
                &&& forall|p: PackageId|
                    old(graph)@.nodes.contains(p) ==> #[trigger] final(graph)@.nodes.contains(p)
                &&& edges_at(final(graph)@.edges, from, EdgeDirection::Outgoing) == edges_at(
                    old(graph)@.edges,
                    from,
                    EdgeDirection::Outgoing,
                ).push(DepEdge { from, to, kind })
            },
            Err(e) => e == GraphError::UnknownPackage(to) && !resolve.knows(to)
                && resolve.reachable(root, to, filter_by_target, extra_deps),
        },
{
    let ghost gv0 = graph@;
    let ghost pending0 = pending@;
    proof {
        let i = choose|i: int| 0 <= i < gv0.nodes.len() && gv0.nodes[i] == from;
        assert(resolve.reachable(root, gv0.nodes[i], filter_by_target, extra_deps));
        resolve.lemma_reachable_step(root, from, to, filter_by_target, extra_deps);
    }
    if !graph.contains(to) {
        if to as usize >= resolve.packages.len() || to > usize::MAX as u64 {
            return Err(GraphError::UnknownPackage(to));
        }
        pending.push(to);
        graph.add_node(to);
        proof {
            let gv1 = graph@;
            assert forall|p: PackageId| gv0.nodes.contains(p) implies #[trigger] gv1.nodes.contains(
                p,
            ) by {
                let i = choose|i: int| 0 <= i < gv0.nodes.len() && gv0.nodes[i] == p;
                assert(gv1.nodes[i] == p);
            }
            assert(gv1.nodes[gv0.nodes.len() as int] == to);
            assert(gv1.nodes.contains(to));
            assert forall|k: int, m: int|
                0 <= k < pending@.len() && 0 <= m < pending@.len() && k != m implies pending@[k]
                != pending@[m] by {
                if k < pending0.len() {
                    assert(gv0.nodes.contains(pending0[k]));
                }
                if m < pending0.len() {
                    assert(gv0.nodes.contains(pending0[m]));
                }
            }
            assert forall|i: int| 0 <= i < gv1.nodes.len() implies done.contains(
                #[trigger] gv1.nodes[i] as int,
            ) || pending@.contains(gv1.nodes[i]) || Some(from) == Some(gv1.nodes[i]) by {
                if i < gv0.nodes.len() {
                    assert(gv1.nodes[i] == gv0.nodes[i]);
                    if pending0.contains(gv0.nodes[i]) {
                        let k = choose|k: int| 0 <= k < pending0.len() && pending0[k] == gv0.nodes[i];
                        assert(pending@[k] == gv0.nodes[i]);
                    }
                } else {
                    assert(pending@[pending0.len() as int] == to);
                }
            }
            assert forall|k: int| 0 <= k < pending@.len() implies gv1.nodes.contains(
                #[trigger] pending@[k],
            ) && !done.contains(pending@[k] as int) && Some(from) != Some(pending@[k]) by {
                if k < pending0.len() {
                    assert(pending@[k] == pending0[k]);
                    assert(gv0.nodes.contains(pending0[k]));
                }
            }
            assert forall|a: PackageId| #[trigger] done.contains(a as int) implies closed_at(
                resolve,
                gv1.nodes,
                a,
                resolve.packages[a as int].deps.len() as int,
                filter_by_target,
                extra_deps,
            ) by {
                assert(closed_at(
                    resolve,
                    gv0.nodes,
                    a,
                    resolve.packages[a as int].deps.len() as int,
                    filter_by_target,
                    extra_deps,
                ));
            }
            assert forall|i: int| 0 <= i < gv1.nodes.len() implies resolve.knows(
                #[trigger] gv1.nodes[i],
            ) && resolve.reachable(root, gv1.nodes[i], filter_by_target, extra_deps) by {
                if i < gv0.nodes.len() {
                    assert(gv1.nodes[i] == gv0.nodes[i]);
                }
            }
            assert(building(
                resolve,
                root,
                filter_by_target,
                extra_deps,
                gv1,
                pending@,
                done,
                Some(from),
            ));
        }
    }
    let ghost gv1 = graph@;
    graph.add_edge(from, to, kind);
    proof {
        let gv2 = graph@;
        let e = DepEdge { from, to, kind };
        assert forall|a: PackageId| Some(from) != Some(a) implies #[trigger] edges_at(
            gv2.edges,
            a,
            EdgeDirection::Outgoing,
        ) == edges_at(gv1.edges, a, EdgeDirection::Outgoing) by {
            lemma_edges_at_push(gv1.edges, e, a, EdgeDirection::Outgoing);
        }
        lemma_edges_at_push(gv1.edges, e, from, EdgeDirection::Outgoing);
    }
    Ok(())
}

/// Builds the graph of the packages that `root` reaches.
///
/// The packages are discovered depth first from `root`, over a stack of
/// packages whose dependencies are still to be followed. A package becomes
/// a node when it is first met; each declaration of a resolved dependency
/// becomes an edge, where its kind is allowed by `extra_deps` and, with
/// `filter_by_target`, its platform does not miss the target. Cycles among
/// the packages are kept.
pub fn build_graph(
    resolve: &Resolve,
    root: PackageId,
    filter_by_target: bool,
    extra_deps: ExtraDeps,
) -> (r: Result<DependencyGraph, GraphError>)
    ensures
        r is Ok <==> forall|p: PackageId| #[trigger]
            resolve.reachable(root, p, filter_by_target, extra_deps) ==> resolve.knows(p),
        match r {
            Ok(g) => g.wf() && is_graph_of(g@, resolve, root, filter_by_target, extra_deps),
            Err(GraphError::UnknownPackage(p)) => !resolve.knows(p) && resolve.reachable(
                root,
                p,
                filter_by_target,
                extra_deps,
            ),
        },
{
    proof {
        resolve.lemma_reachable_root(root, filter_by_target, extra_deps);
    }
    if root > usize::MAX as u64 || root as usize >= resolve.packages.len() {
        return Err(GraphError::UnknownPackage(root));
    }
    let mut graph = DependencyGraph::new();
    graph.add_node(root);
    let mut pending: Vec<PackageId> = Vec::new();
    pending.push(root);
    let ghost mut done: Set<int> = Set::empty();
    proof {
        assert(graph@.nodes[0] == root);
        assert(pending@[0] == root);
        assert forall|a: PackageId| #[trigger]
            edges_at(graph@.edges, a, EdgeDirection::Outgoing) == Seq::<DepEdge>::empty() by {}
    }
    while pending.len() > 0
        invariant
            graph.wf(),
            building(
                resolve,
                root,
                filter_by_target,
                extra_deps,
                graph@,
                pending@,
                done,
                None,
            ),
        decreases resolve.packages.len() - done.len(),
    {
        let ghost pending0 = pending@;
        let from = pending.pop().unwrap();
        let ghost last = pending0.len() - 1;
        assert(pending0[last] == from);
        let pkg = &resolve.packages[from as usize];
        proof {
            let gv = graph@;
            assert forall|i: int| 0 <= i < gv.nodes.len() implies done.contains(
                #[trigger] gv.nodes[i] as int,
            ) || pending@.contains(gv.nodes[i]) || Some(from) == Some(gv.nodes[i]) by {
                if pending0.contains(gv.nodes[i]) {
                    let k = choose|k: int| 0 <= k < pending0.len() && pending0[k] == gv.nodes[i];
                    if k < last {
                        assert(pending@[k] == gv.nodes[i]);
                    }
                }
            }
            assert forall|k: int| 0 <= k < pending@.len() implies Some(from) != Some(
                #[trigger] pending@[k],
            ) by {
                assert(pending0[k] == pending@[k]);
                assert(pending0[k] != pending0[last]);
            }
        }
        let mut i: usize = 0;
        while i < pkg.deps.len()
            invariant
                graph.wf(),
                resolve.knows(from),
                *pkg == resolve.packages[from as int],
                i <= pkg.deps.len(),
                building(
                    resolve,
                    root,
                    filter_by_target,
                    extra_deps,
                    graph@,
                    pending@,
                    done,
                    Some(from),
                ),
                closed_at(resolve, graph@.nodes, from, i as int, filter_by_target, extra_deps),
                edges_at(graph@.edges, from, EdgeDirection::Outgoing) == package_edges(
                    from,
                    *pkg,
                    i as int,
                    filter_by_target,
                    extra_deps,
                ),
            decreases pkg.deps.len() - i,
        {
            let dep = &pkg.deps[i];
            let to = dep.target();
            let mut j: usize = 0;
            while j < dep.declared.len()
                invariant
                    graph.wf(),
                    resolve.knows(from),
                    *pkg == resolve.packages[from as int],
                    i < pkg.deps.len(),
                    *dep == pkg.deps[i as int],
                    to == dep.spec_target(),
                    j <= dep.declared.len(),
                    building(
                        resolve,
                        root,
                        filter_by_target,
                        extra_deps,
                        graph@,
                        pending@,
                        done,
                        Some(from),
                    ),
                    closed_at(resolve, graph@.nodes, from, i as int, filter_by_target, extra_deps),
                    forall|m: int|
                        0 <= m < j && #[trigger] dep.declared[m].spec_included(
                            filter_by_target,
                            extra_deps,
                        ) ==> graph@.nodes.contains(to),
                    edges_at(graph@.edges, from, EdgeDirection::Outgoing) == package_edges(
                        from,
                        *pkg,
                        i as int,
                        filter_by_target,
                        extra_deps,
                    ) + declared_edges(from, *dep, j as int, filter_by_target, extra_deps),
                decreases dep.declared.len() - j,
            {
                let d = dep.declared[j];
                if d.included(filter_by_target, extra_deps) {
                    let ghost nodes0 = graph@.nodes;
                    proof {
                        assert(resolve.packages[from as int].deps[i as int].declared[j as int].spec_included(
                            filter_by_target,
                            extra_deps,
                        ));
                        assert(resolve.step(from, to, filter_by_target, extra_deps));
                    }
                    match link(
                        resolve,
                        root,
                        filter_by_target,
                        extra_deps,
                        &mut graph,
                        &mut pending,
                        Ghost(done),
                        from,
                        to,
                        d.kind,
                    ) {
                        Ok(()) => {},
                        Err(e) => {
                            return Err(e);
                        },
                    }
                    proof {
                        assert(closed_at(
                            resolve,
                            graph@.nodes,
                            from,
                            i as int,
                            filter_by_target,
                            extra_deps,
                        )) by {
                            assert(closed_at(
                                resolve,
                                nodes0,
                                from,
                                i as int,
                                filter_by_target,
                                extra_deps,
                            ));
                        }
                    }
                }
                j = j + 1;
            }
            i = i + 1;
        }
        proof {
            let gv = graph@;
            let done1 = done.insert(from as int);
            lemma_int_range(0, resolve.packages.len() as int);
            lemma_len_subset(done1, set_int_range(0, resolve.packages.len() as int));
            assert forall|a: PackageId| #[trigger] done1.contains(a as int) implies closed_at(
                resolve,
                gv.nodes,
                a,
                resolve.packages[a as int].deps.len() as int,
                filter_by_target,
                extra_deps,
            ) by {
                if a != from {
                    assert(done.contains(a as int));
                }
            }
            done = done1;
        }
    }
    proof {
        let gv = graph@;
        graph.lemma_wf_view();
        assert forall|a: PackageId| #[trigger] gv.nodes.contains(a) implies resolve.knows(a)
            && done.contains(a as int) by {
            let i = choose|i: int| 0 <= i < gv.nodes.len() && gv.nodes[i] == a;
            assert(resolve.knows(gv.nodes[i]));
            if pending@.contains(gv.nodes[i]) {
                let k = choose|k: int| 0 <= k < pending@.len() && pending@[k] == gv.nodes[i];
            }
        }
        assert forall|p: PackageId| #[trigger]
            resolve.reachable(root, p, filter_by_target, extra_deps) implies gv.nodes.contains(
            p,
        ) by {
            let path = choose|path: Seq<PackageId>|
                #[trigger] resolve.is_path(path, filter_by_target, extra_deps) && path[0] == root
                    && path.last() == p;
            lemma_closed_holds_path(
                resolve,
                gv.nodes,
                path,
                path.len() - 1,
                filter_by_target,
                extra_deps,
            );
        }
        assert forall|p: PackageId| gv.nodes.contains(p) implies #[trigger] resolve.reachable(
            root,
            p,
            filter_by_target,
            extra_deps,
        ) by {
            let i = choose|i: int| 0 <= i < gv.nodes.len() && gv.nodes[i] == p;
            assert(resolve.reachable(root, gv.nodes[i], filter_by_target, extra_deps));
        }
        assert forall|a: PackageId| #[trigger]
            edges_at(gv.edges, a, EdgeDirection::Outgoing) == (if gv.nodes.contains(a) {
                package_edges(
                    a,
                    resolve.packages[a as int],
                    resolve.packages[a as int].deps.len() as int,
                    filter_by_target,
                    extra_deps,
                )
            } else {
                Seq::empty()
            }) by {
            if gv.nodes.contains(a) {
                assert(done.contains(a as int));
            }
        }
    }
    Ok(graph)
}

} // verus!
