//! The report: the counters of the packages of the graph, the packages
//! without counters, and the files of the build that were never scanned.

use crate::aggregate::{has_counters, is_context_of, GeigerContext, ScannedFile};
use crate::counters::PackageCounters;
use crate::graph::{
    lemma_edges_at_complete, lemma_edges_at_sound, DepEdge, DependencyGraph, EdgeDirection,
    GraphView,
};
use crate::package::{DepKind, PackageId};
use crate::traversal::neighbors;
use crate::used::{path_views, BuildUsedSet};
use std::collections::{HashMap, HashSet};
use vstd::prelude::*;
use vstd::set_lib::lemma_len_subset;

verus! {

broadcast use vstd::std_specs::hash::group_hash_axioms;

/// A package with the packages that it depends on, kind by kind, one for
/// each dependency.
#[derive(Debug, Clone, PartialEq, Eq)]
pub struct PackageInfo {
    pub id: PackageId,
    pub dependencies: Vec<PackageId>,
    pub dev_dependencies: Vec<PackageId>,
    pub build_dependencies: Vec<PackageId>,
}

/// A package with its counters, if it has any.
#[derive(Debug, Clone, PartialEq, Eq)]
pub struct PackageMetrics {
    pub package: PackageInfo,
    pub metrics: Option<PackageCounters>,
}

/// The entry of a package in the report.
#[derive(Debug, Clone, PartialEq, Eq)]
pub struct ReportEntry {
    pub package: PackageInfo,
    pub unsafety: PackageCounters,
}

/// The result of the audit.
#[derive(Debug)]
pub struct SafetyReport {
    /// The packages that have counters.
    pub packages: HashMap<PackageId, ReportEntry>,
    /// The packages of which no file was scanned.
    pub packages_without_metrics: HashSet<PackageId>,
    /// The files that the build used and that no scan came to.
    pub used_but_not_scanned_files: Vec<String>,
}

/// Whether the lists name what the package depends on in the graph.
pub open spec fn is_info_of(gv: GraphView, info: PackageInfo) -> bool {
    let edges = gv.edges_of(info.id, EdgeDirection::Outgoing);
    &&& info.dependencies@ == neighbors(edges, DepKind::Normal, EdgeDirection::Outgoing)
    &&& info.build_dependencies@ == neighbors(edges, DepKind::Build, EdgeDirection::Outgoing)
    &&& info.dev_dependencies@ == neighbors(edges, DepKind::Development, EdgeDirection::Outgoing)
}

/// Whether `metrics` is what the map holds for the package.
pub open spec fn is_metrics_of(
    counters: Map<PackageId, PackageCounters>,
    id: PackageId,
    metrics: Option<PackageCounters>,
) -> bool {
    match metrics {
        Some(c) => counters.contains_key(id) && counters[id] == c,
        None => !counters.contains_key(id),
    }
}

/// The packages of a list.
pub open spec fn ids_of(list: Seq<PackageMetrics>) -> Seq<PackageId> {
    Seq::new(list.len(), |i: int| list[i].package.id)
}

/// A list without repetition, taken from a finite set, is not longer than
/// the set is large.
proof fn lemma_distinct_len(ids: Seq<PackageId>, all: Seq<PackageId>)
    requires
        ids.no_duplicates(),
        forall|k: int| 0 <= k < ids.len() ==> all.contains(#[trigger] ids[k]),
    ensures
        ids.len() <= all.len(),
{
    broadcast use vstd::set::group_set_axioms;

    vstd::seq_lib::seq_to_set_is_finite(all);
    vstd::seq_lib::seq_to_set_is_finite(ids);
    ids.unique_seq_to_set();
    all.lemma_cardinality_of_set();
    assert(ids.to_set().subset_of(all.to_set())) by {
        assert forall|p: PackageId| ids.to_set().contains(p) implies all.to_set().contains(p) by {
            let k = choose|k: int| 0 <= k < ids.len() && ids[k] == p;
            assert(all.contains(ids[k]));
        }
    }
    lemma_len_subset(ids.to_set(), all.to_set());
}

/// Where all that a listed package depends on is listed, every package
/// that the root reaches is listed.
proof fn lemma_closed_reaches(
    gv: GraphView,
    ids: Seq<PackageId>,
    path: Seq<PackageId>,
    k: int,
)
    requires
        gv.is_path(path),
        ids.contains(path[0]),
        0 <= k < path.len(),
        forall|a: PackageId, b: PackageId|
            ids.contains(a) && #[trigger] gv.depends(a, b) ==> ids.contains(b),
    ensures
        ids.contains(path[k]),
    decreases k,
{
    if k > 0 {
        lemma_closed_reaches(gv, ids, path, k - 1);
        assert(gv.depends(path[k - 1], path[k - 1 + 1]));
    }
}

/// Lists what a package depends on, and marks those packages: the ones
/// that were not marked before are added to the packages that wait.
fn package_info(
    graph: &DependencyGraph,
    Ghost(root): Ghost<PackageId>,
    id: PackageId,
    visited: &mut HashSet<PackageId>,
    pending: &mut Vec<PackageId>,
) -> (info: PackageInfo)
    requires
        graph.wf(),
        graph@.nodes.contains(id),
        graph@.reaches(root, id),
        old(pending)@.no_duplicates(),
        forall|k: int| 0 <= k < old(pending)@.len() ==> old(visited)@.contains(#[trigger] old(pending)@[k]),
        forall|p: PackageId| #[trigger]
            old(visited)@.contains(p) ==> graph@.nodes.contains(p) && graph@.reaches(root, p),
    ensures
        info.id == id,
        is_info_of(graph@, info),
        final(pending)@.no_duplicates(),
        final(pending)@.len() >= old(pending)@.len(),
        forall|k: int|
            0 <= k < old(pending)@.len() ==> final(pending)@[k] == #[trigger] old(pending)@[k],
        forall|k: int|
            old(pending)@.len() <= k < final(pending)@.len() ==> !old(visited)@.contains(
                #[trigger] final(pending)@[k],
            ),
        forall|k: int|
            0 <= k < final(pending)@.len() ==> final(visited)@.contains(#[trigger] final(pending)@[k]),
        forall|p: PackageId| #[trigger]
            final(visited)@.contains(p) ==> graph@.nodes.contains(p) && graph@.reaches(root, p),
        forall|p: PackageId| old(visited)@.contains(p) ==> #[trigger] final(visited)@.contains(p),
        forall|p: PackageId| #[trigger]
            final(visited)@.contains(p) ==> old(visited)@.contains(p) || final(pending)@.contains(
                p,
            ),
        forall|b: PackageId| #[trigger] graph@.depends(id, b) ==> final(visited)@.contains(b),
{
    let ghost gv = graph@;
    let ghost v0 = visited@;
    let ghost p0 = pending@;
    let ghost of = gv.edges_of(id, EdgeDirection::Outgoing);
    let mut dependencies: Vec<PackageId> = Vec::new();
    let mut build_dependencies: Vec<PackageId> = Vec::new();
    let mut dev_dependencies: Vec<PackageId> = Vec::new();
    let edges = graph.edges_directed(id, EdgeDirection::Outgoing);
    let mut k: usize = edges.len();
    assert(of.take(0) =~= Seq::<DepEdge>::empty());
    while k > 0
        invariant
            k <= edges.len(),
            gv == graph@,
            of == gv.edges_of(id, EdgeDirection::Outgoing),
            edges@ == of.reverse(),
            graph@.reaches(root, id),
            forall|m: int|
                0 <= m < edges@.len() ==> graph@.nodes.contains(#[trigger] edges@[m].from)
                    && graph@.nodes.contains(edges@[m].to),
            dependencies@ == neighbors(
                of.take(edges.len() - k),
                DepKind::Normal,
                EdgeDirection::Outgoing,
            ),
            build_dependencies@ == neighbors(
                of.take(edges.len() - k),
                DepKind::Build,
                EdgeDirection::Outgoing,
            ),
            dev_dependencies@ == neighbors(
                of.take(edges.len() - k),
                DepKind::Development,
                EdgeDirection::Outgoing,
            ),
            pending@.no_duplicates(),
            pending@.len() >= p0.len(),
            forall|j: int| 0 <= j < p0.len() ==> pending@[j] == #[trigger] p0[j],
            forall|j: int| p0.len() <= j < pending@.len() ==> !v0.contains(#[trigger] pending@[j]),
            forall|j: int| 0 <= j < pending@.len() ==> visited@.contains(#[trigger] pending@[j]),
            forall|p: PackageId| #[trigger]
                visited@.contains(p) ==> graph@.nodes.contains(p) && graph@.reaches(root, p),
            forall|p: PackageId| v0.contains(p) ==> #[trigger] visited@.contains(p),
            forall|p: PackageId| #[trigger]
                visited@.contains(p) ==> v0.contains(p) || pending@.contains(p),
            forall|m: int|
                0 <= m < edges.len() - k ==> visited@.contains((#[trigger] of[m]).to),
        decreases k,
    {
        k = k - 1;
        let edge = edges[k];
        let ghost pos = edges.len() - 1 - k;
        let ghost before_pending = pending@;
        let ghost before_visited = visited@;
        proof {
            let seen = of.take(pos + 1);
            assert(seen.drop_last() =~= of.take(pos));
            assert(seen.last() == edge);
            assert(of[pos] == edge);
            lemma_edges_at_sound(gv.edges, id, EdgeDirection::Outgoing, pos);
            assert(gv.edges.contains(of[pos]));
            let w = choose|w: int| 0 <= w < gv.edges.len() && gv.edges[w] == of[pos];
            assert(gv.edges[w].from == id && gv.edges[w].to == edge.to);
            assert(gv.depends(id, edge.to));
            gv.lemma_reaches_step(root, id, edge.to);
            assert(graph@.nodes.contains(edges@[k as int].from));
            assert(graph@.nodes.contains(edge.to));
        }
        if visited.insert(edge.to) {
            pending.push(edge.to);
            proof {
                assert forall|a: int, b: int|
                    0 <= a < pending@.len() && 0 <= b < pending@.len() && a != b implies pending@[a]
                    != pending@[b] by {
                    if a < before_pending.len() && b < before_pending.len() {
                        assert(before_pending[a] != before_pending[b]);
                    } else if a < before_pending.len() {
                        assert(before_visited.contains(before_pending[a]));
                    } else {
                        assert(before_visited.contains(before_pending[b]));
                    }
                }
                assert forall|p: PackageId| #[trigger] visited@.contains(p) implies v0.contains(p)
                    || pending@.contains(p) by {
                    if p == edge.to {
                        assert(pending@[before_pending.len() as int] == p);
                    } else {
                        assert(before_visited.contains(p));
                        if before_pending.contains(p) {
                            let j = choose|j: int|
                                0 <= j < before_pending.len() && before_pending[j] == p;
                            assert(pending@[j] == p);
                        }
                    }
                }
            }
        } else {
            assert(visited@ =~= before_visited);
        }
        match edge.kind {
            DepKind::Normal => dependencies.push(edge.to),
            DepKind::Build => build_dependencies.push(edge.to),
            DepKind::Development => dev_dependencies.push(edge.to),
        }
    }
    proof {
        assert(of.take(edges.len() as int) =~= of);
        assert forall|b: PackageId| #[trigger] gv.depends(id, b) implies visited@.contains(b) by {
            let w = choose|w: int|
                0 <= w < gv.edges.len() && (#[trigger] gv.edges[w]).from == id && gv.edges[w].to
                    == b;
            lemma_edges_at_complete(gv.edges, id, EdgeDirection::Outgoing, w);
            let m = choose|m: int| 0 <= m < of.len() && of[m] == gv.edges[w];
            assert(visited@.contains(of[m].to));
        }
    }
    PackageInfo { id, dependencies, dev_dependencies, build_dependencies }
}

/// The packages that the root reaches in the graph, each once, with what
/// it depends on and with its counters, where it has any.
pub fn package_metrics(
    pack_id_to_counters: &HashMap<PackageId, PackageCounters>,
    graph: &DependencyGraph,
    root_package_id: PackageId,
) -> (r: Vec<PackageMetrics>)
    requires
        graph.wf(),
        graph@.nodes.contains(root_package_id),
    ensures
        ids_of(r@).no_duplicates(),
        forall|p: PackageId| ids_of(r@).contains(p) <==> graph@.reaches(root_package_id, p),
        forall|k: int|
            0 <= k < r@.len() ==> is_info_of(graph@, (#[trigger] r@[k]).package) && is_metrics_of(
                pack_id_to_counters@,
                r@[k].package.id,
                r@[k].metrics,
            ),
{
    let ghost gv = graph@;
    let root = root_package_id;
    let mut out: Vec<PackageMetrics> = Vec::new();
    let mut visited: HashSet<PackageId> = HashSet::new();
    let mut pending: Vec<PackageId> = Vec::new();
    visited.insert(root);
    pending.push(root);
    proof {
        gv.lemma_reaches_itself(root);
        assert(pending@[0] == root);
        assert(ids_of(out@) =~= Seq::<PackageId>::empty());
    }
    while pending.len() > 0
        invariant
            graph.wf(),
            gv == graph@,
            visited@.contains(root),
            pending@.no_duplicates(),
            ids_of(out@).no_duplicates(),
            forall|p: PackageId| #[trigger]
                visited@.contains(p) ==> gv.nodes.contains(p) && gv.reaches(root, p),
            forall|k: int|
                0 <= k < pending@.len() ==> visited@.contains(#[trigger] pending@[k])
                    && !ids_of(out@).contains(pending@[k]),
            forall|k: int| 0 <= k < out@.len() ==> visited@.contains(#[trigger] ids_of(out@)[k]),
            forall|p: PackageId| #[trigger]
                visited@.contains(p) ==> ids_of(out@).contains(p) || pending@.contains(p),
            forall|a: PackageId, b: PackageId|
                ids_of(out@).contains(a) && #[trigger] gv.depends(a, b) ==> visited@.contains(b),
            forall|k: int|
                0 <= k < out@.len() ==> is_info_of(gv, (#[trigger] out@[k]).package)
                    && is_metrics_of(
                    pack_id_to_counters@,
                    out@[k].package.id,
                    out@[k].metrics,
                ),
        decreases gv.nodes.len() - out@.len(),
    {
        let ghost pending0 = pending@;
        let ghost out0 = out@;
        let ghost ids0 = ids_of(out@);
        let ghost visited0 = visited@;
        let id = pending.pop().unwrap();
        proof {
            let last = pending0.len() - 1;
            assert(pending0[last] == id);
            assert forall|k: int| 0 <= k < pending@.len() implies pending@[k] != id by {
                assert(pending0[k] != pending0[last]);
            }
        }
        let ghost pending1 = pending@;
        let info = package_info(graph, Ghost(root), id, &mut visited, &mut pending);
        let metrics = match pack_id_to_counters.get(&id) {
            Some(c) => Some(*c),
            None => None,
        };
        out.push(PackageMetrics { package: info, metrics });
        proof {
            let ids = ids_of(out@);
            assert(ids =~= ids0.push(id));
            assert forall|a: int, b: int|
                0 <= a < ids.len() && 0 <= b < ids.len() && a != b implies ids[a] != ids[b] by {
                if a < ids0.len() && b < ids0.len() {
                    assert(ids0[a] != ids0[b]);
                } else if a < ids0.len() {
                    assert(ids0.contains(ids0[a]));
                } else {
                    assert(ids0.contains(ids0[b]));
                }
            }
            assert forall|k: int| 0 <= k < ids.len() implies gv.nodes.contains(
                #[trigger] ids[k],
            ) by {
                if k < ids0.len() {
                    assert(visited0.contains(ids0[k]));
                }
            }
            lemma_distinct_len(ids, gv.nodes);
            assert forall|k: int| 0 <= k < pending@.len() implies visited@.contains(
                #[trigger] pending@[k],
            ) && !ids.contains(pending@[k]) by {
                let x = pending@[k];
                if ids.contains(x) {
                    let j = choose|j: int| 0 <= j < ids.len() && ids[j] == x;
                    if j < ids0.len() {
                        assert(ids0.contains(x));
                        assert(visited0.contains(ids0[j]));
                        if k < pending1.len() {
                            assert(pending@[k] == pending1[k]);
                            assert(pending1[k] == pending0[k]);
                            assert(!ids0.contains(pending0[k]));
                        }
                    } else {
                        assert(x == id);
                        assert(visited0.contains(id));
                        if k < pending1.len() {
                            assert(pending@[k] == pending1[k]);
                            assert(pending1[k] == pending0[k]);
                            assert(pending0[k] != pending0[pending0.len() - 1]);
                        }
                    }
                }
            }
            assert forall|k: int| 0 <= k < out@.len() implies visited@.contains(
                #[trigger] ids[k],
            ) by {
                if k < ids0.len() {
                    assert(visited0.contains(ids0[k]));
                }
            }
            assert forall|p: PackageId| #[trigger] visited@.contains(p) implies ids.contains(p)
                || pending@.contains(p) by {
                if visited0.contains(p) {
                    if ids0.contains(p) {
                        let j = choose|j: int| 0 <= j < ids0.len() && ids0[j] == p;
                        assert(ids[j] == p);
                    } else if p == id {
                        assert(ids[ids0.len() as int] == p);
                    } else {
                        assert(pending0.contains(p));
                        let j = choose|j: int| 0 <= j < pending0.len() && pending0[j] == p;
                        assert(j < pending0.len() - 1);
                        assert(pending1[j] == pending0[j]);
                        assert(pending@[j] == pending1[j]);
                    }
                }
            }
            assert forall|a: PackageId, b: PackageId|
                ids.contains(a) && #[trigger] gv.depends(a, b) implies visited@.contains(b) by {
                let j = choose|j: int| 0 <= j < ids.len() && ids[j] == a;
                if j < ids0.len() {
                    assert(ids0.contains(a));
                    assert(visited0.contains(b));
                }
            }
            assert forall|k: int| 0 <= k < out@.len() implies is_info_of(
                gv,
                (#[trigger] out@[k]).package,
            ) && is_metrics_of(pack_id_to_counters@, out@[k].package.id, out@[k].metrics) by {
                if k < out0.len() {
                    assert(out@[k] == out0[k]);
                }
            }
        }
    }
    proof {
        let ids = ids_of(out@);
        assert forall|p: PackageId| ids.contains(p) <==> gv.reaches(root, p) by {
            if ids.contains(p) {
                let j = choose|j: int| 0 <= j < ids.len() && ids[j] == p;
                assert(visited@.contains(ids[j]));
            }
            if gv.reaches(root, p) {
                let path = choose|path: Seq<PackageId>| #[trigger]
                    gv.is_path(path) && path[0] == root && path.last() == p;
                assert(ids.contains(root));
                assert forall|a: PackageId, b: PackageId|
                    ids.contains(a) && #[trigger] gv.depends(a, b) implies ids.contains(b) by {
                    assert(visited@.contains(b));
                }
                lemma_closed_reaches(gv, ids, path, path.len() - 1);
            }
        }
    }
    out
}

/// What the report of an audit says: each package that the root reaches is
/// either among the packages, with its counters, or among the packages
/// without counters; and the files that were not scanned are those of the
/// build whose counter is 0.
pub open spec fn is_report_of(
    report: SafetyReport,
    gv: GraphView,
    root: PackageId,
    ctx: GeigerContext,
) -> bool {
    &&& forall|p: PackageId|
        report.packages@.contains_key(p) <==> gv.reaches(root, p)
            && ctx.pack_id_to_counters@.contains_key(p)
    &&& forall|p: PackageId| #[trigger]
        report.packages@.contains_key(p) ==> report.packages@[p].package.id == p && is_info_of(
            gv,
            report.packages@[p].package,
        ) && report.packages@[p].unsafety == ctx.pack_id_to_counters@[p]
    &&& forall|p: PackageId|
        report.packages_without_metrics@.contains(p) <==> gv.reaches(root, p)
            && !ctx.pack_id_to_counters@.contains_key(p)
    &&& path_views(report.used_but_not_scanned_files@).no_duplicates()
    &&& forall|path: Seq<char>|
        path_views(report.used_but_not_scanned_files@).contains(path)
            <==> ctx.rs_files_used.count(path) == Some(0nat)
}

/// Builds the report from the graph and from what the scans gave.
pub fn scan_to_report(
    graph: &DependencyGraph,
    root_package_id: PackageId,
    geiger_context: &GeigerContext,
) -> (report: SafetyReport)
    requires
        graph.wf(),
        graph@.nodes.contains(root_package_id),
        geiger_context.rs_files_used.wf(),
    ensures
        is_report_of(report, graph@, root_package_id, *geiger_context),
{
    let ghost gv = graph@;
    let ghost counters = geiger_context.pack_id_to_counters@;
    let mut list = package_metrics(&geiger_context.pack_id_to_counters, graph, root_package_id);
    let ghost all = list@;
    let ghost ids = ids_of(all);
    let mut packages: HashMap<PackageId, ReportEntry> = HashMap::new();
    let mut packages_without_metrics: HashSet<PackageId> = HashSet::new();
    while list.len() > 0
        invariant
            list@.len() <= all.len(),
            list@ == all.take(list@.len() as int),
            ids == ids_of(all),
            ids.no_duplicates(),
            forall|k: int|
                0 <= k < all.len() ==> is_info_of(gv, (#[trigger] all[k]).package)
                    && is_metrics_of(counters, all[k].package.id, all[k].metrics),
            forall|p: PackageId|
                packages@.contains_key(p) <==> exists|k: int|
                    list@.len() <= k < all.len() && #[trigger] ids[k] == p && counters.contains_key(
                        p,
                    ),
            forall|p: PackageId| #[trigger]
                packages@.contains_key(p) ==> packages@[p].package.id == p && is_info_of(
                    gv,
                    packages@[p].package,
                ) && packages@[p].unsafety == counters[p],
            forall|p: PackageId|
                packages_without_metrics@.contains(p) <==> exists|k: int|
                    list@.len() <= k < all.len() && #[trigger] ids[k] == p
                        && !counters.contains_key(p),
        decreases list.len(),
    {
        let ghost n = list@.len() - 1;
        let ghost packages0 = packages@;
        let ghost without0 = packages_without_metrics@;
        let entry = list.pop().unwrap();
        proof {
            assert(entry == all[n]);
            assert(ids[n] == entry.package.id);
            assert(list@ =~= all.take(n));
        }
        let id = entry.package.id;
        match entry.metrics {
            None => {
                packages_without_metrics.insert(id);
                proof {
                    assert forall|p: PackageId|
                        packages_without_metrics@.contains(p) <==> exists|k: int|
                            n <= k < all.len() && #[trigger] ids[k] == p && !counters.contains_key(
                                p,
                            ) by {
                        if without0.contains(p) {
                            let k = choose|k: int|
                                n + 1 <= k < all.len() && #[trigger] ids[k] == p
                                    && !counters.contains_key(p);
                            assert(n <= k < all.len() && ids[k] == p);
                        }
                        if p == id {
                            assert(ids[n] == p);
                        }
                    }
                    assert forall|p: PackageId|
                        packages@.contains_key(p) <==> exists|k: int|
                            n <= k < all.len() && #[trigger] ids[k] == p && counters.contains_key(
                                p,
                            ) by {
                        if packages0.contains_key(p) {
                            let k = choose|k: int|
                                n + 1 <= k < all.len() && #[trigger] ids[k] == p
                                    && counters.contains_key(p);
                            assert(n <= k < all.len() && ids[k] == p);
                        }
                    }
                }
            },
            Some(unsafety) => {
                packages.insert(id, ReportEntry { package: entry.package, unsafety });
                proof {
                    assert forall|p: PackageId|
                        packages@.contains_key(p) <==> exists|k: int|
                            n <= k < all.len() && #[trigger] ids[k] == p && counters.contains_key(
                                p,
                            ) by {
                        if packages0.contains_key(p) {
                            let k = choose|k: int|
                                n + 1 <= k < all.len() && #[trigger] ids[k] == p
                                    && counters.contains_key(p);
                            assert(n <= k < all.len() && ids[k] == p);
                        }
                        if p == id {
                            assert(ids[n] == p);
                        }
                    }
                    assert forall|p: PackageId|
                        packages_without_metrics@.contains(p) <==> exists|k: int|
                            n <= k < all.len() && #[trigger] ids[k] == p && !counters.contains_key(
                                p,
                            ) by {
                        if without0.contains(p) {
                            let k = choose|k: int|
                                n + 1 <= k < all.len() && #[trigger] ids[k] == p
                                    && !counters.contains_key(p);
                            assert(n <= k < all.len() && ids[k] == p);
                        }
                    }
                }
            },
        }
    }
    let used_but_not_scanned_files = geiger_context.rs_files_used.unscanned();
    let report = SafetyReport { packages, packages_without_metrics, used_but_not_scanned_files };
    proof {
        assert forall|p: PackageId|
            report.packages@.contains_key(p) <==> gv.reaches(root_package_id, p)
                && counters.contains_key(p) by {
            if report.packages@.contains_key(p) {
                let k = choose|k: int|
                    0 <= k < all.len() && #[trigger] ids[k] == p && counters.contains_key(p);
                assert(ids.contains(p));
            }
            if gv.reaches(root_package_id, p) && counters.contains_key(p) {
                assert(ids.contains(p));
                let k = choose|k: int| 0 <= k < ids.len() && ids[k] == p;
                assert(0 <= k < all.len() && ids[k] == p);
            }
        }
        assert forall|p: PackageId|
            report.packages_without_metrics@.contains(p) <==> gv.reaches(root_package_id, p)
                && !counters.contains_key(p) by {
            if report.packages_without_metrics@.contains(p) {
                let k = choose|k: int|
                    0 <= k < all.len() && #[trigger] ids[k] == p && !counters.contains_key(p);
                assert(ids.contains(p));
            }
            if gv.reaches(root_package_id, p) && !counters.contains_key(p) {
                assert(ids.contains(p));
                let k = choose|k: int| 0 <= k < ids.len() && ids[k] == p;
                assert(0 <= k < all.len() && ids[k] == p);
            }
        }
    }
    report
}

/// A package of the graph of which no file was scanned is not among the
/// packages of the report, and is among its packages without counters.
pub proof fn lemma_package_without_files(
    report: SafetyReport,
    gv: GraphView,
    root: PackageId,
    ctx: GeigerContext,
    files: Seq<ScannedFile>,
    used: BuildUsedSet,
    package: PackageId,
)
    requires
        is_report_of(report, gv, root, ctx),
        is_context_of(ctx, files, used),
        gv.reaches(root, package),
        !has_counters(files, files.len() as int, package),
    ensures
        !report.packages@.contains_key(package),
        report.packages_without_metrics@.contains(package),
{
}

} // verus!
