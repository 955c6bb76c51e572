//! Walking the dependency graph as a tree.

use crate::graph::{DepEdge, DependencyGraph, EdgeDirection, GraphView};
use crate::package::{DepKind, PackageId};
use crate::tree::{
    construct_tree_vines_string, get_tree_symbols, indent, lines_view, push_indent, sort_ids,
    sorted_ids, tree_symbols, tree_vines, LineView, Prefix, PrintConfig, TextTreeLine,
};
use std::collections::HashSet;
use vstd::prelude::*;
use vstd::set_lib::lemma_len_subset;

verus! {

broadcast use vstd::std_specs::hash::group_hash_axioms;

/// The packages at the other end of those of `edges` that have the given
/// kind, in the order of `edges`.
pub open spec fn neighbors(edges: Seq<DepEdge>, kind: DepKind, dir: EdgeDirection) -> Seq<
    PackageId,
>
    decreases edges.len(),
{
    if edges.len() == 0 {
        Seq::empty()
    } else {
        let rest = neighbors(edges.drop_last(), kind, dir);
        let e = edges.last();
        if e.kind == kind {
            rest.push(
                match dir {
                    EdgeDirection::Outgoing => e.to,
                    EdgeDirection::Incoming => e.from,
                },
            )
        } else {
            rest
        }
    }
}

/// The packages that stand below `id` in one group of the tree: those that
/// an edge of the given kind joins to `id` in the given direction, in
/// ascending order, one for each edge.
pub open spec fn children(gv: GraphView, id: PackageId, kind: DepKind, dir: EdgeDirection) -> Seq<
    PackageId,
> {
    sorted_ids(neighbors(gv.edges_of(id, dir), kind, dir))
}

/// The number of packages of the graph that are not in `visited`.
pub open spec fn unvisited(gv: GraphView, visited: Set<PackageId>) -> nat {
    gv.nodes.to_set().difference(visited).len()
}

/// The heading of a group: none for the normal dependencies, and none
/// unless the tree is drawn with its lines.
pub open spec fn group_header(kind: DepKind, levels: Seq<bool>, pc: PrintConfig) -> Seq<LineView> {
    if pc.prefix == Prefix::Indent && kind != DepKind::Normal {
        seq![
            LineView::ExtraDepsGroup {
                kind,
                tree_vines: indent(levels, tree_symbols(pc.charset).down@),
            },
        ]
    } else {
        Seq::empty()
    }
}

/// The packages at which the walk goes no deeper. Where each package is
/// expanded once, they are the packages seen before. Where every
/// occurrence is shown (`pc.all`), what was seen before does not count:
/// they are the packages on the path from the root to the package at hand,
/// so that only a cycle ends the walk.
pub open spec fn stops(pc: PrintConfig, visited: Set<PackageId>, path: Set<PackageId>) -> Set<
    PackageId,
> {
    if pc.all {
        path
    } else {
        visited
    }
}

/// The lines of the package `id` and of what stands below it, and the
/// packages that were seen afterwards. `visited` holds the packages seen
/// before, `path` those that stand above `id` in the tree.
///
/// A package at which the walk stops is a single line. Any other is
/// followed by its groups: normal, build, development. Where each package
/// is expanded once, the package counts as seen from then on. Where every
/// occurrence is shown, nothing is added to the packages seen, and the
/// package stands on the path of all that is below it. `fuel` bounds the
/// depth, and is enough when it is not less than the number of packages
/// at which the walk does not stop.
pub open spec fn walk_node(
    gv: GraphView,
    pc: PrintConfig,
    id: PackageId,
    visited: Set<PackageId>,
    path: Set<PackageId>,
    levels: Seq<bool>,
    fuel: nat,
) -> (Seq<LineView>, Set<PackageId>)
    decreases fuel, 0nat, 0nat,
{
    let line = LineView::Package {
        id,
        tree_vines: tree_vines(levels, pc.prefix, tree_symbols(pc.charset)),
    };
    if stops(pc, visited, path).contains(id) || fuel == 0 {
        (seq![line], visited)
    } else {
        let below = (fuel - 1) as nat;
        let seen = if pc.all {
            visited
        } else {
            visited.insert(id)
        };
        let inner = if pc.all {
            path.insert(id)
        } else {
            path
        };
        let normal = walk_kind(
            gv,
            pc,
            DepKind::Normal,
            children(gv, id, DepKind::Normal, pc.direction),
            seen,
            inner,
            levels,
            below,
        );
        let build = walk_kind(
            gv,
            pc,
            DepKind::Build,
            children(gv, id, DepKind::Build, pc.direction),
            normal.1,
            inner,
            levels,
            below,
        );
        let development = walk_kind(
            gv,
            pc,
            DepKind::Development,
            children(gv, id, DepKind::Development, pc.direction),
            build.1,
            inner,
            levels,
            below,
        );
        (seq![line] + normal.0 + build.0 + development.0, development.1)
    }
}

/// The lines of one group of dependencies: nothing for an empty group;
/// else the heading, if the group has one, and the packages one after the
/// other.
pub open spec fn walk_kind(
    gv: GraphView,
    pc: PrintConfig,
    kind: DepKind,
    deps: Seq<PackageId>,
    visited: Set<PackageId>,
    path: Set<PackageId>,
    levels: Seq<bool>,
    fuel: nat,
) -> (Seq<LineView>, Set<PackageId>)
    decreases fuel, 2nat, 0nat,
{
    if deps.len() == 0 {
        (Seq::empty(), visited)
    } else {
        let rest = walk_deps(gv, pc, deps, 0, visited, path, levels, fuel);
        (group_header(kind, levels, pc) + rest.0, rest.1)
    }
}

/// The lines of the packages of a group from the `i`-th on. Each package
/// is one level deeper; its level goes on where another package follows.
pub open spec fn walk_deps(
    gv: GraphView,
    pc: PrintConfig,
    deps: Seq<PackageId>,
    i: int,
    visited: Set<PackageId>,
    path: Set<PackageId>,
    levels: Seq<bool>,
    fuel: nat,
) -> (Seq<LineView>, Set<PackageId>)
    decreases fuel, 1nat, deps.len() - i,
{
    if i < 0 || i >= deps.len() {
        (Seq::empty(), visited)
    } else {
        let first = walk_node(
            gv,
            pc,
            deps[i],
            visited,
            path,
            levels.push(i + 1 < deps.len()),
            fuel,
        );
        let rest = walk_deps(gv, pc, deps, i + 1, first.1, path, levels, fuel);
        (first.0 + rest.0, rest.1)
    }
}

/// The lines of the tree below `root`: the walk that has seen no package
/// and starts with an empty path.
pub open spec fn walk_tree(gv: GraphView, pc: PrintConfig, root: PackageId) -> Seq<LineView> {
    walk_node(gv, pc, root, Set::empty(), Set::empty(), Seq::empty(), gv.nodes.len()).0
}

proof fn lemma_unvisited_insert(gv: GraphView, visited: Set<PackageId>, id: PackageId)
    requires
        gv.nodes.contains(id),
        !visited.contains(id),
    ensures
        unvisited(gv, visited) > 0,
        unvisited(gv, visited.insert(id)) == unvisited(gv, visited) - 1,
{
    broadcast use vstd::set::group_set_axioms;

    let all = gv.nodes.to_set();
    vstd::seq_lib::seq_to_set_is_finite(gv.nodes);
    assert(all.contains(id));
    assert(all.difference(visited).contains(id));
    assert(all.difference(visited.insert(id)) =~= all.difference(visited).remove(id));
}

proof fn lemma_unvisited_subset(gv: GraphView, visited: Set<PackageId>, more: Set<PackageId>)
    requires
        visited.subset_of(more),
    ensures
        unvisited(gv, more) <= unvisited(gv, visited),
{
    broadcast use vstd::set::group_set_axioms;

    let all = gv.nodes.to_set();
    vstd::seq_lib::seq_to_set_is_finite(gv.nodes);
    lemma_len_subset(all.difference(more), all.difference(visited));
}

proof fn lemma_lines_view_add(a: Seq<TextTreeLine>, b: Seq<TextTreeLine>)
    ensures
        lines_view(a + b) == lines_view(a) + lines_view(b),
{
    assert(lines_view(a + b) =~= lines_view(a) + lines_view(b));
}

/// The graph has at least as many packages as the walk can still go into.
proof fn lemma_fuel_of_graph(gv: GraphView, stops: Set<PackageId>)
    ensures
        gv.nodes.len() >= unvisited(gv, stops),
{
    broadcast use vstd::set::group_set_axioms;

    lemma_unvisited_subset(gv, Set::empty(), stops);
    gv.nodes.lemma_cardinality_of_set();
    assert(gv.nodes.to_set().difference(Set::<PackageId>::empty()) =~= gv.nodes.to_set());
}

/// The lines of the tree of the packages that `root_pack_id` reaches over
/// the edges of the graph, in the direction that the configuration names.
pub fn walk_dependency_tree(
    root_pack_id: PackageId,
    graph: &DependencyGraph,
    print_config: &PrintConfig,
) -> (r: Vec<TextTreeLine>)
    requires
        graph.wf(),
        graph@.nodes.contains(root_pack_id),
    ensures
        lines_view(r@) == walk_tree(graph@, *print_config, root_pack_id),
{
    let mut visited_deps: HashSet<PackageId> = HashSet::new();
    let mut levels_continue: Vec<bool> = Vec::new();
    walk_dependency_node(root_pack_id, graph, &mut visited_deps, &mut levels_continue, print_config)
}

/// The lines of one group of packages that stand at the top of a walk:
/// the heading, if the group has one, and each package with what stands
/// below it. The group is sorted first, and stays sorted. `visited_deps`
/// holds the packages seen before, and `levels_continue` says, for each
/// level above the group, whether more packages follow on it.
pub fn walk_dependency_kind(
    kind: DepKind,
    deps: &mut Vec<PackageId>,
    graph: &DependencyGraph,
    visited_deps: &mut HashSet<PackageId>,
    levels_continue: &mut Vec<bool>,
    print_config: &PrintConfig,
) -> (r: Vec<TextTreeLine>)
    requires
        graph.wf(),
        forall|k: int| 0 <= k < old(deps)@.len() ==> graph@.nodes.contains(#[trigger] old(deps)@[k]),
    ensures
        (lines_view(r@), final(visited_deps)@) == walk_kind(
            graph@,
            *print_config,
            kind,
            sorted_ids(old(deps)@),
            old(visited_deps)@,
            Set::empty(),
            old(levels_continue)@,
            graph@.nodes.len(),
        ),
        final(deps)@ == sorted_ids(old(deps)@),
        final(levels_continue)@ == old(levels_continue)@,
{
    let mut path: HashSet<PackageId> = HashSet::new();
    proof {
        lemma_fuel_of_graph(graph@, stops(*print_config, visited_deps@, path@));
    }
    walk_kind_on_path(
        kind,
        deps,
        graph,
        visited_deps,
        &mut path,
        levels_continue,
        print_config,
        Ghost(graph@.nodes.len()),
    )
}

/// The line of a package that stands at the top of a walk, and the lines
/// of what stands below it. `visited_deps` holds the packages seen before,
/// and `levels_continue` says, for each level down to the package,
/// whether more packages follow on it.
pub fn walk_dependency_node(
    package: PackageId,
    graph: &DependencyGraph,
    visited_deps: &mut HashSet<PackageId>,
    levels_continue: &mut Vec<bool>,
    print_config: &PrintConfig,
) -> (r: Vec<TextTreeLine>)
    requires
        graph.wf(),
        graph@.nodes.contains(package),
    ensures
        (lines_view(r@), final(visited_deps)@) == walk_node(
            graph@,
            *print_config,
            package,
            old(visited_deps)@,
            Set::empty(),
            old(levels_continue)@,
            graph@.nodes.len(),
        ),
        final(levels_continue)@ == old(levels_continue)@,
{
    let mut path: HashSet<PackageId> = HashSet::new();
    proof {
        lemma_fuel_of_graph(graph@, stops(*print_config, visited_deps@, path@));
    }
    walk_node_on_path(
        package,
        graph,
        visited_deps,
        &mut path,
        levels_continue,
        print_config,
        Ghost(graph@.nodes.len()),
    )
}

/// The lines of one group below a package whose path is `path`. Sorts the
/// group first.
fn walk_kind_on_path(
    kind: DepKind,
    deps: &mut Vec<PackageId>,
    graph: &DependencyGraph,
    visited_deps: &mut HashSet<PackageId>,
    path: &mut HashSet<PackageId>,
    levels_continue: &mut Vec<bool>,
    print_config: &PrintConfig,
    Ghost(fuel): Ghost<nat>,
) -> (r: Vec<TextTreeLine>)
    requires
        graph.wf(),
        forall|k: int| 0 <= k < old(deps)@.len() ==> graph@.nodes.contains(#[trigger] old(deps)@[k]),
        fuel >= unvisited(graph@, stops(*print_config, old(visited_deps)@, old(path)@)),
    ensures
        (lines_view(r@), final(visited_deps)@) == walk_kind(
            graph@,
            *print_config,
            kind,
            sorted_ids(old(deps)@),
            old(visited_deps)@,
            old(path)@,
            old(levels_continue)@,
            fuel,
        ),
        final(deps)@ == sorted_ids(old(deps)@),
        final(path)@ == old(path)@,
        final(levels_continue)@ == old(levels_continue)@,
        old(visited_deps)@.subset_of(final(visited_deps)@),
    decreases fuel, 2nat, 0nat,
{
    let mut output: Vec<TextTreeLine> = Vec::new();
    let ghost sorted = sorted_ids(deps@);
    let ghost v0 = visited_deps@;
    let ghost p0 = path@;
    let ghost levels0 = levels_continue@;
    proof {
        crate::tree::lemma_sorted_ids(deps@, deps@);
        assert(sorted.len() == deps@.len());
        assert(lines_view(output@) =~= Seq::<LineView>::empty());
    }
    if deps.len() == 0 {
        assert(deps@ =~= sorted);
        return output;
    }
    proof {
        assert forall|k: int| 0 <= k < sorted.len() implies graph@.nodes.contains(
            #[trigger] sorted[k],
        ) by {
            assert(sorted.contains(sorted[k]));
            assert(deps@.contains(sorted[k]));
            let m = choose|m: int| 0 <= m < deps@.len() && deps@[m] == sorted[k];
            assert(graph@.nodes.contains(deps@[m]));
        }
    }
    sort_ids(deps);

    if let Prefix::Indent = print_config.prefix {
        match kind {
            DepKind::Normal => {},
            _ => {
                let tree_symbols = get_tree_symbols(print_config.charset);
                let mut tree_vines = String::new();
                push_indent(
                    &mut tree_vines,
                    levels_continue,
                    levels_continue.len(),
                    tree_symbols.down,
                );
                assert(levels_continue@.take(levels_continue.len() as int) =~= levels_continue@);
                output.push(TextTreeLine::ExtraDepsGroup { kind, tree_vines });
            },
        }
    }
    let ghost header = group_header(kind, levels0, *print_config);
    assert(lines_view(output@) =~= header);

    let n = deps.len();
    let mut i: usize = 0;
    while i < n
        invariant
            graph.wf(),
            deps@ == sorted,
            n == deps.len(),
            i <= n,
            forall|k: int| 0 <= k < sorted.len() ==> graph@.nodes.contains(#[trigger] sorted[k]),
            levels_continue@ == levels0,
            path@ == p0,
            v0.subset_of(visited_deps@),
            fuel >= unvisited(graph@, stops(*print_config, v0, p0)),
            header + walk_deps(graph@, *print_config, sorted, 0, v0, p0, levels0, fuel).0
                == lines_view(output@) + walk_deps(
                graph@,
                *print_config,
                sorted,
                i as int,
                visited_deps@,
                p0,
                levels0,
                fuel,
            ).0,
            walk_deps(graph@, *print_config, sorted, 0, v0, p0, levels0, fuel).1 == walk_deps(
                graph@,
                *print_config,
                sorted,
                i as int,
                visited_deps@,
                p0,
                levels0,
                fuel,
            ).1,
        decreases n - i,
    {
        let ghost before = output@;
        let ghost v = visited_deps@;
        levels_continue.push(i + 1 < n);
        proof {
            lemma_unvisited_subset(
                graph@,
                stops(*print_config, v0, p0),
                stops(*print_config, v, p0),
            );
        }
        let mut lines = walk_node_on_path(
            deps[i],
            graph,
            visited_deps,
            path,
            levels_continue,
            print_config,
            Ghost(fuel),
        );
        let ghost first = lines@;
        output.append(&mut lines);
        levels_continue.pop();
        proof {
            assert(levels_continue@ =~= levels0);
            lemma_lines_view_add(before, first);
            let rest = walk_deps(
                graph@,
                *print_config,
                sorted,
                i + 1,
                visited_deps@,
                p0,
                levels0,
                fuel,
            );
            assert(lines_view(before) + (lines_view(first) + rest.0) =~= lines_view(output@)
                + rest.0);
        }
        i = i + 1;
    }
    output
}

/// The line of a package below the packages of `path`, and the lines of
/// what stands below it.
fn walk_node_on_path(
    id: PackageId,
    graph: &DependencyGraph,
    visited_deps: &mut HashSet<PackageId>,
    path: &mut HashSet<PackageId>,
    levels_continue: &mut Vec<bool>,
    print_config: &PrintConfig,
    Ghost(fuel): Ghost<nat>,
) -> (r: Vec<TextTreeLine>)
    requires
        graph.wf(),
        graph@.nodes.contains(id),
        fuel >= unvisited(graph@, stops(*print_config, old(visited_deps)@, old(path)@)),
    ensures
        (lines_view(r@), final(visited_deps)@) == walk_node(
            graph@,
            *print_config,
            id,
            old(visited_deps)@,
            old(path)@,
            old(levels_continue)@,
            fuel,
        ),
        final(path)@ == old(path)@,
        final(levels_continue)@ == old(levels_continue)@,
        old(visited_deps)@.subset_of(final(visited_deps)@),
    decreases fuel, 0nat, 0nat,
{
    let ghost v0 = visited_deps@;
    let ghost p0 = path@;
    let ghost stops0 = stops(*print_config, v0, p0);
    let ghost levels0 = levels_continue@;
    let tree_vines = construct_tree_vines_string(levels_continue, print_config);
    let mut all_out: Vec<TextTreeLine> = Vec::new();
    all_out.push(TextTreeLine::Package { id, tree_vines });
    let ghost line = all_out@;
    assert(lines_view(line) =~= seq![
        LineView::Package {
            id,
            tree_vines: crate::tree::tree_vines(
                levels0,
                print_config.prefix,
                tree_symbols(print_config.charset),
            ),
        },
    ]);

    // What was seen before counts only where each package is expanded once;
    // else the walk stops only at a package that stands on its own path.
    let new = if print_config.all {
        path.insert(id)
    } else {
        visited_deps.insert(id)
    };
    if !new {
        assert(visited_deps@ =~= v0);
        assert(path@ =~= p0);
        return all_out;
    }
    let ghost v1 = visited_deps@;
    let ghost p1 = path@;
    let ghost stops1 = stops(*print_config, v1, p1);
    proof {
        lemma_unvisited_insert(graph@, stops0, id);
        assert(stops1 =~= stops0.insert(id));
    }
    let ghost below = (fuel - 1) as nat;

    let mut normal: Vec<PackageId> = Vec::new();
    let mut build: Vec<PackageId> = Vec::new();
    let mut development: Vec<PackageId> = Vec::new();
    let edges = graph.edges_directed(id, print_config.direction);
    let ghost of = graph@.edges_of(id, print_config.direction);
    let mut k: usize = edges.len();
    assert(of.take(0) =~= Seq::<DepEdge>::empty());
    while k > 0
        invariant
            k <= edges.len(),
            edges@ == of.reverse(),
            forall|m: int|
                0 <= m < edges@.len() ==> graph@.nodes.contains(#[trigger] edges@[m].from)
                    && graph@.nodes.contains(edges@[m].to),
            normal@ == neighbors(of.take(edges.len() - k), DepKind::Normal, print_config.direction),
            build@ == neighbors(of.take(edges.len() - k), DepKind::Build, print_config.direction),
            development@ == neighbors(
                of.take(edges.len() - k),
                DepKind::Development,
                print_config.direction,
            ),
            forall|m: int| 0 <= m < normal@.len() ==> graph@.nodes.contains(#[trigger] normal@[m]),
            forall|m: int| 0 <= m < build@.len() ==> graph@.nodes.contains(#[trigger] build@[m]),
            forall|m: int|
                0 <= m < development@.len() ==> graph@.nodes.contains(#[trigger] development@[m]),
        decreases k,
    {
        k = k - 1;
        let edge = edges[k];
        let dep = match print_config.direction {
            EdgeDirection::Incoming => edge.from,
            EdgeDirection::Outgoing => edge.to,
        };
        proof {
            let seen = of.take(edges.len() - k);
            assert(seen.drop_last() =~= of.take(edges.len() - k - 1));
            assert(seen.last() == edge);
            assert(graph@.nodes.contains(edges@[k as int].from));
        }
        match edge.kind {
            DepKind::Normal => normal.push(dep),
            DepKind::Build => build.push(dep),
            DepKind::Development => development.push(dep),
        }
    }
    assert(of.take(edges.len() as int) =~= of);

    let mut normal_out = walk_kind_on_path(
        DepKind::Normal,
        &mut normal,
        graph,
        visited_deps,
        path,
        levels_continue,
        print_config,
        Ghost(below),
    );
    let ghost out1 = all_out@;
    let ghost lines1 = normal_out@;
    let ghost v2 = visited_deps@;
    all_out.append(&mut normal_out);
    proof {
        lemma_unvisited_subset(graph@, stops1, stops(*print_config, v2, p1));
    }
    let mut build_out = walk_kind_on_path(
        DepKind::Build,
        &mut build,
        graph,
        visited_deps,
        path,
        levels_continue,
        print_config,
        Ghost(below),
    );
    let ghost out2 = all_out@;
    let ghost lines2 = build_out@;
    let ghost v3 = visited_deps@;
    all_out.append(&mut build_out);
    proof {
        lemma_unvisited_subset(graph@, stops1, stops(*print_config, v3, p1));
    }
    let mut development_out = walk_kind_on_path(
        DepKind::Development,
        &mut development,
        graph,
        visited_deps,
        path,
        levels_continue,
        print_config,
        Ghost(below),
    );
    let ghost out3 = all_out@;
    let ghost lines3 = development_out@;
    all_out.append(&mut development_out);
    proof {
        lemma_lines_view_add(out1, lines1);
        lemma_lines_view_add(out2, lines2);
        lemma_lines_view_add(out3, lines3);
    }
    if print_config.all {
        path.remove(&id);
        assert(path@ =~= p0);
    }
    all_out
}

/// The packages of a group stand in ascending order of their identities,
/// and the group is the same for every order in which the edges to them
/// were found.
pub proof fn lemma_siblings_sorted(
    a: GraphView,
    b: GraphView,
    id: PackageId,
    kind: DepKind,
    dir: EdgeDirection,
)
    requires
        neighbors(a.edges_of(id, dir), kind, dir).to_multiset() == neighbors(
            b.edges_of(id, dir),
            kind,
            dir,
        ).to_multiset(),
    ensures
        children(a, id, kind, dir) == children(b, id, kind, dir),
        forall|i: int, j: int|
            0 <= i <= j < children(a, id, kind, dir).len() ==> children(a, id, kind, dir)[i]
                <= children(a, id, kind, dir)[j],
{
    crate::tree::lemma_sorted_ids(
        neighbors(a.edges_of(id, dir), kind, dir),
        neighbors(b.edges_of(id, dir), kind, dir),
    );
}

/// Where each package is expanded once, a package that was seen before
/// is one line, with nothing below it, and the packages seen stay as they
/// are.
pub proof fn lemma_marked_is_leaf(
    gv: GraphView,
    pc: PrintConfig,
    id: PackageId,
    visited: Set<PackageId>,
    path: Set<PackageId>,
    levels: Seq<bool>,
    fuel: nat,
)
    requires
        !pc.all,
        visited.contains(id),
    ensures
        walk_node(gv, pc, id, visited, path, levels, fuel) == (
            seq![
                LineView::Package {
                    id,
                    tree_vines: tree_vines(levels, pc.prefix, tree_symbols(pc.charset)),
                },
            ],
            visited,
        ),
{
}

/// Where every occurrence is shown, a package is one line, with nothing
/// below it, where it stands on its own path: the walk ends where a cycle
/// closes.
pub proof fn lemma_on_path_is_leaf(
    gv: GraphView,
    pc: PrintConfig,
    id: PackageId,
    visited: Set<PackageId>,
    path: Set<PackageId>,
    levels: Seq<bool>,
    fuel: nat,
)
    requires
        pc.all,
        path.contains(id),
    ensures
        walk_node(gv, pc, id, visited, path, levels, fuel) == (
            seq![
                LineView::Package {
                    id,
                    tree_vines: tree_vines(levels, pc.prefix, tree_symbols(pc.charset)),
                },
            ],
            visited,
        ),
{
}

/// Where each package is expanded once, the walk keeps every package
/// seen and, given fuel, has seen the package that it walks: when the walk
/// comes to the package again, the package is a single line.
pub proof fn lemma_once_marks(
    gv: GraphView,
    pc: PrintConfig,
    id: PackageId,
    visited: Set<PackageId>,
    path: Set<PackageId>,
    levels: Seq<bool>,
    fuel: nat,
)
    requires
        !pc.all,
    ensures
        visited.subset_of(walk_node(gv, pc, id, visited, path, levels, fuel).1),
        fuel > 0 ==> walk_node(gv, pc, id, visited, path, levels, fuel).1.contains(id),
    decreases fuel, 0nat, 0nat,
{
    if !visited.contains(id) && fuel > 0 {
        let below = (fuel - 1) as nat;
        let v0 = visited.insert(id);
        let d = pc.direction;
        let normal = walk_kind(
            gv,
            pc,
            DepKind::Normal,
            children(gv, id, DepKind::Normal, d),
            v0,
            path,
            levels,
            below,
        );
        lemma_once_marks_kind(
            gv,
            pc,
            DepKind::Normal,
            children(gv, id, DepKind::Normal, d),
            v0,
            path,
            levels,
            below,
        );
        let build = walk_kind(
            gv,
            pc,
            DepKind::Build,
            children(gv, id, DepKind::Build, d),
            normal.1,
            path,
            levels,
            below,
        );
        lemma_once_marks_kind(
            gv,
            pc,
            DepKind::Build,
            children(gv, id, DepKind::Build, d),
            normal.1,
            path,
            levels,
            below,
        );
        lemma_once_marks_kind(
            gv,
            pc,
            DepKind::Development,
            children(gv, id, DepKind::Development, d),
            build.1,
            path,
            levels,
            below,
        );
    }
}

proof fn lemma_once_marks_kind(
    gv: GraphView,
    pc: PrintConfig,
    kind: DepKind,
    deps: Seq<PackageId>,
    visited: Set<PackageId>,
    path: Set<PackageId>,
    levels: Seq<bool>,
    fuel: nat,
)
    requires
        !pc.all,
    ensures
        visited.subset_of(walk_kind(gv, pc, kind, deps, visited, path, levels, fuel).1),
    decreases fuel, 2nat, 0nat,
{
    if deps.len() > 0 {
        lemma_once_marks_deps(gv, pc, deps, 0, visited, path, levels, fuel);
    }
}

proof fn lemma_once_marks_deps(
    gv: GraphView,
    pc: PrintConfig,
    deps: Seq<PackageId>,
    i: int,
    visited: Set<PackageId>,
    path: Set<PackageId>,
    levels: Seq<bool>,
    fuel: nat,
)
    requires
        !pc.all,
    ensures
        visited.subset_of(walk_deps(gv, pc, deps, i, visited, path, levels, fuel).1),
    decreases fuel, 1nat, deps.len() - i,
{
    if 0 <= i < deps.len() {
        let next = levels.push(i + 1 < deps.len());
        let first = walk_node(gv, pc, deps[i], visited, path, next, fuel);
        lemma_once_marks(gv, pc, deps[i], visited, path, next, fuel);
        lemma_once_marks_deps(gv, pc, deps, i + 1, first.1, path, levels, fuel);
    }
}

/// Where every occurrence is shown, a package is expanded again each time
/// the walk comes to it: its lines are the same whatever was seen before,
/// so they are those of a first visit, and the walk adds nothing to the
/// packages seen.
pub proof fn lemma_all_expands_again(
    gv: GraphView,
    pc: PrintConfig,
    id: PackageId,
    seen: Set<PackageId>,
    other: Set<PackageId>,
    path: Set<PackageId>,
    levels: Seq<bool>,
    fuel: nat,
)
    requires
        pc.all,
    ensures
        walk_node(gv, pc, id, seen, path, levels, fuel).0 == walk_node(
            gv,
            pc,
            id,
            other,
            path,
            levels,
            fuel,
        ).0,
        walk_node(gv, pc, id, seen, path, levels, fuel).1 == seen,
        walk_node(gv, pc, id, other, path, levels, fuel).1 == other,
    decreases fuel, 0nat, 0nat,
{
    if !path.contains(id) && fuel > 0 {
        let below = (fuel - 1) as nat;
        let inner = path.insert(id);
        let d = pc.direction;
        lemma_all_expands_again_kind(
            gv,
            pc,
            DepKind::Normal,
            children(gv, id, DepKind::Normal, d),
            seen,
            other,
            inner,
            levels,
            below,
        );
        lemma_all_expands_again_kind(
            gv,
            pc,
            DepKind::Build,
            children(gv, id, DepKind::Build, d),
            seen,
            other,
            inner,
            levels,
            below,
        );
        lemma_all_expands_again_kind(
            gv,
            pc,
            DepKind::Development,
            children(gv, id, DepKind::Development, d),
            seen,
            other,
            inner,
            levels,
            below,
        );
    }
}

proof fn lemma_all_expands_again_kind(
    gv: GraphView,
    pc: PrintConfig,
    kind: DepKind,
    deps: Seq<PackageId>,
    seen: Set<PackageId>,
    other: Set<PackageId>,
    path: Set<PackageId>,
    levels: Seq<bool>,
    fuel: nat,
)
    requires
        pc.all,
    ensures
        walk_kind(gv, pc, kind, deps, seen, path, levels, fuel).0 == walk_kind(
            gv,
            pc,
            kind,
            deps,
            other,
            path,
            levels,
            fuel,
        ).0,
        walk_kind(gv, pc, kind, deps, seen, path, levels, fuel).1 == seen,
        walk_kind(gv, pc, kind, deps, other, path, levels, fuel).1 == other,
    decreases fuel, 2nat, 0nat,
{
    if deps.len() > 0 {
        lemma_all_expands_again_deps(gv, pc, deps, 0, seen, other, path, levels, fuel);
    }
}

proof fn lemma_all_expands_again_deps(
    gv: GraphView,
    pc: PrintConfig,
    deps: Seq<PackageId>,
    i: int,
    seen: Set<PackageId>,
    other: Set<PackageId>,
    path: Set<PackageId>,
    levels: Seq<bool>,
    fuel: nat,
)
    requires
        pc.all,
    ensures
        walk_deps(gv, pc, deps, i, seen, path, levels, fuel).0 == walk_deps(
            gv,
            pc,
            deps,
            i,
            other,
            path,
            levels,
            fuel,
        ).0,
        walk_deps(gv, pc, deps, i, seen, path, levels, fuel).1 == seen,
        walk_deps(gv, pc, deps, i, other, path, levels, fuel).1 == other,
    decreases fuel, 1nat, deps.len() - i,
{
    if 0 <= i < deps.len() {
        let next = levels.push(i + 1 < deps.len());
        lemma_all_expands_again(gv, pc, deps[i], seen, other, path, next, fuel);
        lemma_all_expands_again_deps(gv, pc, deps, i + 1, seen, other, path, levels, fuel);
    }
}

} // verus!
