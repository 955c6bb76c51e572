use geiger::builder::{build_graph, GraphError};
use geiger::counters::IncludeTests;
use geiger::graph::{DepEdge, DependencyGraph, EdgeDirection};
use geiger::package::{
    DepKind, Dependency, ExtraDeps, PackageId, Resolve, ResolvedDep, ResolvedPackage,
};
use geiger::traversal::{walk_dependency_kind, walk_dependency_node, walk_dependency_tree};
use std::collections::HashSet;
use geiger::tree::{
    construct_tree_vines_string, get_tree_symbols, sort_ids, Charset, Prefix, PrintConfig,
    TextTreeLine,
};

fn construct_print_config(prefix: Prefix) -> PrintConfig {
    PrintConfig {
        all: false,
        direction: EdgeDirection::Outgoing,
        prefix,
        charset: Charset::Ascii,
        allow_partial_results: false,
        include_tests: IncludeTests::Yes,
    }
}

fn dep(id: PackageId, kinds: &[DepKind]) -> ResolvedDep {
    ResolvedDep {
        id,
        replacement: None,
        declared: kinds.iter().map(|k| Dependency { kind: *k, platform_matches: None }).collect(),
    }
}

fn resolve_of(packages: Vec<Vec<ResolvedDep>>) -> Resolve {
    Resolve { packages: packages.into_iter().map(|deps| ResolvedPackage { deps }).collect() }
}

fn package(id: PackageId, vines: &str) -> TextTreeLine {
    TextTreeLine::Package { id, tree_vines: vines.to_string() }
}

#[test]
fn construct_tree_vines_test() {
    let mut levels_continue = vec![true, false, true];

    let print_config = construct_print_config(Prefix::Depth);
    let tree_vines_string = construct_tree_vines_string(&mut levels_continue, &print_config);

    assert_eq!(tree_vines_string, "3 ");

    let print_config = construct_print_config(Prefix::Indent);
    let tree_vines_string = construct_tree_vines_string(&mut levels_continue, &print_config);

    assert_eq!(tree_vines_string, "|       |-- ");

    let print_config = construct_print_config(Prefix::NoPrefix);
    let tree_vines_string = construct_tree_vines_string(&mut levels_continue, &print_config);

    assert_eq!(tree_vines_string, "");
}

#[test]
fn tree_vines_utf8_last_level_ends() {
    let mut pc = construct_print_config(Prefix::Indent);
    pc.charset = Charset::Utf8;
    assert_eq!(construct_tree_vines_string(&vec![false, true, false], &pc), "    │   └── ");
    assert_eq!(construct_tree_vines_string(&vec![true], &pc), "├── ");
    assert_eq!(construct_tree_vines_string(&vec![], &pc), "");
}

#[test]
fn tree_vines_depth_counts_levels() {
    let pc = construct_print_config(Prefix::Depth);
    assert_eq!(construct_tree_vines_string(&vec![], &pc), "0 ");
    assert_eq!(construct_tree_vines_string(&vec![true; 12], &pc), "12 ");
}

#[test]
fn symbols_of_both_charsets() {
    let a = get_tree_symbols(Charset::Ascii);
    assert_eq!((a.down, a.tee, a.ell, a.right), ("|", "|", "`", "-"));
    let u = get_tree_symbols(Charset::Utf8);
    assert_eq!((u.down, u.tee, u.ell, u.right), ("│", "├", "└", "─"));
}

#[test]
fn sort_ids_orders_and_keeps_duplicates() {
    let mut ids = vec![5, 1, 4, 1, 9, 0];
    sort_ids(&mut ids);
    assert_eq!(ids, vec![0, 1, 1, 4, 5, 9]);
    let mut none: Vec<PackageId> = vec![];
    sort_ids(&mut none);
    assert!(none.is_empty());
}

#[test]
fn graph_edges_come_newest_first() {
    let mut g = DependencyGraph::new();
    g.add_node(10);
    g.add_node(20);
    g.add_node(30);
    g.add_edge(10, 20, DepKind::Normal);
    g.add_edge(10, 30, DepKind::Build);
    g.add_edge(30, 20, DepKind::Development);
    assert!(g.contains(20));
    assert!(!g.contains(40));
    assert_eq!(
        g.edges_directed(10, EdgeDirection::Outgoing),
        vec![
            DepEdge { from: 10, to: 30, kind: DepKind::Build },
            DepEdge { from: 10, to: 20, kind: DepKind::Normal },
        ]
    );
    assert_eq!(
        g.edges_directed(20, EdgeDirection::Incoming),
        vec![
            DepEdge { from: 30, to: 20, kind: DepKind::Development },
            DepEdge { from: 10, to: 20, kind: DepKind::Normal },
        ]
    );
    assert_eq!(g.edges_directed(20, EdgeDirection::Outgoing), vec![]);
}

#[test]
fn tree_of_normal_and_dev_dependency() {
    // Package 2 is the root; 0 is a normal dependency, 1 a development one.
    let resolve = resolve_of(vec![
        vec![],
        vec![],
        vec![dep(0, &[DepKind::Normal]), dep(1, &[DepKind::Development])],
    ]);
    let graph = build_graph(&resolve, 2, false, ExtraDeps::All).unwrap();
    let lines = walk_dependency_tree(2, &graph, &construct_print_config(Prefix::Indent));
    assert_eq!(
        lines,
        vec![
            package(2, ""),
            package(0, "`-- "),
            TextTreeLine::ExtraDepsGroup { kind: DepKind::Development, tree_vines: "".to_string() },
            package(1, "`-- "),
        ]
    );
}

#[test]
fn siblings_are_sorted_whatever_the_order_of_discovery() {
    let forward = resolve_of(vec![
        vec![dep(1, &[DepKind::Normal]), dep(2, &[DepKind::Normal]), dep(3, &[DepKind::Normal])],
        vec![],
        vec![],
        vec![],
    ]);
    let backward = resolve_of(vec![
        vec![dep(3, &[DepKind::Normal]), dep(1, &[DepKind::Normal]), dep(2, &[DepKind::Normal])],
        vec![],
        vec![],
        vec![],
    ]);
    let pc = construct_print_config(Prefix::Indent);
    let a = walk_dependency_tree(0, &build_graph(&forward, 0, false, ExtraDeps::All).unwrap(), &pc);
    let b = walk_dependency_tree(0, &build_graph(&backward, 0, false, ExtraDeps::All).unwrap(), &pc);
    assert_eq!(a, b);
    assert_eq!(
        a,
        vec![package(0, ""), package(1, "|-- "), package(2, "|-- "), package(3, "`-- ")]
    );
}

#[test]
fn second_visit_is_a_leaf_unless_all_is_set() {
    // 0 -> 1 -> 3, 0 -> 2 -> 3 -> 4
    let resolve = resolve_of(vec![
        vec![dep(1, &[DepKind::Normal]), dep(2, &[DepKind::Normal])],
        vec![dep(3, &[DepKind::Normal])],
        vec![dep(3, &[DepKind::Normal])],
        vec![dep(4, &[DepKind::Normal])],
        vec![],
    ]);
    let graph = build_graph(&resolve, 0, false, ExtraDeps::All).unwrap();
    let mut pc = construct_print_config(Prefix::Depth);
    assert_eq!(
        walk_dependency_tree(0, &graph, &pc),
        vec![
            package(0, "0 "),
            package(1, "1 "),
            package(3, "2 "),
            package(4, "3 "),
            package(2, "1 "),
            package(3, "2 "),
        ]
    );
    pc.all = true;
    assert_eq!(
        walk_dependency_tree(0, &graph, &pc),
        vec![
            package(0, "0 "),
            package(1, "1 "),
            package(3, "2 "),
            package(4, "3 "),
            package(2, "1 "),
            package(3, "2 "),
            package(4, "3 "),
        ]
    );
}

#[test]
fn cycles_end_at_the_package_that_closes_them() {
    // 0 -> 1 -> 0
    let resolve =
        resolve_of(vec![vec![dep(1, &[DepKind::Normal])], vec![dep(0, &[DepKind::Build])]]);
    let graph = build_graph(&resolve, 0, false, ExtraDeps::All).unwrap();
    let mut pc = construct_print_config(Prefix::NoPrefix);
    let want = vec![package(0, ""), package(1, ""), package(0, "")];
    assert_eq!(walk_dependency_tree(0, &graph, &pc), want);
    pc.all = true;
    assert_eq!(walk_dependency_tree(0, &graph, &pc), want);
}

#[test]
fn inverted_tree_walks_incoming_edges() {
    let resolve = resolve_of(vec![
        vec![dep(2, &[DepKind::Normal])],
        vec![dep(2, &[DepKind::Build])],
        vec![],
        vec![dep(0, &[DepKind::Normal]), dep(1, &[DepKind::Normal])],
    ]);
    let graph = build_graph(&resolve, 3, false, ExtraDeps::All).unwrap();
    let mut pc = construct_print_config(Prefix::Indent);
    pc.direction = EdgeDirection::Incoming;
    assert_eq!(
        walk_dependency_tree(2, &graph, &pc),
        vec![
            package(2, ""),
            package(0, "`-- "),
            package(3, "    `-- "),
            TextTreeLine::ExtraDepsGroup { kind: DepKind::Build, tree_vines: "".to_string() },
            package(1, "`-- "),
            package(3, "    `-- "),
        ]
    );
}

#[test]
fn build_graph_follows_policy_platform_and_replacement() {
    let mut resolve = resolve_of(vec![
        vec![
            dep(1, &[DepKind::Normal, DepKind::Build]),
            dep(2, &[DepKind::Development]),
            dep(3, &[DepKind::Normal]),
        ],
        vec![],
        vec![],
        vec![],
        vec![],
    ]);
    resolve.packages[0].deps[2].declared[0].platform_matches = Some(false);
    resolve.packages[0].deps[0].replacement = Some(4);

    let graph = build_graph(&resolve, 0, true, ExtraDeps::NoMore).unwrap();
    assert_eq!(
        graph.edges_directed(0, EdgeDirection::Outgoing),
        vec![DepEdge { from: 0, to: 4, kind: DepKind::Normal }]
    );
    assert!(!graph.contains(1) && !graph.contains(2) && !graph.contains(3));

    let graph = build_graph(&resolve, 0, false, ExtraDeps::Build).unwrap();
    assert_eq!(
        graph.edges_directed(0, EdgeDirection::Outgoing),
        vec![
            DepEdge { from: 0, to: 3, kind: DepKind::Normal },
            DepEdge { from: 0, to: 4, kind: DepKind::Build },
            DepEdge { from: 0, to: 4, kind: DepKind::Normal },
        ]
    );

    let graph = build_graph(&resolve, 0, false, ExtraDeps::Dev).unwrap();
    assert!(graph.contains(2) && graph.contains(3) && graph.contains(4));
    assert_eq!(graph.edges_directed(0, EdgeDirection::Outgoing).len(), 3);
}

#[test]
fn build_graph_reports_a_package_that_the_resolution_lacks() {
    let resolve = resolve_of(vec![vec![dep(1, &[DepKind::Normal])], vec![dep(7, &[DepKind::Normal])]]);
    assert_eq!(
        build_graph(&resolve, 0, false, ExtraDeps::All).err(),
        Some(GraphError::UnknownPackage(7))
    );
    assert_eq!(
        build_graph(&resolve, 9, false, ExtraDeps::All).err(),
        Some(GraphError::UnknownPackage(9))
    );
    // The dependency on 7 is a development dependency of no allowed kind.
    let resolve = resolve_of(vec![vec![dep(7, &[DepKind::Development])]]);
    assert!(build_graph(&resolve, 0, false, ExtraDeps::NoMore).is_ok());
}

#[test]
fn extra_deps_always_allow_normal() {
    for policy in [ExtraDeps::All, ExtraDeps::Build, ExtraDeps::Dev, ExtraDeps::NoMore] {
        assert!(policy.allows(DepKind::Normal));
    }
    assert!(ExtraDeps::All.allows(DepKind::Build) && ExtraDeps::All.allows(DepKind::Development));
    assert!(ExtraDeps::Build.allows(DepKind::Build) && !ExtraDeps::Build.allows(DepKind::Development));
    assert!(!ExtraDeps::Dev.allows(DepKind::Build) && ExtraDeps::Dev.allows(DepKind::Development));
    assert!(!ExtraDeps::NoMore.allows(DepKind::Build) && !ExtraDeps::NoMore.allows(DepKind::Development));
}

#[test]
fn a_package_seen_before_is_expanded_again_where_every_occurrence_is_shown() {
    let resolve = resolve_of(vec![vec![dep(1, &[DepKind::Normal])], vec![]]);
    let graph = build_graph(&resolve, 0, false, ExtraDeps::All).unwrap();
    let pc = PrintConfig { all: true, ..construct_print_config(Prefix::Indent) };
    let mut visited: HashSet<PackageId> = [0, 1].into_iter().collect();
    let mut levels = vec![true];
    let lines = walk_dependency_node(0, &graph, &mut visited, &mut levels, &pc);
    assert_eq!(lines, vec![package(0, "|-- "), package(1, "|   `-- ")]);
    assert_eq!(visited, [0, 1].into_iter().collect::<HashSet<PackageId>>());
    assert_eq!(levels, vec![true]);

    let mut fresh = HashSet::new();
    let first = walk_dependency_node(0, &graph, &mut fresh, &mut levels, &pc);
    assert_eq!(first, lines);
    assert!(fresh.is_empty());
}

#[test]
fn a_package_seen_before_is_a_single_line_where_each_is_shown_once() {
    let resolve = resolve_of(vec![
        vec![dep(1, &[DepKind::Normal]), dep(2, &[DepKind::Build])],
        vec![],
        vec![],
    ]);
    let graph = build_graph(&resolve, 0, false, ExtraDeps::All).unwrap();
    let pc = construct_print_config(Prefix::Indent);
    let mut visited: HashSet<PackageId> = [0].into_iter().collect();
    let mut levels = vec![false, true];
    let lines = walk_dependency_node(0, &graph, &mut visited, &mut levels, &pc);
    assert_eq!(lines, vec![package(0, "    |-- ")]);
    assert_eq!(visited, [0].into_iter().collect::<HashSet<PackageId>>());
    assert_eq!(levels, vec![false, true]);

    let mut fresh = HashSet::new();
    let lines = walk_dependency_node(0, &graph, &mut fresh, &mut levels, &pc);
    assert_eq!(lines.len(), 4);
    assert_eq!(fresh, [0, 1, 2].into_iter().collect::<HashSet<PackageId>>());
}

#[test]
fn a_cycle_ends_where_it_closes_whatever_was_seen_before() {
    let resolve = resolve_of(vec![vec![dep(1, &[DepKind::Normal])], vec![dep(0, &[DepKind::Normal])]]);
    let graph = build_graph(&resolve, 0, false, ExtraDeps::All).unwrap();
    let pc = PrintConfig { all: true, ..construct_print_config(Prefix::NoPrefix) };
    let mut visited: HashSet<PackageId> = [1].into_iter().collect();
    let mut levels = vec![];
    let lines = walk_dependency_node(0, &graph, &mut visited, &mut levels, &pc);
    assert_eq!(lines, vec![package(0, ""), package(1, ""), package(0, "")]);
}

#[test]
fn the_walk_of_a_group_sorts_the_group() {
    let mut graph = DependencyGraph::new();
    for id in [3, 1, 2, 0] {
        graph.add_node(id);
    }
    graph.add_edge(3, 0, DepKind::Normal);
    let pc = construct_print_config(Prefix::Indent);
    let mut deps = vec![3, 1, 2, 1];
    let mut visited = HashSet::new();
    let mut levels = vec![true];
    let lines =
        walk_dependency_kind(DepKind::Development, &mut deps, &graph, &mut visited, &mut levels, &pc);
    assert_eq!(deps, vec![1, 1, 2, 3]);
    assert_eq!(
        lines,
        vec![
            TextTreeLine::ExtraDepsGroup {
                kind: DepKind::Development,
                tree_vines: "|   ".to_string()
            },
            package(1, "|   |-- "),
            package(1, "|   |-- "),
            package(2, "|   |-- "),
            package(3, "|   `-- "),
            package(0, "|       `-- "),
        ]
    );
    assert_eq!(levels, vec![true]);
    let mut none: Vec<PackageId> = vec![];
    assert!(walk_dependency_kind(DepKind::Build, &mut none, &graph, &mut visited, &mut levels, &pc)
        .is_empty());
}
