use geiger::aggregate::{
    checked_find_unsafe_in_packages, find_unsafe_in_packages, GeigerContext, ScannedFile,
};
use geiger::builder::build_graph;
use geiger::counters::{Count, CounterBlock, IncludeTests, PackageCounters};
use geiger::files::{
    find_rs_files_in_dir, find_rs_files_in_package, find_rs_files_in_packages, is_file_with_ext,
    FileEntry, PackageFiles,
};
use geiger::graph::{DependencyGraph, EdgeDirection};
use geiger::package::{DepKind, Dependency, ExtraDeps, PackageId, Resolve, ResolvedDep, ResolvedPackage};
use geiger::render::{print_line, print_tree, table_row, table_row_empty, PrintedLine};
use geiger::report::{package_metrics, scan_to_report, PackageInfo};
use geiger::scan::{find_unsafe_in_file, FileContent, ScanFileError, SourceFile};
use geiger::syntax::{ExprKind, NodeKind, SyntaxNode};
use geiger::tree::{Charset, Prefix, PrintConfig, TextTreeLine};
use geiger::used::BuildUsedSet;
use std::collections::HashMap;
use std::str::FromStr;

fn count(safe: u64, unsafe_: u64) -> Count {
    Count { safe, unsafe_ }
}

fn block(functions: Count, exprs: Count) -> CounterBlock {
    CounterBlock { functions, exprs, ..CounterBlock::default() }
}

fn entry(path: &str) -> FileEntry {
    let extension = path.rsplit('/').next().and_then(|name| {
        name.rfind('.').filter(|i| *i > 0).map(|i| name[i + 1..].to_string())
    });
    FileEntry { path: path.to_string(), is_file: true, extension }
}

fn dir(path: &str) -> FileEntry {
    FileEntry { is_file: false, ..entry(path) }
}

fn function(is_unsafe: bool) -> SyntaxNode {
    SyntaxNode {
        kind: NodeKind::Function { attrs: vec![], is_unsafe },
        children: vec![SyntaxNode { kind: NodeKind::Expr(ExprKind::Other), children: vec![] }],
    }
}

fn source(items: Vec<SyntaxNode>) -> FileContent {
    FileContent::Syntax(SyntaxNode { kind: NodeKind::Other, children: items })
}

fn used_set(paths: &[&str]) -> BuildUsedSet {
    let mut set = BuildUsedSet::new();
    for p in paths {
        set.insert(p.to_string());
    }
    set
}

fn scanned(package: PackageId, path: &str, scan: Result<CounterBlock, ScanFileError>) -> ScannedFile {
    ScannedFile { package, path: path.to_string(), scan }
}

fn dep(id: PackageId, kind: DepKind) -> ResolvedDep {
    ResolvedDep { id, replacement: None, declared: vec![Dependency { kind, platform_matches: None }] }
}

fn config() -> PrintConfig {
    PrintConfig {
        all: false,
        direction: EdgeDirection::Outgoing,
        prefix: Prefix::Indent,
        charset: Charset::Utf8,
        allow_partial_results: false,
        include_tests: IncludeTests::Yes,
    }
}

/// Package 0 is the root, 1 a normal dependency, 2 a development one.
fn small_graph() -> DependencyGraph {
    let resolve = Resolve {
        packages: vec![
            ResolvedPackage { deps: vec![dep(1, DepKind::Normal), dep(2, DepKind::Development)] },
            ResolvedPackage { deps: vec![] },
            ResolvedPackage { deps: vec![] },
        ],
    };
    build_graph(&resolve, 0, false, ExtraDeps::All).unwrap()
}

/// Reads the files of the packages as `read` gives them and scans them.
fn scan_all(
    packs: &Vec<PackageFiles>,
    read: &dyn Fn(&str) -> FileContent,
    include_tests: IncludeTests,
) -> Vec<ScannedFile> {
    find_rs_files_in_packages(packs)
        .into_iter()
        .map(|f| {
            let file = SourceFile { path: f.path.clone(), content: read(&f.path) };
            ScannedFile { package: f.id, path: f.path, scan: find_unsafe_in_file(&file, include_tests) }
        })
        .collect()
}

#[test]
fn source_files_are_regular_files_with_the_extension() {
    assert!(is_file_with_ext(&entry("/p/src/lib.rs"), "rs"));
    assert!(!is_file_with_ext(&entry("/p/src/lib.rs"), "d"));
    assert!(!is_file_with_ext(&entry("/p/src/lib.RS"), "rs"));
    assert!(!is_file_with_ext(&dir("/p/dir.rs"), "rs"));
    assert!(!is_file_with_ext(&entry("/p/Makefile"), "rs"));
    assert!(!is_file_with_ext(&entry("/p/.rs"), "rs"));
    let entries =
        vec![dir("/p/src"), entry("/p/src/b.rs"), entry("/p/README.md"), entry("/p/src/a.rs")];
    assert_eq!(find_rs_files_in_dir(&entries), vec!["/p/src/b.rs", "/p/src/a.rs"]);
    let pack = PackageFiles { id: 7, entries };
    assert_eq!(find_rs_files_in_package(&pack), vec!["/p/src/b.rs", "/p/src/a.rs"]);
    let files = find_rs_files_in_packages(&vec![
        PackageFiles { id: 3, entries: vec![entry("/q/x.rs")] },
        PackageFiles { id: 4, entries: vec![] },
        pack,
    ]);
    let got: Vec<(PackageId, String)> = files.into_iter().map(|f| (f.id, f.path)).collect();
    assert_eq!(
        got,
        vec![
            (3, "/q/x.rs".to_string()),
            (7, "/p/src/b.rs".to_string()),
            (7, "/p/src/a.rs".to_string())
        ]
    );
}

#[test]
fn the_used_set_counts_the_scans_of_its_files() {
    let mut set = used_set(&["/a.rs", "/b.rs"]);
    assert!(set.mark("/a.rs"));
    assert!(set.mark("/a.rs"));
    assert!(!set.mark("/c.rs"));
    assert_eq!(set.get("/a.rs"), Some(2));
    assert_eq!(set.get("/b.rs"), Some(0));
    assert_eq!(set.get("/c.rs"), None);
    assert!(!set.contains("/c.rs"));
    assert_eq!(set.unscanned(), vec!["/b.rs"]);
    set.insert("/a.rs".to_string());
    assert_eq!(set.get("/a.rs"), Some(0));
    assert_eq!(BuildUsedSet::new().unscanned(), Vec::<String>::new());
}

#[test]
fn counters_are_summed_by_package_and_split_by_use() {
    let files = vec![
        scanned(1, "/a/used.rs", Ok(block(count(1, 2), count(10, 20)))),
        scanned(2, "/b/lib.rs", Ok(block(count(0, 0), count(5, 0)))),
        scanned(1, "/a/unused.rs", Ok(block(count(3, 4), count(0, 1)))),
        scanned(1, "/a/more.rs", Ok(block(count(1, 1), count(1, 1)))),
    ];
    let ctx =
        find_unsafe_in_packages(&files, used_set(&["/a/used.rs", "/a/more.rs", "/x.rs"]), false)
            .unwrap();
    assert_eq!(ctx.pack_id_to_counters.len(), 2);
    let a = ctx.pack_id_to_counters[&1];
    assert_eq!(a.used, block(count(2, 3), count(11, 21)));
    assert_eq!(a.not_used, block(count(3, 4), count(0, 1)));
    let b = ctx.pack_id_to_counters[&2];
    assert_eq!(b.used, CounterBlock::default());
    assert_eq!(b.not_used, block(count(0, 0), count(5, 0)));
    assert_eq!(ctx.rs_files_used.get("/a/used.rs"), Some(1));
    assert_eq!(ctx.rs_files_used.get("/x.rs"), Some(0));
    assert_eq!(ctx.rs_files_used.get("/b/lib.rs"), None);
}

#[test]
fn unsafe_items_of_the_packages_add_up_to_those_of_the_files() {
    let files = vec![
        scanned(1, "/a/1.rs", Ok(block(count(1, 2), count(0, 7)))),
        scanned(2, "/b/1.rs", Ok(block(count(0, 3), count(0, 0)))),
        scanned(1, "/a/2.rs", Err(ScanFileError::Syn("x".to_string(), "/a/2.rs".to_string()))),
        scanned(3, "/c/1.rs", Ok(block(count(9, 5), count(1, 1)))),
        scanned(1, "/a/3.rs", Ok(block(count(0, 11), count(0, 0)))),
    ];
    let ctx = find_unsafe_in_packages(&files, used_set(&["/a/1.rs", "/c/1.rs"]), true).unwrap();
    let functions: u64 = ctx
        .pack_id_to_counters
        .values()
        .map(|c| c.used.functions.unsafe_ + c.not_used.functions.unsafe_)
        .sum();
    let exprs: u64 = ctx
        .pack_id_to_counters
        .values()
        .map(|c| c.used.exprs.unsafe_ + c.not_used.exprs.unsafe_)
        .sum();
    assert_eq!(functions, 2 + 3 + 5 + 11);
    assert_eq!(exprs, 7 + 1);
}

#[test]
fn a_failed_scan_ends_the_run_unless_partial_results_are_allowed() {
    let files = || {
        vec![
            scanned(1, "/a/1.rs", Ok(block(count(1, 0), count(0, 0)))),
            scanned(2, "/b/1.rs", Err(ScanFileError::Io("gone".to_string(), "/b/1.rs".to_string()))),
            scanned(1, "/a/2.rs", Err(ScanFileError::Syn("bad".to_string(), "/a/2.rs".to_string()))),
        ]
    };
    match find_unsafe_in_packages(&files(), used_set(&["/b/1.rs"]), false) {
        Err(e) => assert_eq!(e, ScanFileError::Io("gone".to_string(), "/b/1.rs".to_string())),
        Ok(_) => panic!("the failed scan was passed over"),
    }
    let ctx = find_unsafe_in_packages(&files(), used_set(&["/b/1.rs"]), true).unwrap();
    // The counters of a file that failed are absent, not zero.
    assert_eq!(ctx.pack_id_to_counters.len(), 1);
    assert!(!ctx.pack_id_to_counters.contains_key(&2));
    assert_eq!(ctx.pack_id_to_counters[&1].not_used.functions, count(1, 0));
}

#[test]
fn report_of_a_normal_and_a_development_dependency() {
    let graph = small_graph();
    let packs = vec![
        PackageFiles { id: 0, entries: vec![entry("/root/src/main.rs")] },
        PackageFiles { id: 1, entries: vec![entry("/a/src/lib.rs"), entry("/a/Cargo.toml")] },
        PackageFiles { id: 2, entries: vec![entry("/b/src/lib.rs")] },
    ];
    let read = |path: &str| match path {
        "/a/src/lib.rs" => source(vec![SyntaxNode {
            kind: NodeKind::Function { attrs: vec![], is_unsafe: true },
            children: vec![],
        }]),
        _ => source(vec![function(false)]),
    };
    let files = scan_all(&packs, &read, IncludeTests::No);
    let used = used_set(&["/root/src/main.rs", "/a/src/lib.rs", "/b/src/lib.rs"]);
    let ctx = find_unsafe_in_packages(&files, used, false).unwrap();
    let report = scan_to_report(&graph, 0, &ctx);

    assert_eq!(report.packages[&1].unsafety.used.functions, count(0, 1));
    assert_eq!(report.packages[&1].unsafety.not_used, CounterBlock::default());
    assert_eq!(report.packages[&0].unsafety.used.functions, count(1, 0));
    assert_eq!(report.packages[&2].unsafety.used.exprs, count(1, 0));
    assert_eq!(report.packages.len(), 3);
    assert!(report.packages_without_metrics.is_empty());
    assert!(report.used_but_not_scanned_files.is_empty());
    assert_eq!(
        report.packages[&0].package,
        PackageInfo {
            id: 0,
            dependencies: vec![1],
            dev_dependencies: vec![2],
            build_dependencies: vec![]
        }
    );

    let rows = print_tree(0, &graph, &ctx, &config());
    let lead = |row: &PrintedLine| match row {
        PrintedLine::Package { id, unsafe_found, lead, .. } => (*id, *unsafe_found, lead.clone()),
        PrintedLine::Group { text } => (u64::MAX, false, text.clone()),
    };
    assert_eq!(rows.len(), 4);
    assert_eq!(lead(&rows[0]), (0, false, "    ".to_string()));
    assert_eq!(lead(&rows[1]), (1, true, "  ☢ └── ".to_string()));
    assert_eq!(lead(&rows[2]), (u64::MAX, false, format!("{}[dev-dependencies]", " ".repeat(50))));
    assert_eq!(lead(&rows[3]), (2, false, "    └── ".to_string()));
}

#[test]
fn a_package_without_source_files_has_no_entry() {
    let graph = small_graph();
    let packs = vec![
        PackageFiles { id: 0, entries: vec![entry("/root/src/main.rs")] },
        PackageFiles { id: 1, entries: vec![entry("/a/Cargo.toml"), dir("/a/src.rs")] },
        PackageFiles { id: 2, entries: vec![entry("/b/src/lib.rs")] },
    ];
    let files = scan_all(&packs, &|_| source(vec![function(false)]), IncludeTests::Yes);
    let ctx = find_unsafe_in_packages(&files, used_set(&[]), false).unwrap();
    let report = scan_to_report(&graph, 0, &ctx);
    assert!(!report.packages.contains_key(&1));
    assert_eq!(report.packages.len(), 2);
    assert_eq!(report.packages_without_metrics.iter().copied().collect::<Vec<_>>(), vec![1]);
    let metrics = package_metrics(&ctx.pack_id_to_counters, &graph, 0);
    let mut ids: Vec<(PackageId, bool)> =
        metrics.iter().map(|m| (m.package.id, m.metrics.is_some())).collect();
    ids.sort();
    assert_eq!(ids, vec![(0, true), (1, false), (2, true)]);
}

#[test]
fn a_file_of_the_build_outside_every_package_is_reported() {
    let graph = small_graph();
    let packs = vec![
        PackageFiles { id: 0, entries: vec![entry("/root/src/main.rs")] },
        PackageFiles { id: 1, entries: vec![entry("/a/src/lib.rs")] },
        PackageFiles { id: 2, entries: vec![entry("/b/src/lib.rs")] },
    ];
    let files = scan_all(&packs, &|_| source(vec![]), IncludeTests::Yes);
    let used = used_set(&["/a/src/lib.rs", "/elsewhere/gen.rs", "/root/src/main.rs"]);
    let ctx = find_unsafe_in_packages(&files, used, false).unwrap();
    let report = scan_to_report(&graph, 0, &ctx);
    assert_eq!(report.used_but_not_scanned_files, vec!["/elsewhere/gen.rs"]);
    assert_eq!(report.packages[&2].unsafety.not_used.functions, count(0, 0));
}

#[test]
fn only_packages_below_the_root_are_reported() {
    let mut graph = DependencyGraph::new();
    for id in [0, 1, 2] {
        graph.add_node(id);
    }
    graph.add_edge(0, 1, DepKind::Build);
    graph.add_edge(2, 0, DepKind::Normal);
    let mut counters = HashMap::new();
    counters.insert(2, PackageCounters::default());
    counters.insert(1, PackageCounters::default());
    let ctx = GeigerContext { pack_id_to_counters: counters, rs_files_used: used_set(&[]) };
    let report = scan_to_report(&graph, 0, &ctx);
    assert_eq!(report.packages.keys().copied().collect::<Vec<_>>(), vec![1]);
    assert_eq!(report.packages_without_metrics.iter().copied().collect::<Vec<_>>(), vec![0]);
    assert_eq!(report.packages[&1].package.id, 1);
}

#[test]
fn a_row_holds_the_unsafe_items_of_the_build_and_of_all_files() {
    let pc = PackageCounters {
        used: CounterBlock {
            functions: count(5, 1),
            exprs: count(100, 123456789012),
            item_impls: count(0, 0),
            item_traits: count(0, 2),
            methods: count(1, 10),
        },
        not_used: CounterBlock {
            functions: count(9, 2),
            exprs: count(7, 1),
            item_impls: count(3, 0),
            item_traits: count(3, 40),
            methods: count(1, u64::MAX),
        },
    };
    assert_eq!(
        table_row(&pc),
        format!(
            "{: <10} {: <12} {: <6} {: <7} {: <7}",
            "1/3", "123456789012/123456789013", "0/0", "2/42", "10/18446744073709551625"
        )
    );
    assert_eq!(
        table_row(&PackageCounters::default()),
        "0/0        0/0          0/0    0/0     0/0    "
    );
    assert_eq!(table_row_empty(), " ".repeat(50));
}

#[test]
fn rows_of_single_lines() {
    let mut counters = HashMap::new();
    counters.insert(4, PackageCounters::default());
    let line = TextTreeLine::Package { id: 4, tree_vines: "|   `-- ".to_string() };
    assert_eq!(
        print_line(&line, &counters),
        PrintedLine::Package {
            id: 4,
            unsafe_found: false,
            unsafe_info: "0/0        0/0          0/0    0/0     0/0    ".to_string(),
            lead: "    |   `-- ".to_string(),
        }
    );
    let group = TextTreeLine::ExtraDepsGroup { kind: DepKind::Build, tree_vines: "|   ".to_string() };
    assert_eq!(
        print_line(&group, &counters),
        PrintedLine::Group { text: format!("{}|   [build-dependencies]", " ".repeat(50)) }
    );
}

#[test]
fn character_sets_have_two_names() {
    assert_eq!(Charset::from_str("utf8"), Ok(Charset::Utf8));
    assert_eq!(Charset::from_str("ascii"), Ok(Charset::Ascii));
    assert_eq!(Charset::from_str("UTF8"), Err("invalid charset"));
    assert_eq!(Charset::from_str(""), Err("invalid charset"));
}

#[test]
fn numbers_too_large_to_add_up_give_no_counters() {
    let files = |last: u64| {
        vec![
            scanned(1, "/a/1.rs", Ok(block(count(0, u64::MAX - 5), count(2, 2)))),
            scanned(2, "/b/1.rs", Err(ScanFileError::Syn("x".to_string(), "/b/1.rs".to_string()))),
            scanned(1, "/a/2.rs", Ok(block(count(last, 0), count(0, 0)))),
        ]
    };
    assert!(checked_find_unsafe_in_packages(&files(2), used_set(&["/a/1.rs"]), true).is_none());
    assert!(checked_find_unsafe_in_packages(&files(2), used_set(&["/a/1.rs"]), false).is_none());
    let ctx = checked_find_unsafe_in_packages(&files(1), used_set(&["/a/1.rs"]), true)
        .unwrap()
        .unwrap();
    assert_eq!(ctx.pack_id_to_counters[&1].used.functions, count(0, u64::MAX - 5));
    assert_eq!(ctx.pack_id_to_counters[&1].not_used.functions, count(1, 0));
    assert_eq!(ctx.rs_files_used.get("/a/1.rs"), Some(1));
    match checked_find_unsafe_in_packages(&files(1), used_set(&[]), false) {
        Some(Err(e)) => assert_eq!(e, ScanFileError::Syn("x".to_string(), "/b/1.rs".to_string())),
        other => panic!("unexpected: {:?}", other.map(|r| r.map(|c| c.pack_id_to_counters))),
    }
}

#[test]
fn a_counter_has_room_for_as_many_scans_as_fit() {
    let mut set = used_set(&["/a.rs", "/b.rs"]);
    assert!(set.has_room(usize::MAX));
    assert!(set.mark("/b.rs"));
    assert!(!set.has_room(usize::MAX));
    assert!(set.has_room(usize::MAX - 1));
    assert!(BuildUsedSet::new().has_room(usize::MAX));
}
