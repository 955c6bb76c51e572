use geiger::counters::{Count, CounterBlock, IncludeTests};
use geiger::raw::{compact_unsafe_info, find_unsafe, UnsafeCounter};
use geiger::scan::{
    checked_find_unsafe_in_file, find_unsafe_in_file, FileContent, ScanFileError, SourceFile,
};
use geiger::syntax::{
    is_test_fn, is_test_mod, meta_is_word_test, meta_list_is_cfg_test, ExprKind, Meta, MetaList,
    NestedMeta, NodeKind, SyntaxNode,
};
use geiger::used::BuildUsedSet;

fn node(kind: NodeKind, children: Vec<SyntaxNode>) -> SyntaxNode {
    SyntaxNode { kind, children }
}

fn expr(children: Vec<SyntaxNode>) -> SyntaxNode {
    node(NodeKind::Expr(ExprKind::Other), children)
}

fn unsafe_block(children: Vec<SyntaxNode>) -> SyntaxNode {
    node(NodeKind::Expr(ExprKind::Unsafe), children)
}

fn function(is_unsafe: bool, attrs: Vec<Meta>, children: Vec<SyntaxNode>) -> SyntaxNode {
    node(NodeKind::Function { attrs, is_unsafe }, children)
}

fn file(path: &str, items: Vec<SyntaxNode>) -> SourceFile {
    SourceFile { path: path.to_string(), content: FileContent::Syntax(node(NodeKind::Other, items)) }
}

fn cfg_test() -> Meta {
    Meta::List(MetaList {
        ident: "cfg".to_string(),
        nested: vec![NestedMeta::Meta(Meta::Word("test".to_string()))],
    })
}

fn count(safe: u64, unsafe_: u64) -> Count {
    Count { safe, unsafe_ }
}

#[test]
fn each_declaration_counts_once_by_its_own_keyword() {
    let f = file(
        "src/lib.rs",
        vec![
            function(true, vec![], vec![]),
            function(false, vec![], vec![]),
            function(false, vec![], vec![]),
            node(
                NodeKind::Impl { is_unsafe: true },
                vec![
                    node(NodeKind::Method { is_unsafe: false }, vec![]),
                    node(NodeKind::Method { is_unsafe: true }, vec![]),
                ],
            ),
            node(NodeKind::Impl { is_unsafe: false }, vec![]),
            node(NodeKind::Trait { is_unsafe: true }, vec![]),
            node(NodeKind::Trait { is_unsafe: false }, vec![]),
        ],
    );
    let c = find_unsafe_in_file(&f, IncludeTests::Yes).unwrap();
    assert_eq!(c.functions, count(2, 1));
    assert_eq!(c.item_impls, count(1, 1));
    assert_eq!(c.item_traits, count(1, 1));
    assert_eq!(c.methods, count(1, 1));
    assert_eq!(c.exprs, count(0, 0));
    assert!(c.has_unsafe());
}

#[test]
fn names_and_literals_are_not_counted() {
    // `f(x, 1)` is one expression.
    let call = expr(vec![
        node(NodeKind::Expr(ExprKind::Path), vec![]),
        node(NodeKind::Expr(ExprKind::Path), vec![]),
        node(NodeKind::Expr(ExprKind::Lit), vec![]),
    ]);
    let f = file("a.rs", vec![function(false, vec![], vec![call])]);
    let c = find_unsafe_in_file(&f, IncludeTests::Yes).unwrap();
    assert_eq!(c.exprs, count(1, 0));
    assert_eq!(c.functions, count(1, 0));
    assert!(!c.has_unsafe());
}

#[test]
fn an_unsafe_function_does_not_make_its_expressions_unsafe() {
    let f = file("a.rs", vec![function(true, vec![], vec![expr(vec![])])]);
    let c = find_unsafe_in_file(&f, IncludeTests::Yes).unwrap();
    assert_eq!(c.functions, count(0, 1));
    assert_eq!(c.exprs, count(1, 0));
}

#[test]
fn nested_unsafe_blocks_restore_the_outer_one() {
    // safe; unsafe { a; unsafe { b }; c }; safe
    let body = vec![
        expr(vec![]),
        unsafe_block(vec![expr(vec![]), unsafe_block(vec![expr(vec![])]), expr(vec![])]),
        expr(vec![]),
    ];
    let f = file("a.rs", vec![function(false, vec![], body)]);
    let c = find_unsafe_in_file(&f, IncludeTests::Yes).unwrap();
    assert_eq!(c.exprs, count(2, 3));
}

#[test]
fn tests_are_left_out_on_request() {
    let items = || {
        vec![
            function(true, vec![Meta::Word("test".to_string())], vec![expr(vec![])]),
            node(
                NodeKind::Module { attrs: vec![cfg_test()] },
                vec![function(true, vec![], vec![unsafe_block(vec![expr(vec![])])])],
            ),
            node(
                NodeKind::Module { attrs: vec![Meta::Word("test".to_string())] },
                vec![function(false, vec![], vec![])],
            ),
            function(false, vec![Meta::NameValue("doc".to_string())], vec![]),
        ]
    };
    let with = find_unsafe_in_file(&file("a.rs", items()), IncludeTests::Yes).unwrap();
    assert_eq!(with.functions, count(2, 2));
    assert_eq!(with.exprs, count(1, 1));
    let without = find_unsafe_in_file(&file("a.rs", items()), IncludeTests::No).unwrap();
    assert_eq!(without.functions, count(2, 0));
    assert_eq!(without.exprs, count(0, 0));
}

#[test]
fn scanning_twice_gives_the_same_counters() {
    let items = || vec![function(true, vec![], vec![unsafe_block(vec![expr(vec![expr(vec![])])])])];
    let a = find_unsafe_in_file(&file("a.rs", items()), IncludeTests::No).unwrap();
    let b = find_unsafe_in_file(&file("a.rs", items()), IncludeTests::No).unwrap();
    assert_eq!(a, b);
    assert_eq!(a.exprs, count(0, 2));
}

#[test]
fn each_failure_has_its_own_error_with_the_path() {
    let f = |content| SourceFile { path: "p/q.rs".to_string(), content };
    assert_eq!(
        find_unsafe_in_file(&f(FileContent::Unreadable("gone".to_string())), IncludeTests::Yes),
        Err(ScanFileError::Io("gone".to_string(), "p/q.rs".to_string()))
    );
    assert_eq!(
        find_unsafe_in_file(&f(FileContent::NotUtf8("bad byte".to_string())), IncludeTests::Yes),
        Err(ScanFileError::Utf8("bad byte".to_string(), "p/q.rs".to_string()))
    );
    assert_eq!(
        find_unsafe_in_file(&f(FileContent::Unparsable("expected `}`".to_string())), IncludeTests::Yes),
        Err(ScanFileError::Syn("expected `}`".to_string(), "p/q.rs".to_string()))
    );
    let e = ScanFileError::Syn("m".to_string(), "p".to_string());
    assert_eq!(e.duplicate(), e);
}

#[test]
fn test_markers_are_recognised_by_their_shape() {
    let word = |s: &str| Meta::Word(s.to_string());
    assert!(meta_is_word_test(&word("test")));
    assert!(!meta_is_word_test(&word("tests")));
    assert!(!meta_is_word_test(&Meta::NameValue("test".to_string())));
    assert!(!meta_is_word_test(&cfg_test()));
    let list = |ident: &str, nested| MetaList { ident: ident.to_string(), nested };
    assert!(meta_list_is_cfg_test(&list(
        "cfg",
        vec![NestedMeta::Literal, NestedMeta::Meta(word("test"))]
    )));
    assert!(!meta_list_is_cfg_test(&list("cfg_attr", vec![NestedMeta::Meta(word("test"))])));
    assert!(!meta_list_is_cfg_test(&list("cfg", vec![NestedMeta::Meta(word("unix"))])));
    // `cfg(not(test))` names `test` inside another list only.
    assert!(!meta_list_is_cfg_test(&list(
        "cfg",
        vec![NestedMeta::Meta(Meta::List(list("not", vec![NestedMeta::Meta(word("test"))])))]
    )));
    assert!(!meta_list_is_cfg_test(&list("cfg", vec![])));
    assert!(is_test_fn(&vec![word("inline"), word("test")]));
    assert!(!is_test_fn(&vec![cfg_test()]));
    assert!(!is_test_fn(&vec![]));
    assert!(is_test_mod(&vec![word("test"), cfg_test()]));
    assert!(!is_test_mod(&vec![word("test")]));
}

#[test]
fn blocks_add_component_wise() {
    let a = CounterBlock {
        functions: count(1, 2),
        exprs: count(3, 4),
        item_impls: count(5, 6),
        item_traits: count(7, 8),
        methods: count(9, 10),
    };
    let sum = a.add(a);
    assert_eq!(sum.functions, count(2, 4));
    assert_eq!(sum.exprs, count(6, 8));
    assert_eq!(sum.item_impls, count(10, 12));
    assert_eq!(sum.item_traits, count(14, 16));
    assert_eq!(sum.methods, count(18, 20));
    let mut c = count(0, 0);
    c.count(true);
    c.count(false);
    c.count(false);
    assert_eq!(c, count(2, 1));
}

#[test]
fn counting_a_directory_gives_totals_and_skips_what_is_not_wanted() {
    let files = vec![
        file("/w/a.rs", vec![function(true, vec![Meta::Word("test".to_string())], vec![expr(vec![])])]),
        file("/w/b.rs", vec![function(false, vec![], vec![unsafe_block(vec![expr(vec![])])])]),
        SourceFile { path: "/w/c.rs".to_string(), content: FileContent::Unparsable("x".to_string()) },
        SourceFile { path: "/w/d.rs".to_string(), content: FileContent::Unreadable("x".to_string()) },
    ];
    let mut used = BuildUsedSet::new();
    used.insert("/w/b.rs".to_string());
    used.insert("/w/c.rs".to_string());
    let some = find_unsafe(&files, true, &Some(used));
    assert_eq!((some.functions.num, some.functions.unsafe_num), (1, 0));
    assert_eq!((some.exprs.num, some.exprs.unsafe_num), (1, 1));
    assert!(some.has_unsafe());
    assert_eq!(compact_unsafe_info(&some), "(0, 1, 0, 0, 0)");
    assert_eq!(
        geiger::raw::table_row(&some),
        format!("{: <9}  {: <11}  {: <5}  {: <6}  {: <7}", 0, 1, 0, 0, 0)
    );

    let readable: Vec<SourceFile> = files.into_iter().take(3).collect();
    let all = find_unsafe(&readable, true, &None);
    assert_eq!((all.functions.num, all.functions.unsafe_num), (2, 1));
    assert_eq!((all.exprs.num, all.exprs.unsafe_num), (2, 1));
    assert_eq!(UnsafeCounter::default().has_unsafe(), false);
    let mut c = geiger::raw::Count::default();
    c.count(true);
    c.count(false);
    assert_eq!((c.num, c.unsafe_num), (2, 1));
}

#[test]
fn the_scan_that_tests_its_numbers_gives_the_same_result() {
    let items = || vec![function(true, vec![], vec![unsafe_block(vec![expr(vec![])])])];
    assert_eq!(
        checked_find_unsafe_in_file(&file("a.rs", items()), IncludeTests::Yes),
        Some(find_unsafe_in_file(&file("a.rs", items()), IncludeTests::Yes))
    );
    let unreadable =
        SourceFile { path: "b.rs".to_string(), content: FileContent::Unreadable("gone".to_string()) };
    assert_eq!(
        checked_find_unsafe_in_file(&unreadable, IncludeTests::No),
        Some(Err(ScanFileError::Io("gone".to_string(), "b.rs".to_string())))
    );
}
