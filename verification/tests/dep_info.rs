use geiger::dep_info::{
    find_separator, is_whitespace, join_continued, parse_rustc_dep_info, split_lines,
    split_whitespace, DepInfoError,
};
use geiger::options::split_features;
use geiger::introspect::{
    arg_is_rs, collect_dep_paths, insert_path, inspect_invocation, resolve_rs_file_deps,
    CustomExecutorError, CustomExecutorInnerContext, DepInfoFile, Invocation, RsResolveError,
};

fn chars(s: &str) -> Vec<char> {
    s.chars().collect()
}

fn strings(v: &[&str]) -> Vec<String> {
    v.iter().map(|s| s.to_string()).collect()
}

#[test]
fn dep_info_lines_give_target_and_dependencies() {
    let text = "target/debug/libfoo.rlib: src/lib.rs src/a.rs\n\nsrc/lib.rs:\nsrc/a.rs: \n";
    assert_eq!(
        parse_rustc_dep_info(text),
        Ok(vec![
            ("target/debug/libfoo.rlib".to_string(), strings(&["src/lib.rs", "src/a.rs"])),
            ("src/a.rs".to_string(), vec![]),
        ])
    );
    assert_eq!(parse_rustc_dep_info(""), Ok(vec![]));
    assert_eq!(parse_rustc_dep_info("no separator here"), Ok(vec![]));
}

#[test]
fn a_backslash_joins_a_token_with_the_next() {
    assert_eq!(
        parse_rustc_dep_info("t: my\\ file.rs b\\ c\\ d.rs\tlast.rs\r\n"),
        Ok(vec![("t".to_string(), strings(&["my file.rs", "b c d.rs", "last.rs"]))])
    );
    // The first colon that a blank follows ends the target.
    assert_eq!(
        parse_rustc_dep_info("C:\\out\\x.d: C:\\src\\a.rs"),
        Ok(vec![("C:\\out\\x.d".to_string(), strings(&["C:\\src\\a.rs"]))])
    );
}

#[test]
fn a_dangling_continuation_is_an_error() {
    assert_eq!(
        parse_rustc_dep_info("a: b\nc: d\\\ne: f\n"),
        Err(DepInfoError::DanglingContinuation { line: 1 })
    );
    assert_eq!(
        parse_rustc_dep_info("a: b\\   \n"),
        Err(DepInfoError::DanglingContinuation { line: 0 })
    );
}

#[test]
fn the_steps_of_the_parser() {
    assert!(is_whitespace(' ') && is_whitespace('\t') && is_whitespace('\u{3000}'));
    assert!(!is_whitespace('a') && !is_whitespace('\\') && !is_whitespace('\u{200b}'));
    assert_eq!(split_lines(&chars("a\n\nb")), vec![chars("a"), chars(""), chars("b")]);
    assert_eq!(split_lines(&chars("a\n")), vec![chars("a")]);
    assert_eq!(split_whitespace(&chars("x:  a \t b"), 2), vec![chars("a"), chars("b")]);
    assert_eq!(split_whitespace(&chars("   "), 0), Vec::<Vec<char>>::new());
    assert_eq!(find_separator(&chars("a:b: c: d")), Some(3));
    assert_eq!(find_separator(&chars("a:")), None);
    assert_eq!(
        join_continued(&vec![chars("a\\"), chars("b"), chars("c")]),
        Some(vec![chars("a b"), chars("c")])
    );
    assert_eq!(join_continued(&vec![chars("a"), chars("b\\")]), None);
}

#[test]
fn an_invocation_gives_its_output_directory_and_source_files() {
    let args = strings(&[
        "--crate-name", "foo", "src/lib.rs", "--out-dir", "/t/debug/deps", "build.RS", "x.rs.bak",
        "--out-dir", "/other", ".rs",
    ]);
    assert_eq!(
        inspect_invocation(&args, "rustc --crate-name foo"),
        Ok(Invocation {
            out_dir: "/t/debug/deps".to_string(),
            rs_files: strings(&["src/lib.rs", "build.RS", ".rs"]),
        })
    );
    assert!(arg_is_rs("a.rs") && arg_is_rs("A.Rs") && !arg_is_rs("rs") && !arg_is_rs("a.rss"));
}

#[test]
fn an_invocation_without_output_directory_is_refused() {
    assert_eq!(
        inspect_invocation(&strings(&["src/lib.rs", "-C", "debuginfo=2"]), "rustc src/lib.rs"),
        Err(CustomExecutorError::OutDirKeyMissing("rustc src/lib.rs".to_string()))
    );
    assert_eq!(
        inspect_invocation(&strings(&["src/lib.rs", "--out-dir"]), "rustc x"),
        Err(CustomExecutorError::OutDirValueMissing("rustc x".to_string()))
    );
    assert_eq!(
        inspect_invocation(&vec![], ""),
        Err(CustomExecutorError::OutDirKeyMissing("".to_string()))
    );
}

#[test]
fn the_shared_state_holds_each_path_once() {
    let mut ctx = CustomExecutorInnerContext::new();
    ctx.record(strings(&["/w/src/lib.rs", "/w/build.rs"]), "/w/target/deps".to_string());
    ctx.record(strings(&["/w/src/lib.rs", "/w/src/main.rs"]), "/w/target/deps".to_string());
    ctx.record(vec![], "/w/target/build".to_string());
    assert_eq!(ctx.rs_file_args, strings(&["/w/src/lib.rs", "/w/build.rs", "/w/src/main.rs"]));
    assert_eq!(ctx.out_dir_args, strings(&["/w/target/deps", "/w/target/build"]));
    let mut paths = strings(&["a"]);
    assert!(!insert_path(&mut paths, "a".to_string()));
    assert!(insert_path(&mut paths, "b".to_string()));
    assert_eq!(paths, strings(&["a", "b"]));
}

#[test]
fn dependencies_of_all_files_are_collected_in_order() {
    let files = vec![
        DepInfoFile { path: "/t/a.d".to_string(), contents: "a: x.rs y\\ z.rs\nb: x.rs\n".to_string() },
        DepInfoFile { path: "/t/b.d".to_string(), contents: "".to_string() },
        DepInfoFile { path: "/t/c.d".to_string(), contents: "c: w.rs".to_string() },
    ];
    assert_eq!(collect_dep_paths(&files), Ok(strings(&["x.rs", "y z.rs", "x.rs", "w.rs"])));
}

#[test]
fn a_malformed_file_is_named_in_the_error() {
    let files = vec![
        DepInfoFile { path: "/t/a.d".to_string(), contents: "a: x.rs\n".to_string() },
        DepInfoFile { path: "/t/b.d".to_string(), contents: "b: x.rs\\\n".to_string() },
        DepInfoFile { path: "/t/c.d".to_string(), contents: "c: y.rs\\\n".to_string() },
    ];
    assert_eq!(
        collect_dep_paths(&files),
        Err(RsResolveError::DepParse(
            "malformed dep-info format, trailing \\".to_string(),
            "/t/b.d".to_string()
        ))
    );
}

#[test]
fn the_build_used_set_is_the_union_with_counters_at_zero() {
    let set = resolve_rs_file_deps(
        &strings(&["/w/src/a.rs", "/w/src/lib.rs", "/w/src/a.rs"]),
        &strings(&["/w/src/lib.rs", "/w/build.rs"]),
    );
    for p in ["/w/src/a.rs", "/w/src/lib.rs", "/w/build.rs"] {
        assert_eq!(set.get(p), Some(0));
        assert!(set.contains(p));
    }
    assert_eq!(set.get("/w/src/b.rs"), None);
    let mut unscanned = set.unscanned();
    unscanned.sort();
    assert_eq!(unscanned, strings(&["/w/build.rs", "/w/src/a.rs", "/w/src/lib.rs"]));
}

#[test]
fn features_are_the_fields_between_blanks() {
    assert_eq!(
        split_features(&Some("unit test features".to_string())),
        strings(&["unit", "test", "features"])
    );
    assert_eq!(split_features(&Some("".to_string())), strings(&[""]));
    assert_eq!(split_features(&None), strings(&[""]));
    assert_eq!(split_features(&Some(" a  b ".to_string())), strings(&["", "a", "", "b", ""]));
}
