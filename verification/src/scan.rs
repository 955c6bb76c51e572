//! Counting the safe and unsafe items of a source file.

use crate::counters::{BlockView, Count, CountView, CounterBlock, IncludeTests};
use crate::syntax::{
    is_test_fn, is_test_mod, marks_test_fn, marks_test_mod, ExprKind, NodeKind, SyntaxNode,
};
use vstd::prelude::*;

verus! {

/// What reading and parsing of a source file gave.
#[derive(Debug)]
pub enum FileContent {
    /// The syntax tree of the file.
    Syntax(SyntaxNode),
    /// The file could not be read.
    Unreadable(String),
    /// The file is no UTF-8 text.
    NotUtf8(String),
    /// The text is no source file.
    Unparsable(String),
}

/// A source file, with what reading and parsing gave.
#[derive(Debug)]
pub struct SourceFile {
    pub path: String,
    pub content: FileContent,
}

/// Why a file has no counters. Each error holds the message of the reader
/// or parser, and the path of the file.
#[derive(Debug, Clone, PartialEq, Eq)]
pub enum ScanFileError {
    Io(String, String),
    Utf8(String, String),
    Syn(String, String),
}

impl ScanFileError {
    /// A copy of the error.
    pub fn duplicate(&self) -> (r: ScanFileError)
        ensures
            r == *self,
    {
        match self {
            ScanFileError::Io(m, p) => ScanFileError::Io(m.clone(), p.clone()),
            ScanFileError::Utf8(m, p) => ScanFileError::Utf8(m.clone(), p.clone()),
            ScanFileError::Syn(m, p) => ScanFileError::Syn(m.clone(), p.clone()),
        }
    }
}

/// One item counted in one category.
pub open spec fn one_function(is_unsafe: bool) -> BlockView {
    BlockView {
        functions: CountView::one(is_unsafe),
        exprs: CountView::zero(),
        item_impls: CountView::zero(),
        item_traits: CountView::zero(),
        methods: CountView::zero(),
    }
}

pub open spec fn one_expr(is_unsafe: bool) -> BlockView {
    BlockView {
        functions: CountView::zero(),
        exprs: CountView::one(is_unsafe),
        item_impls: CountView::zero(),
        item_traits: CountView::zero(),
        methods: CountView::zero(),
    }
}

pub open spec fn one_impl(is_unsafe: bool) -> BlockView {
    BlockView {
        functions: CountView::zero(),
        exprs: CountView::zero(),
        item_impls: CountView::one(is_unsafe),
        item_traits: CountView::zero(),
        methods: CountView::zero(),
    }
}

pub open spec fn one_trait(is_unsafe: bool) -> BlockView {
    BlockView {
        functions: CountView::zero(),
        exprs: CountView::zero(),
        item_impls: CountView::zero(),
        item_traits: CountView::one(is_unsafe),
        methods: CountView::zero(),
    }
}

pub open spec fn one_method(is_unsafe: bool) -> BlockView {
    BlockView {
        functions: CountView::zero(),
        exprs: CountView::zero(),
        item_impls: CountView::zero(),
        item_traits: CountView::zero(),
        methods: CountView::one(is_unsafe),
    }
}

/// Whether the node, with all that stands below it, is left out.
pub open spec fn skipped(kind: NodeKind, include_tests: IncludeTests) -> bool {
    match kind {
        NodeKind::Function { attrs, .. } => include_tests == IncludeTests::No && marks_test_fn(
            attrs@,
        ),
        NodeKind::Module { attrs } => include_tests == IncludeTests::No && marks_test_mod(attrs@),
        NodeKind::Expr(ExprKind::Path) => true,
        NodeKind::Expr(ExprKind::Lit) => true,
        _ => false,
    }
}

/// What the node itself counts as. Expressions are unsafe where they
/// stand inside an `unsafe` block; the block itself is not counted.
pub open spec fn own_count(kind: NodeKind, in_unsafe: bool) -> BlockView {
    match kind {
        NodeKind::Function { is_unsafe, .. } => one_function(is_unsafe),
        NodeKind::Impl { is_unsafe } => one_impl(is_unsafe),
        NodeKind::Trait { is_unsafe } => one_trait(is_unsafe),
        NodeKind::Method { is_unsafe } => one_method(is_unsafe),
        NodeKind::Expr(ExprKind::Other) => one_expr(in_unsafe),
        _ => BlockView::zero(),
    }
}

/// Whether what stands below the node stands inside an `unsafe` block.
pub open spec fn unsafe_below(kind: NodeKind, in_unsafe: bool) -> bool {
    in_unsafe || kind == NodeKind::Expr(ExprKind::Unsafe)
}

/// The counts of a node and of all that stands below it.
pub open spec fn scan_node(node: SyntaxNode, in_unsafe: bool, include_tests: IncludeTests) -> BlockView
    decreases node, 1nat, 0nat,
{
    if skipped(node.kind, include_tests) {
        BlockView::zero()
    } else {
        own_count(node.kind, in_unsafe).plus(
            scan_children(
                node,
                node.children.len() as int,
                unsafe_below(node.kind, in_unsafe),
                include_tests,
            ),
        )
    }
}

/// The counts of the first `n` nodes below a node.
pub open spec fn scan_children(
    node: SyntaxNode,
    n: int,
    in_unsafe: bool,
    include_tests: IncludeTests,
) -> BlockView
    decreases node, 0nat, n,
{
    if n <= 0 || n > node.children.len() {
        BlockView::zero()
    } else {
        scan_children(node, n - 1, in_unsafe, include_tests).plus(
            scan_node(node.children[n - 1], in_unsafe, include_tests),
        )
    }
}

/// The counts of a source file: all its items and expressions, none of
/// them inside an `unsafe` block to begin with.
pub open spec fn scan_file(syntax: SyntaxNode, include_tests: IncludeTests) -> BlockView {
    scan_node(syntax, false, include_tests)
}

/// The counts of the nodes below a node grow with each node.
proof fn lemma_children_grow(
    node: SyntaxNode,
    m: int,
    n: int,
    in_unsafe: bool,
    include_tests: IncludeTests,
)
    requires
        0 <= m <= n <= node.children.len(),
    ensures
        scan_children(node, m, in_unsafe, include_tests).le(
            scan_children(node, n, in_unsafe, include_tests),
        ),
    decreases n - m,
{
    if m < n {
        lemma_children_grow(node, m, n - 1, in_unsafe, include_tests);
    }
}

/// Whether the node, with all that stands below it, is left out.
fn is_skipped(kind: &NodeKind, include_tests: IncludeTests) -> (r: bool)
    ensures
        r == skipped(*kind, include_tests),
{
    match kind {
        NodeKind::Function { attrs, .. } => include_tests == IncludeTests::No && is_test_fn(attrs),
        NodeKind::Module { attrs } => include_tests == IncludeTests::No && is_test_mod(attrs),
        NodeKind::Expr(ExprKind::Path) => true,
        NodeKind::Expr(ExprKind::Lit) => true,
        _ => false,
    }
}

/// Counts one item, unless the counter is full. Says whether it counted.
fn count_one(count: &mut Count, is_unsafe: bool) -> (fits: bool)
    ensures
        fits == old(count)@.plus(CountView::one(is_unsafe)).fits(),
        fits ==> final(count)@ == old(count)@.plus(CountView::one(is_unsafe)),
        !fits ==> *final(count) == *old(count),
{
    let full = if is_unsafe {
        count.unsafe_ == u64::MAX
    } else {
        count.safe == u64::MAX
    };
    if full {
        false
    } else {
        count.count(is_unsafe);
        true
    }
}

/// Counts the node itself, unless its counter is full. Says whether it
/// counted.
fn count_own(kind: &NodeKind, in_unsafe: bool, counters: &mut CounterBlock) -> (fits: bool)
    ensures
        fits == old(counters)@.plus(own_count(*kind, in_unsafe)).fits(),
        fits ==> final(counters)@ == old(counters)@.plus(own_count(*kind, in_unsafe)),
{
    match kind {
        NodeKind::Function { is_unsafe, .. } => count_one(&mut counters.functions, *is_unsafe),
        NodeKind::Impl { is_unsafe } => count_one(&mut counters.item_impls, *is_unsafe),
        NodeKind::Trait { is_unsafe } => count_one(&mut counters.item_traits, *is_unsafe),
        NodeKind::Method { is_unsafe } => count_one(&mut counters.methods, *is_unsafe),
        NodeKind::Expr(ExprKind::Other) => count_one(&mut counters.exprs, in_unsafe),
        _ => true,
    }
}

/// Whether what stands below the node stands inside an `unsafe` block.
fn is_unsafe_below(kind: &NodeKind, in_unsafe: bool) -> (r: bool)
    ensures
        r == unsafe_below(*kind, in_unsafe),
{
    match kind {
        NodeKind::Expr(ExprKind::Unsafe) => true,
        _ => in_unsafe,
    }
}

/// A part of what fits, fits.
proof fn lemma_part_fits(a: BlockView, b: BlockView, c: BlockView)
    requires
        a.plus(c).fits(),
        b.le(c),
    ensures
        a.plus(b).fits(),
{
}

proof fn lemma_plus_assoc(a: BlockView, b: BlockView, c: BlockView)
    ensures
        a.plus(b).plus(c) == a.plus(b.plus(c)),
        b.le(b.plus(c)),
        c.le(b.plus(c)),
{
}

/// Whether `r` is what the scan of a file gives: the counts of its syntax
/// tree, or the error of its kind with what went wrong and the path of the
/// file.
pub open spec fn is_scan_of(
    file: SourceFile,
    include_tests: IncludeTests,
    r: Result<CounterBlock, ScanFileError>,
) -> bool {
    match file.content {
        FileContent::Syntax(s) => r matches Ok(c) && c@ == scan_file(s, include_tests),
        FileContent::Unreadable(m) => r matches Err(ScanFileError::Io(a, b)) && a@ == m@ && b@
            == file.path@,
        FileContent::NotUtf8(m) => r matches Err(ScanFileError::Utf8(a, b)) && a@ == m@ && b@
            == file.path@,
        FileContent::Unparsable(m) => r matches Err(ScanFileError::Syn(a, b)) && a@ == m@ && b@
            == file.path@,
    }
}

/// Two scans of files with the same content both succeed or both fail, and
/// where they succeed they give the same counters.
pub proof fn lemma_scan_deterministic(
    a: SourceFile,
    b: SourceFile,
    include_tests: IncludeTests,
    x: Result<CounterBlock, ScanFileError>,
    y: Result<CounterBlock, ScanFileError>,
)
    requires
        a.content == b.content,
        is_scan_of(a, include_tests, x),
        is_scan_of(b, include_tests, y),
    ensures
        x is Ok <==> y is Ok,
        x matches Ok(c) ==> y == Ok::<CounterBlock, ScanFileError>(c),
{
    if let Ok(c) = x {
        let d = y->Ok_0;
        assert(c@ == d@);
        assert(c.functions@ == d.functions@);
        assert(c.exprs@ == d.exprs@);
        assert(c.item_impls@ == d.item_impls@);
        assert(c.item_traits@ == d.item_traits@);
        assert(c.methods@ == d.methods@);
    }
}

/// Adds the counts of a node, and of all that stands below it, to the
/// counters, as long as the numbers fit. Says whether all of them did;
/// where they did not, the counters hold a part of the counts.
fn scan_into(
    node: &SyntaxNode,
    in_unsafe: bool,
    include_tests: IncludeTests,
    counters: &mut CounterBlock,
) -> (fits: bool)
    ensures
        fits == old(counters)@.plus(scan_node(*node, in_unsafe, include_tests)).fits(),
        fits ==> final(counters)@ == old(counters)@.plus(
            scan_node(*node, in_unsafe, include_tests),
        ),
    decreases *node,
{
    let ghost c0 = counters@;
    if is_skipped(&node.kind, include_tests) {
        assert(c0.plus(BlockView::zero()) == c0);
        return true;
    }
    let below = is_unsafe_below(&node.kind, in_unsafe);
    let n = node.children.len();
    let ghost own = own_count(node.kind, in_unsafe);
    let ghost all = scan_children(*node, n as int, below, include_tests);
    proof {
        assert(scan_node(*node, in_unsafe, include_tests) == own.plus(all));
        lemma_plus_assoc(c0, own, all);
        if c0.plus(own.plus(all)).fits() {
            lemma_part_fits(c0, own, own.plus(all));
        }
    }
    if !count_own(&node.kind, in_unsafe, counters) {
        return false;
    }
    let ghost c1 = counters@;
    assert(c1.plus(BlockView::zero()) == c1);
    let mut i: usize = 0;
    while i < n
        invariant
            n == node.children.len(),
            i <= n,
            all == scan_children(*node, n as int, below, include_tests),
            c0 == old(counters)@,
            c1 == c0.plus(own),
            scan_node(*node, in_unsafe, include_tests) == own.plus(all),
            counters@ == c1.plus(scan_children(*node, i as int, below, include_tests)),
        decreases n - i,
    {
        let ghost done = scan_children(*node, i as int, below, include_tests);
        let ghost next = scan_node(node.children[i as int], below, include_tests);
        proof {
            lemma_children_grow(*node, i + 1, n as int, below, include_tests);
            assert(scan_children(*node, i + 1, below, include_tests) == done.plus(next));
            lemma_plus_assoc(c1, done, next);
            lemma_plus_assoc(c0, own, all);
            if c1.plus(all).fits() {
                lemma_part_fits(c1, done.plus(next), all);
            }
        }
        if !scan_into(&node.children[i], below, include_tests, counters) {
            return false;
        }
        i = i + 1;
    }
    true
}

/// The counters of a source file, or the reason why it has none.
///
/// Functions, implementation blocks, traits and methods count once each,
/// as unsafe where they are declared `unsafe`. Expressions count once
/// each, as unsafe where they stand inside an `unsafe` block, except paths
/// and literals, which do not count, and the `unsafe` block itself. Unless
/// tests are included, functions marked as tests and modules compiled for
/// tests only are left out with all that they hold.
pub fn find_unsafe_in_file(file: &SourceFile, include_tests: IncludeTests) -> (r: Result<
    CounterBlock,
    ScanFileError,
>)
    requires
        file.content matches FileContent::Syntax(s) ==> scan_file(s, include_tests).fits(),
    ensures
        is_scan_of(*file, include_tests, r),
{
    checked_find_unsafe_in_file(file, include_tests).unwrap()
}

/// The counters of a source file, or the reason why it has none, for every
/// file: `None` where the file has more items of a kind than a counter
/// holds.
pub fn checked_find_unsafe_in_file(file: &SourceFile, include_tests: IncludeTests) -> (r: Option<
    Result<CounterBlock, ScanFileError>,
>)
    ensures
        r is None <==> (file.content matches FileContent::Syntax(s) && !scan_file(
            s,
            include_tests,
        ).fits()),
        r matches Some(scan) ==> is_scan_of(*file, include_tests, scan),
{
    match &file.content {
        FileContent::Syntax(syntax) => {
            let mut counters = CounterBlock::default();
            proof {
                let all = scan_file(*syntax, include_tests);
                assert(BlockView::zero().plus(all) == all);
            }
            if scan_into(syntax, false, include_tests, &mut counters) {
                Some(Ok(counters))
            } else {
                None
            }
        },
        FileContent::Unreadable(m) => Some(Err(ScanFileError::Io(m.clone(), file.path.clone()))),
        FileContent::NotUtf8(m) => Some(Err(ScanFileError::Utf8(m.clone(), file.path.clone()))),
        FileContent::Unparsable(m) => Some(Err(ScanFileError::Syn(m.clone(), file.path.clone()))),
    }
}

} // verus!
