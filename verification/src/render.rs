//! The tree as rows of text: the counters of each package, and what
//! stands in front of its name.

use crate::aggregate::GeigerContext;
use crate::counters::{Count, CountView, PackageCounters, PackageCountersView};
use crate::graph::DependencyGraph;
use crate::package::{DepKind, PackageId};
use crate::text::{decimal, push_char, push_decimal};
use crate::traversal::{walk_dependency_tree, walk_tree};
use crate::tree::{LineView, PrintConfig, TextTreeLine};
use std::collections::HashMap;
use vstd::prelude::*;
use vstd::string::{StrSliceExecFns, StringExecFns};

verus! {

broadcast use vstd::std_specs::hash::group_hash_axioms;

/// `n` blanks.
pub open spec fn spaces(n: nat) -> Seq<char> {
    Seq::new(n, |i: int| ' ')
}

/// A cell, filled up with blanks on its right to `width` characters. A cell
/// that is wider stays as it is.
pub open spec fn padded(cell: Seq<char>, width: nat) -> Seq<char> {
    if cell.len() >= width {
        cell
    } else {
        cell + spaces((width - cell.len()) as nat)
    }
}

/// The unsafe items of a category: those in files of the build, a stroke,
/// and those in all files.
pub open spec fn share(used: CountView, not_used: CountView) -> Seq<char> {
    decimal(used.unsafe_).push('/') + decimal(used.unsafe_ + not_used.unsafe_)
}

/// The width of the columns of counters, and of the column of the mark
/// that follows them.
pub open spec fn row_width() -> nat {
    50
}

/// The five cells of a package: functions, expressions, impls, traits and
/// methods, each in its column, with one blank between two columns.
pub open spec fn table_row_text(pc: PackageCountersView) -> Seq<char> {
    padded(share(pc.used.functions, pc.not_used.functions), 10).push(' ') + padded(
        share(pc.used.exprs, pc.not_used.exprs),
        12,
    ).push(' ') + padded(share(pc.used.item_impls, pc.not_used.item_impls), 6).push(' ') + padded(
        share(pc.used.item_traits, pc.not_used.item_traits),
        7,
    ).push(' ') + padded(share(pc.used.methods, pc.not_used.methods), 7)
}

/// Appends `n` blanks.
pub fn push_spaces(out: &mut String, n: usize)
    ensures
        final(out)@ == old(out)@ + spaces(n as nat),
{
    let mut i: usize = 0;
    assert(out@ =~= old(out)@ + spaces(0));
    while i < n
        invariant
            i <= n,
            out@ == old(out)@ + spaces(i as nat),
        decreases n - i,
    {
        push_char(out, ' ');
        i = i + 1;
        assert(spaces(i as nat) =~= spaces((i - 1) as nat).push(' '));
        assert(out@ =~= old(out)@ + spaces(i as nat));
    }
}

/// Appends a cell and the blanks that fill it up to `width` characters.
pub fn push_padded(out: &mut String, cell: &str, width: usize)
    ensures
        final(out)@ == old(out)@ + padded(cell@, width as nat),
{
    let n = cell.unicode_len();
    out.append(cell);
    if n < width {
        push_spaces(out, width - n);
        assert(out@ =~= old(out)@ + (cell@ + spaces((width - n) as nat)));
    }
}

/// The cell of one category.
fn share_cell(used: &Count, not_used: &Count) -> (r: String)
    ensures
        r@ == share(used@, not_used@),
{
    let mut cell = String::new();
    push_decimal(&mut cell, used.unsafe_ as u128);
    push_char(&mut cell, '/');
    push_decimal(&mut cell, used.unsafe_ as u128 + not_used.unsafe_ as u128);
    assert(cell@ =~= share(used@, not_used@));
    cell
}

/// The blanks that stand in place of the counters in a line without a
/// package.
pub fn table_row_empty() -> (r: String)
    ensures
        r@ == spaces(row_width()),
{
    let mut out = String::new();
    push_spaces(&mut out, 50);
    assert(out@ =~= spaces(50));
    out
}

/// The counters of a package as the cells of its row.
pub fn table_row(pc: &PackageCounters) -> (r: String)
    ensures
        r@ == table_row_text(pc@),
{
    let mut out = String::new();
    let functions = share_cell(&pc.used.functions, &pc.not_used.functions);
    push_padded(&mut out, functions.as_str(), 10);
    push_char(&mut out, ' ');
    let exprs = share_cell(&pc.used.exprs, &pc.not_used.exprs);
    push_padded(&mut out, exprs.as_str(), 12);
    push_char(&mut out, ' ');
    let item_impls = share_cell(&pc.used.item_impls, &pc.not_used.item_impls);
    push_padded(&mut out, item_impls.as_str(), 6);
    push_char(&mut out, ' ');
    let item_traits = share_cell(&pc.used.item_traits, &pc.not_used.item_traits);
    push_padded(&mut out, item_traits.as_str(), 7);
    push_char(&mut out, ' ');
    let methods = share_cell(&pc.used.methods, &pc.not_used.methods);
    push_padded(&mut out, methods.as_str(), 7);
    assert(out@ =~= table_row_text(pc@));
    out
}

/// One row of the printed tree.
#[derive(Debug, Clone, PartialEq, Eq)]
pub enum PrintedLine {
    /// The row of a package. The name of the package follows `lead`.
    Package {
        id: PackageId,
        /// Whether a file of the build holds an unsafe item.
        unsafe_found: bool,
        /// The cells of the counters.
        unsafe_info: String,
        /// The mark and what stands in front of the name.
        lead: String,
    },
    /// The heading of a group of dependencies.
    Group { text: String },
}

/// What a row of the printed tree says.
pub enum PrintedView {
    Package { id: PackageId, unsafe_found: bool, unsafe_info: Seq<char>, lead: Seq<char> },
    Group { text: Seq<char> },
}

impl View for PrintedLine {
    type V = PrintedView;

    open spec fn view(&self) -> PrintedView {
        match *self {
            PrintedLine::Package { id, unsafe_found, unsafe_info, lead } => PrintedView::Package {
                id,
                unsafe_found,
                unsafe_info: unsafe_info@,
                lead: lead@,
            },
            PrintedLine::Group { text } => PrintedView::Group { text: text@ },
        }
    }
}

/// The mark of a package with unsafe items, or a blank.
pub open spec fn mark(unsafe_found: bool) -> char {
    if unsafe_found {
        '☢'
    } else {
        ' '
    }
}

/// The heading of the dependencies of a kind.
pub open spec fn group_name(kind: DepKind) -> Seq<char> {
    match kind {
        DepKind::Normal => Seq::empty(),
        DepKind::Build => "[build-dependencies]"@,
        DepKind::Development => "[dev-dependencies]"@,
    }
}

/// The row of a line of the tree. The row of a package holds its counters,
/// then two blanks, the mark, a blank and the lines of the tree. A heading
/// stands below the names of the packages.
pub open spec fn printed(line: LineView, counters: Map<PackageId, PackageCounters>) -> PrintedView {
    match line {
        LineView::Package { id, tree_vines } => PrintedView::Package {
            id,
            unsafe_found: counters[id]@.used.has_unsafe(),
            unsafe_info: table_row_text(counters[id]@),
            lead: seq![' ', ' ', mark(counters[id]@.used.has_unsafe()), ' '] + tree_vines,
        },
        LineView::ExtraDepsGroup { kind, tree_vines } => PrintedView::Group {
            text: spaces(row_width()) + tree_vines + group_name(kind),
        },
    }
}

/// The rows of the lines of a tree.
pub open spec fn printed_lines(
    lines: Seq<LineView>,
    counters: Map<PackageId, PackageCounters>,
) -> Seq<PrintedView> {
    Seq::new(lines.len(), |i: int| printed(lines[i], counters))
}

/// What the rows of a printed tree say.
pub open spec fn printed_view(rows: Seq<PrintedLine>) -> Seq<PrintedView> {
    Seq::new(rows.len(), |i: int| rows[i]@)
}

/// The row of one line of the tree.
pub fn print_line(line: &TextTreeLine, counters: &HashMap<PackageId, PackageCounters>) -> (r:
    PrintedLine)
    requires
        line@ matches LineView::Package { id, .. } ==> counters@.contains_key(id),
    ensures
        r@ == printed(line@, counters@),
{
    match line {
        TextTreeLine::Package { id, tree_vines } => {
            let pack_counters = counters.get(id).unwrap();
            let unsafe_found = pack_counters.used.has_unsafe();
            let mut lead = String::new();
            push_spaces(&mut lead, 2);
            if unsafe_found {
                push_char(&mut lead, '☢');
            } else {
                push_char(&mut lead, ' ');
            }
            push_char(&mut lead, ' ');
            lead.append(tree_vines.as_str());
            assert(lead@ =~= seq![' ', ' ', mark(unsafe_found), ' '] + tree_vines@);
            PrintedLine::Package {
                id: *id,
                unsafe_found,
                unsafe_info: table_row(pack_counters),
                lead,
            }
        },
        TextTreeLine::ExtraDepsGroup { kind, tree_vines } => {
            let mut text = table_row_empty();
            text.append(tree_vines.as_str());
            match kind {
                DepKind::Normal => {},
                DepKind::Build => {
                    text.append("[build-dependencies]");
                },
                DepKind::Development => {
                    text.append("[dev-dependencies]");
                },
            }
            assert(text@ =~= spaces(row_width()) + tree_vines@ + group_name(*kind));
            PrintedLine::Group { text }
        },
    }
}

/// The rows of the tree below a package, in the order in which they are
/// printed.
pub fn print_tree(
    root_pack_id: PackageId,
    graph: &DependencyGraph,
    geiger_ctx: &GeigerContext,
    pc: &PrintConfig,
) -> (r: Vec<PrintedLine>)
    requires
        graph.wf(),
        graph@.nodes.contains(root_pack_id),
        forall|k: int|
            0 <= k < walk_tree(graph@, *pc, root_pack_id).len() ==> (#[trigger] walk_tree(
                graph@,
                *pc,
                root_pack_id,
            )[k] matches LineView::Package { id, .. }
                ==> geiger_ctx.pack_id_to_counters@.contains_key(id)),
    ensures
        printed_view(r@) == printed_lines(
            walk_tree(graph@, *pc, root_pack_id),
            geiger_ctx.pack_id_to_counters@,
        ),
{
    let lines = walk_dependency_tree(root_pack_id, graph, pc);
    let ghost walk = walk_tree(graph@, *pc, root_pack_id);
    let mut out: Vec<PrintedLine> = Vec::new();
    let mut i: usize = 0;
    while i < lines.len()
        invariant
            i <= lines.len(),
            lines.len() == walk.len(),
            forall|k: int| 0 <= k < lines.len() ==> (#[trigger] lines@[k])@ == walk[k],
            forall|k: int|
                0 <= k < walk.len() ==> (#[trigger] walk[k] matches LineView::Package { id, .. }
                    ==> geiger_ctx.pack_id_to_counters@.contains_key(id)),
            out.len() == i,
            forall|k: int|
                0 <= k < i ==> (#[trigger] out@[k])@ == printed(
                    walk[k],
                    geiger_ctx.pack_id_to_counters@,
                ),
        decreases lines.len() - i,
    {
        assert(lines@[i as int]@ == walk[i as int]);
        let row = print_line(&lines[i], &geiger_ctx.pack_id_to_counters);
        out.push(row);
        i = i + 1;
    }
    assert(printed_view(out@) =~= printed_lines(walk, geiger_ctx.pack_id_to_counters@));
    out
}

} // verus!
