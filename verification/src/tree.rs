//! The dependency tree as a list of lines.

use crate::counters::IncludeTests;
use crate::graph::EdgeDirection;
use crate::package::{DepKind, PackageId};
use crate::text::{decimal, push_decimal, str_eq};
use std::str::FromStr;
use vstd::prelude::*;
use vstd::string::StringExecFns;

verus! {

/// The characters that the tree is drawn with.
#[derive(Debug, Clone, Copy, PartialEq, Eq, Structural)]
pub enum Charset {
    Utf8,
    Ascii,
}

/// The character set of a name: `utf8` and `ascii` are the two names.
pub open spec fn charset_of(name: Seq<char>) -> Option<Charset> {
    if name == "utf8"@ {
        Some(Charset::Utf8)
    } else if name == "ascii"@ {
        Some(Charset::Ascii)
    } else {
        None
    }
}

impl FromStr for Charset {
    type Err = &'static str;

    /// The character set of a name, or the complaint about the name.
    fn from_str(s: &str) -> (r: Result<Charset, &'static str>)
        ensures
            match r {
                Ok(charset) => charset_of(s@) == Some(charset),
                Err(complaint) => charset_of(s@) is None && complaint@ == "invalid charset"@,
            },
    {
        if str_eq(s, "utf8") {
            Ok(Charset::Utf8)
        } else if str_eq(s, "ascii") {
            Ok(Charset::Ascii)
        } else {
            Err("invalid charset")
        }
    }
}

/// What stands in front of a package's name.
#[derive(Debug, Clone, Copy, PartialEq, Eq, Structural)]
pub enum Prefix {
    /// Nothing.
    NoPrefix,
    /// The lines of the tree.
    Indent,
    /// The depth of the package, as a number.
    Depth,
}

/// The pieces that the lines of the tree are made of.
#[derive(Debug, Clone, Copy)]
pub struct Symbols {
    pub down: &'static str,
    pub tee: &'static str,
    pub ell: &'static str,
    pub right: &'static str,
}

/// How the tree is walked and drawn.
#[derive(Debug, Clone, Copy)]
pub struct PrintConfig {
    /// Expand a package each time it is met, not only the first time.
    pub all: bool,
    /// Follow the dependencies of a package, or the packages that depend
    /// on it.
    pub direction: EdgeDirection,
    pub prefix: Prefix,
    pub charset: Charset,
    pub allow_partial_results: bool,
    pub include_tests: IncludeTests,
}

/// The symbols of a character set.
pub open spec fn tree_symbols(charset: Charset) -> Symbols {
    match charset {
        Charset::Utf8 => Symbols { down: "│", tee: "├", ell: "└", right: "─" },
        Charset::Ascii => Symbols { down: "|", tee: "|", ell: "`", right: "-" },
    }
}

/// The symbols of a character set.
pub fn get_tree_symbols(charset: Charset) -> (r: Symbols)
    ensures
        r == tree_symbols(charset),
{
    match charset {
        Charset::Utf8 => Symbols { down: "│", tee: "├", ell: "└", right: "─" },
        Charset::Ascii => Symbols { down: "|", tee: "|", ell: "`", right: "-" },
    }
}

/// One column of four characters for each level: the `down` symbol where
/// the level has more packages to come, a blank where it has none.
pub open spec fn indent(levels: Seq<bool>, down: Seq<char>) -> Seq<char>
    decreases levels.len(),
{
    if levels.len() == 0 {
        Seq::empty()
    } else {
        indent(levels.drop_last(), down) + (if levels.last() {
            down
        } else {
            " "@
        }) + "   "@
    }
}

/// What stands in front of the name of a package. `levels` says, for each
/// level from the root down to the package, whether more packages follow
/// on that level.
pub open spec fn tree_vines(levels: Seq<bool>, prefix: Prefix, symbols: Symbols) -> Seq<char> {
    match prefix {
        Prefix::Depth => decimal(levels.len()) + " "@,
        Prefix::Indent => if levels.len() == 0 {
            Seq::empty()
        } else {
            indent(levels.drop_last(), symbols.down@) + (if levels.last() {
                symbols.tee@
            } else {
                symbols.ell@
            }) + symbols.right@ + symbols.right@ + " "@
        },
        Prefix::NoPrefix => Seq::empty(),
    }
}

/// Appends the columns of the first `n` levels.
pub(crate) fn push_indent(buf: &mut String, levels: &Vec<bool>, n: usize, down: &str)
    requires
        n <= levels.len(),
    ensures
        final(buf)@ == old(buf)@ + indent(levels@.take(n as int), down@),
{
    let mut i: usize = 0;
    assert(levels@.take(0) =~= Seq::<bool>::empty());
    while i < n
        invariant
            i <= n <= levels.len(),
            buf@ == old(buf)@ + indent(levels@.take(i as int), down@),
        decreases n - i,
    {
        let ghost before = buf@;
        if levels[i] {
            buf.append(down);
        } else {
            buf.append(" ");
        }
        buf.append("   ");
        i = i + 1;
        proof {
            let t = levels@.take(i as int);
            assert(t.drop_last() =~= levels@.take(i - 1));
            assert(t.last() == levels@[i - 1]);
            let col = if levels@[i - 1] {
                down@
            } else {
                " "@
            };
            assert(buf@ =~= before + col + "   "@);
            assert(buf@ =~= old(buf)@ + (indent(levels@.take(i - 1), down@) + col + "   "@));
        }
    }
}

/// What stands in front of the name of a package in its line of the tree.
pub fn construct_tree_vines_string(levels_continue: &Vec<bool>, print_config: &PrintConfig) -> (r:
    String)
    ensures
        r@ == tree_vines(levels_continue@, print_config.prefix, tree_symbols(print_config.charset)),
{
    let symbols = get_tree_symbols(print_config.charset);
    let mut buf = String::new();
    match print_config.prefix {
        Prefix::Depth => {
            push_decimal(&mut buf, levels_continue.len() as u128);
            buf.append(" ");
        },
        Prefix::Indent => {
            let n = levels_continue.len();
            if n > 0 {
                push_indent(&mut buf, levels_continue, n - 1, symbols.down);
                assert(levels_continue@.take(n - 1) =~= levels_continue@.drop_last());
                if levels_continue[n - 1] {
                    buf.append(symbols.tee);
                } else {
                    buf.append(symbols.ell);
                }
                buf.append(symbols.right);
                buf.append(symbols.right);
                buf.append(" ");
            }
        },
        Prefix::NoPrefix => {},
    }
    buf
}

/// The order of package identities.
pub open spec fn id_leq() -> spec_fn(PackageId, PackageId) -> bool {
    |a: PackageId, b: PackageId| a <= b
}

/// The identities in ascending order.
pub open spec fn sorted_ids(ids: Seq<PackageId>) -> Seq<PackageId> {
    ids.sort_by(id_leq())
}

/// Sorting gives an ascending sequence that holds each identity as often
/// as before, and gives the same for every order in which the identities
/// come.
pub proof fn lemma_sorted_ids(a: Seq<PackageId>, b: Seq<PackageId>)
    requires
        a.to_multiset() == b.to_multiset(),
    ensures
        sorted_ids(a) == sorted_ids(b),
        sorted_ids(a).to_multiset() == a.to_multiset(),
        sorted_ids(a).len() == a.len(),
        forall|x: PackageId| a.contains(x) <==> #[trigger] sorted_ids(a).contains(x),
        forall|i: int, j: int|
            0 <= i <= j < sorted_ids(a).len() ==> sorted_ids(a)[i] <= sorted_ids(a)[j],
{
    let leq = id_leq();
    assert(vstd::relations::total_ordering(leq));
    a.lemma_sort_by_ensures(leq);
    b.lemma_sort_by_ensures(leq);
    vstd::seq_lib::lemma_sorted_unique(sorted_ids(a), sorted_ids(b), leq);
    let s = sorted_ids(a);
    vstd::seq_lib::to_multiset_len(a);
    vstd::seq_lib::to_multiset_len(s);
    assert forall|x: PackageId| a.contains(x) <==> #[trigger] s.contains(x) by {
        vstd::seq_lib::to_multiset_contains(a, x);
        vstd::seq_lib::to_multiset_contains(s, x);
    }
    assert forall|i: int, j: int| 0 <= i <= j < s.len() implies s[i] <= s[j] by {
        if i < j {
            assert(leq(s[i], s[j]));
        }
    }
}

/// Sorts package identities in ascending order.
pub fn sort_ids(ids: &mut Vec<PackageId>)
    ensures
        final(ids)@ == sorted_ids(old(ids)@),
{
    broadcast use vstd::seq_lib::group_to_multiset_ensures;

    let ghost leq = id_leq();
    let mut out: Vec<PackageId> = Vec::new();
    let mut k: usize = 0;
    assert(ids@.take(0) =~= Seq::<PackageId>::empty());
    while k < ids.len()
        invariant
            k <= ids.len(),
            ids@ == old(ids)@,
            out@.to_multiset() == ids@.take(k as int).to_multiset(),
            forall|i: int, j: int| 0 <= i < j < out@.len() ==> out@[i] <= out@[j],
        decreases ids.len() - k,
    {
        let x = ids[k];
        let mut p: usize = 0;
        while p < out.len() && out[p] <= x
            invariant
                p <= out.len(),
                forall|i: int| 0 <= i < p ==> out@[i] <= x,
            decreases out.len() - p,
        {
            p = p + 1;
        }
        let ghost before = out@;
        out.insert(p, x);
        proof {
            assert(ids@.take(k + 1) =~= ids@.take(k as int).push(x));
            assert(out@ == before.insert(p as int, x));
            vstd::seq_lib::to_multiset_insert(before, p as int, x);
            vstd::seq_lib::to_multiset_build(ids@.take(k as int), x);
            assert forall|i: int, j: int| 0 <= i < j < out@.len() implies out@[i] <= out@[j] by {
                if i < p && j > p {
                    assert(out@[i] == before[i]);
                    assert(out@[j] == before[j - 1]);
                } else if i < p && j < p {
                    assert(out@[i] == before[i]);
                    assert(out@[j] == before[j]);
                } else if i > p {
                    assert(out@[i] == before[i - 1]);
                    assert(out@[j] == before[j - 1]);
                } else if i == p {
                    assert(out@[j] == before[j - 1]);
                }
            }
        }
        k = k + 1;
    }
    proof {
        assert(ids@.take(ids.len() as int) =~= ids@);
        assert(vstd::relations::total_ordering(leq));
        old(ids)@.lemma_sort_by_ensures(leq);
        assert(vstd::relations::sorted_by(out@, leq)) by {
            assert forall|i: int, j: int| 0 <= i < j < out@.len() implies #[trigger] leq(
                out@[i],
                out@[j],
            ) by {}
        }
        vstd::seq_lib::lemma_sorted_unique(out@, sorted_ids(old(ids)@), leq);
    }
    *ids = out;
}

/// One line of the tree.
#[derive(Debug, Clone, PartialEq, Eq)]
pub enum TextTreeLine {
    /// A package, with what stands in front of its name.
    Package { id: PackageId, tree_vines: String },
    /// The heading of the build or development dependencies of a package.
    ExtraDepsGroup { kind: DepKind, tree_vines: String },
}

/// What one line of the tree says.
pub enum LineView {
    Package { id: PackageId, tree_vines: Seq<char> },
    ExtraDepsGroup { kind: DepKind, tree_vines: Seq<char> },
}

impl View for TextTreeLine {
    type V = LineView;

    open spec fn view(&self) -> LineView {
        match *self {
            TextTreeLine::Package { id, tree_vines } => LineView::Package {
                id,
                tree_vines: tree_vines@,
            },
            TextTreeLine::ExtraDepsGroup { kind, tree_vines } => LineView::ExtraDepsGroup {
                kind,
                tree_vines: tree_vines@,
            },
        }
    }
}

/// What the lines of a tree say.
pub open spec fn lines_view(lines: Seq<TextTreeLine>) -> Seq<LineView> {
    Seq::new(lines.len(), |i: int| lines[i]@)
}

} // verus!
