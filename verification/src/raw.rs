//! Counting without a report: the files below a directory are scanned
//! each time the package is printed, and the counters hold totals in
//! place of the safe items.

use crate::counters::{BlockView, Count as SplitCount, CountView, CounterBlock, IncludeTests};
use crate::render::{padded, push_padded, push_spaces};
use crate::scan::{find_unsafe_in_file, scan_file, FileContent, SourceFile};
use crate::text::{decimal, push_char, push_decimal};
use crate::used::BuildUsedSet;
use vstd::prelude::*;

verus! {

/// Numbers of all items and of the unsafe items among them, without bound.
pub struct TotalView {
    pub num: nat,
    pub unsafe_num: nat,
}

/// Number of all items of one category, and of the unsafe ones among them.
#[derive(Debug, Clone, Copy, PartialEq, Eq, Structural)]
pub struct Count {
    /// Number of items.
    pub num: u64,
    /// Number of unsafe items.
    pub unsafe_num: u64,
}

impl View for Count {
    type V = TotalView;

    open spec fn view(&self) -> TotalView {
        TotalView { num: self.num as nat, unsafe_num: self.unsafe_num as nat }
    }
}

impl Default for Count {
    fn default() -> (r: Count)
        ensures
            r@ == (TotalView { num: 0, unsafe_num: 0 }),
    {
        Count { num: 0, unsafe_num: 0 }
    }
}

impl Count {
    /// Counts one item, and counts it as unsafe where it is.
    pub fn count(&mut self, is_unsafe: bool)
        requires
            old(self).num < u64::MAX,
            is_unsafe ==> old(self).unsafe_num < u64::MAX,
        ensures
            final(self).num == old(self).num + 1,
            final(self).unsafe_num == old(self).unsafe_num + if is_unsafe {
                1int
            } else {
                0int
            },
    {
        self.num = self.num + 1;
        if is_unsafe {
            self.unsafe_num = self.unsafe_num + 1;
        }
    }
}

/// The five totals of a directory, without bound.
pub struct UnsafeCounterView {
    pub functions: TotalView,
    pub exprs: TotalView,
    pub itemimpls: TotalView,
    pub itemtraits: TotalView,
    pub methods: TotalView,
}

/// The items of the files below a directory, by category.
#[derive(Debug, Clone, Copy, PartialEq, Eq, Structural)]
pub struct UnsafeCounter {
    pub functions: Count,
    pub exprs: Count,
    pub itemimpls: Count,
    pub itemtraits: Count,
    pub methods: Count,
}

impl View for UnsafeCounter {
    type V = UnsafeCounterView;

    open spec fn view(&self) -> UnsafeCounterView {
        UnsafeCounterView {
            functions: self.functions@,
            exprs: self.exprs@,
            itemimpls: self.itemimpls@,
            itemtraits: self.itemtraits@,
            methods: self.methods@,
        }
    }
}

impl Default for UnsafeCounter {
    fn default() -> (r: UnsafeCounter)
        ensures
            r@ == totals(BlockView::zero()),
    {
        let z = Count { num: 0, unsafe_num: 0 };
        UnsafeCounter { functions: z, exprs: z, itemimpls: z, itemtraits: z, methods: z }
    }
}

impl UnsafeCounter {
    /// Whether any category has counted an unsafe item.
    pub fn has_unsafe(&self) -> (r: bool)
        ensures
            r == (self@.functions.unsafe_num > 0 || self@.exprs.unsafe_num > 0
                || self@.itemimpls.unsafe_num > 0 || self@.itemtraits.unsafe_num > 0
                || self@.methods.unsafe_num > 0),
    {
        self.functions.unsafe_num > 0 || self.exprs.unsafe_num > 0 || self.itemimpls.unsafe_num > 0
            || self.itemtraits.unsafe_num > 0 || self.methods.unsafe_num > 0
    }
}

/// The total of a category: all its items, and the unsafe ones.
pub open spec fn total(c: CountView) -> TotalView {
    TotalView { num: c.safe + c.unsafe_, unsafe_num: c.unsafe_ }
}

/// The totals of the five categories.
pub open spec fn totals(b: BlockView) -> UnsafeCounterView {
    UnsafeCounterView {
        functions: total(b.functions),
        exprs: total(b.exprs),
        itemimpls: total(b.item_impls),
        itemtraits: total(b.item_traits),
        methods: total(b.methods),
    }
}

/// Whether the number of all items of each category fits a counter.
pub open spec fn totals_fit(b: BlockView) -> bool {
    &&& b.functions.safe + b.functions.unsafe_ <= u64::MAX
    &&& b.exprs.safe + b.exprs.unsafe_ <= u64::MAX
    &&& b.item_impls.safe + b.item_impls.unsafe_ <= u64::MAX
    &&& b.item_traits.safe + b.item_traits.unsafe_ <= u64::MAX
    &&& b.methods.safe + b.methods.unsafe_ <= u64::MAX
}

/// Whether a file is looked at: every file where no set of files is given,
/// else the files of the set.
pub open spec fn is_wanted(file: SourceFile, used: Option<BuildUsedSet>) -> bool {
    match used {
        Some(set) => set.uses(file.path@),
        None => true,
    }
}

/// The items of the first `n` files: those of the wanted files that could
/// be parsed, tests included.
pub open spec fn found(files: Seq<SourceFile>, n: int, used: Option<BuildUsedSet>) -> BlockView
    decreases n,
{
    if n <= 0 || n > files.len() {
        BlockView::zero()
    } else {
        let before = found(files, n - 1, used);
        match files[n - 1].content {
            FileContent::Syntax(s) => if is_wanted(files[n - 1], used) {
                before.plus(scan_file(s, IncludeTests::Yes))
            } else {
                before
            },
            _ => before,
        }
    }
}

proof fn lemma_found_grows(files: Seq<SourceFile>, m: int, n: int, used: Option<BuildUsedSet>)
    requires
        0 <= m <= n <= files.len(),
    ensures
        found(files, m, used).le(found(files, n, used)),
    decreases n - m,
{
    if m < n {
        lemma_found_grows(files, m, n - 1, used);
    }
}

fn total_of(c: &SplitCount) -> (r: Count)
    requires
        c@.safe + c@.unsafe_ <= u64::MAX,
    ensures
        r@ == total(c@),
{
    Count { num: c.safe + c.unsafe_, unsafe_num: c.unsafe_ }
}

/// Counts the items of the files below a directory. A file that is not
/// wanted is not looked at. A file that cannot be parsed is left out.
///
/// The files were read by the caller, who gives up on a file that cannot be
/// read, and on one that cannot be parsed unless partial results are
/// allowed.
pub fn find_unsafe(
    files: &Vec<SourceFile>,
    allow_partial_results: bool,
    rs_files_used: &Option<BuildUsedSet>,
) -> (r: UnsafeCounter)
    requires
        forall|k: int|
            0 <= k < files.len() && is_wanted(#[trigger] files[k], *rs_files_used) ==> (
            files[k].content is Syntax || (allow_partial_results
                && files[k].content is Unparsable)),
        totals_fit(found(files@, files.len() as int, *rs_files_used)),
    ensures
        r@ == totals(found(files@, files.len() as int, *rs_files_used)),
{
    let ghost all = found(files@, files.len() as int, *rs_files_used);
    let mut counters = CounterBlock::default();
    let mut i: usize = 0;
    while i < files.len()
        invariant
            i <= files.len(),
            all == found(files@, files.len() as int, *rs_files_used),
            totals_fit(all),
            counters@ == found(files@, i as int, *rs_files_used),
        decreases files.len() - i,
    {
        let wanted = match rs_files_used {
            Some(used) => used.contains(files[i].path.as_str()),
            None => true,
        };
        proof {
            lemma_found_grows(files@, i + 1, files.len() as int, *rs_files_used);
        }
        if wanted {
            match find_unsafe_in_file(&files[i], IncludeTests::Yes) {
                Ok(block) => {
                    counters = counters.add(block);
                },
                Err(_) => {},
            }
        }
        i = i + 1;
    }
    UnsafeCounter {
        functions: total_of(&counters.functions),
        exprs: total_of(&counters.exprs),
        itemimpls: total_of(&counters.item_impls),
        itemtraits: total_of(&counters.item_traits),
        methods: total_of(&counters.methods),
    }
}

/// The unsafe items of the five categories, each in its column, with two
/// blanks between two columns.
pub open spec fn raw_row_text(c: UnsafeCounterView) -> Seq<char> {
    padded(decimal(c.functions.unsafe_num), 9) + seq![' ', ' '] + padded(
        decimal(c.exprs.unsafe_num),
        11,
    ) + seq![' ', ' '] + padded(decimal(c.itemimpls.unsafe_num), 5) + seq![' ', ' '] + padded(
        decimal(c.itemtraits.unsafe_num),
        6,
    ) + seq![' ', ' '] + padded(decimal(c.methods.unsafe_num), 7)
}

/// The unsafe items of the five categories in round brackets, with a comma
/// and a blank between two numbers.
pub open spec fn compact_text(c: UnsafeCounterView) -> Seq<char> {
    seq!['('] + decimal(c.functions.unsafe_num) + seq![',', ' '] + decimal(c.exprs.unsafe_num)
        + seq![',', ' '] + decimal(c.itemimpls.unsafe_num) + seq![',', ' '] + decimal(
        c.itemtraits.unsafe_num,
    ) + seq![',', ' '] + decimal(c.methods.unsafe_num) + seq![')']
}

fn number_cell(n: u64) -> (r: String)
    ensures
        r@ == decimal(n as nat),
{
    let mut cell = String::new();
    push_decimal(&mut cell, n as u128);
    assert(cell@ =~= decimal(n as nat));
    cell
}

/// The unsafe items of a directory as the cells of its row.
pub fn table_row(count: &UnsafeCounter) -> (r: String)
    ensures
        r@ == raw_row_text(count@),
{
    let mut out = String::new();
    push_padded(&mut out, number_cell(count.functions.unsafe_num).as_str(), 9);
    push_spaces(&mut out, 2);
    push_padded(&mut out, number_cell(count.exprs.unsafe_num).as_str(), 11);
    push_spaces(&mut out, 2);
    push_padded(&mut out, number_cell(count.itemimpls.unsafe_num).as_str(), 5);
    push_spaces(&mut out, 2);
    push_padded(&mut out, number_cell(count.itemtraits.unsafe_num).as_str(), 6);
    push_spaces(&mut out, 2);
    push_padded(&mut out, number_cell(count.methods.unsafe_num).as_str(), 7);
    assert(crate::render::spaces(2) =~= seq![' ', ' ']);
    assert(out@ =~= raw_row_text(count@));
    out
}

/// The unsafe items of a directory in the short form.
pub fn compact_unsafe_info(count: &UnsafeCounter) -> (r: String)
    ensures
        r@ == compact_text(count@),
{
    let mut out = String::new();
    push_char(&mut out, '(');
    push_decimal(&mut out, count.functions.unsafe_num as u128);
    push_char(&mut out, ',');
    push_char(&mut out, ' ');
    push_decimal(&mut out, count.exprs.unsafe_num as u128);
    push_char(&mut out, ',');
    push_char(&mut out, ' ');
    push_decimal(&mut out, count.itemimpls.unsafe_num as u128);
    push_char(&mut out, ',');
    push_char(&mut out, ' ');
    push_decimal(&mut out, count.itemtraits.unsafe_num as u128);
    push_char(&mut out, ',');
    push_char(&mut out, ' ');
    push_decimal(&mut out, count.methods.unsafe_num as u128);
    push_char(&mut out, ')');
    assert(out@ =~= compact_text(count@));
    out
}

} // verus!
