//! Counters of safe and unsafe items, per category and per package.

use vstd::prelude::*;

verus! {

/// Numbers of safe and unsafe items, without bound.
pub struct CountView {
    pub safe: nat,
    pub unsafe_: nat,
}

impl CountView {
    /// Nothing counted.
    pub open spec fn zero() -> CountView {
        CountView { safe: 0, unsafe_: 0 }
    }

    /// One item counted, as unsafe or as safe.
    pub open spec fn one(is_unsafe: bool) -> CountView {
        if is_unsafe {
            CountView { safe: 0, unsafe_: 1 }
        } else {
            CountView { safe: 1, unsafe_: 0 }
        }
    }

    /// The component-wise sum.
    pub open spec fn plus(self, other: CountView) -> CountView {
        CountView { safe: self.safe + other.safe, unsafe_: self.unsafe_ + other.unsafe_ }
    }

    /// Whether both numbers fit a counter.
    pub open spec fn fits(self) -> bool {
        self.safe <= u64::MAX && self.unsafe_ <= u64::MAX
    }

    /// Whether no number exceeds that of `other`.
    pub open spec fn le(self, other: CountView) -> bool {
        self.safe <= other.safe && self.unsafe_ <= other.unsafe_
    }
}

/// Number of safe and unsafe items of one category.
#[derive(Debug, Clone, Copy, PartialEq, Eq, Structural)]
pub struct Count {
    /// Number of safe items.
    pub safe: u64,
    /// Number of unsafe items.
    pub unsafe_: u64,
}

impl View for Count {
    type V = CountView;

    open spec fn view(&self) -> CountView {
        CountView { safe: self.safe as nat, unsafe_: self.unsafe_ as nat }
    }
}

impl Default for Count {
    fn default() -> (r: Count)
        ensures
            r@ == CountView::zero(),
    {
        Count { safe: 0, unsafe_: 0 }
    }
}

impl Count {
    /// Counts one item, as unsafe or as safe.
    pub fn count(&mut self, is_unsafe: bool)
        requires
            old(self)@.plus(CountView::one(is_unsafe)).fits(),
        ensures
            final(self)@ == old(self)@.plus(CountView::one(is_unsafe)),
    {
        if is_unsafe {
            self.unsafe_ = self.unsafe_ + 1;
        } else {
            self.safe = self.safe + 1;
        }
    }

    /// Component-wise sum of two counts.
    pub fn add(self, other: Count) -> (r: Count)
        requires
            self@.plus(other@).fits(),
        ensures
            r@ == self@.plus(other@),
    {
        Count { safe: self.safe + other.safe, unsafe_: self.unsafe_ + other.unsafe_ }
    }
}

/// The five counts of a block, without bound.
pub struct BlockView {
    pub functions: CountView,
    pub exprs: CountView,
    pub item_impls: CountView,
    pub item_traits: CountView,
    pub methods: CountView,
}

impl BlockView {
    /// Nothing counted.
    pub open spec fn zero() -> BlockView {
        BlockView {
            functions: CountView::zero(),
            exprs: CountView::zero(),
            item_impls: CountView::zero(),
            item_traits: CountView::zero(),
            methods: CountView::zero(),
        }
    }

    /// The component-wise sum.
    pub open spec fn plus(self, other: BlockView) -> BlockView {
        BlockView {
            functions: self.functions.plus(other.functions),
            exprs: self.exprs.plus(other.exprs),
            item_impls: self.item_impls.plus(other.item_impls),
            item_traits: self.item_traits.plus(other.item_traits),
            methods: self.methods.plus(other.methods),
        }
    }

    /// Whether every number fits a counter.
    pub open spec fn fits(self) -> bool {
        &&& self.functions.fits()
        &&& self.exprs.fits()
        &&& self.item_impls.fits()
        &&& self.item_traits.fits()
        &&& self.methods.fits()
    }

    /// Whether no number exceeds that of `other`.
    pub open spec fn le(self, other: BlockView) -> bool {
        &&& self.functions.le(other.functions)
        &&& self.exprs.le(other.exprs)
        &&& self.item_impls.le(other.item_impls)
        &&& self.item_traits.le(other.item_traits)
        &&& self.methods.le(other.methods)
    }

    /// Whether some category holds an unsafe item.
    pub open spec fn has_unsafe(self) -> bool {
        self.functions.unsafe_ > 0 || self.exprs.unsafe_ > 0 || self.item_impls.unsafe_ > 0
            || self.item_traits.unsafe_ > 0 || self.methods.unsafe_ > 0
    }
}

/// Unsafe usage metrics of one file or of a set of files.
#[derive(Debug, Clone, Copy, PartialEq, Eq, Structural)]
pub struct CounterBlock {
    pub functions: Count,
    pub exprs: Count,
    pub item_impls: Count,
    pub item_traits: Count,
    pub methods: Count,
}

impl View for CounterBlock {
    type V = BlockView;

    open spec fn view(&self) -> BlockView {
        BlockView {
            functions: self.functions@,
            exprs: self.exprs@,
            item_impls: self.item_impls@,
            item_traits: self.item_traits@,
            methods: self.methods@,
        }
    }
}

impl Default for CounterBlock {
    fn default() -> (r: CounterBlock)
        ensures
            r@ == BlockView::zero(),
    {
        let z = Count { safe: 0, unsafe_: 0 };
        CounterBlock { functions: z, exprs: z, item_impls: z, item_traits: z, methods: z }
    }
}

impl CounterBlock {
    /// Whether any category has counted an unsafe item.
    pub fn has_unsafe(&self) -> (r: bool)
        ensures
            r == self@.has_unsafe(),
    {
        self.functions.unsafe_ > 0 || self.exprs.unsafe_ > 0 || self.item_impls.unsafe_ > 0
            || self.item_traits.unsafe_ > 0 || self.methods.unsafe_ > 0
    }

    /// Component-wise sum of two blocks.
    pub fn add(self, other: CounterBlock) -> (r: CounterBlock)
        requires
            self@.plus(other@).fits(),
        ensures
            r@ == self@.plus(other@),
    {
        CounterBlock {
            functions: self.functions.add(other.functions),
            exprs: self.exprs.add(other.exprs),
            item_impls: self.item_impls.add(other.item_impls),
            item_traits: self.item_traits.add(other.item_traits),
            methods: self.methods.add(other.methods),
        }
    }
}

/// The counters of a package, without bound.
pub struct PackageCountersView {
    pub used: BlockView,
    pub not_used: BlockView,
}

impl PackageCountersView {
    /// Nothing counted.
    pub open spec fn zero() -> PackageCountersView {
        PackageCountersView { used: BlockView::zero(), not_used: BlockView::zero() }
    }

    /// The counters after one more file, used by the build or not.
    pub open spec fn with_file(self, used_by_build: bool, file: BlockView) -> PackageCountersView {
        if used_by_build {
            PackageCountersView { used: self.used.plus(file), not_used: self.not_used }
        } else {
            PackageCountersView { used: self.used, not_used: self.not_used.plus(file) }
        }
    }

    /// Whether every number fits a counter.
    pub open spec fn fits(self) -> bool {
        self.used.fits() && self.not_used.fits()
    }
}

/// Counters of one package, split by whether the scanned file took part in
/// the build.
#[derive(Debug, Clone, Copy, PartialEq, Eq, Structural)]
pub struct PackageCounters {
    /// Unsafe usage in files used by the build.
    pub used: CounterBlock,
    /// Unsafe usage in files not used by the build.
    pub not_used: CounterBlock,
}

impl View for PackageCounters {
    type V = PackageCountersView;

    open spec fn view(&self) -> PackageCountersView {
        PackageCountersView { used: self.used@, not_used: self.not_used@ }
    }
}

impl Default for PackageCounters {
    fn default() -> (r: PackageCounters)
        ensures
            r@ == PackageCountersView::zero(),
    {
        PackageCounters { used: CounterBlock::default(), not_used: CounterBlock::default() }
    }
}

/// Whether code that is only compiled for tests is counted.
#[derive(Debug, Clone, Copy, PartialEq, Eq, Structural)]
pub enum IncludeTests {
    Yes,
    No,
}

} // verus!
