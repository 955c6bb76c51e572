//! Adding up the counters of the scanned files, package by package.

use crate::counters::{BlockView, CounterBlock, PackageCounters, PackageCountersView};
use crate::package::PackageId;
use crate::scan::ScanFileError;
use crate::used::BuildUsedSet;
use std::collections::HashMap;
use vstd::prelude::*;

verus! {

broadcast use vstd::std_specs::hash::group_hash_axioms;

/// A source file of a package, with what its scan gave.
#[derive(Debug)]
pub struct ScannedFile {
    pub package: PackageId,
    pub path: String,
    pub scan: Result<CounterBlock, ScanFileError>,
}

/// The counters of the packages, and the files of the build with the
/// number of times each was scanned.
#[derive(Debug)]
pub struct GeigerContext {
    pub pack_id_to_counters: HashMap<PackageId, PackageCounters>,
    pub rs_files_used: BuildUsedSet,
}

/// The counters of a package after the first `n` files: the sum of the
/// counters of its files that were scanned, those that the build used
/// apart from those that it did not.
pub open spec fn counted(
    files: Seq<ScannedFile>,
    n: int,
    used: BuildUsedSet,
    package: PackageId,
) -> PackageCountersView
    decreases n,
{
    if n <= 0 || n > files.len() {
        PackageCountersView::zero()
    } else {
        let before = counted(files, n - 1, used, package);
        let file = files[n - 1];
        match file.scan {
            Ok(c) => if file.package == package {
                before.with_file(used.uses(file.path@), c@)
            } else {
                before
            },
            Err(_) => before,
        }
    }
}

/// Whether one of the first `n` files belongs to the package and was
/// scanned.
pub open spec fn has_counters(files: Seq<ScannedFile>, n: int, package: PackageId) -> bool {
    exists|i: int|
        0 <= i < n && i < files.len() && (#[trigger] files[i]).package == package
            && files[i].scan is Ok
}

/// The number of the first `n` files that have the given path.
pub open spec fn scans(files: Seq<ScannedFile>, n: int, path: Seq<char>) -> nat
    decreases n,
{
    if n <= 0 || n > files.len() {
        0
    } else if files[n - 1].path@ == path {
        scans(files, n - 1, path) + 1
    } else {
        scans(files, n - 1, path)
    }
}

/// The first of the first `n` files whose scan failed.
pub open spec fn first_failure(files: Seq<ScannedFile>, n: int) -> Option<int>
    decreases n,
{
    if n <= 0 || n > files.len() {
        None
    } else {
        match first_failure(files, n - 1) {
            Some(k) => Some(k),
            None => if files[n - 1].scan is Err {
                Some(n - 1)
            } else {
                None
            },
        }
    }
}

/// The counter of a path after the scans of all files: what it was, and
/// one more for each file with that path.
pub open spec fn count_after(used: BuildUsedSet, files: Seq<ScannedFile>, n: int, path: Seq<char>)
    -> Option<nat> {
    match used.count(path) {
        Some(c) => Some(c + scans(files, n, path)),
        None => None,
    }
}

/// What the counters of the packages and the counters of the files are
/// after the scans of all files: a package has counters where one of its
/// files was scanned, and they are the sums over its files; the counter of
/// a file of the build has gone up by the number of scans of the file.
pub open spec fn is_context_of(ctx: GeigerContext, files: Seq<ScannedFile>, used: BuildUsedSet)
    -> bool {
    &&& ctx.rs_files_used.wf()
    &&& forall|package: PackageId|
        ctx.pack_id_to_counters@.contains_key(package) <==> has_counters(
            files,
            files.len() as int,
            package,
        )
    &&& forall|package: PackageId|
        #[trigger] ctx.pack_id_to_counters@.contains_key(package)
            ==> ctx.pack_id_to_counters@[package]@ == counted(
            files,
            files.len() as int,
            used,
            package,
        )
    &&& forall|p: Seq<char>|
        #[trigger] ctx.rs_files_used.count(p) == count_after(used, files, files.len() as int, p)
}

/// Whether `r` is what the scans of all files add up to. It is the
/// counters where partial results are allowed or no scan failed, and else
/// the error of the first scan that failed.
pub open spec fn is_aggregate_of(
    r: Result<GeigerContext, ScanFileError>,
    files: Seq<ScannedFile>,
    used: BuildUsedSet,
    allow_partial_results: bool,
) -> bool {
    &&& r is Ok <==> (allow_partial_results || first_failure(files, files.len() as int) is None)
    &&& match r {
        Ok(ctx) => is_context_of(ctx, files, used),
        Err(e) => first_failure(files, files.len() as int) matches Some(k) && files[k].scan
            == Err::<CounterBlock, ScanFileError>(e),
    }
}

/// The number of items that a block has counted.
pub open spec fn weight(b: BlockView) -> nat {
    b.functions.safe + b.functions.unsafe_ + b.exprs.safe + b.exprs.unsafe_ + b.item_impls.safe
        + b.item_impls.unsafe_ + b.item_traits.safe + b.item_traits.unsafe_ + b.methods.safe
        + b.methods.unsafe_
}

/// The number of items that the scans of the first `n` files have counted.
pub open spec fn all_items(files: Seq<ScannedFile>, n: int) -> nat
    decreases n,
{
    if n <= 0 || n > files.len() {
        0
    } else {
        all_items(files, n - 1) + match files[n - 1].scan {
            Ok(c) => weight(c@),
            Err(_) => 0,
        }
    }
}

/// Whether the numbers are small enough to be added up whatever package
/// the files belong to: the items of all files together fit a counter, and
/// the counter of each file of the build has room for one scan of every
/// file.
pub open spec fn sums_fit(files: Seq<ScannedFile>, used: BuildUsedSet) -> bool {
    &&& all_items(files, files.len() as int) <= u64::MAX
    &&& forall|p: Seq<char>| #[trigger] used.count(p) matches Some(c) ==> c + files.len() <= u64::MAX
}

proof fn lemma_all_items_grow(files: Seq<ScannedFile>, m: int, n: int)
    requires
        0 <= m <= n <= files.len(),
    ensures
        all_items(files, m) <= all_items(files, n),
    decreases n - m,
{
    if m < n {
        lemma_all_items_grow(files, m, n - 1);
    }
}

/// A package has counted no more items than all files hold.
proof fn lemma_counted_bound(files: Seq<ScannedFile>, n: int, used: BuildUsedSet, package: PackageId)
    requires
        0 <= n <= files.len(),
    ensures
        weight(counted(files, n, used, package).used) + weight(
            counted(files, n, used, package).not_used,
        ) <= all_items(files, n),
    decreases n,
{
    if n > 0 {
        lemma_counted_bound(files, n - 1, used, package);
    }
}

/// The counters of a package grow with each file.
proof fn lemma_counted_grows(
    files: Seq<ScannedFile>,
    m: int,
    n: int,
    used: BuildUsedSet,
    package: PackageId,
)
    requires
        0 <= m <= n <= files.len(),
    ensures
        counted(files, m, used, package).used.le(counted(files, n, used, package).used),
        counted(files, m, used, package).not_used.le(counted(files, n, used, package).not_used),
    decreases n - m,
{
    if m < n {
        lemma_counted_grows(files, m, n - 1, used, package);
    }
}

proof fn lemma_scans_bound(files: Seq<ScannedFile>, n: int, path: Seq<char>)
    requires
        0 <= n <= files.len(),
    ensures
        scans(files, n, path) <= n,
    decreases n,
{
    if n > 0 {
        lemma_scans_bound(files, n - 1, path);
    }
}

proof fn lemma_failure_stays(files: Seq<ScannedFile>, m: int, n: int)
    requires
        0 <= m <= n <= files.len(),
        first_failure(files, m) is Some,
    ensures
        first_failure(files, n) == first_failure(files, m),
    decreases n,
{
    if n > m {
        lemma_failure_stays(files, m, n - 1);
    }
}

/// The counters of a package after one more file of it.
fn with_file(current: PackageCounters, used_by_build: bool, file: CounterBlock) -> (r:
    PackageCounters)
    requires
        current@.with_file(used_by_build, file@).fits(),
    ensures
        r@ == current@.with_file(used_by_build, file@),
{
    if used_by_build {
        PackageCounters { used: current.used.add(file), not_used: current.not_used }
    } else {
        PackageCounters { used: current.used, not_used: current.not_used.add(file) }
    }
}

/// Adds up the counters of the scanned files for each package, the files
/// that the build used apart from the others, and counts one scan for each
/// file that the build used.
///
/// A file whose scan failed has no counters. With partial results allowed
/// it is passed over; else the first such file ends the run with its
/// error. A package none of whose files was scanned has no counters at
/// all.
pub fn find_unsafe_in_packages(
    files: &Vec<ScannedFile>,
    rs_files_used: BuildUsedSet,
    allow_partial_results: bool,
) -> (r: Result<GeigerContext, ScanFileError>)
    requires
        rs_files_used.wf(),
        forall|package: PackageId|
            #[trigger] counted(files@, files.len() as int, rs_files_used, package).fits(),
        forall|p: Seq<char>|
            #[trigger] rs_files_used.count(p) matches Some(c) ==> c + files.len() <= u64::MAX,
    ensures
        is_aggregate_of(r, files@, rs_files_used, allow_partial_results),
{
    let mut map: HashMap<PackageId, PackageCounters> = HashMap::new();
    let mut used = rs_files_used;
    let ghost u0 = rs_files_used;
    let n = files.len();
    let mut i: usize = 0;
    while i < n
        invariant
            n == files.len(),
            i <= n,
            used.wf(),
            u0.wf(),
            forall|package: PackageId| #[trigger] counted(files@, n as int, u0, package).fits(),
            forall|p: Seq<char>| #[trigger] u0.count(p) matches Some(c) ==> c + n <= u64::MAX,
            allow_partial_results || first_failure(files@, i as int) is None,
            forall|package: PackageId|
                map@.contains_key(package) <==> has_counters(files@, i as int, package),
            forall|package: PackageId| #[trigger]
                map@.contains_key(package) ==> map@[package]@ == counted(
                    files@,
                    i as int,
                    u0,
                    package,
                ),
            forall|p: Seq<char>| #[trigger] used.count(p) == count_after(u0, files@, i as int, p),
        decreases n - i,
    {
        let file = &files[i];
        let ghost map0 = map@;
        proof {
            lemma_scans_bound(files@, i as int, file.path@);
            assert(used.count(file.path@) == count_after(u0, files@, i as int, file.path@));
        }
        let used_by_build = used.mark(file.path.as_str());
        proof {
            assert(used_by_build == u0.uses(file.path@));
            assert forall|p: Seq<char>| #[trigger]
                used.count(p) == count_after(u0, files@, i + 1, p) by {
                assert(count_after(u0, files@, i as int, p) == match u0.count(p) {
                    Some(c) => Some(c + scans(files@, i as int, p)),
                    None => None,
                });
            }
        }
        match &file.scan {
            Err(e) => {
                if !allow_partial_results {
                    proof {
                        assert(first_failure(files@, i + 1) == Some(i as int));
                        lemma_failure_stays(files@, i + 1, n as int);
                    }
                    return Err(e.duplicate());
                }
                proof {
                    assert forall|package: PackageId|
                        map@.contains_key(package) <==> has_counters(
                            files@,
                            i + 1,
                            package,
                        ) by {
                        if has_counters(files@, i + 1, package) {
                            let k = choose|k: int|
                                0 <= k < i + 1 && k < files@.len() && (#[trigger] files@[k]).package
                                    == package && files@[k].scan is Ok;
                            assert(k < i);
                        }
                        if has_counters(files@, i as int, package) {
                            let k = choose|k: int|
                                0 <= k < i && k < files@.len() && (#[trigger] files@[k]).package
                                    == package && files@[k].scan is Ok;
                        }
                    }
                }
            },
            Ok(c) => {
                let package = file.package;
                let current = match map.get(&package) {
                    Some(pc) => *pc,
                    None => PackageCounters::default(),
                };
                proof {
                    lemma_counted_grows(files@, i + 1, n as int, u0, package);
                    if !map0.contains_key(package) {
                        lemma_counted_zero(files@, i as int, u0, package);
                    }
                    assert(current@ == counted(files@, i as int, u0, package));
                    assert(counted(files@, n as int, u0, package).fits());
                }
                let next = with_file(current, used_by_build, *c);
                map.insert(package, next);
                proof {
                    assert forall|q: PackageId|
                        map@.contains_key(q) <==> has_counters(files@, i + 1, q) by {
                        if has_counters(files@, i + 1, q) {
                            let k = choose|k: int|
                                0 <= k < i + 1 && k < files@.len() && (#[trigger] files@[k]).package
                                    == q && files@[k].scan is Ok;
                            if k < i {
                                assert(has_counters(files@, i as int, q));
                            }
                        }
                        if map0.contains_key(q) {
                            let k = choose|k: int|
                                0 <= k < i && k < files@.len() && (#[trigger] files@[k]).package
                                    == q && files@[k].scan is Ok;
                        }
                        if q == package {
                            assert(files@[i as int].package == q);
                        }
                    }
                }
            },
        }
        i = i + 1;
    }
    proof {
        if !allow_partial_results {
            assert(first_failure(files@, n as int) is None);
        }
    }
    Ok(GeigerContext { pack_id_to_counters: map, rs_files_used: used })
}

/// The number of items that a block has counted.
fn items_of(block: &CounterBlock) -> (r: u128)
    ensures
        r == weight(block@),
{
    let functions: u128 = block.functions.safe as u128 + block.functions.unsafe_ as u128;
    let exprs: u128 = block.exprs.safe as u128 + block.exprs.unsafe_ as u128;
    let item_impls: u128 = block.item_impls.safe as u128 + block.item_impls.unsafe_ as u128;
    let item_traits: u128 = block.item_traits.safe as u128 + block.item_traits.unsafe_ as u128;
    let methods: u128 = block.methods.safe as u128 + block.methods.unsafe_ as u128;
    functions + exprs + item_impls + item_traits + methods
}

/// Whether the items of all files together fit a counter.
fn items_fit(files: &Vec<ScannedFile>) -> (r: bool)
    ensures
        r == (all_items(files@, files.len() as int) <= u64::MAX),
{
    let mut total: u128 = 0;
    let mut i: usize = 0;
    while i < files.len()
        invariant
            i <= files.len(),
            total == all_items(files@, i as int),
            total <= u64::MAX,
        decreases files.len() - i,
    {
        let more: u128 = match &files[i].scan {
            Ok(c) => items_of(c),
            Err(_) => 0,
        };
        total = total + more;
        i = i + 1;
        if total > u64::MAX as u128 {
            proof {
                lemma_all_items_grow(files@, i as int, files.len() as int);
            }
            return false;
        }
    }
    true
}

/// As `find_unsafe_in_packages`, for all files and every set of files of
/// the build: `None` where the numbers are too large to be added up
/// whatever package the files belong to.
pub fn checked_find_unsafe_in_packages(
    files: &Vec<ScannedFile>,
    rs_files_used: BuildUsedSet,
    allow_partial_results: bool,
) -> (r: Option<Result<GeigerContext, ScanFileError>>)
    requires
        rs_files_used.wf(),
    ensures
        r is Some <==> sums_fit(files@, rs_files_used),
        r matches Some(sums) ==> is_aggregate_of(
            sums,
            files@,
            rs_files_used,
            allow_partial_results,
        ),
{
    if !items_fit(files) || !rs_files_used.has_room(files.len()) {
        return None;
    }
    proof {
        assert forall|package: PackageId| #[trigger]
            counted(files@, files.len() as int, rs_files_used, package).fits() by {
            lemma_counted_bound(files@, files.len() as int, rs_files_used, package);
        }
    }
    Some(find_unsafe_in_packages(files, rs_files_used, allow_partial_results))
}

/// A package none of whose files was scanned has counted nothing.
proof fn lemma_counted_zero(files: Seq<ScannedFile>, n: int, used: BuildUsedSet, package: PackageId)
    requires
        0 <= n <= files.len(),
        !has_counters(files, n, package),
    ensures
        counted(files, n, used, package) == PackageCountersView::zero(),
    decreases n,
{
    if n > 0 {
        assert(!has_counters(files, n - 1, package)) by {
            if has_counters(files, n - 1, package) {
                let k = choose|k: int|
                    0 <= k < n - 1 && k < files.len() && (#[trigger] files[k]).package == package
                        && files[k].scan is Ok;
                assert(0 <= k < n);
            }
        }
        lemma_counted_zero(files, n - 1, used, package);
        assert(!(files[n - 1].package == package && files[n - 1].scan is Ok));
    }
}

/// The five categories of counted items.
#[derive(Debug, Clone, Copy, PartialEq, Eq, Structural)]
pub enum Category {
    Functions,
    Exprs,
    ItemImpls,
    ItemTraits,
    Methods,
}

/// The number of unsafe items of one category.
pub open spec fn unsafe_in(block: BlockView, category: Category) -> nat {
    match category {
        Category::Functions => block.functions.unsafe_,
        Category::Exprs => block.exprs.unsafe_,
        Category::ItemImpls => block.item_impls.unsafe_,
        Category::ItemTraits => block.item_traits.unsafe_,
        Category::Methods => block.methods.unsafe_,
    }
}

/// The unsafe items of one category that a package has after the first `n`
/// files, in files used by the build and in the others together.
pub open spec fn package_unsafe(
    files: Seq<ScannedFile>,
    n: int,
    used: BuildUsedSet,
    package: PackageId,
    category: Category,
) -> nat {
    unsafe_in(counted(files, n, used, package).used, category) + unsafe_in(
        counted(files, n, used, package).not_used,
        category,
    )
}

/// The unsafe items of one category in those of the first `n` files that
/// were scanned.
pub open spec fn files_unsafe(files: Seq<ScannedFile>, n: int, category: Category) -> nat
    decreases n,
{
    if n <= 0 || n > files.len() {
        0
    } else {
        files_unsafe(files, n - 1, category) + (match files[n - 1].scan {
            Ok(c) => unsafe_in(c@, category),
            Err(_) => 0,
        })
    }
}

/// The unsafe items of one category that the first `k` of the packages
/// have together.
pub open spec fn packages_unsafe(
    ids: Seq<PackageId>,
    k: int,
    files: Seq<ScannedFile>,
    n: int,
    used: BuildUsedSet,
    category: Category,
) -> nat
    decreases k,
{
    if k <= 0 || k > ids.len() {
        0
    } else {
        packages_unsafe(ids, k - 1, files, n, used, category) + package_unsafe(
            files,
            n,
            used,
            ids[k - 1],
            category,
        )
    }
}

/// One more file adds its unsafe items to the sum over the packages once,
/// where its package is among them, and nothing else.
proof fn lemma_one_more_file(
    ids: Seq<PackageId>,
    k: int,
    files: Seq<ScannedFile>,
    n: int,
    used: BuildUsedSet,
    category: Category,
)
    requires
        ids.no_duplicates(),
        0 <= k <= ids.len(),
        0 < n <= files.len(),
    ensures
        packages_unsafe(ids, k, files, n, used, category) == packages_unsafe(
            ids,
            k,
            files,
            n - 1,
            used,
            category,
        ) + (match files[n - 1].scan {
            Ok(c) => if ids.take(k).contains(files[n - 1].package) {
                unsafe_in(c@, category)
            } else {
                0
            },
            Err(_) => 0,
        }),
    decreases k,
{
    if k > 0 {
        lemma_one_more_file(ids, k - 1, files, n, used, category);
        let p = files[n - 1].package;
        let before = ids.take(k - 1);
        let now = ids.take(k);
        assert(now =~= before.push(ids[k - 1]));
        if before.contains(p) {
            let j = choose|j: int| 0 <= j < before.len() && before[j] == p;
            assert(ids[j] == p);
            assert(ids[k - 1] != p);
            assert(now[j] == p);
        }
        if ids[k - 1] == p {
            assert(now[k - 1] == p);
        }
        if now.contains(p) && ids[k - 1] != p {
            let j = choose|j: int| 0 <= j < now.len() && now[j] == p;
            assert(before[j] == p);
        }
    } else {
        assert(ids.take(0).len() == 0);
    }
}

/// Over all packages, the unsafe items of a category that the packages
/// have, in files used by the build and in the others, are together the
/// unsafe items of that category in the files that were scanned; given
/// that each package stands once and that each scanned file belongs to one
/// of them.
pub proof fn lemma_unsafe_totals(
    ids: Seq<PackageId>,
    files: Seq<ScannedFile>,
    n: int,
    used: BuildUsedSet,
    category: Category,
)
    requires
        ids.no_duplicates(),
        0 <= n <= files.len(),
        forall|i: int|
            0 <= i < n && (#[trigger] files[i]).scan is Ok ==> ids.contains(files[i].package),
    ensures
        packages_unsafe(ids, ids.len() as int, files, n, used, category) == files_unsafe(
            files,
            n,
            category,
        ),
    decreases n,
{
    if n == 0 {
        lemma_no_files(ids, ids.len() as int, files, used, category);
    } else {
        lemma_unsafe_totals(ids, files, n - 1, used, category);
        lemma_one_more_file(ids, ids.len() as int, files, n, used, category);
        assert(ids.take(ids.len() as int) =~= ids);
    }
}

proof fn lemma_no_files(
    ids: Seq<PackageId>,
    k: int,
    files: Seq<ScannedFile>,
    used: BuildUsedSet,
    category: Category,
)
    requires
        0 <= k <= ids.len(),
    ensures
        packages_unsafe(ids, k, files, 0, used, category) == 0,
    decreases k,
{
    if k > 0 {
        lemma_no_files(ids, k - 1, files, used, category);
    }
}

} // verus!
