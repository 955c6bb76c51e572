//! Finding the source files of packages among the entries of their
//! directories.

use crate::package::PackageId;
use crate::text::str_eq;
use vstd::prelude::*;

verus! {

/// One entry of a directory walk, as far as the search reads it.
#[derive(Debug, Clone)]
pub struct FileEntry {
    /// The path of the entry.
    pub path: String,
    /// Whether the entry is a regular file.
    pub is_file: bool,
    /// The extension of the path, where it has one.
    pub extension: Option<String>,
}

/// The entries found under the root directory of one package.
#[derive(Debug, Clone)]
pub struct PackageFiles {
    pub id: PackageId,
    pub entries: Vec<FileEntry>,
}

/// A source file of a package.
#[derive(Debug, Clone)]
pub struct PackageFile {
    pub id: PackageId,
    pub path: String,
}

/// Whether the entry is a regular file with the given extension.
pub open spec fn has_ext(entry: FileEntry, file_ext: Seq<char>) -> bool {
    entry.is_file && (entry.extension matches Some(e) && e@ == file_ext)
}

/// The paths of the entries that are regular files with the extension
/// `rs`, in the order of the entries.
pub open spec fn rs_paths(entries: Seq<FileEntry>) -> Seq<Seq<char>>
    decreases entries.len(),
{
    if entries.len() == 0 {
        Seq::empty()
    } else {
        let rest = rs_paths(entries.drop_last());
        if has_ext(entries.last(), "rs"@) {
            rest.push(entries.last().path@)
        } else {
            rest
        }
    }
}

/// The source files of the first `n` packages: package by package, each
/// file with the identity of its package.
pub open spec fn package_rs_files(packs: Seq<PackageFiles>, n: int) -> Seq<(PackageId, Seq<char>)>
    decreases n,
{
    if n <= 0 {
        Seq::empty()
    } else {
        let p = packs[n - 1];
        package_rs_files(packs, n - 1) + Seq::new(
            rs_paths(p.entries@).len(),
            |i: int| (p.id, rs_paths(p.entries@)[i]),
        )
    }
}

/// What a list of paths holds.
pub open spec fn paths_view(paths: Seq<String>) -> Seq<Seq<char>> {
    Seq::new(paths.len(), |i: int| paths[i]@)
}

/// What a list of source files holds.
pub open spec fn files_view(files: Seq<PackageFile>) -> Seq<(PackageId, Seq<char>)> {
    Seq::new(files.len(), |i: int| (files[i].id, files[i].path@))
}

/// Whether the entry is a regular file whose path has the given extension.
pub fn is_file_with_ext(entry: &FileEntry, file_ext: &str) -> (r: bool)
    ensures
        r == has_ext(*entry, file_ext@),
{
    if !entry.is_file {
        return false;
    }
    match &entry.extension {
        Some(e) => str_eq(e.as_str(), file_ext),
        None => false,
    }
}

/// The paths of the Rust source files among the entries of a directory.
pub fn find_rs_files_in_dir(entries: &Vec<FileEntry>) -> (r: Vec<String>)
    ensures
        paths_view(r@) == rs_paths(entries@),
{
    let mut out: Vec<String> = Vec::new();
    let mut i: usize = 0;
    assert(entries@.take(0) =~= Seq::<FileEntry>::empty());
    assert(paths_view(out@) =~= Seq::<Seq<char>>::empty());
    while i < entries.len()
        invariant
            i <= entries.len(),
            paths_view(out@) == rs_paths(entries@.take(i as int)),
        decreases entries.len() - i,
    {
        let ghost before = out@;
        proof {
            let t = entries@.take(i + 1);
            assert(t.drop_last() =~= entries@.take(i as int));
            assert(t.last() == entries@[i as int]);
        }
        if is_file_with_ext(&entries[i], "rs") {
            out.push(entries[i].path.clone());
            assert(paths_view(out@) =~= paths_view(before).push(entries@[i as int].path@));
        }
        i = i + 1;
    }
    assert(entries@.take(entries.len() as int) =~= entries@);
    out
}

/// The paths of the Rust source files of a package.
pub fn find_rs_files_in_package(pack: &PackageFiles) -> (r: Vec<String>)
    ensures
        paths_view(r@) == rs_paths(pack.entries@),
{
    find_rs_files_in_dir(&pack.entries)
}

/// The Rust source files of the packages, each with the identity of its
/// package.
pub fn find_rs_files_in_packages(packs: &Vec<PackageFiles>) -> (r: Vec<PackageFile>)
    ensures
        files_view(r@) == package_rs_files(packs@, packs.len() as int),
{
    let mut out: Vec<PackageFile> = Vec::new();
    let mut i: usize = 0;
    assert(files_view(out@) =~= Seq::<(PackageId, Seq<char>)>::empty());
    while i < packs.len()
        invariant
            i <= packs.len(),
            files_view(out@) == package_rs_files(packs@, i as int),
        decreases packs.len() - i,
    {
        let pack = &packs[i];
        let paths = find_rs_files_in_package(pack);
        let ghost found = rs_paths(pack.entries@);
        let ghost before = out@;
        let mut k: usize = 0;
        while k < paths.len()
            invariant
                k <= paths.len(),
                out@.len() == before.len() + k,
                forall|j: int| 0 <= j < before.len() ==> out@[j] == before[j],
                forall|j: int|
                    0 <= j < k ==> (#[trigger] out@[before.len() + j]).id == pack.id
                        && out@[before.len() + j].path@ == paths@[j]@,
            decreases paths.len() - k,
        {
            out.push(PackageFile { id: pack.id, path: paths[k].clone() });
            k = k + 1;
        }
        proof {
            assert(paths_view(paths@) == found);
            assert forall|j: int| 0 <= j < paths@.len() implies paths@[j]@ == found[j] by {
                assert(paths_view(paths@)[j] == paths@[j]@);
            }
            let added = Seq::new(found.len(), |j: int| (pack.id, found[j]));
            let want = files_view(before) + added;
            assert(files_view(out@).len() == want.len());
            assert forall|j: int| 0 <= j < want.len() implies files_view(out@)[j] == want[j] by {
                if j >= before.len() {
                    let d = j - before.len();
                    assert(out@[before.len() + d].path@ == paths@[d]@);
                }
            }
            assert(files_view(out@) =~= want);
        }
        i = i + 1;
    }
    out
}

} // verus!
