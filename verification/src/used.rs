//! The files that took part in the build, and how often each was scanned.

use crate::text::str_eq;
use vstd::prelude::*;

verus! {

/// One file of the build, with the number of times it was scanned.
#[derive(Debug, Clone)]
pub struct UsedFile {
    pub path: String,
    pub count: u64,
}

/// The files that the build used, each with a counter that starts at 0 and
/// goes up with each scan of the file. No path stands twice.
#[derive(Debug, Clone)]
pub struct BuildUsedSet {
    files: Vec<UsedFile>,
}

/// The place of a path among the first `n` files, if it is among them.
pub open spec fn place_of(files: Seq<UsedFile>, path: Seq<char>, n: int) -> Option<int>
    decreases n,
{
    if n <= 0 || n > files.len() {
        None
    } else if files[n - 1].path@ == path {
        Some(n - 1)
    } else {
        place_of(files, path, n - 1)
    }
}

/// What a list of strings holds.
pub open spec fn path_views(paths: Seq<String>) -> Seq<Seq<char>> {
    Seq::new(paths.len(), |i: int| paths[i]@)
}

proof fn lemma_place_of(files: Seq<UsedFile>, path: Seq<char>, n: int)
    requires
        0 <= n <= files.len(),
    ensures
        match place_of(files, path, n) {
            Some(i) => 0 <= i < n && files[i].path@ == path,
            None => forall|i: int| 0 <= i < n ==> (#[trigger] files[i]).path@ != path,
        },
    decreases n,
{
    if n > 0 && files[n - 1].path@ != path {
        lemma_place_of(files, path, n - 1);
    }
}

proof fn lemma_place_unique(files: Seq<UsedFile>, path: Seq<char>, i: int)
    requires
        0 <= i < files.len(),
        files[i].path@ == path,
        forall|a: int, b: int|
            0 <= a < b < files.len() ==> (#[trigger] files[a]).path@ != (#[trigger] files[b]).path@,
    ensures
        place_of(files, path, files.len() as int) == Some(i),
{
    lemma_place_of(files, path, files.len() as int);
}

impl BuildUsedSet {
    /// No path stands twice.
    pub closed spec fn wf(&self) -> bool {
        forall|a: int, b: int|
            0 <= a < b < self.files.len() ==> (#[trigger] self.files[a]).path@
                != (#[trigger] self.files[b]).path@
    }

    /// The counter of a path; `None` for a path that the build did not
    /// use.
    pub closed spec fn count(&self, path: Seq<char>) -> Option<nat> {
        match place_of(self.files@, path, self.files.len() as int) {
            Some(i) => Some(self.files[i].count as nat),
            None => None,
        }
    }

    /// Whether the build used the path.
    pub open spec fn uses(&self, path: Seq<char>) -> bool {
        self.count(path) is Some
    }

    /// The set without files.
    pub fn new() -> (r: BuildUsedSet)
        ensures
            r.wf(),
            forall|p: Seq<char>| r.count(p) is None,
    {
        BuildUsedSet { files: Vec::new() }
    }

    fn find(&self, path: &str) -> (r: Option<usize>)
        ensures
            match r {
                Some(i) => i < self.files.len() && place_of(
                    self.files@,
                    path@,
                    self.files.len() as int,
                ) == Some(i as int),
                None => place_of(self.files@, path@, self.files.len() as int) is None,
            },
    {
        let mut n: usize = self.files.len();
        while n > 0
            invariant
                n <= self.files.len(),
                place_of(self.files@, path@, self.files.len() as int) == place_of(
                    self.files@,
                    path@,
                    n as int,
                ),
            decreases n,
        {
            if str_eq(self.files[n - 1].path.as_str(), path) {
                return Some(n - 1);
            }
            n = n - 1;
        }
        None
    }

    /// The counter of a path, if the build used it.
    pub fn get(&self, path: &str) -> (r: Option<u64>)
        ensures
            match r {
                Some(c) => self.count(path@) == Some(c as nat),
                None => self.count(path@) is None,
            },
    {
        match self.find(path) {
            Some(i) => Some(self.files[i].count),
            None => None,
        }
    }

    /// Whether the build used the path.
    pub fn contains(&self, path: &str) -> (r: bool)
        ensures
            r == self.uses(path@),
    {
        self.find(path).is_some()
    }

    /// Puts the path into the set, with its counter at 0, also where the
    /// set holds the path already.
    pub fn insert(&mut self, path: String)
        requires
            old(self).wf(),
        ensures
            final(self).wf(),
            forall|p: Seq<char>|
                #[trigger] final(self).count(p) == (if p == path@ {
                    Some(0nat)
                } else {
                    old(self).count(p)
                }),
    {
        let ghost old_files = self.files@;
        match self.find(path.as_str()) {
            Some(i) => {
                let entry = UsedFile { path, count: 0 };
                self.files.set(i, entry);
                proof {
                    let files = self.files@;
                    lemma_place_of(old_files, path@, old_files.len() as int);
                    assert(files[i as int].path@ == old_files[i as int].path@);
                    assert(forall|k: int|
                        0 <= k < files.len() ==> (#[trigger] files[k]).path@ == old_files[k].path@);
                    assert forall|a: int, b: int| 0 <= a < b < files.len() implies (
                    #[trigger] files[a]).path@ != (#[trigger] files[b]).path@ by {
                        assert(old_files[a].path@ != old_files[b].path@);
                    }
                    assert forall|p: Seq<char>|
                        #[trigger] self.count(p) == (if p == path@ {
                            Some(0nat)
                        } else {
                            old(self).count(p)
                        }) by {
                        lemma_place_of(old_files, p, old_files.len() as int);
                        lemma_place_of(files, p, files.len() as int);
                        match place_of(old_files, p, old_files.len() as int) {
                            Some(k) => {
                                lemma_place_unique(files, p, k);
                            },
                            None => {
                                if place_of(files, p, files.len() as int) is Some {
                                    let k = place_of(files, p, files.len() as int)->0;
                                    assert(old_files[k].path@ == p);
                                }
                            },
                        }
                    }
                }
            },
            None => {
                proof {
                    lemma_place_of(old_files, path@, old_files.len() as int);
                }
                self.files.push(UsedFile { path, count: 0 });
                proof {
                    let files = self.files@;
                    assert forall|a: int, b: int| 0 <= a < b < files.len() implies (
                    #[trigger] files[a]).path@ != (#[trigger] files[b]).path@ by {
                        if b < old_files.len() {
                            assert(old_files[a].path@ != old_files[b].path@);
                        } else {
                            assert(files[a] == old_files[a]);
                        }
                    }
                    assert forall|p: Seq<char>|
                        #[trigger] self.count(p) == (if p == path@ {
                            Some(0nat)
                        } else {
                            old(self).count(p)
                        }) by {
                        lemma_same_prefix(old_files, files, p, old_files.len() as int);
                    }
                }
            },
        }
    }

    /// Counts one scan of the path, if the build used it, and says whether
    /// it did.
    pub fn mark(&mut self, path: &str) -> (r: bool)
        requires
            old(self).wf(),
            old(self).count(path@) matches Some(c) ==> c < u64::MAX,
        ensures
            final(self).wf(),
            r == old(self).uses(path@),
            forall|p: Seq<char>|
                #[trigger] final(self).count(p) == (if p == path@ {
                    match old(self).count(p) {
                        Some(c) => Some(c + 1),
                        None => None,
                    }
                } else {
                    old(self).count(p)
                }),
    {
        let ghost old_files = self.files@;
        match self.find(path) {
            Some(i) => {
                let count = self.files[i].count + 1;
                let entry = UsedFile { path: self.files[i].path.clone(), count };
                self.files.set(i, entry);
                proof {
                    let files = self.files@;
                    lemma_place_of(old_files, path@, old_files.len() as int);
                    assert(files[i as int].path@ == old_files[i as int].path@);
                    assert(files[i as int].count == old_files[i as int].count + 1);
                    assert(forall|k: int|
                        0 <= k < files.len() ==> (#[trigger] files[k]).path@ == old_files[k].path@);
                    assert(forall|k: int|
                        0 <= k < files.len() && k != i ==> (#[trigger] files[k]).count
                            == old_files[k].count);
                    assert forall|a: int, b: int| 0 <= a < b < files.len() implies (
                    #[trigger] files[a]).path@ != (#[trigger] files[b]).path@ by {
                        assert(old_files[a].path@ != old_files[b].path@);
                    }
                    assert forall|p: Seq<char>|
                        #[trigger] self.count(p) == (if p == path@ {
                            match old(self).count(p) {
                                Some(c) => Some(c + 1),
                                None => None,
                            }
                        } else {
                            old(self).count(p)
                        }) by {
                        lemma_place_of(old_files, p, old_files.len() as int);
                        lemma_place_of(files, p, files.len() as int);
                        match place_of(old_files, p, old_files.len() as int) {
                            Some(k) => {
                                lemma_place_unique(files, p, k);
                            },
                            None => {
                                if place_of(files, p, files.len() as int) is Some {
                                    let k = place_of(files, p, files.len() as int)->0;
                                    assert(old_files[k].path@ == p);
                                }
                            },
                        }
                    }
                }
                true
            },
            None => false,
        }
    }

    /// Whether every counter can go up by `n`.
    pub fn has_room(&self, n: usize) -> (r: bool)
        requires
            self.wf(),
        ensures
            r == (forall|p: Seq<char>| #[trigger]
                self.count(p) matches Some(c) ==> c + n <= u64::MAX),
    {
        let mut i: usize = 0;
        while i < self.files.len()
            invariant
                self.wf(),
                i <= self.files.len(),
                forall|k: int| 0 <= k < i ==> (#[trigger] self.files[k]).count + n <= u64::MAX,
            decreases self.files.len() - i,
        {
            if self.files[i].count > u64::MAX - (n as u64) {
                proof {
                    let p = self.files[i as int].path@;
                    lemma_place_unique(self.files@, p, i as int);
                    assert(self.count(p) == Some(self.files[i as int].count as nat));
                }
                return false;
            }
            i = i + 1;
        }
        proof {
            assert forall|p: Seq<char>| #[trigger] self.count(p) is Some implies self.count(p)->0
                + n <= u64::MAX by {
                lemma_place_of(self.files@, p, self.files.len() as int);
            }
        }
        true
    }

    /// The files that were never scanned: those whose counter is 0.
    pub fn unscanned(&self) -> (r: Vec<String>)
        requires
            self.wf(),
        ensures
            path_views(r@).no_duplicates(),
            forall|p: Seq<char>| path_views(r@).contains(p) <==> self.count(p) == Some(0nat),
    {
        let mut out: Vec<String> = Vec::new();
        let mut i: usize = 0;
        while i < self.files.len()
            invariant
                self.wf(),
                i <= self.files.len(),
                path_views(out@).no_duplicates(),
                forall|p: Seq<char>|
                    path_views(out@).contains(p) <==> exists|k: int|
                        0 <= k < i && (#[trigger] self.files[k]).path@ == p && self.files[k].count
                            == 0,
            decreases self.files.len() - i,
        {
            let ghost before = path_views(out@);
            if self.files[i].count == 0 {
                let path = self.files[i].path.clone();
                out.push(path);
                proof {
                    let after = path_views(out@);
                    assert(after =~= before.push(self.files[i as int].path@));
                    assert forall|a: int, b: int|
                        0 <= a < after.len() && 0 <= b < after.len() && a != b implies after[a]
                        != after[b] by {
                        if a < before.len() && b < before.len() {
                            assert(before[a] != before[b]);
                        } else if a < before.len() {
                            assert(before.contains(before[a]));
                        } else {
                            assert(before.contains(before[b]));
                        }
                    }
                    assert forall|p: Seq<char>|
                        after.contains(p) <==> exists|k: int|
                            0 <= k < i + 1 && (#[trigger] self.files[k]).path@ == p
                                && self.files[k].count == 0 by {
                        if after.contains(p) {
                            let j = choose|j: int| 0 <= j < after.len() && after[j] == p;
                            if j < before.len() {
                                assert(before.contains(p));
                            } else {
                                assert(self.files[i as int].path@ == p);
                            }
                        }
                        if exists|k: int|
                            0 <= k < i + 1 && (#[trigger] self.files[k]).path@ == p
                                && self.files[k].count == 0 {
                            let k = choose|k: int|
                                0 <= k < i + 1 && (#[trigger] self.files[k]).path@ == p
                                    && self.files[k].count == 0;
                            if k < i {
                                assert(before.contains(p));
                                let j = choose|j: int| 0 <= j < before.len() && before[j] == p;
                                assert(after[j] == p);
                            } else {
                                assert(after[before.len() as int] == p);
                            }
                        }
                    }
                }
            }
            i = i + 1;
        }
        proof {
            assert forall|p: Seq<char>| path_views(out@).contains(p) <==> self.count(p) == Some(
                0nat,
            ) by {
                lemma_place_of(self.files@, p, self.files.len() as int);
                if path_views(out@).contains(p) {
                    let k = choose|k: int|
                        0 <= k < self.files.len() && (#[trigger] self.files[k]).path@ == p
                            && self.files[k].count == 0;
                    lemma_place_unique(self.files@, p, k);
                }
            }
        }
        out
    }
}

/// A path has the same place in a list and in the list with one more file
/// at its end, unless it is the path of that file.
proof fn lemma_same_prefix(old_files: Seq<UsedFile>, files: Seq<UsedFile>, p: Seq<char>, n: int)
    requires
        files.len() == old_files.len() + 1,
        forall|i: int| 0 <= i < old_files.len() ==> files[i] == old_files[i],
        files.last().count == 0,
        0 <= n <= old_files.len(),
        n == old_files.len() ==> forall|i: int|
            0 <= i < old_files.len() ==> (#[trigger] old_files[i]).path@ != files.last().path@,
    ensures
        place_of(files, p, n) == place_of(old_files, p, n),
        n == old_files.len() ==> (match place_of(files, p, files.len() as int) {
            Some(i) => Some(files[i].count as nat),
            None => None,
        }) == (if p == files.last().path@ {
            Some(0nat)
        } else {
            match place_of(old_files, p, old_files.len() as int) {
                Some(i) => Some(old_files[i].count as nat),
                None => None,
            }
        }),
    decreases n,
{
    if n > 0 {
        lemma_same_prefix(old_files, files, p, n - 1);
    }
    if n == old_files.len() {
        lemma_place_of(old_files, p, n);
    }
}

} // verus!
