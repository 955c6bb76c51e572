//! What the build says about the files it uses: the arguments of each
//! compiler invocation, and the dependency-info files that the compiler
//! leaves behind.

use crate::dep_info::{dep_info, parse_rustc_dep_info, DepInfoLine};
use crate::text::{chars_of, str_eq};
use crate::used::{path_views, BuildUsedSet};
use vstd::prelude::*;
use vstd::string::StringExecFns;

verus! {

/// Why an invocation of the compiler could not be used. The first two
/// hold the command line.
#[derive(Debug, Clone, PartialEq, Eq)]
pub enum CustomExecutorError {
    /// No argument is `--out-dir`.
    OutDirKeyMissing(String),
    /// Nothing follows `--out-dir`.
    OutDirValueMissing(String),
    /// The state shared by the invocations could not be locked.
    InnerContextMutex(String),
    /// A path could not be made canonical; holds the message and the path.
    Io(String, String),
}

/// Why the files of the build could not be found.
#[derive(Debug, Clone, PartialEq, Eq)]
pub enum RsResolveError {
    /// A directory could not be walked.
    Walkdir(String),
    /// A path could not be read or made canonical; holds the message and
    /// the path.
    Io(String, String),
    /// The build itself failed.
    Cargo(String),
    /// The state shared by the invocations is still shared.
    ArcUnwrap,
    /// The state shared by the invocations could not be taken.
    InnerContextMutex(String),
    /// A dependency-info file is malformed; holds the message and the path
    /// of the file.
    DepParse(String, String),
}

/// What one invocation of the compiler says: the directory that it writes
/// to, and the source files among its arguments, as given.
#[derive(Debug, Clone, PartialEq, Eq)]
pub struct Invocation {
    pub out_dir: String,
    pub rs_files: Vec<String>,
}

/// A dependency-info file: its path and its text.
#[derive(Debug, Clone)]
pub struct DepInfoFile {
    pub path: String,
    pub contents: String,
}

/// The source files and output directories of all invocations so far, each
/// once.
#[derive(Debug, Clone)]
pub struct CustomExecutorInnerContext {
    pub rs_file_args: Vec<String>,
    pub out_dir_args: Vec<String>,
}

/// Whether the argument names a source file: it ends in `.rs`, in small or
/// capital letters.
pub open spec fn is_rs_arg(arg: Seq<char>) -> bool {
    let n = arg.len() as int;
    &&& n >= 3
    &&& arg[n - 3] == '.'
    &&& (arg[n - 2] == 'r' || arg[n - 2] == 'R')
    &&& (arg[n - 1] == 's' || arg[n - 1] == 'S')
}

/// The source files among the first `n` arguments, in their order.
pub open spec fn rs_args(args: Seq<Seq<char>>, n: int) -> Seq<Seq<char>>
    decreases n,
{
    if n <= 0 || n > args.len() {
        Seq::empty()
    } else if is_rs_arg(args[n - 1]) {
        rs_args(args, n - 1).push(args[n - 1])
    } else {
        rs_args(args, n - 1)
    }
}

/// The first place at or after `i` where the argument is `--out-dir`.
pub open spec fn out_dir_key(args: Seq<Seq<char>>, i: int) -> Option<int>
    decreases args.len() - i,
{
    if i < 0 || i >= args.len() {
        None
    } else if args[i] == "--out-dir"@ {
        Some(i)
    } else {
        out_dir_key(args, i + 1)
    }
}

/// What the concatenated dependencies of the first `n` lines are.
pub open spec fn line_deps(lines: Seq<DepInfoLine>, n: int) -> Seq<Seq<char>>
    decreases n,
{
    if n <= 0 || n > lines.len() {
        Seq::empty()
    } else {
        line_deps(lines, n - 1) + lines[n - 1].deps
    }
}

/// The dependencies that the first `n` dependency-info files name, file
/// by file and line by line; or the index of the first malformed file
/// among them.
pub open spec fn file_deps(files: Seq<DepInfoFile>, n: int) -> Result<Seq<Seq<char>>, int>
    decreases n,
{
    if n <= 0 || n > files.len() {
        Ok(Seq::empty())
    } else {
        match file_deps(files, n - 1) {
            Err(k) => Err(k),
            Ok(before) => match dep_info(files[n - 1].contents@) {
                Err(_) => Err(n - 1),
                Ok(lines) => Ok(before + line_deps(lines, lines.len() as int)),
            },
        }
    }
}

/// Whether the argument names a source file.
pub fn arg_is_rs(arg: &str) -> (r: bool)
    ensures
        r == is_rs_arg(arg@),
{
    let c = chars_of(arg);
    let n = c.len();
    if n < 3 {
        return false;
    }
    c[n - 3] == '.' && (c[n - 2] == 'r' || c[n - 2] == 'R') && (c[n - 1] == 's' || c[n - 1]
        == 'S')
}

/// The place of the first argument that is `--out-dir`.
fn find_out_dir_key(args: &Vec<String>) -> (r: Option<usize>)
    ensures
        match r {
            Some(k) => out_dir_key(path_views(args@), 0) == Some(k as int) && k < args.len(),
            None => out_dir_key(path_views(args@), 0) is None,
        },
{
    let ghost a = path_views(args@);
    let mut i: usize = 0;
    while i < args.len()
        invariant
            i <= args.len(),
            a == path_views(args@),
            out_dir_key(a, 0) == out_dir_key(a, i as int),
        decreases args.len() - i,
    {
        assert(a[i as int] == args[i as int]@);
        if str_eq(args[i].as_str(), "--out-dir") {
            return Some(i);
        }
        i = i + 1;
    }
    None
}

/// Reads the arguments of one compiler invocation: the directory that
/// follows the first `--out-dir`, and the arguments that name source
/// files. `command` is the command line, for the error.
pub fn inspect_invocation(args: &Vec<String>, command: &str) -> (r: Result<
    Invocation,
    CustomExecutorError,
>)
    ensures
        match out_dir_key(path_views(args@), 0) {
            None => r matches Err(CustomExecutorError::OutDirKeyMissing(c)) && c@ == command@,
            Some(k) => if k + 1 >= args.len() {
                r matches Err(CustomExecutorError::OutDirValueMissing(c)) && c@ == command@
            } else {
                r matches Ok(inv) && inv.out_dir@ == args[k + 1]@ && path_views(inv.rs_files@)
                    == rs_args(path_views(args@), args.len() as int)
            },
        },
{
    let ghost a = path_views(args@);
    let key = find_out_dir_key(args);
    let k = match key {
        Some(k) => k,
        None => {
            return Err(CustomExecutorError::OutDirKeyMissing(String::from_str(command)));
        },
    };
    if k + 1 >= args.len() {
        return Err(CustomExecutorError::OutDirValueMissing(String::from_str(command)));
    }
    let out_dir = args[k + 1].clone();
    let mut rs_files: Vec<String> = Vec::new();
    let mut j: usize = 0;
    assert(path_views(rs_files@) =~= Seq::<Seq<char>>::empty());
    while j < args.len()
        invariant
            j <= args.len(),
            a == path_views(args@),
            path_views(rs_files@) == rs_args(a, j as int),
        decreases args.len() - j,
    {
        let ghost before = rs_files@;
        assert(a[j as int] == args[j as int]@);
        if arg_is_rs(args[j].as_str()) {
            rs_files.push(args[j].clone());
            assert(path_views(rs_files@) =~= path_views(before).push(args[j as int]@));
        }
        j = j + 1;
    }
    Ok(Invocation { out_dir, rs_files })
}

/// Puts a path into a list that holds no path twice, unless the list holds
/// it already. Says whether it was put in.
pub fn insert_path(paths: &mut Vec<String>, path: String) -> (r: bool)
    requires
        path_views(old(paths)@).no_duplicates(),
    ensures
        path_views(final(paths)@).no_duplicates(),
        r == !path_views(old(paths)@).contains(path@),
        forall|p: Seq<char>|
            path_views(final(paths)@).contains(p) <==> (path_views(old(paths)@).contains(p) || p
                == path@),
{
    let ghost before = path_views(paths@);
    let mut i: usize = 0;
    while i < paths.len()
        invariant
            i <= paths.len(),
            paths@ == old(paths)@,
            before == path_views(paths@),
            before.no_duplicates(),
            forall|k: int| 0 <= k < i ==> before[k] != path@,
        decreases paths.len() - i,
    {
        assert(before[i as int] == paths[i as int]@);
        if str_eq(paths[i].as_str(), path.as_str()) {
            assert(before.contains(path@));
            assert(path_views(paths@) == before);
            return false;
        }
        i = i + 1;
    }
    paths.push(path);
    proof {
        let after = path_views(paths@);
        assert(after =~= before.push(path@));
        assert forall|p: Seq<char>| after.contains(p) <==> (before.contains(p) || p == path@) by {
            if after.contains(p) {
                let j = choose|j: int| 0 <= j < after.len() && after[j] == p;
                if j < before.len() {
                    assert(before[j] == p);
                }
            }
            if before.contains(p) {
                let j = choose|j: int| 0 <= j < before.len() && before[j] == p;
                assert(after[j] == p);
            }
            assert(after[before.len() as int] == path@);
        }
    }
    true
}

impl CustomExecutorInnerContext {
    /// Neither list holds a path twice.
    pub open spec fn wf(&self) -> bool {
        path_views(self.rs_file_args@).no_duplicates() && path_views(
            self.out_dir_args@,
        ).no_duplicates()
    }

    /// The state before the first invocation.
    pub fn new() -> (r: CustomExecutorInnerContext)
        ensures
            r.wf(),
            r.rs_file_args@.len() == 0,
            r.out_dir_args@.len() == 0,
    {
        CustomExecutorInnerContext { rs_file_args: Vec::new(), out_dir_args: Vec::new() }
    }

    /// Takes in what one invocation says. The source files are given as
    /// canonical paths.
    pub fn record(&mut self, rs_files: Vec<String>, out_dir: String)
        requires
            old(self).wf(),
        ensures
            final(self).wf(),
            forall|p: Seq<char>|
                path_views(final(self).rs_file_args@).contains(p) <==> (path_views(
                    old(self).rs_file_args@,
                ).contains(p) || path_views(rs_files@).contains(p)),
            forall|p: Seq<char>|
                path_views(final(self).out_dir_args@).contains(p) <==> (path_views(
                    old(self).out_dir_args@,
                ).contains(p) || p == out_dir@),
    {
        let ghost given = path_views(rs_files@);
        let mut i: usize = 0;
        while i < rs_files.len()
            invariant
                i <= rs_files.len(),
                given == path_views(rs_files@),
                self.out_dir_args == old(self).out_dir_args,
                path_views(self.rs_file_args@).no_duplicates(),
                forall|p: Seq<char>|
                    path_views(self.rs_file_args@).contains(p) <==> (path_views(
                        old(self).rs_file_args@,
                    ).contains(p) || exists|k: int| 0 <= k < i && given[k] == p),
            decreases rs_files.len() - i,
        {
            assert(given[i as int] == rs_files[i as int]@);
            insert_path(&mut self.rs_file_args, rs_files[i].clone());
            i = i + 1;
        }
        insert_path(&mut self.out_dir_args, out_dir);
    }
}

/// The paths that the dependency-info files name as dependencies, in the
/// order of the files and of their lines. The paths are as the files give
/// them: relative to the root of the workspace, and not canonical.
pub fn collect_dep_paths(dep_files: &Vec<DepInfoFile>) -> (r: Result<Vec<String>, RsResolveError>)
    ensures
        match file_deps(dep_files@, dep_files.len() as int) {
            Ok(deps) => r matches Ok(paths) && path_views(paths@) == deps,
            Err(k) => r matches Err(RsResolveError::DepParse(complaint, path)) && complaint@
                == "malformed dep-info format, trailing \\"@ && path@ == dep_files[k].path@,
        },
{
    let mut out: Vec<String> = Vec::new();
    let mut i: usize = 0;
    assert(path_views(out@) =~= Seq::<Seq<char>>::empty());
    while i < dep_files.len()
        invariant
            i <= dep_files.len(),
            file_deps(dep_files@, i as int) == Ok::<Seq<Seq<char>>, int>(path_views(out@)),
        decreases dep_files.len() - i,
    {
        let file = &dep_files[i];
        match parse_rustc_dep_info(file.contents.as_str()) {
            Err(_) => {
                proof {
                    assert(file_deps(dep_files@, i + 1) == Err::<Seq<Seq<char>>, int>(i as int));
                    lemma_error_stays(dep_files@, i + 1, dep_files.len() as int);
                }
                return Err(
                    RsResolveError::DepParse(
                        String::from_str("malformed dep-info format, trailing \\"),
                        file.path.clone(),
                    ),
                );
            },
            Ok(lines) => {
                let ghost parsed = crate::dep_info::parsed_view(lines@);
                let ghost start = path_views(out@);
                let mut k: usize = 0;
                assert(start + line_deps(parsed, 0) =~= start);
                while k < lines.len()
                    invariant
                        k <= lines.len(),
                        parsed == crate::dep_info::parsed_view(lines@),
                        path_views(out@) == start + line_deps(parsed, k as int),
                    decreases lines.len() - k,
                {
                    let deps = &lines[k].1;
                    let ghost at_line = path_views(out@);
                    assert(parsed[k as int].deps == crate::dep_info::strings_view(deps@));
                    let mut m: usize = 0;
                    assert(at_line + path_views(deps@).take(0) =~= at_line);
                    while m < deps.len()
                        invariant
                            m <= deps.len(),
                            path_views(out@) == at_line + path_views(deps@).take(m as int),
                        decreases deps.len() - m,
                    {
                        let ghost before = out@;
                        out.push(deps[m].clone());
                        m = m + 1;
                        proof {
                            let d = path_views(deps@);
                            assert(path_views(out@) =~= path_views(before).push(d[m - 1]));
                            assert(d.take(m as int) =~= d.take(m - 1).push(d[m - 1]));
                            assert(path_views(out@) =~= at_line + d.take(m as int));
                        }
                    }
                    proof {
                        assert(path_views(deps@).take(deps.len() as int) =~= path_views(deps@));
                        assert(path_views(deps@) =~= crate::dep_info::strings_view(deps@));
                        assert(start + line_deps(parsed, k + 1) =~= (start + line_deps(
                            parsed,
                            k as int,
                        )) + parsed[k as int].deps);
                    }
                    k = k + 1;
                }
            },
        }
        i = i + 1;
    }
    Ok(out)
}

/// A file that is refused is refused whatever follows it.
proof fn lemma_error_stays(files: Seq<DepInfoFile>, m: int, n: int)
    requires
        0 <= m <= n <= files.len(),
        file_deps(files, m) is Err,
    ensures
        file_deps(files, n) == file_deps(files, m),
    decreases n,
{
    if n > m {
        lemma_error_stays(files, m, n - 1);
    }
}

/// The files that the build used: the dependencies that the
/// dependency-info files name and the source files that were handed to the
/// compiler, each with its counter at 0. All paths are canonical.
pub fn resolve_rs_file_deps(dep_paths: &Vec<String>, rs_files: &Vec<String>) -> (r: BuildUsedSet)
    ensures
        r.wf(),
        forall|p: Seq<char>|
            #[trigger] r.count(p) == (if path_views(dep_paths@).contains(p) || path_views(
                rs_files@,
            ).contains(p) {
                Some(0nat)
            } else {
                None
            }),
{
    let mut used = BuildUsedSet::new();
    let ghost deps = path_views(dep_paths@);
    let ghost files = path_views(rs_files@);
    let mut i: usize = 0;
    while i < dep_paths.len()
        invariant
            i <= dep_paths.len(),
            deps == path_views(dep_paths@),
            used.wf(),
            forall|p: Seq<char>|
                #[trigger] used.count(p) == (if exists|k: int| 0 <= k < i && deps[k] == p {
                    Some(0nat)
                } else {
                    None
                }),
        decreases dep_paths.len() - i,
    {
        assert(deps[i as int] == dep_paths[i as int]@);
        used.insert(dep_paths[i].clone());
        i = i + 1;
    }
    let mut j: usize = 0;
    while j < rs_files.len()
        invariant
            j <= rs_files.len(),
            deps == path_views(dep_paths@),
            files == path_views(rs_files@),
            used.wf(),
            forall|p: Seq<char>|
                #[trigger] used.count(p) == (if deps.contains(p) || exists|k: int|
                    0 <= k < j && files[k] == p {
                    Some(0nat)
                } else {
                    None
                }),
        decreases rs_files.len() - j,
    {
        assert(files[j as int] == rs_files[j as int]@);
        used.insert(rs_files[j].clone());
        j = j + 1;
    }
    used
}

} // verus!
