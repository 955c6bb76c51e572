//! Packages, dependency kinds and the resolved dependencies handed to the
//! graph builder.

use vstd::prelude::*;

verus! {

/// Identity of a package: its rank among all packages of the resolution,
/// ordered as the resolver orders package identities.
pub type PackageId = u64;

/// Kind of a dependency edge.
#[derive(Debug, Clone, Copy, PartialEq, Eq, Structural)]
pub enum DepKind {
    Normal,
    Build,
    Development,
}

/// Which dependency kinds, beyond the normal ones, are followed.
#[derive(Debug, Clone, Copy, PartialEq, Eq, Structural)]
pub enum ExtraDeps {
    All,
    Build,
    Dev,
    NoMore,
}

impl ExtraDeps {
    /// Whether a dependency of kind `dep` is followed under this policy.
    pub open spec fn spec_allows(&self, dep: DepKind) -> bool {
        match (*self, dep) {
            (_, DepKind::Normal) => true,
            (ExtraDeps::All, _) => true,
            (ExtraDeps::Build, DepKind::Build) => true,
            (ExtraDeps::Dev, DepKind::Development) => true,
            _ => false,
        }
    }

    /// Normal dependencies are always followed; build and development
    /// dependencies only where the policy names them.
    #[verifier::when_used_as_spec(spec_allows)]
    pub fn allows(&self, dep: DepKind) -> (r: bool)
        ensures
            r == self.spec_allows(dep),
    {
        match (self, dep) {
            (_, DepKind::Normal) => true,
            (ExtraDeps::All, _) => true,
            (ExtraDeps::Build, DepKind::Build) => true,
            (ExtraDeps::Dev, DepKind::Development) => true,
            _ => false,
        }
    }
}

/// One dependency that a manifest declares, as far as the graph reads it.
#[derive(Debug, Clone, Copy, PartialEq, Eq, Structural)]
pub struct Dependency {
    /// Kind of the dependency.
    pub kind: DepKind,
    /// `None` where the dependency names no platform; else whether the
    /// platform that it names matches the target.
    pub platform_matches: Option<bool>,
}

impl Dependency {
    /// Whether the dependency becomes an edge: its kind is allowed, and,
    /// where edges are filtered by target, its platform does not miss the
    /// target.
    pub open spec fn spec_included(&self, filter_by_target: bool, extra_deps: ExtraDeps) -> bool {
        extra_deps.spec_allows(self.kind) && (filter_by_target ==> self.platform_matches != Some(
            false,
        ))
    }

    /// Whether the dependency becomes an edge of the graph.
    #[verifier::when_used_as_spec(spec_included)]
    pub fn included(&self, filter_by_target: bool, extra_deps: ExtraDeps) -> (r: bool)
        ensures
            r == self.spec_included(filter_by_target, extra_deps),
    {
        if !extra_deps.allows(self.kind) {
            return false;
        }
        if !filter_by_target {
            return true;
        }
        match self.platform_matches {
            Some(m) => m,
            None => true,
        }
    }
}

/// One resolved dependency of a package: the package that the resolver
/// chose, the package that replaces it, if any, and the declarations of the
/// depending manifest that it answers.
#[derive(Debug, Clone)]
pub struct ResolvedDep {
    pub id: PackageId,
    pub replacement: Option<PackageId>,
    pub declared: Vec<Dependency>,
}

impl ResolvedDep {
    /// The package that the edges lead to: the replacement where there is
    /// one.
    pub open spec fn spec_target(&self) -> PackageId {
        match self.replacement {
            Some(r) => r,
            None => self.id,
        }
    }

    /// The package that the edges of this dependency lead to.
    #[verifier::when_used_as_spec(spec_target)]
    pub fn target(&self) -> (r: PackageId)
        ensures
            r == self.spec_target(),
    {
        match self.replacement {
            Some(r) => r,
            None => self.id,
        }
    }
}

/// The resolved dependencies of one package.
#[derive(Debug, Clone)]
pub struct ResolvedPackage {
    pub deps: Vec<ResolvedDep>,
}

/// The resolver's result: for each package, found by its identity, its
/// resolved dependencies.
#[derive(Debug, Clone)]
pub struct Resolve {
    pub packages: Vec<ResolvedPackage>,
}

impl Resolve {
    /// Whether the resolution holds the package.
    pub open spec fn knows(&self, id: PackageId) -> bool {
        id < self.packages.len()
    }

    /// Whether package `a` has a dependency on `b` that becomes an edge.
    pub open spec fn step(
        &self,
        a: PackageId,
        b: PackageId,
        filter_by_target: bool,
        extra_deps: ExtraDeps,
    ) -> bool {
        &&& self.knows(a)
        &&& exists|i: int, j: int|
            0 <= i < self.packages[a as int].deps.len() && 0 <= j
                < self.packages[a as int].deps[i].declared.len()
                && self.packages[a as int].deps[i].spec_target() == b
                && #[trigger] self.packages[a as int].deps[i].declared[j].spec_included(
                filter_by_target,
                extra_deps,
            )
    }

    /// Whether each package of `path` depends on the next.
    pub open spec fn is_path(
        &self,
        path: Seq<PackageId>,
        filter_by_target: bool,
        extra_deps: ExtraDeps,
    ) -> bool {
        &&& path.len() > 0
        &&& forall|k: int|
            0 <= k < path.len() - 1 ==> self.step(
                #[trigger] path[k],
                path[k + 1],
                filter_by_target,
                extra_deps,
            )
    }

    /// Whether `id` is `root` or is reached from it over dependencies that
    /// become edges.
    pub open spec fn reachable(
        &self,
        root: PackageId,
        id: PackageId,
        filter_by_target: bool,
        extra_deps: ExtraDeps,
    ) -> bool {
        exists|path: Seq<PackageId>|
            #[trigger] self.is_path(path, filter_by_target, extra_deps) && path[0] == root
                && path.last() == id
    }

    /// A package that a reachable package depends on is reachable.
    pub proof fn lemma_reachable_step(
        &self,
        root: PackageId,
        a: PackageId,
        b: PackageId,
        filter_by_target: bool,
        extra_deps: ExtraDeps,
    )
        requires
            self.reachable(root, a, filter_by_target, extra_deps),
            self.step(a, b, filter_by_target, extra_deps),
        ensures
            self.reachable(root, b, filter_by_target, extra_deps),
    {
        let path = choose|path: Seq<PackageId>|
            #[trigger] self.is_path(path, filter_by_target, extra_deps) && path[0] == root
                && path.last() == a;
        let longer = path.push(b);
        assert forall|k: int| 0 <= k < longer.len() - 1 implies self.step(
            #[trigger] longer[k],
            longer[k + 1],
            filter_by_target,
            extra_deps,
        ) by {
            if k < path.len() - 1 {
                assert(self.step(path[k], path[k + 1], filter_by_target, extra_deps));
            }
        }
        assert(self.is_path(longer, filter_by_target, extra_deps));
    }

    /// The root is reachable.
    pub proof fn lemma_reachable_root(
        &self,
        root: PackageId,
        filter_by_target: bool,
        extra_deps: ExtraDeps,
    )
        ensures
            self.reachable(root, root, filter_by_target, extra_deps),
    {
        let path = seq![root];
        assert(self.is_path(path, filter_by_target, extra_deps));
    }
}

} // verus!
