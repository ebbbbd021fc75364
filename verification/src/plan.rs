//! Resolving the coverage scope and configured paths against the packages
//! of a Cargo workspace.
//!
//! Paths are lists of components, as `Path::components` yields them (the
//! root directory is the component `/`).

use vstd::prelude::*;

use crate::error::CoverageError;
use crate::names::{push_names, string_views};
use crate::selection::{PackageSelection, PathKind, PathRequest};

verus! {

/// A path given by its components.
pub type PathParts = Vec<String>;

/// Whether two paths have the same components (`Path` equality).
pub open spec fn path_eq(a: Seq<String>, b: Seq<String>) -> bool {
    a.len() == b.len() && forall|i: int| 0 <= i < a.len() ==> (#[trigger] a[i])@ == b[i]@
}

/// Whether `path` lies strictly inside `root`: `root`'s components are a
/// proper prefix of `path`'s (`path.starts_with(root) && path != root`).
pub open spec fn strictly_under(path: Seq<String>, root: Seq<String>) -> bool {
    root.len() < path.len() && forall|i: int| 0 <= i < root.len() ==> (#[trigger] path[i])@ == root[i]@
}

/// Reports whether two paths have the same components.
pub fn same_path(a: &PathParts, b: &PathParts) -> (res: bool)
    ensures
        res == path_eq(a@, b@),
{
    if a.len() != b.len() {
        return false;
    }
    let n = a.len();
    let mut i: usize = 0;
    while i < n
        invariant
            n == a@.len(),
            n == b@.len(),
            0 <= i <= n,
            forall|k: int| 0 <= k < i ==> (#[trigger] a@[k])@ == b@[k]@,
        decreases n - i,
    {
        if !(a[i] == b[i]) {
            return false;
        }
        i = i + 1;
    }
    true
}

/// Reports whether `path` lies strictly inside `root`.
pub fn is_strictly_under(path: &PathParts, root: &PathParts) -> (res: bool)
    ensures
        res == strictly_under(path@, root@),
{
    if root.len() >= path.len() {
        return false;
    }
    let n = root.len();
    let mut i: usize = 0;
    while i < n
        invariant
            n == root@.len(),
            n < path@.len(),
            0 <= i <= n,
            forall|k: int| 0 <= k < i ==> (#[trigger] path@[k])@ == root@[k]@,
        decreases n - i,
    {
        if !(path[i] == root[i]) {
            return false;
        }
        i = i + 1;
    }
    true
}

/// Returns a path with the same components.
pub fn copy_path(p: &PathParts) -> (res: PathParts)
    ensures
        res@ == p@,
{
    let res = p.clone();
    assert(res@ =~= p@);
    res
}

/// Validated package selection with resolved source roots and exemptions.
#[derive(Debug)]
pub struct CoveragePlan {
    /// Cargo flags selecting exactly the packages whose roots are checked.
    pub cargo_args: Vec<String>,
    /// Canonical source directories; every root must match a report file.
    pub roots: Vec<PathParts>,
    /// Canonical files left out of threshold calculations only.
    pub exemptions: Vec<PathParts>,
}

} // verus!

verus! {

/// What the filesystem says of a requested path.
#[derive(Debug)]
pub struct PathProbe {
    /// Whether the path is an existing directory.
    pub is_dir: bool,
    /// Whether the path is an existing file.
    pub is_file: bool,
    /// The canonical path, or why it could not be resolved.
    pub canonical: Result<PathParts, String>,
}

/// The components of each path.
pub open spec fn path_views(paths: Seq<PathParts>) -> Seq<Seq<String>> {
    paths.map_values(|p: PathParts| p@)
}

/// Adds one resolved request to the roots and exemptions gathered so far: a
/// source directory must exist and be new, an exempt file must exist, and
/// both must resolve.
pub open spec fn assemble_step(
    kind: PathKind,
    probe: PathProbe,
    k: int,
    roots: Seq<Seq<String>>,
    exemptions: Seq<Seq<String>>,
) -> Result<(Seq<Seq<String>>, Seq<Seq<String>>), CoverageError> {
    match kind {
        PathKind::SourceDir => if !probe.is_dir {
            Err(CoverageError::SourceDirMissing(k as usize))
        } else {
            match probe.canonical {
                Err(why) => Err(CoverageError::PathUnresolved(k as usize, why)),
                Ok(path) => if exists|r: int| 0 <= r < roots.len() && path_eq(path@, #[trigger] roots[r]) {
                    Err(CoverageError::DuplicateSourceDir(k as usize))
                } else {
                    Ok((roots.push(path@), exemptions))
                },
            }
        },
        PathKind::ExemptFile => if !probe.is_file {
            Err(CoverageError::ExemptionMissing(k as usize))
        } else {
            match probe.canonical {
                Err(why) => Err(CoverageError::PathUnresolved(k as usize, why)),
                Ok(path) => Ok((roots, exemptions.push(path@))),
            }
        },
    }
}

/// The roots and exemptions from the first `n` requests, or the first error.
pub open spec fn assemble_upto(requests: Seq<PathRequest>, probes: Seq<PathProbe>, n: int) -> Result<
    (Seq<Seq<String>>, Seq<Seq<String>>),
    CoverageError,
>
    decreases n,
{
    if n <= 0 {
        Ok((Seq::empty(), Seq::empty()))
    } else {
        match assemble_upto(requests, probes, n - 1) {
            Err(e) => Err(e),
            Ok((roots, exemptions)) => assemble_step(requests[n - 1].kind, probes[n - 1], n - 1, roots, exemptions),
        }
    }
}

/// Once a request fails, assembling more requests keeps that error.
proof fn lemma_assemble_error_persists(requests: Seq<PathRequest>, probes: Seq<PathProbe>, k: int, m: int)
    requires
        0 <= k <= m,
        assemble_upto(requests, probes, k) is Err,
    ensures
        assemble_upto(requests, probes, m) == assemble_upto(requests, probes, k),
    decreases m - k,
{
    if k < m {
        lemma_assemble_error_persists(requests, probes, k, m - 1);
    }
}

/// Whether `root` is the canonical path of one of the first `n` requests, a
/// source directory that the filesystem reports as a directory.
pub open spec fn resolved_dir(requests: Seq<PathRequest>, probes: Seq<PathProbe>, n: int, root: Seq<String>) -> bool {
    exists|k: int|
        0 <= k < n && requests[k].kind == PathKind::SourceDir && (#[trigger] probes[k]).is_dir
            && probes[k].canonical is Ok && probes[k].canonical->Ok_0@ == root
}

/// Whether `file` is the canonical path of one of the first `n` requests,
/// an exempt file that the filesystem reports as a file.
pub open spec fn resolved_file(requests: Seq<PathRequest>, probes: Seq<PathProbe>, n: int, file: Seq<String>) -> bool {
    exists|k: int|
        0 <= k < n && requests[k].kind == PathKind::ExemptFile && (#[trigger] probes[k]).is_file
            && probes[k].canonical is Ok && probes[k].canonical->Ok_0@ == file
}

/// The roots gathered from the first `n` requests are pairwise distinct
/// existing directories, and the exemptions existing files, each the
/// canonical path of a request.
proof fn lemma_assembled_paths(
    requests: Seq<PathRequest>,
    probes: Seq<PathProbe>,
    n: int,
    roots: Seq<Seq<String>>,
    exemptions: Seq<Seq<String>>,
)
    requires
        0 <= n <= requests.len(),
        n <= probes.len(),
        assemble_upto(requests, probes, n) == Ok::<(Seq<Seq<String>>, Seq<Seq<String>>), CoverageError>((roots, exemptions)),
    ensures
        forall|i: int, j: int| 0 <= i < j < roots.len() ==> !path_eq(#[trigger] roots[i], #[trigger] roots[j]),
        forall|i: int| 0 <= i < roots.len() ==> resolved_dir(requests, probes, n, #[trigger] roots[i]),
        forall|i: int| 0 <= i < exemptions.len() ==> resolved_file(requests, probes, n, #[trigger] exemptions[i]),
    decreases n,
{
    if n > 0 {
        let (roots1, exemptions1) = assemble_upto(requests, probes, n - 1)->Ok_0;
        lemma_assembled_paths(requests, probes, n - 1, roots1, exemptions1);
        let roots2 = roots;
        let exemptions2 = exemptions;
        let roots = roots1;
        let exemptions = exemptions1;
        assert forall|i: int| 0 <= i < roots.len() implies resolved_dir(requests, probes, n, #[trigger] roots[i]) by {
            let k = choose|k: int|
                0 <= k < n - 1 && requests[k].kind == PathKind::SourceDir && (#[trigger] probes[k]).is_dir
                    && probes[k].canonical is Ok && probes[k].canonical->Ok_0@ == roots[i];
        }
        assert forall|i: int| 0 <= i < exemptions.len() implies resolved_file(requests, probes, n, #[trigger] exemptions[i]) by {
            let k = choose|k: int|
                0 <= k < n - 1 && requests[k].kind == PathKind::ExemptFile && (#[trigger] probes[k]).is_file
                    && probes[k].canonical is Ok && probes[k].canonical->Ok_0@ == exemptions[i];
        }
        match requests[n - 1].kind {
            PathKind::SourceDir => {
                let path = probes[n - 1].canonical->Ok_0;
                assert(roots2 == roots.push(path@));
                assert(resolved_dir(requests, probes, n, path@));
                assert forall|i: int, j: int| 0 <= i < j < roots2.len() implies !path_eq(#[trigger] roots2[i], #[trigger] roots2[j]) by {
                    if j == roots.len() {
                        if path_eq(roots2[i], roots2[j]) {
                            assert(path_eq(path@, roots[i]));
                        }
                    }
                }
                assert forall|i: int| 0 <= i < roots2.len() implies resolved_dir(requests, probes, n, #[trigger] roots2[i]) by {
                    if i < roots.len() {
                        assert(roots2[i] == roots[i]);
                    }
                }
            },
            PathKind::ExemptFile => {
                let path = probes[n - 1].canonical->Ok_0;
                assert(exemptions2 == exemptions.push(path@));
                assert(resolved_file(requests, probes, n, path@));
                assert forall|i: int| 0 <= i < exemptions2.len() implies resolved_file(requests, probes, n, #[trigger] exemptions2[i]) by {
                    if i < exemptions.len() {
                        assert(exemptions2[i] == exemptions[i]);
                    }
                }
            },
        }
    }
}

/// Builds the plan from a selection and what the filesystem says of each of
/// its requests (`probes[k]` for `selection.requests[k]`).
#[verifier::loop_isolation(false)]
pub fn assemble_plan(selection: &PackageSelection, probes: &Vec<PathProbe>) -> (res: Result<CoveragePlan, CoverageError>)
    requires
        probes@.len() == selection.requests@.len(),
    ensures
        match assemble_upto(selection.requests@, probes@, probes@.len() as int) {
            Err(e) => res == Err::<CoveragePlan, CoverageError>(e),
            Ok((roots, exemptions)) => res matches Ok(plan) && path_views(plan.roots@) == roots && path_views(plan.exemptions@)
                == exemptions && plan.cargo_args@ == selection.cargo_args@,
        },
        res matches Ok(plan) ==> forall|i: int, j: int|
            0 <= i < j < plan.roots@.len() ==> !path_eq((#[trigger] plan.roots@[i])@, (#[trigger] plan.roots@[j])@),
        res matches Ok(plan) ==> forall|i: int|
            0 <= i < plan.roots@.len() ==> resolved_dir(selection.requests@, probes@, probes@.len() as int, (#[trigger] plan.roots@[i])@),
        res matches Ok(plan) ==> forall|i: int|
            0 <= i < plan.exemptions@.len() ==> resolved_file(selection.requests@, probes@, probes@.len() as int, (#[trigger] plan.exemptions@[i])@),
{
    let mut roots: Vec<PathParts> = Vec::new();
    let mut exemptions: Vec<PathParts> = Vec::new();
    let n = probes.len();
    let mut k: usize = 0;
    assert(path_views(roots@) =~= Seq::<Seq<String>>::empty());
    assert(path_views(exemptions@) =~= Seq::<Seq<String>>::empty());
    while k < n
        invariant
            0 <= k <= n,
            n == probes@.len(),
            assemble_upto(selection.requests@, probes@, k as int) == Ok::<(Seq<Seq<String>>, Seq<Seq<String>>), CoverageError>((path_views(roots@), path_views(exemptions@))),
        decreases n - k,
    {
        let probe = &probes[k];
        let ghost prev_roots = roots@;
        let ghost prev_ex = exemptions@;
        match selection.requests[k].kind {
            PathKind::SourceDir => {
                if !probe.is_dir {
                    proof {
                        lemma_assemble_error_persists(selection.requests@, probes@, k + 1, n as int);
                    }
                    return Err(CoverageError::SourceDirMissing(k));
                }
                match &probe.canonical {
                    Err(why) => {
                        proof {
                            lemma_assemble_error_persists(selection.requests@, probes@, k + 1, n as int);
                        }
                        return Err(CoverageError::PathUnresolved(k, why.clone()));
                    },
                    Ok(path) => {
                        let m = roots.len();
                        let mut r: usize = 0;
                        while r < m
                            invariant
                                0 <= r <= m,
                                m == roots@.len(),
                                forall|q: int| 0 <= q < r ==> !path_eq(path@, (#[trigger] roots@[q])@),
                            decreases m - r,
                        {
                            if same_path(path, &roots[r]) {
                                assert(path_views(roots@)[r as int] == roots@[r as int]@);
                                proof {
                                    lemma_assemble_error_persists(selection.requests@, probes@, k + 1, n as int);
                                }
                                return Err(CoverageError::DuplicateSourceDir(k));
                            }
                            r = r + 1;
                        }
                        proof {
                            if exists|q: int| 0 <= q < path_views(roots@).len() && path_eq(path@, #[trigger] path_views(roots@)[q]) {
                                let q = choose|q: int| 0 <= q < path_views(roots@).len() && path_eq(path@, #[trigger] path_views(roots@)[q]);
                                assert(path_views(roots@)[q] == roots@[q]@);
                            }
                        }
                        roots.push(copy_path(path));
                        proof {
                            assert(path_views(roots@) =~= path_views(prev_roots).push(path@));
                        }
                    },
                }
            },
            PathKind::ExemptFile => {
                if !probe.is_file {
                    proof {
                        lemma_assemble_error_persists(selection.requests@, probes@, k + 1, n as int);
                    }
                    return Err(CoverageError::ExemptionMissing(k));
                }
                match &probe.canonical {
                    Err(why) => {
                        proof {
                            lemma_assemble_error_persists(selection.requests@, probes@, k + 1, n as int);
                        }
                        return Err(CoverageError::PathUnresolved(k, why.clone()));
                    },
                    Ok(path) => {
                        exemptions.push(copy_path(path));
                        proof {
                            assert(path_views(exemptions@) =~= path_views(prev_ex).push(path@));
                        }
                    },
                }
            },
        }
        k = k + 1;
    }
    let cargo_args = selection.cargo_args.clone();
    proof {
        assert(cargo_args@ =~= selection.cargo_args@);
    }
    proof {
        lemma_assembled_paths(selection.requests@, probes@, n as int, path_views(roots@), path_views(exemptions@));
        let rs = path_views(roots@);
        assert forall|i: int, j: int| 0 <= i < j < roots@.len() implies !path_eq(
            (#[trigger] roots@[i])@,
            (#[trigger] roots@[j])@,
        ) by {
            assert(rs[i] == roots@[i]@);
            assert(rs[j] == roots@[j]@);
        }
        assert forall|i: int| 0 <= i < roots@.len() implies resolved_dir(
            selection.requests@,
            probes@,
            n as int,
            (#[trigger] roots@[i])@,
        ) by {
            assert(rs[i] == roots@[i]@);
        }
        assert forall|i: int| 0 <= i < exemptions@.len() implies path_views(exemptions@)[i] == (#[trigger] exemptions@[i])@ by {}
    }
    Ok(CoveragePlan { cargo_args, roots, exemptions })
}

/// The arguments for `cargo llvm-cov`, without the output path that follows
/// them.
pub open spec fn spec_collection_args(plan_args: Seq<String>) -> Seq<Seq<char>> {
    seq!["llvm-cov"@] + string_views(plan_args) + seq!["--all-features"@, "--json"@, "--output-path"@]
}

/// Builds the stable argument list for `cargo llvm-cov`; the output path
/// is appended by the caller.
pub fn collection_args(plan: &CoveragePlan) -> (res: Vec<String>)
    ensures
        string_views(res@) == spec_collection_args(plan.cargo_args@),
{
    let mut args: Vec<String> = Vec::new();
    args.push("llvm-cov".to_owned());
    push_names(&mut args, &plan.cargo_args);
    args.push("--all-features".to_owned());
    args.push("--json".to_owned());
    args.push("--output-path".to_owned());
    proof {
        assert(string_views(args@) =~= spec_collection_args(plan.cargo_args@));
    }
    args
}

} // verus!
