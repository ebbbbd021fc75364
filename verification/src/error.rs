//! Errors reported by the coverage policy.

use vstd::prelude::*;

use crate::config::Metric;
use crate::plan::PathParts;

verus! {

/// Why a configuration, report or project layout was refused.
#[derive(Clone, Debug)]
pub enum CoverageError {
    /// `exclude_packages` holds an empty name.
    EmptyExcludedPackage,
    /// `scope` is not `default-members`, `workspace` or `package`.
    UnsupportedScope,
    /// A required threshold (lines, functions, regions) is unset.
    ThresholdDisabled(Metric),
    /// `exclude_packages` repeats a name.
    DuplicateExcludedPackage,
    /// A `source_dirs` entry lists no directory.
    EmptySourceDirs,
    /// A threshold lies outside `0.0..=100.0`.
    ThresholdOutOfRange,
    /// The paths configured for the named package repeat a value.
    DuplicatePaths(String),
    /// A package name is empty or a configured path is not a safe relative path.
    InvalidPath,
    /// A JSON document could not be parsed; the text says why.
    InvalidJson(String),
    /// The coverage JSON has no `data` array.
    NoDataArray,
    /// A coverage file record has no `filename` string.
    FileWithoutName,
    /// No report file lies inside this source root.
    RootUnmatched(PathParts),
    /// The report holds no file inside the configured source roots.
    NoFilesSelected,
    /// Cargo metadata has no `workspace_members` array.
    MetadataWithoutMembers,
    /// Cargo metadata has no `workspace_default_members` array.
    MetadataWithoutDefaultMembers,
    /// Cargo metadata has no `packages` array.
    MetadataWithoutPackages,
    /// A workspace package has no `name` string.
    PackageWithoutName,
    /// A workspace package has no `manifest_path` string.
    PackageWithoutManifestPath,
    /// The named scope is not one the plan knows.
    UnknownScope(String),
    /// The configuration names a package that is not a workspace member.
    UnknownPackage(String),
    /// The configuration configures paths for a package outside the scope.
    UnselectedPackage(String),
    /// The scope selects no package.
    NoPackagesSelected,
    /// The source directory of the path request with this index is missing.
    SourceDirMissing(usize),
    /// The exemption file of the path request with this index is missing.
    ExemptionMissing(usize),
    /// The path of the request with this index could not be resolved; the
    /// text says why.
    PathUnresolved(usize, String),
    /// The request with this index resolves to a source directory already
    /// listed.
    DuplicateSourceDir(usize),
}

} // verus!
