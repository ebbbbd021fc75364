//! Coverage configuration: the policy model and its validation.

use vstd::prelude::*;

use crate::binary64::{spec_in_percent_range, Binary64};
use crate::error::CoverageError;
use crate::text::{has_duplicates, spec_has_duplicates, spec_valid_relative_path, str_eq, valid_relative_path};

verus! {

/// One of the four LLVM coverage metrics.
#[derive(Clone, Copy, Debug, PartialEq, Eq, Structural)]
pub enum Metric {
    Lines,
    Functions,
    Regions,
    Branches,
}

impl Metric {
    /// The metric's name as configuration files and messages spell it.
    pub fn name(&self) -> (res: &'static str)
        ensures
            res@ == self.spec_name(),
    {
        match self {
            Metric::Lines => "lines",
            Metric::Functions => "functions",
            Metric::Regions => "regions",
            Metric::Branches => "branches",
        }
    }

    pub open spec fn spec_name(&self) -> Seq<char> {
        match self {
            Metric::Lines => "lines"@,
            Metric::Functions => "functions"@,
            Metric::Regions => "regions"@,
            Metric::Branches => "branches"@,
        }
    }

    /// Whether the threshold is exclusive: lines and regions must exceed it,
    /// functions and branches may equal it.
    pub open spec fn spec_requires_strictly_greater(&self) -> bool {
        self is Lines || self is Regions
    }

    /// Reports whether the metric's threshold is exclusive.
    pub fn requires_strictly_greater(&self) -> (res: bool)
        ensures
            res == self.spec_requires_strictly_greater(),
    {
        match self {
            Metric::Lines | Metric::Regions => true,
            _ => false,
        }
    }
}

/// The metrics in the order in which they are checked and reported.
pub open spec fn metric_order() -> Seq<Metric> {
    seq![Metric::Lines, Metric::Functions, Metric::Regions, Metric::Branches]
}

/// Configures coverage-specific behavior for Clippy.
#[derive(Clone, Copy, Debug, PartialEq, Eq, Structural)]
pub struct ClippyConfig {
    /// Enables `RUSTFLAGS=--cfg coverage` for the child Clippy process.
    pub coverage_cfg: bool,
}

impl Default for ClippyConfig {
    fn default() -> (res: Self)
        ensures
            !res.coverage_cfg,
    {
        ClippyConfig { coverage_cfg: false }
    }
}

/// The binary64 encoding of `90.0`.
pub const DEFAULT_LINES_BITS: u64 = 0x4056_8000_0000_0000;

/// The binary64 encoding of `95.0`.
pub const DEFAULT_FUNCTIONS_BITS: u64 = 0x4057_C000_0000_0000;

/// The binary64 encoding of `85.0`.
pub const DEFAULT_REGIONS_BITS: u64 = 0x4055_4000_0000_0000;

/// Minimum acceptable percentages for each LLVM coverage metric.
#[derive(Clone, Copy, Debug, PartialEq, Eq, Structural)]
pub struct Thresholds {
    /// Exclusive minimum line coverage percentage.
    pub lines: Option<Binary64>,
    /// Inclusive minimum function coverage percentage.
    pub functions: Option<Binary64>,
    /// Exclusive minimum region coverage percentage.
    pub regions: Option<Binary64>,
    /// Inclusive minimum branch coverage percentage, or `None` to skip it.
    pub branches: Option<Binary64>,
}

impl Thresholds {
    /// The threshold configured for `metric`.
    pub open spec fn spec_get(&self, metric: Metric) -> Option<Binary64> {
        match metric {
            Metric::Lines => self.lines,
            Metric::Functions => self.functions,
            Metric::Regions => self.regions,
            Metric::Branches => self.branches,
        }
    }

    /// Returns the threshold configured for `metric`.
    pub fn get(&self, metric: Metric) -> (res: Option<Binary64>)
        ensures
            res == self.spec_get(metric),
    {
        match metric {
            Metric::Lines => self.lines,
            Metric::Functions => self.functions,
            Metric::Regions => self.regions,
            Metric::Branches => self.branches,
        }
    }
}

impl Default for Thresholds {
    /// The default requires more than 90% lines, at least 95% functions and
    /// more than 85% regions; branches have no default threshold.
    fn default() -> (res: Self)
        ensures
            res.lines == Some(Binary64 { bits: DEFAULT_LINES_BITS }),
            res.functions == Some(Binary64 { bits: DEFAULT_FUNCTIONS_BITS }),
            res.regions == Some(Binary64 { bits: DEFAULT_REGIONS_BITS }),
            res.branches.is_none(),
    {
        Thresholds {
            lines: Some(Binary64 { bits: DEFAULT_LINES_BITS }),
            functions: Some(Binary64 { bits: DEFAULT_FUNCTIONS_BITS }),
            regions: Some(Binary64 { bits: DEFAULT_REGIONS_BITS }),
            branches: None,
        }
    }
}

/// The paths configured for one package.
#[derive(Clone, Debug)]
pub struct PackagePaths {
    /// The package name.
    pub package: String,
    /// Paths relative to the package root.
    pub paths: Vec<String>,
}

/// The coverage policy and collection scope for a project.
///
/// `source_dirs` and `threshold_exempt_files` are maps from package names to
/// paths, given as entries in ascending order of package name.
#[derive(Clone, Debug)]
pub struct Config {
    /// `default-members`, `workspace` or `package`; `None` means
    /// `default-members`.
    pub scope: Option<String>,
    /// Workspace packages excluded from collection.
    pub exclude_packages: Vec<String>,
    /// Source directories per package; none selects each package's `src`.
    pub source_dirs: Vec<PackagePaths>,
    /// Files per package that are left out of threshold calculations.
    pub threshold_exempt_files: Vec<PackagePaths>,
    /// Minimum coverage percentages.
    pub thresholds: Thresholds,
    /// Nested Clippy settings.
    pub clippy: ClippyConfig,
    /// The top-level Clippy setting; either setting enables the flag.
    pub coverage_cfg_clippy: bool,
}

impl Default for Config {
    fn default() -> (res: Self)
        ensures
            res.scope.is_none(),
            res.exclude_packages@.len() == 0,
            res.source_dirs@.len() == 0,
            res.threshold_exempt_files@.len() == 0,
            res.thresholds == (Thresholds {
                lines: Some(Binary64 { bits: DEFAULT_LINES_BITS }),
                functions: Some(Binary64 { bits: DEFAULT_FUNCTIONS_BITS }),
                regions: Some(Binary64 { bits: DEFAULT_REGIONS_BITS }),
                branches: None,
            }),
            !res.clippy.coverage_cfg,
            !res.coverage_cfg_clippy,
    {
        Config {
            scope: None,
            exclude_packages: Vec::new(),
            source_dirs: Vec::new(),
            threshold_exempt_files: Vec::new(),
            thresholds: Thresholds::default(),
            clippy: ClippyConfig::default(),
            coverage_cfg_clippy: false,
        }
    }
}

/// The scope names a configuration may use.
pub open spec fn spec_known_scope(scope: Seq<char>) -> bool {
    scope == "default-members"@ || scope == "workspace"@ || scope == "package"@
}

/// Reports whether `scope` is one of the supported scope names.
pub fn known_scope(scope: &str) -> (res: bool)
    ensures
        res == spec_known_scope(scope@),
{
    str_eq(scope, "default-members") || str_eq(scope, "workspace") || str_eq(scope, "package")
}

/// The first required metric (lines, functions, regions) whose threshold is
/// not set.
pub open spec fn first_disabled_threshold(t: Thresholds) -> Option<Metric> {
    if t.lines.is_none() {
        Some(Metric::Lines)
    } else if t.functions.is_none() {
        Some(Metric::Functions)
    } else if t.regions.is_none() {
        Some(Metric::Regions)
    } else {
        None
    }
}

/// Whether a configured threshold lies in `0.0..=100.0`; an unset one does.
pub open spec fn threshold_in_range(t: Option<Binary64>) -> bool {
    match t {
        Some(p) => spec_in_percent_range(p.bits),
        None => true,
    }
}

/// Whether every configured threshold lies in `0.0..=100.0`.
pub open spec fn thresholds_in_range(t: Thresholds) -> bool {
    threshold_in_range(t.lines) && threshold_in_range(t.functions) && threshold_in_range(
        t.regions,
    ) && threshold_in_range(t.branches)
}

/// The check applied to each `(package, paths)` entry, in order: the first
/// entry whose paths repeat a value or whose package name is empty or which
/// holds an invalid path decides the error.
pub open spec fn check_path_entries(entries: Seq<PackagePaths>) -> Result<(), CoverageError>
    decreases entries.len(),
{
    if entries.len() == 0 {
        Ok(())
    } else if spec_has_duplicates(entries[0].paths@) {
        Err(CoverageError::DuplicatePaths(entries[0].package))
    } else if entries[0].package@.len() == 0 || exists|k: int|
        0 <= k < entries[0].paths@.len() && !spec_valid_relative_path(
            #[trigger] entries[0].paths@[k]@,
        ) {
        Err(CoverageError::InvalidPath)
    } else {
        check_path_entries(entries.drop_first())
    }
}

/// The outcome of validating a configuration; the first violated rule in
/// this order decides the error.
pub open spec fn spec_validate_config(c: Config) -> Result<(), CoverageError> {
    if exists|k: int| 0 <= k < c.exclude_packages@.len() && (#[trigger] c.exclude_packages@[k])@.len() == 0 {
        Err(CoverageError::EmptyExcludedPackage)
    } else if c.scope matches Some(s) && !spec_known_scope(s@) {
        Err(CoverageError::UnsupportedScope)
    } else if first_disabled_threshold(c.thresholds) is Some {
        Err(CoverageError::ThresholdDisabled(first_disabled_threshold(c.thresholds)->0))
    } else if spec_has_duplicates(c.exclude_packages@) {
        Err(CoverageError::DuplicateExcludedPackage)
    } else if exists|k: int| 0 <= k < c.source_dirs@.len() && (#[trigger] c.source_dirs@[k]).paths@.len() == 0 {
        Err(CoverageError::EmptySourceDirs)
    } else if !thresholds_in_range(c.thresholds) {
        Err(CoverageError::ThresholdOutOfRange)
    } else {
        check_path_entries(c.source_dirs@ + c.threshold_exempt_files@)
    }
}

fn threshold_ok(t: Option<Binary64>) -> (res: bool)
    ensures
        res == threshold_in_range(t),
{
    match t {
        Some(p) => p.in_percent_range(),
        None => true,
    }
}

/// Checks the entries of one path map, stopping at the first bad entry.
#[verifier::loop_isolation(false)]
fn validate_path_entries(entries: &Vec<PackagePaths>) -> (res: Result<(), CoverageError>)
    ensures
        res == check_path_entries(entries@),
{
    let n = entries.len();
    let mut i: usize = 0;
    assert(entries@.skip(0) =~= entries@);
    while i < n
        invariant
            n == entries@.len(),
            0 <= i <= n,
            check_path_entries(entries@) == check_path_entries(entries@.skip(i as int)),
        decreases n - i,
    {
        assert(entries@.skip(i as int)[0] == entries@[i as int]);
        assert(entries@.skip(i as int).drop_first() =~= entries@.skip(i + 1));
        let entry = &entries[i];
        if has_duplicates(&entry.paths) {
            return Err(CoverageError::DuplicatePaths(entry.package.clone()));
        }
        if entry.package.as_str().is_empty() {
            return Err(CoverageError::InvalidPath);
        }
        let m = entry.paths.len();
        let mut k: usize = 0;
        while k < m
            invariant
                m == entry.paths@.len(),
                0 <= k <= m,
                forall|j: int| 0 <= j < k ==> spec_valid_relative_path(#[trigger] entry.paths@[j]@),
            decreases m - k,
        {
            if !valid_relative_path(entry.paths[k].as_str()) {
                assert(entries@.skip(i as int)[0] == entries@[i as int]);
                assert(!spec_valid_relative_path(entries@.skip(i as int)[0].paths@[k as int]@));
                return Err(CoverageError::InvalidPath);
            }
            k = k + 1;
        }
        i = i + 1;
    }
    assert(entries@.skip(n as int) =~= Seq::<PackagePaths>::empty());
    Ok(())
}

/// Validates all configured scope, threshold, and path constraints.
///
/// Returns the error for the first unsupported scope, disabled or
/// out-of-range threshold, empty or repeated package name, empty source list,
/// or unsafe path encountered.
#[verifier::loop_isolation(false)]
pub fn validate_config(config: &Config) -> (res: Result<(), CoverageError>)
    ensures
        res == spec_validate_config(*config),
{
    let n = config.exclude_packages.len();
    let mut i: usize = 0;
    while i < n
        invariant
            n == config.exclude_packages@.len(),
            0 <= i <= n,
            forall|k: int| 0 <= k < i ==> (#[trigger] config.exclude_packages@[k])@.len() != 0,
        decreases n - i,
    {
        if config.exclude_packages[i].as_str().is_empty() {
            assert(config.exclude_packages@[i as int]@.len() == 0);
            return Err(CoverageError::EmptyExcludedPackage);
        }
        i = i + 1;
    }
    if let Some(scope) = &config.scope {
        if !known_scope(scope.as_str()) {
            return Err(CoverageError::UnsupportedScope);
        }
    }
    if config.thresholds.lines.is_none() {
        return Err(CoverageError::ThresholdDisabled(Metric::Lines));
    }
    if config.thresholds.functions.is_none() {
        return Err(CoverageError::ThresholdDisabled(Metric::Functions));
    }
    if config.thresholds.regions.is_none() {
        return Err(CoverageError::ThresholdDisabled(Metric::Regions));
    }
    if has_duplicates(&config.exclude_packages) {
        return Err(CoverageError::DuplicateExcludedPackage);
    }
    let n = config.source_dirs.len();
    let mut i: usize = 0;
    while i < n
        invariant
            n == config.source_dirs@.len(),
            0 <= i <= n,
            forall|k: int| 0 <= k < i ==> (#[trigger] config.source_dirs@[k]).paths@.len() != 0,
        decreases n - i,
    {
        if config.source_dirs[i].paths.len() == 0 {
            assert(config.source_dirs@[i as int].paths@.len() == 0);
            return Err(CoverageError::EmptySourceDirs);
        }
        i = i + 1;
    }
    if !(threshold_ok(config.thresholds.lines) && threshold_ok(config.thresholds.functions)
        && threshold_ok(config.thresholds.regions) && threshold_ok(config.thresholds.branches)) {
        return Err(CoverageError::ThresholdOutOfRange);
    }
    let first = validate_path_entries(&config.source_dirs);
    if first.is_err() {
        proof {
            lemma_check_path_entries_append_err(config.source_dirs@, config.threshold_exempt_files@);
        }
        return first;
    }
    let second = validate_path_entries(&config.threshold_exempt_files);
    proof {
        lemma_check_path_entries_append_ok(config.source_dirs@, config.threshold_exempt_files@);
    }
    second
}

/// A failing first list decides the check of a concatenation.
proof fn lemma_check_path_entries_append_err(a: Seq<PackagePaths>, b: Seq<PackagePaths>)
    requires
        check_path_entries(a) is Err,
    ensures
        check_path_entries(a + b) == check_path_entries(a),
    decreases a.len(),
{
    assert((a + b)[0] == a[0]);
    assert((a + b).drop_first() =~= a.drop_first() + b);
    if !spec_has_duplicates(a[0].paths@) && !(a[0].package@.len() == 0 || exists|k: int|
        0 <= k < a[0].paths@.len() && !spec_valid_relative_path(#[trigger] a[0].paths@[k]@)) {
        lemma_check_path_entries_append_err(a.drop_first(), b);
    }
}

/// A passing first list leaves the check of a concatenation to the second.
proof fn lemma_check_path_entries_append_ok(a: Seq<PackagePaths>, b: Seq<PackagePaths>)
    requires
        check_path_entries(a) is Ok,
    ensures
        check_path_entries(a + b) == check_path_entries(b),
    decreases a.len(),
{
    if a.len() == 0 {
        assert(a + b =~= b);
    } else {
        assert((a + b)[0] == a[0]);
        assert((a + b).drop_first() =~= a.drop_first() + b);
        lemma_check_path_entries_append_ok(a.drop_first(), b);
    }
}

} // verus!
