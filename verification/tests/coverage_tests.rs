//! Scenarios of the coverage policy, run on a modelled project: a simulated
//! Cargo workspace, filesystem and LLVM report.

use qubit_infra_coverage::{
    assemble_plan, check, choose_config, collection_args, metadata_lists, package_entry, read_files,
    report, select_packages, validate_config, Binary64, CheckOutcome, Config, ConfigChoice,
    CoverageError, CoveragePlan, JsonNumber, JsonValue, MemberPackage, Metric, PackagePaths,
    PathParts, PathProbe, PathRequest, ThresholdFailure, Thresholds,
};

const ROOT: &str = "/work/demo";

/// Splits an absolute path into components as `Path::components` does.
fn parts(path: &str) -> PathParts {
    let mut out = Vec::new();
    if path.starts_with('/') {
        out.push("/".to_string());
    }
    for part in path.split('/') {
        if part.is_empty() || part == "." {
            continue;
        }
        out.push(part.to_string());
    }
    out
}

fn render(path: &[String]) -> String {
    let mut out = String::new();
    for (index, part) in path.iter().enumerate() {
        if index == 0 && part == "/" {
            out.push('/');
            continue;
        }
        if !out.is_empty() && !out.ends_with('/') {
            out.push('/');
        }
        out.push_str(part);
    }
    out
}

fn join(base: &str, relative: &str) -> String {
    if relative.starts_with('/') {
        relative.to_string()
    } else {
        render(&parts(&format!("{base}/{relative}")))
    }
}

/// A modelled workspace: its packages, the root manifest's package and the
/// directories and files on disk.
struct Workspace {
    packages: Vec<(String, String, bool)>,
    dirs: Vec<String>,
    files: Vec<String>,
}

impl Workspace {
    fn add_package(&mut self, dir: &str, name: &str, default: bool) {
        self.packages.push((name.to_string(), dir.to_string(), default));
        self.dirs.push(dir.to_string());
        self.dirs.push(format!("{dir}/src"));
        self.files.push(format!("{dir}/Cargo.toml"));
        self.files.push(format!("{dir}/src/lib.rs"));
    }

    fn is_dir(&self, path: &str) -> bool {
        self.dirs.iter().any(|d| d == path)
    }

    fn is_file(&self, path: &str) -> bool {
        self.files.iter().any(|f| f == path)
    }
}

/// A project with one package and two real source directories.
fn project() -> Workspace {
    let mut ws = Workspace { packages: Vec::new(), dirs: Vec::new(), files: Vec::new() };
    ws.add_package(ROOT, "demo", true);
    ws.dirs.push(format!("{ROOT}/src/extra"));
    ws.files.push(format!("{ROOT}/src/extra/item.rs"));
    ws
}

fn text(s: &str) -> JsonValue {
    JsonValue::String(s.to_string())
}

fn unsigned(n: u64) -> JsonValue {
    JsonValue::Number(JsonNumber::NonNegative(n, Binary64 { bits: (n as f64).to_bits() }))
}

fn float(x: f64) -> JsonValue {
    JsonValue::Number(JsonNumber::Float(Binary64 { bits: x.to_bits() }))
}

fn object(mut members: Vec<(&str, JsonValue)>) -> JsonValue {
    members.sort_by(|a, b| a.0.cmp(b.0));
    JsonValue::Object(members.into_iter().map(|(k, v)| (k.to_string(), v)).collect())
}

fn id(dir: &str, name: &str) -> String {
    format!("path+file://{dir}#{name}@0.1.0")
}

/// What `cargo metadata --no-deps` reports for the workspace.
fn metadata(ws: &Workspace) -> JsonValue {
    let packages = ws
        .packages
        .iter()
        .map(|(name, dir, _)| {
            object(vec![
                ("id", text(&id(dir, name))),
                ("name", text(name)),
                ("manifest_path", text(&format!("{dir}/Cargo.toml"))),
            ])
        })
        .collect();
    let members = ws.packages.iter().map(|(name, dir, _)| text(&id(dir, name))).collect();
    let defaults = ws
        .packages
        .iter()
        .filter(|(_, _, default)| *default)
        .map(|(name, dir, _)| text(&id(dir, name)))
        .collect();
    object(vec![
        ("packages", JsonValue::Array(packages)),
        ("workspace_members", JsonValue::Array(members)),
        ("workspace_default_members", JsonValue::Array(defaults)),
    ])
}

/// An LLVM file record with independent metric boundary values.
fn record(path: &str, lines: u64, functions: u64, regions: u64) -> JsonValue {
    let metric = |covered: u64| object(vec![("covered", unsigned(covered)), ("count", unsigned(100)), ("percent", unsigned(covered))]);
    object(vec![
        ("filename", text(path)),
        (
            "summary",
            object(vec![("lines", metric(lines)), ("functions", metric(functions)), ("regions", metric(regions))]),
        ),
    ])
}

fn report_json(files: Vec<JsonValue>) -> JsonValue {
    object(vec![("data", JsonValue::Array(vec![object(vec![("files", JsonValue::Array(files))])]))])
}

fn probe(ws: &Workspace, request: &PathRequest) -> PathProbe {
    let path = join(&render(&request.root), &request.relative);
    let exists = ws.is_dir(&path) || ws.is_file(&path);
    PathProbe {
        is_dir: ws.is_dir(&path),
        is_file: ws.is_file(&path),
        canonical: if exists { Ok(parts(&path)) } else { Err("No such file or directory (os error 2)".to_string()) },
    }
}

/// Resolves the plan for the modelled workspace, as `CoveragePlan::load`
/// does with `cargo metadata` and the filesystem.
fn plan(ws: &Workspace, config: &Config) -> Result<CoveragePlan, CoverageError> {
    let meta = metadata(ws);
    let (members, defaults, packages) = metadata_lists(&meta)?;
    let mut member_packages = Vec::new();
    for package in packages {
        if let Some(entry) = package_entry(package, members, defaults)? {
            let manifest = parts(&entry.manifest_path);
            let root = manifest[..manifest.len() - 1].to_vec();
            member_packages.push(MemberPackage { name: entry.name, is_default: entry.is_default, manifest, root });
        }
    }
    let selection = select_packages(config, &member_packages, &parts(&format!("{ROOT}/Cargo.toml")))?;
    let probes: Vec<PathProbe> = selection.requests.iter().map(|r| probe(ws, r)).collect();
    assemble_plan(&selection, &probes)
}

/// The resolved path of a report filename: relative names are taken from
/// the project root.
fn report_path(filename: &str) -> PathParts {
    parts(&join(ROOT, filename))
}

fn percent_of(covered: u128, count: u128) -> Binary64 {
    Binary64 { bits: (covered as f64 / count as f64 * 100.0).to_bits() }
}

/// Validates the configuration, reads the report and checks it, as the
/// `check` command does.
fn evaluate(ws: &Workspace, config: Config, files: Vec<JsonValue>) -> Result<CheckOutcome, CoverageError> {
    validate_config(&config)?;
    let records = read_files(&report_json(files))?;
    let plan = plan(ws, &config)?;
    let paths: Vec<PathParts> = records.iter().map(|r| report_path(&r.coverage.filename)).collect();
    check(&config.thresholds, &plan, &records, &paths, &percent_of)
}

fn paths_for(package: &str, paths: &[&str]) -> PackagePaths {
    PackagePaths { package: package.to_string(), paths: paths.iter().map(|p| p.to_string()).collect() }
}

fn failed_metrics(outcome: &CheckOutcome) -> Vec<Metric> {
    outcome
        .thresholds
        .failures
        .iter()
        .map(|f| match f {
            ThresholdFailure::CountsUnavailable(m) => *m,
            ThresholdFailure::Below { metric, .. } => *metric,
        })
        .collect()
}

fn bits(x: f64) -> Binary64 {
    Binary64 { bits: x.to_bits() }
}

#[test]
fn coverage_rejects_invalid_source_path() {
    let config = Config { source_dirs: vec![paths_for("pkg", &["../src"])], ..Config::default() };
    assert!(validate_config(&config).is_err());
}

#[test]
fn lib_rejects_invalid_source_path() {
    let config = Config { source_dirs: vec![paths_for("pkg", &["../src"])], ..Config::default() };
    assert!(matches!(validate_config(&config), Err(CoverageError::InvalidPath)));
}

#[test]
fn applies_thresholds_to_weighted_coverage_counts() {
    let ws = project();
    let config = Config {
        thresholds: Thresholds { lines: Some(bits(92.0)), ..Thresholds::default() },
        ..Config::default()
    };
    let lines = |covered: u64, count: u64, percent: f64| {
        object(vec![("lines", object(vec![("covered", unsigned(covered)), ("count", unsigned(count)), ("percent", float(percent))]))])
    };
    let files = vec![
        object(vec![("filename", text("src/small.rs")), ("summary", lines(1, 1, 100.0))]),
        object(vec![("filename", text("src/large.rs")), ("summary", lines(8, 9, 88.8888888889))]),
    ];
    let outcome = evaluate(&ws, config, files).expect("selection succeeds");
    let lines_failure = outcome.thresholds.failures.iter().find_map(|f| match f {
        ThresholdFailure::Below { metric: Metric::Lines, threshold, percent } => Some((*threshold, *percent)),
        _ => None,
    });
    let (threshold, percent) = lines_failure.expect("lines <= 92.00 (90.00%)");
    assert_eq!(format!("lines <= {:.2} ({:.2}%)", f64::from_bits(threshold.bits), f64::from_bits(percent.bits)), "lines <= 92.00 (90.00%)");
}

#[test]
fn rejects_partial_metric_counts_during_threshold_checks() {
    let ws = project();
    let config = Config {
        thresholds: Thresholds { lines: Some(bits(0.0)), ..Thresholds::default() },
        ..Config::default()
    };
    let files = vec![
        object(vec![
            ("filename", text("src/counts.rs")),
            ("summary", object(vec![("lines", object(vec![("covered", unsigned(1)), ("count", unsigned(1)), ("percent", float(100.0))]))])),
        ]),
        object(vec![
            ("filename", text("src/percent-only.rs")),
            ("summary", object(vec![("lines", object(vec![("percent", float(100.0))]))])),
        ]),
    ];
    let outcome = evaluate(&ws, config, files).expect("selection succeeds");
    assert!(outcome.thresholds.failures.contains(&ThresholdFailure::CountsUnavailable(Metric::Lines)));
}

#[test]
fn coverage_reads_llvm_file_summary() {
    let report = report_json(vec![object(vec![
        ("filename", text("src/lib.rs")),
        ("summary", object(vec![("lines", object(vec![("percent", float(91.0))]))])),
    ])]);
    assert_eq!(read_files(&report).unwrap()[0].coverage.lines_percent, Some(bits(91.0)));
}

#[test]
fn lib_reads_llvm_file_summary() {
    let report = report_json(vec![object(vec![
        ("filename", text("src/lib.rs")),
        ("summary", object(vec![("lines", object(vec![("percent", float(91.0))]))])),
    ])]);
    let records = read_files(&report).unwrap();
    assert_eq!(records[0].coverage.filename, "src/lib.rs");
    assert_eq!(records[0].coverage.lines_percent.map(|p| f64::from_bits(p.bits)), Some(91.0));
}

#[test]
fn rejects_invalid_scope_and_threshold() {
    let config = Config {
        scope: Some("all".to_string()),
        thresholds: Thresholds { lines: Some(bits(101.0)), ..Thresholds::default() },
        ..Config::default()
    };
    assert!(matches!(validate_config(&config), Err(CoverageError::UnsupportedScope)));
    let config = Config {
        thresholds: Thresholds { lines: Some(bits(101.0)), ..Thresholds::default() },
        ..Config::default()
    };
    assert!(matches!(validate_config(&config), Err(CoverageError::ThresholdOutOfRange)));
}

#[test]
fn builds_stable_collection_arguments() {
    let mut ws = Workspace { packages: Vec::new(), dirs: Vec::new(), files: Vec::new() };
    ws.add_package(ROOT, "demo", true);
    let config = Config { scope: Some("package".to_string()), ..Config::default() };
    let plan = plan(&ws, &config).unwrap();
    assert_eq!(
        collection_args(&plan),
        vec!["llvm-cov", "--package", "demo", "--all-features", "--json", "--output-path"]
    );
}

#[test]
fn resolves_legacy_config_when_modern_config_is_missing() {
    let modern = parts(&format!("{ROOT}/.infra/ci/coverage.json"));
    assert_eq!(choose_config(false, &modern, &modern, true), ConfigChoice::Legacy);
    assert_eq!(choose_config(true, &modern, &modern, true), ConfigChoice::Configured);
    let other = parts(&format!("{ROOT}/other.json"));
    assert_eq!(choose_config(false, &other, &modern, true), ConfigChoice::Configured);
}

#[test]
fn test_lines_equal_threshold_fail() {
    let ws = project();
    let outcome = evaluate(&ws, Config::default(), vec![record("src/lib.rs", 90, 100, 100)]).unwrap();
    assert_eq!(failed_metrics(&outcome), vec![Metric::Lines]);
}

#[test]
fn test_regions_equal_threshold_fail() {
    let ws = project();
    let outcome = evaluate(&ws, Config::default(), vec![record("src/lib.rs", 100, 100, 85)]).unwrap();
    assert_eq!(failed_metrics(&outcome), vec![Metric::Regions]);
}

#[test]
fn test_functions_equal_threshold_pass() {
    let ws = project();
    let outcome = evaluate(&ws, Config::default(), vec![record("src/lib.rs", 91, 95, 86)]).unwrap();
    assert!(outcome.thresholds.failures.is_empty());
}

#[test]
fn test_empty_thresholds_keep_defaults() {
    let ws = project();
    let config = Config { thresholds: Thresholds::default(), ..Config::default() };
    let outcome = evaluate(&ws, config, vec![record("src/lib.rs", 0, 0, 0)]).unwrap();
    assert!(!outcome.thresholds.failures.is_empty());
}

#[test]
fn test_null_required_threshold_is_rejected() {
    for metric in [Metric::Lines, Metric::Functions, Metric::Regions] {
        let mut thresholds = Thresholds::default();
        match metric {
            Metric::Lines => thresholds.lines = None,
            Metric::Functions => thresholds.functions = None,
            _ => thresholds.regions = None,
        }
        let config = Config { thresholds, ..Config::default() };
        match validate_config(&config) {
            Err(CoverageError::ThresholdDisabled(m)) => assert_eq!(m, metric),
            other => panic!("required thresholds cannot be disabled: {other:?}"),
        }
    }
}

#[test]
fn test_every_source_root_requires_report_hits() {
    let ws = project();
    let config = || Config { source_dirs: vec![paths_for("demo", &["src", "src/extra"])], ..Config::default() };
    let error = evaluate(&ws, config(), vec![record("src/lib.rs", 100, 100, 100)]).unwrap_err();
    match error {
        CoverageError::RootUnmatched(root) => assert!(render(&root).contains("src/extra")),
        other => panic!("extra source root was not measured: {other:?}"),
    }
    let records = read_files(&report_json(vec![record("src/lib.rs", 100, 100, 100)])).unwrap();
    let plan = plan(&ws, &config()).unwrap();
    let paths: Vec<PathParts> = records.iter().map(|r| report_path(&r.coverage.filename)).collect();
    assert!(report(&plan, &records, &paths).is_err());
}

#[test]
fn test_unknown_packages_are_rejected() {
    let ws = project();
    for config in [
        Config { source_dirs: vec![paths_for("unknown", &["src"])], ..Config::default() },
        Config { threshold_exempt_files: vec![paths_for("unknown", &["src/lib.rs"])], ..Config::default() },
        Config { exclude_packages: vec!["unknown".to_string()], ..Config::default() },
    ] {
        let error = evaluate(&ws, config, vec![record("src/lib.rs", 100, 100, 100)]).unwrap_err();
        match error {
            CoverageError::UnknownPackage(name) => assert_eq!(name, "unknown"),
            other => panic!("unknown package must fail: {other:?}"),
        }
    }
}

#[test]
fn test_missing_configured_paths_are_rejected() {
    let ws = project();
    let error = evaluate(
        &ws,
        Config { source_dirs: vec![paths_for("demo", &["src", "missing"])], ..Config::default() },
        vec![record("src/lib.rs", 100, 100, 100)],
    )
    .unwrap_err();
    assert!(matches!(error, CoverageError::SourceDirMissing(1)), "{error:?}");
    let error = evaluate(
        &ws,
        Config { threshold_exempt_files: vec![paths_for("demo", &["missing.rs"])], ..Config::default() },
        vec![record("src/lib.rs", 100, 100, 100)],
    )
    .unwrap_err();
    assert!(matches!(error, CoverageError::ExemptionMissing(1)), "{error:?}");
}

#[test]
fn test_empty_and_duplicate_path_lists_are_rejected() {
    let ws = project();
    for config in [
        Config { source_dirs: vec![paths_for("demo", &[])], ..Config::default() },
        Config { source_dirs: vec![paths_for("demo", &["src", "src"])], ..Config::default() },
        Config { threshold_exempt_files: vec![paths_for("demo", &["src/lib.rs", "src/lib.rs"])], ..Config::default() },
    ] {
        assert!(evaluate(&ws, config, vec![record("src/lib.rs", 100, 100, 100)]).is_err());
    }
}

#[test]
fn test_workspace_exemptions_only_match_the_named_package() {
    let mut ws = project();
    ws.add_package(&format!("{ROOT}/member"), "member", false);
    let config = Config {
        scope: Some("workspace".to_string()),
        threshold_exempt_files: vec![paths_for("demo", &["src/lib.rs"])],
        ..Config::default()
    };
    let outcome = evaluate(
        &ws,
        config,
        vec![record("src/lib.rs", 100, 100, 100), record("member/src/lib.rs", 0, 0, 0)],
    )
    .expect("member's file must not be exempted by a suffix match");
    assert!(!outcome.thresholds.failures.is_empty());
    assert_eq!(outcome.files.len(), 1);
    assert_eq!(outcome.files[0].filename, "member/src/lib.rs");
}

#[test]
fn test_workspace_source_paths_are_package_relative() {
    let mut ws = Workspace { packages: Vec::new(), dirs: Vec::new(), files: Vec::new() };
    ws.add_package(ROOT, "demo", false);
    ws.add_package(&format!("{ROOT}/member"), "member", true);
    let outcome = evaluate(
        &ws,
        Config { source_dirs: vec![paths_for("member", &["src"])], ..Config::default() },
        vec![record("member/src/lib.rs", 100, 100, 100)],
    )
    .expect("member source root must resolve");
    assert!(outcome.thresholds.failures.is_empty());
    let error = evaluate(
        &ws,
        Config { source_dirs: vec![paths_for("demo", &["src"])], ..Config::default() },
        vec![record("src/lib.rs", 100, 100, 100)],
    )
    .unwrap_err();
    match error {
        CoverageError::UnselectedPackage(name) => assert_eq!(name, "demo"),
        other => panic!("non-default package must be rejected: {other:?}"),
    }
}

#[test]
fn test_virtual_workspace_roots_and_exclusions() {
    let root = "/work/virtual";
    let mut ws = Workspace { packages: Vec::new(), dirs: Vec::new(), files: Vec::new() };
    ws.add_package(&format!("{root}/first"), "first", true);
    ws.add_package(&format!("{root}/second"), "second", true);
    let config = Config {
        scope: Some("workspace".to_string()),
        exclude_packages: vec!["second".to_string()],
        ..Config::default()
    };
    let plan_result = plan(&ws, &config).expect("excluded package requires no report hits");
    assert_eq!(plan_result.roots.len(), 1);
    assert_eq!(render(&plan_result.roots[0]), format!("{root}/first/src"));
    assert_eq!(
        collection_args(&plan_result),
        vec!["llvm-cov", "--workspace", "--exclude", "second", "--all-features", "--json", "--output-path"]
    );
    let error = plan(&ws, &Config { scope: Some("package".to_string()), ..Config::default() }).unwrap_err();
    assert!(matches!(error, CoverageError::NoPackagesSelected), "virtual workspace has no root package: {error:?}");
    let config = Config {
        scope: Some("workspace".to_string()),
        exclude_packages: vec!["second".to_string()],
        threshold_exempt_files: vec![paths_for("second", &["src/lib.rs"])],
        ..Config::default()
    };
    match plan(&ws, &config).unwrap_err() {
        CoverageError::UnselectedPackage(name) => assert_eq!(name, "second"),
        other => panic!("excluded package cannot configure exemptions: {other:?}"),
    }
}

#[test]
fn test_exempt_report_hits_still_satisfy_source_root_check() {
    let ws = project();
    let absolute = format!("{ROOT}/src/extra/item.rs");
    let outcome = evaluate(
        &ws,
        Config {
            source_dirs: vec![paths_for("demo", &["src", "src/extra"])],
            threshold_exempt_files: vec![paths_for("demo", &["src/extra/item.rs"])],
            ..Config::default()
        },
        vec![record("src/lib.rs", 100, 100, 100), record(&absolute, 0, 0, 0)],
    )
    .expect("exempt files prove root coverage but do not lower aggregates");
    assert!(outcome.thresholds.failures.is_empty());
}

#[test]
fn test_source_roots_do_not_match_sibling_prefixes() {
    let mut ws = project();
    ws.dirs.push(format!("{ROOT}/src/extra_suffix"));
    ws.files.push(format!("{ROOT}/src/extra_suffix/item.rs"));
    let error = evaluate(
        &ws,
        Config { source_dirs: vec![paths_for("demo", &["src/extra"])], ..Config::default() },
        vec![record("src/extra_suffix/item.rs", 100, 100, 100)],
    )
    .unwrap_err();
    assert!(matches!(error, CoverageError::RootUnmatched(_)), "directory names require component boundaries: {error:?}");
}

#[test]
fn test_invalid_path_kinds_and_empty_scope_fail() {
    let ws = project();
    let file = |config: Config| evaluate(&ws, config, vec![record("src/lib.rs", 100, 100, 100)]).unwrap_err();
    assert!(matches!(
        file(Config { source_dirs: vec![paths_for("demo", &["src/lib.rs"])], ..Config::default() }),
        CoverageError::SourceDirMissing(0)
    ));
    assert!(matches!(
        file(Config { threshold_exempt_files: vec![paths_for("demo", &["src"])], ..Config::default() }),
        CoverageError::ExemptionMissing(1)
    ));
    assert!(matches!(
        file(Config { exclude_packages: vec!["demo".to_string()], ..Config::default() }),
        CoverageError::NoPackagesSelected
    ));
    assert!(matches!(
        file(Config { exclude_packages: vec!["demo".to_string(), "demo".to_string()], ..Config::default() }),
        CoverageError::DuplicateExcludedPackage
    ));
}

#[test]
fn fully_exempt_report_selects_no_files() {
    let ws = project();
    let config = Config {
        threshold_exempt_files: vec![paths_for("demo", &["src/lib.rs"])],
        ..Config::default()
    };
    let error = evaluate(&ws, config, vec![record("src/lib.rs", 100, 100, 100)]).unwrap_err();
    assert!(matches!(error, CoverageError::NoFilesSelected), "{error:?}");
}

#[test]
fn aliased_source_directories_are_duplicates() {
    let ws = project();
    let config = Config { source_dirs: vec![paths_for("demo", &["src", "src/."])], ..Config::default() };
    assert!(validate_config(&config).is_ok());
    let error = plan(&ws, &config).unwrap_err();
    assert!(matches!(error, CoverageError::DuplicateSourceDir(1)), "{error:?}");
}

#[test]
fn unresolvable_paths_carry_the_reason() {
    let ws = project();
    let config = Config::default();
    let meta = metadata(&ws);
    let (members, defaults, packages) = metadata_lists(&meta).unwrap();
    let entry = package_entry(&packages[0], members, defaults).unwrap().unwrap();
    let manifest = parts(&entry.manifest_path);
    let member = MemberPackage {
        name: entry.name,
        is_default: entry.is_default,
        root: manifest[..manifest.len() - 1].to_vec(),
        manifest,
    };
    let selection = select_packages(&config, &vec![member], &parts(&format!("{ROOT}/Cargo.toml"))).unwrap();
    assert_eq!(selection.requests.len(), 1);
    assert_eq!(selection.requests[0].relative, "src");
    let probes = vec![PathProbe { is_dir: true, is_file: false, canonical: Err("permission denied".to_string()) }];
    match assemble_plan(&selection, &probes).unwrap_err() {
        CoverageError::PathUnresolved(0, why) => assert_eq!(why, "permission denied"),
        other => panic!("{other:?}"),
    }
}

#[test]
fn unvalidated_scope_is_unknown_to_the_plan() {
    let ws = project();
    let config = Config { scope: Some("all".to_string()), ..Config::default() };
    match plan(&ws, &config).unwrap_err() {
        CoverageError::UnknownScope(scope) => assert_eq!(scope, "all"),
        other => panic!("{other:?}"),
    }
}

#[test]
fn default_members_use_their_src_directory() {
    let mut ws = project();
    ws.add_package(&format!("{ROOT}/member"), "member", false);
    let defaults = plan(&ws, &Config::default()).unwrap();
    assert_eq!(defaults.roots.iter().map(|r| render(r)).collect::<Vec<_>>(), vec![format!("{ROOT}/src")]);
    assert_eq!(
        collection_args(&defaults),
        vec!["llvm-cov", "--workspace", "--exclude", "member", "--all-features", "--json", "--output-path"]
    );
    let whole = plan(&ws, &Config { scope: Some("workspace".to_string()), ..Config::default() }).unwrap();
    assert_eq!(
        whole.roots.iter().map(|r| render(r)).collect::<Vec<_>>(),
        vec![format!("{ROOT}/src"), format!("{ROOT}/member/src")]
    );
    assert_eq!(collection_args(&whole), vec!["llvm-cov", "--workspace", "--all-features", "--json", "--output-path"]);
}

#[test]
fn check_and_report_select_the_same_files() {
    let ws = project();
    let config = Config { source_dirs: vec![paths_for("demo", &["src/extra"])], ..Config::default() };
    let records = read_files(&report_json(vec![
        record("src/lib.rs", 100, 100, 100),
        record("src/extra/item.rs", 50, 50, 50),
        record("/elsewhere/file.rs", 0, 0, 0),
    ]))
    .unwrap();
    let resolved = plan(&ws, &config).unwrap();
    let paths: Vec<PathParts> = records.iter().map(|r| report_path(&r.coverage.filename)).collect();
    let reported = report(&resolved, &records, &paths).unwrap();
    let checked = check(&config.thresholds, &resolved, &records, &paths, &percent_of).unwrap();
    let names = |files: &[qubit_infra_coverage::FileCoverage]| files.iter().map(|f| f.filename.clone()).collect::<Vec<_>>();
    assert_eq!(names(&reported), vec!["src/extra/item.rs"]);
    assert_eq!(names(&reported), names(&checked.files));
    assert_eq!(failed_metrics(&checked), vec![Metric::Lines, Metric::Functions, Metric::Regions]);
}

#[test]
fn lower_thresholds_add_no_failure() {
    let ws = project();
    let files = || vec![record("src/lib.rs", 88, 94, 86)];
    let strict = Config {
        thresholds: Thresholds { lines: Some(bits(95.0)), branches: Some(bits(10.0)), ..Thresholds::default() },
        ..Config::default()
    };
    let lenient = Config {
        thresholds: Thresholds { lines: Some(bits(80.0)), functions: Some(bits(90.0)), ..Thresholds::default() },
        ..Config::default()
    };
    let strict_failures = failed_metrics(&evaluate(&ws, strict, files()).unwrap());
    let lenient_failures = failed_metrics(&evaluate(&ws, lenient, files()).unwrap());
    assert_eq!(strict_failures, vec![Metric::Lines, Metric::Functions, Metric::Branches]);
    assert!(lenient_failures.is_empty());
    assert!(lenient_failures.iter().all(|m| strict_failures.contains(m)));
}

#[test]
fn report_files_outside_every_root_change_nothing() {
    let ws = project();
    let base = vec![record("src/lib.rs", 95, 100, 90)];
    let mut extended = vec![record("src/lib.rs", 95, 100, 90)];
    extended.push(record("/elsewhere/generated.rs", 0, 0, 0));
    extended.push(record("tests/it.rs", 0, 0, 0));
    let first = evaluate(&ws, Config::default(), base).unwrap();
    let second = evaluate(&ws, Config::default(), extended).unwrap();
    assert_eq!(first.files.len(), second.files.len());
    assert_eq!(first.thresholds.totals, second.thresholds.totals);
    assert_eq!(first.thresholds.failures, second.thresholds.failures);
}
