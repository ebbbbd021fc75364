//! Unit-level scenarios: percentages, paths, JSON values, metadata, report
//! records and the Clippy command.

use qubit_infra_coverage::report::{metric_counts, percent};
use qubit_infra_coverage::text::{has_duplicates, valid_relative_path};
use qubit_infra_coverage::{
    clippy_command, metadata_from_stdout, metadata_lists, package_entry, read_files, read_report_text, threshold_failures, validate_config,
    Binary64, ClippyConfig, Config, CoverageError, JsonNumber, JsonValue, Metric, MetricCounts,
    PackagePaths, ThresholdFailure, Thresholds,
};

fn bits(x: f64) -> Binary64 {
    Binary64 { bits: x.to_bits() }
}

fn text(s: &str) -> JsonValue {
    JsonValue::String(s.to_string())
}

fn unsigned(n: u64) -> JsonValue {
    JsonValue::Number(JsonNumber::NonNegative(n, bits(n as f64)))
}

fn float(x: f64) -> JsonValue {
    JsonValue::Number(JsonNumber::Float(bits(x)))
}

fn object(mut members: Vec<(&str, JsonValue)>) -> JsonValue {
    members.sort_by(|a, b| a.0.cmp(b.0));
    JsonValue::Object(members.into_iter().map(|(k, v)| (k.to_string(), v)).collect())
}

fn metric(covered: u64, count: u64, pct: f64) -> JsonValue {
    object(vec![("covered", unsigned(covered)), ("count", unsigned(count)), ("percent", float(pct))])
}

fn file(name: &str, summary: Vec<(&str, JsonValue)>) -> JsonValue {
    object(vec![("filename", text(name)), ("summary", object(summary))])
}

fn report_json(files: Vec<JsonValue>) -> JsonValue {
    object(vec![("data", JsonValue::Array(vec![object(vec![("files", JsonValue::Array(files))])]))])
}

fn percent_of(covered: u128, count: u128) -> Binary64 {
    bits(covered as f64 / count as f64 * 100.0)
}

#[test]
fn percent_order_follows_ieee_754() {
    let zero = bits(0.0);
    let negative_zero = bits(-0.0);
    assert!(zero.le(&negative_zero) && negative_zero.le(&zero));
    assert!(!zero.lt(&negative_zero) && !negative_zero.lt(&zero));
    assert!(bits(-1.0).lt(&bits(-0.5)));
    assert!(bits(89.999).lt(&bits(90.0)));
    assert!(!bits(90.0).lt(&bits(90.0)));
    assert!(bits(90.0).le(&bits(90.0)));
    let nan = bits(f64::NAN);
    assert!(nan.is_nan());
    assert!(!nan.le(&nan) && !nan.lt(&zero) && !zero.le(&nan));
    assert!(bits(f64::NEG_INFINITY).lt(&bits(f64::MIN)));
    assert_eq!(Binary64::zero(), zero);
    assert_eq!(Binary64::hundred(), bits(100.0));
}

#[test]
fn percent_range_is_closed_and_excludes_nan() {
    assert!(bits(0.0).in_percent_range());
    assert!(bits(-0.0).in_percent_range());
    assert!(bits(100.0).in_percent_range());
    assert!(bits(55.5).in_percent_range());
    assert!(!bits(100.000001).in_percent_range());
    assert!(!bits(-0.000001).in_percent_range());
    assert!(!bits(f64::NAN).in_percent_range());
    assert!(!bits(f64::INFINITY).in_percent_range());
}

#[test]
fn relative_paths_are_checked() {
    for good in ["src", "src/extra", "a/./b", "src/..hidden", "x..", "src/"] {
        assert!(valid_relative_path(good), "{good}");
    }
    for bad in ["", "/src", "src\\lib.rs", "c:/src", "src/../lib", "..", "a/..", "src/\u{7}", "tab\there"] {
        assert!(!valid_relative_path(bad), "{bad:?}");
    }
}

#[test]
fn duplicates_are_found_anywhere() {
    let list = |items: &[&str]| items.iter().map(|s| s.to_string()).collect::<Vec<_>>();
    assert!(!has_duplicates(&list(&[])));
    assert!(!has_duplicates(&list(&["a", "b", "c"])));
    assert!(has_duplicates(&list(&["a", "b", "a"])));
    assert!(has_duplicates(&list(&["x", "y", "y"])));
}

#[test]
fn json_values_compare_as_serde_json_does() {
    let a = object(vec![("b", JsonValue::Array(vec![unsigned(1), JsonValue::Null])), ("a", text("x"))]);
    let b = object(vec![("a", text("x")), ("b", JsonValue::Array(vec![unsigned(1), JsonValue::Null]))]);
    assert!(a.equals(&b));
    assert!(!unsigned(1).equals(&float(1.0)));
    assert!(float(0.0).equals(&float(-0.0)));
    assert!(!text("x").equals(&text("y")));
    assert!(!JsonValue::Array(vec![unsigned(1)]).equals(&JsonValue::Array(vec![unsigned(1), unsigned(1)])));
    assert!(!JsonValue::Bool(true).equals(&JsonValue::Null));
}

#[test]
fn json_members_and_conversions() {
    let value = object(vec![("n", unsigned(7)), ("f", float(2.5)), ("s", text("t"))]);
    assert_eq!(value.get("n").and_then(|v| v.as_u64()), Some(7));
    assert_eq!(value.get("f").and_then(|v| v.as_u64()), None);
    assert_eq!(value.get("f").and_then(|v| v.as_f64()), Some(bits(2.5)));
    assert_eq!(value.get("n").and_then(|v| v.as_f64()), Some(bits(7.0)));
    assert_eq!(value.get("s").and_then(|v| v.as_str()).map(|s| s.as_str()), Some("t"));
    assert!(value.get("missing").is_none());
    assert!(unsigned(3).get("n").is_none());
    let negative = JsonValue::Number(JsonNumber::Negative(-4, bits(-4.0)));
    assert_eq!(negative.as_u64(), None);
    assert_eq!(negative.as_f64(), Some(bits(-4.0)));
}

#[test]
fn metric_values_are_read_from_objects() {
    let m = metric(3, 4, 75.0);
    assert_eq!(percent(Some(&m)), Some(bits(75.0)));
    assert_eq!(metric_counts(Some(&m)), Some(MetricCounts { covered: 3, count: 4 }));
    let only_percent = object(vec![("percent", float(50.0))]);
    assert_eq!(metric_counts(Some(&only_percent)), None);
    let float_counts = object(vec![("covered", float(1.5)), ("count", unsigned(2))]);
    assert_eq!(metric_counts(Some(&float_counts)), None);
    assert_eq!(percent(Some(&object(vec![("percent", text("50"))]))), None);
    assert_eq!(percent(None), None);
    assert_eq!(metric_counts(None), None);
}

#[test]
fn report_records_keep_order_and_metrics() {
    let report = object(vec![(
        "data",
        JsonValue::Array(vec![
            object(vec![(
                "files",
                JsonValue::Array(vec![
                    file("a.rs", vec![("lines", metric(1, 2, 50.0)), ("branches", metric(0, 0, 0.0))]),
                    file("b.rs", vec![]),
                ]),
            )]),
            object(vec![("totals", JsonValue::Null)]),
            object(vec![("files", JsonValue::Array(vec![object(vec![("filename", text("c.rs"))])]))]),
        ]),
    )]);
    let records = read_files(&report).unwrap();
    let names: Vec<&str> = records.iter().map(|r| r.coverage.filename.as_str()).collect();
    assert_eq!(names, vec!["a.rs", "b.rs", "c.rs"]);
    assert_eq!(records[0].lines, Some(MetricCounts { covered: 1, count: 2 }));
    assert_eq!(records[0].coverage.lines_percent, Some(bits(50.0)));
    assert_eq!(records[0].branches, Some(MetricCounts { covered: 0, count: 0 }));
    assert_eq!(records[0].functions, None);
    assert_eq!(records[1].coverage.lines_percent, None);
    assert_eq!(records[2].regions, None);
}

#[test]
fn report_without_data_array_is_refused() {
    assert!(matches!(read_files(&object(vec![])), Err(CoverageError::NoDataArray)));
    assert!(matches!(read_files(&object(vec![("data", text("x"))])), Err(CoverageError::NoDataArray)));
    assert!(matches!(read_files(&JsonValue::Array(vec![])), Err(CoverageError::NoDataArray)));
    assert!(read_files(&object(vec![("data", JsonValue::Array(vec![]))])).unwrap().is_empty());
}

#[test]
fn report_file_without_name_is_refused() {
    let nameless = object(vec![("summary", object(vec![]))]);
    assert!(matches!(read_files(&report_json(vec![nameless])), Err(CoverageError::FileWithoutName)));
    let numeric = object(vec![("filename", unsigned(1))]);
    assert!(matches!(read_files(&report_json(vec![numeric])), Err(CoverageError::FileWithoutName)));
}

#[test]
fn metadata_lists_are_required_in_order() {
    let list = JsonValue::Array(vec![]);
    let full = object(vec![
        ("workspace_members", JsonValue::Array(vec![text("a")])),
        ("workspace_default_members", list_clone(&list)),
        ("packages", list_clone(&list)),
    ]);
    let (members, defaults, packages) = metadata_lists(&full).unwrap();
    assert_eq!(members.len(), 1);
    assert!(defaults.is_empty() && packages.is_empty());
    assert!(matches!(metadata_lists(&object(vec![])), Err(CoverageError::MetadataWithoutMembers)));
    let no_defaults = object(vec![("workspace_members", list_clone(&list)), ("packages", list_clone(&list))]);
    assert!(matches!(metadata_lists(&no_defaults), Err(CoverageError::MetadataWithoutDefaultMembers)));
    let no_packages = object(vec![
        ("workspace_members", list_clone(&list)),
        ("workspace_default_members", list_clone(&list)),
        ("packages", JsonValue::Null),
    ]);
    assert!(matches!(metadata_lists(&no_packages), Err(CoverageError::MetadataWithoutPackages)));
}

fn list_clone(value: &JsonValue) -> JsonValue {
    match value {
        JsonValue::Array(items) => JsonValue::Array(items.iter().map(list_clone).collect()),
        JsonValue::String(s) => JsonValue::String(s.clone()),
        _ => JsonValue::Null,
    }
}

#[test]
fn package_entries_follow_membership() {
    let members = vec![text("id-a"), text("id-b")];
    let defaults = vec![text("id-a")];
    let package = |id: &str, name: Option<&str>, manifest: Option<&str>| {
        let mut fields = vec![("id", text(id))];
        if let Some(n) = name {
            fields.push(("name", text(n)));
        }
        if let Some(m) = manifest {
            fields.push(("manifest_path", text(m)));
        }
        object(fields)
    };
    let a = package_entry(&package("id-a", Some("a"), Some("/w/a/Cargo.toml")), &members, &defaults).unwrap().unwrap();
    assert_eq!((a.name.as_str(), a.manifest_path.as_str(), a.is_default), ("a", "/w/a/Cargo.toml", true));
    let b = package_entry(&package("id-b", Some("b"), Some("/w/b/Cargo.toml")), &members, &defaults).unwrap().unwrap();
    assert!(!b.is_default);
    assert!(package_entry(&package("id-c", None, None), &members, &defaults).unwrap().is_none());
    assert!(matches!(
        package_entry(&package("id-a", None, Some("/m")), &members, &defaults),
        Err(CoverageError::PackageWithoutName)
    ));
    assert!(matches!(
        package_entry(&package("id-a", Some("a"), None), &members, &defaults),
        Err(CoverageError::PackageWithoutManifestPath)
    ));
}

#[test]
fn default_configuration_is_valid() {
    let config = Config::default();
    assert!(validate_config(&config).is_ok());
    assert_eq!(config.thresholds.lines, Some(bits(90.0)));
    assert_eq!(config.thresholds.functions, Some(bits(95.0)));
    assert_eq!(config.thresholds.regions, Some(bits(85.0)));
    assert_eq!(config.thresholds.branches, None);
    assert_eq!(config.scope, None);
    assert!(!ClippyConfig::default().coverage_cfg);
}

#[test]
fn test_partial_thresholds_keep_other_required_defaults() {
    let thresholds = Thresholds { lines: Some(bits(92.0)), ..Thresholds::default() };
    assert_eq!(thresholds.lines, Some(bits(92.0)));
    assert_eq!(thresholds.functions, Some(bits(95.0)));
    assert_eq!(thresholds.regions, Some(bits(85.0)));
    assert!(validate_config(&Config { thresholds, ..Config::default() }).is_ok());
}

#[test]
fn parses_legacy_scope_threshold_and_clippy_settings() {
    let config = Config {
        scope: Some("package".to_string()),
        exclude_packages: vec!["support".to_string()],
        thresholds: Thresholds {
            lines: Some(bits(91.0)),
            functions: Some(bits(92.0)),
            regions: Some(bits(93.0)),
            branches: Some(bits(94.0)),
        },
        clippy: ClippyConfig { coverage_cfg: true },
        ..Config::default()
    };
    assert!(validate_config(&config).is_ok());
    assert_eq!(config.scope.as_deref(), Some("package"));
    assert_eq!(config.thresholds.lines, Some(bits(91.0)));
    assert!(clippy_command(&config, false, None).rustflags.is_some());
}

#[test]
fn parses_top_level_legacy_clippy_setting() {
    let config = Config { coverage_cfg_clippy: true, ..Config::default() };
    assert_eq!(clippy_command(&config, false, None).rustflags.as_deref(), Some("--cfg coverage"));
}

#[test]
fn clippy_coverage_cfg_sources() {
    let plain = Config::default();
    let command = clippy_command(&plain, false, None);
    assert_eq!(command.args, vec!["clippy", "--all-targets", "--all-features", "--", "-D", "warnings"]);
    assert_eq!(command.rustflags, None);
    assert_eq!(clippy_command(&plain, true, None).rustflags.as_deref(), Some("--cfg coverage"));
    assert_eq!(clippy_command(&plain, false, Some("1")).rustflags.as_deref(), Some("--cfg coverage"));
    for value in ["0", "true", "", " 1", "11"] {
        assert_eq!(clippy_command(&plain, false, Some(value)).rustflags, None, "{value:?}");
    }
    let nested = Config { clippy: ClippyConfig { coverage_cfg: true }, ..Config::default() };
    assert!(clippy_command(&nested, false, Some("0")).rustflags.is_some());
}

fn paths_for(package: &str, paths: &[&str]) -> PackagePaths {
    PackagePaths { package: package.to_string(), paths: paths.iter().map(|p| p.to_string()).collect() }
}

#[test]
fn configuration_errors_come_in_the_documented_order() {
    let check = |config: Config| validate_config(&config).unwrap_err();
    assert!(matches!(
        check(Config { exclude_packages: vec![String::new()], scope: Some("all".to_string()), ..Config::default() }),
        CoverageError::EmptyExcludedPackage
    ));
    assert!(matches!(
        check(Config {
            scope: Some("all".to_string()),
            thresholds: Thresholds { lines: None, ..Thresholds::default() },
            ..Config::default()
        }),
        CoverageError::UnsupportedScope
    ));
    assert!(matches!(
        check(Config {
            thresholds: Thresholds { regions: None, lines: None, ..Thresholds::default() },
            exclude_packages: vec!["a".to_string(), "a".to_string()],
            ..Config::default()
        }),
        CoverageError::ThresholdDisabled(Metric::Lines)
    ));
    assert!(matches!(
        check(Config {
            exclude_packages: vec!["a".to_string(), "a".to_string()],
            source_dirs: vec![paths_for("demo", &[])],
            ..Config::default()
        }),
        CoverageError::DuplicateExcludedPackage
    ));
    assert!(matches!(
        check(Config {
            source_dirs: vec![paths_for("demo", &[])],
            thresholds: Thresholds { branches: Some(bits(-1.0)), ..Thresholds::default() },
            ..Config::default()
        }),
        CoverageError::EmptySourceDirs
    ));
    assert!(matches!(
        check(Config {
            thresholds: Thresholds { branches: Some(bits(f64::NAN)), ..Thresholds::default() },
            source_dirs: vec![paths_for("demo", &["src", "src"])],
            ..Config::default()
        }),
        CoverageError::ThresholdOutOfRange
    ));
    match check(Config {
        source_dirs: vec![paths_for("demo", &["src", "src"])],
        threshold_exempt_files: vec![paths_for("", &["x.rs"])],
        ..Config::default()
    }) {
        CoverageError::DuplicatePaths(name) => assert_eq!(name, "demo"),
        other => panic!("{other:?}"),
    }
    match check(Config { threshold_exempt_files: vec![paths_for("demo", &["a.rs", "a.rs"])], ..Config::default() }) {
        CoverageError::DuplicatePaths(name) => assert_eq!(name, "demo"),
        other => panic!("{other:?}"),
    }
    assert!(matches!(
        check(Config { threshold_exempt_files: vec![paths_for("", &["x.rs"])], ..Config::default() }),
        CoverageError::InvalidPath
    ));
    assert!(matches!(
        check(Config { threshold_exempt_files: vec![paths_for("demo", &["/abs.rs"])], ..Config::default() }),
        CoverageError::InvalidPath
    ));
}

#[test]
fn thresholds_sum_counts_before_dividing() {
    let report = report_json(vec![
        file("src/small.rs", vec![("lines", metric(1, 1, 100.0)), ("branches", metric(0, 0, 0.0))]),
        file("src/large.rs", vec![("lines", metric(8, 9, 88.8888888889)), ("functions", metric(3, 4, 75.0))]),
    ]);
    let records = read_files(&report).unwrap();
    let thresholds = Thresholds {
        lines: Some(bits(90.0)),
        functions: Some(bits(75.0)),
        regions: Some(bits(0.0)),
        branches: Some(bits(50.0)),
    };
    let result = threshold_failures(&thresholds, &records, &vec![0, 1], &percent_of);
    let metrics: Vec<Metric> = result.totals.iter().map(|t| t.metric).collect();
    assert_eq!(metrics, vec![Metric::Lines, Metric::Functions, Metric::Regions, Metric::Branches]);
    assert_eq!((result.totals[0].covered, result.totals[0].count), (9, 10));
    assert_eq!(result.totals[0].percent, Some(bits(90.0)));
    assert_eq!((result.totals[1].covered, result.totals[1].count), (3, 4));
    assert_eq!((result.totals[2].covered, result.totals[2].count, result.totals[2].percent), (0, 0, None));
    assert_eq!((result.totals[3].count, result.totals[3].percent), (0, None));
    assert_eq!(
        result.failures,
        vec![
            ThresholdFailure::Below { metric: Metric::Lines, threshold: bits(90.0), percent: bits(90.0) },
            ThresholdFailure::CountsUnavailable(Metric::Regions),
            ThresholdFailure::CountsUnavailable(Metric::Branches),
        ]
    );
    let only_small = threshold_failures(&thresholds, &records, &vec![0], &percent_of);
    assert_eq!(only_small.totals[0].percent, Some(bits(100.0)));
}

#[test]
fn unconfigured_branches_are_not_checked() {
    let report = report_json(vec![file(
        "src/lib.rs",
        vec![
            ("lines", metric(100, 100, 100.0)),
            ("functions", metric(100, 100, 100.0)),
            ("regions", metric(100, 100, 100.0)),
            ("branches", object(vec![("percent", float(0.0))])),
        ],
    )]);
    let records = read_files(&report).unwrap();
    let result = threshold_failures(&Thresholds::default(), &records, &vec![0], &percent_of);
    assert!(result.totals[3].missing_counts);
    assert!(result.failures.is_empty());
}

#[test]
fn selection_order_and_repeats_are_kept() {
    let report = report_json(vec![
        file("a.rs", vec![("lines", metric(1, 2, 50.0))]),
        file("b.rs", vec![("lines", metric(0, 2, 0.0))]),
    ]);
    let records = read_files(&report).unwrap();
    let result = threshold_failures(&Thresholds::default(), &records, &vec![1, 1], &percent_of);
    assert_eq!((result.totals[0].covered, result.totals[0].count), (0, 4));
    assert_eq!(result.totals[0].percent, Some(bits(0.0)));
}

#[test]
fn report_text_is_parsed_and_read() {
    let text = r#"{"data":[{"files":[
        {"filename":"src/lib.rs","summary":{"lines":{"covered":8,"count":9,"percent":88.88888888888889},
         "branches":{"count":0,"covered":0,"percent":0}}},
        {"filename":"/abs/other.rs"}
    ]}],"type":"llvm.coverage.json.export","version":"2.0.1"}"#;
    let records = read_report_text(text).unwrap();
    assert_eq!(records.len(), 2);
    assert_eq!(records[0].coverage.filename, "src/lib.rs");
    assert_eq!(records[0].lines, Some(MetricCounts { covered: 8, count: 9 }));
    assert_eq!(records[0].coverage.lines_percent, Some(bits(88.88888888888889)));
    assert_eq!(records[0].coverage.branches_percent, Some(bits(0.0)));
    assert_eq!(records[1].coverage.filename, "/abs/other.rs");
    assert_eq!(records[1].coverage.lines_percent, None);
}

#[test]
fn report_text_errors() {
    match read_report_text("{\"data\": [").unwrap_err() {
        CoverageError::InvalidJson(why) => assert!(why.contains("EOF"), "{why}"),
        other => panic!("{other:?}"),
    }
    assert!(matches!(read_report_text("{}"), Err(CoverageError::NoDataArray)));
    assert!(matches!(read_report_text("[1, 2]"), Err(CoverageError::NoDataArray)));
    assert!(matches!(
        read_report_text(r#"{"data":[{"files":[{"summary":{}}]}]}"#),
        Err(CoverageError::FileWithoutName)
    ));
}

#[test]
fn metadata_output_is_parsed() {
    let stdout = br#"{"packages":[{"id":"path+file:///w#a@0.1.0","name":"a","manifest_path":"/w/Cargo.toml"}],
        "workspace_members":["path+file:///w#a@0.1.0"],"workspace_default_members":["path+file:///w#a@0.1.0"],
        "target_directory":"/w/target","version":1}"#;
    let (members, defaults, packages) = metadata_from_stdout(stdout).unwrap();
    assert_eq!((members.len(), defaults.len(), packages.len()), (1, 1, 1));
    let entry = package_entry(&packages[0], &members, &defaults).unwrap().unwrap();
    assert_eq!((entry.name.as_str(), entry.manifest_path.as_str(), entry.is_default), ("a", "/w/Cargo.toml", true));
}

#[test]
fn metadata_output_errors() {
    assert!(matches!(metadata_from_stdout(b"not json"), Err(CoverageError::InvalidJson(_))));
    assert!(matches!(metadata_from_stdout(b"{}"), Err(CoverageError::MetadataWithoutMembers)));
    assert!(matches!(
        metadata_from_stdout(br#"{"workspace_members":[],"packages":[]}"#),
        Err(CoverageError::MetadataWithoutDefaultMembers)
    ));
    assert!(matches!(
        metadata_from_stdout(br#"{"workspace_members":[],"workspace_default_members":[],"packages":{}}"#),
        Err(CoverageError::MetadataWithoutPackages)
    ));
    assert!(matches!(
        metadata_from_stdout(br#"{"workspace_members":[],"workspace_default_members":[]}"#),
        Err(CoverageError::MetadataWithoutPackages)
    ));
}
