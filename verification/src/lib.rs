//! Coverage policy: configuration validation, report reading, file selection
//! and threshold evaluation.

pub mod binary64;
pub mod commands;
pub mod config;
pub mod coverage;
pub mod error;
pub mod json;
pub mod laws;
pub mod metadata;
pub mod names;
pub mod plan;
pub mod report;
pub mod selection;
pub mod text;

pub use binary64::Binary64;
pub use commands::{choose_config, clippy_command, ClippyCommand, ConfigChoice};
pub use config::{validate_config, ClippyConfig, Config, Metric, PackagePaths, Thresholds};
pub use coverage::{check, report, select_files, threshold_failures, CheckOutcome, MetricTotals, ThresholdFailure, ThresholdReport};
pub use error::CoverageError;
pub use json::{JsonNumber, JsonValue};
pub use metadata::{metadata_from_stdout, metadata_lists, package_entry, PackageEntry};
pub use plan::{assemble_plan, collection_args, CoveragePlan, PathParts, PathProbe};
pub use report::{read_files, read_report_text, CoverageRecord, FileCoverage, MetricCounts};
pub use selection::{select_packages, MemberPackage, PackageSelection, PathKind, PathRequest};
