//! Decisions of the command layer: which configuration file to read and how
//! to invoke Clippy.

use vstd::prelude::*;

use crate::config::Config;
use crate::names::string_views;
use crate::plan::{path_eq, same_path, PathParts};
use crate::text::str_eq;

verus! {

/// The configuration path, relative to the project root, that is used
/// unless another is given.
pub fn modern_config_path() -> (res: &'static str)
    ensures
        res@ == ".infra/ci/coverage.json"@,
{
    ".infra/ci/coverage.json"
}

/// The legacy configuration path, relative to the project root.
pub fn legacy_config_path() -> (res: &'static str)
    ensures
        res@ == ".rs-ci-coverage.json"@,
{
    ".rs-ci-coverage.json"
}

/// The report path, relative to the project root, that collection writes
/// unless another is given.
pub fn default_report_path() -> (res: &'static str)
    ensures
        res@ == "target/infra/coverage/raw.json"@,
{
    "target/infra/coverage/raw.json"
}

/// Which configuration file to read.
#[derive(Clone, Copy, Debug, PartialEq, Eq, Structural)]
pub enum ConfigChoice {
    /// The configured path.
    Configured,
    /// The legacy `.rs-ci-coverage.json`, with a migration warning.
    Legacy,
}

/// The legacy file replaces the configured one only when the configured
/// file is missing, is the modern project path, and the legacy file exists.
pub open spec fn spec_uses_legacy(
    configured_is_file: bool,
    configured: Seq<String>,
    modern: Seq<String>,
    legacy_is_file: bool,
) -> bool {
    !configured_is_file && path_eq(configured, modern) && legacy_is_file
}

/// Resolves the configured coverage file, including the legacy fallback.
pub fn choose_config(
    configured_is_file: bool,
    configured: &PathParts,
    modern: &PathParts,
    legacy_is_file: bool,
) -> (res: ConfigChoice)
    ensures
        (res is Legacy) == spec_uses_legacy(configured_is_file, configured@, modern@, legacy_is_file),
{
    if configured_is_file {
        return ConfigChoice::Configured;
    }
    if same_path(configured, modern) && legacy_is_file {
        ConfigChoice::Legacy
    } else {
        ConfigChoice::Configured
    }
}

/// How to run Clippy: its arguments and the `RUSTFLAGS` for the child
/// process, if any.
#[derive(Debug)]
pub struct ClippyCommand {
    /// Arguments to `cargo`.
    pub args: Vec<String>,
    /// `RUSTFLAGS` for the Clippy process only.
    pub rustflags: Option<String>,
}

/// Whether Clippy runs with `--cfg coverage`: the flag, either
/// configuration setting, or `RUN_COVERAGE_CFG_CLIPPY=1` enables it.
pub open spec fn spec_coverage_cfg(config: Config, flag: bool, env_value: Option<Seq<char>>) -> bool {
    flag || config.clippy.coverage_cfg || config.coverage_cfg_clippy || env_value == Some("1"@)
}

/// The Clippy arguments.
pub open spec fn spec_clippy_args() -> Seq<Seq<char>> {
    seq!["clippy"@, "--all-targets"@, "--all-features"@, "--"@, "-D"@, "warnings"@]
}

/// Decides how to run Clippy. `env_value` is the value of
/// `RUN_COVERAGE_CFG_CLIPPY`, if it is set and valid Unicode.
pub fn clippy_command(config: &Config, coverage_cfg: bool, env_value: Option<&str>) -> (res: ClippyCommand)
    ensures
        string_views(res.args@) == spec_clippy_args(),
        res.rustflags is Some == spec_coverage_cfg(*config, coverage_cfg, match env_value {
            Some(v) => Some(v@),
            None => None,
        }),
        res.rustflags matches Some(f) ==> f@ == "--cfg coverage"@,
{
    let env_enabled = match env_value {
        Some(v) => str_eq(v, "1"),
        None => false,
    };
    let enabled = coverage_cfg || config.clippy.coverage_cfg || config.coverage_cfg_clippy || env_enabled;
    let mut args: Vec<String> = Vec::new();
    args.push("clippy".to_owned());
    args.push("--all-targets".to_owned());
    args.push("--all-features".to_owned());
    args.push("--".to_owned());
    args.push("-D".to_owned());
    args.push("warnings".to_owned());
    proof {
        assert(string_views(args@) =~= spec_clippy_args());
    }
    let rustflags = if enabled {
        Some("--cfg coverage".to_owned())
    } else {
        None
    };
    ClippyCommand { args, rustflags }
}

} // verus!
