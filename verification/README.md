# qubit-infra-coverage

Collects LLVM coverage data, evaluates project coverage thresholds, and runs
the coverage-specific Clippy check from a project's configuration
(`.infra/ci/coverage.json`, or the legacy `.rs-ci-coverage.json`).

## Layout

- `src/` is the verified library. Every policy decision is a function with a
  contract proved by Verus:
  - `config`: the configuration model and its validation (scope, required
    and in-range thresholds, safe package-relative paths);
  - `json`, `report`: the JSON document model, parsed from text or bytes
    with serde_json behind two trusted wrappers, and the reading of LLVM
    file summaries and hit counts;
  - `metadata`, `selection`, `plan`: the workspace members from Cargo
    metadata, the packages in scope, the paths to resolve, the Cargo flags,
    and the resolved source roots and exemptions;
  - `coverage`: root matching, file selection and the weighted threshold
    evaluation behind `check` and `report`;
  - `commands`: which configuration file to read and how to run Clippy;
  - `binary64`: percentages as IEEE 754 encodings, ordered exactly;
  - `laws`: proved properties that span these functions.
- `app/` is the command-line program: argument parsing, file and process I/O,
  loading the configuration file, and the floating-point percentage of
  aggregated counts.
- `tests/` runs the library on concrete configurations, reports and modelled
  workspaces.
