//! Properties of the coverage policy that span its functions.

use vstd::prelude::*;

use crate::binary64::{is_nan, spec_lt, Binary64};
use crate::config::{
    check_path_entries, spec_known_scope, spec_validate_config, threshold_in_range, thresholds_in_range, Config, Metric, PackagePaths, Thresholds,
    DEFAULT_FUNCTIONS_BITS, DEFAULT_LINES_BITS, DEFAULT_REGIONS_BITS,
};
use crate::coverage::{
    below_threshold, failure_of, is_first_unmatched_root, is_selected, lemma_first_unmatched_exists,
    lemma_first_unmatched_unique, root_matched, selected_upto, spec_select, MetricTotals,
    ThresholdFailure,
};
use crate::plan::{path_eq, strictly_under, CoveragePlan, PathParts};
use crate::selection::{
    dir_requests, is_selected_name, lookup_paths, member_included, spec_scope, spec_selection_error,
    MemberPackage, PathKind,
};
use crate::names::string_views;
use crate::text::{spec_has_duplicates, spec_valid_relative_path};

verus! {

/// The default configuration (no scope, no packages or paths, the default
/// thresholds) is valid.
pub proof fn law_default_config_is_valid(c: Config)
    requires
        c.scope.is_none(),
        c.exclude_packages@.len() == 0,
        c.source_dirs@.len() == 0,
        c.threshold_exempt_files@.len() == 0,
        c.thresholds == (Thresholds {
            lines: Some(Binary64 { bits: DEFAULT_LINES_BITS }),
            functions: Some(Binary64 { bits: DEFAULT_FUNCTIONS_BITS }),
            regions: Some(Binary64 { bits: DEFAULT_REGIONS_BITS }),
            branches: None,
        }),
    ensures
        spec_validate_config(c) is Ok,
{
    assert(c.source_dirs@ + c.threshold_exempt_files@ =~= Seq::<PackagePaths>::empty());
    assert(threshold_in_range(c.thresholds.lines));
    assert(threshold_in_range(c.thresholds.functions));
    assert(threshold_in_range(c.thresholds.regions));
}

/// A configuration whose source directories or exemptions hold a path that
/// is not a safe relative path is refused.
pub proof fn law_unsafe_paths_are_refused(c: Config, k: int, j: int)
    requires
        0 <= k < (c.source_dirs@ + c.threshold_exempt_files@).len(),
        0 <= j < (c.source_dirs@ + c.threshold_exempt_files@)[k].paths@.len(),
        !spec_valid_relative_path((c.source_dirs@ + c.threshold_exempt_files@)[k].paths@[j]@),
    ensures
        spec_validate_config(c) is Err,
{
    lemma_bad_entry_fails(c.source_dirs@ + c.threshold_exempt_files@, k, j);
}

proof fn lemma_bad_entry_fails(entries: Seq<PackagePaths>, k: int, j: int)
    requires
        0 <= k < entries.len(),
        0 <= j < entries[k].paths@.len(),
        !spec_valid_relative_path(entries[k].paths@[j]@),
    ensures
        check_path_entries(entries) is Err,
    decreases k,
{
    if k > 0 {
        assert(entries.drop_first()[k - 1] == entries[k]);
        lemma_bad_entry_fails(entries.drop_first(), k - 1, j);
    } else {
        assert(!spec_valid_relative_path(entries[0].paths@[j]@));
    }
}

/// A configuration that passes validation has every required threshold set,
/// every threshold within `0.0..=100.0`, a known scope, distinct non-empty
/// excluded package names, and for each path entry a non-empty package name
/// with distinct, safe relative paths.
pub proof fn law_valid_config_is_well_formed(c: Config)
    requires
        spec_validate_config(c) is Ok,
    ensures
        c.thresholds.lines is Some,
        c.thresholds.functions is Some,
        c.thresholds.regions is Some,
        thresholds_in_range(c.thresholds),
        c.scope matches Some(s) ==> spec_known_scope(s@),
        forall|k: int| 0 <= k < c.exclude_packages@.len() ==> (#[trigger] c.exclude_packages@[k])@.len() > 0,
        !spec_has_duplicates(c.exclude_packages@),
        forall|k: int| 0 <= k < c.source_dirs@.len() ==> (#[trigger] c.source_dirs@[k]).paths@.len() > 0,
        forall|k: int|
            0 <= k < (c.source_dirs@ + c.threshold_exempt_files@).len() ==> entry_is_safe(
                #[trigger] (c.source_dirs@ + c.threshold_exempt_files@)[k],
            ),
{
    lemma_checked_entries_are_safe(c.source_dirs@ + c.threshold_exempt_files@);
}

/// Whether a path entry has a non-empty package name and distinct, safe
/// relative paths.
pub open spec fn entry_is_safe(entry: PackagePaths) -> bool {
    &&& entry.package@.len() > 0
    &&& !spec_has_duplicates(entry.paths@)
    &&& forall|j: int| 0 <= j < entry.paths@.len() ==> spec_valid_relative_path(#[trigger] entry.paths@[j]@)
}

proof fn lemma_checked_entries_are_safe(entries: Seq<PackagePaths>)
    requires
        check_path_entries(entries) is Ok,
    ensures
        forall|k: int| 0 <= k < entries.len() ==> entry_is_safe(#[trigger] entries[k]),
    decreases entries.len(),
{
    if entries.len() > 0 {
        lemma_checked_entries_are_safe(entries.drop_first());
        assert forall|k: int| 0 <= k < entries.len() implies entry_is_safe(#[trigger] entries[k]) by {
            if k > 0 {
                assert(entries[k] == entries.drop_first()[k - 1]);
            }
        }
    }
}

/// At a percentage equal to the threshold, lines and regions fail and
/// functions and branches pass.
pub proof fn law_threshold_equality(metric: Metric, t: Binary64)
    requires
        !is_nan(t.bits),
    ensures
        below_threshold(metric, t, t) == (metric is Lines || metric is Regions),
{
}

/// A percentage above the threshold never fails; one below it always does.
pub proof fn law_threshold_order(metric: Metric, p: Binary64, t: Binary64)
    ensures
        spec_lt(t.bits, p.bits) ==> !below_threshold(metric, p, t),
        spec_lt(p.bits, t.bits) ==> below_threshold(metric, p, t),
{
}

/// A metric without a configured threshold is not checked.
pub proof fn law_unconfigured_metric_passes(totals: MetricTotals)
    ensures
        failure_of(None, totals) is None,
{
}

/// A configured metric fails as unavailable when counts are missing for a
/// file that reports it, or when no selected file reports counts.
pub proof fn law_missing_counts_fail(t: Binary64, totals: MetricTotals)
    requires
        totals.missing_counts || totals.percent is None,
    ensures
        failure_of(Some(t), totals) == Some(ThresholdFailure::CountsUnavailable(totals.metric)),
{
}

/// Whether a root is measured does not depend on the exemptions: exempt
/// report files still prove that their root was measured.
pub proof fn law_root_check_ignores_exemptions(a: CoveragePlan, b: CoveragePlan, paths: Seq<PathParts>)
    requires
        a.roots@ == b.roots@,
    ensures
        spec_select(a, paths) is Err <==> spec_select(b, paths) is Err,
        spec_select(a, paths) is Err ==> spec_select(a, paths) == spec_select(b, paths),
{
    if spec_select(a, paths) is Err {
        let r = choose|r: int| 0 <= r < a.roots@.len() && !root_matched((#[trigger] a.roots@[r])@, paths);
        lemma_first_unmatched_exists(a, paths, r);
        let q = choose|q: int| is_first_unmatched_root(a, paths, q);
        assert(is_first_unmatched_root(b, paths, q));
        lemma_first_unmatched_unique(a, paths, q);
        lemma_first_unmatched_unique(b, paths, q);
    }
}

/// When selection succeeds, every configured root holds a report file.
pub proof fn law_every_root_is_measured(plan: CoveragePlan, paths: Seq<PathParts>)
    requires
        spec_select(plan, paths) is Ok,
    ensures
        forall|r: int| 0 <= r < plan.roots@.len() ==> root_matched((#[trigger] plan.roots@[r])@, paths),
{
}

/// A selected file lies strictly inside some root and is not exempt, so
/// exemptions never lower the aggregates.
pub proof fn law_selected_files_are_inside_and_not_exempt(plan: CoveragePlan, paths: Seq<PathParts>, n: int, i: int)
    requires
        0 <= n <= paths.len(),
        paths.len() <= usize::MAX,
        0 <= i < selected_upto(paths, plan, n).len(),
    ensures
        is_selected(paths[selected_upto(paths, plan, n)[i] as int]@, plan),
        (exists|r: int|
            0 <= r < plan.roots@.len() && strictly_under(
                paths[selected_upto(paths, plan, n)[i] as int]@,
                (#[trigger] plan.roots@[r])@,
            )),
        !(exists|e: int|
            0 <= e < plan.exemptions@.len() && path_eq(
                paths[selected_upto(paths, plan, n)[i] as int]@,
                (#[trigger] plan.exemptions@[e])@,
            )),
    decreases n,
{
    if n > 0 {
        let prev = selected_upto(paths, plan, n - 1);
        if i < prev.len() {
            law_selected_files_are_inside_and_not_exempt(plan, paths, n - 1, i);
            if is_selected(paths[n - 1]@, plan) {
                assert(selected_upto(paths, plan, n)[i] == prev[i]);
            }
        } else {
            assert(is_selected(paths[n - 1]@, plan));
            assert(selected_upto(paths, plan, n)[i] == (n - 1) as usize);
        }
    }
}

/// An excluded package is never selected.
pub proof fn law_excluded_package_is_not_selected(
    c: Config,
    members: Seq<MemberPackage>,
    root_manifest: Seq<String>,
    name: Seq<char>,
)
    requires
        string_views(c.exclude_packages@).contains(name),
    ensures
        !is_selected_name(c, members, root_manifest, name),
{
}

/// The `package` scope selects nothing, and so fails, when no member's
/// manifest is the project's manifest.
pub proof fn law_package_scope_needs_root_package(c: Config, members: Seq<MemberPackage>, root_manifest: Seq<String>)
    requires
        spec_scope(c) == "package"@,
        forall|k: int| 0 <= k < members.len() ==> !path_eq((#[trigger] members[k]).manifest@, root_manifest),
    ensures
        spec_selection_error(c, members, root_manifest) is Some,
{
    reveal_strlit("package");
    reveal_strlit("workspace");
    reveal_strlit("default-members");
    assert("package"@ != "workspace"@) by {
        assert("package"@.len() != "workspace"@.len());
    }
    assert("package"@ != "default-members"@) by {
        assert("package"@.len() != "default-members"@.len());
    }
    assert forall|k: int| 0 <= k < members.len() implies !member_included(c, #[trigger] members[k], root_manifest) by {
    }
}

/// Without configured source directories, each package's source root is
/// its `src` directory.
pub proof fn law_default_source_dir(c: Config, name: Seq<char>, root: Seq<String>)
    requires
        c.source_dirs@.len() == 0,
    ensures
        dir_requests(c, name, root) == seq![(name, root, "src"@, PathKind::SourceDir)],
{
    assert(lookup_paths(c.source_dirs@, name) is None);
}

} // verus!

verus! {

use crate::coverage::{selection_outcome, spec_selected_coverage, CheckOutcome};
use crate::report::{CoverageRecord, FileCoverage};

/// `check` and `report` refuse the same inputs and select the same files.
pub proof fn law_check_and_report_agree(
    plan: CoveragePlan,
    paths: Seq<PathParts>,
    records: Seq<CoverageRecord>,
    reported: Result<Vec<FileCoverage>, crate::error::CoverageError>,
    checked: Result<CheckOutcome, crate::error::CoverageError>,
)
    requires
        selection_outcome(
            reported,
            plan,
            paths,
            |files: Vec<FileCoverage>, idx: Seq<usize>| files@ == spec_selected_coverage(records, idx),
        ),
        selection_outcome(
            checked,
            plan,
            paths,
            |outcome: CheckOutcome, idx: Seq<usize>| outcome.files@ == spec_selected_coverage(records, idx),
        ),
    ensures
        reported is Ok <==> checked is Ok,
        reported is Ok ==> reported->Ok_0@ == checked->Ok_0.files@,
{
}

} // verus!

verus! {

use crate::binary64::spec_le;
use crate::config::metric_order;
use crate::coverage::{
    is_threshold_report, is_unmatched_root_error, lemma_selected_upto_bounded, picked, spec_failures,
    totals_of,
};
use crate::json::spec_parse_json;
use crate::report::spec_read_files;

/// The metric a failure is about.
pub open spec fn failure_metric(f: ThresholdFailure) -> Metric {
    match f {
        ThresholdFailure::CountsUnavailable(m) => m,
        ThresholdFailure::Below { metric, .. } => metric,
    }
}

/// The metrics of a list of failures, in order.
pub open spec fn failed_metrics(fs: Seq<ThresholdFailure>) -> Seq<Metric> {
    fs.map_values(|f: ThresholdFailure| failure_metric(f))
}

/// Whether threshold `lower` asks no more than `upper`: it is unset, or
/// both are set and `lower` is the same threshold or at most `upper`.
pub open spec fn no_stricter(lower: Option<Binary64>, upper: Option<Binary64>) -> bool {
    match lower {
        None => true,
        Some(b) => upper matches Some(a) && (b == a || spec_le(b.bits, a.bits)),
    }
}

proof fn lemma_failure_of_monotone(lower: Option<Binary64>, upper: Option<Binary64>, totals: MetricTotals)
    requires
        no_stricter(lower, upper),
    ensures
        failure_of(lower, totals) is Some ==> failure_of(upper, totals) is Some,
{
}

/// Lowering or removing thresholds never adds a failure: every metric that
/// fails under the lower thresholds also fails under the higher ones.
pub proof fn law_lower_thresholds_add_no_failure(upper: Thresholds, lower: Thresholds, totals: Seq<MetricTotals>)
    requires
        forall|m: Metric| no_stricter(#[trigger] lower.spec_get(m), upper.spec_get(m)),
    ensures
        forall|m: Metric|
            #[trigger] failed_metrics(spec_failures(lower, totals)).contains(m) ==> failed_metrics(
                spec_failures(upper, totals),
            ).contains(m),
    decreases totals.len(),
{
    if totals.len() > 0 {
        law_lower_thresholds_add_no_failure(upper, lower, totals.drop_last());
        let last = totals.last();
        lemma_failure_of_monotone(lower.spec_get(last.metric), upper.spec_get(last.metric), last);
        let rest_lower = spec_failures(lower, totals.drop_last());
        let rest_upper = spec_failures(upper, totals.drop_last());
        assert forall|m: Metric| #[trigger] failed_metrics(spec_failures(lower, totals)).contains(m) implies failed_metrics(
            spec_failures(upper, totals),
        ).contains(m) by {
            let fl = failed_metrics(spec_failures(lower, totals));
            let i = choose|i: int| 0 <= i < fl.len() && fl[i] == m;
            match failure_of(upper.spec_get(last.metric), last) {
                Some(fu) => {
                    assert(spec_failures(upper, totals) == rest_upper.push(fu));
                    assert(failed_metrics(rest_upper.push(fu)) =~= failed_metrics(rest_upper).push(failure_metric(fu)));
                    if i < failed_metrics(rest_lower).len() {
                        match failure_of(lower.spec_get(last.metric), last) {
                            Some(f) => {
                                assert(failed_metrics(rest_lower.push(f)) =~= failed_metrics(rest_lower).push(failure_metric(f)));
                            },
                            None => {},
                        }
                        assert(failed_metrics(rest_lower)[i] == m);
                        assert(failed_metrics(rest_lower).contains(m));
                        let j = choose|j: int| 0 <= j < failed_metrics(rest_upper).len() && failed_metrics(rest_upper)[j] == m;
                        assert(failed_metrics(spec_failures(upper, totals))[j] == m);
                    } else {
                        let f = failure_of(lower.spec_get(last.metric), last)->0;
                        assert(failed_metrics(rest_lower.push(f)) =~= failed_metrics(rest_lower).push(failure_metric(f)));
                        assert(failure_metric(f) == last.metric);
                        assert(failure_metric(fu) == last.metric);
                        assert(failed_metrics(spec_failures(upper, totals))[failed_metrics(rest_upper).len() as int] == m);
                    }
                },
                None => {
                    assert(failure_of(lower.spec_get(last.metric), last) is None);
                    assert(spec_failures(lower, totals) == rest_lower);
                    assert(spec_failures(upper, totals) == rest_upper);
                    assert(failed_metrics(rest_lower).contains(m));
                },
            }
        }
    }
}

proof fn lemma_selected_upto_prefix(paths: Seq<PathParts>, extra: PathParts, plan: CoveragePlan, n: int)
    requires
        0 <= n <= paths.len(),
    ensures
        selected_upto(paths.push(extra), plan, n) == selected_upto(paths, plan, n),
    decreases n,
{
    if n > 0 {
        lemma_selected_upto_prefix(paths, extra, plan, n - 1);
        assert(paths.push(extra)[n - 1] == paths[n - 1]);
    }
}

/// A report file outside every source root changes nothing: appended to a
/// report, it leaves the selection (its error or its selected files) as it
/// was, and so leaves the selected records, their aggregates and failures.
pub proof fn law_outside_file_changes_nothing(
    plan: CoveragePlan,
    paths: Seq<PathParts>,
    extra: PathParts,
    records: Seq<CoverageRecord>,
    record: CoverageRecord,
)
    requires
        forall|r: int| 0 <= r < plan.roots@.len() ==> !strictly_under(extra@, (#[trigger] plan.roots@[r])@),
        records.len() == paths.len(),
        paths.len() < usize::MAX,
    ensures
        spec_select(plan, paths.push(extra)) == spec_select(plan, paths),
        spec_select(plan, paths) matches Ok(idx) ==> picked(records.push(record), idx) == picked(records, idx)
            && spec_selected_coverage(records.push(record), idx) == spec_selected_coverage(records, idx),
{
    let longer = paths.push(extra);
    assert forall|r: int| 0 <= r < plan.roots@.len() implies root_matched((#[trigger] plan.roots@[r])@, longer)
        == root_matched(plan.roots@[r]@, paths) by {
        if root_matched(plan.roots@[r]@, longer) {
            let k = choose|k: int| 0 <= k < longer.len() && strictly_under((#[trigger] longer[k])@, plan.roots@[r]@);
            assert(k < paths.len());
            assert(longer[k] == paths[k]);
        }
        if root_matched(plan.roots@[r]@, paths) {
            let k = choose|k: int| 0 <= k < paths.len() && strictly_under((#[trigger] paths[k])@, plan.roots@[r]@);
            assert(longer[k] == paths[k]);
        }
    }
    if spec_select(plan, paths) is Err {
        let r = choose|r: int| 0 <= r < plan.roots@.len() && !root_matched((#[trigger] plan.roots@[r])@, paths);
        lemma_first_unmatched_exists(plan, paths, r);
        let q = choose|q: int| is_first_unmatched_root(plan, paths, q);
        assert(is_first_unmatched_root(plan, longer, q));
        lemma_first_unmatched_unique(plan, paths, q);
        lemma_first_unmatched_unique(plan, longer, q);
    } else {
        assert(!is_selected(longer[paths.len() as int]@, plan));
        lemma_selected_upto_prefix(paths, extra, plan, paths.len() as int);
        let idx = selected_upto(paths, plan, paths.len() as int);
        lemma_selected_upto_bounded(paths, plan, paths.len() as int);
        assert(picked(records.push(record), idx) =~= picked(records, idx));
        assert(spec_selected_coverage(records.push(record), idx) =~= spec_selected_coverage(records, idx));
    }
}

/// The verdict of a check on a report text: where the text reads as
/// `records`, the check fails on the first unmatched source root, fails
/// when no file is selected, and otherwise passes exactly when every
/// metric's aggregate over the selected records meets its threshold.
pub proof fn law_check_verdict<F: Fn(u128, u128) -> Binary64>(
    thresholds: Thresholds,
    plan: CoveragePlan,
    text: Seq<char>,
    records: Seq<CoverageRecord>,
    paths: Seq<PathParts>,
    checked: Result<CheckOutcome, crate::error::CoverageError>,
    percent_of: F,
)
    requires
        spec_parse_json(text) matches Ok(doc) && spec_read_files(doc) == Ok::<
            Seq<CoverageRecord>,
            crate::error::CoverageError,
        >(records),
        records.len() == paths.len(),
        selection_outcome(
            checked,
            plan,
            paths,
            |outcome: CheckOutcome, idx: Seq<usize>|
                outcome.files@ == spec_selected_coverage(records, idx) && is_threshold_report(
                    outcome.thresholds,
                    thresholds,
                    picked(records, idx),
                    percent_of,
                ),
        ),
    ensures
        spec_select(plan, paths) matches Err(r) ==> checked matches Err(e) && is_unmatched_root_error(e, plan, r),
        spec_select(plan, paths) matches Ok(idx) ==> (idx.len() == 0 ==> checked matches Err(
            crate::error::CoverageError::NoFilesSelected,
        )),
        spec_select(plan, paths) matches Ok(idx) ==> (idx.len() > 0 ==> (checked matches Ok(outcome) && (forall|k: int|
            0 <= k < 4 ==> totals_of(
                #[trigger] outcome.thresholds.totals@[k],
                picked(records, idx),
                metric_order()[k],
                percent_of,
            )) && (outcome.thresholds.failures@.len() == 0 <==> forall|k: int|
            0 <= k < 4 ==> failure_of(
                thresholds.spec_get(metric_order()[k]),
                #[trigger] outcome.thresholds.totals@[k],
            ) is None))),
{
    if spec_select(plan, paths) is Ok && spec_select(plan, paths)->Ok_0.len() > 0 {
        let idx = spec_select(plan, paths)->Ok_0;
        let outcome = checked->Ok_0;
        let t = outcome.thresholds.totals@;
        assert(t.len() == 4);
        assert(metric_order()[0] == Metric::Lines);
        assert(metric_order()[1] == Metric::Functions);
        assert(metric_order()[2] == Metric::Regions);
        assert(metric_order()[3] == Metric::Branches);
        assert(t.drop_last().drop_last().drop_last().drop_last() =~= Seq::<MetricTotals>::empty());
        assert(t.drop_last().drop_last().drop_last() =~= seq![t[0]]);
        assert(t.drop_last().drop_last() =~= seq![t[0], t[1]]);
        assert(t.drop_last() =~= seq![t[0], t[1], t[2]]);
        assert(spec_failures(thresholds, Seq::<MetricTotals>::empty()).len() == 0);
        let f0 = spec_failures(thresholds, seq![t[0]]);
        let f1 = spec_failures(thresholds, seq![t[0], t[1]]);
        let f2 = spec_failures(thresholds, seq![t[0], t[1], t[2]]);
        assert(seq![t[0]].drop_last() =~= Seq::<MetricTotals>::empty());
        assert(seq![t[0], t[1]].drop_last() =~= seq![t[0]]);
        assert(seq![t[0], t[1], t[2]].drop_last() =~= seq![t[0], t[1]]);
        assert(f0.len() == 0 <==> failure_of(thresholds.spec_get(t[0].metric), t[0]) is None);
        assert(f1.len() == 0 <==> (f0.len() == 0 && failure_of(thresholds.spec_get(t[1].metric), t[1]) is None));
        assert(f2.len() == 0 <==> (f1.len() == 0 && failure_of(thresholds.spec_get(t[2].metric), t[2]) is None));
        assert(spec_failures(thresholds, t).len() == 0 <==> (f2.len() == 0 && failure_of(
            thresholds.spec_get(t[3].metric),
            t[3],
        ) is None));
        assert(totals_of(t[0], picked(records, idx), metric_order()[0], percent_of));
        assert(totals_of(t[1], picked(records, idx), metric_order()[1], percent_of));
        assert(totals_of(t[2], picked(records, idx), metric_order()[2], percent_of));
        assert(totals_of(t[3], picked(records, idx), metric_order()[3], percent_of));
    }
}

} // verus!

verus! {

use crate::binary64::{HUNDRED_BITS, ZERO_BITS};
use crate::report::files_of;
use crate::report::MetricCounts;
use crate::json::JsonValue;
use crate::selection::{exclude_args, member_names, root_names, roots_of_members, selected_of, spec_cargo_args, PackageRoot};

/// A configured metric whose aggregate lies below its threshold (for lines
/// and regions: at or below it), with counts for every file that reports
/// it, fails with that percentage and threshold; this holds for each of
/// the four metrics alike, and the failure is among the check's failures.
pub proof fn law_below_threshold_fails(thresholds: Thresholds, totals: Seq<MetricTotals>, k: int, t: Binary64, p: Binary64)
    requires
        0 <= k < totals.len(),
        thresholds.spec_get(totals[k].metric) == Some(t),
        !totals[k].missing_counts,
        totals[k].percent == Some(p),
        spec_lt(p.bits, t.bits) || ((totals[k].metric is Lines || totals[k].metric is Regions) && spec_le(p.bits, t.bits)),
    ensures
        failure_of(Some(t), totals[k]) == Some(ThresholdFailure::Below { metric: totals[k].metric, threshold: t, percent: p }),
        spec_failures(thresholds, totals).contains(ThresholdFailure::Below { metric: totals[k].metric, threshold: t, percent: p }),
    decreases totals.len(),
{
    let f = ThresholdFailure::Below { metric: totals[k].metric, threshold: t, percent: p };
    if k < totals.len() - 1 {
        assert(totals.drop_last()[k] == totals[k]);
        law_below_threshold_fails(thresholds, totals.drop_last(), k, t, p);
        let rest = spec_failures(thresholds, totals.drop_last());
        let i = choose|i: int| 0 <= i < rest.len() && rest[i] == f;
        match failure_of(thresholds.spec_get(totals.last().metric), totals.last()) {
            Some(g) => {
                assert(spec_failures(thresholds, totals)[i] == f);
            },
            None => {},
        }
    } else {
        assert(spec_failures(thresholds, totals).last() == f);
    }
}

/// A configured metric whose aggregate lies above its threshold (for
/// functions and branches: at or above it), with counts for every file
/// that reports it, does not fail.
pub proof fn law_met_threshold_passes(totals: MetricTotals, t: Binary64, p: Binary64)
    requires
        !totals.missing_counts,
        totals.percent == Some(p),
        spec_lt(t.bits, p.bits) || ((totals.metric is Functions || totals.metric is Branches) && spec_le(t.bits, p.bits)),
    ensures
        failure_of(Some(t), totals) is None,
{
}

proof fn lemma_selected_upto_complete(paths: Seq<PathParts>, plan: CoveragePlan, n: int, k: int)
    requires
        0 <= k < n <= paths.len(),
        paths.len() <= usize::MAX,
        is_selected(paths[k]@, plan),
    ensures
        selected_upto(paths, plan, n).contains(k as usize),
    decreases n,
{
    if k < n - 1 {
        lemma_selected_upto_complete(paths, plan, n - 1, k);
        let prev = selected_upto(paths, plan, n - 1);
        let i = choose|i: int| 0 <= i < prev.len() && prev[i] == k as usize;
        assert(selected_upto(paths, plan, n)[i] == k as usize);
    } else {
        assert(selected_upto(paths, plan, n).last() == k as usize);
    }
}

/// Every report file that lies strictly inside some source root, at any
/// depth, and is no exemption is selected when selection succeeds.
pub proof fn law_inside_files_are_selected(plan: CoveragePlan, paths: Seq<PathParts>, k: int, r: int)
    requires
        0 <= k < paths.len(),
        paths.len() <= usize::MAX,
        0 <= r < plan.roots@.len(),
        strictly_under(paths[k]@, plan.roots@[r]@),
        forall|e: int| 0 <= e < plan.exemptions@.len() ==> !path_eq(paths[k]@, (#[trigger] plan.exemptions@[e])@),
        spec_select(plan, paths) is Ok,
    ensures
        spec_select(plan, paths)->Ok_0.contains(k as usize),
{
    assert(is_selected(paths[k]@, plan));
    lemma_selected_upto_complete(paths, plan, paths.len() as int, k);
}

proof fn lemma_safe_entries_pass(entries: Seq<PackagePaths>)
    requires
        forall|k: int| 0 <= k < entries.len() ==> entry_is_safe(#[trigger] entries[k]),
    ensures
        check_path_entries(entries) is Ok,
    decreases entries.len(),
{
    if entries.len() > 0 {
        assert(entry_is_safe(entries[0]));
        assert forall|k: int| 0 <= k < entries.drop_first().len() implies entry_is_safe(#[trigger] entries.drop_first()[k]) by {
            assert(entries.drop_first()[k] == entries[k + 1]);
        }
        lemma_safe_entries_pass(entries.drop_first());
    }
}

/// Whether a threshold is unset or lies in `0.0..=100.0`, both ends
/// included.
pub open spec fn within_zero_to_hundred(t: Option<Binary64>) -> bool {
    match t {
        Some(p) => spec_le(ZERO_BITS, p.bits) && spec_le(p.bits, HUNDRED_BITS),
        None => true,
    }
}

/// A configuration is accepted when its scope is known, its excluded
/// package names are non-empty and distinct, each `source_dirs` entry lists
/// a path, each path entry is safe, the required thresholds are set, and
/// every threshold lies in `0.0..=100.0` (`100.0` and `0.0` included).
pub proof fn law_well_formed_config_is_accepted(c: Config)
    requires
        c.scope matches Some(s) ==> (s@ == "default-members"@ || s@ == "workspace"@ || s@ == "package"@),
        forall|k: int| 0 <= k < c.exclude_packages@.len() ==> (#[trigger] c.exclude_packages@[k])@.len() > 0,
        !spec_has_duplicates(c.exclude_packages@),
        forall|k: int| 0 <= k < c.source_dirs@.len() ==> (#[trigger] c.source_dirs@[k]).paths@.len() > 0,
        forall|k: int|
            0 <= k < (c.source_dirs@ + c.threshold_exempt_files@).len() ==> entry_is_safe(
                #[trigger] (c.source_dirs@ + c.threshold_exempt_files@)[k],
            ),
        c.thresholds.lines is Some,
        c.thresholds.functions is Some,
        c.thresholds.regions is Some,
        within_zero_to_hundred(c.thresholds.lines),
        within_zero_to_hundred(c.thresholds.functions),
        within_zero_to_hundred(c.thresholds.regions),
        within_zero_to_hundred(c.thresholds.branches),
    ensures
        spec_validate_config(c) is Ok,
{
    lemma_safe_entries_pass(c.source_dirs@ + c.threshold_exempt_files@);
}

/// An accepted configuration has every threshold in `0.0..=100.0`.
pub proof fn law_accepted_thresholds_are_percentages(c: Config)
    requires
        spec_validate_config(c) is Ok,
    ensures
        within_zero_to_hundred(c.thresholds.lines),
        within_zero_to_hundred(c.thresholds.functions),
        within_zero_to_hundred(c.thresholds.regions),
        within_zero_to_hundred(c.thresholds.branches),
{
}

proof fn lemma_exclude_args_shape(names: Seq<Seq<char>>, sel: Seq<Seq<char>>)
    ensures
        exclude_args(names, sel).len() % 2 == 0,
        forall|i: int|
            0 <= i < exclude_args(names, sel).len() && i % 2 == 0 ==> #[trigger] exclude_args(names, sel)[i] == "--exclude"@
                && names.contains(exclude_args(names, sel)[i + 1]) && !sel.contains(exclude_args(names, sel)[i + 1]),
        forall|x: Seq<char>|
            names.contains(x) && !sel.contains(x) ==> exists|i: int|
                0 <= i < exclude_args(names, sel).len() && i % 2 == 0 && #[trigger] exclude_args(names, sel)[i + 1] == x,
    decreases names.len(),
{
    if names.len() > 0 {
        let init = names.drop_last();
        lemma_exclude_args_shape(init, sel);
        let prev = exclude_args(init, sel);
        let cur = exclude_args(names, sel);
        assert forall|x: Seq<char>| init.contains(x) implies names.contains(x) by {
            let j = choose|j: int| 0 <= j < init.len() && init[j] == x;
            assert(names[j] == x);
        }
        if sel.contains(names.last()) {
            assert(cur == prev);
            assert forall|x: Seq<char>| names.contains(x) && !sel.contains(x) implies exists|i: int|
                0 <= i < cur.len() && i % 2 == 0 && #[trigger] cur[i + 1] == x by {
                let j = choose|j: int| 0 <= j < names.len() && names[j] == x;
                assert(j < init.len());
                assert(init[j] == x);
                assert(init.contains(x));
            }
        } else {
            assert(cur == prev + seq!["--exclude"@, names.last()]);
            assert forall|i: int| 0 <= i < cur.len() && i % 2 == 0 implies #[trigger] cur[i] == "--exclude"@
                && names.contains(cur[i + 1]) && !sel.contains(cur[i + 1]) by {
                if i < prev.len() {
                    assert(prev[i] == "--exclude"@);
                    assert(cur[i + 1] == prev[i + 1]);
                } else {
                    assert(i == prev.len());
                    assert(names[names.len() - 1] == names.last());
                }
            }
            assert forall|x: Seq<char>| names.contains(x) && !sel.contains(x) implies exists|i: int|
                0 <= i < cur.len() && i % 2 == 0 && #[trigger] cur[i + 1] == x by {
                if x == names.last() {
                    assert(cur[prev.len() as int + 1] == x);
                } else {
                    let j = choose|j: int| 0 <= j < names.len() && names[j] == x;
                    assert(j < init.len());
                    assert(init[j] == x);
                    assert(init.contains(x));
                    let i = choose|i: int| 0 <= i < prev.len() && i % 2 == 0 && #[trigger] prev[i + 1] == x;
                    assert(cur[i + 1] == prev[i + 1]);
                }
            }
        }
    }
}

/// Outside the `package` scope, the Cargo flags are `--workspace` followed
/// by `--exclude NAME` pairs: each pair names a workspace member that is not
/// selected, and every member that is not selected is excluded.
pub proof fn law_workspace_flags_exclude_unselected(
    c: Config,
    members: Seq<MemberPackage>,
    root_manifest: Seq<String>,
    selected: Seq<String>,
    roots: Seq<PackageRoot>,
    args: Seq<Seq<char>>,
)
    requires
        spec_scope(c) != "package"@,
        roots_of_members(roots, members),
        selected_of(selected, c, members, root_manifest),
        args == spec_cargo_args(c, string_views(selected), root_names(roots)),
    ensures
        args.len() % 2 == 1,
        args[0] == "--workspace"@,
        forall|i: int|
            1 <= i < args.len() && i % 2 == 1 ==> #[trigger] args[i] == "--exclude"@ && member_names(members).contains(args[i + 1])
                && !is_selected_name(c, members, root_manifest, args[i + 1]),
        forall|x: Seq<char>|
            member_names(members).contains(x) && !is_selected_name(c, members, root_manifest, x) ==> exists|i: int|
                1 <= i < args.len() && i % 2 == 1 && #[trigger] args[i + 1] == x,
{
    let names = root_names(roots);
    let sel = string_views(selected);
    lemma_exclude_args_shape(names, sel);
    let ea = exclude_args(names, sel);
    assert(args == seq!["--workspace"@] + ea);
    assert forall|i: int| 1 <= i < args.len() && i % 2 == 1 implies #[trigger] args[i] == "--exclude"@ && member_names(
        members,
    ).contains(args[i + 1]) && !is_selected_name(c, members, root_manifest, args[i + 1]) by {
        assert(args[i] == ea[i - 1]);
        assert(ea[i - 1] == "--exclude"@);
        assert(args[i + 1] == ea[i]);
    }
    assert forall|x: Seq<char>| member_names(members).contains(x) && !is_selected_name(c, members, root_manifest, x) implies exists|i: int|
        1 <= i < args.len() && i % 2 == 1 && #[trigger] args[i + 1] == x by {
        assert(names.contains(x));
        assert(!sel.contains(x));
        let i = choose|i: int| 0 <= i < ea.len() && i % 2 == 0 && #[trigger] ea[i + 1] == x;
        assert(args[i + 2] == ea[i + 1]);
        assert((i + 1) % 2 == 1);
        assert(1 <= i + 1 < args.len() && (i + 1) % 2 == 1 && args[(i + 1) + 1] == x);
    }
}

/// The percentage that a report's JSON gives for metric `name` of a file:
/// the number `percent` of the object `name` of its `summary`.
pub open spec fn summary_percent(file: JsonValue, name: Seq<char>) -> Option<Binary64> {
    file.spec_index("summary"@).spec_index(name).spec_index("percent"@).spec_as_f64()
}

/// The counts that a report's JSON gives for metric `name` of a file: the
/// non-negative integers `covered` and `count` of the object `name` of its
/// `summary`, when both are such integers.
pub open spec fn summary_counts(file: JsonValue, name: Seq<char>) -> Option<MetricCounts> {
    let metric = file.spec_index("summary"@).spec_index(name);
    match (metric.spec_index("covered"@).spec_as_u64(), metric.spec_index("count"@).spec_as_u64()) {
        (Some(covered), Some(count)) => Some(MetricCounts { covered, count }),
        _ => None,
    }
}

/// Each record read from a report carries, for the file it stands for, the
/// `filename` string, and for each metric the `percent` and the
/// `covered`/`count` integers of the same-named object of its `summary`.
pub proof fn law_records_follow_the_report(report: JsonValue, records: Seq<CoverageRecord>)
    requires
        spec_read_files(report) == Ok::<Seq<CoverageRecord>, crate::error::CoverageError>(records),
    ensures
        ({
            let files = files_of(report.spec_index("data"@).spec_as_array()->0);
            &&& records.len() == files.len()
            &&& forall|k: int|
                0 <= k < records.len() ==> {
                    let file = files[k];
                    let r = #[trigger] records[k];
                    &&& r.coverage.filename == file.spec_index("filename"@).spec_as_str()->0
                    &&& r.coverage.lines_percent == summary_percent(file, "lines"@)
                    &&& r.coverage.functions_percent == summary_percent(file, "functions"@)
                    &&& r.coverage.regions_percent == summary_percent(file, "regions"@)
                    &&& r.coverage.branches_percent == summary_percent(file, "branches"@)
                    &&& r.lines == summary_counts(file, "lines"@)
                    &&& r.functions == summary_counts(file, "functions"@)
                    &&& r.regions == summary_counts(file, "regions"@)
                    &&& r.branches == summary_counts(file, "branches"@)
                }
        }),
{
    let files = files_of(report.spec_index("data"@).spec_as_array()->0);
    assert forall|k: int| 0 <= k < records.len() implies {
        let file = files[k];
        let r = #[trigger] records[k];
        &&& r.coverage.filename == file.spec_index("filename"@).spec_as_str()->0
        &&& r.coverage.lines_percent == summary_percent(file, "lines"@)
        &&& r.coverage.functions_percent == summary_percent(file, "functions"@)
        &&& r.coverage.regions_percent == summary_percent(file, "regions"@)
        &&& r.coverage.branches_percent == summary_percent(file, "branches"@)
        &&& r.lines == summary_counts(file, "lines"@)
        &&& r.functions == summary_counts(file, "functions"@)
        &&& r.regions == summary_counts(file, "regions"@)
        &&& r.branches == summary_counts(file, "branches"@)
    } by {
        assert(records[k] == crate::report::record_of(files[k]));
    }
}

} // verus!
