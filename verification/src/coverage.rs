//! Selecting report files and evaluating coverage thresholds.

use vstd::prelude::*;

use crate::binary64::{spec_le, spec_lt, Binary64};
use crate::config::{metric_order, Metric, Thresholds};
use crate::error::CoverageError;
use crate::plan::{
    copy_path, is_strictly_under, path_eq, same_path, strictly_under, CoveragePlan, PathParts,
};
use crate::report::{CoverageRecord, FileCoverage};

verus! {

/// Whether some report path lies strictly inside `root`.
pub open spec fn root_matched(root: Seq<String>, paths: Seq<PathParts>) -> bool {
    exists|k: int| 0 <= k < paths.len() && strictly_under((#[trigger] paths[k])@, root)
}

/// Whether a report path is selected: inside some root and not exempt.
pub open spec fn is_selected(path: Seq<String>, plan: CoveragePlan) -> bool {
    &&& exists|r: int| 0 <= r < plan.roots@.len() && strictly_under(path, (#[trigger] plan.roots@[r])@)
    &&& !exists|e: int| 0 <= e < plan.exemptions@.len() && path_eq(path, (#[trigger] plan.exemptions@[e])@)
}

/// The indices, in report order, of the first `n` paths that are selected.
pub open spec fn selected_upto(paths: Seq<PathParts>, plan: CoveragePlan, n: int) -> Seq<usize>
    decreases n,
{
    if n <= 0 {
        Seq::empty()
    } else if is_selected(paths[n - 1]@, plan) {
        selected_upto(paths, plan, n - 1).push((n - 1) as usize)
    } else {
        selected_upto(paths, plan, n - 1)
    }
}

/// Whether `r` is the first root that no report path lies inside.
pub open spec fn is_first_unmatched_root(plan: CoveragePlan, paths: Seq<PathParts>, r: int) -> bool {
    &&& 0 <= r < plan.roots@.len()
    &&& !root_matched(plan.roots@[r]@, paths)
    &&& forall|q: int| 0 <= q < r ==> root_matched((#[trigger] plan.roots@[q])@, paths)
}

/// The outcome of selection: the first unmatched root (by index) is an
/// error; otherwise the indices of the selected files. Roots are matched
/// before exemptions are applied, so exempt files still count as measuring
/// their root.
pub open spec fn spec_select(plan: CoveragePlan, paths: Seq<PathParts>) -> Result<Seq<usize>, int> {
    if exists|r: int| 0 <= r < plan.roots@.len() && !root_matched((#[trigger] plan.roots@[r])@, paths) {
        Err(choose|r: int| is_first_unmatched_root(plan, paths, r))
    } else {
        Ok(selected_upto(paths, plan, paths.len() as int))
    }
}

/// Where some root is unmatched, there is a first one.
pub proof fn lemma_first_unmatched_exists(plan: CoveragePlan, paths: Seq<PathParts>, r: int)
    requires
        0 <= r < plan.roots@.len(),
        !root_matched(plan.roots@[r]@, paths),
    ensures
        exists|q: int| is_first_unmatched_root(plan, paths, q),
    decreases r,
{
    if exists|q: int| 0 <= q < r && !root_matched((#[trigger] plan.roots@[q])@, paths) {
        let q = choose|q: int| 0 <= q < r && !root_matched((#[trigger] plan.roots@[q])@, paths);
        lemma_first_unmatched_exists(plan, paths, q);
    } else {
        assert(is_first_unmatched_root(plan, paths, r));
    }
}

/// Whether `res` is the error for the unmatched root `r`.
pub open spec fn is_unmatched_root_error(res: CoverageError, plan: CoveragePlan, r: int) -> bool {
    res matches CoverageError::RootUnmatched(p) && p@ == plan.roots@[r]@
}

/// The first unmatched root is unique.
pub proof fn lemma_first_unmatched_unique(plan: CoveragePlan, paths: Seq<PathParts>, r: int)
    requires
        is_first_unmatched_root(plan, paths, r),
    ensures
        (choose|q: int| is_first_unmatched_root(plan, paths, q)) == r,
{
    let q = choose|q: int| is_first_unmatched_root(plan, paths, q);
    assert(is_first_unmatched_root(plan, paths, q));
    if q < r {
        assert(root_matched(plan.roots@[q]@, paths));
    } else if r < q {
        assert(root_matched(plan.roots@[r]@, paths));
    }
}

/// Resolves which report files are selected, and checks that every
/// configured root was measured.
///
/// `paths[k]` is the resolved path of `records[k]`. Returns the indices of
/// the selected files in report order.
#[verifier::loop_isolation(false)]
pub fn select_files(plan: &CoveragePlan, paths: &Vec<PathParts>) -> (res: Result<Vec<usize>, CoverageError>)
    ensures
        match spec_select(*plan, paths@) {
            Ok(idx) => res matches Ok(v) && v@ == idx,
            Err(r) => res matches Err(e) && is_unmatched_root_error(e, *plan, r),
        },
{
    let nr = plan.roots.len();
    let np = paths.len();
    let mut r: usize = 0;
    while r < nr
        invariant
            0 <= r <= nr,
            forall|q: int| 0 <= q < r ==> root_matched((#[trigger] plan.roots@[q])@, paths@),
        decreases nr - r,
    {
        let mut k: usize = 0;
        let mut found = false;
        while k < np && !found
            invariant
                0 <= k <= np,
                found ==> root_matched(plan.roots@[r as int]@, paths@),
                !found ==> forall|j: int| 0 <= j < k ==> !strictly_under((#[trigger] paths@[j])@, plan.roots@[r as int]@),
            decreases np - k,
        {
            if is_strictly_under(&paths[k], &plan.roots[r]) {
                found = true;
            }
            k = k + 1;
        }
        if !found {
            proof {
                assert(is_first_unmatched_root(*plan, paths@, r as int));
                lemma_first_unmatched_unique(*plan, paths@, r as int);
            }
            return Err(CoverageError::RootUnmatched(copy_path(&plan.roots[r])));
        }
        r = r + 1;
    }
    let mut selected: Vec<usize> = Vec::new();
    let mut k: usize = 0;
    while k < np
        invariant
            0 <= k <= np,
            selected@ == selected_upto(paths@, *plan, k as int),
        decreases np - k,
    {
        let mut inside = false;
        let mut r: usize = 0;
        while r < nr && !inside
            invariant
                0 <= r <= nr,
                inside ==> exists|q: int| 0 <= q < nr && strictly_under(paths@[k as int]@, (#[trigger] plan.roots@[q])@),
                !inside ==> forall|q: int| 0 <= q < r ==> !strictly_under(paths@[k as int]@, (#[trigger] plan.roots@[q])@),
            decreases nr - r,
        {
            if is_strictly_under(&paths[k], &plan.roots[r]) {
                inside = true;
            }
            r = r + 1;
        }
        let ne = plan.exemptions.len();
        let mut exempt = false;
        let mut e: usize = 0;
        while e < ne && !exempt
            invariant
                0 <= e <= ne,
                ne == plan.exemptions@.len(),
                exempt ==> exists|q: int| 0 <= q < ne && path_eq(paths@[k as int]@, (#[trigger] plan.exemptions@[q])@),
                !exempt ==> forall|q: int| 0 <= q < e ==> !path_eq(paths@[k as int]@, (#[trigger] plan.exemptions@[q])@),
            decreases ne - e,
        {
            if same_path(&paths[k], &plan.exemptions[e]) {
                exempt = true;
            }
            e = e + 1;
        }
        if inside && !exempt {
            selected.push(k);
        }
        k = k + 1;
    }
    Ok(selected)
}

} // verus!

verus! {

/// The largest value of a `u64`, as a `u128`.
pub const U64_MAX_WIDE: u128 = 0xFFFF_FFFF_FFFF_FFFF;

/// The aggregate of one metric over the selected files.
#[derive(Clone, Copy, Debug, PartialEq, Eq, Structural)]
pub struct MetricTotals {
    /// The metric.
    pub metric: Metric,
    /// Some selected file reports a percentage for the metric but no counts.
    pub missing_counts: bool,
    /// Covered items summed over the files that report counts.
    pub covered: u128,
    /// Total items summed over the files that report counts.
    pub count: u128,
    /// The aggregate percentage, present exactly when `count > 0`.
    pub percent: Option<Binary64>,
}

/// A threshold that the selected files do not meet.
#[derive(Clone, Copy, Debug, PartialEq, Eq, Structural)]
pub enum ThresholdFailure {
    /// The metric has a threshold, but its counts are missing for a file
    /// that reports it, or no file reports counts at all.
    CountsUnavailable(Metric),
    /// The aggregate percentage does not exceed the threshold (lines,
    /// regions) or falls below it (functions, branches).
    Below { metric: Metric, threshold: Binary64, percent: Binary64 },
}

/// The selected records, in selection order.
pub open spec fn picked(records: Seq<CoverageRecord>, idx: Seq<usize>) -> Seq<CoverageRecord> {
    idx.map_values(|i: usize| records[i as int])
}

/// Whether some record reports a percentage for `metric` but no counts.
pub open spec fn spec_missing_counts(records: Seq<CoverageRecord>, metric: Metric) -> bool {
    exists|k: int|
        0 <= k < records.len() && (#[trigger] records[k]).coverage.spec_percent(metric) is Some
            && records[k].spec_counts(metric) is None
}

/// Covered items of `metric` summed over the records that report counts.
pub open spec fn spec_covered_sum(records: Seq<CoverageRecord>, metric: Metric) -> int
    decreases records.len(),
{
    if records.len() == 0 {
        0
    } else {
        spec_covered_sum(records.drop_last(), metric) + match records.last().spec_counts(metric) {
            Some(c) => c.covered as int,
            None => 0,
        }
    }
}

/// Total items of `metric` summed over the records that report counts.
pub open spec fn spec_count_sum(records: Seq<CoverageRecord>, metric: Metric) -> int
    decreases records.len(),
{
    if records.len() == 0 {
        0
    } else {
        spec_count_sum(records.drop_last(), metric) + match records.last().spec_counts(metric) {
            Some(c) => c.count as int,
            None => 0,
        }
    }
}

/// Whether `totals` aggregates `metric` over `records`, with a percentage
/// that `percent_of` may give for the sums.
pub open spec fn totals_of<F: Fn(u128, u128) -> Binary64>(
    totals: MetricTotals,
    records: Seq<CoverageRecord>,
    metric: Metric,
    percent_of: F,
) -> bool {
    &&& totals.metric == metric
    &&& totals.missing_counts == spec_missing_counts(records, metric)
    &&& totals.covered == spec_covered_sum(records, metric)
    &&& totals.count == spec_count_sum(records, metric)
    &&& (totals.percent is Some <==> totals.count > 0)
    &&& (totals.percent matches Some(p) ==> percent_of.ensures((totals.covered, totals.count), p))
}

/// Whether an aggregate percentage fails a threshold: lines and regions
/// need strictly greater coverage, functions and branches allow equality.
pub open spec fn below_threshold(metric: Metric, percent: Binary64, threshold: Binary64) -> bool {
    if metric.spec_requires_strictly_greater() {
        spec_le(percent.bits, threshold.bits)
    } else {
        spec_lt(percent.bits, threshold.bits)
    }
}

/// The failure, if any, for one metric's totals against its threshold.
pub open spec fn failure_of(threshold: Option<Binary64>, totals: MetricTotals) -> Option<ThresholdFailure> {
    match threshold {
        None => None,
        Some(t) => if totals.missing_counts {
            Some(ThresholdFailure::CountsUnavailable(totals.metric))
        } else {
            match totals.percent {
                Some(p) => if below_threshold(totals.metric, p, t) {
                    Some(ThresholdFailure::Below { metric: totals.metric, threshold: t, percent: p })
                } else {
                    None
                },
                None => Some(ThresholdFailure::CountsUnavailable(totals.metric)),
            }
        },
    }
}

/// The failures of a sequence of metric totals, in order.
pub open spec fn spec_failures(thresholds: Thresholds, totals: Seq<MetricTotals>) -> Seq<ThresholdFailure>
    decreases totals.len(),
{
    if totals.len() == 0 {
        Seq::empty()
    } else {
        let rest = spec_failures(thresholds, totals.drop_last());
        match failure_of(thresholds.spec_get(totals.last().metric), totals.last()) {
            Some(f) => rest.push(f),
            None => rest,
        }
    }
}

/// The metric totals and threshold failures of the selected files.
#[derive(Debug)]
pub struct ThresholdReport {
    /// One aggregate per metric, in the order lines, functions, regions,
    /// branches.
    pub totals: Vec<MetricTotals>,
    /// The thresholds not met, in the same order.
    pub failures: Vec<ThresholdFailure>,
}

proof fn lemma_sum_bound(k: int, acc: int, x: int)
    by (nonlinear_arith)
    requires
        0 <= k < 0x1_0000_0000_0000_0000,
        0 <= acc <= k * 0xFFFF_FFFF_FFFF_FFFF,
        0 <= x <= 0xFFFF_FFFF_FFFF_FFFF,
    ensures
        acc + x <= (k + 1) * 0xFFFF_FFFF_FFFF_FFFF,
        (k + 1) * 0xFFFF_FFFF_FFFF_FFFF <= 0xFFFF_FFFF_FFFF_FFFF_FFFF_FFFF_FFFF_FFFF,
{
}

/// Aggregates one metric over the selected records.
#[verifier::loop_isolation(false)]
fn metric_totals<F: Fn(u128, u128) -> Binary64>(
    records: &Vec<CoverageRecord>,
    selected: &Vec<usize>,
    metric: Metric,
    percent_of: &F,
) -> (res: MetricTotals)
    requires
        forall|i: int| 0 <= i < selected@.len() ==> (#[trigger] selected@[i]) < records@.len(),
        forall|c: u128, n: u128| n > 0 ==> #[trigger] percent_of.requires((c, n)),
    ensures
        totals_of(res, picked(records@, selected@), metric, *percent_of),
{
    let ghost all = picked(records@, selected@);
    let n = selected.len();
    let mut missing = false;
    let mut covered: u128 = 0;
    let mut count: u128 = 0;
    let mut i: usize = 0;
    while i < n
        invariant
            0 <= i <= n,
            n == selected@.len(),
            missing == spec_missing_counts(all.take(i as int), metric),
            covered == spec_covered_sum(all.take(i as int), metric),
            count == spec_count_sum(all.take(i as int), metric),
            covered <= i * 0xFFFF_FFFF_FFFF_FFFF,
            count <= i * 0xFFFF_FFFF_FFFF_FFFF,
        decreases n - i,
    {
        let record = &records[selected[i]];
        proof {
            assert(all.take(i + 1).drop_last() =~= all.take(i as int));
            assert(all.take(i + 1).last() == *record);
        }
        let counts = record.counts(metric);
        if record.coverage.percent(metric).is_some() && counts.is_none() {
            missing = true;
            proof {
                assert(all.take(i + 1)[i as int] == *record);
            }
        } else {
            proof {
                if spec_missing_counts(all.take(i + 1), metric) {
                    let k = choose|k: int|
                        0 <= k < i + 1 && (#[trigger] all.take(i + 1)[k]).coverage.spec_percent(metric) is Some
                            && all.take(i + 1)[k].spec_counts(metric) is None;
                    assert(k < i);
                    assert(all.take(i as int)[k] == all.take(i + 1)[k]);
                }
                if missing {
                    let k = choose|k: int|
                        0 <= k < i && (#[trigger] all.take(i as int)[k]).coverage.spec_percent(metric) is Some
                            && all.take(i as int)[k].spec_counts(metric) is None;
                    assert(all.take(i as int)[k] == all.take(i + 1)[k]);
                }
            }
        }
        if let Some(c) = counts {
            proof {
                lemma_sum_bound(i as int, covered as int, c.covered as int);
                lemma_sum_bound(i as int, count as int, c.count as int);
            }
            covered = covered + c.covered as u128;
            count = count + c.count as u128;
        } else {
            proof {
                lemma_sum_bound(i as int, covered as int, 0);
                lemma_sum_bound(i as int, count as int, 0);
            }
        }
        i = i + 1;
    }
    proof {
        assert(all.take(n as int) =~= all);
    }
    let percent = if count > 0 {
        Some(percent_of(covered, count))
    } else {
        None
    };
    MetricTotals { metric, missing_counts: missing, covered, count, percent }
}

/// Returns the failure, if any, of one metric's totals against its threshold.
fn evaluate_metric(threshold: Option<Binary64>, totals: MetricTotals) -> (res: Option<ThresholdFailure>)
    ensures
        res == failure_of(threshold, totals),
{
    match threshold {
        None => None,
        Some(t) => {
            if totals.missing_counts {
                Some(ThresholdFailure::CountsUnavailable(totals.metric))
            } else {
                match totals.percent {
                    Some(p) => {
                        let below = if totals.metric.requires_strictly_greater() {
                            p.le(&t)
                        } else {
                            p.lt(&t)
                        };
                        if below {
                            Some(ThresholdFailure::Below { metric: totals.metric, threshold: t, percent: p })
                        } else {
                            None
                        }
                    },
                    None => Some(ThresholdFailure::CountsUnavailable(totals.metric)),
                }
            }
        },
    }
}

/// Computes the metric totals and threshold failures of the selected
/// records.
///
/// Each metric is computed from the covered and total counts summed over the
/// selected files, so larger files weigh more. `percent_of(covered, count)`
/// gives the aggregate percentage, `covered / count * 100`, for `count > 0`.
/// A configured metric with missing or no counts fails.
pub fn threshold_failures<F: Fn(u128, u128) -> Binary64>(
    thresholds: &Thresholds,
    records: &Vec<CoverageRecord>,
    selected: &Vec<usize>,
    percent_of: &F,
) -> (res: ThresholdReport)
    requires
        forall|i: int| 0 <= i < selected@.len() ==> (#[trigger] selected@[i]) < records@.len(),
        forall|c: u128, n: u128| n > 0 ==> #[trigger] percent_of.requires((c, n)),
    ensures
        res.totals@.len() == 4,
        forall|k: int|
            0 <= k < 4 ==> totals_of(
                #[trigger] res.totals@[k],
                picked(records@, selected@),
                metric_order()[k],
                *percent_of,
            ),
        res.failures@ == spec_failures(*thresholds, res.totals@),
{
    let metrics = [Metric::Lines, Metric::Functions, Metric::Regions, Metric::Branches];
    let mut totals: Vec<MetricTotals> = Vec::new();
    let mut failures: Vec<ThresholdFailure> = Vec::new();
    let mut k: usize = 0;
    while k < 4
        invariant
            0 <= k <= 4,
            metrics@ == metric_order(),
            forall|i: int| 0 <= i < selected@.len() ==> (#[trigger] selected@[i]) < records@.len(),
            forall|c: u128, n: u128| n > 0 ==> #[trigger] percent_of.requires((c, n)),
            totals@.len() == k,
            forall|j: int|
                0 <= j < k ==> totals_of(
                    #[trigger] totals@[j],
                    picked(records@, selected@),
                    metric_order()[j],
                    *percent_of,
                ),
            failures@ == spec_failures(*thresholds, totals@),
        decreases 4 - k,
    {
        let metric = metrics[k];
        let t = metric_totals(records, selected, metric, percent_of);
        let failure = evaluate_metric(thresholds.get(metric), t);
        let ghost before = totals@;
        totals.push(t);
        proof {
            assert(totals@.drop_last() =~= before);
        }
        if let Some(f) = failure {
            failures.push(f);
        }
        k = k + 1;
    }
    ThresholdReport { totals, failures }
}

} // verus!

verus! {

/// Whether `report` holds the totals and failures of the selected records.
pub open spec fn is_threshold_report<F: Fn(u128, u128) -> Binary64>(
    report: ThresholdReport,
    thresholds: Thresholds,
    records: Seq<CoverageRecord>,
    percent_of: F,
) -> bool {
    &&& report.totals@.len() == 4
    &&& forall|k: int|
        0 <= k < 4 ==> totals_of(#[trigger] report.totals@[k], records, metric_order()[k], percent_of)
    &&& report.failures@ == spec_failures(thresholds, report.totals@)
}

/// The coverage of the selected records, in selection order.
pub open spec fn spec_selected_coverage(records: Seq<CoverageRecord>, idx: Seq<usize>) -> Seq<FileCoverage> {
    idx.map_values(|i: usize| records[i as int].coverage)
}

/// Whether `res` is the outcome of selection for `report`, given what a
/// successful outcome must hold.
pub open spec fn selection_outcome<T>(
    res: Result<T, CoverageError>,
    plan: CoveragePlan,
    paths: Seq<PathParts>,
    ok: spec_fn(T, Seq<usize>) -> bool,
) -> bool {
    match spec_select(plan, paths) {
        Err(r) => res matches Err(e) && is_unmatched_root_error(e, plan, r),
        Ok(idx) => if idx.len() == 0 {
            res matches Err(CoverageError::NoFilesSelected)
        } else {
            res matches Ok(v) && ok(v, idx)
        },
    }
}

/// The result of a threshold check: the selected files and the thresholds
/// they do not meet.
#[derive(Debug)]
pub struct CheckOutcome {
    /// Coverage of the selected files, in report order.
    pub files: Vec<FileCoverage>,
    /// Aggregates and failed thresholds; the check passes when there are no
    /// failures.
    pub thresholds: ThresholdReport,
}

fn selected_coverage(records: &Vec<CoverageRecord>, selected: &Vec<usize>) -> (res: Vec<FileCoverage>)
    requires
        forall|i: int| 0 <= i < selected@.len() ==> (#[trigger] selected@[i]) < records@.len(),
    ensures
        res@ == spec_selected_coverage(records@, selected@),
{
    let mut files: Vec<FileCoverage> = Vec::new();
    let n = selected.len();
    let mut i: usize = 0;
    while i < n
        invariant
            0 <= i <= n,
            n == selected@.len(),
            forall|i: int| 0 <= i < selected@.len() ==> (#[trigger] selected@[i]) < records@.len(),
            files@ == spec_selected_coverage(records@, selected@.take(i as int)),
        decreases n - i,
    {
        files.push(records[selected[i]].coverage.copy());
        proof {
            assert(selected@.take(i + 1) =~= selected@.take(i as int).push(selected@[i as int]));
            assert(files@ =~= spec_selected_coverage(records@, selected@.take(i + 1)));
        }
        i = i + 1;
    }
    proof {
        assert(selected@.take(n as int) =~= selected@);
    }
    files
}

pub proof fn lemma_selected_upto_bounded(paths: Seq<PathParts>, plan: CoveragePlan, n: int)
    requires
        0 <= n <= paths.len(),
    ensures
        forall|i: int|
            0 <= i < selected_upto(paths, plan, n).len() ==> (#[trigger] selected_upto(paths, plan, n)[i]) < n,
    decreases n,
{
    if n > 0 {
        lemma_selected_upto_bounded(paths, plan, n - 1);
        let prev = selected_upto(paths, plan, n - 1);
        assert forall|i: int| 0 <= i < selected_upto(paths, plan, n).len() implies (#[trigger] selected_upto(paths, plan, n)[i]) < n by {
            if i < prev.len() {
                assert(prev[i] < n - 1);
            }
        }
    }
}

/// Reports the selected coverage files without applying thresholds.
///
/// `paths[k]` is the resolved path of `records[k]`. Fails when a configured
/// source root matched no report file, or when no file is selected.
pub fn report(plan: &CoveragePlan, records: &Vec<CoverageRecord>, paths: &Vec<PathParts>) -> (res: Result<Vec<FileCoverage>, CoverageError>)
    requires
        records@.len() == paths@.len(),
    ensures
        selection_outcome(
            res,
            *plan,
            paths@,
            |files: Vec<FileCoverage>, idx: Seq<usize>| files@ == spec_selected_coverage(records@, idx),
        ),
{
    let selected = select_files(plan, paths)?;
    proof {
        lemma_selected_upto_bounded(paths@, *plan, paths@.len() as int);
    }
    if selected.len() == 0 {
        return Err(CoverageError::NoFilesSelected);
    }
    Ok(selected_coverage(records, &selected))
}

/// Checks the selected files against the configured coverage thresholds.
///
/// Fails like [`report`] does; otherwise returns the selected files with the
/// metric aggregates and the failed thresholds (lines and regions require
/// strictly greater coverage, functions and branches allow equality).
/// `percent_of(covered, count)` gives an aggregate percentage.
pub fn check<F: Fn(u128, u128) -> Binary64>(
    thresholds: &Thresholds,
    plan: &CoveragePlan,
    records: &Vec<CoverageRecord>,
    paths: &Vec<PathParts>,
    percent_of: &F,
) -> (res: Result<CheckOutcome, CoverageError>)
    requires
        records@.len() == paths@.len(),
        forall|c: u128, n: u128| n > 0 ==> #[trigger] percent_of.requires((c, n)),
    ensures
        selection_outcome(
            res,
            *plan,
            paths@,
            |outcome: CheckOutcome, idx: Seq<usize>|
                outcome.files@ == spec_selected_coverage(records@, idx) && is_threshold_report(
                    outcome.thresholds,
                    *thresholds,
                    picked(records@, idx),
                    *percent_of,
                ),
        ),
{
    let selected = select_files(plan, paths)?;
    proof {
        lemma_selected_upto_bounded(paths@, *plan, paths@.len() as int);
    }
    if selected.len() == 0 {
        return Err(CoverageError::NoFilesSelected);
    }
    let files = selected_coverage(records, &selected);
    let report = threshold_failures(thresholds, records, &selected, percent_of);
    Ok(CheckOutcome { files, thresholds: report })
}

} // verus!
