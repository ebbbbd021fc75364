//! Coverage records read from an LLVM coverage JSON report.

use vstd::prelude::*;

use crate::binary64::Binary64;
use crate::config::Metric;
use crate::error::CoverageError;
use crate::json::{parse_json, spec_parse_json, JsonValue};

verus! {

/// Covered and total item counts for one coverage metric.
#[derive(Clone, Copy, Debug, PartialEq, Eq, Structural)]
pub struct MetricCounts {
    /// Number of covered items reported by LLVM.
    pub covered: u64,
    /// Total number of items measured by LLVM.
    pub count: u64,
}

/// The coverage percentages reported for one source file; a metric is
/// `None` when the report does not provide it.
#[derive(Clone, Debug)]
pub struct FileCoverage {
    /// The path of the covered source file as reported by LLVM.
    pub filename: String,
    /// The covered-line percentage.
    pub lines_percent: Option<Binary64>,
    /// The covered-function percentage.
    pub functions_percent: Option<Binary64>,
    /// The covered-region percentage.
    pub regions_percent: Option<Binary64>,
    /// The covered-branch percentage.
    pub branches_percent: Option<Binary64>,
}

/// One file of a report: its percentages and its hit counts.
#[derive(Debug)]
pub struct CoverageRecord {
    /// Display metrics and source path for this file.
    pub coverage: FileCoverage,
    /// Line counts reported for this file.
    pub lines: Option<MetricCounts>,
    /// Function counts reported for this file.
    pub functions: Option<MetricCounts>,
    /// Region counts reported for this file.
    pub regions: Option<MetricCounts>,
    /// Branch counts reported for this file.
    pub branches: Option<MetricCounts>,
}

impl FileCoverage {
    /// Returns an equal copy.
    pub fn copy(&self) -> (res: FileCoverage)
        ensures
            res == *self,
    {
        FileCoverage {
            filename: self.filename.clone(),
            lines_percent: self.lines_percent,
            functions_percent: self.functions_percent,
            regions_percent: self.regions_percent,
            branches_percent: self.branches_percent,
        }
    }

    /// The percentage reported for `metric`.
    pub open spec fn spec_percent(&self, metric: Metric) -> Option<Binary64> {
        match metric {
            Metric::Lines => self.lines_percent,
            Metric::Functions => self.functions_percent,
            Metric::Regions => self.regions_percent,
            Metric::Branches => self.branches_percent,
        }
    }

    /// Returns the percentage reported for `metric`.
    pub fn percent(&self, metric: Metric) -> (res: Option<Binary64>)
        ensures
            res == self.spec_percent(metric),
    {
        match metric {
            Metric::Lines => self.lines_percent,
            Metric::Functions => self.functions_percent,
            Metric::Regions => self.regions_percent,
            Metric::Branches => self.branches_percent,
        }
    }
}

impl CoverageRecord {
    /// The counts reported for `metric`.
    pub open spec fn spec_counts(&self, metric: Metric) -> Option<MetricCounts> {
        match metric {
            Metric::Lines => self.lines,
            Metric::Functions => self.functions,
            Metric::Regions => self.regions,
            Metric::Branches => self.branches,
        }
    }

    /// Returns the counts reported for `metric`.
    pub fn counts(&self, metric: Metric) -> (res: Option<MetricCounts>)
        ensures
            res == self.spec_counts(metric),
    {
        match metric {
            Metric::Lines => self.lines,
            Metric::Functions => self.functions,
            Metric::Regions => self.regions,
            Metric::Branches => self.branches,
        }
    }
}

/// The member `key` of an optional object.
pub open spec fn member_of(value: Option<JsonValue>, key: Seq<char>) -> Option<JsonValue> {
    match value {
        Some(v) => v.spec_get(key),
        None => None,
    }
}

/// The `percent` number of an LLVM metric object.
pub open spec fn spec_percent(metric: Option<JsonValue>) -> Option<Binary64> {
    match member_of(metric, "percent"@) {
        Some(p) => p.spec_as_f64(),
        None => None,
    }
}

/// The `covered` and `count` integers of an LLVM metric object, when both
/// are non-negative integers.
pub open spec fn spec_metric_counts(metric: Option<JsonValue>) -> Option<MetricCounts> {
    match (member_of(metric, "covered"@), member_of(metric, "count"@)) {
        (Some(c), Some(n)) => match (c.spec_as_u64(), n.spec_as_u64()) {
            (Some(covered), Some(count)) => Some(MetricCounts { covered, count }),
            _ => None,
        },
        _ => None,
    }
}

/// Extracts a percentage value from an LLVM metric object.
pub fn percent(value: Option<&JsonValue>) -> (res: Option<Binary64>)
    ensures
        res == spec_percent(match value {
            Some(v) => Some(*v),
            None => None,
        }),
{
    match value {
        Some(v) => match v.get("percent") {
            Some(p) => p.as_f64(),
            None => None,
        },
        None => None,
    }
}

/// Reads covered and total counts from one LLVM metric object.
pub fn metric_counts(value: Option<&JsonValue>) -> (res: Option<MetricCounts>)
    ensures
        res == spec_metric_counts(match value {
            Some(v) => Some(*v),
            None => None,
        }),
{
    let value = match value {
        Some(v) => v,
        None => return None,
    };
    let covered = match value.get("covered") {
        Some(c) => c,
        None => return None,
    };
    let count = match value.get("count") {
        Some(n) => n,
        None => return None,
    };
    let covered = match covered.as_u64() {
        Some(c) => c,
        None => return None,
    };
    let count = match count.as_u64() {
        Some(n) => n,
        None => return None,
    };
    Some(MetricCounts { covered, count })
}

/// The files listed by one element of the report's `data` array.
pub open spec fn files_in(record: JsonValue) -> Seq<JsonValue> {
    match record.spec_get("files"@) {
        Some(files) => match files.spec_as_array() {
            Some(a) => a,
            None => Seq::empty(),
        },
        None => Seq::empty(),
    }
}

/// The files of all elements of the `data` array, in order.
pub open spec fn files_of(data: Seq<JsonValue>) -> Seq<JsonValue>
    decreases data.len(),
{
    if data.len() == 0 {
        Seq::empty()
    } else {
        files_of(data.drop_last()) + files_in(data.last())
    }
}

/// Whether a file object has a `filename` string.
pub open spec fn has_filename(file: JsonValue) -> bool {
    match file.spec_get("filename"@) {
        Some(name) => name.spec_as_str() is Some,
        None => false,
    }
}

/// The record read from a file object that has a `filename` string.
pub open spec fn record_of(file: JsonValue) -> CoverageRecord {
    let summary = file.spec_get("summary"@);
    let lines = member_of(summary, "lines"@);
    let functions = member_of(summary, "functions"@);
    let regions = member_of(summary, "regions"@);
    let branches = member_of(summary, "branches"@);
    CoverageRecord {
        coverage: FileCoverage {
            filename: file.spec_get("filename"@)->0.spec_as_str()->0,
            lines_percent: spec_percent(lines),
            functions_percent: spec_percent(functions),
            regions_percent: spec_percent(regions),
            branches_percent: spec_percent(branches),
        },
        lines: spec_metric_counts(lines),
        functions: spec_metric_counts(functions),
        regions: spec_metric_counts(regions),
        branches: spec_metric_counts(branches),
    }
}

/// The outcome of reading a report: an error when there is no `data` array
/// or some file has no filename, else one record per file in report order.
pub open spec fn spec_read_files(report: JsonValue) -> Result<Seq<CoverageRecord>, CoverageError> {
    match member_of(Some(report), "data"@) {
        Some(data) => match data.spec_as_array() {
            Some(records) => {
                let files = files_of(records);
                if exists|k: int| 0 <= k < files.len() && !has_filename(#[trigger] files[k]) {
                    Err(CoverageError::FileWithoutName)
                } else {
                    Ok(files.map_values(|file: JsonValue| record_of(file)))
                }
            },
            None => Err(CoverageError::NoDataArray),
        },
        None => Err(CoverageError::NoDataArray),
    }
}

/// Files of a concatenation are the files of its parts.
proof fn lemma_files_of_append(a: Seq<JsonValue>, b: Seq<JsonValue>)
    ensures
        files_of(a + b) == files_of(a) + files_of(b),
    decreases b.len(),
{
    if b.len() == 0 {
        assert(a + b =~= a);
        assert(files_of(a) + files_of(b) =~= files_of(a));
    } else {
        assert((a + b).drop_last() =~= a + b.drop_last());
        assert((a + b).last() == b.last());
        lemma_files_of_append(a, b.drop_last());
        assert(files_of(a) + files_of(b.drop_last()) + files_in(b.last()) =~= files_of(a) + (
        files_of(b.drop_last()) + files_in(b.last())));
    }
}

/// Reads one file object; the caller has checked that it has a filename.
fn read_record(file: &JsonValue, name: &String) -> (res: CoverageRecord)
    requires
        has_filename(*file),
        file.spec_get("filename"@)->0.spec_as_str()->0 == *name,
    ensures
        res == record_of(*file),
{
    let summary = file.get("summary");
    let lines = match summary {
        Some(s) => s.get("lines"),
        None => None,
    };
    let functions = match summary {
        Some(s) => s.get("functions"),
        None => None,
    };
    let regions = match summary {
        Some(s) => s.get("regions"),
        None => None,
    };
    let branches = match summary {
        Some(s) => s.get("branches"),
        None => None,
    };
    CoverageRecord {
        coverage: FileCoverage {
            filename: name.clone(),
            lines_percent: percent(lines),
            functions_percent: percent(functions),
            regions_percent: percent(regions),
            branches_percent: percent(branches),
        },
        lines: metric_counts(lines),
        functions: metric_counts(functions),
        regions: metric_counts(regions),
        branches: metric_counts(branches),
    }
}

/// Reads file summaries and hit counts from an LLVM coverage JSON report.
///
/// Fails when the `data` array is absent or a file record has no filename.
#[verifier::loop_isolation(false)]
pub fn read_files(report: &JsonValue) -> (res: Result<Vec<CoverageRecord>, CoverageError>)
    ensures
        match (res, spec_read_files(*report)) {
            (Ok(v), Ok(s)) => v@ == s,
            (Err(e), Err(f)) => e == f,
            _ => false,
        },
{
    let data = match report.get("data") {
        Some(d) => d,
        None => return Err(CoverageError::NoDataArray),
    };
    let records = match data.as_array() {
        Some(a) => a,
        None => return Err(CoverageError::NoDataArray),
    };
    let ghost all = files_of(records@);
    let mut files: Vec<CoverageRecord> = Vec::new();
    let n = records.len();
    let mut i: usize = 0;
    while i < n
        invariant
            n == records@.len(),
            0 <= i <= n,
            files@ == files_of(records@.take(i as int)).map_values(|file: JsonValue| record_of(file)),
            forall|k: int|
                0 <= k < files_of(records@.take(i as int)).len() ==> has_filename(
                    #[trigger] files_of(records@.take(i as int))[k],
                ),
        decreases n - i,
    {
        let ghost before = files_of(records@.take(i as int));
        proof {
            assert(records@.take(i + 1).drop_last() =~= records@.take(i as int));
            assert(records@.take(i + 1).last() == records@[i as int]);
            assert(files_of(records@.take(i + 1)) == before + files_in(records@[i as int]));
            lemma_files_of_append(records@.take(i + 1), records@.skip(i + 1));
            assert(records@.take(i + 1) + records@.skip(i + 1) =~= records@);
        }
        let listed = match records[i].get("files") {
            Some(f) => f.as_array(),
            None => None,
        };
        match listed {
            Some(list) => {
                let m = list.len();
                let mut j: usize = 0;
                while j < m
                    invariant
                        m == list@.len(),
                        0 <= j <= m,
                        list@ == files_in(records@[i as int]),
                        files@ == (before + list@.take(j as int)).map_values(
                            |file: JsonValue| record_of(file),
                        ),
                        forall|k: int|
                            0 <= k < (before + list@.take(j as int)).len() ==> has_filename(
                                #[trigger] (before + list@.take(j as int))[k],
                            ),
                    decreases m - j,
                {
                    let file = &list[j];
                    let name = match file.get("filename") {
                        Some(f) => f.as_str(),
                        None => None,
                    };
                    match name {
                        Some(name) => {
                            let record = read_record(file, name);
                            files.push(record);
                            proof {
                                assert((before + list@.take(j + 1)) =~= (before + list@.take(
                                    j as int,
                                )).push(list@[j as int]));
                                assert(files@ =~= (before + list@.take(j + 1)).map_values(
                                    |file: JsonValue| record_of(file),
                                ));
                            }
                        },
                        None => {
                            proof {
                                let k = before.len() + j;
                                assert(files_of(records@.take(i + 1))[k] == list@[j as int]);
                                assert(all[k] == list@[j as int]);
                                assert(!has_filename(all[k]));
                            }
                            return Err(CoverageError::FileWithoutName);
                        },
                    }
                    j = j + 1;
                }
                proof {
                    assert(list@.take(m as int) =~= list@);
                }
            },
            None => {
                proof {
                    assert(files_in(records@[i as int]) =~= Seq::<JsonValue>::empty());
                    assert(before + files_in(records@[i as int]) =~= before);
                }
            },
        }
        i = i + 1;
    }
    proof {
        assert(records@.take(n as int) =~= records@);
    }
    Ok(files)
}

} // verus!

verus! {

/// Reads the records of an LLVM coverage report from its JSON text: an
/// `InvalidJson` error with serde_json's message where the text does not
/// parse, else what [`read_files`] gives for the parsed document.
pub fn read_report_text(text: &str) -> (res: Result<Vec<CoverageRecord>, CoverageError>)
    ensures
        match spec_parse_json(text@) {
            Err(m) => res matches Err(CoverageError::InvalidJson(e)) && e@ == m,
            Ok(doc) => match (res, spec_read_files(doc)) {
                (Ok(v), Ok(s)) => v@ == s,
                (Err(e), Err(f)) => e == f,
                _ => false,
            },
        },
{
    match parse_json(text) {
        Err(why) => Err(CoverageError::InvalidJson(why)),
        Ok(doc) => read_files(&doc),
    }
}

} // verus!
