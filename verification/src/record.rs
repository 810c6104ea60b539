//! Records of one run: a timed row per operation, the derived average
//! row, and the error taxonomy of the pipeline.

use vstd::prelude::*;
use vstd::arithmetic::div_mod::lemma_fundamental_div_mod;

verus! {

/// One measured step of a run: a label and a wall-clock duration in
/// milliseconds.  Immutable once appended to a run.
pub struct OperationRecord {
    pub label: String,
    pub duration_ms: u64,
}

/// The errors of the pipeline.  A malformed row during aggregation is
/// not an error value: the row is skipped and aggregation continues.
#[derive(Debug)]
pub enum RunError {
    /// The recorder or archive could not create, write, move or read a
    /// file.  Fatal to the current run; prior runs are untouched.
    IoError(String),
    /// An operation's external action failed; the rest of the catalogue
    /// is abandoned.
    OperationFailed { label: String, cause: String },
    /// The run-type list was absent from the configuration.
    ConfigMissing,
    /// An interactive run-type choice was out of range or not a number.
    SelectionInvalid,
}

/// Sum of the durations of a sequence of records.
pub open spec fn sum_durations(rs: Seq<OperationRecord>) -> int
    decreases rs.len(),
{
    if rs.len() == 0 {
        0
    } else {
        sum_durations(rs.drop_last()) + rs.last().duration_ms
    }
}

/// The average duration of a run: the floor of sum over count, and 0
/// for a run with no timed records.
pub open spec fn run_average(timed: Seq<OperationRecord>) -> int {
    if timed.len() == 0 {
        0
    } else {
        sum_durations(timed) / timed.len() as int
    }
}

pub proof fn lemma_sum_durations_bounds(rs: Seq<OperationRecord>)
    ensures
        0 <= sum_durations(rs) <= rs.len() * (u64::MAX as int),
    decreases rs.len(),
{
    if rs.len() > 0 {
        lemma_sum_durations_bounds(rs.drop_last());
        assert((rs.len() - 1) * (u64::MAX as int) + (u64::MAX as int) == rs.len() * (
        u64::MAX as int)) by (nonlinear_arith);
    }
}

/// A finished run: every timed record in catalogue order, then one
/// derived `Average` row, recomputed rather than stored redundantly.
pub struct RunResult {
    pub records: Vec<OperationRecord>,
}

impl RunResult {
    /// The timed records, without the trailing average row.
    pub open spec fn timed(self) -> Seq<OperationRecord> {
        self.records@.drop_last()
    }

    /// The average row is always last, labelled `Average`, and holds
    /// the floor of the arithmetic mean of the timed durations.
    pub open spec fn wf(self) -> bool {
        &&& self.records@.len() >= 1
        &&& self.records@.last().label@ == "Average"@
        &&& self.records@.last().duration_ms == run_average(self.timed())
    }
}

/// The average row of a non-empty finished run equals the arithmetic
/// mean of the preceding rows' durations, exactly in the sense of
/// integer division: `avg * n <= sum < avg * n + n`, so the row is
/// within one unit of the true mean.
pub proof fn lemma_average_is_mean(r: RunResult)
    requires
        r.wf(),
        r.timed().len() > 0,
    ensures
        r.records@.last().duration_ms * r.timed().len() <= sum_durations(r.timed()),
        sum_durations(r.timed()) < r.records@.last().duration_ms * r.timed().len() + r.timed().len(),
{
    let s = sum_durations(r.timed());
    let n = r.timed().len() as int;
    lemma_sum_durations_bounds(r.timed());
    lemma_fundamental_div_mod(s, n);
    assert((s / n) * n == n * (s / n)) by (nonlinear_arith);
}

} // verus!
