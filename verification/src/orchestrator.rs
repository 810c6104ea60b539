//! The run orchestrator: sequences a fixed, ordered catalogue of timed
//! operations, appending and flushing one row per completed operation
//! so partial progress survives a mid-run failure.
//!
//! The operations themselves run outside the library (processes,
//! network, disk).  The caller asks which operation is next, performs
//! it, and reports the outcome; the orchestrator holds every decision:
//! what is recorded, when rows become durable, what the average row
//! holds, and that a failure abandons the rest of the catalogue.

use vstd::prelude::*;
use crate::csv_writer::{spec_row, CsvWriter};
use crate::record::{sum_durations, OperationRecord, RunError, RunResult};
use crate::text::{dec_str, views_of};

verus! {

/// One entry of the run catalogue: the label under which the operation
/// is recorded, and whether the operation is invoked once untimed
/// before its timed measurement (cache priming for operations with a
/// cold-start penalty, such as a container backend).
pub struct NamedOperation {
    pub label: String,
    pub warm_first: bool,
}

/// Header fields of a per-run artifact.
pub open spec fn header_fields() -> Seq<Seq<char>> {
    seq!["Operation"@, "Time (ms)"@]
}

/// The rendered rows of a sequence of records, one `label,duration`
/// row per record.
pub open spec fn spec_records_csv(rs: Seq<OperationRecord>) -> Seq<char>
    decreases rs.len(),
{
    if rs.len() == 0 {
        Seq::empty()
    } else {
        spec_records_csv(rs.drop_last()) + spec_row(
            seq![rs.last().label@, dec_str(rs.last().duration_ms as nat)],
        )
    }
}

/// The full per-run artifact for a sequence of records: header first.
pub open spec fn spec_run_csv(rs: Seq<OperationRecord>) -> Seq<char> {
    spec_row(header_fields()) + spec_records_csv(rs)
}

/// Orchestration state for one run.
pub struct Orchestrator {
    pub catalogue: Vec<NamedOperation>,
    pub records: Vec<OperationRecord>,
    pub recorder: CsvWriter,
    pub failure: Option<RunError>,
}

impl Orchestrator {
    /// Completed records mirror the catalogue prefix, every row is
    /// flushed, and the recorder holds exactly the header plus one row
    /// per completed record.
    pub open spec fn wf(self) -> bool {
        &&& self.records@.len() <= self.catalogue@.len()
        &&& forall|i: int|
            0 <= i < self.records@.len() ==> (#[trigger] self.records@[i]).label@
                == self.catalogue@[i].label@
        &&& self.recorder.buffered@ == Seq::<char>::empty()
        &&& self.recorder.durable@ == spec_run_csv(self.records@)
    }

    /// Still in progress: no failure, catalogue not exhausted.
    pub open spec fn running(self) -> bool {
        self.failure is None && self.records@.len() < self.catalogue@.len()
    }

    /// Starts a run: writes and flushes the artifact header.
    pub fn new(catalogue: Vec<NamedOperation>) -> (o: Orchestrator)
        ensures
            o.wf(),
            o.catalogue == catalogue,
            o.records@.len() == 0,
            o.failure is None,
    {
        let mut recorder = CsvWriter::new();
        let mut header: Vec<String> = Vec::new();
        header.push("Operation".to_owned());
        header.push("Time (ms)".to_owned());
        recorder.write_row(&header);
        recorder.flush();
        proof {
            assert(views_of(header@) =~= header_fields());
        }
        Orchestrator { catalogue, records: Vec::new(), recorder, failure: None }
    }

    pub fn is_running(&self) -> (r: bool)
        ensures
            r == self.running(),
    {
        match self.failure {
            Option::Some(_) => false,
            Option::None => self.records.len() < self.catalogue.len(),
        }
    }

    /// The operation to perform next.
    pub fn current_operation(&self) -> (r: &NamedOperation)
        requires
            self.running(),
        ensures
            *r == self.catalogue@[self.records@.len() as int],
    {
        &self.catalogue[self.records.len()]
    }

    /// Records a completed operation: appends its record, writes its
    /// row, and flushes before returning.
    pub fn record_success(&mut self, duration_ms: u64)
        requires
            old(self).wf(),
            old(self).running(),
        ensures
            final(self).wf(),
            final(self).running() == (final(self).records@.len()
                < final(self).catalogue@.len()),
            final(self).catalogue == old(self).catalogue,
            final(self).failure is None,
            final(self).records@.len() == old(self).records@.len() + 1,
            final(self).records@.drop_last() == old(self).records@,
            final(self).records@.last().label@ == old(self).catalogue@[old(
                self,
            ).records@.len() as int].label@,
            final(self).records@.last().duration_ms == duration_ms,
    {
        let label = self.catalogue[self.records.len()].label.clone();
        let mut fields: Vec<String> = Vec::new();
        fields.push(label.clone());
        fields.push(crate::text::u64_to_string(duration_ms));
        self.recorder.write_row(&fields);
        self.recorder.flush();
        self.records.push(OperationRecord { label, duration_ms });
        proof {
            assert(self.records@.drop_last() =~= old(self).records@);
            assert(views_of(fields@) =~= seq![
                self.records@.last().label@,
                dec_str(duration_ms as nat),
            ]);
            assert(self.recorder.durable@ == spec_run_csv(self.records@));
        }
    }

    /// Records a failed operation.  Nothing is appended and nothing
    /// further will run: the rest of the catalogue is abandoned.  The
    /// returned error carries the failing operation's label and the
    /// underlying cause.
    pub fn record_failure(&mut self, cause: String) -> (e: RunError)
        requires
            old(self).wf(),
            old(self).running(),
        ensures
            final(self).wf(),
            !final(self).running(),
            final(self).catalogue == old(self).catalogue,
            final(self).records == old(self).records,
            final(self).recorder == old(self).recorder,
            final(self).failure is Some,
            e matches RunError::OperationFailed { label: l, cause: c } && l@ == old(
                self,
            ).catalogue@[old(self).records@.len() as int].label@ && c == cause,
    {
        let label = self.catalogue[self.records.len()].label.clone();
        let cause_copy = cause.clone();
        self.failure = Option::Some(
            RunError::OperationFailed { label: label.clone(), cause: cause_copy },
        );
        RunError::OperationFailed { label, cause }
    }

    /// Ends a fully successful run: computes the average of the timed
    /// durations, appends it as the final `Average` row, flushes, and
    /// hands back the finished result with the complete artifact text.
    pub fn finish(self) -> (r: (RunResult, String))
        requires
            self.wf(),
            self.failure is None,
            self.records@.len() == self.catalogue@.len(),
        ensures
            r.0.wf(),
            r.0.timed() == self.records@,
            r.1@ == spec_run_csv(r.0.records@),
            r.0.records@.len() == self.records@.len() + 1,
    {
        let Orchestrator { catalogue: _, mut records, mut recorder, failure: _ } = self;
        let n = records.len();
        let mut sum: u128 = 0;
        let mut i: usize = 0;
        proof {
            assert(records@.subrange(0, 0) =~= Seq::<OperationRecord>::empty());
        }
        while i < n
            invariant
                n == records@.len(),
                0 <= i <= n,
                sum == sum_durations(records@.subrange(0, i as int)),
                sum <= i * (u64::MAX as int),
            decreases n - i,
        {
            proof {
                assert(records@.subrange(0, i + 1).drop_last() =~= records@.subrange(0, i as int));
                assert(i * (u64::MAX as int) + (u64::MAX as int) == (i + 1) * (u64::MAX as int))
                    by (nonlinear_arith);
                assert((i + 1) * (u64::MAX as int) <= (usize::MAX as int) * (u64::MAX as int))
                    by (nonlinear_arith)
                    requires
                        0 <= i + 1 <= usize::MAX as int,
                ;
            }
            sum = sum + records[i].duration_ms as u128;
            i = i + 1;
        }
        proof {
            assert(records@.subrange(0, n as int) =~= records@);
        }
        let average: u64 = if n == 0 {
            0
        } else {
            proof {
                assert(sum as int / n as int <= u64::MAX as int) by (nonlinear_arith)
                    requires
                        n as int >= 1,
                        0 <= sum as int <= (n as int) * (u64::MAX as int),
                ;
                assert(sum as int / n as int >= 0) by (nonlinear_arith)
                    requires
                        n as int >= 1,
                        0 <= sum as int,
                ;
            }
            (sum / n as u128) as u64
        };
        let mut fields: Vec<String> = Vec::new();
        fields.push("Average".to_owned());
        fields.push(crate::text::u64_to_string(average));
        recorder.write_row(&fields);
        recorder.flush();
        records.push(OperationRecord { label: "Average".to_owned(), duration_ms: average });
        proof {
            assert(records@.drop_last() =~= self.records@);
            assert(views_of(fields@) =~= seq!["Average"@, dec_str(average as nat)]);
            assert(recorder.durable@ == spec_run_csv(records@));
        }
        let content = recorder.durable_contents().clone();
        (RunResult { records }, content)
    }
}

} // verus!
