use benchkit::csv_writer::CsvWriter;
use benchkit::orchestrator::{NamedOperation, Orchestrator};
use benchkit::record::RunError;

fn catalogue(labels: &[&str]) -> Vec<NamedOperation> {
    labels
        .iter()
        .map(|l| NamedOperation { label: (*l).to_string(), warm_first: false })
        .collect()
}

#[test]
fn recorder_rows_become_durable_only_on_flush() {
    let mut w = CsvWriter::new();
    let fields = vec!["a".to_string(), "b".to_string()];
    w.write_row(&fields);
    assert_eq!(w.buffered, "a,b\n");
    assert_eq!(w.durable, "");
    w.flush();
    assert_eq!(w.buffered, "");
    assert_eq!(w.durable, "a,b\n");
}

#[test]
fn recorder_joins_fields_with_single_commas() {
    let mut w = CsvWriter::new();
    w.write_row(&vec!["x".to_string(), "1".to_string(), "2".to_string()]);
    w.write_row(&vec!["solo".to_string()]);
    w.write_row(&vec![]);
    w.flush();
    assert_eq!(w.durable, "x,1,2\nsolo\n\n");
}

#[test]
fn full_run_writes_rows_and_average() {
    let mut orch = Orchestrator::new(catalogue(&["File Write Operation", "Git Operation"]));
    assert!(orch.is_running());
    assert_eq!(orch.current_operation().label, "File Write Operation");
    orch.record_success(100);
    assert_eq!(orch.current_operation().label, "Git Operation");
    orch.record_success(200);
    assert!(!orch.is_running());
    let (result, content) = orch.finish();
    assert_eq!(result.records.len(), 3);
    assert_eq!(result.records[2].label, "Average");
    assert_eq!(result.records[2].duration_ms, 150);
    assert_eq!(
        content,
        "Operation,Time (ms)\nFile Write Operation,100\nGit Operation,200\nAverage,150\n"
    );
}

#[test]
fn average_row_is_floor_of_mean() {
    let mut orch = Orchestrator::new(catalogue(&["a", "b", "c"]));
    orch.record_success(1);
    orch.record_success(1);
    orch.record_success(2);
    let (result, _) = orch.finish();
    // mean of 1, 1, 2 is 4/3; the persisted row holds its floor
    assert_eq!(result.records[3].duration_ms, 1);
}

#[test]
fn empty_catalogue_average_is_zero() {
    let orch = Orchestrator::new(catalogue(&[]));
    let (result, content) = orch.finish();
    assert_eq!(result.records.len(), 1);
    assert_eq!(result.records[0].label, "Average");
    assert_eq!(result.records[0].duration_ms, 0);
    assert_eq!(content, "Operation,Time (ms)\nAverage,0\n");
}

#[test]
fn failure_halts_run_and_leaves_prior_rows_durable() {
    let mut orch = Orchestrator::new(catalogue(&["first", "second", "third"]));
    orch.record_success(5);
    let err = orch.record_failure("tool exited with status 1".to_string());
    match err {
        RunError::OperationFailed { label, cause } => {
            assert_eq!(label, "second");
            assert_eq!(cause, "tool exited with status 1");
        }
        _ => panic!("expected an operation failure"),
    }
    // nothing after the failure point: exactly the header and the
    // first operation's row are durable, and the run cannot finish
    assert!(!orch.is_running());
    assert_eq!(orch.recorder.durable, "Operation,Time (ms)\nfirst,5\n");
    assert_eq!(orch.records.len(), 1);
}

#[test]
fn warm_first_flag_reaches_the_driver() {
    let cat = vec![
        NamedOperation { label: "Git Operation".to_string(), warm_first: false },
        NamedOperation { label: "Docker Operation".to_string(), warm_first: true },
    ];
    let mut orch = Orchestrator::new(cat);
    assert!(!orch.current_operation().warm_first);
    orch.record_success(1);
    assert!(orch.current_operation().warm_first);
}
