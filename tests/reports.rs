use command_source::callback::{CallbackError, ResponseSlot};
use command_source::report::{compare_all, same_response, ReportEntry, ReportError, TestReport};

#[test]
fn matching_responses_report_no_mismatch() {
    let expected = vec![b"<svg/>".to_vec(), b"midi".to_vec(), vec![]];
    let actual = expected.clone();
    let report = compare_all(&expected, &actual);
    assert_eq!(report.mismatch_count(), 0);
    assert_eq!(report.entries.len(), 3);
}

#[test]
fn one_altered_expectation_is_one_mismatch() {
    let expected = vec![b"a".to_vec(), b"b-altered".to_vec(), b"c".to_vec()];
    let actual = vec![b"a".to_vec(), b"b".to_vec(), b"c".to_vec()];
    let report = compare_all(&expected, &actual);
    assert_eq!(report.mismatch_count(), 1);
    assert_eq!(report.mismatched_records(), vec![1]);
}

#[test]
fn responses_compare_byte_for_byte() {
    assert!(same_response(b"abc", b"abc"));
    assert!(!same_response(b"abc", b"abd"));
    assert!(!same_response(b"abc", b"ab"));
    assert!(same_response(b"", b""));
}

#[test]
fn a_record_is_recorded_once() {
    let mut report = TestReport::new();
    assert_eq!(report.record(4, b"x", b"y"), Ok(()));
    assert_eq!(report.record(4, b"x", b"x"), Err(ReportError::AlreadyRecorded { record: 4 }));
    assert_eq!(report.entries, vec![ReportEntry { record: 4, passed: false }]);
    assert!(report.contains(4));
    assert!(!report.contains(5));
}

#[test]
fn results_recorded_out_of_order() {
    let mut report = TestReport::new();
    assert_eq!(report.record(2, b"x", b"x"), Ok(()));
    assert_eq!(report.record(0, b"x", b"z"), Ok(()));
    assert_eq!(report.record(1, b"q", b"r"), Ok(()));
    assert_eq!(report.mismatched_records(), vec![0, 1]);
}

#[test]
fn callback_delivers_once() {
    let mut slot = ResponseSlot::new(42);
    assert_eq!(slot.invoke(), Ok(42));
    assert_eq!(slot.invoke(), Err(CallbackError::AlreadyInvoked { job_id: 42 }));
    assert_eq!(slot.invoke(), Err(CallbackError::AlreadyInvoked { job_id: 42 }));
}
