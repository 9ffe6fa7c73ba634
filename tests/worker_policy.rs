use zero2prod::store::StoreError;
use zero2prod::worker::{worker_delay_secs, ExecutionOutcome};

#[test]
fn worker_waits_ten_after_an_empty_queue() {
    assert_eq!(worker_delay_secs(&Ok(ExecutionOutcome::EmptyQueue)), 10);
}

#[test]
fn worker_waits_one_after_a_storage_error() {
    assert_eq!(worker_delay_secs(&Err(StoreError::Busy)), 1);
    assert_eq!(worker_delay_secs(&Err(StoreError::IssueNotFound)), 1);
}

#[test]
fn worker_goes_on_after_a_completed_task() {
    assert_eq!(worker_delay_secs(&Ok(ExecutionOutcome::TaskCompleted)), 0);
}
