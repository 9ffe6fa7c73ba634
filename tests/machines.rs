use zero2prod::codec::{encode, SavedResponse};
use zero2prod::newsletter::{publish_next, see_other, PublishAction, PublishEvent, PublishState, ADMIN_NEWSLETTERS};
use zero2prod::persistence::PublishError;
use zero2prod::idempotency::GuardError;
use zero2prod::store::StoreError;
use zero2prod::worker::{worker_next, ExecutionOutcome, IssueContent, WorkerAction, WorkerEvent, WorkerState};

fn content() -> IssueContent {
    IssueContent {
        title: "Title".to_string(),
        text_content: "text".to_string(),
        html_content: "<p>html</p>".to_string(),
    }
}

#[test]
fn worker_finishes_on_an_empty_queue() {
    let (state, action) = worker_next(WorkerState::Idle, WorkerEvent::Claimed(None));
    assert!(matches!(state, WorkerState::Idle));
    assert!(matches!(action, WorkerAction::Finish(ExecutionOutcome::EmptyQueue)));
}

#[test]
fn worker_sends_the_issue_to_a_valid_address_then_retires() {
    let claimed = WorkerEvent::Claimed(Some(("I".to_string(), "a@example.com".to_string())));
    let (state, action) = worker_next(WorkerState::Idle, claimed);
    assert!(matches!(&action, WorkerAction::LoadIssue(id) if id == "I"));
    let (state, action) = worker_next(state, WorkerEvent::IssueLoaded(Some(content())));
    match &action {
        WorkerAction::Send(d) => {
            assert_eq!(d.recipient.as_str(), "a@example.com");
            assert_eq!(d.subject, "Title");
            assert_eq!(d.html_content, "<p>html</p>");
            assert_eq!(d.text_content, "text");
        }
        _ => panic!("expected a send"),
    }
    let (state, action) = worker_next(state, WorkerEvent::Sent(Err("transport down".to_string())));
    assert!(matches!(&action, WorkerAction::Retire { issue_id, subscriber_email }
        if issue_id == "I" && subscriber_email == "a@example.com"));
    let (state, action) = worker_next(state, WorkerEvent::Retired);
    assert!(matches!(state, WorkerState::Idle));
    assert!(matches!(action, WorkerAction::Finish(ExecutionOutcome::TaskCompleted)));
}

#[test]
fn worker_retires_an_invalid_address_unsent() {
    let claimed = WorkerEvent::Claimed(Some(("I".to_string(), "not-an-email".to_string())));
    let (_, action) = worker_next(WorkerState::Idle, claimed);
    assert!(matches!(&action, WorkerAction::Retire { subscriber_email, .. } if subscriber_email == "not-an-email"));
}

#[test]
fn worker_releases_the_claim_when_the_issue_is_missing() {
    let claimed = WorkerEvent::Claimed(Some(("I".to_string(), "a@example.com".to_string())));
    let (state, _) = worker_next(WorkerState::Idle, claimed);
    let (state, action) = worker_next(state, WorkerEvent::IssueLoaded(None));
    assert!(matches!(action, WorkerAction::Release { .. }));
    let (_, action) = worker_next(state, WorkerEvent::Released);
    assert!(matches!(action, WorkerAction::Fail(StoreError::IssueNotFound)));
}

#[test]
fn worker_fails_on_an_unexpected_event() {
    let (_, action) = worker_next(WorkerState::Idle, WorkerEvent::Retired);
    assert!(matches!(action, WorkerAction::Fail(StoreError::Unavailable)));
}

#[test]
fn publish_first_attempt_runs_the_outbox_and_answers_with_the_redirect() {
    let (state, action) = publish_next(PublishState::Guarding, PublishEvent::Inserted(1));
    assert!(matches!(action, PublishAction::InsertIssue));
    let (state, action) = publish_next(state, PublishEvent::IssueStored(Ok(())));
    assert!(matches!(action, PublishAction::Enqueue));
    let (state, action) = publish_next(state, PublishEvent::Enqueued(Ok(())));
    match &action {
        PublishAction::SaveResponse(columns) => {
            let expected = encode(&see_other(ADMIN_NEWSLETTERS));
            assert_eq!(columns.status_code, 303);
            assert_eq!(columns.headers, expected.headers);
            assert!(columns.body.is_empty());
        }
        _ => panic!("expected the response to be saved"),
    }
    let (_, action) = publish_next(state, PublishEvent::ResponseSaved(Ok(())));
    match action {
        PublishAction::Respond(r) => {
            assert_eq!(r.status, 303);
            assert_eq!(r.headers[0].value, b"/admin/newsletters".to_vec());
        }
        _ => panic!("expected the redirect"),
    }
}

#[test]
fn publish_duplicate_replays_the_stored_response() {
    let (state, action) = publish_next(PublishState::Guarding, PublishEvent::Inserted(0));
    assert!(matches!(action, PublishAction::LookUpSaved));
    let saved = encode(&see_other("/elsewhere"));
    let (_, action) = publish_next(state, PublishEvent::SavedColumns(Some(saved)));
    match action {
        PublishAction::Respond(r) => assert_eq!(r.headers[0].value, b"/elsewhere".to_vec()),
        _ => panic!("expected a replay"),
    }
}

#[test]
fn publish_duplicate_in_progress_is_an_error() {
    let (state, _) = publish_next(PublishState::Guarding, PublishEvent::Inserted(0));
    let (_, action) = publish_next(state, PublishEvent::SavedColumns(None));
    assert!(matches!(action, PublishAction::Fail(PublishError::Guard(GuardError::NoSavedResponse))));
}

#[test]
fn publish_storage_failure_fails_the_publish() {
    let (state, _) = publish_next(PublishState::Guarding, PublishEvent::Inserted(1));
    let (_, action) = publish_next(state, PublishEvent::IssueStored(Err(StoreError::Unavailable)));
    assert!(matches!(action, PublishAction::Fail(PublishError::Storage(StoreError::Unavailable))));
    let (state, _) = publish_next(PublishState::Enqueuing, PublishEvent::Enqueued(Ok(())));
    let (_, action) = publish_next(state, PublishEvent::ResponseSaved(Err(StoreError::Busy)));
    assert!(matches!(action, PublishAction::Fail(PublishError::Storage(StoreError::Busy))));
}

#[test]
fn publish_unreadable_saved_columns_are_an_error() {
    let (state, _) = publish_next(PublishState::Guarding, PublishEvent::Inserted(0));
    let bad = SavedResponse { status_code: 7, headers: Vec::new(), body: Vec::new() };
    let (_, action) = publish_next(state, PublishEvent::SavedColumns(Some(bad)));
    assert!(matches!(action, PublishAction::Fail(PublishError::Guard(GuardError::Corrupt(_)))));
}
