use zero2prod::codec::HttpResponse;
use zero2prod::idempotency::{IdempotencyKey, KeyError};
use zero2prod::newsletter::{publish_newsletter, publish_with_issue_id, see_other, FormData, ADMIN_NEWSLETTERS};
use zero2prod::persistence::{get_saved_response, try_processing, NextAction, PublishError};
use zero2prod::store::{NewsletterIssue, Store, StoreError};
use zero2prod::worker::{drain_queue, try_execute_task, ExecutionOutcome};

fn form(key: &str) -> FormData {
    FormData {
        title: "Newsletter Title".to_string(),
        text_content: "Newsletter body as plain test".to_string(),
        html_content: "<p>Newsletter body as HTML</p>".to_string(),
        idempotency_key: key.to_string(),
    }
}

fn recipients() -> Vec<String> {
    vec!["a@example.com".to_string(), "b@example.com".to_string(), "c@example.com".to_string()]
}

fn location(r: &HttpResponse) -> Vec<u8> {
    assert_eq!(r.headers.len(), 1);
    assert_eq!(r.headers[0].name, b"location".to_vec());
    r.headers[0].value.clone()
}

#[test]
fn see_other_redirects() {
    let r = see_other("/login");
    assert_eq!(r.status, 303);
    assert_eq!(location(&r), b"/login".to_vec());
    assert!(r.body.is_empty());
}

#[test]
fn publish_with_the_same_key_twice_delivers_once() {
    let mut store = Store::new();
    let user = "user-1".to_string();
    let first = publish_newsletter(&mut store, &user, form("abc-123"), &recipients(), 1000).unwrap();
    let second = publish_newsletter(&mut store, &user, form("abc-123"), &recipients(), 1001).unwrap();
    assert_eq!(first.status, 303);
    assert_eq!(second.status, 303);
    assert_eq!(location(&first), b"/admin/newsletters".to_vec());
    assert_eq!(location(&first), location(&second));
    assert_eq!(first.body, second.body);
    assert_eq!(store.tables().queue.len(), 3);
    assert_eq!(store.tables().issues.len(), 1);

    let (completed, sent) = drain_queue(&mut store);
    assert_eq!(completed, 3);
    assert_eq!(sent.len(), 3);
    let recipients: Vec<&str> = sent.iter().map(|d| d.recipient.as_str()).collect();
    assert_eq!(recipients, vec!["a@example.com", "b@example.com", "c@example.com"]);
    assert!(sent.iter().all(|d| d.subject == "Newsletter Title"
        && d.html_content == "<p>Newsletter body as HTML</p>"
        && d.text_content == "Newsletter body as plain test"));
    let (completed, sent) = drain_queue(&mut store);
    assert_eq!(completed, 0);
    assert!(sent.is_empty());
    assert_eq!(store.tables().queue.len(), 0);
}

#[test]
fn replay_changes_no_table() {
    let mut store = Store::new();
    let user = "user-1".to_string();
    let first = publish_with_issue_id(&mut store, &user, form("k1"), "ISSUE1".to_string(), &recipients(), 5).unwrap();
    let queued = store.tables().queue.len();
    let mut other = form("k1");
    other.title = "Another title".to_string();
    let second =
        publish_with_issue_id(&mut store, &user, other, "ISSUE2".to_string(), &vec!["z@example.com".to_string()], 6)
            .unwrap();
    assert_eq!(store.tables().queue.len(), queued);
    assert_eq!(store.tables().issues.len(), 1);
    assert_eq!(store.tables().issues[0].title, "Newsletter Title");
    assert_eq!(first.status, second.status);
    assert_eq!(location(&first), location(&second));
}

#[test]
fn same_key_for_another_user_is_a_new_command() {
    let mut store = Store::new();
    publish_with_issue_id(&mut store, &"u1".to_string(), form("k"), "I1".to_string(), &recipients(), 1).unwrap();
    publish_with_issue_id(&mut store, &"u2".to_string(), form("k"), "I2".to_string(), &recipients(), 2).unwrap();
    assert_eq!(store.tables().issues.len(), 2);
    assert_eq!(store.tables().queue.len(), 6);
    assert_eq!(store.tables().idempotency.len(), 2);
}

#[test]
fn fan_out_is_one_row_per_recipient_in_order() {
    let mut store = Store::new();
    publish_with_issue_id(&mut store, &"u".to_string(), form("k"), "ISSUE".to_string(), &recipients(), 7).unwrap();
    let q = &store.tables().queue;
    let emails: Vec<&str> = q.iter().map(|r| r.subscriber_email.as_str()).collect();
    assert_eq!(emails, vec!["a@example.com", "b@example.com", "c@example.com"]);
    assert!(q.iter().all(|r| r.issue_id == "ISSUE" && !r.claimed));
    let issue = &store.tables().issues[0];
    assert_eq!(issue.published_at, 7);
    assert_eq!(issue.html_content, "<p>Newsletter body as HTML</p>");
    let row = &store.tables().idempotency[0];
    assert_eq!(row.created_at, 7);
    assert_eq!(row.response.as_ref().unwrap().status_code, 303);
}

#[test]
fn duplicate_recipient_rolls_back_everything() {
    let mut store = Store::new();
    let dup = vec!["a@example.com".to_string(), "a@example.com".to_string()];
    let r = publish_with_issue_id(&mut store, &"u".to_string(), form("k"), "ISSUE".to_string(), &dup, 1);
    assert_eq!(r.err(), Some(PublishError::Storage(StoreError::DuplicateDelivery)));
    assert_eq!(store.tables().issues.len(), 0);
    assert_eq!(store.tables().queue.len(), 0);
    assert_eq!(store.tables().idempotency.len(), 0);
    let retry = publish_with_issue_id(&mut store, &"u".to_string(), form("k"), "ISSUE".to_string(), &recipients(), 2);
    assert!(retry.is_ok());
    assert_eq!(store.tables().queue.len(), 3);
}

#[test]
fn failure_after_the_issue_insert_leaves_nothing() {
    let mut store = Store::new();
    let key = IdempotencyKey::try_from("key".to_string()).unwrap();
    let user = "u".to_string();
    let mut txn = match try_processing(&mut store, &key, &user, 3) {
        Ok(NextAction::StartProcessing(t)) => t,
        _ => panic!("expected a first attempt"),
    };
    let issue = NewsletterIssue {
        issue_id: "ISSUE".to_string(),
        title: "t".to_string(),
        text_content: "x".to_string(),
        html_content: "<p>x</p>".to_string(),
        published_at: 3,
    };
    txn.insert_issue(issue).unwrap();
    txn.enqueue_deliveries(&"ISSUE".to_string(), &recipients()).unwrap();
    store.rollback(txn);
    assert_eq!(store.tables().issues.len(), 0);
    assert_eq!(store.tables().queue.len(), 0);
    assert_eq!(store.tables().idempotency.len(), 0);
}

#[test]
fn taken_issue_id_is_a_storage_error() {
    let mut store = Store::new();
    publish_with_issue_id(&mut store, &"u".to_string(), form("k1"), "ISSUE".to_string(), &recipients(), 1).unwrap();
    let r = publish_with_issue_id(&mut store, &"u".to_string(), form("k2"), "ISSUE".to_string(), &recipients(), 2);
    let e = r.err().unwrap();
    assert_eq!(e, PublishError::Storage(StoreError::DuplicateIssue));
    assert_eq!(e.status_code(), 500);
    assert_eq!(store.tables().queue.len(), 3);
}

#[test]
fn invalid_key_fails_before_storage() {
    let mut store = Store::new();
    let r = publish_newsletter(&mut store, &"u".to_string(), form(""), &recipients(), 1);
    let e = r.err().unwrap();
    assert_eq!(e, PublishError::InvalidKey(KeyError::Empty));
    assert_eq!(e.status_code(), 400);
    assert_eq!(store.tables().idempotency.len(), 0);
}

#[test]
fn concurrent_first_attempt_sees_the_lock() {
    let mut store = Store::new();
    let key = IdempotencyKey::try_from("abc-123".to_string()).unwrap();
    let user = "u".to_string();
    let txn = match try_processing(&mut store, &key, &user, 1) {
        Ok(NextAction::StartProcessing(t)) => t,
        _ => panic!("expected a first attempt"),
    };
    let r = publish_newsletter(&mut store, &user, form("abc-123"), &recipients(), 2);
    assert_eq!(r.err(), Some(PublishError::Storage(StoreError::Busy)));
    store.rollback(txn);
    assert!(publish_newsletter(&mut store, &user, form("abc-123"), &recipients(), 3).is_ok());
}

#[test]
fn in_progress_row_cannot_be_replayed() {
    let mut store = Store::new();
    let key = IdempotencyKey::try_from("abc".to_string()).unwrap();
    let user = "u".to_string();
    let txn = match try_processing(&mut store, &key, &user, 1) {
        Ok(NextAction::StartProcessing(t)) => t,
        _ => panic!("expected a first attempt"),
    };
    // Commit the placeholder without a response, as a crashed first attempt
    // whose row was made visible would leave it.
    store.commit(txn);
    let r = publish_newsletter(&mut store, &user, form("abc"), &recipients(), 2);
    assert_eq!(
        r.err(),
        Some(PublishError::Guard(zero2prod::idempotency::GuardError::NoSavedResponse))
    );
    assert!(get_saved_response(&store, &key, &user).unwrap().is_none());
}

#[test]
fn saved_response_lookup() {
    let mut store = Store::new();
    let key = IdempotencyKey::try_from("abc".to_string()).unwrap();
    let user = "u".to_string();
    assert!(get_saved_response(&store, &key, &user).unwrap().is_none());
    publish_newsletter(&mut store, &user, form("abc"), &recipients(), 1).unwrap();
    let saved = get_saved_response(&store, &key, &user).unwrap().unwrap();
    assert_eq!(saved.status, 303);
    assert_eq!(location(&saved), ADMIN_NEWSLETTERS.as_bytes().to_vec());
}

#[test]
fn generated_issue_ids_are_tsids() {
    let mut store = Store::new();
    publish_newsletter(&mut store, &"u".to_string(), form("k1"), &recipients(), 1).unwrap();
    publish_newsletter(&mut store, &"u".to_string(), form("k2"), &recipients(), 2).unwrap();
    let issues = &store.tables().issues;
    assert_eq!(issues.len(), 2);
    assert_eq!(issues[0].issue_id.len(), 13);
    assert_ne!(issues[0].issue_id, issues[1].issue_id);
    assert!(issues[0].issue_id.chars().all(|c| "0123456789ABCDEFGHJKMNPQRSTVWXYZ".contains(c)));
}

#[test]
fn worker_step_on_empty_queue() {
    let mut store = Store::new();
    let (outcome, sent) = try_execute_task(&mut store).unwrap();
    assert_eq!(outcome, ExecutionOutcome::EmptyQueue);
    assert!(sent.is_none());
}

#[test]
fn worker_step_hands_out_one_email_and_retires_the_row() {
    let mut store = Store::new();
    publish_with_issue_id(&mut store, &"u".to_string(), form("k"), "I".to_string(), &recipients(), 1).unwrap();
    let (outcome, sent) = try_execute_task(&mut store).unwrap();
    assert_eq!(outcome, ExecutionOutcome::TaskCompleted);
    let d = sent.unwrap();
    assert_eq!(d.recipient.as_str(), "a@example.com");
    assert_eq!(d.subject, "Newsletter Title");
    assert_eq!(store.tables().queue.len(), 2);
    assert_eq!(store.tables().queue[0].subscriber_email, "b@example.com");
}

#[test]
fn invalid_address_is_skipped_and_retired() {
    let mut store = Store::new();
    let rs = vec!["not-an-email".to_string(), "ok@example.com".to_string()];
    publish_with_issue_id(&mut store, &"u".to_string(), form("k"), "I".to_string(), &rs, 1).unwrap();
    let (outcome, sent) = try_execute_task(&mut store).unwrap();
    assert_eq!(outcome, ExecutionOutcome::TaskCompleted);
    assert!(sent.is_none());
    assert_eq!(store.tables().queue.len(), 1);
    let (completed, sent) = drain_queue(&mut store);
    assert_eq!(completed, 1);
    assert_eq!(sent.len(), 1);
    assert_eq!(sent[0].recipient.as_str(), "ok@example.com");
}

#[test]
fn a_held_claim_excludes_every_other_claim() {
    let mut store = Store::new();
    publish_with_issue_id(&mut store, &"u".to_string(), form("k"), "I".to_string(), &recipients(), 1).unwrap();
    let task = store.dequeue_task().unwrap().unwrap();
    assert_eq!(task.subscriber_email(), "a@example.com");
    assert_eq!(task.issue_id(), "I");
    assert!(matches!(store.dequeue_task(), Err(StoreError::Busy)));
    assert!(matches!(try_execute_task(&mut store), Err(StoreError::Busy)));
    store.delete_task(task);

    let mut claimed = vec!["a@example.com".to_string()];
    while let Some(t) = store.dequeue_task().unwrap() {
        assert!(!claimed.contains(t.subscriber_email()));
        claimed.push(t.subscriber_email().clone());
        store.delete_task(t);
    }
    assert_eq!(claimed.len(), 3);
    assert_eq!(store.tables().queue.len(), 0);
}

#[test]
fn released_claim_goes_back_to_the_queue() {
    let mut store = Store::new();
    publish_with_issue_id(&mut store, &"u".to_string(), form("k"), "I".to_string(), &recipients(), 1).unwrap();
    let task = store.dequeue_task().unwrap().unwrap();
    store.release_task(task);
    assert_eq!(store.tables().queue.len(), 3);
    assert!(store.tables().queue.iter().all(|r| !r.claimed));
}
