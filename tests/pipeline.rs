use newsletter_pipeline::delivery::{backoff, decide, AttemptOutcome, PermanentFailure, RetryPolicy, TaskDecision};
use newsletter_pipeline::idempotency::{see_other, IdempotencyKey, IdempotencyTable, KeyError, NextAction, SaveError};
use newsletter_pipeline::outbox::{fan_out, Subscriber, SubscriptionStatus};
use newsletter_pipeline::routes::admin::newsletters::post::{
    publish_newsletter, publish_newsletter_with_id, FormData, PublishError,
};
use newsletter_pipeline::store::{Begin, Store, StoreError};

fn confirmed(email: &str) -> Subscriber {
    Subscriber { email: String::from(email), status: SubscriptionStatus::Confirmed }
}

fn pending(email: &str) -> Subscriber {
    Subscriber { email: String::from(email), status: SubscriptionStatus::PendingConfirmation }
}

fn form(key: &str, title: &str) -> FormData {
    FormData {
        title: String::from(title),
        html_content: String::from("<p>Body</p>"),
        text_content: String::from("Body"),
        idempotency_key: String::from(key),
    }
}

fn two_subscribers() -> Store {
    Store::new(vec![confirmed("ursula@example.com"), pending("late@example.com"), confirmed("le_guin@example.com")])
}

fn location_of(r: &newsletter_pipeline::idempotency::SavedResponse) -> Vec<u8> {
    assert_eq!(r.headers.len(), 1);
    assert_eq!(r.headers[0].name, "location");
    r.headers[0].value.clone()
}

fn same_response(a: &newsletter_pipeline::idempotency::SavedResponse, b: &newsletter_pipeline::idempotency::SavedResponse) -> bool {
    a.status_code == b.status_code
        && a.body == b.body
        && a.headers.len() == b.headers.len()
        && a.headers.iter().zip(b.headers.iter()).all(|(x, y)| x.name == y.name && x.value == y.value)
}

#[test]
fn publish_creates_one_issue_and_fans_out() {
    let mut store = two_subscribers();
    let r = publish_newsletter_with_id(&mut store, 7, form("abc-123", "Hello"), 42, 1000).unwrap();
    assert_eq!(store.issues.len(), 1);
    assert_eq!(store.issues[0].issue_id, 42);
    assert_eq!(store.issues[0].title, "Hello");
    assert_eq!(store.queue.len(), 2);
    assert_eq!(store.queue[0].subscriber_email, "ursula@example.com");
    assert_eq!(store.queue[1].subscriber_email, "le_guin@example.com");
    assert!(store.queue.iter().all(|t| t.issue_id == 42 && t.n_retries == 0 && t.execute_after == 1000));
    assert_eq!(r.status_code, 303);
    assert_eq!(location_of(&r), b"/admin/newsletters".to_vec());
    assert!(r.body.is_empty());
}

#[test]
fn replay_returns_identical_response() {
    let mut store = two_subscribers();
    let first = publish_newsletter_with_id(&mut store, 7, form("abc-123", "Hello"), 42, 1000).unwrap();
    let second = publish_newsletter_with_id(&mut store, 7, form("abc-123", "Hello"), 43, 2000).unwrap();
    assert!(same_response(&first, &second));
    assert_eq!(store.issues.len(), 1);
    assert_eq!(store.queue.len(), 2);
}

#[test]
fn replay_many_times_keeps_one_issue() {
    let mut store = two_subscribers();
    let first = publish_newsletter(&mut store, 7, form("abc-123", "Hello"), 1000).unwrap();
    for n in 0..5u64 {
        let again = publish_newsletter(&mut store, 7, form("abc-123", "Hello"), 2000 + n).unwrap();
        assert!(same_response(&first, &again));
    }
    assert_eq!(store.issues.len(), 1);
    assert_eq!(store.queue.len(), 2);
}

#[test]
fn same_key_for_another_user_is_independent() {
    let mut store = two_subscribers();
    publish_newsletter_with_id(&mut store, 7, form("abc-123", "Hello"), 42, 1000).unwrap();
    publish_newsletter_with_id(&mut store, 8, form("abc-123", "Hello"), 43, 1000).unwrap();
    assert_eq!(store.issues.len(), 2);
    assert_eq!(store.queue.len(), 4);
}

#[test]
fn concurrent_first_requests_conflict() {
    let mut store = two_subscribers();
    let key = IdempotencyKey::parse(String::from("xyz")).unwrap();
    // The first request holds the key and has not committed yet.
    let tx = match store.try_processing(7, &key) {
        Begin::Started(tx) => tx,
        other => panic!("expected to start, got {:?}", other),
    };
    // The second request sees the pending record.
    let second = publish_newsletter_with_id(&mut store, 7, form("xyz", "Hello"), 99, 1000);
    assert!(matches!(second, Err(PublishError::InProgress)));
    assert!(store.issues.is_empty());
    // The first one finishes.
    let mut tx = tx;
    store.insert_newsletter_issue(&mut tx, 42, String::from("Hello"), String::from("Body"), String::from("<p>Body</p>"), 1000).unwrap();
    store.enqueue_delivery_tasks(&mut tx, 42, 1000);
    let saved = store.save_response(tx, see_other("/admin/newsletters")).unwrap();
    assert_eq!(saved.status_code, 303);
    assert_eq!(store.issues.len(), 1);
    assert_eq!(store.queue.len(), 2);
    let third = publish_newsletter_with_id(&mut store, 7, form("xyz", "Hello"), 100, 1000).unwrap();
    assert!(same_response(&saved, &third));
    assert_eq!(store.issues.len(), 1);
}

#[test]
fn rollback_leaves_no_trace() {
    let mut store = two_subscribers();
    let key = IdempotencyKey::parse(String::from("crash")).unwrap();
    let mut tx = match store.try_processing(7, &key) {
        Begin::Started(tx) => tx,
        other => panic!("expected to start, got {:?}", other),
    };
    store.insert_newsletter_issue(&mut tx, 42, String::from("Hello"), String::from("Body"), String::from("<p>Body</p>"), 1000).unwrap();
    store.enqueue_delivery_tasks(&mut tx, 42, 1000);
    store.rollback(tx);
    assert!(store.issues.is_empty());
    assert!(store.queue.is_empty());
    assert!(store.idempotency.rows.is_empty());
    // The key is free again.
    publish_newsletter_with_id(&mut store, 7, form("crash", "Hello"), 43, 1000).unwrap();
    assert_eq!(store.issues.len(), 1);
    assert_eq!(store.queue.len(), 2);
}

#[test]
fn malformed_keys_are_rejected_before_any_write() {
    let mut store = two_subscribers();
    let empty = publish_newsletter_with_id(&mut store, 7, form("", "Hello"), 42, 1000);
    assert!(matches!(empty, Err(PublishError::InvalidKey(KeyError::Empty))));
    let long = "k".repeat(51);
    let too_long = publish_newsletter_with_id(&mut store, 7, form(&long, "Hello"), 42, 1000);
    assert!(matches!(too_long, Err(PublishError::InvalidKey(KeyError::TooLong))));
    assert!(store.issues.is_empty());
    assert!(store.idempotency.rows.is_empty());
}

#[test]
fn key_length_bounds() {
    assert!(matches!(IdempotencyKey::parse(String::new()), Err(KeyError::Empty)));
    assert_eq!(IdempotencyKey::parse("a".repeat(50)).unwrap().as_str().len(), 50);
    assert!(matches!(IdempotencyKey::parse("a".repeat(51)), Err(KeyError::TooLong)));
    // Characters are counted, not bytes.
    assert!(IdempotencyKey::parse("é".repeat(50)).is_ok());
    assert_eq!(IdempotencyKey::parse(String::from("abc-123")).unwrap().as_str(), "abc-123");
}

#[test]
fn table_save_response_errors() {
    let mut table = IdempotencyTable::new();
    let key = IdempotencyKey::parse(String::from("k")).unwrap();
    assert_eq!(table.save_response(1, &key, see_other("/x")), Err(SaveError::NotStarted));
    assert!(matches!(table.start_processing(1, &key), NextAction::StartProcessing));
    assert!(matches!(table.start_processing(1, &key), NextAction::InProgress));
    assert_eq!(table.save_response(1, &key, see_other("/x")), Ok(()));
    assert_eq!(table.save_response(1, &key, see_other("/y")), Err(SaveError::AlreadyCompleted));
    match table.start_processing(1, &key) {
        NextAction::ReturnSavedResponse(r) => assert_eq!(location_of(&r), b"/x".to_vec()),
        other => panic!("expected the saved response, got {:?}", other),
    }
}

#[test]
fn fan_out_skips_unconfirmed() {
    let subs = vec![pending("a@example.com"), confirmed("b@example.com"), pending("c@example.com")];
    let tasks = fan_out(5, &subs, 10);
    assert_eq!(tasks.len(), 1);
    assert_eq!(tasks[0].subscriber_email, "b@example.com");
    assert_eq!(tasks[0].issue_id, 5);
    assert!(fan_out(5, &Vec::new(), 10).is_empty());
}

#[test]
fn fail_twice_then_succeed() {
    let policy = RetryPolicy::default();
    let mut store = two_subscribers();
    publish_newsletter_with_id(&mut store, 7, form("abc-123", "Hello"), 42, 0).unwrap();
    store.queue.truncate(1);
    let mut now = 0u64;
    let mut sends = 0;
    let mut last_seen_retries = None;
    loop {
        let i = match store.claim_task(1, now) {
            Some(i) => i,
            None => {
                if store.queue.is_empty() {
                    break;
                }
                now += 1;
                continue;
            }
        };
        sends += 1;
        last_seen_retries = Some(store.queue[i].n_retries);
        let outcome = if sends <= 2 { AttemptOutcome::TransportFailed } else { AttemptOutcome::Sent };
        let d = store.finish_attempt(i, 1, outcome, &policy, now);
        if sends == 3 {
            assert_eq!(d, TaskDecision::Delete);
        }
    }
    assert_eq!(sends, 3);
    assert_eq!(last_seen_retries, Some(2));
    assert!(store.queue.is_empty());
}

#[test]
fn exhaustion_drops_task_without_fourth_attempt() {
    let policy = RetryPolicy::default();
    let mut store = two_subscribers();
    publish_newsletter_with_id(&mut store, 7, form("abc-123", "Hello"), 42, 0).unwrap();
    store.queue.truncate(1);
    let mut now = 0u64;
    let mut attempts = 0;
    let mut last = None;
    while !store.queue.is_empty() && now < 10_000 {
        match store.claim_task(1, now) {
            Some(i) => {
                attempts += 1;
                last = Some(store.finish_attempt(i, 1, AttemptOutcome::TransportFailed, &policy, now));
            }
            None => now += 1,
        }
    }
    assert_eq!(attempts, 3);
    assert_eq!(last, Some(TaskDecision::Drop(PermanentFailure::RetriesExhausted)));
    assert!(store.queue.is_empty());
}

#[test]
fn claimed_task_is_skipped_by_other_workers() {
    let mut store = two_subscribers();
    publish_newsletter_with_id(&mut store, 7, form("abc-123", "Hello"), 42, 0).unwrap();
    let a = store.claim_task(1, 0).unwrap();
    let b = store.claim_task(2, 0).unwrap();
    assert_ne!(a, b);
    assert_eq!(store.queue[a].locked_by, Some(1));
    assert_eq!(store.queue[b].locked_by, Some(2));
    assert_eq!(store.claim_task(3, 0), None);
}

#[test]
fn task_not_due_is_not_claimed() {
    let mut store = two_subscribers();
    publish_newsletter_with_id(&mut store, 7, form("abc-123", "Hello"), 42, 500).unwrap();
    assert_eq!(store.claim_task(1, 499), None);
    assert_eq!(store.claim_task(1, 500), Some(0));
}

#[test]
fn invalid_recipient_is_dropped_at_once() {
    let policy = RetryPolicy::default();
    assert_eq!(
        decide(&policy, 0, AttemptOutcome::InvalidRecipient, 5),
        TaskDecision::Drop(PermanentFailure::InvalidRecipient)
    );
}

#[test]
fn retry_schedule_uses_backoff() {
    let policy = RetryPolicy::default();
    assert_eq!(decide(&policy, 0, AttemptOutcome::TransportFailed, 100), TaskDecision::Retry { n_retries: 1, execute_after: 101 });
    assert_eq!(decide(&policy, 1, AttemptOutcome::TransportFailed, 100), TaskDecision::Retry { n_retries: 2, execute_after: 102 });
    assert_eq!(
        decide(&policy, 2, AttemptOutcome::TransportFailed, 100),
        TaskDecision::Drop(PermanentFailure::RetriesExhausted)
    );
    assert_eq!(decide(&policy, 0, AttemptOutcome::Sent, 100), TaskDecision::Delete);
    let far = RetryPolicy { max_retries: 100, base_backoff_secs: 1, max_backoff_secs: 60 };
    assert_eq!(
        decide(&far, 0, AttemptOutcome::TransportFailed, u64::MAX - 1),
        TaskDecision::Retry { n_retries: 1, execute_after: u64::MAX }
    );
}

#[test]
fn backoff_doubles_up_to_cap() {
    let p = RetryPolicy { max_retries: 10, base_backoff_secs: 2, max_backoff_secs: 60 };
    assert_eq!(backoff(&p, 1), 2);
    assert_eq!(backoff(&p, 2), 4);
    assert_eq!(backoff(&p, 3), 8);
    assert_eq!(backoff(&p, 5), 32);
    assert_eq!(backoff(&p, 6), 60);
    assert_eq!(backoff(&p, 4000), 60);
    let huge = RetryPolicy { max_retries: 10, base_backoff_secs: u64::MAX, max_backoff_secs: u64::MAX };
    assert_eq!(backoff(&huge, 3), u64::MAX);
}

#[test]
fn taken_issue_id_writes_nothing() {
    let mut store = two_subscribers();
    publish_newsletter_with_id(&mut store, 7, form("first", "Hello"), 42, 1000).unwrap();
    let second = publish_newsletter_with_id(&mut store, 7, form("second", "Again"), 42, 1000);
    assert!(matches!(second, Err(PublishError::IssueIdTaken)));
    assert_eq!(PublishError::IssueIdTaken.error_response().status_code, 500);
    assert_eq!(store.issues.len(), 1);
    assert_eq!(store.queue.len(), 2);
    // The key was released with the rolled back transaction.
    assert_eq!(store.idempotency.rows.len(), 1);
    publish_newsletter_with_id(&mut store, 7, form("second", "Again"), 43, 1000).unwrap();
    assert_eq!(store.issues.len(), 2);
}

#[test]
fn staging_a_taken_id_is_refused() {
    let mut store = two_subscribers();
    publish_newsletter_with_id(&mut store, 7, form("first", "Hello"), 42, 1000).unwrap();
    let key = IdempotencyKey::parse(String::from("other")).unwrap();
    let mut tx = match store.try_processing(7, &key) {
        Begin::Started(tx) => tx,
        other => panic!("expected to start, got {:?}", other),
    };
    let taken = store.insert_newsletter_issue(&mut tx, 42, String::from("t"), String::from("x"), String::from("h"), 5);
    assert_eq!(taken, Err(StoreError::IssueIdTaken));
    assert!(tx.issues.is_empty());
    store.insert_newsletter_issue(&mut tx, 50, String::from("t"), String::from("x"), String::from("h"), 5).unwrap();
    let again = store.insert_newsletter_issue(&mut tx, 50, String::from("t"), String::from("x"), String::from("h"), 5);
    assert_eq!(again, Err(StoreError::IssueIdTaken));
    assert_eq!(tx.issues.len(), 1);
}

#[test]
fn commit_with_taken_id_rolls_back() {
    let mut store = two_subscribers();
    let key = IdempotencyKey::parse(String::from("late")).unwrap();
    let mut tx = match store.try_processing(7, &key) {
        Begin::Started(tx) => tx,
        other => panic!("expected to start, got {:?}", other),
    };
    store.insert_newsletter_issue(&mut tx, 42, String::from("t"), String::from("x"), String::from("h"), 5).unwrap();
    // Another publication takes the same id before this one commits.
    publish_newsletter_with_id(&mut store, 8, form("first", "Hello"), 42, 1000).unwrap();
    let r = store.save_response(tx, see_other("/admin/newsletters"));
    assert_eq!(r.unwrap_err(), StoreError::IssueIdTaken);
    assert_eq!(store.issues.len(), 1);
    assert_eq!(store.idempotency.rows.len(), 1);
}

#[test]
fn retried_task_is_due_later() {
    let policy = RetryPolicy::default();
    match decide(&policy, 0, AttemptOutcome::TransportFailed, 7) {
        TaskDecision::Retry { execute_after, .. } => assert!(execute_after > 7),
        other => panic!("expected a retry, got {:?}", other),
    }
}
