use zero2prod::codec::{encode, HeaderPair, HttpResponse, SavedResponse};
use zero2prod::idempotency::{decide_next_action, Decision, GuardError, IdempotencyKey, KeyError};

#[test]
fn valid_key_is_accepted() {
    let key = IdempotencyKey::try_from("abc-123".to_string()).unwrap();
    assert_eq!(key.as_str(), "abc-123");
    let longest = "k".repeat(50);
    assert!(IdempotencyKey::try_from(longest).is_ok());
}

#[test]
fn empty_key_is_rejected() {
    assert_eq!(IdempotencyKey::try_from(String::new()).err(), Some(KeyError::Empty));
}

#[test]
fn overlong_key_is_rejected() {
    assert_eq!(IdempotencyKey::try_from("k".repeat(51)).err(), Some(KeyError::TooLong));
}

#[test]
fn control_and_space_characters_are_rejected() {
    assert_eq!(IdempotencyKey::try_from("ab\u{7}c".to_string()).err(), Some(KeyError::InvalidCharacter));
    assert_eq!(IdempotencyKey::try_from("a b".to_string()).err(), Some(KeyError::InvalidCharacter));
    assert_eq!(IdempotencyKey::try_from("abc\n".to_string()).err(), Some(KeyError::InvalidCharacter));
}

#[test]
fn inserted_row_means_first_attempt() {
    assert!(matches!(decide_next_action(1, &None), Ok(Decision::StartProcessing)));
}

#[test]
fn row_in_progress_is_an_error() {
    assert_eq!(decide_next_action(0, &None).err(), Some(GuardError::NoSavedResponse));
}

#[test]
fn completed_row_is_replayed() {
    let resp = HttpResponse {
        status: 303,
        headers: vec![HeaderPair { name: b"location".to_vec(), value: b"/x".to_vec() }],
        body: Vec::new(),
    };
    match decide_next_action(0, &Some(encode(&resp))) {
        Ok(Decision::ReturnSavedResponse(r)) => {
            assert_eq!(r.status, 303);
            assert_eq!(r.headers[0].value, b"/x".to_vec());
        }
        _ => panic!("expected a replay"),
    }
}

#[test]
fn corrupt_row_is_an_error() {
    let saved = SavedResponse { status_code: 42, headers: Vec::new(), body: Vec::new() };
    assert!(matches!(decide_next_action(0, &Some(saved)), Err(GuardError::Corrupt(_))));
}
