//! The idempotency guard over the store: decide between a first attempt and
//! a replay, and persist the computed response with the side effects that
//! produced it.
use crate::codec::{
    decode, decode_response, encode, encode_response, lemma_response_round_trip, valid_status,
    CodecError, HttpResponse, ResponseView,
};
use crate::idempotency::{decide_next_action, decide_spec, ActionView, Decision, GuardError, IdempotencyKey, KeyError};
use crate::store::{
    has_idempotency_row, settled, stored_response, with_placeholder, with_response, Store, StoreError,
    TablesView, Transaction,
};
use vstd::prelude::*;

verus! {

/// Why a guarded command failed.
#[derive(Debug, PartialEq, Eq, Structural, Clone, Copy)]
pub enum PublishError {
    /// The idempotency key was malformed; nothing was stored.
    InvalidKey(KeyError),
    /// The store refused an operation; the transaction was rolled back.
    Storage(StoreError),
    /// A duplicate whose stored response could not be replayed.
    Guard(GuardError),
}

impl PublishError {
    /// The HTTP status the caller answers with: 400 for a malformed key,
    /// 500 otherwise.
    pub fn status_code(&self) -> (r: u16)
        ensures
            r == (if self is InvalidKey { 400u16 } else { 500u16 }),
    {
        match self {
            PublishError::InvalidKey(_) => 400,
            _ => 500,
        }
    }
}

/// The outcome of a replay, from the stored response columns.
pub open spec fn replay_spec(t: TablesView, user: Seq<char>, key: Seq<char>) -> Result<ResponseView, PublishError> {
    match decide_spec(false, stored_response(t, user, key)) {
        Ok(ActionView::ReturnSavedResponse(r)) => Ok(r),
        Ok(ActionView::StartProcessing) => Err(PublishError::Guard(GuardError::NoSavedResponse)),
        Err(e) => Err(PublishError::Guard(e)),
    }
}

/// What the guard hands back.
pub enum NextAction {
    /// First attempt: the transaction holding the new placeholder row.
    StartProcessing(Transaction),
    /// Duplicate: the stored response.
    ReturnSavedResponse(HttpResponse),
}

/// Reads the committed response of (user, key): `Ok(None)` when no response
/// is saved there (no row, or a row whose first attempt has not completed),
/// an error when the stored columns cannot be decoded.
pub fn get_saved_response(store: &Store, key: &IdempotencyKey, user_id: &String) -> (r: Result<
    Option<HttpResponse>,
    GuardError,
>)
    requires
        store.inv(),
    ensures
        match r {
            Ok(None) => stored_response(store@, user_id@, key@) is None,
            Ok(Some(resp)) => stored_response(store@, user_id@, key@) matches Some(sv) && decode_response(sv)
                == Ok::<ResponseView, CodecError>(resp@),
            Err(e) => stored_response(store@, user_id@, key@) matches Some(sv) && decode_response(sv) matches Err(
                ce,
            ) && e == GuardError::Corrupt(ce),
        },
{
    let saved = store.saved_response(user_id, key);
    match &saved {
        None => Ok(None),
        Some(sv) => match decode(sv) {
            Ok(resp) => Ok(Some(resp)),
            Err(e) => Err(GuardError::Corrupt(e)),
        },
    }
}

/// Opens a transaction and inserts the placeholder row for (user, key). A
/// new row means a first attempt: the transaction is handed back open. An
/// existing row means a duplicate: the transaction is rolled back and the
/// stored response is replayed, or the replay's error returned.
pub fn try_processing(store: &mut Store, key: &IdempotencyKey, user_id: &String, now: u64) -> (r: Result<
    NextAction,
    PublishError,
>)
    requires
        old(store).inv(),
    ensures
        final(store).inv(),
        final(store)@ == old(store)@,
        old(store).is_busy() ==> final(store).is_busy() && r matches Err(PublishError::Storage(StoreError::Busy)),
        !old(store).is_busy() && !has_idempotency_row(old(store)@, user_id@, key@) ==> final(store).is_busy() && match r {
            Ok(NextAction::StartProcessing(txn)) => txn.wf() && txn@ == with_placeholder(old(store)@, user_id@, key@, now),
            _ => false,
        },
        !old(store).is_busy() && has_idempotency_row(old(store)@, user_id@, key@) ==> !final(store).is_busy() && match r {
            Ok(NextAction::ReturnSavedResponse(resp)) => replay_spec(old(store)@, user_id@, key@) == Ok::<
                ResponseView,
                PublishError,
            >(resp@),
            Ok(NextAction::StartProcessing(_)) => false,
            Err(e) => replay_spec(old(store)@, user_id@, key@) == Err::<ResponseView, PublishError>(e),
        },
{
    let mut txn = match store.begin() {
        Ok(t) => t,
        Err(e) => {
            return Err(PublishError::Storage(e));
        },
    };
    let inserted = txn.insert_placeholder(user_id, key, now);
    if inserted {
        return Ok(NextAction::StartProcessing(txn));
    }
    store.rollback(txn);
    let saved = store.saved_response(user_id, key);
    match decide_next_action(0, &saved) {
        Ok(Decision::ReturnSavedResponse(resp)) => Ok(NextAction::ReturnSavedResponse(resp)),
        Ok(Decision::StartProcessing) => Err(PublishError::Guard(GuardError::NoSavedResponse)),
        Err(e) => Err(PublishError::Guard(e)),
    }
}

/// Stores the response in the (user, key) row and commits, returning the
/// response rebuilt from the stored columns. A response whose status code
/// could not be replayed is refused and the transaction rolled back.
pub fn save_response(
    store: &mut Store,
    txn: Transaction,
    key: &IdempotencyKey,
    user_id: &String,
    http_response: HttpResponse,
) -> (r: Result<HttpResponse, PublishError>)
    requires
        old(store).inv(),
        old(store).is_busy(),
        txn.wf(),
        settled(txn@),
    ensures
        final(store).inv(),
        !final(store).is_busy(),
        valid_status(http_response@.status) ==> match r {
            Ok(resp) => resp@ == http_response@ && final(store)@ == with_response(
                txn@,
                user_id@,
                key@,
                encode_response(http_response@),
            ),
            Err(_) => false,
        },
        !valid_status(http_response@.status) ==> final(store)@ == old(store)@ && r == Err::<HttpResponse, PublishError>(
            PublishError::Guard(GuardError::Corrupt(CodecError::InvalidStatusCode)),
        ),
{
    let mut txn = txn;
    let saved = encode(&http_response);
    proof {
        http_response.lemma_headers_fit();
        if valid_status(http_response@.status) {
            lemma_response_round_trip(http_response@);
        }
    }
    let stored = match decode(&saved) {
        Ok(resp) => resp,
        Err(e) => {
            store.rollback(txn);
            return Err(PublishError::Guard(GuardError::Corrupt(e)));
        },
    };
    let ghost before = txn@;
    txn.save_response(user_id, key, saved);
    proof {
        crate::store::lemma_with_response_settled(before, user_id@, key@, encode_response(http_response@));
    }
    store.commit(txn);
    Ok(stored)
}

} // verus!
