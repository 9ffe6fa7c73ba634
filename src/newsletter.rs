//! Publishing an issue: the idempotency guard around the outbox writer,
//! which stores the issue and fans it out to one queue row per recipient in
//! the same transaction.
use crate::codec::{
    decode, decode_response, encode, encode_response, headers_fit, SavedResponse, SavedView, lemma_response_round_trip, valid_status, CodecError, HeaderPair,
    HttpResponse, ResponseView,
};
use crate::idempotency::{
    decide_next_action, decide_spec, key_check, saved_view, ActionView, Decision, GuardError, IdempotencyKey,
};
use crate::persistence::{replay_spec, save_response, try_processing, NextAction, PublishError};
use crate::store::{
    can_enqueue, delivery_rows, has_idempotency_row, has_issue, row_index, row_matches, stored_response,
    strings_view, tables_wf, with_deliveries, with_issue, with_placeholder, with_response, IssueView,
    NewsletterIssue, Store, StoreError, TablesView, Transaction,
};
use vstd::prelude::*;
use vstd::string::StrSliceExecFns;
use vstd::string::StringSliceAdditionalSpecFns;

verus! {

/// Where the admin is sent after publishing.
pub const ADMIN_NEWSLETTERS: &'static str = "/admin/newsletters";

/// The bytes of the `location` header name.
pub open spec fn location_name() -> Seq<u8> {
    seq![108u8, 111, 99, 97, 116, 105, 111, 110]
}

/// A 303 redirect to `location`, with an empty body.
pub open spec fn see_other_view(location: Seq<u8>) -> ResponseView {
    ResponseView { status: 303, headers: seq![(location_name(), location)], body: Seq::empty() }
}

/// Builds a 303 See Other response pointing at `location`.
pub fn see_other(location: &str) -> (r: HttpResponse)
    ensures
        r@ == see_other_view(location.spec_bytes()),
{
    let name: Vec<u8> = vec![108u8, 111, 99, 97, 116, 105, 111, 110];
    let mut headers: Vec<HeaderPair> = Vec::new();
    headers.push(HeaderPair { name, value: location.as_bytes_vec() });
    let r = HttpResponse { status: 303, headers, body: Vec::new() };
    assert(r@.headers =~= see_other_view(location.spec_bytes()).headers);
    assert(r@.body =~= Seq::<u8>::empty());
    r
}

/// The publish form: the issue's contents and the client's idempotency key.
pub struct FormData {
    pub title: String,
    pub text_content: String,
    pub html_content: String,
    pub idempotency_key: String,
}

pub struct FormView {
    pub title: Seq<char>,
    pub text_content: Seq<char>,
    pub html_content: Seq<char>,
    pub idempotency_key: Seq<char>,
}

impl View for FormData {
    type V = FormView;

    open spec fn view(&self) -> FormView {
        FormView {
            title: self.title@,
            text_content: self.text_content@,
            html_content: self.html_content@,
            idempotency_key: self.idempotency_key@,
        }
    }
}

pub open spec fn issue_of(form: FormView, issue_id: Seq<char>, now: u64) -> IssueView {
    IssueView {
        issue_id,
        title: form.title,
        text_content: form.text_content,
        html_content: form.html_content,
        published_at: now,
    }
}

/// The tables after a first attempt commits: placeholder, issue, one queue
/// row per recipient, and the stored response.
pub open spec fn published(
    t: TablesView,
    user: Seq<char>,
    form: FormView,
    issue_id: Seq<char>,
    recipients: Seq<Seq<char>>,
    now: u64,
    resp: ResponseView,
) -> TablesView {
    let key = form.idempotency_key;
    with_response(
        with_deliveries(with_issue(with_placeholder(t, user, key, now), issue_of(form, issue_id, now)), issue_id, recipients),
        user,
        key,
        encode_response(resp),
    )
}

/// A publish on committed tables `t` with no transaction open: the tables
/// afterwards and the answer, where `resp` is the response a first attempt
/// computes.
pub open spec fn publish_spec(
    t: TablesView,
    user: Seq<char>,
    form: FormView,
    issue_id: Seq<char>,
    recipients: Seq<Seq<char>>,
    now: u64,
    resp: ResponseView,
) -> (TablesView, Result<ResponseView, PublishError>) {
    let key = form.idempotency_key;
    match key_check(key) {
        Err(e) => (t, Err(PublishError::InvalidKey(e))),
        Ok(_) => if has_idempotency_row(t, user, key) {
            (t, replay_spec(t, user, key))
        } else if has_issue(t.issues, issue_id) {
            (t, Err(PublishError::Storage(StoreError::DuplicateIssue)))
        } else if !can_enqueue(t.queue, issue_id, recipients) {
            (t, Err(PublishError::Storage(StoreError::DuplicateDelivery)))
        } else {
            (published(t, user, form, issue_id, recipients, now, resp), Ok(resp))
        },
    }
}

pub open spec fn result_view(r: Result<HttpResponse, PublishError>) -> Result<ResponseView, PublishError> {
    match r {
        Ok(resp) => Ok(resp@),
        Err(e) => Err(e),
    }
}

/// Relies on tsid's `create_tsid` and the `Display` of its `TSID`: a new
/// time-sortable id, written as 13 characters of Crockford's base-32
/// alphabet. It panics only on a broken environment: a `TSID_NODE_BITS`
/// above 22, or a system clock set before 2020.
#[verifier::external_body]
fn new_issue_id() -> (r: String)
    ensures
        r@.len() == 13,
{
    tsid::create_tsid().to_string()
}

/// Stores a new issue with the given id inside the transaction.
pub fn insert_newsletter_issue(
    txn: &mut Transaction,
    issue_id: &String,
    title: String,
    text_content: String,
    html_content: String,
    now: u64,
) -> (r: Result<(), StoreError>)
    requires
        old(txn).wf(),
    ensures
        final(txn).wf(),
        r is Ok <==> !has_issue(old(txn)@.issues, issue_id@),
        r is Ok ==> final(txn)@ == with_issue(
            old(txn)@,
            IssueView {
                issue_id: issue_id@,
                title: title@,
                text_content: text_content@,
                html_content: html_content@,
                published_at: now,
            },
        ),
        r is Err ==> r == Err::<(), StoreError>(StoreError::DuplicateIssue) && final(txn)@ == old(txn)@,
{
    txn.insert_issue(
        NewsletterIssue { issue_id: issue_id.clone(), title, text_content, html_content, published_at: now },
    )
}

/// Enqueues one delivery of the issue per recipient, inside the transaction.
pub fn enqueue_delivery_tasks(txn: &mut Transaction, issue_id: &String, recipients: &Vec<String>) -> (r: Result<
    (),
    StoreError,
>)
    requires
        old(txn).wf(),
        has_issue(old(txn)@.issues, issue_id@),
    ensures
        final(txn).wf(),
        r is Ok <==> can_enqueue(old(txn)@.queue, issue_id@, strings_view(recipients@)),
        r is Ok ==> final(txn)@ == with_deliveries(old(txn)@, issue_id@, strings_view(recipients@)),
        r is Err ==> r == Err::<(), StoreError>(StoreError::DuplicateDelivery) && final(txn)@ == old(txn)@,
{
    txn.enqueue_deliveries(issue_id, recipients)
}

/// Publishes an issue under a fresh id for `user_id`; see
/// `publish_with_issue_id` for everything but the id.
pub fn publish_newsletter(store: &mut Store, user_id: &String, form: FormData, recipients: &Vec<String>, now: u64) -> (r:
    Result<HttpResponse, PublishError>)
    requires
        old(store).inv(),
    ensures
        final(store).inv(),
        !old(store).is_busy() ==> !final(store).is_busy() && exists|id: Seq<char>|
            (final(store)@, result_view(r)) == publish_spec(
                old(store)@,
                user_id@,
                form@,
                id,
                strings_view(recipients@),
                now,
                see_other_view(ADMIN_NEWSLETTERS.spec_bytes()),
            ),
        old(store).is_busy() ==> final(store)@ == old(store)@ && match key_check(form@.idempotency_key) {
            Err(e) => r == Err::<HttpResponse, PublishError>(PublishError::InvalidKey(e)),
            Ok(_) => r == Err::<HttpResponse, PublishError>(PublishError::Storage(StoreError::Busy)),
        },
{
    let issue_id = new_issue_id();
    publish_with_issue_id(store, user_id, form, issue_id, recipients, now)
}

/// Publishes an issue with id `issue_id`: validates the key, then either
/// replays the stored response of (user, key) or, on a first attempt, stores
/// the issue, enqueues one delivery per recipient and stores the redirect
/// response, all in one transaction. Any failure rolls the transaction back.
pub fn publish_with_issue_id(
    store: &mut Store,
    user_id: &String,
    form: FormData,
    issue_id: String,
    recipients: &Vec<String>,
    now: u64,
) -> (r: Result<HttpResponse, PublishError>)
    requires
        old(store).inv(),
    ensures
        final(store).inv(),
        !old(store).is_busy() ==> !final(store).is_busy() && (final(store)@, result_view(r)) == publish_spec(
            old(store)@,
            user_id@,
            form@,
            issue_id@,
            strings_view(recipients@),
            now,
            see_other_view(ADMIN_NEWSLETTERS.spec_bytes()),
        ),
        old(store).is_busy() ==> final(store)@ == old(store)@ && match key_check(form@.idempotency_key) {
            Err(e) => r == Err::<HttpResponse, PublishError>(PublishError::InvalidKey(e)),
            Ok(_) => r == Err::<HttpResponse, PublishError>(PublishError::Storage(StoreError::Busy)),
        },
{
    let ghost t = store@;
    let ghost fv = form@;
    proof {
        store.lemma_inv();
    }
    let FormData { title, text_content, html_content, idempotency_key } = form;
    let key = match IdempotencyKey::try_from(idempotency_key) {
        Ok(k) => k,
        Err(e) => {
            return Err(PublishError::InvalidKey(e));
        },
    };
    let mut txn = match try_processing(store, &key, user_id, now) {
        Ok(NextAction::StartProcessing(txn)) => txn,
        Ok(NextAction::ReturnSavedResponse(saved)) => {
            return Ok(saved);
        },
        Err(e) => {
            return Err(e);
        },
    };
    let ghost t1 = txn@;
    let ghost iv = issue_of(fv, issue_id@, now);
    if let Err(e) = insert_newsletter_issue(&mut txn, &issue_id, title, text_content, html_content, now) {
        store.rollback(txn);
        return Err(PublishError::Storage(e));
    }
    assert(has_issue(txn@.issues, issue_id@)) by {
        assert(txn@.issues[t1.issues.len() as int].issue_id == issue_id@);
    }
    if let Err(e) = enqueue_delivery_tasks(&mut txn, &issue_id, recipients) {
        store.rollback(txn);
        return Err(PublishError::Storage(e));
    }
    proof {
        let rs = strings_view(recipients@);
        assert forall|i: int| 0 <= i < txn@.queue.len() implies !(#[trigger] txn@.queue[i].claimed) by {
            assert(txn@.queue == t.queue + delivery_rows(issue_id@, rs));
            if i >= t.queue.len() {
                assert(txn@.queue[i] == delivery_rows(issue_id@, rs)[i - t.queue.len()]);
            }
        }
    }
    let response = see_other(ADMIN_NEWSLETTERS);
    save_response(store, txn, &key, user_id, response)
}

/// Where a publish stands, for callers that do the storage work themselves.
pub enum PublishState {
    /// The placeholder insert for (user, key) is running.
    Guarding,
    /// The (user, key) row existed; its response columns are being read.
    Replaying,
    /// First attempt: the issue is being stored.
    StoringIssue,
    /// The deliveries are being enqueued.
    Enqueuing,
    /// These response columns are being written and committed.
    Saving(SavedResponse),
    Done,
}

/// What the storage work reports back.
pub enum PublishEvent {
    /// How many rows the placeholder insert added.
    Inserted(u64),
    /// The existing row's response columns, `None` while in progress.
    SavedColumns(Option<SavedResponse>),
    IssueStored(Result<(), StoreError>),
    Enqueued(Result<(), StoreError>),
    ResponseSaved(Result<(), StoreError>),
}

/// What the storage work does next.
pub enum PublishAction {
    /// Roll the transaction back and read the row's response columns.
    LookUpSaved,
    /// Store the issue in the open transaction.
    InsertIssue,
    /// Enqueue one delivery per confirmed recipient in the open transaction.
    Enqueue,
    /// Write these columns into the (user, key) row and commit.
    SaveResponse(SavedResponse),
    /// Answer with this response.
    Respond(HttpResponse),
    /// Roll back whatever is open and answer with this error.
    Fail(PublishError),
}

/// The columns stored for the redirect a first attempt answers with.
pub open spec fn redirect_columns() -> SavedView {
    encode_response(see_other_view(ADMIN_NEWSLETTERS.spec_bytes()))
}

/// The transition `publish_next(s, e)` makes.
pub open spec fn publish_transition(s: PublishState, e: PublishEvent, r: (PublishState, PublishAction)) -> bool {
    match (s, e) {
        (PublishState::Guarding, PublishEvent::Inserted(n)) => if n > 0 {
            r.0 is StoringIssue && r.1 is InsertIssue
        } else {
            r.0 is Replaying && r.1 is LookUpSaved
        },
        (PublishState::Replaying, PublishEvent::SavedColumns(saved)) => r.0 is Done && match decide_spec(
            false,
            saved_view(saved),
        ) {
            Ok(ActionView::ReturnSavedResponse(resp)) => r.1 matches PublishAction::Respond(x) && x@ == resp,
            Ok(ActionView::StartProcessing) => false,
            Err(g) => r.1 matches PublishAction::Fail(err) && err == PublishError::Guard(g),
        },
        (PublishState::StoringIssue, PublishEvent::IssueStored(res)) => match res {
            Ok(_) => r.0 is Enqueuing && r.1 is Enqueue,
            Err(se) => r.0 is Done && (r.1 matches PublishAction::Fail(err) && err == PublishError::Storage(se)),
        },
        (PublishState::Enqueuing, PublishEvent::Enqueued(res)) => match res {
            Ok(_) => {
                &&& r.0 matches PublishState::Saving(sv) && sv@ == redirect_columns()
                &&& r.1 matches PublishAction::SaveResponse(sv) && sv@ == redirect_columns()
            },
            Err(se) => r.0 is Done && (r.1 matches PublishAction::Fail(err) && err == PublishError::Storage(se)),
        },
        (PublishState::Saving(sv), PublishEvent::ResponseSaved(res)) => r.0 is Done && match res {
            Ok(_) => match decode_response(sv@) {
                Ok(resp) => r.1 matches PublishAction::Respond(x) && x@ == resp,
                Err(ce) => r.1 matches PublishAction::Fail(err) && err == PublishError::Guard(GuardError::Corrupt(ce)),
            },
            Err(se) => r.1 matches PublishAction::Fail(err) && err == PublishError::Storage(se),
        },
        _ => r.0 is Done && (r.1 matches PublishAction::Fail(err) && err == PublishError::Storage(
            StoreError::Unavailable,
        )),
    }
}

/// One decision of the publish sequence: a new placeholder row starts the
/// first attempt (store the issue, enqueue the deliveries, store the
/// redirect and answer with it as rebuilt from the stored columns); an
/// existing row is replayed from its columns, or fails when they are empty
/// or unreadable; any storage failure fails the publish.
pub fn publish_next(s: PublishState, e: PublishEvent) -> (r: (PublishState, PublishAction))
    ensures
        publish_transition(s, e, r),
{
    match (s, e) {
        (PublishState::Guarding, PublishEvent::Inserted(n)) => {
            if n > 0 {
                (PublishState::StoringIssue, PublishAction::InsertIssue)
            } else {
                (PublishState::Replaying, PublishAction::LookUpSaved)
            }
        },
        (PublishState::Replaying, PublishEvent::SavedColumns(saved)) => match decide_next_action(0, &saved) {
            Ok(Decision::ReturnSavedResponse(resp)) => (PublishState::Done, PublishAction::Respond(resp)),
            Ok(Decision::StartProcessing) => (
                PublishState::Done,
                PublishAction::Fail(PublishError::Guard(GuardError::NoSavedResponse)),
            ),
            Err(g) => (PublishState::Done, PublishAction::Fail(PublishError::Guard(g))),
        },
        (PublishState::StoringIssue, PublishEvent::IssueStored(res)) => match res {
            Ok(_) => (PublishState::Enqueuing, PublishAction::Enqueue),
            Err(se) => (PublishState::Done, PublishAction::Fail(PublishError::Storage(se))),
        },
        (PublishState::Enqueuing, PublishEvent::Enqueued(res)) => match res {
            Ok(_) => {
                let columns = encode(&see_other(ADMIN_NEWSLETTERS));
                let kept = encode(&see_other(ADMIN_NEWSLETTERS));
                (PublishState::Saving(kept), PublishAction::SaveResponse(columns))
            },
            Err(se) => (PublishState::Done, PublishAction::Fail(PublishError::Storage(se))),
        },
        (PublishState::Saving(sv), PublishEvent::ResponseSaved(res)) => match res {
            Ok(_) => match decode(&sv) {
                Ok(resp) => (PublishState::Done, PublishAction::Respond(resp)),
                Err(ce) => (PublishState::Done, PublishAction::Fail(PublishError::Guard(GuardError::Corrupt(ce)))),
            },
            Err(se) => (PublishState::Done, PublishAction::Fail(PublishError::Storage(se))),
        },
        _ => (PublishState::Done, PublishAction::Fail(PublishError::Storage(StoreError::Unavailable))),
    }
}

proof fn lemma_only_new_row(t: TablesView, user: Seq<char>, key: Seq<char>, u: TablesView, row: int)
    requires
        !has_idempotency_row(t, user, key),
        row == t.idempotency.len(),
        u.idempotency.len() == t.idempotency.len() + 1,
        forall|i: int| 0 <= i < t.idempotency.len() ==> u.idempotency[i] == t.idempotency[i],
        row_matches(u.idempotency[row], user, key),
    ensures
        has_idempotency_row(u, user, key),
        row_index(u, user, key) == row,
{
    assert(u.idempotency[row].user_id == user);
    let j = row_index(u, user, key);
    if j != row {
        assert(u.idempotency[j] == t.idempotency[j]);
        assert(t.idempotency[j].user_id == user);
    }
}

/// After a first attempt commits, the (user, key) row holds the encoded
/// response.
proof fn lemma_published_response(
    t: TablesView,
    user: Seq<char>,
    form: FormView,
    issue_id: Seq<char>,
    recipients: Seq<Seq<char>>,
    now: u64,
    resp: ResponseView,
)
    requires
        !has_idempotency_row(t, user, form.idempotency_key),
    ensures
        has_idempotency_row(published(t, user, form, issue_id, recipients, now, resp), user, form.idempotency_key),
        stored_response(published(t, user, form, issue_id, recipients, now, resp), user, form.idempotency_key) == Some(
            encode_response(resp),
        ),
{
    let key = form.idempotency_key;
    let n = t.idempotency.len() as int;
    let t3 = with_deliveries(
        with_issue(with_placeholder(t, user, key, now), issue_of(form, issue_id, now)),
        issue_id,
        recipients,
    );
    lemma_only_new_row(t, user, key, t3, n);
    let t4 = published(t, user, form, issue_id, recipients, now, resp);
    assert(t4.idempotency == t3.idempotency.update(n, t4.idempotency[n]));
    lemma_only_new_row(t, user, key, t4, n);
}

/// Publishing twice with the same user and idempotency key: when the first
/// call succeeds, the second changes no table (no second fan-out) and
/// answers with exactly the response the first returned.
pub proof fn lemma_publish_idempotent(
    t: TablesView,
    user: Seq<char>,
    first: FormView,
    second: FormView,
    id1: Seq<char>,
    id2: Seq<char>,
    recipients1: Seq<Seq<char>>,
    recipients2: Seq<Seq<char>>,
    now1: u64,
    now2: u64,
    resp1: ResponseView,
    resp2: ResponseView,
)
    requires
        tables_wf(t),
        first.idempotency_key == second.idempotency_key,
        valid_status(resp1.status),
        headers_fit(resp1.headers),
    ensures
        ({
            let (t1, o1) = publish_spec(t, user, first, id1, recipients1, now1, resp1);
            let (t2, o2) = publish_spec(t1, user, second, id2, recipients2, now2, resp2);
            o1 is Ok ==> t2 == t1 && o2 == o1
        }),
{
    let key = first.idempotency_key;
    let (t1, o1) = publish_spec(t, user, first, id1, recipients1, now1, resp1);
    if o1 is Ok && !has_idempotency_row(t, user, key) {
        lemma_published_response(t, user, first, id1, recipients1, now1, resp1);
        lemma_response_round_trip(resp1);
        assert(decode_response(encode_response(resp1)) == Ok::<ResponseView, CodecError>(resp1));
    }
}

/// A publish that fails leaves every table as it was; one that performs a
/// first attempt adds exactly the issue and one queue row per recipient.
pub proof fn lemma_publish_all_or_nothing(
    t: TablesView,
    user: Seq<char>,
    form: FormView,
    issue_id: Seq<char>,
    recipients: Seq<Seq<char>>,
    now: u64,
    resp: ResponseView,
)
    ensures
        ({
            let (t1, o) = publish_spec(t, user, form, issue_id, recipients, now, resp);
            &&& o is Err ==> t1 == t
            &&& o is Ok && !has_idempotency_row(t, user, form.idempotency_key) ==> {
                &&& t1.issues == t.issues.push(issue_of(form, issue_id, now))
                &&& t1.queue == t.queue + delivery_rows(issue_id, recipients)
            }
            &&& o is Ok && has_idempotency_row(t, user, form.idempotency_key) ==> t1 == t
        }),
{
}

} // verus!
