//! The durable tables (idempotency rows, newsletter issues, the delivery
//! queue), their constraints, and single-writer transactions over them.
//!
//! A transaction works on its own copy of the tables; commit publishes the
//! copy, rollback drops it. While one transaction is open the store refuses
//! to begin another, which is what makes a held transaction a lock.
use crate::codec::{copy_range, SavedResponse, SavedView};
use crate::idempotency::{saved_view, IdempotencyKey};
use vstd::prelude::*;

verus! {

/// One row of the idempotency table; `response` stays `None` until the
/// first attempt has completed.
pub struct IdempotencyRow {
    pub user_id: String,
    pub idempotency_key: String,
    pub created_at: u64,
    pub response: Option<SavedResponse>,
}

pub struct IdempotencyRowView {
    pub user_id: Seq<char>,
    pub key: Seq<char>,
    pub created_at: u64,
    pub response: Option<SavedView>,
}

impl View for IdempotencyRow {
    type V = IdempotencyRowView;

    open spec fn view(&self) -> IdempotencyRowView {
        IdempotencyRowView {
            user_id: self.user_id@,
            key: self.idempotency_key@,
            created_at: self.created_at,
            response: saved_view(self.response),
        }
    }
}

/// A published newsletter issue; immutable once stored.
pub struct NewsletterIssue {
    pub issue_id: String,
    pub title: String,
    pub text_content: String,
    pub html_content: String,
    pub published_at: u64,
}

pub struct IssueView {
    pub issue_id: Seq<char>,
    pub title: Seq<char>,
    pub text_content: Seq<char>,
    pub html_content: Seq<char>,
    pub published_at: u64,
}

impl View for NewsletterIssue {
    type V = IssueView;

    open spec fn view(&self) -> IssueView {
        IssueView {
            issue_id: self.issue_id@,
            title: self.title@,
            text_content: self.text_content@,
            html_content: self.html_content@,
            published_at: self.published_at,
        }
    }
}

/// One pending delivery of an issue to one recipient.
pub struct QueueItem {
    pub issue_id: String,
    pub subscriber_email: String,
    pub claimed: bool,
}

pub struct QueueView {
    pub issue_id: Seq<char>,
    pub email: Seq<char>,
    pub claimed: bool,
}

impl View for QueueItem {
    type V = QueueView;

    open spec fn view(&self) -> QueueView {
        QueueView { issue_id: self.issue_id@, email: self.subscriber_email@, claimed: self.claimed }
    }
}

/// The three tables.
pub struct Tables {
    pub idempotency: Vec<IdempotencyRow>,
    pub issues: Vec<NewsletterIssue>,
    pub queue: Vec<QueueItem>,
}

pub struct TablesView {
    pub idempotency: Seq<IdempotencyRowView>,
    pub issues: Seq<IssueView>,
    pub queue: Seq<QueueView>,
}

impl View for Tables {
    type V = TablesView;

    open spec fn view(&self) -> TablesView {
        TablesView {
            idempotency: self.idempotency@.map_values(|r: IdempotencyRow| r@),
            issues: self.issues@.map_values(|r: NewsletterIssue| r@),
            queue: self.queue@.map_values(|r: QueueItem| r@),
        }
    }
}

/// Errors that the store itself raises.
#[derive(Debug, PartialEq, Eq, Structural, Clone, Copy)]
pub enum StoreError {
    /// Another transaction holds the write lock.
    Busy,
    /// The store failed an operation for a reason of its own (a lost
    /// connection, a timeout).
    Unavailable,
    /// An issue with this id is already stored.
    DuplicateIssue,
    /// A delivery row for this (issue, recipient) pair already exists.
    DuplicateDelivery,
    /// The referenced issue is not stored.
    IssueNotFound,
}

pub open spec fn has_idempotency_row(t: TablesView, user: Seq<char>, key: Seq<char>) -> bool {
    exists|i: int|
        0 <= i < t.idempotency.len() && #[trigger] t.idempotency[i].user_id == user
            && t.idempotency[i].key == key
}

pub open spec fn has_issue(issues: Seq<IssueView>, id: Seq<char>) -> bool {
    exists|j: int| 0 <= j < issues.len() && #[trigger] issues[j].issue_id == id
}

pub open spec fn has_delivery(q: Seq<QueueView>, id: Seq<char>, email: Seq<char>) -> bool {
    exists|k: int| 0 <= k < q.len() && #[trigger] q[k].issue_id == id && q[k].email == email
}

/// The schema's constraints: one idempotency row per (user, key), one issue
/// per id, one queue row per (issue, recipient), and every queue row refers
/// to a stored issue.
pub open spec fn tables_wf(t: TablesView) -> bool {
    &&& forall|i: int, j: int|
        0 <= i < j < t.idempotency.len() ==> !(#[trigger] t.idempotency[i].user_id
            == #[trigger] t.idempotency[j].user_id && t.idempotency[i].key == t.idempotency[j].key)
    &&& forall|i: int, j: int|
        0 <= i < j < t.issues.len() ==> #[trigger] t.issues[i].issue_id != #[trigger] t.issues[j].issue_id
    &&& forall|i: int, j: int|
        0 <= i < j < t.queue.len() ==> !(#[trigger] t.queue[i].issue_id == #[trigger] t.queue[j].issue_id
            && t.queue[i].email == t.queue[j].email)
    &&& forall|i: int| 0 <= i < t.queue.len() ==> has_issue(t.issues, #[trigger] t.queue[i].issue_id)
}

/// No queue row is claimed: the state every committed transaction leaves.
pub open spec fn settled(t: TablesView) -> bool {
    forall|i: int| 0 <= i < t.queue.len() ==> !(#[trigger] t.queue[i].claimed)
}

pub open spec fn empty_tables() -> TablesView {
    TablesView { idempotency: Seq::empty(), issues: Seq::empty(), queue: Seq::empty() }
}

fn copy_string(s: &String) -> (r: String)
    ensures
        r@ == s@,
{
    s.clone()
}

fn copy_bytes(b: &Vec<u8>) -> (r: Vec<u8>)
    ensures
        r@ == b@,
{
    let r = copy_range(b, 0, b.len());
    assert(b@.subrange(0, b@.len() as int) =~= b@);
    r
}

fn copy_saved(s: &Option<SavedResponse>) -> (r: Option<SavedResponse>)
    ensures
        saved_view(r) == saved_view(*s),
{
    match s {
        Some(x) => Some(
            SavedResponse { status_code: x.status_code, headers: copy_bytes(&x.headers), body: copy_bytes(&x.body) },
        ),
        None => None,
    }
}

impl IdempotencyRow {
    pub fn copy(&self) -> (r: IdempotencyRow)
        ensures
            r@ == self@,
    {
        IdempotencyRow {
            user_id: copy_string(&self.user_id),
            idempotency_key: copy_string(&self.idempotency_key),
            created_at: self.created_at,
            response: copy_saved(&self.response),
        }
    }
}

impl NewsletterIssue {
    pub fn copy(&self) -> (r: NewsletterIssue)
        ensures
            r@ == self@,
    {
        NewsletterIssue {
            issue_id: copy_string(&self.issue_id),
            title: copy_string(&self.title),
            text_content: copy_string(&self.text_content),
            html_content: copy_string(&self.html_content),
            published_at: self.published_at,
        }
    }
}

impl QueueItem {
    pub fn copy(&self) -> (r: QueueItem)
        ensures
            r@ == self@,
    {
        QueueItem {
            issue_id: copy_string(&self.issue_id),
            subscriber_email: copy_string(&self.subscriber_email),
            claimed: self.claimed,
        }
    }
}

impl Tables {
    pub fn new() -> (r: Tables)
        ensures
            r@ == empty_tables(),
    {
        let r = Tables { idempotency: Vec::new(), issues: Vec::new(), queue: Vec::new() };
        assert(r@.idempotency =~= Seq::empty());
        assert(r@.issues =~= Seq::empty());
        assert(r@.queue =~= Seq::empty());
        r
    }

    pub fn copy(&self) -> (r: Tables)
        ensures
            r@ == self@,
    {
        let mut idempotency: Vec<IdempotencyRow> = Vec::new();
        let mut i: usize = 0;
        while i < self.idempotency.len()
            invariant
                i <= self.idempotency@.len(),
                idempotency@.len() == i,
                forall|j: int| 0 <= j < i ==> (#[trigger] idempotency@[j])@ == self.idempotency@[j]@,
            decreases self.idempotency@.len() - i,
        {
            idempotency.push(self.idempotency[i].copy());
            i = i + 1;
        }
        let mut issues: Vec<NewsletterIssue> = Vec::new();
        let mut i: usize = 0;
        while i < self.issues.len()
            invariant
                i <= self.issues@.len(),
                issues@.len() == i,
                forall|j: int| 0 <= j < i ==> (#[trigger] issues@[j])@ == self.issues@[j]@,
            decreases self.issues@.len() - i,
        {
            issues.push(self.issues[i].copy());
            i = i + 1;
        }
        let mut queue: Vec<QueueItem> = Vec::new();
        let mut i: usize = 0;
        while i < self.queue.len()
            invariant
                i <= self.queue@.len(),
                queue@.len() == i,
                forall|j: int| 0 <= j < i ==> (#[trigger] queue@[j])@ == self.queue@[j]@,
            decreases self.queue@.len() - i,
        {
            queue.push(self.queue[i].copy());
            i = i + 1;
        }
        let r = Tables { idempotency, issues, queue };
        assert(r@.idempotency =~= self@.idempotency);
        assert(r@.issues =~= self@.issues);
        assert(r@.queue =~= self@.queue);
        r
    }
}


pub open spec fn row_matches(r: IdempotencyRowView, user: Seq<char>, key: Seq<char>) -> bool {
    r.user_id == user && r.key == key
}

/// The index of the (user, key) row; meaningful when the row exists.
pub open spec fn row_index(t: TablesView, user: Seq<char>, key: Seq<char>) -> int {
    choose|i: int| 0 <= i < t.idempotency.len() && row_matches(#[trigger] t.idempotency[i], user, key)
}

/// The response columns of the (user, key) row: `None` when there is no row
/// or its first attempt has not completed.
pub open spec fn stored_response(t: TablesView, user: Seq<char>, key: Seq<char>) -> Option<SavedView> {
    if has_idempotency_row(t, user, key) {
        t.idempotency[row_index(t, user, key)].response
    } else {
        None
    }
}

/// The tables after the placeholder insert of a new (user, key) row.
pub open spec fn with_placeholder(t: TablesView, user: Seq<char>, key: Seq<char>, now: u64) -> TablesView {
    TablesView {
        idempotency: t.idempotency.push(IdempotencyRowView { user_id: user, key, created_at: now, response: None }),
        issues: t.issues,
        queue: t.queue,
    }
}

/// The tables after the (user, key) row's response columns are filled in.
pub open spec fn with_response(t: TablesView, user: Seq<char>, key: Seq<char>, saved: SavedView) -> TablesView {
    if has_idempotency_row(t, user, key) {
        let i = row_index(t, user, key);
        TablesView {
            idempotency: t.idempotency.update(
                i,
                IdempotencyRowView {
                    user_id: user,
                    key,
                    created_at: t.idempotency[i].created_at,
                    response: Some(saved),
                },
            ),
            issues: t.issues,
            queue: t.queue,
        }
    } else {
        t
    }
}

pub open spec fn with_issue(t: TablesView, issue: IssueView) -> TablesView {
    TablesView { idempotency: t.idempotency, issues: t.issues.push(issue), queue: t.queue }
}

pub open spec fn strings_view(v: Seq<String>) -> Seq<Seq<char>> {
    v.map_values(|s: String| s@)
}

/// One unclaimed queue row per recipient, in the recipients' order.
pub open spec fn delivery_rows(id: Seq<char>, recipients: Seq<Seq<char>>) -> Seq<QueueView> {
    recipients.map_values(|e: Seq<char>| QueueView { issue_id: id, email: e, claimed: false })
}

/// The recipients can all be enqueued for `id`: none is listed twice and
/// none already has a row for that issue.
pub open spec fn can_enqueue(q: Seq<QueueView>, id: Seq<char>, recipients: Seq<Seq<char>>) -> bool {
    &&& forall|i: int, j: int| 0 <= i < j < recipients.len() ==> #[trigger] recipients[i] != #[trigger] recipients[j]
    &&& forall|i: int| 0 <= i < recipients.len() ==> !has_delivery(q, id, #[trigger] recipients[i])
}

pub open spec fn with_deliveries(t: TablesView, id: Seq<char>, recipients: Seq<Seq<char>>) -> TablesView {
    TablesView { idempotency: t.idempotency, issues: t.issues, queue: t.queue + delivery_rows(id, recipients) }
}

pub open spec fn without_first_delivery(t: TablesView) -> TablesView {
    TablesView { idempotency: t.idempotency, issues: t.issues, queue: t.queue.drop_first() }
}

pub proof fn lemma_with_response_settled(t: TablesView, user: Seq<char>, key: Seq<char>, saved: SavedView)
    ensures
        with_response(t, user, key, saved).queue == t.queue,
        settled(t) ==> settled(with_response(t, user, key, saved)),
{
}

proof fn lemma_row_index(t: TablesView, user: Seq<char>, key: Seq<char>, i: int)
    requires
        tables_wf(t),
        0 <= i < t.idempotency.len(),
        row_matches(t.idempotency[i], user, key),
    ensures
        has_idempotency_row(t, user, key),
        row_index(t, user, key) == i,
{
    assert(row_matches(t.idempotency[i], user, key));
    let j = row_index(t, user, key);
    if j < i {
        assert(!(t.idempotency[j].user_id == t.idempotency[i].user_id && t.idempotency[j].key == t.idempotency[i].key));
    } else if i < j {
        assert(!(t.idempotency[i].user_id == t.idempotency[j].user_id && t.idempotency[i].key == t.idempotency[j].key));
    }
}

fn find_idempotency_row(rows: &Vec<IdempotencyRow>, user: &String, key: &String) -> (r: Option<usize>)
    ensures
        match r {
            Some(i) => i < rows@.len() && rows@[i as int].user_id@ == user@ && rows@[i as int].idempotency_key@
                == key@,
            None => forall|i: int|
                0 <= i < rows@.len() ==> !(#[trigger] rows@[i].user_id@ == user@ && rows@[i].idempotency_key@
                    == key@),
        },
{
    let mut i: usize = 0;
    while i < rows.len()
        invariant
            i <= rows@.len(),
            forall|j: int|
                0 <= j < i ==> !(#[trigger] rows@[j].user_id@ == user@ && rows@[j].idempotency_key@ == key@),
        decreases rows@.len() - i,
    {
        if rows[i].user_id == *user && rows[i].idempotency_key == *key {
            return Some(i);
        }
        i = i + 1;
    }
    None
}

fn find_issue(issues: &Vec<NewsletterIssue>, id: &String) -> (r: Option<usize>)
    ensures
        match r {
            Some(i) => i < issues@.len() && issues@[i as int].issue_id@ == id@,
            None => forall|i: int| 0 <= i < issues@.len() ==> (#[trigger] issues@[i]).issue_id@ != id@,
        },
{
    let mut i: usize = 0;
    while i < issues.len()
        invariant
            i <= issues@.len(),
            forall|j: int| 0 <= j < i ==> (#[trigger] issues@[j]).issue_id@ != id@,
        decreases issues@.len() - i,
    {
        if issues[i].issue_id == *id {
            return Some(i);
        }
        i = i + 1;
    }
    None
}

fn find_delivery(queue: &Vec<QueueItem>, id: &String, email: &String) -> (r: Option<usize>)
    ensures
        match r {
            Some(i) => i < queue@.len() && queue@[i as int].issue_id@ == id@ && queue@[i as int].subscriber_email@
                == email@,
            None => forall|i: int|
                0 <= i < queue@.len() ==> !(#[trigger] queue@[i].issue_id@ == id@
                    && queue@[i].subscriber_email@ == email@),
        },
{
    let mut i: usize = 0;
    while i < queue.len()
        invariant
            i <= queue@.len(),
            forall|j: int|
                0 <= j < i ==> !(#[trigger] queue@[j].issue_id@ == id@ && queue@[j].subscriber_email@ == email@),
        decreases queue@.len() - i,
    {
        if queue[i].issue_id == *id && queue[i].subscriber_email == *email {
            return Some(i);
        }
        i = i + 1;
    }
    None
}

/// An open transaction: a private working copy of the tables.
pub struct Transaction {
    tables: Tables,
}

impl View for Transaction {
    type V = TablesView;

    closed spec fn view(&self) -> TablesView {
        self.tables@
    }
}

impl Transaction {
    pub closed spec fn wf(&self) -> bool {
        tables_wf(self.tables@)
    }

    /// Inserts the placeholder row for (user, key) unless one exists;
    /// returns whether a row was added.
    pub fn insert_placeholder(&mut self, user_id: &String, key: &IdempotencyKey, now: u64) -> (inserted: bool)
        requires
            old(self).wf(),
        ensures
            final(self).wf(),
            inserted == !has_idempotency_row(old(self)@, user_id@, key@),
            final(self)@ == (if inserted {
                with_placeholder(old(self)@, user_id@, key@, now)
            } else {
                old(self)@
            }),
    {
        let k = key.to_string();
        match find_idempotency_row(&self.tables.idempotency, user_id, &k) {
            Some(i) => {
                proof {
                    assert(row_matches(self@.idempotency[i as int], user_id@, key@));
                }
                false
            },
            None => {
                let ghost before = self@;
                proof {
                    assert forall|i: int| 0 <= i < before.idempotency.len() implies !row_matches(
                        #[trigger] before.idempotency[i],
                        user_id@,
                        key@,
                    ) by {
                        assert(before.idempotency[i] == self.tables.idempotency@[i]@);
                    }
                }
                self.tables.idempotency.push(
                    IdempotencyRow {
                        user_id: copy_string(user_id),
                        idempotency_key: k,
                        created_at: now,
                        response: None,
                    },
                );
                proof {
                    assert(self@.idempotency =~= with_placeholder(before, user_id@, key@, now).idempotency);
                    assert(self@ == with_placeholder(before, user_id@, key@, now));
                    assert forall|i: int, j: int|
                        0 <= i < j < self@.idempotency.len() implies !(#[trigger] self@.idempotency[i].user_id
                        == #[trigger] self@.idempotency[j].user_id && self@.idempotency[i].key
                        == self@.idempotency[j].key) by {
                        if j == before.idempotency.len() {
                            assert(!row_matches(before.idempotency[i], user_id@, key@));
                        }
                    }
                }
                true
            },
        }
    }

    /// Fills in the response columns of the (user, key) row.
    pub fn save_response(&mut self, user_id: &String, key: &IdempotencyKey, saved: SavedResponse)
        requires
            old(self).wf(),
        ensures
            final(self).wf(),
            final(self)@ == with_response(old(self)@, user_id@, key@, saved@),
    {
        let k = key.to_string();
        match find_idempotency_row(&self.tables.idempotency, user_id, &k) {
            Some(i) => {
                let ghost before = self@;
                proof {
                    assert(before.idempotency[i as int] == self.tables.idempotency@[i as int]@);
                    lemma_row_index(before, user_id@, key@, i as int);
                }
                self.tables.idempotency[i].response = Some(saved);
                proof {
                    assert(self@.idempotency =~= with_response(before, user_id@, key@, saved@).idempotency);
                }
            },
            None => {
                proof {
                    assert forall|i: int| 0 <= i < self@.idempotency.len() implies !row_matches(
                        #[trigger] self@.idempotency[i],
                        user_id@,
                        key@,
                    ) by {
                        assert(self@.idempotency[i] == self.tables.idempotency@[i]@);
                    }
                }
            },
        }
    }

    /// Stores a new issue; fails when its id is taken.
    pub fn insert_issue(&mut self, issue: NewsletterIssue) -> (r: Result<(), StoreError>)
        requires
            old(self).wf(),
        ensures
            final(self).wf(),
            r is Ok <==> !has_issue(old(self)@.issues, issue@.issue_id),
            r is Ok ==> final(self)@ == with_issue(old(self)@, issue@),
            r is Err ==> r == Err::<(), StoreError>(StoreError::DuplicateIssue) && final(self)@ == old(self)@,
    {
        match find_issue(&self.tables.issues, &issue.issue_id) {
            Some(i) => {
                assert(self@.issues[i as int].issue_id == issue@.issue_id);
                Err(StoreError::DuplicateIssue)
            },
            None => {
                let ghost before = self@;
                let ghost iv = issue@;
                proof {
                    assert forall|j: int| 0 <= j < before.issues.len() implies #[trigger] before.issues[j].issue_id
                        != iv.issue_id by {
                        assert(before.issues[j] == self.tables.issues@[j]@);
                    }
                }
                self.tables.issues.push(issue);
                proof {
                    assert(self@.issues =~= before.issues.push(iv));
                    assert forall|i: int, j: int|
                        0 <= i < j < self@.issues.len() implies #[trigger] self@.issues[i].issue_id
                        != #[trigger] self@.issues[j].issue_id by {
                        if j == before.issues.len() {
                            assert(before.issues[i].issue_id != iv.issue_id);
                        }
                    }
                    assert(self@.queue == before.queue);
                    assert forall|i: int| 0 <= i < self@.queue.len() implies has_issue(
                        self@.issues,
                        #[trigger] self@.queue[i].issue_id,
                    ) by {
                        assert(has_issue(before.issues, before.queue[i].issue_id));
                        let j = choose|j: int|
                            0 <= j < before.issues.len() && #[trigger] before.issues[j].issue_id
                                == before.queue[i].issue_id;
                        assert(self@.issues[j] == before.issues[j]);
                        assert(self@.issues[j].issue_id == self@.queue[i].issue_id);
                    }
                }
                Ok(())
            },
        }
    }

    /// Adds one unclaimed queue row per recipient for issue `id`. Recipients
    /// are not deduplicated: a pair that would appear twice fails the whole
    /// call and leaves the transaction as it was.
    pub fn enqueue_deliveries(&mut self, id: &String, recipients: &Vec<String>) -> (r: Result<(), StoreError>)
        requires
            old(self).wf(),
            has_issue(old(self)@.issues, id@),
        ensures
            final(self).wf(),
            r is Ok <==> can_enqueue(old(self)@.queue, id@, strings_view(recipients@)),
            r is Ok ==> final(self)@ == with_deliveries(old(self)@, id@, strings_view(recipients@)),
            r is Err ==> r == Err::<(), StoreError>(StoreError::DuplicateDelivery) && final(self)@ == old(self)@,
    {
        let ghost rs = strings_view(recipients@);
        let ghost before = self@;
        let n = recipients.len();
        let mut i: usize = 0;
        while i < n
            invariant
                n == recipients@.len(),
                rs == strings_view(recipients@),
                before == self@,
                tables_wf(before),
                i <= n,
                forall|a: int| 0 <= a < i ==> !has_delivery(before.queue, id@, #[trigger] rs[a]),
                forall|a: int, b: int| 0 <= a < b < i ==> #[trigger] rs[a] != #[trigger] rs[b],
            decreases n - i,
        {
            match find_delivery(&self.tables.queue, id, &recipients[i]) {
                Some(k) => {
                    assert(before.queue[k as int] == self.tables.queue@[k as int]@);
                    assert(rs[i as int] == recipients@[i as int]@);
                    assert(before.queue[k as int].issue_id == id@ && before.queue[k as int].email == rs[i as int]);
                    assert(has_delivery(before.queue, id@, rs[i as int]));
                    return Err(StoreError::DuplicateDelivery);
                },
                None => {
                    assert(rs[i as int] == recipients@[i as int]@);
                    assert forall|k: int| 0 <= k < before.queue.len() implies !(#[trigger] before.queue[k].issue_id
                        == id@ && before.queue[k].email == rs[i as int]) by {
                        assert(before.queue[k] == self.tables.queue@[k]@);
                    }
                },
            }
            let mut j: usize = 0;
            while j < i
                invariant
                    n == recipients@.len(),
                    rs == strings_view(recipients@),
                    j <= i < n,
                    before == self@,
                    tables_wf(before),
                    forall|a: int| 0 <= a < j ==> #[trigger] rs[a] != rs[i as int],
                decreases i - j,
            {
                if recipients[j] == recipients[i] {
                    assert(rs[j as int] == recipients@[j as int]@);
                    assert(rs[i as int] == recipients@[i as int]@);
                    return Err(StoreError::DuplicateDelivery);
                }
                j = j + 1;
            }
            i = i + 1;
        }
        assert(can_enqueue(before.queue, id@, rs));
        let mut i: usize = 0;
        while i < n
            invariant
                n == recipients@.len(),
                rs == strings_view(recipients@),
                i <= n,
                self.tables.idempotency@ == old(self).tables.idempotency@,
                self.tables.issues@ == old(self).tables.issues@,
                self@.queue =~= before.queue + delivery_rows(id@, rs.take(i as int)),
            decreases n - i,
        {
            let ghost q0 = self@.queue;
            self.tables.queue.push(
                QueueItem { issue_id: copy_string(id), subscriber_email: copy_string(&recipients[i]), claimed: false },
            );
            proof {
                let row = QueueView { issue_id: id@, email: rs[i as int], claimed: false };
                assert(rs[i as int] == recipients@[i as int]@);
                assert(self@.queue =~= q0.push(row));
                assert(rs.take(i + 1) =~= rs.take(i as int).push(rs[i as int]));
                assert(delivery_rows(id@, rs.take(i + 1)) =~= delivery_rows(id@, rs.take(i as int)).push(row));
            }
            i = i + 1;
        }
        assert(rs.take(n as int) =~= rs);
        proof {
            let q = self@.queue;
            let m = before.queue.len();
            assert(q =~= before.queue + delivery_rows(id@, rs));
            assert forall|a: int, b: int| 0 <= a < b < q.len() implies !(#[trigger] q[a].issue_id
                == #[trigger] q[b].issue_id && q[a].email == q[b].email) by {
                if b >= m && a < m {
                    assert(q[b].email == rs[b - m]);
                    assert(!has_delivery(before.queue, id@, rs[b - m]));
                    assert(q[a] == before.queue[a]);
                } else if a >= m {
                    assert(rs[a - m] != rs[b - m]);
                }
            }
            assert forall|a: int| 0 <= a < q.len() implies has_issue(self@.issues, #[trigger] q[a].issue_id) by {
                if a < m {
                    assert(q[a] == before.queue[a]);
                }
            }
        }
        Ok(())
    }

    /// Marks the (issue, recipient) queue row claimed, inside this
    /// transaction; nothing else changes.
    pub fn lock_job(&mut self, issue_id: &String, subscriber_email: &String)
        requires
            old(self).wf(),
        ensures
            final(self).wf(),
            final(self)@ == with_claimed_row(old(self)@, issue_id@, subscriber_email@),
    {
        let ghost before = self@;
        match find_delivery(&self.tables.queue, issue_id, subscriber_email) {
            Some(k) => {
                proof {
                    assert(before.queue[k as int] == self.tables.queue@[k as int]@);
                    lemma_delivery_index(before.queue, issue_id@, subscriber_email@, k as int);
                }
                self.tables.queue[k].claimed = true;
                proof {
                    assert(self@.queue =~= with_claim(before, k as int).queue);
                    assert forall|i: int| 0 <= i < self@.queue.len() implies has_issue(
                        self@.issues,
                        #[trigger] self@.queue[i].issue_id,
                    ) by {
                        assert(self@.queue[i].issue_id == before.queue[i].issue_id);
                    }
                    assert forall|i: int, j: int|
                        0 <= i < j < self@.queue.len() implies !(#[trigger] self@.queue[i].issue_id
                        == #[trigger] self@.queue[j].issue_id && self@.queue[i].email == self@.queue[j].email) by {
                        assert(self@.queue[i].issue_id == before.queue[i].issue_id && self@.queue[i].email
                            == before.queue[i].email);
                        assert(self@.queue[j].issue_id == before.queue[j].issue_id && self@.queue[j].email
                            == before.queue[j].email);
                    }
                }
            },
            None => {
                proof {
                    assert forall|k: int| 0 <= k < before.queue.len() implies !(#[trigger] before.queue[k].issue_id
                        == issue_id@ && before.queue[k].email == subscriber_email@) by {
                        assert(before.queue[k] == self.tables.queue@[k]@);
                    }
                }
            },
        }
    }

    /// The stored issue with this id, if any.
    pub fn get_issue(&self, id: &String) -> (r: Option<NewsletterIssue>)
        requires
            self.wf(),
        ensures
            match r {
                Some(issue) => has_issue(self@.issues, id@) && issue@ == self@.issues[issue_index(self@.issues, id@)],
                None => !has_issue(self@.issues, id@),
            },
    {
        match find_issue(&self.tables.issues, id) {
            Some(i) => {
                let issue = self.tables.issues[i].copy();
                assert(self@.issues[i as int] == issue@);
                assert(self@.issues[i as int].issue_id == id@);
                proof {
                    lemma_issue_index(self@.issues, id@, i as int);
                }
                Some(issue)
            },
            None => {
                proof {
                    assert forall|j: int| 0 <= j < self@.issues.len() implies #[trigger] self@.issues[j].issue_id
                        != id@ by {
                        assert(self@.issues[j] == self.tables.issues@[j]@);
                    }
                }
                None
            },
        }
    }
}


pub open spec fn with_claim(t: TablesView, i: int) -> TablesView {
    TablesView {
        idempotency: t.idempotency,
        issues: t.issues,
        queue: t.queue.update(i, QueueView { issue_id: t.queue[i].issue_id, email: t.queue[i].email, claimed: true }),
    }
}

/// The index of the (issue, recipient) queue row; meaningful when it exists.
pub open spec fn delivery_index(q: Seq<QueueView>, id: Seq<char>, email: Seq<char>) -> int {
    choose|k: int| 0 <= k < q.len() && #[trigger] q[k].issue_id == id && q[k].email == email
}

/// The tables after the (issue, recipient) row is marked claimed; unchanged
/// when there is no such row.
pub open spec fn with_claimed_row(t: TablesView, id: Seq<char>, email: Seq<char>) -> TablesView {
    if has_delivery(t.queue, id, email) {
        with_claim(t, delivery_index(t.queue, id, email))
    } else {
        t
    }
}

/// The index of the issue with this id; meaningful when it exists.
pub open spec fn issue_index(issues: Seq<IssueView>, id: Seq<char>) -> int {
    choose|j: int| 0 <= j < issues.len() && #[trigger] issues[j].issue_id == id
}

proof fn lemma_issue_index(issues: Seq<IssueView>, id: Seq<char>, k: int)
    requires
        forall|i: int, j: int| 0 <= i < j < issues.len() ==> #[trigger] issues[i].issue_id != #[trigger] issues[j].issue_id,
        0 <= k < issues.len(),
        issues[k].issue_id == id,
    ensures
        has_issue(issues, id),
        issue_index(issues, id) == k,
{
    let j = issue_index(issues, id);
    if j < k {
        assert(issues[j].issue_id != issues[k].issue_id);
    } else if k < j {
        assert(issues[k].issue_id != issues[j].issue_id);
    }
}

proof fn lemma_delivery_index(q: Seq<QueueView>, id: Seq<char>, email: Seq<char>, k: int)
    requires
        forall|i: int, j: int|
            0 <= i < j < q.len() ==> !(#[trigger] q[i].issue_id == #[trigger] q[j].issue_id && q[i].email == q[j].email),
        0 <= k < q.len(),
        q[k].issue_id == id,
        q[k].email == email,
    ensures
        has_delivery(q, id, email),
        delivery_index(q, id, email) == k,
{
    let j = delivery_index(q, id, email);
    if j < k {
        assert(!(q[j].issue_id == q[k].issue_id && q[j].email == q[k].email));
    } else if k < j {
        assert(!(q[k].issue_id == q[j].issue_id && q[k].email == q[j].email));
    }
}

/// The relational store: the committed tables and the single write lock.
pub struct Store {
    committed: Tables,
    busy: bool,
}

impl View for Store {
    type V = TablesView;

    closed spec fn view(&self) -> TablesView {
        self.committed@
    }
}

/// A claimed queue row: the open transaction that claimed it, which holds
/// the store's write lock until the row is retired or released.
pub struct ClaimedTask {
    txn: Transaction,
    issue_id: String,
    subscriber_email: String,
    before: Ghost<TablesView>,
}

impl ClaimedTask {
    /// The tables as the claiming transaction sees them.
    pub closed spec fn txn_view(&self) -> TablesView {
        self.txn@
    }

    pub closed spec fn issue_id_view(&self) -> Seq<char> {
        self.issue_id@
    }

    pub closed spec fn email_view(&self) -> Seq<char> {
        self.subscriber_email@
    }

    /// The id of the issue to deliver.
    pub fn issue_id(&self) -> (r: &String)
        ensures
            r@ == self.issue_id_view(),
    {
        &self.issue_id
    }

    /// The recipient's address as stored in the queue row.
    pub fn subscriber_email(&self) -> (r: &String)
        ensures
            r@ == self.email_view(),
    {
        &self.subscriber_email
    }

    /// The committed tables at the time of the claim.
    pub closed spec fn base(&self) -> TablesView {
        self.before@
    }

    pub closed spec fn wf(&self) -> bool {
        let b = self.before@;
        &&& tables_wf(b)
        &&& settled(b)
        &&& b.queue.len() > 0
        &&& self.txn@ == with_claim(b, 0)
        &&& self.issue_id@ == b.queue[0].issue_id
        &&& self.subscriber_email@ == b.queue[0].email
    }

    /// Loads the issue the claimed row refers to.
    pub fn issue(&self) -> (r: Option<NewsletterIssue>)
        requires
            self.wf(),
        ensures
            match r {
                Some(issue) => has_issue(self.base().issues, self.issue_id_view()) && issue@ == self.base().issues[issue_index(
                    self.base().issues,
                    self.issue_id_view(),
                )],
                None => !has_issue(self.base().issues, self.issue_id_view()),
            },
    {
        self.txn.get_issue(&self.issue_id)
    }
}

impl Store {
    pub closed spec fn is_busy(&self) -> bool {
        self.busy
    }

    /// The committed tables meet the schema's constraints and hold no claim.
    pub closed spec fn inv(&self) -> bool {
        tables_wf(self.committed@) && settled(self.committed@)
    }

    pub proof fn lemma_inv(&self)
        requires
            self.inv(),
        ensures
            tables_wf(self@),
            settled(self@),
            self@.queue.len() <= usize::MAX,
    {
        assert(self.committed.queue.len() == self.committed.queue@.len());
    }

    pub fn new() -> (s: Store)
        ensures
            s@ == empty_tables(),
            !s.is_busy(),
            s.inv(),
    {
        Store { committed: Tables::new(), busy: false }
    }

    /// The committed tables.
    pub fn tables(&self) -> (r: &Tables)
        ensures
            r@ == self@,
    {
        &self.committed
    }

    /// Opens a transaction on a copy of the committed tables, unless one is
    /// already open.
    pub fn begin(&mut self) -> (r: Result<Transaction, StoreError>)
        requires
            old(self).inv(),
        ensures
            final(self).inv(),
            final(self)@ == old(self)@,
            final(self).is_busy(),
            match r {
                Ok(t) => !old(self).is_busy() && t@ == old(self)@ && t.wf(),
                Err(e) => old(self).is_busy() && e == StoreError::Busy,
            },
    {
        if self.busy {
            return Err(StoreError::Busy);
        }
        self.busy = true;
        Ok(Transaction { tables: self.committed.copy() })
    }

    /// Publishes the transaction's tables and releases the lock.
    pub fn commit(&mut self, t: Transaction)
        requires
            old(self).inv(),
            old(self).is_busy(),
            t.wf(),
            settled(t@),
        ensures
            final(self).inv(),
            !final(self).is_busy(),
            final(self)@ == t@,
    {
        self.committed = t.tables;
        self.busy = false;
    }

    /// Drops the transaction's changes and releases the lock.
    pub fn rollback(&mut self, t: Transaction)
        requires
            old(self).inv(),
            old(self).is_busy(),
        ensures
            final(self).inv(),
            !final(self).is_busy(),
            final(self)@ == old(self)@,
    {
        self.busy = false;
    }

    /// The committed response columns of the (user, key) row.
    pub fn saved_response(&self, user_id: &String, key: &IdempotencyKey) -> (r: Option<SavedResponse>)
        requires
            self.inv(),
        ensures
            saved_view(r) == stored_response(self@, user_id@, key@),
    {
        let k = key.to_string();
        match find_idempotency_row(&self.committed.idempotency, user_id, &k) {
            Some(i) => {
                proof {
                    assert(self@.idempotency[i as int] == self.committed.idempotency@[i as int]@);
                    lemma_row_index(self@, user_id@, key@, i as int);
                }
                copy_saved(&self.committed.idempotency[i].response)
            },
            None => {
                proof {
                    assert forall|i: int| 0 <= i < self@.idempotency.len() implies !row_matches(
                        #[trigger] self@.idempotency[i],
                        user_id@,
                        key@,
                    ) by {
                        assert(self@.idempotency[i] == self.committed.idempotency@[i]@);
                    }
                }
                None
            },
        }
    }

    /// Claims the first unclaimed queue row inside a new transaction and
    /// keeps that transaction open; `None` when the queue is empty.
    pub fn dequeue_task(&mut self) -> (r: Result<Option<ClaimedTask>, StoreError>)
        requires
            old(self).inv(),
        ensures
            final(self).inv(),
            final(self)@ == old(self)@,
            match r {
                Err(e) => e == StoreError::Busy && old(self).is_busy() && final(self).is_busy(),
                Ok(None) => !old(self).is_busy() && !final(self).is_busy() && old(self)@.queue.len() == 0,
                Ok(Some(task)) => !old(self).is_busy() && final(self).is_busy() && old(self)@.queue.len() > 0
                    && task.wf() && task.base() == old(self)@ && task.issue_id_view() == old(self)@.queue[0].issue_id
                    && task.email_view() == old(self)@.queue[0].email && !old(self)@.queue[0].claimed
                    && task.txn_view() == with_claim(old(self)@, 0),
            },
    {
        let mut txn = match self.begin() {
            Ok(t) => t,
            Err(e) => {
                return Err(e);
            },
        };
        let ghost b = self@;
        // The committed tables hold no claimed row, so the first unclaimed
        // row is the first row.
        if txn.tables.queue.len() == 0 {
            self.rollback(txn);
            return Ok(None);
        }
        let issue_id = copy_string(&txn.tables.queue[0].issue_id);
        let subscriber_email = copy_string(&txn.tables.queue[0].subscriber_email);
        proof {
            assert(b.queue[0] == txn.tables.queue@[0]@);
            lemma_delivery_index(b.queue, issue_id@, subscriber_email@, 0);
        }
        txn.lock_job(&issue_id, &subscriber_email);
        Ok(Some(ClaimedTask { txn, issue_id, subscriber_email, before: Ghost(b) }))
    }

    /// Deletes the claimed row and commits, releasing the lock.
    pub fn delete_task(&mut self, task: ClaimedTask)
        requires
            old(self).inv(),
            old(self).is_busy(),
            task.wf(),
            task.base() == old(self)@,
        ensures
            final(self).inv(),
            !final(self).is_busy(),
            final(self)@ == without_first_delivery(old(self)@),
    {
        let ghost b = task.before@;
        assert(task.txn@ == with_claim(b, 0));
        assert(b.queue.len() > 0);
        let ClaimedTask { txn, issue_id, subscriber_email, before } = task;
        let mut txn = txn;
        assert(txn@ == with_claim(b, 0));
        assert(txn@.queue == txn.tables.queue@.map_values(|r: QueueItem| r@));
        assert(txn@.queue.len() == txn.tables.queue@.len());
        proof {
            assert(txn@.queue[0] == txn.tables.queue@[0]@);
        }
        match find_delivery(&txn.tables.queue, &issue_id, &subscriber_email) {
            Some(k) => {
                proof {
                    assert(txn@.queue[k as int] == txn.tables.queue@[k as int]@);
                    if k > 0 {
                        assert(b.queue[k as int].issue_id == b.queue[0].issue_id);
                        assert(!(b.queue[0].issue_id == b.queue[k as int].issue_id && b.queue[0].email
                            == b.queue[k as int].email));
                    }
                }
                let ghost items = txn.tables.queue@;
                txn.tables.queue.remove(k);
                proof {
                    assert(k == 0);
                    let nb = without_first_delivery(b);
                    assert(txn.tables.queue@ == items.remove(0));
                    assert forall|i: int| 0 <= i < nb.queue.len() implies txn@.queue[i] == nb.queue[i] by {
                        assert(txn@.queue[i] == txn.tables.queue@[i]@);
                        assert(items[i + 1]@ == with_claim(b, 0).queue[i + 1]);
                    }
                    assert(txn@.queue =~= nb.queue);
                    assert(txn@ == nb);
                    assert forall|i: int, j: int|
                        0 <= i < j < nb.queue.len() implies !(#[trigger] nb.queue[i].issue_id
                        == #[trigger] nb.queue[j].issue_id && nb.queue[i].email == nb.queue[j].email) by {
                        assert(nb.queue[i] == b.queue[i + 1] && nb.queue[j] == b.queue[j + 1]);
                    }
                    assert forall|i: int| 0 <= i < nb.queue.len() implies has_issue(
                        nb.issues,
                        #[trigger] nb.queue[i].issue_id,
                    ) by {
                        assert(nb.queue[i] == b.queue[i + 1]);
                    }
                    assert forall|i: int| 0 <= i < nb.queue.len() implies !(#[trigger] nb.queue[i].claimed) by {
                        assert(nb.queue[i] == b.queue[i + 1]);
                    }
                }
                self.commit(txn);
            },
            None => {
                proof {
                    assert(false);
                }
                self.rollback(txn);
            },
        }
    }

    /// Gives a claimed row back without deleting it, releasing the lock.
    pub fn release_task(&mut self, task: ClaimedTask)
        requires
            old(self).inv(),
            old(self).is_busy(),
        ensures
            final(self).inv(),
            !final(self).is_busy(),
            final(self)@ == old(self)@,
    {
        self.rollback(task.txn);
    }
}

} // verus!
