//! The delivery worker: claim one queue row under a held transaction,
//! deliver the issue to that recipient, and retire the row whatever the
//! delivery's outcome.
use crate::domain::{valid_email, SubscriberEmail};
use crate::store::{
    has_issue, issue_index, tables_wf, without_first_delivery, IssueView, QueueView, Store, StoreError, TablesView,
};
use vstd::prelude::*;

verus! {

/// What one worker iteration did.
#[derive(Debug, PartialEq, Eq, Structural, Clone, Copy)]
pub enum ExecutionOutcome {
    TaskCompleted,
    EmptyQueue,
}

/// What the worker reads of an issue.
pub struct IssueContent {
    pub title: String,
    pub text_content: String,
    pub html_content: String,
}

/// One email handed to the transport.
pub struct Delivery {
    pub recipient: SubscriberEmail,
    pub subject: String,
    pub html_content: String,
    pub text_content: String,
}

pub struct DeliveryView {
    pub recipient: Seq<char>,
    pub subject: Seq<char>,
    pub html_content: Seq<char>,
    pub text_content: Seq<char>,
}

impl View for Delivery {
    type V = DeliveryView;

    open spec fn view(&self) -> DeliveryView {
        DeliveryView {
            recipient: self.recipient@,
            subject: self.subject@,
            html_content: self.html_content@,
            text_content: self.text_content@,
        }
    }
}

/// Where an iteration stands.
pub enum WorkerState {
    /// Nothing claimed.
    Idle,
    /// A row with a valid address is claimed; its issue is being loaded.
    Loading { issue_id: String, subscriber_email: String, recipient: SubscriberEmail },
    /// The email is with the transport.
    Sending { issue_id: String, subscriber_email: String },
    /// The claimed row is being deleted.
    Retiring,
    /// The claim is being given back.
    Releasing,
}

/// What the surrounding I/O reports back.
pub enum WorkerEvent {
    /// The claim attempt: the claimed row's (issue id, address), or `None`
    /// for an empty queue.
    Claimed(Option<(String, String)>),
    /// The claimed row's issue, or `None` when it is not stored.
    IssueLoaded(Option<IssueContent>),
    /// The transport's answer.
    Sent(Result<(), String>),
    Retired,
    Released,
}

/// What the surrounding I/O does next.
pub enum WorkerAction {
    /// The iteration is over.
    Finish(ExecutionOutcome),
    /// The iteration ends with an error; nothing was retired.
    Fail(StoreError),
    LoadIssue(String),
    Send(Delivery),
    /// Delete the claimed row and commit.
    Retire { issue_id: String, subscriber_email: String },
    /// Roll the claim back.
    Release { issue_id: String, subscriber_email: String },
}

/// The transition `worker_next(s, e)` makes.
pub open spec fn worker_transition(s: WorkerState, e: WorkerEvent, r: (WorkerState, WorkerAction)) -> bool {
    match (s, e) {
        (WorkerState::Idle, WorkerEvent::Claimed(None)) => r.0 is Idle && r.1 matches WorkerAction::Finish(
            ExecutionOutcome::EmptyQueue,
        ),
        (WorkerState::Idle, WorkerEvent::Claimed(Some((i, a)))) => if valid_email(a@) {
            &&& r.0 matches WorkerState::Loading { issue_id, subscriber_email, recipient } && issue_id@ == i@
                && subscriber_email@ == a@ && recipient@ == a@
            &&& r.1 matches WorkerAction::LoadIssue(id) && id@ == i@
        } else {
            &&& r.0 is Retiring
            &&& r.1 matches WorkerAction::Retire { issue_id, subscriber_email } && issue_id@ == i@
                && subscriber_email@ == a@
        },
        (
            WorkerState::Loading { issue_id, subscriber_email, recipient },
            WorkerEvent::IssueLoaded(Some(c)),
        ) => {
            &&& r.0 matches WorkerState::Sending { issue_id: i2, subscriber_email: a2 } && i2@ == issue_id@ && a2@
                == subscriber_email@
            &&& r.1 matches WorkerAction::Send(d) && d@ == (DeliveryView {
                recipient: recipient@,
                subject: c.title@,
                html_content: c.html_content@,
                text_content: c.text_content@,
            })
        },
        (WorkerState::Loading { issue_id, subscriber_email, .. }, WorkerEvent::IssueLoaded(None)) => {
            &&& r.0 is Releasing
            &&& r.1 matches WorkerAction::Release { issue_id: i2, subscriber_email: a2 } && i2@ == issue_id@ && a2@
                == subscriber_email@
        },
        (WorkerState::Sending { issue_id, subscriber_email }, WorkerEvent::Sent(_)) => {
            &&& r.0 is Retiring
            &&& r.1 matches WorkerAction::Retire { issue_id: i2, subscriber_email: a2 } && i2@ == issue_id@ && a2@
                == subscriber_email@
        },
        (WorkerState::Retiring, WorkerEvent::Retired) => r.0 is Idle && r.1 matches WorkerAction::Finish(
            ExecutionOutcome::TaskCompleted,
        ),
        (WorkerState::Releasing, WorkerEvent::Released) => r.0 is Idle && r.1 matches WorkerAction::Fail(
            StoreError::IssueNotFound,
        ),
        _ => r.0 is Idle && r.1 matches WorkerAction::Fail(StoreError::Unavailable),
    }
}

/// One decision of a worker iteration. A claimed row with a valid address
/// has its issue loaded and sent to that address with the issue's title,
/// HTML and text; an invalid address is retired unsent; the send's outcome
/// is ignored and the row retired; a missing issue gives the claim back and
/// fails the iteration. An event the state does not expect fails it too.
pub fn worker_next(s: WorkerState, e: WorkerEvent) -> (r: (WorkerState, WorkerAction))
    ensures
        worker_transition(s, e, r),
{
    match (s, e) {
        (WorkerState::Idle, WorkerEvent::Claimed(None)) => (
            WorkerState::Idle,
            WorkerAction::Finish(ExecutionOutcome::EmptyQueue),
        ),
        (WorkerState::Idle, WorkerEvent::Claimed(Some((issue_id, subscriber_email)))) => {
            match SubscriberEmail::parse(subscriber_email.clone()) {
                Ok(recipient) => {
                    let load = issue_id.clone();
                    (WorkerState::Loading { issue_id, subscriber_email, recipient }, WorkerAction::LoadIssue(load))
                },
                Err(_) => (WorkerState::Retiring, WorkerAction::Retire { issue_id, subscriber_email }),
            }
        },
        (WorkerState::Loading { issue_id, subscriber_email, recipient }, WorkerEvent::IssueLoaded(Some(c))) => {
            let IssueContent { title, text_content, html_content } = c;
            (
                WorkerState::Sending { issue_id, subscriber_email },
                WorkerAction::Send(Delivery { recipient, subject: title, html_content, text_content }),
            )
        },
        (WorkerState::Loading { issue_id, subscriber_email, .. }, WorkerEvent::IssueLoaded(None)) => (
            WorkerState::Releasing,
            WorkerAction::Release { issue_id, subscriber_email },
        ),
        (WorkerState::Sending { issue_id, subscriber_email }, WorkerEvent::Sent(_)) => (
            WorkerState::Retiring,
            WorkerAction::Retire { issue_id, subscriber_email },
        ),
        (WorkerState::Retiring, WorkerEvent::Retired) => (
            WorkerState::Idle,
            WorkerAction::Finish(ExecutionOutcome::TaskCompleted),
        ),
        (WorkerState::Releasing, WorkerEvent::Released) => (
            WorkerState::Idle,
            WorkerAction::Fail(StoreError::IssueNotFound),
        ),
        _ => (WorkerState::Idle, WorkerAction::Fail(StoreError::Unavailable)),
    }
}

/// One iteration on committed tables: with rows queued, the first row is
/// claimed and retired; otherwise nothing changes.
pub open spec fn worker_step(t: TablesView) -> (TablesView, ExecutionOutcome) {
    if t.queue.len() == 0 {
        (t, ExecutionOutcome::EmptyQueue)
    } else {
        (without_first_delivery(t), ExecutionOutcome::TaskCompleted)
    }
}

/// The row an iteration on `t` claims, when the queue is not empty.
pub open spec fn claimed_row(t: TablesView) -> QueueView {
    t.queue[0]
}

/// The committed tables after `k` iterations.
pub open spec fn after_steps(t: TablesView, k: nat) -> TablesView
    decreases k,
{
    if k == 0 {
        t
    } else {
        worker_step(after_steps(t, (k - 1) as nat)).0
    }
}

/// The email an iteration hands out for a claimed row: to its address, with
/// its issue's title, HTML and text; none for an invalid address.
pub open spec fn delivery_of(issues: Seq<IssueView>, row: QueueView) -> Option<DeliveryView> {
    if valid_email(row.email) {
        let issue = issues[issue_index(issues, row.issue_id)];
        Some(
            DeliveryView {
                recipient: row.email,
                subject: issue.title,
                html_content: issue.html_content,
                text_content: issue.text_content,
            },
        )
    } else {
        None
    }
}

/// The emails handed out for `rows`, in order.
pub open spec fn deliveries_in(issues: Seq<IssueView>, rows: Seq<QueueView>) -> Seq<DeliveryView>
    decreases rows.len(),
{
    if rows.len() == 0 {
        Seq::empty()
    } else {
        let earlier = deliveries_in(issues, rows.drop_last());
        match delivery_of(issues, rows.last()) {
            Some(d) => earlier.push(d),
            None => earlier,
        }
    }
}

pub open spec fn delivery_view(d: Option<Delivery>) -> Option<DeliveryView> {
    match d {
        Some(x) => Some(x@),
        None => None,
    }
}

pub open spec fn deliveries_view(v: Seq<Delivery>) -> Seq<DeliveryView> {
    v.map_values(|d: Delivery| d@)
}

/// One worker iteration on the store, driven by `worker_next`: claims the
/// first row, and retires it whether or not an email goes out. The email
/// for the transport is returned; its outcome never changes what happens to
/// the row. Fails with `Busy` when another transaction holds the store.
pub fn try_execute_task(store: &mut Store) -> (r: Result<(ExecutionOutcome, Option<Delivery>), StoreError>)
    requires
        old(store).inv(),
    ensures
        final(store).inv(),
        old(store).is_busy() ==> final(store).is_busy() && final(store)@ == old(store)@ && r matches Err(
            StoreError::Busy,
        ),
        !old(store).is_busy() ==> !final(store).is_busy() && match r {
            Ok((outcome, d)) => (final(store)@, outcome) == worker_step(old(store)@) && delivery_view(d) == (if old(
                store,
            )@.queue.len() > 0 {
                delivery_of(old(store)@.issues, old(store)@.queue[0])
            } else {
                None
            }),
            Err(_) => false,
        },
{
    proof {
        store.lemma_inv();
    }
    let ghost t = store@;
    let task = match store.dequeue_task() {
        Err(e) => {
            return Err(e);
        },
        Ok(None) => {
            let (_, action) = worker_next(WorkerState::Idle, WorkerEvent::Claimed(None));
            return match action {
                WorkerAction::Finish(outcome) => Ok((outcome, None)),
                _ => {
                    proof {
                        assert(false);
                    }
                    Err(StoreError::Unavailable)
                },
            };
        },
        Ok(Some(task)) => task,
    };
    assert(has_issue(t.issues, t.queue[0].issue_id));
    let claimed = WorkerEvent::Claimed(Some((task.issue_id().clone(), task.subscriber_email().clone())));
    let (state, action) = worker_next(WorkerState::Idle, claimed);
    match action {
        WorkerAction::LoadIssue(_) => {
            let content = match task.issue() {
                Some(issue) => Some(
                    IssueContent {
                        title: issue.title,
                        text_content: issue.text_content,
                        html_content: issue.html_content,
                    },
                ),
                None => None,
            };
            let (state, action) = worker_next(state, WorkerEvent::IssueLoaded(content));
            match action {
                WorkerAction::Send(delivery) => {
                    let (state, action) = worker_next(state, WorkerEvent::Sent(Ok(())));
                    match action {
                        WorkerAction::Retire { .. } => {
                            store.delete_task(task);
                            let (_, last) = worker_next(state, WorkerEvent::Retired);
                            match last {
                                WorkerAction::Finish(outcome) => Ok((outcome, Some(delivery))),
                                _ => {
                                    proof {
                                        assert(false);
                                    }
                                    Err(StoreError::Unavailable)
                                },
                            }
                        },
                        _ => {
                            proof {
                                assert(false);
                            }
                            Err(StoreError::Unavailable)
                        },
                    }
                },
                _ => {
                    proof {
                        assert(false);
                    }
                    Err(StoreError::Unavailable)
                },
            }
        },
        WorkerAction::Retire { .. } => {
            store.delete_task(task);
            let (_, last) = worker_next(state, WorkerEvent::Retired);
            match last {
                WorkerAction::Finish(outcome) => Ok((outcome, None)),
                _ => {
                    proof {
                        assert(false);
                    }
                    Err(StoreError::Unavailable)
                },
            }
        },
        _ => {
            proof {
                assert(false);
            }
            Err(StoreError::Unavailable)
        },
    }
}

/// Runs iterations until one reports an empty queue. Returns how many
/// completed a task, which is the number of rows queued at the start, and
/// the emails handed out: one per row with a valid address, in queue order.
pub fn drain_queue(store: &mut Store) -> (r: (usize, Vec<Delivery>))
    requires
        old(store).inv(),
        !old(store).is_busy(),
    ensures
        final(store).inv(),
        !final(store).is_busy(),
        r.0 == old(store)@.queue.len(),
        final(store)@.queue.len() == 0,
        final(store)@ == after_steps(old(store)@, r.0 as nat),
        deliveries_view(r.1@) == deliveries_in(old(store)@.issues, old(store)@.queue),
{
    proof {
        store.lemma_inv();
    }
    let ghost t = store@;
    let mut completed: usize = 0;
    let mut sent: Vec<Delivery> = Vec::new();
    proof {
        lemma_after_steps(t, 0);
        assert(t.queue.take(0) =~= Seq::<QueueView>::empty());
        assert(deliveries_view(sent@) =~= Seq::<DeliveryView>::empty());
    }
    loop
        invariant
            store.inv(),
            !store.is_busy(),
            t == old(store)@,
            t.queue.len() <= usize::MAX,
            completed <= t.queue.len(),
            store@ == after_steps(t, completed as nat),
            store@.queue == t.queue.skip(completed as int),
            store@.issues == t.issues,
            deliveries_view(sent@) == deliveries_in(t.issues, t.queue.take(completed as int)),
        decreases t.queue.len() - completed,
    {
        let ghost pre = store@;
        let ghost before = sent@;
        assert(pre.queue.len() == t.queue.len() - completed);
        let r = try_execute_task(store);
        match r {
            Ok((ExecutionOutcome::EmptyQueue, _)) => {
                assert(pre.queue.len() == 0);
                assert(t.queue.take(completed as int) =~= t.queue);
                return (completed, sent);
            },
            Ok((ExecutionOutcome::TaskCompleted, d)) => {
                assert(pre.queue.len() > 0);
                proof {
                    assert(pre.queue[0] == t.queue[completed as int]);
                    let rows = t.queue.take(completed + 1);
                    assert(rows.drop_last() =~= t.queue.take(completed as int));
                    assert(rows.last() == t.queue[completed as int]);
                    lemma_after_steps(t, (completed + 1) as nat);
                }
                match d {
                    Some(delivery) => {
                        sent.push(delivery);
                        proof {
                            assert(deliveries_view(sent@) =~= deliveries_view(before).push(sent@.last()@));
                        }
                    },
                    None => {},
                }
                completed = completed + 1;
            },
            Err(_) => {
                return (completed, sent);
            },
        }
    }
}

/// Seconds the worker loop waits after an iteration: 10 when the queue was
/// empty, 1 after a storage error, none after a completed task.
pub fn worker_delay_secs(r: &Result<ExecutionOutcome, StoreError>) -> (secs: u64)
    ensures
        secs == match r {
            Ok(ExecutionOutcome::EmptyQueue) => 10u64,
            Ok(ExecutionOutcome::TaskCompleted) => 0u64,
            Err(_) => 1u64,
        },
{
    match r {
        Ok(ExecutionOutcome::EmptyQueue) => 10,
        Ok(ExecutionOutcome::TaskCompleted) => 0,
        Err(_) => 1,
    }
}

/// The first `k` iterations on `t` retire the first `k` queue rows and
/// touch nothing else.
pub proof fn lemma_after_steps(t: TablesView, k: nat)
    requires
        k <= t.queue.len(),
    ensures
        after_steps(t, k).queue == t.queue.skip(k as int),
        after_steps(t, k).issues == t.issues,
        after_steps(t, k).idempotency == t.idempotency,
    decreases k,
{
    if k == 0 {
        assert(t.queue.skip(0) =~= t.queue);
    } else {
        lemma_after_steps(t, (k - 1) as nat);
        assert(t.queue.skip(k - 1).drop_first() =~= t.queue.skip(k as int));
    }
}

/// Draining a queue of N rows with no new enqueues: iteration k (k < N)
/// completes a task by claiming the k-th row, and iteration N finds the
/// queue empty, so the drain ends after exactly N completed iterations.
pub proof fn lemma_drain_terminates(t: TablesView, k: nat)
    requires
        k <= t.queue.len(),
    ensures
        k < t.queue.len() ==> worker_step(after_steps(t, k)).1 == ExecutionOutcome::TaskCompleted && claimed_row(
            after_steps(t, k),
        ) == t.queue[k as int],
        k == t.queue.len() ==> worker_step(after_steps(t, k)).1 == ExecutionOutcome::EmptyQueue
            && after_steps(t, k).queue.len() == 0,
{
    lemma_after_steps(t, k);
}

/// No two iterations claim the same row: on tables that meet the schema's
/// constraints, the rows claimed by iterations i and j (i < j < N) differ in
/// issue or recipient.
pub proof fn lemma_claims_distinct(t: TablesView, i: nat, j: nat)
    requires
        tables_wf(t),
        i < j < t.queue.len(),
    ensures
        claimed_row(after_steps(t, i)) != claimed_row(after_steps(t, j)),
        claimed_row(after_steps(t, i)).issue_id != claimed_row(after_steps(t, j)).issue_id || claimed_row(
            after_steps(t, i),
        ).email != claimed_row(after_steps(t, j)).email,
{
    lemma_drain_terminates(t, i);
    lemma_drain_terminates(t, j);
    let a = claimed_row(after_steps(t, i));
    let b = claimed_row(after_steps(t, j));
    assert(!(t.queue[i as int].issue_id == t.queue[j as int].issue_id && t.queue[i as int].email
        == t.queue[j as int].email));
    assert(a.issue_id != b.issue_id || a.email != b.email);
}

} // verus!
