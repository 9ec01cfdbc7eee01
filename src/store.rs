//! The shared store: idempotency records, issues, the delivery queue and the
//! subscribers. Writes of a publication are staged in a `Transaction` and
//! become visible together, or not at all.
use vstd::prelude::*;
use crate::delivery::{claimable, decide, decide_spec, AttemptOutcome, RetryPolicy, TaskDecision};
use crate::idempotency::{IdempotencyKey, IdempotencyTable, NextAction, ResponseView, SaveError, SavedResponse};
use crate::outbox::{
    distinct_emails, fan_out, fan_out_view, issues_view, lemma_fan_out_one_task_per_email, tasks_view, IssueView,
    NewsletterIssue, Subscriber, TaskView, DeliveryTask,
};

verus! {

#[derive(Debug)]
pub struct Store {
    pub idempotency: IdempotencyTable,
    pub issues: Vec<NewsletterIssue>,
    pub queue: Vec<DeliveryTask>,
    pub subscribers: Vec<Subscriber>,
}

pub struct StoreView {
    pub records: Map<(u128, Seq<char>), Option<ResponseView>>,
    pub issues: Seq<IssueView>,
    pub queue: Seq<TaskView>,
    pub subscribers: Seq<Subscriber>,
}

impl View for Store {
    type V = StoreView;

    open spec fn view(&self) -> StoreView {
        StoreView {
            records: self.idempotency@,
            issues: issues_view(self.issues@),
            queue: tasks_view(self.queue@),
            subscribers: self.subscribers@,
        }
    }
}

/// The writes of one publication, not yet visible to anyone.
#[derive(Debug)]
pub struct Transaction {
    pub user_id: u128,
    pub key: IdempotencyKey,
    pub issues: Vec<NewsletterIssue>,
    pub tasks: Vec<DeliveryTask>,
}

/// What the staged writes of a transaction add to the store when it commits.
pub open spec fn committed(s: StoreView, tx: Transaction, response: ResponseView) -> StoreView {
    StoreView {
        records: s.records.insert((tx.user_id, tx.key@), Some(response)),
        issues: s.issues + issues_view(tx.issues@),
        queue: s.queue + tasks_view(tx.tasks@),
        subscribers: s.subscribers,
    }
}

/// No two issues share an id.
pub open spec fn distinct_issue_ids(is: Seq<IssueView>) -> bool {
    forall|i: int, j: int| 0 <= i < j < is.len() ==> is[i].issue_id != is[j].issue_id
}

/// Some issue of `is` has the id `id`.
pub open spec fn id_taken(is: Seq<IssueView>, id: u128) -> bool {
    exists|i: int| 0 <= i < is.len() && #[trigger] is[i].issue_id == id
}

/// The staged issues have distinct ids, none of which is stored already.
pub open spec fn fresh_ids(stored: Seq<IssueView>, staged: Seq<IssueView>) -> bool {
    distinct_issue_ids(staged) && forall|i: int| 0 <= i < staged.len() ==> !id_taken(stored, #[trigger] staged[i].issue_id)
}

/// The records once a rolled back transaction has released its pending key.
pub open spec fn released(
    m: Map<(u128, Seq<char>), Option<ResponseView>>,
    k: (u128, Seq<char>),
) -> Map<(u128, Seq<char>), Option<ResponseView>> {
    if m.get(k) == Some(None::<ResponseView>) {
        m.remove(k)
    } else {
        m
    }
}

/// Why the store refused a write.
#[derive(Debug, Clone, Copy, PartialEq, Eq, Structural)]
pub enum StoreError {
    /// No record holds the transaction's key.
    NotStarted,
    /// The record of the transaction's key already holds a response.
    AlreadyCompleted,
    /// An issue with that id exists already.
    IssueIdTaken,
}

fn issue_id_taken(issues: &Vec<NewsletterIssue>, id: u128) -> (r: bool)
    ensures
        r == id_taken(issues_view(issues@), id),
{
    let mut i: usize = 0;
    while i < issues.len()
        invariant
            i <= issues@.len(),
            forall|j: int| 0 <= j < i ==> issues_view(issues@)[j].issue_id != id,
        decreases issues@.len() - i,
    {
        if issues[i].issue_id == id {
            assert(issues_view(issues@)[i as int].issue_id == id);
            return true;
        }
        i = i + 1;
    }
    false
}

fn ids_fresh(stored: &Vec<NewsletterIssue>, staged: &Vec<NewsletterIssue>) -> (r: bool)
    ensures
        r == fresh_ids(issues_view(stored@), issues_view(staged@)),
{
    let ghost st = issues_view(staged@);
    let mut i: usize = 0;
    while i < staged.len()
        invariant
            i <= staged@.len(),
            st == issues_view(staged@),
            forall|a: int, b: int| 0 <= a < b < i ==> st[a].issue_id != st[b].issue_id,
            forall|a: int| 0 <= a < i ==> !id_taken(issues_view(stored@), #[trigger] st[a].issue_id),
        decreases staged@.len() - i,
    {
        let id = staged[i].issue_id;
        if issue_id_taken(stored, id) {
            return false;
        }
        let mut j: usize = 0;
        while j < i
            invariant
                j <= i < staged@.len(),
                st == issues_view(staged@),
                id == st[i as int].issue_id,
                forall|a: int| 0 <= a < j ==> st[a].issue_id != id,
            decreases i - j,
        {
            if staged[j].issue_id == id {
                assert(st[j as int].issue_id == st[i as int].issue_id);
                return false;
            }
            j = j + 1;
        }
        i = i + 1;
    }
    true
}

proof fn lemma_append_keeps_ids_distinct(stored: Seq<IssueView>, staged: Seq<IssueView>)
    requires
        distinct_issue_ids(stored),
        fresh_ids(stored, staged),
    ensures
        distinct_issue_ids(stored + staged),
{
    let all = stored + staged;
    assert forall|i: int, j: int| 0 <= i < j < all.len() implies all[i].issue_id != all[j].issue_id by {
        if j >= stored.len() && i < stored.len() {
            assert(all[j] == staged[j - stored.len()]);
            assert(!id_taken(stored, staged[j - stored.len()].issue_id));
            assert(all[i] == stored[i]);
        } else if i >= stored.len() {
            assert(all[i] == staged[i - stored.len()]);
            assert(all[j] == staged[j - stored.len()]);
        }
    }
}

/// What `try_processing` found for a key.
#[derive(Debug)]
pub enum Begin {
    /// The key is now held; do the work in this transaction.
    Started(Transaction),
    /// The work was done before; replay this response.
    Replay(SavedResponse),
    /// Another request holds the key.
    Conflict,
}

impl Store {
    /// One record per key, one issue per id, one subscriber per address.
    pub open spec fn wf(&self) -> bool {
        &&& self.idempotency.wf()
        &&& distinct_issue_ids(self@.issues)
        &&& distinct_emails(self.subscribers@)
    }

    pub fn new(subscribers: Vec<Subscriber>) -> (r: Store)
        requires
            distinct_emails(subscribers@),
        ensures
            r.wf(),
            r@.records == Map::<(u128, Seq<char>), Option<ResponseView>>::empty(),
            r@.issues == Seq::<IssueView>::empty(),
            r@.queue == Seq::<TaskView>::empty(),
            r@.subscribers == subscribers@,
    {
        let r = Store { idempotency: IdempotencyTable::new(), issues: Vec::new(), queue: Vec::new(), subscribers };
        assert(r@.issues =~= Seq::<IssueView>::empty());
        assert(r@.queue =~= Seq::<TaskView>::empty());
        r
    }

    /// Claims `(user_id, key)`: a free key gets a pending record and an empty
    /// transaction; a completed one gives its saved response; a pending one, a conflict.
    pub fn try_processing(&mut self, user_id: u128, key: &IdempotencyKey) -> (r: Begin)
        requires
            old(self).wf(),
        ensures
            final(self).wf(),
            final(self)@.issues == old(self)@.issues,
            final(self)@.queue == old(self)@.queue,
            final(self)@.subscribers == old(self)@.subscribers,
            match old(self)@.records.get((user_id, key@)) {
                None => (r matches Begin::Started(tx) && tx.user_id == user_id && tx.key@ == key@
                    && tx.issues@.len() == 0 && tx.tasks@.len() == 0) && final(self)@.records
                    == old(self)@.records.insert((user_id, key@), None),
                Some(None) => r is Conflict && final(self)@.records == old(self)@.records,
                Some(Some(saved)) => (r matches Begin::Replay(s) && s@ == saved) && final(self)@.records
                    == old(self)@.records,
            },
    {
        match self.idempotency.start_processing(user_id, key) {
            NextAction::StartProcessing => Begin::Started(
                Transaction { user_id, key: key.duplicate(), issues: Vec::new(), tasks: Vec::new() },
            ),
            NextAction::ReturnSavedResponse(s) => Begin::Replay(s),
            NextAction::InProgress => Begin::Conflict,
        }
    }

    /// Stages one delivery task per subscriber confirmed at this moment.
    pub fn enqueue_delivery_tasks(&self, tx: &mut Transaction, issue_id: u128, now: u64)
        requires
            self.wf(),
        ensures
            forall|i: int, j: int|
                0 <= i < j < fan_out_view(issue_id, self@.subscribers, now).len() ==> #[trigger] fan_out_view(
                    issue_id,
                    self@.subscribers,
                    now,
                )[i].subscriber_email != #[trigger] fan_out_view(issue_id, self@.subscribers, now)[j].subscriber_email,
            final(tx).user_id == old(tx).user_id,
            final(tx).key@ == old(tx).key@,
            final(tx).issues@ == old(tx).issues@,
            tasks_view(final(tx).tasks@) == tasks_view(old(tx).tasks@) + fan_out_view(issue_id, self@.subscribers, now),
    {
        proof {
            lemma_fan_out_one_task_per_email(issue_id, self@.subscribers, now);
        }
        let mut staged = fan_out(issue_id, &self.subscribers, now);
        let ghost before = tx.tasks@;
        let ghost added = staged@;
        tx.tasks.append(&mut staged);
        assert(tasks_view(tx.tasks@) =~= tasks_view(before) + tasks_view(added));
    }

    /// Stages the issue row; an id that a stored or staged issue has is refused
    /// and nothing is staged.
    pub fn insert_newsletter_issue(
        &self,
        tx: &mut Transaction,
        issue_id: u128,
        title: String,
        text_content: String,
        html_content: String,
        now: u64,
    ) -> (r: Result<(), StoreError>)
        ensures
            r is Err <==> id_taken(self@.issues, issue_id) || id_taken(issues_view(old(tx).issues@), issue_id),
            r is Err ==> r == Err::<(), StoreError>(StoreError::IssueIdTaken) && *final(tx) == *old(tx),
            final(tx).user_id == old(tx).user_id,
            final(tx).key@ == old(tx).key@,
            final(tx).tasks@ == old(tx).tasks@,
            r is Ok ==> issues_view(final(tx).issues@) == issues_view(old(tx).issues@).push(
                IssueView {
                    issue_id,
                    title: title@,
                    html_content: html_content@,
                    text_content: text_content@,
                    published_at: now,
                },
            ),
    {
        if issue_id_taken(&self.issues, issue_id) || issue_id_taken(&tx.issues, issue_id) {
            return Err(StoreError::IssueIdTaken);
        }
        let ghost before = tx.issues@;
        tx.issues.push(NewsletterIssue { issue_id, title, html_content, text_content, published_at: now });
        assert(issues_view(tx.issues@) =~= issues_view(before).push(
            IssueView {
                issue_id,
                title: title@,
                html_content: html_content@,
                text_content: text_content@,
                published_at: now,
            },
        ));
        Ok(())
    }

    /// Commits: records `response` against the transaction's key and makes its
    /// issues and tasks visible, all at once. Where a staged issue id is taken,
    /// the transaction rolls back instead; without a pending record nothing changes.
    pub fn save_response(&mut self, tx: Transaction, response: SavedResponse) -> (r: Result<SavedResponse, StoreError>)
        requires
            old(self).wf(),
        ensures
            final(self).wf(),
            !fresh_ids(old(self)@.issues, issues_view(tx.issues@)) ==> r == Err::<SavedResponse, StoreError>(
                StoreError::IssueIdTaken,
            ) && final(self)@ == (StoreView {
                records: released(old(self)@.records, (tx.user_id, tx.key@)),
                ..old(self)@
            }),
            fresh_ids(old(self)@.issues, issues_view(tx.issues@)) ==> match old(self)@.records.get((tx.user_id, tx.key@)) {
                None => r == Err::<SavedResponse, StoreError>(StoreError::NotStarted) && final(self)@ == old(self)@,
                Some(Some(_)) => r == Err::<SavedResponse, StoreError>(StoreError::AlreadyCompleted)
                    && final(self)@ == old(self)@,
                Some(None) => (r matches Ok(s) && s@ == response@) && final(self)@ == committed(
                    old(self)@,
                    tx,
                    response@,
                ),
            },
    {
        if !ids_fresh(&self.issues, &tx.issues) {
            self.idempotency.release(tx.user_id, &tx.key);
            assert(self@.issues == old(self)@.issues);
            return Err(StoreError::IssueIdTaken);
        }
        let reply = response.duplicate();
        let Transaction { user_id, key, issues, tasks } = tx;
        let mut issues = issues;
        let mut tasks = tasks;
        let ghost staged_issues = issues@;
        let ghost staged_tasks = tasks@;
        match self.idempotency.save_response(user_id, &key, response) {
            Err(SaveError::NotStarted) => Err(StoreError::NotStarted),
            Err(SaveError::AlreadyCompleted) => Err(StoreError::AlreadyCompleted),
            Ok(()) => {
                let ghost before_issues = self.issues@;
                let ghost before_queue = self.queue@;
                self.issues.append(&mut issues);
                self.queue.append(&mut tasks);
                assert(issues_view(self.issues@) =~= issues_view(before_issues) + issues_view(staged_issues));
                assert(tasks_view(self.queue@) =~= tasks_view(before_queue) + tasks_view(staged_tasks));
                proof {
                    lemma_append_keeps_ids_distinct(issues_view(before_issues), issues_view(staged_issues));
                }
                Ok(reply)
            },
        }
    }

    /// Rolls back: the transaction's writes are dropped and its pending record removed.
    pub fn rollback(&mut self, tx: Transaction)
        requires
            old(self).wf(),
        ensures
            final(self).wf(),
            final(self)@.issues == old(self)@.issues,
            final(self)@.queue == old(self)@.queue,
            final(self)@.subscribers == old(self)@.subscribers,
            final(self)@.records == released(old(self)@.records, (tx.user_id, tx.key@)),
    {
        self.idempotency.release(tx.user_id, &tx.key);
    }
}

/// The task `t` as it stands once `worker` holds its lock.
pub open spec fn locked(t: TaskView, worker: u64) -> TaskView {
    TaskView { locked_by: Some(worker), ..t }
}

/// The queue after an attempt on the task at `i` came to `decision`.
pub open spec fn queue_after(q: Seq<TaskView>, i: int, decision: TaskDecision) -> Seq<TaskView> {
    match decision {
        TaskDecision::Retry { n_retries, execute_after } => q.update(
            i,
            TaskView { n_retries, execute_after, locked_by: None, ..q[i] },
        ),
        _ => q.remove(i),
    }
}

impl Store {
    /// Claims the first task that is due at `now` and that no worker holds,
    /// skipping locked rows, and locks it for `worker`.
    pub fn claim_task(&mut self, worker: u64, now: u64) -> (r: Option<usize>)
        ensures
            final(self).wf() == old(self).wf(),
            final(self).idempotency == old(self).idempotency,
            final(self)@.records == old(self)@.records,
            final(self)@.issues == old(self)@.issues,
            final(self)@.subscribers == old(self)@.subscribers,
            match r {
                None => final(self)@.queue == old(self)@.queue && forall|j: int|
                    0 <= j < old(self)@.queue.len() ==> !claimable(
                        #[trigger] old(self)@.queue[j].execute_after,
                        old(self)@.queue[j].locked_by,
                        now,
                    ),
                Some(i) => i < old(self)@.queue.len() && claimable(
                    old(self)@.queue[i as int].execute_after,
                    old(self)@.queue[i as int].locked_by,
                    now,
                ) && (forall|j: int|
                    0 <= j < i ==> !claimable(
                        #[trigger] old(self)@.queue[j].execute_after,
                        old(self)@.queue[j].locked_by,
                        now,
                    )) && final(self)@.queue == old(self)@.queue.update(
                    i as int,
                    locked(old(self)@.queue[i as int], worker),
                ),
            },
    {
        let mut i: usize = 0;
        while i < self.queue.len()
            invariant
                i <= self.queue@.len(),
                self.idempotency == old(self).idempotency,
                self.issues == old(self).issues,
                self.subscribers == old(self).subscribers,
                self.queue == old(self).queue,
                forall|j: int|
                    0 <= j < i ==> !claimable(
                        #[trigger] self@.queue[j].execute_after,
                        self@.queue[j].locked_by,
                        now,
                    ),
            decreases self.queue@.len() - i,
        {
            if self.queue[i].execute_after <= now && self.queue[i].locked_by.is_none() {
                let ghost before = self.queue@;
                self.queue[i].locked_by = Some(worker);
                assert(tasks_view(self.queue@) =~= tasks_view(before).update(
                    i as int,
                    locked(tasks_view(before)[i as int], worker),
                ));
                return Some(i);
            }
            i = i + 1;
        }
        None
    }

    /// Applies the retry policy to the attempt that `worker` made on the task it
    /// holds at `i`: a sent or permanently failed task leaves the queue; a task to
    /// retry stays, unlocked, with its new count and due time.
    pub fn finish_attempt(
        &mut self,
        i: usize,
        worker: u64,
        outcome: AttemptOutcome,
        policy: &RetryPolicy,
        now: u64,
    ) -> (r: TaskDecision)
        requires
            i < old(self)@.queue.len(),
            old(self)@.queue[i as int].locked_by == Some(worker),
            policy.valid(),
        ensures
            final(self).wf() == old(self).wf(),
            r matches TaskDecision::Retry { execute_after, .. } ==> execute_after > now || now == u64::MAX,
            r == decide_spec(*policy, old(self)@.queue[i as int].n_retries, outcome, now),
            final(self).idempotency == old(self).idempotency,
            final(self)@.records == old(self)@.records,
            final(self)@.issues == old(self)@.issues,
            final(self)@.subscribers == old(self)@.subscribers,
            final(self)@.queue == queue_after(old(self)@.queue, i as int, r),
    {
        let ghost before = self.queue@;
        let d = decide(policy, self.queue[i].n_retries, outcome, now);
        match d {
            TaskDecision::Retry { n_retries, execute_after } => {
                self.queue[i].n_retries = n_retries;
                self.queue[i].execute_after = execute_after;
                self.queue[i].locked_by = None;
                assert(tasks_view(self.queue@) =~= queue_after(tasks_view(before), i as int, d));
            },
            _ => {
                let _ = self.queue.remove(i);
                assert(tasks_view(self.queue@) =~= queue_after(tasks_view(before), i as int, d));
            },
        }
        d
    }
}

/// A task held by one worker cannot be claimed by another until the attempt
/// is finished: claiming locks the row, and only an unlocked row is claimable.
pub proof fn lemma_claim_is_exclusive(q: Seq<TaskView>, i: int, worker: u64, now: u64)
    requires
        0 <= i < q.len(),
    ensures
        forall|j: int|
            0 <= j < q.len() && #[trigger] claimable(
                q.update(i, locked(q[i], worker))[j].execute_after,
                q.update(i, locked(q[i], worker))[j].locked_by,
                now,
            ) ==> j != i,
{
}

} // verus!
