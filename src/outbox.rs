//! Newsletter issues, subscribers and the fan-out of one delivery task per
//! confirmed subscriber.
use vstd::prelude::*;

verus! {

#[derive(Debug, Clone, Copy, PartialEq, Eq, Structural)]
pub enum SubscriptionStatus {
    PendingConfirmation,
    Confirmed,
}

#[derive(Debug)]
pub struct Subscriber {
    pub email: String,
    pub status: SubscriptionStatus,
}

/// A published issue; it never changes once stored.
#[derive(Debug)]
pub struct NewsletterIssue {
    pub issue_id: u128,
    pub title: String,
    pub html_content: String,
    pub text_content: String,
    pub published_at: u64,
}

pub struct IssueView {
    pub issue_id: u128,
    pub title: Seq<char>,
    pub html_content: Seq<char>,
    pub text_content: Seq<char>,
    pub published_at: u64,
}

impl View for NewsletterIssue {
    type V = IssueView;

    open spec fn view(&self) -> IssueView {
        IssueView {
            issue_id: self.issue_id,
            title: self.title@,
            html_content: self.html_content@,
            text_content: self.text_content@,
            published_at: self.published_at,
        }
    }
}

/// One pending `(issue, recipient)` pair of the delivery queue.
/// `locked_by` is the worker holding the row lock, if any.
#[derive(Debug)]
pub struct DeliveryTask {
    pub issue_id: u128,
    pub subscriber_email: String,
    pub n_retries: u32,
    pub execute_after: u64,
    pub locked_by: Option<u64>,
}

pub struct TaskView {
    pub issue_id: u128,
    pub subscriber_email: Seq<char>,
    pub n_retries: u32,
    pub execute_after: u64,
    pub locked_by: Option<u64>,
}

impl View for DeliveryTask {
    type V = TaskView;

    open spec fn view(&self) -> TaskView {
        TaskView {
            issue_id: self.issue_id,
            subscriber_email: self.subscriber_email@,
            n_retries: self.n_retries,
            execute_after: self.execute_after,
            locked_by: self.locked_by,
        }
    }
}

pub open spec fn task_view(t: DeliveryTask) -> TaskView {
    t@
}

pub open spec fn issue_view(i: NewsletterIssue) -> IssueView {
    i@
}

pub open spec fn tasks_view(ts: Seq<DeliveryTask>) -> Seq<TaskView> {
    ts.map_values(|t: DeliveryTask| task_view(t))
}

pub open spec fn issues_view(is: Seq<NewsletterIssue>) -> Seq<IssueView> {
    is.map_values(|i: NewsletterIssue| issue_view(i))
}

/// The addresses of the confirmed subscribers, in table order.
pub open spec fn confirmed_emails(subs: Seq<Subscriber>) -> Seq<Seq<char>>
    decreases subs.len(),
{
    if subs.len() == 0 {
        Seq::empty()
    } else {
        let rest = confirmed_emails(subs.drop_last());
        if subs.last().status == SubscriptionStatus::Confirmed {
            rest.push(subs.last().email@)
        } else {
            rest
        }
    }
}

/// No two subscribers share an address, as in the subscriptions table.
pub open spec fn distinct_emails(subs: Seq<Subscriber>) -> bool {
    forall|i: int, j: int| 0 <= i < j < subs.len() ==> subs[i].email@ != subs[j].email@
}

pub open spec fn emails_of(subs: Seq<Subscriber>) -> Seq<Seq<char>> {
    subs.map_values(|s: Subscriber| s.email@)
}

pub open spec fn no_repeats(es: Seq<Seq<char>>) -> bool {
    forall|i: int, j: int| 0 <= i < j < es.len() ==> es[i] != es[j]
}

proof fn lemma_confirmed_emails(subs: Seq<Subscriber>)
    ensures
        forall|i: int|
            0 <= i < confirmed_emails(subs).len() ==> emails_of(subs).contains(
                #[trigger] confirmed_emails(subs)[i],
            ),
        distinct_emails(subs) ==> no_repeats(confirmed_emails(subs)),
    decreases subs.len(),
{
    if subs.len() > 0 {
        let init = subs.drop_last();
        lemma_confirmed_emails(init);
        let rest = confirmed_emails(init);
        let ce = confirmed_emails(subs);
        assert forall|i: int| 0 <= i < rest.len() implies emails_of(subs).contains(rest[i]) by {
            assert(emails_of(init).contains(rest[i]));
            let k = choose|k: int| 0 <= k < emails_of(init).len() && emails_of(init)[k] == rest[i];
            assert(emails_of(subs)[k] == rest[i]);
        }
        if subs.last().status == SubscriptionStatus::Confirmed {
            assert(ce == rest.push(subs.last().email@));
            assert(emails_of(subs)[subs.len() - 1] == subs.last().email@);
            assert forall|i: int| 0 <= i < ce.len() implies emails_of(subs).contains(#[trigger] ce[i]) by {
                if i < rest.len() {
                    assert(ce[i] == rest[i]);
                }
            }
            if distinct_emails(subs) {
                assert(distinct_emails(init)) by {
                    assert forall|i: int, j: int| 0 <= i < j < init.len() implies init[i].email@ != init[j].email@ by {
                        assert(init[i] == subs[i] && init[j] == subs[j]);
                    }
                }
                assert forall|i: int| 0 <= i < rest.len() implies rest[i] != subs.last().email@ by {
                    assert(emails_of(init).contains(rest[i]));
                    let k = choose|k: int| 0 <= k < emails_of(init).len() && emails_of(init)[k] == rest[i];
                    assert(subs[k].email@ == rest[i]);
                }
                assert forall|i: int, j: int| 0 <= i < j < ce.len() implies ce[i] != ce[j] by {
                    if j < rest.len() {
                        assert(ce[i] == rest[i] && ce[j] == rest[j]);
                    } else {
                        assert(ce[i] == rest[i]);
                    }
                }
            }
        } else {
            if distinct_emails(subs) {
                assert forall|i: int, j: int| 0 <= i < j < init.len() implies init[i].email@ != init[j].email@ by {
                    assert(init[i] == subs[i] && init[j] == subs[j]);
                }
            }
        }
    }
}

/// With distinct addresses, a fan-out holds at most one task per address, so
/// one per `(issue, address)` pair.
pub proof fn lemma_fan_out_one_task_per_email(issue_id: u128, subs: Seq<Subscriber>, now: u64)
    requires
        distinct_emails(subs),
    ensures
        forall|i: int, j: int|
            0 <= i < j < fan_out_view(issue_id, subs, now).len() ==> #[trigger] fan_out_view(issue_id, subs, now)[i].subscriber_email
                != #[trigger] fan_out_view(issue_id, subs, now)[j].subscriber_email,
{
    lemma_confirmed_emails(subs);
}

/// A fresh task for `email`: no failures yet, due at `now`, unlocked.
pub open spec fn fresh_task(issue_id: u128, email: Seq<char>, now: u64) -> TaskView {
    TaskView { issue_id, subscriber_email: email, n_retries: 0, execute_after: now, locked_by: None }
}

/// The tasks that publishing `issue_id` schedules: one per confirmed subscriber.
pub open spec fn fan_out_view(issue_id: u128, subs: Seq<Subscriber>, now: u64) -> Seq<TaskView> {
    confirmed_emails(subs).map_values(|e: Seq<char>| fresh_task(issue_id, e, now))
}

/// Builds one delivery task per confirmed subscriber of `subscribers`, in order.
pub fn fan_out(issue_id: u128, subscribers: &Vec<Subscriber>, now: u64) -> (r: Vec<DeliveryTask>)
    ensures
        tasks_view(r@) == fan_out_view(issue_id, subscribers@, now),
{
    let mut r: Vec<DeliveryTask> = Vec::new();
    let mut i: usize = 0;
    while i < subscribers.len()
        invariant
            i <= subscribers@.len(),
            tasks_view(r@) == fan_out_view(issue_id, subscribers@.subrange(0, i as int), now),
        decreases subscribers@.len() - i,
    {
        let s = &subscribers[i];
        proof {
            assert(subscribers@.subrange(0, i + 1).drop_last() =~= subscribers@.subrange(0, i as int));
        }
        let ghost prev = r@;
        if s.status == SubscriptionStatus::Confirmed {
            r.push(
                DeliveryTask {
                    issue_id,
                    subscriber_email: s.email.clone(),
                    n_retries: 0,
                    execute_after: now,
                    locked_by: None,
                },
            );
            assert(tasks_view(r@) =~= tasks_view(prev).push(fresh_task(issue_id, s.email@, now)));
            assert(subscribers@.subrange(0, i + 1).last() == subscribers@[i as int]);
            assert(confirmed_emails(subscribers@.subrange(0, i + 1)) == confirmed_emails(
                subscribers@.subrange(0, i as int),
            ).push(s.email@));
            assert(tasks_view(r@) =~= fan_out_view(issue_id, subscribers@.subrange(0, i + 1), now));
        } else {
            assert(tasks_view(r@) =~= fan_out_view(issue_id, subscribers@.subrange(0, i + 1), now));
        }
        i = i + 1;
    }
    assert(subscribers@.subrange(0, i as int) =~= subscribers@);
    r
}

} // verus!
