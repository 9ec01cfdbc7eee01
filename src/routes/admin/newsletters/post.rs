//! Publishing a newsletter issue: idempotency key, issue and fan-out in one
//! transaction, and the response saved against the key.
use vstd::prelude::*;
use vstd::string::StringSliceAdditionalSpecFns;
use crate::idempotency::{see_other, see_other_view, valid_key, IdempotencyKey, KeyError, HeaderPair, ResponseView, SavedResponse, MAX_KEY_LEN};
use crate::outbox::{fan_out_view, IssueView};
use crate::store::{id_taken, Begin, Store, StoreView};

verus! {

/// Where a successful publication sends the client.
pub const ISSUE_LIST: &'static str = "/admin/newsletters";

/// The publish form.
#[derive(Debug)]
pub struct FormData {
    pub title: String,
    pub html_content: String,
    pub text_content: String,
    pub idempotency_key: String,
}

#[derive(Debug)]
pub enum PublishError {
    /// The caller is not authenticated.
    AuthError(String),
    /// The store failed; nothing was written.
    UnexepectedError(String),
    /// The idempotency key is malformed; nothing was written.
    InvalidKey(KeyError),
    /// Another request holds the key and has not finished; retry later.
    InProgress,
    /// The id drawn for the new issue belongs to a stored issue; nothing was written.
    IssueIdTaken,
}

/// The status code that each error answers with.
pub open spec fn error_status(e: PublishError) -> u16 {
    match e {
        PublishError::AuthError(_) => 401,
        PublishError::UnexepectedError(_) => 500,
        PublishError::InvalidKey(_) => 400,
        PublishError::InProgress => 500,
        PublishError::IssueIdTaken => 500,
    }
}

impl PublishError {
    /// The response sent for this error: an authentication failure asks for
    /// basic credentials of the `publish` realm; the others carry no header.
    pub fn error_response(&self) -> (r: SavedResponse)
        ensures
            r@.status_code == error_status(*self),
            r@.body.len() == 0,
            *self is AuthError ==> r@.headers == seq![("www-authenticate"@, "Basic realm=\"publish\"".spec_bytes())],
            !(*self is AuthError) ==> r@.headers.len() == 0,
    {
        let status: u16 = match self {
            PublishError::AuthError(_) => 401,
            PublishError::UnexepectedError(_) => 500,
            PublishError::InvalidKey(_) => 400,
            PublishError::InProgress => 500,
            PublishError::IssueIdTaken => 500,
        };
        let mut headers: Vec<HeaderPair> = Vec::new();
        if let PublishError::AuthError(_) = self {
            headers.push(
                HeaderPair {
                    name: String::from_str("www-authenticate"),
                    value: "Basic realm=\"publish\"".as_bytes_vec(),
                },
            );
        }
        let r = SavedResponse { status_code: status, headers, body: Vec::new() };
        assert(r@.headers =~= if *self is AuthError {
            seq![("www-authenticate"@, "Basic realm=\"publish\"".spec_bytes())]
        } else {
            Seq::empty()
        });
        r
    }
}

/// The response to a first successful publication.
pub open spec fn issue_list_redirect() -> ResponseView {
    see_other_view(ISSUE_LIST.spec_bytes())
}

/// The error for a malformed key.
pub open spec fn key_error(key: Seq<char>) -> KeyError {
    if key.len() == 0 {
        KeyError::Empty
    } else {
        KeyError::TooLong
    }
}

/// The store and the reply after `user_id` submits `form`, where a new issue
/// would get `issue_id` and be published at `now`.
pub open spec fn publish_spec(s: StoreView, user_id: u128, form: FormData, issue_id: u128, now: u64) -> (
    StoreView,
    Result<ResponseView, PublishError>,
) {
    let key = form.idempotency_key@;
    if !valid_key(key) {
        (s, Err(PublishError::InvalidKey(key_error(key))))
    } else {
        match s.records.get((user_id, key)) {
            Some(Some(saved)) => (s, Ok(saved)),
            Some(None) => (s, Err(PublishError::InProgress)),
            None => if id_taken(s.issues, issue_id) {
                (s, Err(PublishError::IssueIdTaken))
            } else { (
                StoreView {
                    records: s.records.insert((user_id, key), Some(issue_list_redirect())),
                    issues: s.issues.push(
                        IssueView {
                            issue_id,
                            title: form.title@,
                            html_content: form.html_content@,
                            text_content: form.text_content@,
                            published_at: now,
                        },
                    ),
                    queue: s.queue + fan_out_view(issue_id, s.subscribers, now),
                    subscribers: s.subscribers,
                },
                Ok(issue_list_redirect()),
            ) },
        }
    }
}

/// A reply seen byte for byte.
pub open spec fn reply_view(r: Result<SavedResponse, PublishError>) -> Result<ResponseView, PublishError> {
    match r {
        Ok(s) => Ok(s@),
        Err(e) => Err(e),
    }
}

/// Publishes `form` for `user_id`, with `issue_id` for the new issue.
pub fn publish_newsletter_with_id(store: &mut Store, user_id: u128, form: FormData, issue_id: u128, now: u64) -> (r:
    Result<SavedResponse, PublishError>)
    requires
        old(store).wf(),
    ensures
        final(store).wf(),
        (final(store)@, reply_view(r)) == publish_spec(old(store)@, user_id, form, issue_id, now),
{
    let ghost form_spec = form;
    let FormData { title, html_content, text_content, idempotency_key } = form;
    let key = match IdempotencyKey::parse(idempotency_key) {
        Ok(k) => k,
        Err(e) => {
            return Err(PublishError::InvalidKey(e));
        },
    };
    let mut tx = match store.try_processing(user_id, &key) {
        Begin::Started(tx) => tx,
        Begin::Replay(saved) => {
            return Ok(saved);
        },
        Begin::Conflict => {
            return Err(PublishError::InProgress);
        },
    };
    if store.insert_newsletter_issue(&mut tx, issue_id, title, text_content, html_content, now).is_err() {
        store.rollback(tx);
        assert(store@.records =~= old(store)@.records);
        return Err(PublishError::IssueIdTaken);
    }
    store.enqueue_delivery_tasks(&mut tx, issue_id, now);
    let response = see_other(ISSUE_LIST);
    match store.save_response(tx, response) {
        Ok(saved) => {
            assert(store@.issues =~= old(store)@.issues.push(
                IssueView {
                    issue_id,
                    title: form_spec.title@,
                    html_content: form_spec.html_content@,
                    text_content: form_spec.text_content@,
                    published_at: now,
                },
            ));
            assert(store@.records =~= old(store)@.records.insert((user_id, key@), Some(issue_list_redirect())));
            Ok(saved)
        },
        Err(_) => Err(PublishError::UnexepectedError(String::from_str("Failed to save the response"))),
    }
}

/// Relies on uuid::Uuid::new_v4, a random version-4 identifier, read as a number.
#[verifier::external_body]
fn new_issue_id() -> (r: u128) {
    uuid::Uuid::new_v4().as_u128()
}

/// Publishes `form` for the authenticated `user_id` at time `now`; a new issue
/// gets a freshly drawn identifier.
pub fn publish_newsletter(store: &mut Store, user_id: u128, form: FormData, now: u64) -> (r: Result<
    SavedResponse,
    PublishError,
>)
    requires
        old(store).wf(),
    ensures
        final(store).wf(),
        exists|issue_id: u128|
            (final(store)@, reply_view(r)) == #[trigger] publish_spec(old(store)@, user_id, form, issue_id, now),
{
    let issue_id = new_issue_id();
    let ghost f = form;
    let r = publish_newsletter_with_id(store, user_id, form, issue_id, now);
    assert((store@, reply_view(r)) == publish_spec(old(store)@, user_id, f, issue_id, now));
    r
}

/// The store and the replies after `user_id` submits each of `forms` in turn,
/// the i-th one offering `ids[i]` for a new issue.
pub open spec fn publish_repeated(
    s: StoreView,
    user_id: u128,
    forms: Seq<FormData>,
    ids: Seq<u128>,
    now: u64,
) -> (StoreView, Seq<Result<ResponseView, PublishError>>)
    decreases forms.len(),
{
    if forms.len() == 0 {
        (s, Seq::empty())
    } else {
        let (s1, r1) = publish_spec(s, user_id, forms[0], ids[0], now);
        let (s2, rest) = publish_repeated(s1, user_id, forms.drop_first(), ids.drop_first(), now);
        (s2, seq![r1] + rest)
    }
}

/// Once a key holds a saved response, any number of further submissions with
/// that key change nothing and all get that response.
pub proof fn lemma_completed_key_is_fixed(
    s: StoreView,
    user_id: u128,
    key: Seq<char>,
    forms: Seq<FormData>,
    ids: Seq<u128>,
    now: u64,
)
    requires
        valid_key(key),
        s.records.get((user_id, key)) is Some,
        s.records[(user_id, key)] is Some,
        forall|i: int| 0 <= i < forms.len() ==> (#[trigger] forms[i]).idempotency_key@ == key,
    ensures
        publish_repeated(s, user_id, forms, ids, now).0 == s,
        publish_repeated(s, user_id, forms, ids, now).1.len() == forms.len(),
        forall|i: int|
            0 <= i < forms.len() ==> #[trigger] publish_repeated(s, user_id, forms, ids, now).1[i] == Ok::<
                ResponseView,
                PublishError,
            >(s.records[(user_id, key)].unwrap()),
    decreases forms.len(),
{
    if forms.len() > 0 {
        assert(forms[0].idempotency_key@ == key);
        let rest = forms.drop_first();
        assert forall|i: int| 0 <= i < rest.len() implies (#[trigger] rest[i]).idempotency_key@ == key by {
            assert(rest[i] == forms[i + 1]);
        }
        lemma_completed_key_is_fixed(s, user_id, key, rest, ids.drop_first(), now);
        let rs = publish_repeated(s, user_id, forms, ids, now).1;
        let tail = publish_repeated(s, user_id, rest, ids.drop_first(), now).1;
        assert forall|i: int| 0 <= i < forms.len() implies #[trigger] rs[i] == Ok::<
            ResponseView,
            PublishError,
        >(s.records[(user_id, key)].unwrap()) by {
            if i > 0 {
                assert(rs[i] == tail[i - 1]);
            }
        }
    }
}

/// Submitting the same publication `n >= 1` times in sequence, under a key that
/// was never used and with a first issue id that no stored issue has, stores exactly one issue and one fan-out of delivery tasks,
/// and every submission gets the same redirect to the issue list.
pub proof fn lemma_publish_is_idempotent(
    s: StoreView,
    user_id: u128,
    key: Seq<char>,
    forms: Seq<FormData>,
    ids: Seq<u128>,
    now: u64,
)
    requires
        valid_key(key),
        !s.records.contains_key((user_id, key)),
        !id_taken(s.issues, ids[0]),
        forms.len() >= 1,
        forall|i: int| 0 <= i < forms.len() ==> (#[trigger] forms[i]).idempotency_key@ == key,
    ensures
        publish_repeated(s, user_id, forms, ids, now).0.issues == s.issues.push(
            IssueView {
                issue_id: ids[0],
                title: forms[0].title@,
                html_content: forms[0].html_content@,
                text_content: forms[0].text_content@,
                published_at: now,
            },
        ),
        publish_repeated(s, user_id, forms, ids, now).0.queue == s.queue + fan_out_view(
            ids[0],
            s.subscribers,
            now,
        ),
        publish_repeated(s, user_id, forms, ids, now).1.len() == forms.len(),
        forall|i: int|
            0 <= i < forms.len() ==> #[trigger] publish_repeated(s, user_id, forms, ids, now).1[i] == Ok::<
                ResponseView,
                PublishError,
            >(issue_list_redirect()),
{
    assert(forms[0].idempotency_key@ == key);
    let s1 = publish_spec(s, user_id, forms[0], ids[0], now).0;
    let rest = forms.drop_first();
    assert forall|i: int| 0 <= i < rest.len() implies (#[trigger] rest[i]).idempotency_key@ == key by {
        assert(rest[i] == forms[i + 1]);
    }
    assert(s1.records[(user_id, key)] == Some(issue_list_redirect()));
    lemma_completed_key_is_fixed(s1, user_id, key, rest, ids.drop_first(), now);
    let rs = publish_repeated(s, user_id, forms, ids, now).1;
    let tail = publish_repeated(s1, user_id, rest, ids.drop_first(), now).1;
    assert forall|i: int| 0 <= i < forms.len() implies #[trigger] rs[i] == Ok::<ResponseView, PublishError>(
        issue_list_redirect(),
    ) by {
        if i > 0 {
            assert(rs[i] == tail[i - 1]);
        }
    }
}

/// While a first request holds a key (its record is pending), a second request
/// with the same key writes nothing and is told to retry.
pub proof fn lemma_concurrent_first_attempt_conflicts(
    s: StoreView,
    user_id: u128,
    form: FormData,
    issue_id: u128,
    now: u64,
)
    requires
        valid_key(form.idempotency_key@),
        s.records.get((user_id, form.idempotency_key@)) == Some(None::<ResponseView>),
    ensures
        publish_spec(s, user_id, form, issue_id, now) == (s, Err::<ResponseView, PublishError>(
            PublishError::InProgress,
        )),
{
}

/// A publication either leaves issues and queue as they were, or adds its issue
/// together with the whole fan-out for it; never one without the other.
pub proof fn lemma_publish_is_atomic(s: StoreView, user_id: u128, form: FormData, issue_id: u128, now: u64)
    ensures
        ({
            let s2 = publish_spec(s, user_id, form, issue_id, now).0;
            (s2.issues == s.issues && s2.queue == s.queue) || (s2.issues.len() == s.issues.len() + 1
                && s2.issues.last().issue_id == issue_id && s2.queue == s.queue + fan_out_view(
                issue_id,
                s.subscribers,
                now,
            ))
        }),
{
}

} // verus!
