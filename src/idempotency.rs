//! Idempotency keys, saved responses and the table that maps
//! `(user, key)` to "in progress" or to the response that was sent.
use vstd::prelude::*;
use vstd::string::StringSliceAdditionalSpecFns;
use vstd::string::StrSliceExecFns;

verus! {

/// Greatest number of characters an idempotency key may hold.
pub const MAX_KEY_LEN: usize = 50;

/// A key is well formed when it holds between one and `MAX_KEY_LEN` characters.
pub open spec fn valid_key(s: Seq<char>) -> bool {
    1 <= s.len() <= MAX_KEY_LEN
}

/// Why a candidate idempotency key was rejected.
#[derive(Debug, Clone, Copy, PartialEq, Eq, Structural)]
pub enum KeyError {
    Empty,
    TooLong,
}

impl KeyError {
    pub fn message(&self) -> (r: String)
        ensures
            *self is Empty ==> r@ == "The idempotency key cannot be empty"@,
            *self is TooLong ==> r@ == "The idempotency key must hold at most 50 characters"@,
    {
        match self {
            KeyError::Empty => String::from_str("The idempotency key cannot be empty"),
            KeyError::TooLong => String::from_str("The idempotency key must hold at most 50 characters"),
        }
    }
}

/// A client-chosen token that scopes "the same logical request" across retries.
/// Immutable once built; only `parse` builds one.
#[derive(Debug)]
pub struct IdempotencyKey {
    value: String,
}

impl View for IdempotencyKey {
    type V = Seq<char>;

    closed spec fn view(&self) -> Seq<char> {
        self.value@
    }
}

impl IdempotencyKey {
    /// Accepts `s` when it holds 1 to `MAX_KEY_LEN` characters.
    pub fn parse(s: String) -> (r: Result<IdempotencyKey, KeyError>)
        ensures
            s@.len() == 0 <==> r == Err::<IdempotencyKey, KeyError>(KeyError::Empty),
            s@.len() > MAX_KEY_LEN <==> r == Err::<IdempotencyKey, KeyError>(KeyError::TooLong),
            valid_key(s@) <==> r is Ok,
            r matches Ok(k) ==> k@ == s@,
    {
        let n = s.unicode_len();
        if n == 0 {
            Err(KeyError::Empty)
        } else if n > MAX_KEY_LEN {
            Err(KeyError::TooLong)
        } else {
            Ok(IdempotencyKey { value: s })
        }
    }

    pub fn as_str(&self) -> (r: &str)
        ensures
            r@ == self@,
    {
        self.value.as_str()
    }

    pub fn duplicate(&self) -> (r: IdempotencyKey)
        ensures
            r@ == self@,
    {
        IdempotencyKey { value: self.value.clone() }
    }

    pub fn same_as(&self, other: &IdempotencyKey) -> (r: bool)
        ensures
            r == (self@ == other@),
    {
        self.value == other.value
    }
}

/// One response header; names may repeat and their order is kept.
#[derive(Debug)]
pub struct HeaderPair {
    pub name: String,
    pub value: Vec<u8>,
}

/// What a header pair is: its name and its bytes.
pub open spec fn header_view(h: HeaderPair) -> (Seq<char>, Seq<u8>) {
    (h.name@, h.value@)
}

/// A response as it is stored and replayed: status, ordered headers, body bytes.
#[derive(Debug)]
pub struct SavedResponse {
    pub status_code: u16,
    pub headers: Vec<HeaderPair>,
    pub body: Vec<u8>,
}

/// A response seen byte for byte.
pub struct ResponseView {
    pub status_code: u16,
    pub headers: Seq<(Seq<char>, Seq<u8>)>,
    pub body: Seq<u8>,
}

impl View for SavedResponse {
    type V = ResponseView;

    open spec fn view(&self) -> ResponseView {
        ResponseView {
            status_code: self.status_code,
            headers: self.headers@.map_values(|h: HeaderPair| header_view(h)),
            body: self.body@,
        }
    }
}

pub fn copy_bytes(b: &Vec<u8>) -> (r: Vec<u8>)
    ensures
        r@ == b@,
{
    let mut r: Vec<u8> = Vec::new();
    let mut i: usize = 0;
    while i < b.len()
        invariant
            i <= b@.len(),
            r@ == b@.subrange(0, i as int),
        decreases b@.len() - i,
    {
        r.push(b[i]);
        i = i + 1;
    }
    assert(r@ =~= b@);
    r
}

impl SavedResponse {
    /// A copy that is identical byte for byte.
    pub fn duplicate(&self) -> (r: SavedResponse)
        ensures
            r@ == self@,
    {
        let mut headers: Vec<HeaderPair> = Vec::new();
        let mut i: usize = 0;
        while i < self.headers.len()
            invariant
                i <= self.headers@.len(),
                headers@.len() == i,
                forall|j: int|
                    0 <= j < i ==> #[trigger] header_view(headers@[j]) == header_view(
                        self.headers@[j],
                    ),
            decreases self.headers@.len() - i,
        {
            let h = &self.headers[i];
            headers.push(HeaderPair { name: h.name.clone(), value: copy_bytes(&h.value) });
            i = i + 1;
        }
        let r = SavedResponse {
            status_code: self.status_code,
            headers,
            body: copy_bytes(&self.body),
        };
        assert(r@.headers =~= self@.headers);
        r
    }
}

/// The `303 See Other` response that sends the client to `location`.
pub open spec fn see_other_view(location: Seq<u8>) -> ResponseView {
    ResponseView {
        status_code: 303,
        headers: seq![("location"@, location)],
        body: Seq::empty(),
    }
}

/// Builds the `303 See Other` response that sends the client to `location`.
pub fn see_other(location: &str) -> (r: SavedResponse)
    ensures
        r@ == see_other_view(location.spec_bytes()),
{
    let mut headers: Vec<HeaderPair> = Vec::new();
    headers.push(HeaderPair { name: String::from_str("location"), value: location.as_bytes_vec() });
    let r = SavedResponse { status_code: 303, headers, body: Vec::new() };
    assert(r@.headers =~= seq![("location"@, location.spec_bytes())]);
    assert(r@.body =~= Seq::<u8>::empty());
    r
}

/// What a stored row holds: `None` while pending, the response once completed.
pub open spec fn stored_view(o: Option<SavedResponse>) -> Option<ResponseView> {
    match o {
        Some(r) => Some(r@),
        None => None,
    }
}

/// One row of the idempotency table.
#[derive(Debug)]
pub struct IdempotencyRecord {
    pub user_id: u128,
    pub key: IdempotencyKey,
    pub response: Option<SavedResponse>,
}

pub open spec fn row_matches(r: IdempotencyRecord, user_id: u128, key: Seq<char>) -> bool {
    r.user_id == user_id && r.key@ == key
}

/// What the caller of `start_processing` must do next.
#[derive(Debug)]
pub enum NextAction {
    /// The key was free: a pending row now holds it and the caller does the work.
    StartProcessing,
    /// The work was done before: this is the response to send again.
    ReturnSavedResponse(SavedResponse),
    /// Another request holds the key and has not finished: retry later.
    InProgress,
}

/// The action for a request, from the store's answer: whether its insert of
/// a pending record went through and, where it did not, what the existing
/// record holds.
pub fn next_action(inserted: bool, saved: Option<SavedResponse>) -> (r: NextAction)
    ensures
        inserted ==> r is StartProcessing,
        !inserted && saved is None ==> r is InProgress,
        !inserted && saved is Some ==> (r matches NextAction::ReturnSavedResponse(s) && s@ == saved->0@),
{
    if inserted {
        NextAction::StartProcessing
    } else {
        match saved {
            Some(s) => NextAction::ReturnSavedResponse(s),
            None => NextAction::InProgress,
        }
    }
}

/// Why a response could not be recorded against a key.
#[derive(Debug, Clone, Copy, PartialEq, Eq, Structural)]
pub enum SaveError {
    /// No row holds the key.
    NotStarted,
    /// The row already holds a response.
    AlreadyCompleted,
}

/// The table of idempotency records: at most one row per `(user, key)`.
#[derive(Debug)]
pub struct IdempotencyTable {
    pub rows: Vec<IdempotencyRecord>,
}

impl View for IdempotencyTable {
    type V = Map<(u128, Seq<char>), Option<ResponseView>>;

    open spec fn view(&self) -> Map<(u128, Seq<char>), Option<ResponseView>> {
        Map::new(
            |k: (u128, Seq<char>)| self.has(k.0, k.1),
            |k: (u128, Seq<char>)| stored_view(self.rows@[self.index_of(k.0, k.1)].response),
        )
    }
}

impl IdempotencyTable {
    /// No two rows share a `(user, key)`.
    pub open spec fn wf(&self) -> bool {
        forall|i: int, j: int|
            0 <= i < self.rows@.len() && 0 <= j < self.rows@.len() && #[trigger] self.rows@[i].user_id
                == #[trigger] self.rows@[j].user_id && self.rows@[i].key@ == self.rows@[j].key@
                ==> i == j
    }

    pub open spec fn has(&self, user_id: u128, key: Seq<char>) -> bool {
        exists|i: int| 0 <= i < self.rows@.len() && row_matches(#[trigger] self.rows@[i], user_id, key)
    }

    pub open spec fn index_of(&self, user_id: u128, key: Seq<char>) -> int {
        choose|i: int| 0 <= i < self.rows@.len() && row_matches(#[trigger] self.rows@[i], user_id, key)
    }

    pub fn new() -> (r: IdempotencyTable)
        ensures
            r.wf(),
            r@ == Map::<(u128, Seq<char>), Option<ResponseView>>::empty(),
    {
        let r = IdempotencyTable { rows: Vec::new() };
        assert(r@ =~= Map::<(u128, Seq<char>), Option<ResponseView>>::empty());
        r
    }

    proof fn lemma_row(&self, i: int)
        requires
            self.wf(),
            0 <= i < self.rows@.len(),
        ensures
            self.index_of(self.rows@[i].user_id, self.rows@[i].key@) == i,
            self@.contains_key((self.rows@[i].user_id, self.rows@[i].key@)),
            self@[(self.rows@[i].user_id, self.rows@[i].key@)] == stored_view(self.rows@[i].response),
    {
        assert(row_matches(self.rows@[i], self.rows@[i].user_id, self.rows@[i].key@));
        let j = self.index_of(self.rows@[i].user_id, self.rows@[i].key@);
        assert(self.rows@[j].user_id == self.rows@[i].user_id);
    }

    fn find(&self, user_id: u128, key: &IdempotencyKey) -> (r: Option<usize>)
        requires
            self.wf(),
        ensures
            match r {
                Some(i) => i < self.rows@.len() && row_matches(self.rows@[i as int], user_id, key@),
                None => !self.has(user_id, key@),
            },
    {
        let mut i: usize = 0;
        while i < self.rows.len()
            invariant
                i <= self.rows@.len(),
                forall|j: int| 0 <= j < i ==> !row_matches(#[trigger] self.rows@[j], user_id, key@),
            decreases self.rows@.len() - i,
        {
            let row = &self.rows[i];
            if row.user_id == user_id && row.key.same_as(key) {
                return Some(i);
            }
            i = i + 1;
        }
        None
    }

    /// Claims `(user_id, key)` for the caller by inserting a pending row, unless a
    /// row holds it already: then the saved response, or "in progress".
    pub fn start_processing(&mut self, user_id: u128, key: &IdempotencyKey) -> (r: NextAction)
        requires
            old(self).wf(),
        ensures
            final(self).wf(),
            match old(self)@.get((user_id, key@)) {
                None => r is StartProcessing && final(self)@ == old(self)@.insert((user_id, key@), None),
                Some(None) => r is InProgress && final(self)@ == old(self)@,
                Some(Some(saved)) => (r matches NextAction::ReturnSavedResponse(s) && s@ == saved)
                    && final(self)@ == old(self)@,
            },
    {
        match self.find(user_id, key) {
            Some(i) => {
                proof { self.lemma_row(i as int); }
                match &self.rows[i].response {
                    Some(saved) => NextAction::ReturnSavedResponse(saved.duplicate()),
                    None => NextAction::InProgress,
                }
            },
            None => {
                let ghost before = *self;
                self.rows.push(IdempotencyRecord { user_id, key: key.duplicate(), response: None });
                let n = self.rows.len();
                assert forall|i: int, j: int|
                    0 <= i < n && 0 <= j < n && #[trigger] self.rows@[i].user_id
                        == #[trigger] self.rows@[j].user_id && self.rows@[i].key@ == self.rows@[j].key@
                        implies i == j by {
                    if i < n - 1 && j == n - 1 {
                        assert(row_matches(before.rows@[i], user_id, key@));
                    }
                    if j < n - 1 && i == n - 1 {
                        assert(row_matches(before.rows@[j], user_id, key@));
                    }
                    if i < n - 1 && j < n - 1 {
                        assert(before.rows@[i] == self.rows@[i]);
                        assert(before.rows@[j] == self.rows@[j]);
                    }
                }
                assert forall|k: (u128, Seq<char>)| #[trigger] self@.contains_key(k) == before@.insert((user_id, key@), None).contains_key(k) && (self@.contains_key(k) ==> self@[k] == before@.insert((user_id, key@), None)[k]) by {
                    if self.has(k.0, k.1) {
                        let j = choose|j: int| 0 <= j < self.rows@.len() && row_matches(#[trigger] self.rows@[j], k.0, k.1);
                        self.lemma_row(j);
                        if j < n - 1 {
                            assert(before.rows@[j] == self.rows@[j]);
                            before.lemma_row(j);
                        }
                    }
                    if before.has(k.0, k.1) {
                        let j = choose|j: int| 0 <= j < before.rows@.len() && row_matches(#[trigger] before.rows@[j], k.0, k.1);
                        assert(self.rows@[j] == before.rows@[j]);
                    }
                    if k == (user_id, key@) {
                        assert(row_matches(self.rows@[n - 1], user_id, key@));
                    }
                }
                assert(self@ =~= before@.insert((user_id, key@), None));
                NextAction::StartProcessing
            },
        }
    }

    /// Records `response` against the pending row of `(user_id, key)`.
    pub fn save_response(&mut self, user_id: u128, key: &IdempotencyKey, response: SavedResponse) -> (r:
        Result<(), SaveError>)
        requires
            old(self).wf(),
        ensures
            final(self).wf(),
            match old(self)@.get((user_id, key@)) {
                None => r == Err::<(), SaveError>(SaveError::NotStarted) && final(self)@ == old(self)@,
                Some(Some(_)) => r == Err::<(), SaveError>(SaveError::AlreadyCompleted) && final(self)@
                    == old(self)@,
                Some(None) => r is Ok && final(self)@ == old(self)@.insert(
                    (user_id, key@),
                    Some(response@),
                ),
            },
    {
        match self.find(user_id, key) {
            None => Err(SaveError::NotStarted),
            Some(i) => {
                proof { self.lemma_row(i as int); }
                if self.rows[i].response.is_some() {
                    return Err(SaveError::AlreadyCompleted);
                }
                let ghost before = *self;
                let ghost rv = response@;
                self.rows[i].response = Some(response);
                assert(self.rows@ == before.rows@.update(
                    i as int,
                    IdempotencyRecord { user_id, key: before.rows@[i as int].key, response: self.rows@[i as int].response },
                ));
                assert forall|a: int, b: int|
                    0 <= a < self.rows@.len() && 0 <= b < self.rows@.len() && #[trigger] self.rows@[a].user_id
                        == #[trigger] self.rows@[b].user_id && self.rows@[a].key@ == self.rows@[b].key@
                        implies a == b by {
                    assert(before.rows@[a].user_id == self.rows@[a].user_id);
                    assert(before.rows@[b].user_id == self.rows@[b].user_id);
                }
                let ghost target = before@.insert((user_id, key@), Some(rv));
                assert forall|k: (u128, Seq<char>)| #[trigger] self@.contains_key(k) == target.contains_key(k)
                    && (self@.contains_key(k) ==> self@[k] == target[k]) by {
                    if self.has(k.0, k.1) {
                        let j = choose|j: int| 0 <= j < self.rows@.len() && row_matches(#[trigger] self.rows@[j], k.0, k.1);
                        self.lemma_row(j);
                        before.lemma_row(j);
                    }
                    if before.has(k.0, k.1) {
                        let j = choose|j: int| 0 <= j < before.rows@.len() && row_matches(#[trigger] before.rows@[j], k.0, k.1);
                        assert(row_matches(self.rows@[j], k.0, k.1));
                    }
                }
                assert(self@ =~= target);
                Ok(())
            },
        }
    }

    /// Drops the pending row of `(user_id, key)`, as a rolled back transaction
    /// does; a completed row, or no row, is left alone.
    pub fn release(&mut self, user_id: u128, key: &IdempotencyKey)
        requires
            old(self).wf(),
        ensures
            final(self).wf(),
            old(self)@.get((user_id, key@)) == Some(None::<ResponseView>) ==> final(self)@ == old(self)@.remove(
                (user_id, key@),
            ),
            old(self)@.get((user_id, key@)) != Some(None::<ResponseView>) ==> final(self)@ == old(self)@,
    {
        match self.find(user_id, key) {
            None => {},
            Some(i) => {
                proof { self.lemma_row(i as int); }
                if self.rows[i].response.is_some() {
                    return;
                }
                let ghost before = *self;
                let _ = self.rows.remove(i);
                assert(self.rows@ == before.rows@.remove(i as int));
                assert forall|a: int, b: int|
                    0 <= a < self.rows@.len() && 0 <= b < self.rows@.len() && #[trigger] self.rows@[a].user_id
                        == #[trigger] self.rows@[b].user_id && self.rows@[a].key@ == self.rows@[b].key@
                        implies a == b by {
                    let a0 = if a < i { a } else { a + 1 };
                    let b0 = if b < i { b } else { b + 1 };
                    assert(before.rows@[a0].user_id == self.rows@[a].user_id);
                    assert(before.rows@[b0].user_id == self.rows@[b].user_id);
                }
                let ghost target = before@.remove((user_id, key@));
                assert forall|k: (u128, Seq<char>)| #[trigger] self@.contains_key(k) == target.contains_key(k)
                    && (self@.contains_key(k) ==> self@[k] == target[k]) by {
                    if self.has(k.0, k.1) {
                        let j = choose|j: int| 0 <= j < self.rows@.len() && row_matches(#[trigger] self.rows@[j], k.0, k.1);
                        self.lemma_row(j);
                        let j0 = if j < i { j } else { j + 1 };
                        assert(before.rows@[j0] == self.rows@[j]);
                        before.lemma_row(j0);
                    }
                    if before.has(k.0, k.1) && k != (user_id, key@) {
                        let j = choose|j: int| 0 <= j < before.rows@.len() && row_matches(#[trigger] before.rows@[j], k.0, k.1);
                        if j < i {
                            assert(row_matches(self.rows@[j], k.0, k.1));
                        } else {
                            assert(j != i);
                            assert(row_matches(self.rows@[j - 1], k.0, k.1));
                        }
                    }
                }
                assert(self@ =~= target);
            },
        }
    }
}

} // verus!
