//! The history store: an append-only log of command records grouped by
//! lazily created sessions.
//!
//! This is the in-memory model of the store's two tables.  A persistence
//! back end (a SQLite file in the shipped binary) mirrors exactly the
//! contracts stated here: session keys are unique, identifiers are
//! assigned in strictly increasing order, records are never updated or
//! deleted, and retrieval orders by timestamp descending with ties broken
//! towards the higher (younger) identifier.

use vstd::prelude::*;

verus! {

/// One logged invocation.  `id` is `None` until the store assigns one.
pub struct CommandHistoryEntry {
    pub id: Option<i64>,
    /// Microseconds since the Unix epoch, UTC.
    pub timestamp: i64,
    pub command: String,
    pub binary: String,
    pub user: String,
    pub pwd: String,
    pub session_id: i64,
}

/// One shell session's lifetime. `stopped_at` is re-stamped on every
/// logged command, so it reads as "last activity", not as a close event.
pub struct Session {
    pub id: i64,
    pub key: String,
    pub started_at: i64,
    pub stopped_at: Option<i64>,
}

/// Why a store operation failed.
///
/// `StoreReadError` cannot arise in the in-memory store; it is the slot a
/// persistence back end maps its retrieval failures onto.
#[derive(Clone, Copy, Debug, PartialEq, Eq, Structural)]
pub enum StoreError {
    SessionCreationFailed,
    StoreWriteError,
    StoreReadError,
}

/// The mathematical value of a record.
#[verifier::ext_equal]
pub struct EntryModel {
    pub id: Option<int>,
    pub timestamp: int,
    pub command: Seq<char>,
    pub binary: Seq<char>,
    pub user: Seq<char>,
    pub pwd: Seq<char>,
    pub session_id: int,
}

/// The mathematical value of a session row.
#[verifier::ext_equal]
pub struct SessionModel {
    pub id: int,
    pub key: Seq<char>,
    pub started_at: int,
    pub stopped_at: Option<int>,
}

/// The mathematical value of the whole store.
#[verifier::ext_equal]
pub struct StoreModel {
    pub sessions: Seq<SessionModel>,
    pub records: Seq<EntryModel>,
    pub next_session_id: int,
    pub next_record_id: int,
}

impl View for CommandHistoryEntry {
    type V = EntryModel;

    open spec fn view(&self) -> EntryModel {
        EntryModel {
            id: if self.id is Some {
                Some(self.id->0 as int)
            } else {
                None
            },
            timestamp: self.timestamp as int,
            command: self.command@,
            binary: self.binary@,
            user: self.user@,
            pwd: self.pwd@,
            session_id: self.session_id as int,
        }
    }
}

impl DeepView for CommandHistoryEntry {
    type V = EntryModel;

    open spec fn deep_view(&self) -> EntryModel {
        self.view()
    }
}

impl Clone for CommandHistoryEntry {
    fn clone(&self) -> (r: Self)
        ensures
            r == *self,
    {
        CommandHistoryEntry {
            id: self.id,
            timestamp: self.timestamp,
            command: self.command.clone(),
            binary: self.binary.clone(),
            user: self.user.clone(),
            pwd: self.pwd.clone(),
            session_id: self.session_id,
        }
    }
}

impl View for Session {
    type V = SessionModel;

    open spec fn view(&self) -> SessionModel {
        SessionModel {
            id: self.id as int,
            key: self.key@,
            started_at: self.started_at as int,
            stopped_at: if self.stopped_at is Some {
                Some(self.stopped_at->0 as int)
            } else {
                None
            },
        }
    }
}

impl DeepView for Session {
    type V = SessionModel;

    open spec fn deep_view(&self) -> SessionModel {
        self.view()
    }
}

impl Clone for Session {
    fn clone(&self) -> (r: Self)
        ensures
            r == *self,
    {
        Session {
            id: self.id,
            key: self.key.clone(),
            started_at: self.started_at,
            stopped_at: self.stopped_at,
        }
    }
}

/// The store: both tables plus the next free identifier of each.
pub struct HistoryStore {
    pub sessions: Vec<Session>,
    pub records: Vec<CommandHistoryEntry>,
    pub next_session_id: i64,
    pub next_record_id: i64,
}

impl View for HistoryStore {
    type V = StoreModel;

    open spec fn view(&self) -> StoreModel {
        StoreModel {
            sessions: self.sessions.deep_view(),
            records: self.records.deep_view(),
            next_session_id: self.next_session_id as int,
            next_record_id: self.next_record_id as int,
        }
    }
}

/// A session with identifier `sid` exists.
pub open spec fn has_session(s: StoreModel, sid: int) -> bool {
    exists|j: int| 0 <= j < s.sessions.len() && s.sessions[j].id == sid
}

/// A session with key `key` exists.
pub open spec fn has_key(s: StoreModel, key: Seq<char>) -> bool {
    exists|j: int| 0 <= j < s.sessions.len() && s.sessions[j].key == key
}

/// How many session rows carry the key `key`.
pub open spec fn count_key(sessions: Seq<SessionModel>, key: Seq<char>) -> int
    decreases sessions.len(),
{
    if sessions.len() == 0 {
        0
    } else {
        count_key(sessions.drop_last(), key) + if sessions.last().key == key {
            1int
        } else {
            0int
        }
    }
}

/// The store's invariant: unique session keys and identifiers, record
/// identifiers strictly increasing in insertion order and always
/// assigned, and every record attached to an existing session.
pub open spec fn store_wf(s: StoreModel) -> bool {
    &&& 1 <= s.next_session_id <= i64::MAX
    &&& 1 <= s.next_record_id <= i64::MAX
    &&& forall|i: int|
        0 <= i < s.sessions.len() ==> 1 <= (#[trigger] s.sessions[i]).id < s.next_session_id
    &&& forall|i: int, j: int|
        0 <= i < j < s.sessions.len() ==> (#[trigger] s.sessions[i]).id != (
        #[trigger] s.sessions[j]).id
    &&& forall|i: int, j: int|
        0 <= i < j < s.sessions.len() ==> (#[trigger] s.sessions[i]).key != (
        #[trigger] s.sessions[j]).key
    &&& forall|i: int|
        0 <= i < s.records.len() ==> (#[trigger] s.records[i]).id is Some && 1 <= s.records[i].id->0
            < s.next_record_id
    &&& forall|i: int, j: int|
        0 <= i < j < s.records.len() ==> (#[trigger] s.records[i]).id->0 < (
        #[trigger] s.records[j]).id->0
    &&& forall|i: int| 0 <= i < s.records.len() ==> has_session(s, (#[trigger] s.records[i]).session_id)
}

/// `e` with its identifier set to `id`.
pub open spec fn stamped(e: EntryModel, id: int) -> EntryModel {
    EntryModel { id: Some(id), ..e }
}

/// The sessions of `sessions`, with the one whose identifier is `sid`
/// (if any) re-stamped to have last activity `t`.
pub open spec fn stamp_session(sessions: Seq<SessionModel>, sid: int, t: int) -> Seq<SessionModel> {
    sessions.map_values(
        |ses: SessionModel|
            if ses.id == sid {
                SessionModel { stopped_at: Some(t), ..ses }
            } else {
                ses
            },
    )
}

/// What resolving a session key does: an existing key returns its
/// session's identifier and changes nothing; an unseen key appends one
/// fresh session row started at `now` with no last activity yet;
/// creation fails only when the identifier space is exhausted.
pub open spec fn get_or_create_post(
    s0: StoreModel,
    s1: StoreModel,
    key: Seq<char>,
    now: int,
    r: Result<i64, StoreError>,
) -> bool {
    if has_key(s0, key) {
        &&& s1 == s0
        &&& r is Ok
        &&& exists|j: int|
            0 <= j < s0.sessions.len() && (#[trigger] s0.sessions[j]).key == key
                && s0.sessions[j].id == r->Ok_0
    } else if s0.next_session_id < i64::MAX {
        &&& r is Ok
        &&& r->Ok_0 == s0.next_session_id
        &&& s1.sessions == s0.sessions.push(
            SessionModel { id: s0.next_session_id, key, started_at: now, stopped_at: None },
        )
        &&& s1.records == s0.records
        &&& s1.next_session_id == s0.next_session_id + 1
        &&& s1.next_record_id == s0.next_record_id
    } else {
        &&& r == Err::<i64, StoreError>(StoreError::SessionCreationFailed)
        &&& s1 == s0
    }
}

/// What logging a record does: with a valid session reference and a free
/// identifier, the record is appended with that identifier and the owning
/// session's last activity becomes the record's timestamp; otherwise the
/// write is refused and nothing changes.
pub open spec fn log_post(
    s0: StoreModel,
    s1: StoreModel,
    e: EntryModel,
    r: Result<i64, StoreError>,
) -> bool {
    if !has_session(s0, e.session_id) || s0.next_record_id == i64::MAX {
        &&& r == Err::<i64, StoreError>(StoreError::StoreWriteError)
        &&& s1 == s0
    } else {
        &&& r is Ok
        &&& r->Ok_0 == s0.next_record_id
        &&& s1.records == s0.records.push(stamped(e, s0.next_record_id))
        &&& s1.sessions == stamp_session(s0.sessions, e.session_id, e.timestamp)
        &&& s1.next_record_id == s0.next_record_id + 1
        &&& s1.next_session_id == s0.next_session_id
    }
}

/// Retrieval order: `a` comes no earlier in time than `b`, ties broken
/// towards the higher identifier.
pub open spec fn key_le(a: EntryModel, b: EntryModel) -> bool {
    a.timestamp < b.timestamp || (a.timestamp == b.timestamp && a.id->0 <= b.id->0)
}

/// Most recent first: every later element sorts below every earlier one.
pub open spec fn sorted_desc(s: Seq<EntryModel>) -> bool {
    forall|i: int, j: int| 0 <= i < j < s.len() ==> key_le(#[trigger] s[j], #[trigger] s[i])
}

/// What retrieval returns: the `min(limit, record count)` most recent
/// records, most recent first, each a record of the store, none twice,
/// and nothing left out that sorts above a returned record.
pub open spec fn fetch_post(s: StoreModel, limit: int, r: Seq<EntryModel>) -> bool {
    &&& r.len() == if limit < s.records.len() {
        limit
    } else {
        s.records.len() as int
    }
    &&& sorted_desc(r)
    &&& forall|i: int| 0 <= i < r.len() ==> s.records.contains(#[trigger] r[i])
    &&& forall|i: int, j: int| 0 <= i < j < r.len() ==> r[i].id != r[j].id
    &&& forall|k: int|
        0 <= k < s.records.len() ==> r.contains(#[trigger] s.records[k]) || (forall|i: int|
            0 <= i < r.len() ==> key_le(s.records[k], #[trigger] r[i]))
    &&& limit >= s.records.len() ==> forall|k: int|
        0 <= k < s.records.len() ==> r.contains(#[trigger] s.records[k])
}

impl HistoryStore {
    /// A fresh, empty store.
    pub fn new() -> (s: HistoryStore)
        ensures
            s@.sessions.len() == 0,
            s@.records.len() == 0,
            s@.next_session_id == 1,
            s@.next_record_id == 1,
            store_wf(s@),
    {
        HistoryStore {
            sessions: Vec::new(),
            records: Vec::new(),
            next_session_id: 1,
            next_record_id: 1,
        }
    }

    /// Resolves a session key to its session identifier, creating the
    /// session row on first sight.  Idempotent per key: repeated calls
    /// return the same identifier and leave the store unchanged.
    #[verifier::loop_isolation(false)]
    pub fn get_or_create_session(&mut self, session_key: &str, now: i64) -> (r: Result<
        i64,
        StoreError,
    >)
        requires
            store_wf(old(self)@),
        ensures
            store_wf(final(self)@),
            get_or_create_post(old(self)@, final(self)@, session_key@, now as int, r),
    {
        let ghost s0 = self@;
        let mut j: usize = 0;
        while j < self.sessions.len()
            invariant
                *self == *old(self),
                j <= self.sessions.len(),
                forall|q: int| 0 <= q < j ==> (#[trigger] self@.sessions[q]).key != session_key@,
            decreases self.sessions.len() - j,
        {
            if crate::text::str_eq(self.sessions[j].key.as_str(), session_key) {
                proof {
                    assert(self@.sessions[j as int].key == session_key@);
                    assert(has_key(self@, session_key@));
                }
                return Ok(self.sessions[j].id);
            }
            j = j + 1;
        }
        assert(!has_key(s0, session_key@));
        if self.next_session_id == i64::MAX {
            return Err(StoreError::SessionCreationFailed);
        }
        let id = self.next_session_id;
        let session = Session {
            id,
            key: session_key.to_owned(),
            started_at: now,
            stopped_at: None,
        };
        self.sessions.push(session);
        self.next_session_id = id + 1;
        proof {
            assert(self@.sessions =~= s0.sessions.push(
                SessionModel {
                    id: id as int,
                    key: session_key@,
                    started_at: now as int,
                    stopped_at: None,
                },
            ));
            assert(self@.records =~= s0.records);
            assert forall|i: int| 0 <= i < self@.records.len() implies has_session(
                self@,
                (#[trigger] self@.records[i]).session_id,
            ) by {
                let w = choose|w: int|
                    0 <= w < s0.sessions.len() && s0.sessions[w].id == s0.records[i].session_id;
                assert(self@.sessions[w].id == self@.records[i].session_id);
            }
        }
        Ok(id)
    }

    /// Re-stamps a session's last activity.  An unknown identifier is a
    /// silent no-op, as an update that matches no row is.
    #[verifier::loop_isolation(false)]
    pub fn update_session_stopped_at(&mut self, session_id: i64, stopped_at: i64)
        requires
            store_wf(old(self)@),
        ensures
            store_wf(final(self)@),
            final(self)@.sessions == stamp_session(
                old(self)@.sessions,
                session_id as int,
                stopped_at as int,
            ),
            final(self)@.records == old(self)@.records,
            final(self)@.next_session_id == old(self)@.next_session_id,
            final(self)@.next_record_id == old(self)@.next_record_id,
    {
        let ghost s0 = self@;
        let mut updated: Vec<Session> = Vec::new();
        let mut j: usize = 0;
        while j < self.sessions.len()
            invariant
                *self == *old(self),
                j <= self.sessions.len(),
                updated.deep_view() =~= stamp_session(
                    self@.sessions,
                    session_id as int,
                    stopped_at as int,
                ).take(j as int),
            decreases self.sessions.len() - j,
        {
            let ses = &self.sessions[j];
            let new_ses = if ses.id == session_id {
                Session {
                    id: ses.id,
                    key: ses.key.clone(),
                    started_at: ses.started_at,
                    stopped_at: Some(stopped_at),
                }
            } else {
                ses.clone()
            };
            let ghost nv = new_ses@;
            let ghost nval = new_ses;
            let ghost prev = updated.deep_view();
            let ghost prevv = updated@;
            proof {
                let stall = stamp_session(self@.sessions, session_id as int, stopped_at as int);
                assert(*ses == self.sessions@[j as int]);
                assert(nv == stall[j as int]);
            }
            updated.push(new_ses);
            proof {
                let stall = stamp_session(self@.sessions, session_id as int, stopped_at as int);
                assert(updated@ == prevv.push(nval));
                assert forall|q: int|
                    0 <= q <= j implies updated.deep_view()[q] == stall.take(j + 1)[q] by {
                    if q < j {
                        assert(updated@[q] == prevv[q]);
                        assert(prev[q] == stall.take(j as int)[q]);
                    } else {
                        assert(updated@[q] == nval);
                        assert(nval@ == nv);
                    }
                }
                assert(updated.deep_view() =~= stall.take(j + 1));
            }
            j = j + 1;
        }
        self.sessions = updated;
        proof {
            let stamped_all = stamp_session(s0.sessions, session_id as int, stopped_at as int);
            assert(self@.sessions =~= stamped_all);
            assert forall|i: int| 0 <= i < self@.records.len() implies has_session(
                self@,
                (#[trigger] self@.records[i]).session_id,
            ) by {
                let w = choose|w: int|
                    0 <= w < s0.sessions.len() && s0.sessions[w].id == s0.records[i].session_id;
                assert(self@.sessions[w].id == self@.records[i].session_id);
            }
        }
    }

    /// Appends one record, assigning it the next free identifier, and
    /// re-stamps the owning session's last activity with the record's
    /// timestamp.  Refuses the write if the record names no existing
    /// session or the identifier space is exhausted.
    #[verifier::loop_isolation(false)]
    pub fn log_command(&mut self, entry: &CommandHistoryEntry) -> (r: Result<i64, StoreError>)
        requires
            store_wf(old(self)@),
        ensures
            store_wf(final(self)@),
            log_post(old(self)@, final(self)@, entry@, r),
    {
        let ghost s0 = self@;
        let mut found = false;
        let mut j: usize = 0;
        while j < self.sessions.len()
            invariant
                *self == *old(self),
                j <= self.sessions.len(),
                found ==> has_session(self@, entry@.session_id),
                !found ==> forall|q: int|
                    0 <= q < j ==> (#[trigger] self@.sessions[q]).id != entry@.session_id,
            decreases self.sessions.len() - j,
        {
            if self.sessions[j].id == entry.session_id {
                proof {
                    assert(self@.sessions[j as int].id == entry@.session_id);
                    assert(has_session(self@, entry@.session_id));
                }
                found = true;
                j = self.sessions.len();
            } else {
                j = j + 1;
            }
        }
        if !found {
            assert(!has_session(s0, entry@.session_id));
            return Err(StoreError::StoreWriteError);
        }
        if self.next_record_id == i64::MAX {
            return Err(StoreError::StoreWriteError);
        }
        let id = self.next_record_id;
        let stored = CommandHistoryEntry {
            id: Some(id),
            timestamp: entry.timestamp,
            command: entry.command.clone(),
            binary: entry.binary.clone(),
            user: entry.user.clone(),
            pwd: entry.pwd.clone(),
            session_id: entry.session_id,
        };
        self.records.push(stored);
        self.next_record_id = id + 1;
        proof {
            assert(self@.records =~= s0.records.push(stamped(entry@, id as int)));
        }
        self.update_session_stopped_at(entry.session_id, entry.timestamp);
        proof {
            assert(self@.records == s0.records.push(stamped(entry@, id as int)));
            assert forall|i: int| 0 <= i < self@.records.len() implies has_session(
                self@,
                (#[trigger] self@.records[i]).session_id,
            ) by {
                let rec = self@.records[i];
                if i < s0.records.len() {
                    let w = choose|w: int|
                        0 <= w < s0.sessions.len() && s0.sessions[w].id == s0.records[i].session_id;
                    assert(self@.sessions[w].id == rec.session_id);
                } else {
                    let w = choose|w: int|
                        0 <= w < s0.sessions.len() && s0.sessions[w].id == entry@.session_id;
                    assert(self@.sessions[w].id == rec.session_id);
                }
            }
        }
        Ok(id)
    }

    /// How many session rows carry exactly this key (zero or one in a
    /// well-formed store).
    #[verifier::loop_isolation(false)]
    pub fn count_sessions_with_key(&self, session_key: &str) -> (n: u64)
        requires
            self@.sessions.len() <= u64::MAX,
        ensures
            n == count_key(self@.sessions, session_key@),
    {
        let mut n: u64 = 0;
        let mut j: usize = 0;
        proof {
            assert(self@.sessions.take(0) =~= Seq::<SessionModel>::empty());
        }
        while j < self.sessions.len()
            invariant
                j <= self.sessions.len(),
                self@.sessions.len() <= u64::MAX,
                n == count_key(self@.sessions.take(j as int), session_key@),
                n <= j,
            decreases self.sessions.len() - j,
        {
            let matches_key = crate::text::str_eq(self.sessions[j].key.as_str(), session_key);
            proof {
                assert(self@.sessions.take(j + 1).drop_last() =~= self@.sessions.take(j as int));
                assert(self@.sessions.take(j + 1).last() == self@.sessions[j as int]);
            }
            if matches_key {
                n = n + 1;
            }
            j = j + 1;
        }
        proof {
            assert(self@.sessions.take(self@.sessions.len() as int) =~= self@.sessions);
        }
        n
    }

    /// How many records the store holds.
    pub fn record_count(&self) -> (n: usize)
        ensures
            n == self@.records.len(),
    {
        self.records.len()
    }

    /// Returns up to `limit` records, most recent first: ordered by
    /// timestamp descending, ties broken towards the higher identifier.
    /// An empty result is an answer, not an error.
    #[verifier::loop_isolation(false)]
    pub fn fetch_recent_commands(&self, limit: usize) -> (r: Vec<CommandHistoryEntry>)
        requires
            store_wf(self@),
        ensures
            fetch_post(self@, limit as int, r.deep_view()),
    {
        let ghost sv = self@.records;
        let mut rem: Vec<CommandHistoryEntry> = Vec::new();
        let mut j: usize = 0;
        while j < self.records.len()
            invariant
                j <= self.records.len(),
                rem@ =~= self.records@.take(j as int),
            decreases self.records.len() - j,
        {
            rem.push(self.records[j].clone());
            j = j + 1;
        }
        proof {
            assert(rem@ =~= self.records@);
            assert(rem.deep_view() =~= sv);
        }
        let mut out: Vec<CommandHistoryEntry> = Vec::new();
        while out.len() < limit && rem.len() > 0
            invariant
                store_wf(self@),
                sv == self@.records,
                out.len() <= limit,
                out.deep_view().len() + rem.deep_view().len() == sv.len(),
                sorted_desc(out.deep_view()),
                forall|i: int, j2: int|
                    0 <= i < out.deep_view().len() && 0 <= j2 < rem.deep_view().len() ==> key_le(
                        #[trigger] rem.deep_view()[j2],
                        #[trigger] out.deep_view()[i],
                    ),
                forall|i: int|
                    0 <= i < out.deep_view().len() ==> sv.contains(#[trigger] out.deep_view()[i]),
                forall|i: int|
                    0 <= i < rem.deep_view().len() ==> sv.contains(#[trigger] rem.deep_view()[i]),
                forall|k: int|
                    0 <= k < sv.len() ==> out.deep_view().contains(#[trigger] sv[k])
                        || rem.deep_view().contains(#[trigger] sv[k]),
                forall|i: int, j2: int|
                    0 <= i < j2 < out.deep_view().len() ==> (#[trigger] out.deep_view()[i]).id != (
                    #[trigger] out.deep_view()[j2]).id,
                forall|i: int, j2: int|
                    0 <= i < out.deep_view().len() && 0 <= j2 < rem.deep_view().len() ==> (
                    #[trigger] out.deep_view()[i]).id != (#[trigger] rem.deep_view()[j2]).id,
                forall|i: int, j2: int|
                    0 <= i < j2 < rem.deep_view().len() ==> (#[trigger] rem.deep_view()[i]).id != (
                    #[trigger] rem.deep_view()[j2]).id,
                forall|i: int|
                    0 <= i < rem.deep_view().len() ==> (#[trigger] rem.deep_view()[i]).id is Some,
            decreases limit - out.len(),
        {
            let ghost o0 = out.deep_view();
            let ghost r0 = rem.deep_view();
            let mut best: usize = 0;
            let mut k: usize = 1;
            while k < rem.len()
                invariant
                    rem.len() > 0,
                    best < k <= rem.len(),
                    forall|q: int|
                        0 <= q < k ==> key_le(
                            #[trigger] rem.deep_view()[q],
                            rem.deep_view()[best as int],
                        ),
                    forall|i: int|
                        0 <= i < rem.deep_view().len() ==> (
                        #[trigger] rem.deep_view()[i]).id is Some,
                decreases rem.len() - k,
            {
                let swap = {
                    let a = &rem[best];
                    let b = &rem[k];
                    if a.timestamp != b.timestamp {
                        a.timestamp < b.timestamp
                    } else {
                        match (a.id, b.id) {
                            (Some(x), Some(y)) => x <= y,
                            _ => false,
                        }
                    }
                };
                if swap {
                    best = k;
                }
                k = k + 1;
            }
            let picked = rem.remove(best);
            out.push(picked);
            proof {
                let o1 = out.deep_view();
                let r1 = rem.deep_view();
                assert(o1 =~= o0.push(picked@));
                assert(picked@ == r0[best as int]);
                assert(forall|q: int|
                    0 <= q < r1.len() ==> #[trigger] r1[q] == (if q < best {
                        r0[q]
                    } else {
                        r0[q + 1]
                    }));
                assert forall|kk: int|
                    0 <= kk < sv.len() implies o1.contains(#[trigger] sv[kk]) || r1.contains(
                    sv[kk],
                ) by {
                    if o0.contains(sv[kk]) {
                        let w = choose|w: int| 0 <= w < o0.len() && o0[w] == sv[kk];
                        assert(o1[w] == sv[kk]);
                    } else {
                        let w = choose|w: int| 0 <= w < r0.len() && r0[w] == sv[kk];
                        if w == best {
                            assert(o1[o1.len() - 1] == sv[kk]);
                        } else if w < best {
                            assert(r1[w] == sv[kk]);
                        } else {
                            assert(r1[w - 1] == sv[kk]);
                        }
                    }
                }
                assert forall|i: int|
                    0 <= i < o1.len() implies sv.contains(#[trigger] o1[i]) by {
                    if i < o0.len() {
                        assert(o1[i] == o0[i]);
                    } else {
                        assert(o1[i] == r0[best as int]);
                    }
                }
            }
        }
        proof {
            let o = out.deep_view();
            let r0 = rem.deep_view();
            if out.len() < limit {
                assert(r0.len() == 0);
            }
            if (limit as int) >= sv.len() {
                assert(r0.len() == 0) by {
                    if r0.len() > 0 {
                        assert(o.len() == limit);
                    }
                }
            }
            assert forall|k: int|
                0 <= k < sv.len() implies o.contains(#[trigger] sv[k]) || (forall|i: int|
                0 <= i < o.len() ==> key_le(sv[k], #[trigger] o[i])) by {
                if !o.contains(sv[k]) {
                    let w = choose|w: int| 0 <= w < r0.len() && r0[w] == sv[k];
                    assert(forall|i: int| 0 <= i < o.len() ==> key_le(r0[w], #[trigger] o[i]));
                }
            }
        }
        out
    }
}

/// Resolving the same key twice yields the same session identifier both
/// times, leaves the store untouched the second time, and leaves exactly
/// one session row carrying that key.
pub proof fn lemma_resolve_idempotent(
    s0: StoreModel,
    s1: StoreModel,
    s2: StoreModel,
    key: Seq<char>,
    now1: int,
    now2: int,
    r1: Result<i64, StoreError>,
    r2: Result<i64, StoreError>,
)
    requires
        store_wf(s0),
        store_wf(s1),
        get_or_create_post(s0, s1, key, now1, r1),
        get_or_create_post(s1, s2, key, now2, r2),
        r1 is Ok,
    ensures
        r2 is Ok,
        r2->Ok_0 == r1->Ok_0,
        s2 == s1,
        count_key(s2.sessions, key) == 1,
{
    if has_key(s0, key) {
        let j1 = choose|j: int|
            0 <= j < s0.sessions.len() && (#[trigger] s0.sessions[j]).key == key && s0.sessions[j].id
                == r1->Ok_0;
        assert(has_key(s1, key));
        let j2 = choose|j: int|
            0 <= j < s1.sessions.len() && (#[trigger] s1.sessions[j]).key == key && s1.sessions[j].id
                == r2->Ok_0;
        assert(j1 == j2);
        lemma_count_key_unique(s1.sessions, key, j1);
    } else {
        let n = s0.sessions.len() as int;
        assert(s1.sessions[n].key == key);
        assert(has_key(s1, key));
        let j2 = choose|j: int|
            0 <= j < s1.sessions.len() && (#[trigger] s1.sessions[j]).key == key && s1.sessions[j].id
                == r2->Ok_0;
        assert(forall|i: int| 0 <= i < n ==> (#[trigger] s1.sessions[i]).key != key) by {
            assert(forall|i: int| 0 <= i < n ==> s1.sessions[i] == s0.sessions[i]);
        }
        assert(j2 == n);
        assert(r2->Ok_0 == r1->Ok_0);
        lemma_count_key_unique(s1.sessions, key, n);
    }
}

/// In a sequence of sessions where exactly position `j` carries `key`,
/// the count of rows carrying `key` is one.
proof fn lemma_count_key_unique(ss: Seq<SessionModel>, key: Seq<char>, j: int)
    requires
        0 <= j < ss.len(),
        ss[j].key == key,
        forall|i: int| 0 <= i < ss.len() && i != j ==> (#[trigger] ss[i]).key != key,
    ensures
        count_key(ss, key) == 1,
    decreases ss.len(),
{
    if j == ss.len() - 1 {
        lemma_count_key_none(ss.drop_last(), key);
    } else {
        assert(forall|i: int|
            0 <= i < ss.drop_last().len() && i != j ==> (#[trigger] ss.drop_last()[i]).key != key);
        lemma_count_key_unique(ss.drop_last(), key, j);
    }
}

/// In a sequence of sessions none of which carries `key`, the count of
/// rows carrying `key` is zero.
proof fn lemma_count_key_none(ss: Seq<SessionModel>, key: Seq<char>)
    requires
        forall|i: int| 0 <= i < ss.len() ==> (#[trigger] ss[i]).key != key,
    ensures
        count_key(ss, key) == 0,
    decreases ss.len(),
{
    if ss.len() > 0 {
        lemma_count_key_none(ss.drop_last(), key);
    }
}

/// Round trip: a record accepted by `log_command` comes back from any
/// retrieval wide enough to hold the whole log, with the same command,
/// binary, user, working directory, session and timestamp.
pub proof fn lemma_log_fetch_round_trip(
    s0: StoreModel,
    s1: StoreModel,
    e: EntryModel,
    r: Result<i64, StoreError>,
    limit: int,
    out: Seq<EntryModel>,
)
    requires
        store_wf(s0),
        log_post(s0, s1, e, r),
        r is Ok,
        fetch_post(s1, limit, out),
        limit >= s1.records.len(),
    ensures
        exists|i: int|
            0 <= i < out.len() && (#[trigger] out[i]).command == e.command && out[i].binary
                == e.binary && out[i].user == e.user && out[i].pwd == e.pwd && out[i].session_id
                == e.session_id && out[i].timestamp == e.timestamp,
{
    let n = s1.records.len() - 1;
    assert(s1.records[n] == stamped(e, s0.next_record_id));
    assert(out.contains(s1.records[n]));
    let i = choose|i: int| 0 <= i < out.len() && out[i] == s1.records[n];
    assert(out[i].command == e.command);
}

} // verus!
