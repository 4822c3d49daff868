//! The logging flow: one raw shell line in, one store write per
//! sub-command out.
//!
//! The raw line is split; a line that splits to nothing (blank input) is
//! logged verbatim as a single record with binary `unknown`.  The
//! session is resolved first, and every record of the invocation carries
//! the same timestamp, which also becomes the session's last activity.

use vstd::prelude::*;

use crate::splitter::parse_line;
use crate::splitter::parse_shell_command;
use crate::store::CommandHistoryEntry;
use crate::store::EntryModel;
use crate::store::HistoryStore;
use crate::store::StoreError;
use crate::store::StoreModel;
use crate::store::SessionModel;
use crate::store::has_key;
use crate::store::has_session;
use crate::store::stamp_session;
use crate::store::stamped;
use crate::store::store_wf;

verus! {

/// The session identifier a key resolves to: the existing session's, or
/// the next free one for an unseen key.
pub open spec fn resolved_sid(s0: StoreModel, key: Seq<char>) -> int {
    if has_key(s0, key) {
        let j = choose|j: int| 0 <= j < s0.sessions.len() && (#[trigger] s0.sessions[j]).key == key;
        s0.sessions[j].id
    } else {
        s0.next_session_id
    }
}

/// The store right after session resolution: unchanged for a known key,
/// one fresh session row appended for an unseen one.
pub open spec fn resolve_step(s0: StoreModel, key: Seq<char>, now: int) -> StoreModel {
    if has_key(s0, key) {
        s0
    } else {
        StoreModel {
            sessions: s0.sessions.push(
                SessionModel { id: s0.next_session_id, key, started_at: now, stopped_at: None },
            ),
            next_session_id: s0.next_session_id + 1,
            ..s0
        }
    }
}

/// The record models one logging invocation appends: one per pair the
/// splitter produced, or the raw line verbatim with binary `unknown`
/// when it produced none; identifiers run from `first_id` upwards.
pub open spec fn logged_entries(
    pairs: Seq<(Seq<char>, Seq<char>)>,
    raw: Seq<char>,
    user: Seq<char>,
    pwd: Seq<char>,
    sid: int,
    now: int,
    first_id: int,
) -> Seq<EntryModel> {
    if pairs.len() == 0 {
        seq![
            EntryModel {
                id: Some(first_id),
                timestamp: now,
                command: raw,
                binary: "unknown"@,
                user,
                pwd,
                session_id: sid,
            },
        ]
    } else {
        Seq::new(
            pairs.len(),
            |i: int|
                EntryModel {
                    id: Some(first_id + i),
                    timestamp: now,
                    command: pairs[i].0,
                    binary: pairs[i].1,
                    user,
                    pwd,
                    session_id: sid,
                },
        )
    }
}

/// What one logging invocation does to the store.  Session resolution
/// happens first; on success every sub-command of the line is appended
/// in order, and the session's last activity is the invocation's
/// timestamp.  When the record identifier space runs out mid-line, the
/// records written so far stay written and the rest are refused.
pub open spec fn log_line_post(
    s0: StoreModel,
    s1: StoreModel,
    key: Seq<char>,
    raw: Seq<char>,
    user: Seq<char>,
    pwd: Seq<char>,
    now: int,
    r: Result<(), StoreError>,
) -> bool {
    if !has_key(s0, key) && s0.next_session_id == i64::MAX {
        &&& r == Err::<(), StoreError>(StoreError::SessionCreationFailed)
        &&& s1 == s0
    } else {
        let sid = resolved_sid(s0, key);
        let sr = resolve_step(s0, key, now);
        let entries = logged_entries(parse_line(raw), raw, user, pwd, sid, now, s0.next_record_id);
        let n = entries.len() as int;
        if s0.next_record_id + n <= i64::MAX {
            &&& r is Ok
            &&& s1.records == s0.records + entries
            &&& s1.sessions == stamp_session(sr.sessions, sid, now)
            &&& s1.next_record_id == s0.next_record_id + n
            &&& s1.next_session_id == sr.next_session_id
        } else {
            let k = i64::MAX - s0.next_record_id;
            &&& r == Err::<(), StoreError>(StoreError::StoreWriteError)
            &&& s1.records == s0.records + entries.take(k)
            &&& s1.next_record_id == i64::MAX
            &&& s1.next_session_id == sr.next_session_id
            &&& if k > 0 {
                s1.sessions == stamp_session(sr.sessions, sid, now)
            } else {
                s1.sessions == sr.sessions
            }
        }
    }
}

/// Stamping a session's last activity twice with the same instant is
/// the same as stamping it once.
proof fn lemma_stamp_idempotent(ss: Seq<SessionModel>, sid: int, t: int)
    ensures
        stamp_session(stamp_session(ss, sid, t), sid, t) == stamp_session(ss, sid, t),
{
    assert(stamp_session(stamp_session(ss, sid, t), sid, t) =~= stamp_session(ss, sid, t));
}

/// Logs one raw shell line: resolves the session under `session_key`,
/// splits the line, and appends one record per sub-command (or the raw
/// line verbatim with binary `unknown` if it splits to nothing), all
/// stamped with `now`.
#[verifier::loop_isolation(false)]
pub fn log_raw_line(
    store: &mut HistoryStore,
    session_key: &str,
    raw_command: &str,
    user: &str,
    pwd: &str,
    now: i64,
) -> (r: Result<(), StoreError>)
    requires
        store_wf(old(store)@),
    ensures
        store_wf(final(store)@),
        log_line_post(
            old(store)@,
            final(store)@,
            session_key@,
            raw_command@,
            user@,
            pwd@,
            now as int,
            r,
        ),
{
    let ghost s0 = store@;
    let sid = match store.get_or_create_session(session_key, now) {
        Ok(id) => id,
        Err(e) => {
            return Err(e);
        },
    };
    proof {
        if has_key(s0, session_key@) {
            let j1 = choose|j: int|
                0 <= j < s0.sessions.len() && (#[trigger] s0.sessions[j]).key == session_key@
                    && s0.sessions[j].id == sid as int;
            let j2 = choose|j: int|
                0 <= j < s0.sessions.len() && (#[trigger] s0.sessions[j]).key == session_key@;
            assert(j1 == j2);
        }
        assert(sid as int == resolved_sid(s0, session_key@));
        assert(store@ == resolve_step(s0, session_key@, now as int));
        assert(store@.sessions[store@.sessions.len() - 1].id == sid as int || has_key(
            s0,
            session_key@,
        ));
        if has_key(s0, session_key@) {
            let j2 = choose|j: int|
                0 <= j < s0.sessions.len() && (#[trigger] s0.sessions[j]).key == session_key@;
            assert(store@.sessions[j2].id == sid as int);
        }
        assert(has_session(store@, sid as int));
    }
    let ghost sr = store@;
    let pairs = parse_shell_command(raw_command);
    let ghost entries = logged_entries(
        parse_line(raw_command@),
        raw_command@,
        user@,
        pwd@,
        sid as int,
        now as int,
        s0.next_record_id,
    );
    if pairs.len() == 0 {
        let entry = CommandHistoryEntry {
            id: None,
            timestamp: now,
            command: raw_command.to_owned(),
            binary: String::from_str("unknown"),
            user: user.to_owned(),
            pwd: pwd.to_owned(),
            session_id: sid,
        };
        let res = store.log_command(&entry);
        proof {
            assert(entries.len() == 1);
            assert(entries[0] == stamped(entry@, s0.next_record_id));
        }
        match res {
            Ok(_) => {
                proof {
                    assert(store@.records =~= s0.records + entries);
                }
                Ok(())
            },
            Err(e) => {
                proof {
                    assert(store@.records =~= s0.records + entries.take(0));
                }
                Err(e)
            },
        }
    } else {
        let mut i: usize = 0;
        let ghost n = entries.len() as int;
        proof {
            assert(n == pairs@.len());
            assert(store@.records =~= s0.records + entries.take(0));
        }
        while i < pairs.len()
            invariant
                store_wf(store@),
                pairs.len() == n,
                i <= pairs.len(),
                crate::splitter::pairs_view(pairs@) == parse_line(raw_command@),
                entries == logged_entries(
                    parse_line(raw_command@),
                    raw_command@,
                    user@,
                    pwd@,
                    sid as int,
                    now as int,
                    s0.next_record_id,
                ),
                has_session(store@, sid as int),
                store@.records == s0.records + entries.take(i as int),
                store@.next_record_id == s0.next_record_id + i,
                store@.next_session_id == sr.next_session_id,
                i == 0 ==> store@.sessions == sr.sessions,
                i > 0 ==> store@.sessions == stamp_session(sr.sessions, sid as int, now as int),
            decreases pairs.len() - i,
        {
            let entry = CommandHistoryEntry {
                id: None,
                timestamp: now,
                command: pairs[i].0.clone(),
                binary: pairs[i].1.clone(),
                user: user.to_owned(),
                pwd: pwd.to_owned(),
                session_id: sid,
            };
            let ghost smid = store@;
            let res = store.log_command(&entry);
            proof {
                assert(entries[i as int] == stamped(entry@, smid.next_record_id)) by {
                    assert(crate::splitter::pairs_view(pairs@)[i as int] == (
                        pairs@[i as int].0@,
                        pairs@[i as int].1@,
                    ));
                }
            }
            match res {
                Ok(_) => {
                    proof {
                        assert(store@.records =~= s0.records + entries.take(i + 1));
                        if i > 0 {
                            lemma_stamp_idempotent(sr.sessions, sid as int, now as int);
                        }
                    }
                },
                Err(e) => {
                    proof {
                        assert(smid.next_record_id == i64::MAX);
                        assert(s0.next_record_id + n > i64::MAX);
                        assert(i as int == i64::MAX - s0.next_record_id);
                    }
                    return Err(e);
                },
            }
            i = i + 1;
        }
        proof {
            assert(entries.take(n) =~= entries);
            assert(s0.next_record_id + n <= i64::MAX);
        }
        Ok(())
    }
}

} // verus!
