use recall::logger::log_raw_line;
use recall::store::CommandHistoryEntry;
use recall::store::HistoryStore;
use recall::store::StoreError;

fn store_entry(timestamp: i64, command: &str, session_id: i64) -> CommandHistoryEntry {
    CommandHistoryEntry {
        id: None,
        timestamp,
        command: command.to_string(),
        binary: command.split_whitespace().next().unwrap_or("unknown").to_string(),
        user: "tester".to_string(),
        pwd: "/home/tester".to_string(),
        session_id,
    }
}

#[test]
fn resolve_same_key_twice_returns_same_id() {
    let mut store = HistoryStore::new();
    let first = store.get_or_create_session("term_tty1_7", 100).unwrap();
    let second = store.get_or_create_session("term_tty1_7", 250).unwrap();
    assert_eq!(first, second);
    assert_eq!(store.count_sessions_with_key("term_tty1_7"), 1);
}

#[test]
fn distinct_keys_get_distinct_sessions() {
    let mut store = HistoryStore::new();
    let a = store.get_or_create_session("xdg:1", 5).unwrap();
    let b = store.get_or_create_session("xdg:2", 6).unwrap();
    assert_ne!(a, b);
    assert_eq!(store.count_sessions_with_key("xdg:1"), 1);
    assert_eq!(store.count_sessions_with_key("xdg:2"), 1);
}

#[test]
fn session_records_started_at_of_first_sight() {
    let mut store = HistoryStore::new();
    let sid = store.get_or_create_session("k", 42).unwrap();
    store.get_or_create_session("k", 99).unwrap();
    let row = store.sessions.iter().find(|s| s.id == sid).unwrap();
    assert_eq!(row.started_at, 42);
    assert_eq!(row.stopped_at, None);
}

#[test]
fn log_restamps_session_stopped_at() {
    let mut store = HistoryStore::new();
    let sid = store.get_or_create_session("k", 10).unwrap();
    store.log_command(&store_entry(11, "ls", sid)).unwrap();
    assert_eq!(store.sessions[0].stopped_at, Some(11));
    store.log_command(&store_entry(57, "pwd", sid)).unwrap();
    assert_eq!(store.sessions[0].stopped_at, Some(57));
}

#[test]
fn log_then_fetch_round_trip() {
    let mut store = HistoryStore::new();
    let sid = store.get_or_create_session("k", 10).unwrap();
    store.log_command(&store_entry(11, "git status", sid)).unwrap();
    let got = store.fetch_recent_commands(10);
    assert_eq!(got.len(), 1);
    assert_eq!(got[0].command, "git status");
    assert_eq!(got[0].binary, "git");
    assert_eq!(got[0].user, "tester");
    assert_eq!(got[0].pwd, "/home/tester");
    assert_eq!(got[0].session_id, sid);
    assert_eq!(got[0].timestamp, 11);
}

#[test]
fn three_records() {
    let mut store = HistoryStore::new();
    let sid = store.get_or_create_session("k", 1).unwrap();
    store.log_command(&store_entry(5, "one", sid)).unwrap();
    store.log_command(&store_entry(9, "two", sid)).unwrap();
    store.log_command(&store_entry(7, "three", sid)).unwrap();
    let got = store.fetch_recent_commands(10);
    assert_eq!(got.len(), 3);
    assert_eq!(got[0].command, "two");
    assert_eq!(got[1].command, "three");
    assert_eq!(got[2].command, "one");
}

#[test]
fn fetch_respects_limit_and_order() {
    let mut store = HistoryStore::new();
    let sid = store.get_or_create_session("k", 1).unwrap();
    store.log_command(&store_entry(30, "a", sid)).unwrap();
    store.log_command(&store_entry(10, "b", sid)).unwrap();
    store.log_command(&store_entry(20, "c", sid)).unwrap();
    let got = store.fetch_recent_commands(2);
    assert_eq!(got.len(), 2);
    assert_eq!(got[0].command, "a");
    assert_eq!(got[1].command, "c");
}

#[test]
fn equal_timestamps_order_by_higher_id_first() {
    let mut store = HistoryStore::new();
    let sid = store.get_or_create_session("k", 1).unwrap();
    let id_first = store.log_command(&store_entry(10, "first", sid)).unwrap();
    let id_second = store.log_command(&store_entry(10, "second", sid)).unwrap();
    assert!(id_second > id_first);
    let got = store.fetch_recent_commands(10);
    assert_eq!(got[0].command, "second");
    assert_eq!(got[1].command, "first");
}

#[test]
fn log_with_unknown_session_is_refused() {
    let mut store = HistoryStore::new();
    let result = store.log_command(&store_entry(5, "ls", 42));
    assert_eq!(result, Err(StoreError::StoreWriteError));
    assert_eq!(store.record_count(), 0);
}

#[test]
fn exhausted_session_ids_fail_creation() {
    let mut store = HistoryStore::new();
    store.next_session_id = i64::MAX;
    let result = store.get_or_create_session("brand-new-key", 1);
    assert_eq!(result, Err(StoreError::SessionCreationFailed));
    assert_eq!(store.count_sessions_with_key("brand-new-key"), 0);
}

#[test]
fn exhausted_record_ids_refuse_the_write() {
    let mut store = HistoryStore::new();
    let sid = store.get_or_create_session("k", 1).unwrap();
    store.next_record_id = i64::MAX;
    let result = store.log_command(&store_entry(5, "ls", sid));
    assert_eq!(result, Err(StoreError::StoreWriteError));
    assert_eq!(store.record_count(), 0);
}

#[test]
fn fetch_from_empty_store_is_empty_not_an_error() {
    let store = HistoryStore::new();
    assert_eq!(store.fetch_recent_commands(100).len(), 0);
}

#[test]
fn log_raw_line_writes_each_sub_command() {
    let mut store = HistoryStore::new();
    log_raw_line(&mut store, "key", "ls -la && cd foo | grep bar", "u", "/p", 50).unwrap();
    let got = store.fetch_recent_commands(10);
    assert_eq!(got.len(), 3);
    let mut commands: Vec<String> = got.iter().map(|e| e.command.clone()).collect();
    commands.sort();
    assert_eq!(commands, vec!["cd foo", "grep bar", "ls -la"]);
    for e in &got {
        assert_eq!(e.timestamp, 50);
        assert_eq!(e.user, "u");
        assert_eq!(e.pwd, "/p");
    }
}

#[test]
fn log_raw_line_blank_falls_back_to_verbatim_unknown() {
    let mut store = HistoryStore::new();
    log_raw_line(&mut store, "key", "   ", "u", "/p", 8).unwrap();
    let got = store.fetch_recent_commands(10);
    assert_eq!(got.len(), 1);
    assert_eq!(got[0].command, "   ");
    assert_eq!(got[0].binary, "unknown");
}

#[test]
fn log_raw_line_creates_session_lazily() {
    let mut store = HistoryStore::new();
    log_raw_line(&mut store, "fish_77", "echo hi", "u", "/p", 3).unwrap();
    log_raw_line(&mut store, "fish_77", "echo ho", "u", "/p", 4).unwrap();
    assert_eq!(store.count_sessions_with_key("fish_77"), 1);
    let got = store.fetch_recent_commands(10);
    assert_eq!(got.len(), 2);
    assert_eq!(got[0].session_id, got[1].session_id);
}
