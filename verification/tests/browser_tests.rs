use recall::browser::App;
use recall::browser::Key;
use recall::store::CommandHistoryEntry;

fn browser_entry(id: i64, timestamp: i64, command: &str, session_id: i64) -> CommandHistoryEntry {
    CommandHistoryEntry {
        id: Some(id),
        timestamp,
        command: command.to_string(),
        binary: command.split_whitespace().next().unwrap_or("unknown").to_string(),
        user: "tester".to_string(),
        pwd: "/home/tester".to_string(),
        session_id,
    }
}

/// A snapshot as the store hands it out: most recent first.
fn browser_snapshot() -> Vec<CommandHistoryEntry> {
    vec![
        browser_entry(3, 30, "git status", 1),
        browser_entry(2, 20, "cargo build", 2),
        browser_entry(1, 10, "ls -la", 1),
    ]
}

fn visible_commands(app: &App) -> Vec<String> {
    app.commands.iter().map(|e| e.command.clone()).collect()
}

#[test]
fn new_shows_newest_last_and_selects_it() {
    let app = App::new(browser_snapshot());
    assert_eq!(visible_commands(&app), vec!["ls -la", "cargo build", "git status"]);
    assert_eq!(app.selected, Some(2));
    assert!(!app.search_mode);
    assert!(app.session_view.is_none());
}

#[test]
fn new_on_empty_snapshot_has_no_selection() {
    let mut app = App::new(Vec::new());
    assert_eq!(app.selected, None);
    app.next();
    app.previous();
    assert_eq!(app.selected, None);
}

#[test]
fn next_wraps_from_last_to_first() {
    let mut app = App::new(browser_snapshot());
    assert_eq!(app.selected, Some(2));
    app.next();
    assert_eq!(app.selected, Some(0));
    app.next();
    assert_eq!(app.selected, Some(1));
}

#[test]
fn previous_stays_at_first() {
    let mut app = App::new(browser_snapshot());
    app.previous();
    assert_eq!(app.selected, Some(1));
    app.previous();
    assert_eq!(app.selected, Some(0));
    app.previous();
    assert_eq!(app.selected, Some(0));
}

#[test]
fn search_is_case_insensitive() {
    let mut upper = App::new(browser_snapshot());
    upper.toggle_search();
    upper.add_search_char('G');
    upper.add_search_char('I');
    upper.add_search_char('T');
    let mut lower = App::new(browser_snapshot());
    lower.toggle_search();
    lower.add_search_char('g');
    lower.add_search_char('i');
    lower.add_search_char('t');
    assert_eq!(visible_commands(&upper), visible_commands(&lower));
    assert_eq!(visible_commands(&upper), vec!["git status"]);
}

#[test]
fn backspace_widens_the_search_again() {
    let mut app = App::new(browser_snapshot());
    app.toggle_search();
    app.add_search_char('c');
    app.add_search_char('a');
    app.add_search_char('r');
    assert_eq!(visible_commands(&app), vec!["cargo build"]);
    app.remove_search_char();
    app.remove_search_char();
    app.remove_search_char();
    assert_eq!(visible_commands(&app).len(), 3);
}

#[test]
fn toggling_search_off_clears_query_and_restores_all() {
    let mut app = App::new(browser_snapshot());
    app.toggle_search();
    app.add_search_char('z');
    assert_eq!(visible_commands(&app).len(), 0);
    assert_eq!(app.selected, None);
    app.toggle_search();
    assert!(!app.search_mode);
    assert_eq!(app.search_query.len(), 0);
    assert_eq!(visible_commands(&app).len(), 3);
    assert_eq!(app.selected, Some(2));
}

#[test]
fn enter_session_view_filters_to_one_session() {
    let mut app = App::new(browser_snapshot());
    // The most recent record is selected; it belongs to session 1.
    app.enter_session_view();
    assert_eq!(app.session_view, Some(1));
    assert_eq!(visible_commands(&app), vec!["ls -la", "git status"]);
    assert_eq!(app.selected, Some(1));
}

#[test]
fn exit_session_view_restores_previous_visible_list() {
    let mut app = App::new(browser_snapshot());
    let before = visible_commands(&app);
    app.enter_session_view();
    app.exit_session_view();
    assert_eq!(visible_commands(&app), before);
    assert_eq!(app.session_view, None);
    assert_eq!(app.selected, Some(2));
}

#[test]
fn quit_key_sets_the_flag() {
    let mut app = App::new(browser_snapshot());
    app.handle_key(Key::Char('q'));
    assert!(app.should_quit);
}

#[test]
fn quit_key_is_inert_while_searching() {
    let mut app = App::new(browser_snapshot());
    app.handle_key(Key::Char('/'));
    assert!(app.search_mode);
    app.handle_key(Key::Char('q'));
    assert!(!app.should_quit);
    assert_eq!(app.search_query.len(), 0);
}

#[test]
fn typed_characters_edit_the_query() {
    let mut app = App::new(browser_snapshot());
    app.handle_key(Key::Char('/'));
    app.handle_key(Key::Char('l'));
    app.handle_key(Key::Char('s'));
    assert_eq!(app.search_query, vec!['l', 's']);
    assert_eq!(visible_commands(&app), vec!["ls -la"]);
    app.handle_key(Key::Backspace);
    assert_eq!(app.search_query, vec!['l']);
}

#[test]
fn escape_cascade_help_then_search_then_session_then_quit() {
    let mut app = App::new(browser_snapshot());
    app.handle_key(Key::Char('h'));
    assert!(app.show_help);
    app.handle_key(Key::Esc);
    assert!(!app.show_help);
    assert!(!app.should_quit);
    app.handle_key(Key::Char('/'));
    app.handle_key(Key::Esc);
    assert!(!app.search_mode);
    assert!(!app.should_quit);
    app.handle_key(Key::Enter);
    assert!(app.session_view.is_some());
    app.handle_key(Key::Esc);
    assert!(app.session_view.is_none());
    assert!(!app.should_quit);
    app.handle_key(Key::Esc);
    assert!(app.should_quit);
}

#[test]
fn help_overlay_makes_navigation_inert() {
    let mut app = App::new(browser_snapshot());
    let selected_before = app.selected;
    app.handle_key(Key::Char('?'));
    assert!(app.show_help);
    app.handle_key(Key::Down);
    app.handle_key(Key::Char('j'));
    app.handle_key(Key::Up);
    app.handle_key(Key::Enter);
    assert_eq!(app.selected, selected_before);
    assert!(app.session_view.is_none());
    app.handle_key(Key::Char('h'));
    assert!(!app.show_help);
}

#[test]
fn navigation_keys_move_the_selection() {
    let mut app = App::new(browser_snapshot());
    app.handle_key(Key::Up);
    assert_eq!(app.selected, Some(1));
    app.handle_key(Key::Char('k'));
    assert_eq!(app.selected, Some(0));
    app.handle_key(Key::Char('j'));
    assert_eq!(app.selected, Some(1));
    app.handle_key(Key::Down);
    assert_eq!(app.selected, Some(2));
}

#[test]
fn back_key_leaves_session_view() {
    let mut app = App::new(browser_snapshot());
    app.handle_key(Key::Enter);
    assert!(app.session_view.is_some());
    app.handle_key(Key::Char('b'));
    assert!(app.session_view.is_none());
    assert!(!app.should_quit);
    app.handle_key(Key::Char('b'));
    assert!(app.should_quit);
}

#[test]
fn search_key_is_inert_inside_session_view() {
    let mut app = App::new(browser_snapshot());
    app.handle_key(Key::Enter);
    assert!(app.session_view.is_some());
    app.handle_key(Key::Char('/'));
    assert!(!app.search_mode);
}
