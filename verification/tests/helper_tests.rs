use recall::install::integration_snippet;
use recall::install::BASH_AFTER_PATH;
use recall::install::BASH_BEFORE_PATH;
use recall::install::FISH_AFTER_PATH;
use recall::install::FISH_BEFORE_PATH;
use recall::install::ZSH_AFTER_PATH;
use recall::install::ZSH_BEFORE_PATH;
use recall::keys::derive_session_key;
use recall::render::display_time;
use recall::render::session_color_index;
use recall::text::str_contains;
use recall::text::str_eq;
use recall::text::str_starts_with;
use recall::text::u64_to_string;

#[test]
fn decimal_rendering_is_exact() {
    assert_eq!(u64_to_string(0), "0");
    assert_eq!(u64_to_string(7), "7");
    assert_eq!(u64_to_string(10), "10");
    assert_eq!(u64_to_string(12345), "12345");
    assert_eq!(u64_to_string(u64::MAX), "18446744073709551615");
}

#[test]
fn string_helpers_behave_like_std() {
    assert!(str_eq("abc", "abc"));
    assert!(!str_eq("abc", "abd"));
    assert!(!str_eq("abc", "ab"));
    assert!(str_starts_with("/dev/pts/3", "/dev/"));
    assert!(!str_starts_with("pts/3", "/dev/"));
    assert!(str_contains("5 seconds ago", "seconds ago"));
    assert!(!str_contains("5 minutes ago", "seconds ago"));
    assert!(str_contains("anything", ""));
}

#[test]
fn session_key_prefers_xdg() {
    let key = derive_session_key(
        Some("12".to_string()),
        Some("/dev/pts/1".to_string()),
        Some(99),
        Some("33".to_string()),
        None,
        None,
        None,
    );
    assert_eq!(key, "xdg:12");
}

#[test]
fn session_key_uses_terminal_with_inode() {
    let key = derive_session_key(
        None,
        Some("/dev/pts/1".to_string()),
        Some(99),
        None,
        None,
        None,
        None,
    );
    assert_eq!(key, "term_pts/1_99");
}

#[test]
fn session_key_uses_terminal_without_inode() {
    let key = derive_session_key(None, Some("/dev/tty2".to_string()), None, None, None, None, None);
    assert_eq!(key, "term_tty2");
}

#[test]
fn session_key_skips_non_device_terminal() {
    let key = derive_session_key(
        None,
        Some("pipe:[123]".to_string()),
        Some(99),
        Some("44".to_string()),
        None,
        None,
        None,
    );
    assert_eq!(key, "process_sid_44");
}

#[test]
fn session_key_falls_back_through_shell_pids() {
    let key = derive_session_key(None, None, None, None, Some("7".to_string()), None, None);
    assert_eq!(key, "fish_7");
    let key = derive_session_key(None, None, None, None, None, Some("8".to_string()), None);
    assert_eq!(key, "bash_8");
    let key = derive_session_key(None, None, None, None, None, None, Some("9".to_string()));
    assert_eq!(key, "shell_9");
    let key = derive_session_key(None, None, None, None, None, None, None);
    assert_eq!(key, "shell_unknown");
}

#[test]
fn color_slots_cycle_over_sessions() {
    assert_eq!(session_color_index(0), 0);
    assert_eq!(session_color_index(5), 5);
    assert_eq!(session_color_index(13), 13);
    assert_eq!(session_color_index(14), 0);
    assert_eq!(session_color_index(33), 5);
}

#[test]
fn recent_times_display_as_now() {
    assert_eq!(display_time("5 seconds ago"), "now");
    assert_eq!(display_time("now"), "now");
    assert_eq!(display_time("2 minutes ago"), "2 minutes ago");
    assert_eq!(display_time("in 30 seconds"), "in 30 seconds");
}

#[test]
fn snippets_splice_the_executable_path() {
    let bash = integration_snippet("bash", "/usr/bin/recall").unwrap();
    assert_eq!(bash, format!("{}{}{}", BASH_BEFORE_PATH, "/usr/bin/recall", BASH_AFTER_PATH));
    assert!(bash.contains("/usr/bin/recall log"));
    assert!(bash.contains("PROMPT_COMMAND"));
    let zsh = integration_snippet("zsh", "/usr/bin/recall").unwrap();
    assert_eq!(zsh, format!("{}{}{}", ZSH_BEFORE_PATH, "/usr/bin/recall", ZSH_AFTER_PATH));
    assert!(zsh.contains("preexec()"));
    let fish = integration_snippet("fish", "/usr/bin/recall").unwrap();
    assert_eq!(fish, format!("{}{}{}", FISH_BEFORE_PATH, "/usr/bin/recall", FISH_AFTER_PATH));
    assert!(fish.contains("fish_preexec"));
}

#[test]
fn unsupported_shell_gets_no_snippet() {
    assert!(integration_snippet("tcsh", "/usr/bin/recall").is_none());
    assert!(integration_snippet("", "/usr/bin/recall").is_none());
}
