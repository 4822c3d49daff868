use recall::splitter::parse_shell_command;
use recall::splitter::resolve_binary;

fn pairs_of_line(line: &str) -> Vec<(String, String)> {
    parse_shell_command(line)
}

#[test]
fn no_separator_single_pair() {
    let pairs = pairs_of_line("ls -la");
    assert_eq!(pairs.len(), 1);
    assert_eq!(pairs[0].0, "ls -la");
    assert_eq!(pairs[0].1, "ls");
}

#[test]
fn no_separator_trims_whitespace() {
    let pairs = pairs_of_line("   git status  ");
    assert_eq!(pairs.len(), 1);
    assert_eq!(pairs[0].0, "git status");
    assert_eq!(pairs[0].1, "git");
}

#[test]
fn compound_line_three_pairs() {
    let pairs = pairs_of_line("ls -la && cd foo | grep bar");
    assert_eq!(pairs.len(), 3);
    assert_eq!(pairs[0], ("ls -la".to_string(), "ls".to_string()));
    assert_eq!(pairs[1], ("cd foo".to_string(), "cd".to_string()));
    assert_eq!(pairs[2], ("grep bar".to_string(), "grep".to_string()));
}

#[test]
fn blank_line_yields_nothing() {
    assert_eq!(pairs_of_line("").len(), 0);
    assert_eq!(pairs_of_line("   \t  ").len(), 0);
}

#[test]
fn semicolons_and_newlines_split_statements() {
    let pairs = pairs_of_line("a; b\nc");
    assert_eq!(pairs.len(), 3);
    assert_eq!(pairs[0].0, "a");
    assert_eq!(pairs[1].0, "b");
    assert_eq!(pairs[2].0, "c");
}

#[test]
fn or_operator_splits() {
    let pairs = pairs_of_line("make || echo failed");
    assert_eq!(pairs.len(), 2);
    assert_eq!(pairs[0], ("make".to_string(), "make".to_string()));
    assert_eq!(pairs[1], ("echo failed".to_string(), "echo".to_string()));
}

#[test]
fn and_chain_splits() {
    let pairs = pairs_of_line("a && b && c");
    assert_eq!(pairs.len(), 3);
    assert_eq!(pairs[0].0, "a");
    assert_eq!(pairs[1].0, "b");
    assert_eq!(pairs[2].0, "c");
}

#[test]
fn single_ampersand_is_ordinary_text() {
    let pairs = pairs_of_line("sleep 1 &");
    assert_eq!(pairs.len(), 1);
    assert_eq!(pairs[0].0, "sleep 1 &");
    assert_eq!(pairs[0].1, "sleep");
}

#[test]
fn empty_segments_are_dropped() {
    let pairs = pairs_of_line("a ;; | b");
    assert_eq!(pairs.len(), 2);
    assert_eq!(pairs[0].0, "a");
    assert_eq!(pairs[1].0, "b");
}

#[test]
fn alias_definition_resolves_to_its_first_word() {
    assert_eq!(resolve_binary("ll", Some("ls -la")), "ls");
    assert_eq!(resolve_binary("gs", Some("  git status")), "git");
}

#[test]
fn missing_or_blank_alias_falls_back_to_literal() {
    assert_eq!(resolve_binary("ls", None), "ls");
    assert_eq!(resolve_binary("weird", Some("   ")), "weird");
    assert_eq!(resolve_binary("weird", Some("")), "weird");
}

#[test]
fn pipeline_stages_become_pairs() {
    let pairs = pairs_of_line("cat log | sort | uniq -c");
    assert_eq!(pairs.len(), 3);
    assert_eq!(pairs[0].1, "cat");
    assert_eq!(pairs[1].1, "sort");
    assert_eq!(pairs[2].1, "uniq");
}
