use git_friends::commit::{short_hash_of, CommitInfo};
use git_friends::mqtt::{first_line_of, format_commit_for_irc};

fn sample_commit() -> CommitInfo {
    CommitInfo {
        hash: "abcdef1234567890".to_string(),
        short_hash: "abcdef1".to_string(),
        author_name: "John Doe".to_string(),
        author_email: "john@example.com".to_string(),
        committer_name: "John Doe".to_string(),
        committer_email: "john@example.com".to_string(),
        message: "Fix bug in authentication\n\nThis fixes the issue where...".to_string(),
        timestamp: 1234567890,
        repository_url: "https://github.com/user/repo".to_string(),
        branch: "main".to_string(),
        files_changed: vec!["src/auth.rs".to_string(), "tests/auth_test.rs".to_string()],
    }
}

#[test]
fn test_commit_formatting() {
    let commit_info = sample_commit();

    let formatted = format_commit_for_irc(&commit_info);
    assert!(formatted.contains("abcdef1"));
    assert!(formatted.contains("John Doe"));
    assert!(formatted.contains("Fix bug in authentication"));
}

#[test]
fn formatted_line_is_exact() {
    let formatted = format_commit_for_irc(&sample_commit());
    assert_eq!(
        formatted,
        "[abcdef1] repo by John Doe (main): Fix bug in authentication - src/auth.rs, tests/auth_test.rs"
    );
}

#[test]
fn more_than_three_files_are_summarized() {
    let mut commit = sample_commit();
    commit.files_changed = vec![
        "src/one.rs".to_string(),
        "src/two.rs".to_string(),
        "src/three.rs".to_string(),
        "src/four.rs".to_string(),
    ];
    let formatted = format_commit_for_irc(&commit);
    assert!(formatted.contains("4 files changed"));
    assert!(!formatted.contains("src/one.rs"));
    assert!(!formatted.contains("src/four.rs"));
}

#[test]
fn three_files_are_listed() {
    let mut commit = sample_commit();
    commit.files_changed =
        vec!["a.rs".to_string(), "b.rs".to_string(), "c.rs".to_string()];
    let formatted = format_commit_for_irc(&commit);
    assert!(formatted.ends_with(" - a.rs, b.rs, c.rs"));
}

#[test]
fn first_line_is_trimmed() {
    assert_eq!(first_line_of("  hello world  \nrest"), "hello world");
    assert_eq!(first_line_of("single"), "single");
    assert_eq!(first_line_of(""), "");
    assert_eq!(first_line_of("\nsecond"), "");
    assert_eq!(first_line_of("line one\r\nline two"), "line one");
}

#[test]
fn short_hash_clamps_to_available_length() {
    assert_eq!(short_hash_of("abcdef1234567890"), "abcdef1");
    assert_eq!(short_hash_of("abc"), "abc");
    assert_eq!(short_hash_of(""), "");
    assert_eq!(short_hash_of("abcdefg"), "abcdefg");
}

#[test]
fn basename_falls_back_to_whole_url() {
    let mut commit = sample_commit();
    commit.repository_url = "plainname".to_string();
    let formatted = format_commit_for_irc(&commit);
    assert!(formatted.contains("] plainname by"));
}
