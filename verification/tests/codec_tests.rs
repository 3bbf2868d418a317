use git_friends::codec::{decode_commit, encode_commit};
use git_friends::commit::CommitInfo;

fn sample_commit() -> CommitInfo {
    CommitInfo {
        hash: "abcdef1234567890".to_string(),
        short_hash: "abcdef1".to_string(),
        author_name: "John Doe".to_string(),
        author_email: "john@example.com".to_string(),
        committer_name: "John Doe".to_string(),
        committer_email: "john@example.com".to_string(),
        message: "Fix bug in authentication\n\nThis fixes the issue where...".to_string(),
        timestamp: 1234567890,
        repository_url: "https://github.com/user/repo".to_string(),
        branch: "main".to_string(),
        files_changed: vec!["src/auth.rs".to_string(), "tests/auth_test.rs".to_string()],
    }
}

#[test]
fn round_trip_reproduces_sample() {
    let commit = sample_commit();
    let encoded = encode_commit(&commit);
    let decoded = decode_commit(&encoded).unwrap();
    assert_eq!(decoded, commit);
}

#[test]
fn round_trip_multiline_unicode_message() {
    let mut commit = sample_commit();
    commit.message = "première ligne \u{1F600}\nzweite Zeile\t\"quoted\" \\ backslash\r\n\u{0001}control".to_string();
    commit.author_name = "Ærøskøbing Õpetaja".to_string();
    commit.branch = "feature/ünïcode".to_string();
    let encoded = encode_commit(&commit);
    let decoded = decode_commit(&encoded).unwrap();
    assert_eq!(decoded, commit);
}

#[test]
fn backspace_and_form_feed_use_short_escapes() {
    let mut commit = sample_commit();
    commit.message = "a\u{8}b\u{c}c".to_string();
    let encoded = encode_commit(&commit);
    assert!(encoded.contains("\\b"));
    assert!(encoded.contains("\\f"));
    let value: serde_json::Value = serde_json::from_str(&encoded).unwrap();
    assert_eq!(value["message"].as_str().unwrap(), "a\u{8}b\u{c}c");
    assert_eq!(decode_commit(&encoded).unwrap(), commit);
}

#[test]
fn round_trip_empty_fields_and_negative_timestamp() {
    let commit = CommitInfo {
        hash: String::new(),
        short_hash: String::new(),
        author_name: String::new(),
        author_email: String::new(),
        committer_name: String::new(),
        committer_email: String::new(),
        message: String::new(),
        timestamp: -62135596800,
        repository_url: String::new(),
        branch: String::new(),
        files_changed: vec![],
    };
    let encoded = encode_commit(&commit);
    let decoded = decode_commit(&encoded).unwrap();
    assert_eq!(decoded, commit);
}

#[test]
fn round_trip_extreme_timestamps() {
    for ts in [i64::MIN, i64::MAX, 0, -1] {
        let mut commit = sample_commit();
        commit.timestamp = ts;
        let encoded = encode_commit(&commit);
        let decoded = decode_commit(&encoded).unwrap();
        assert_eq!(decoded, commit);
    }
}

#[test]
fn round_trip_many_files() {
    let mut commit = sample_commit();
    commit.files_changed = (0..20).map(|i| format!("dir/file{}.rs", i)).collect();
    let encoded = encode_commit(&commit);
    let decoded = decode_commit(&encoded).unwrap();
    assert_eq!(decoded, commit);
}

#[test]
fn encoded_form_is_canonical_json() {
    let mut commit = sample_commit();
    commit.message = "one\ntwo".to_string();
    commit.files_changed = vec!["a".to_string()];
    let encoded = encode_commit(&commit);
    assert_eq!(
        encoded,
        "{\"hash\":\"abcdef1234567890\",\"short_hash\":\"abcdef1\",\
         \"author_name\":\"John Doe\",\"author_email\":\"john@example.com\",\
         \"committer_name\":\"John Doe\",\"committer_email\":\"john@example.com\",\
         \"message\":\"one\\ntwo\",\"timestamp\":1234567890,\
         \"repository_url\":\"https://github.com/user/repo\",\
         \"branch\":\"main\",\"files_changed\":[\"a\"]}"
    );
}

#[test]
fn encoded_form_parses_as_json() {
    let commit = sample_commit();
    let encoded = encode_commit(&commit);
    let value: serde_json::Value = serde_json::from_str(&encoded).unwrap();
    assert_eq!(value["hash"], serde_json::Value::String("abcdef1234567890".to_string()));
    assert_eq!(value["timestamp"], serde_json::Value::from(1234567890i64));
    assert_eq!(value["files_changed"].as_array().unwrap().len(), 2);
    assert_eq!(
        value["message"].as_str().unwrap(),
        "Fix bug in authentication\n\nThis fixes the issue where..."
    );
}

#[test]
fn malformed_payloads_fail_with_decode_error() {
    for payload in [
        "",
        "{}",
        "not json at all",
        "{\"hash\":\"abc\"}",
        "[1,2,3]",
    ] {
        let err = decode_commit(payload).unwrap_err();
        assert!(err.is_decode_failed());
    }
}

#[test]
fn truncated_payload_fails_with_decode_error() {
    let encoded = encode_commit(&sample_commit());
    let truncated = &encoded[..encoded.len() - 2];
    assert!(decode_commit(truncated).unwrap_err().is_decode_failed());
    let with_junk = format!("{} ", encoded);
    assert!(decode_commit(&with_junk).unwrap_err().is_decode_failed());
}

#[test]
fn out_of_range_timestamp_fails_with_decode_error() {
    let encoded = encode_commit(&sample_commit());
    let bumped = encoded.replace("\"timestamp\":1234567890", "\"timestamp\":99999999999999999999");
    assert!(decode_commit(&bumped).unwrap_err().is_decode_failed());
}
