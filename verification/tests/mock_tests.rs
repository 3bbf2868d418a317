use git_friends::mock::generate_mock_commit;

#[test]
fn mock_commit_is_a_function_of_its_inputs() {
    let a = generate_mock_commit("https://github.com/test/mock-repo", "Test Author", "master", 1,
        "deadbeefcafe1234", 42);
    let b = generate_mock_commit("https://github.com/test/mock-repo", "Test Author", "master", 1,
        "deadbeefcafe1234", 42);
    assert_eq!(a, b);
    assert_eq!(a.hash, "deadbeefcafe1234");
    assert_eq!(a.short_hash, "deadbee");
    assert_eq!(a.author_name, "Test Author");
    assert_eq!(a.author_email, "test.author@example.com");
    assert_eq!(a.committer_email, "test.author@example.com");
    assert_eq!(a.timestamp, 42);
    assert_eq!(a.branch, "master");
    assert_eq!(a.message, "Add new feature for user authentication");
    assert_eq!(a.files_changed, vec!["src/main.rs".to_string(), "Cargo.toml".to_string()]);
}

#[test]
fn mock_commit_rotates_messages_and_files() {
    let second = generate_mock_commit("r", "A", "b", 2, "h", 0);
    assert_eq!(second.message, "Fix bug in payment processing");
    assert_eq!(second.files_changed.len(), 3);

    let eleventh = generate_mock_commit("r", "A", "b", 11, "h", 0);
    assert_eq!(eleventh.message, "Implement rate limiting for API");
    assert_eq!(
        eleventh.files_changed,
        vec!["src/main.rs".to_string(), "Cargo.toml".to_string()]
    );

    let wrapped = generate_mock_commit("r", "A", "b", 21, "h", 0);
    assert_eq!(wrapped.message, "Add new feature for user authentication");
    assert_eq!(wrapped.files_changed, vec!["src/main.rs".to_string(), "Cargo.toml".to_string()]);
}
