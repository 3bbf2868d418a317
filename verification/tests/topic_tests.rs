use git_friends::Config;

fn base_config() -> Config {
    Config::default()
}

#[test]
fn sanitize_strips_scheme_and_separators() {
    assert_eq!(Config::sanitize_repo_url("https://github.com/user/repo"), "github_com_user_repo");
    assert_eq!(Config::sanitize_repo_url("http://example.org/a.b"), "example_org_a_b");
}

#[test]
fn sanitize_strips_credential_marker_and_dot_git() {
    assert_eq!(Config::sanitize_repo_url("git@github.com:user/repo.git"), "github_com_user_repo");
    assert_eq!(
        Config::sanitize_repo_url("https://git@github.com/user/repo.git"),
        "github_com_user_repo"
    );
}

#[test]
fn sanitize_of_plain_name_is_identity() {
    assert_eq!(Config::sanitize_repo_url("repo"), "repo");
    assert_eq!(Config::sanitize_repo_url(""), "");
}

#[test]
fn topic_with_identity_has_four_segments() {
    let config = base_config();
    let topic =
        config.mqtt_topic_for_repo("https://github.com/user/repo", "bob", Some("alice"));
    assert_eq!(topic, "git-friends/alice/github_com_user_repo/bob");
}

#[test]
fn topic_without_identity_has_three_segments() {
    let config = base_config();
    let topic = config.mqtt_topic_for_repo("https://github.com/user/repo", "bob", None);
    assert_eq!(topic, "git-friends/github_com_user_repo/bob");
}

#[test]
fn topic_derivation_is_deterministic() {
    let config = base_config();
    let t1 = config.mqtt_topic_for_repo("git@host:x/y.git", "carol", Some("dave"));
    let t2 = config.mqtt_topic_for_repo("git@host:x/y.git", "carol", Some("dave"));
    assert_eq!(t1, t2);
}

#[test]
fn alias_table_entry_wins_over_sanitizing() {
    let mut config = base_config();
    config
        .git
        .repository_mappings
        .push(("https://github.com/user/repo".to_string(), "shortname".to_string()));
    let topic =
        config.mqtt_topic_for_repo("https://github.com/user/repo", "bob", Some("alice"));
    assert_eq!(topic, "git-friends/alice/shortname/bob");
    let other = config.mqtt_topic_for_repo("https://github.com/other/repo", "bob", None);
    assert_eq!(other, "git-friends/github_com_other_repo/bob");
}

#[test]
fn default_config_values() {
    let config = Config::default();
    assert_eq!(config.server.port, 8080);
    assert_eq!(config.mqtt.broker_port, 1883);
    assert_eq!(config.mqtt.topic_prefix, "git-friends");
    assert!(config.auth.require_auth);
    assert!(config.auth.tokens.is_empty());
    assert_eq!(config.irc.channels, vec!["#git-friends".to_string()]);
}
