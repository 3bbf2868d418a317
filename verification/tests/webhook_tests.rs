use git_friends::auth::AuthManager;
use git_friends::codec::decode_commit;
use git_friends::commit::CommitInfo;
use git_friends::config::{AuthConfig, Config, TokenConfig};
use git_friends::mqtt::{
    connection_poll_step, prepare_publish, relay_line_for_payload, supervisor_continues,
    supervisor_step, ConnectPoll, SupervisorAction, BACKOFF_SECS, CONNECT_POLL_MILLIS,
};
use git_friends::webhook::{plan_webhook, publish_status, WebhookOutcome};

fn sample_commit() -> CommitInfo {
    CommitInfo {
        hash: "abcdef1234567890".to_string(),
        short_hash: "abcdef1".to_string(),
        author_name: "John Doe".to_string(),
        author_email: "john@example.com".to_string(),
        committer_name: "bob".to_string(),
        committer_email: "bob@example.com".to_string(),
        message: "Fix bug\n\ndetails".to_string(),
        timestamp: 1234567890,
        repository_url: "https://github.com/user/repo".to_string(),
        branch: "main".to_string(),
        files_changed: vec!["src/auth.rs".to_string()],
    }
}

fn server_fixture() -> (Config, AuthManager) {
    let mut config = Config::default();
    config.auth = AuthConfig {
        tokens: vec![TokenConfig {
            token: "test-token".to_string(),
            username: "alice".to_string(),
        }],
        require_auth: true,
    };
    let auth = AuthManager::new(&config.auth);
    (config, auth)
}

#[test]
fn webhook_publishes_for_known_bearer_token() {
    let (config, auth) = server_fixture();
    let commit = sample_commit();
    let header = "Bearer test-token".to_string();
    match plan_webhook(&config, &auth, Some(&header), &commit) {
        WebhookOutcome::Publish { topic, payload } => {
            assert_eq!(topic, "git-friends/alice/github_com_user_repo/bob");
            assert_eq!(decode_commit(&payload).unwrap(), commit);
        }
        WebhookOutcome::Reject { status } => panic!("rejected with {}", status),
    }
    assert_eq!(publish_status(true), 200);
    assert_eq!(publish_status(false), 500);
}

#[test]
fn webhook_missing_header_is_unauthorized_and_publishes_nothing() {
    let (config, auth) = server_fixture();
    let outcome = plan_webhook(&config, &auth, None, &sample_commit());
    assert!(!outcome.is_publish());
    match outcome {
        WebhookOutcome::Reject { status } => assert_eq!(status, 401),
        WebhookOutcome::Publish { .. } => panic!("published without credentials"),
    }
}

#[test]
fn webhook_malformed_header_matches_unknown_token_response() {
    let (config, auth) = server_fixture();
    let commit = sample_commit();
    let malformed = "Invalid token_without_bearer_prefix".to_string();
    let unknown = "Bearer wrong-token".to_string();
    let s1 = match plan_webhook(&config, &auth, Some(&malformed), &commit) {
        WebhookOutcome::Reject { status } => status,
        WebhookOutcome::Publish { .. } => panic!("published on malformed header"),
    };
    let s2 = match plan_webhook(&config, &auth, Some(&unknown), &commit) {
        WebhookOutcome::Reject { status } => status,
        WebhookOutcome::Publish { .. } => panic!("published on unknown token"),
    };
    assert_eq!(s1, 401);
    assert_eq!(s2, 401);
}

#[test]
fn webhook_without_required_auth_publishes_as_anonymous() {
    let mut config = Config::default();
    config.auth.require_auth = false;
    let auth = AuthManager::new(&config.auth);
    match plan_webhook(&config, &auth, None, &sample_commit()) {
        WebhookOutcome::Publish { topic, .. } => {
            assert_eq!(topic, "git-friends/anonymous/github_com_user_repo/bob");
        }
        WebhookOutcome::Reject { status } => panic!("rejected with {}", status),
    }
}

#[test]
fn prepare_publish_round_trips_through_relay() {
    let config = Config::default();
    let commit = sample_commit();
    let (topic, payload) = prepare_publish(&config, &commit, Some("alice"));
    assert_eq!(topic, "git-friends/alice/github_com_user_repo/bob");
    let line = relay_line_for_payload(&payload).unwrap();
    assert_eq!(line, "[abcdef1] repo by John Doe (main): Fix bug - src/auth.rs");
}

#[test]
fn relay_drops_malformed_payload_with_decode_error() {
    let err = relay_line_for_payload("{malformed").unwrap_err();
    assert!(err.is_decode_failed());
}

#[test]
fn supervisor_forwards_events_and_backs_off_on_errors() {
    assert!(supervisor_step(true).is_forward());
    match supervisor_step(false) {
        SupervisorAction::Backoff(secs) => assert_eq!(secs, BACKOFF_SECS),
        SupervisorAction::Forward => panic!("forwarded a transport error"),
    }
    assert!(supervisor_continues(true));
    assert!(!supervisor_continues(false));
}

#[test]
fn connection_timeout_surfaces_connection_failure() {
    let err = git_friends::mqtt::connection_timeout_error();
    assert!(matches!(err, git_friends::GitFriendsError::ConnectionFailed(_)));
}

#[test]
fn connection_poll_retries_until_timeout() {
    assert!(matches!(connection_poll_step(true, 0, 10000), ConnectPoll::Connected));
    match connection_poll_step(false, 500, 10000) {
        ConnectPoll::RetryAfter(m) => assert_eq!(m, CONNECT_POLL_MILLIS),
        _ => panic!("expected a retry before the timeout"),
    }
    assert!(matches!(connection_poll_step(false, 10000, 10000), ConnectPoll::TimedOut));
    assert!(matches!(connection_poll_step(true, 10000, 10000), ConnectPoll::Connected));
}
