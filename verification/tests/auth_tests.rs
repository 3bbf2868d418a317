use git_friends::auth::AuthManager;
use git_friends::config::{AuthConfig, TokenConfig};

#[test]
fn test_auth_manager_with_tokens() {
    let config = AuthConfig {
        tokens: vec![TokenConfig {
            token: "test-token".to_string(),
            username: "testuser".to_string(),
        }],
        require_auth: true,
    };

    let auth_manager = AuthManager::new(&config);

    assert_eq!(auth_manager.validate_token("test-token"), Some("testuser"));
    assert_eq!(auth_manager.validate_token("invalid-token"), None);
}

#[test]
fn test_auth_manager_without_auth() {
    let config = AuthConfig { tokens: vec![], require_auth: false };

    let auth_manager = AuthManager::new(&config);

    assert_eq!(auth_manager.validate_token("any-token"), Some("anonymous"));
    assert_eq!(auth_manager.validate_token(""), Some("anonymous"));
}

#[test]
fn test_bearer_token_validation() {
    let config = AuthConfig {
        tokens: vec![TokenConfig {
            token: "test-token".to_string(),
            username: "testuser".to_string(),
        }],
        require_auth: true,
    };

    let auth_manager = AuthManager::new(&config);

    assert_eq!(
        auth_manager.validate_bearer_token("Bearer test-token").unwrap(),
        Some("testuser".to_string())
    );
    assert_eq!(auth_manager.validate_bearer_token("Bearer invalid-token").unwrap(), None);
    assert!(auth_manager.validate_bearer_token("Invalid format").is_err());
    let err = auth_manager.validate_bearer_token("Invalid format").unwrap_err();
    assert!(err.is_authentication_failed());
}

#[test]
fn test_token_generation() {
    let token1 = AuthManager::generate_token();
    let token2 = AuthManager::generate_token();

    assert_ne!(token1, token2);
    assert!(!token1.is_empty());
    assert!(!token2.is_empty());
}

#[test]
fn test_token_config_generation() {
    let config = AuthManager::generate_token_config("testuser");

    assert_eq!(config.username, "testuser");
    assert!(!config.token.is_empty());
}

#[test]
fn add_then_validate_returns_identity() {
    let config = AuthConfig { tokens: vec![], require_auth: true };
    let mut auth_manager = AuthManager::new(&config);

    auth_manager.add_token("t1".to_string(), "ida".to_string());
    assert_eq!(auth_manager.validate_token("t1"), Some("ida"));

    auth_manager.add_token("t1".to_string(), "idb".to_string());
    assert_eq!(auth_manager.validate_token("t1"), Some("idb"));

    assert_eq!(auth_manager.remove_token("t1"), Some("idb".to_string()));
    assert_eq!(auth_manager.validate_token("t1"), None);
    assert_eq!(auth_manager.remove_token("t1"), None);
}

#[test]
fn list_tokens_returns_bindings() {
    let config = AuthConfig {
        tokens: vec![
            TokenConfig { token: "a".to_string(), username: "u1".to_string() },
            TokenConfig { token: "b".to_string(), username: "u2".to_string() },
        ],
        require_auth: true,
    };
    let auth_manager = AuthManager::new(&config);
    let listed = auth_manager.list_tokens();
    assert_eq!(listed.len(), 2);
    assert_eq!(listed[0].token, "a");
    assert_eq!(listed[0].username, "u1");
    assert_eq!(listed[1].token, "b");
    assert_eq!(listed[1].username, "u2");
}

#[test]
fn generated_token_has_base64_length_and_alphabet() {
    let token = AuthManager::generate_token();
    assert_eq!(token.chars().count(), 22);
    assert!(token
        .chars()
        .all(|c| c.is_ascii_alphanumeric() || c == '-' || c == '_'));
}

#[test]
fn duplicate_config_bindings_collapse_to_the_later_one() {
    let config = AuthConfig {
        tokens: vec![
            TokenConfig { token: "tok".to_string(), username: "first".to_string() },
            TokenConfig { token: "tok".to_string(), username: "second".to_string() },
        ],
        require_auth: true,
    };
    let auth_manager = AuthManager::new(&config);
    assert_eq!(auth_manager.validate_token("tok"), Some("second"));
    let listed = auth_manager.list_tokens();
    assert_eq!(listed.len(), 1);
    assert_eq!(listed[0].token, "tok");
    assert_eq!(listed[0].username, "second");
}

#[test]
fn overwriting_a_binding_keeps_one_listing_entry() {
    let config = AuthConfig { tokens: vec![], require_auth: true };
    let mut auth_manager = AuthManager::new(&config);
    auth_manager.add_token("tok".to_string(), "first".to_string());
    auth_manager.add_token("tok".to_string(), "second".to_string());
    let listed = auth_manager.list_tokens();
    assert_eq!(listed.len(), 1);
    assert_eq!(listed[0].username, "second");
}
