use rust4u_backend::domain_error::DomainError;
use rust4u_backend::guard::{authorize, authorize_owner, extract_bearer};
use rust4u_backend::token::TokenService;

#[test]
fn issued_token_validates_with_same_subject() {
    let ts = TokenService::new("test-secret".to_string(), Some(2));
    let subject: u128 = 0x1234_5678_9abc_def0;
    let token = ts.issue(subject, 1_000).unwrap();
    let claims = ts.validate(token.as_str(), 1_000).unwrap();
    assert_eq!(claims.sub, subject);
    assert_eq!(claims.exp, 1_000 + 2 * 3600);
}

#[test]
fn default_expiry_window_is_twenty_four_hours() {
    let ts = TokenService::new("test-secret".to_string(), None);
    let token = ts.issue(7, 0).unwrap();
    let claims = ts.validate(token.as_str(), 0).unwrap();
    assert_eq!(claims.exp, 24 * 3600);
    // strictly-in-the-future check: at the expiry instant the token is dead
    assert!(ts.validate(token.as_str(), 24 * 3600 - 1).is_ok());
    assert!(matches!(
        ts.validate(token.as_str(), 24 * 3600),
        Err(DomainError::Unauthorized(_))
    ));
}

#[test]
fn expired_token_is_unauthorized_despite_valid_signature() {
    let ts = TokenService::new("test-secret".to_string(), Some(1));
    let token = ts.issue(99, 1_000).unwrap();
    let r = ts.validate(token.as_str(), 1_000_000);
    assert!(matches!(r, Err(DomainError::Unauthorized(_))));
}

#[test]
fn garbage_and_wrong_secret_tokens_are_unauthorized() {
    let ts = TokenService::new("test-secret".to_string(), Some(1));
    assert!(matches!(
        ts.validate("not-a-token", 0),
        Err(DomainError::Unauthorized(_))
    ));
    let other = TokenService::new("other-secret".to_string(), Some(1));
    let token = other.issue(5, 0).unwrap();
    assert!(matches!(
        ts.validate(token.as_str(), 0),
        Err(DomainError::Unauthorized(_))
    ));
}

#[test]
fn issuance_is_deterministic_for_one_clock_reading() {
    let ts = TokenService::new("det-secret".to_string(), Some(3));
    let first = ts.issue(987654321, 777).unwrap();
    let second = ts.issue(987654321, 777).unwrap();
    assert_eq!(first, second);
    let other_clock = ts.issue(987654321, 778).unwrap();
    assert_ne!(first, other_clock);
}

#[test]
fn token_is_three_dot_separated_base64url_parts() {
    let ts = TokenService::new("wire-secret".to_string(), Some(1));
    let token = ts.issue(11, 0).unwrap();
    let parts: Vec<&str> = token.split('.').collect();
    assert_eq!(parts.len(), 3);
    for part in parts {
        assert!(!part.is_empty());
        assert!(part
            .chars()
            .all(|c| c.is_ascii_alphanumeric() || c == '-' || c == '_'));
    }
}

#[test]
fn bearer_extraction_strips_prefix_and_spaces() {
    assert_eq!(extract_bearer("Bearer abc.def.ghi").unwrap(), "abc.def.ghi");
    assert_eq!(extract_bearer("Bearer    abc   ").unwrap(), "abc");
    assert_eq!(extract_bearer("Bearer "), Some("".to_string()));
    assert_eq!(extract_bearer("bearer abc"), None);
    assert_eq!(extract_bearer("Token abc"), None);
    assert_eq!(extract_bearer(""), None);
}

#[test]
fn authorize_accepts_own_token_and_rejects_the_rest() {
    let ts = TokenService::new("guard-secret".to_string(), Some(1));
    let subject: u128 = 424242;
    let token = ts.issue(subject, 50).unwrap();
    let header = format!("Bearer {}", token);
    let claims = authorize(&ts, header.as_str(), 60).unwrap();
    assert_eq!(claims.sub, subject);
    assert!(matches!(
        authorize(&ts, token.as_str(), 60),
        Err(DomainError::Unauthorized(_))
    ));
    assert!(matches!(
        authorize(&ts, header.as_str(), 50 + 3600),
        Err(DomainError::Unauthorized(_))
    ));
    let owner_ok = authorize_owner(&ts, header.as_str(), 60, subject);
    assert!(owner_ok.is_ok());
    let mismatch = authorize_owner(&ts, header.as_str(), 60, subject + 1);
    assert!(matches!(mismatch, Err(DomainError::Unauthorized(_))));
}
