use rust4u_backend::domain_error::DomainError;
use rust4u_backend::user::{InMemoryUserRepository, UserUsecases};

fn usecases() -> UserUsecases<InMemoryUserRepository> {
    UserUsecases::new(InMemoryUserRepository::new())
}

#[test]
fn register_then_duplicate_email_is_conflict() {
    let mut uc = usecases();
    let first = uc.register_user(
        "alice".to_string(),
        "alice@example.com".to_string(),
        "secret-pw".to_string(),
        100,
    );
    assert!(first.is_ok());
    let second = uc.register_user(
        "alice2".to_string(),
        "alice@example.com".to_string(),
        "other-pw".to_string(),
        200,
    );
    assert!(matches!(second, Err(DomainError::Conflict(_))));
}

#[test]
fn register_empty_fields_is_invalid_data_and_writes_nothing() {
    let mut uc = usecases();
    let no_username = uc.register_user(
        "".to_string(),
        "a@example.com".to_string(),
        "pw".to_string(),
        1,
    );
    assert!(matches!(no_username, Err(DomainError::InvalidData(_))));
    let no_email = uc.register_user("a".to_string(), "".to_string(), "pw".to_string(), 1);
    assert!(matches!(no_email, Err(DomainError::InvalidData(_))));
    let no_password = uc.register_user(
        "a".to_string(),
        "a@example.com".to_string(),
        "".to_string(),
        1,
    );
    assert!(matches!(no_password, Err(DomainError::InvalidData(_))));
    let listed = uc.list_users().unwrap();
    assert_eq!(listed.len(), 0);
}

#[test]
fn login_wrong_password_is_unauthorized_and_unknown_email_is_not_found() {
    let mut uc = usecases();
    uc.register_user(
        "bob".to_string(),
        "bob@example.com".to_string(),
        "right-pw".to_string(),
        10,
    )
    .unwrap();
    let wrong = uc.login_user("bob@example.com".to_string(), "wrong-pw".to_string());
    assert!(matches!(wrong, Err(DomainError::Unauthorized(_))));
    let unknown = uc.login_user("nobody@example.com".to_string(), "right-pw".to_string());
    assert!(matches!(unknown, Err(DomainError::NotFound(_))));
    let right = uc
        .login_user("bob@example.com".to_string(), "right-pw".to_string())
        .unwrap();
    assert_eq!(right.username, "bob");
}

#[test]
fn update_with_empty_username_keeps_name_but_advances_stamp() {
    let mut uc = usecases();
    let created = uc
        .register_user(
            "carol".to_string(),
            "carol@example.com".to_string(),
            "pw-carol".to_string(),
            50,
        )
        .unwrap();
    assert_eq!(created.updated_at, None);
    let updated = uc
        .update_user(created.id, Some("".to_string()), None, 75)
        .unwrap();
    assert_eq!(updated.username, "carol");
    assert_eq!(updated.updated_at, Some(75));
    assert_eq!(updated.created_at, 50);
    let fetched = uc.get_user(created.id).unwrap();
    assert_eq!(fetched.username, "carol");
    assert_eq!(fetched.updated_at, Some(75));
}

#[test]
fn update_replaces_username_and_rehashes_password() {
    let mut uc = usecases();
    let created = uc
        .register_user(
            "dave".to_string(),
            "dave@example.com".to_string(),
            "old-pw".to_string(),
            5,
        )
        .unwrap();
    let updated = uc
        .update_user(
            created.id,
            Some("david".to_string()),
            Some("new-pw".to_string()),
            9,
        )
        .unwrap();
    assert_eq!(updated.username, "david");
    assert!(uc
        .login_user("dave@example.com".to_string(), "new-pw".to_string())
        .is_ok());
    assert!(matches!(
        uc.login_user("dave@example.com".to_string(), "old-pw".to_string()),
        Err(DomainError::Unauthorized(_))
    ));
}

#[test]
fn update_unknown_id_is_not_found() {
    let mut uc = usecases();
    let r = uc.update_user(42, Some("x".to_string()), None, 1);
    assert!(matches!(r, Err(DomainError::NotFound(_))));
}

#[test]
fn list_is_ordered_by_creation_time_descending() {
    let mut uc = usecases();
    let u1 = uc
        .register_user(
            "first".to_string(),
            "first@example.com".to_string(),
            "pw-one".to_string(),
            100,
        )
        .unwrap();
    let u2 = uc
        .register_user(
            "second".to_string(),
            "second@example.com".to_string(),
            "pw-two".to_string(),
            200,
        )
        .unwrap();
    let u3 = uc
        .register_user(
            "third".to_string(),
            "third@example.com".to_string(),
            "pw-three".to_string(),
            300,
        )
        .unwrap();
    let listed = uc.list_users().unwrap();
    assert_eq!(listed.len(), 3);
    assert_eq!(listed[0].id, u3.id);
    assert_eq!(listed[1].id, u2.id);
    assert_eq!(listed[2].id, u1.id);
}

#[test]
fn delete_is_idempotent_and_never_not_found() {
    let mut uc = usecases();
    let created = uc
        .register_user(
            "erin".to_string(),
            "erin@example.com".to_string(),
            "pw-erin".to_string(),
            7,
        )
        .unwrap();
    assert!(uc.delete_user(created.id).is_ok());
    assert!(uc.delete_user(created.id).is_ok());
    assert!(uc.delete_user(987654321).is_ok());
    assert!(matches!(
        uc.get_user(created.id),
        Err(DomainError::NotFound(_))
    ));
}

#[test]
fn registered_user_never_stores_the_plaintext_password() {
    let mut uc = usecases();
    let created = uc
        .register_user(
            "frank".to_string(),
            "frank@example.com".to_string(),
            "plain-text".to_string(),
            3,
        )
        .unwrap();
    assert_ne!(created.password_hash, "plain-text");
    assert_eq!(created.password_hash.len(), 60);
    assert!(created.password_hash.starts_with("$2"));
}

#[test]
fn error_messages_are_readable() {
    let mut uc = usecases();
    let r = uc.register_user("".to_string(), "".to_string(), "".to_string(), 1);
    match r {
        Err(e) => assert_eq!(e.message().as_str(), "Fields cannot be empty"),
        Ok(_) => panic!("empty registration must be rejected"),
    }
}
