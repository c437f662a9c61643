use zk_werewolf::auth::{create_token, verify_token};
use zk_werewolf::auth::{verify_password, AuthError, UserServiceError};
use zk_werewolf::users::{first_user, login_step, register_step, User};

fn registered() -> User {
    register_step(false, "alice".to_string(), "a@example.com".to_string(), "pw", "id-1".to_string(), 1000).unwrap()
}

#[test]
fn registering_a_taken_email_is_refused() {
    let r = register_step(true, "alice".to_string(), "a@example.com".to_string(), "pw", "id-1".to_string(), 1000);
    assert!(matches!(r, Err(UserServiceError::UserAlreadyExists)));
}

#[test]
fn a_registered_user_keeps_its_details_and_a_hash_of_its_password() {
    let u = registered();
    assert_eq!(u.id, "id-1");
    assert_eq!(u.username, "alice");
    assert_eq!(u.email, "a@example.com");
    assert_eq!(u.created_at, 1000);
    assert_eq!(u.updated_at, 1000);
    assert_eq!(u.last_login, None);
    assert_ne!(u.password_hash, "pw");
    assert!(verify_password("pw", &u.password_hash));
}

#[test]
fn login_with_the_right_password_sets_the_login_time() {
    let u = login_step(Some(registered()), "pw", 5000).unwrap();
    assert_eq!(u.id, "id-1");
    assert_eq!(u.last_login, Some(5000));
    assert_eq!(u.updated_at, 5000);
    assert_eq!(u.created_at, 1000);
}

#[test]
fn login_errors() {
    assert!(matches!(login_step(None, "pw", 5000), Err(UserServiceError::UserNotFound)));
    assert!(matches!(login_step(Some(registered()), "wrong", 5000), Err(UserServiceError::InvalidPassword)));
    let mut broken = registered();
    broken.password_hash = "not a hash".to_string();
    assert!(matches!(login_step(Some(broken), "pw", 5000), Err(UserServiceError::InvalidPassword)));
    let _ = AuthError::PasswordHash;
}

#[test]
fn lookup_takes_the_first_user_found() {
    assert!(matches!(first_user(vec![]), Err(UserServiceError::UserNotFound)));
    let mut other = registered();
    other.id = "id-2".to_string();
    assert_eq!(first_user(vec![registered(), other]).unwrap().id, "id-1");
}

#[test]
fn a_token_carries_its_claims_and_expires_after_a_day() {
    let secret = b"test-secret";
    let now = 1_700_000_000u64;
    let token = create_token("user-1", secret, now).unwrap();
    assert_eq!(token.split('.').count(), 3);
    let c = verify_token(&token, secret, now + 10).unwrap();
    assert_eq!(c.sub, "user-1");
    assert_eq!(c.iat, now);
    assert_eq!(c.exp, now + 86_400);
    // a minute's leeway past the expiry, then refused
    assert!(verify_token(&token, secret, now + 86_400 + 60).is_ok());
    assert_eq!(verify_token(&token, secret, now + 86_400 + 61).unwrap_err(), AuthError::TokenValidation);
    assert_eq!(verify_token(&token, b"other", now).unwrap_err(), AuthError::TokenValidation);
    assert_eq!(verify_token("not.a.token", secret, now).unwrap_err(), AuthError::TokenValidation);
}
