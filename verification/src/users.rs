//! The decisions of user registration and login. Looking users up and
//! storing them is left to the caller, which hands over what it found.

use vstd::prelude::*;
use crate::auth::{AuthError, UserServiceError, bcrypt_verifies, hash_password, verify_password};

verus! {

/// A registered user; times are milliseconds since the epoch.
#[derive(Debug, Clone)]
pub struct User {
    pub id: String,
    pub username: String,
    pub email: String,
    pub password_hash: String,
    pub created_at: i64,
    pub updated_at: i64,
    pub last_login: Option<i64>,
}

/// Registers a user under `id` at `now`, unless a user with the e-mail
/// address exists already (`email_taken`): the new user keeps the name and
/// address given, and a bcrypt hash that the password verifies against.
pub fn register_step(
    email_taken: bool,
    username: String,
    email: String,
    password: &str,
    id: String,
    now: i64,
) -> (r: Result<User, UserServiceError>)
    ensures
        email_taken ==> r matches Err(UserServiceError::UserAlreadyExists),
        !email_taken ==> match r {
            Ok(u) => {
                &&& u.id == id
                &&& u.username == username
                &&& u.email == email
                &&& bcrypt_verifies(password@, u.password_hash@) == Some(true)
                &&& u.created_at == now
                &&& u.updated_at == now
                &&& u.last_login is None
            },
            Err(e) => e matches UserServiceError::AuthError(AuthError::PasswordHash),
        },
{
    if email_taken {
        return Err(UserServiceError::UserAlreadyExists);
    }
    let password_hash = match hash_password(password) {
        Ok(h) => h,
        Err(e) => return Err(UserServiceError::AuthError(e)),
    };
    Ok(User { id, username, email, password_hash, created_at: now, updated_at: now, last_login: None })
}

/// Logs in the user found under the e-mail address (`found`, if any) at
/// `now`: the password must verify against the stored hash; the user comes
/// back with its login and update times set to `now`.
pub fn login_step(found: Option<User>, password: &str, now: i64) -> (r: Result<User, UserServiceError>)
    ensures
        found is None ==> r matches Err(UserServiceError::UserNotFound),
        found matches Some(u) ==> (r is Ok <==> bcrypt_verifies(password@, u.password_hash@) == Some(true)),
        found is Some && r is Err ==> r matches Err(UserServiceError::InvalidPassword),
        r matches Ok(v) ==> v == (User { last_login: Some(now), updated_at: now, ..found->Some_0 }),
{
    let user = match found {
        Some(u) => u,
        None => return Err(UserServiceError::UserNotFound),
    };
    if !verify_password(password, user.password_hash.as_str()) {
        return Err(UserServiceError::InvalidPassword);
    }
    Ok(User { last_login: Some(now), updated_at: now, ..user })
}

/// The user `get_user_by_id` gives: the first of those found under the id.
pub fn first_user(found: Vec<User>) -> (r: Result<User, UserServiceError>)
    ensures
        found@.len() == 0 ==> r matches Err(UserServiceError::UserNotFound),
        found@.len() > 0 ==> r is Ok && r->Ok_0 == found@[0],
{
    let mut found = found;
    if found.len() == 0 {
        return Err(UserServiceError::UserNotFound);
    }
    Ok(found.swap_remove(0))
}

} // verus!
