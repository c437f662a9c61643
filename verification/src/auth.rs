//! Passwords, session claims and the errors of the user service.

use vstd::prelude::*;
use vstd::string::StringExecFns;

verus! {

/// What `bcrypt::verify` says of `password` against `hash`: `None` when the
/// hash cannot be read.
pub uninterp spec fn bcrypt_verifies(password: Seq<char>, hash: Seq<char>) -> Option<bool>;

/// `bcrypt::hash(password, 10)` (a fresh salt each time). Claimed: the
/// password verifies against the hash made of it.
#[verifier::external_body]
fn bcrypt_hash(password: &str) -> (r: Option<String>)
    ensures
        r matches Some(h) ==> bcrypt_verifies(password@, h@) == Some(true),
{
    bcrypt::hash(password, 10).ok()
}

/// `bcrypt::verify`. Claimed: the result is the named one.
#[verifier::external_body]
fn bcrypt_verify(password: &str, hash: &str) -> (r: Option<bool>)
    ensures
        r == bcrypt_verifies(password@, hash@),
{
    bcrypt::verify(password, hash).ok()
}

#[derive(Debug, Clone, Copy, PartialEq, Eq, Structural)]
pub enum AuthError {
    TokenCreation,
    TokenValidation,
    PasswordHash,
    InvalidCredentials,
    UserNotFound,
}

pub open spec fn auth_error_text(e: AuthError) -> Seq<char> {
    match e {
        AuthError::TokenCreation => "トークンの作成に失敗しました"@,
        AuthError::TokenValidation => "トークンの検証に失敗しました"@,
        AuthError::PasswordHash => "パスワードのハッシュ化に失敗しました"@,
        AuthError::InvalidCredentials => "認証に失敗しました"@,
        AuthError::UserNotFound => "ユーザーが見つかりませんでした"@,
    }
}

impl AuthError {
    pub fn to_string(&self) -> (s: String)
        ensures
            s@ == auth_error_text(*self),
    {
        match self {
            AuthError::TokenCreation => "トークンの作成に失敗しました".to_owned(),
            AuthError::TokenValidation => "トークンの検証に失敗しました".to_owned(),
            AuthError::PasswordHash => "パスワードのハッシュ化に失敗しました".to_owned(),
            AuthError::InvalidCredentials => "認証に失敗しました".to_owned(),
            AuthError::UserNotFound => "ユーザーが見つかりませんでした".to_owned(),
        }
    }
}

/// A password's bcrypt hash (cost 10).
pub fn hash_password(password: &str) -> (r: Result<String, AuthError>)
    ensures
        r matches Ok(h) ==> bcrypt_verifies(password@, h@) == Some(true),
        r matches Err(e) ==> e == AuthError::PasswordHash,
{
    match bcrypt_hash(password) {
        Some(h) => Ok(h),
        None => Err(AuthError::PasswordHash),
    }
}

/// Whether `password` matches `hash`; an unreadable hash matches nothing.
pub fn verify_password(password: &str, hash: &str) -> (b: bool)
    ensures
        b == (bcrypt_verifies(password@, hash@) == Some(true)),
{
    match bcrypt_verify(password, hash) {
        Some(v) => v,
        None => false,
    }
}

/// A session token's claims: the user, and when it was issued and expires
/// (seconds since the epoch).
#[derive(Debug)]
pub struct Claims {
    pub sub: String,
    pub exp: u64,
    pub iat: u64,
}

/// How long a session token lasts: a day, in seconds.
pub const TOKEN_LIFETIME_SECS: u64 = 86400;

/// How far past its expiry a token is still accepted, in seconds (the
/// validation's default leeway).
pub const EXPIRY_LEEWAY_SECS: u64 = 60;

impl Claims {
    /// The claims of a token issued at `now` for a day.
    pub fn for_user(user_id: String, now: u64) -> (c: Self)
        requires
            now + TOKEN_LIFETIME_SECS <= u64::MAX,
        ensures
            c.sub == user_id,
            c.iat == now,
            c.exp == now + TOKEN_LIFETIME_SECS,
    {
        Claims { sub: user_id, exp: now + TOKEN_LIFETIME_SECS, iat: now }
    }
}

/// The HS256 JSON Web Token that `jsonwebtoken::encode` makes, with the
/// default header, of the claims `sub`, `exp` and `iat` under `secret`.
pub uninterp spec fn jwt_hs256(sub: Seq<char>, exp: u64, iat: u64, secret: Seq<u8>) -> Seq<char>;

/// What `jsonwebtoken::decode` reads from `token` under `secret` with the
/// default validation but its expiry check off: the claims `sub`, `exp` and
/// `iat`, or `None` when the token is malformed, its signature does not
/// match, a claim the validation asks for is missing, or one of the three
/// claims is missing or of another type.
pub uninterp spec fn jwt_claims(token: Seq<char>, secret: Seq<u8>) -> Option<(Seq<char>, u64, u64)>;

/// `jsonwebtoken::encode` with the default header (HS256) of the JSON
/// object `{"sub", "exp", "iat"}` under `EncodingKey::from_secret(secret)`.
/// Claimed: a token it makes is the named one. It may fail (its error is
/// dropped).
#[verifier::external_body]
fn jwt_encode(sub: &str, exp: u64, iat: u64, secret: &[u8]) -> (r: Option<String>)
    ensures
        r matches Some(t) ==> t@ == jwt_hs256(sub@, exp, iat, secret@),
{
    let mut claims = serde_json::Map::new();
    claims.insert("sub".to_owned(), serde_json::Value::String(sub.to_owned()));
    claims.insert("exp".to_owned(), serde_json::Value::from(exp));
    claims.insert("iat".to_owned(), serde_json::Value::from(iat));
    let key = jsonwebtoken::EncodingKey::from_secret(secret);
    jsonwebtoken::encode(&jsonwebtoken::Header::default(), &serde_json::Value::Object(claims), &key).ok()
}

/// `jsonwebtoken::decode::<serde_json::Value>` under
/// `DecodingKey::from_secret(secret)` with `Validation::default()` but
/// `validate_exp = false`, so that the result depends on the token and the
/// secret alone; then the claims `sub` (a string), `exp` and `iat` (numbers
/// that fit a `u64`). Claimed: the result is the named one.
#[verifier::external_body]
fn jwt_decode(token: &str, secret: &[u8]) -> (r: Option<(String, u64, u64)>)
    ensures
        match r {
            Some((sub, exp, iat)) => jwt_claims(token@, secret@) == Some((sub@, exp, iat)),
            None => jwt_claims(token@, secret@) is None,
        },
{
    let mut validation = jsonwebtoken::Validation::default();
    validation.validate_exp = false;
    let key = jsonwebtoken::DecodingKey::from_secret(secret);
    let data = jsonwebtoken::decode::<serde_json::Value>(token, &key, &validation).ok()?;
    let c = data.claims;
    Some((c.get("sub")?.as_str()?.to_owned(), c.get("exp")?.as_u64()?, c.get("iat")?.as_u64()?))
}

/// A day-long session token for `user_id`, issued at `now_secs`.
pub fn create_token(user_id: &str, secret: &[u8], now_secs: u64) -> (r: Result<String, AuthError>)
    requires
        now_secs + TOKEN_LIFETIME_SECS <= u64::MAX,
    ensures
        r matches Ok(t) ==> t@ == jwt_hs256(user_id@, (now_secs + TOKEN_LIFETIME_SECS) as u64, now_secs, secret@),
        r matches Err(e) ==> e == AuthError::TokenCreation,
{
    let claims = Claims::for_user(user_id.to_owned(), now_secs);
    match jwt_encode(claims.sub.as_str(), claims.exp, claims.iat, secret) {
        Some(t) => Ok(t),
        None => Err(AuthError::TokenCreation),
    }
}

/// The claims of a token signed with `secret` that has not expired at
/// `now_secs` (a minute's leeway past its expiry).
pub fn verify_token(token: &str, secret: &[u8], now_secs: u64) -> (r: Result<Claims, AuthError>)
    ensures
        r is Ok <==> (jwt_claims(token@, secret@) matches Some(c) && now_secs <= c.1 + EXPIRY_LEEWAY_SECS),
        r matches Ok(c) ==> jwt_claims(token@, secret@) == Some((c.sub@, c.exp, c.iat)),
        r matches Err(e) ==> e == AuthError::TokenValidation,
{
    match jwt_decode(token, secret) {
        Some((sub, exp, iat)) => {
            if exp < now_secs && now_secs - exp > EXPIRY_LEEWAY_SECS {
                Err(AuthError::TokenValidation)
            } else {
                Ok(Claims { sub, exp, iat })
            }
        },
        None => Err(AuthError::TokenValidation),
    }
}

#[derive(Debug)]
pub enum UserServiceError {
    RequestFailed(String),
    AuthError(AuthError),
    UserAlreadyExists,
    UserNotFound,
    InvalidPassword,
}

pub open spec fn user_error_text(e: UserServiceError) -> Seq<char> {
    match e {
        UserServiceError::RequestFailed(m) => "Supabaseへのリクエストに失敗しました: "@ + m@,
        UserServiceError::AuthError(a) => "認証エラー: "@ + auth_error_text(a),
        UserServiceError::UserAlreadyExists => "ユーザーが既に存在します"@,
        UserServiceError::UserNotFound => "ユーザーが見つかりませんでした"@,
        UserServiceError::InvalidPassword => "不正なパスワードです"@,
    }
}

impl UserServiceError {
    pub fn to_string(&self) -> (s: String)
        ensures
            s@ == user_error_text(*self),
    {
        match self {
            UserServiceError::RequestFailed(m) => "Supabaseへのリクエストに失敗しました: ".to_owned().concat(m.as_str()),
            UserServiceError::AuthError(a) => "認証エラー: ".to_owned().concat(a.to_string().as_str()),
            UserServiceError::UserAlreadyExists => "ユーザーが既に存在します".to_owned(),
            UserServiceError::UserNotFound => "ユーザーが見つかりませんでした".to_owned(),
            UserServiceError::InvalidPassword => "不正なパスワードです".to_owned(),
        }
    }
}

} // verus!
