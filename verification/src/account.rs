//! Signing up and logging in, as far as they are decisions on values: the
//! user store itself is asked by the caller.

use vstd::prelude::*;
use vstd::string::StringExecFns;
use vstd::utf8::encode_utf8;
use mongodb::bson::uuid::Uuid;
use crate::base64url::encode;
use crate::claims::{claims_json, ClaimsView};
use crate::error::Error;
use crate::mac::hmac_sha256;
use crate::password::{bcrypt_verdict, hash_password, verify_password};
use crate::role::Role;
use crate::token::{create_jwt, issue_spec, issued_claims, signing_input, token_text, verify_spec};
use crate::token::{lemma_altered_claims_refused, lemma_issued_token_verifies, lemma_sealed_dots};
use crate::token::{DOT, TOKEN_TTL};

verus! {

/// A user as the store holds them.
#[derive(Clone)]
pub struct User {
    pub uid: String,
    pub email: String,
    /// The bcrypt hash of the password.
    pub pw: String,
    /// The name of the user's role.
    pub role: String,
}

/// The body of a login request.
pub struct LoginRequest {
    pub email: String,
    pub pw: String,
}

/// The body of the answer to a login that succeeded.
pub struct LoginResponse {
    pub token: String,
}

/// The body of a signup request.
pub struct SignupRequest {
    pub email: String,
    pub pw: String,
    pub role: String,
}

/// A stored user as a mathematical value.
pub ghost struct UserView {
    pub uid: Seq<char>,
    pub email: Seq<char>,
    pub pw: Seq<char>,
    pub role: Seq<char>,
}

impl View for User {
    type V = UserView;

    open spec fn view(&self) -> UserView {
        UserView { uid: self.uid@, email: self.email@, pw: self.pw@, role: self.role@ }
    }
}

/// The record that a signup stores: the request's e-mail address and role,
/// the password's hash and a new identifier. No record where the password
/// could not be hashed.
pub open spec fn record_spec(
    email: Seq<char>,
    role: Seq<char>,
    hashed: Option<Seq<char>>,
    uid: Seq<char>,
) -> Result<UserView, Error> {
    match hashed {
        Some(pw) => Ok(UserView { uid, email, pw, role }),
        None => Err(Error::PasswordHashingError),
    }
}

/// What a login gives for a user whose password was held against the stored
/// hash with the given outcome: a token for the user's identifier and role
/// where the password matched. A stored role that is no role gives no token.
pub open spec fn grant_spec(user: UserView, verdict: Option<bool>, secret: Seq<u8>, now: u64)
    -> Result<Seq<u8>, Error> {
    match verdict {
        None => Err(Error::PasswordVerificationError),
        Some(false) => Err(Error::WrongCredentialsError),
        Some(true) => match Role::of_name(encode_utf8(user.role)) {
            None => Err(Error::DatabaseError),
            Some(role) => issue_spec(user.uid, role, secret, now),
        },
    }
}

/// What a login gives for what the store holds under the request's e-mail
/// address.
pub open spec fn login_spec(user: Option<UserView>, password: Seq<char>, secret: Seq<u8>, now: u64)
    -> Result<Seq<u8>, Error> {
    match user {
        None => Err(Error::WrongCredentialsError),
        Some(u) => grant_spec(u, bcrypt_verdict(password, u.pw), secret, now),
    }
}

/// The view of a user, where there is one.
pub open spec fn user_view(user: Option<User>) -> Option<UserView> {
    match user {
        Some(u) => Some(u@),
        None => None,
    }
}

/// Whether a login's answer is the outcome `expected`: it carries those
/// bytes as its token, or is that failure.
pub open spec fn same_login(r: Result<LoginResponse, Error>, expected: Result<Seq<u8>, Error>)
    -> bool {
    match r {
        Ok(response) => expected == Ok::<Seq<u8>, Error>(encode_utf8(response.token@)),
        Err(e) => expected == Err::<Seq<u8>, Error>(e),
    }
}

/// When a login succeeds, and what its token is worth. A login for a stored
/// user succeeds exactly where the password belongs to the stored hash, the
/// stored role is a role, and the expiry can be counted; each other case has
/// its own failure. The token is then the one issued for the user's
/// identifier and role at that second: it verifies with the same secret as
/// that identifier and role at every second before its expiry, and is
/// refused as expired from then on.
pub proof fn lemma_login_token_verifies(
    user: UserView,
    password: Seq<char>,
    secret: Seq<u8>,
    issued_at: u64,
    now: u64,
)
    ensures
        match login_spec(Some(user), password, secret, issued_at) {
            Ok(token) => match Role::of_name(encode_utf8(user.role)) {
                Some(role) => {
                    &&& bcrypt_verdict(password, user.pw) == Some(true)
                    &&& issued_at + TOKEN_TTL <= u64::MAX
                    &&& issue_spec(user.uid, role, secret, issued_at) == Ok::<Seq<u8>, Error>(
                        token,
                    )
                    &&& verify_spec(token, secret, now) == if now < issued_at + TOKEN_TTL {
                        Ok::<ClaimsView, Error>(issued_claims(user.uid, role, issued_at))
                    } else {
                        Err::<ClaimsView, Error>(Error::TokenExpiredError)
                    }
                },
                None => false,
            },
            Err(e) => e == if bcrypt_verdict(password, user.pw) is None {
                Error::PasswordVerificationError
            } else if bcrypt_verdict(password, user.pw) == Some(false) {
                Error::WrongCredentialsError
            } else if Role::of_name(encode_utf8(user.role)) is None {
                Error::DatabaseError
            } else {
                Error::TokenSigningError
            } && (e == Error::TokenSigningError ==> issued_at + TOKEN_TTL > u64::MAX),
        },
{
    if login_spec(Some(user), password, secret, issued_at) is Ok {
        let role = Role::of_name(encode_utf8(user.role)).unwrap();
        lemma_issued_token_verifies(user.uid, role, secret, issued_at, now);
    }
}

/// The token of a login with one byte of its claims segment, the bytes
/// between its first and its last dot, replaced by another is refused for
/// its signature at any second, unless the content so altered happens to
/// have the tag of the content that was signed.
pub proof fn lemma_login_token_altered(
    user: UserView,
    password: Seq<char>,
    secret: Seq<u8>,
    issued_at: u64,
    at: int,
    byte: u8,
    now: u64,
)
    ensures
        match login_spec(Some(user), password, secret, issued_at) {
            Ok(token) => {
                let first = token.index_of_first(DOT).unwrap();
                let last = token.index_of_last(DOT).unwrap();
                let signed = token.subrange(0, last);
                first < at < last && byte != token[at] && hmac_sha256(
                    secret,
                    signed.update(at, byte),
                ) != hmac_sha256(secret, signed) ==> verify_spec(
                    token.update(at, byte),
                    secret,
                    now,
                ) == Err::<ClaimsView, Error>(Error::InvalidSignatureError)
            },
            Err(_) => true,
        },
{
    if login_spec(Some(user), password, secret, issued_at) is Ok {
        let role = Role::of_name(encode_utf8(user.role)).unwrap();
        let c = issued_claims(user.uid, role, issued_at);
        let token = token_text(c, secret);
        lemma_sealed_dots(encode(claims_json(c)), hmac_sha256(secret, signing_input(c)));
        let first = token.index_of_first(DOT).unwrap();
        let last = token.index_of_last(DOT).unwrap();
        if first < at < last && byte != token[at] {
            assert(token.subrange(0, last)[at] == token[at]);
            lemma_altered_claims_refused(c, secret, at, byte, now);
        }
    }
}

/// The number of characters of a user's identifier.
pub const UID_LEN: usize = 36;

/// A new random identifier for a user.
///
/// Calls `Uuid::new` of `mongodb::bson` and writes the identifier out as
/// text. The identifier is drawn at random, so it is not named. Trusted:
/// its text is the hyphenated form, which has 36 characters.
#[verifier::external_body]
pub(crate) fn new_uid() -> (uid: String)
    ensures
        uid@.len() == UID_LEN,
{
    Uuid::new().to_string()
}

/// Builds the record of a new user from the request, the outcome of hashing
/// the password, and the user's identifier.
pub fn user_record(body: SignupRequest, hashed: Option<String>, uid: String) -> (r: Result<
    User,
    Error,
>)
    ensures
        match r {
            Ok(user) => hashed is Some && record_spec(
                body.email@,
                body.role@,
                Some(hashed.unwrap()@),
                uid@,
            ) == Ok::<UserView, Error>(user@),
            Err(e) => hashed is None && e == Error::PasswordHashingError,
        },
{
    match hashed {
        Some(pw) => Ok(User { uid, email: body.email, pw, role: body.role }),
        None => Err(Error::PasswordHashingError),
    }
}

/// Decides a signup. `existing` is what the store holds under the request's
/// e-mail address. Where it holds a user, the signup is refused; else the
/// password is hashed and the record to store is returned: it has the
/// request's e-mail address and role, a hash that belongs to the request's
/// password, and an identifier of [`UID_LEN`] characters. Hashing draws on
/// the machine's random source and may fail.
pub fn signup_handler(existing: Option<User>, body: SignupRequest) -> (r: Result<User, Error>)
    ensures
        match r {
            Ok(user) => {
                &&& existing is None
                &&& user@.email == body.email@
                &&& user@.role == body.role@
                &&& bcrypt_verdict(body.pw@, user@.pw) == Some(true)
                &&& user@.uid.len() == UID_LEN
            },
            Err(e) => e == if existing is Some {
                Error::UserAlreadyExistsError
            } else {
                Error::PasswordHashingError
            },
        },
{
    if existing.is_some() {
        return Err(Error::UserAlreadyExistsError);
    }
    let hashed = hash_password(body.pw.as_str());
    let uid = new_uid();
    user_record(body, hashed, uid)
}

/// Answers a login whose password was held against the stored hash with the
/// given outcome.
pub fn grant(user: &User, verdict: Option<bool>, secret: &[u8], now: u64) -> (r: Result<
    LoginResponse,
    Error,
>)
    ensures
        same_login(r, grant_spec(user@, verdict, secret@, now)),
{
    match verdict {
        None => Err(Error::PasswordVerificationError),
        Some(false) => Err(Error::WrongCredentialsError),
        Some(true) => {
            let role = match Role::from_str(user.role.as_str()) {
                Some(role) => role,
                None => {
                    return Err(Error::DatabaseError);
                },
            };
            match create_jwt(user.uid.as_str(), &role, secret, now) {
                Ok(token) => Ok(LoginResponse { token }),
                Err(e) => Err(e),
            }
        },
    }
}

/// Decides a login at the second `now`. `user` is what the store holds
/// under the request's e-mail address. An unknown address and a wrong
/// password are answered alike.
pub fn login_handler(user: Option<User>, body: LoginRequest, secret: &[u8], now: u64) -> (r:
    Result<LoginResponse, Error>)
    ensures
        same_login(r, login_spec(user_view(user), body.pw@, secret@, now)),
{
    match user {
        Some(found) => {
            let verdict = verify_password(body.pw.as_str(), found.pw.as_str());
            grant(&found, verdict, secret, now)
        },
        None => Err(Error::WrongCredentialsError),
    }
}

/// The greeting of the route for users.
pub fn user_handler(uid: String) -> (r: String)
    ensures
        r@ == "Hello User "@ + uid@,
{
    let mut greeting = "Hello User ".to_owned();
    greeting.append(uid.as_str());
    greeting
}

/// The greeting of the route for administrators.
pub fn admin_handler(uid: String) -> (r: String)
    ensures
        r@ == "Hello Admin "@ + uid@,
{
    let mut greeting = "Hello Admin ".to_owned();
    greeting.append(uid.as_str());
    greeting
}

/// The address of the user store for the given account.
pub fn mongo_uri(username: &str, password: &str) -> (r: String)
    ensures
        r@ == "mongodb://"@ + username@ + ":"@ + password@ + "@localhost:27017"@,
{
    let mut uri = "mongodb://".to_owned();
    uri.append(username);
    uri.append(":");
    uri.append(password);
    uri.append("@localhost:27017");
    uri
}

} // verus!
