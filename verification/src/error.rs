//! The failures of the service and how each is answered.

use vstd::prelude::*;
use vstd::string::*;

verus! {

/// Every way in which a request can fail. The kinds are distinct: no failure
/// is folded into another on its way to the response.
#[derive(Clone, Copy, Debug, PartialEq, Eq, Structural)]
pub enum Error {
    /// The request carries no `Authorization` header.
    MissingAuthHeaderError,
    /// The `Authorization` header is not `Bearer <token>`.
    InvalidAuthHeaderFormatError,
    /// The token cannot be taken apart or decoded.
    MalformedTokenError,
    /// The token's signature does not belong to its content.
    InvalidSignatureError,
    /// The token's expiry has passed.
    TokenExpiredError,
    /// The token's role is not the role the route requires.
    InsufficientRoleError,
    /// No token could be made.
    TokenSigningError,
    /// No such user, or the password does not match.
    WrongCredentialsError,
    /// A user with that e-mail address exists already.
    UserAlreadyExistsError,
    /// The user store failed or holds a record that cannot be used.
    DatabaseError,
    /// The password could not be hashed.
    PasswordHashingError,
    /// The password could not be held against the stored hash.
    PasswordVerificationError,
}

impl Error {
    /// The HTTP status that answers this failure.
    pub open spec fn status(self) -> u16 {
        match self {
            Error::MissingAuthHeaderError => 401,
            Error::InvalidAuthHeaderFormatError => 401,
            Error::MalformedTokenError => 401,
            Error::InvalidSignatureError => 401,
            Error::TokenExpiredError => 401,
            Error::InsufficientRoleError => 403,
            Error::TokenSigningError => 500,
            Error::WrongCredentialsError => 401,
            Error::UserAlreadyExistsError => 400,
            Error::DatabaseError => 500,
            Error::PasswordHashingError => 500,
            Error::PasswordVerificationError => 500,
        }
    }

    /// The short message sent with the status. It names the kind of failure
    /// and nothing of its cause.
    pub open spec fn text(self) -> Seq<char> {
        match self {
            Error::MissingAuthHeaderError => "no auth header"@,
            Error::InvalidAuthHeaderFormatError => "invalid auth header"@,
            Error::MalformedTokenError => "malformed token"@,
            Error::InvalidSignatureError => "invalid token signature"@,
            Error::TokenExpiredError => "token expired"@,
            Error::InsufficientRoleError => "no permission"@,
            Error::TokenSigningError => "token creation error"@,
            Error::WrongCredentialsError => "wrong credentials"@,
            Error::UserAlreadyExistsError => "user already exists"@,
            Error::DatabaseError => "database error"@,
            Error::PasswordHashingError => "password hashing error"@,
            Error::PasswordVerificationError => "password verification error"@,
        }
    }

    /// The HTTP status that answers this failure.
    pub fn status_code(&self) -> (code: u16)
        ensures
            code == self.status(),
    {
        match self {
            Error::InsufficientRoleError => 403,
            Error::UserAlreadyExistsError => 400,
            Error::TokenSigningError
            | Error::DatabaseError
            | Error::PasswordHashingError
            | Error::PasswordVerificationError => 500,
            Error::MissingAuthHeaderError
            | Error::InvalidAuthHeaderFormatError
            | Error::MalformedTokenError
            | Error::InvalidSignatureError
            | Error::TokenExpiredError
            | Error::WrongCredentialsError => 401,
        }
    }

    /// The message sent with the status.
    pub fn message(&self) -> (m: &'static str)
        ensures
            m@ == self.text(),
    {
        match self {
            Error::MissingAuthHeaderError => "no auth header",
            Error::InvalidAuthHeaderFormatError => "invalid auth header",
            Error::MalformedTokenError => "malformed token",
            Error::InvalidSignatureError => "invalid token signature",
            Error::TokenExpiredError => "token expired",
            Error::InsufficientRoleError => "no permission",
            Error::TokenSigningError => "token creation error",
            Error::WrongCredentialsError => "wrong credentials",
            Error::UserAlreadyExistsError => "user already exists",
            Error::DatabaseError => "database error",
            Error::PasswordHashingError => "password hashing error",
            Error::PasswordVerificationError => "password verification error",
        }
    }

    /// The message as an owned string.
    pub fn to_string(&self) -> (m: String)
        ensures
            m@ == self.text(),
    {
        self.message().to_owned()
    }

    /// Status and message of the response that answers this failure.
    pub fn to_response(&self) -> (r: (u16, String))
        ensures
            r.0 == self.status(),
            r.1@ == self.text(),
    {
        (self.status_code(), self.to_string())
    }
}

} // verus!
