//! The guard in front of a protected route.
//!
//! It reads the token from the `Authorization` header, verifies it, and lets
//! the request pass where the token's role is the role that the route
//! requires. What passes on is the user's identifier.

use vstd::prelude::*;
use vstd::slice::slice_subrange;
use crate::base64url::{encode, lemma_encode_symbols};
use crate::bytes::{has_at, matches_at};
use crate::claims::{Claims, ClaimsView};
use crate::error::Error;
use crate::role::Role;
use crate::token::{header_json, issue_spec, issued_claims, token_text, verify_spec, verify_token};
use crate::mac::hmac_sha256;
use crate::token::{lemma_issued_token_verifies, lemma_verified_token_was_issued};
use crate::token::{lemma_verify_sealed, sealed, signing_input, DOT, TOKEN_TTL};

verus! {

/// The byte of a space.
pub const SPACE: u8 = 32;

/// The bytes `Bearer `: the scheme and the one space behind it.
pub open spec fn bearer() -> Seq<u8> {
    seq![66u8, 101, 97, 114, 101, 114, SPACE]
}

/// The bytes of a header's value, where the request has the header.
pub open spec fn header_bytes(header: Option<&[u8]>) -> Option<Seq<u8>> {
    match header {
        Some(value) => Some(value@),
        None => None,
    }
}

/// The token that the value of an `Authorization` header holds. The value
/// must begin with `Bearer` and exactly one space; the token is the rest.
pub open spec fn token_of_header(header: Option<Seq<u8>>) -> Result<Seq<u8>, Error> {
    match header {
        None => Err(Error::MissingAuthHeaderError),
        Some(value) => {
            if has_at(value, 0, bearer()) && !(value.len() > 7 && value[7] == SPACE) {
                Ok(value.skip(7))
            } else {
                Err(Error::InvalidAuthHeaderFormatError)
            }
        },
    }
}

/// What the guard makes of a verified token: a failure of verification
/// stays what it is; a claim set passes with its subject where its role is
/// the required one.
pub open spec fn decide(required: Role, verified: Result<ClaimsView, Error>) -> Result<
    Seq<char>,
    Error,
> {
    match verified {
        Err(e) => Err(e),
        Ok(c) => if c.role == required {
            Ok(c.sub)
        } else {
            Err(Error::InsufficientRoleError)
        },
    }
}

/// What the guard decides for a request.
pub open spec fn authorize_spec(
    required: Role,
    header: Option<Seq<u8>>,
    secret: Seq<u8>,
    now: u64,
) -> Result<Seq<char>, Error> {
    match token_of_header(header) {
        Err(e) => Err(e),
        Ok(token) => decide(required, verify_spec(token, secret, now)),
    }
}

/// A request that carries an issued token behind `Bearer ` passes the guard
/// before the token expires exactly where the token's role is the required
/// one, and then as the subject for whom the token was issued; with another
/// role it is refused for that.
pub proof fn lemma_guard_by_role(
    sub: Seq<char>,
    role: Role,
    required: Role,
    secret: Seq<u8>,
    issued_at: u64,
    now: u64,
)
    requires
        now < issued_at + TOKEN_TTL,
    ensures
        issue_spec(sub, role, secret, issued_at) matches Ok(token) ==> authorize_spec(
            required,
            Some(bearer() + token),
            secret,
            now,
        ) == if role == required {
            Ok::<Seq<char>, Error>(sub)
        } else {
            Err::<Seq<char>, Error>(Error::InsufficientRoleError)
        },
{
    if issued_at + TOKEN_TTL <= u64::MAX {
        let c = issued_claims(sub, role, issued_at);
        let token = token_text(c, secret);
        let value = bearer() + token;
        lemma_issued_token_verifies(sub, role, secret, issued_at, now);
        lemma_encode_symbols(header_json());
        assert(encode(header_json()).len() > 0);
        assert(token[0] == encode(header_json())[0]);
        assert(value[7] == token[0]);
        assert(value.subrange(0, 7) =~= bearer());
        assert(value.skip(7) =~= token);
    }
}

/// The guard lets nothing pass but what was issued: where a request passes
/// as the subject `sub`, the value of its header is `Bearer `, one space and,
/// byte for byte, the token that carries `sub`, the required role and an
/// expiry that has not come, signed with the same secret.
pub proof fn lemma_guard_passes_only_issued(
    required: Role,
    header: Seq<u8>,
    secret: Seq<u8>,
    now: u64,
)
    ensures
        authorize_spec(required, Some(header), secret, now) matches Ok(sub) ==> (match verify_spec(
            header.skip(7),
            secret,
            now,
        ) {
            Ok(c) => {
                &&& header == bearer() + token_text(c, secret)
                &&& c.sub == sub
                &&& c.role == required
                &&& c.exp > now
            },
            Err(_) => false,
        }),
{
    if authorize_spec(required, Some(header), secret, now) is Ok {
        lemma_verified_token_was_issued(header.skip(7), secret, now);
        assert(header =~= header.subrange(0, 7) + header.skip(7));
    }
}

/// A request is refused for its token's signature, whatever role the route
/// requires and at any second, where its token has the header and the
/// signature of an issued token but another claims segment between them,
/// unless the content so altered happens to have the tag of the content
/// that was signed.
pub proof fn lemma_guard_refuses_altered_claims(
    c: ClaimsView,
    altered: Seq<u8>,
    required: Role,
    secret: Seq<u8>,
    now: u64,
)
    ensures
        ({
            let tag = hmac_sha256(secret, signing_input(c));
            let input = encode(header_json()).push(DOT) + altered;
            hmac_sha256(secret, input) != tag ==> authorize_spec(
                required,
                Some(bearer() + sealed(input, tag)),
                secret,
                now,
            ) == Err::<Seq<char>, Error>(Error::InvalidSignatureError)
        }),
{
    let head = encode(header_json());
    let tag = hmac_sha256(secret, signing_input(c));
    let input = head.push(DOT) + altered;
    let token = sealed(input, tag);
    let value = bearer() + token;
    lemma_verify_sealed(altered, tag, secret, now);
    lemma_encode_symbols(header_json());
    assert(head.len() > 0);
    assert(token[0] == head[0]);
    assert(value[7] == token[0]);
    assert(value.subrange(0, 7) =~= bearer());
    assert(value.skip(7) =~= token);
}

/// Takes the token out of the value of the `Authorization` header.
pub fn jwt_from_header<'a>(header: Option<&'a [u8]>) -> (r: Result<&'a [u8], Error>)
    ensures
        match r {
            Ok(token) => token_of_header(header_bytes(header)) == Ok::<Seq<u8>, Error>(token@),
            Err(e) => token_of_header(header_bytes(header)) == Err::<Seq<u8>, Error>(e),
        },
{
    let value = match header {
        Some(value) => value,
        None => {
            return Err(Error::MissingAuthHeaderError);
        },
    };
    let scheme: [u8; 7] = [66, 101, 97, 114, 101, 114, 32];
    assert(scheme@ =~= bearer());
    if !matches_at(value, 0, scheme.as_slice()) {
        return Err(Error::InvalidAuthHeaderFormatError);
    }
    let n = value.len();
    if n > 7 && value[7] == SPACE {
        return Err(Error::InvalidAuthHeaderFormatError);
    }
    let token = slice_subrange(value, 7, n);
    assert(token@ =~= value@.skip(7));
    Ok(token)
}

/// Holds the role of a verified claim set against the required one.
pub fn check_role(required: Role, claims: Claims) -> (r: Result<String, Error>)
    ensures
        match r {
            Ok(uid) => decide(required, Ok(claims@)) == Ok::<Seq<char>, Error>(uid@),
            Err(e) => decide(required, Ok(claims@)) == Err::<Seq<char>, Error>(e),
        },
{
    if claims.role == required {
        Ok(claims.sub)
    } else {
        Err(Error::InsufficientRoleError)
    }
}

/// Decides at the second `now` whether a request may pass a route that
/// requires `required`. `header` is the value of the request's
/// `Authorization` header, where it has one. The answer is the user's
/// identifier where the request may pass, and else the one failure that
/// stopped it.
pub fn authorize(required: Role, header: Option<&[u8]>, secret: &[u8], now: u64) -> (r: Result<
    String,
    Error,
>)
    ensures
        match r {
            Ok(uid) => authorize_spec(required, header_bytes(header), secret@, now) == Ok::<
                Seq<char>,
                Error,
            >(uid@),
            Err(e) => authorize_spec(required, header_bytes(header), secret@, now) == Err::<
                Seq<char>,
                Error,
            >(e),
        },
        header is None ==> r == Err::<String, Error>(Error::MissingAuthHeaderError),
        header matches Some(value) && !has_at(value@, 0, bearer()) ==> r == Err::<String, Error>(
            Error::InvalidAuthHeaderFormatError,
        ),
{
    let token = match jwt_from_header(header) {
        Ok(token) => token,
        Err(e) => {
            return Err(e);
        },
    };
    match verify_token(token, secret, now) {
        Ok(claims) => check_role(required, claims),
        Err(e) => Err(e),
    }
}

} // verus!
