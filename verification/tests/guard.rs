use role_auth::claims::Claims;
use role_auth::error::Error;
use role_auth::guard::{authorize, check_role, jwt_from_header};
use role_auth::role::Role;
use role_auth::token::create_jwt;

const SECRET: &[u8] = b"secret";

fn bearer(token: &str) -> String {
    format!("Bearer {}", token)
}

#[test]
fn admin_route_refuses_a_user_and_passes_an_admin() {
    let user = bearer(&create_jwt("u1", &Role::User, SECRET, 1000).unwrap());
    let admin = bearer(&create_jwt("a1", &Role::Admin, SECRET, 1000).unwrap());
    assert_eq!(
        authorize(Role::Admin, Some(user.as_bytes()), SECRET, 1000),
        Err(Error::InsufficientRoleError)
    );
    assert_eq!(authorize(Role::Admin, Some(admin.as_bytes()), SECRET, 1000), Ok("a1".to_string()));
}

#[test]
fn user_route_asks_for_exactly_the_user_role() {
    let user = bearer(&create_jwt("u1", &Role::User, SECRET, 1000).unwrap());
    let admin = bearer(&create_jwt("a1", &Role::Admin, SECRET, 1000).unwrap());
    assert_eq!(authorize(Role::User, Some(user.as_bytes()), SECRET, 1000), Ok("u1".to_string()));
    assert_eq!(
        authorize(Role::User, Some(admin.as_bytes()), SECRET, 1000),
        Err(Error::InsufficientRoleError)
    );
}

#[test]
fn wrong_scheme_is_an_invalid_header_not_a_malformed_token() {
    assert_eq!(
        authorize(Role::User, Some(&b"Token abc"[..]), SECRET, 1000),
        Err(Error::InvalidAuthHeaderFormatError)
    );
    let token = create_jwt("u1", &Role::User, SECRET, 1000).unwrap();
    for value in [
        format!("Token {}", token),
        format!("bearer {}", token),
        format!("BEARER {}", token),
        format!("Bearer{}", token),
        format!("Bearer  {}", token),
        format!(" Bearer {}", token),
        format!("Bearer\t{}", token),
        token.clone(),
        "Bearer".to_string(),
        "".to_string(),
    ] {
        assert_eq!(
            authorize(Role::User, Some(value.as_bytes()), SECRET, 1000),
            Err(Error::InvalidAuthHeaderFormatError)
        );
    }
}

#[test]
fn missing_header_is_reported_as_such() {
    assert_eq!(authorize(Role::User, None, SECRET, 1000), Err(Error::MissingAuthHeaderError));
    assert_eq!(authorize(Role::Admin, None, SECRET, 1000), Err(Error::MissingAuthHeaderError));
    assert_eq!(jwt_from_header(None), Err(Error::MissingAuthHeaderError));
}

#[test]
fn end_to_end_issue_then_guard() {
    let token = create_jwt("u1", &Role::User, SECRET, 1000).unwrap();
    let value = bearer(&token);
    assert_eq!(authorize(Role::User, Some(value.as_bytes()), SECRET, 1000), Ok("u1".to_string()));
    let refused = authorize(Role::Admin, Some(value.as_bytes()), SECRET, 1000).unwrap_err();
    assert_eq!(refused, Error::InsufficientRoleError);
    assert_eq!(refused.status_code(), 403);
    let not_text = authorize(Role::User, Some(&b"Bearer \xff\xfe"[..]), SECRET, 1000);
    assert_eq!(not_text, Err(Error::MalformedTokenError));
    let garbage = authorize(Role::User, Some(&b"Bearer xyz"[..]), SECRET, 1000).unwrap_err();
    assert_eq!(garbage, Error::MalformedTokenError);
    assert_eq!(garbage.status_code(), 401);
    let empty = authorize(Role::User, Some(&b"Bearer "[..]), SECRET, 1000).unwrap_err();
    assert_eq!(empty, Error::MalformedTokenError);
    assert_eq!(empty.status_code(), 401);
}

#[test]
fn failures_of_verification_pass_through_the_guard_unchanged() {
    let token = create_jwt("u1", &Role::User, SECRET, 1000).unwrap();
    let value = bearer(&token);
    assert_eq!(
        authorize(Role::User, Some(value.as_bytes()), SECRET, 4600),
        Err(Error::TokenExpiredError)
    );
    assert_eq!(
        authorize(Role::Admin, Some(value.as_bytes()), SECRET, 4600),
        Err(Error::TokenExpiredError)
    );
    assert_eq!(
        authorize(Role::User, Some(value.as_bytes()), b"other", 1000),
        Err(Error::InvalidSignatureError)
    );
    let mut altered = value.clone().into_bytes();
    altered[60] ^= 1;
    assert_eq!(
        authorize(Role::User, Some(&altered[..]), SECRET, 1000),
        Err(Error::InvalidSignatureError)
    );
}

#[test]
fn the_token_is_what_follows_the_scheme() {
    assert_eq!(jwt_from_header(Some(&b"Bearer abc.def.ghi"[..])), Ok(&b"abc.def.ghi"[..]));
    assert_eq!(jwt_from_header(Some(&b"Bearer "[..])), Ok(&b""[..]));
    assert_eq!(jwt_from_header(Some(&b"Bearer a b"[..])), Ok(&b"a b"[..]));
    assert_eq!(jwt_from_header(Some(&b"Bearer \xff"[..])), Ok(&b"\xff"[..]));
    assert_eq!(
        jwt_from_header(Some(&b"Bearer  abc"[..])),
        Err(Error::InvalidAuthHeaderFormatError)
    );
    assert_eq!(jwt_from_header(Some(&b"Basic abc"[..])), Err(Error::InvalidAuthHeaderFormatError));
    assert_eq!(jwt_from_header(Some(&b"\xff\xfe"[..])), Err(Error::InvalidAuthHeaderFormatError));
}

#[test]
fn roles_are_compared_exactly() {
    let claims = |role| Claims { sub: "u1".to_string(), role, exp: 1 };
    assert_eq!(check_role(Role::User, claims(Role::User)), Ok("u1".to_string()));
    assert_eq!(check_role(Role::Admin, claims(Role::Admin)), Ok("u1".to_string()));
    assert_eq!(check_role(Role::Admin, claims(Role::User)), Err(Error::InsufficientRoleError));
    assert_eq!(check_role(Role::User, claims(Role::Admin)), Err(Error::InsufficientRoleError));
}

#[test]
fn other_claims_under_an_issued_signature_do_not_pass() {
    let user = create_jwt("u1", &Role::User, SECRET, 1000).unwrap();
    let admin = create_jwt("u1", &Role::Admin, SECRET, 1000).unwrap();
    let user_parts: Vec<&str> = user.split('.').collect();
    let admin_parts: Vec<&str> = admin.split('.').collect();
    let forged = format!("Bearer {}.{}.{}", user_parts[0], admin_parts[1], user_parts[2]);
    for required in [Role::User, Role::Admin] {
        assert_eq!(
            authorize(required, Some(forged.as_bytes()), SECRET, 1000),
            Err(Error::InvalidSignatureError)
        );
    }
}
