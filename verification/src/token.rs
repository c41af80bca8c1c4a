//! Issuing and verifying tokens.
//!
//! A token is three base64url segments joined by dots: the header, the claim
//! set, and the HMAC-SHA256 tag of the first two segments with the dot
//! between them.

use vstd::prelude::*;
use vstd::slice::slice_subrange;
use vstd::utf8::encode_utf8;
use crate::base64url::{decode, decode_bytes, encode, encode_bytes};
use crate::base64url::{lemma_decode_encode, lemma_encode_symbols};
use crate::bytes::{bytes_eq, lemma_ascii_is_utf8, push_all, string_from_utf8};
use crate::claims::{claims_json, claims_of, read_claims, write_claims, Claims, ClaimsView};
use crate::claims::lemma_claims_of_json;
use crate::error::Error;
use crate::mac::{hmac_sha256, mac_matches, mac_tag};
use crate::role::Role;

verus! {

/// For how many seconds a token is good.
pub const TOKEN_TTL: u64 = 3600;

/// The byte `.`, which parts the segments of a token.
pub const DOT: u8 = 46;

/// The bytes `{"alg":"HS256","typ":"JWT"}`, the one header that is issued and
/// accepted.
pub open spec fn header_json() -> Seq<u8> {
    seq![
        123u8, 34, 97, 108, 103, 34, 58, 34, 72, 83, 50, 53, 54, 34, 44, 34, 116, 121, 112, 34,
        58, 34, 74, 87, 84, 34, 125,
    ]
}

/// What is signed: the header segment, a dot, the claims segment.
pub open spec fn signing_input(c: ClaimsView) -> Seq<u8> {
    encode(header_json()).push(DOT) + encode(claims_json(c))
}

/// What was signed, a dot, and the tag's segment.
pub open spec fn sealed(input: Seq<u8>, tag: Seq<u8>) -> Seq<u8> {
    input.push(DOT) + encode(tag)
}

/// The token that carries `c`, signed with `secret`.
pub open spec fn token_text(c: ClaimsView, secret: Seq<u8>) -> Seq<u8> {
    sealed(signing_input(c), hmac_sha256(secret, signing_input(c)))
}

/// The claim set issued for a subject and a role at a given second.
pub open spec fn issued_claims(sub: Seq<char>, role: Role, now: u64) -> ClaimsView {
    ClaimsView { sub, role, exp: (now + TOKEN_TTL) as u64 }
}

/// What issuing a token gives: the token's bytes, or a failure where the
/// expiry would lie beyond the last second that 64 bits can count.
pub open spec fn issue_spec(sub: Seq<char>, role: Role, secret: Seq<u8>, now: u64) -> Result<
    Seq<u8>,
    Error,
> {
    if now + TOKEN_TTL > u64::MAX {
        Err(Error::TokenSigningError)
    } else {
        Ok(token_text(issued_claims(sub, role, now), secret))
    }
}

/// What a claims segment is worth at the second `now`: it must decode to
/// the JSON form of a claim set whose expiry lies after `now`.
pub open spec fn judge_claims(segment: Seq<u8>, now: u64) -> Result<ClaimsView, Error> {
    match decode(segment) {
        None => Err(Error::MalformedTokenError),
        Some(body) => match claims_of(body) {
            None => Err(Error::MalformedTokenError),
            Some(c) => if c.exp > now {
                Ok(c)
            } else {
                Err(Error::TokenExpiredError)
            },
        },
    }
}

/// What verifying `token` with `secret` at the second `now` gives.
///
/// The header segment ends at the first dot and the tag's segment begins
/// behind the last one. The steps come in this order: the shape and the
/// header, the tag's encoding, the tag itself, the claim set, the expiry.
pub open spec fn verify_spec(token: Seq<u8>, secret: Seq<u8>, now: u64) -> Result<
    ClaimsView,
    Error,
> {
    match (token.index_of_first(DOT), token.index_of_last(DOT)) {
        (Some(first), Some(last)) => {
            if first >= last {
                Err(Error::MalformedTokenError)
            } else if decode(token.subrange(0, first)) != Some(header_json()) {
                Err(Error::MalformedTokenError)
            } else {
                match decode(token.subrange(last + 1, token.len() as int)) {
                    None => Err(Error::MalformedTokenError),
                    Some(tag) => {
                        if tag != hmac_sha256(secret, token.subrange(0, last)) {
                            Err(Error::InvalidSignatureError)
                        } else {
                            judge_claims(token.subrange(first + 1, last), now)
                        }
                    },
                }
            }
        },
        _ => Err(Error::MalformedTokenError),
    }
}

/// Whether `r` is the outcome `expected`, a claim set taken by its view.
pub open spec fn same_claims(r: Result<Claims, Error>, expected: Result<ClaimsView, Error>) -> bool {
    match r {
        Ok(c) => expected == Ok::<ClaimsView, Error>(c@),
        Err(e) => expected == Err::<ClaimsView, Error>(e),
    }
}

/// The index of the first byte `b` in `t`.
pub fn find_first(t: &[u8], b: u8) -> (r: Option<usize>)
    ensures
        match r {
            Some(i) => t@.index_of_first(b) == Some(i as int),
            None => t@.index_of_first(b) is None,
        },
{
    let n = t.len();
    let mut i: usize = 0;
    while i < n
        invariant
            i <= n,
            n == t@.len(),
            forall|k: int| 0 <= k < i ==> t@[k] != b,
        decreases n - i,
    {
        if t[i] == b {
            proof {
                assert(t@.contains(b));
                t@.index_of_first_ensures(b);
            }
            return Some(i);
        }
        i += 1;
    }
    proof {
        assert(!t@.contains(b));
        t@.index_of_first_ensures(b);
    }
    None
}

/// The index of the last byte `b` in `t`.
pub fn find_last(t: &[u8], b: u8) -> (r: Option<usize>)
    ensures
        match r {
            Some(i) => t@.index_of_last(b) == Some(i as int),
            None => t@.index_of_last(b) is None,
        },
{
    let n = t.len();
    let mut i: usize = n;
    while i > 0
        invariant
            i <= n,
            n == t@.len(),
            forall|k: int| i <= k < n ==> t@[k] != b,
        decreases i,
    {
        i -= 1;
        if t[i] == b {
            proof {
                assert(t@.contains(b));
                t@.index_of_last_ensures(b);
            }
            return Some(i);
        }
    }
    proof {
        assert(!t@.contains(b));
        t@.index_of_last_ensures(b);
    }
    None
}

/// Writes what is signed for a claim set.
pub fn write_signing_input(c: &Claims) -> (r: Vec<u8>)
    ensures
        r@ == signing_input(c@),
{
    let header: [u8; 27] = [
        123, 34, 97, 108, 103, 34, 58, 34, 72, 83, 50, 53, 54, 34, 44, 34, 116, 121, 112, 34, 58,
        34, 74, 87, 84, 34, 125,
    ];
    assert(header@ =~= header_json());
    let mut out = encode_bytes(header.as_slice());
    out.push(DOT);
    let body = write_claims(c);
    let segment = encode_bytes(body.as_slice());
    push_all(&mut out, segment.as_slice());
    out
}

/// Joins what was signed and its tag into the bytes of a token.
pub fn seal(input: &[u8], tag: &[u8]) -> (r: Vec<u8>)
    ensures
        r@ == sealed(input@, tag@),
{
    let mut out: Vec<u8> = Vec::new();
    push_all(&mut out, input);
    out.push(DOT);
    let segment = encode_bytes(tag);
    push_all(&mut out, segment.as_slice());
    assert(out@ =~= sealed(input@, tag@));
    out
}

/// Every byte of a token is an ASCII character.
pub proof fn lemma_token_is_ascii(c: ClaimsView, secret: Seq<u8>)
    ensures
        forall|i: int| 0 <= i < token_text(c, secret).len() ==> token_text(c, secret)[i] < 128,
{
    let head = encode(header_json());
    let body = encode(claims_json(c));
    let input = signing_input(c);
    let tag = encode(hmac_sha256(secret, input));
    let t = token_text(c, secret);
    lemma_encode_symbols(header_json());
    lemma_encode_symbols(claims_json(c));
    lemma_encode_symbols(hmac_sha256(secret, input));
    assert forall|i: int| 0 <= i < t.len() implies t[i] < 128 by {
        if i < head.len() {
            assert(t[i] == head[i]);
        } else if i == head.len() {
        } else if i < input.len() {
            assert(t[i] == body[i - head.len() - 1]);
        } else if i == input.len() {
        } else {
            assert(t[i] == tag[i - input.len() - 1]);
        }
    }
}

/// Where the dots and the segments of a token stand: behind a header
/// segment, a dot, any claims segment, a dot and the segment of any tag, the
/// first dot ends the header segment and the last one begins the tag's.
pub proof fn lemma_sealed_dots(body: Seq<u8>, tag: Seq<u8>)
    ensures
        ({
            let head = encode(header_json());
            let input = head.push(DOT) + body;
            let t = sealed(input, tag);
            &&& t.index_of_first(DOT) == Some(head.len() as int)
            &&& t.index_of_last(DOT) == Some(input.len() as int)
            &&& t.subrange(0, head.len() as int) == head
            &&& t.subrange(head.len() as int + 1, input.len() as int) == body
            &&& t.subrange(0, input.len() as int) == input
            &&& t.subrange(input.len() as int + 1, t.len() as int) == encode(tag)
        }),
{
    let head = encode(header_json());
    let input = head.push(DOT) + body;
    let seg = encode(tag);
    let t = sealed(input, tag);
    let first = head.len() as int;
    let last = input.len() as int;
    lemma_encode_symbols(header_json());
    lemma_encode_symbols(tag);
    assert(t[first] == DOT);
    assert(t[last] == DOT);
    assert(t.contains(DOT));
    assert forall|k: int| 0 <= k < first implies t[k] != DOT by {
        assert(t[k] == head[k]);
    }
    assert forall|k: int| last < k < t.len() implies t[k] != DOT by {
        assert(t[k] == seg[k - last - 1]);
    }
    t.index_of_first_ensures(DOT);
    t.index_of_last_ensures(DOT);
    assert(t.index_of_first(DOT) == Some(first));
    assert(t.index_of_last(DOT) == Some(last));
    assert(t.subrange(0, first) =~= head);
    assert(t.subrange(last + 1, t.len() as int) =~= seg);
    assert(t.subrange(0, last) =~= input);
    assert(t.subrange(first + 1, last) =~= body);
}

/// What verification makes of a header segment, a dot, any claims segment,
/// a dot and the segment of any tag: the tag is held against the first two
/// segments, and only then is the claims segment read.
pub proof fn lemma_verify_sealed(body: Seq<u8>, tag: Seq<u8>, secret: Seq<u8>, now: u64)
    ensures
        ({
            let input = encode(header_json()).push(DOT) + body;
            verify_spec(sealed(input, tag), secret, now) == if tag != hmac_sha256(secret, input) {
                Err::<ClaimsView, Error>(Error::InvalidSignatureError)
            } else {
                judge_claims(body, now)
            }
        }),
{
    lemma_sealed_dots(body, tag);
    lemma_decode_encode(header_json());
    lemma_decode_encode(tag);
}

/// A token that was issued is verified with the same secret as the claim set
/// that went into it, at every second before its expiry; from the second of
/// its expiry on it is refused as expired.
pub proof fn lemma_issued_token_verifies(
    sub: Seq<char>,
    role: Role,
    secret: Seq<u8>,
    issued_at: u64,
    now: u64,
)
    ensures
        issue_spec(sub, role, secret, issued_at) matches Ok(token) ==> verify_spec(
            token,
            secret,
            now,
        ) == if now < issued_at + TOKEN_TTL {
            Ok::<ClaimsView, Error>(issued_claims(sub, role, issued_at))
        } else {
            Err::<ClaimsView, Error>(Error::TokenExpiredError)
        },
{
    if issued_at + TOKEN_TTL <= u64::MAX {
        let c = issued_claims(sub, role, issued_at);
        let body = encode(claims_json(c));
        lemma_verify_sealed(body, hmac_sha256(secret, signing_input(c)), secret, now);
        lemma_decode_encode(claims_json(c));
        lemma_claims_of_json(c);
    }
}

/// Only what was issued verifies: a token that verifies as the claim set
/// `c` is, byte for byte, the token that carries `c` signed with the same
/// secret, and `c` has not expired.
pub proof fn lemma_verified_token_was_issued(token: Seq<u8>, secret: Seq<u8>, now: u64)
    ensures
        verify_spec(token, secret, now) matches Ok(c) ==> token == token_text(c, secret) && c.exp
            > now,
{
    if verify_spec(token, secret, now) is Ok {
        token.index_of_first_ensures(DOT);
        token.index_of_last_ensures(DOT);
        let c = verify_spec(token, secret, now).unwrap();
        let first = token.index_of_first(DOT).unwrap();
        let last = token.index_of_last(DOT).unwrap();
        let head = token.subrange(0, first);
        let body = token.subrange(first + 1, last);
        let input = token.subrange(0, last);
        let tag = decode(token.subrange(last + 1, token.len() as int)).unwrap();
        assert(encode(header_json()) == head);
        assert(encode(tag) == token.subrange(last + 1, token.len() as int));
        assert(encode(decode(body).unwrap()) == body);
        assert(claims_json(c) == decode(body).unwrap());
        assert(input =~= head.push(DOT) + body);
        assert(token =~= sealed(input, tag));
    }
}

/// Two tokens issued with one secret for one subject and role at different
/// seconds are different strings.
pub proof fn lemma_issue_times_differ(
    sub: Seq<char>,
    role: Role,
    secret: Seq<u8>,
    first_at: u64,
    second_at: u64,
)
    requires
        first_at != second_at,
    ensures
        issue_spec(sub, role, secret, first_at) is Ok && issue_spec(sub, role, secret, second_at)
            is Ok ==> issue_spec(sub, role, secret, first_at) != issue_spec(
            sub,
            role,
            secret,
            second_at,
        ),
{
    lemma_issued_token_verifies(sub, role, secret, first_at, 0);
    lemma_issued_token_verifies(sub, role, secret, second_at, 0);
}

/// A token in which one byte of the claims segment was replaced by another
/// is refused for its signature, at any second, unless the content so
/// altered happens to have the tag of the content that was signed.
pub proof fn lemma_altered_claims_refused(
    c: ClaimsView,
    secret: Seq<u8>,
    at: int,
    byte: u8,
    now: u64,
)
    requires
        encode(header_json()).len() < at < signing_input(c).len(),
        byte != signing_input(c)[at],
    ensures
        hmac_sha256(secret, signing_input(c).update(at, byte)) != hmac_sha256(
            secret,
            signing_input(c),
        ) ==> verify_spec(token_text(c, secret).update(at, byte), secret, now) == Err::<
            ClaimsView,
            Error,
        >(Error::InvalidSignatureError),
{
    let head = encode(header_json());
    let body = encode(claims_json(c));
    let tag = hmac_sha256(secret, signing_input(c));
    let altered = body.update(at - head.len() - 1, byte);
    assert(signing_input(c).update(at, byte) =~= head.push(DOT) + altered);
    assert(token_text(c, secret).update(at, byte) =~= sealed(head.push(DOT) + altered, tag));
    lemma_verify_sealed(altered, tag, secret, now);
}

/// Issues a token for the user `uid` with the given role, signed with
/// `secret`, at the second `now`. The token expires [`TOKEN_TTL`] seconds
/// later. Issuing fails only where that second cannot be counted.
pub fn create_jwt(uid: &str, role: &Role, secret: &[u8], now: u64) -> (r: Result<String, Error>)
    ensures
        match r {
            Ok(token) => issue_spec(uid@, *role, secret@, now) == Ok::<Seq<u8>, Error>(
                encode_utf8(token@),
            ),
            Err(e) => issue_spec(uid@, *role, secret@, now) == Err::<Seq<u8>, Error>(e),
        },
{
    if now > u64::MAX - TOKEN_TTL {
        return Err(Error::TokenSigningError);
    }
    let claims = Claims { sub: uid.to_owned(), role: *role, exp: now + TOKEN_TTL };
    let input = write_signing_input(&claims);
    let tag = match mac_tag(secret, input.as_slice()) {
        Some(tag) => tag,
        None => {
            return Err(Error::TokenSigningError);
        },
    };
    let bytes = seal(input.as_slice(), tag.as_slice());
    proof {
        lemma_token_is_ascii(claims@, secret@);
        lemma_ascii_is_utf8(bytes@);
    }
    match string_from_utf8(bytes) {
        Some(token) => Ok(token),
        None => Err(Error::TokenSigningError),
    }
}

/// Judges the claims segment of a token whose tag has been found good.
pub fn check_claims(segment: &[u8], now: u64) -> (r: Result<Claims, Error>)
    ensures
        same_claims(r, judge_claims(segment@, now)),
{
    let body = match decode_bytes(segment) {
        Some(body) => body,
        None => {
            return Err(Error::MalformedTokenError);
        },
    };
    match read_claims(body.as_slice()) {
        Some(claims) => {
            if claims.exp > now {
                Ok(claims)
            } else {
                Err(Error::TokenExpiredError)
            }
        },
        None => Err(Error::MalformedTokenError),
    }
}

/// Verifies the bytes of a token with `secret` at the second `now`.
pub fn verify_token(token: &[u8], secret: &[u8], now: u64) -> (r: Result<Claims, Error>)
    ensures
        same_claims(r, verify_spec(token@, secret@, now)),
{
    let header: [u8; 27] = [
        123, 34, 97, 108, 103, 34, 58, 34, 72, 83, 50, 53, 54, 34, 44, 34, 116, 121, 112, 34, 58,
        34, 74, 87, 84, 34, 125,
    ];
    assert(header@ =~= header_json());
    let (first, last) = match (find_first(token, DOT), find_last(token, DOT)) {
        (Some(first), Some(last)) => (first, last),
        _ => {
            return Err(Error::MalformedTokenError);
        },
    };
    proof {
        token@.index_of_first_ensures(DOT);
        token@.index_of_last_ensures(DOT);
    }
    if first >= last {
        return Err(Error::MalformedTokenError);
    }
    match decode_bytes(slice_subrange(token, 0, first)) {
        Some(found) => {
            if !bytes_eq(found.as_slice(), header.as_slice()) {
                return Err(Error::MalformedTokenError);
            }
        },
        None => {
            return Err(Error::MalformedTokenError);
        },
    }
    let n = token.len();
    let tag = match decode_bytes(slice_subrange(token, last + 1, n)) {
        Some(tag) => tag,
        None => {
            return Err(Error::MalformedTokenError);
        },
    };
    if !mac_matches(secret, slice_subrange(token, 0, last), tag.as_slice()) {
        return Err(Error::InvalidSignatureError);
    }
    check_claims(slice_subrange(token, first + 1, last), now)
}

/// Verifies a token with `secret` at the second `now`: its claim set where
/// the token is well formed, signed with `secret` and not yet expired.
pub fn verify_jwt(token: &str, secret: &[u8], now: u64) -> (r: Result<Claims, Error>)
    ensures
        same_claims(r, verify_spec(encode_utf8(token@), secret@, now)),
{
    verify_token(token.as_bytes(), secret, now)
}

} // verus!
