//! The claim set that a token carries, and its JSON form.
//!
//! A claim set is written as one JSON object with the members `sub`, `role`
//! and `exp`, in that order and without white space. Reading accepts exactly
//! what writing produces.

use vstd::prelude::*;
use vstd::slice::slice_subrange;
use vstd::utf8::{decode_utf8, encode_utf8, valid_utf8};
use vstd::utf8::{encode_utf8_decode_utf8, encode_utf8_valid_utf8};
use crate::bytes::{bytes_eq, has_at, matches_at, push_all, string_from_utf8};
use crate::decimal::{digits, lemma_number_digits, number_u64, push_digits, read_number};
use crate::json_text::{escape, lemma_scan_escape, push_escaped, read_text, scan, QUOTE};
use crate::role::Role;

verus! {

/// Who the bearer of a token is, which role they hold, and until when.
#[derive(Clone, Debug, PartialEq, Eq)]
pub struct Claims {
    /// The user's identifier.
    pub sub: String,
    /// The user's role.
    pub role: Role,
    /// The second, counted from the Unix epoch, at which the token expires.
    pub exp: u64,
}

/// A claim set as a mathematical value.
pub ghost struct ClaimsView {
    pub sub: Seq<char>,
    pub role: Role,
    pub exp: u64,
}

impl View for Claims {
    type V = ClaimsView;

    open spec fn view(&self) -> ClaimsView {
        ClaimsView { sub: self.sub@, role: self.role, exp: self.exp }
    }
}

/// The bytes `{"sub":"`.
pub open spec fn sub_key() -> Seq<u8> {
    seq![123u8, 34, 115, 117, 98, 34, 58, 34]
}

/// The bytes `","role":"`.
pub open spec fn role_key() -> Seq<u8> {
    seq![34u8, 44, 34, 114, 111, 108, 101, 34, 58, 34]
}

/// The bytes `","exp":`.
pub open spec fn exp_key() -> Seq<u8> {
    seq![34u8, 44, 34, 101, 120, 112, 34, 58]
}

/// The byte `}`.
pub const CLOSE: u8 = 125;

/// The JSON form of a claim set.
pub open spec fn claims_json(c: ClaimsView) -> Seq<u8> {
    sub_key() + escape(encode_utf8(c.sub)) + role_key() + c.role.name() + exp_key() + digits(
        c.exp as nat,
    ) + seq![CLOSE]
}

/// The claim set whose JSON form is `body`, if there is one.
pub open spec fn claims_of(body: Seq<u8>) -> Option<ClaimsView> {
    if exists|c: ClaimsView| claims_json(c) == body {
        Some(choose|c: ClaimsView| claims_json(c) == body)
    } else {
        None
    }
}

/// What stands between the subject's text and the digits of the expiry.
spec fn role_part(role: Role) -> Seq<u8> {
    role_key() + role.name() + exp_key()
}

/// The claim set with the given subject and role and the expiry that `body`
/// holds from index `at` up to its closing brace.
spec fn finish(body: Seq<u8>, at: int, sub: Seq<char>, role: Role) -> Option<ClaimsView> {
    if 0 <= at < body.len() && body.last() == CLOSE {
        match number_u64(body.subrange(at, body.len() - 1)) {
            Some(exp) => Some(ClaimsView { sub, role, exp }),
            None => None,
        }
    } else {
        None
    }
}

/// Takes the three members out of `body` without asking that `body` is
/// written in the one accepted way.
spec fn extract(body: Seq<u8>) -> Option<ClaimsView> {
    if !has_at(body, 0, sub_key()) {
        None
    } else {
        match scan(body, 8) {
            None => None,
            Some((raw, quote)) => {
                if !valid_utf8(raw) {
                    None
                } else if has_at(body, quote, role_part(Role::User)) {
                    finish(body, quote + 22, decode_utf8(raw), Role::User)
                } else if has_at(body, quote, role_part(Role::Admin)) {
                    finish(body, quote + 23, decode_utf8(raw), Role::Admin)
                } else {
                    None
                }
            },
        }
    }
}

/// The members of a written claim set are taken out as they went in.
proof fn lemma_extract_json(c: ClaimsView)
    ensures
        extract(claims_json(c)) == Some(c),
{
    let body = claims_json(c);
    let raw = encode_utf8(c.sub);
    let text = escape(raw);
    let quote: int = (8 + text.len()) as int;
    let part = role_part(c.role);
    let at: int = quote + part.len();
    let dg = digits(c.exp as nat);
    lemma_number_digits(c.exp as nat);
    encode_utf8_valid_utf8(c.sub);
    encode_utf8_decode_utf8(c.sub);
    assert(body.len() == at + dg.len() + 1);
    assert(body.subrange(0, 8) =~= sub_key());
    assert(body.subrange(8, quote + 1) =~= text.push(QUOTE));
    lemma_scan_escape(body, 8, raw);
    assert(body.subrange(quote, at) =~= part);
    assert(body.subrange(at, body.len() - 1) =~= dg);
    assert(body.last() == CLOSE);
    if c.role == Role::Admin {
        if has_at(body, quote, role_part(Role::User)) {
            let window = body.subrange(quote, quote + 22);
            assert(window[10] == body[quote + 10]);
            assert(body[quote + 10] == part[10]);
            assert(false);
        }
    }
}

/// Two claim sets with the same JSON form are equal.
pub proof fn lemma_json_injective(a: ClaimsView, b: ClaimsView)
    requires
        claims_json(a) == claims_json(b),
    ensures
        a == b,
{
    lemma_extract_json(a);
    lemma_extract_json(b);
}

/// A written claim set is read back as it was.
pub proof fn lemma_claims_of_json(c: ClaimsView)
    ensures
        claims_of(claims_json(c)) == Some(c),
{
    let found = choose|x: ClaimsView| claims_json(x) == claims_json(c);
    lemma_json_injective(found, c);
}

/// Writes a claim set in its JSON form.
pub fn write_claims(c: &Claims) -> (r: Vec<u8>)
    ensures
        r@ == claims_json(c@),
{
    let sub_key_bytes: [u8; 8] = [123, 34, 115, 117, 98, 34, 58, 34];
    let role_key_bytes: [u8; 10] = [34, 44, 34, 114, 111, 108, 101, 34, 58, 34];
    let exp_key_bytes: [u8; 8] = [34, 44, 34, 101, 120, 112, 34, 58];
    assert(sub_key_bytes@ =~= sub_key());
    assert(role_key_bytes@ =~= role_key());
    assert(exp_key_bytes@ =~= exp_key());
    let mut out: Vec<u8> = Vec::new();
    push_all(&mut out, sub_key_bytes.as_slice());
    push_escaped(&mut out, c.sub.as_str().as_bytes());
    push_all(&mut out, role_key_bytes.as_slice());
    push_all(&mut out, c.role.as_str().as_bytes());
    push_all(&mut out, exp_key_bytes.as_slice());
    push_digits(&mut out, c.exp);
    out.push(CLOSE);
    assert(out@ =~= claims_json(c@));
    out
}

fn extract_claims(body: &[u8]) -> (r: Option<Claims>)
    ensures
        match r {
            Some(c) => extract(body@) == Some(c@),
            None => extract(body@) is None,
        },
{
    let sub_key_bytes: [u8; 8] = [123, 34, 115, 117, 98, 34, 58, 34];
    let user_part: [u8; 22] = [
        34, 44, 34, 114, 111, 108, 101, 34, 58, 34, 85, 115, 101, 114, 34, 44, 34, 101, 120, 112,
        34, 58,
    ];
    let admin_part: [u8; 23] = [
        34, 44, 34, 114, 111, 108, 101, 34, 58, 34, 65, 100, 109, 105, 110, 34, 44, 34, 101, 120,
        112, 34, 58,
    ];
    assert(sub_key_bytes@ =~= sub_key());
    assert(user_part@ =~= role_part(Role::User));
    assert(admin_part@ =~= role_part(Role::Admin));
    if !matches_at(body, 0, sub_key_bytes.as_slice()) {
        return None;
    }
    let (raw, quote) = match read_text(body, 8) {
        Some(found) => found,
        None => {
            return None;
        },
    };
    let sub = match string_from_utf8(raw) {
        Some(sub) => sub,
        None => {
            return None;
        },
    };
    let n = body.len();
    let role: Role;
    let at: usize;
    if matches_at(body, quote, user_part.as_slice()) {
        assert(user_part@.len() == 22 && quote + 22 <= n);
        role = Role::User;
        at = quote + 22;
    } else if matches_at(body, quote, admin_part.as_slice()) {
        assert(admin_part@.len() == 23 && quote + 23 <= n);
        role = Role::Admin;
        at = quote + 23;
    } else {
        return None;
    }
    if at >= n || body[n - 1] != CLOSE {
        return None;
    }
    match read_number(slice_subrange(body, at, n - 1)) {
        Some(exp) => Some(Claims { sub, role, exp }),
        None => None,
    }
}

/// Reads a claim set from its JSON form; `None` where `body` is the JSON form
/// of no claim set.
pub fn read_claims(body: &[u8]) -> (r: Option<Claims>)
    ensures
        match r {
            Some(c) => claims_of(body@) == Some(c@),
            None => claims_of(body@) is None,
        },
{
    match extract_claims(body) {
        Some(c) => {
            let again = write_claims(&c);
            if bytes_eq(again.as_slice(), body) {
                proof {
                    lemma_claims_of_json(c@);
                }
                Some(c)
            } else {
                proof {
                    if claims_of(body@) is Some {
                        lemma_extract_json(choose|x: ClaimsView| claims_json(x) == body@);
                    }
                }
                None
            }
        },
        None => {
            proof {
                if claims_of(body@) is Some {
                    lemma_extract_json(choose|x: ClaimsView| claims_json(x) == body@);
                }
            }
            None
        },
    }
}

} // verus!
