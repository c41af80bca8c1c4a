//! The message authentication code that signs a token.

use vstd::prelude::*;
use hmac::{Hmac, Mac};
use sha2::Sha256;

verus! {

/// The HMAC-SHA256 tag of `message` under `key`.
pub uninterp spec fn hmac_sha256(key: Seq<u8>, message: Seq<u8>) -> Seq<u8>;

/// Computes the tag of `message` under `key`.
///
/// Calls `Hmac::<Sha256>::new_from_slice`, `update` and `finalize` of the
/// `hmac` crate. Trusted: the call succeeds, since the key set-up of HMAC
/// takes a key of any length, and the bytes returned are the tag that this
/// module names [`hmac_sha256`].
#[verifier::external_body]
pub(crate) fn mac_tag(key: &[u8], message: &[u8]) -> (r: Option<Vec<u8>>)
    ensures
        r is Some,
        r matches Some(tag) ==> tag@ == hmac_sha256(key@, message@),
{
    match Hmac::<Sha256>::new_from_slice(key) {
        Ok(mut mac) => {
            mac.update(message);
            Some(mac.finalize().into_bytes().to_vec())
        },
        Err(_) => None,
    }
}

/// Whether `tag` is the tag of `message` under `key`.
///
/// Calls `verify_slice` of the `hmac` crate, which computes the tag anew and
/// compares the two in constant time. Trusted: the answer is `true` exactly
/// when `tag` equals [`hmac_sha256`] of key and message.
#[verifier::external_body]
pub(crate) fn mac_matches(key: &[u8], message: &[u8], tag: &[u8]) -> (ok: bool)
    ensures
        ok == (tag@ == hmac_sha256(key@, message@)),
{
    match Hmac::<Sha256>::new_from_slice(key) {
        Ok(mut mac) => {
            mac.update(message);
            mac.verify_slice(tag).is_ok()
        },
        Err(_) => false,
    }
}

} // verus!
