//! Small helpers on byte slices.

use vstd::prelude::*;
use vstd::utf8::{decode_utf8, encode_utf8, is_ascii_chars, valid_utf8};
use vstd::utf8::{decode_utf8_encode_utf8, encode_utf8_valid_utf8, is_ascii_chars_encode_utf8};

verus! {

/// `pat` occurs in `data` starting at index `at`.
pub open spec fn has_at(data: Seq<u8>, at: int, pat: Seq<u8>) -> bool {
    &&& 0 <= at
    &&& at + pat.len() <= data.len()
    &&& data.subrange(at, at + pat.len()) == pat
}

/// Whether two byte slices hold the same bytes.
pub fn bytes_eq(a: &[u8], b: &[u8]) -> (r: bool)
    ensures
        r == (a@ == b@),
{
    if a.len() != b.len() {
        return false;
    }
    let n = a.len();
    let mut i: usize = 0;
    while i < n
        invariant
            i <= n,
            n == a@.len(),
            n == b@.len(),
            forall|k: int| 0 <= k < i ==> a@[k] == b@[k],
        decreases n - i,
    {
        if a[i] != b[i] {
            assert(a@[i as int] != b@[i as int]);
            return false;
        }
        i += 1;
    }
    assert(a@ =~= b@);
    true
}

/// Whether `pat` occurs in `data` starting at index `at`.
pub fn matches_at(data: &[u8], at: usize, pat: &[u8]) -> (r: bool)
    ensures
        r == has_at(data@, at as int, pat@),
{
    if at > data.len() || pat.len() > data.len() - at {
        return false;
    }
    let n = pat.len();
    let ghost window = data@.subrange(at as int, at + n);
    let mut k: usize = 0;
    while k < n
        invariant
            k <= n,
            n == pat@.len(),
            at + n <= data.len(),
            window == data@.subrange(at as int, at + n),
            forall|j: int| 0 <= j < k ==> window[j] == pat@[j],
        decreases n - k,
    {
        if data[at + k] != pat[k] {
            assert(window[k as int] != pat@[k as int]);
            return false;
        }
        k += 1;
    }
    assert(window =~= pat@);
    true
}

/// Appends `bytes` to `out`.
pub fn push_all(out: &mut Vec<u8>, bytes: &[u8])
    ensures
        final(out)@ == old(out)@ + bytes@,
{
    out.extend_from_slice(bytes);
    assert(out@ =~= old(out)@ + bytes@);
}

/// Bytes below 128 are UTF-8 as they stand.
pub proof fn lemma_ascii_is_utf8(bytes: Seq<u8>)
    requires
        forall|i: int| 0 <= i < bytes.len() ==> bytes[i] < 128,
    ensures
        valid_utf8(bytes),
        encode_utf8(decode_utf8(bytes)) == bytes,
{
    let chars = Seq::new(bytes.len(), |i: int| bytes[i] as char);
    assert(is_ascii_chars(chars));
    is_ascii_chars_encode_utf8(chars);
    assert(encode_utf8(chars) =~= bytes);
    encode_utf8_valid_utf8(chars);
    decode_utf8_encode_utf8(bytes);
}

/// A string of the given bytes; `None` where they are not UTF-8.
///
/// Calls `String::from_utf8`. Trusted: the call succeeds exactly on valid
/// UTF-8, and the string then holds the characters that the bytes encode.
#[verifier::external_body]
pub(crate) fn string_from_utf8(bytes: Vec<u8>) -> (r: Option<String>)
    ensures
        r is Some <==> valid_utf8(bytes@),
        r matches Some(s) ==> s@ == decode_utf8(bytes@),
{
    match String::from_utf8(bytes) {
        Ok(s) => Some(s),
        Err(_) => None,
    }
}

} // verus!
