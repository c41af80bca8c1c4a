use role_auth::base64url::{decode_bytes, encode_bytes};
use role_auth::bytes::{bytes_eq, matches_at, push_all};
use role_auth::claims::{read_claims, write_claims, Claims};
use role_auth::decimal::{push_digits, read_number};
use role_auth::json_text::{push_escaped, read_text};
use role_auth::role::Role;

fn text(bytes: Vec<u8>) -> String {
    String::from_utf8(bytes).unwrap()
}

fn digits_of(n: u64) -> String {
    let mut out = Vec::new();
    push_digits(&mut out, n);
    text(out)
}

fn escaped(s: &[u8]) -> Vec<u8> {
    let mut out = Vec::new();
    push_escaped(&mut out, s);
    out
}

fn claims(sub: &str, role: Role, exp: u64) -> Claims {
    Claims { sub: sub.to_string(), role, exp }
}

#[test]
fn base64url_encodes_the_standard_vectors() {
    assert_eq!(text(encode_bytes(b"")), "");
    assert_eq!(text(encode_bytes(b"f")), "Zg");
    assert_eq!(text(encode_bytes(b"fo")), "Zm8");
    assert_eq!(text(encode_bytes(b"foo")), "Zm9v");
    assert_eq!(text(encode_bytes(b"foob")), "Zm9vYg");
    assert_eq!(text(encode_bytes(b"fooba")), "Zm9vYmE");
    assert_eq!(text(encode_bytes(b"foobar")), "Zm9vYmFy");
}

#[test]
fn base64url_uses_the_url_safe_symbols() {
    assert_eq!(text(encode_bytes(&[0xfb, 0xff])), "-_8");
    assert_eq!(text(encode_bytes(&[0, 1, 2, 3, 4, 5])), "AAECAwQF");
    assert_eq!(decode_bytes(b"-_8"), Some(vec![0xfb, 0xff]));
    assert_eq!(decode_bytes(b"+/8"), None);
}

#[test]
fn base64url_decodes_what_it_encodes() {
    for len in 0..70usize {
        let data: Vec<u8> = (0..len).map(|i| (i * 37 + len * 11) as u8).collect();
        let encoded = encode_bytes(&data);
        assert_eq!(decode_bytes(&encoded), Some(data));
    }
    let all: Vec<u8> = (0..=255u8).collect();
    assert_eq!(decode_bytes(&encode_bytes(&all)), Some(all));
}

#[test]
fn base64url_refuses_what_is_no_encoding() {
    assert_eq!(decode_bytes(b""), Some(vec![]));
    assert_eq!(decode_bytes(b"Z"), None);
    assert_eq!(decode_bytes(b"Zm9vY"), None);
    assert_eq!(decode_bytes(b"Zg=="), None);
    assert_eq!(decode_bytes(b"Zm 8"), None);
    assert_eq!(decode_bytes(b"Zm9v.Zg"), None);
    // unused low bits must be zero
    assert_eq!(decode_bytes(b"Zh"), None);
    assert_eq!(decode_bytes(b"Zm9"), None);
    assert_eq!(decode_bytes(b"Zg"), Some(b"f".to_vec()));
}

#[test]
fn bytes_are_compared_and_found() {
    assert!(bytes_eq(b"abc", b"abc"));
    assert!(bytes_eq(b"", b""));
    assert!(!bytes_eq(b"abc", b"abd"));
    assert!(!bytes_eq(b"abc", b"ab"));
    assert!(matches_at(b"hello world", 6, b"world"));
    assert!(matches_at(b"hello", 5, b""));
    assert!(!matches_at(b"hello world", 7, b"world"));
    assert!(!matches_at(b"hello", 6, b""));
    assert!(!matches_at(b"hello", usize::MAX, b"lo"));
    let mut out = b"ab".to_vec();
    push_all(&mut out, b"cd");
    assert_eq!(out, b"abcd".to_vec());
}

#[test]
fn numbers_are_written_in_decimal() {
    assert_eq!(digits_of(0), "0");
    assert_eq!(digits_of(7), "7");
    assert_eq!(digits_of(10), "10");
    assert_eq!(digits_of(4600), "4600");
    assert_eq!(digits_of(u64::MAX), "18446744073709551615");
    let mut out = b"x=".to_vec();
    push_digits(&mut out, 305);
    assert_eq!(text(out), "x=305");
}

#[test]
fn numbers_are_read_from_decimal() {
    assert_eq!(read_number(b"0"), Some(0));
    assert_eq!(read_number(b"4600"), Some(4600));
    assert_eq!(read_number(b"007"), Some(7));
    assert_eq!(read_number(b"18446744073709551615"), Some(u64::MAX));
    assert_eq!(read_number(b"18446744073709551616"), None);
    assert_eq!(read_number(b"99999999999999999999999"), None);
    assert_eq!(read_number(b""), None);
    assert_eq!(read_number(b"12a"), None);
    assert_eq!(read_number(b"-1"), None);
    assert_eq!(read_number(b" 1"), None);
}

#[test]
fn string_text_escapes_quote_backslash_and_controls() {
    assert_eq!(escaped(b"plain"), b"plain".to_vec());
    assert_eq!(escaped(b"a\"b"), b"a\\\"b".to_vec());
    assert_eq!(escaped(b"a\\b"), b"a\\\\b".to_vec());
    assert_eq!(escaped(b"a\nb"), b"a\\u000ab".to_vec());
    assert_eq!(escaped(&[0x00, 0x1f, 0x20, 0x7f]), b"\\u0000\\u001f \x7f".to_vec());
    assert_eq!(escaped("é".as_bytes()), "é".as_bytes().to_vec());
}

#[test]
fn string_text_is_read_up_to_the_closing_quote() {
    assert_eq!(read_text(b"abc\"rest", 0), Some((b"abc".to_vec(), 3)));
    assert_eq!(read_text(b"xx\"", 2), Some((vec![], 2)));
    assert_eq!(read_text(b"a\\\"b\\\\c\\u000a\"", 0), Some((b"a\"b\\c\n".to_vec(), 13)));
    assert_eq!(read_text(b"abc", 0), None);
    assert_eq!(read_text(b"abc\"", 9), None);
    assert_eq!(read_text(b"a\\nb\"", 0), None);
    assert_eq!(read_text(b"a\\u00g0\"", 0), None);
    assert_eq!(read_text(b"a\\u0", 0), None);
    assert_eq!(read_text(b"a\\", 0), None);
}

#[test]
fn string_text_is_read_back_for_every_byte() {
    let all: Vec<u8> = (0..=255u8).collect();
    let mut written = escaped(&all);
    let len = written.len();
    written.push(b'"');
    assert_eq!(read_text(&written, 0), Some((all, len)));
}

#[test]
fn claims_are_written_as_one_json_object() {
    assert_eq!(
        text(write_claims(&claims("u1", Role::User, 4600))),
        "{\"sub\":\"u1\",\"role\":\"User\",\"exp\":4600}"
    );
    assert_eq!(
        text(write_claims(&claims("root", Role::Admin, 0))),
        "{\"sub\":\"root\",\"role\":\"Admin\",\"exp\":0}"
    );
    assert_eq!(
        text(write_claims(&claims("a\"b\\c\né", Role::User, 3601))),
        "{\"sub\":\"a\\\"b\\\\c\\u000aé\",\"role\":\"User\",\"exp\":3601}"
    );
}

#[test]
fn claims_are_read_back_as_written() {
    for c in [
        claims("u1", Role::User, 4600),
        claims("", Role::Admin, 0),
        claims("a\"b\\c\n\t\u{0}é\u{10348}", Role::Admin, u64::MAX),
        claims("\",\"role\":\"Admin\",\"exp\":1}", Role::User, 9),
    ] {
        assert_eq!(read_claims(&write_claims(&c)), Some(c));
    }
}

#[test]
fn claims_in_any_other_form_are_refused() {
    assert!(read_claims(b"{\"sub\":\"u1\",\"role\":\"User\",\"exp\":4600}").is_some());
    assert_eq!(read_claims(b""), None);
    assert_eq!(read_claims(b"{}"), None);
    assert_eq!(read_claims(b"{\"sub\":\"u1\",\"role\":\"User\",\"exp\":4600} "), None);
    assert_eq!(read_claims(b"{ \"sub\":\"u1\",\"role\":\"User\",\"exp\":4600}"), None);
    assert_eq!(read_claims(b"{\"sub\":\"u1\",\"role\":\"User\",\"exp\":04600}"), None);
    assert_eq!(read_claims(b"{\"sub\":\"u1\",\"role\":\"User\",\"exp\":}"), None);
    assert_eq!(read_claims(b"{\"sub\":\"u1\",\"role\":\"User\",\"exp\":-1}"), None);
    assert_eq!(read_claims(b"{\"sub\":\"u1\",\"role\":\"User\",\"exp\":4600"), None);
    assert_eq!(
        read_claims(b"{\"sub\":\"u1\",\"role\":\"User\",\"exp\":18446744073709551616}"),
        None
    );
    assert_eq!(read_claims(b"{\"sub\":\"u1\",\"role\":\"Root\",\"exp\":4600}"), None);
    assert_eq!(read_claims(b"{\"sub\":\"u1\",\"role\":\"user\",\"exp\":4600}"), None);
    assert_eq!(read_claims(b"{\"role\":\"User\",\"sub\":\"u1\",\"exp\":4600}"), None);
    assert_eq!(read_claims(b"{\"sub\":\"u1\",\"exp\":4600}"), None);
    // an escape that writing does not produce
    assert_eq!(read_claims(b"{\"sub\":\"\\u0041\",\"role\":\"User\",\"exp\":4600}"), None);
    assert_eq!(read_claims(b"{\"sub\":\"\\u000A\",\"role\":\"User\",\"exp\":4600}"), None);
    // a control byte left as it is
    assert_eq!(read_claims(b"{\"sub\":\"a\nb\",\"role\":\"User\",\"exp\":4600}"), None);
    // a subject that is not UTF-8
    assert_eq!(read_claims(b"{\"sub\":\"\xff\",\"role\":\"User\",\"exp\":4600}"), None);
    assert_eq!(read_claims(b"{\"sub\":\"\xc3\",\"role\":\"User\",\"exp\":4600}"), None);
}
