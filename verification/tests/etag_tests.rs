use fastcache::etag::{etag_from_digest, etag_matches, generate_etag};
use fastcache::text::{str_eq_ignore_ascii_case, trim_end_str, trim_quotes_str, trim_start_str};

#[test]
fn etag_of_hello() {
    assert_eq!(
        generate_etag(b"hello"),
        "2cf24dba5fb0a30e26e83b2ac5b9e29e1b161e5c1fa7425e73043362938b9824"
    );
}

#[test]
fn etag_of_empty_body() {
    assert_eq!(
        generate_etag(b""),
        "e3b0c44298fc1c149afbf4c8996fb92427ae41e4649b934ca495991b7852b855"
    );
}

#[test]
fn etag_from_digest_writes_every_byte() {
    let digest = [0u8, 1, 0x0f, 0x10, 0xab, 0xcd, 0xef, 0xff, 0x99, 0x98];
    assert_eq!(etag_from_digest(&digest), "00010f10abcdefff9998");
    assert_eq!(etag_from_digest(&[]), "");
}

#[test]
fn equal_bodies_give_equal_etags() {
    let a = generate_etag(b"same content");
    let b = generate_etag(b"same content");
    assert_eq!(a, b);
    assert_eq!(a.len(), 64);
    assert_ne!(a, generate_etag(b"other content"));
}

#[test]
fn etag_matching() {
    assert!(etag_matches(Some("\"abc\""), "abc"));
    assert!(etag_matches(Some("abc"), "\"abc\""));
    assert!(etag_matches(Some("\"\"abc\""), "abc"));
    assert!(!etag_matches(Some("\"abd\""), "abc"));
    assert!(!etag_matches(None, "abc"));
    assert!(etag_matches(Some("\"\""), ""));
    assert!(!etag_matches(Some("W/\"abc\""), "abc"));
}

#[test]
fn trimming() {
    assert_eq!(trim_quotes_str("\"a\"b\""), "a\"b");
    assert_eq!(trim_quotes_str("\"\"\""), "");
    assert_eq!(trim_quotes_str("x"), "x");
    assert_eq!(trim_start_str("///a/b", '/'), "a/b");
    assert_eq!(trim_end_str("http://h:1//", '/'), "http://h:1");
    assert_eq!(trim_end_str("////", '/'), "");
}

#[test]
fn header_name_comparison_ignores_ascii_case() {
    assert!(str_eq_ignore_ascii_case("Content-Type", "content-type"));
    assert!(str_eq_ignore_ascii_case("CONTENT-TYPE", "content-type"));
    assert!(!str_eq_ignore_ascii_case("Content-Typo", "content-type"));
    assert!(!str_eq_ignore_ascii_case("Content-Type ", "content-type"));
}
