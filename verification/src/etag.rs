//! Entity tags: computing a response's ETag and comparing it with the one a
//! client sent in `If-None-Match`.

use sha2::Digest;
use vstd::prelude::*;
use crate::text::{str_eq, trim_quotes, trim_quotes_str};

verus! {

/// The SHA-256 digest of `data`.
pub uninterp spec fn sha256_digest(data: Seq<u8>) -> Seq<u8>;

/// Calls `sha2::Sha256::digest`: the SHA-256 digest of `data`, 32 bytes long
/// (its output type holds 32 bytes).
#[verifier::external_body]
fn sha256(data: &[u8]) -> (r: Vec<u8>)
    ensures
        r@ == sha256_digest(data@),
        r@.len() == 32,
{
    sha2::Sha256::digest(data).to_vec()
}

/// The lowercase hexadecimal digit for `n` (below 16).
pub open spec fn hex_digit(n: int) -> char {
    if n < 10 {
        (48 + n) as char
    } else {
        (87 + n) as char
    }
}

/// `data` in lowercase hexadecimal, two digits per byte, high nibble first.
pub open spec fn hex_lower(data: Seq<u8>) -> Seq<char>
    decreases data.len(),
{
    if data.len() == 0 {
        Seq::empty()
    } else {
        seq![hex_digit(data[0] as int / 16), hex_digit(data[0] as int % 16)] + hex_lower(data.drop_first())
    }
}

/// Calls `hex::encode`, which writes each byte as two lowercase hexadecimal
/// digits, high nibble first.
#[verifier::external_body]
fn hex_encode(data: &[u8]) -> (r: String)
    ensures
        r@ == hex_lower(data@),
{
    hex::encode(data)
}

/// The ETag of a body: its SHA-256 digest in lowercase hex (64 digits).
pub open spec fn etag_of(body: Seq<u8>) -> Seq<char> {
    hex_lower(sha256_digest(body))
}

/// Whether the tag a client sent matches the server's tag, `"` quotes at
/// either end of either tag being ignored; no tag sent never matches.
pub open spec fn etag_matches_spec(client_etag: Option<Seq<char>>, server_etag: Seq<char>) -> bool {
    match client_etag {
        Some(e) => trim_quotes(e) == trim_quotes(server_etag),
        None => false,
    }
}

/// The ETag for a digest: the digest in lowercase hex.
pub fn etag_from_digest(digest: &[u8]) -> (r: String)
    ensures
        r@ == hex_lower(digest@),
{
    hex_encode(digest)
}

/// The ETag of a response body.
pub fn generate_etag(body: &[u8]) -> (r: String)
    ensures
        r@ == etag_of(body@),
        r@.len() == 64,
{
    let digest = sha256(body);
    proof {
        lemma_hex_has_no_quote(digest@);
    }
    etag_from_digest(digest.as_slice())
}

/// Whether the `If-None-Match` tag a client sent matches the server's tag.
pub fn etag_matches(client_etag: Option<&str>, server_etag: &str) -> (r: bool)
    ensures
        r == etag_matches_spec(
            match client_etag { Some(e) => Some(e@), None => None },
            server_etag@,
        ),
{
    match client_etag {
        Some(e) => str_eq(trim_quotes_str(e), trim_quotes_str(server_etag)),
        None => false,
    }
}

proof fn lemma_hex_has_no_quote(data: Seq<u8>)
    ensures
        forall|i: int| 0 <= i < hex_lower(data).len() ==> hex_lower(data)[i] != '"',
        hex_lower(data).len() == 2 * data.len(),
    decreases data.len(),
{
    if data.len() > 0 {
        lemma_hex_has_no_quote(data.drop_first());
        let h = hex_lower(data);
        let hi = data[0] as int / 16;
        let lo = data[0] as int % 16;
        assert(h[0] == hex_digit(hi));
        assert(h[1] == hex_digit(lo));
        assert forall|i: int| 0 <= i < h.len() implies h[i] != '"' by {
            if i >= 2 {
                assert(h[i] == hex_lower(data.drop_first())[i - 2]);
            }
        }
    }
}

/// A string with no `"` at either end is left as it is by trimming quotes.
pub proof fn lemma_trim_unquoted(s: Seq<char>)
    requires
        s.len() > 0 ==> s[0] != '"' && s.last() != '"',
    ensures
        trim_quotes(s) == s,
{
}

/// Trimming quotes from a string put in quotes gives the string back, when it
/// has no `"` at either end.
pub proof fn lemma_trim_wrapped(s: Seq<char>)
    requires
        s.len() > 0 ==> s[0] != '"' && s.last() != '"',
    ensures
        trim_quotes(seq!['"'] + s + seq!['"']) == s,
{
    let w = seq!['"'] + s + seq!['"'];
    let v = s + seq!['"'];
    assert(w.drop_first() =~= v);
    assert(w[0] == '"');
    assert(trim_quotes(w) == trim_quotes(v));
    assert(v.drop_last() =~= s);
    lemma_trim_unquoted(s);
    if s.len() > 0 {
        assert(v[0] == s[0]);
        assert(v.last() == '"');
        assert(trim_quotes(v) == trim_quotes(v.drop_last()));
    } else {
        assert(v.drop_first() =~= Seq::<char>::empty());
        assert(trim_quotes(v) == trim_quotes(v.drop_first()));
    }
}

/// A client that sends back, in `If-None-Match`, the quoted ETag it received
/// for a body gets a match against that body's ETag.
pub proof fn lemma_quoted_etag_matches(body: Seq<u8>)
    ensures
        etag_matches_spec(Some(seq!['"'] + etag_of(body) + seq!['"']), etag_of(body)),
{
    let e = etag_of(body);
    lemma_hex_has_no_quote(sha256_digest(body));
    if e.len() > 0 {
        assert(e[0] != '"');
        assert(e.last() != '"');
    }
    lemma_trim_wrapped(e);
    lemma_trim_unquoted(e);
}

} // verus!
