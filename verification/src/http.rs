//! The HTTP answers: the health check and the response for each outcome of a
//! request.

use vstd::prelude::*;
use crate::cache::{CachedResponse, CachedResponseView, copy_bytes, headers_view};
use crate::cdn_service::{FetchResult, FetchResultView};
use crate::text::{copy_str, eq_ignore_ascii_case, str_eq_ignore_ascii_case};

verus! {

/// The body of the health check.
pub struct HealthResponse {
    pub status: &'static str,
    pub version: &'static str,
}

/// The package version reported by the health check.
pub const PACKAGE_VERSION: &'static str = "0.1.0";

/// The health check's answer: status `ok` and the package version.
pub fn health_check() -> (r: HealthResponse)
    ensures
        r.status@ == "ok"@,
        r.version@ == PACKAGE_VERSION@,
{
    HealthResponse { status: "ok", version: PACKAGE_VERSION }
}

/// An HTTP response: status code, header lines in order, body.
pub struct HttpResponse {
    pub status: u16,
    pub headers: Vec<(String, String)>,
    pub body: Vec<u8>,
}

/// The headers of a cached response that are passed on: all but those named
/// `content-type` in any ASCII case, in their order.
pub open spec fn forwarded_headers(h: Seq<(Seq<char>, Seq<char>)>) -> Seq<(Seq<char>, Seq<char>)>
    decreases h.len(),
{
    if h.len() == 0 {
        Seq::empty()
    } else if eq_ignore_ascii_case(h.last().0, "content-type"@) {
        forwarded_headers(h.drop_last())
    } else {
        forwarded_headers(h.drop_last()).push(h.last())
    }
}

/// The headers passed on are the cached response's own header lines, in
/// their order, less exactly those named `content-type` in some ASCII case:
/// every other line is kept, and every kept line is one of the response's
/// lines with another name. In particular a line whose name is not twelve
/// characters long, such as `Cache-Control`, is always passed on.
pub proof fn lemma_forwarded_headers_filter(h: Seq<(Seq<char>, Seq<char>)>)
    ensures
        forwarded_headers(h) == h.filter(|p: (Seq<char>, Seq<char>)| !eq_ignore_ascii_case(p.0, "content-type"@)),
        forall|i: int| 0 <= i < h.len() && !eq_ignore_ascii_case(h[i].0, "content-type"@)
            ==> #[trigger] forwarded_headers(h).contains(h[i]),
        forall|i: int| 0 <= i < h.len() && h[i].0.len() != 12 ==> #[trigger] forwarded_headers(h).contains(h[i]),
        forall|i: int| 0 <= i < forwarded_headers(h).len() ==> h.contains(#[trigger] forwarded_headers(h)[i])
            && !eq_ignore_ascii_case(forwarded_headers(h)[i].0, "content-type"@),
    decreases h.len(),
{
    reveal_strlit("content-type");
    let pred = |p: (Seq<char>, Seq<char>)| !eq_ignore_ascii_case(p.0, "content-type"@);
    reveal(Seq::filter);
    if h.len() > 0 {
        lemma_forwarded_headers_filter(h.drop_last());
        assert(h.filter(pred) == (if pred(h.last()) {
            h.drop_last().filter(pred).push(h.last())
        } else {
            h.drop_last().filter(pred)
        }));
    } else {
        assert(h.filter(pred) =~= Seq::<(Seq<char>, Seq<char>)>::empty());
    }
    assert forall|i: int| 0 <= i < h.len() && !eq_ignore_ascii_case(h[i].0, "content-type"@)
        implies #[trigger] forwarded_headers(h).contains(h[i]) by {
        h.lemma_filter_contains(pred, i);
    }
    assert forall|i: int| 0 <= i < h.len() && h[i].0.len() != 12 implies #[trigger] forwarded_headers(h).contains(h[i]) by {
        assert(!eq_ignore_ascii_case(h[i].0, "content-type"@));
        h.lemma_filter_contains(pred, i);
    }
    assert forall|i: int| 0 <= i < forwarded_headers(h).len() implies h.contains(#[trigger] forwarded_headers(h)[i])
        && !eq_ignore_ascii_case(forwarded_headers(h)[i].0, "content-type"@) by {
        h.lemma_filter_pred(pred, i);
        assert(h.filter(pred).contains(h.filter(pred)[i]));
        h.lemma_filter_contains_rev(pred, h.filter(pred)[i]);
    }
}

/// The header lines of a `200` answer for `c`: its content type, its ETag in
/// quotes, whether it came from the cache (`X-Cache: HIT` or `MISS`), then its
/// own headers but the content type.
pub open spec fn response_headers(c: CachedResponseView, from_cache: bool) -> Seq<(Seq<char>, Seq<char>)> {
    seq![
        ("content-type"@, c.content_type),
        ("etag"@, seq!['"'] + c.etag + seq!['"']),
        ("X-Cache"@, if from_cache { "HIT"@ } else { "MISS"@ }),
    ] + forwarded_headers(c.headers)
}

/// The body of a `404` answer for `path`.
pub open spec fn not_found_text(path: Seq<char>) -> Seq<char> {
    "Not found: "@ + path
}

/// The HTTP response for the answer `result` to a request for `path`.
pub open spec fn answer_response(path: Seq<char>, result: FetchResultView, status: u16, headers: Seq<(Seq<char>, Seq<char>)>, body: Seq<u8>) -> bool {
    match result {
        FetchResultView::Cached(c) => status == 200 && headers == response_headers(c, true) && body == c.body,
        FetchResultView::Fresh(c) => status == 200 && headers == response_headers(c, false) && body == c.body,
        FetchResultView::NotModified => status == 304 && headers.len() == 0 && body.len() == 0,
        FetchResultView::NotFound(_) => status == 404
            && headers == seq![("content-type"@, "text/plain; charset=utf-8"@)]
            && body == vstd::utf8::encode_utf8(not_found_text(path)),
    }
}

fn pair(a: &str, b: &str) -> (r: (String, String))
    ensures
        r.0@ == a@,
        r.1@ == b@,
{
    (copy_str(a), copy_str(b))
}

/// The `200` response for a cached or fetched response.
pub fn build_response(cached: &CachedResponse, from_cache: bool) -> (r: HttpResponse)
    ensures
        r.status == 200,
        headers_view(r.headers@) == response_headers(cached@, from_cache),
        r.body@ == cached.body@,
{
    let mut headers: Vec<(String, String)> = Vec::new();
    headers.push(pair("content-type", cached.content_type.as_str()));
    let quote = "\"";
    proof {
        reveal_strlit("\"");
        assert(quote@ =~= seq!['"']);
    }
    let quoted = copy_str(quote).concat(cached.etag.as_str()).concat(quote);
    headers.push(pair("etag", quoted.as_str()));
    let status_text = if from_cache { "HIT" } else { "MISS" };
    headers.push(pair("X-Cache", status_text));
    let ghost fixed = headers_view(headers@);
    let n = cached.headers.len();
    let mut i: usize = 0;
    while i < n
        invariant
            n == cached.headers@.len(),
            i <= n,
            headers_view(headers@) == fixed + forwarded_headers(headers_view(cached.headers@).take(i as int)),
        decreases n - i,
    {
        let key = cached.headers[i].0.as_str();
        let value = cached.headers[i].1.as_str();
        let ghost hv = headers_view(cached.headers@);
        proof {
            assert(hv.take(i + 1).drop_last() =~= hv.take(i as int));
            assert(hv.take(i + 1).last() == hv[i as int]);
        }
        if !str_eq_ignore_ascii_case(key, "content-type") {
            let ghost before = headers@;
            headers.push(pair(key, value));
            proof {
                assert(headers_view(headers@) =~= headers_view(before).push((key@, value@)));
                assert(hv[i as int] == (key@, value@));
                assert(forwarded_headers(hv.take(i + 1)) == forwarded_headers(hv.take(i as int)).push(hv[i as int]));
                assert(headers_view(headers@) =~= fixed + forwarded_headers(hv.take(i + 1)));
            }
        }
        i = i + 1;
    }
    proof {
        assert(headers_view(cached.headers@).take(n as int) =~= headers_view(cached.headers@));
        assert(fixed =~= seq![
            ("content-type"@, cached@.content_type),
            ("etag"@, seq!['"'] + cached@.etag + seq!['"']),
            ("X-Cache"@, if from_cache { "HIT"@ } else { "MISS"@ }),
        ]);
    }
    HttpResponse { status: 200, headers, body: copy_bytes(&cached.body) }
}

/// The HTTP response for the answer to a request for `path`: `200` with the
/// response (marked as a cache hit or miss), `304` with nothing, or `404`
/// with a short text.
pub fn response_for(path: &str, result: FetchResult) -> (r: HttpResponse)
    ensures
        answer_response(path@, result@, r.status, headers_view(r.headers@), r.body@),
{
    match result {
        FetchResult::Cached(c) => build_response(&c, true),
        FetchResult::Fresh(c) => build_response(&c, false),
        FetchResult::NotModified => {
            let r = HttpResponse { status: 304, headers: Vec::new(), body: Vec::new() };
            assert(headers_view(r.headers@) =~= Seq::empty());
            r
        },
        FetchResult::NotFound(_) => {
            let text = copy_str("Not found: ").concat(path);
            let mut headers: Vec<(String, String)> = Vec::new();
            headers.push(pair("content-type", "text/plain; charset=utf-8"));
            let body = text.as_str().as_bytes_vec();
            assert(headers_view(headers@) =~= seq![("content-type"@, "text/plain; charset=utf-8"@)]);
            HttpResponse { status: 404, headers, body }
        },
    }
}

} // verus!
