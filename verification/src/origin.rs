//! What origins hand back, and the decisions of the local and remote origins.

use vstd::prelude::*;
use crate::cache::headers_view;
use crate::admin::{decimal, decimal_string};
use crate::cdn_service::opt_view;
use crate::text::{copy_str, str_eq, trim_end_char, trim_end_str, trim_start_char, trim_start_str};

verus! {

/// A response fetched from an origin.
#[derive(Debug)]
pub struct OriginResponse {
    pub body: Vec<u8>,
    pub content_type: String,
    pub headers: Vec<(String, String)>,
}

/// The mathematical content of an [`OriginResponse`].
pub struct OriginResponseView {
    pub body: Seq<u8>,
    pub content_type: Seq<char>,
    pub headers: Seq<(Seq<char>, Seq<char>)>,
}

impl View for OriginResponse {
    type V = OriginResponseView;

    open spec fn view(&self) -> OriginResponseView {
        OriginResponseView {
            body: self.body@,
            content_type: self.content_type@,
            headers: headers_view(self.headers@),
        }
    }
}

/// `base` joined with `tail` as `PathBuf::push` does on Unix: an absolute
/// `tail` replaces `base`; otherwise a `/` separates them unless `base` is
/// empty or already ends with one.
pub open spec fn path_join(base: Seq<char>, tail: Seq<char>) -> Seq<char> {
    if tail.len() > 0 && tail[0] == '/' {
        tail
    } else if base.len() == 0 || base.last() == '/' {
        base + tail
    } else {
        base + seq!['/'] + tail
    }
}

/// Joins two paths, as `Path::join` does on Unix.
pub fn join_path(base: &str, tail: &str) -> (r: String)
    ensures
        r@ == path_join(base@, tail@),
{
    let tl = tail.unicode_len();
    let bl = base.unicode_len();
    if tl > 0 && tail.get_char(0) == '/' {
        return copy_str(tail);
    }
    if bl == 0 || base.get_char(bl - 1) == '/' {
        copy_str(base).concat(tail)
    } else {
        let sep = "/";
        proof {
            reveal_strlit("/");
            assert(sep@ =~= seq!['/']);
        }
        copy_str(base).concat(sep).concat(tail)
    }
}

/// Whether `path` starts with the components of `base`, as `Path::starts_with`
/// decides.
pub uninterp spec fn path_starts_with(path: Seq<char>, base: Seq<char>) -> bool;

/// Calls `std::path::Path::starts_with`, which compares whole components.
#[verifier::external_body]
fn std_path_starts_with(path: &str, base: &str) -> (r: bool)
    ensures
        r == path_starts_with(path@, base@),
{
    std::path::Path::new(path).starts_with(base)
}

/// The MIME type guessed from a file path's extension, as text.
pub uninterp spec fn guessed_mime(path: Seq<char>) -> Seq<char>;

/// Calls `mime_guess::from_path(..).first_or_octet_stream()` and writes the
/// MIME type as text: the type registered for the path's extension, or
/// `application/octet-stream`.
#[verifier::external_body]
fn mime_for_path(path: &str) -> (r: String)
    ensures
        r@ == guessed_mime(path@),
{
    mime_guess::from_path(path).first_or_octet_stream().to_string()
}

/// The HTTP date (`%a, %d %b %Y %H:%M:%S GMT`) of a UNIX time, when chrono can
/// represent it.
pub uninterp spec fn http_date(secs: i64, nanos: u32) -> Option<Seq<char>>;

/// Calls `chrono::DateTime::from_timestamp` and formats the time as an HTTP
/// date; nothing when chrono cannot represent the time.
#[verifier::external_body]
fn format_http_date(secs: i64, nanos: u32) -> (r: Option<String>)
    ensures
        opt_view(r) == http_date(secs, nanos),
{
    match chrono::DateTime::from_timestamp(secs, nanos) {
        Some(d) => Some(d.format("%a, %d %b %Y %H:%M:%S GMT").to_string()),
        None => None,
    }
}

/// No two header lines carry the same name.
pub open spec fn distinct_names(h: Seq<(Seq<char>, Seq<char>)>) -> bool {
    forall|i: int, j: int| 0 <= i < j < h.len() ==> (#[trigger] h[i]).0 != (#[trigger] h[j]).0
}

/// The response for a file's body, with its content type and, when known, the
/// time it was last modified.
pub fn file_response(content_type: String, last_modified: Option<String>, body: Vec<u8>) -> (r: OriginResponse)
    ensures
        r.body@ == body@,
        r.content_type@ == content_type@,
        r@.headers == match last_modified {
            Some(d) => seq![("Last-Modified"@, d@)],
            None => Seq::<(Seq<char>, Seq<char>)>::empty(),
        },
        distinct_names(r@.headers),
{
    let mut headers: Vec<(String, String)> = Vec::new();
    match last_modified {
        Some(d) => {
            headers.push((copy_str("Last-Modified"), d));
        },
        None => {},
    }
    let r = OriginResponse { body, content_type, headers };
    assert(r@.headers =~= match last_modified {
        Some(d) => seq![("Last-Modified"@, d@)],
        None => Seq::<(Seq<char>, Seq<char>)>::empty(),
    });
    r
}

/// An origin that serves the files under a directory.
pub struct LocalOrigin {
    root: String,
}

/// The outcome of resolving a requested path against the root: the file to
/// serve, or the reason it is refused.
pub open spec fn access_outcome(path: Seq<char>, canonical: Option<Seq<char>>, root: Option<Seq<char>>) -> Result<Seq<char>, Seq<char>> {
    match canonical {
        None => Err("File not found: "@ + path),
        Some(c) => match root {
            None => Err("Root directory not found"@),
            Some(r) => if path_starts_with(c, r) {
                Ok(c)
            } else {
                Err("Path traversal attempt detected"@)
            },
        },
    }
}

/// The local origin's access rule: a resolved target is served exactly when
/// it starts with the resolved root by whole path components (as
/// `Path::starts_with` decides, which holds of the root itself), and refused
/// as a traversal otherwise; a target or root that does not resolve is
/// refused with its own message.
pub proof fn lemma_access_by_components(path: Seq<char>, c: Seq<char>, r: Seq<char>, root: Option<Seq<char>>)
    ensures
        path_starts_with(c, r) ==> access_outcome(path, Some(c), Some(r)) == Ok::<Seq<char>, Seq<char>>(c),
        !path_starts_with(c, r) ==> access_outcome(path, Some(c), Some(r))
            == Err::<Seq<char>, Seq<char>>("Path traversal attempt detected"@),
        access_outcome(path, Some(c), Some(r)) is Ok ==> path_starts_with(c, r),
        access_outcome(path, None, root) == Err::<Seq<char>, Seq<char>>("File not found: "@ + path),
        access_outcome(path, Some(c), None) == Err::<Seq<char>, Seq<char>>("Root directory not found"@),
{
}

/// The view of a result of strings.
pub open spec fn result_view(r: Result<String, String>) -> Result<Seq<char>, Seq<char>> {
    match r {
        Ok(s) => Ok(s@),
        Err(e) => Err(e@),
    }
}

/// The file to serve for a resolved path: a directory is served by its
/// `index.html` when there is one and refused otherwise.
pub open spec fn file_outcome(canonical: Seq<char>, is_dir: bool, index_exists: bool) -> Result<Seq<char>, Seq<char>> {
    if is_dir {
        if index_exists {
            Ok(path_join(canonical, "index.html"@))
        } else {
            Err("Directory listing not allowed"@)
        }
    } else {
        Ok(canonical)
    }
}

impl LocalOrigin {
    pub fn new(root: &str) -> (r: Self)
        ensures
            r.root_view() == root@,
    {
        LocalOrigin { root: copy_str(root) }
    }

    pub closed spec fn root_view(&self) -> Seq<char> {
        self.root@
    }

    /// The directory served.
    pub fn root(&self) -> (r: &str)
        ensures
            r@ == self.root_view(),
    {
        self.root.as_str()
    }

    /// The local origin only reads: it serves `GET` and `HEAD` requests and
    /// refuses any other method with a message that names it.
    pub fn check_method(method: &str) -> (r: Result<(), String>)
        ensures
            r is Ok <==> (method@ == "GET"@ || method@ == "HEAD"@),
            r matches Err(m) ==> m@ == "Method not allowed: "@ + method@,
    {
        if str_eq(method, "GET") || str_eq(method, "HEAD") {
            Ok(())
        } else {
            Err(copy_str("Method not allowed: ").concat(method))
        }
    }

    /// The file path for a request path: the request path, without its
    /// leading `/`s, under the root.
    pub fn target_path(&self, path: &str) -> (r: String)
        ensures
            r@ == path_join(self.root_view(), trim_start_char(path@, '/')),
    {
        join_path(self.root.as_str(), trim_start_str(path, '/'))
    }

    /// Decides on the canonical forms of the target and of the root (`None`
    /// when they could not be resolved): the target is served only when it
    /// lies under the root.
    pub fn check_resolved(path: &str, canonical: Option<String>, root_canonical: Option<String>) -> (r: Result<String, String>)
        ensures
            result_view(r) == access_outcome(path@, opt_view(canonical), opt_view(root_canonical)),
    {
        match canonical {
            None => Err(copy_str("File not found: ").concat(path)),
            Some(c) => match root_canonical {
                None => Err(copy_str("Root directory not found")),
                Some(root) => {
                    let within = std_path_starts_with(c.as_str(), root.as_str());
                    Self::access_decision(c, within)
                },
            },
        }
    }

    /// Serves a resolved target only when it lies under the root.
    pub fn access_decision(canonical: String, within_root: bool) -> (r: Result<String, String>)
        ensures
            within_root ==> result_view(r) == Ok::<Seq<char>, Seq<char>>(canonical@),
            !within_root ==> result_view(r) == Err::<Seq<char>, Seq<char>>("Path traversal attempt detected"@),
    {
        if within_root {
            Ok(canonical)
        } else {
            Err(copy_str("Path traversal attempt detected"))
        }
    }

    /// The `index.html` of a directory.
    pub fn index_path(dir: &str) -> (r: String)
        ensures
            r@ == path_join(dir@, "index.html"@),
    {
        join_path(dir, "index.html")
    }

    /// The file to read for a resolved target.
    pub fn choose_file(canonical: &str, is_dir: bool, index_exists: bool) -> (r: Result<String, String>)
        ensures
            result_view(r) == file_outcome(canonical@, is_dir, index_exists),
    {
        if is_dir {
            if index_exists {
                Ok(Self::index_path(canonical))
            } else {
                Err(copy_str("Directory listing not allowed"))
            }
        } else {
            Ok(copy_str(canonical))
        }
    }

    /// The response for a file read from disk: its content type guessed from
    /// the file's extension, and a `Last-Modified` header when the time of its
    /// last change is known and chrono can represent it.
    pub fn read_file(file: &str, body: Vec<u8>, modified: Option<(i64, u32)>) -> (r: OriginResponse)
        ensures
            r.body@ == body@,
            r.content_type@ == guessed_mime(file@),
            r@.headers == match modified {
                Some((s, n)) => match http_date(s, n) {
                    Some(d) => seq![("Last-Modified"@, d)],
                    None => Seq::<(Seq<char>, Seq<char>)>::empty(),
                },
                None => Seq::<(Seq<char>, Seq<char>)>::empty(),
            },
            distinct_names(r@.headers),
    {
        let content_type = mime_for_path(file);
        let last_modified = match modified {
            Some((secs, nanos)) => format_http_date(secs, nanos),
            None => None,
        };
        file_response(content_type, last_modified, body)
    }
}

#[verifier::external_type_specification]
#[verifier::external_body]
pub struct ExReqwestClient(reqwest::Client);

/// Calls `reqwest::Client::builder().gzip(gzip).brotli(brotli).build()`,
/// which turns on the transparent decompression of gzip and brotli bodies as
/// asked; the error, when there is one, as text. When it fails (the TLS
/// backend or the system configuration cannot be set up) is not claimed, and
/// nothing is claimed of the client, whose settings cannot be read back.
#[verifier::external_body]
fn build_http_client(gzip: bool, brotli: bool) -> (r: Result<reqwest::Client, String>) {
    match reqwest::Client::builder().gzip(gzip).brotli(brotli).build() {
        Ok(c) => Ok(c),
        Err(e) => Err(e.to_string()),
    }
}

/// An origin that proxies to a remote server.
pub struct RemoteOrigin {
    base_url: String,
    client: reqwest::Client,
}

impl RemoteOrigin {
    /// An origin for `base_url`, kept without its trailing `/`s, whose client
    /// accepts gzip and brotli bodies.
    pub fn new(base_url: &str) -> (r: Result<Self, String>)
        ensures
            r matches Ok(o) ==> o.base_url_view() == trim_end_char(base_url@, '/'),
    {
        match build_http_client(true, true) {
            Ok(client) => Ok(RemoteOrigin { base_url: copy_str(trim_end_str(base_url, '/')), client }),
            Err(e) => Err(e),
        }
    }

    pub closed spec fn base_url_view(&self) -> Seq<char> {
        self.base_url@
    }

    pub fn base_url(&self) -> (r: &str)
        ensures
            r@ == self.base_url_view(),
    {
        self.base_url.as_str()
    }

    /// The HTTP client that the origin holds.
    pub closed spec fn held_client(&self) -> reqwest::Client {
        self.client
    }

    /// The HTTP client that the origin fetches with.
    pub fn client(&self) -> (r: &reqwest::Client)
        ensures
            *r == self.held_client(),
    {
        &self.client
    }

    /// The URL fetched for a request path: the base URL followed by the path.
    pub fn request_url(&self, path: &str) -> (r: String)
        ensures
            r@ == self.base_url_view() + path@,
    {
        copy_str(self.base_url.as_str()).concat(path)
    }

    /// The response for a successful fetch, keeping the `Content-Type`,
    /// `Last-Modified` and `Cache-Control` headers the server sent; the content
    /// type is the server's or `application/octet-stream`.
    pub fn remote_response(content_type: Option<String>, last_modified: Option<String>, cache_control: Option<String>, body: Vec<u8>) -> (r: OriginResponse)
        ensures
            r.body@ == body@,
            r.content_type@ == match content_type {
                Some(c) => c@,
                None => "application/octet-stream"@,
            },
            r@.headers == kept_header("Content-Type"@, opt_view(content_type))
                + kept_header("Last-Modified"@, opt_view(last_modified))
                + kept_header("Cache-Control"@, opt_view(cache_control)),
            distinct_names(r@.headers),
    {
        let ct = match &content_type {
            Some(c) => c.clone(),
            None => copy_str("application/octet-stream"),
        };
        let mut headers: Vec<(String, String)> = Vec::new();
        let ghost h0 = headers_view(headers@);
        match content_type {
            Some(v) => headers.push((copy_str("Content-Type"), v)),
            None => {},
        }
        let ghost h1 = headers_view(headers@);
        assert(h1 =~= h0 + kept_header("Content-Type"@, opt_view(content_type)));
        match last_modified {
            Some(v) => headers.push((copy_str("Last-Modified"), v)),
            None => {},
        }
        let ghost h2 = headers_view(headers@);
        assert(h2 =~= h1 + kept_header("Last-Modified"@, opt_view(last_modified)));
        match cache_control {
            Some(v) => headers.push((copy_str("Cache-Control"), v)),
            None => {},
        }
        let ghost h3 = headers_view(headers@);
        assert(h3 =~= h2 + kept_header("Cache-Control"@, opt_view(cache_control)));
        assert(h0 =~= Seq::<(Seq<char>, Seq<char>)>::empty());
        proof {
            reveal_strlit("Content-Type");
            reveal_strlit("Last-Modified");
            reveal_strlit("Cache-Control");
            assert("Content-Type"@.len() != "Last-Modified"@.len());
            assert("Content-Type"@.len() != "Cache-Control"@.len());
            assert("Last-Modified"@[0] != "Cache-Control"@[0]);
            assert forall|i: int, j: int| 0 <= i < j < h3.len() implies (#[trigger] h3[i]).0 != (#[trigger] h3[j]).0 by {
                let a = kept_header("Content-Type"@, opt_view(content_type));
                let b = kept_header("Last-Modified"@, opt_view(last_modified));
                let c = kept_header("Cache-Control"@, opt_view(cache_control));
                assert(h3 == a + b + c);
                if i < a.len() {
                    assert(h3[i].0 == "Content-Type"@);
                } else if i < a.len() + b.len() {
                    assert(h3[i].0 == "Last-Modified"@);
                    assert(h3[j].0 == "Cache-Control"@);
                }
            }
        }
        OriginResponse { body, content_type: ct, headers }
    }
}

/// The header line `name: value` when a value was sent, else nothing.
pub open spec fn kept_header(name: Seq<char>, value: Option<Seq<char>>) -> Seq<(Seq<char>, Seq<char>)> {
    match value {
        Some(v) => seq![(name, v)],
        None => Seq::empty(),
    }
}

/// The text of a status line: the code and its reason phrase.
pub open spec fn status_text(status: u16, reason: Seq<char>) -> Seq<char> {
    decimal(status as nat) + " "@ + reason
}

/// Whether a remote server's answer may be served: any `2xx` status. Other
/// statuses fail with a message that names the status, with its reason
/// phrase, and the URL.
pub fn check_status(status: u16, reason: &str, url: &str) -> (r: Result<(), String>)
    ensures
        r is Ok <==> 200 <= status <= 299,
        r matches Err(m) ==> m@ == "Origin returned error: "@ + status_text(status, reason@) + " for "@ + url@,
{
    if 200 <= status && status <= 299 {
        Ok(())
    } else {
        let code = decimal_string(status as u64);
        let message = copy_str("Origin returned error: ").concat(code.as_str()).concat(" ").concat(reason).concat(" for ").concat(url);
        Err(message)
    }
}

} // verus!
