//! Serving a request: the cache first, then the route's origins in order,
//! falling back to the next origin when one fails.
//!
//! Fetching from an origin is I/O, so the service is a state machine: the
//! caller starts a fetch, performs each origin fetch the service asks for, and
//! hands back its outcome until the service answers `Done`.

use vstd::prelude::*;
use crate::cache::{CachedEntryView, CachedResponse, CachedResponseView, CdnCache, expiry_time, is_fresh, settled};
use crate::etag::{etag_matches, etag_matches_spec, etag_of, generate_etag, hex_lower, sha256_digest};
use crate::text::trim_quotes;
use crate::origin::{OriginResponse, OriginResponseView};
use crate::route::{Router, Route, is_first_match, no_match, relative_part, relative_path};
use crate::text::copy_str;

verus! {

/// The answer to a request.
pub enum FetchResult {
    /// Served from the cache.
    Cached(CachedResponse),
    /// Fetched from an origin.
    Fresh(CachedResponse),
    /// The client's `If-None-Match` tag matches the response's ETag.
    NotModified,
    /// No route serves the path, or every origin failed (with the reason).
    NotFound(String),
}

pub enum FetchResultView {
    Cached(CachedResponseView),
    Fresh(CachedResponseView),
    NotModified,
    NotFound(Seq<char>),
}

impl View for FetchResult {
    type V = FetchResultView;

    open spec fn view(&self) -> FetchResultView {
        match self {
            FetchResult::Cached(c) => FetchResultView::Cached(c@),
            FetchResult::Fresh(c) => FetchResultView::Fresh(c@),
            FetchResult::NotModified => FetchResultView::NotModified,
            FetchResult::NotFound(m) => FetchResultView::NotFound(m@),
        }
    }
}

/// A fetch in progress: the request, the matched route, the path handed to
/// its origins, the next origin to try and the last failure seen.
pub struct FetchState {
    pub path: String,
    pub if_none_match: Option<String>,
    pub route_index: usize,
    pub relative_path: String,
    pub next_origin: usize,
    pub last_error: String,
}

pub struct FetchStateView {
    pub path: Seq<char>,
    pub if_none_match: Option<Seq<char>>,
    pub route_index: usize,
    pub relative_path: Seq<char>,
    pub next_origin: usize,
    pub last_error: Seq<char>,
}

/// The view of an optional string.
pub open spec fn opt_view(o: Option<String>) -> Option<Seq<char>> {
    match o {
        Some(s) => Some(s@),
        None => None,
    }
}

/// The view of an optional string slice.
pub open spec fn opt_str_view(o: Option<&str>) -> Option<Seq<char>> {
    match o {
        Some(s) => Some(s@),
        None => None,
    }
}

impl View for FetchState {
    type V = FetchStateView;

    open spec fn view(&self) -> FetchStateView {
        FetchStateView {
            path: self.path@,
            if_none_match: opt_view(self.if_none_match),
            route_index: self.route_index,
            relative_path: self.relative_path@,
            next_origin: self.next_origin,
            last_error: self.last_error@,
        }
    }
}

/// What the service asks of its caller next.
pub enum FetchStep {
    /// Fetch `relative_path` from origin `origin_index` of route `route_index`
    /// and hand the outcome to `on_origin_result`.
    FetchOrigin { route_index: usize, origin_index: usize, relative_path: String },
    /// The answer to the request.
    Done(FetchResult),
}

pub enum FetchStepView {
    FetchOrigin { route_index: usize, origin_index: usize, relative_path: Seq<char> },
    Done(FetchResultView),
}

impl View for FetchStep {
    type V = FetchStepView;

    open spec fn view(&self) -> FetchStepView {
        match self {
            FetchStep::FetchOrigin { route_index, origin_index, relative_path } => FetchStepView::FetchOrigin {
                route_index: *route_index,
                origin_index: *origin_index,
                relative_path: relative_path@,
            },
            FetchStep::Done(r) => FetchStepView::Done(r@),
        }
    }
}

/// The path asked of the origins: the part after the route's prefix, or `/`
/// when that part is empty.
pub open spec fn origin_request_path(relative: Seq<char>) -> Seq<char> {
    if relative.len() == 0 {
        seq!['/']
    } else {
        relative
    }
}

/// The step for a fetch in `st`: the next origin of its route if one is left,
/// else `NotFound` with the last failure.
pub open spec fn pending_step<O>(routes: Seq<Route<O>>, st: FetchStateView) -> FetchStepView {
    if st.route_index < routes.len() && st.next_origin < routes[st.route_index as int].origins@.len() {
        FetchStepView::FetchOrigin {
            route_index: st.route_index,
            origin_index: st.next_origin,
            relative_path: st.relative_path,
        }
    } else {
        FetchStepView::Done(FetchResultView::NotFound(st.last_error))
    }
}

/// The cached form of an origin's response, tagged with its ETag.
pub open spec fn response_with_etag(resp: OriginResponseView) -> CachedResponseView {
    CachedResponseView {
        body: resp.body,
        content_type: resp.content_type,
        etag: etag_of(resp.body),
        headers: resp.headers,
    }
}

/// The answer for a cached response.
pub open spec fn cached_answer(if_none_match: Option<Seq<char>>, c: CachedResponseView) -> FetchResultView {
    if etag_matches_spec(if_none_match, c.etag) {
        FetchResultView::NotModified
    } else {
        FetchResultView::Cached(c)
    }
}

/// The answer for a response fetched from an origin.
pub open spec fn fresh_answer(if_none_match: Option<Seq<char>>, c: CachedResponseView) -> FetchResultView {
    if etag_matches_spec(if_none_match, c.etag) {
        FetchResultView::NotModified
    } else {
        FetchResultView::Fresh(c)
    }
}

/// The cache holds a fresh entry for `path` at time `now`.
pub open spec fn fresh_hit(c: Map<Seq<char>, CachedEntryView>, path: Seq<char>, now: u64) -> bool {
    c.contains_key(path) && is_fresh(c[path], now)
}

/// The text of the answer when no route serves `path`.
pub open spec fn no_route_message(path: Seq<char>) -> Seq<char> {
    "No matching route for "@ + path
}

/// The state of a fetch of `path` just after route `i` was matched.
pub open spec fn fetch_started<O>(routes: Seq<Route<O>>, path: Seq<char>, if_none_match: Option<Seq<char>>, i: int, st: FetchStateView) -> bool {
    &&& st.path == path
    &&& st.if_none_match == if_none_match
    &&& st.route_index == i
    &&& st.relative_path == origin_request_path(relative_part(routes[i].path_prefix@, path))
    &&& st.next_origin == 0
    &&& st.last_error == Seq::<char>::empty()
}

pub struct CdnService<O> {
    pub router: Router<O>,
    pub cache: CdnCache,
}

fn copy_opt(o: Option<&str>) -> (r: Option<String>)
    ensures
        opt_view(r) == opt_str_view(o),
{
    match o {
        Some(s) => Some(copy_str(s)),
        None => None,
    }
}

fn as_opt_str(o: &Option<String>) -> (r: Option<&str>)
    ensures
        opt_str_view(r) == opt_view(*o),
{
    match o {
        Some(s) => Some(s.as_str()),
        None => None,
    }
}

impl<O> CdnService<O> {
    pub fn new(router: Router<O>, cache: CdnCache) -> (r: Self)
        ensures
            r.router@ == router@,
            r.cache@ == cache@,
    {
        CdnService { router, cache }
    }

    /// The step for the fetch in `st`.
    pub fn next_step(&self, st: &FetchState) -> (r: FetchStep)
        ensures
            r@ == pending_step(self.router@, st@),
    {
        if st.route_index < self.router.len() && st.next_origin < self.router.route(st.route_index).origins.len() {
            FetchStep::FetchOrigin {
                route_index: st.route_index,
                origin_index: st.next_origin,
                relative_path: st.relative_path.clone(),
            }
        } else {
            FetchStep::Done(FetchResult::NotFound(st.last_error.clone()))
        }
    }

    /// Starts serving a request for `path` at time `now`. A fresh cached
    /// response answers at once (`NotModified` when the client's tag matches
    /// its ETag); an expired one is dropped. Otherwise, without a route for the
    /// path the answer is `NotFound`; with one, the fetch starts at the route's
    /// first origin, asked for the part of the path after the prefix (`/` when
    /// that part is empty).
    pub fn start_fetch(&mut self, path: &str, if_none_match: Option<&str>, now: u64) -> (r: (FetchState, FetchStep))
        ensures
            final(self).router@ == old(self).router@,
            settled(old(self).cache, final(self).cache),
            final(self).cache@.submap_of(old(self).cache@),
            old(self).cache.within_capacity() ==> final(self).cache@ == (
                if old(self).cache@.contains_key(path@) && !is_fresh(old(self).cache@[path@], now) {
                    old(self).cache@.remove(path@)
                } else {
                    old(self).cache@
                }),
            fresh_hit(old(self).cache@, path@, now) ==> r.1@ == FetchStepView::Done(
                cached_answer(opt_str_view(if_none_match), old(self).cache@[path@].response),
            ),
            !fresh_hit(old(self).cache@, path@, now) && no_match(old(self).router@, path@)
                ==> r.1@ == FetchStepView::Done(FetchResultView::NotFound(no_route_message(path@))),
            !fresh_hit(old(self).cache@, path@, now) && !no_match(old(self).router@, path@) ==> {
                &&& exists|i: int| is_first_match(old(self).router@, path@, i)
                    && fetch_started(old(self).router@, path@, opt_str_view(if_none_match), i, r.0@)
                &&& r.1@ == pending_step(old(self).router@, r.0@)
            },
    {
        let inm = copy_opt(if_none_match);
        let empty_state = FetchState {
            path: copy_str(path),
            if_none_match: copy_opt(if_none_match),
            route_index: 0,
            relative_path: String::new(),
            next_origin: 0,
            last_error: String::new(),
        };
        match self.cache.get(path, now) {
            Some(cached) => {
                let c: &CachedResponse = &*cached;
                if etag_matches(if_none_match, c.etag.as_str()) {
                    (empty_state, FetchStep::Done(FetchResult::NotModified))
                } else {
                    (empty_state, FetchStep::Done(FetchResult::Cached(c.duplicate())))
                }
            }
            None => match self.router.match_index(path) {
                None => {
                    let lead = "No matching route for ";
                    let message = copy_str(lead).concat(path);
                    (empty_state, FetchStep::Done(FetchResult::NotFound(message)))
                }
                Some(i) => {
                    let rel = relative_path(self.router.route(i).path_prefix.as_str(), path);
                    let rel_owned = if rel.unicode_len() == 0 {
                        let root = "/";
                        proof {
                            reveal_strlit("/");
                            assert(root@ =~= seq!['/']);
                        }
                        copy_str(root)
                    } else {
                        copy_str(rel)
                    };
                    let st = FetchState {
                        path: copy_str(path),
                        if_none_match: inm,
                        route_index: i,
                        relative_path: rel_owned,
                        next_origin: 0,
                        last_error: String::new(),
                    };
                    let step = self.next_step(&st);
                    (st, step)
                }
            },
        }
    }

    /// Takes the outcome, at time `now`, of the origin fetch that the last step
    /// asked for. A response answers the request (`NotModified` when the
    /// client's tag matches its ETag) and, when the origin's TTL is not 0, is
    /// cached under the request path to expire that many seconds after `now`; a failure is recorded and the fetch moves to the
    /// next origin, or ends `NotFound` with that failure when none is left. A
    /// state that asks for no origin ends `NotFound` with its last failure.
    pub fn on_origin_result(&mut self, state: &mut FetchState, outcome: Result<OriginResponse, String>, now: u64) -> (r: FetchStep)
        ensures
            final(self).router@ == old(self).router@,
            final(self).cache.capacity() == old(self).cache.capacity(),
            final(self).cache.default_ttl() == old(self).cache.default_ttl(),
            ({
                let st = old(state)@;
                let routes = old(self).router@;
                if !(st.route_index < routes.len() && st.next_origin < routes[st.route_index as int].origins@.len()) {
                    &&& final(state)@ == st
                    &&& final(self).cache == old(self).cache
                    &&& r@ == FetchStepView::Done(FetchResultView::NotFound(st.last_error))
                } else {
                    match outcome {
                        Ok(resp) => {
                            let c = response_with_etag(resp@);
                            let ttl = routes[st.route_index as int].origins@[st.next_origin as int].cache_ttl;
                            &&& final(state)@ == st
                            &&& ttl > 0 ==> {
                                let e = CachedEntryView { response: c, expires_at: expiry_time(now, ttl) };
                                &&& final(self).cache@.submap_of(old(self).cache@.insert(st.path, e))
                                &&& old(self).cache.accounted() + 1 <= old(self).cache.capacity()
                                    ==> final(self).cache@ == old(self).cache@.insert(st.path, e)
                                &&& final(self).cache.accounted() <= old(self).cache.accounted() + 1
                            }
                            &&& ttl == 0 ==> final(self).cache == old(self).cache
                            &&& r@ == FetchStepView::Done(fresh_answer(st.if_none_match, c))
                        },
                        Err(msg) => {
                            &&& final(state)@ == FetchStateView {
                                last_error: msg@,
                                next_origin: (st.next_origin + 1) as usize,
                                ..st
                            }
                            &&& final(self).cache == old(self).cache
                            &&& r@ == pending_step(routes, final(state)@)
                        },
                    }
                }
            }),
    {
        let ri = state.route_index;
        let no = state.next_origin;
        if !(ri < self.router.len() && no < self.router.route(ri).origins.len()) {
            return FetchStep::Done(FetchResult::NotFound(state.last_error.clone()));
        }
        let ttl = self.router.route(ri).origins[no].cache_ttl;
        match outcome {
            Ok(resp) => {
                let etag = generate_etag(resp.body.as_slice());
                let c = CachedResponse {
                    body: resp.body,
                    content_type: resp.content_type,
                    etag,
                    headers: resp.headers,
                };
                if ttl > 0 {
                    self.cache.insert(state.path.clone(), c.duplicate(), Some(ttl), now);
                }
                if etag_matches(as_opt_str(&state.if_none_match), c.etag.as_str()) {
                    FetchStep::Done(FetchResult::NotModified)
                } else {
                    FetchStep::Done(FetchResult::Fresh(c))
                }
            },
            Err(msg) => {
                state.last_error = msg;
                state.next_origin = no + 1;
                self.next_step(state)
            },
        }
    }
}

/// The state of a fetch after origins failed with `errors`, in order.
pub open spec fn after_failures(st: FetchStateView, errors: Seq<Seq<char>>) -> FetchStateView
    decreases errors.len(),
{
    if errors.len() == 0 {
        st
    } else {
        let prev = after_failures(st, errors.drop_last());
        FetchStateView { last_error: errors.last(), next_origin: (prev.next_origin + 1) as usize, ..prev }
    }
}

/// Fallback: once the first origins of a route failed with `errors`, the
/// fetch asks for the next origin in the route's order, for the same path;
/// when every origin failed, the answer is `NotFound` with the last failure.
pub proof fn lemma_fallback_order<O>(routes: Seq<Route<O>>, start: FetchStateView, errors: Seq<Seq<char>>)
    requires
        start.route_index < routes.len(),
        start.next_origin == 0,
        errors.len() <= routes[start.route_index as int].origins@.len(),
        routes[start.route_index as int].origins@.len() <= usize::MAX,
    ensures
        after_failures(start, errors).next_origin == errors.len(),
        after_failures(start, errors).route_index == start.route_index,
        after_failures(start, errors).relative_path == start.relative_path,
        after_failures(start, errors).path == start.path,
        errors.len() < routes[start.route_index as int].origins@.len() ==> pending_step(routes, after_failures(start, errors))
            == (FetchStepView::FetchOrigin {
                route_index: start.route_index,
                origin_index: errors.len() as usize,
                relative_path: start.relative_path,
            }),
        0 < errors.len() == routes[start.route_index as int].origins@.len() ==> pending_step(routes, after_failures(start, errors))
            == FetchStepView::Done(FetchResultView::NotFound(errors.last())),
    decreases errors.len(),
{
    if errors.len() > 0 {
        lemma_fallback_order(routes, start, errors.drop_last());
    }
}

/// A miss, then a hit: once the response an origin gave for `path` at time
/// `now` was stored with a TTL above 0 (the cache then holding what it held
/// with that entry added, as `on_origin_result` leaves a cache with room), a
/// request for `path` at any time from `now` until the entry expires finds it
/// fresh and is answered from the cache with that response.
pub proof fn lemma_miss_then_hit(
    before: Map<Seq<char>, CachedEntryView>,
    path: Seq<char>,
    resp: OriginResponseView,
    ttl: u64,
    now: u64,
    later: u64,
    if_none_match: Option<Seq<char>>,
)
    requires
        ttl > 0,
        now <= later,
        later < expiry_time(now, ttl),
    ensures
        ({
            let after = before.insert(path, CachedEntryView { response: response_with_etag(resp), expires_at: expiry_time(now, ttl) });
            &&& fresh_hit(after, path, later)
            &&& cached_answer(if_none_match, after[path].response) == cached_answer(if_none_match, response_with_etag(resp))
        }),
        now < u64::MAX ==> now < expiry_time(now, ttl),
{
}

/// Revalidation compares tags: a response, cached or just fetched, is
/// answered `NotModified` exactly when the client sent a tag equal to the
/// response's ETag once `"` quotes are trimmed from both ends, and otherwise
/// with the response itself. For tags with no `"` in them, the client's
/// quoted tag matches exactly when the two tags are equal, so two different
/// ETags never match.
pub proof fn lemma_answer_compares_tags(if_none_match: Option<Seq<char>>, c: CachedResponseView, tag: Seq<char>)
    ensures
        (cached_answer(if_none_match, c) == FetchResultView::NotModified) <==> (match if_none_match {
            Some(e) => trim_quotes(e) == trim_quotes(c.etag),
            None => false,
        }),
        cached_answer(if_none_match, c) != FetchResultView::NotModified
            ==> cached_answer(if_none_match, c) == FetchResultView::Cached(c),
        (fresh_answer(if_none_match, c) == FetchResultView::NotModified) <==> (match if_none_match {
            Some(e) => trim_quotes(e) == trim_quotes(c.etag),
            None => false,
        }),
        fresh_answer(if_none_match, c) != FetchResultView::NotModified
            ==> fresh_answer(if_none_match, c) == FetchResultView::Fresh(c),
        (forall|i: int| 0 <= i < tag.len() ==> tag[i] != '"') && (forall|i: int| 0 <= i < c.etag.len() ==> c.etag[i] != '"')
            ==> ((cached_answer(Some(seq!['"'] + tag + seq!['"']), c) == FetchResultView::NotModified) <==> tag == c.etag),
{
    if (forall|i: int| 0 <= i < tag.len() ==> tag[i] != '"') && (forall|i: int| 0 <= i < c.etag.len() ==> c.etag[i] != '"') {
        if tag.len() > 0 {
            assert(tag[0] != '"' && tag.last() != '"');
        }
        if c.etag.len() > 0 {
            assert(c.etag[0] != '"' && c.etag.last() != '"');
        }
        crate::etag::lemma_trim_wrapped(tag);
        crate::etag::lemma_trim_unquoted(c.etag);
    }
}

/// The response answered and cached after a successful fetch is the
/// origin's response unchanged (its body, its content type and every header
/// line, in order) with the lowercase hex SHA-256 digest of the body as ETag.
pub proof fn lemma_fetched_response_unchanged(resp: OriginResponseView)
    ensures
        response_with_etag(resp).body == resp.body,
        response_with_etag(resp).content_type == resp.content_type,
        response_with_etag(resp).headers == resp.headers,
        response_with_etag(resp).etag == hex_lower(sha256_digest(resp.body)),
{
}

/// A client that sends back the quoted ETag of the response an origin gave is
/// answered `NotModified`.
pub proof fn lemma_revalidation_not_modified(resp: OriginResponseView)
    ensures
        fresh_answer(Some(seq!['"'] + response_with_etag(resp).etag + seq!['"']), response_with_etag(resp))
            == FetchResultView::NotModified,
        cached_answer(Some(seq!['"'] + response_with_etag(resp).etag + seq!['"']), response_with_etag(resp))
            == FetchResultView::NotModified,
{
    crate::etag::lemma_quoted_etag_matches(resp.body);
}

} // verus!
