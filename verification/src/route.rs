//! Routes from path prefixes to origins, and longest-prefix matching.

use vstd::prelude::*;
use crate::text::{has_prefix, str_eq, str_starts_with};

verus! {

/// One origin of a route, with the TTL its responses are cached for
/// (0: not cached). `O` is whatever designates the origin to the caller.
pub struct OriginEntry<O> {
    pub origin: O,
    pub cache_ttl: u64,
}

/// A path prefix and the origins that serve it, tried in order.
pub struct Route<O> {
    pub path_prefix: String,
    pub origins: Vec<OriginEntry<O>>,
}

/// The routes of a server, longest prefix first.
pub struct Router<O> {
    routes: Vec<Route<O>>,
}

/// The length in bytes of a string, as `str::len` gives it.
pub open spec fn byte_len(s: Seq<char>) -> usize {
    vstd::utf8::encode_utf8(s).len() as usize
}

/// The length in bytes of a route's prefix.
pub open spec fn route_len<O>(r: Route<O>) -> usize {
    byte_len(r.path_prefix@)
}

/// `output` is `input` sorted by prefix length, longest first, routes of equal
/// length keeping their order in `input` (a stable sort).
pub open spec fn stable_longest_first<O>(input: Seq<Route<O>>, output: Seq<Route<O>>) -> bool {
    exists|perm: Seq<int>| is_stable_sort_witness(input, output, perm)
}

/// `perm` maps each position of `output` to the position in `input` that the
/// route came from, and shows `output` to be the stable sort of `input`.
pub open spec fn is_stable_sort_witness<O>(input: Seq<Route<O>>, output: Seq<Route<O>>, perm: Seq<int>) -> bool {
    &&& output.len() == input.len()
    &&& perm.len() == output.len()
    &&& forall|k: int| 0 <= k < perm.len() ==> 0 <= #[trigger] perm[k] < input.len()
    &&& forall|k1: int, k2: int| 0 <= k1 < k2 < perm.len() ==> perm[k1] != perm[k2]
    &&& forall|j: int| 0 <= j < input.len() ==> #[trigger] perm.contains(j)
    &&& forall|k: int| 0 <= k < output.len() ==> #[trigger] output[k] == input[perm[k]]
    &&& forall|k1: int, k2: int| 0 <= k1 < k2 < output.len()
        ==> route_len(#[trigger] output[k1]) >= route_len(#[trigger] output[k2])
    &&& forall|k1: int, k2: int| 0 <= k1 < k2 < output.len()
        && route_len(#[trigger] output[k1]) == route_len(#[trigger] output[k2]) ==> perm[k1] < perm[k2]
}

/// A route with prefix `prefix` serves `path`: the path starts with the prefix,
/// or the prefix is `/`.
pub open spec fn prefix_matches(prefix: Seq<char>, path: Seq<char>) -> bool {
    has_prefix(path, prefix) || prefix == seq!['/']
}

/// The part of `path` that a route with prefix `prefix` hands to its origins:
/// the whole path for the prefix `/`, else what follows the prefix.
pub open spec fn relative_part(prefix: Seq<char>, path: Seq<char>) -> Seq<char> {
    if prefix == seq!['/'] {
        path
    } else {
        path.subrange(prefix.len() as int, path.len() as int)
    }
}

/// The prefix followed by the part handed to the origins gives back the
/// requested path, for any prefix but `/` that serves it.
pub proof fn lemma_relative_rebuilds_path(prefix: Seq<char>, path: Seq<char>)
    requires
        prefix_matches(prefix, path),
        prefix != seq!['/'],
    ensures
        prefix + relative_part(prefix, path) == path,
{
    assert(prefix + relative_part(prefix, path) =~= path);
}

/// `i` is the first route of `routes` that serves `path`.
pub open spec fn is_first_match<O>(routes: Seq<Route<O>>, path: Seq<char>, i: int) -> bool {
    &&& 0 <= i < routes.len()
    &&& prefix_matches(routes[i].path_prefix@, path)
    &&& forall|j: int| 0 <= j < i ==> !prefix_matches(#[trigger] routes[j].path_prefix@, path)
}

/// No route of `routes` serves `path`.
pub open spec fn no_match<O>(routes: Seq<Route<O>>, path: Seq<char>) -> bool {
    forall|j: int| 0 <= j < routes.len() ==> !prefix_matches(#[trigger] routes[j].path_prefix@, path)
}

/// Longest-prefix matching. Let `sorted` be the order a router built from
/// `input` matches in. When the first route of `sorted` that serves `path` is
/// at `i`, that route is a route of `input` that serves `path`, no route of
/// `input` serving `path` has a longer prefix, and every route of `input`
/// before it that serves `path` has a shorter prefix.
pub proof fn lemma_longest_prefix_wins<O>(input: Seq<Route<O>>, sorted: Seq<Route<O>>, path: Seq<char>, i: int)
    requires
        stable_longest_first(input, sorted),
        is_first_match(sorted, path, i),
    ensures
        exists|k: int| {
            &&& 0 <= k < input.len()
            &&& sorted[i] == input[k]
            &&& prefix_matches(input[k].path_prefix@, path)
            &&& forall|j: int| 0 <= j < input.len() && prefix_matches(#[trigger] input[j].path_prefix@, path)
                ==> route_len(input[j]) <= route_len(input[k])
            &&& forall|j: int| 0 <= j < k && prefix_matches(#[trigger] input[j].path_prefix@, path)
                ==> route_len(input[j]) < route_len(input[k])
        },
{
    let perm = choose|perm: Seq<int>| is_stable_sort_witness(input, sorted, perm);
    let k = perm[i];
    assert(sorted[i] == input[k]);
    assert forall|j: int| 0 <= j < input.len() && prefix_matches(#[trigger] input[j].path_prefix@, path)
        implies route_len(input[j]) <= route_len(input[k]) && (j < k ==> route_len(input[j]) < route_len(input[k])) by {
        assert(perm.contains(j));
        let m = choose|m: int| 0 <= m < perm.len() && #[trigger] perm[m] == j;
        assert(sorted[m] == input[j]);
        if m < i {
            assert(!prefix_matches(sorted[m].path_prefix@, path));
        } else if m > i {
            assert(route_len(sorted[i]) >= route_len(sorted[m]));
        }
    }
}

/// A router built from `input` finds no route for `path` exactly when no
/// route of `input` serves `path`.
pub proof fn lemma_no_match_iff<O>(input: Seq<Route<O>>, sorted: Seq<Route<O>>, path: Seq<char>)
    requires
        stable_longest_first(input, sorted),
    ensures
        no_match(sorted, path) <==> no_match(input, path),
{
    let perm = choose|perm: Seq<int>| is_stable_sort_witness(input, sorted, perm);
    if no_match(sorted, path) {
        assert forall|j: int| 0 <= j < input.len() implies !prefix_matches(#[trigger] input[j].path_prefix@, path) by {
            assert(perm.contains(j));
            let m = choose|m: int| 0 <= m < perm.len() && #[trigger] perm[m] == j;
            assert(sorted[m] == input[j]);
        }
    }
    if no_match(input, path) {
        assert forall|m: int| 0 <= m < sorted.len() implies !prefix_matches(#[trigger] sorted[m].path_prefix@, path) by {
            assert(sorted[m] == input[perm[m]]);
        }
    }
}

proof fn lemma_encode_len_concat(p: Seq<char>, q: Seq<char>)
    ensures
        vstd::utf8::encode_utf8(p + q).len() == vstd::utf8::encode_utf8(p).len() + vstd::utf8::encode_utf8(q).len(),
    decreases p.len(),
{
    if p.len() > 0 {
        assert((p + q).drop_first() =~= p.drop_first() + q);
        assert((p + q)[0] == p[0]);
        lemma_encode_len_concat(p.drop_first(), q);
    } else {
        assert(p + q =~= q);
    }
}

proof fn lemma_encode_len_at_least(s: Seq<char>)
    ensures
        vstd::utf8::encode_utf8(s).len() >= s.len(),
    decreases s.len(),
{
    if s.len() > 0 {
        lemma_encode_len_at_least(s.drop_first());
        assert(vstd::utf8::encode_scalar(s[0] as u32).len() >= 1);
    }
}

proof fn lemma_root_is_one_byte()
    ensures
        vstd::utf8::encode_utf8(seq!['/']).len() == 1,
{
    assert(seq!['/'].drop_first() =~= Seq::<char>::empty());
    assert(vstd::utf8::has_width_1_encoding('/' as u32));
    assert(vstd::utf8::encode_scalar('/' as u32).len() == 1);
    let r = seq!['/'];
    assert(r[0] == '/');
    assert(vstd::utf8::encode_utf8(r.drop_first()).len() == 0);
    assert(vstd::utf8::encode_utf8(r) == vstd::utf8::encode_scalar(r[0] as u32) + vstd::utf8::encode_utf8(r.drop_first()));
}

/// Two prefixes that both serve `path` and have the same length in bytes are
/// the same prefix, when a one-byte prefix can only be `/`.
proof fn lemma_same_length_matches_are_equal(p: Seq<char>, q: Seq<char>, path: Seq<char>)
    requires
        prefix_matches(p, path),
        prefix_matches(q, path),
        vstd::utf8::encode_utf8(p).len() == vstd::utf8::encode_utf8(q).len(),
        p != seq!['/'] ==> vstd::utf8::encode_utf8(p).len() != 1,
        q != seq!['/'] ==> vstd::utf8::encode_utf8(q).len() != 1,
    ensures
        p == q,
{
    lemma_root_is_one_byte();
    if p == seq!['/'] || q == seq!['/'] {
    } else if p.len() == q.len() {
        assert(p =~= path.subrange(0, p.len() as int));
        assert(q =~= path.subrange(0, q.len() as int));
    } else if p.len() < q.len() {
        let rest = q.subrange(p.len() as int, q.len() as int);
        assert(p =~= q.subrange(0, p.len() as int)) by {
            assert forall|k: int| 0 <= k < p.len() implies p[k] == q[k] by {
                assert(p[k] == path[k]);
                assert(q[k] == path[k]);
            }
        }
        assert(q =~= p + rest);
        lemma_encode_len_concat(p, rest);
        lemma_encode_len_at_least(rest);
    } else {
        let rest = p.subrange(q.len() as int, p.len() as int);
        assert(q =~= p.subrange(0, q.len() as int)) by {
            assert forall|k: int| 0 <= k < q.len() implies p[k] == q[k] by {
                assert(p[k] == path[k]);
                assert(q[k] == path[k]);
            }
        }
        assert(p =~= q + rest);
        lemma_encode_len_concat(q, rest);
        lemma_encode_len_at_least(rest);
    }
}

/// Some route serves `path` exactly when there is a first such route.
pub proof fn lemma_first_match_exists<O>(routes: Seq<Route<O>>, path: Seq<char>)
    ensures
        !no_match(routes, path) <==> exists|i: int| is_first_match(routes, path, i),
    decreases routes.len(),
{
    if routes.len() > 0 {
        let last = routes.len() - 1;
        let init = routes.drop_last();
        lemma_first_match_exists(init, path);
        if !no_match(routes, path) {
            if no_match(init, path) {
                assert forall|j: int| 0 <= j < last implies !prefix_matches(#[trigger] routes[j].path_prefix@, path) by {
                    assert(routes[j] == init[j]);
                }
                assert(is_first_match(routes, path, last));
            } else {
                let i = choose|i: int| is_first_match(init, path, i);
                assert forall|j: int| 0 <= j < i implies !prefix_matches(#[trigger] routes[j].path_prefix@, path) by {
                    assert(routes[j] == init[j]);
                }
                assert(routes[i] == init[i]);
                assert(is_first_match(routes, path, i));
            }
        }
    }
}

/// Each route of `a` is also a route of `b`.
pub open spec fn routes_within<O>(a: Seq<Route<O>>, b: Seq<Route<O>>) -> bool {
    forall|i: int| 0 <= i < a.len() ==> #[trigger] b.contains(a[i])
}

/// Routing does not depend on the order of the configured routes. Take two
/// lists holding the same routes, where no two routes share a prefix and only
/// `/` is a one-byte prefix; for every path, routers built from the two lists
/// both find no route, or both pick routes with the same prefix (and so hand
/// the same part of the path to their origins).
pub proof fn lemma_route_order_irrelevant<O>(
    input1: Seq<Route<O>>,
    input2: Seq<Route<O>>,
    sorted1: Seq<Route<O>>,
    sorted2: Seq<Route<O>>,
    path: Seq<char>,
)
    requires
        stable_longest_first(input1, sorted1),
        stable_longest_first(input2, sorted2),
        routes_within(input1, input2),
        routes_within(input2, input1),
        forall|i: int, j: int| 0 <= i < j < input1.len()
            ==> (#[trigger] input1[i]).path_prefix@ != (#[trigger] input1[j]).path_prefix@,
        forall|i: int| 0 <= i < input1.len() && (#[trigger] input1[i]).path_prefix@ != seq!['/']
            ==> vstd::utf8::encode_utf8(input1[i].path_prefix@).len() != 1,
        forall|i: int| 0 <= i < input1.len()
            ==> vstd::utf8::encode_utf8((#[trigger] input1[i]).path_prefix@).len() <= usize::MAX,
    ensures
        no_match(sorted1, path) <==> no_match(sorted2, path),
        forall|i1: int, i2: int| is_first_match(sorted1, path, i1) && is_first_match(sorted2, path, i2)
            ==> sorted1[i1].path_prefix@ == sorted2[i2].path_prefix@,
{
    lemma_no_match_iff(input1, sorted1, path);
    lemma_no_match_iff(input2, sorted2, path);
    if no_match(input1, path) && !no_match(input2, path) {
        let j = choose|j: int| 0 <= j < input2.len() && prefix_matches(#[trigger] input2[j].path_prefix@, path);
        assert(input1.contains(input2[j]));
        let k = choose|k: int| 0 <= k < input1.len() && input1[k] == input2[j];
        assert(prefix_matches(input1[k].path_prefix@, path));
    }
    if no_match(input2, path) && !no_match(input1, path) {
        let j = choose|j: int| 0 <= j < input1.len() && prefix_matches(#[trigger] input1[j].path_prefix@, path);
        assert(input2.contains(input1[j]));
        let k = choose|k: int| 0 <= k < input2.len() && input2[k] == input1[j];
        assert(prefix_matches(input2[k].path_prefix@, path));
    }
    assert forall|i1: int, i2: int| is_first_match(sorted1, path, i1) && is_first_match(sorted2, path, i2)
        implies sorted1[i1].path_prefix@ == sorted2[i2].path_prefix@ by {
        lemma_longest_prefix_wins(input1, sorted1, path, i1);
        lemma_longest_prefix_wins(input2, sorted2, path, i2);
        let k1 = choose|k: int| {
            &&& 0 <= k < input1.len()
            &&& sorted1[i1] == input1[k]
            &&& prefix_matches(input1[k].path_prefix@, path)
            &&& forall|j: int| 0 <= j < input1.len() && prefix_matches(#[trigger] input1[j].path_prefix@, path)
                ==> route_len(input1[j]) <= route_len(input1[k])
            &&& forall|j: int| 0 <= j < k && prefix_matches(#[trigger] input1[j].path_prefix@, path)
                ==> route_len(input1[j]) < route_len(input1[k])
        };
        let k2 = choose|k: int| {
            &&& 0 <= k < input2.len()
            &&& sorted2[i2] == input2[k]
            &&& prefix_matches(input2[k].path_prefix@, path)
            &&& forall|j: int| 0 <= j < input2.len() && prefix_matches(#[trigger] input2[j].path_prefix@, path)
                ==> route_len(input2[j]) <= route_len(input2[k])
            &&& forall|j: int| 0 <= j < k && prefix_matches(#[trigger] input2[j].path_prefix@, path)
                ==> route_len(input2[j]) < route_len(input2[k])
        };
        assert(input2.contains(input1[k1]));
        let a = choose|a: int| 0 <= a < input2.len() && input2[a] == input1[k1];
        assert(input1.contains(input2[k2]));
        let b = choose|b: int| 0 <= b < input1.len() && input1[b] == input2[k2];
        assert(prefix_matches(input2[a].path_prefix@, path));
        assert(prefix_matches(input1[b].path_prefix@, path));
        assert(route_len(input1[k1]) == route_len(input1[b]));
        let p = input1[k1].path_prefix@;
        let q = input1[b].path_prefix@;
        assert(vstd::utf8::encode_utf8(p).len() <= usize::MAX);
        assert(vstd::utf8::encode_utf8(q).len() <= usize::MAX);
        assert(vstd::utf8::encode_utf8(p).len() == vstd::utf8::encode_utf8(q).len());
        lemma_same_length_matches_are_equal(p, q, path);
    }
}

impl<O> View for Router<O> {
    type V = Seq<Route<O>>;

    closed spec fn view(&self) -> Seq<Route<O>> {
        self.routes@
    }
}

/// Whether `s` is exactly `/`.
fn is_root_prefix(s: &str) -> (r: bool)
    ensures
        r == (s@ == seq!['/']),
{
    let root = "/";
    proof {
        reveal_strlit("/");
        assert(root@ =~= seq!['/']);
    }
    str_eq(s, root)
}

/// The part of `path` that the route with prefix `prefix` hands to its
/// origins: the whole path for the prefix `/`, else what follows the prefix.
pub fn relative_path<'a>(prefix: &str, path: &'a str) -> (r: &'a str)
    requires
        prefix_matches(prefix@, path@),
    ensures
        r@ == relative_part(prefix@, path@),
{
    if is_root_prefix(prefix) {
        path
    } else {
        let plen = prefix.unicode_len();
        let total = path.unicode_len();
        path.substring_char(plen, total)
    }
}

impl<O> Router<O> {
    /// Builds a router, ordering the routes by prefix length in bytes, longest
    /// first; routes of equal length keep their given order.
    pub fn new(routes: Vec<Route<O>>) -> (r: Self)
        ensures
            stable_longest_first(routes@, r@),
    {
        let ghost orig = routes@;
        let n = routes.len();
        let mut input = routes;
        let mut out: Vec<Route<O>> = Vec::new();
        let ghost mut perm: Seq<int> = Seq::empty();
        let mut i: usize = n;
        while i > 0
            invariant
                n == orig.len(),
                i <= n,
                input@ == orig.subrange(0, i as int),
                out@.len() == n - i,
                perm.len() == out@.len(),
                forall|k: int| 0 <= k < perm.len() ==> i <= #[trigger] perm[k] < n,
                forall|k1: int, k2: int| 0 <= k1 < k2 < perm.len() ==> perm[k1] != perm[k2],
                forall|j: int| i <= j < n ==> #[trigger] perm.contains(j),
                forall|k: int| 0 <= k < out@.len() ==> #[trigger] out@[k] == orig[perm[k]],
                forall|k1: int, k2: int| 0 <= k1 < k2 < out@.len()
                    ==> route_len(#[trigger] out@[k1]) >= route_len(#[trigger] out@[k2]),
                forall|k1: int, k2: int| 0 <= k1 < k2 < out@.len()
                    && route_len(#[trigger] out@[k1]) == route_len(#[trigger] out@[k2]) ==> perm[k1] < perm[k2],
            decreases i,
        {
            let x = input.pop().unwrap();
            assert(x == orig[i - 1]);
            let len = x.path_prefix.as_str().len();
            let m = out.len();
            let mut p: usize = 0;
            while p < m && out[p].path_prefix.as_str().len() > len
                invariant
                    m == out@.len(),
                    p <= m,
                    len == route_len(x),
                    forall|k: int| 0 <= k < p ==> route_len(#[trigger] out@[k]) > len,
                decreases m - p,
            {
                p = p + 1;
            }
            let ghost old_out = out@;
            let ghost old_perm = perm;
            out.insert(p, x);
            proof {
                perm = old_perm.insert(p as int, i - 1);
                assert forall|k1: int, k2: int| 0 <= k1 < k2 < out@.len()
                    implies route_len(#[trigger] out@[k1]) >= route_len(#[trigger] out@[k2]) by {
                    if k1 < p && k2 == p {
                    } else if k1 == p {
                        assert(out@[k2] == old_out[k2 - 1]);
                        if p < m {
                            assert(route_len(old_out[p as int]) <= len);
                            if k2 - 1 > p {
                                assert(route_len(old_out[p as int]) >= route_len(old_out[k2 - 1]));
                            }
                        }
                    } else if k2 < p {
                    } else if k1 < p {
                        assert(out@[k2] == old_out[k2 - 1]);
                    } else {
                        assert(out@[k1] == old_out[k1 - 1]);
                        assert(out@[k2] == old_out[k2 - 1]);
                    }
                }
                assert forall|k1: int, k2: int| 0 <= k1 < k2 < out@.len()
                    && route_len(#[trigger] out@[k1]) == route_len(#[trigger] out@[k2]) implies perm[k1] < perm[k2] by {
                    if k1 < p && k2 == p {
                        assert(route_len(old_out[k1]) > len);
                    } else if k1 == p {
                        assert(perm[k2] == old_perm[k2 - 1]);
                    } else if k2 < p {
                    } else if k1 < p {
                        assert(perm[k2] == old_perm[k2 - 1]);
                        assert(out@[k2] == old_out[k2 - 1]);
                    } else {
                        assert(out@[k1] == old_out[k1 - 1]);
                        assert(out@[k2] == old_out[k2 - 1]);
                    }
                }
                assert forall|k: int| 0 <= k < out@.len() implies #[trigger] out@[k] == orig[perm[k]] by {
                    if k < p {
                    } else if k == p {
                    } else {
                        assert(out@[k] == old_out[k - 1]);
                    }
                }
                assert forall|k: int| 0 <= k < perm.len() implies i - 1 <= #[trigger] perm[k] < n by {
                    if k > p {
                        assert(perm[k] == old_perm[k - 1]);
                    }
                }
                assert forall|k1: int, k2: int| 0 <= k1 < k2 < perm.len() implies perm[k1] != perm[k2] by {
                    if k1 == p {
                        assert(perm[k2] == old_perm[k2 - 1]);
                    } else if k2 == p {
                    } else if k1 > p {
                        assert(perm[k1] == old_perm[k1 - 1]);
                        assert(perm[k2] == old_perm[k2 - 1]);
                    } else if k2 > p {
                        assert(perm[k2] == old_perm[k2 - 1]);
                    }
                }
                assert forall|j: int| i - 1 <= j < n implies #[trigger] perm.contains(j) by {
                    if j == i - 1 {
                        assert(perm[p as int] == j);
                    } else {
                        assert(old_perm.contains(j));
                        let k0 = choose|k: int| 0 <= k < old_perm.len() && #[trigger] old_perm[k] == j;
                        if k0 < p {
                            assert(perm[k0] == j);
                        } else {
                            assert(perm[k0 + 1] == j);
                        }
                    }
                }
                assert(input@ =~= orig.subrange(0, i - 1));
            }
            i = i - 1;
        }
        proof {
            assert(is_stable_sort_witness(orig, out@, perm));
        }
        Router { routes: out }
    }

    /// The number of routes.
    pub fn len(&self) -> (r: usize)
        ensures
            r == self@.len(),
    {
        self.routes.len()
    }

    /// The route at position `i` in matching order.
    pub fn route(&self, i: usize) -> (r: &Route<O>)
        requires
            i < self@.len(),
        ensures
            *r == self@[i as int],
    {
        &self.routes[i]
    }

    /// The position of the first route, in matching order, that serves `path`.
    pub fn match_index(&self, path: &str) -> (r: Option<usize>)
        ensures
            match r {
                Some(i) => is_first_match(self@, path@, i as int),
                None => no_match(self@, path@),
            },
    {
        let n = self.routes.len();
        let mut i: usize = 0;
        while i < n
            invariant
                n == self@.len(),
                i <= n,
                forall|j: int| 0 <= j < i ==> !prefix_matches(#[trigger] self@[j].path_prefix@, path@),
            decreases n - i,
        {
            let prefix = self.routes[i].path_prefix.as_str();
            if str_starts_with(path, prefix) || is_root_prefix(prefix) {
                return Some(i);
            }
            i = i + 1;
        }
        None
    }

    /// Finds the route for `path`: the first, in matching order, whose prefix
    /// starts the path or is `/`; also gives the part of the path after the
    /// prefix (the whole path for the prefix `/`).
    pub fn match_route<'a>(&'a self, path: &'a str) -> (r: Option<(&'a Route<O>, &'a str)>)
        ensures
            match r {
                Some((route, rel)) => exists|i: int| is_first_match(self@, path@, i)
                    && *route == self@[i] && rel@ == relative_part(self@[i].path_prefix@, path@),
                None => no_match(self@, path@),
            },
    {
        match self.match_index(path) {
            None => None,
            Some(i) => {
                let route = &self.routes[i];
                let rel = relative_path(route.path_prefix.as_str(), path);
                Some((route, rel))
            }
        }
    }
}

} // verus!
