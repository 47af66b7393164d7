//! Assembling the router from the configured origins.

use vstd::prelude::*;
use crate::config::{OriginConfig, origin_path, origin_ttl};
use crate::route::{OriginEntry, Route, Router, stable_longest_first};
use crate::text::{copy_str, str_eq};

verus! {

/// `grouped` holds one route per distinct origin path of `configs`, ordered by
/// where each path first occurs; each route lists, in configuration order, all
/// the origins configured for its path, each designated by its position in
/// `configs` and carrying its TTL.
pub open spec fn groups_by_path(configs: Seq<OriginConfig>, grouped: Seq<Route<usize>>) -> bool {
    &&& forall|k: int| 0 <= k < grouped.len() ==> (#[trigger] grouped[k]).origins@.len() > 0
    &&& forall|k1: int, k2: int| 0 <= k1 < k2 < grouped.len()
        ==> (#[trigger] grouped[k1]).path_prefix@ != (#[trigger] grouped[k2]).path_prefix@
    &&& forall|k: int, e: int| 0 <= k < grouped.len() && 0 <= e < grouped[k].origins@.len() ==> {
        let entry = #[trigger] grouped[k].origins@[e];
        &&& entry.origin < configs.len()
        &&& origin_path(configs[entry.origin as int]) == grouped[k].path_prefix@
        &&& entry.cache_ttl == origin_ttl(configs[entry.origin as int])
    }
    &&& forall|k: int, e1: int, e2: int| 0 <= k < grouped.len() && 0 <= e1 < e2 < grouped[k].origins@.len()
        ==> (#[trigger] grouped[k].origins@[e1]).origin < (#[trigger] grouped[k].origins@[e2]).origin
    &&& forall|i: int| 0 <= i < configs.len() ==> #[trigger] configured_in(grouped, i)
    &&& forall|k1: int, k2: int| 0 <= k1 < k2 < grouped.len()
        ==> (#[trigger] grouped[k1]).origins@[0].origin < (#[trigger] grouped[k2]).origins@[0].origin
}

/// The origin at position `i` of the configuration appears in some route.
pub open spec fn configured_in(grouped: Seq<Route<usize>>, i: int) -> bool {
    exists|k: int, e: int| 0 <= k < grouped.len() && 0 <= e < grouped[k].origins@.len()
        && (#[trigger] grouped[k].origins@[e]).origin == i
}

/// Groups the configured origins by path, in the order the paths first occur,
/// each route trying its origins in configuration order; an origin is
/// designated by its position in `origins`. The router then orders the routes
/// longest prefix first.
pub fn build_router(origins: &Vec<OriginConfig>) -> (r: Router<usize>)
    ensures
        exists|grouped: Seq<Route<usize>>| groups_by_path(origins@, grouped) && stable_longest_first(grouped, r@),
{
    let n = origins.len();
    let mut grouped: Vec<Route<usize>> = Vec::new();
    let mut i: usize = 0;
    while i < n
        invariant
            n == origins@.len(),
            i <= n,
            groups_by_path(origins@.subrange(0, i as int), grouped@),
        decreases n - i,
    {
        let ghost prefix = origins@.subrange(0, i as int);
        let ghost next = origins@.subrange(0, i + 1);
        let path = origins[i].path();
        let entry = OriginEntry { origin: i, cache_ttl: origins[i].cache_ttl() };
        let m = grouped.len();
        let mut k: usize = 0;
        while k < m && !str_eq(grouped[k].path_prefix.as_str(), path)
            invariant
                m == grouped@.len(),
                k <= m,
                forall|j: int| 0 <= j < k ==> (#[trigger] grouped@[j]).path_prefix@ != path@,
            decreases m - k,
        {
            k = k + 1;
        }
        let ghost old_grouped = grouped@;
        proof {
            assert forall|h: int| 0 <= h < i implies next[h] == prefix[h] by {}
        }
        if k < m {
            let mut route = grouped.remove(k);
            let ghost old_origins = route.origins@;
            route.origins.push(entry);
            grouped.insert(k, route);
            proof {
                assert(grouped@ =~= old_grouped.update(k as int, grouped@[k as int]));
                assert forall|kk: int, e: int| 0 <= kk < grouped@.len() && 0 <= e < grouped@[kk].origins@.len() implies {
                    let en = #[trigger] grouped@[kk].origins@[e];
                    &&& en.origin < next.len()
                    &&& origin_path(next[en.origin as int]) == grouped@[kk].path_prefix@
                    &&& en.cache_ttl == origin_ttl(next[en.origin as int])
                } by {
                    if kk == k && e == old_origins.len() {
                    } else {
                        let en = old_grouped[kk].origins@[e];
                        assert(en.origin < prefix.len());
                    }
                }
                assert forall|kk: int, e1: int, e2: int| 0 <= kk < grouped@.len() && 0 <= e1 < e2 < grouped@[kk].origins@.len()
                    implies (#[trigger] grouped@[kk].origins@[e1]).origin < (#[trigger] grouped@[kk].origins@[e2]).origin by {
                    if kk == k && e2 == old_origins.len() {
                        let en = old_grouped[kk].origins@[e1];
                        assert(en.origin < prefix.len());
                    } else {
                        assert(old_grouped[kk].origins@[e1] == grouped@[kk].origins@[e1]);
                        assert(old_grouped[kk].origins@[e2] == grouped@[kk].origins@[e2]);
                    }
                }
                assert forall|h: int| 0 <= h < next.len() implies #[trigger] configured_in(grouped@, h) by {
                    if h == i {
                        assert(grouped@[k as int].origins@[old_origins.len() as int].origin == h);
                    } else {
                        assert(configured_in(old_grouped, h));
                        let (k0, e0) = choose|k0: int, e0: int| 0 <= k0 < old_grouped.len() && 0 <= e0 < old_grouped[k0].origins@.len()
                            && (#[trigger] old_grouped[k0].origins@[e0]).origin == h;
                        assert(grouped@[k0].origins@[e0] == old_grouped[k0].origins@[e0]);
                    }
                }
                assert forall|k1: int, k2: int| 0 <= k1 < k2 < grouped@.len()
                    implies (#[trigger] grouped@[k1]).origins@[0].origin < (#[trigger] grouped@[k2]).origins@[0].origin by {
                    assert(old_grouped[k1].origins@[0] == grouped@[k1].origins@[0]);
                    assert(old_grouped[k2].origins@[0] == grouped@[k2].origins@[0]);
                }
                assert forall|k1: int, k2: int| 0 <= k1 < k2 < grouped@.len()
                    implies (#[trigger] grouped@[k1]).path_prefix@ != (#[trigger] grouped@[k2]).path_prefix@ by {
                    assert(old_grouped[k1].path_prefix == grouped@[k1].path_prefix);
                    assert(old_grouped[k2].path_prefix == grouped@[k2].path_prefix);
                }
                assert(groups_by_path(next, grouped@));
            }
        } else {
            let mut entries: Vec<OriginEntry<usize>> = Vec::new();
            entries.push(entry);
            let route = Route { path_prefix: copy_str(path), origins: entries };
            grouped.push(route);
            proof {
                assert forall|kk: int, e: int| 0 <= kk < grouped@.len() && 0 <= e < grouped@[kk].origins@.len() implies {
                    let en = #[trigger] grouped@[kk].origins@[e];
                    &&& en.origin < next.len()
                    &&& origin_path(next[en.origin as int]) == grouped@[kk].path_prefix@
                    &&& en.cache_ttl == origin_ttl(next[en.origin as int])
                } by {
                    if kk < m {
                        let en = old_grouped[kk].origins@[e];
                        assert(en.origin < prefix.len());
                    }
                }
                assert forall|h: int| 0 <= h < next.len() implies #[trigger] configured_in(grouped@, h) by {
                    if h == i {
                        assert(grouped@[m as int].origins@[0].origin == h);
                    } else {
                        assert(configured_in(old_grouped, h));
                        let (k0, e0) = choose|k0: int, e0: int| 0 <= k0 < old_grouped.len() && 0 <= e0 < old_grouped[k0].origins@.len()
                            && (#[trigger] old_grouped[k0].origins@[e0]).origin == h;
                        assert(grouped@[k0] == old_grouped[k0]);
                    }
                }
                assert forall|k1: int, k2: int| 0 <= k1 < k2 < grouped@.len()
                    implies (#[trigger] grouped@[k1]).origins@[0].origin < (#[trigger] grouped@[k2]).origins@[0].origin by {
                    if k2 == m {
                        let en = old_grouped[k1].origins@[0];
                        assert(en.origin < prefix.len());
                    }
                }
                assert(groups_by_path(next, grouped@));
            }
        }
        i = i + 1;
    }
    proof {
        assert(origins@.subrange(0, n as int) =~= origins@);
    }
    let ghost g = grouped@;
    let r = Router::new(grouped);
    assert(groups_by_path(origins@, g) && stable_longest_first(g, r@));
    r
}

} // verus!
