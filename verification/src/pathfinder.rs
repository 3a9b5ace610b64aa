//! Cycle enumeration over the swap graph.
//!
//! Each pool contributes two directed edges (token0 to token1 and back).
//! The finder enumerates simple cycles that start and end at the base
//! token, visit no pool twice and no intermediate token equal to the base,
//! with an edge count between 2 and the hop bound.  Pools are explored in
//! index order and the token0-to-token1 direction first, so the result
//! order is deterministic for a given snapshot.

use vstd::prelude::*;
use crate::addr::Addr;
use crate::store::spec_views;
use crate::types::{Pool, PoolView};

verus! {

/// One directed edge of a candidate path: a pool and a direction
/// (`zero_for_one` true means token0 in, token1 out).
#[derive(PartialEq, Eq, Structural, Clone, Copy, Debug)]
pub struct PathEdge {
    pub pool_index: usize,
    pub zero_for_one: bool,
}

/// An ordered sequence of directed pool edges forming a cycle through the
/// base token.  Constructed fresh per search, immutable afterwards.
#[derive(Debug)]
pub struct ArbPath {
    pub edges: Vec<PathEdge>,
}

impl View for ArbPath {
    type V = Seq<PathEdge>;

    open spec fn view(&self) -> Seq<PathEdge> {
        self.edges@
    }
}

/// The token an edge consumes.
pub open spec fn spec_edge_token_in(pools: Seq<PoolView>, e: PathEdge) -> Addr {
    if e.zero_for_one {
        pools[e.pool_index as int].token0.address
    } else {
        pools[e.pool_index as int].token1.address
    }
}

/// The token an edge delivers.
pub open spec fn spec_edge_token_out(pools: Seq<PoolView>, e: PathEdge) -> Addr {
    if e.zero_for_one {
        pools[e.pool_index as int].token1.address
    } else {
        pools[e.pool_index as int].token0.address
    }
}

/// A well-formed simple cycle through `base`: every edge names a tracked
/// pool, no pool repeats, consecutive edges hand the token on, the first
/// edge consumes `base`, the last delivers it, no intermediate token is
/// `base`, and the edge count lies in `[2, max_hops]`.
pub open spec fn spec_valid_cycle(
    pools: Seq<PoolView>,
    base: Addr,
    max_hops: int,
    edges: Seq<PathEdge>,
) -> bool {
    &&& 2 <= edges.len() <= max_hops
    &&& forall|i: int| 0 <= i < edges.len() ==> (#[trigger] edges[i]).pool_index < pools.len()
    &&& forall|i: int, j: int|
        0 <= i < j < edges.len() ==> (#[trigger] edges[i]).pool_index != (
        #[trigger] edges[j]).pool_index
    &&& spec_edge_token_in(pools, edges[0]) == base
    &&& forall|i: int|
        0 <= i < edges.len() - 1 ==> spec_edge_token_out(pools, #[trigger] edges[i])
            == spec_edge_token_in(pools, edges[i + 1])
    &&& spec_edge_token_out(pools, edges[edges.len() - 1]) == base
    &&& forall|i: int|
        0 <= i < edges.len() - 1 ==> spec_edge_token_out(pools, #[trigger] edges[i]) != base
}

/// A well-formed open path from `base` to `cur`: the invariant the search
/// maintains while extending a candidate.
pub open spec fn spec_valid_prefix(
    pools: Seq<PoolView>,
    base: Addr,
    edges: Seq<PathEdge>,
    cur: Addr,
) -> bool {
    &&& forall|i: int| 0 <= i < edges.len() ==> (#[trigger] edges[i]).pool_index < pools.len()
    &&& forall|i: int, j: int|
        0 <= i < j < edges.len() ==> (#[trigger] edges[i]).pool_index != (
        #[trigger] edges[j]).pool_index
    &&& (edges.len() == 0 ==> cur == base)
    &&& (edges.len() > 0 ==> spec_edge_token_in(pools, edges[0]) == base)
    &&& forall|i: int|
        0 <= i < edges.len() - 1 ==> spec_edge_token_out(pools, #[trigger] edges[i])
            == spec_edge_token_in(pools, edges[i + 1])
    &&& (edges.len() > 0 ==> spec_edge_token_out(pools, edges[edges.len() - 1]) == cur)
    &&& forall|i: int|
        0 <= i < edges.len() ==> spec_edge_token_out(pools, #[trigger] edges[i]) != base
}

/// Whether some edge of `edges` already uses pool `idx`.
pub open spec fn spec_uses_pool(edges: Seq<PathEdge>, idx: int) -> bool {
    exists|i: int| 0 <= i < edges.len() && (#[trigger] edges[i]).pool_index == idx
}

/// What the search emits when it considers edge `e` at the end of
/// `prefix`: the one finished cycle when the edge returns to base and the
/// path is long enough, the whole subtree below the edge when the path can
/// still grow, and nothing otherwise.
pub open spec fn spec_try(
    pools: Seq<PoolView>,
    base: Addr,
    max_hops: int,
    prefix: Seq<PathEdge>,
    e: PathEdge,
) -> Seq<Seq<PathEdge>>
    decreases max_hops - prefix.len(), 0int, 0int,
    when prefix.len() < max_hops
{
    let next = spec_edge_token_out(pools, e);
    if next == base {
        if prefix.len() + 1 >= 2 {
            seq![prefix.push(e)]
        } else {
            Seq::empty()
        }
    } else if prefix.len() + 1 < max_hops {
        spec_scan(pools, base, max_hops, next, prefix.push(e), 0)
    } else {
        Seq::empty()
    }
}

/// The cycles the search emits while walking the pools from `p_idx` up,
/// in index order with the token0-to-token1 direction first: the exact
/// enumeration order of the search.
pub open spec fn spec_scan(
    pools: Seq<PoolView>,
    base: Addr,
    max_hops: int,
    cur: Addr,
    prefix: Seq<PathEdge>,
    p_idx: int,
) -> Seq<Seq<PathEdge>>
    decreases max_hops - prefix.len(), pools.len() - p_idx, 1int,
    when 0 <= p_idx <= pools.len() && prefix.len() < max_hops
{
    if p_idx >= pools.len() {
        Seq::empty()
    } else {
        let e0 = PathEdge { pool_index: p_idx as usize, zero_for_one: true };
        let e1 = PathEdge { pool_index: p_idx as usize, zero_for_one: false };
        let c0 = if !spec_uses_pool(prefix, p_idx) && spec_edge_token_in(pools, e0) == cur {
            spec_try(pools, base, max_hops, prefix, e0)
        } else {
            Seq::empty()
        };
        let c1 = if !spec_uses_pool(prefix, p_idx) && spec_edge_token_in(pools, e1) == cur {
            spec_try(pools, base, max_hops, prefix, e1)
        } else {
            Seq::empty()
        };
        c0 + c1 + spec_scan(pools, base, max_hops, cur, prefix, p_idx + 1)
    }
}

/// The full search result: every simple cycle through `base` with between
/// 2 and `max_hops` edges, in discovery order.
pub open spec fn spec_find_paths(pools: Seq<PoolView>, base: Addr, max_hops: int) -> Seq<
    Seq<PathEdge>,
> {
    if max_hops < 2 {
        Seq::empty()
    } else {
        spec_scan(pools, base, max_hops, base, Seq::empty(), 0)
    }
}

/// The edge lists of a path sequence, in order.
pub open spec fn spec_path_views(paths: Seq<ArbPath>) -> Seq<Seq<PathEdge>> {
    paths.map_values(|p: ArbPath| p@)
}

/// Whether some edge of `edges` already uses pool `idx`.
fn edges_use_pool(edges: &Vec<PathEdge>, idx: usize) -> (r: bool)
    ensures
        r == spec_uses_pool(edges@, idx as int),
{
    let mut i: usize = 0;
    while i < edges.len()
        invariant
            i <= edges.len(),
            forall|j: int| 0 <= j < i ==> (#[trigger] edges@[j]).pool_index != idx,
        decreases edges.len() - i,
    {
        if edges[i].pool_index == idx {
            return true;
        }
        i = i + 1;
    }
    false
}

/// A copy of an edge list.
pub fn copy_edges(edges: &Vec<PathEdge>) -> (r: Vec<PathEdge>)
    ensures
        r@ == edges@,
{
    let mut r: Vec<PathEdge> = Vec::new();
    let mut i: usize = 0;
    while i < edges.len()
        invariant
            i <= edges.len(),
            r@ =~= edges@.take(i as int),
        decreases edges.len() - i,
    {
        r.push(edges[i]);
        i = i + 1;
    }
    proof {
        assert(r@ =~= edges@);
    }
    r
}

/// Tries one edge out of `cur`: records a finished cycle or extends the
/// search.
#[verifier::rlimit(50)]
fn try_edge(
    pools: &Vec<Pool>,
    base: Addr,
    max_hops: usize,
    cur: Addr,
    prefix: &Vec<PathEdge>,
    e: PathEdge,
    out: &mut Vec<ArbPath>,
)
    requires
        spec_valid_prefix(spec_views(pools@), base, prefix@, cur),
        prefix@.len() < max_hops,
        e.pool_index < pools@.len(),
        !spec_uses_pool(prefix@, e.pool_index as int),
        spec_edge_token_in(spec_views(pools@), e) == cur,
    ensures
        final(out)@.len() >= old(out)@.len(),
        forall|i: int| 0 <= i < old(out)@.len() ==> final(out)@[i] == old(out)@[i],
        forall|i: int|
            old(out)@.len() <= i < final(out)@.len() ==> spec_valid_cycle(
                spec_views(pools@),
                base,
                max_hops as int,
                (#[trigger] final(out)@[i])@,
            ),
        spec_path_views(final(out)@) == spec_path_views(old(out)@) + spec_try(
            spec_views(pools@),
            base,
            max_hops as int,
            prefix@,
            e,
        ),
    decreases max_hops - prefix@.len(), 0int,
{
    let ghost pviews = spec_views(pools@);
    let p = &pools[e.pool_index];
    let next = if e.zero_for_one {
        p.token1.address
    } else {
        p.token0.address
    };
    proof {
        assert(next == spec_edge_token_out(pviews, e));
        assert(forall|i: int|
            0 <= i < prefix@.len() ==> prefix@.push(e)[i] == (#[trigger] prefix@[i]));
        assert(prefix@.push(e)[prefix@.len() as int] == e);
    }
    let ghost out0 = out@;
    if next == base {
        if prefix.len() + 1 >= 2 {
            let mut extended = copy_edges(prefix);
            extended.push(e);
            proof {
                assert(extended@ == prefix@.push(e));
                assert(spec_valid_cycle(pviews, base, max_hops as int, extended@)) by {
                    assert(spec_edge_token_in(pviews, extended@[0]) == base);
                    assert(spec_edge_token_out(
                        pviews,
                        extended@[extended@.len() - 1],
                    ) == base);
                }
            }
            out.push(ArbPath { edges: extended });
            proof {
                assert(spec_path_views(out@) =~= spec_path_views(out0) + spec_try(
                    pviews,
                    base,
                    max_hops as int,
                    prefix@,
                    e,
                ));
            }
        } else {
            proof {
                assert(spec_path_views(out@) =~= spec_path_views(out0) + spec_try(
                    pviews,
                    base,
                    max_hops as int,
                    prefix@,
                    e,
                ));
            }
        }
    } else {
        if prefix.len() + 1 < max_hops {
            let mut extended = copy_edges(prefix);
            extended.push(e);
            proof {
                assert(extended@ == prefix@.push(e));
                assert(spec_valid_prefix(pviews, base, extended@, next));
            }
            search_from(pools, base, max_hops, next, &extended, out);
            proof {
                assert(spec_path_views(out@) =~= spec_path_views(out0) + spec_try(
                    pviews,
                    base,
                    max_hops as int,
                    prefix@,
                    e,
                ));
            }
        } else {
            proof {
                assert(spec_path_views(out@) =~= spec_path_views(out0) + spec_try(
                    pviews,
                    base,
                    max_hops as int,
                    prefix@,
                    e,
                ));
            }
        }
    }
}

/// Explores every unused pool edge out of `cur`, in pool-index order with
/// the token0-to-token1 direction first, appending each completed cycle.
fn search_from(
    pools: &Vec<Pool>,
    base: Addr,
    max_hops: usize,
    cur: Addr,
    prefix: &Vec<PathEdge>,
    out: &mut Vec<ArbPath>,
)
    requires
        spec_valid_prefix(spec_views(pools@), base, prefix@, cur),
        prefix@.len() < max_hops,
    ensures
        final(out)@.len() >= old(out)@.len(),
        forall|i: int| 0 <= i < old(out)@.len() ==> final(out)@[i] == old(out)@[i],
        forall|i: int|
            old(out)@.len() <= i < final(out)@.len() ==> spec_valid_cycle(
                spec_views(pools@),
                base,
                max_hops as int,
                (#[trigger] final(out)@[i])@,
            ),
        spec_path_views(final(out)@) == spec_path_views(old(out)@) + spec_scan(
            spec_views(pools@),
            base,
            max_hops as int,
            cur,
            prefix@,
            0,
        ),
    decreases max_hops - prefix@.len(), 1int,
{
    let ghost out0 = out@;
    let ghost pviews = spec_views(pools@);
    let ghost mh = max_hops as int;
    let mut p_idx: usize = 0;
    while p_idx < pools.len()
        invariant
            spec_valid_prefix(pviews, base, prefix@, cur),
            prefix@.len() < max_hops,
            p_idx <= pools.len(),
            mh == max_hops as int,
            pviews == spec_views(pools@),
            out@.len() >= out0.len(),
            forall|i: int| 0 <= i < out0.len() ==> out@[i] == out0[i],
            forall|i: int|
                out0.len() <= i < out@.len() ==> spec_valid_cycle(
                    pviews,
                    base,
                    max_hops as int,
                    (#[trigger] out@[i])@,
                ),
            spec_path_views(out0) + spec_scan(pviews, base, mh, cur, prefix@, 0)
                == spec_path_views(out@) + spec_scan(pviews, base, mh, cur, prefix@, p_idx as int),
        decreases pools.len() - p_idx,
    {
        let ghost out_start = out@;
        let ghost e0g = PathEdge { pool_index: p_idx, zero_for_one: true };
        let ghost e1g = PathEdge { pool_index: p_idx, zero_for_one: false };
        let ghost c0 = if !spec_uses_pool(prefix@, p_idx as int) && spec_edge_token_in(
            pviews,
            e0g,
        ) == cur {
            spec_try(pviews, base, mh, prefix@, e0g)
        } else {
            Seq::<Seq<PathEdge>>::empty()
        };
        let ghost c1 = if !spec_uses_pool(prefix@, p_idx as int) && spec_edge_token_in(
            pviews,
            e1g,
        ) == cur {
            spec_try(pviews, base, mh, prefix@, e1g)
        } else {
            Seq::<Seq<PathEdge>>::empty()
        };
        proof {
            assert(spec_scan(pviews, base, mh, cur, prefix@, p_idx as int) == c0 + c1 + spec_scan(
                pviews,
                base,
                mh,
                cur,
                prefix@,
                p_idx as int + 1,
            ));
        }
        if !edges_use_pool(prefix, p_idx) {
            let pool = &pools[p_idx];
            let e0 = PathEdge { pool_index: p_idx, zero_for_one: true };
            if pool.token0.address == cur {
                proof {
                    assert(spec_edge_token_in(pviews, e0) == cur);
                }
                try_edge(pools, base, max_hops, cur, prefix, e0, out);
            }
            proof {
                assert(spec_path_views(out@) =~= spec_path_views(out_start) + c0);
            }
            let ghost out_mid = out@;
            let e1 = PathEdge { pool_index: p_idx, zero_for_one: false };
            if pool.token1.address == cur {
                proof {
                    assert(spec_edge_token_in(pviews, e1) == cur);
                }
                try_edge(pools, base, max_hops, cur, prefix, e1, out);
            }
            proof {
                assert(spec_path_views(out@) =~= spec_path_views(out_mid) + c1);
                assert(spec_path_views(out@) =~= spec_path_views(out_start) + (c0 + c1));
            }
        } else {
            proof {
                assert(spec_path_views(out@) =~= spec_path_views(out_start) + (c0 + c1));
            }
        }
        proof {
            assert(spec_path_views(out_start) + (c0 + c1 + spec_scan(
                pviews,
                base,
                mh,
                cur,
                prefix@,
                p_idx as int + 1,
            )) =~= (spec_path_views(out_start) + (c0 + c1)) + spec_scan(
                pviews,
                base,
                mh,
                cur,
                prefix@,
                p_idx as int + 1,
            ));
        }
        p_idx = p_idx + 1;
    }
    proof {
        assert(spec_scan(pviews, base, mh, cur, prefix@, pools@.len() as int) == Seq::<
            Seq<PathEdge>,
        >::empty());
        assert(spec_path_views(out@) + Seq::<Seq<PathEdge>>::empty() =~= spec_path_views(out@));
    }
}

/// Enumerates the simple cycles through `base` with between 2 and
/// `max_hops` edges over the given snapshot.  Every returned path is a
/// genuine cycle of the snapshot (`spec_valid_cycle`); in particular, a
/// graph with no cycle through `base` yields an empty result.  Exploration
/// order is deterministic, so the result is reproducible for a snapshot.
pub fn find_arb_paths(pools: &Vec<Pool>, base: Addr, max_hops: usize) -> (r: Vec<ArbPath>)
    ensures
        forall|i: int|
            0 <= i < r@.len() ==> spec_valid_cycle(
                spec_views(pools@),
                base,
                max_hops as int,
                (#[trigger] r@[i])@,
            ),
        spec_path_views(r@) == spec_find_paths(spec_views(pools@), base, max_hops as int),
{
    let mut out: Vec<ArbPath> = Vec::new();
    if max_hops < 2 {
        proof {
            assert(spec_path_views(out@) =~= Seq::<Seq<PathEdge>>::empty());
        }
        return out;
    }
    let prefix: Vec<PathEdge> = Vec::new();
    proof {
        assert(spec_valid_prefix(spec_views(pools@), base, prefix@, base));
        assert(spec_path_views(out@) =~= Seq::<Seq<PathEdge>>::empty());
    }
    search_from(pools, base, max_hops, base, &prefix, &mut out);
    proof {
        assert(Seq::<Seq<PathEdge>>::empty() + spec_scan(
            spec_views(pools@),
            base,
            max_hops as int,
            base,
            prefix@,
            0,
        ) =~= spec_scan(spec_views(pools@), base, max_hops as int, base, prefix@, 0));
        assert(prefix@ =~= Seq::<PathEdge>::empty());
    }
    out
}

} // verus!
