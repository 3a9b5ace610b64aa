//! Path simulation: threads a probe amount through each edge's pricing
//! formula and scores the round trip in basis points.

use vstd::prelude::*;
use crate::addr::Addr;
use crate::math::{percentage_change_bp, spec_percentage_change_bp};
use crate::pathfinder::{
    find_arb_paths, spec_find_paths, spec_path_views, spec_valid_cycle, ArbPath, PathEdge,
};
use crate::pricing::{quote, spec_quote};
use crate::store::spec_views;
use crate::types::{Pool, PoolView, PricingError};

verus! {

/// The exact outcome of threading `amount` through the edges in order:
/// each hop quotes the pool named by the edge in the edge's direction, and
/// a failing hop fails the whole simulation with its error.
pub open spec fn spec_simulate_hops(
    pools: Seq<PoolView>,
    edges: Seq<PathEdge>,
    amount: u128,
) -> Result<u128, PricingError>
    decreases edges.len(),
{
    if edges.len() == 0 {
        Ok(amount)
    } else {
        match spec_quote(
            pools[edges[0].pool_index as int].variant,
            edges[0].zero_for_one,
            amount,
        ) {
            Result::Err(e) => Err(e),
            Result::Ok(a) => spec_simulate_hops(pools, edges.drop_first(), a),
        }
    }
}

/// Simulates a path against a snapshot: feeds `amount_in` to the first
/// edge and each hop's output to the next.  Fails with the first hop's
/// error when a hop cannot execute (insufficient liquidity or overflow);
/// such a path is dropped from search results.
pub fn simulate(pools: &Vec<Pool>, path: &ArbPath, amount_in: u128) -> (r: Result<
    u128,
    PricingError,
>)
    requires
        forall|i: int| 0 <= i < pools@.len() ==> (#[trigger] spec_views(pools@)[i]).wf(),
        forall|i: int| 0 <= i < path@.len() ==> (#[trigger] path@[i]).pool_index < pools@.len(),
    ensures
        r == spec_simulate_hops(spec_views(pools@), path@, amount_in),
{
    let ghost pviews = spec_views(pools@);
    let mut amount = amount_in;
    let mut i: usize = 0;
    proof {
        assert(path@.skip(0) =~= path@);
    }
    while i < path.edges.len()
        invariant
            i <= path.edges.len(),
            pviews == spec_views(pools@),
            forall|j: int| 0 <= j < pools@.len() ==> (#[trigger] pviews[j]).wf(),
            forall|j: int| 0 <= j < path@.len() ==> (#[trigger] path@[j]).pool_index < pools@.len(),
            spec_simulate_hops(pviews, path@, amount_in) == spec_simulate_hops(
                pviews,
                path@.skip(i as int),
                amount,
            ),
        decreases path.edges.len() - i,
    {
        let e = path.edges[i];
        proof {
            assert(path@.skip(i as int)[0] == path@[i as int]);
            assert(path@.skip(i as int).drop_first() =~= path@.skip(i as int + 1));
        }
        match quote(&pools[e.pool_index].variant, e.zero_for_one, amount) {
            Result::Err(err) => {
                return Err(err);
            },
            Result::Ok(a) => {
                amount = a;
            },
        }
        i = i + 1;
    }
    proof {
        assert(path@.skip(path@.len() as int).len() == 0);
    }
    Ok(amount)
}

/// The outcome of simulating one candidate path: the path itself, the
/// probe amount, what came back, and the round-trip gain in basis points.
/// Derived once, never mutated.
#[derive(Debug)]
pub struct SimulationResult {
    pub path: ArbPath,
    pub amount_in: u128,
    pub amount_out: u128,
    pub gain_bp: Option<i128>,
}

/// The mathematical model of a simulation result.
#[verifier::ext_equal]
pub struct SimulationResultView {
    pub edges: Seq<PathEdge>,
    pub amount_in: u128,
    pub amount_out: u128,
    pub gain_bp: Option<i128>,
}

impl View for SimulationResult {
    type V = SimulationResultView;

    open spec fn view(&self) -> SimulationResultView {
        SimulationResultView {
            edges: self.path@,
            amount_in: self.amount_in,
            amount_out: self.amount_out,
            gain_bp: self.gain_bp,
        }
    }
}

/// The search results for a path sequence, appended to `acc`: each path
/// whose simulation succeeds contributes its scored result, in order;
/// failing paths contribute nothing.
pub open spec fn spec_search_fold(
    pools: Seq<PoolView>,
    paths: Seq<Seq<PathEdge>>,
    probe: u128,
    acc: Seq<SimulationResultView>,
) -> Seq<SimulationResultView>
    decreases paths.len(),
{
    if paths.len() == 0 {
        acc
    } else {
        let acc2 = match spec_simulate_hops(pools, paths[0], probe) {
            Result::Err(_) => acc,
            Result::Ok(out) => acc.push(
                SimulationResultView {
                    edges: paths[0],
                    amount_in: probe,
                    amount_out: out,
                    gain_bp: spec_percentage_change_bp(probe as nat, out as nat),
                },
            ),
        };
        spec_search_fold(pools, paths.drop_first(), probe, acc2)
    }
}

/// Folding one more path appends its result exactly when it executes.
proof fn lemma_search_fold_snoc(
    pools: Seq<PoolView>,
    paths: Seq<Seq<PathEdge>>,
    p: Seq<PathEdge>,
    probe: u128,
    acc: Seq<SimulationResultView>,
)
    ensures
        spec_search_fold(pools, paths.push(p), probe, acc) == ({
            let r = spec_search_fold(pools, paths, probe, acc);
            match spec_simulate_hops(pools, p, probe) {
                Result::Err(_) => r,
                Result::Ok(out) => r.push(
                    SimulationResultView {
                        edges: p,
                        amount_in: probe,
                        amount_out: out,
                        gain_bp: spec_percentage_change_bp(probe as nat, out as nat),
                    },
                ),
            }
        }),
    decreases paths.len(),
{
    if paths.len() == 0 {
        assert(paths.push(p)[0] == p);
        assert(paths.push(p).drop_first() =~= paths);
        let acc2 = match spec_simulate_hops(pools, p, probe) {
            Result::Err(_) => acc,
            Result::Ok(out) => acc.push(
                SimulationResultView {
                    edges: p,
                    amount_in: probe,
                    amount_out: out,
                    gain_bp: spec_percentage_change_bp(probe as nat, out as nat),
                },
            ),
        };
        assert(spec_search_fold(pools, paths, probe, acc) == acc);
        assert(spec_search_fold(pools, paths, probe, acc2) == acc2);
    } else {
        assert(paths.push(p)[0] == paths[0]);
        assert(paths.push(p).drop_first() =~= paths.drop_first().push(p));
        let acc2 = match spec_simulate_hops(pools, paths[0], probe) {
            Result::Err(_) => acc,
            Result::Ok(out) => acc.push(
                SimulationResultView {
                    edges: paths[0],
                    amount_in: probe,
                    amount_out: out,
                    gain_bp: spec_percentage_change_bp(probe as nat, out as nat),
                },
            ),
        };
        lemma_search_fold_snoc(pools, paths.drop_first(), p, probe, acc2);
    }
}

/// The models of a result sequence, in order.
pub open spec fn spec_result_views(results: Seq<SimulationResult>) -> Seq<SimulationResultView> {
    results.map_values(|s: SimulationResult| s@)
}

/// Enumerates the cycles through `base` (up to `max_hops` edges), simulates
/// each with `probe_amount` in, and keeps the paths that execute: every
/// returned entry is a valid simple cycle of the snapshot whose simulation
/// succeeded with exactly the recorded output, scored by the signed
/// percentage change from probe to output.  Paths whose simulation fails
/// are dropped, never the whole search.
pub fn run_search(pools: &Vec<Pool>, base: Addr, max_hops: usize, probe_amount: u128) -> (r: Vec<
    SimulationResult,
>)
    requires
        forall|i: int| 0 <= i < pools@.len() ==> (#[trigger] spec_views(pools@)[i]).wf(),
    ensures
        spec_result_views(r@) == spec_search_fold(
            spec_views(pools@),
            spec_find_paths(spec_views(pools@), base, max_hops as int),
            probe_amount,
            Seq::<SimulationResultView>::empty(),
        ),
        forall|i: int|
            0 <= i < r@.len() ==> {
                &&& spec_valid_cycle(
                    spec_views(pools@),
                    base,
                    max_hops as int,
                    (#[trigger] r@[i])@.edges,
                )
                &&& spec_simulate_hops(spec_views(pools@), r@[i]@.edges, probe_amount) == Ok::<
                    u128,
                    PricingError,
                >(r@[i]@.amount_out)
                &&& r@[i]@.amount_in == probe_amount
                &&& r@[i]@.gain_bp == spec_percentage_change_bp(
                    probe_amount as nat,
                    r@[i]@.amount_out as nat,
                )
            },
{
    let ghost pviews = spec_views(pools@);
    let paths = find_arb_paths(pools, base, max_hops);
    let ghost pathviews = spec_path_views(paths@);
    let mut r: Vec<SimulationResult> = Vec::new();
    let mut i: usize = 0;
    proof {
        assert(pathviews.take(0) =~= Seq::<Seq<PathEdge>>::empty());
        assert(spec_result_views(r@) =~= Seq::<SimulationResultView>::empty());
    }
    while i < paths.len()
        invariant
            i <= paths.len(),
            pviews == spec_views(pools@),
            pathviews == spec_path_views(paths@),
            forall|j: int| 0 <= j < pools@.len() ==> (#[trigger] pviews[j]).wf(),
            forall|j: int|
                0 <= j < paths@.len() ==> spec_valid_cycle(
                    pviews,
                    base,
                    max_hops as int,
                    (#[trigger] paths@[j])@,
                ),
            spec_result_views(r@) == spec_search_fold(
                pviews,
                pathviews.take(i as int),
                probe_amount,
                Seq::<SimulationResultView>::empty(),
            ),
            forall|j: int|
                0 <= j < r@.len() ==> {
                    &&& spec_valid_cycle(pviews, base, max_hops as int, (#[trigger] r@[j])@.edges)
                    &&& spec_simulate_hops(pviews, r@[j]@.edges, probe_amount) == Ok::<
                        u128,
                        PricingError,
                    >(r@[j]@.amount_out)
                    &&& r@[j]@.amount_in == probe_amount
                    &&& r@[j]@.gain_bp == spec_percentage_change_bp(
                        probe_amount as nat,
                        r@[j]@.amount_out as nat,
                    )
                },
        decreases paths.len() - i,
    {
        proof {
            assert(pathviews.take(i as int + 1) =~= pathviews.take(i as int).push(
                pathviews[i as int],
            ));
            lemma_search_fold_snoc(
                pviews,
                pathviews.take(i as int),
                pathviews[i as int],
                probe_amount,
                Seq::<SimulationResultView>::empty(),
            );
        }
        let path = &paths[i];
        match simulate(pools, path, probe_amount) {
            Result::Err(_) => {},
            Result::Ok(amount_out) => {
                let gain_bp = percentage_change_bp(probe_amount, amount_out);
                let copied = ArbPath { edges: crate::pathfinder::copy_edges(&path.edges) };
                let ghost prev = r@;
                r.push(
                    SimulationResult { path: copied, amount_in: probe_amount, amount_out, gain_bp },
                );
                proof {
                    assert(spec_result_views(r@) =~= spec_result_views(prev).push(
                        SimulationResultView {
                            edges: pathviews[i as int],
                            amount_in: probe_amount,
                            amount_out,
                            gain_bp,
                        },
                    ));
                }
            },
        }
        i = i + 1;
    }
    proof {
        assert(pathviews.take(paths@.len() as int) =~= pathviews);
    }
    r
}

} // verus!
