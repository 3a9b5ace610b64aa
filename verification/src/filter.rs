//! The admission pipeline: composable predicates deciding which discovered
//! pools enter tracked state.
//!
//! Admission is a strict conjunction: a pool enters only if every predicate
//! holds.  The quote-asset value a `MinQuoteValue` predicate inspects is
//! fetched for each candidate by a batched on-chain read outside the
//! library and handed in alongside the pool.

use vstd::prelude::*;
use crate::addr::Addr;
use crate::types::{Pool, PoolView};

verus! {

/// One admission predicate.
#[derive(Debug)]
pub enum PoolPredicate {
    /// Admits a pool only when both of its tokens are whitelisted.
    TokenWhitelist(Vec<Addr>),
    /// Admits a pool only when its quote-asset-equivalent value reaches the
    /// minimum.
    MinQuoteValue(u128),
}

/// The mathematical model of a predicate.
#[verifier::ext_equal]
pub enum PredicateView {
    TokenWhitelist(Seq<Addr>),
    MinQuoteValue(u128),
}

impl View for PoolPredicate {
    type V = PredicateView;

    open spec fn view(&self) -> PredicateView {
        match self {
            PoolPredicate::TokenWhitelist(list) => PredicateView::TokenWhitelist(list@),
            PoolPredicate::MinQuoteValue(m) => PredicateView::MinQuoteValue(*m),
        }
    }
}

/// Whether one predicate admits a pool whose fetched quote-asset value is
/// `quote_value`.
pub open spec fn spec_eval(p: PredicateView, pool: PoolView, quote_value: u128) -> bool {
    match p {
        PredicateView::TokenWhitelist(list) => list.contains(pool.token0.address)
            && list.contains(pool.token1.address),
        PredicateView::MinQuoteValue(m) => quote_value >= m,
    }
}

/// Whether every predicate of the pipeline admits the pool: a strict AND.
pub open spec fn spec_admits(preds: Seq<PredicateView>, pool: PoolView, quote_value: u128) -> bool {
    forall|j: int| 0 <= j < preds.len() ==> spec_eval(#[trigger] preds[j], pool, quote_value)
}

/// The pools admitted by the pipeline, in input order, appended to `acc`;
/// `values[i]` is the fetched quote-asset value of `pools[i]`.
pub open spec fn spec_admit_fold(
    preds: Seq<PredicateView>,
    pools: Seq<PoolView>,
    values: Seq<u128>,
    acc: Seq<PoolView>,
) -> Seq<PoolView>
    decreases pools.len(),
{
    if pools.len() == 0 || values.len() == 0 {
        acc
    } else {
        let acc2 = if spec_admits(preds, pools[0], values[0]) {
            acc.push(pools[0])
        } else {
            acc
        };
        spec_admit_fold(preds, pools.drop_first(), values.drop_first(), acc2)
    }
}

/// A pool failing any single predicate is not admitted, wherever that
/// predicate stands in the pipeline.
pub proof fn lemma_admits_requires_all(
    preds: Seq<PredicateView>,
    pool: PoolView,
    quote_value: u128,
    j: int,
)
    requires
        0 <= j < preds.len(),
        !spec_eval(preds[j], pool, quote_value),
    ensures
        !spec_admits(preds, pool, quote_value),
{
}

/// Admission sees only which predicates the pipeline holds, never their
/// order: two pipelines holding the same predicates admit the same pools.
pub proof fn lemma_admits_order_independent(
    p1: Seq<PredicateView>,
    p2: Seq<PredicateView>,
    pool: PoolView,
    quote_value: u128,
)
    requires
        p1.to_multiset() == p2.to_multiset(),
    ensures
        spec_admits(p1, pool, quote_value) == spec_admits(p2, pool, quote_value),
{
    broadcast use vstd::seq_lib::group_to_multiset_ensures;

    assert(spec_admits(p1, pool, quote_value) == (forall|x: PredicateView|
        p1.contains(x) ==> spec_eval(x, pool, quote_value))) by {
        if forall|x: PredicateView| p1.contains(x) ==> spec_eval(x, pool, quote_value) {
            assert forall|j: int| 0 <= j < p1.len() implies spec_eval(
                #[trigger] p1[j],
                pool,
                quote_value,
            ) by {
                assert(p1.contains(p1[j]));
            }
        }
    }
    assert(spec_admits(p2, pool, quote_value) == (forall|x: PredicateView|
        p2.contains(x) ==> spec_eval(x, pool, quote_value))) by {
        if forall|x: PredicateView| p2.contains(x) ==> spec_eval(x, pool, quote_value) {
            assert forall|j: int| 0 <= j < p2.len() implies spec_eval(
                #[trigger] p2[j],
                pool,
                quote_value,
            ) by {
                assert(p2.contains(p2[j]));
            }
        }
    }
    assert forall|x: PredicateView| p1.contains(x) <==> p2.contains(x) by {
        assert(p1.contains(x) <==> p1.to_multiset().count(x) > 0);
        assert(p2.contains(x) <==> p2.to_multiset().count(x) > 0);
    }
}

/// Whether `list` holds `a`.
fn addr_list_contains(list: &Vec<Addr>, a: Addr) -> (r: bool)
    ensures
        r == list@.contains(a),
{
    let mut i: usize = 0;
    while i < list.len()
        invariant
            i <= list.len(),
            forall|j: int| 0 <= j < i ==> list@[j] != a,
        decreases list.len() - i,
    {
        if list[i] == a {
            return true;
        }
        i = i + 1;
    }
    false
}

impl PoolPredicate {
    /// Evaluates this predicate on a pool and its fetched quote value.
    pub fn eval(&self, pool: &Pool, quote_value: u128) -> (r: bool)
        ensures
            r == spec_eval(self@, pool@, quote_value),
    {
        match self {
            PoolPredicate::TokenWhitelist(list) => {
                addr_list_contains(list, pool.token0.address) && addr_list_contains(
                    list,
                    pool.token1.address,
                )
            },
            PoolPredicate::MinQuoteValue(m) => quote_value >= *m,
        }
    }
}

/// A sequence of predicates combined with AND semantics.
#[derive(Debug)]
pub struct FilterPipeline {
    pub predicates: Vec<PoolPredicate>,
}

impl View for FilterPipeline {
    type V = Seq<PredicateView>;

    open spec fn view(&self) -> Seq<PredicateView> {
        self.predicates@.map_values(|p: PoolPredicate| p@)
    }
}

impl FilterPipeline {
    /// A pipeline holding the given predicates, cheapest first by the
    /// caller's choice; order never changes the admitted set.
    pub fn new(predicates: Vec<PoolPredicate>) -> (r: FilterPipeline)
        ensures
            r@ == predicates@.map_values(|p: PoolPredicate| p@),
    {
        FilterPipeline { predicates }
    }

    /// Whether every predicate admits the pool.
    pub fn admits(&self, pool: &Pool, quote_value: u128) -> (r: bool)
        ensures
            r == spec_admits(self@, pool@, quote_value),
    {
        let mut i: usize = 0;
        while i < self.predicates.len()
            invariant
                i <= self.predicates.len(),
                forall|j: int| 0 <= j < i ==> spec_eval(#[trigger] self@[j], pool@, quote_value),
            decreases self.predicates.len() - i,
        {
            if !self.predicates[i].eval(pool, quote_value) {
                proof {
                    lemma_admits_requires_all(self@, pool@, quote_value, i as int);
                }
                return false;
            }
            i = i + 1;
        }
        true
    }

    /// Filters a batch of candidates: `values[i]` is the fetched
    /// quote-asset value of `pools[i]`.  Returns the admitted pools in
    /// input order.
    pub fn admit_all(&self, pools: &Vec<Pool>, values: &Vec<u128>) -> (r: Vec<Pool>)
        requires
            pools@.len() == values@.len(),
        ensures
            crate::store::spec_views(r@) == spec_admit_fold(
                self@,
                crate::store::spec_views(pools@),
                values@,
                Seq::<PoolView>::empty(),
            ),
    {
        let mut r: Vec<Pool> = Vec::new();
        let mut i: usize = 0;
        proof {
            assert(crate::store::spec_views(pools@).take(0) =~= Seq::<PoolView>::empty());
            assert(values@.take(0) =~= Seq::<u128>::empty());
            assert(crate::store::spec_views(r@) =~= Seq::<PoolView>::empty());
        }
        while i < pools.len()
            invariant
                i <= pools.len(),
                pools@.len() == values@.len(),
                crate::store::spec_views(r@) == spec_admit_fold(
                    self@,
                    crate::store::spec_views(pools@).take(i as int),
                    values@.take(i as int),
                    Seq::<PoolView>::empty(),
                ),
            decreases pools.len() - i,
        {
            let ghost prev = r@;
            proof {
                lemma_admit_fold_snoc(
                    self@,
                    crate::store::spec_views(pools@).take(i as int),
                    values@.take(i as int),
                    pools@[i as int]@,
                    values@[i as int],
                    Seq::<PoolView>::empty(),
                );
                assert(crate::store::spec_views(pools@).take(i as int + 1) =~= crate::store::spec_views(
                    pools@,
                ).take(i as int).push(pools@[i as int]@));
                assert(values@.take(i as int + 1) =~= values@.take(i as int).push(
                    values@[i as int],
                ));
            }
            if self.admits(&pools[i], values[i]) {
                r.push(pools[i].duplicate());
                proof {
                    assert(crate::store::spec_views(r@) =~= crate::store::spec_views(prev).push(
                        pools@[i as int]@,
                    ));
                }
            }
            i = i + 1;
        }
        proof {
            assert(crate::store::spec_views(pools@).take(pools@.len() as int) =~= crate::store::spec_views(
                pools@,
            ));
            assert(values@.take(values@.len() as int) =~= values@);
        }
        r
    }
}

/// Folding one more candidate appends it exactly when the pipeline admits
/// it.
proof fn lemma_admit_fold_snoc(
    preds: Seq<PredicateView>,
    pools: Seq<PoolView>,
    values: Seq<u128>,
    p: PoolView,
    v: u128,
    acc: Seq<PoolView>,
)
    requires
        pools.len() == values.len(),
    ensures
        spec_admit_fold(preds, pools.push(p), values.push(v), acc) == (if spec_admits(
            preds,
            p,
            v,
        ) {
            spec_admit_fold(preds, pools, values, acc).push(p)
        } else {
            spec_admit_fold(preds, pools, values, acc)
        }),
    decreases pools.len(),
{
    if pools.len() == 0 {
        assert(pools.push(p)[0] == p);
        assert(values.push(v)[0] == v);
        assert(pools.push(p).drop_first() =~= pools);
        assert(values.push(v).drop_first() =~= values);
        let acc2 = if spec_admits(preds, p, v) {
            acc.push(p)
        } else {
            acc
        };
        assert(spec_admit_fold(preds, pools, values, acc) == acc);
        assert(spec_admit_fold(preds, pools, values, acc2) == acc2);
    } else {
        assert(pools.push(p)[0] == pools[0]);
        assert(values.push(v)[0] == values[0]);
        assert(pools.push(p).drop_first() =~= pools.drop_first().push(p));
        assert(values.push(v).drop_first() =~= values.drop_first().push(v));
        let acc2 = if spec_admits(preds, pools[0], values[0]) {
            acc.push(pools[0])
        } else {
            acc
        };
        lemma_admit_fold_snoc(preds, pools.drop_first(), values.drop_first(), p, v, acc2);
    }
}

} // verus!
