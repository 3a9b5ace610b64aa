//! Pool discovery: decodes creation events emitted by a factory over a
//! block range and merges them into the known set, de-duplicated by pool
//! address.
//!
//! Discovery is resumable: the caller fetches the creation logs of
//! whatever block range its checkpoint dictates and hands them in; feeding
//! the same logs again adds nothing.  A malformed log is skipped and
//! counted, and discovery continues.

use vstd::prelude::*;
use crate::addr::Addr;
use crate::events::{decode_pool_created, spec_decode_pool_created, RawLog, RawLogView};
use crate::store::{spec_contains_addr, spec_views};
use crate::types::{Factory, Pool, PoolView};

verus! {

/// The models of a sequence of raw logs, in order.
pub open spec fn spec_log_views(logs: Seq<RawLog>) -> Seq<RawLogView> {
    logs.map_values(|l: RawLog| l@)
}

/// The known set after folding a batch of creation logs over `acc`: each
/// log that decodes to a pool not yet present appends it; malformed logs
/// and already-known addresses change nothing.
pub open spec fn spec_discover(f: Factory, logs: Seq<RawLogView>, acc: Seq<PoolView>) -> Seq<
    PoolView,
>
    decreases logs.len(),
{
    if logs.len() == 0 {
        acc
    } else {
        let acc2 = match spec_decode_pool_created(f, logs[0]) {
            Result::Err(_) => acc,
            Result::Ok(p) => if spec_contains_addr(acc, p.address) {
                acc
            } else {
                acc.push(p)
            },
        };
        spec_discover(f, logs.drop_first(), acc2)
    }
}

/// How many of the logs fail to decode.
pub open spec fn spec_discover_errors(f: Factory, logs: Seq<RawLogView>) -> int
    decreases logs.len(),
{
    if logs.len() == 0 {
        0
    } else {
        (if spec_decode_pool_created(f, logs[0]) is Err {
            1int
        } else {
            0int
        }) + spec_discover_errors(f, logs.drop_first())
    }
}

/// Folding one more log appends its pool exactly when it decodes and is
/// new.
proof fn lemma_discover_snoc(f: Factory, logs: Seq<RawLogView>, l: RawLogView, acc: Seq<PoolView>)
    ensures
        spec_discover(f, logs.push(l), acc) == ({
            let r = spec_discover(f, logs, acc);
            match spec_decode_pool_created(f, l) {
                Result::Err(_) => r,
                Result::Ok(p) => if spec_contains_addr(r, p.address) {
                    r
                } else {
                    r.push(p)
                },
            }
        }),
        spec_discover_errors(f, logs.push(l)) == spec_discover_errors(f, logs) + (
        if spec_decode_pool_created(f, l) is Err {
            1int
        } else {
            0int
        }),
    decreases logs.len(),
{
    if logs.len() == 0 {
        assert(logs.push(l)[0] == l);
        assert(logs.push(l).drop_first() =~= logs);
        let acc2 = match spec_decode_pool_created(f, l) {
            Result::Err(_) => acc,
            Result::Ok(p) => if spec_contains_addr(acc, p.address) {
                acc
            } else {
                acc.push(p)
            },
        };
        assert(spec_discover(f, logs, acc) == acc);
        assert(spec_discover(f, logs, acc2) == acc2);
        assert(spec_discover_errors(f, logs) == 0);
    } else {
        assert(logs.push(l)[0] == logs[0]);
        assert(logs.push(l).drop_first() =~= logs.drop_first().push(l));
        let acc2 = match spec_decode_pool_created(f, logs[0]) {
            Result::Err(_) => acc,
            Result::Ok(p) => if spec_contains_addr(acc, p.address) {
                acc
            } else {
                acc.push(p)
            },
        };
        lemma_discover_snoc(f, logs.drop_first(), l, acc2);
    }
}

/// Discovery only appends: what was known stays, in place, and the result
/// remains unique and well formed.
pub proof fn lemma_discover_preserves(f: Factory, logs: Seq<RawLogView>, acc: Seq<PoolView>)
    requires
        forall|i: int, j: int|
            0 <= i < j < acc.len() ==> (#[trigger] acc[i]).address != (#[trigger] acc[j]).address,
        forall|i: int| 0 <= i < acc.len() ==> (#[trigger] acc[i]).wf(),
    ensures
        spec_discover(f, logs, acc).len() >= acc.len(),
        forall|i: int| 0 <= i < acc.len() ==> (#[trigger] spec_discover(f, logs, acc)[i]) == acc[i],
        forall|i: int, j: int|
            0 <= i < j < spec_discover(f, logs, acc).len() ==> (#[trigger] spec_discover(
                f,
                logs,
                acc,
            )[i]).address != (#[trigger] spec_discover(f, logs, acc)[j]).address,
        forall|i: int|
            0 <= i < spec_discover(f, logs, acc).len() ==> (#[trigger] spec_discover(
                f,
                logs,
                acc,
            )[i]).wf(),
    decreases logs.len(),
{
    if logs.len() > 0 {
        let acc2 = match spec_decode_pool_created(f, logs[0]) {
            Result::Err(_) => acc,
            Result::Ok(p) => if spec_contains_addr(acc, p.address) {
                acc
            } else {
                acc.push(p)
            },
        };
        match spec_decode_pool_created(f, logs[0]) {
            Result::Err(_) => {},
            Result::Ok(p) => {
                if !spec_contains_addr(acc, p.address) {
                    assert(p.wf());
                    assert(forall|i: int|
                        0 <= i < acc.len() ==> (#[trigger] acc[i]).address != p.address);
                }
            },
        }
        lemma_discover_preserves(f, logs.drop_first(), acc2);
    }
}

/// Whatever is known before discovery is still known after it.
proof fn lemma_discover_contains_mono(f: Factory, logs: Seq<RawLogView>, acc: Seq<PoolView>, a: Addr)
    requires
        spec_contains_addr(acc, a),
    ensures
        spec_contains_addr(spec_discover(f, logs, acc), a),
    decreases logs.len(),
{
    if logs.len() > 0 {
        let acc2 = match spec_decode_pool_created(f, logs[0]) {
            Result::Err(_) => acc,
            Result::Ok(p) => if spec_contains_addr(acc, p.address) {
                acc
            } else {
                acc.push(p)
            },
        };
        assert(spec_contains_addr(acc2, a)) by {
            let w = choose|i: int| 0 <= i < acc.len() && (#[trigger] acc[i]).address == a;
            assert(acc2[w].address == a);
        }
        lemma_discover_contains_mono(f, logs.drop_first(), acc2, a);
    }
}

/// Every pool a batch's logs decode to is known after discovering that
/// batch.
proof fn lemma_discover_decoded_present(
    f: Factory,
    logs: Seq<RawLogView>,
    acc: Seq<PoolView>,
    k: int,
)
    requires
        0 <= k < logs.len(),
        spec_decode_pool_created(f, logs[k]) is Ok,
    ensures
        spec_contains_addr(
            spec_discover(f, logs, acc),
            spec_decode_pool_created(f, logs[k])->Ok_0.address,
        ),
    decreases logs.len(),
{
    let acc2 = match spec_decode_pool_created(f, logs[0]) {
        Result::Err(_) => acc,
        Result::Ok(p) => if spec_contains_addr(acc, p.address) {
            acc
        } else {
            acc.push(p)
        },
    };
    if k == 0 {
        let p = spec_decode_pool_created(f, logs[0])->Ok_0;
        assert(spec_contains_addr(acc2, p.address)) by {
            if spec_contains_addr(acc, p.address) {
                let w = choose|i: int| 0 <= i < acc.len() && (#[trigger] acc[i]).address == p.address;
                assert(acc2[w].address == p.address);
            } else {
                assert(acc2[acc.len() as int].address == p.address);
            }
        }
        lemma_discover_contains_mono(f, logs.drop_first(), acc2, p.address);
    } else {
        assert(logs.drop_first()[k - 1] == logs[k]);
        lemma_discover_decoded_present(f, logs.drop_first(), acc2, k - 1);
    }
}

/// Discovery over a set that already holds every pool the logs decode to
/// changes nothing.
proof fn lemma_discover_stable(f: Factory, logs: Seq<RawLogView>, s: Seq<PoolView>)
    requires
        forall|k: int|
            0 <= k < logs.len() && spec_decode_pool_created(f, #[trigger] logs[k]) is Ok
                ==> spec_contains_addr(s, spec_decode_pool_created(f, logs[k])->Ok_0.address),
    ensures
        spec_discover(f, logs, s) == s,
    decreases logs.len(),
{
    if logs.len() > 0 {
        assert(forall|k: int|
            0 <= k < logs.drop_first().len() && spec_decode_pool_created(
                f,
                #[trigger] logs.drop_first()[k],
            ) is Ok ==> spec_contains_addr(
                s,
                spec_decode_pool_created(f, logs.drop_first()[k])->Ok_0.address,
            )) by {
            assert(forall|k: int|
                0 <= k < logs.drop_first().len() ==> (#[trigger] logs.drop_first()[k]) == logs[k
                    + 1]);
        }
        lemma_discover_stable(f, logs.drop_first(), s);
    }
}

/// Discovery is idempotent: running the same logs over the discovered set
/// again yields the same set, so repeated scans of a block range are
/// harmless.
pub proof fn lemma_discover_idempotent(f: Factory, logs: Seq<RawLogView>, acc: Seq<PoolView>)
    ensures
        spec_discover(f, logs, spec_discover(f, logs, acc)) == spec_discover(f, logs, acc),
{
    let s = spec_discover(f, logs, acc);
    assert forall|k: int|
        0 <= k < logs.len() && spec_decode_pool_created(f, #[trigger] logs[k]) is Ok implies
    spec_contains_addr(s, spec_decode_pool_created(f, logs[k])->Ok_0.address) by {
        lemma_discover_decoded_present(f, logs, acc, k);
    }
    lemma_discover_stable(f, logs, s);
}

/// Whether some known pool has the address.
fn known_contains_addr(known: &Vec<Pool>, a: Addr) -> (r: bool)
    ensures
        r == spec_contains_addr(spec_views(known@), a),
{
    let mut i: usize = 0;
    while i < known.len()
        invariant
            i <= known.len(),
            forall|j: int| 0 <= j < i ==> (#[trigger] spec_views(known@)[j]).address != a,
        decreases known.len() - i,
    {
        if known[i].address == a {
            proof {
                assert(spec_views(known@)[i as int].address == a);
            }
            return true;
        }
        i = i + 1;
    }
    false
}

/// Scans a batch of creation logs from `factory` and merges each newly
/// decoded pool into `known`, de-duplicated by address.  What was known
/// stays in place; the count of malformed logs comes back.  Feeding the
/// same logs twice leaves the set as one pass does
/// (`lemma_discover_idempotent`).
pub fn discover(factory: &Factory, logs: &Vec<RawLog>, known: &mut Vec<Pool>) -> (skipped: usize)
    requires
        forall|i: int, j: int|
            0 <= i < j < old(known)@.len() ==> (#[trigger] spec_views(old(known)@)[i]).address != (
            #[trigger] spec_views(old(known)@)[j]).address,
        forall|i: int|
            0 <= i < old(known)@.len() ==> (#[trigger] spec_views(old(known)@)[i]).wf(),
    ensures
        spec_views(final(known)@) == spec_discover(
            *factory,
            spec_log_views(logs@),
            spec_views(old(known)@),
        ),
        skipped == spec_discover_errors(*factory, spec_log_views(logs@)),
        final(known)@.len() >= old(known)@.len(),
        forall|i: int|
            0 <= i < old(known)@.len() ==> (#[trigger] spec_views(final(known)@)[i]) == spec_views(
                old(known)@,
            )[i],
        forall|i: int, j: int|
            0 <= i < j < final(known)@.len() ==> (#[trigger] spec_views(final(known)@)[i]).address
                != (#[trigger] spec_views(final(known)@)[j]).address,
        forall|i: int| 0 <= i < final(known)@.len() ==> (#[trigger] spec_views(final(known)@)[i]).wf(),
{
    let ghost acc0 = spec_views(known@);
    let mut skipped: usize = 0;
    let mut k: usize = 0;
    proof {
        assert(spec_log_views(logs@).take(0) =~= Seq::<RawLogView>::empty());
    }
    while k < logs.len()
        invariant
            k <= logs.len(),
            spec_views(known@) == spec_discover(*factory, spec_log_views(logs@).take(k as int), acc0),
            skipped == spec_discover_errors(*factory, spec_log_views(logs@).take(k as int)),
            skipped <= k,
        decreases logs.len() - k,
    {
        let ghost lv = spec_log_views(logs@);
        proof {
            assert(lv.take(k as int + 1) =~= lv.take(k as int).push(lv[k as int]));
            lemma_discover_snoc(*factory, lv.take(k as int), lv[k as int], acc0);
        }
        match decode_pool_created(factory, &logs[k]) {
            Result::Err(_) => {
                skipped = skipped + 1;
            },
            Result::Ok(p) => {
                if !known_contains_addr(known, p.address) {
                    let ghost prev = known@;
                    known.push(p);
                    proof {
                        assert(spec_views(known@) =~= spec_views(prev).push(p@));
                    }
                }
            },
        }
        k = k + 1;
    }
    proof {
        assert(spec_log_views(logs@).take(logs@.len() as int) =~= spec_log_views(logs@));
        lemma_discover_preserves(*factory, spec_log_views(logs@), acc0);
    }
    skipped
}

} // verus!
