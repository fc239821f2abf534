use vstd::prelude::*;

use crate::cache::{inserted, is_fresh, lookup, removed_count, swept, CacheView, KeyView, Stored};
use crate::proxy::{after_fetch, is_success_status};

verus! {

/// One mutating operation on a cache, as `Cache::insert` and `Cache::remove_expired`
/// perform it.
pub enum CacheOp {
    Insert(KeyView, Seq<u8>, nat),
    Sweep(nat),
}

pub open spec fn apply_op(c: CacheView, op: CacheOp) -> CacheView {
    match op {
        CacheOp::Insert(k, v, t) => inserted(c, k, v, t),
        CacheOp::Sweep(now) => swept(c, now),
    }
}

/// The cache after the operations in order.
pub open spec fn apply_ops(c: CacheView, ops: Seq<CacheOp>) -> CacheView
    decreases ops.len(),
{
    if ops.len() == 0 {
        c
    } else {
        apply_ops(apply_op(c, ops[0]), ops.drop_first())
    }
}

/// No operation in `ops` inserts under `k`, and no sweep runs later than `q`.
pub open spec fn unrelated_before(ops: Seq<CacheOp>, k: KeyView, q: nat) -> bool {
    forall|i: int|
        0 <= i < ops.len() ==> match #[trigger] ops[i] {
            CacheOp::Insert(kk, _, _) => kk != k,
            CacheOp::Sweep(s) => s <= q,
        }
}

proof fn lemma_entry_survives(c: CacheView, k: KeyView, st: Stored, ops: Seq<CacheOp>, q: nat)
    requires
        unrelated_before(ops, k, q),
        c.store.contains_key(k) ==> c.store[k] == st,
        is_fresh(st.inserted_at, c.ttl, q) ==> c.store.contains_key(k),
    ensures
        apply_ops(c, ops).ttl == c.ttl,
        apply_ops(c, ops).store.contains_key(k) ==> apply_ops(c, ops).store[k] == st,
        is_fresh(st.inserted_at, c.ttl, q) ==> apply_ops(c, ops).store.contains_key(k),
    decreases ops.len(),
{
    if ops.len() > 0 {
        let c1 = apply_op(c, ops[0]);
        let rest = ops.drop_first();
        assert forall|i: int| 0 <= i < rest.len() implies match #[trigger] rest[i] {
            CacheOp::Insert(kk, _, _) => kk != k,
            CacheOp::Sweep(s) => s <= q,
        } by {
            assert(rest[i] == ops[i + 1]);
        }
        match ops[0] {
            CacheOp::Insert(kk, v, t) => {
                assert(kk != k);
            },
            CacheOp::Sweep(s) => {
                assert(s <= q);
            },
        }
        lemma_entry_survives(c1, k, st, rest, q);
    }
}

/// A value inserted under `k` at `t` is returned by every lookup at a time in
/// `[t, t + ttl)` and by none at or after `t + ttl`, whatever insertions under
/// other keys and sweeps (up to the lookup time) happened in between.
pub proof fn lemma_freshness(c: CacheView, k: KeyView, v: Seq<u8>, t: nat, ops: Seq<CacheOp>, q: nat)
    requires
        unrelated_before(ops, k, q),
    ensures
        t <= q < t + c.ttl ==> lookup(apply_ops(inserted(c, k, v, t), ops), k, q) == Some(v),
        q >= t + c.ttl ==> lookup(apply_ops(inserted(c, k, v, t), ops), k, q) is None,
{
    let st = Stored { value: v, inserted_at: t };
    lemma_entry_survives(inserted(c, k, v, t), k, st, ops, q);
}

/// A second insert under the same key replaces the value and restarts the
/// freshness window at the second insertion time.
pub proof fn lemma_overwrite(c: CacheView, k: KeyView, v1: Seq<u8>, t1: nat, v2: Seq<u8>, t2: nat, q: nat)
    ensures
        lookup(inserted(inserted(c, k, v1, t1), k, v2, t2), k, q)
            == (if is_fresh(t2, c.ttl, q) { Some(v2) } else { None::<Seq<u8>> }),
{
}

/// A sweep right after a sweep at the same time changes nothing and removes nothing.
pub proof fn lemma_sweep_idempotent(c: CacheView, now: nat)
    ensures
        swept(swept(c, now), now) == swept(c, now),
        removed_count(swept(c, now), now) == 0,
{
    assert(swept(swept(c, now), now).store =~= swept(c, now).store);
}

/// A non-2xx answer for a key that missed at `now` leaves it missing at every later time.
pub proof fn lemma_error_not_cached(c: CacheView, k: KeyView, status: u16, body: Seq<u8>, now: nat, q: nat)
    requires
        !is_success_status(status),
        lookup(c, k, now) is None,
        now <= q,
    ensures
        lookup(after_fetch(c, k, status, body, now), k, q) is None,
{
}

/// Inserting under `a` changes neither the presence nor the freshness of another key `b`.
pub proof fn lemma_insert_isolated(c: CacheView, a: KeyView, v: Seq<u8>, t: nat, b: KeyView, q: nat)
    requires
        a != b,
    ensures
        inserted(c, a, v, t).store.contains_key(b) == c.store.contains_key(b),
        lookup(inserted(c, a, v, t), b, q) == lookup(c, b, q),
{
}

/// A sweep, which removes only stale entries, changes no lookup made at or after it,
/// and keeps every entry that is fresh when it runs.
pub proof fn lemma_sweep_isolated(c: CacheView, s: nat, b: KeyView, q: nat)
    requires
        s <= q,
    ensures
        lookup(swept(c, s), b, q) == lookup(c, b, q),
        lookup(c, b, s) is Some ==> swept(c, s).store.contains_key(b),
{
}

/// Any number of writes of one key, serialized in any order, leave exactly one entry
/// for it, holding the last write, and every other entry as it was.
pub proof fn lemma_last_writer_wins(c: CacheView, k: KeyView, ops: Seq<CacheOp>)
    requires
        ops.len() > 0,
        forall|i: int| 0 <= i < ops.len() ==> (#[trigger] ops[i] matches CacheOp::Insert(kk, _, _) && kk == k),
    ensures
        ({
            let (v, t) = match ops.last() {
                CacheOp::Insert(_, v, t) => (v, t),
                CacheOp::Sweep(_) => (Seq::<u8>::empty(), 0),
            };
            apply_ops(c, ops) == inserted(c, k, v, t)
        }),
    decreases ops.len(),
{
    assert(ops[0] matches CacheOp::Insert(kk, _, _) && kk == k);
    let c1 = apply_op(c, ops[0]);
    let rest = ops.drop_first();
    if rest.len() == 0 {
        assert(apply_ops(c1, rest) == c1);
    } else {
        assert forall|i: int| 0 <= i < rest.len() implies (#[trigger] rest[i] matches CacheOp::Insert(kk, _, _) && kk == k) by {
            assert(rest[i] == ops[i + 1]);
        }
        lemma_last_writer_wins(c1, k, rest);
        assert(rest.last() == ops.last());
        let (v, t) = match ops.last() {
            CacheOp::Insert(_, v, t) => (v, t),
            CacheOp::Sweep(_) => (Seq::<u8>::empty(), 0),
        };
        assert(inserted(c1, k, v, t).store =~= inserted(c, k, v, t).store);
    }
}

} // verus!
