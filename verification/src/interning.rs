//! The behaviour shared by the interners of the library: a pool of distinct values in which
//! each value is identified by its position.
use vstd::prelude::*;

verus! {

/// No value occurs twice in `pool`.
pub open spec fn distinct<T>(pool: Seq<T>) -> bool {
    forall|i: int, j: int| 0 <= i < j < pool.len() ==> pool[i] != pool[j]
}

/// The pool and index that interning `k` into `pool` gives: the position of `k` if it is
/// held, and otherwise the end of the pool, where `k` is added.
pub open spec fn intern_spec<T>(pool: Seq<T>, k: T) -> (Seq<T>, int) {
    if pool.contains(k) {
        (pool, choose|i: int| 0 <= i < pool.len() && pool[i] == k)
    } else {
        (pool.push(k), pool.len() as int)
    }
}

/// Interning a value twice gives the same index the second time, and leaves the pool as the
/// first call left it.
pub proof fn law_intern_idempotent<T>(pool: Seq<T>, k: T)
    requires
        distinct(pool),
    ensures
        intern_spec(intern_spec(pool, k).0, k) == intern_spec(pool, k),
{
    let (p1, i1) = intern_spec(pool, k);
    if !pool.contains(k) {
        assert(p1[pool.len() as int] == k);
        assert(p1.contains(k));
        let c = choose|i: int| 0 <= i < p1.len() && p1[i] == k;
        if c < pool.len() {
            assert(p1[c] == pool[c]);
            assert(pool.contains(k));
        }
    }
}

/// The index that interning gives holds the interned value, and the values held before stay
/// where they were.
pub proof fn law_lookup_after_intern<T>(pool: Seq<T>, k: T)
    ensures
        0 <= intern_spec(pool, k).1 < intern_spec(pool, k).0.len(),
        intern_spec(pool, k).0[intern_spec(pool, k).1] == k,
        forall|i: int| 0 <= i < pool.len() ==> #[trigger] intern_spec(pool, k).0[i] == pool[i],
{
}

/// Interning two values, one after the other, gives them the same index exactly when the
/// values are equal.
pub proof fn law_intern_distinguishes<T>(pool: Seq<T>, a: T, b: T)
    requires
        distinct(pool),
    ensures
        ({
            let (p1, ia) = intern_spec(pool, a);
            let (p2, ib) = intern_spec(p1, b);
            ia == ib <==> a == b
        }),
{
    law_lookup_after_intern(pool, a);
    let (p1, ia) = intern_spec(pool, a);
    law_lookup_after_intern(p1, b);
    if a == b {
        law_intern_idempotent(pool, a);
    }
}

/// Interning keeps the pool free of duplicates.
pub proof fn law_intern_keeps_distinct<T>(pool: Seq<T>, k: T)
    requires
        distinct(pool),
    ensures
        distinct(intern_spec(pool, k).0),
{
}

/// The pool after interning each of `ks` into `pool`, in order.
pub open spec fn intern_all<T>(pool: Seq<T>, ks: Seq<T>) -> Seq<T>
    decreases ks.len(),
{
    if ks.len() == 0 {
        pool
    } else {
        intern_spec(intern_all(pool, ks.drop_last()), ks.last()).0
    }
}

/// Interning more values keeps the pool free of duplicates, never shrinks it, and leaves
/// every value where it was: what an id looked up gives stays the same.
pub proof fn law_interns_keep_earlier<T>(pool: Seq<T>, ks: Seq<T>)
    ensures
        pool.len() <= intern_all(pool, ks).len(),
        forall|i: int| 0 <= i < pool.len() ==> #[trigger] intern_all(pool, ks)[i] == pool[i],
        distinct(pool) ==> distinct(intern_all(pool, ks)),
    decreases ks.len(),
{
    if ks.len() > 0 {
        law_interns_keep_earlier(pool, ks.drop_last());
        let before = intern_all(pool, ks.drop_last());
        law_lookup_after_intern(before, ks.last());
        if distinct(pool) {
            law_intern_keeps_distinct(before, ks.last());
        }
        assert forall|i: int| 0 <= i < pool.len() implies #[trigger] intern_all(pool, ks)[i] == pool[i] by {
            assert(before[i] == pool[i]);
        }
    }
}

/// Interning `a`, then any values `ks`, then `b`, gives `b` the id of `a` exactly when `a`
/// and `b` are equal; and interning a value the pool holds adds nothing.
pub proof fn law_intern_same_id_iff_equal<T>(pool: Seq<T>, a: T, ks: Seq<T>, b: T)
    requires
        distinct(pool),
    ensures
        ({
            let (p1, x) = intern_spec(pool, a);
            let p2 = intern_all(p1, ks);
            &&& intern_spec(p2, b).1 == x <==> a == b
            &&& p2.contains(b) ==> intern_spec(p2, b).0 == p2
        }),
{
    let (p1, x) = intern_spec(pool, a);
    law_lookup_after_intern(pool, a);
    law_intern_keeps_distinct(pool, a);
    law_interns_keep_earlier(p1, ks);
    let p2 = intern_all(p1, ks);
    assert(p2[x] == a);
    law_lookup_after_intern(p2, b);
    let y = intern_spec(p2, b).1;
    if a == b {
        assert(p2.contains(b));
        assert(p2[y] == b);
        if y != x {
            if y < x {
                assert(p2[y] != p2[x]);
            } else {
                assert(p2[x] != p2[y]);
            }
        }
    }
}

} // verus!
