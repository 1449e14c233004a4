//! Ordered association lists: the mathematical model of the ordered maps
//! of the record. A list is a sequence of pairs whose keys grow strictly.

use vstd::prelude::*;

verus! {

/// A strict total order on the values of a type.
pub trait Ordered: Sized {
    spec fn before(self, other: Self) -> bool;

    proof fn lemma_irreflexive(a: Self)
        ensures
            !a.before(a),
    ;

    proof fn lemma_transitive(a: Self, b: Self, c: Self)
        requires
            a.before(b),
            b.before(c),
        ensures
            a.before(c),
    ;

    proof fn lemma_total(a: Self, b: Self)
        ensures
            a == b || a.before(b) || b.before(a),
    ;
}

/// The keys of `s` grow strictly.
pub open spec fn sorted<K: Ordered, V>(s: Seq<(K, V)>) -> bool {
    forall|i: int, j: int| 0 <= i < j < s.len() ==> (#[trigger] s[i]).0.before((#[trigger] s[j]).0)
}

/// Number of pairs at the start of `s` whose key stands before `k`. In a
/// sorted list this is the place of `k`.
pub open spec fn rank<K: Ordered, V>(s: Seq<(K, V)>, k: K) -> int
    decreases s.len(),
{
    if s.len() > 0 && s[0].0.before(k) {
        1 + rank(s.drop_first(), k)
    } else {
        0
    }
}

/// The list holds a pair of key `k` at the place of `k`.
pub open spec fn has_key<K: Ordered, V>(s: Seq<(K, V)>, k: K) -> bool {
    rank(s, k) < s.len() && s[rank(s, k)].0 == k
}

/// The value that the list holds for `k`.
pub open spec fn lookup<K: Ordered, V>(s: Seq<(K, V)>, k: K) -> Option<V> {
    if has_key(s, k) {
        Some(s[rank(s, k)].1)
    } else {
        None
    }
}

/// The list with `v` as the value of `k`: in place of the old value when
/// the list has the key, at the place of `k` when it has not.
pub open spec fn put<K: Ordered, V>(s: Seq<(K, V)>, k: K, v: V) -> Seq<(K, V)> {
    if has_key(s, k) {
        s.update(rank(s, k), (k, v))
    } else {
        s.insert(rank(s, k), (k, v))
    }
}

/// The list with `v` as the value of `k` unless the list has the key.
pub open spec fn put_new<K: Ordered, V>(s: Seq<(K, V)>, k: K, v: V) -> Seq<(K, V)> {
    if has_key(s, k) {
        s
    } else {
        s.insert(rank(s, k), (k, v))
    }
}

/// The pairs of `s` that `keep` accepts, in their order.
pub open spec fn retain<K, V>(s: Seq<(K, V)>, keep: spec_fn((K, V)) -> bool) -> Seq<(K, V)>
    decreases s.len(),
{
    if s.len() == 0 {
        s
    } else if keep(s.last()) {
        retain(s.drop_last(), keep).push(s.last())
    } else {
        retain(s.drop_last(), keep)
    }
}

pub proof fn lemma_rank_bounds<K: Ordered, V>(s: Seq<(K, V)>, k: K)
    ensures
        0 <= rank(s, k) <= s.len(),
        forall|i: int| 0 <= i < rank(s, k) ==> (#[trigger] s[i]).0.before(k),
        rank(s, k) < s.len() ==> !s[rank(s, k)].0.before(k),
    decreases s.len(),
{
    if s.len() > 0 && s[0].0.before(k) {
        let t = s.drop_first();
        lemma_rank_bounds(t, k);
        assert forall|i: int| 0 <= i < rank(s, k) implies (#[trigger] s[i]).0.before(k) by {
            if i > 0 {
                assert(t[i - 1] == s[i]);
            }
        }
        if rank(s, k) < s.len() {
            assert(t[rank(t, k)] == s[rank(s, k)]);
        }
    }
}

/// The rank is where the keys stop standing before `k`.
pub proof fn lemma_rank_is<K: Ordered, V>(s: Seq<(K, V)>, k: K, n: int)
    requires
        0 <= n <= s.len(),
        forall|i: int| 0 <= i < n ==> (#[trigger] s[i]).0.before(k),
        n == s.len() || !s[n].0.before(k),
    ensures
        rank(s, k) == n,
    decreases n,
{
    if n > 0 {
        let t = s.drop_first();
        assert(s[0].0.before(k));
        assert forall|i: int| 0 <= i < n - 1 implies (#[trigger] t[i]).0.before(k) by {
            assert(t[i] == s[i + 1]);
        }
        if n < s.len() {
            assert(t[n - 1] == s[n]);
        }
        lemma_rank_is(t, k, n - 1);
    }
}

/// In a sorted list a key stands at its rank, and nowhere else.
pub proof fn lemma_rank_of_member<K: Ordered, V>(s: Seq<(K, V)>, i: int)
    requires
        sorted(s),
        0 <= i < s.len(),
    ensures
        rank(s, s[i].0) == i,
        has_key(s, s[i].0),
        lookup(s, s[i].0) == Some(s[i].1),
{
    K::lemma_irreflexive(s[i].0);
    lemma_rank_is(s, s[i].0, i);
}

/// A key that a sorted list does not hold at its rank is held nowhere.
pub proof fn lemma_absent<K: Ordered, V>(s: Seq<(K, V)>, k: K)
    requires
        sorted(s),
        !has_key(s, k),
    ensures
        forall|i: int| 0 <= i < s.len() ==> (#[trigger] s[i]).0 != k,
{
    assert forall|i: int| 0 <= i < s.len() implies (#[trigger] s[i]).0 != k by {
        if s[i].0 == k {
            lemma_rank_of_member(s, i);
        }
    }
}

/// From the rank of `k` on, the keys of a sorted list are `k` or stand
/// after it.
pub proof fn lemma_after_rank<K: Ordered, V>(s: Seq<(K, V)>, k: K, j: int)
    requires
        sorted(s),
        rank(s, k) <= j < s.len(),
    ensures
        s[j].0 == k || k.before(s[j].0),
        j > rank(s, k) ==> k.before(s[j].0),
{
    lemma_rank_bounds(s, k);
    let r = rank(s, k);
    K::lemma_total(s[r].0, k);
    if j > r {
        if s[r].0 == k {
        } else {
            K::lemma_transitive(k, s[r].0, s[j].0);
        }
    }
}

/// Putting a value keeps the list sorted.
pub proof fn lemma_put_sorted<K: Ordered, V>(s: Seq<(K, V)>, k: K, v: V)
    requires
        sorted(s),
    ensures
        sorted(put(s, k, v)),
        sorted(put_new(s, k, v)),
{
    lemma_rank_bounds(s, k);
    let r = rank(s, k);
    let t = put(s, k, v);
    assert forall|i: int, j: int| 0 <= i < j < t.len() implies (#[trigger] t[i]).0.before(
        (#[trigger] t[j]).0,
    ) by {
        if has_key(s, k) {
            assert(t[i].0 == s[i].0);
            assert(t[j].0 == s[j].0);
        } else {
            if j < r {
                assert(t[i] == s[i] && t[j] == s[j]);
            } else if j == r {
                assert(t[i] == s[i]);
            } else if i < r {
                assert(t[i] == s[i] && t[j] == s[j - 1]);
            } else if i == r {
                assert(t[j] == s[j - 1]);
                lemma_after_rank(s, k, j - 1);
            } else {
                assert(t[i] == s[i - 1] && t[j] == s[j - 1]);
            }
        }
    }
}

/// What a list holds after a value was put.
pub proof fn lemma_put_lookup<K: Ordered, V>(s: Seq<(K, V)>, k: K, v: V, q: K)
    requires
        sorted(s),
    ensures
        lookup(put(s, k, v), q) == if q == k {
            Some(v)
        } else {
            lookup(s, q)
        },
{
    lemma_put_sorted(s, k, v);
    lemma_rank_bounds(s, k);
    let r = rank(s, k);
    let t = put(s, k, v);
    assert(t[r] == (k, v));
    if q == k {
        lemma_rank_of_member(t, r);
    } else {
        lemma_rank_bounds(s, q);
        lemma_rank_bounds(t, q);
        let a = rank(s, q);
        if has_key(s, q) {
            let b = if has_key(s, k) || a < r {
                a
            } else {
                a + 1
            };
            assert(t[b] == s[a]);
            lemma_rank_of_member(t, b);
        } else {
            lemma_absent(s, q);
            if has_key(t, q) {
                let b = rank(t, q);
                if has_key(s, k) {
                    assert(t[b].0 == s[b].0);
                } else if b < r {
                    assert(t[b] == s[b]);
                } else if b > r {
                    assert(t[b] == s[b - 1]);
                }
            }
        }
    }
}

/// What `retain` keeps comes from the list, in the same order.
pub proof fn lemma_retain_sorted<K: Ordered, V>(s: Seq<(K, V)>, keep: spec_fn((K, V)) -> bool)
    requires
        sorted(s),
    ensures
        sorted(retain(s, keep)),
        retain(s, keep).len() <= s.len(),
        forall|i: int|
            0 <= i < retain(s, keep).len() ==> keep(#[trigger] retain(s, keep)[i]) && exists|j: int|
                i <= j < s.len() && s[j] == retain(s, keep)[i],
    decreases s.len(),
{
    if s.len() > 0 {
        let t = s.drop_last();
        let x = s.last();
        assert forall|i: int, j: int| 0 <= i < j < t.len() implies (#[trigger] t[i]).0.before(
            (#[trigger] t[j]).0,
        ) by {
            assert(t[i] == s[i] && t[j] == s[j]);
        }
        lemma_retain_sorted(t, keep);
        let rt = retain(t, keep);
        let r = retain(s, keep);
        assert forall|i: int| 0 <= i < r.len() implies keep(#[trigger] r[i]) && exists|j: int|
            i <= j < s.len() && s[j] == r[i] by {
            if i < rt.len() {
                assert(r[i] == rt[i]);
                let j = choose|j: int| i <= j < t.len() && t[j] == rt[i];
                assert(s[j] == r[i]);
            } else {
                assert(s[s.len() - 1] == r[i]);
            }
        }
        assert forall|i: int, j: int| 0 <= i < j < r.len() implies (#[trigger] r[i]).0.before(
            (#[trigger] r[j]).0,
        ) by {
            if j < rt.len() {
                assert(r[i] == rt[i] && r[j] == rt[j]);
            } else {
                assert(r[i] == rt[i]);
                let m = choose|m: int| i <= m < t.len() && t[m] == rt[i];
                assert(s[m] == t[m]);
                assert(s[m].0.before(s[s.len() - 1].0));
            }
        }
    }
}

/// Filtering twice with one test is filtering once.
pub proof fn lemma_retain_idempotent<K, V>(s: Seq<(K, V)>, keep: spec_fn((K, V)) -> bool)
    ensures
        retain(retain(s, keep), keep) == retain(s, keep),
    decreases s.len(),
{
    if s.len() > 0 {
        let t = s.drop_last();
        lemma_retain_idempotent(t, keep);
        if keep(s.last()) {
            let r = retain(t, keep).push(s.last());
            assert(r.drop_last() =~= retain(t, keep));
        }
    }
}

/// Filtering a list grown by one pair.
pub proof fn lemma_retain_push<K, V>(s: Seq<(K, V)>, x: (K, V), keep: spec_fn((K, V)) -> bool)
    ensures
        retain(s.push(x), keep) == if keep(x) {
            retain(s, keep).push(x)
        } else {
            retain(s, keep)
        },
{
    assert(s.push(x).drop_last() =~= s);
}

/// A pair that `keep` accepts is among what `retain` keeps.
pub proof fn lemma_retain_member<K, V>(s: Seq<(K, V)>, keep: spec_fn((K, V)) -> bool, i: int)
    requires
        0 <= i < s.len(),
        keep(s[i]),
    ensures
        exists|j: int| 0 <= j < retain(s, keep).len() && retain(s, keep)[j] == s[i],
    decreases s.len(),
{
    let t = s.drop_last();
    let r = retain(s, keep);
    if i == s.len() - 1 {
        assert(r[r.len() - 1] == s[i]);
    } else {
        lemma_retain_member(t, keep, i);
        let j = choose|j: int| 0 <= j < retain(t, keep).len() && retain(t, keep)[j] == t[i];
        assert(r[j] == s[i]);
    }
}

/// A sorted list still holds, after filtering, the values that the test
/// accepts.
pub proof fn lemma_retain_lookup<K: Ordered, V>(
    s: Seq<(K, V)>,
    keep: spec_fn((K, V)) -> bool,
    k: K,
)
    requires
        sorted(s),
        lookup(s, k) matches Some(v) && keep((k, v)),
    ensures
        lookup(retain(s, keep), k) == lookup(s, k),
{
    let i = rank(s, k);
    lemma_rank_bounds(s, k);
    assert(s[i] == (k, s[i].1));
    lemma_retain_sorted(s, keep);
    lemma_retain_member(s, keep, i);
    let r = retain(s, keep);
    let j = choose|j: int| 0 <= j < r.len() && r[j] == s[i];
    lemma_rank_of_member(r, j);
}

/// A prefix of a sorted list is sorted.
pub proof fn lemma_sorted_take<K: Ordered, V>(s: Seq<(K, V)>, n: int)
    requires
        sorted(s),
        0 <= n <= s.len(),
    ensures
        sorted(s.take(n)),
{
    let t = s.take(n);
    assert forall|i: int, j: int| 0 <= i < j < t.len() implies (#[trigger] t[i]).0.before(
        (#[trigger] t[j]).0,
    ) by {
        assert(t[i] == s[i] && t[j] == s[j]);
    }
}

/// What `retain` keeps of the first `n` pairs of a sorted list stands
/// before the pair that follows them.
pub proof fn lemma_retain_before_next<K: Ordered, V>(
    s: Seq<(K, V)>,
    keep: spec_fn((K, V)) -> bool,
    n: int,
)
    requires
        sorted(s),
        0 <= n < s.len(),
    ensures
        retain(s.take(n), keep).len() > 0 ==> retain(s.take(n), keep).last().0.before(s[n].0),
        retain(s.take(n + 1), keep) == if keep(s[n]) {
            retain(s.take(n), keep).push(s[n])
        } else {
            retain(s.take(n), keep)
        },
{
    let t = s.take(n);
    lemma_sorted_take(s, n);
    lemma_retain_sorted(t, keep);
    let r = retain(t, keep);
    if r.len() > 0 {
        let j = choose|j: int| r.len() - 1 <= j < t.len() && t[j] == r[r.len() - 1];
        assert(t[j] == s[j]);
    }
    assert(s.take(n + 1) =~= t.push(s[n]));
    lemma_retain_push(t, s[n], keep);
}

} // verus!
