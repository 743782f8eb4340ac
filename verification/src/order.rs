//! Stable insertion order: the specification of a stable sort by a strict comparison.
use vstd::prelude::*;

verus! {

/// Adds `x` to `s` after every element that `x` does not come strictly before.
pub open spec fn insert_by<T>(s: Seq<T>, x: T, lt: spec_fn(T, T) -> bool) -> Seq<T>
    decreases s.len(),
{
    if s.len() == 0 || !lt(x, s.last()) {
        s.push(x)
    } else {
        insert_by(s.drop_last(), x, lt).push(s.last())
    }
}

/// The stable sort of `s` by the strict comparison `lt`: elements are inserted in
/// order, each after the ones it does not come before, so equal elements keep their
/// relative order.
pub open spec fn sort_by<T>(s: Seq<T>, lt: spec_fn(T, T) -> bool) -> Seq<T>
    decreases s.len(),
{
    if s.len() == 0 {
        Seq::empty()
    } else {
        insert_by(sort_by(s.drop_last(), lt), s.last(), lt)
    }
}

/// Where `insert_by` places `x`: after the prefix it does not precede.
pub proof fn lemma_insert_by_at<T>(s: Seq<T>, x: T, lt: spec_fn(T, T) -> bool, j: int)
    requires
        0 <= j <= s.len(),
        j == 0 || !lt(x, s[j - 1]),
        forall|k: int| j <= k < s.len() ==> lt(x, #[trigger] s[k]),
    ensures
        insert_by(s, x, lt) == s.take(j) + seq![x] + s.skip(j),
    decreases s.len() - j,
{
    if j == s.len() {
        assert(s.take(j) == s);
        assert(s.take(j) + seq![x] + s.skip(j) =~= s.push(x));
    } else {
        let d = s.drop_last();
        assert(lt(x, s[s.len() - 1]));
        assert forall|k: int| j <= k < d.len() implies lt(x, #[trigger] d[k]) by {
            assert(d[k] == s[k]);
        }
        if j > 0 {
            assert(d[j - 1] == s[j - 1]);
        }
        lemma_insert_by_at(d, x, lt, j);
        assert(d.take(j) == s.take(j));
        assert((d.take(j) + seq![x] + d.skip(j)).push(s.last()) =~= s.take(j) + seq![x] + s.skip(
            j,
        ));
    }
}

/// Runs of neighbours that `same` relates collapse to their first element
/// (`Vec::dedup_by`, comparing each element with the last one kept).
pub open spec fn dedup_by<T>(s: Seq<T>, same: spec_fn(T, T) -> bool) -> Seq<T>
    decreases s.len(),
{
    if s.len() == 0 {
        Seq::empty()
    } else {
        let d = dedup_by(s.drop_last(), same);
        if d.len() > 0 && same(s.last(), d.last()) {
            d
        } else {
            d.push(s.last())
        }
    }
}

pub proof fn lemma_dedup_by_nonempty<T>(s: Seq<T>, same: spec_fn(T, T) -> bool)
    ensures
        (dedup_by(s, same).len() == 0) == (s.len() == 0),
    decreases s.len(),
{
    if s.len() > 0 {
        lemma_dedup_by_nonempty(s.drop_last(), same);
    }
}

/// `lt` is a strict weak order: nothing comes before itself, it is transitive, and an
/// element that comes neither before nor after another is placed alike against the rest.
pub open spec fn strict_weak<T>(lt: spec_fn(T, T) -> bool) -> bool {
    &&& forall|a: T| !#[trigger] lt(a, a)
    &&& forall|a: T, b: T, c: T| #[trigger] lt(a, b) && #[trigger] lt(b, c) ==> lt(a, c)
    &&& forall|a: T, b: T, c: T|
        #![trigger lt(a, c), lt(a, b)]
        #![trigger lt(a, c), lt(b, c)]
        lt(a, c) ==> lt(a, b) || lt(b, c)
}

/// No element of `s` comes strictly before an earlier one.
pub open spec fn sorted_by<T>(s: Seq<T>, lt: spec_fn(T, T) -> bool) -> bool {
    forall|i: int, j: int| 0 <= i < j < s.len() ==> !lt(#[trigger] s[j], #[trigger] s[i])
}

proof fn lemma_insert_by_multiset<T>(s: Seq<T>, x: T, lt: spec_fn(T, T) -> bool)
    ensures
        insert_by(s, x, lt).to_multiset() =~= s.to_multiset().insert(x),
    decreases s.len(),
{
    broadcast use vstd::seq_lib::group_to_multiset_ensures;

    if s.len() > 0 && lt(x, s.last()) {
        let d = s.drop_last();
        lemma_insert_by_multiset(d, x, lt);
        assert(d.push(s.last()) =~= s);
        assert(insert_by(s, x, lt).to_multiset() =~= d.to_multiset().insert(x).insert(s.last()));
        assert(s.to_multiset() =~= d.to_multiset().insert(s.last()));
    }
}

/// Sorting keeps every element, as often as it occurs.
pub proof fn lemma_sort_by_multiset<T>(s: Seq<T>, lt: spec_fn(T, T) -> bool)
    ensures
        sort_by(s, lt).to_multiset() =~= s.to_multiset(),
    decreases s.len(),
{
    broadcast use vstd::seq_lib::group_to_multiset_ensures;

    if s.len() > 0 {
        let d = s.drop_last();
        lemma_sort_by_multiset(d, lt);
        lemma_insert_by_multiset(sort_by(d, lt), s.last(), lt);
        assert(d.push(s.last()) =~= s);
    }
}

proof fn lemma_insert_by_sorted<T>(s: Seq<T>, x: T, lt: spec_fn(T, T) -> bool)
    requires
        strict_weak(lt),
        sorted_by(s, lt),
    ensures
        sorted_by(insert_by(s, x, lt), lt),
    decreases s.len(),
{
    broadcast use vstd::seq_lib::group_to_multiset_ensures;

    let r = insert_by(s, x, lt);
    if s.len() == 0 {
        assert(r =~= seq![x]);
    } else if !lt(x, s.last()) {
        assert(r =~= s.push(x));
        assert forall|i: int, j: int| 0 <= i < j < r.len() implies !lt(#[trigger] r[j], #[trigger] r[i]) by {
            if j == s.len() {
                assert(r[j] == x && r[i] == s[i]);
                if i < s.len() - 1 && lt(x, s[i]) {
                    assert(!lt(s[s.len() - 1], s[i]));
                    assert(lt(x, s[i]) ==> lt(x, s.last()) || lt(s.last(), s[i]));
                }
            } else {
                assert(r[j] == s[j] && r[i] == s[i]);
            }
        }
    } else {
        let d = s.drop_last();
        let last = s.last();
        assert forall|i: int, j: int| 0 <= i < j < d.len() implies !lt(#[trigger] d[j], #[trigger] d[i]) by {
            assert(d[i] == s[i] && d[j] == s[j]);
        }
        lemma_insert_by_sorted(d, x, lt);
        lemma_insert_by_multiset(d, x, lt);
        let t = insert_by(d, x, lt);
        assert(r =~= t.push(last));
        assert forall|i: int, j: int| 0 <= i < j < r.len() implies !lt(#[trigger] r[j], #[trigger] r[i]) by {
            if j == t.len() {
                let e = t[i];
                assert(r[j] == last && r[i] == e);
                assert(t.contains(e));
                assert(t.to_multiset().count(e) > 0);
                if e == x {
                    if lt(last, x) {
                        assert(lt(last, x) && lt(x, last) ==> lt(last, last));
                    }
                } else {
                    assert(d.to_multiset().count(e) > 0);
                    assert(d.contains(e));
                    let k = choose|k: int| 0 <= k < d.len() && d[k] == e;
                    assert(s[k] == e);
                    assert(!lt(s[s.len() - 1], s[k]));
                }
            } else {
                assert(r[j] == t[j] && r[i] == t[i]);
            }
        }
    }
}

/// Sorting by a strict weak order leaves no element before an earlier one that it
/// comes after.
pub proof fn lemma_sort_by_sorted<T>(s: Seq<T>, lt: spec_fn(T, T) -> bool)
    requires
        strict_weak(lt),
    ensures
        sorted_by(sort_by(s, lt), lt),
    decreases s.len(),
{
    if s.len() > 0 {
        lemma_sort_by_sorted(s.drop_last(), lt);
        lemma_insert_by_sorted(sort_by(s.drop_last(), lt), s.last(), lt);
    }
}

proof fn lemma_dedup_by_contains<T>(s: Seq<T>, same: spec_fn(T, T) -> bool, a: T)
    requires
        forall|x: T, y: T| #[trigger] same(x, y) <==> x == y,
    ensures
        dedup_by(s, same).contains(a) <==> s.contains(a),
        s.len() > 0 ==> dedup_by(s, same).len() > 0 && dedup_by(s, same).last() == s.last(),
    decreases s.len(),
{
    if s.len() > 0 {
        let d0 = s.drop_last();
        lemma_dedup_by_contains(d0, same, a);
        let d = dedup_by(d0, same);
        let r = dedup_by(s, same);
        if d.len() > 0 && same(s.last(), d.last()) {
            assert(r == d);
            if s.contains(a) {
                let k = choose|k: int| 0 <= k < s.len() && s[k] == a;
                if k < s.len() - 1 {
                    assert(d0[k] == a);
                } else {
                    assert(d[d.len() - 1] == a);
                }
            }
            if d.contains(a) {
                assert(d0.contains(a));
                let k = choose|k: int| 0 <= k < d0.len() && d0[k] == a;
                assert(s[k] == a);
            }
        } else {
            assert(r == d.push(s.last()));
            assert(r[r.len() - 1] == s.last());
            if s.contains(a) {
                let k = choose|k: int| 0 <= k < s.len() && s[k] == a;
                if k < s.len() - 1 {
                    assert(d0[k] == a);
                    assert(d.contains(a));
                    let m = choose|m: int| 0 <= m < d.len() && d[m] == a;
                    assert(r[m] == a);
                }
            }
            if r.contains(a) {
                let m = choose|m: int| 0 <= m < r.len() && r[m] == a;
                if m < d.len() {
                    assert(d[m] == a);
                    assert(d0.contains(a));
                    let k = choose|k: int| 0 <= k < d0.len() && d0[k] == a;
                    assert(s[k] == a);
                } else {
                    assert(s[s.len() - 1] == a);
                }
            }
        }
    }
}

/// Removing repeated neighbours from a sorted sequence, where any two different elements
/// are ordered, leaves each element once and in strictly increasing order.
pub proof fn lemma_dedup_sorted_strict<T>(s: Seq<T>, lt: spec_fn(T, T) -> bool, same: spec_fn(T, T) -> bool)
    requires
        strict_weak(lt),
        forall|x: T, y: T| x != y ==> #[trigger] lt(x, y) || lt(y, x),
        forall|x: T, y: T| #[trigger] same(x, y) <==> x == y,
        sorted_by(s, lt),
    ensures
        forall|i: int, j: int|
            0 <= i < j < dedup_by(s, same).len() ==> lt(#[trigger] dedup_by(s, same)[i], #[trigger] dedup_by(
                s,
                same,
            )[j]),
        forall|a: T| #[trigger] dedup_by(s, same).contains(a) <==> s.contains(a),
    decreases s.len(),
{
    assert forall|a: T| #[trigger] dedup_by(s, same).contains(a) <==> s.contains(a) by {
        lemma_dedup_by_contains(s, same, a);
    }
    if s.len() > 0 {
        let d0 = s.drop_last();
        assert forall|i: int, j: int| 0 <= i < j < d0.len() implies !lt(#[trigger] d0[j], #[trigger] d0[i]) by {
            assert(d0[i] == s[i] && d0[j] == s[j]);
        }
        lemma_dedup_sorted_strict(d0, lt, same);
        let d = dedup_by(d0, same);
        let r = dedup_by(s, same);
        if !(d.len() > 0 && same(s.last(), d.last())) {
            assert(r == d.push(s.last()));
            if d.len() > 0 {
                lemma_dedup_by_contains(d0, same, d0.last());
                let p = d.last();
                assert(p == s[s.len() - 2]);
                assert(!lt(s[s.len() - 1], s[s.len() - 2]));
                assert(p != s.last());
                assert(lt(p, s.last()) || lt(s.last(), p));
                assert forall|i: int, j: int| 0 <= i < j < r.len() implies lt(#[trigger] r[i], #[trigger] r[j]) by {
                    if j == r.len() - 1 {
                        if i < d.len() - 1 {
                            assert(lt(d[i], d[d.len() - 1]));
                            assert(lt(d[i], p) && lt(p, s.last()) ==> lt(d[i], s.last()));
                        }
                        assert(r[i] == d[i]);
                    } else {
                        assert(r[i] == d[i] && r[j] == d[j]);
                    }
                }
            }
        }
    }
}

/// The order of ranks made of a number, a text and an identifier: by number, then text,
/// then identifier.
pub open spec fn rank_lt(x: (int, Seq<char>, Seq<char>), y: (int, Seq<char>, Seq<char>)) -> bool {
    x.0 < y.0 || (x.0 == y.0 && (crate::text::seq_lt(x.1, y.1) || (x.1 == y.1 && crate::text::seq_lt(x.2, y.2))))
}

proof fn lemma_rank_lt_total_order()
    ensures
        forall|x: (int, Seq<char>, Seq<char>)| !#[trigger] rank_lt(x, x),
        forall|x: (int, Seq<char>, Seq<char>), y: (int, Seq<char>, Seq<char>), z: (int, Seq<char>, Seq<char>)|
            #[trigger] rank_lt(x, y) && #[trigger] rank_lt(y, z) ==> rank_lt(x, z),
        forall|x: (int, Seq<char>, Seq<char>), y: (int, Seq<char>, Seq<char>)|
            x != y ==> #[trigger] rank_lt(x, y) || rank_lt(y, x),
{
    assert forall|x: (int, Seq<char>, Seq<char>)| !#[trigger] rank_lt(x, x) by {
        crate::text::lemma_seq_lt_irreflexive(x.1);
        crate::text::lemma_seq_lt_irreflexive(x.2);
    }
    assert forall|x: (int, Seq<char>, Seq<char>), y: (int, Seq<char>, Seq<char>), z: (int, Seq<char>, Seq<char>)|
        #[trigger] rank_lt(x, y) && #[trigger] rank_lt(y, z) implies rank_lt(x, z) by {
        if crate::text::seq_lt(x.1, y.1) && crate::text::seq_lt(y.1, z.1) {
            crate::text::lemma_seq_lt_transitive(x.1, y.1, z.1);
        }
        if crate::text::seq_lt(x.2, y.2) && crate::text::seq_lt(y.2, z.2) {
            crate::text::lemma_seq_lt_transitive(x.2, y.2, z.2);
        }
    }
    assert forall|x: (int, Seq<char>, Seq<char>), y: (int, Seq<char>, Seq<char>)|
        x != y implies #[trigger] rank_lt(x, y) || rank_lt(y, x) by {
        crate::text::lemma_seq_lt_total(x.1, y.1);
        crate::text::lemma_seq_lt_total(x.2, y.2);
    }
}

/// An order that compares elements by their ranks, in rank order or in reverse, is a
/// strict weak order.
pub proof fn lemma_by_rank_strict_weak<T>(
    lt: spec_fn(T, T) -> bool,
    rank: spec_fn(T) -> (int, Seq<char>, Seq<char>),
    reverse: bool,
)
    requires
        forall|a: T, b: T|
            #[trigger] lt(a, b) == if reverse {
                rank_lt(rank(b), rank(a))
            } else {
                rank_lt(rank(a), rank(b))
            },
    ensures
        strict_weak(lt),
{
    lemma_rank_lt_total_order();
    assert forall|a: T| !#[trigger] lt(a, a) by {
        assert(!rank_lt(rank(a), rank(a)));
    }
    assert forall|a: T, b: T, c: T| #[trigger] lt(a, b) && #[trigger] lt(b, c) implies lt(a, c) by {
        if reverse {
            assert(rank_lt(rank(c), rank(b)) && rank_lt(rank(b), rank(a)) ==> rank_lt(rank(c), rank(a)));
        } else {
            assert(rank_lt(rank(a), rank(b)) && rank_lt(rank(b), rank(c)) ==> rank_lt(rank(a), rank(c)));
        }
    }
    assert forall|a: T, b: T, c: T| lt(a, c) implies #[trigger] lt(a, b) || #[trigger] lt(b, c) by {
        let (ka, kb, kc) = (rank(a), rank(b), rank(c));
        assert(!rank_lt(ka, ka) && !rank_lt(kb, kb) && !rank_lt(kc, kc));
        assert(ka != kb ==> rank_lt(ka, kb) || rank_lt(kb, ka));
        assert(kb != kc ==> rank_lt(kb, kc) || rank_lt(kc, kb));
        if reverse {
            assert(rank_lt(kc, kb) && rank_lt(kb, ka) ==> rank_lt(kc, ka));
            assert(rank_lt(kb, kc) && rank_lt(kc, ka) ==> rank_lt(kb, ka));
            assert(rank_lt(kc, ka) && rank_lt(ka, kb) ==> rank_lt(kc, kb));
        } else {
            assert(rank_lt(ka, kb) && rank_lt(kb, kc) ==> rank_lt(ka, kc));
            assert(rank_lt(kb, ka) && rank_lt(ka, kc) ==> rank_lt(kb, kc));
            assert(rank_lt(ka, kc) && rank_lt(kc, kb) ==> rank_lt(ka, kb));
        }
    }
}

/// `compare` is a three-way comparison of a total preorder: each element ties with itself,
/// swapping the arguments negates the answer, and "not after" is transitive.
pub open spec fn comparator<T>(compare: spec_fn(T, T) -> int) -> bool {
    &&& forall|a: T| #[trigger] compare(a, a) == 0
    &&& forall|a: T, b: T| #[trigger] compare(a, b) == -compare(b, a)
    &&& forall|a: T, b: T, c: T| #[trigger] compare(a, b) <= 0 && #[trigger] compare(b, c) <= 0 ==> compare(a, c) <= 0
}

/// "Before" by a three-way comparison (or "after", for a descending order) is a strict
/// weak order.
pub proof fn lemma_comparator_strict_weak<T>(compare: spec_fn(T, T) -> int, lt: spec_fn(T, T) -> bool, descending: bool)
    requires
        comparator(compare),
        forall|a: T, b: T|
            #[trigger] lt(a, b) == if descending {
                compare(a, b) > 0
            } else {
                compare(a, b) < 0
            },
    ensures
        strict_weak(lt),
{
    assert forall|a: T| !#[trigger] lt(a, a) by {
        assert(compare(a, a) == 0);
    }
    assert forall|a: T, b: T, c: T| #[trigger] lt(a, b) && #[trigger] lt(b, c) implies lt(a, c) by {
        assert(compare(a, b) == -compare(b, a) && compare(b, c) == -compare(c, b) && compare(a, c) == -compare(c, a));
        if descending {
            assert(compare(c, b) <= 0 && compare(b, a) <= 0 ==> compare(c, a) <= 0);
            assert(compare(b, a) <= 0 && compare(a, c) <= 0 ==> compare(b, c) <= 0);
        } else {
            assert(compare(a, b) <= 0 && compare(b, c) <= 0 ==> compare(a, c) <= 0);
            assert(compare(c, a) <= 0 && compare(a, b) <= 0 ==> compare(c, b) <= 0);
        }
    }
    assert forall|a: T, b: T, c: T| lt(a, c) implies #[trigger] lt(a, b) || #[trigger] lt(b, c) by {
        assert(compare(a, b) == -compare(b, a) && compare(b, c) == -compare(c, b) && compare(a, c) == -compare(c, a));
        if descending {
            assert(compare(a, b) <= 0 && compare(b, c) <= 0 ==> compare(a, c) <= 0);
        } else {
            assert(compare(c, b) <= 0 && compare(b, a) <= 0 ==> compare(c, a) <= 0);
        }
    }
}

/// Comparing by `first`, and by `second` where `first` ties, is again a comparison of
/// a total preorder.
pub proof fn lemma_then_comparator<T>(
    first: spec_fn(T, T) -> int,
    second: spec_fn(T, T) -> int,
    both: spec_fn(T, T) -> int,
)
    requires
        comparator(first),
        comparator(second),
        forall|a: T, b: T|
            #[trigger] both(a, b) == if first(a, b) != 0 {
                first(a, b)
            } else {
                second(a, b)
            },
    ensures
        comparator(both),
{
    assert forall|a: T| #[trigger] both(a, a) == 0 by {
        assert(first(a, a) == 0 && second(a, a) == 0);
    }
    assert forall|a: T, b: T| #[trigger] both(a, b) == -both(b, a) by {
        assert(first(a, b) == -first(b, a) && second(a, b) == -second(b, a));
    }
    assert forall|a: T, b: T, c: T| #[trigger] both(a, b) <= 0 && #[trigger] both(b, c) <= 0 implies both(a, c) <= 0 by {
        assert(first(a, b) == -first(b, a) && first(b, c) == -first(c, b) && first(a, c) == -first(c, a));
        assert(first(a, b) <= 0 && first(b, c) <= 0 ==> first(a, c) <= 0);
        assert(first(c, a) <= 0 && first(a, b) <= 0 ==> first(c, b) <= 0);
        assert(first(b, c) <= 0 && first(c, a) <= 0 ==> first(b, a) <= 0);
        assert(second(a, b) <= 0 && second(b, c) <= 0 ==> second(a, c) <= 0);
    }
}

proof fn lemma_sorted_unique<T>(a: Seq<T>, b: Seq<T>, lt: spec_fn(T, T) -> bool)
    requires
        strict_weak(lt),
        sorted_by(a, lt),
        sorted_by(b, lt),
        a.to_multiset() == b.to_multiset(),
        forall|x: T, y: T| #![trigger a.contains(x), a.contains(y)] a.contains(x) && a.contains(y) && x != y ==> lt(x, y) || lt(y, x),
    ensures
        a == b,
    decreases a.len(),
{
    broadcast use vstd::seq_lib::group_to_multiset_ensures;

    if a.len() == 0 {
        assert(a.to_multiset().len() == a.len() && b.to_multiset().len() == b.len());
        assert(b.to_multiset().len() == 0);
        assert(b =~= a);
    } else {
        assert(a.to_multiset().len() == a.len() && b.to_multiset().len() == b.len());
        assert(b.len() == a.len());
        let x = a[0];
        let y = b[0];
        assert(a.contains(x));
        assert(b.to_multiset().count(y) > 0);
        assert(a.contains(y));
        if x != y {
            assert(b.to_multiset().count(x) > 0);
            let k = choose|k: int| 0 <= k < b.len() && b[k] == x;
            let m = choose|m: int| 0 <= m < a.len() && a[m] == y;
            assert(k > 0 && m > 0);
            assert(!lt(b[k], b[0]));
            assert(!lt(a[m], a[0]));
            assert(lt(x, y) || lt(y, x));
        }
        let a1 = a.drop_first();
        let b1 = b.drop_first();
        assert(a.remove(0) =~= a1);
        assert(b.remove(0) =~= b1);
        assert(a1.to_multiset() =~= b1.to_multiset());
        assert forall|i: int, j: int| 0 <= i < j < a1.len() implies !lt(#[trigger] a1[j], #[trigger] a1[i]) by {
            assert(a1[i] == a[i + 1] && a1[j] == a[j + 1]);
        }
        assert forall|i: int, j: int| 0 <= i < j < b1.len() implies !lt(#[trigger] b1[j], #[trigger] b1[i]) by {
            assert(b1[i] == b[i + 1] && b1[j] == b[j + 1]);
        }
        assert forall|u: T, v: T| #![trigger a1.contains(u), a1.contains(v)] a1.contains(u) && a1.contains(v) && u != v implies lt(u, v) || lt(v, u) by {
            let p = choose|p: int| 0 <= p < a1.len() && a1[p] == u;
            let q = choose|q: int| 0 <= q < a1.len() && a1[q] == v;
            assert(a[p + 1] == u && a[q + 1] == v);
            assert(a.contains(u) && a.contains(v));
        }
        lemma_sorted_unique(a1, b1, lt);
        assert(a =~= seq![x] + a1);
        assert(b =~= seq![y] + b1);
    }
}

/// Sorting by the reversed order gives the sorted sequence reversed, when no two
/// different elements tie.
pub proof fn lemma_sort_reversed<T>(s: Seq<T>, lt: spec_fn(T, T) -> bool, gt: spec_fn(T, T) -> bool)
    requires
        strict_weak(lt),
        forall|x: T, y: T| #[trigger] gt(x, y) == lt(y, x),
        forall|x: T, y: T| #![trigger s.contains(x), s.contains(y)] s.contains(x) && s.contains(y) && x != y ==> lt(x, y) || lt(y, x),
    ensures
        sort_by(s, gt) == sort_by(s, lt).reverse(),
{
    broadcast use vstd::seq_lib::group_to_multiset_ensures;

    assert forall|a: T| !#[trigger] gt(a, a) by {
        assert(gt(a, a) == lt(a, a));
    }
    assert forall|a: T, b: T, c: T| #[trigger] gt(a, b) && #[trigger] gt(b, c) implies gt(a, c) by {
        assert(gt(a, b) == lt(b, a) && gt(b, c) == lt(c, b) && gt(a, c) == lt(c, a));
        assert(lt(c, b) && lt(b, a) ==> lt(c, a));
    }
    assert forall|a: T, b: T, c: T| gt(a, c) implies #[trigger] gt(a, b) || #[trigger] gt(b, c) by {
        assert(gt(a, b) == lt(b, a) && gt(b, c) == lt(c, b) && gt(a, c) == lt(c, a));
        assert(lt(c, a) ==> lt(c, b) || lt(b, a));
    }
    let a = sort_by(s, lt);
    let d = sort_by(s, gt);
    let b = d.reverse();
    lemma_sort_by_sorted(s, lt);
    lemma_sort_by_sorted(s, gt);
    lemma_sort_by_multiset(s, lt);
    lemma_sort_by_multiset(s, gt);
    d.lemma_reverse_to_multiset();
    assert forall|i: int, j: int| 0 <= i < j < b.len() implies !lt(#[trigger] b[j], #[trigger] b[i]) by {
        let n = d.len();
        assert(b[i] == d[n - 1 - i] && b[j] == d[n - 1 - j]);
        assert(!gt(d[n - 1 - i], d[n - 1 - j]));
    }
    assert forall|x: T, y: T| #![trigger a.contains(x), a.contains(y)] a.contains(x) && a.contains(y) && x != y implies lt(x, y) || lt(y, x) by {
        assert(a.to_multiset().count(x) > 0 && a.to_multiset().count(y) > 0);
        assert(s.contains(x) && s.contains(y));
    }
    lemma_sorted_unique(a, b, lt);
}

} // verus!

verus! {

proof fn lemma_ties_swap<T>(b: Seq<T>, lt: spec_fn(T, T) -> bool, k: int)
    requires
        strict_weak(lt),
        sorted_by(b, lt),
        0 < k < b.len(),
        !lt(b[0], b[k]),
        !lt(b[k], b[0]),
    ensures
        sorted_by(b.update(0, b[k]).update(k, b[0]), lt),
        b.update(0, b[k]).update(k, b[0]).to_multiset() == b.to_multiset(),
{
    broadcast use vstd::seq_lib::to_multiset_update;
    broadcast use vstd::multiset::group_multiset_axioms;

    let x = b[k];
    let y = b[0];
    let c = b.update(0, x).update(k, y);
    assert forall|i: int, j: int| 0 <= i < j < c.len() implies !lt(#[trigger] c[j], #[trigger] c[i]) by {
        if i == 0 && j == k {
        } else if i == 0 {
            assert(c[j] == b[j] && !lt(b[j], y));
            if lt(b[j], x) {
                assert(lt(b[j], y) || lt(y, x));
            }
        } else if i == k {
            assert(c[j] == b[j] && !lt(b[j], x));
            if lt(b[j], y) {
                assert(lt(b[j], x) || lt(x, y));
            }
        } else if j == k {
            assert(c[i] == b[i] && !lt(x, b[i]));
            if lt(y, b[i]) {
                assert(lt(y, x) || lt(x, b[i]));
            }
        } else {
            assert(c[i] == b[i] && c[j] == b[j]);
        }
    }
    let m = b.update(0, x);
    assert(m.to_multiset() == b.to_multiset().insert(x).remove(y));
    assert(m[k] == x);
    assert(c.to_multiset() == m.to_multiset().insert(y).remove(x));
    let mb = b.to_multiset();
    assert(mb.count(x) > 0 && mb.count(y) > 0) by {
        broadcast use vstd::seq_lib::group_to_multiset_ensures;
        assert(b.contains(x) && b.contains(y));
    }
    assert forall|v: T| #[trigger] c.to_multiset().count(v) == mb.count(v) by {
        assert(mb.insert(x).count(y) > 0);
        if v == x && v == y {
        } else if v == x {
            assert(mb.insert(x).remove(y).count(v) == mb.count(v) + 1);
            assert(m.to_multiset().insert(y).count(v) == mb.count(v) + 1);
        } else if v == y {
            assert(mb.insert(x).remove(y).count(v) == mb.count(v) - 1);
        } else {
        }
    }
    assert(c.to_multiset() =~= mb);
}

proof fn lemma_sorted_keys_unique<T, K>(a: Seq<T>, b: Seq<T>, lt: spec_fn(T, T) -> bool, key: spec_fn(T) -> K)
    requires
        strict_weak(lt),
        sorted_by(a, lt),
        sorted_by(b, lt),
        a.to_multiset() == b.to_multiset(),
        forall|x: T, y: T|
            #![trigger a.contains(x), a.contains(y)]
            a.contains(x) && a.contains(y) && !lt(x, y) && !lt(y, x) ==> key(x) == key(y),
    ensures
        a.map_values(key) == b.map_values(key),
    decreases a.len(),
{
    broadcast use vstd::seq_lib::group_to_multiset_ensures;

    assert(a.to_multiset().len() == a.len() && b.to_multiset().len() == b.len());
    if a.len() == 0 {
        assert(b.len() == 0);
        assert(a.map_values(key) =~= b.map_values(key));
    } else {
        let x = a[0];
        let y = b[0];
        assert(a.contains(x));
        assert(b.to_multiset().count(x) > 0);
        assert(b.contains(x));
        assert(b.to_multiset().count(y) > 0);
        assert(a.contains(y));
        let k = choose|k: int| 0 <= k < b.len() && b[k] == x;
        let m = choose|m: int| 0 <= m < a.len() && a[m] == y;
        if k > 0 {
            assert(!lt(b[k], b[0]));
        }
        if m > 0 {
            assert(!lt(a[m], a[0]));
        }
        assert(!lt(x, y) && !lt(y, x));
        assert(key(x) == key(y));
        let c = if k == 0 {
            b
        } else {
            lemma_ties_swap(b, lt, k);
            b.update(0, x).update(k, y)
        };
        assert(sorted_by(c, lt) && c.to_multiset() == b.to_multiset());
        assert(c[0] == x);
        assert(c.map_values(key) =~= b.map_values(key)) by {
            assert forall|i: int| 0 <= i < c.len() implies key(#[trigger] c[i]) == key(b[i]) by {
                if k > 0 && i == 0 {
                    assert(c[i] == x && b[i] == y);
                } else if k > 0 && i == k {
                    assert(c[i] == y && b[i] == x);
                }
            }
        }
        let a1 = a.drop_first();
        let c1 = c.drop_first();
        assert(a.remove(0) =~= a1);
        assert(c.remove(0) =~= c1);
        assert(a1.to_multiset() =~= c1.to_multiset());
        assert forall|i: int, j: int| 0 <= i < j < a1.len() implies !lt(#[trigger] a1[j], #[trigger] a1[i]) by {
            assert(a1[i] == a[i + 1] && a1[j] == a[j + 1]);
        }
        assert forall|i: int, j: int| 0 <= i < j < c1.len() implies !lt(#[trigger] c1[j], #[trigger] c1[i]) by {
            assert(c1[i] == c[i + 1] && c1[j] == c[j + 1]);
        }
        assert forall|u: T, v: T|
            #![trigger a1.contains(u), a1.contains(v)]
            a1.contains(u) && a1.contains(v) && !lt(u, v) && !lt(v, u) implies key(u) == key(v) by {
            let p = choose|p: int| 0 <= p < a1.len() && a1[p] == u;
            let q = choose|q: int| 0 <= q < a1.len() && a1[q] == v;
            assert(a[p + 1] == u && a[q + 1] == v);
            assert(a.contains(u) && a.contains(v));
        }
        lemma_sorted_keys_unique(a1, c1, lt, key);
        assert(a.map_values(key) =~= seq![key(x)] + a1.map_values(key));
        assert(c.map_values(key) =~= seq![key(x)] + c1.map_values(key));
    }
}

/// Sorting by the reversed order gives the sorted sequence reversed, as far as `key`
/// tells, when elements that tie have the same key.
pub proof fn lemma_sort_reversed_keys<T, K>(s: Seq<T>, lt: spec_fn(T, T) -> bool, gt: spec_fn(T, T) -> bool, key: spec_fn(T) -> K)
    requires
        strict_weak(lt),
        forall|x: T, y: T| #[trigger] gt(x, y) == lt(y, x),
        forall|x: T, y: T|
            #![trigger s.contains(x), s.contains(y)]
            s.contains(x) && s.contains(y) && !lt(x, y) && !lt(y, x) ==> key(x) == key(y),
    ensures
        sort_by(s, gt).map_values(key) == sort_by(s, lt).map_values(key).reverse(),
{
    broadcast use vstd::seq_lib::group_to_multiset_ensures;

    assert forall|a: T| !#[trigger] gt(a, a) by {
        assert(gt(a, a) == lt(a, a));
    }
    assert forall|a: T, b: T, c: T| #[trigger] gt(a, b) && #[trigger] gt(b, c) implies gt(a, c) by {
        assert(gt(a, b) == lt(b, a) && gt(b, c) == lt(c, b) && gt(a, c) == lt(c, a));
        assert(lt(c, b) && lt(b, a) ==> lt(c, a));
    }
    let a = sort_by(s, lt);
    let d = sort_by(s, gt);
    let b = d.reverse();
    lemma_sort_by_sorted(s, lt);
    assert forall|a1: T, b1: T, c1: T| gt(a1, c1) implies #[trigger] gt(a1, b1) || #[trigger] gt(b1, c1) by {
        assert(gt(a1, b1) == lt(b1, a1) && gt(b1, c1) == lt(c1, b1) && gt(a1, c1) == lt(c1, a1));
        assert(lt(c1, a1) ==> lt(c1, b1) || lt(b1, a1));
    }
    lemma_sort_by_sorted(s, gt);
    lemma_sort_by_multiset(s, lt);
    lemma_sort_by_multiset(s, gt);
    d.lemma_reverse_to_multiset();
    assert forall|i: int, j: int| 0 <= i < j < b.len() implies !lt(#[trigger] b[j], #[trigger] b[i]) by {
        let n = d.len();
        assert(b[i] == d[n - 1 - i] && b[j] == d[n - 1 - j]);
        assert(!gt(d[n - 1 - i], d[n - 1 - j]));
    }
    assert forall|x: T, y: T|
        #![trigger a.contains(x), a.contains(y)]
        a.contains(x) && a.contains(y) && !lt(x, y) && !lt(y, x) implies key(x) == key(y) by {
        assert(a.to_multiset().count(x) > 0 && a.to_multiset().count(y) > 0);
        assert(s.contains(x) && s.contains(y));
    }
    lemma_sorted_keys_unique(a, b, lt, key);
    assert(d.map_values(key) =~= b.map_values(key).reverse());
}

} // verus!
