//! Stable sorting, by insertion.
use vstd::prelude::*;

verus! {

/// `x` set into the row `s`: after the last item that it does not go before.
pub open spec fn place<T>(s: Seq<T>, x: T, before: spec_fn(T, T) -> bool) -> Seq<T>
    decreases s.len(),
{
    if s.len() == 0 || !before(x, s.last()) {
        s.push(x)
    } else {
        place(s.drop_last(), x, before).push(s.last())
    }
}

/// The items of `s` in ascending order; items of equal rank keep their order.
pub open spec fn stable_sort<T>(s: Seq<T>, before: spec_fn(T, T) -> bool) -> Seq<T>
    decreases s.len(),
{
    if s.len() == 0 {
        s
    } else {
        place(stable_sort(s.drop_last(), before), s.last(), before)
    }
}

/// Whether neither item goes before the other.
pub open spec fn tie<T>(a: T, b: T, before: spec_fn(T, T) -> bool) -> bool {
    !before(a, b) && !before(b, a)
}

/// Whether `before` ranks items: no item goes before itself, going before is
/// transitive, and so is being of equal rank.
pub open spec fn is_ranking<T>(before: spec_fn(T, T) -> bool) -> bool {
    &&& forall|a: T| !#[trigger] before(a, a)
    &&& forall|a: T, b: T, c: T| #[trigger]
        before(a, b) && #[trigger] before(b, c) ==> before(a, c)
    &&& forall|a: T, b: T, c: T| #[trigger]
        tie(a, b, before) && #[trigger] tie(b, c, before) ==> tie(a, c, before)
}

/// Whether no item of the row goes before an earlier one.
pub open spec fn ascending<T>(s: Seq<T>, before: spec_fn(T, T) -> bool) -> bool {
    forall|i: int, j: int| 0 <= i < j < s.len() ==> !before(#[trigger] s[j], #[trigger] s[i])
}

/// `place` inserts at the position behind which every item is one that `x` goes before.
pub proof fn lemma_place<T>(s: Seq<T>, x: T, before: spec_fn(T, T) -> bool, k: int)
    requires
        0 <= k <= s.len(),
        forall|j: int| k <= j < s.len() ==> before(x, #[trigger] s[j]),
        k > 0 ==> !before(x, s[k - 1]),
    ensures
        place(s, x, before) == s.insert(k, x),
    decreases s.len(),
{
    if k < s.len() {
        assert(before(x, s[s.len() - 1]));
        assert forall|j: int| k <= j < s.drop_last().len() implies before(
            x,
            #[trigger] s.drop_last()[j],
        ) by {
            assert(s.drop_last()[j] == s[j]);
        }
        lemma_place(s.drop_last(), x, before, k);
        assert(s.drop_last().insert(k, x).push(s.last()) == s.insert(k, x));
    } else {
        assert(s.insert(k, x) == s.push(x));
    }
}

/// Some position satisfies what `lemma_place` asks for.
pub proof fn lemma_place_exists<T>(s: Seq<T>, x: T, before: spec_fn(T, T) -> bool) -> (k: int)
    ensures
        0 <= k <= s.len(),
        forall|j: int| k <= j < s.len() ==> before(x, #[trigger] s[j]),
        k > 0 ==> !before(x, s[k - 1]),
        place(s, x, before) == s.insert(k, x),
    decreases s.len(),
{
    if s.len() == 0 || !before(x, s.last()) {
        lemma_place(s, x, before, s.len() as int);
        s.len() as int
    } else {
        let k = lemma_place_exists(s.drop_last(), x, before);
        assert forall|j: int| k <= j < s.len() implies before(x, #[trigger] s[j]) by {
            if j < s.len() - 1 {
                assert(s.drop_last()[j] == s[j]);
            }
        }
        lemma_place(s, x, before, k);
        k
    }
}

/// Sorting neither adds nor drops an item.
pub proof fn law_sort_keeps_items<T>(s: Seq<T>, before: spec_fn(T, T) -> bool)
    ensures
        stable_sort(s, before).to_multiset() == s.to_multiset(),
        stable_sort(s, before).len() == s.len(),
    decreases s.len(),
{
    broadcast use vstd::seq_lib::group_to_multiset_ensures;

    if s.len() > 0 {
        let r = stable_sort(s.drop_last(), before);
        law_sort_keeps_items(s.drop_last(), before);
        let k = lemma_place_exists(r, s.last(), before);
        assert(r.insert(k, s.last()).to_multiset() == r.to_multiset().insert(s.last()));
        assert(s.drop_last().push(s.last()) == s);
    }
}

/// An item is in the sorted row exactly when it is in the row.
pub proof fn lemma_sort_contains<T>(s: Seq<T>, before: spec_fn(T, T) -> bool, x: T)
    ensures
        stable_sort(s, before).contains(x) <==> s.contains(x),
{
    broadcast use vstd::seq_lib::group_to_multiset_ensures;

    law_sort_keeps_items(s, before);
    assert(s.to_multiset().count(x) > 0 <==> s.contains(x));
    assert(stable_sort(s, before).to_multiset().count(x) > 0 <==> stable_sort(s, before).contains(x));
}

/// A sorted row is in ascending order.
pub proof fn law_sort_orders<T>(s: Seq<T>, before: spec_fn(T, T) -> bool)
    requires
        is_ranking(before),
    ensures
        ascending(stable_sort(s, before), before),
    decreases s.len(),
{
    if s.len() > 0 {
        let r = stable_sort(s.drop_last(), before);
        let x = s.last();
        law_sort_orders(s.drop_last(), before);
        let k = lemma_place_exists(r, x, before);
        let t = r.insert(k, x);
        assert forall|i: int, j: int| 0 <= i < j < t.len() implies !before(
            #[trigger] t[j],
            #[trigger] t[i],
        ) by {
            let a = if i < k { r[i] } else if i == k { x } else { r[i - 1] };
            let b = if j < k { r[j] } else if j == k { x } else { r[j - 1] };
            assert(t[i] == a && t[j] == b);
            if j == k {
                // x does not go before r[k - 1], which does not go before r[i]
                let c = r[k - 1];
                assert(!before(x, c));
                assert(i < k - 1 ==> !before(c, a));
                lemma_not_before(a, c, x, before);
            } else if i == k {
                assert(before(x, r[j - 1]));
            }
        }
    }
}

/// Not going before is transitive.
pub proof fn lemma_not_before<T>(a: T, b: T, c: T, before: spec_fn(T, T) -> bool)
    requires
        is_ranking(before),
        !before(b, a),
        !before(c, b),
    ensures
        !before(c, a),
{
    if before(c, a) {
        if before(a, b) {
            assert(before(c, b));
        } else {
            assert(tie(a, b, before));
            if before(b, c) {
                assert(before(b, a));
            } else {
                assert(tie(b, c, before));
                assert(tie(a, c, before));
            }
        }
    }
}

/// The items of `s` that are of the same rank as `x`, in the order of `s`.
pub open spec fn of_rank<T>(s: Seq<T>, x: T, before: spec_fn(T, T) -> bool) -> Seq<T> {
    s.filter(|y: T| tie(x, y, before))
}

/// Items of equal rank keep the order that they had before sorting.
pub proof fn law_sort_is_stable<T>(s: Seq<T>, before: spec_fn(T, T) -> bool, x: T)
    requires
        is_ranking(before),
    ensures
        of_rank(stable_sort(s, before), x, before) == of_rank(s, x, before),
    decreases s.len(),
{
    if s.len() > 0 {
        let r = stable_sort(s.drop_last(), before);
        law_sort_is_stable(s.drop_last(), before, x);
        lemma_place_is_stable(r, s.last(), before, x);
        lemma_of_rank_push(r, s.last(), before, x);
        lemma_of_rank_push(s.drop_last(), s.last(), before, x);
        assert(s.drop_last().push(s.last()) == s);
    }
}

/// One more item is of the rank of `x` or it is not.
pub proof fn lemma_of_rank_push<T>(s: Seq<T>, e: T, before: spec_fn(T, T) -> bool, x: T)
    ensures
        of_rank(s.push(e), x, before) == if tie(x, e, before) {
            of_rank(s, x, before).push(e)
        } else {
            of_rank(s, x, before)
        },
{
    reveal(Seq::filter);
    assert(s.push(e).drop_last() == s);
}

proof fn lemma_place_is_stable<T>(s: Seq<T>, e: T, before: spec_fn(T, T) -> bool, x: T)
    requires
        is_ranking(before),
    ensures
        of_rank(place(s, e, before), x, before) == of_rank(s.push(e), x, before),
    decreases s.len(),
{
    if s.len() > 0 && before(e, s.last()) {
        let d = s.last();
        let rest = s.drop_last();
        lemma_place_is_stable(rest, e, before, x);
        lemma_of_rank_push(place(rest, e, before), d, before, x);
        lemma_of_rank_push(rest, e, before, x);
        lemma_of_rank_push(rest, d, before, x);
        lemma_of_rank_push(s, e, before, x);
        assert(rest.push(d) == s);
        if tie(x, e, before) && tie(x, d, before) {
            assert(tie(e, x, before));
            assert(tie(e, d, before));
        }
    }
}

/// Where nothing is of the rank of `x`, its rank is empty; else the first item of its rank
/// is the first of the row.
pub proof fn lemma_first_of_rank<T>(s: Seq<T>, x: T, before: spec_fn(T, T) -> bool) -> (m: int)
    ensures
        0 <= m <= s.len(),
        forall|n: int| 0 <= n < m ==> !tie(x, #[trigger] s[n], before),
        m == s.len() <==> of_rank(s, x, before).len() == 0,
        m < s.len() ==> tie(x, s[m], before) && of_rank(s, x, before)[0] == s[m],
    decreases s.len(),
{
    if s.len() == 0 {
        reveal(Seq::filter);
        0
    } else {
        let rest = s.drop_last();
        let m = lemma_first_of_rank(rest, x, before);
        lemma_of_rank_push(rest, s.last(), before, x);
        assert(rest.push(s.last()) == s);
        assert forall|n: int| 0 <= n < m implies !tie(x, #[trigger] s[n], before) by {
            assert(rest[n] == s[n]);
        }
        if m < rest.len() || tie(x, s.last(), before) {
            m
        } else {
            s.len() as int
        }
    }
}

// ---------- sorting by position ----------

/// The positions from zero up to `n`.
pub open spec fn positions(n: nat) -> Seq<int> {
    Seq::new(n, |i: int| i)
}

/// The order of the positions of a row by the items that stand there.
pub open spec fn by_item<T>(s: Seq<T>, before: spec_fn(T, T) -> bool) -> spec_fn(int, int) -> bool {
    |i: int, j: int| before(s[i], s[j])
}

proof fn lemma_place_mapped<T>(s: Seq<T>, before: spec_fn(T, T) -> bool, row: Seq<int>, x: int)
    ensures
        place(row, x, by_item(s, before)).map_values(|i: int| s[i]) == place(
            row.map_values(|i: int| s[i]),
            s[x],
            before,
        ),
    decreases row.len(),
{
    let f = |i: int| s[i];
    let items = row.map_values(f);
    if row.len() == 0 || !before(s[x], s[row.last()]) {
        assert(row.push(x).map_values(f) == items.push(s[x]));
    } else {
        let rest = row.drop_last();
        lemma_place_mapped(s, before, rest, x);
        assert(items.drop_last() == rest.map_values(f));
        assert(items.last() == s[row.last()]);
        let placed = place(rest, x, by_item(s, before));
        assert(placed.push(row.last()).map_values(f) == placed.map_values(f).push(s[row.last()]));
    }
}

proof fn lemma_sort_mapped<T>(s: Seq<T>, before: spec_fn(T, T) -> bool, n: nat)
    requires
        n <= s.len(),
    ensures
        stable_sort(positions(n), by_item(s, before)).map_values(|i: int| s[i]) == stable_sort(
            s.take(n as int),
            before,
        ),
    decreases n,
{
    let f = |i: int| s[i];
    if n == 0 {
        assert(positions(n).map_values(f) == s.take(0));
    } else {
        let m = (n - 1) as nat;
        lemma_sort_mapped(s, before, m);
        assert(positions(n).drop_last() == positions(m));
        assert(s.take(n as int).drop_last() == s.take(m as int));
        assert(s.take(n as int).last() == s[m as int]);
        lemma_place_mapped(s, before, stable_sort(positions(m), by_item(s, before)), m as int);
    }
}

proof fn lemma_sorted_positions<T>(s: Seq<T>, before: spec_fn(T, T) -> bool, n: nat)
    requires
        is_ranking(before),
        n <= s.len(),
    ensures
        ({
            let r = stable_sort(positions(n), by_item(s, before));
            &&& r.len() == n
            &&& forall|i: int| 0 <= i < n ==> 0 <= #[trigger] r[i] < n
            &&& forall|i: int, j: int|
                0 <= i < j < n ==> !before(s[#[trigger] r[j]], s[#[trigger] r[i]]) && (tie(
                    s[r[i]],
                    s[r[j]],
                    before,
                ) ==> r[i] < r[j])
        }),
    decreases n,
{
    if n > 0 {
        let m = (n - 1) as nat;
        let order = by_item(s, before);
        let r = stable_sort(positions(m), order);
        lemma_sorted_positions(s, before, m);
        assert(positions(n).drop_last() == positions(m));
        let x = m as int;
        let k = lemma_place_exists(r, x, order);
        let t = r.insert(k, x);
        assert forall|i: int| 0 <= i < n implies 0 <= #[trigger] t[i] < n by {
            assert(i != k ==> t[i] == r[if i < k { i } else { i - 1 }]);
        }
        assert forall|i: int, j: int| 0 <= i < j < n implies !before(
            s[#[trigger] t[j]],
            s[#[trigger] t[i]],
        ) && (tie(s[t[i]], s[t[j]], before) ==> t[i] < t[j]) by {
            let a = if i < k { r[i] } else if i == k { x } else { r[i - 1] };
            let b = if j < k { r[j] } else if j == k { x } else { r[j - 1] };
            assert(t[i] == a && t[j] == b);
            if j == k {
                let c = r[k - 1];
                assert(!order(x, c));
                assert(i < k - 1 ==> !before(s[c], s[a]));
                assert(!before(s[a], s[a]));
                lemma_not_before(s[a], s[c], s[x], before);
            } else if i == k {
                assert(order(x, r[j - 1]));
                assert(before(s[x], s[b]));
                assert(!before(s[x], s[x]));
                if before(s[b], s[x]) {
                    assert(before(s[x], s[x]));
                }
            }
        }
    }
}

/// A sorted row holds each item of the row once, under some order of their positions: one
/// in which no item goes before an earlier one, and items of equal rank stand as they stood.
pub proof fn law_sort_permutes<T>(s: Seq<T>, before: spec_fn(T, T) -> bool) -> (order: Seq<int>)
    requires
        is_ranking(before),
    ensures
        order.len() == s.len(),
        forall|i: int| 0 <= i < order.len() ==> 0 <= #[trigger] order[i] < s.len(),
        order.no_duplicates(),
        stable_sort(s, before) == Seq::new(s.len(), |i: int| s[order[i]]),
        forall|i: int, j: int|
            0 <= i < j < order.len() ==> !before(s[#[trigger] order[j]], s[#[trigger] order[i]])
                && (!before(s[order[i]], s[order[j]]) ==> order[i] < order[j]),
{
    let r = stable_sort(positions(s.len()), by_item(s, before));
    lemma_sort_mapped(s, before, s.len());
    lemma_sorted_positions(s, before, s.len());
    assert(s.take(s.len() as int) == s);
    assert(r.map_values(|i: int| s[i]) == Seq::new(s.len(), |i: int| s[r[i]]));
    assert forall|i: int, j: int| 0 <= i < j < r.len() implies !before(
        s[#[trigger] r[j]],
        s[#[trigger] r[i]],
    ) && (!before(s[r[i]], s[r[j]]) ==> r[i] < r[j]) by {
        assert(!before(s[r[i]], s[r[j]]) ==> tie(s[r[i]], s[r[j]], before));
    }
    assert forall|i: int, j: int| 0 <= i < r.len() && 0 <= j < r.len() && i != j implies r[i]
        != r[j] by {
        assert(!before(s[r[i]], s[r[i]]));
        if r[i] == r[j] {
            let (a, b) = if i < j { (i, j) } else { (j, i) };
            assert(!before(s[r[b]], s[r[a]]));
        }
    }
    r
}

} // verus!
