//! Stable sorting.

use vstd::prelude::*;

verus! {

/// Values that are ordered, where several may rank alike.
pub trait Ranked: Sized {
    /// `self` ranks below `other`.
    spec fn under(self, other: Self) -> bool;

    /// Of two values at most one ranks below the other.
    proof fn one_way(a: Self, b: Self)
        requires
            a.under(b),
        ensures
            !b.under(a),
    ;

    /// What does not rank below stays so along a chain.
    proof fn chain(a: Self, b: Self, c: Self)
        requires
            !b.under(a),
            !c.under(b),
        ensures
            !c.under(a),
    ;

    /// Whether `self` ranks below `other`.
    fn ranks_under(&self, other: &Self) -> (res: bool)
        ensures
            res == self.under(*other),
    ;
}

/// `order` names each of the places `0 .. n` once.
pub open spec fn is_order(order: Seq<int>, n: nat) -> bool {
    &&& order.len() == n
    &&& forall|i: int| 0 <= i < n ==> 0 <= #[trigger] order[i] < n
    &&& forall|i: int, j: int|
        0 <= i < j < n ==> #[trigger] order[i] != #[trigger] order[j]
}

/// Taken in the order `order`, the items come out as `sorted`, none ranks below
/// one before it, and those that rank alike keep their order.
pub open spec fn sorts_by<T: Ranked>(items: Seq<T>, sorted: Seq<T>, order: Seq<int>) -> bool {
    &&& is_order(order, items.len())
    &&& sorted.len() == items.len()
    &&& forall|i: int| 0 <= i < sorted.len() ==> #[trigger] sorted[i] == items[order[i]]
    &&& forall|i: int, j: int|
        0 <= i < j < sorted.len() ==> !(#[trigger] sorted[j]).under(#[trigger] sorted[i]) && (
        sorted[i].under(sorted[j]) || order[i] < order[j])
}

/// `sorted` holds the items in ascending rank; those that rank alike keep their
/// order.
pub open spec fn stably_sorted<T: Ranked>(items: Seq<T>, sorted: Seq<T>) -> bool {
    exists|order: Seq<int>| #[trigger] sorts_by(items, sorted, order)
}

/// Stable sorting leaves no choice: two results are the same.
pub proof fn stable_order_is_unique<T: Ranked>(items: Seq<T>, a: Seq<T>, b: Seq<T>)
    requires
        stably_sorted(items, a),
        stably_sorted(items, b),
    ensures
        a == b,
{
    let p = choose|order: Seq<int>| #[trigger] sorts_by(items, a, order);
    let q = choose|order: Seq<int>| #[trigger] sorts_by(items, b, order);
    assert forall|i: int| 0 <= i < a.len() implies #[trigger] p[i] == q[i] by {
        lemma_same_place(items, a, b, p, q, i);
    }
    assert(a =~= b);
}

proof fn lemma_same_place<T: Ranked>(
    items: Seq<T>,
    a: Seq<T>,
    b: Seq<T>,
    p: Seq<int>,
    q: Seq<int>,
    i: int,
)
    requires
        sorts_by(items, a, p),
        sorts_by(items, b, q),
        0 <= i < items.len(),
    ensures
        p[i] == q[i],
    decreases i,
{
    assert forall|k: int| 0 <= k < i implies #[trigger] p[k] == q[k] by {
        lemma_same_place(items, a, b, p, q, k);
    }
    if p[i] != q[i] {
        lemma_order_covers(q, items.len(), p[i]);
        lemma_order_covers(p, items.len(), q[i]);
        let j = choose|j: int| 0 <= j < q.len() && #[trigger] q[j] == p[i];
        let k = choose|k: int| 0 <= k < p.len() && #[trigger] p[k] == q[i];
        assert(j != i);
        assert(k != i);
        if j < i {
            assert(p[j] == q[j]);
        }
        if k < i {
            assert(p[k] == q[k]);
        }
        assert(i < j && i < k);
        assert(a[i] == items[p[i]] && a[k] == items[p[k]]);
        assert(b[i] == items[q[i]] && b[j] == items[q[j]]);
        assert(!a[k].under(a[i]) && (a[i].under(a[k]) || p[i] < p[k]));
        assert(!b[j].under(b[i]) && (b[i].under(b[j]) || q[i] < q[j]));
    }
}

/// An order leaves no place out.
pub proof fn lemma_order_covers(order: Seq<int>, n: nat, place: int)
    requires
        is_order(order, n),
        0 <= place < n,
    ensures
        exists|i: int| 0 <= i < n && #[trigger] order[i] == place,
{
    if forall|i: int| 0 <= i < n ==> #[trigger] order[i] != place {
        let places = Set::<int>::new(|x: int| 0 <= x < n);
        vstd::set_lib::lemma_int_range(0, n as int);
        assert(places =~= vstd::set_lib::set_int_range(0, n as int));
        let short = places.remove(place);
        assert(order.no_duplicates());
        let used = order.to_set();
        order.unique_seq_to_set();
        assert(used.subset_of(short)) by {
            assert forall|x: int| used.contains(x) implies short.contains(x) by {
                let i = choose|i: int| 0 <= i < order.len() && order[i] == x;
                assert(order[i] == x);
            }
        }
        vstd::set_lib::lemma_len_subset(used, short);
    }
}

/// The place at which an item goes into a sorted list.
proof fn lemma_place<T: Ranked>(sorted: Seq<T>, item: T, n: int) -> (at: int)
    requires
        0 <= n <= sorted.len(),
        forall|k: int| n <= k < sorted.len() ==> item.under(#[trigger] sorted[k]),
    ensures
        0 <= at <= sorted.len(),
        forall|k: int| at <= k < sorted.len() ==> item.under(#[trigger] sorted[k]),
        at > 0 ==> !item.under(sorted[at - 1]),
    decreases n,
{
    if n > 0 && item.under(sorted[n - 1]) {
        lemma_place(sorted, item, n - 1)
    } else {
        n
    }
}

/// Every list can be sorted.
pub proof fn every_list_sorts<T: Ranked>(items: Seq<T>)
    ensures
        exists|sorted: Seq<T>| #[trigger] stably_sorted(items, sorted),
    decreases items.len(),
{
    if items.len() == 0 {
        assert(sorts_by(items, items, Seq::<int>::empty()));
        assert(stably_sorted(items, items));
    } else {
        let front = items.drop_last();
        every_list_sorts(front);
        let s = choose|sorted: Seq<T>| #[trigger] stably_sorted(front, sorted);
        let order = choose|order: Seq<int>| #[trigger] sorts_by(front, s, order);
        let at = lemma_place(s, items.last(), s.len() as int);
        lemma_inserted(front, s, order, items.last(), at);
        assert(front.push(items.last()) =~= items);
        assert(stably_sorted(items, s.insert(at, items.last())));
    }
}

/// Sort the items by rank; those that rank alike keep their order.
pub fn stable_sort<T: Ranked>(items: Vec<T>) -> (sorted: Vec<T>)
    ensures
        stably_sorted(items@, sorted@),
{
    let ghost all = items@;
    let mut rest: Vec<T> = items;
    let mut sorted: Vec<T> = Vec::new();
    let ghost mut order: Seq<int> = Seq::empty();
    let ghost mut done: int = 0;
    assert(all.skip(0) =~= all);
    assert(all.take(0) =~= Seq::empty());
    while rest.len() > 0
        invariant
            0 <= done <= all.len(),
            rest@ == all.skip(done),
            sorts_by(all.take(done), sorted@, order),
        decreases rest.len(),
    {
        let item: T = rest.remove(0);
        assert(rest@ =~= all.skip(done + 1));
        let ghost before = sorted@;
        let mut at: usize = sorted.len();
        while at > 0 && item.ranks_under(&sorted[at - 1])
            invariant
                at <= sorted.len(),
                forall|k: int| at <= k < sorted.len() ==> item.under(#[trigger] sorted@[k]),
            decreases at,
        {
            at = at - 1;
        }
        sorted.insert(at, item);
        proof {
            let next = order.insert(at as int, done);
            lemma_inserted(all.take(done), before, order, item, at as int);
            assert(all.take(done).push(item) =~= all.take(done + 1));
            order = next;
            done = done + 1;
        }
    }
    assert(all.take(done) =~= all);
    sorted
}

proof fn lemma_inserted<T: Ranked>(
    items: Seq<T>,
    sorted: Seq<T>,
    order: Seq<int>,
    item: T,
    at: int,
)
    requires
        sorts_by(items, sorted, order),
        0 <= at <= sorted.len(),
        forall|k: int| at <= k < sorted.len() ==> item.under(#[trigger] sorted[k]),
        at > 0 ==> !item.under(sorted[at - 1]),
    ensures
        sorts_by(
            items.push(item),
            sorted.insert(at, item),
            order.insert(at, items.len() as int),
        ),
{
    let n = items.len();
    let s = sorted.insert(at, item);
    let o = order.insert(at, n as int);
    let all = items.push(item);
    assert forall|i: int| 0 <= i < s.len() implies #[trigger] s[i] == all[o[i]] by {
        if i < at {
            assert(s[i] == sorted[i]);
        } else if i > at {
            assert(s[i] == sorted[i - 1]);
        }
    }
    assert forall|i: int| 0 <= i < n + 1 implies 0 <= #[trigger] o[i] < n + 1 by {
        if i < at {
            assert(o[i] == order[i]);
        } else if i > at {
            assert(o[i] == order[i - 1]);
        }
    }
    assert forall|i: int, j: int| 0 <= i < j < n + 1 implies #[trigger] o[i] != #[trigger] o[j] by {
        let x = if i < at { i } else { i - 1 };
        let y = if j < at { j } else { j - 1 };
        if i != at {
            assert(o[i] == order[x]);
        }
        if j != at {
            assert(o[j] == order[y]);
        }
    }
    assert forall|i: int, j: int| 0 <= i < j < s.len() implies !(#[trigger] s[j]).under(
        #[trigger] s[i],
    ) && (s[i].under(s[j]) || o[i] < o[j]) by {
        let x = if i < at { i } else { i - 1 };
        let y = if j < at { j } else { j - 1 };
        if i == at {
            assert(s[j] == sorted[j - 1]);
            assert(item.under(sorted[j - 1]));
            T::one_way(item, sorted[j - 1]);
        } else if j == at {
            assert(s[i] == sorted[i]);
            if i < at - 1 {
                assert(!sorted[at - 1].under(sorted[i]));
                T::chain(sorted[i], sorted[at - 1], item);
            }
            assert(o[i] == order[i]);
        } else {
            assert(s[i] == sorted[x] && s[j] == sorted[y]);
            assert(o[i] == order[x] && o[j] == order[y]);
        }
    }
}

/// A list in which nothing ranks below what stands before it is left as it is, even
/// where several of its items rank alike.
pub proof fn sorted_lists_stay<T: Ranked>(items: Seq<T>, sorted: Seq<T>)
    requires
        forall|i: int, j: int|
            0 <= i < j < items.len() ==> !(#[trigger] items[j]).under(#[trigger] items[i]),
        stably_sorted(items, sorted),
    ensures
        sorted == items,
{
    let order = Seq::new(items.len(), |i: int| i);
    assert(sorts_by(items, items, order));
    stable_order_is_unique(items, items, sorted);
}

} // verus!
