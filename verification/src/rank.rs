//! Ordering a list by rank, highest first, ties in their old order.

use vstd::prelude::*;

verus! {

/// Something that has a place in a descending order.
pub trait Ranked {
    spec fn rank(&self) -> int;

    /// Tests whether this comes ahead of another, or ties with it.
    fn ranks_at_least(&self, other: &Self) -> (r: bool)
        ensures
            r == (self.rank() >= other.rank()),
    ;
}

/// How many items at the front of a list rank at least as high as `x`.
pub open spec fn slot<T: Ranked>(list: Seq<T>, x: T) -> int
    decreases list.len(),
{
    if list.len() == 0 {
        0
    } else if list.last().rank() >= x.rank() {
        list.len() as int
    } else {
        slot(list.drop_last(), x)
    }
}

/// A list in descending order, each item placed behind those ahead of it that
/// rank at least as high.
pub open spec fn ranked<T: Ranked>(list: Seq<T>) -> Seq<T>
    decreases list.len(),
{
    if list.len() == 0 {
        Seq::empty()
    } else {
        let before = ranked(list.drop_last());
        before.insert(slot(before, list.last()), list.last())
    }
}

/// No item ranks higher than one ahead of it.
pub open spec fn is_descending<T: Ranked>(list: Seq<T>) -> bool {
    forall|i: int, j: int|
        0 <= i <= j < list.len() ==> (#[trigger] list[i]).rank() >= (#[trigger] list[j]).rank()
}

/// The test for a rank.
pub open spec fn has_rank<T: Ranked>(rank: int) -> spec_fn(T) -> bool {
    |x: T| x.rank() == rank
}

/// The items of one rank, in their order.
pub open spec fn of_rank<T: Ranked>(list: Seq<T>, rank: int) -> Seq<T> {
    list.filter(has_rank(rank))
}

proof fn lemma_slot<T: Ranked>(list: Seq<T>, x: T)
    requires
        is_descending(list),
    ensures
        0 <= slot(list, x) <= list.len(),
        forall|i: int| 0 <= i < slot(list, x) ==> (#[trigger] list[i]).rank() >= x.rank(),
        forall|i: int| slot(list, x) <= i < list.len() ==> (#[trigger] list[i]).rank() < x.rank(),
    decreases list.len(),
{
    if list.len() > 0 {
        let front = list.drop_last();
        assert(forall|i: int| 0 <= i < front.len() ==> #[trigger] front[i] == list[i]);
        lemma_slot(front, x);
        let k = slot(list, x);
        assert forall|i: int| 0 <= i < k implies (#[trigger] list[i]).rank() >= x.rank() by {
            if i < front.len() {
                assert(front[i] == list[i]);
            }
        }
        assert forall|i: int| k <= i < list.len() implies (#[trigger] list[i]).rank()
            < x.rank() by {
            if i < front.len() {
                assert(front[i] == list[i]);
            }
        }
    }
}

proof fn lemma_none_of_rank<T: Ranked>(list: Seq<T>, rank: int)
    requires
        forall|i: int| 0 <= i < list.len() ==> (#[trigger] list[i]).rank() != rank,
    ensures
        of_rank(list, rank) == Seq::<T>::empty(),
    decreases list.len(),
{
    reveal(Seq::filter);
    if list.len() > 0 {
        let front = list.drop_last();
        assert(forall|i: int| 0 <= i < front.len() ==> #[trigger] front[i] == list[i]);
        lemma_none_of_rank(front, rank);
        assert(list.last() == list[list.len() - 1]);
    }
}

proof fn lemma_insert<T: Ranked>(list: Seq<T>, x: T, rank: int)
    requires
        is_descending(list),
    ensures
        is_descending(list.insert(slot(list, x), x)),
        of_rank(list.insert(slot(list, x), x), rank) == of_rank(list.push(x), rank),
{
    let k = slot(list, x);
    lemma_slot(list, x);
    let all = list.insert(k, x);
    assert forall|i: int, j: int| 0 <= i <= j < all.len() implies (#[trigger] all[i]).rank() >= (
    #[trigger] all[j]).rank() by {
        let a = if i < k {
            i
        } else {
            i - 1
        };
        let b = if j < k {
            j
        } else {
            j - 1
        };
        if i != k {
            assert(all[i] == list[a]);
        }
        if j != k {
            assert(all[j] == list[b]);
        }
    }
    let pred = has_rank::<T>(rank);
    let front = list.take(k);
    let back = list.skip(k);
    assert(all =~= front + (seq![x] + back));
    assert(list.push(x) =~= front + (back + seq![x]));
    Seq::filter_distributes_over_add(front, seq![x] + back, pred);
    Seq::filter_distributes_over_add(front, back + seq![x], pred);
    Seq::filter_distributes_over_add(seq![x], back, pred);
    Seq::filter_distributes_over_add(back, seq![x], pred);
    if rank == x.rank() {
        assert(forall|i: int| 0 <= i < back.len() ==> #[trigger] back[i] == list[k + i]);
        lemma_none_of_rank(back, rank);
        assert(seq![x].filter(pred) + back.filter(pred) =~= back.filter(pred) + seq![x].filter(
            pred,
        ));
    } else {
        assert(forall|i: int| 0 <= i < seq![x].len() ==> #[trigger] seq![x][i] == x);
        lemma_none_of_rank(seq![x], rank);
        assert(seq![x].filter(pred) + back.filter(pred) =~= back.filter(pred) + seq![x].filter(
            pred,
        ));
    }
}

/// Ranking a list puts it into descending order, keeps every item, and leaves
/// the items of one rank in their old order.
pub proof fn ranking_is_stable<T: Ranked>(list: Seq<T>, rank: int)
    ensures
        is_descending(ranked(list)),
        ranked(list).len() == list.len(),
        of_rank(ranked(list), rank) == of_rank(list, rank),
    decreases list.len(),
{
    if list.len() > 0 {
        let front = list.drop_last();
        let x = list.last();
        ranking_is_stable(front, rank);
        lemma_insert(ranked(front), x, rank);
        lemma_slot(ranked(front), x);
        assert(list =~= front.push(x));
        let pred = has_rank::<T>(rank);
        assert(front.push(x) =~= front + seq![x]);
        assert(ranked(front).push(x) =~= ranked(front) + seq![x]);
        Seq::filter_distributes_over_add(front, seq![x], pred);
        Seq::filter_distributes_over_add(ranked(front), seq![x], pred);
    }
}

/// Ranking a list neither adds nor loses an item.
pub proof fn ranking_keeps_the_items<T: Ranked>(list: Seq<T>, x: T)
    ensures
        ranked(list).contains(x) == list.contains(x),
{
    let pred = has_rank::<T>(x.rank());
    ranking_is_stable(list, x.rank());
    assert(list.filter(pred) == ranked(list).filter(pred));
    if list.contains(x) {
        list.lemma_filter_contains(pred, list.index_of(x));
        ranked(list).lemma_filter_contains_rev(pred, x);
    }
    if ranked(list).contains(x) {
        ranked(list).lemma_filter_contains(pred, ranked(list).index_of(x));
        list.lemma_filter_contains_rev(pred, x);
    }
}

/// Ranks a list.
pub fn rank<T: Ranked>(list: Vec<T>) -> (r: Vec<T>)
    ensures
        r@ == ranked(list@),
{
    let ghost all = list@;
    let mut rest = list;
    let mut r: Vec<T> = Vec::new();
    assert(all.take(0) =~= Seq::empty());
    assert(all.skip(0) =~= all);
    let ghost mut n: int = 0;
    while rest.len() > 0
        invariant
            0 <= n <= all.len(),
            rest@ == all.skip(n),
            r@ == ranked(all.take(n)),
        decreases rest@.len(),
    {
        let x = rest.remove(0);
        let mut k: usize = r.len();
        proof {
            ranking_is_stable(all.take(n), 0);
            lemma_slot(r@, x);
            assert(r@.take(r@.len() as int) =~= r@);
        }
        while k > 0 && !r[k - 1].ranks_at_least(&x)
            invariant
                k <= r@.len(),
                slot(r@, x) == slot(r@.take(k as int), x),
            decreases k,
        {
            proof {
                let part = r@.take(k as int);
                assert(part.drop_last() =~= r@.take(k - 1));
                assert(part.last() == r@[k - 1]);
            }
            k = k - 1;
        }
        proof {
            let part = r@.take(k as int);
            if k > 0 {
                assert(part.last() == r@[k - 1]);
            }
            assert(all.take(n + 1).drop_last() =~= all.take(n));
            assert(all.take(n + 1).last() == x);
            assert(rest@ =~= all.skip(n + 1));
        }
        r.insert(k, x);
        proof {
            n = n + 1;
        }
    }
    assert(all.take(n) =~= all);
    r
}

} // verus!
