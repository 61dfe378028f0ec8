//! Stable rankings: the order in which items stand when they are sorted from
//! the largest key to the smallest, those with equal keys as they came.

use vstd::prelude::*;

verus! {

/// A key of three numbers, the first deciding first.
pub type Key = (usize, i64, i64);

/// A key above another.
pub open spec fn key_above(a: Key, b: Key) -> bool {
    a.0 > b.0 || (a.0 == b.0 && (a.1 > b.1 || (a.1 == b.1 && a.2 > b.2)))
}

/// Item `i` stands before item `j`: by a larger key, or by coming first.
pub open spec fn stands_before(keys: Seq<Key>, i: int, j: int) -> bool {
    key_above(keys[i], keys[j]) || (keys[i] == keys[j] && i < j)
}

/// `order` lists every item once, each before those that it stands before.
pub open spec fn is_ranking(order: Seq<usize>, keys: Seq<Key>) -> bool {
    &&& order.len() == keys.len()
    &&& forall|p: int| 0 <= p < order.len() ==> 0 <= #[trigger] order[p] < keys.len()
    &&& forall|p: int, q: int|
        0 <= p < q < order.len() ==> stands_before(
            keys,
            #[trigger] order[p] as int,
            #[trigger] order[q] as int,
        )
}

fn above(a: &Key, b: &Key) -> (is: bool)
    ensures
        is == key_above(*a, *b),
{
    a.0 > b.0 || (a.0 == b.0 && (a.1 > b.1 || (a.1 == b.1 && a.2 > b.2)))
}

/// The ranking of some keys, from the largest to the smallest.
pub fn rank_keys(keys: &Vec<Key>) -> (order: Vec<usize>)
    ensures
        is_ranking(order@, keys@),
{
    let mut order: Vec<usize> = Vec::new();
    let mut next: usize = 0;
    while next < keys.len()
        invariant
            next <= keys@.len(),
            order@.len() == next,
            forall|p: int| 0 <= p < order@.len() ==> 0 <= #[trigger] order@[p] < next,
            forall|p: int, q: int|
                0 <= p < q < order@.len() ==> stands_before(
                    keys@,
                    #[trigger] order@[p] as int,
                    #[trigger] order@[q] as int,
                ),
        decreases keys@.len() - next,
    {
        let ghost before = order@;
        let mut at: usize = order.len();
        while at > 0 && above(&keys[next], &keys[order[at - 1]])
            invariant
                at <= order@.len(),
                order@ == before,
                next < keys@.len(),
                before.len() == next,
                forall|p: int| 0 <= p < before.len() ==> 0 <= #[trigger] before[p] < next,
                forall|p: int|
                    at <= p < before.len() ==> key_above(
                        keys@[next as int],
                        keys@[#[trigger] before[p] as int],
                    ),
            decreases at,
        {
            at -= 1;
        }
        order.insert(at, next);
        proof {
            let now = order@;
            assert forall|p: int, q: int| 0 <= p < q < now.len() implies stands_before(
                keys@,
                #[trigger] now[p] as int,
                #[trigger] now[q] as int,
            ) by {
                if q == at {
                    assert(now[p] == before[p]);
                    if p < at - 1 {
                        assert(stands_before(keys@, before[p] as int, before[at - 1] as int));
                    }
                } else if p == at {
                    assert(now[q] == before[q - 1]);
                } else {
                    let bp = if p < at {
                        p
                    } else {
                        p - 1
                    };
                    let bq = if q < at {
                        q
                    } else {
                        q - 1
                    };
                    assert(now[p] == before[bp] && now[q] == before[bq]);
                }
            }
        }
        next += 1;
    }
    order
}

/// A ranking is pinned down by its keys: there is only one.
pub proof fn ranking_is_unique(a: Seq<usize>, b: Seq<usize>, keys: Seq<Key>)
    requires
        is_ranking(a, keys),
        is_ranking(b, keys),
    ensures
        a == b,
{
    assert forall|p: int| 0 <= p < a.len() implies a[p] == b[p] by {
        lemma_same_at(a, b, keys, p);
    }
    assert(a =~= b);
}

/// The items of a ranking up to a place are a set of that size.
proof fn lemma_prefix_size(a: Seq<usize>, keys: Seq<Key>, n: int)
    requires
        is_ranking(a, keys),
        0 <= n <= a.len(),
    ensures
        a.take(n).to_set().len() == n,
        a.take(n).to_set().finite(),
{
    assert(a.take(n).no_duplicates()) by {
        assert forall|p: int, q: int| 0 <= p < n && 0 <= q < n && p != q implies a.take(n)[p]
            != a.take(n)[q] by {
            if p < q {
                assert(stands_before(keys, a[p] as int, a[q] as int));
            } else {
                assert(stands_before(keys, a[q] as int, a[p] as int));
            }
        }
    }
    a.take(n).unique_seq_to_set();
}

proof fn lemma_same_at(a: Seq<usize>, b: Seq<usize>, keys: Seq<Key>, p: int)
    requires
        is_ranking(a, keys),
        is_ranking(b, keys),
        0 <= p < a.len(),
    ensures
        a[p] == b[p],
{
    lemma_not_later(a, b, keys, p);
    lemma_not_later(b, a, keys, p);
    if a[p] != b[p] {
        assert(stands_before(keys, a[p] as int, b[p] as int) || stands_before(
            keys,
            b[p] as int,
            a[p] as int,
        ));
    }
}

/// What `a` has at a place does not stand after what `b` has there: the first
/// `p + 1` items of `b` cannot all be among the first `p` of `a`.
proof fn lemma_not_later(a: Seq<usize>, b: Seq<usize>, keys: Seq<Key>, p: int)
    requires
        is_ranking(a, keys),
        is_ranking(b, keys),
        0 <= p < a.len(),
    ensures
        !stands_before(keys, b[p] as int, a[p] as int),
{
    if stands_before(keys, b[p] as int, a[p] as int) {
        let front = b.take(p + 1).to_set();
        let back = a.take(p).to_set();
        lemma_prefix_size(b, keys, p + 1);
        lemma_prefix_size(a, keys, p);
        assert forall|x: usize| front.contains(x) implies back.contains(x) by {
            let some = b.take(p + 1);
            let q = choose|q: int| 0 <= q < some.len() && some[q] == x;
            assert(b[q] == x);
            assert(q == p || stands_before(keys, b[q] as int, b[p] as int));
            assert(stands_before(keys, x as int, a[p] as int));
            every_item_is_ranked(a, keys, x);
            let r = choose|r: int| 0 <= r < a.len() && a[r] == x;
            if r >= p {
                assert(r == p || stands_before(keys, a[p] as int, a[r] as int));
            }
            assert(a.take(p)[r] == x);
        }
        vstd::set_lib::lemma_len_subset(front, back);
    }
}

/// A ranking lists every item.
pub proof fn every_item_is_ranked(a: Seq<usize>, keys: Seq<Key>, x: usize)
    requires
        is_ranking(a, keys),
        0 <= x < keys.len(),
    ensures
        exists|r: int| 0 <= r < a.len() && a[r] == x,
{
    let n = a.len() as int;
    lemma_prefix_size(a, keys, n);
    assert(a.take(n) =~= a);
    if !a.to_set().contains(x) {
        let ints = a.to_set().map(|i: usize| i as int);
        vstd::set_lib::lemma_map_size(a.to_set(), ints, |i: usize| i as int);
        let below = vstd::set_lib::set_int_range(0, keys.len() as int);
        vstd::set_lib::lemma_int_range(0, keys.len() as int);
        assert(ints.subset_of(below.remove(x as int))) by {
            assert forall|i: int| ints.contains(i) implies below.remove(x as int).contains(i) by {
                let u = choose|u: usize| a.to_set().contains(u) && u as int == i;
                assert(a.to_set().contains(u));
                let r = choose|r: int| 0 <= r < a.len() && a[r] == u;
                assert(a[r] == u);
            }
        }
        vstd::set_lib::lemma_len_subset(ints, below.remove(x as int));
    }
    let r = choose|r: int| 0 <= r < a.len() && a[r] == x;
    assert(a[r] == x);
}

/// Where a new item goes: behind every listed item whose key is not below its own.
spec fn slot(order: Seq<usize>, keys: Seq<Key>, item: int, upto: int) -> int
    decreases upto,
{
    if upto <= 0 {
        0
    } else if key_above(keys[item], keys[order[upto - 1] as int]) {
        slot(order, keys, item, upto - 1)
    } else {
        upto
    }
}

proof fn lemma_slot(order: Seq<usize>, keys: Seq<Key>, item: int, upto: int)
    requires
        0 <= upto <= order.len(),
    ensures
        0 <= slot(order, keys, item, upto) <= upto,
        forall|p: int|
            slot(order, keys, item, upto) <= p < upto ==> key_above(
                keys[item],
                keys[#[trigger] order[p] as int],
            ),
        slot(order, keys, item, upto) > 0 ==> !key_above(
            keys[item],
            keys[order[slot(order, keys, item, upto) - 1] as int],
        ),
    decreases upto,
{
    if upto > 0 && key_above(keys[item], keys[order[upto - 1] as int]) {
        lemma_slot(order, keys, item, upto - 1);
    }
}

/// Every list of keys has a ranking.
pub proof fn ranking_exists(keys: Seq<Key>) -> (order: Seq<usize>)
    requires
        keys.len() <= usize::MAX,
    ensures
        is_ranking(order, keys),
    decreases keys.len(),
{
    if keys.len() == 0 {
        Seq::empty()
    } else {
        let rest = keys.drop_last();
        let before = ranking_exists(rest);
        let item = (keys.len() - 1) as usize;
        let at = slot(before, keys, item as int, before.len() as int);
        lemma_slot(before, keys, item as int, before.len() as int);
        let now = before.insert(at, item);
        assert forall|p: int| 0 <= p < before.len() implies before[p] < item && keys[
            #[trigger] before[p] as int] == rest[before[p] as int] by {}
        assert forall|p: int| 0 <= p < now.len() implies 0 <= #[trigger] now[p] < keys.len() by {
            if p < at {
                assert(now[p] == before[p]);
            } else if p > at {
                assert(now[p] == before[p - 1]);
            }
        }
        assert forall|p: int, q: int| 0 <= p < q < now.len() implies stands_before(
            keys,
            #[trigger] now[p] as int,
            #[trigger] now[q] as int,
        ) by {
            if q == at {
                assert(now[p] == before[p]);
                if p < at - 1 {
                    assert(stands_before(rest, before[p] as int, before[at - 1] as int));
                }
            } else if p == at {
                assert(now[q] == before[q - 1]);
            } else {
                let bp = if p < at {
                    p
                } else {
                    p - 1
                };
                let bq = if q < at {
                    q
                } else {
                    q - 1
                };
                assert(now[p] == before[bp] && now[q] == before[bq]);
                assert(stands_before(rest, before[bp] as int, before[bq] as int));
            }
        }
        now
    }
}

/// In a ranking nobody stands behind one with a smaller first number, nor, where the first
/// numbers are equal, behind one with a smaller second number, and so on; those whose numbers
/// are all equal stand as they came.
pub proof fn rankings_go_down(order: Seq<usize>, keys: Seq<Key>, p: int, q: int)
    requires
        is_ranking(order, keys),
        0 <= p < q < order.len(),
    ensures
        ({
            let a = keys[order[p] as int];
            let b = keys[order[q] as int];
            &&& a.0 >= b.0
            &&& a.0 == b.0 ==> a.1 >= b.1
            &&& a.0 == b.0 && a.1 == b.1 ==> a.2 >= b.2
            &&& a.0 == b.0 && a.1 == b.1 && a.2 == b.2 ==> order[p] < order[q]
            &&& order[p] != order[q]
        }),
{
    assert(stands_before(keys, order[p] as int, order[q] as int));
}

}
