//! Stable sorting of positions by integer keys.

use vstd::prelude::*;

verus! {

/// A sequence of positions lists each of `0..n` exactly once.
pub open spec fn is_permutation(order: Seq<usize>, n: int) -> bool {
    &&& order.len() == n
    &&& forall|i: int| 0 <= i < n ==> #[trigger] order[i] < n
    &&& forall|i: int, j: int| 0 <= i < j < n ==> order[i] != order[j]
}

/// Position `a` comes before position `b`: by its key, and in the order given where the
/// keys are equal.
pub open spec fn precedes(keys: Seq<i128>, a: int, b: int) -> bool {
    keys[a] < keys[b] || (keys[a] == keys[b] && a < b)
}

/// Each position comes before the next ones.
pub open spec fn is_ordered(keys: Seq<i128>, order: Seq<usize>) -> bool {
    forall|i: int, j: int|
        0 <= i < j < order.len() ==> precedes(keys, #[trigger] order[i] as int, #[trigger] order[j] as int)
}

/// The stable order of positions by ascending key.
pub open spec fn is_stable_order(keys: Seq<i128>, order: Seq<usize>) -> bool {
    is_permutation(order, keys.len() as int) && is_ordered(keys, order)
}

/// The positions by ascending key, equal ones in the order given.
pub open spec fn order_of(keys: Seq<i128>) -> Seq<usize> {
    choose|order: Seq<usize>| is_stable_order(keys, order)
}

/// Every position in the part is in `lo..hi`, and each of those is in the part.
spec fn covers(part: Seq<usize>, lo: int, hi: int) -> bool {
    &&& part.len() == hi - lo
    &&& forall|i: int| 0 <= i < part.len() ==> lo <= #[trigger] part[i] < hi
}

fn merge(keys: &Vec<i128>, left: &Vec<usize>, right: &Vec<usize>, lo: usize, mid: usize, hi: usize) -> (out:
    Vec<usize>)
    requires
        lo <= mid <= hi <= keys.len(),
        covers(left@, lo as int, mid as int),
        covers(right@, mid as int, hi as int),
        is_ordered(keys@, left@),
        is_ordered(keys@, right@),
    ensures
        covers(out@, lo as int, hi as int),
        is_ordered(keys@, out@),
{
    let mut out: Vec<usize> = Vec::new();
    let mut i: usize = 0;
    let mut j: usize = 0;
    while i < left.len() || j < right.len()
        invariant
            lo <= mid <= hi <= keys.len(),
            covers(left@, lo as int, mid as int),
            covers(right@, mid as int, hi as int),
            is_ordered(keys@, left@),
            is_ordered(keys@, right@),
            i <= left.len(),
            j <= right.len(),
            out@.len() == i + j,
            forall|k: int| 0 <= k < out@.len() ==> lo <= #[trigger] out@[k] < hi,
            is_ordered(keys@, out@),
            forall|k: int, m: int|
                0 <= k < out@.len() && i <= m < left@.len() ==> precedes(
                    keys@,
                    #[trigger] out@[k] as int,
                    #[trigger] left@[m] as int,
                ),
            forall|k: int, m: int|
                0 <= k < out@.len() && j <= m < right@.len() ==> precedes(
                    keys@,
                    #[trigger] out@[k] as int,
                    #[trigger] right@[m] as int,
                ),
        decreases left.len() + right.len() - i - j,
    {
        let take_left: bool = if i == left.len() {
            false
        } else if j == right.len() {
            true
        } else {
            assert(lo <= left@[i as int] < mid);
            assert(mid <= right@[j as int] < hi);
            keys[left[i]] <= keys[right[j]]
        };
        let ghost before = out@;
        if take_left {
            let x: usize = left[i];
            assert(lo <= left@[i as int] < mid);
            out.push(x);
            assert forall|k: int, m: int|
                0 <= k < out@.len() && j <= m < right@.len() implies precedes(
                keys@,
                #[trigger] out@[k] as int,
                #[trigger] right@[m] as int,
            ) by {
                if k == before.len() {
                    assert(mid <= right@[m] < hi);
                    assert(mid <= right@[j as int] < hi);
                    if m > j {
                        assert(precedes(keys@, right@[j as int] as int, right@[m] as int));
                    }
                } else {
                    assert(out@[k] == before[k]);
                }
            }
            i = i + 1;
        } else {
            let x: usize = right[j];
            assert(mid <= right@[j as int] < hi);
            out.push(x);
            assert forall|k: int, m: int|
                0 <= k < out@.len() && i <= m < left@.len() implies precedes(
                keys@,
                #[trigger] out@[k] as int,
                #[trigger] left@[m] as int,
            ) by {
                if k == before.len() {
                    assert(lo <= left@[m] < mid);
                    assert(lo <= left@[i as int] < mid);
                    if m > i {
                        assert(precedes(keys@, left@[i as int] as int, left@[m] as int));
                    }
                } else {
                    assert(out@[k] == before[k]);
                }
            }
            j = j + 1;
        }
    }
    out
}

fn sort_range(keys: &Vec<i128>, lo: usize, hi: usize) -> (out: Vec<usize>)
    requires
        lo <= hi <= keys.len(),
    ensures
        covers(out@, lo as int, hi as int),
        is_ordered(keys@, out@),
    decreases hi - lo,
{
    let mut out: Vec<usize> = Vec::new();
    if hi - lo <= 1 {
        if hi > lo {
            out.push(lo);
        }
        return out;
    }
    let mid: usize = lo + (hi - lo) / 2;
    let left = sort_range(keys, lo, mid);
    let right = sort_range(keys, mid, hi);
    merge(keys, &left, &right, lo, mid, hi)
}

/// The positions of `keys` in ascending order of their keys, equal ones in the order given.
pub fn stable_order(keys: &Vec<i128>) -> (order: Vec<usize>)
    ensures
        is_stable_order(keys@, order@),
        order@ == order_of(keys@),
{
    let order = sort_range(keys, 0, keys.len());
    assert forall|i: int, j: int| 0 <= i < j < keys@.len() implies order@[i] != order@[j] by {
        assert(precedes(keys@, order@[i] as int, order@[j] as int));
    }
    assert(is_stable_order(keys@, order@));
    proof {
        law_stable_order_unique(keys@, order@, order_of(keys@));
    }
    order
}

/// What a sequence reads as in a given order of its positions.
pub open spec fn arranged<T>(s: Seq<T>, order: Seq<usize>) -> Seq<T> {
    Seq::new(order.len(), |i: int| s[order[i] as int])
}

/// A permutation lists every position.
pub proof fn lemma_permutation_covers(order: Seq<usize>, n: int, x: int) -> (p: int)
    requires
        is_permutation(order, n),
        0 <= x < n,
    ensures
        0 <= p < n,
        order[p] == x,
{
    let ints = Seq::new(n as nat, |i: int| order[i] as int);
    assert(ints.no_duplicates()) by {
        assert forall|i: int, j: int| 0 <= i < n && 0 <= j < n && i != j implies ints[i]
            != ints[j] by {
            if i < j {
                assert(order[i] != order[j]);
            } else {
                assert(order[j] != order[i]);
            }
        }
    }
    ints.unique_seq_to_set();
    vstd::set_lib::lemma_int_range(0, n);
    let range = vstd::set_lib::set_int_range(0, n);
    assert(ints.to_set().subset_of(range)) by {
        assert forall|y: int| ints.to_set().contains(y) implies range.contains(y) by {
            let i = choose|i: int| 0 <= i < n && ints[i] == y;
            assert(order[i] < n);
        }
    }
    vstd::set_lib::lemma_subset_equality(ints.to_set(), range);
    assert(ints.to_set().contains(x));
    let p = choose|p: int| 0 <= p < n && ints[p] == x;
    p
}

/// Arranging a sequence by a permutation of its positions keeps its elements.
pub proof fn law_arranged_keeps_elements<T>(s: Seq<T>, order: Seq<usize>)
    requires
        is_permutation(order, s.len() as int),
    ensures
        arranged(s, order).to_multiset() == s.to_multiset(),
    decreases s.len(),
{
    let n = s.len() as int;
    let a = arranged(s, order);
    if n == 0 {
        assert(a == s);
    } else {
        let p = lemma_permutation_covers(order, n, n - 1);
        let order1 = order.remove(p);
        let s1 = s.drop_last();
        assert forall|i: int| 0 <= i < n - 1 implies #[trigger] order1[i] < n - 1 by {
            let k = if i < p {
                i
            } else {
                i + 1
            };
            assert(order1[i] == order[k]);
            assert(order[k] < n);
            if k < p {
                assert(order[k] != order[p]);
            } else {
                assert(order[p] != order[k]);
            }
        }
        assert forall|i: int, j: int| 0 <= i < j < n - 1 implies order1[i] != order1[j] by {
            let k = if i < p {
                i
            } else {
                i + 1
            };
            let m = if j < p {
                j
            } else {
                j + 1
            };
            assert(order[k] != order[m]);
        }
        law_arranged_keeps_elements(s1, order1);
        assert(a.remove(p) == arranged(s1, order1)) by {
            assert forall|i: int| 0 <= i < n - 1 implies a.remove(p)[i] == arranged(
                s1,
                order1,
            )[i] by {
                assert(order1[i] < n - 1);
            }
        }
        vstd::seq_lib::to_multiset_remove(a, p);
        assert(s1.push(s.last()) == s);
        vstd::seq_lib::to_multiset_build(s1, s.last());
        assert(a[p] == s.last());
        vstd::seq_lib::to_multiset_contains(a, a[p]);
        assert(a.contains(a[p]));
        assert(a.to_multiset() == a.to_multiset().remove(a[p]).insert(a[p]));
    }
}

/// The first place from `i` on whose position has a key above `x`.
spec fn place_above(keys: Seq<i128>, order: Seq<usize>, x: i128, i: int) -> int
    decreases order.len() - i,
{
    if i < 0 || i >= order.len() || keys[order[i] as int] > x {
        i
    } else {
        place_above(keys, order, x, i + 1)
    }
}

proof fn lemma_place_above(keys: Seq<i128>, order: Seq<usize>, x: i128, i: int)
    requires
        0 <= i <= order.len(),
    ensures
        i <= place_above(keys, order, x, i) <= order.len(),
        forall|k: int| i <= k < place_above(keys, order, x, i) ==> keys[order[k] as int] <= x,
        place_above(keys, order, x, i) < order.len() ==> keys[order[place_above(
            keys,
            order,
            x,
            i,
        )] as int] > x,
    decreases order.len() - i,
{
    if i < order.len() && keys[order[i] as int] <= x {
        lemma_place_above(keys, order, x, i + 1);
    }
}

/// There is always a stable order.
pub proof fn law_stable_order_exists(keys: Seq<i128>)
    requires
        keys.len() <= usize::MAX,
    ensures
        is_stable_order(keys, order_of(keys)),
    decreases keys.len(),
{
    if keys.len() == 0 {
        assert(is_stable_order(keys, Seq::<usize>::empty()));
    } else {
        let n = keys.len() - 1;
        let head = keys.drop_last();
        law_stable_order_exists(head);
        let o = order_of(head);
        let k = place_above(head, o, keys[n], 0);
        lemma_place_above(head, o, keys[n], 0);
        let order = o.insert(k, n as usize);
        assert forall|i: int| 0 <= i <= n implies #[trigger] order[i] == if i < k {
            o[i]
        } else if i == k {
            n as usize
        } else {
            o[i - 1]
        } by {
        }
        assert forall|i: int, j: int| 0 <= i < j <= n implies precedes(
            keys,
            #[trigger] order[i] as int,
            #[trigger] order[j] as int,
        ) by {
            let a = if i < k {
                i
            } else {
                i - 1
            };
            let b = if j < k {
                j
            } else {
                j - 1
            };
            if j == k {
                assert(o[i] < n);
            } else if i == k {
                assert(o[b] < n);
                if b > k {
                    assert(precedes(head, o[k] as int, o[b] as int));
                    assert(o[k] < n);
                }
            } else {
                assert(o[a] < n && o[b] < n);
                assert(precedes(head, o[a] as int, o[b] as int));
            }
        }
        assert forall|i: int, j: int| 0 <= i < j <= n implies order[i] != order[j] by {
            assert(precedes(keys, order[i] as int, order[j] as int));
        }
        assert(is_stable_order(keys, order));
    }
}

/// There is only one stable order.
pub proof fn law_stable_order_unique(keys: Seq<i128>, a: Seq<usize>, b: Seq<usize>)
    requires
        is_stable_order(keys, a),
        is_stable_order(keys, b),
    ensures
        a == b,
{
    let n = keys.len();
    let leq = |x: usize, y: usize| x == y || precedes(keys, x as int, y as int);
    let places = Seq::new(n, |i: int| i as usize);
    assert(arranged(places, a) == a) by {
        assert forall|i: int| 0 <= i < n implies arranged(places, a)[i] == a[i] by {
            assert(a[i] < n);
        }
    }
    assert(arranged(places, b) == b) by {
        assert forall|i: int| 0 <= i < n implies arranged(places, b)[i] == b[i] by {
            assert(b[i] < n);
        }
    }
    law_arranged_keeps_elements(places, a);
    law_arranged_keeps_elements(places, b);
    vstd::seq_lib::lemma_sorted_unique(a, b, leq);
}

/// In a stable order keys ascend, positions with the same key keep the order given, and each
/// position stands exactly once.
pub proof fn law_stable_order(keys: Seq<i128>, i: int, j: int)
    requires
        keys.len() <= usize::MAX,
        0 <= i < j < keys.len(),
    ensures
        ({
            let o = order_of(keys);
            &&& o.len() == keys.len()
            &&& 0 <= o[i] < keys.len()
            &&& o[i] != o[j]
            &&& keys[o[i] as int] <= keys[o[j] as int]
            &&& keys[o[i] as int] == keys[o[j] as int] ==> o[i] < o[j]
        }),
{
    law_stable_order_exists(keys);
    let o = order_of(keys);
    assert(o[i] < keys.len() && o[j] < keys.len());
    assert(precedes(keys, o[i] as int, o[j] as int));
}

} // verus!
