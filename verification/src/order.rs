//! Sorting: ranks of a list of numbers, and the order in which cells are
//! painted.

use vstd::prelude::*;
use vstd::relations;
use vstd::seq_lib;

verus! {

/// The usual order of numbers.
pub open spec fn at_most() -> spec_fn(u128, u128) -> bool {
    |a: u128, b: u128| a <= b
}

/// The numbers in ascending order.
pub open spec fn ascending(keys: Seq<u128>) -> Seq<u128> {
    keys.sort_by(at_most())
}

/// Sorts with `slice::sort` of the standard library, which arranges the
/// elements in ascending order and keeps each of them.
#[verifier::external_body]
fn sort_keys(keys: &mut Vec<u128>)
    ensures
        relations::sorted_by(final(keys)@, at_most()),
        final(keys)@.to_multiset() == old(keys)@.to_multiset(),
{
    keys.sort();
}

/// Sort numbers in ascending order.
pub fn sort(keys: &mut Vec<u128>)
    ensures
        final(keys)@ == ascending(old(keys)@),
        final(keys)@.len() == old(keys)@.len(),
        forall|i: int, j: int|
            0 <= i <= j < final(keys)@.len() ==> final(keys)@[i] <= final(keys)@[j],
        forall|x: u128| #[trigger] final(keys)@.contains(x) <==> old(keys)@.contains(x),
{
    let ghost before = keys@;
    sort_keys(keys);
    proof {
        before.lemma_sort_by_ensures(at_most());
        seq_lib::lemma_sorted_unique(keys@, before.sort_by(at_most()), at_most());
        seq_lib::to_multiset_len(before);
        seq_lib::to_multiset_len(keys@);
        assert forall|i: int, j: int| 0 <= i <= j < keys@.len() implies keys@[i] <= keys@[j] by {
            if i < j {
                assert(at_most()(keys@[i], keys@[j]));
            }
        }
        assert forall|x: u128| #[trigger] keys@.contains(x) <==> before.contains(x) by {
            seq_lib::to_multiset_contains(before, x);
            seq_lib::to_multiset_contains(keys@, x);
        }
    }
}

/// The first of the numbers in ascending order is a least one.
pub proof fn ascending_starts_least(keys: Seq<u128>, k: int)
    requires
        0 <= k < keys.len(),
    ensures
        ascending(keys).len() == keys.len(),
        ascending(keys)[0] <= keys[k],
{
    keys.lemma_sort_by_ensures(at_most());
    let sorted = ascending(keys);
    seq_lib::to_multiset_len(keys);
    seq_lib::to_multiset_len(sorted);
    assert(keys.contains(keys[k]));
    seq_lib::to_multiset_contains(keys, keys[k]);
    seq_lib::to_multiset_contains(sorted, keys[k]);
    let a = choose|a: int| 0 <= a < sorted.len() && sorted[a] == keys[k];
    if a > 0 {
        assert(at_most()(sorted[0], sorted[a]));
    }
}

/// Numbers in ascending order never fall, and are the same numbers.
pub proof fn ascending_is_in_order(keys: Seq<u128>)
    ensures
        ascending(keys).len() == keys.len(),
        forall|i: int, j: int|
            0 <= i <= j < keys.len() ==> ascending(keys)[i] <= ascending(keys)[j],
        forall|x: u128| #[trigger] ascending(keys).contains(x) <==> keys.contains(x),
{
    keys.lemma_sort_by_ensures(at_most());
    let sorted = ascending(keys);
    seq_lib::to_multiset_len(keys);
    seq_lib::to_multiset_len(sorted);
    assert forall|i: int, j: int| 0 <= i <= j < keys.len() implies sorted[i] <= sorted[j] by {
        if i < j {
            assert(at_most()(sorted[i], sorted[j]));
        }
    }
    assert forall|x: u128| #[trigger] sorted.contains(x) <==> keys.contains(x) by {
        seq_lib::to_multiset_contains(keys, x);
        seq_lib::to_multiset_contains(sorted, x);
    }
}

/// The key of an entry by which it is painted: its depth, then its position.
pub open spec fn paint_key(depth: i64, i: int) -> int {
    (depth + 0x8000_0000_0000_0000) * 0x1_0000_0000_0000_0000 + i
}

/// Positions of a list of depths (order codes) in the order in which they are
/// painted: smallest depth first, and equal depths in the order given.
pub fn painters_order(depths: &Vec<i64>) -> (order: Vec<usize>)
    ensures
        order@.len() == depths@.len(),
        forall|i: usize| i < depths@.len() ==> #[trigger] order@.contains(i),
        forall|a: int| 0 <= a < order@.len() ==> #[trigger] order@[a] < depths@.len(),
        forall|a: int, b: int|
            0 <= a < b < order@.len() ==> {
                let (x, y) = (#[trigger] order@[a] as int, #[trigger] order@[b] as int);
                depths@[x] < depths@[y] || (depths@[x] == depths@[y] && x < y)
            },
{
    let n: usize = depths.len();
    let mut keys: Vec<u128> = Vec::new();
    let mut i: usize = 0;
    while i < n
        invariant
            n == depths@.len(),
            i <= n,
            keys@.len() == i,
            forall|k: int| 0 <= k < i ==> #[trigger] keys@[k] == paint_key(depths@[k], k),
        decreases n - i,
    {
        let shifted: u128 = (depths[i] as i128 + 0x8000_0000_0000_0000) as u128;
        keys.push(shifted * 0x1_0000_0000_0000_0000 + i as u128);
        i = i + 1;
    }
    let ghost unsorted = keys@;
    sort(&mut keys);
    let mut order: Vec<usize> = Vec::new();
    let mut a: usize = 0;
    proof {
        assert forall|k: int| 0 <= k < n implies 0 <= #[trigger] position(keys@[k]) < n && keys@[k]
            == paint_key(depths@[position(keys@[k])], position(keys@[k])) by {
            assert(keys@.contains(keys@[k]));
            assert(unsorted.contains(keys@[k]));
            let m = choose|m: int| 0 <= m < unsorted.len() && unsorted[m] == keys@[k];
            assert(unsorted[m] == paint_key(depths@[m], m));
            assert(position(keys@[k]) == m);
        }
    }
    while a < n
        invariant
            n == depths@.len(),
            keys@.len() == n,
            a <= n,
            order@.len() == a,
            forall|k: int|
                0 <= k < n ==> 0 <= #[trigger] position(keys@[k]) < n && keys@[k] == paint_key(
                    depths@[position(keys@[k])],
                    position(keys@[k]),
                ),
            forall|k: int| 0 <= k < a ==> #[trigger] order@[k] == position(keys@[k]),
        decreases n - a,
    {
        assert(0 <= position(keys@[a as int]) < n);
        order.push((keys[a] % 0x1_0000_0000_0000_0000) as usize);
        a = a + 1;
    }
    proof {
        assert forall|i: usize| i < depths@.len() implies #[trigger] order@.contains(i) by {
            let key = unsorted[i as int];
            assert(unsorted.contains(key));
            assert(keys@.contains(key));
            let k = choose|k: int| 0 <= k < keys@.len() && keys@[k] == key;
            assert(position(key) == i);
            assert(order@[k] == position(keys@[k]));
        }
        assert forall|a: int, b: int| 0 <= a < b < order@.len() implies {
            let (x, y) = (#[trigger] order@[a] as int, #[trigger] order@[b] as int);
            depths@[x] < depths@[y] || (depths@[x] == depths@[y] && x < y)
        } by {
            let (x, y) = (position(keys@[a]), position(keys@[b]));
            assert(keys@[a] <= keys@[b]);
            if x == y {
                assert(keys@[a] == keys@[b]);
                no_key_repeats(unsorted, keys@, depths@, a, b);
            }
        }
        assert forall|a: int| 0 <= a < order@.len() implies #[trigger] order@[a] < depths@.len() by {
            assert(order@[a] == position(keys@[a]));
        }
    }
    order
}

/// Position held in a paint key.
spec fn position(key: u128) -> int {
    key as int % 0x1_0000_0000_0000_0000
}

proof fn no_key_repeats(
    unsorted: Seq<u128>,
    sorted: Seq<u128>,
    depths: Seq<i64>,
    a: int,
    b: int,
)
    requires
        unsorted.len() == depths.len(),
        depths.len() <= usize::MAX,
        forall|k: int| 0 <= k < unsorted.len() ==> #[trigger] unsorted[k] == paint_key(depths[k], k),
        sorted == ascending(unsorted),
        0 <= a < b < sorted.len(),
    ensures
        sorted[a] != sorted[b],
{
    unsorted.lemma_sort_by_ensures(at_most());
    assert(unsorted.no_duplicates()) by {
        assert forall|i: int, j: int|
            0 <= i < unsorted.len() && 0 <= j < unsorted.len() && i != j implies unsorted[i]
            != unsorted[j] by {
            assert(position(unsorted[i]) == i);
            assert(position(unsorted[j]) == j);
        }
    }
    unsorted.lemma_multiset_has_no_duplicates();
    assert forall|x: u128| sorted.to_multiset().contains(x) implies sorted.to_multiset().count(x)
        == 1 by {
        assert(unsorted.to_multiset().contains(x));
    }
    sorted.lemma_multiset_has_no_duplicates_conv();
}

} // verus!
