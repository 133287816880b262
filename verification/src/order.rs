//! Stable ordering by scalar keys.

use vstd::prelude::*;
use crate::scalar::Scalar;

verus! {

/// In a stable ascending order the item from place `a` of the list as given
/// comes before the item from place `b`: its key is smaller, or the keys are
/// equal and it stood first.
pub open spec fn precedes(keys: Seq<Scalar>, a: int, b: int) -> bool {
    keys[a].key < keys[b].key || (keys[a].key == keys[b].key && a < b)
}

/// The place occurs in the order.
pub open spec fn lists(order: Seq<usize>, place: int) -> bool {
    exists|i: int| 0 <= i < order.len() && #[trigger] order[i] == place
}

/// `order` lists the places `0..keys.len()`, each once, by ascending key, and
/// places with equal keys in ascending order.
pub open spec fn is_stable_order(keys: Seq<Scalar>, order: Seq<usize>) -> bool {
    &&& order.len() == keys.len()
    &&& forall|i: int| 0 <= i < order.len() ==> 0 <= #[trigger] order[i] < keys.len()
    &&& forall|place: int| 0 <= place < keys.len() ==> #[trigger] lists(order, place)
    &&& forall|i: int, j: int| 0 <= i < j < order.len() ==> precedes(keys, #[trigger] order[i] as int, #[trigger] order[j] as int)
}

/// The stable ascending order of the places `0..keys.len()` by their keys.
pub fn stable_order(keys: &Vec<Scalar>) -> (order: Vec<usize>)
    ensures
        is_stable_order(keys@, order@),
{
    let n: usize = keys.len();
    let mut order: Vec<usize> = Vec::new();
    let mut k: usize = 0;
    while k < n
        invariant
            k <= n,
            order@.len() == k,
            forall|i: int| 0 <= i < k ==> #[trigger] order@[i] == i,
        decreases n - k,
    {
        order.push(k);
        k = k + 1;
    }
    proof {
        assert forall|place: int| 0 <= place < n implies #[trigger] lists(order@, place) by {
            assert(order@[place] == place);
        }
    }
    let mut i: usize = 0;
    while i < n
        invariant
            n == keys@.len(),
            order@.len() == n,
            i <= n,
            forall|k: int| i <= k < n ==> #[trigger] order@[k] == k,
            forall|k: int| 0 <= k < i ==> #[trigger] order@[k] < i,
            forall|place: int| 0 <= place < n ==> #[trigger] lists(order@, place),
            forall|a: int, b: int| 0 <= a < b < i ==> precedes(keys@, #[trigger] order@[a] as int, #[trigger] order@[b] as int),
        decreases n - i,
    {
        let mut j: usize = i;
        while j > 0 && keys[order[j - 1]].key > keys[i].key
            invariant
                n == keys@.len(),
                order@.len() == n,
                i < n,
                j <= i,
                order@[j as int] == i,
                forall|k: int| i < k < n ==> #[trigger] order@[k] == k,
                forall|k: int| 0 <= k <= i && k != j ==> #[trigger] order@[k] < i,
                forall|place: int| 0 <= place < n ==> #[trigger] lists(order@, place),
                forall|a: int, b: int|
                    0 <= a < b <= i && a != j && b != j ==> precedes(
                        keys@,
                        #[trigger] order@[a] as int,
                        #[trigger] order@[b] as int,
                    ),
                forall|b: int| j < b <= i ==> keys@[i as int].key < keys@[#[trigger] order@[b] as int].key,
            decreases j,
        {
            let ghost before = order@;
            let moved: usize = order[j - 1];
            order.set(j, moved);
            order.set(j - 1, i);
            proof {
                assert forall|place: int| 0 <= place < n implies #[trigger] lists(order@, place) by {
                    assert(lists(before, place));
                    let k = choose|k: int| 0 <= k < n && #[trigger] before[k] == place;
                    if k == j {
                        assert(order@[j - 1] == place);
                    } else if k == j - 1 {
                        assert(order@[j as int] == place);
                    } else {
                        assert(order@[k] == place);
                    }
                }
                assert forall|a: int, b: int| 0 <= a < b <= i && a != j - 1 && b != j - 1 implies precedes(
                    keys@,
                    #[trigger] order@[a] as int,
                    #[trigger] order@[b] as int,
                ) by {
                    let a0 = if a == j { j - 1 } else { a };
                    let b0 = if b == j { j - 1 } else { b };
                    assert(order@[a] == before[a0]);
                    assert(order@[b] == before[b0]);
                    if a0 < b0 {
                        assert(precedes(keys@, before[a0] as int, before[b0] as int));
                    }
                }
                assert forall|b: int| j - 1 < b <= i implies keys@[i as int].key < keys@[#[trigger] order@[b] as int].key by {
                    if b == j {
                    } else {
                        assert(order@[b] == before[b]);
                    }
                }
            }
            j = j - 1;
        }
        proof {
            assert forall|a: int, b: int| 0 <= a < b < i + 1 implies precedes(
                keys@,
                #[trigger] order@[a] as int,
                #[trigger] order@[b] as int,
            ) by {
                if b == j {
                    if a < j - 1 {
                        assert(precedes(keys@, order@[a] as int, order@[j - 1] as int));
                    }
                    assert(order@[a] < i);
                } else if a == j {
                } else {
                }
            }
        }
        i = i + 1;
    }
    order
}


/// Two stable orders of the same keys agree on their first `upto` places.
proof fn lemma_stable_orders_agree(keys: Seq<Scalar>, a: Seq<usize>, b: Seq<usize>, upto: int)
    requires
        is_stable_order(keys, a),
        is_stable_order(keys, b),
        0 <= upto <= keys.len(),
    ensures
        forall|i: int| 0 <= i < upto ==> a[i] == b[i],
    decreases upto,
{
    if upto > 0 {
        lemma_stable_orders_agree(keys, a, b, upto - 1);
        let i = upto - 1;
        let p = a[i] as int;
        let q = b[i] as int;
        if p != q {
            assert(lists(b, p));
            let j = choose|j: int| 0 <= j < b.len() && #[trigger] b[j] == p;
            assert(lists(a, q));
            let k = choose|k: int| 0 <= k < a.len() && #[trigger] a[k] == q;
            if j < i {
                assert(precedes(keys, a[j] as int, a[i] as int));
            } else if k < i {
                assert(precedes(keys, b[k] as int, b[i] as int));
            } else {
                assert(precedes(keys, a[i] as int, a[k] as int));
                assert(precedes(keys, b[i] as int, b[j] as int));
            }
        }
    }
}

/// The keys decide their stable order: there is one and only one.
pub proof fn lemma_stable_order_unique(keys: Seq<Scalar>, a: Seq<usize>, b: Seq<usize>)
    requires
        is_stable_order(keys, a),
        is_stable_order(keys, b),
    ensures
        a == b,
{
    lemma_stable_orders_agree(keys, a, b, keys.len() as int);
    assert(a =~= b);
}

} // verus!
