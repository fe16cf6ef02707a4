//! A stable ordering of positions by their keys.
//!
//! The order of a list of keys names the positions of the list, those with a
//! smaller key first and, among positions with equal keys, the earlier
//! position first.

use vstd::prelude::*;

verus! {

/// Whether position `i` comes before position `j`: its key is smaller, or
/// the keys are equal and `i` is the earlier position.
pub open spec fn precedes(keys: Seq<u64>, i: int, j: int) -> bool {
    keys[i] < keys[j] || (keys[i] == keys[j] && i < j)
}

/// `order` with the position `i` put behind every position whose key is not
/// larger than that of `i`.
pub open spec fn insert_position(keys: Seq<u64>, order: Seq<usize>, i: usize) -> Seq<usize>
    decreases order.len(),
{
    if order.len() == 0 || keys[order.last() as int] <= keys[i as int] {
        order.push(i)
    } else {
        insert_position(keys, order.drop_last(), i).push(order.last())
    }
}

/// The stable order of the first `n` positions.
pub open spec fn stable_order_of(keys: Seq<u64>, n: nat) -> Seq<usize>
    decreases n,
{
    if n == 0 {
        Seq::empty()
    } else {
        insert_position(keys, stable_order_of(keys, (n - 1) as nat), (n - 1) as usize)
    }
}

/// The stable order of all positions of `keys`.
pub open spec fn stable_order(keys: Seq<u64>) -> Seq<usize> {
    stable_order_of(keys, keys.len())
}

/// Whether `order` names positions below `n` only, each before every
/// position that it precedes.
pub open spec fn is_ordered(keys: Seq<u64>, order: Seq<usize>, n: int) -> bool {
    &&& forall|p: int| 0 <= p < order.len() ==> 0 <= #[trigger] order[p] < n
    &&& forall|p: int, q: int|
        0 <= p < q < order.len() ==> precedes(keys, #[trigger] order[p] as int, #[trigger] order[q] as int)
}

/// Putting a position at the place where the larger keys begin is what
/// `insert_position` does.
pub proof fn lemma_insert_position_at(keys: Seq<u64>, order: Seq<usize>, i: usize, at: int)
    requires
        0 <= at <= order.len(),
        at > 0 ==> keys[order[at - 1] as int] <= keys[i as int],
        forall|p: int| at <= p < order.len() ==> keys[#[trigger] order[p] as int] > keys[i as int],
    ensures
        insert_position(keys, order, i) == order.insert(at, i),
    decreases order.len() - at,
{
    if at == order.len() {
        assert(order.insert(at, i) =~= order.push(i));
    } else {
        assert(keys[order[order.len() - 1] as int] > keys[i as int]);
        let shorter = order.drop_last();
        lemma_insert_position_at(keys, shorter, i, at);
        assert(shorter.insert(at, i).push(order.last()) =~= order.insert(at, i));
    }
}

/// Inserting a position keeps what was there, adds the position, and keeps
/// the order, where the position is larger than all that were there.
pub proof fn lemma_insert_position_ordered(keys: Seq<u64>, order: Seq<usize>, i: usize)
    requires
        i < keys.len(),
        is_ordered(keys, order, i as int),
    ensures
        is_ordered(keys, insert_position(keys, order, i), i + 1),
        insert_position(keys, order, i).len() == order.len() + 1,
        insert_position(keys, order, i).contains(i),
        forall|v: usize| order.contains(v) ==> insert_position(keys, order, i).contains(v),
        forall|v: usize|
            insert_position(keys, order, i).contains(v) ==> v == i || order.contains(v),
    decreases order.len(),
{
    let result = insert_position(keys, order, i);
    if order.len() == 0 || keys[order.last() as int] <= keys[i as int] {
        assert(result == order.push(i));
        assert(result[order.len() as int] == i);
        assert forall|p: int, q: int| 0 <= p < q < result.len() implies precedes(
            keys,
            #[trigger] result[p] as int,
            #[trigger] result[q] as int,
        ) by {
            if q == order.len() {
                assert(result[p] == order[p]);
                if p < order.len() - 1 {
                    assert(precedes(keys, order[p] as int, order[order.len() - 1] as int));
                }
            } else {
                assert(result[p] == order[p] && result[q] == order[q]);
            }
        }
        assert forall|v: usize| order.contains(v) implies result.contains(v) by {
            let p = choose|p: int| 0 <= p < order.len() && order[p] == v;
            assert(result[p] == v);
        }
        assert forall|v: usize| result.contains(v) implies v == i || order.contains(v) by {
            let p = choose|p: int| 0 <= p < result.len() && result[p] == v;
            if p < order.len() {
                assert(order[p] == v);
            }
        }
    } else {
        let shorter = order.drop_last();
        let last = order.last();
        assert(is_ordered(keys, shorter, i as int)) by {
            assert forall|p: int| 0 <= p < shorter.len() implies 0 <= #[trigger] shorter[p]
                < i by {
                assert(shorter[p] == order[p]);
            }
            assert forall|p: int, q: int| 0 <= p < q < shorter.len() implies precedes(
                keys,
                #[trigger] shorter[p] as int,
                #[trigger] shorter[q] as int,
            ) by {
                assert(shorter[p] == order[p] && shorter[q] == order[q]);
            }
        }
        lemma_insert_position_ordered(keys, shorter, i);
        let inner = insert_position(keys, shorter, i);
        assert(result == inner.push(last));
        assert(result[inner.len() as int] == last);
        assert(order[order.len() - 1] == last);
        assert forall|p: int| 0 <= p < result.len() implies 0 <= #[trigger] result[p] < i
            + 1 by {
            if p < inner.len() {
                assert(result[p] == inner[p]);
            }
        }
        assert forall|p: int, q: int| 0 <= p < q < result.len() implies precedes(
            keys,
            #[trigger] result[p] as int,
            #[trigger] result[q] as int,
        ) by {
            if q == inner.len() {
                assert(result[p] == inner[p]);
                assert(inner.contains(inner[p]));
                if inner[p] != i {
                    assert(shorter.contains(inner[p]));
                    let r = choose|r: int| 0 <= r < shorter.len() && shorter[r] == inner[p];
                    assert(order[r] == inner[p]);
                    assert(precedes(keys, order[r] as int, order[order.len() - 1] as int));
                }
            } else {
                assert(result[p] == inner[p] && result[q] == inner[q]);
            }
        }
        assert(result.contains(i)) by {
            let p = choose|p: int| 0 <= p < inner.len() && inner[p] == i;
            assert(result[p] == i);
        }
        assert forall|v: usize| order.contains(v) implies result.contains(v) by {
            let p = choose|p: int| 0 <= p < order.len() && order[p] == v;
            if p < shorter.len() {
                assert(shorter[p] == v);
                assert(shorter.contains(v));
                let r = choose|r: int| 0 <= r < inner.len() && inner[r] == v;
                assert(result[r] == v);
            }
        }
        assert forall|v: usize| result.contains(v) implies v == i || order.contains(v) by {
            let p = choose|p: int| 0 <= p < result.len() && result[p] == v;
            if p < inner.len() {
                assert(inner[p] == v);
                assert(inner.contains(v));
                if v != i {
                    assert(shorter.contains(v));
                    let r = choose|r: int| 0 <= r < shorter.len() && shorter[r] == v;
                    assert(order[r] == v);
                }
            } else {
                assert(order[order.len() - 1] == v);
            }
        }
    }
}

/// The stable order of the first `n` positions names each of them once,
/// every position before those that it precedes.
pub proof fn lemma_stable_order_of(keys: Seq<u64>, n: nat)
    requires
        n <= keys.len(),
        keys.len() <= usize::MAX,
    ensures
        stable_order_of(keys, n).len() == n,
        is_ordered(keys, stable_order_of(keys, n), n as int),
        forall|i: usize| i < n ==> #[trigger] stable_order_of(keys, n).contains(i),
    decreases n,
{
    if n > 0 {
        let before = stable_order_of(keys, (n - 1) as nat);
        lemma_stable_order_of(keys, (n - 1) as nat);
        lemma_insert_position_ordered(keys, before, (n - 1) as usize);
        assert forall|i: usize| i < n implies #[trigger] stable_order_of(keys, n).contains(
            i,
        ) by {
            if i < n - 1 {
                assert(before.contains(i));
            }
        }
    }
}

/// The stable order names every position once, every position before those
/// that it precedes: smaller keys first, equal keys in their first order.
pub proof fn lemma_stable_order(keys: Seq<u64>)
    requires
        keys.len() <= usize::MAX,
    ensures
        stable_order(keys).len() == keys.len(),
        is_ordered(keys, stable_order(keys), keys.len() as int),
        forall|i: usize| i < keys.len() ==> #[trigger] stable_order(keys).contains(i),
{
    lemma_stable_order_of(keys, keys.len());
}

/// The positions of `keys` in their stable order.
pub fn order_by_key(keys: &Vec<u64>) -> (order: Vec<usize>)
    ensures
        order@ == stable_order(keys@),
        order.len() == keys.len(),
        is_ordered(keys@, order@, keys.len() as int),
{
    let n: usize = keys.len();
    let mut order: Vec<usize> = Vec::new();
    let mut i: usize = 0;
    while i < n
        invariant
            i <= n == keys.len(),
            order@ == stable_order_of(keys@, i as nat),
            order.len() == i,
            is_ordered(keys@, order@, i as int),
        decreases n - i,
    {
        let key: u64 = keys[i];
        let mut at: usize = order.len();
        while at > 0 && keys[order[at - 1]] > key
            invariant
                i < n == keys.len(),
                key == keys@[i as int],
                at <= order.len() == i,
                is_ordered(keys@, order@, i as int),
                forall|p: int| at <= p < order.len() ==> keys@[#[trigger] order@[p] as int] > key,
            decreases at,
        {
            at -= 1;
        }
        proof {
            lemma_insert_position_at(keys@, order@, i, at as int);
            lemma_insert_position_ordered(keys@, order@, i);
        }
        order.insert(at, i);
        i += 1;
    }
    order
}

} // verus!
