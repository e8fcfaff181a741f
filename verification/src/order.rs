//! The order in which samples are played: by rising MIDI note.
//!
//! Samples are told apart by their positions in the list of keys. Positions with
//! one key keep the order in which they came.

use vstd::prelude::*;

verus! {

/// Position `i` comes before position `j`: its key is lower, or the keys are
/// equal and `i` is the earlier position.
pub open spec fn precedes(keys: Seq<u8>, i: int, j: int) -> bool {
    keys[i] < keys[j] || (keys[i] == keys[j] && i < j)
}

/// `order` arranges positions of `keys` so that each comes before all that
/// follow it.
pub open spec fn is_ordered(keys: Seq<u8>, order: Seq<usize>) -> bool {
    &&& forall|a: int| 0 <= a < order.len() ==> (#[trigger] order[a]) < keys.len()
    &&& forall|a: int, b: int|
        0 <= a < b < order.len() ==> precedes(
            keys,
            (#[trigger] order[a]) as int,
            (#[trigger] order[b]) as int,
        )
}

/// Where a new position with the key `key` goes into `order`: behind the last
/// entry whose key is not above `key`.
pub open spec fn slot(keys: Seq<u8>, order: Seq<usize>, key: u8) -> int
    decreases order.len(),
{
    if order.len() == 0 {
        0
    } else if keys[order.last() as int] <= key {
        order.len() as int
    } else {
        slot(keys, order.drop_last(), key)
    }
}

/// The first `n` positions of `keys` in playing order.
pub open spec fn order_of_first(keys: Seq<u8>, n: nat) -> Seq<usize>
    decreases n,
{
    if n == 0 {
        Seq::empty()
    } else {
        let before = order_of_first(keys, (n - 1) as nat);
        before.insert(slot(keys, before, keys[n - 1]), (n - 1) as usize)
    }
}

/// The positions of `keys` in playing order.
pub open spec fn order_by_pitch(keys: Seq<u8>) -> Seq<usize> {
    order_of_first(keys, keys.len())
}

proof fn lemma_slot(keys: Seq<u8>, order: Seq<usize>, key: u8)
    requires
        is_ordered(keys, order),
    ensures
        0 <= slot(keys, order, key) <= order.len(),
        forall|a: int| 0 <= a < slot(keys, order, key) ==> keys[(#[trigger] order[a]) as int] <= key,
        forall|a: int|
            slot(keys, order, key) <= a < order.len() ==> keys[(#[trigger] order[a]) as int] > key,
    decreases order.len(),
{
    if order.len() == 0 {
    } else if keys[order.last() as int] <= key {
        let last = order.len() - 1;
        assert forall|a: int| 0 <= a < order.len() implies keys[(#[trigger] order[a]) as int]
            <= key by {
            if a < last {
                assert(precedes(keys, order[a] as int, order[last] as int));
            }
        }
    } else {
        let head = order.drop_last();
        assert(is_ordered(keys, head)) by {
            assert forall|a: int, b: int| 0 <= a < b < head.len() implies precedes(
                keys,
                (#[trigger] head[a]) as int,
                (#[trigger] head[b]) as int,
            ) by {
                assert(head[a] == order[a] && head[b] == order[b]);
            }
            assert forall|a: int| 0 <= a < head.len() implies (#[trigger] head[a]) < keys.len() by {
                assert(head[a] == order[a]);
            }
        }
        lemma_slot(keys, head, key);
        assert forall|a: int| 0 <= a < slot(keys, order, key) implies keys[(
        #[trigger] order[a]) as int] <= key by {
            assert(head[a] == order[a]);
        }
        assert forall|a: int| slot(keys, order, key) <= a < order.len() implies keys[(
        #[trigger] order[a]) as int] > key by {
            if a < head.len() {
                assert(head[a] == order[a]);
            }
        }
    }
}

proof fn lemma_order_of_first(keys: Seq<u8>, n: nat)
    requires
        n <= keys.len(),
        n <= usize::MAX,
    ensures
        order_of_first(keys, n).len() == n,
        is_ordered(keys, order_of_first(keys, n)),
        forall|a: int| 0 <= a < n ==> (#[trigger] order_of_first(keys, n)[a]) < n,
        forall|i: usize| i < n ==> order_of_first(keys, n).contains(i),
    decreases n,
{
    if n > 0 {
        let before = order_of_first(keys, (n - 1) as nat);
        lemma_order_of_first(keys, (n - 1) as nat);
        let key = keys[n - 1];
        let at = slot(keys, before, key);
        lemma_slot(keys, before, key);
        let new = (n - 1) as usize;
        let after = before.insert(at, new);
        assert(after == order_of_first(keys, n));
        assert forall|a: int| 0 <= a < after.len() implies (#[trigger] after[a]) < n by {
            if a < at {
                assert(after[a] == before[a]);
            } else if a > at {
                assert(after[a] == before[a - 1]);
            }
        }
        assert forall|a: int, b: int| 0 <= a < b < after.len() implies precedes(
            keys,
            (#[trigger] after[a]) as int,
            (#[trigger] after[b]) as int,
        ) by {
            if b < at {
                assert(after[a] == before[a] && after[b] == before[b]);
            } else if b == at {
                assert(after[a] == before[a]);
            } else if a < at {
                assert(after[a] == before[a] && after[b] == before[b - 1]);
            } else if a == at {
                assert(after[b] == before[b - 1]);
            } else {
                assert(after[a] == before[a - 1] && after[b] == before[b - 1]);
            }
        }
        assert forall|i: usize| i < n implies after.contains(i) by {
            if i == n - 1 {
                assert(after[at] == new);
            } else {
                assert(before.contains(i));
                let a = choose|a: int| 0 <= a < before.len() && before[a] == i;
                if a < at {
                    assert(after[a] == before[a]);
                } else {
                    assert(after[a + 1] == before[a]);
                }
            }
        }
    }
}

/// The playing order is an arrangement of all positions: it has as many entries
/// as there are keys, every position is in it, and none is in it twice.
pub proof fn lemma_order_is_arrangement(keys: Seq<u8>)
    requires
        keys.len() <= usize::MAX,
    ensures
        order_by_pitch(keys).len() == keys.len(),
        forall|i: usize| i < keys.len() ==> order_by_pitch(keys).contains(i),
        forall|a: int, b: int|
            0 <= a < b < keys.len() ==> order_by_pitch(keys)[a] != order_by_pitch(keys)[b],
{
    lemma_order_of_first(keys, keys.len());
    let order = order_by_pitch(keys);
    assert forall|a: int, b: int| 0 <= a < b < keys.len() implies order[a] != order[b] by {
        assert(precedes(keys, order[a] as int, order[b] as int));
    }
}

/// Along the playing order the keys never fall, and positions with one key
/// stay in the order in which they came.
pub proof fn lemma_order_rises(keys: Seq<u8>)
    requires
        keys.len() <= usize::MAX,
    ensures
        is_ordered(keys, order_by_pitch(keys)),
        forall|a: int, b: int|
            0 <= a <= b < keys.len() ==> keys[order_by_pitch(keys)[a] as int] <= keys[order_by_pitch(
                keys,
            )[b] as int],
        forall|a: int, b: int|
            0 <= a < b < keys.len() && keys[order_by_pitch(keys)[a] as int] == keys[order_by_pitch(
                keys,
            )[b] as int] ==> order_by_pitch(keys)[a] < order_by_pitch(keys)[b],
{
    lemma_order_of_first(keys, keys.len());
    let order = order_by_pitch(keys);
    assert forall|a: int, b: int| 0 <= a <= b < keys.len() implies keys[order[a] as int]
        <= keys[order[b] as int] by {
        if a < b {
            assert(precedes(keys, order[a] as int, order[b] as int));
        }
    }
    assert forall|a: int, b: int|
        0 <= a < b < keys.len() && keys[order[a] as int] == keys[order[b] as int] implies order[a]
        < order[b] by {
        assert(precedes(keys, order[a] as int, order[b] as int));
    }
}

/// Only one arrangement of the positions is ordered, so being ordered says all
/// there is to say of the playing order.
pub proof fn lemma_order_is_unique(keys: Seq<u8>, order: Seq<usize>)
    requires
        keys.len() <= usize::MAX,
        order.len() == keys.len(),
        is_ordered(keys, order),
        forall|i: usize| i < keys.len() ==> order.contains(i),
    ensures
        order == order_by_pitch(keys),
{
    lemma_order_of_first(keys, keys.len());
    lemma_same_start(keys, order, order_by_pitch(keys), keys.len());
    assert(order =~= order_by_pitch(keys));
}

proof fn lemma_same_start(keys: Seq<u8>, first: Seq<usize>, second: Seq<usize>, n: nat)
    requires
        n <= keys.len(),
        first.len() == keys.len(),
        second.len() == keys.len(),
        is_ordered(keys, first),
        is_ordered(keys, second),
        forall|i: usize| i < keys.len() ==> first.contains(i),
        forall|i: usize| i < keys.len() ==> second.contains(i),
    ensures
        forall|k: int| 0 <= k < n ==> first[k] == second[k],
    decreases n,
{
    if n > 0 {
        lemma_same_start(keys, first, second, (n - 1) as nat);
        let k = n - 1;
        assert(second.contains(first[k]));
        let b = choose|b: int| 0 <= b < second.len() && second[b] == first[k];
        assert(first.contains(second[k]));
        let c = choose|c: int| 0 <= c < first.len() && first[c] == second[k];
        if b < k {
            assert(precedes(keys, first[b] as int, first[k] as int));
        } else if c < k {
            assert(precedes(keys, second[c] as int, second[k] as int));
        } else if b > k && c > k {
            assert(precedes(keys, second[k] as int, second[b] as int));
            assert(precedes(keys, first[k] as int, first[c] as int));
        }
    }
}

/// Puts the positions of `keys` in playing order.
pub fn sort_by_pitch(keys: &Vec<u8>) -> (order: Vec<usize>)
    ensures
        order@ == order_by_pitch(keys@),
        order@.len() == keys@.len(),
        is_ordered(keys@, order@),
{
    let mut order: Vec<usize> = Vec::new();
    let n = keys.len();
    let mut i: usize = 0;
    while i < n
        invariant
            i <= n,
            n == keys@.len(),
            order@ == order_of_first(keys@, i as nat),
        decreases n - i,
    {
        proof {
            lemma_order_of_first(keys@, i as nat);
        }
        let key = keys[i];
        let mut at = order.len();
        assert(order@.take(at as int) == order@);
        while at > 0 && keys[order[at - 1]] > key
            invariant
                at <= order@.len(),
                i < n == keys@.len(),
                key == keys@[i as int],
                forall|a: int| 0 <= a < order@.len() ==> (#[trigger] order@[a]) < n,
                slot(keys@, order@, key) == slot(keys@, order@.take(at as int), key),
            decreases at,
        {
            assert(order@.take(at as int).drop_last() == order@.take(at - 1));
            at -= 1;
        }
        proof {
            if at > 0 {
                assert(order@.take(at as int).last() == order@[at - 1]);
            }
            assert(slot(keys@, order@, key) == at);
        }
        order.insert(at, i);
        i += 1;
    }
    proof {
        lemma_order_of_first(keys@, n as nat);
    }
    order
}

} // verus!
