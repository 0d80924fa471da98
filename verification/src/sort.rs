//! A stable ordering of positions by integer keys, as `sort_by_key` orders
//! a slice: by key, and by position among equal keys.

use vstd::prelude::*;

verus! {

/// Position `i` comes before position `j`: its key is smaller, or the keys
/// are equal and `i` comes first.
pub open spec fn key_before(keys: Seq<i64>, i: int, j: int) -> bool {
    keys[i] < keys[j] || (keys[i] == keys[j] && i < j)
}

/// `order` lists each position of `keys` once, by key and, among equal
/// keys, by position.
pub open spec fn stable_order(keys: Seq<i64>, order: Seq<usize>) -> bool {
    &&& order.len() == keys.len()
    &&& forall|k: int| 0 <= k < order.len() ==> #[trigger] order[k] < keys.len()
    &&& forall|k: int, l: int|
        0 <= k < l < order.len() ==> key_before(keys, #[trigger] order[k] as int, #[trigger] order[l] as int)
}

/// Law: a stable sort keeps every item. A stable order of the positions of
/// `keys` visits every position.
pub proof fn lemma_stable_order_covers(keys: Seq<i64>, order: Seq<usize>, p: int)
    requires
        stable_order(keys, order),
        0 <= p < keys.len(),
    ensures
        exists|k: int| 0 <= k < order.len() && order[k] == p,
{
    // The positions of `order` are distinct and there are as many of them
    // as there are positions, so every position is among them.
    let s = order.map_values(|x: usize| x as int).to_set();
    assert forall|k: int, l: int| 0 <= k < l < order.len() implies order[k] != order[l] by {
        assert(key_before(keys, order[k] as int, order[l] as int));
    }
    let m = order.map_values(|x: usize| x as int);
    assert(m.no_duplicates()) by {
        assert forall|k: int, l: int| 0 <= k < m.len() && 0 <= l < m.len() && k != l implies m[k] != m[l] by {
            if k < l {
                assert(key_before(keys, order[k] as int, order[l] as int));
            } else {
                assert(key_before(keys, order[l] as int, order[k] as int));
            }
        }
    }
    m.unique_seq_to_set();
    let full = Set::new(|x: int| 0 <= x < keys.len());
    assert(s.subset_of(full)) by {
        assert forall|x: int| s.contains(x) implies full.contains(x) by {
            let k = choose|k: int| 0 <= k < m.len() && m[k] == x;
            assert(order[k] < keys.len());
        }
    }
    vstd::set_lib::lemma_int_range(0, keys.len() as int);
    assert(full == vstd::set_lib::set_int_range(0, keys.len() as int));
    if !s.contains(p) {
        vstd::set_lib::lemma_len_subset(s.insert(p), full);
    }
    let k = choose|k: int| 0 <= k < m.len() && m[k] == p;
    assert(order[k] == p);
}

/// The positions of `keys` in the order of a stable sort by key.
pub fn stable_sort_positions(keys: &Vec<i64>) -> (order: Vec<usize>)
    ensures
        stable_order(keys@, order@),
{
    let mut order: Vec<usize> = Vec::new();
    let n = keys.len();
    for i in 0..n
        invariant
            n == keys@.len(),
            order@.len() == i,
            forall|k: int| 0 <= k < order@.len() ==> #[trigger] order@[k] < i,
            forall|k: int, l: int|
                0 <= k < l < order@.len() ==> key_before(keys@, #[trigger] order@[k] as int, #[trigger] order@[l] as int),
    {
        // Position `i` goes after every position whose key is not larger.
        let mut at: usize = order.len();
        while at > 0 && keys[order[at - 1]] > keys[i]
            invariant
                n == keys@.len(),
                i < n,
                order@.len() == i,
                at <= order@.len(),
                forall|k: int| 0 <= k < order@.len() ==> #[trigger] order@[k] < i,
                forall|k: int| at <= k < order@.len() ==> keys@[#[trigger] order@[k] as int] > keys@[i as int],
            decreases at,
        {
            at -= 1;
        }
        let ghost before = order@;
        order.insert(at, i);
        proof {
            assert forall|k: int, l: int|
                0 <= k < l < order@.len() implies key_before(keys@, #[trigger] order@[k] as int, #[trigger] order@[l] as int) by {
                if l < at {
                    assert(order@[k] == before[k] && order@[l] == before[l]);
                } else if l == at {
                    assert(order@[l] == i);
                    assert(order@[k] == before[k]);
                    // `at` stopped at a position whose key is not larger.
                    if k < at - 1 {
                        assert(key_before(keys@, before[k] as int, before[at - 1] as int));
                    }
                } else if k < at {
                    assert(order@[l] == before[l - 1]);
                    assert(order@[k] == before[k]);
                    if k < l - 1 {
                        assert(key_before(keys@, before[k] as int, before[l - 1] as int));
                    }
                } else if k == at {
                    assert(order@[k] == i);
                    assert(order@[l] == before[l - 1]);
                } else {
                    assert(order@[k] == before[k - 1] && order@[l] == before[l - 1]);
                    assert(key_before(keys@, before[k - 1] as int, before[l - 1] as int));
                }
            }
        }
    }
    order
}

} // verus!
