//! Priority ordering: items are processed from the highest priority to the lowest, and items
//! of equal priority keep their declaration order.

use vstd::prelude::*;

verus! {

broadcast use vstd::seq_lib::group_seq_properties;

/// The first position, at or after `j`, whose item has a priority strictly below `p`; the
/// length of `order` if there is none.
pub open spec fn insertion_index(order: Seq<usize>, priorities: Seq<i8>, p: i8, j: int) -> int
    decreases order.len() - j,
{
    if j >= order.len() {
        order.len() as int
    } else if priorities[order[j] as int] < p {
        j
    } else {
        insertion_index(order, priorities, p, j + 1)
    }
}

/// The processing order of items with the given priorities: item positions, highest priority
/// first, equal priorities in declaration order.
pub open spec fn priority_order(priorities: Seq<i8>) -> Seq<usize>
    decreases priorities.len(),
{
    if priorities.len() == 0 {
        Seq::empty()
    } else {
        let prev = priority_order(priorities.drop_last());
        prev.insert(
            insertion_index(prev, priorities, priorities.last(), 0),
            (priorities.len() - 1) as usize,
        )
    }
}

/// `order` lists every position of `priorities` exactly once, by non-increasing priority, with
/// equal priorities in increasing position.
pub open spec fn is_priority_order(priorities: Seq<i8>, order: Seq<usize>) -> bool {
    &&& order.len() == priorities.len()
    &&& forall|i: int| 0 <= i < order.len() ==> #[trigger] order[i] < priorities.len()
    &&& order.no_duplicates()
    &&& forall|i: int, j: int|
        0 <= i < j < order.len() ==> {
            ||| priorities[#[trigger] order[i] as int] > priorities[#[trigger] order[j] as int]
            ||| (priorities[order[i] as int] == priorities[order[j] as int] && order[i] < order[j])
        }
}

proof fn lemma_insertion_index_bounds(order: Seq<usize>, priorities: Seq<i8>, p: i8, j: int)
    requires
        0 <= j <= order.len(),
    ensures
        j <= insertion_index(order, priorities, p, j) <= order.len(),
        forall|k: int| j <= k < insertion_index(order, priorities, p, j) ==> priorities[order[k] as int] >= p,
        insertion_index(order, priorities, p, j) < order.len() ==> priorities[order[insertion_index(order, priorities, p, j)] as int] < p,
    decreases order.len() - j,
{
    if j < order.len() && priorities[order[j] as int] >= p {
        lemma_insertion_index_bounds(order, priorities, p, j + 1);
    }
}

proof fn lemma_insertion_index_prefix(order: Seq<usize>, priorities: Seq<i8>, n: int, p: i8, j: int)
    requires
        0 <= j <= order.len(),
        n <= priorities.len(),
        forall|k: int| 0 <= k < order.len() ==> order[k] < n,
    ensures
        insertion_index(order, priorities.take(n), p, j) == insertion_index(order, priorities, p, j),
    decreases order.len() - j,
{
    if j < order.len() {
        assert(priorities.take(n)[order[j] as int] == priorities[order[j] as int]);
        lemma_insertion_index_prefix(order, priorities, n, p, j + 1);
    }
}

/// The priority order is a permutation of the positions, sorted by non-increasing priority,
/// stable for equal priorities.
pub proof fn lemma_priority_order_sorted(priorities: Seq<i8>)
    requires
        priorities.len() <= usize::MAX,
    ensures
        is_priority_order(priorities, priority_order(priorities)),
    decreases priorities.len(),
{
    if priorities.len() > 0 {
        let n = priorities.len() - 1;
        let rest = priorities.drop_last();
        lemma_priority_order_sorted(rest);
        let prev = priority_order(rest);
        let p = priorities.last();
        let idx = insertion_index(prev, priorities, p, 0);
        lemma_insertion_index_bounds(prev, priorities, p, 0);
        let res = prev.insert(idx, n as usize);
        assert(res == priority_order(priorities));
        assert(n as usize == n);
        assert(res[idx] == n);
        assert forall|k: int| 0 <= k < prev.len() implies prev[k] < n by {}
        assert forall|k: int| 0 <= k < prev.len() implies priorities[prev[k] as int] == rest[prev[k] as int] by {}
        assert forall|a: int, b: int| 0 <= a < prev.len() && 0 <= b < prev.len() && a < b implies
            priorities[prev[a] as int] >= priorities[prev[b] as int] by {
            assert(rest[prev[a] as int] >= rest[prev[b] as int]);
        }
        assert forall|k: int| idx <= k < prev.len() implies priorities[prev[k] as int] < p by {
            if k > idx {
                assert(priorities[prev[idx] as int] >= priorities[prev[k] as int]);
            }
        }
        assert forall|i: int| 0 <= i < res.len() implies #[trigger] res[i] < priorities.len() by {
            if i < idx {
                assert(res[i] == prev[i]);
            } else if i > idx {
                assert(res[i] == prev[i - 1]);
            }
        }
        assert forall|i: int, j: int| 0 <= i < res.len() && 0 <= j < res.len() && i != j implies res[i] != res[j] by {
            if i != idx && j != idx {
                let pi = if i < idx { i } else { i - 1 };
                let pj = if j < idx { j } else { j - 1 };
                assert(res[i] == prev[pi]);
                assert(res[j] == prev[pj]);
            } else if i == idx {
                let pj = if j < idx { j } else { j - 1 };
                assert(res[j] == prev[pj]);
            } else {
                let pi = if i < idx { i } else { i - 1 };
                assert(res[i] == prev[pi]);
            }
        }
        assert forall|i: int, j: int| 0 <= i < j < res.len() implies {
            ||| priorities[#[trigger] res[i] as int] > priorities[#[trigger] res[j] as int]
            ||| (priorities[res[i] as int] == priorities[res[j] as int] && res[i] < res[j])
        } by {
            if i != idx && j != idx {
                let pi = if i < idx { i } else { i - 1 };
                let pj = if j < idx { j } else { j - 1 };
                assert(res[i] == prev[pi]);
                assert(res[j] == prev[pj]);
                assert(rest[prev[pi] as int] == priorities[prev[pi] as int]);
                assert(rest[prev[pj] as int] == priorities[prev[pj] as int]);
            } else if i == idx {
                assert(res[j] == prev[j - 1]);
            } else {
                assert(res[i] == prev[i]);
            }
        }
    }
}

/// Computes the processing order of items with the given priorities.
pub fn order_by_priority(priorities: &Vec<i8>) -> (order: Vec<usize>)
    ensures
        order@ == priority_order(priorities@),
        is_priority_order(priorities@, order@),
{
    let mut order: Vec<usize> = Vec::new();
    let mut k: usize = 0;
    while k < priorities.len()
        invariant
            k <= priorities.len(),
            order@ == priority_order(priorities@.take(k as int)),
        decreases priorities.len() - k,
    {
        proof {
            lemma_priority_order_sorted(priorities@.take(k as int));
        }
        let p = priorities[k];
        let mut j: usize = 0;
        while j < order.len() && priorities[order[j]] >= p
            invariant
                j <= order.len(),
                k < priorities.len(),
                p == priorities@[k as int],
                forall|i: int| 0 <= i < order.len() ==> order@[i] < k,
                insertion_index(order@, priorities@, p, 0) == insertion_index(order@, priorities@, p, j as int),
            decreases order.len() - j,
        {
            j += 1;
        }
        proof {
            let t = priorities@.take(k + 1);
            assert(t.drop_last() =~= priorities@.take(k as int));
            assert(t.last() == p);
            lemma_insertion_index_prefix(order@, priorities@, k + 1, p, 0);
            assert(insertion_index(order@, priorities@, p, j as int) == j);
        }
        order.insert(j, k);
        k += 1;
    }
    assert(priorities@.take(priorities.len() as int) =~= priorities@);
    proof {
        lemma_priority_order_sorted(priorities@);
    }
    order
}

} // verus!
