//! Choosing the value-extreme `k` values of a set of distinct ordinals.

use vstd::prelude::*;

verus! {

broadcast use vstd::seq_lib::group_seq_properties;

/// `x` comes before `y` in the selection order: smaller values first when
/// ascending, larger values first when descending.
pub open spec fn precedes(x: u64, y: u64, ascend: bool) -> bool {
    if ascend {
        x < y
    } else {
        x > y
    }
}

/// `chosen` holds the `k` values of `pool` that come first in the selection
/// order, or all of `pool` when it holds no more than `k` values.
pub open spec fn is_value_extreme(chosen: Set<u64>, pool: Set<u64>, k: nat, ascend: bool) -> bool {
    &&& chosen.finite()
    &&& chosen.subset_of(pool)
    &&& chosen.len() == (if pool.len() <= k { pool.len() } else { k })
    &&& forall|x: u64, y: u64|
        #![trigger chosen.contains(x), pool.contains(y)]
        chosen.contains(x) && pool.contains(y) && !chosen.contains(y) ==> precedes(x, y, ascend)
}

pub(crate) proof fn lemma_push_distinct(s: Seq<u64>, x: u64)
    requires
        s.no_duplicates(),
        !s.contains(x),
    ensures
        s.push(x).no_duplicates(),
{
    assert forall|i: int, j: int| 0 <= i < j < s.len() + 1 implies s.push(x)[i] != s.push(x)[j] by {
        if j == s.len() {
            assert(s[i] != x);
        }
    }
}

fn precedes_exec(x: u64, y: u64, ascend: bool) -> (r: bool)
    ensures
        r == precedes(x, y, ascend),
{
    if ascend {
        x < y
    } else {
        x > y
    }
}

/// Keeps the `k` values of `values` that come first in the selection order.
/// The values are distinct; the order of the result is unspecified.
pub fn select_extreme(values: Vec<u64>, k: usize, ascend: bool) -> (r: Vec<u64>)
    requires
        values@.no_duplicates(),
        k <= values.len(),
    ensures
        r@.no_duplicates(),
        r.len() == k,
        forall|x: u64| r@.contains(x) ==> values@.contains(x),
        forall|x: u64, y: u64|
            #![trigger r@.contains(x), values@.contains(y)]
            r@.contains(x) && values@.contains(y) && !r@.contains(y) ==> precedes(x, y, ascend),
    decreases values.len(),
{
    let n = values.len();
    if k == 0 {
        return Vec::new();
    }
    if k == n {
        return values;
    }
    let mid = n / 2;
    let pivot = values[mid];
    let mut before: Vec<u64> = Vec::new();
    let mut after: Vec<u64> = Vec::new();
    let mut i: usize = 0;
    while i < n
        invariant
            n == values.len(),
            mid < n,
            pivot == values@[mid as int],
            values@.no_duplicates(),
            0 <= i <= n,
            before@.no_duplicates(),
            after@.no_duplicates(),
            before.len() + after.len() + (if i > mid { 1int } else { 0int }) == i,
            forall|x: u64|
                #[trigger] before@.contains(x) <==> (values@.subrange(0, i as int).contains(x)
                    && precedes(x, pivot, ascend)),
            forall|x: u64|
                #[trigger] after@.contains(x) <==> (values@.subrange(0, i as int).contains(x)
                    && x != pivot && !precedes(x, pivot, ascend)),
        decreases n - i,
    {
        let x = values[i];
        proof {
            assert(values@.subrange(0, i + 1) =~= values@.subrange(0, i as int).push(x));
            assert(!values@.subrange(0, i as int).contains(x));
        }
        if i != mid {
            if precedes_exec(x, pivot, ascend) {
                proof {
                    lemma_push_distinct(before@, x);
                }
                before.push(x);
            } else {
                proof {
                    lemma_push_distinct(after@, x);
                }
                after.push(x);
            }
        }
        i = i + 1;
    }
    proof {
        assert(values@.subrange(0, n as int) =~= values@);
    }
    let nb = before.len();
    if k <= nb {
        let r = select_extreme(before, k, ascend);
        proof {
            assert forall|x: u64, y: u64|
                #![trigger r@.contains(x), values@.contains(y)]
                r@.contains(x) && values@.contains(y) && !r@.contains(y) implies precedes(
                x,
                y,
                ascend,
            ) by {
                if !before@.contains(y) {
                    assert(before@.contains(x));
                }
            }
        }
        r
    } else if k == nb + 1 {
        proof {
            lemma_push_distinct(before@, pivot);
        }
        before.push(pivot);
        proof {
            assert forall|x: u64, y: u64|
                #![trigger before@.contains(x), values@.contains(y)]
                before@.contains(x) && values@.contains(y) && !before@.contains(y) implies precedes(
                x,
                y,
                ascend,
            ) by {
                assert(after@.contains(y));
            }
        }
        before
    } else {
        let mut rest = select_extreme(after, k - nb - 1, ascend);
        let ghost rest_view = rest@;
        let ghost lower = before@.push(pivot);
        proof {
            lemma_push_distinct(before@, pivot);
        }
        before.push(pivot);
        before.append(&mut rest);
        proof {
            assert forall|i: int, j: int|
                0 <= i < lower.len() && 0 <= j < rest_view.len() implies lower[i] != rest_view[j] by {
                assert(lower.contains(lower[i]));
                assert(rest_view.contains(rest_view[j]));
                assert(after@.contains(rest_view[j]));
            }
            vstd::seq_lib::lemma_no_dup_in_concat(lower, rest_view);
            assert forall|x: u64, y: u64|
                #![trigger before@.contains(x), values@.contains(y)]
                before@.contains(x) && values@.contains(y) && !before@.contains(y) implies precedes(
                x,
                y,
                ascend,
            ) by {
                assert(after@.contains(y));
                if !rest_view.contains(x) {
                    assert(lower.contains(x));
                }
            }
        }
        before
    }
}

proof fn lemma_extreme_sets_nested(a: Set<u64>, b: Set<u64>, pool: Set<u64>, k: nat, ascend: bool)
    requires
        pool.finite(),
        is_value_extreme(a, pool, k, ascend),
        is_value_extreme(b, pool, k, ascend),
    ensures
        a.subset_of(b),
{
    if !a.subset_of(b) {
        let x = choose|x: u64| a.contains(x) && !b.contains(x);
        if b.subset_of(a.remove(x)) {
            vstd::set_lib::lemma_len_subset(b, a.remove(x));
            assert(false);
        }
        let y = choose|y: u64| b.contains(y) && !a.remove(x).contains(y);
        assert(pool.contains(y) && pool.contains(x));
        assert(precedes(x, y, ascend));
        assert(precedes(y, x, ascend));
    }
}

/// The value-extreme `k` values of a finite pool are determined by the pool:
/// any two selections of them hold the same values.
pub proof fn lemma_value_extreme_unique(a: Set<u64>, b: Set<u64>, pool: Set<u64>, k: nat, ascend: bool)
    requires
        pool.finite(),
        is_value_extreme(a, pool, k, ascend),
        is_value_extreme(b, pool, k, ascend),
    ensures
        a == b,
{
    lemma_extreme_sets_nested(a, b, pool, k, ascend);
    lemma_extreme_sets_nested(b, a, pool, k, ascend);
    assert(a =~= b);
}

/// When the pool holds no more than `k` values, the selection keeps all of
/// them.
pub proof fn lemma_value_extreme_small_pool(chosen: Set<u64>, pool: Set<u64>, k: nat, ascend: bool)
    requires
        pool.finite(),
        pool.len() <= k,
        is_value_extreme(chosen, pool, k, ascend),
    ensures
        chosen == pool,
{
    vstd::set_lib::lemma_subset_equality(chosen, pool);
}

} // verus!
