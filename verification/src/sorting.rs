//! Sorting a vector into descending order, in place.
use crate::order::{at_most, is_at_most, total_order};
use vstd::prelude::*;
use vstd::seq_lib::{to_multiset_insert, to_multiset_remove};
use vstd::set_lib::{
    lemma_int_range, lemma_set_subset_finite, lemma_subset_equality, set_int_range,
};

verus! {

/// No part stands before a greater one.
pub open spec fn sorted_descending<T: Ord>(s: Seq<T>) -> bool {
    forall|i: int, j: int| 0 <= i < j < s.len() ==> at_most(#[trigger] s[j], #[trigger] s[i])
}

/// `after` holds the parts of `before` in another order: the part at `k` in
/// `after` is the one that stood at `from[k]` in `before`, and no position of
/// `before` is named twice.
pub open spec fn rearranged<T>(before: Seq<T>, after: Seq<T>, from: Seq<int>) -> bool {
    &&& after.len() == before.len()
    &&& from.len() == before.len()
    &&& forall|k: int|
        0 <= k < after.len() ==> 0 <= #[trigger] from[k] < before.len() && after[k] == before[from[k]]
    &&& forall|k: int, l: int|
        0 <= k < l < from.len() ==> #[trigger] from[k] != #[trigger] from[l]
}

/// Of two parts that the order holds equal, the one that stood later in
/// `before` stands first.
pub open spec fn ties_reversed<T: Ord>(after: Seq<T>, from: Seq<int>) -> bool {
    forall|k: int, l: int|
        0 <= k < l < after.len() && at_most(after[k], after[l]) ==> #[trigger] from[k]
            > #[trigger] from[l]
}

/// Where the part at `a` stood before the part at `i` was moved to `k`, for
/// `k` not past `i`.
spec fn stood_at(a: int, k: int, i: int) -> int {
    if a < k {
        a
    } else if a == k {
        i
    } else if a <= i {
        a - 1
    } else {
        a
    }
}

/// The first position among the first `limit` parts whose part is at most
/// `item`, or `limit` where there is none.
fn insertion_point<T: Ord>(parts: &Vec<T>, limit: usize, item: &T) -> (k: usize)
    requires
        total_order::<T>(),
        limit <= parts.len(),
    ensures
        k <= limit,
        forall|j: int| 0 <= j < k ==> !at_most(#[trigger] parts@[j], *item),
        k < limit ==> at_most(parts@[k as int], *item),
{
    let mut k: usize = 0;
    while k < limit
        invariant
            k <= limit <= parts.len(),
            total_order::<T>(),
            forall|j: int| 0 <= j < k ==> !at_most(#[trigger] parts@[j], *item),
        decreases limit - k,
    {
        if is_at_most(&parts[k], item) {
            return k;
        }
        k += 1;
    }
    k
}

/// Sorts `parts` into descending order. Of parts that the order holds equal,
/// the one that stood later comes first.
pub fn sort_descending<T: Ord>(parts: &mut Vec<T>)
    requires
        total_order::<T>(),
    ensures
        sorted_descending(final(parts)@),
        final(parts)@.to_multiset() == old(parts)@.to_multiset(),
        exists|from: Seq<int>|
            #[trigger] rearranged(old(parts)@, final(parts)@, from) && ties_reversed(
                final(parts)@,
                from,
            ),
{
    let ghost mut from: Seq<int> = Seq::new(parts@.len(), |k: int| k);
    let mut i: usize = 0;
    while i < parts.len()
        invariant
            i <= parts.len(),
            total_order::<T>(),
            sorted_descending(parts@.take(i as int)),
            parts@.to_multiset() == old(parts)@.to_multiset(),
            rearranged(old(parts)@, parts@, from),
            ties_reversed(parts@.take(i as int), from),
            forall|k: int| 0 <= k < i ==> #[trigger] from[k] < i,
            forall|k: int| i <= k < from.len() ==> #[trigger] from[k] == k,
        decreases parts.len() - i,
    {
        let ghost before = parts@;
        let ghost before_from = from;
        let item = parts.remove(i);
        let ghost without = parts@;
        let k = insertion_point(parts, i, &item);
        parts.insert(k, item);
        proof {
            from = before_from.remove(i as int).insert(k as int, i as int);
            to_multiset_remove(before, i as int);
            to_multiset_insert(without, k as int, item);
            before.to_multiset_ensures();
            assert forall|a: int| 0 <= a < parts@.len() implies 0 <= #[trigger] from[a] < parts@.len()
                && parts@[a] == old(parts)@[from[a]] by {
                assert(from[a] == before_from[stood_at(a, k as int, i as int)]);
            }
        }
        i += 1;
    }
    proof {
        assert(parts@.take(parts.len() as int) =~= parts@);
    }
}

/// The part at `i` stands before the part at `j` once `parts` are in
/// descending order with ties reversed: it is greater, or it is equal in the
/// order and stood later.
spec fn goes_before<T: Ord>(parts: Seq<T>, i: int, j: int) -> bool {
    !at_most(parts[i], parts[j]) || (at_most(parts[j], parts[i]) && i > j)
}

/// In a descending order with ties reversed, the part that stands earlier is
/// the one that goes before.
proof fn lemma_earlier_goes_before<T: Ord>(
    before: Seq<T>,
    after: Seq<T>,
    from: Seq<int>,
    k: int,
    l: int,
)
    requires
        rearranged(before, after, from),
        sorted_descending(after),
        ties_reversed(after, from),
        0 <= k < l < after.len(),
    ensures
        goes_before(before, from[k], from[l]),
{
}

/// A rearrangement names every position.
proof fn lemma_names_every_position<T>(before: Seq<T>, after: Seq<T>, from: Seq<int>, i: int)
    requires
        rearranged(before, after, from),
        0 <= i < before.len(),
    ensures
        exists|k: int| 0 <= k < from.len() && from[k] == i,
{
    // The positions named are as many as there are positions, and are among
    // them: so they are all of them.
    let all = set_int_range(0, before.len() as int);
    assert(from.no_duplicates()) by {
        assert forall|k: int, l: int|
            0 <= k < from.len() && 0 <= l < from.len() && k != l implies from[k] != from[l] by {
            if k < l {
                assert(from[k] != from[l]);
            } else {
                assert(from[l] != from[k]);
            }
        }
    }
    from.unique_seq_to_set();
    lemma_int_range(0, before.len() as int);
    assert forall|value: int| from.to_set().contains(value) implies all.contains(value) by {
        let k = choose|k: int| 0 <= k < from.len() && from[k] == value;
        assert(0 <= from[k] < before.len());
    }
    lemma_set_subset_finite(all, from.to_set());
    lemma_subset_equality(from.to_set(), all);
    assert(all.contains(i));
}

/// Two descending orders of the same parts, both with ties reversed, agree on
/// where each of their first `k` parts stood.
proof fn lemma_same_up_to<T: Ord>(
    before: Seq<T>,
    a: Seq<T>,
    from_a: Seq<int>,
    b: Seq<T>,
    from_b: Seq<int>,
    k: int,
)
    requires
        total_order::<T>(),
        rearranged(before, a, from_a),
        sorted_descending(a),
        ties_reversed(a, from_a),
        rearranged(before, b, from_b),
        sorted_descending(b),
        ties_reversed(b, from_b),
        0 <= k <= before.len(),
    ensures
        forall|j: int| 0 <= j < k ==> from_a[j] == from_b[j],
    decreases k,
{
    if k > 0 {
        let j = k - 1;
        lemma_same_up_to(before, a, from_a, b, from_b, j);
        if from_a[j] != from_b[j] {
            // Each order holds, past `j`, the part that the other holds at
            // `j`: so each of the two parts would go before the other.
            lemma_names_every_position(before, b, from_b, from_a[j]);
            lemma_names_every_position(before, a, from_a, from_b[j]);
            let l = choose|l: int| 0 <= l < from_b.len() && from_b[l] == from_a[j];
            let m = choose|m: int| 0 <= m < from_a.len() && from_a[m] == from_b[j];
            assert(j < l) by {
                if l < j {
                    assert(from_a[l] != from_a[j]);
                }
            }
            assert(j < m) by {
                if m < j {
                    assert(from_b[m] != from_b[j]);
                }
            }
            lemma_earlier_goes_before(before, a, from_a, j, m);
            lemma_earlier_goes_before(before, b, from_b, j, l);
        }
    }
}

/// There is one descending order of given parts with ties reversed: what
/// [`sort_descending`] promises of its result holds of that result alone.
pub proof fn lemma_descending_order_is_unique<T: Ord>(
    before: Seq<T>,
    a: Seq<T>,
    from_a: Seq<int>,
    b: Seq<T>,
    from_b: Seq<int>,
)
    requires
        total_order::<T>(),
        rearranged(before, a, from_a),
        sorted_descending(a),
        ties_reversed(a, from_a),
        rearranged(before, b, from_b),
        sorted_descending(b),
        ties_reversed(b, from_b),
    ensures
        a == b,
        from_a == from_b,
{
    lemma_same_up_to(before, a, from_a, b, from_b, before.len() as int);
    assert forall|k: int| 0 <= k < a.len() implies a[k] == b[k] by {
        assert(a[k] == before[from_a[k]] && b[k] == before[from_b[k]]);
    }
}

} // verus!
