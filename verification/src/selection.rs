//! Dividing the parts of a sequence into two groups by a predicate.
//!
//! What a predicate answers for each part is held as a sequence of flags,
//! one for each part; [`select`] picks the parts of one group.
use vstd::prelude::*;
use vstd::seq_lib::{lemma_multiset_commutative, to_multiset_build};

verus! {

/// `flags` holds, for each of `parts`, an answer that `pred` may give for it.
pub open spec fn classifies<T, P: Fn(&T) -> bool>(pred: P, parts: Seq<T>, flags: Seq<bool>) -> bool {
    &&& flags.len() == parts.len()
    &&& forall|i: int| 0 <= i < parts.len() ==> call_ensures(pred, (&parts[i],), #[trigger] flags[i])
}

/// The parts whose flag is `keep`, in the order in which they stand in `parts`.
pub open spec fn select<T>(parts: Seq<T>, flags: Seq<bool>, keep: bool) -> Seq<T>
    decreases parts.len(),
{
    if parts.len() == 0 {
        Seq::empty()
    } else {
        let rest = select(parts.drop_last(), flags, keep);
        if flags[parts.len() - 1] == keep {
            rest.push(parts.last())
        } else {
            rest
        }
    }
}

/// Only the flags of the parts at hand count.
pub proof fn lemma_select_reads_own_flags<T>(
    parts: Seq<T>,
    flags: Seq<bool>,
    other: Seq<bool>,
    keep: bool,
)
    requires
        forall|i: int| 0 <= i < parts.len() ==> flags[i] == other[i],
    ensures
        select(parts, flags, keep) == select(parts, other, keep),
    decreases parts.len(),
{
    if parts.len() > 0 {
        lemma_select_reads_own_flags(parts.drop_last(), flags, other, keep);
    }
}

/// One part more goes to the group that its flag names.
pub proof fn lemma_select_push<T>(parts: Seq<T>, flags: Seq<bool>, part: T, flag: bool, keep: bool)
    requires
        flags.len() == parts.len(),
    ensures
        select(parts.push(part), flags.push(flag), keep) == if flag == keep {
            select(parts, flags, keep).push(part)
        } else {
            select(parts, flags, keep)
        },
{
    assert(parts.push(part).drop_last() =~= parts);
    lemma_select_reads_own_flags(parts, flags.push(flag), flags, keep);
}

/// The two groups that a classification makes of the parts hold, together,
/// each part as often as the parts do.
pub proof fn lemma_select_is_permutation<T>(parts: Seq<T>, flags: Seq<bool>)
    ensures
        (select(parts, flags, true) + select(parts, flags, false)).to_multiset()
            == parts.to_multiset(),
    decreases parts.len(),
{
    broadcast use vstd::multiset::group_multiset_axioms;

    let chosen = select(parts, flags, true);
    let others = select(parts, flags, false);
    if parts.len() == 0 {
        assert(chosen + others =~= parts);
    } else {
        lemma_multiset_commutative(chosen, others);
        let front = parts.drop_last();
        let last = parts.last();
        let chosen_front = select(front, flags, true);
        let others_front = select(front, flags, false);
        lemma_select_is_permutation(front, flags);
        lemma_multiset_commutative(chosen_front, others_front);
        assert(parts =~= front.push(last));
        to_multiset_build(front, last);
        to_multiset_build(chosen_front, last);
        to_multiset_build(others_front, last);
    }
}

/// The positions below `n` whose flag is `keep`, in rising order.
pub open spec fn positions(flags: Seq<bool>, n: nat, keep: bool) -> Seq<int>
    decreases n,
{
    if n == 0 {
        Seq::empty()
    } else {
        let rest = positions(flags, (n - 1) as nat, keep);
        if flags[n - 1] == keep {
            rest.push(n - 1)
        } else {
            rest
        }
    }
}

/// A group holds the parts at the positions of its flag, in the order of the
/// positions: parts of one group stand in the group as they stood among the
/// parts.
pub proof fn lemma_select_keeps_order<T>(parts: Seq<T>, flags: Seq<bool>, keep: bool)
    ensures
        select(parts, flags, keep).len() == positions(flags, parts.len(), keep).len(),
        forall|k: int|
            #![trigger positions(flags, parts.len(), keep)[k]]
            0 <= k < positions(flags, parts.len(), keep).len() ==> {
                let at = positions(flags, parts.len(), keep)[k];
                &&& 0 <= at < parts.len()
                &&& flags[at] == keep
                &&& select(parts, flags, keep)[k] == parts[at]
            },
        forall|a: int, b: int|
            #![trigger positions(flags, parts.len(), keep)[a], positions(flags, parts.len(), keep)[b]]
            0 <= a < b < positions(flags, parts.len(), keep).len() ==> positions(
                flags,
                parts.len(),
                keep,
            )[a] < positions(flags, parts.len(), keep)[b],
    decreases parts.len(),
{
    if parts.len() > 0 {
        lemma_select_keeps_order(parts.drop_last(), flags, keep);
    }
}

/// Whatever `pred` answers for a value is what `p` says of it.
pub open spec fn decides<T, P: Fn(&T) -> bool>(pred: P, p: spec_fn(T) -> bool) -> bool {
    forall|value: T, answer: bool| #[trigger]
        call_ensures(pred, (&value,), answer) ==> answer == p(value)
}

/// Where `pred` decides `p`, the two groups are the parts that satisfy `p`
/// and the parts that do not.
pub proof fn lemma_select_by_model<T, P: Fn(&T) -> bool>(
    pred: P,
    p: spec_fn(T) -> bool,
    parts: Seq<T>,
    flags: Seq<bool>,
)
    requires
        decides(pred, p),
        classifies(pred, parts, flags),
    ensures
        select(parts, flags, true) == parts.filter(p),
        select(parts, flags, false) == parts.filter(|value: T| !p(value)),
    decreases parts.len(),
{
    reveal(Seq::filter);
    if parts.len() > 0 {
        let front = parts.drop_last();
        lemma_select_by_model(pred, p, front, flags.drop_last());
        lemma_select_reads_own_flags(front, flags, flags.drop_last(), true);
        lemma_select_reads_own_flags(front, flags, flags.drop_last(), false);
    }
}

} // verus!
