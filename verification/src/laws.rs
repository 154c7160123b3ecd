//! What holds of compositions whose operation computes a function with the
//! algebraic properties that the operations on compositions rely on.
//!
//! The operations on compositions trust the caller on associativity, on the
//! initial value being an identity and on commutativity. The laws here say
//! what those properties buy: that the net stays the fold of the parts.
use crate::algebra::{associative, commutative, computes, folds_to, left_identity, lemma_fold_by_model};
use crate::composition::{decomposed, passes_check, CompositionView};
use crate::selection::{lemma_select_is_permutation, select};
use vstd::prelude::*;
use vstd::seq_lib::lemma_fold_left_permutation;

verus! {

/// The net of `c` is the left fold of its parts, from its initial value,
/// under `op`.
pub open spec fn fold_consistent<T, F>(c: CompositionView<T, F>, op: spec_fn(T, T) -> T) -> bool {
    c.net == c.parts.fold_left(c.initial_value, op)
}

/// Folding the concatenation of two sequences is folding the second from
/// where the fold of the first ended.
pub proof fn lemma_fold_concat<T>(op: spec_fn(T, T) -> T, init: T, xs: Seq<T>, ys: Seq<T>)
    ensures
        (xs + ys).fold_left(init, op) == ys.fold_left(xs.fold_left(init, op), op),
{
    let all = xs + ys;
    assert(all.subrange(0, xs.len() as int) =~= xs);
    assert(all.subrange(xs.len() as int, all.len() as int) =~= ys);
    all.lemma_fold_left_split(init, op, xs.len() as int);
}

/// Under an associative operation with a left identity `e`, folding parts
/// from `a` is folding them from `e` and putting `a` in front. With no parts
/// at all this asks that `e` be an identity on the right of `a`.
pub proof fn lemma_fold_from<T>(op: spec_fn(T, T) -> T, e: T, a: T, parts: Seq<T>)
    requires
        associative(op),
        left_identity(op, e),
        parts.len() == 0 ==> op(a, e) == a,
    ensures
        parts.fold_left(a, op) == op(a, parts.fold_left(e, op)),
    decreases parts.len(),
{
    // One part: `e` is dropped from its left. More: the last application is
    // bracketed the other way round.
    reveal_with_fuel(Seq::fold_left, 2);
    if parts.len() > 1 {
        lemma_fold_from(op, e, a, parts.drop_last());
    }
}

/// On a fold-consistent composition, [`crate::composition::check_fold`] can
/// only answer `true`.
pub proof fn lemma_consistent_passes_check<T, F: Fn(T, T) -> T>(
    c: CompositionView<T, F>,
    op: spec_fn(T, T) -> T,
)
    requires
        computes(c.fold_fun.fun, op),
        fold_consistent(c, op),
    ensures
        passes_check(c),
{
    assert forall|out: T| #[trigger]
        folds_to(c.fold_fun.fun, c.initial_value, c.parts, out) implies out == c.net by {
        lemma_fold_by_model(c.fold_fun.fun, op, c.initial_value, c.parts, out);
    }
}

/// What [`crate::composition::construct`] returns is fold-consistent, and
/// [`crate::composition::check_fold`] answers `true` on it.
pub proof fn lemma_construct_consistent<T, F: Fn(T, T) -> T>(
    c: CompositionView<T, F>,
    op: spec_fn(T, T) -> T,
)
    requires
        computes(c.fold_fun.fun, op),
        folds_to(c.fold_fun.fun, c.initial_value, c.parts, c.net),
    ensures
        fold_consistent(c, op),
        passes_check(c),
{
    lemma_fold_by_model(c.fold_fun.fun, op, c.initial_value, c.parts, c.net);
    lemma_consistent_passes_check(c, op);
}

/// [`crate::composition::singleton`] accepts a part exactly where the initial
/// value, folded with the part, gives the part back.
pub proof fn lemma_singleton_identity<T, F: Fn(T, T) -> T>(
    f: F,
    op: spec_fn(T, T) -> T,
    initial_value: T,
    net: T,
    accepted: bool,
)
    requires
        computes(f, op),
        accepted ==> call_ensures(f, (initial_value, net), net),
        !accepted ==> exists|out: T| #[trigger]
            call_ensures(f, (initial_value, net), out) && out != net,
    ensures
        accepted <==> op(initial_value, net) == net,
{
}

/// What [`crate::composition::singleton`] accepts is fold-consistent: the
/// identity law that it tests is the fold of the one part.
pub proof fn lemma_singleton_consistent<T, F: Fn(T, T) -> T>(
    c: CompositionView<T, F>,
    op: spec_fn(T, T) -> T,
)
    requires
        computes(c.fold_fun.fun, op),
        c.parts == seq![c.net],
        call_ensures(c.fold_fun.fun, (c.initial_value, c.net), c.net),
    ensures
        op(c.initial_value, c.net) == c.net,
        fold_consistent(c, op),
{
    reveal_with_fuel(Seq::fold_left, 2);
}

/// Fold consistency goes through [`crate::composition::combine`]: where the
/// operation is associative and the shared initial value is its left
/// identity, combining two fold-consistent compositions gives one, and
/// [`crate::composition::check_fold`] answers `true` on it. Where the second
/// has no parts, the initial value must also be an identity on the right of
/// the first net.
pub proof fn lemma_combine_consistent<T, F: Fn(T, T) -> T>(
    x: CompositionView<T, F>,
    y: CompositionView<T, F>,
    c: CompositionView<T, F>,
    op: spec_fn(T, T) -> T,
)
    requires
        computes(x.fold_fun.fun, op),
        associative(op),
        left_identity(op, x.initial_value),
        y.initial_value == x.initial_value,
        fold_consistent(x, op),
        fold_consistent(y, op),
        y.parts.len() == 0 ==> op(x.net, x.initial_value) == x.net,
        call_ensures(x.fold_fun.fun, (x.net, y.net), c.net),
        c.parts == x.parts + y.parts,
        c.initial_value == x.initial_value,
        c.fold_fun == x.fold_fun,
    ensures
        fold_consistent(c, op),
        passes_check(c),
{
    lemma_fold_concat(op, x.initial_value, x.parts, y.parts);
    lemma_fold_from(op, x.initial_value, x.net, y.parts);
    lemma_consistent_passes_check(c, op);
}

/// Fold consistency goes through [`crate::composition::decompose`]: where the
/// operation is associative and the shared initial value is its left
/// identity, a part may be replaced by the parts of a fold-consistent
/// composition whose net it is. Where that composition has no parts, the
/// initial value must also be an identity on the right of the fold of the
/// parts before the one replaced.
pub proof fn lemma_decompose_consistent<T, F: Fn(T, T) -> T>(
    x: CompositionView<T, F>,
    y: CompositionView<T, F>,
    idx: int,
    check_valid: bool,
    op: spec_fn(T, T) -> T,
)
    requires
        associative(op),
        left_identity(op, x.initial_value),
        y.initial_value == x.initial_value,
        check_valid ==> y.fold_fun.tag == x.fold_fun.tag,
        fold_consistent(x, op),
        fold_consistent(y, op),
        0 <= idx < x.parts.len(),
        x.parts[idx] == y.net,
        y.parts.len() == 0 ==> {
            let before = x.parts.take(idx).fold_left(x.initial_value, op);
            op(before, x.initial_value) == before
        },
    ensures
        decomposed(x, y, idx, check_valid) is Ok,
        fold_consistent(decomposed(x, y, idx, check_valid)->Ok_0, op),
{
    // Up to the part replaced, both folds reach the fold of the head with the
    // net of `y` put behind it; from there on they go through the same tail.
    let e = x.initial_value;
    let head = x.parts.take(idx);
    let tail = x.parts.skip(idx + 1);
    let before = head.fold_left(e, op);
    assert(x.parts =~= head.push(y.net) + tail);
    lemma_fold_concat(op, e, head.push(y.net), tail);
    assert(head.push(y.net).drop_last() =~= head);
    lemma_fold_concat(op, e, head + y.parts, tail);
    lemma_fold_concat(op, e, head, y.parts);
    lemma_fold_from(op, e, before, y.parts);
}

/// Under an associative and commutative operation for which the initial value
/// `e`, folded with itself, gives itself, the folds of the two groups fold to
/// the fold of all the parts.
pub proof fn lemma_groups_recombine<T>(op: spec_fn(T, T) -> T, e: T, parts: Seq<T>, flags: Seq<bool>)
    requires
        associative(op),
        commutative(op),
        op(e, e) == e,
    ensures
        op(
            select(parts, flags, true).fold_left(e, op),
            select(parts, flags, false).fold_left(e, op),
        ) == parts.fold_left(e, op),
    decreases parts.len(),
{
    // The last part is folded into its group last; associativity and
    // commutativity take it from there to the end of the whole.
    if parts.len() > 0 {
        let front = parts.drop_last();
        let keep = flags[parts.len() - 1];
        lemma_groups_recombine(op, e, front, flags);
        assert(select(parts, flags, keep).drop_last() =~= select(front, flags, keep));
    }
}

/// The two halves that [`crate::composition::split`] makes of a
/// fold-consistent composition fold back to its net, where the operation is
/// associative and commutative in fact.
pub proof fn lemma_split_recombines<T, F: Fn(T, T) -> T>(
    x: CompositionView<T, F>,
    s: CompositionView<T, F>,
    u: CompositionView<T, F>,
    flags: Seq<bool>,
    op: spec_fn(T, T) -> T,
)
    requires
        computes(x.fold_fun.fun, op),
        associative(op),
        commutative(op),
        fold_consistent(x, op),
        call_ensures(x.fold_fun.fun, (x.initial_value, x.initial_value), x.initial_value),
        s.parts == select(x.parts, flags, true),
        u.parts == select(x.parts, flags, false),
        folds_to(x.fold_fun.fun, x.initial_value, s.parts, s.net),
        folds_to(x.fold_fun.fun, x.initial_value, u.parts, u.net),
    ensures
        (s.parts + u.parts).to_multiset() == x.parts.to_multiset(),
        op(s.net, u.net) == x.net,
        forall|out: T| #[trigger] call_ensures(x.fold_fun.fun, (s.net, u.net), out) ==> out == x.net,
{
    lemma_select_is_permutation(x.parts, flags);
    lemma_fold_by_model(x.fold_fun.fun, op, x.initial_value, s.parts, s.net);
    lemma_fold_by_model(x.fold_fun.fun, op, x.initial_value, u.parts, u.net);
    lemma_groups_recombine(op, x.initial_value, x.parts, flags);
}

/// Under an associative and commutative operation, the fold does not depend
/// on the order of the parts.
pub proof fn lemma_fold_of_permutation<T>(op: spec_fn(T, T) -> T, init: T, xs: Seq<T>, ys: Seq<T>)
    requires
        associative(op),
        commutative(op),
        xs.to_multiset() == ys.to_multiset(),
    ensures
        xs.fold_left(init, op) == ys.fold_left(init, op),
{
    lemma_fold_left_permutation(xs, ys, op, init);
}

/// Fold consistency goes through [`crate::partition::to_partition`], where
/// the operation is associative and commutative in fact.
pub proof fn lemma_sorted_consistent<T, F>(
    x: CompositionView<T, F>,
    sorted: CompositionView<T, F>,
    op: spec_fn(T, T) -> T,
)
    requires
        associative(op),
        commutative(op),
        fold_consistent(x, op),
        sorted.parts.to_multiset() == x.parts.to_multiset(),
        sorted == (CompositionView { parts: sorted.parts, ..x }),
    ensures
        fold_consistent(sorted, op),
{
    lemma_fold_of_permutation(op, x.initial_value, x.parts, sorted.parts);
}

} // verus!
