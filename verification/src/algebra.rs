//! Binary operations and left folds.
//!
//! An executable operation `f` is described by what a call may return
//! (`call_ensures`) and when it may be called (`call_requires`). A left fold
//! through `f` is therefore a relation, [`folds_to`]. Where `f` computes a
//! mathematical function `op` ([`computes`]), the relation collapses to
//! `Seq::fold_left` over `op`, which is what the algebraic laws speak of.
use vstd::prelude::*;

verus! {

/// A binary operation on some type, with the tag by which two operations are
/// told apart: two operations count as the same one when their tags are equal,
/// whatever they compute. It is for the caller to give one tag to one
/// operation.
pub struct Operation<F> {
    /// What names the operation.
    pub tag: u64,
    /// What computes it.
    pub fun: F,
}

impl<F: Copy> Clone for Operation<F> {
    fn clone(&self) -> (copy: Self)
        ensures
            copy == *self,
    {
        Operation { tag: self.tag, fun: self.fun }
    }
}

impl<F: Copy> Copy for Operation<F> {

}

/// Cloning a `T` gives back an equal value.
pub open spec fn clone_is_exact<T: Clone>() -> bool {
    forall|a: T, b: T| #[trigger] call_ensures(T::clone, (&a,), b) ==> a == b
}

/// Comparing two values of `T` with `==` tells whether they are equal.
pub open spec fn eq_is_exact<T: PartialEq>() -> bool {
    forall|a: T, b: T, r: bool| #[trigger] call_ensures(T::eq, (&a, &b), r) ==> r == (a == b)
}

/// `out` is a value that left-folding `parts` through `f`, starting from
/// `init`, may produce.
pub open spec fn folds_to<T, F: Fn(T, T) -> T>(f: F, init: T, parts: Seq<T>, out: T) -> bool
    decreases parts.len(),
{
    if parts.len() == 0 {
        out == init
    } else {
        exists|mid: T|
            folds_to(f, init, parts.drop_last(), mid) && #[trigger] call_ensures(
                f,
                (mid, parts.last()),
                out,
            )
    }
}

/// Every application of `f` that a left fold of `parts` from `init` can reach
/// is one that `f` permits. [`lemma_fold_allowed_total`] and
/// [`lemma_fold_allowed_by_model`] give it for an operation that takes any
/// pair and for one that computes a known function.
pub open spec fn fold_allowed<T, F: Fn(T, T) -> T>(f: F, init: T, parts: Seq<T>) -> bool {
    forall|i: int, mid: T|
        0 <= i < parts.len() && #[trigger] folds_to(f, init, parts.take(i), mid) ==> call_requires(
            f,
            (mid, parts[i]),
        )
}

/// Whatever `f` returns for a pair is what the function `op` gives for it.
pub open spec fn computes<T, F: Fn(T, T) -> T>(f: F, op: spec_fn(T, T) -> T) -> bool {
    forall|a: T, b: T, out: T| #[trigger] call_ensures(f, (a, b), out) ==> out == op(a, b)
}

/// `op` may be bracketed either way.
pub open spec fn associative<T>(op: spec_fn(T, T) -> T) -> bool {
    forall|a: T, b: T, c: T| #[trigger] op(op(a, b), c) == op(a, op(b, c))
}

/// `op` gives the same for a pair and for the pair turned round.
pub open spec fn commutative<T>(op: spec_fn(T, T) -> T) -> bool {
    forall|a: T, b: T| #[trigger] op(a, b) == op(b, a)
}

/// `e`, put to the left of any value, leaves the value as it is.
pub open spec fn left_identity<T>(op: spec_fn(T, T) -> T, e: T) -> bool {
    forall|a: T| #[trigger] op(e, a) == a
}

/// One more step of a fold: if the parts but the last fold to `mid` and `f`
/// takes `mid` and the last part to `out`, the whole folds to `out`.
pub proof fn lemma_folds_step<T, F: Fn(T, T) -> T>(f: F, init: T, parts: Seq<T>, mid: T, out: T)
    requires
        parts.len() > 0,
        folds_to(f, init, parts.drop_last(), mid),
        call_ensures(f, (mid, parts.last()), out),
    ensures
        folds_to(f, init, parts, out),
{
}

/// Under a function that `f` computes, the only outcome of a fold is the
/// `fold_left` of that function.
pub proof fn lemma_fold_by_model<T, F: Fn(T, T) -> T>(
    f: F,
    op: spec_fn(T, T) -> T,
    init: T,
    parts: Seq<T>,
    out: T,
)
    requires
        computes(f, op),
        folds_to(f, init, parts, out),
    ensures
        out == parts.fold_left(init, op),
    decreases parts.len(),
{
    if parts.len() > 0 {
        let mid = choose|mid: T|
            folds_to(f, init, parts.drop_last(), mid) && #[trigger] call_ensures(
                f,
                (mid, parts.last()),
                out,
            );
        lemma_fold_by_model(f, op, init, parts.drop_last(), mid);
    }
}

/// A fold is allowed as soon as `f` permits each step that the function it
/// computes leads to.
pub proof fn lemma_fold_allowed_by_model<T, F: Fn(T, T) -> T>(
    f: F,
    op: spec_fn(T, T) -> T,
    init: T,
    parts: Seq<T>,
)
    requires
        computes(f, op),
        forall|i: int|
            0 <= i < parts.len() ==> call_requires(
                f,
                (#[trigger] parts.take(i).fold_left(init, op), parts[i]),
            ),
    ensures
        fold_allowed(f, init, parts),
{
    assert forall|i: int, mid: T|
        0 <= i < parts.len() && #[trigger] folds_to(f, init, parts.take(i), mid) implies call_requires(
        f,
        (mid, parts[i]),
    ) by {
        lemma_fold_by_model(f, op, init, parts.take(i), mid);
    }
}

/// A fold through an operation that may be applied to any pair is allowed.
pub proof fn lemma_fold_allowed_total<T, F: Fn(T, T) -> T>(f: F, init: T, parts: Seq<T>)
    requires
        forall|a: T, b: T| #[trigger] call_requires(f, (a, b)),
    ensures
        fold_allowed(f, init, parts),
{
}

/// Left-folds `parts` through `f`, starting from `init`.
pub fn fold<T: Clone, F: Fn(T, T) -> T>(f: &F, init: &T, parts: &Vec<T>) -> (out: T)
    requires
        clone_is_exact::<T>(),
        fold_allowed(*f, *init, parts@),
    ensures
        folds_to(*f, *init, parts@, out),
{
    let mut acc = init.clone();
    let mut i: usize = 0;
    while i < parts.len()
        invariant
            i <= parts.len(),
            clone_is_exact::<T>(),
            fold_allowed(*f, *init, parts@),
            folds_to(*f, *init, parts@.take(i as int), acc),
        decreases parts.len() - i,
    {
        let part = parts[i].clone();
        let ghost before = acc;
        acc = f(acc, part);
        proof {
            let next = parts@.take(i + 1);
            assert(next.drop_last() =~= parts@.take(i as int));
            lemma_folds_step(*f, *init, next, before, acc);
        }
        i += 1;
    }
    proof {
        assert(parts@.take(parts.len() as int) =~= parts@);
    }
    acc
}

} // verus!
