//! The composition: a net value together with the parts that fold to it.
use crate::algebra::{
    clone_is_exact, computes, eq_is_exact, fold, fold_allowed, folds_to, lemma_fold_by_model,
    Operation,
};
use crate::error::CompositionError;
use crate::render::{reads, render_values};
use crate::selection::{classifies, lemma_select_is_permutation, lemma_select_push, select};
use vstd::prelude::*;

verus! {

/// A value `net` with the ordered `parts` it was folded from, the value the
/// fold started at, the operation it went through, and the caller's word on
/// whether the parts may be reordered.
///
/// That `net` is the fold of `parts` holds of what [`construct`] returns; it
/// is not an invariant of the type, since [`decompose`] replaces parts without
/// folding again. [`check_fold`] tests it.
pub struct Composition<T, F> {
    pub(crate) net: T,
    pub(crate) parts: Vec<T>,
    pub(crate) initial_value: T,
    pub(crate) fold_fun: Operation<F>,
    pub(crate) is_commutative: bool,
}

/// What a [`Composition`] holds, as mathematical values.
pub struct CompositionView<T, F> {
    /// What the parts are held to fold to.
    pub net: T,
    /// The parts, in their order.
    pub parts: Seq<T>,
    /// Where a fold of the parts starts.
    pub initial_value: T,
    /// What a fold of the parts goes through.
    pub fold_fun: Operation<F>,
    /// Whether the caller holds the order of the parts to be of no account.
    pub is_commutative: bool,
}

impl<T, F> View for Composition<T, F> {
    type V = CompositionView<T, F>;

    closed spec fn view(&self) -> CompositionView<T, F> {
        CompositionView {
            net: self.net,
            parts: self.parts@,
            initial_value: self.initial_value,
            fold_fun: self.fold_fun,
            is_commutative: self.is_commutative,
        }
    }
}

/// The view of a composition is made of its fields.
pub(crate) proof fn lemma_view_of_fields<T, F>(x: Composition<T, F>)
    ensures
        x@ == (CompositionView {
            net: x.net,
            parts: x.parts@,
            initial_value: x.initial_value,
            fold_fun: x.fold_fun,
            is_commutative: x.is_commutative,
        }),
{
}

/// The number of parts.
pub fn num_parts<T, F>(x: &Composition<T, F>) -> (n: usize)
    ensures
        n == x@.parts.len(),
{
    x.parts.len()
}

/// Whatever folding the parts of `c` again gives, it is the net of `c`: a
/// comparison of the two cannot fail.
pub open spec fn passes_check<T, F: Fn(T, T) -> T>(c: CompositionView<T, F>) -> bool {
    forall|out: T| #[trigger]
        folds_to(c.fold_fun.fun, c.initial_value, c.parts, out) ==> out == c.net
}

/// Folds the parts again and compares the outcome with the stored net: `true`
/// only where the net is an outcome of the fold, `false` only where some
/// outcome of the fold is not the net.
pub fn check_fold<T: Clone + PartialEq, F: Fn(T, T) -> T>(x: &Composition<T, F>) -> (consistent:
    bool)
    requires
        clone_is_exact::<T>(),
        eq_is_exact::<T>(),
        fold_allowed(x@.fold_fun.fun, x@.initial_value, x@.parts),
    ensures
        consistent ==> folds_to(x@.fold_fun.fun, x@.initial_value, x@.parts, x@.net),
        passes_check(x@) ==> consistent,
        forall|op: spec_fn(T, T) -> T| #[trigger]
            computes(x@.fold_fun.fun, op) ==> consistent == (x@.net == x@.parts.fold_left(
                x@.initial_value,
                op,
            )),
{
    let out = fold(&x.fold_fun.fun, &x.initial_value, &x.parts);
    proof {
        assert forall|op: spec_fn(T, T) -> T| #[trigger]
            computes(x@.fold_fun.fun, op) implies out == x@.parts.fold_left(
            x@.initial_value,
            op,
        ) by {
            lemma_fold_by_model(x@.fold_fun.fun, op, x@.initial_value, x@.parts, out);
        }
    }
    x.net == out
}

/// A composition of the one part `net`, which is also its net. It is refused
/// unless `initial_value`, folded with `net`, gives `net` back.
pub fn singleton<T: Clone + PartialEq, F: Fn(T, T) -> T>(
    net: T,
    initial_value: T,
    fold_fun: Operation<F>,
    is_commutative: bool,
) -> (result: Result<Composition<T, F>, CompositionError>)
    requires
        clone_is_exact::<T>(),
        eq_is_exact::<T>(),
        call_requires(fold_fun.fun, (initial_value, net)),
    ensures
        match result {
            Ok(c) => {
                &&& call_ensures(fold_fun.fun, (initial_value, net), net)
                &&& c@ == (CompositionView {
                    net,
                    parts: seq![net],
                    initial_value,
                    fold_fun,
                    is_commutative,
                })
            },
            Err(e) => {
                &&& e == CompositionError::IdentityViolation
                &&& exists|out: T|
                    #[trigger] call_ensures(fold_fun.fun, (initial_value, net), out) && out != net
            },
        },
        forall|op: spec_fn(T, T) -> T| #[trigger]
            computes(fold_fun.fun, op) ==> (result is Ok <==> op(initial_value, net) == net),
{
    let mut parts: Vec<T> = Vec::new();
    parts.push(net.clone());
    let folded = (fold_fun.fun)(initial_value.clone(), net.clone());
    if folded == net {
        Ok(Composition { net, parts, initial_value, fold_fun, is_commutative })
    } else {
        Err(CompositionError::IdentityViolation)
    }
}

/// The composition of `parts`, whose net is their left fold from
/// `initial_value`. That the initial value is an identity is not tested here.
pub fn construct<T: Clone, F: Fn(T, T) -> T>(
    parts: Vec<T>,
    initial_value: T,
    fold_fun: Operation<F>,
    is_commutative: bool,
) -> (c: Composition<T, F>)
    requires
        clone_is_exact::<T>(),
        fold_allowed(fold_fun.fun, initial_value, parts@),
    ensures
        folds_to(fold_fun.fun, initial_value, parts@, c@.net),
        forall|op: spec_fn(T, T) -> T| #[trigger]
            computes(fold_fun.fun, op) ==> c@.net == parts@.fold_left(initial_value, op),
        c@ == (CompositionView {
            net: c@.net,
            parts: parts@,
            initial_value,
            fold_fun,
            is_commutative,
        }),
{
    let net = fold(&fold_fun.fun, &initial_value, &parts);
    proof {
        assert forall|op: spec_fn(T, T) -> T| #[trigger]
            computes(fold_fun.fun, op) implies net == parts@.fold_left(initial_value, op) by {
            lemma_fold_by_model(fold_fun.fun, op, initial_value, parts@, net);
        }
    }
    Composition { net, parts, initial_value, fold_fun, is_commutative }
}

/// Whether two compositions share their initial value and their operation.
pub open spec fn same_algebra<T, F>(x: CompositionView<T, F>, y: CompositionView<T, F>) -> bool {
    x.initial_value == y.initial_value && x.fold_fun.tag == y.fold_fun.tag
}

/// The parts of `x` followed by the parts of `y`, with the two nets folded
/// into one by the operation of `x`; the parts are not folded again. With
/// `check_valid`, the two must share their algebra.
pub fn combine<T: PartialEq, F: Fn(T, T) -> T>(
    x: Composition<T, F>,
    y: Composition<T, F>,
    check_valid: bool,
) -> (result: Result<Composition<T, F>, CompositionError>)
    requires
        check_valid ==> eq_is_exact::<T>(),
        !check_valid || same_algebra(x@, y@) ==> call_requires(
            x@.fold_fun.fun,
            (x@.net, y@.net),
        ),
    ensures
        match result {
            Ok(c) => {
                &&& !check_valid || same_algebra(x@, y@)
                &&& call_ensures(x@.fold_fun.fun, (x@.net, y@.net), c@.net)
                &&& forall|op: spec_fn(T, T) -> T| #[trigger]
                    computes(x@.fold_fun.fun, op) ==> c@.net == op(x@.net, y@.net)
                &&& c@ == (CompositionView {
                    net: c@.net,
                    parts: x@.parts + y@.parts,
                    initial_value: x@.initial_value,
                    fold_fun: x@.fold_fun,
                    is_commutative: x@.is_commutative && y@.is_commutative,
                })
            },
            Err(e) => {
                &&& e == CompositionError::AlgebraMismatch
                &&& check_valid
                &&& !same_algebra(x@, y@)
            },
        },
{
    if check_valid && !(x.initial_value == y.initial_value) {
        return Err(CompositionError::AlgebraMismatch);
    }
    if check_valid && x.fold_fun.tag != y.fold_fun.tag {
        return Err(CompositionError::AlgebraMismatch);
    }
    let is_commutative = x.is_commutative && y.is_commutative;
    let mut parts = x.parts;
    let mut tail = y.parts;
    parts.append(&mut tail);
    let net = (x.fold_fun.fun)(x.net, y.net);
    Ok(
        Composition {
            net,
            parts,
            initial_value: x.initial_value,
            fold_fun: x.fold_fun,
            is_commutative,
        },
    )
}

/// What [`decompose`] makes of `x`, or why it refuses.
pub open spec fn decomposed<T, F>(
    x: CompositionView<T, F>,
    y: CompositionView<T, F>,
    idx: int,
    check_valid: bool,
) -> Result<CompositionView<T, F>, CompositionError> {
    if check_valid && !same_algebra(x, y) {
        Err(CompositionError::AlgebraMismatch)
    } else if !(0 <= idx < x.parts.len()) {
        Err(CompositionError::IndexOutOfRange)
    } else if check_valid && x.parts[idx] != y.net {
        Err(CompositionError::DecompositionMismatch)
    } else {
        Ok(CompositionView { parts: x.parts.take(idx) + y.parts + x.parts.skip(idx + 1), ..x })
    }
}

/// Puts the parts of `y`, in their order, in the place of the part of `x` at
/// `idx`. The net of `x` stays as it is. With `check_valid`, the two must
/// share their algebra and the part replaced must be the net of `y`. Where
/// the change is refused, `x` is left as it was.
pub fn decompose<T: PartialEq, F>(
    x: &mut Composition<T, F>,
    y: Composition<T, F>,
    idx: usize,
    check_valid: bool,
) -> (result: Result<(), CompositionError>)
    requires
        check_valid ==> eq_is_exact::<T>(),
    ensures
        match decomposed(old(x)@, y@, idx as int, check_valid) {
            Ok(after) => result is Ok && final(x)@ == after,
            Err(e) => result == Err::<(), CompositionError>(e) && final(x)@ == old(x)@,
        },
        result is Ok ==> final(x)@.parts.len() == old(x)@.parts.len() + y@.parts.len() - 1,
{
    if check_valid && !(x.initial_value == y.initial_value) {
        return Err(CompositionError::AlgebraMismatch);
    }
    if check_valid && x.fold_fun.tag != y.fold_fun.tag {
        return Err(CompositionError::AlgebraMismatch);
    }
    if idx >= x.parts.len() {
        return Err(CompositionError::IndexOutOfRange);
    }
    if check_valid && !(x.parts[idx] == y.net) {
        return Err(CompositionError::DecompositionMismatch);
    }
    let mut inner = y.parts;
    let mut tail = x.parts.split_off(idx + 1);
    x.parts.pop();
    x.parts.append(&mut inner);
    x.parts.append(&mut tail);
    proof {
        assert(old(x)@.parts.subrange(0, idx + 1).subrange(0, idx as int) =~= old(x)@.parts.take(
            idx as int,
        ));
    }
    Ok(())
}

/// The parts that satisfy `predicate` and those that do not, each group in
/// its order and folded anew from the initial value of `x`. It is refused
/// unless `x` is commutative and its initial value, folded with itself, gives
/// itself back.
pub fn split<T: Clone + PartialEq, F: Fn(T, T) -> T + Copy, P: Fn(&T) -> bool>(
    x: &Composition<T, F>,
    predicate: P,
) -> (result: Result<(Composition<T, F>, Composition<T, F>), CompositionError>)
    requires
        x@.is_commutative ==> {
            &&& clone_is_exact::<T>()
            &&& eq_is_exact::<T>()
            &&& call_requires(x@.fold_fun.fun, (x@.initial_value, x@.initial_value))
        },
        x@.is_commutative && call_ensures(
            x@.fold_fun.fun,
            (x@.initial_value, x@.initial_value),
            x@.initial_value,
        ) ==> {
            &&& forall|i: int|
                0 <= i < x@.parts.len() ==> call_requires(predicate, (&#[trigger] x@.parts[i],))
            &&& forall|flags: Seq<bool>| #[trigger]
                classifies(predicate, x@.parts, flags) ==> {
                    &&& fold_allowed(
                        x@.fold_fun.fun,
                        x@.initial_value,
                        select(x@.parts, flags, true),
                    )
                    &&& fold_allowed(
                        x@.fold_fun.fun,
                        x@.initial_value,
                        select(x@.parts, flags, false),
                    )
                }
        },
    ensures
        match result {
            Ok((s, u)) => {
                &&& x@.is_commutative
                &&& call_ensures(
                    x@.fold_fun.fun,
                    (x@.initial_value, x@.initial_value),
                    x@.initial_value,
                )
                &&& exists|flags: Seq<bool>|
                    {
                        &&& #[trigger] classifies(predicate, x@.parts, flags)
                        &&& s@.parts == select(x@.parts, flags, true)
                        &&& u@.parts == select(x@.parts, flags, false)
                    }
                &&& (s@.parts + u@.parts).to_multiset() == x@.parts.to_multiset()
                &&& folds_to(x@.fold_fun.fun, x@.initial_value, s@.parts, s@.net)
                &&& folds_to(x@.fold_fun.fun, x@.initial_value, u@.parts, u@.net)
                &&& forall|op: spec_fn(T, T) -> T| #[trigger]
                    computes(x@.fold_fun.fun, op) ==> {
                        &&& s@.net == s@.parts.fold_left(x@.initial_value, op)
                        &&& u@.net == u@.parts.fold_left(x@.initial_value, op)
                    }
                &&& s@ == (CompositionView {
                    net: s@.net,
                    parts: s@.parts,
                    initial_value: x@.initial_value,
                    fold_fun: x@.fold_fun,
                    is_commutative: true,
                })
                &&& u@ == (CompositionView {
                    net: u@.net,
                    parts: u@.parts,
                    initial_value: x@.initial_value,
                    fold_fun: x@.fold_fun,
                    is_commutative: true,
                })
            },
            Err(e) => if !x@.is_commutative {
                e == CompositionError::NonCommutativeSplit
            } else {
                &&& e == CompositionError::NonIdempotentIdentity
                &&& exists|out: T|
                    #[trigger] call_ensures(
                        x@.fold_fun.fun,
                        (x@.initial_value, x@.initial_value),
                        out,
                    ) && out != x@.initial_value
            },
        },
        forall|op: spec_fn(T, T) -> T| #[trigger]
            computes(x@.fold_fun.fun, op) ==> (result is Ok <==> x@.is_commutative && op(
                x@.initial_value,
                x@.initial_value,
            ) == x@.initial_value),
{
    if !x.is_commutative {
        return Err(CompositionError::NonCommutativeSplit);
    }
    let twice = (x.fold_fun.fun)(x.initial_value.clone(), x.initial_value.clone());
    if !(x.initial_value == twice) {
        return Err(CompositionError::NonIdempotentIdentity);
    }
    let mut satisfiers: Vec<T> = Vec::new();
    let mut unsatisfiers: Vec<T> = Vec::new();
    let ghost mut flags: Seq<bool> = Seq::empty();
    let mut i: usize = 0;
    while i < x.parts.len()
        invariant
            i <= x.parts.len(),
            clone_is_exact::<T>(),
            forall|j: int|
                0 <= j < x@.parts.len() ==> call_requires(predicate, (&#[trigger] x@.parts[j],)),
            classifies(predicate, x@.parts.take(i as int), flags),
            satisfiers@ == select(x@.parts.take(i as int), flags, true),
            unsatisfiers@ == select(x@.parts.take(i as int), flags, false),
        decreases x.parts.len() - i,
    {
        let part = x.parts[i].clone();
        let keep = predicate(&part);
        proof {
            let seen = x@.parts.take(i as int);
            assert(x@.parts.take(i + 1) =~= seen.push(part));
            lemma_select_push(seen, flags, part, keep, true);
            lemma_select_push(seen, flags, part, keep, false);
            flags = flags.push(keep);
        }
        if keep {
            satisfiers.push(part);
        } else {
            unsatisfiers.push(part);
        }
        i += 1;
    }
    proof {
        assert(x@.parts.take(x@.parts.len() as int) =~= x@.parts);
        lemma_select_is_permutation(x@.parts, flags);
    }
    let satisfying = construct(satisfiers, x.initial_value.clone(), x.fold_fun, true);
    let unsatisfying = construct(unsatisfiers, x.initial_value.clone(), x.fold_fun, true);
    Ok((satisfying, unsatisfying))
}

/// The text of `x`: its parts as a list, its net and the number of its
/// parts, as in `[1, 2, 1] of 4 with 3 parts`. How a part and the net read is
/// up to `T`: each part as it is formatted for debugging, the net as it is
/// displayed.
pub fn to_string<T: core::fmt::Debug + core::fmt::Display, F>(x: &Composition<T, F>) -> (text:
    String)
    ensures
        reads(x@.parts, x@.net, text@),
{
    render_values(&x.parts, &x.net)
}

} // verus!
