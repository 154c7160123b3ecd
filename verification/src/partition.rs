//! The partition: a commutative composition with its parts in descending order.
use crate::composition::{lemma_view_of_fields, to_string, Composition, CompositionView};
use crate::error::CompositionError;
use crate::order::total_order;
use crate::render::reads;
use crate::sorting::{rearranged, sort_descending, sorted_descending, ties_reversed};
use vstd::prelude::*;

verus! {

/// A composition whose parts were sorted into descending order. Nothing
/// turns it back into a composition whose order counts.
pub struct Partition<T: Ord, F> {
    underlying_composition: Composition<T, F>,
}

impl<T: Ord, F> View for Partition<T, F> {
    type V = CompositionView<T, F>;

    closed spec fn view(&self) -> CompositionView<T, F> {
        self.underlying_composition@
    }
}

impl<T: Ord, F> Partition<T, F> {
    /// The text of the partition, which is that of the composition it holds.
    pub fn to_string(&self) -> (text: String) where T: core::fmt::Debug + core::fmt::Display
        ensures
            reads(self@.parts, self@.net, text@),
    {
        to_string(&self.underlying_composition)
    }
}

/// The parts of `me` in descending order, with all else as it was; the net is
/// not folded again. Of parts that the order holds equal, the one that stood
/// later comes first. It is refused unless `me` is commutative.
pub fn to_partition<T: Ord, F>(me: Composition<T, F>) -> (result: Result<
    Partition<T, F>,
    CompositionError,
>)
    requires
        me@.is_commutative ==> total_order::<T>(),
    ensures
        match result {
            Ok(p) => {
                &&& me@.is_commutative
                &&& sorted_descending(p@.parts)
                &&& p@.parts.to_multiset() == me@.parts.to_multiset()
                &&& exists|from: Seq<int>|
                    #[trigger] rearranged(me@.parts, p@.parts, from) && ties_reversed(
                        p@.parts,
                        from,
                    )
                &&& p@ == (CompositionView { parts: p@.parts, ..me@ })
            },
            Err(e) => e == CompositionError::NonCommutativeSort && !me@.is_commutative,
        },
{
    proof {
        lemma_view_of_fields(me);
    }
    if !me.is_commutative {
        return Err(CompositionError::NonCommutativeSort);
    }
    let mut sorted = me;
    sort_descending(&mut sorted.parts);
    proof {
        lemma_view_of_fields(sorted);
    }
    Ok(Partition { underlying_composition: sorted })
}

} // verus!
