//! Handle types: the contract between a registry and the index wrappers that
//! it hands out.

use vstd::prelude::*;

verus! {

/// A handle type: a strongly typed wrapper around a dense, zero-based index.
///
/// Both conversions are pure mappings: what they return is fixed by their
/// argument alone. The two spec functions are those mappings, and the
/// contracts of the two conversions say no more than that they compute them.
/// Nothing is promised about how the two relate: a handle type that is
/// narrower than `usize` cannot tell all indices apart, see [`round_trips`].
///
/// The contracts bind an implementation that is verified. Of one that is not
/// they are an assumption, on which everything proved about a registry with
/// such handles rests.
pub trait Id: Clone + Copy {
    /// The handle that stands for `index`. A verified handle type defines
    /// this as what its `from_index` returns. The default leaves the mapping
    /// unspecified, so that a handle type can be written without it.
    open spec fn spec_from_index(index: usize) -> Self {
        arbitrary()
    }

    /// The index that `self` stands for. A verified handle type defines this
    /// as what its `to_index` returns. The default leaves the mapping
    /// unspecified, so that a handle type can be written without it.
    open spec fn spec_to_index(self) -> usize {
        arbitrary()
    }

    fn from_index(index: usize) -> (id: Self)
        ensures
            id == Self::spec_from_index(index),
    ;

    fn to_index(self) -> (index: usize)
        ensures
            index == self.spec_to_index(),
    ;
}

/// `K` tells `index` apart from every other index: converting it to a handle
/// and back gives `index` again.
pub open spec fn round_trips<K: Id>(index: usize) -> bool {
    K::spec_from_index(index).spec_to_index() == index
}

/// A handle made from an index that round-trips is rebuilt unchanged from its
/// own index.
pub proof fn lemma_handle_is_stable<K: Id>(index: usize)
    requires
        round_trips::<K>(index),
    ensures
        K::spec_from_index(K::spec_from_index(index).spec_to_index()) == K::spec_from_index(index),
{
}

} // verus!
