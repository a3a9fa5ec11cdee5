//! The position of a record in the main chain.

use super::{BlockHeight, Id};
use vstd::prelude::*;

verus! {

/// The height and the id of a block of the main chain.
///
/// The height of the genesis block is 1, so every height is positive.
#[derive(Debug, Clone, Copy, PartialEq, Eq, Hash)]
pub struct ChainIndex {
    height_: BlockHeight,
    id_: Id,
}

impl ChainIndex {
    #[verifier::type_invariant]
    spec fn positive_height(self) -> bool {
        0 < self.height_
    }

    /// The height, in contracts.
    pub closed spec fn spec_height(&self) -> BlockHeight {
        self.height_
    }

    /// The id, in contracts.
    pub closed spec fn spec_id(&self) -> Id {
        self.id_
    }

    /// Two chain indexes with the same height and id are the same.
    pub proof fn lemma_same_fields(a: ChainIndex, b: ChainIndex)
        requires
            a.spec_height() == b.spec_height(),
            a.spec_id() == b.spec_id(),
        ensures
            a == b,
    {
    }

    /// Creates the index of the block `id` at `height`.
    pub fn new(height: BlockHeight, id: &Id) -> (r: Self)
        requires
            0 < height,
        ensures
            r.spec_height() == height,
            r.spec_id() == *id,
    {
        ChainIndex { height_: height, id_: *id }
    }

    /// The height of the block. It is positive.
    #[verifier::when_used_as_spec(spec_height)]
    pub fn height(&self) -> (h: BlockHeight)
        ensures
            h == self.spec_height(),
            0 < h,
    {
        proof {
            use_type_invariant(self);
        }
        self.height_
    }

    /// The id of the block.
    pub fn id(&self) -> (id: &Id)
        ensures
            *id == self.spec_id(),
    {
        &self.id_
    }
}

} // verus!
