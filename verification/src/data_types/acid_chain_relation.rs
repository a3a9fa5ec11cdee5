//! Where a record stands with respect to the main chain.

use super::{ChainIndex, Id};
use vstd::prelude::*;

verus! {

/// A record's id together with the block of the main chain that includes it,
/// or `None` while the record waits in the mempool.
#[derive(Debug, Clone, Copy, PartialEq, Eq, Hash)]
pub struct AcidChainRelation {
    pub id_: Id,
    pub chain_index_: Option<ChainIndex>,
}

impl AcidChainRelation {
    /// Relates the record `id` to `chain_index`.
    pub fn new(id: &Id, chain_index: Option<&ChainIndex>) -> (r: Self)
        ensures
            r.id_ == *id,
            match chain_index {
                None => r.chain_index_ is None,
                Some(c) => r.chain_index_ == Some(*c),
            },
    {
        AcidChainRelation {
            id_: *id,
            chain_index_: match chain_index {
                None => None,
                Some(c) => Some(*c),
            },
        }
    }

    /// The id of the record.
    pub fn id(&self) -> (id: &Id)
        ensures
            *id == self.id_,
    {
        &self.id_
    }

    /// The block that includes the record, or `None` for a record of the mempool.
    pub fn chain_index(&self) -> (c: Option<&ChainIndex>)
        ensures
            match c {
                None => self.chain_index_ is None,
                Some(c) => self.chain_index_ == Some(*c),
            },
    {
        match &self.chain_index_ {
            None => None,
            Some(c) => Some(c),
        }
    }
}

} // verus!
