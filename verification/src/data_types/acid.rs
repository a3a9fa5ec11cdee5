//! Records: what the node stores, caches and indexes.

use super::crypto_hash::{sha256_digest, MAX_INPUT_LEN};
use super::{Id, Resource};
use vstd::prelude::*;

verus! {

/// An atomic manipulation of the chain, such as a block or a transaction.
///
/// A record is made of intrinsic data, which never changes and which the
/// nodes share, and of extrinsic data, which this node derives and may
/// update. The id, the parents and the resources depend on the intrinsic data
/// alone. A record that has become traceable stays traceable, and one that
/// has become invalid stays invalid.
pub trait Acid: Sized {
    /// The record is sound.
    spec fn wf(&self) -> bool;

    /// The id.
    spec fn spec_id(&self) -> Id;

    /// The intrinsic data, serialized.
    spec fn spec_intrinsic(&self) -> Seq<u8>;

    /// The extrinsic data, serialized.
    spec fn spec_extrinsic(&self) -> Seq<u8>;

    /// The ids of the records that this one depends on.
    spec fn spec_parents(&self) -> Seq<Id>;

    /// The assets that the record consumes and produces.
    spec fn spec_resources(&self) -> Seq<Resource>;

    /// All the ancestors are known to be stored and traceable.
    spec fn spec_is_traceable(&self) -> bool;

    /// The record is known to be unacceptable for good.
    spec fn spec_is_invalid(&self) -> bool;

    /// The discriminator of the kind of record.
    spec fn spec_type_id(&self) -> u64;

    /// The record after the extrinsic data of `other` has been folded into it.
    spec fn spec_merge(&self, other: &Self) -> Self;

    /// The id is the hash of the intrinsic data.
    proof fn lemma_identity(&self)
        requires
            self.wf(),
        ensures
            self.spec_id()@ == sha256_digest(self.spec_intrinsic()),
            self.spec_intrinsic().len() <= MAX_INPUT_LEN,
    ;

    /// Records with the same intrinsic data have the same parents and resources.
    proof fn lemma_intrinsic_decides(&self, other: &Self)
        requires
            self.wf(),
            other.wf(),
            self.spec_intrinsic() == other.spec_intrinsic(),
        ensures
            self.spec_parents() == other.spec_parents(),
            self.spec_resources() == other.spec_resources(),
    ;

    /// Folding `other` into a record keeps what the intrinsic data decides.
    /// Where `other` is the same record, the result is traceable, or invalid,
    /// exactly if one of the two was.
    proof fn lemma_merge(&self, other: &Self)
        requires
            self.wf(),
            other.wf(),
        ensures
            self.spec_merge(other).wf(),
            self.spec_merge(other).spec_id() == self.spec_id(),
            self.spec_merge(other).spec_intrinsic() == self.spec_intrinsic(),
            self.spec_merge(other).spec_type_id() == self.spec_type_id(),
            self.spec_intrinsic() == other.spec_intrinsic() ==> self.spec_merge(
                other,
            ).spec_is_traceable() == (self.spec_is_traceable() || other.spec_is_traceable()),
            self.spec_intrinsic() == other.spec_intrinsic() ==> self.spec_merge(
                other,
            ).spec_is_invalid() == (self.spec_is_invalid() || other.spec_is_invalid()),
    ;

    /// The id of the record: the hash of its intrinsic data.
    fn id(&self) -> (id: &Id)
        requires
            self.wf(),
        ensures
            *id == self.spec_id(),
            id@ == sha256_digest(self.spec_intrinsic()),
    ;

    /// The intrinsic data, serialized.
    fn intrinsic(&self) -> (bytes: Vec<u8>)
        requires
            self.wf(),
        ensures
            bytes@ == self.spec_intrinsic(),
    ;

    /// The extrinsic data, serialized.
    fn extrinsic(&self) -> (bytes: Vec<u8>)
        requires
            self.wf(),
        ensures
            bytes@ == self.spec_extrinsic(),
    ;

    /// The number of parents.
    fn parent_count(&self) -> (n: usize)
        requires
            self.wf(),
        ensures
            n == self.spec_parents().len(),
    ;

    /// The parent at `index`, or `None` behind the last one.
    fn parent(&self, index: usize) -> (p: Option<Id>)
        requires
            self.wf(),
        ensures
            p == if index < self.spec_parents().len() {
                Some(self.spec_parents()[index as int])
            } else {
                None
            },
    ;

    /// The number of resources.
    fn resource_count(&self) -> (n: usize)
        requires
            self.wf(),
        ensures
            n == self.spec_resources().len(),
    ;

    /// The resource at `index`, or `None` behind the last one.
    fn resource(&self, index: usize) -> (r: Option<Resource>)
        requires
            self.wf(),
        ensures
            r == if index < self.spec_resources().len() {
                Some(self.spec_resources()[index as int])
            } else {
                None
            },
    ;

    /// Whether the record is traceable.
    fn is_traceable(&self) -> (b: bool)
        requires
            self.wf(),
        ensures
            b == self.spec_is_traceable(),
    ;

    /// Marks the record as traceable, and says whether it was not before.
    fn set_traceable(&mut self) -> (changed: bool)
        requires
            old(self).wf(),
        ensures
            final(self).wf(),
            final(self).spec_is_traceable(),
            changed == !old(self).spec_is_traceable(),
            final(self).spec_id() == old(self).spec_id(),
            final(self).spec_intrinsic() == old(self).spec_intrinsic(),
            final(self).spec_type_id() == old(self).spec_type_id(),
            final(self).spec_is_invalid() == old(self).spec_is_invalid(),
    ;

    /// Whether the record is invalid.
    fn is_invalid(&self) -> (b: bool)
        requires
            self.wf(),
        ensures
            b == self.spec_is_invalid(),
    ;

    /// Why the record is invalid; `None` for a record that is not.
    fn invalid_reason(&self) -> (reason: Option<String>)
        requires
            self.wf(),
        ensures
            reason is Some <==> self.spec_is_invalid(),
    ;

    /// Folds the extrinsic data of `other` into this record, and says
    /// whether anything changed. `other` is meant to be the same record: one
    /// with other intrinsic data changes nothing that the intrinsic data decides.
    fn merge(&mut self, other: &Self) -> (changed: bool)
        requires
            old(self).wf(),
            other.wf(),
        ensures
            *final(self) == old(self).spec_merge(other),
            changed == (*final(self) != *old(self)),
    ;

    /// The discriminator of the kind of record. It does not depend on the extrinsic data.
    fn type_id(&self) -> (t: u64)
        requires
            self.wf(),
        ensures
            t == self.spec_type_id(),
    ;
}

/// The message of a deserializer that has not been told how to read records.
pub const DESERIALIZER_NOT_SPECIFIED: &'static str = "Not specified how to deserialize 'Acid'.";

/// The deserializer of records that stands in until a deployment supplies
/// its own: it reads no record, and says so.
pub fn default_acid_deserializer<A: Acid>(bytes: &[u8]) -> (r: Result<A, String>)
    ensures
        r is Err,
        r->Err_0@ == DESERIALIZER_NOT_SPECIFIED@,
{
    Err(DESERIALIZER_NOT_SPECIFIED.to_owned())
}

} // verus!
