//! Assets and the balances that records move.

use super::AssetValue;
use vstd::prelude::*;
use vstd::slice::slice_subrange;

verus! {

/// The number of bytes that the owner and the asset type of a `ResourceId` share.
pub const RESOURCE_ID_BUFFER_CAPACITY: usize = 118;

/// What a `ResourceId` stands for: the bytes of the owner and of the asset type.
pub struct ResourceKey {
    pub owner: Seq<u8>,
    pub asset_type: Seq<u8>,
}

/// The identifier of a balance: an owner and an asset type.
///
/// Both are byte strings, packed one after the other into a buffer of
/// `RESOURCE_ID_BUFFER_CAPACITY` bytes that lives on the stack. The bytes of
/// the buffer behind them are 0, so that two identifiers with the same owner
/// and asset type are the same value.
#[derive(Debug, Clone, Copy, PartialEq, Eq, Hash)]
pub struct ResourceId {
    buffer: [u8; 118],
    owner_len: u8,
    asset_type_len: u8,
}

impl View for ResourceId {
    type V = ResourceKey;

    closed spec fn view(&self) -> ResourceKey {
        ResourceKey {
            owner: self.buffer@.subrange(0, self.owner_len as int),
            asset_type: self.buffer@.subrange(
                self.owner_len as int,
                self.owner_len + self.asset_type_len,
            ),
        }
    }
}

impl ResourceId {
    #[verifier::type_invariant]
    spec fn packed(self) -> bool {
        &&& self.owner_len + self.asset_type_len <= RESOURCE_ID_BUFFER_CAPACITY
        &&& forall|i: int|
            self.owner_len + self.asset_type_len <= i < RESOURCE_ID_BUFFER_CAPACITY
                ==> self.buffer@[i] == 0u8
    }

    /// Packs `owner` and `asset_type` into a new identifier.
    pub fn new(owner: &[u8], asset_type: &[u8]) -> (r: Self)
        requires
            owner@.len() + asset_type@.len() <= RESOURCE_ID_BUFFER_CAPACITY,
        ensures
            r@.owner == owner@,
            r@.asset_type == asset_type@,
    {
        let mut buffer = [0u8; 118];
        let mut k: usize = 0;
        while k < RESOURCE_ID_BUFFER_CAPACITY
            invariant
                k <= RESOURCE_ID_BUFFER_CAPACITY,
                forall|j: int| 0 <= j < k ==> buffer@[j] == 0u8,
            decreases RESOURCE_ID_BUFFER_CAPACITY - k,
        {
            let ghost before = buffer@;
            buffer[k] = 0u8;
            assert(buffer@ == before.update(k as int, 0u8));
            k = k + 1;
        }
        let owner_len = owner.len();
        let asset_type_len = asset_type.len();
        let mut i: usize = 0;
        while i < owner_len
            invariant
                i <= owner_len,
                owner_len == owner@.len(),
                owner_len <= RESOURCE_ID_BUFFER_CAPACITY,
                forall|j: int| 0 <= j < i ==> buffer@[j] == owner@[j],
                forall|j: int| i <= j < RESOURCE_ID_BUFFER_CAPACITY ==> buffer@[j] == 0u8,
            decreases owner_len - i,
        {
            let ghost before = buffer@;
            buffer[i] = owner[i];
            assert(buffer@ == before.update(i as int, owner@[i as int]));
            i = i + 1;
        }
        let mut i: usize = 0;
        while i < asset_type_len
            invariant
                i <= asset_type_len,
                owner_len == owner@.len(),
                asset_type_len == asset_type@.len(),
                owner_len + asset_type_len <= RESOURCE_ID_BUFFER_CAPACITY,
                forall|j: int| 0 <= j < owner_len ==> buffer@[j] == owner@[j],
                forall|j: int| 0 <= j < i ==> buffer@[owner_len + j] == asset_type@[j],
                forall|j: int|
                    owner_len + i <= j < RESOURCE_ID_BUFFER_CAPACITY ==> buffer@[j] == 0u8,
            decreases asset_type_len - i,
        {
            let ghost before = buffer@;
            buffer[owner_len + i] = asset_type[i];
            assert(buffer@ == before.update(owner_len + i, asset_type@[i as int]));
            i = i + 1;
        }
        let r = ResourceId {
            buffer,
            owner_len: owner_len as u8,
            asset_type_len: asset_type_len as u8,
        };
        assert(r@.owner =~= owner@);
        assert(r@.asset_type =~= asset_type@);
        r
    }

    /// The bytes of the owner.
    pub fn owner(&self) -> (r: &[u8])
        ensures
            r@ == self@.owner,
    {
        proof {
            use_type_invariant(self);
        }
        slice_subrange(self.buffer.as_slice(), 0, self.owner_len as usize)
    }

    /// The bytes of the asset type.
    pub fn asset_type(&self) -> (r: &[u8])
        ensures
            r@ == self@.asset_type,
    {
        proof {
            use_type_invariant(self);
        }
        let start = self.owner_len as usize;
        let end = start + self.asset_type_len as usize;
        slice_subrange(self.buffer.as_slice(), start, end)
    }

    /// Whether `self` and `other` have the same owner and the same asset type.
    pub fn same(&self, other: &ResourceId) -> (r: bool)
        ensures
            r == (self@ == other@),
            r == (*self == *other),
    {
        proof {
            use_type_invariant(self);
            use_type_invariant(other);
        }
        if self.owner_len != other.owner_len || self.asset_type_len != other.asset_type_len {
            assert(self@.owner.len() == self.owner_len);
            assert(other@.owner.len() == other.owner_len);
            assert(self@.asset_type.len() == self.asset_type_len);
            assert(other@.asset_type.len() == other.asset_type_len);
            return false;
        }
        let total = self.owner_len as usize + self.asset_type_len as usize;
        let mut i: usize = 0;
        while i < total
            invariant
                i <= total,
                total == self.owner_len + self.asset_type_len,
                total <= RESOURCE_ID_BUFFER_CAPACITY,
                self.owner_len == other.owner_len,
                self.asset_type_len == other.asset_type_len,
                forall|j: int| 0 <= j < i ==> self.buffer@[j] == other.buffer@[j],
            decreases total - i,
        {
            if self.buffer[i] != other.buffer[i] {
                proof {
                    let j = i as int;
                    if j < self.owner_len {
                        assert(self@.owner[j] == self.buffer@[j]);
                        assert(other@.owner[j] == other.buffer@[j]);
                    } else {
                        assert(self@.asset_type[j - self.owner_len] == self.buffer@[j]);
                        assert(other@.asset_type[j - self.owner_len] == other.buffer@[j]);
                    }
                }
                return false;
            }
            i = i + 1;
        }
        assert(self.buffer@ =~= other.buffer@);
        assert(self.buffer =~= other.buffer);
        true
    }
}

/// An amount of an asset held under a `ResourceId`.
///
/// A record produces the asset when the value is positive and consumes it when
/// the value is negative.
#[derive(Debug, Clone, Copy)]
pub struct Resource {
    pub id_: ResourceId,
    pub value_: AssetValue,
}

impl Resource {
    /// Creates the resource `value` of `id`.
    pub fn new(id: &ResourceId, value: AssetValue) -> (r: Self)
        ensures
            r.id_ == *id,
            r.value_ == value,
    {
        Resource { id_: *id, value_: value }
    }

    /// The identifier of the balance.
    pub fn id(&self) -> (id: &ResourceId)
        ensures
            *id == self.id_,
    {
        &self.id_
    }

    /// The bytes of the owner.
    pub fn owner(&self) -> (r: &[u8])
        ensures
            r@ == self.id_@.owner,
    {
        self.id_.owner()
    }

    /// The bytes of the asset type.
    pub fn asset_type(&self) -> (r: &[u8])
        ensures
            r@ == self.id_@.asset_type,
    {
        self.id_.asset_type()
    }

    /// The amount.
    pub fn value(&self) -> (v: AssetValue)
        ensures
            v == self.value_,
    {
        self.value_
    }

    /// Increases the amount by `value`.
    pub fn deposit(&mut self, value: AssetValue)
        requires
            i64::MIN <= old(self).value_ + value <= i64::MAX,
        ensures
            final(self).value_ == old(self).value_ + value,
            final(self).id_ == old(self).id_,
    {
        self.value_ = self.value_ + value;
    }

    /// Decreases the amount by `value`.
    pub fn withdraw(&mut self, value: AssetValue)
        requires
            i64::MIN <= old(self).value_ - value <= i64::MAX,
        ensures
            final(self).value_ == old(self).value_ - value,
            final(self).id_ == old(self).id_,
    {
        self.value_ = self.value_ - value;
    }
}

} // verus!
