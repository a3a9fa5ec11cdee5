//! The vocabulary shared by the cache, the key/value layer and the relational index.

pub mod acid;
pub mod acid_chain_relation;
pub mod blob;
pub mod chain_index;
pub mod crypto_hash;
pub mod resource;

pub use acid::{default_acid_deserializer, Acid};
pub use acid_chain_relation::AcidChainRelation;
pub use blob::{Blob, Intrinsic};
pub use chain_index::ChainIndex;
pub use crypto_hash::{CryptoHash, CryptoHasher, Sha256, Sha256Hasher};
pub use resource::{Resource, ResourceId, ResourceKey, RESOURCE_ID_BUFFER_CAPACITY};

use vstd::prelude::*;

verus! {

/// The identity of a record: the hash of its intrinsic bytes.
pub type Id = Sha256;

/// The height of a block in the main chain. The genesis block has height 1.
pub type BlockHeight = i64;

/// An amount of an asset: positive when produced, negative when consumed.
pub type AssetValue = i64;

} // verus!
