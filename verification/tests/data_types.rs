use core::mem::size_of;
use mouse::data_types::blob::{APPLICATION_ONE, BLOB_TYPE_ID};
use mouse::data_types::crypto_hash::HASH_LEN;
use mouse::data_types::{
    default_acid_deserializer, Acid, AcidChainRelation, Blob, ChainIndex, CryptoHash,
    CryptoHasher, Id, Intrinsic, Resource, ResourceId, Sha256, Sha256Hasher,
    RESOURCE_ID_BUFFER_CAPACITY,
};

fn hex(bytes: &[u8]) -> String {
    let mut s = String::new();
    for b in bytes {
        s.push_str(&format!("{:02x}", b));
    }
    s
}

#[test]
fn resource_id_size() {
    // The size of 'ResourceId' should be multipiles of '8'.
    assert_eq!(0, size_of::<ResourceId>() % 8);
}

#[test]
fn resource_size() {
    // No special reason to '128', but I feel like setting a round number.
    assert_eq!(128, size_of::<Resource>());
}

#[test]
fn sha256_of_empty_input() {
    let hash = Sha256::calculate(&[]);
    assert_eq!(
        "e3b0c44298fc1c149afbf4c8996fb92427ae41e4649b934ca495991b7852b855",
        hex(hash.as_ref())
    );
}

#[test]
fn sha256_of_abc() {
    let hash = Sha256::calculate(b"abc");
    assert_eq!(
        "ba7816bf8f01cfea414140de5dae2223b00361a396177a9cb410ff61f20015ad",
        hex(hash.as_ref())
    );
    assert_eq!(HASH_LEN, hash.len());
}

#[test]
fn hasher_takes_input_in_pieces() {
    let mut hasher = Sha256Hasher::new();
    hasher.write(b"a");
    hasher.write(b"");
    hasher.write(b"bc");
    let first = hasher.finish();
    assert_eq!(Sha256::calculate(b"abc"), first);
    assert_eq!(Sha256Hasher::calculate(b"abc"), first);

    // The hasher takes more input after 'finish'.
    hasher.write(b"d");
    assert_eq!(Sha256::calculate(b"abcd"), hasher.finish());
    assert_ne!(first, hasher.finish());
}

#[test]
fn default_hasher_has_no_input() {
    let hasher = Sha256Hasher::default();
    assert_eq!(Sha256::calculate(&[]), hasher.finish());
}

#[test]
fn sha256_zeroed_and_copy_bytes() {
    let zero = Sha256::zeroed();
    assert_eq!(&[0u8; 32][..], zero.as_ref());

    let mut bytes = [0u8; 32];
    for i in 0..32 {
        bytes[i] = i as u8;
    }
    let copied = Sha256::copy_bytes(&bytes);
    assert_eq!(&bytes[..], copied.as_ref());
    assert_eq!(7, copied.byte(7));
    assert_eq!(false, copied.same(&zero));
    assert_eq!(true, copied.same(&Sha256(bytes)));

    let mut changed = zero;
    changed.set_byte(31, 9);
    assert_eq!(9, changed.0[31]);
    assert_eq!(true, zero < changed);
}

#[test]
fn sha256_is_ordered_by_its_bytes() {
    let mut low = Sha256::zeroed();
    let mut high = Sha256::zeroed();
    low.set_byte(1, 0xff);
    high.set_byte(0, 0x01);
    assert_eq!(true, low < high);
}

#[test]
fn chain_index_accessors() {
    let id = Id::calculate(b"block");
    let chain_index = ChainIndex::new(35, &id);
    assert_eq!(35, chain_index.height());
    assert_eq!(&id, chain_index.id());
    assert_eq!(chain_index, ChainIndex::new(35, &id));
    assert_ne!(chain_index, ChainIndex::new(36, &id));
}

#[test]
fn acid_chain_relation_accessors() {
    let id = Id::calculate(b"acid");
    let block = ChainIndex::new(1, &Id::zeroed());

    let mempool = AcidChainRelation::new(&id, None);
    assert_eq!(&id, mempool.id());
    assert_eq!(None, mempool.chain_index());

    let mined = AcidChainRelation::new(&id, Some(&block));
    assert_eq!(&id, mined.id());
    assert_eq!(Some(&block), mined.chain_index());
}

#[test]
fn resource_id_keeps_owner_and_asset_type() {
    let owner: &[u8] = &[1, 2, 3];
    let asset_type: &[u8] = "asset name".as_ref();
    let id = ResourceId::new(owner, asset_type);
    assert_eq!(owner, id.owner());
    assert_eq!(asset_type, id.asset_type());

    let same = ResourceId::new(owner, asset_type);
    assert_eq!(id, same);
    assert_eq!(true, id.same(&same));

    // The owner and the asset type are not one string.
    let shifted = ResourceId::new(&[1, 2], &[3, b'a']);
    let joined = ResourceId::new(&[1, 2, 3], &[b'a']);
    assert_ne!(shifted, joined);
    assert_eq!(false, shifted.same(&joined));
}

#[test]
fn resource_id_takes_the_whole_buffer() {
    let owner = [7u8; RESOURCE_ID_BUFFER_CAPACITY];
    let id = ResourceId::new(&owner, &[]);
    assert_eq!(&owner[..], id.owner());
    assert_eq!(0, id.asset_type().len());

    let empty = ResourceId::new(&[], &[]);
    assert_eq!(0, empty.owner().len());
    assert_eq!(0, empty.asset_type().len());

    let asset_type = [9u8; RESOURCE_ID_BUFFER_CAPACITY];
    let id = ResourceId::new(&[], &asset_type);
    assert_eq!(&asset_type[..], id.asset_type());
}

#[test]
fn resource_deposit_and_withdraw() {
    let id = ResourceId::new(&[1, 2, 3], b"asset name");
    let mut resource = Resource::new(&id, 5);
    assert_eq!(&id, resource.id());
    assert_eq!(&[1u8, 2, 3][..], resource.owner());
    assert_eq!(&b"asset name"[..], resource.asset_type());
    assert_eq!(5, resource.value());

    resource.deposit(7);
    assert_eq!(12, resource.value());
    resource.withdraw(20);
    assert_eq!(-8, resource.value());
    resource.withdraw(-10);
    assert_eq!(2, resource.value());
}

#[test]
fn intrinsic_is_a_der_octet_string() {
    let intrinsic = Intrinsic::from_bytes(&[1, 2, 3]);
    assert_eq!(&[APPLICATION_ONE, 3, 1, 2, 3][..], intrinsic.as_ref());

    let intrinsic = Intrinsic::from_bytes(&[]);
    assert_eq!(&[APPLICATION_ONE, 0][..], intrinsic.as_ref());
}

#[test]
fn intrinsic_length_takes_the_long_form_from_128() {
    let short = Intrinsic::from_bytes(&[5u8; 127]);
    assert_eq!(&[APPLICATION_ONE, 127, 5][..], &short.as_ref()[..3]);
    assert_eq!(129, short.as_ref().len());

    let long = Intrinsic::from_bytes(&[5u8; 128]);
    assert_eq!(&[APPLICATION_ONE, 0x81, 128, 5][..], &long.as_ref()[..4]);
    assert_eq!(131, long.as_ref().len());

    let longer = Intrinsic::from_bytes(&[5u8; 256]);
    assert_eq!(&[APPLICATION_ONE, 0x82, 1, 0, 5][..], &longer.as_ref()[..5]);
    assert_eq!(260, longer.as_ref().len());
}

#[test]
fn blob_id_is_the_hash_of_its_intrinsic() {
    let blob = Blob::from_bytes(&[1, 2, 3]);
    let intrinsic = blob.intrinsic();
    assert_eq!(vec![APPLICATION_ONE, 3, 1, 2, 3], intrinsic);
    assert_eq!(&Id::calculate(&intrinsic), blob.id());
    assert_ne!(&Id::calculate(&[1, 2, 3]), blob.id());
}

#[test]
fn blobs_of_the_same_bytes_have_the_same_id() {
    let a = Blob::from_bytes(b"same");
    let b = Blob::from_bytes(b"same");
    let c = Blob::from_bytes(b"other");
    assert_eq!(a.id(), b.id());
    assert_ne!(a.id(), c.id());
}

#[test]
fn blob_has_no_parent_and_no_resource() {
    let mut blob = Blob::from_bytes(b"blob");
    assert_eq!(0, blob.parent_count());
    assert_eq!(None, blob.parent(0));
    assert_eq!(0, blob.resource_count());
    assert_eq!(true, blob.resource(0).is_none());
    assert_eq!(true, blob.extrinsic().is_empty());
    assert_eq!(true, blob.is_traceable());
    assert_eq!(false, blob.set_traceable());
    assert_eq!(true, blob.is_traceable());
    assert_eq!(false, blob.is_invalid());
    assert_eq!(None, blob.invalid_reason());
    assert_eq!(BLOB_TYPE_ID, blob.type_id());

    let id = *blob.id();
    let other = Blob::from_bytes(b"blob");
    assert_eq!(false, blob.merge(&other));
    assert_eq!(&id, blob.id());
}

#[test]
fn the_default_deserializer_reads_nothing() {
    let read: Result<Blob, String> = default_acid_deserializer(&[0x41, 1, 7]);
    assert_eq!(
        Some("Not specified how to deserialize 'Acid'.".to_string()),
        read.err()
    );
}

#[test]
fn intrinsic_id_is_the_hash_of_the_der() {
    let intrinsic = Intrinsic::from_bytes(b"abc");
    assert_eq!(Id::calculate(&[0x41, 3, b'a', b'b', b'c']), intrinsic.id());
}
