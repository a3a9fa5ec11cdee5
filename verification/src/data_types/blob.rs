//! The simplest record: bytes, without parents or resources.

use super::acid::Acid;
use super::crypto_hash::{sha256_digest, CryptoHash, MAX_INPUT_LEN};
use super::{Id, Resource};
use vstd::prelude::*;

verus! {

/// The identifier octet of the intrinsic data of a blob: application class, primitive, number 1.
pub const APPLICATION_ONE: u8 = 0x41;

/// The discriminator of blobs among the kinds of record.
pub const BLOB_TYPE_ID: u64 = 1;

/// The most bytes that a blob can wrap: the header takes a few more, and the
/// whole must be short enough to be hashed.
pub const MAX_BLOB_LEN: u64 = 0x1fff_ffff_ffff_ff00;

/// The digits of `n` to the base 256, the most significant first, without a leading 0.
pub open spec fn be_digits(n: nat) -> Seq<u8>
    decreases n,
{
    if n == 0 {
        Seq::empty()
    } else {
        be_digits(n / 256).push((n % 256) as u8)
    }
}

/// The length octets of a DER value of `n` content octets: the short form up
/// to 127, the long form with the fewest octets beyond.
pub open spec fn der_length(n: nat) -> Seq<u8> {
    if n <= 127 {
        seq![n as u8]
    } else {
        seq![(0x80 + be_digits(n).len()) as u8] + be_digits(n)
    }
}

/// The DER encoding of `contents` under the identifier `APPLICATION_ONE`.
pub open spec fn der_of(contents: Seq<u8>) -> Seq<u8> {
    seq![APPLICATION_ONE] + der_length(contents.len()) + contents
}

/// Encodes `contents` with `bsn1::Der::new`, under the identifier that
/// `bsn1::Id::new` makes of the application class, the primitive flag and the
/// number 1, and hands out the octets with `Der::into_vec`.
///
/// `Der::new` writes the identifier, the length in definite form with the
/// fewest octets, and the contents, one after the other.
#[verifier::external_body]
fn der_application_one(contents: &[u8]) -> (der: Vec<u8>)
    ensures
        der@ == der_of(contents@),
{
    let id = bsn1::Id::new(bsn1::ClassTag::Application, bsn1::PCTag::Primitive, 1u8);
    bsn1::Der::new(&id, bsn1::ContentsRef::from_bytes(contents)).into_vec()
}

/// The digits of a number below 2^64 are 8 at most.
proof fn lemma_be_digits_len(n: nat)
    ensures
        n < 0x100 ==> be_digits(n).len() <= 1,
        n < 0x1_0000 ==> be_digits(n).len() <= 2,
        n < 0x100_0000 ==> be_digits(n).len() <= 3,
        n < 0x1_0000_0000 ==> be_digits(n).len() <= 4,
        n < 0x100_0000_0000 ==> be_digits(n).len() <= 5,
        n < 0x1_0000_0000_0000 ==> be_digits(n).len() <= 6,
        n < 0x100_0000_0000_0000 ==> be_digits(n).len() <= 7,
        n < 0x1_0000_0000_0000_0000 ==> be_digits(n).len() <= 8,
    decreases n,
{
    if n > 0 {
        lemma_be_digits_len(n / 256);
    }
}

/// The intrinsic data of a blob: the bytes that it wraps, as a DER octet
/// string under the identifier `APPLICATION_ONE`.
pub struct Intrinsic {
    data: Vec<u8>,
}

impl View for Intrinsic {
    type V = Seq<u8>;

    closed spec fn view(&self) -> Seq<u8> {
        self.data@
    }
}

impl Intrinsic {
    /// Wraps `bytes`.
    pub fn from_bytes(bytes: &[u8]) -> (r: Self)
        ensures
            r@ == der_of(bytes@),
    {
        Intrinsic { data: der_application_one(bytes) }
    }

    /// The serialized data.
    pub fn as_ref(&self) -> (r: &[u8])
        ensures
            r@ == self@,
    {
        self.data.as_slice()
    }

    /// The id of the record with this intrinsic data: the hash of the serialized data.
    pub fn id(&self) -> (id: Id)
        requires
            self@.len() <= MAX_INPUT_LEN,
        ensures
            id@ == sha256_digest(self@),
    {
        Id::calculate(self.data.as_slice())
    }
}

/// A record that wraps bytes. It has no parent and no resource, is traceable
/// and is never invalid.
pub struct Blob {
    id_: Id,
    intrinsic_: Intrinsic,
}

impl Blob {
    /// The blob that wraps `bytes`.
    pub fn from_bytes(bytes: &[u8]) -> (r: Self)
        requires
            bytes@.len() <= MAX_BLOB_LEN,
        ensures
            r.wf(),
            r.spec_intrinsic() == der_of(bytes@),
    {
        let intrinsic_ = Intrinsic::from_bytes(bytes);
        proof {
            lemma_be_digits_len(bytes@.len());
        }
        let id_ = intrinsic_.id();
        Blob { id_, intrinsic_ }
    }
}

impl Acid for Blob {
    closed spec fn wf(&self) -> bool {
        &&& self.id_@ == sha256_digest(self.intrinsic_@)
        &&& self.intrinsic_@.len() <= MAX_INPUT_LEN
    }

    closed spec fn spec_id(&self) -> Id {
        self.id_
    }

    closed spec fn spec_intrinsic(&self) -> Seq<u8> {
        self.intrinsic_@
    }

    open spec fn spec_extrinsic(&self) -> Seq<u8> {
        Seq::empty()
    }

    open spec fn spec_parents(&self) -> Seq<Id> {
        Seq::empty()
    }

    open spec fn spec_resources(&self) -> Seq<Resource> {
        Seq::empty()
    }

    open spec fn spec_is_traceable(&self) -> bool {
        true
    }

    open spec fn spec_is_invalid(&self) -> bool {
        false
    }

    open spec fn spec_type_id(&self) -> u64 {
        BLOB_TYPE_ID
    }

    open spec fn spec_merge(&self, other: &Self) -> Self {
        *self
    }

    proof fn lemma_identity(&self) {
    }

    proof fn lemma_intrinsic_decides(&self, other: &Self) {
    }

    proof fn lemma_merge(&self, other: &Self) {
    }

    fn id(&self) -> (id: &Id) {
        assert(self.spec_id()@ == sha256_digest(self.spec_intrinsic()));
        &self.id_
    }

    fn intrinsic(&self) -> (bytes: Vec<u8>) {
        vstd::slice::slice_to_vec(self.intrinsic_.as_ref())
    }

    fn extrinsic(&self) -> (bytes: Vec<u8>) {
        Vec::new()
    }

    fn parent_count(&self) -> (n: usize) {
        0
    }

    fn parent(&self, index: usize) -> (p: Option<Id>) {
        None
    }

    fn resource_count(&self) -> (n: usize) {
        0
    }

    fn resource(&self, index: usize) -> (r: Option<Resource>) {
        None
    }

    fn is_traceable(&self) -> (b: bool) {
        true
    }

    fn set_traceable(&mut self) -> (changed: bool) {
        false
    }

    fn is_invalid(&self) -> (b: bool) {
        false
    }

    fn invalid_reason(&self) -> (reason: Option<String>) {
        None
    }

    fn merge(&mut self, other: &Self) -> (changed: bool) {
        false
    }

    fn type_id(&self) -> (t: u64) {
        BLOB_TYPE_ID
    }
}

} // verus!
