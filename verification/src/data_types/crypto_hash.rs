//! Cryptographic hashes and the hashers that compute them.

use crypto::digest::Digest;
use vstd::prelude::*;

verus! {

/// The number of bytes of a SHA-256 hash.
pub const HASH_LEN: usize = 32;

/// The longest input that a hasher accepts: its length in bits must fit in 64 bits.
pub const MAX_INPUT_LEN: u64 = 0x1fff_ffff_ffff_ffff;

/// The SHA-256 digest of `input`, as the `crypto` crate computes it.
pub uninterp spec fn sha256_digest(input: Seq<u8>) -> Seq<u8>;

/// Runs `crypto::sha2::Sha256` over `bytes`: `new`, one `input`, one `result`.
///
/// The digest is a function of the input alone, so it is named rather than
/// written out. `input` panics when the bit length of the message overflows
/// 64 bits, which the precondition excludes.
#[verifier::external_body]
fn sha256_of(bytes: &[u8]) -> (out: [u8; 32])
    requires
        bytes@.len() <= MAX_INPUT_LEN,
    ensures
        out@ == sha256_digest(bytes@),
{
    let mut hasher = crypto::sha2::Sha256::new();
    let mut out = [0u8; 32];
    hasher.input(bytes);
    hasher.result(&mut out);
    out
}

/// A fixed-width cryptographic hash: a plain wrapper of its bytes.
pub trait CryptoHash: Sized + Copy {
    /// The number of bytes of this hash type.
    spec fn spec_len() -> nat;

    /// The hash function: from an input to the bytes of its hash.
    spec fn digest(input: Seq<u8>) -> Seq<u8>;

    /// The bytes of the hash.
    spec fn bytes(&self) -> Seq<u8>;

    /// Every hash of the type has `spec_len()` bytes.
    proof fn lemma_len(&self)
        ensures
            self.bytes().len() == Self::spec_len(),
    ;

    /// Two hashes with the same bytes are the same hash.
    proof fn lemma_bytes_injective(&self, other: &Self)
        ensures
            self.bytes() == other.bytes() <==> *self == *other,
    ;

    /// The hash whose bytes are all 0.
    fn zeroed() -> (r: Self)
        ensures
            r.bytes().len() == Self::spec_len(),
            forall|i: int| 0 <= i < r.bytes().len() ==> r.bytes()[i] == 0u8,
    ;

    /// The hash made of `bytes`.
    fn copy_bytes(bytes: &[u8]) -> (r: Self)
        requires
            bytes@.len() == Self::spec_len(),
        ensures
            r.bytes() == bytes@,
    ;

    /// The hash of `bytes`.
    fn calculate(bytes: &[u8]) -> (r: Self)
        requires
            bytes@.len() <= MAX_INPUT_LEN,
        ensures
            r.bytes() == Self::digest(bytes@),
    ;

    /// The number of bytes of this hash type.
    fn len(&self) -> (n: usize)
        ensures
            n == Self::spec_len(),
    ;
}

/// A calculator of a `CryptoHash`: it takes the input piece by piece.
pub trait CryptoHasher: Sized {
    /// The hash that this hasher computes.
    type Hash: CryptoHash;

    /// The input written so far.
    spec fn written(&self) -> Seq<u8>;

    /// A hasher that has been given no input yet.
    fn new() -> (h: Self)
        ensures
            h.written() == Seq::<u8>::empty(),
    ;

    /// Appends `bytes` to the input.
    fn write(&mut self, bytes: &[u8])
        requires
            old(self).written().len() + bytes@.len() <= MAX_INPUT_LEN,
        ensures
            final(self).written() == old(self).written() + bytes@,
    ;

    /// The hash of the input written so far; the hasher can take more input afterwards.
    fn finish(&self) -> (h: Self::Hash)
        requires
            self.written().len() <= MAX_INPUT_LEN,
        ensures
            h.bytes() == Self::Hash::digest(self.written()),
    ;

    /// The hash of `bytes` alone.
    fn calculate(bytes: &[u8]) -> (h: Self::Hash)
        requires
            bytes@.len() <= MAX_INPUT_LEN,
        ensures
            h.bytes() == Self::Hash::digest(bytes@),
    {
        let mut hasher = Self::new();
        hasher.write(bytes);
        assert(Seq::<u8>::empty() + bytes@ =~= bytes@);
        hasher.finish()
    }
}

/// A SHA-256 hash: 32 bytes, ordered and compared byte by byte.
#[derive(Debug, Clone, Copy, PartialOrd, Ord, PartialEq, Eq, Hash)]
pub struct Sha256(pub [u8; 32]);

impl View for Sha256 {
    type V = Seq<u8>;

    open spec fn view(&self) -> Seq<u8> {
        self.0@
    }
}

impl Sha256 {
    /// The bytes of the hash.
    pub fn as_ref(&self) -> (r: &[u8])
        ensures
            r@ == self@,
    {
        self.0.as_slice()
    }

    /// The byte at `index`.
    pub fn byte(&self, index: usize) -> (b: u8)
        requires
            index < HASH_LEN,
        ensures
            b == self@[index as int],
    {
        self.0[index]
    }

    /// Replaces the byte at `index` by `value`.
    pub fn set_byte(&mut self, index: usize, value: u8)
        requires
            index < HASH_LEN,
        ensures
            final(self)@ == old(self)@.update(index as int, value),
    {
        self.0[index] = value;
        assert(self@ =~= old(self)@.update(index as int, value));
    }

    /// Whether `self` and `other` have the same bytes.
    pub fn same(&self, other: &Sha256) -> (r: bool)
        ensures
            r == (self@ == other@),
            r == (*self == *other),
    {
        let mut i: usize = 0;
        while i < HASH_LEN
            invariant
                i <= HASH_LEN,
                forall|j: int| 0 <= j < i ==> self@[j] == other@[j],
            decreases HASH_LEN - i,
        {
            if self.0[i] != other.0[i] {
                return false;
            }
            i = i + 1;
        }
        assert(self@ =~= other@);
        assert(self.0 =~= other.0);
        true
    }
}

impl CryptoHash for Sha256 {
    open spec fn spec_len() -> nat {
        HASH_LEN as nat
    }

    open spec fn digest(input: Seq<u8>) -> Seq<u8> {
        sha256_digest(input)
    }

    open spec fn bytes(&self) -> Seq<u8> {
        self@
    }

    proof fn lemma_len(&self) {
    }

    proof fn lemma_bytes_injective(&self, other: &Self) {
        if self@ == other@ {
            assert(self.0 =~= other.0);
        }
    }

    fn zeroed() -> (r: Self) {
        let mut r = Sha256([0u8; 32]);
        let mut i: usize = 0;
        while i < HASH_LEN
            invariant
                i <= HASH_LEN,
                forall|j: int| 0 <= j < i ==> r@[j] == 0u8,
            decreases HASH_LEN - i,
        {
            let ghost before = r@;
            r.0[i] = 0u8;
            assert(r@ == before.update(i as int, 0u8));
            i = i + 1;
        }
        assert(r.bytes() == r@);
        r
    }

    fn copy_bytes(bytes: &[u8]) -> (r: Self) {
        let mut r = Sha256([0u8; 32]);
        let mut i: usize = 0;
        while i < HASH_LEN
            invariant
                i <= HASH_LEN,
                bytes@.len() == HASH_LEN,
                forall|j: int| 0 <= j < i ==> r@[j] == bytes@[j],
            decreases HASH_LEN - i,
        {
            r.0[i] = bytes[i];
            i = i + 1;
        }
        assert(r@ =~= bytes@);
        assert(r.bytes() == r@);
        r
    }

    fn calculate(bytes: &[u8]) -> (r: Self) {
        let r = Sha256(sha256_of(bytes));
        assert(r.bytes() == r.0@);
        assert(<Sha256 as CryptoHash>::digest(bytes@) == sha256_digest(bytes@));
        r
    }

    fn len(&self) -> (n: usize) {
        HASH_LEN
    }
}

/// The hasher of `Sha256`. It keeps the input written so far and digests it in `finish`.
pub struct Sha256Hasher {
    pub input: Vec<u8>,
}

impl Default for Sha256Hasher {
    fn default() -> (h: Self)
        ensures
            h.written() == Seq::<u8>::empty(),
    {
        Sha256Hasher { input: Vec::new() }
    }
}

impl CryptoHasher for Sha256Hasher {
    type Hash = Sha256;

    open spec fn written(&self) -> Seq<u8> {
        self.input@
    }

    fn new() -> (h: Self) {
        let h = Sha256Hasher { input: Vec::new() };
        assert(h.written() == h.input@);
        h
    }

    fn write(&mut self, bytes: &[u8]) {
        let mut i: usize = 0;
        while i < bytes.len()
            invariant
                i <= bytes@.len(),
                self.input@ == old(self).input@ + bytes@.subrange(0, i as int),
            decreases bytes@.len() - i,
        {
            self.input.push(bytes[i]);
            assert(self.input@ =~= old(self).input@ + bytes@.subrange(0, i + 1));
            i = i + 1;
        }
        assert(bytes@.subrange(0, i as int) =~= bytes@);
        assert(self.written() == self.input@);
    }

    fn finish(&self) -> (h: Sha256) {
        let h = Sha256(sha256_of(self.input.as_slice()));
        assert(h.bytes() == sha256_digest(self.input@));
        assert(<Sha256 as CryptoHash>::digest(self.written()) == sha256_digest(self.input@));
        h
    }
}

} // verus!
