use sha2::Digest;
use vstd::prelude::*;

verus! {

/// Whether `b` is the SEC1 encoding of a point of secp256k1 other than the identity.
pub uninterp spec fn sec1_point(b: Seq<u8>) -> bool;

/// The SHA-256 digest of `b`.
pub uninterp spec fn sha256_of(b: Seq<u8>) -> Seq<u8>;

/// Relies on k256::PublicKey::from_sec1_bytes: it accepts exactly the SEC1 encodings
/// of non-identity curve points.
#[verifier::external_body]
pub(crate) fn is_sec1_point(b: &[u8]) -> (r: bool)
    ensures
        r == sec1_point(b@),
{
    k256::PublicKey::from_sec1_bytes(b).is_ok()
}

/// Relies on sha2::Sha256::digest: the 32-byte SHA-256 digest of its input.
#[verifier::external_body]
pub(crate) fn sha256(b: &[u8]) -> (r: Vec<u8>)
    ensures
        r@ == sha256_of(b@),
        r@.len() == 32,
{
    sha2::Sha256::digest(b).to_vec()
}

/// Length of a compressed curve point.
pub const COMPRESSED_LEN: usize = 33;

/// An elliptic-curve point in compressed serialized form.
#[derive(Debug, Clone, PartialEq, Eq, Hash)]
pub struct PublicKey {
    bytes: Vec<u8>,
}

impl PublicKey {
    pub closed spec fn view(&self) -> Seq<u8> {
        self.bytes@
    }

    /// A compressed encoding (33 bytes) of a point of the curve.
    pub open spec fn valid_encoding(b: Seq<u8>) -> bool {
        b.len() == COMPRESSED_LEN && sec1_point(b)
    }

    pub open spec fn wf(&self) -> bool {
        Self::valid_encoding(self@)
    }

    /// Reads a compressed point; `None` unless `b` is one.
    pub fn from_slice(b: &[u8]) -> (r: Option<PublicKey>)
        ensures
            r.is_some() == Self::valid_encoding(b@),
            r.is_some() ==> r.unwrap()@ == b@,
    {
        if b.len() != COMPRESSED_LEN || !is_sec1_point(b) {
            return None;
        }
        Some(PublicKey { bytes: copy_bytes(b) })
    }

    /// The 33 bytes of the encoding.
    pub fn to_bytes(&self) -> (r: Vec<u8>)
        ensures
            r@ == self@,
    {
        copy_bytes(self.bytes.as_slice())
    }

    /// A second key with the same encoding.
    pub fn duplicate(&self) -> (r: PublicKey)
        ensures
            r@ == self@,
    {
        PublicKey { bytes: copy_bytes(self.bytes.as_slice()) }
    }

    /// Whether two keys have the same encoding.
    pub fn same_as(&self, other: &PublicKey) -> (r: bool)
        ensures
            r == (self@ == other@),
    {
        bytes_equal(self.bytes.as_slice(), other.bytes.as_slice())
    }
}

pub fn copy_bytes(b: &[u8]) -> (r: Vec<u8>)
    ensures
        r@ == b@,
{
    let mut r: Vec<u8> = Vec::new();
    let mut i: usize = 0;
    while i < b.len()
        invariant
            i <= b@.len(),
            r@ == b@.subrange(0, i as int),
        decreases b@.len() - i,
    {
        r.push(b[i]);
        i = i + 1;
    }
    assert(r@ =~= b@);
    r
}

pub fn bytes_equal(a: &[u8], b: &[u8]) -> (r: bool)
    ensures
        r == (a@ == b@),
{
    if a.len() != b.len() {
        return false;
    }
    let mut i: usize = 0;
    while i < a.len()
        invariant
            i <= a@.len(),
            a@.len() == b@.len(),
            a@.subrange(0, i as int) == b@.subrange(0, i as int),
        decreases a@.len() - i,
    {
        if a[i] != b[i] {
            assert(a@[i as int] != b@[i as int]);
            return false;
        }
        assert(a@.subrange(0, i + 1) =~= a@.subrange(0, i as int).push(a@[i as int]));
        assert(b@.subrange(0, i + 1) =~= b@.subrange(0, i as int).push(b@[i as int]));
        i = i + 1;
    }
    assert(a@ =~= a@.subrange(0, a@.len() as int));
    assert(b@ =~= b@.subrange(0, b@.len() as int));
    true
}

} // verus!
