use crate::keys::{copy_bytes, is_sec1_point, sha256, sha256_of, sec1_point, PublicKey};
use vstd::prelude::*;

verus! {

/// Bytes prefixed to a message before it is hashed onto the curve.
pub open spec fn domain_separator() -> Seq<u8> {
    seq![
        83u8, 101u8, 99u8, 112u8, 50u8, 53u8, 54u8, 107u8, 49u8, 95u8, 72u8, 97u8, 115u8, 104u8,
        84u8, 111u8, 67u8, 117u8, 114u8, 118u8, 101u8, 95u8, 67u8, 97u8, 115u8, 104u8, 117u8, 95u8,
    ]
}

/// Number of counter values tried before giving up.
pub const MAX_COUNTER: u32 = 65536;

/// The four little-endian bytes of `c`.
pub open spec fn le_bytes(c: u32) -> Seq<u8> {
    seq![
        (c % 256) as u8,
        ((c / 256) % 256) as u8,
        ((c / 65536) % 256) as u8,
        (c / 16777216) as u8,
    ]
}

/// The candidate point for message digest `h` and counter `c`: the even-y compressed
/// encoding of the x-coordinate `sha256(h || le(c))`.
pub open spec fn candidate(h: Seq<u8>, c: u32) -> Seq<u8> {
    seq![2u8] + sha256_of(h + le_bytes(c))
}

/// The first candidate from counter `c` on that is a curve point.
pub open spec fn first_point_from(h: Seq<u8>, c: nat) -> Option<Seq<u8>>
    decreases MAX_COUNTER - c,
{
    if c >= MAX_COUNTER {
        None
    } else if sec1_point(candidate(h, c as u32)) {
        Some(candidate(h, c as u32))
    } else {
        first_point_from(h, c + 1)
    }
}

/// The point that a message hashes to, if the search finds one.
pub open spec fn hash_to_curve_spec(message: Seq<u8>) -> Option<Seq<u8>> {
    first_point_from(sha256_of(domain_separator() + message), 0)
}

fn domain_separator_bytes() -> (r: Vec<u8>)
    ensures
        r@ == domain_separator(),
{
    let r: Vec<u8> = vec![
        83u8, 101u8, 99u8, 112u8, 50u8, 53u8, 54u8, 107u8, 49u8, 95u8, 72u8, 97u8, 115u8, 104u8,
        84u8, 111u8, 67u8, 117u8, 114u8, 118u8, 101u8, 95u8, 67u8, 97u8, 115u8, 104u8, 117u8, 95u8,
    ];
    assert(r@ =~= domain_separator());
    r
}

/// Maps a message deterministically onto a point of secp256k1.
pub fn hash_to_curve(message: &[u8]) -> (r: Option<PublicKey>)
    ensures
        r.is_some() == hash_to_curve_spec(message@).is_some(),
        r.is_some() ==> Some(r.unwrap()@) == hash_to_curve_spec(message@) && r.unwrap().wf(),
{
    let mut to_hash = domain_separator_bytes();
    let mut i: usize = 0;
    while i < message.len()
        invariant
            i <= message@.len(),
            to_hash@ == domain_separator() + message@.subrange(0, i as int),
        decreases message@.len() - i,
    {
        to_hash.push(message[i]);
        assert(message@.subrange(0, i + 1) =~= message@.subrange(0, i as int).push(message@[i as int]));
        i = i + 1;
    }
    assert(message@.subrange(0, message@.len() as int) =~= message@);
    let h = sha256(to_hash.as_slice());
    let mut counter: u32 = 0;
    while counter < MAX_COUNTER
        invariant
            counter <= MAX_COUNTER,
            first_point_from(h@, counter as nat) == hash_to_curve_spec(message@),
        decreases MAX_COUNTER - counter,
    {
        let mut bytes = copy_bytes(h.as_slice());
        bytes.push((counter % 256) as u8);
        bytes.push(((counter / 256) % 256) as u8);
        bytes.push(((counter / 65536) % 256) as u8);
        bytes.push((counter / 16777216) as u8);
        assert(bytes@ =~= h@ + le_bytes(counter));
        let digest = sha256(bytes.as_slice());
        let mut point: Vec<u8> = vec![2u8];
        let mut j: usize = 0;
        while j < digest.len()
            invariant
                j <= digest@.len(),
                point@ == seq![2u8] + digest@.subrange(0, j as int),
            decreases digest@.len() - j,
        {
            point.push(digest[j]);
            assert(digest@.subrange(0, j + 1) =~= digest@.subrange(0, j as int).push(digest@[j as int]));
            j = j + 1;
        }
        assert(digest@.subrange(0, digest@.len() as int) =~= digest@);
        assert(point@ == candidate(h@, counter));
        if is_sec1_point(point.as_slice()) {
            return PublicKey::from_slice(point.as_slice());
        }
        counter = counter + 1;
    }
    None
}

/// Hashing onto the curve is deterministic: equal messages give the same point.
pub proof fn lemma_hash_to_curve_deterministic(a: Seq<u8>, b: Seq<u8>)
    requires
        a == b,
    ensures
        hash_to_curve_spec(a) == hash_to_curve_spec(b),
{
}

} // verus!
