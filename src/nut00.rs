use crate::amount::{lemma_sum_amounts_monotone, sum_amounts, Amount};
use crate::dhke::{hash_to_curve, hash_to_curve_spec};
use crate::keys::PublicKey;
use vstd::prelude::*;

verus! {

/// A protocol error as it is reported to wallets: a numeric code and a message.
#[derive(Debug, Clone)]
pub struct CashuError {
    code: u16,
    detail: String,
}

impl CashuError {
    pub closed spec fn spec_code(&self) -> u16 {
        self.code
    }

    pub closed spec fn spec_detail(&self) -> Seq<char> {
        self.detail@
    }

    pub fn new(code: u16, detail: String) -> (r: CashuError)
        ensures
            r.spec_code() == code,
            r.spec_detail() == detail@,
    {
        CashuError { code, detail }
    }

    pub fn code(&self) -> (r: u16)
        ensures
            r == self.spec_code(),
    {
        self.code
    }

    pub fn detail(&self) -> (r: &String)
        ensures
            r@ == self.spec_detail(),
    {
        &self.detail
    }
}

/// Failures of the token model.
#[derive(Debug, Clone, Copy, PartialEq, Eq, Structural)]
pub enum Error {
    /// A sum of amounts left the amount domain.
    Overflow,
    /// A secret could not be mapped onto the curve.
    SecretDecoding,
}

/// Identifier of a signing keyset.
#[derive(Debug, Clone, Copy, PartialEq, Eq, Hash, Structural)]
pub struct KeysetId {
    pub value: u64,
}

/// The secret message that a token holder chose.
#[derive(Debug, Clone, PartialEq, Eq)]
pub struct Secret {
    bytes: Vec<u8>,
}

impl Secret {
    pub closed spec fn view(&self) -> Seq<u8> {
        self.bytes@
    }

    pub fn new(bytes: Vec<u8>) -> (r: Secret)
        ensures
            r@ == bytes@,
    {
        Secret { bytes }
    }

    pub fn as_bytes(&self) -> (r: &[u8])
        ensures
            r@ == self@,
    {
        self.bytes.as_slice()
    }
}

/// A spendable token.
#[derive(Debug, Clone, PartialEq, Eq)]
pub struct Proof {
    pub amount: Amount,
    pub keyset_id: KeysetId,
    pub secret: Secret,
    pub c: PublicKey,
}

impl Proof {
    /// The token's identity `Y = hash_to_curve(secret)`.
    pub fn y(&self) -> (r: Result<PublicKey, Error>)
        ensures
            r.is_ok() == hash_to_curve_spec(self.secret@).is_some(),
            r.is_ok() ==> Some(r.unwrap()@) == hash_to_curve_spec(self.secret@),
            r.is_err() ==> r == Err::<PublicKey, Error>(Error::SecretDecoding),
    {
        match hash_to_curve(self.secret.as_bytes()) {
            Some(k) => Ok(k),
            None => Err(Error::SecretDecoding),
        }
    }
}

/// The mint's answer to one output request.
#[derive(Debug, Clone, PartialEq, Eq)]
pub struct BlindSignature {
    pub amount: Amount,
    pub keyset_id: KeysetId,
    pub c: PublicKey,
}

/// An output request: an amount to sign under a keyset, for a blinded secret.
#[derive(Debug, Clone, PartialEq, Eq, Hash)]
pub struct BlindedMessage {
    pub amount: Amount,
    pub keyset_id: KeysetId,
    pub blinded_secret: PublicKey,
}

/// The amounts of a sequence of proofs.
pub open spec fn proof_amounts(p: Seq<Proof>) -> Seq<Amount> {
    p.map_values(|x: Proof| x.amount)
}

/// Whether every proof's secret can be mapped onto the curve.
pub open spec fn all_secrets_map(p: Seq<Proof>) -> bool {
    forall|i: int| 0 <= i < p.len() ==> (#[trigger] hash_to_curve_spec(p[i].secret@)).is_some()
}

/// Operations on a list of proofs.
pub trait ProofsMethods {
    spec fn proofs(&self) -> Seq<Proof>;

    /// The sum of the amounts, or `Overflow`.
    fn total_amount(&self) -> (r: Result<Amount, Error>)
        ensures
            sum_amounts(proof_amounts(self.proofs())) <= u64::MAX ==> r == Ok::<Amount, Error>(
                Amount { value: sum_amounts(proof_amounts(self.proofs())) as u64 },
            ),
            sum_amounts(proof_amounts(self.proofs())) > u64::MAX ==> r == Err::<Amount, Error>(
                Error::Overflow,
            ),
    ;

    /// The identities `Y` of all proofs, in order.
    fn ys(&self) -> (r: Result<Vec<PublicKey>, Error>)
        ensures
            r.is_ok() == all_secrets_map(self.proofs()),
            r.is_ok() ==> r.unwrap()@.len() == self.proofs().len() && forall|i: int|
                0 <= i < self.proofs().len() ==> Some(#[trigger] r.unwrap()@[i]@)
                    == hash_to_curve_spec(self.proofs()[i].secret@),
            r.is_err() ==> r == Err::<Vec<PublicKey>, Error>(Error::SecretDecoding),
    ;
}

impl ProofsMethods for Vec<Proof> {
    open spec fn proofs(&self) -> Seq<Proof> {
        self@
    }

    fn total_amount(&self) -> (r: Result<Amount, Error>) {
        let mut acc = Amount::zero();
        let mut i: usize = 0;
        while i < self.len()
            invariant
                i <= self@.len(),
                acc@ == sum_amounts(proof_amounts(self@).subrange(0, i as int)),
            decreases self@.len() - i,
        {
            let ghost s = proof_amounts(self@);
            assert(s.subrange(0, i + 1).drop_last() =~= s.subrange(0, i as int));
            match acc.checked_add(&self[i].amount) {
                Some(a) => {
                    acc = a;
                },
                None => {
                    proof {
                        lemma_sum_amounts_monotone(s, i + 1);
                    }
                    return Err(Error::Overflow);
                },
            }
            i = i + 1;
        }
        assert(proof_amounts(self@).subrange(0, i as int) =~= proof_amounts(self@));
        Ok(acc)
    }

    fn ys(&self) -> (r: Result<Vec<PublicKey>, Error>) {
        let mut out: Vec<PublicKey> = Vec::new();
        let mut i: usize = 0;
        while i < self.len()
            invariant
                i <= self@.len(),
                out@.len() == i,
                forall|j: int|
                    0 <= j < i ==> Some(#[trigger] out@[j]@) == hash_to_curve_spec(self@[j].secret@),
            decreases self@.len() - i,
        {
            match self[i].y() {
                Ok(k) => {
                    out.push(k);
                },
                Err(e) => {
                    return Err(e);
                },
            }
            i = i + 1;
        }
        assert forall|j: int| 0 <= j < self@.len() implies (#[trigger] hash_to_curve_spec(
            self@[j].secret@,
        )).is_some() by {
            assert(Some(out@[j]@) == hash_to_curve_spec(self@[j].secret@));
        }
        Ok(out)
    }
}

} // verus!
