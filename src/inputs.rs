use crate::amount::Amount;
use crate::dhke::hash_to_curve_spec;
use crate::keys::PublicKey;
use crate::keyset_cache::{KeysetCache, Unit};
use crate::nut00::{all_secrets_map, BlindedMessage, KeysetId, Proof, ProofsMethods};
use crate::outputs;
use crate::outputs::{
    check_outputs_allow_multiple_units, check_outputs_allow_single_unit, first_of, grouped,
    multi_unit_errors, single_unit_outcome, totals_match,
};
use crate::validation_lemmas::{
    is_validation_error, lemma_multi_unit_error_kinds, lemma_multi_unit_outcome_by_requests,
    lemma_single_unit_error_kinds, lemma_single_unit_outcome_by_requests, same_requests,
};
use vstd::prelude::*;

verus! {

/// Why a batch of proofs cannot be redeemed.
#[derive(Debug, Clone)]
pub enum Error {
    /// Two proofs have the same identity `Y`.
    DuplicateInput,
    /// A proof belongs to a keyset that no longer signs.
    InactiveKeyset(KeysetId),
    /// The batch spans several units where one is required.
    MultipleUnits,
    /// The total leaves the `u64` domain.
    TotalAmountTooBig,
    /// A proof of the batch was spent before.
    AlreadySpent,
    /// The cache holds no entry for this keyset; the caller loads it and retries.
    UnknownKeyset(KeysetId),
    /// A secret could not be mapped onto the curve.
    SecretDecoding,
    /// The store failed.
    Db(String),
}

/// The redemption error that stands for a validation error of the shared checks.
pub open spec fn input_error(e: outputs::Error) -> Error {
    match e {
        outputs::Error::DuplicateOutput => Error::DuplicateInput,
        outputs::Error::InactiveKeyset(id) => Error::InactiveKeyset(id),
        outputs::Error::MultipleUnits => Error::MultipleUnits,
        outputs::Error::UnknownKeyset(id) => Error::UnknownKeyset(id),
        _ => Error::TotalAmountTooBig,
    }
}

fn to_input_error(e: outputs::Error) -> (r: Error)
    requires
        is_validation_error(e),
    ensures
        r == input_error(e),
{
    match e {
        outputs::Error::DuplicateOutput => Error::DuplicateInput,
        outputs::Error::InactiveKeyset(id) => Error::InactiveKeyset(id),
        outputs::Error::MultipleUnits => Error::MultipleUnits,
        outputs::Error::UnknownKeyset(id) => Error::UnknownKeyset(id),
        _ => Error::TotalAmountTooBig,
    }
}

/// Whether `reqs` holds each proof's amount and keyset, with its identity `Y` in place
/// of a blinded secret: the same checks then apply to proofs as to outputs.
pub open spec fn requests_for(reqs: Seq<BlindedMessage>, proofs: Seq<Proof>) -> bool {
    &&& reqs.len() == proofs.len()
    &&& forall|i: int|
        0 <= i < reqs.len() ==> (#[trigger] reqs[i]).amount == proofs[i].amount && reqs[i].keyset_id
            == proofs[i].keyset_id && Some(reqs[i].blinded_secret@) == hash_to_curve_spec(
            proofs[i].secret@,
        )
}

/// The requests that stand for a batch of proofs whose secrets all map onto the curve.
pub open spec fn chosen_requests(proofs: Seq<Proof>) -> Seq<BlindedMessage> {
    choose|reqs: Seq<BlindedMessage>| requests_for(reqs, proofs)
}

/// The outcome of single-unit redemption: a secret off the curve fails first; then the
/// checks of issuance apply to the identities.
pub open spec fn single_unit_input_outcome(cache: KeysetCache, proofs: Seq<Proof>) -> Result<Amount, Error> {
    if !all_secrets_map(proofs) {
        Err(Error::SecretDecoding)
    } else {
        match single_unit_outcome(cache, chosen_requests(proofs)) {
            Ok(a) => Ok(a),
            Err(e) => Err(input_error(e)),
        }
    }
}

/// Puts each proof's identity `Y` in place of a blinded secret, so that the checks of
/// issuance apply.
fn identity_requests(proofs: &Vec<Proof>) -> (r: Result<(Vec<BlindedMessage>, Vec<PublicKey>), Error>)
    ensures
        r is Err == !all_secrets_map(proofs@),
        r is Err ==> r->Err_0 == Error::SecretDecoding,
        r is Ok ==> requests_for(r->Ok_0.0@, proofs@) && same_requests(r->Ok_0.0@, chosen_requests(proofs@))
            && r->Ok_0.1@.len() == proofs@.len() && forall|i: int|
            0 <= i < proofs@.len() ==> Some((#[trigger] r->Ok_0.1@[i])@) == hash_to_curve_spec(
                proofs@[i].secret@,
            ),
{
    let ys = match proofs.ys() {
        Ok(ys) => ys,
        Err(_) => {
            return Err(Error::SecretDecoding);
        },
    };
    let mut reqs: Vec<BlindedMessage> = Vec::new();
    let mut i: usize = 0;
    while i < proofs.len()
        invariant
            i <= proofs@.len(),
            ys@.len() == proofs@.len(),
            forall|j: int|
                0 <= j < proofs@.len() ==> Some((#[trigger] ys@[j])@) == hash_to_curve_spec(
                    proofs@[j].secret@,
                ),
            reqs@.len() == i,
            forall|j: int|
                0 <= j < i ==> (#[trigger] reqs@[j]).amount == proofs@[j].amount && reqs@[j].keyset_id
                    == proofs@[j].keyset_id && reqs@[j].blinded_secret@ == ys@[j]@,
        decreases proofs@.len() - i,
    {
        reqs.push(
            BlindedMessage {
                amount: proofs[i].amount,
                keyset_id: proofs[i].keyset_id,
                blinded_secret: ys[i].duplicate(),
            },
        );
        i = i + 1;
    }
    proof {
        assert forall|j: int| 0 <= j < reqs@.len() implies Some(
            (#[trigger] reqs@[j]).blinded_secret@,
        ) == hash_to_curve_spec(proofs@[j].secret@) by {
            assert(Some(ys@[j]@) == hash_to_curve_spec(proofs@[j].secret@));
        }
        assert(requests_for(reqs@, proofs@));
        let chosen = chosen_requests(proofs@);
        assert forall|j: int| 0 <= j < reqs@.len() implies (#[trigger] reqs@[j]).amount
            == chosen[j].amount && reqs@[j].keyset_id == chosen[j].keyset_id
            && reqs@[j].blinded_secret@ == chosen[j].blinded_secret@ by {
            assert(Some(chosen[j].blinded_secret@) == hash_to_curve_spec(proofs@[j].secret@));
            assert(Some(reqs@[j].blinded_secret@) == hash_to_curve_spec(proofs@[j].secret@));
        }
    }
    Ok((reqs, ys))
}

/// Validates a batch of proofs that must use one unit. Gives the total and the
/// identities `Y` to mark as spent, in the order of the proofs; whether one was spent
/// before is settled afterwards by `reject_already_spent`.
pub fn check_inputs_allow_single_unit(keyset_cache: &KeysetCache, proofs: &Vec<Proof>) -> (r: Result<
    (Amount, Vec<PublicKey>),
    Error,
>)
    ensures
        r is Ok == single_unit_input_outcome(*keyset_cache, proofs@) is Ok,
        r is Err ==> r->Err_0 == single_unit_input_outcome(*keyset_cache, proofs@)->Err_0,
        r is Ok ==> r->Ok_0.0 == single_unit_input_outcome(*keyset_cache, proofs@)->Ok_0 && r->Ok_0.1@.len()
            == proofs@.len() && forall|i: int|
            0 <= i < proofs@.len() ==> Some((#[trigger] r->Ok_0.1@[i])@) == hash_to_curve_spec(
                proofs@[i].secret@,
            ),
{
    let (reqs, ys) = match identity_requests(proofs) {
        Ok(r) => r,
        Err(e) => {
            return Err(e);
        },
    };
    proof {
        lemma_single_unit_outcome_by_requests(*keyset_cache, reqs@, chosen_requests(proofs@));
        lemma_single_unit_error_kinds(*keyset_cache, reqs@);
    }
    match check_outputs_allow_single_unit(keyset_cache, &reqs) {
        Ok(total) => Ok((total, ys)),
        Err(e) => Err(to_input_error(e)),
    }
}

/// Validates a batch of proofs that may span several units. Gives the total of each
/// unit in order of first appearance, and the identities `Y` to mark as spent.
pub fn check_inputs_allow_multiple_units(keyset_cache: &KeysetCache, proofs: &Vec<Proof>) -> (r: Result<
    (Vec<(Unit, Amount)>, Vec<PublicKey>),
    Error,
>)
    ensures
        !all_secrets_map(proofs@) ==> r is Err && r->Err_0 == Error::SecretDecoding,
        all_secrets_map(proofs@) && first_of(multi_unit_errors(*keyset_cache, chosen_requests(proofs@)))
            is Some ==> r is Err && r->Err_0 == input_error(
            first_of(multi_unit_errors(*keyset_cache, chosen_requests(proofs@))).unwrap(),
        ),
        all_secrets_map(proofs@) && first_of(multi_unit_errors(*keyset_cache, chosen_requests(proofs@)))
            is None ==> r is Ok && totals_match(
            r->Ok_0.0@,
            grouped(*keyset_cache, chosen_requests(proofs@), proofs@.len() as int),
        ),
        r is Ok ==> r->Ok_0.1@.len() == proofs@.len() && forall|i: int|
            0 <= i < proofs@.len() ==> Some((#[trigger] r->Ok_0.1@[i])@) == hash_to_curve_spec(
                proofs@[i].secret@,
            ),
{
    let (reqs, ys) = match identity_requests(proofs) {
        Ok(r) => r,
        Err(e) => {
            return Err(e);
        },
    };
    proof {
        lemma_multi_unit_outcome_by_requests(*keyset_cache, reqs@, chosen_requests(proofs@));
        lemma_multi_unit_error_kinds(*keyset_cache, reqs@);
    }
    match check_outputs_allow_multiple_units(keyset_cache, &reqs) {
        Ok(totals) => Ok((totals, ys)),
        Err(e) => Err(to_input_error(e)),
    }
}

/// Settles the store's answer on a validated batch of proofs: one that was spent
/// before makes the whole batch fail.
pub fn reject_already_spent<T>(validated: Result<T, Error>, any_already_spent: bool) -> (r: Result<T, Error>)
    ensures
        validated is Err ==> r == validated,
        validated is Ok && any_already_spent ==> r == Err::<T, Error>(Error::AlreadySpent),
        validated is Ok && !any_already_spent ==> r == validated,
{
    match validated {
        Ok(v) => {
            if any_already_spent {
                Err(Error::AlreadySpent)
            } else {
                Ok(v)
            }
        },
        Err(e) => Err(e),
    }
}

} // verus!
