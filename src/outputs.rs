use crate::amount::{sum_amounts, Amount};
use crate::keyset_cache::{KeysetCache, Unit};
use crate::keys::PublicKey;
use crate::nut00::{BlindSignature, BlindedMessage, KeysetId};
use crate::store::SignatureRow;
use vstd::prelude::*;

verus! {

/// Why a batch of outputs is refused.
#[derive(Debug, Clone)]
pub enum Error {
    /// Two outputs share a blinded secret.
    DuplicateOutput,
    /// An output asks for a keyset that no longer signs.
    InactiveKeyset(KeysetId),
    /// The batch spans several units where one is required.
    MultipleUnits,
    /// A total leaves the `u64` domain.
    TotalAmountTooBig,
    /// A blinded secret of the batch was signed before.
    AlreadySigned,
    /// The cache holds no entry for this keyset; the caller loads it from the store,
    /// inserts it and validates again.
    UnknownKeyset(KeysetId),
    /// The store failed.
    Db(String),
    /// The signer could not be reached or refused the request.
    Signer(String),
    /// The signer answered with something other than one curve point per request.
    SignerContractViolation,
}

/// The first error of a sequence of per-item outcomes.
pub open spec fn first_of(s: Seq<Option<Error>>) -> Option<Error>
    decreases s.len(),
{
    if s.len() == 0 {
        None
    } else if s[0].is_some() {
        s[0]
    } else {
        first_of(s.subrange(1, s.len() as int))
    }
}

/// Whether output `i` repeats the blinded secret of an earlier output.
pub open spec fn duplicated_before(outs: Seq<BlindedMessage>, i: int) -> bool {
    exists|j: int| 0 <= j < i && outs[j].blinded_secret@ == outs[i].blinded_secret@
}

/// The unit that the cache gives an output's keyset.
pub open spec fn unit_of(cache: KeysetCache, m: BlindedMessage) -> Unit {
    cache.spec_get(m.keyset_id).unwrap().unit
}

/// The checks shared by both modes: uniqueness, a known keyset, an active keyset.
pub open spec fn basic_error(cache: KeysetCache, outs: Seq<BlindedMessage>, i: int) -> Option<Error> {
    if duplicated_before(outs, i) {
        Some(Error::DuplicateOutput)
    } else if cache.spec_get(outs[i].keyset_id).is_none() {
        Some(Error::UnknownKeyset(outs[i].keyset_id))
    } else if !cache.spec_get(outs[i].keyset_id).unwrap().active {
        Some(Error::InactiveKeyset(outs[i].keyset_id))
    } else {
        None
    }
}

pub open spec fn amounts_of(outs: Seq<BlindedMessage>) -> Seq<Amount> {
    outs.map_values(|m: BlindedMessage| m.amount)
}

/// What output `i` fails on in single-unit mode, given that the outputs before it passed.
pub open spec fn single_unit_item_error(cache: KeysetCache, outs: Seq<BlindedMessage>, i: int) -> Option<Error> {
    if basic_error(cache, outs, i).is_some() {
        basic_error(cache, outs, i)
    } else if unit_of(cache, outs[i]) != unit_of(cache, outs[0]) {
        Some(Error::MultipleUnits)
    } else if sum_amounts(amounts_of(outs).subrange(0, i + 1)) > u64::MAX {
        Some(Error::TotalAmountTooBig)
    } else {
        None
    }
}

pub open spec fn single_unit_errors(cache: KeysetCache, outs: Seq<BlindedMessage>) -> Seq<Option<Error>> {
    Seq::new(outs.len(), |i: int| single_unit_item_error(cache, outs, i))
}

/// The outcome of single-unit validation: the first failing output decides the
/// error, else the exact total.
pub open spec fn single_unit_outcome(cache: KeysetCache, outs: Seq<BlindedMessage>) -> Result<Amount, Error> {
    match first_of(single_unit_errors(cache, outs)) {
        Some(e) => Err(e),
        None => Ok(Amount { value: sum_amounts(amounts_of(outs)) as u64 }),
    }
}

/// Whether output `i` repeats an earlier blinded secret.
fn seen_before(outputs: &Vec<BlindedMessage>, i: usize) -> (r: bool)
    requires
        i < outputs@.len(),
    ensures
        r == duplicated_before(outputs@, i as int),
{
    let mut j: usize = 0;
    while j < i
        invariant
            i < outputs@.len(),
            j <= i,
            forall|k: int| 0 <= k < j ==> outputs@[k].blinded_secret@ != outputs@[i as int].blinded_secret@,
        decreases i - j,
    {
        if outputs[j].blinded_secret.same_as(&outputs[i].blinded_secret) {
            return true;
        }
        j = j + 1;
    }
    false
}

/// Validates a batch that must use one unit, and gives its total. Keysets are read
/// from `keyset_cache`; whether the blinded secrets were signed before is settled
/// afterwards by `reject_already_signed`.
pub fn check_outputs_allow_single_unit(
    keyset_cache: &KeysetCache,
    outputs: &Vec<BlindedMessage>,
) -> (r: Result<Amount, Error>)
    ensures
        r == single_unit_outcome(*keyset_cache, outputs@),
{
    let ghost errs = single_unit_errors(*keyset_cache, outputs@);
    let ghost amts = amounts_of(outputs@);
    let mut total = Amount::zero();
    let mut unit: Option<Unit> = None;
    let mut i: usize = 0;
    assert(errs.subrange(0, errs.len() as int) =~= errs);
    while i < outputs.len()
        invariant
            i <= outputs@.len(),
            errs.len() == outputs@.len(),
            errs == single_unit_errors(*keyset_cache, outputs@),
            amts == amounts_of(outputs@),
            first_of(errs) == first_of(errs.subrange(i as int, errs.len() as int)),
            total@ == sum_amounts(amts.subrange(0, i as int)),
            i == 0 ==> unit.is_none(),
            i > 0 ==> unit == Some(unit_of(*keyset_cache, outputs@[0])),
        decreases outputs@.len() - i,
    {
        let ghost rest = errs.subrange(i as int, errs.len() as int);
        assert(rest[0] == errs[i as int]);
        assert(rest.subrange(1, rest.len() as int) =~= errs.subrange(i + 1, errs.len() as int));
        let m = &outputs[i];
        if seen_before(outputs, i) {
            return Err(Error::DuplicateOutput);
        }
        let info = match keyset_cache.get_keyset_info(m.keyset_id) {
            Some(info) => info,
            None => {
                return Err(Error::UnknownKeyset(m.keyset_id));
            },
        };
        if !info.active() {
            return Err(Error::InactiveKeyset(m.keyset_id));
        }
        match unit {
            None => {
                unit = Some(info.unit());
            },
            Some(u) => {
                if u != info.unit() {
                    return Err(Error::MultipleUnits);
                }
            },
        }
        assert(amts.subrange(0, i + 1).drop_last() =~= amts.subrange(0, i as int));
        total = match total.checked_add(&m.amount) {
            Some(t) => t,
            None => {
                return Err(Error::TotalAmountTooBig);
            },
        };
        i = i + 1;
    }
    assert(amts.subrange(0, i as int) =~= amts);
    Ok(total)
}

/// Per-unit running totals of the first `n` outputs, units in order of first appearance.
pub open spec fn grouped(cache: KeysetCache, outs: Seq<BlindedMessage>, n: int) -> Seq<(Unit, int)>
    decreases n,
{
    if n <= 0 {
        seq![]
    } else {
        let g = grouped(cache, outs, n - 1);
        let u = unit_of(cache, outs[n - 1]);
        let a = outs[n - 1].amount@;
        if exists|k: int| 0 <= k < g.len() && g[k].0 == u {
            let k = choose|k: int| 0 <= k < g.len() && g[k].0 == u;
            g.update(k, (u, g[k].1 + a))
        } else {
            g.push((u, a))
        }
    }
}

/// What output `i` fails on in multi-unit mode, given that the outputs before it passed.
pub open spec fn multi_unit_item_error(cache: KeysetCache, outs: Seq<BlindedMessage>, i: int) -> Option<Error> {
    if basic_error(cache, outs, i).is_some() {
        basic_error(cache, outs, i)
    } else if exists|k: int|
        0 <= k < grouped(cache, outs, i).len() && grouped(cache, outs, i)[k].0 == unit_of(cache, outs[i])
            && grouped(cache, outs, i)[k].1 + outs[i].amount@ > u64::MAX {
        Some(Error::TotalAmountTooBig)
    } else {
        None
    }
}

pub open spec fn multi_unit_errors(cache: KeysetCache, outs: Seq<BlindedMessage>) -> Seq<Option<Error>> {
    Seq::new(outs.len(), |i: int| multi_unit_item_error(cache, outs, i))
}

/// Whether `r` lists exactly the unit totals `g`, in the same order.
pub open spec fn totals_match(r: Seq<(Unit, Amount)>, g: Seq<(Unit, int)>) -> bool {
    r.len() == g.len() && forall|k: int| 0 <= k < r.len() ==> (#[trigger] r[k]).0 == g[k].0 && r[k].1@ == g[k].1
}

/// Validates a batch that may span several units, and gives the total of each unit in
/// order of first appearance.
pub fn check_outputs_allow_multiple_units(
    keyset_cache: &KeysetCache,
    outputs: &Vec<BlindedMessage>,
) -> (r: Result<Vec<(Unit, Amount)>, Error>)
    ensures
        first_of(multi_unit_errors(*keyset_cache, outputs@)) is Some ==> r == Err::<
            Vec<(Unit, Amount)>,
            Error,
        >(first_of(multi_unit_errors(*keyset_cache, outputs@)).unwrap()),
        first_of(multi_unit_errors(*keyset_cache, outputs@)) is None ==> r is Ok && totals_match(
            r.unwrap()@,
            grouped(*keyset_cache, outputs@, outputs@.len() as int),
        ),
{
    let ghost cache = *keyset_cache;
    let ghost errs = multi_unit_errors(cache, outputs@);
    let mut totals: Vec<(Unit, Amount)> = Vec::new();
    let mut i: usize = 0;
    assert(errs.subrange(0, errs.len() as int) =~= errs);
    while i < outputs.len()
        invariant
            i <= outputs@.len(),
            cache == *keyset_cache,
            errs.len() == outputs@.len(),
            errs == multi_unit_errors(cache, outputs@),
            first_of(errs) == first_of(errs.subrange(i as int, errs.len() as int)),
            totals_match(totals@, grouped(cache, outputs@, i as int)),
            forall|a: int, b: int|
                0 <= a < totals@.len() && 0 <= b < totals@.len() && a != b ==> totals@[a].0 != totals@[b].0,
        decreases outputs@.len() - i,
    {
        let ghost rest = errs.subrange(i as int, errs.len() as int);
        let ghost g = grouped(cache, outputs@, i as int);
        assert(rest[0] == errs[i as int]);
        assert(rest.subrange(1, rest.len() as int) =~= errs.subrange(i + 1, errs.len() as int));
        let m = &outputs[i];
        if seen_before(outputs, i) {
            return Err(Error::DuplicateOutput);
        }
        let info = match keyset_cache.get_keyset_info(m.keyset_id) {
            Some(info) => info,
            None => {
                return Err(Error::UnknownKeyset(m.keyset_id));
            },
        };
        if !info.active() {
            return Err(Error::InactiveKeyset(m.keyset_id));
        }
        let u = info.unit();
        let mut k: usize = 0;
        while k < totals.len()
            invariant
                k <= totals@.len(),
                forall|x: int| 0 <= x < k ==> totals@[x].0 != u,
            ensures
                k <= totals@.len(),
                forall|x: int| 0 <= x < k ==> totals@[x].0 != u,
                k < totals@.len() ==> totals@[k as int].0 == u,
            decreases totals@.len() - k,
        {
            if totals[k].0 == u {
                break;
            }
            k = k + 1;
        }
        if k < totals.len() {
            let t = totals[k].1;
            assert(totals@[k as int].0 == u);
            assert(g[k as int].0 == u);
            proof {
                let kk = choose|x: int| 0 <= x < g.len() && g[x].0 == u;
                assert(totals@[kk].0 == g[kk].0);
                assert(kk == k);
            }
            match t.checked_add(&m.amount) {
                Some(s) => {
                    assert forall|x: int| 0 <= x < g.len() && g[x].0 == u implies g[x].1
                        + m.amount@ <= u64::MAX by {
                        assert(totals@[x].0 == g[x].0);
                        assert(x == k as int);
                    }
                    assert(errs[i as int].is_none());
                    let ghost before = totals@;
                    totals.set(k, (u, s));
                    assert(totals@ =~= before.update(k as int, (u, s)));
                    assert forall|x: int| 0 <= x < totals@.len() implies (#[trigger] totals@[x]).0
                        == grouped(cache, outputs@, i + 1)[x].0 && totals@[x].1@ == grouped(
                        cache,
                        outputs@,
                        i + 1,
                    )[x].1 by {
                        assert(before[x].0 == g[x].0);
                    }
                },
                None => {
                    assert(multi_unit_item_error(cache, outputs@, i as int) == Some(Error::TotalAmountTooBig));
                    return Err(Error::TotalAmountTooBig);
                },
            }
        } else {
            assert forall|x: int| 0 <= x < g.len() implies g[x].0 != u by {
                assert(totals@[x].0 == g[x].0);
            }
            assert(errs[i as int].is_none());
            let ghost before = totals@;
            totals.push((u, m.amount));
            assert forall|x: int| 0 <= x < totals@.len() implies (#[trigger] totals@[x]).0
                == grouped(cache, outputs@, i + 1)[x].0 && totals@[x].1@ == grouped(
                cache,
                outputs@,
                i + 1,
            )[x].1 by {
                if x < before.len() {
                    assert(before[x].0 == g[x].0);
                }
            }
        }
        i = i + 1;
    }
    Ok(totals)
}

/// Settles the store's answer on a validated batch: a batch with a blinded secret
/// that was signed before is refused.
pub fn reject_already_signed<T>(validated: Result<T, Error>, any_already_signed: bool) -> (r: Result<T, Error>)
    ensures
        validated is Err ==> r == validated,
        validated is Ok && any_already_signed ==> r == Err::<T, Error>(Error::AlreadySigned),
        validated is Ok && !any_already_signed ==> r == validated,
{
    match validated {
        Ok(v) => {
            if any_already_signed {
                Err(Error::AlreadySigned)
            } else {
                Ok(v)
            }
        },
        Err(e) => Err(e),
    }
}

/// The rows that issuance asks the store to insert: each blinded secret with the
/// signature made for it. The caller runs them inside its own transaction.
pub struct InsertBlindSignatures {
    rows: Vec<(PublicKey, BlindSignature)>,
}

impl InsertBlindSignatures {
    /// Each row as (blinded secret, amount, keyset, signature point).
    pub closed spec fn view(&self) -> Seq<SignatureRow> {
        self.rows@.map_values(
            |r: (PublicKey, BlindSignature)| (r.0@, r.1.amount, r.1.keyset_id, r.1.c@),
        )
    }

    pub fn new() -> (r: InsertBlindSignatures)
        ensures
            r@ == Seq::<SignatureRow>::empty(),
    {
        InsertBlindSignatures { rows: Vec::new() }
    }

    pub fn add_row(&mut self, blinded_secret: &PublicKey, signature: &BlindSignature)
        ensures
            final(self)@ == old(self)@.push(
                (blinded_secret@, signature.amount, signature.keyset_id, signature.c@),
            ),
    {
        let sig = BlindSignature {
            amount: signature.amount,
            keyset_id: signature.keyset_id,
            c: signature.c.duplicate(),
        };
        let ghost before = self.rows@;
        self.rows.push((blinded_secret.duplicate(), sig));
        assert(self.rows@.map_values(
            |r: (PublicKey, BlindSignature)| (r.0@, r.1.amount, r.1.keyset_id, r.1.c@),
        ) =~= before.map_values(
            |r: (PublicKey, BlindSignature)| (r.0@, r.1.amount, r.1.keyset_id, r.1.c@),
        ).push((blinded_secret@, signature.amount, signature.keyset_id, signature.c@)));
    }

    pub fn len(&self) -> (r: usize)
        ensures
            r == self@.len(),
    {
        self.rows.len()
    }

    /// Row `i`: the blinded secret and its signature.
    pub fn row(&self, i: usize) -> (r: (&PublicKey, &BlindSignature))
        requires
            i < self@.len(),
        ensures
            (r.0@, r.1.amount, r.1.keyset_id, r.1.c@) == self@[i as int],
    {
        (&self.rows[i].0, &self.rows[i].1)
    }
}

/// Whether the signer's answer holds one compressed curve point per output.
pub open spec fn signer_answer_valid(outs: Seq<BlindedMessage>, sigs: Seq<Vec<u8>>) -> bool {
    sigs.len() == outs.len() && forall|i: int|
        0 <= i < sigs.len() ==> PublicKey::valid_encoding(#[trigger] sigs[i]@)
}

/// Pairs the signer's answer with the outputs it was asked for, position by position,
/// and prepares the rows that record the new signatures.
pub fn process_outputs(outputs: &Vec<BlindedMessage>, signatures: &Vec<Vec<u8>>) -> (r: Result<
    (Vec<BlindSignature>, InsertBlindSignatures),
    Error,
>)
    ensures
        r is Ok == signer_answer_valid(outputs@, signatures@),
        !signer_answer_valid(outputs@, signatures@) ==> r == Err::<
            (Vec<BlindSignature>, InsertBlindSignatures),
            Error,
        >(Error::SignerContractViolation),
        r is Ok ==> ({
            let (sigs, rows) = r.unwrap();
            &&& sigs@.len() == outputs@.len()
            &&& rows@.len() == outputs@.len()
            &&& forall|i: int|
                0 <= i < sigs@.len() ==> (#[trigger] sigs@[i]).amount == outputs@[i].amount
                    && sigs@[i].keyset_id == outputs@[i].keyset_id && sigs@[i].c@ == signatures@[i]@
                    && sigs@[i].c.wf() && rows@[i] == (
                    outputs@[i].blinded_secret@,
                    sigs@[i].amount,
                    sigs@[i].keyset_id,
                    sigs@[i].c@,
                )
        }),
{
    if signatures.len() != outputs.len() {
        return Err(Error::SignerContractViolation);
    }
    let mut rows = InsertBlindSignatures::new();
    let mut sigs: Vec<BlindSignature> = Vec::new();
    let mut i: usize = 0;
    while i < outputs.len()
        invariant
            i <= outputs@.len(),
            signatures@.len() == outputs@.len(),
            sigs@.len() == i,
            rows@.len() == i,
            forall|j: int| 0 <= j < i ==> PublicKey::valid_encoding(#[trigger] signatures@[j]@),
            forall|j: int|
                0 <= j < i ==> (#[trigger] sigs@[j]).amount == outputs@[j].amount
                    && sigs@[j].keyset_id == outputs@[j].keyset_id && sigs@[j].c@ == signatures@[j]@
                    && sigs@[j].c.wf() && rows@[j] == (
                    outputs@[j].blinded_secret@,
                    sigs@[j].amount,
                    sigs@[j].keyset_id,
                    sigs@[j].c@,
                ),
        decreases outputs@.len() - i,
    {
        let c = match PublicKey::from_slice(signatures[i].as_slice()) {
            Some(c) => c,
            None => {
                return Err(Error::SignerContractViolation);
            },
        };
        let sig = BlindSignature { amount: outputs[i].amount, keyset_id: outputs[i].keyset_id, c };
        rows.add_row(&outputs[i].blinded_secret, &sig);
        sigs.push(sig);
        i = i + 1;
    }
    Ok((sigs, rows))
}

} // verus!
