use crate::amount::Amount;
use crate::nut00::{BlindedMessage, KeysetId};
use vstd::prelude::*;

verus! {

/// A row of the signature table: blinded secret, amount, keyset, signature point.
pub type SignatureRow = (Seq<u8>, Amount, KeysetId, Seq<u8>);

/// The blinded secrets that a batch of rows records.
pub open spec fn secrets_of_rows(rows: Seq<SignatureRow>) -> Set<Seq<u8>> {
    Set::new(|s: Seq<u8>| exists|i: int| 0 <= i < rows.len() && rows[i].0 == s)
}

/// The store's answer to "was any of these outputs signed already", given the set of
/// blinded secrets it holds.
pub open spec fn any_already_signed(signed: Set<Seq<u8>>, outs: Seq<BlindedMessage>) -> bool {
    exists|i: int| 0 <= i < outs.len() && signed.contains(outs[i].blinded_secret@)
}

/// Committing rows under the store's uniqueness constraint on blinded secrets: the
/// new set of signed secrets, or `None` where the commit is refused.
pub open spec fn commit_rows(signed: Set<Seq<u8>>, rows: Seq<SignatureRow>) -> Option<Set<Seq<u8>>> {
    if (exists|i: int| 0 <= i < rows.len() && signed.contains(rows[i].0)) || (exists|i: int, j: int|
        0 <= i < j < rows.len() && rows[i].0 == rows[j].0) {
        None
    } else {
        Some(signed.union(secrets_of_rows(rows)))
    }
}

/// Once a batch's rows are committed, the store reports as signed every later batch
/// that shares a blinded secret with it, so that batch is refused as already signed.
pub proof fn lemma_resubmission_refused(
    signed: Set<Seq<u8>>,
    rows: Seq<SignatureRow>,
    later: Seq<BlindedMessage>,
    i: int,
    j: int,
)
    requires
        commit_rows(signed, rows) is Some,
        0 <= i < later.len(),
        0 <= j < rows.len(),
        later[i].blinded_secret@ == rows[j].0,
    ensures
        any_already_signed(commit_rows(signed, rows).unwrap(), later),
{
    assert(secrets_of_rows(rows).contains(rows[j].0));
    assert(commit_rows(signed, rows).unwrap().contains(later[i].blinded_secret@));
}

/// Of two batches of rows that share a blinded secret, committed one after the other
/// against the same store, the second is refused, whichever goes first.
pub proof fn lemma_overlapping_commits_exclusive(
    signed: Set<Seq<u8>>,
    first: Seq<SignatureRow>,
    second: Seq<SignatureRow>,
    i: int,
    j: int,
)
    requires
        0 <= i < first.len(),
        0 <= j < second.len(),
        first[i].0 == second[j].0,
    ensures
        commit_rows(signed, first) is Some ==> commit_rows(commit_rows(signed, first).unwrap(), second) is None,
        commit_rows(signed, second) is Some ==> commit_rows(commit_rows(signed, second).unwrap(), first) is None,
{
    assert(secrets_of_rows(first).contains(first[i].0));
    assert(secrets_of_rows(second).contains(second[j].0));
    if commit_rows(signed, first) is Some {
        assert(commit_rows(signed, first).unwrap().contains(second[j].0));
    }
    if commit_rows(signed, second) is Some {
        assert(commit_rows(signed, second).unwrap().contains(first[i].0));
    }
}

/// Marking identities `Y` as spent under the store's uniqueness constraint: the new
/// set of spent identities, or `None` where the commit is refused.
pub open spec fn commit_spent(spent: Set<Seq<u8>>, ys: Seq<Seq<u8>>) -> Option<Set<Seq<u8>>> {
    if (exists|i: int| 0 <= i < ys.len() && spent.contains(ys[i])) || (exists|i: int, j: int|
        0 <= i < j < ys.len() && ys[i] == ys[j]) {
        None
    } else {
        Some(spent.union(ys.to_set()))
    }
}

/// A token identity is accepted as spent at most once: of two batches that share an
/// identity, committed one after the other, the second is refused.
pub proof fn lemma_spent_at_most_once(spent: Set<Seq<u8>>, first: Seq<Seq<u8>>, second: Seq<Seq<u8>>, i: int, j: int)
    requires
        0 <= i < first.len(),
        0 <= j < second.len(),
        first[i] == second[j],
    ensures
        commit_spent(spent, first) is Some ==> commit_spent(commit_spent(spent, first).unwrap(), second) is None,
{
    if commit_spent(spent, first) is Some {
        assert(first.to_set().contains(first[i]));
        assert(commit_spent(spent, first).unwrap().contains(second[j]));
    }
}

} // verus!
