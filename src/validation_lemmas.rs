use crate::amount::{lemma_sum_amounts_monotone, sum_amounts, Amount};
use crate::keyset_cache::KeysetCache;
use crate::nut00::BlindedMessage;
use crate::outputs::{
    amounts_of, duplicated_before, first_of, grouped, multi_unit_errors,
    multi_unit_item_error, single_unit_errors, single_unit_item_error, single_unit_outcome, unit_of,
    Error,
};
use vstd::prelude::*;

verus! {

/// If every item of `s` is fine or fails with `e`, and one fails, the first error is `e`.
pub proof fn lemma_first_of_only(s: Seq<Option<Error>>, e: Error)
    requires
        forall|i: int| 0 <= i < s.len() ==> (#[trigger] s[i]).is_none() || s[i] == Some(e),
        exists|i: int| 0 <= i < s.len() && s[i] == Some(e),
    ensures
        first_of(s) == Some(e),
    decreases s.len(),
{
    if s[0].is_none() {
        let w = choose|i: int| 0 <= i < s.len() && s[i] == Some(e);
        let t = s.subrange(1, s.len() as int);
        assert(t[w - 1] == s[w]);
        assert forall|i: int| 0 <= i < t.len() implies (#[trigger] t[i]).is_none() || t[i] == Some(e) by {
            assert(t[i] == s[i + 1]);
        }
        lemma_first_of_only(t, e);
    }
}

/// Every output names a known, active keyset, and no blinded secret repeats.
pub open spec fn passes_basic_checks(cache: KeysetCache, outs: Seq<BlindedMessage>) -> bool {
    &&& forall|i: int| 0 <= i < outs.len() ==> (#[trigger] cache.spec_get(outs[i].keyset_id)) is Some
        && cache.spec_get(outs[i].keyset_id).unwrap().active
    &&& forall|a: int, b: int|
        #![trigger outs[a], outs[b]]
        0 <= a < b < outs.len() ==> outs[a].blinded_secret@ != outs[b].blinded_secret@
}

/// Every output's keyset has the unit of the first output.
pub open spec fn one_unit(cache: KeysetCache, outs: Seq<BlindedMessage>) -> bool {
    forall|i: int| 0 <= i < outs.len() ==> #[trigger] unit_of(cache, outs[i]) == unit_of(cache, outs[0])
}

proof fn lemma_prefix_sums_fit(outs: Seq<BlindedMessage>)
    requires
        sum_amounts(amounts_of(outs)) <= u64::MAX,
    ensures
        forall|i: int|
            0 <= i < outs.len() ==> #[trigger] sum_amounts(amounts_of(outs).subrange(0, i + 1)) <= u64::MAX,
{
    assert forall|i: int| 0 <= i < outs.len() implies #[trigger] sum_amounts(
        amounts_of(outs).subrange(0, i + 1),
    ) <= u64::MAX by {
        lemma_sum_amounts_monotone(amounts_of(outs), i + 1);
    }
}

/// A single-unit batch that repeats a blinded secret, and is otherwise acceptable,
/// is refused as a duplicate.
pub proof fn lemma_duplicate_refused(cache: KeysetCache, outs: Seq<BlindedMessage>, a: int, b: int)
    requires
        0 <= a < b < outs.len(),
        outs[a].blinded_secret@ == outs[b].blinded_secret@,
        forall|i: int| 0 <= i < outs.len() ==> (#[trigger] cache.spec_get(outs[i].keyset_id)) is Some
            && cache.spec_get(outs[i].keyset_id).unwrap().active,
        one_unit(cache, outs),
        sum_amounts(amounts_of(outs)) <= u64::MAX,
    ensures
        single_unit_outcome(cache, outs) == Err::<Amount, Error>(Error::DuplicateOutput),
{
    let errs = single_unit_errors(cache, outs);
    lemma_prefix_sums_fit(outs);
    assert forall|i: int| 0 <= i < errs.len() implies (#[trigger] errs[i]).is_none() || errs[i] == Some(
        Error::DuplicateOutput,
    ) by {
        assert(cache.spec_get(outs[i].keyset_id) is Some);
        assert(unit_of(cache, outs[i]) == unit_of(cache, outs[0]));
        assert(sum_amounts(amounts_of(outs).subrange(0, i + 1)) <= u64::MAX);
    }
    assert(duplicated_before(outs, b));
    assert(errs[b] == Some(Error::DuplicateOutput));
    lemma_first_of_only(errs, Error::DuplicateOutput);
}

/// A single-unit batch in which the outputs of one keyset meet an inactive keyset,
/// and which is otherwise acceptable, is refused with that keyset, wherever its
/// outputs stand.
pub proof fn lemma_inactive_keyset_refused(
    cache: KeysetCache,
    outs: Seq<BlindedMessage>,
    p: int,
)
    requires
        0 <= p < outs.len(),
        forall|i: int| 0 <= i < outs.len() ==> (#[trigger] cache.spec_get(outs[i].keyset_id)) is Some,
        !cache.spec_get(outs[p].keyset_id).unwrap().active,
        forall|i: int|
            0 <= i < outs.len() && outs[i].keyset_id != outs[p].keyset_id ==> (#[trigger] cache.spec_get(
                outs[i].keyset_id,
            )).unwrap().active,
        forall|a: int, b: int|
            #![trigger outs[a], outs[b]]
            0 <= a < b < outs.len() ==> outs[a].blinded_secret@ != outs[b].blinded_secret@,
        one_unit(cache, outs),
        sum_amounts(amounts_of(outs)) <= u64::MAX,
    ensures
        single_unit_outcome(cache, outs) == Err::<Amount, Error>(Error::InactiveKeyset(outs[p].keyset_id)),
{
    let errs = single_unit_errors(cache, outs);
    let e = Error::InactiveKeyset(outs[p].keyset_id);
    lemma_prefix_sums_fit(outs);
    assert forall|i: int| 0 <= i < errs.len() implies (#[trigger] errs[i]).is_none() || errs[i] == Some(e) by {
        assert(cache.spec_get(outs[i].keyset_id) is Some);
        assert(unit_of(cache, outs[i]) == unit_of(cache, outs[0]));
        assert(sum_amounts(amounts_of(outs).subrange(0, i + 1)) <= u64::MAX);
        if duplicated_before(outs, i) {
            let j = choose|j: int| 0 <= j < i && outs[j].blinded_secret@ == outs[i].blinded_secret@;
            assert(outs[j].blinded_secret@ != outs[i].blinded_secret@);
        }
    }
    if duplicated_before(outs, p) {
        let j = choose|j: int| 0 <= j < p && outs[j].blinded_secret@ == outs[p].blinded_secret@;
        assert(outs[j].blinded_secret@ != outs[p].blinded_secret@);
    }
    assert(errs[p] == Some(e));
    lemma_first_of_only(errs, e);
}

/// A single-unit batch whose keysets span two units, and which is otherwise
/// acceptable, is refused for its units.
pub proof fn lemma_unit_mismatch_refused(cache: KeysetCache, outs: Seq<BlindedMessage>, a: int, b: int)
    requires
        0 <= a < outs.len(),
        0 <= b < outs.len(),
        unit_of(cache, outs[a]) != unit_of(cache, outs[b]),
        passes_basic_checks(cache, outs),
        sum_amounts(amounts_of(outs)) <= u64::MAX,
    ensures
        single_unit_outcome(cache, outs) == Err::<Amount, Error>(Error::MultipleUnits),
{
    let errs = single_unit_errors(cache, outs);
    lemma_prefix_sums_fit(outs);
    assert forall|i: int| 0 <= i < errs.len() implies (#[trigger] errs[i]).is_none() || errs[i] == Some(
        Error::MultipleUnits,
    ) by {
        assert(cache.spec_get(outs[i].keyset_id) is Some);
        assert(sum_amounts(amounts_of(outs).subrange(0, i + 1)) <= u64::MAX);
        if duplicated_before(outs, i) {
            let j = choose|j: int| 0 <= j < i && outs[j].blinded_secret@ == outs[i].blinded_secret@;
            assert(outs[j].blinded_secret@ != outs[i].blinded_secret@);
        }
    }
    let w = if unit_of(cache, outs[a]) != unit_of(cache, outs[0]) { a } else { b };
    assert(errs[w] == Some(Error::MultipleUnits));
    lemma_first_of_only(errs, Error::MultipleUnits);
}

/// A single-unit batch whose amounts sum past the `u64` domain, and which is
/// otherwise acceptable, is refused as too big.
pub proof fn lemma_overflow_refused(cache: KeysetCache, outs: Seq<BlindedMessage>)
    requires
        passes_basic_checks(cache, outs),
        one_unit(cache, outs),
        sum_amounts(amounts_of(outs)) > u64::MAX,
    ensures
        single_unit_outcome(cache, outs) == Err::<Amount, Error>(Error::TotalAmountTooBig),
{
    let errs = single_unit_errors(cache, outs);
    assert forall|i: int| 0 <= i < errs.len() implies (#[trigger] errs[i]).is_none() || errs[i] == Some(
        Error::TotalAmountTooBig,
    ) by {
        assert(cache.spec_get(outs[i].keyset_id) is Some);
        assert(unit_of(cache, outs[i]) == unit_of(cache, outs[0]));
        if duplicated_before(outs, i) {
            let j = choose|j: int| 0 <= j < i && outs[j].blinded_secret@ == outs[i].blinded_secret@;
            assert(outs[j].blinded_secret@ != outs[i].blinded_secret@);
        }
    }
    let last = outs.len() - 1;
    assert(outs.len() > 0);
    assert(amounts_of(outs).subrange(0, last + 1) =~= amounts_of(outs));
    assert(cache.spec_get(outs[last].keyset_id) is Some);
    assert(unit_of(cache, outs[last]) == unit_of(cache, outs[0]));
    if duplicated_before(outs, last) {
        let j = choose|j: int| 0 <= j < last && outs[j].blinded_secret@ == outs[last].blinded_secret@;
        assert(outs[j].blinded_secret@ != outs[last].blinded_secret@);
    }
    assert(errs[last] == Some(Error::TotalAmountTooBig));
    lemma_first_of_only(errs, Error::TotalAmountTooBig);
}

/// Whether two batches agree on every amount, keyset and blinded secret.
pub open spec fn same_requests(a: Seq<BlindedMessage>, b: Seq<BlindedMessage>) -> bool {
    &&& a.len() == b.len()
    &&& forall|i: int|
        0 <= i < a.len() ==> (#[trigger] a[i]).amount == b[i].amount && a[i].keyset_id == b[i].keyset_id
            && a[i].blinded_secret@ == b[i].blinded_secret@
}

/// Single-unit validation looks only at amounts, keysets and blinded secrets.
pub proof fn lemma_single_unit_outcome_by_requests(
    cache: KeysetCache,
    a: Seq<BlindedMessage>,
    b: Seq<BlindedMessage>,
)
    requires
        same_requests(a, b),
    ensures
        single_unit_outcome(cache, a) == single_unit_outcome(cache, b),
{
    assert(amounts_of(a) =~= amounts_of(b));
    assert forall|i: int| 0 <= i < a.len() implies duplicated_before(a, i) == duplicated_before(b, i) by {
        if duplicated_before(a, i) {
            let j = choose|j: int| 0 <= j < i && a[j].blinded_secret@ == a[i].blinded_secret@;
            assert(a[j].blinded_secret@ == b[j].blinded_secret@);
            assert(a[i].blinded_secret@ == b[i].blinded_secret@);
        }
        if duplicated_before(b, i) {
            let j = choose|j: int| 0 <= j < i && b[j].blinded_secret@ == b[i].blinded_secret@;
            assert(a[j].blinded_secret@ == b[j].blinded_secret@);
            assert(a[i].blinded_secret@ == b[i].blinded_secret@);
        }
    }
    assert forall|i: int| 0 <= i < a.len() implies single_unit_item_error(cache, a, i) == single_unit_item_error(
        cache,
        b,
        i,
    ) by {
        assert(a[i].keyset_id == b[i].keyset_id);
        assert(a[0].keyset_id == b[0].keyset_id);
    }
    assert(single_unit_errors(cache, a) =~= single_unit_errors(cache, b));
}

/// The first error of a sequence is one of its items.
pub proof fn lemma_first_of_is_item(s: Seq<Option<Error>>)
    requires
        first_of(s) is Some,
    ensures
        exists|i: int| 0 <= i < s.len() && s[i] == first_of(s),
    decreases s.len(),
{
    if s[0].is_none() {
        let t = s.subrange(1, s.len() as int);
        lemma_first_of_is_item(t);
        let w = choose|i: int| 0 <= i < t.len() && t[i] == first_of(t);
        assert(s[w + 1] == t[w]);
    } else {
        assert(s[0] == first_of(s));
    }
}

/// Single-unit validation fails only on its own checks.
pub proof fn lemma_single_unit_error_kinds(cache: KeysetCache, outs: Seq<BlindedMessage>)
    ensures
        single_unit_outcome(cache, outs) is Err ==> is_validation_error(
            single_unit_outcome(cache, outs)->Err_0,
        ),
{
    let errs = single_unit_errors(cache, outs);
    if first_of(errs) is Some {
        lemma_first_of_is_item(errs);
    }
}

/// The errors that validation of a batch can give.
pub open spec fn is_validation_error(e: Error) -> bool {
    match e {
        Error::DuplicateOutput | Error::InactiveKeyset(_) | Error::MultipleUnits
        | Error::TotalAmountTooBig | Error::UnknownKeyset(_) => true,
        _ => false,
    }
}

/// A sequence with a failing item has a first error.
pub proof fn lemma_first_of_some(s: Seq<Option<Error>>, i: int)
    requires
        0 <= i < s.len(),
        s[i] is Some,
    ensures
        first_of(s) is Some,
    decreases s.len(),
{
    if s[0].is_none() {
        let t = s.subrange(1, s.len() as int);
        assert(t[i - 1] == s[i]);
        lemma_first_of_some(t, i - 1);
    }
}

/// A batch that repeats a blinded secret never validates, in either mode.
pub proof fn lemma_duplicate_never_validates(cache: KeysetCache, outs: Seq<BlindedMessage>, a: int, b: int)
    requires
        0 <= a < b < outs.len(),
        outs[a].blinded_secret@ == outs[b].blinded_secret@,
    ensures
        single_unit_outcome(cache, outs) is Err,
        first_of(multi_unit_errors(cache, outs)) is Some,
{
    assert(duplicated_before(outs, b));
    assert(single_unit_errors(cache, outs)[b] is Some);
    assert(multi_unit_errors(cache, outs)[b] is Some);
    lemma_first_of_some(single_unit_errors(cache, outs), b);
    lemma_first_of_some(multi_unit_errors(cache, outs), b);
}

/// A batch with an output of a known, inactive keyset never validates, in either
/// mode, wherever that output stands.
pub proof fn lemma_inactive_never_validates(cache: KeysetCache, outs: Seq<BlindedMessage>, p: int)
    requires
        0 <= p < outs.len(),
        cache.spec_get(outs[p].keyset_id) is Some,
        !cache.spec_get(outs[p].keyset_id).unwrap().active,
    ensures
        single_unit_outcome(cache, outs) is Err,
        first_of(multi_unit_errors(cache, outs)) is Some,
{
    assert(single_unit_errors(cache, outs)[p] is Some);
    assert(multi_unit_errors(cache, outs)[p] is Some);
    lemma_first_of_some(single_unit_errors(cache, outs), p);
    lemma_first_of_some(multi_unit_errors(cache, outs), p);
}

/// Multi-unit grouping looks only at amounts and keysets.
proof fn lemma_grouped_by_requests(cache: KeysetCache, a: Seq<BlindedMessage>, b: Seq<BlindedMessage>, n: int)
    requires
        same_requests(a, b),
        n <= a.len(),
    ensures
        grouped(cache, a, n) == grouped(cache, b, n),
    decreases n,
{
    if n > 0 {
        lemma_grouped_by_requests(cache, a, b, n - 1);
        assert(a[n - 1].keyset_id == b[n - 1].keyset_id);
    }
}

/// Multi-unit validation looks only at amounts, keysets and blinded secrets.
pub proof fn lemma_multi_unit_outcome_by_requests(cache: KeysetCache, a: Seq<BlindedMessage>, b: Seq<BlindedMessage>)
    requires
        same_requests(a, b),
    ensures
        multi_unit_errors(cache, a) == multi_unit_errors(cache, b),
        grouped(cache, a, a.len() as int) == grouped(cache, b, b.len() as int),
{
    assert forall|i: int| 0 <= i < a.len() implies duplicated_before(a, i) == duplicated_before(b, i) by {
        if duplicated_before(a, i) {
            let j = choose|j: int| 0 <= j < i && a[j].blinded_secret@ == a[i].blinded_secret@;
            assert(a[j].blinded_secret@ == b[j].blinded_secret@);
            assert(a[i].blinded_secret@ == b[i].blinded_secret@);
        }
        if duplicated_before(b, i) {
            let j = choose|j: int| 0 <= j < i && b[j].blinded_secret@ == b[i].blinded_secret@;
            assert(a[j].blinded_secret@ == b[j].blinded_secret@);
            assert(a[i].blinded_secret@ == b[i].blinded_secret@);
        }
    }
    assert forall|i: int| 0 <= i < a.len() implies multi_unit_item_error(cache, a, i) == multi_unit_item_error(
        cache,
        b,
        i,
    ) by {
        assert(a[i].keyset_id == b[i].keyset_id);
        lemma_grouped_by_requests(cache, a, b, i);
    }
    assert(multi_unit_errors(cache, a) =~= multi_unit_errors(cache, b));
    lemma_grouped_by_requests(cache, a, b, a.len() as int);
}

/// Multi-unit validation fails only on its own checks.
pub proof fn lemma_multi_unit_error_kinds(cache: KeysetCache, outs: Seq<BlindedMessage>)
    ensures
        first_of(multi_unit_errors(cache, outs)) is Some ==> is_validation_error(
            first_of(multi_unit_errors(cache, outs)).unwrap(),
        ),
{
    let errs = multi_unit_errors(cache, outs);
    if first_of(errs) is Some {
        lemma_first_of_is_item(errs);
    }
}

} // verus!
