use cashu_mint::amount::Amount;
use cashu_mint::dhke::hash_to_curve;
use cashu_mint::keyset_cache::{KeysetCache, KeysetInfo, Unit};
use cashu_mint::nut00::{BlindedMessage, KeysetId};
use cashu_mint::outputs::{
    check_outputs_allow_multiple_units, check_outputs_allow_single_unit, process_outputs,
    reject_already_signed, Error,
};

const UNIT_A: Unit = Unit { code: 1 };
const UNIT_B: Unit = Unit { code: 2 };

fn cache() -> KeysetCache {
    let mut c = KeysetCache::new();
    c.insert(KeysetInfo { keyset_id: KeysetId { value: 10 }, active: true, unit: UNIT_A });
    c.insert(KeysetInfo { keyset_id: KeysetId { value: 20 }, active: true, unit: UNIT_B });
    c.insert(KeysetInfo { keyset_id: KeysetId { value: 11 }, active: false, unit: UNIT_A });
    c.insert(KeysetInfo { keyset_id: KeysetId { value: 12 }, active: true, unit: UNIT_A });
    c
}

fn out(amount: u64, keyset: u64, tag: &str) -> BlindedMessage {
    BlindedMessage {
        amount: Amount::from_u64(amount),
        keyset_id: KeysetId { value: keyset },
        blinded_secret: hash_to_curve(tag.as_bytes()).unwrap(),
    }
}

#[test]
fn keyset_cache_miss_then_hit() {
    let mut c = KeysetCache::new();
    assert!(c.get_keyset_info(KeysetId { value: 5 }).is_none());
    c.insert(KeysetInfo { keyset_id: KeysetId { value: 5 }, active: true, unit: UNIT_A });
    let info = c.get_keyset_info(KeysetId { value: 5 }).unwrap();
    assert!(info.active());
    assert_eq!(info.unit(), UNIT_A);
    c.insert(KeysetInfo { keyset_id: KeysetId { value: 5 }, active: false, unit: UNIT_A });
    assert!(!c.get_keyset_info(KeysetId { value: 5 }).unwrap().active());
    assert!(c.get_keyset_info(KeysetId { value: 6 }).is_none());
}

#[test]
fn single_unit_total() {
    let outs = vec![out(1, 10, "a"), out(2, 12, "b"), out(4, 10, "c")];
    assert_eq!(check_outputs_allow_single_unit(&cache(), &outs).unwrap().to_u64(), 7);
    assert_eq!(check_outputs_allow_single_unit(&cache(), &vec![]).unwrap().to_u64(), 0);
}

#[test]
fn single_unit_duplicate() {
    let outs = vec![out(1, 10, "a"), out(2, 10, "b"), out(4, 10, "a")];
    assert!(matches!(check_outputs_allow_single_unit(&cache(), &outs), Err(Error::DuplicateOutput)));
    assert!(matches!(
        check_outputs_allow_multiple_units(&cache(), &outs),
        Err(Error::DuplicateOutput)
    ));
}

#[test]
fn single_unit_inactive_anywhere() {
    for pos in 0..3 {
        let mut outs = vec![out(1, 10, "a"), out(2, 10, "b")];
        outs.insert(pos, out(4, 11, "c"));
        match check_outputs_allow_single_unit(&cache(), &outs) {
            Err(Error::InactiveKeyset(id)) => assert_eq!(id.value, 11),
            other => panic!("unexpected {:?}", other),
        }
        match check_outputs_allow_multiple_units(&cache(), &outs) {
            Err(Error::InactiveKeyset(id)) => assert_eq!(id.value, 11),
            other => panic!("unexpected {:?}", other),
        }
    }
}

#[test]
fn single_unit_rejects_two_units() {
    let outs = vec![out(1, 10, "a"), out(2, 20, "b")];
    assert!(matches!(check_outputs_allow_single_unit(&cache(), &outs), Err(Error::MultipleUnits)));
}

#[test]
fn single_unit_overflow() {
    let outs = vec![out(u64::MAX, 10, "a"), out(1, 10, "b")];
    assert!(matches!(
        check_outputs_allow_single_unit(&cache(), &outs),
        Err(Error::TotalAmountTooBig)
    ));
}

#[test]
fn unknown_keyset_is_reported() {
    let outs = vec![out(1, 10, "a"), out(2, 99, "b")];
    match check_outputs_allow_single_unit(&cache(), &outs) {
        Err(Error::UnknownKeyset(id)) => assert_eq!(id.value, 99),
        other => panic!("unexpected {:?}", other),
    }
}

#[test]
fn multiple_units_grouped_in_first_seen_order() {
    let outs = vec![out(1, 10, "a"), out(2, 20, "b"), out(3, 12, "c")];
    let totals = check_outputs_allow_multiple_units(&cache(), &outs).unwrap();
    assert_eq!(totals.len(), 2);
    assert_eq!(totals[0].0, UNIT_A);
    assert_eq!(totals[0].1.to_u64(), 4);
    assert_eq!(totals[1].0, UNIT_B);
    assert_eq!(totals[1].1.to_u64(), 2);
}

#[test]
fn multiple_units_overflow_is_per_unit() {
    let outs = vec![out(u64::MAX, 10, "a"), out(1, 20, "b")];
    let totals = check_outputs_allow_multiple_units(&cache(), &outs).unwrap();
    assert_eq!(totals[0].1.to_u64(), u64::MAX);
    assert_eq!(totals[1].1.to_u64(), 1);
    let outs = vec![out(u64::MAX, 10, "a"), out(1, 20, "b"), out(1, 12, "c")];
    assert!(matches!(
        check_outputs_allow_multiple_units(&cache(), &outs),
        Err(Error::TotalAmountTooBig)
    ));
}

#[test]
fn already_signed_is_refused() {
    assert!(matches!(reject_already_signed(Ok(5u8), true), Err(Error::AlreadySigned)));
    assert!(matches!(reject_already_signed(Ok(5u8), false), Ok(5)));
    assert!(matches!(
        reject_already_signed::<u8>(Err(Error::MultipleUnits), true),
        Err(Error::MultipleUnits)
    ));
}

#[test]
fn process_outputs_pairs_by_position() {
    let outs = vec![out(1, 10, "a"), out(8, 20, "b"), out(2, 12, "c")];
    let answer: Vec<Vec<u8>> = ["s1", "s2", "s3"]
        .iter()
        .map(|s| hash_to_curve(s.as_bytes()).unwrap().to_bytes())
        .collect();
    let (sigs, rows) = process_outputs(&outs, &answer).unwrap();
    assert_eq!(sigs.len(), 3);
    assert_eq!(rows.len(), 3);
    for i in 0..3 {
        assert_eq!(sigs[i].amount, outs[i].amount);
        assert_eq!(sigs[i].keyset_id, outs[i].keyset_id);
        assert_eq!(sigs[i].c.to_bytes(), answer[i]);
        let (secret, sig) = rows.row(i);
        assert!(secret.same_as(&outs[i].blinded_secret));
        assert_eq!(sig.c.to_bytes(), answer[i]);
    }
}

#[test]
fn process_outputs_refuses_bad_answers() {
    let outs = vec![out(1, 10, "a"), out(8, 20, "b")];
    let one = vec![hash_to_curve(b"s1").unwrap().to_bytes()];
    assert!(matches!(process_outputs(&outs, &one), Err(Error::SignerContractViolation)));
    let mut bad = vec![3u8];
    bad.extend(vec![0xffu8; 32]);
    let answer = vec![hash_to_curve(b"s1").unwrap().to_bytes(), bad];
    assert!(matches!(process_outputs(&outs, &answer), Err(Error::SignerContractViolation)));
}
