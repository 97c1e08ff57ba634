use cashu_mint::amount::Amount;
use cashu_mint::dhke::hash_to_curve;
use cashu_mint::keys::PublicKey;
use cashu_mint::inputs::{
    check_inputs_allow_multiple_units, check_inputs_allow_single_unit, reject_already_spent,
    Error as InputsError,
};
use cashu_mint::keyset_cache::{KeysetCache, KeysetInfo, Unit};
use cashu_mint::nut00::{CashuError, Error, KeysetId, Proof, ProofsMethods, Secret};

fn hex(s: &str) -> Vec<u8> {
    (0..s.len() / 2)
        .map(|i| u8::from_str_radix(&s[2 * i..2 * i + 2], 16).unwrap())
        .collect()
}

fn make_proof(amount: u64, secret: &[u8]) -> Proof {
    Proof {
        amount: Amount::from_u64(amount),
        keyset_id: KeysetId { value: 1 },
        secret: Secret::new(secret.to_vec()),
        c: hash_to_curve(b"signature").unwrap(),
    }
}

#[test]
fn checked_add_sums() {
    let r = Amount::from_u64(40).checked_add(&Amount::from_u64(2)).unwrap();
    assert_eq!(r.to_u64(), 42);
    assert_eq!(Amount::zero().checked_add(&Amount::from_u64(7)).unwrap().to_u64(), 7);
}

#[test]
fn checked_add_overflow_is_none() {
    assert!(Amount::from_u64(u64::MAX).checked_add(&Amount::from_u64(1)).is_none());
    assert_eq!(
        Amount::from_u64(u64::MAX - 1).checked_add(&Amount::from_u64(1)).unwrap().to_u64(),
        u64::MAX
    );
}

#[test]
fn cashu_error_keeps_code_and_detail() {
    let e = CashuError::new(11001, "Token already spent".to_string());
    assert_eq!(e.code(), 11001);
    assert_eq!(e.detail(), "Token already spent");
}

#[test]
fn hash_to_curve_known_vector() {
    let zero = hex("0000000000000000000000000000000000000000000000000000000000000000");
    assert_eq!(
        hash_to_curve(&zero).unwrap().to_bytes(),
        hex("024cce997d3b518f739663b757deaec95bcd9473c30a14ac2fd04023a739d1a725")
    );
}

#[test]
fn hash_to_curve_is_deterministic() {
    let a = hash_to_curve(b"my secret").unwrap();
    let b = hash_to_curve(b"my secret").unwrap();
    let c = hash_to_curve(b"my other secret").unwrap();
    assert!(a.same_as(&b));
    assert!(!a.same_as(&c));
    assert_eq!(a.to_bytes().len(), 33);
}

#[test]
fn from_slice_rejects_non_points() {
    let mut bad = vec![2u8];
    bad.extend(vec![0xffu8; 32]);
    assert!(PublicKey::from_slice(&bad).is_none());
    assert!(PublicKey::from_slice(&[2u8; 10]).is_none());
    let good = hash_to_curve(b"x").unwrap().to_bytes();
    assert_eq!(PublicKey::from_slice(&good).unwrap().to_bytes(), good);
}

#[test]
fn proof_y_is_hash_of_secret() {
    let p = make_proof(8, b"secret one");
    let y = p.y().unwrap();
    assert!(y.same_as(&hash_to_curve(b"secret one").unwrap()));
    assert!(!y.same_as(&p.c));
}

#[test]
fn total_amount_sums_proofs() {
    let ps = vec![make_proof(1, b"a"), make_proof(2, b"b"), make_proof(4, b"c")];
    assert_eq!(ps.total_amount().unwrap().to_u64(), 7);
    let empty: Vec<Proof> = Vec::new();
    assert_eq!(empty.total_amount().unwrap().to_u64(), 0);
}

#[test]
fn total_amount_overflow() {
    let ps = vec![make_proof(u64::MAX, b"a"), make_proof(1, b"b")];
    assert!(matches!(ps.total_amount(), Err(Error::Overflow)));
}

#[test]
fn ys_in_order() {
    let ps = vec![make_proof(1, b"a"), make_proof(2, b"b")];
    let ys = ps.ys().unwrap();
    assert_eq!(ys.len(), 2);
    assert!(ys[0].same_as(&hash_to_curve(b"a").unwrap()));
    assert!(ys[1].same_as(&hash_to_curve(b"b").unwrap()));
}

fn redemption_cache() -> KeysetCache {
    let mut c = KeysetCache::new();
    c.insert(KeysetInfo { keyset_id: KeysetId { value: 1 }, active: true, unit: Unit { code: 1 } });
    c.insert(KeysetInfo { keyset_id: KeysetId { value: 2 }, active: false, unit: Unit { code: 1 } });
    c.insert(KeysetInfo { keyset_id: KeysetId { value: 3 }, active: true, unit: Unit { code: 2 } });
    c
}

fn proof_in(amount: u64, keyset: u64, secret: &[u8]) -> Proof {
    let mut p = make_proof(amount, secret);
    p.keyset_id = KeysetId { value: keyset };
    p
}

#[test]
fn inputs_total_and_ys() {
    let ps = vec![proof_in(2, 1, b"a"), proof_in(8, 1, b"b")];
    let (total, ys) = check_inputs_allow_single_unit(&redemption_cache(), &ps).unwrap();
    assert_eq!(total.to_u64(), 10);
    assert_eq!(ys.len(), 2);
    assert!(ys[0].same_as(&hash_to_curve(b"a").unwrap()));
    assert!(ys[1].same_as(&hash_to_curve(b"b").unwrap()));
}

#[test]
fn inputs_refusals() {
    let c = redemption_cache();
    let dup = vec![proof_in(2, 1, b"a"), proof_in(8, 1, b"a")];
    assert!(matches!(check_inputs_allow_single_unit(&c, &dup), Err(InputsError::DuplicateInput)));
    let inactive = vec![proof_in(2, 1, b"a"), proof_in(8, 2, b"b")];
    match check_inputs_allow_single_unit(&c, &inactive) {
        Err(InputsError::InactiveKeyset(id)) => assert_eq!(id.value, 2),
        other => panic!("unexpected {:?}", other),
    }
    let units = vec![proof_in(2, 1, b"a"), proof_in(8, 3, b"b")];
    assert!(matches!(check_inputs_allow_single_unit(&c, &units), Err(InputsError::MultipleUnits)));
    let big = vec![proof_in(u64::MAX, 1, b"a"), proof_in(1, 1, b"b")];
    assert!(matches!(check_inputs_allow_single_unit(&c, &big), Err(InputsError::TotalAmountTooBig)));
    let unknown = vec![proof_in(1, 9, b"a")];
    assert!(matches!(check_inputs_allow_single_unit(&c, &unknown), Err(InputsError::UnknownKeyset(_))));
}

#[test]
fn inputs_already_spent() {
    assert!(matches!(reject_already_spent(Ok(1u8), true), Err(InputsError::AlreadySpent)));
    assert!(matches!(reject_already_spent(Ok(1u8), false), Ok(1)));
}

#[test]
fn inputs_grouped_by_unit() {
    let ps = vec![proof_in(1, 1, b"a"), proof_in(2, 3, b"b"), proof_in(3, 1, b"c")];
    let (totals, ys) = check_inputs_allow_multiple_units(&redemption_cache(), &ps).unwrap();
    assert_eq!(totals.len(), 2);
    assert_eq!(totals[0].0, Unit { code: 1 });
    assert_eq!(totals[0].1.to_u64(), 4);
    assert_eq!(totals[1].0, Unit { code: 2 });
    assert_eq!(totals[1].1.to_u64(), 2);
    assert_eq!(ys.len(), 3);
    let dup = vec![proof_in(1, 1, b"a"), proof_in(2, 3, b"a")];
    assert!(matches!(
        check_inputs_allow_multiple_units(&redemption_cache(), &dup),
        Err(InputsError::DuplicateInput)
    ));
}
