use daopay::settlement::{
    callback_allowed, decode_payouts, has_gas_for, is_decline, payouts_from_entries, DAOpay,
    PromiseOutcome, TransferReply, ValueReturnTrait, GAS_FOR_DAO_TRANSFER, NO_DEPOSIT,
};

fn contract() -> DAOpay {
    DAOpay::new("dao.near".to_string())
}

#[test]
fn only_the_issuer_is_trusted() {
    let c = contract();
    assert!(c.is_trusted(&"dao.near".to_string()));
    assert!(!c.is_trusted(&"mallory.near".to_string()));
    assert!(!c.is_trusted(&"".to_string()));
}

#[test]
fn decline_answers_zero_at_once() {
    let mut c = contract();
    assert!(is_decline(&"take-my-money".to_string()));
    assert!(has_gas_for(&"take-my-money".to_string(), 0));
    let r = c.pay_on_transfer(
        &"dao.near".to_string(),
        "alice.near".to_string(),
        500,
        "take-my-money".to_string(),
        300_000_000_000_000,
    );
    assert!(matches!(r, TransferReply::Value(0)));
}

#[test]
fn other_instruction_is_deferred_unchanged() {
    let mut c = contract();
    assert!(!is_decline(&"42".to_string()));
    let r = c.pay_on_transfer(
        &"dao.near".to_string(),
        "alice.near".to_string(),
        500,
        "42".to_string(),
        300_000_000_000_000,
    );
    match r {
        TransferReply::Deferred(q) => {
            assert_eq!(q.amount_to_return, "42");
            assert_eq!(q.gas, 300_000_000_000_000 - GAS_FOR_DAO_TRANSFER);
            assert_eq!(q.gas, 290_000_000_000_000);
            assert_eq!(q.deposit, NO_DEPOSIT);
        }
        _ => panic!("expected a deferred request"),
    }
}

#[test]
fn deferred_request_needs_gas() {
    assert!(!has_gas_for(&"7".to_string(), GAS_FOR_DAO_TRANSFER - 1));
    assert!(has_gas_for(&"7".to_string(), GAS_FOR_DAO_TRANSFER));
    let mut c = contract();
    let r = c.pay_on_transfer(&"dao.near".to_string(), "a".to_string(), 1, "7".to_string(), GAS_FOR_DAO_TRANSFER);
    assert!(matches!(r, TransferReply::Deferred(q) if q.gas == 0));
}

#[test]
fn callback_only_from_the_contract_itself() {
    assert!(callback_allowed(&"pay.near".to_string(), &"pay.near".to_string()));
    assert!(!callback_allowed(&"dao.near".to_string(), &"pay.near".to_string()));
}

#[test]
fn value_please_reads_the_amount() {
    let c = contract();
    assert_eq!(c.value_please("42".to_string()), 42);
    assert_eq!(c.value_please("0".to_string()), 0);
    assert_eq!(c.value_please("340282366920938463463374607431768211455".to_string()), u128::MAX);
}

#[test]
fn payout_of_three_entries() {
    let mut c = contract();
    let bytes = br#"{"A":"10","B":"20","C":"30"}"#.to_vec();
    let mut ts = c.make_payouts(PromiseOutcome::Successful(bytes));
    ts.sort_by(|x, y| x.receiver_id.cmp(&y.receiver_id));
    let got: Vec<(String, u128)> = ts.into_iter().map(|t| (t.receiver_id, t.amount)).collect();
    assert_eq!(
        got,
        vec![("A".to_string(), 10), ("B".to_string(), 20), ("C".to_string(), 30)]
    );
}

#[test]
fn payout_of_empty_mapping() {
    let mut c = contract();
    let ts = c.make_payouts(PromiseOutcome::Successful(b"{}".to_vec()));
    assert!(ts.is_empty());
}

#[test]
fn payout_faults() {
    let mut c = contract();
    assert!(c.try_make_payouts(PromiseOutcome::NotReady).is_none());
    assert!(c.try_make_payouts(PromiseOutcome::Failed).is_none());
    assert!(c.try_make_payouts(PromiseOutcome::Successful(b"not json".to_vec())).is_none());
    assert!(c.try_make_payouts(PromiseOutcome::Successful(br#"{"A":10}"#.to_vec())).is_none());
    assert!(c.try_make_payouts(PromiseOutcome::Successful(br#"{"A":"ten"}"#.to_vec())).is_none());
    assert!(decode_payouts(br#"{"A":"-1"}"#).is_none());
    let ts = c.try_make_payouts(PromiseOutcome::Successful(br#"{"A":"5"}"#.to_vec())).unwrap();
    assert_eq!(ts.len(), 1);
    assert_eq!((ts[0].receiver_id.as_str(), ts[0].amount), ("A", 5));
}

#[test]
fn entries_become_transfers_in_order() {
    let ts = payouts_from_entries(vec![
        ("b".to_string(), "5".to_string()),
        ("a".to_string(), "+7".to_string()),
    ])
    .unwrap();
    assert_eq!(ts.len(), 2);
    assert_eq!((ts[0].receiver_id.as_str(), ts[0].amount), ("b", 5));
    assert_eq!((ts[1].receiver_id.as_str(), ts[1].amount), ("a", 7));
    assert!(payouts_from_entries(vec![("a".to_string(), "x".to_string())]).is_none());
}
