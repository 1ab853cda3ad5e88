use iota_client::allotment::{
    fulfill_allotment_requirement, raise_issuer_allotment, reduce_account_output, required_allotment_mana,
};
use iota_client::ledger::{Address, AddressKind, Id, Output, OutputKind};

fn id(b: u8) -> Id {
    Id::new(vec![b; 32])
}

fn account(chain: u8, mana: u64) -> Output {
    Output {
        kind: OutputKind::Account,
        amount: 100,
        mana,
        chain_id: id(chain),
        address: Address::new(AddressKind::Ed25519, id(1)),
        storage_deposit_return: None,
        expiration: None,
        timelock: None,
        native_token: None,
        circulating_supply: None,
        sender: None,
        issuer: None,
        block_issuer: None,
        staking: None,
        foundry_counter: 0,
        serial_number: 0,
        other_features: false,
    }
}

#[test]
fn the_required_allotment_is_the_work_score_at_the_reference_cost() {
    assert_eq!(required_allotment_mana(12, 500), 6000);
}

#[test]
fn a_raised_allotment_adds_to_the_debt() {
    let mut allotments = vec![(id(3), 10), (id(7), 40)];
    let mut debt = 5;
    raise_issuer_allotment(&mut allotments, &id(7), &mut debt, 100);
    assert_eq!(allotments, vec![(id(3), 10), (id(7), 100)]);
    assert_eq!(debt, 65);

    let mut debt = 5;
    raise_issuer_allotment(&mut allotments, &id(7), &mut debt, 80);
    assert_eq!(allotments, vec![(id(3), 10), (id(7), 100)]);
    assert_eq!(debt, 100);

    let mut fresh = vec![(id(3), 10)];
    let mut debt = 0;
    raise_issuer_allotment(&mut fresh, &id(9), &mut debt, 30);
    assert_eq!(fresh, vec![(id(3), 10), (id(9), 30)]);
    assert_eq!(debt, 30);
}

#[test]
fn the_issuer_account_pays_the_debt_from_its_mana() {
    let mut outputs = vec![account(7, 0), account(8, 50), account(7, 30), account(7, 90)];
    let mut debt = 45;
    reduce_account_output(&mut outputs, &id(7), &mut debt);
    let mana: Vec<u64> = outputs.iter().map(|o| o.mana).collect();
    assert_eq!(mana, vec![0, 50, 0, 90]);
    assert_eq!(debt, 15);

    let mut debt = 20;
    reduce_account_output(&mut outputs, &id(7), &mut debt);
    let mana: Vec<u64> = outputs.iter().map(|o| o.mana).collect();
    assert_eq!(mana, vec![0, 50, 0, 70]);
    assert_eq!(debt, 0);

    let mut debt = 20;
    reduce_account_output(&mut outputs, &id(5), &mut debt);
    assert_eq!(debt, 20);
}

#[test]
fn the_minimum_allotment_is_raised_and_paid_by_the_issuer_account() {
    let mut allotments = vec![(id(7), 10)];
    let mut outputs = vec![account(8, 50), account(7, 1000)];
    let mut debt = 0;
    // A work score of 4 at 100 per unit asks for 400: 390 more than allotted.
    fulfill_allotment_requirement(&mut allotments, &mut outputs, &id(7), &mut debt, 4, 100);
    assert_eq!(allotments, vec![(id(7), 400)]);
    assert_eq!(outputs[1].mana, 610);
    assert_eq!(outputs[0].mana, 50);
    assert_eq!(debt, 0);
}
