use iota_client::amount_requirement::{fulfill_amount_requirement, sort_by_amount};
use iota_client::ledger::{
    Address, AddressKind, CommittableAgeRange, Id, InputSigningData, Output, OutputId, OutputKind,
};
use iota_client::requirement::Requirement;
use iota_client::selection::SelectionError;

const RANGE: CommittableAgeRange = CommittableAgeRange { min: 5, max: 15 };

fn id(b: u8) -> Id {
    Id::new(vec![b; 32])
}

fn output(kind: OutputKind, chain: u8, amount: u64, owner: Address) -> Output {
    Output {
        kind,
        amount,
        mana: 0,
        chain_id: if kind == OutputKind::Basic { Id::new(vec![]) } else { id(chain) },
        address: owner,
        storage_deposit_return: None,
        expiration: None,
        timelock: None,
        native_token: None,
        circulating_supply: None,
        sender: None,
        issuer: None,
        block_issuer: None,
        staking: None,
        foundry_counter: 0,
        serial_number: 0,
        other_features: false,
    }
}

fn ed(b: u8) -> Address {
    Address::new(AddressKind::Ed25519, id(b))
}

fn basic(amount: u64) -> Output {
    output(OutputKind::Basic, 0, amount, ed(1))
}

fn input(output: Output, b: u8) -> InputSigningData {
    InputSigningData { output, output_id: OutputId { transaction_hash: id(b), slot_index: 1, index: 0 }, chain: None }
}

fn ids(v: &Vec<InputSigningData>) -> Vec<u8> {
    v.iter().map(|i| i.output_id.transaction_hash.bytes[0]).collect()
}

#[test]
fn sorting_by_amount_is_stable() {
    let mut v = vec![input(basic(50), 1), input(basic(10), 2), input(basic(50), 3), input(basic(20), 4)];
    sort_by_amount(&mut v, false);
    assert_eq!(ids(&v), vec![2, 4, 1, 3]);
    sort_by_amount(&mut v, true);
    assert_eq!(ids(&v), vec![1, 3, 4, 2]);
}

#[test]
fn amount_is_covered_from_low_to_high() {
    let mut outputs = vec![basic(150)];
    let mut available = vec![input(basic(100), 1), input(basic(30), 2), input(basic(50), 3), input(basic(500), 4)];
    let mut requirements = vec![];
    let r = fulfill_amount_requirement(&vec![], &mut outputs, &mut available, &mut requirements, &vec![], &vec![0], 10, RANGE, 0, false, true)
        .unwrap();
    assert_eq!(ids(&r), vec![2, 3, 1]);
    assert_eq!(ids(&available), vec![4]);
    assert!(requirements.is_empty());
}

#[test]
fn nothing_missing_selects_nothing() {
    let mut outputs = vec![basic(150)];
    let mut available = vec![input(basic(100), 1), input(basic(30), 2)];
    let mut requirements = vec![];
    let selected = vec![input(basic(200), 9)];
    let r = fulfill_amount_requirement(&selected, &mut outputs, &mut available, &mut requirements, &vec![], &vec![0], 10, RANGE, 0, false, true)
        .unwrap();
    assert!(r.is_empty());
    // The available inputs are left as they were.
    assert_eq!(ids(&available), vec![1, 2]);
}

#[test]
fn remainder_that_cannot_be_covered_is_an_error() {
    let mut outputs = vec![basic(150)];
    let mut available = vec![input(basic(100), 1), input(basic(30), 2), input(basic(50), 3)];
    let mut requirements = vec![];
    let r = fulfill_amount_requirement(&vec![], &mut outputs, &mut available, &mut requirements, &vec![], &vec![0], 10, RANGE, 40, false, true);
    assert!(matches!(r, Err(SelectionError::InsufficientAmount { found: 180, required: 190 })));
    assert_eq!(ids(&available), vec![2, 3, 1]);
}

#[test]
fn other_kinds_ask_for_another_round() {
    let mut outputs = vec![basic(150)];
    let mut available = vec![input(output(OutputKind::Nft, 7, 200, ed(1)), 1), input(basic(100), 2)];
    let mut requirements = vec![];
    let r = fulfill_amount_requirement(&vec![], &mut outputs, &mut available, &mut requirements, &vec![], &vec![0], 10, RANGE, 0, false, true)
        .unwrap();
    assert_eq!(ids(&r), vec![2, 1]);
    assert!(available.is_empty());
    assert!(matches!(requirements.as_slice(), [Requirement::Amount]));
}

#[test]
fn plain_ed25519_inputs_come_first() {
    let mut outputs = vec![basic(100)];
    let account_owned = output(OutputKind::Basic, 0, 60, Address::new(AddressKind::Account, id(3)));
    let mut available = vec![input(account_owned, 1), input(basic(80), 2), input(basic(70), 3)];
    let mut requirements = vec![];
    let r = fulfill_amount_requirement(&vec![], &mut outputs, &mut available, &mut requirements, &vec![], &vec![0], 10, RANGE, 0, false, true)
        .unwrap();
    assert_eq!(ids(&r), vec![3, 2]);
    assert_eq!(ids(&available), vec![1]);
}

#[test]
fn transitioned_chains_cover_the_rest() {
    let mut outputs = vec![output(OutputKind::Nft, 7, 500, ed(1)), basic(100)];
    let mut available = vec![input(basic(550), 1)];
    let mut requirements = vec![];
    let r = fulfill_amount_requirement(&vec![], &mut outputs, &mut available, &mut requirements, &vec![id(7)], &vec![50, 0], 10, RANGE, 0, false, true)
        .unwrap();
    assert_eq!(ids(&r), vec![1]);
    assert_eq!(outputs[0].amount, 450);
    assert!(available.is_empty());
}

#[test]
fn disabled_selection_asks_for_inputs_with_amount() {
    let mut outputs = vec![basic(150)];
    let mut available = vec![input(basic(100), 1), input(basic(500), 4)];
    let mut requirements = vec![];
    let r = fulfill_amount_requirement(&vec![], &mut outputs, &mut available, &mut requirements, &vec![], &vec![0], 10, RANGE, 0, false, false);
    assert!(matches!(r, Err(SelectionError::AdditionalInputsRequired(Requirement::Amount))));
    assert_eq!(ids(&available), vec![1, 4]);
    // Covered already: nothing more is needed.
    let selected = vec![input(basic(200), 9)];
    let r = fulfill_amount_requirement(&selected, &mut outputs, &mut available, &mut requirements, &vec![], &vec![0], 10, RANGE, 0, false, false)
        .unwrap();
    assert!(r.is_empty());
}
