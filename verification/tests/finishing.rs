use iota_client::finishing::{
    check_input_count, check_mana_balance, check_mana_rewards, check_provided_outputs, finish_inputs, finish_outputs,
    merge_added, reward_context_indices,
};
use iota_client::ledger::{Address, AddressKind, CommittableAgeRange, Id, InputSigningData, Output, OutputId, OutputKind};
use iota_client::ordered_inputs::OrderedInputs;
use iota_client::remainders::Remainders;
use iota_client::selection::SelectionError;

const RANGE: CommittableAgeRange = CommittableAgeRange { min: 5, max: 15 };
const SLOT: u32 = 100;

fn id(b: u8) -> Id {
    Id::new(vec![b; 32])
}

fn ed(b: u8) -> Address {
    Address::new(AddressKind::Ed25519, id(b))
}

fn oid(b: u8) -> OutputId {
    OutputId { transaction_hash: id(b), slot_index: 1, index: 0 }
}

fn output(kind: OutputKind, chain: Id, amount: u64, address: Address) -> Output {
    Output {
        kind,
        amount,
        mana: 5,
        chain_id: chain,
        address,
        storage_deposit_return: None,
        expiration: None,
        timelock: None,
        native_token: None,
        circulating_supply: None,
        sender: None,
        issuer: None,
        block_issuer: None,
        staking: None,
        foundry_counter: 0,
        serial_number: 0,
        other_features: false,
    }
}

fn basic(amount: u64, to: u8) -> Output {
    output(OutputKind::Basic, Id::new(vec![]), amount, ed(to))
}

fn input(output: Output, b: u8) -> InputSigningData {
    InputSigningData { output, output_id: oid(b), chain: None }
}

fn empty_remainders() -> Remainders {
    Remainders { address: None, data: vec![], storage_deposit_returns: vec![], added_amount: vec![], added_mana: vec![] }
}

#[test]
fn output_counts_are_checked() {
    assert!(check_provided_outputs(1, false, false, false).is_ok());
    assert!(check_provided_outputs(128, false, false, false).is_ok());
    assert!(matches!(check_provided_outputs(129, true, true, true), Err(SelectionError::InvalidOutputCount(129))));
    assert!(matches!(check_provided_outputs(0, false, false, false), Err(SelectionError::InvalidOutputCount(0))));
    assert!(check_provided_outputs(0, true, false, false).is_ok());
    assert!(check_provided_outputs(0, false, false, true).is_ok());
    assert!(check_input_count(128).is_ok());
    assert!(matches!(check_input_count(0), Err(SelectionError::InvalidInputCount(0))));
    assert!(matches!(check_input_count(129), Err(SelectionError::InvalidInputCount(129))));
}

#[test]
fn missing_mana_is_reported_with_the_slots_to_wait() {
    assert!(check_mana_balance(10, 10, 3).is_ok());
    assert!(matches!(
        check_mana_balance(9, 10, 3),
        Err(SelectionError::InsufficientMana { found: 9, required: 10, slots_remaining: 3 })
    ));
}

#[test]
fn excess_amount_and_mana_merge_by_chain() {
    let amounts = vec![(Some(id(7)), 10), (None, 20)];
    let mana = vec![(None, 3), (Some(id(8)), 4)];
    assert_eq!(merge_added(&amounts, &mana), vec![(Some(id(7)), 10, 0), (None, 20, 3), (Some(id(8)), 0, 4)]);
}

#[test]
fn the_excess_goes_to_the_outputs_that_take_it() {
    let added = vec![
        output(OutputKind::Foundry, id(40), 100, Address::new(AddressKind::Account, id(7))),
        output(OutputKind::Account, id(7), 100, ed(1)),
        basic(50, 1),
    ];
    let mut remainders = empty_remainders();
    remainders.added_amount = vec![(Some(id(7)), 10), (None, 20)];
    remainders.added_mana = vec![(Some(id(7)), 1), (None, 2)];
    remainders.storage_deposit_returns = vec![basic(40, 9)];
    let outs = finish_outputs(vec![basic(300, 2)], added, remainders, &ed(1), SLOT, RANGE).unwrap();
    let amounts: Vec<(u64, u64)> = outs.iter().map(|o| (o.amount, o.mana)).collect();
    // The chain's excess goes to the account; the rest to the first output of the address.
    assert_eq!(amounts, vec![(300, 5), (100, 5), (130, 8), (50, 5), (40, 5)]);
}

#[test]
fn too_many_outputs_are_refused() {
    let provided: Vec<Output> = (0..128).map(|_| basic(1, 2)).collect();
    let mut remainders = empty_remainders();
    remainders.storage_deposit_returns = vec![basic(40, 9)];
    assert!(matches!(
        finish_outputs(provided, vec![], remainders, &ed(1), SLOT, RANGE),
        Err(SelectionError::InvalidOutputCount(129))
    ));
}

#[test]
fn mana_rewards_need_a_spending_input() {
    let inputs = vec![input(basic(1, 1), 10), input(basic(1, 1), 11)];
    assert!(check_mana_rewards(&inputs, &vec![(oid(11), 5)]).is_ok());
    match check_mana_rewards(&inputs, &vec![(oid(10), 5), (oid(12), 5)]) {
        Err(SelectionError::ExtraManaRewards(o)) => assert_eq!(o.transaction_hash, id(12)),
        _ => panic!("expected extra mana rewards"),
    }
    assert_eq!(reward_context_indices(&inputs, &vec![oid(11), oid(30)]), vec![1]);
}

#[test]
fn finished_inputs_are_in_signing_order() {
    let mut selected = OrderedInputs::new();
    let nft = input(output(OutputKind::Nft, id(9), 1, ed(1)), 12);
    let owned_by_nft = input(basic(1, 1), 13);
    selected.insert(Address::new(AddressKind::Nft, id(9)), owned_by_nft);
    selected.insert(ed(1), nft);
    let (inputs, positions) = finish_inputs(selected, &vec![], &vec![oid(13)]).unwrap();
    let tags: Vec<u8> = inputs.iter().map(|i| i.output_id.transaction_hash.bytes[0]).collect();
    assert_eq!(tags, vec![12, 13]);
    assert_eq!(positions, vec![1]);
}
