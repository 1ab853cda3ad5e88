use iota_client::burn::Burn;
use iota_client::ledger::{
    Address, AddressKind, CommittableAgeRange, Id, InputSigningData, NativeToken, Output, OutputId, OutputKind,
    StorageDepositReturn,
};
use iota_client::remainders::{required_remainder_amount, update_remainders, ManaFigures};
use iota_client::selection::SelectionError;
use iota_client::token_amount::TokenAmount;

const RANGE: CommittableAgeRange = CommittableAgeRange { min: 5, max: 15 };
const SLOT: u32 = 100;

fn id(b: u8) -> Id {
    Id::new(vec![b; 32])
}

fn ed(b: u8) -> Address {
    Address::new(AddressKind::Ed25519, id(b))
}

fn output(kind: OutputKind, chain: Id, amount: u64, address: Address) -> Output {
    Output {
        kind,
        amount,
        mana: 0,
        chain_id: chain,
        address,
        storage_deposit_return: None,
        expiration: None,
        timelock: None,
        native_token: None,
        circulating_supply: None,
        sender: None,
        issuer: None,
        block_issuer: None,
        staking: None,
        foundry_counter: 0,
        serial_number: 0,
        other_features: false,
    }
}

fn basic(amount: u64, to: u8) -> Output {
    output(OutputKind::Basic, Id::new(vec![]), amount, ed(to))
}

fn with_token(mut o: Output, t: u8, a: u64) -> Output {
    o.native_token = Some(NativeToken { token_id: id(t), amount: TokenAmount::from(a) });
    o
}

fn input(output: Output, b: u8) -> InputSigningData {
    InputSigningData { output, output_id: OutputId { transaction_hash: id(b), slot_index: 1, index: 0 }, chain: None }
}

fn no_mana() -> ManaFigures {
    ManaFigures { input_mana: 0, output_mana: 0, initial_excess: 0, chains: vec![] }
}

#[test]
fn the_excess_amount_goes_to_a_catch_all_remainder() {
    let selected = vec![input(basic(1000, 1), 10)];
    let r = update_remainders(&selected, &vec![basic(600, 2)], &vec![], &vec![], &None, &None, SLOT, RANGE, &no_mana(), 100, 100)
        .unwrap();
    assert_eq!(r.data.len(), 1);
    assert_eq!(r.data[0].output.amount, 400);
    assert_eq!(r.data[0].address.id, id(1));
    assert!(r.storage_deposit_returns.is_empty());
    assert!(r.added_amount.is_empty() && r.added_mana.is_empty());
}

#[test]
fn a_catch_all_below_its_storage_deposit_is_refused() {
    let selected = vec![input(basic(1000, 1), 10)];
    let r = update_remainders(&selected, &vec![basic(600, 2)], &vec![], &vec![], &None, &None, SLOT, RANGE, &no_mana(), 100, 500);
    assert!(matches!(r, Err(SelectionError::InsufficientStorageDepositAmount { amount: 400, required: 500 })));
}

#[test]
fn the_excess_goes_to_transitioned_chains_first() {
    let selected = vec![
        input(output(OutputKind::Account, id(7), 300, ed(1)), 10),
        input(basic(1000, 1), 11),
    ];
    let added = vec![output(OutputKind::Account, id(7), 100, ed(1))];
    let r = update_remainders(&selected, &vec![basic(600, 2)], &added, &vec![], &None, &None, SLOT, RANGE, &no_mana(), 100, 100)
        .unwrap();
    assert!(r.data.is_empty());
    assert_eq!(r.added_amount, vec![(Some(id(7)), 200), (None, 400)]);
}

#[test]
fn native_tokens_in_excess_get_remainders() {
    let selected = vec![input(with_token(basic(1000, 1), 5, 50), 10)];
    let provided = vec![with_token(basic(300, 2), 5, 20)];
    let r = update_remainders(&selected, &provided, &vec![], &vec![], &None, &None, SLOT, RANGE, &no_mana(), 100, 100)
        .unwrap();
    assert_eq!(r.data.len(), 1);
    let catchall = &r.data[0].output;
    assert_eq!(catchall.amount, 700);
    let t = catchall.native_token.as_ref().unwrap();
    assert_eq!((t.token_id.clone(), t.amount), (id(5), TokenAmount::from(30u64)));

    let selected = vec![input(with_token(basic(1000, 1), 9, 7), 10), input(with_token(basic(500, 1), 4, 5), 11)];
    let r = update_remainders(&selected, &vec![basic(300, 2)], &vec![], &vec![], &None, &None, SLOT, RANGE, &no_mana(), 100, 100)
        .unwrap();
    assert_eq!(r.data.len(), 2);
    assert_eq!(r.data[0].output.amount, 100);
    assert_eq!(r.data[0].output.native_token.as_ref().unwrap().token_id, id(4));
    assert_eq!(r.data[1].output.amount, 1100);
    assert_eq!(r.data[1].output.native_token.as_ref().unwrap().token_id, id(9));
}

#[test]
fn owed_storage_deposits_are_returned() {
    let mut owing = basic(1000, 1);
    owing.storage_deposit_return = Some(StorageDepositReturn { return_address: ed(9), amount: 40 });
    let r = update_remainders(&vec![input(owing, 10)], &vec![basic(600, 2)], &vec![], &vec![], &None, &None, SLOT, RANGE, &no_mana(), 100, 100)
        .unwrap();
    assert_eq!(r.storage_deposit_returns.len(), 1);
    assert_eq!(r.storage_deposit_returns[0].amount, 40);
    assert_eq!(r.storage_deposit_returns[0].address.id, id(9));
    assert_eq!(r.data[0].output.amount, 360);
}

#[test]
fn mana_in_excess_goes_to_the_remainder() {
    let selected = vec![input(basic(1000, 1), 10)];
    let mana = ManaFigures { input_mana: 50, output_mana: 20, initial_excess: 10, chains: vec![] };
    let r = update_remainders(&selected, &vec![basic(1000, 2)], &vec![], &vec![], &None, &None, SLOT, RANGE, &mana, 100, 0)
        .unwrap();
    assert_eq!((r.data[0].output.amount, r.data[0].output.mana), (0, 30));
    let burn = Some(Burn::new().set_mana(true));
    let r = update_remainders(&selected, &vec![basic(1000, 2)], &vec![], &vec![], &None, &burn, SLOT, RANGE, &mana, 100, 0)
        .unwrap();
    assert_eq!(r.data[0].output.mana, 20);
    let balanced = ManaFigures { input_mana: 20, output_mana: 20, initial_excess: 0, chains: vec![] };
    let r = update_remainders(&selected, &vec![basic(1000, 2)], &vec![], &vec![], &None, &None, SLOT, RANGE, &balanced, 100, 0)
        .unwrap();
    assert!(r.data.is_empty());
}

#[test]
fn a_remainder_needs_an_ed25519_address() {
    let selected = vec![input(output(OutputKind::Basic, Id::new(vec![]), 1000, Address::new(AddressKind::Account, id(7))), 10)];
    let r = update_remainders(&selected, &vec![basic(600, 2)], &vec![], &vec![], &None, &None, SLOT, RANGE, &no_mana(), 100, 100);
    assert!(matches!(r, Err(SelectionError::MissingInputWithEd25519Address)));
    let configured = Some(ed(3));
    let r = update_remainders(&selected, &vec![basic(600, 2)], &vec![], &vec![], &configured, &None, SLOT, RANGE, &no_mana(), 100, 100)
        .unwrap();
    assert_eq!(r.data[0].address.id, id(3));
}

#[test]
fn remainders_need_one_deposit_per_native_token() {
    let selected = vec![input(with_token(basic(1000, 1), 9, 7), 10), input(with_token(basic(500, 1), 4, 5), 11)];
    let r = required_remainder_amount(&selected, &vec![basic(300, 2)], &vec![], &vec![], &None, &None, SLOT, RANGE, &no_mana(), 100, 60);
    assert_eq!(r, (200, true, false));
    let plain = vec![input(basic(1000, 1), 10)];
    let r = required_remainder_amount(&plain, &vec![basic(300, 2)], &vec![], &vec![], &None, &None, SLOT, RANGE, &no_mana(), 100, 60);
    assert_eq!(r, (60, false, false));
}

#[test]
fn mana_needs_a_remainder_unless_outputs_take_it() {
    let selected = vec![input(basic(1000, 1), 10)];
    let outputs = vec![basic(300, 2)];
    let mana = ManaFigures { input_mana: 50, output_mana: 20, initial_excess: 0, chains: vec![] };
    assert!(required_remainder_amount(&selected, &outputs, &vec![], &vec![], &None, &None, SLOT, RANGE, &mana, 100, 60).2);
    // An added output of the remainder address takes the mana.
    let added = vec![basic(10, 1)];
    assert!(!required_remainder_amount(&selected, &outputs, &added, &vec![], &None, &None, SLOT, RANGE, &mana, 100, 60).2);
    // A chain of the remainder address takes all of it.
    let chained = ManaFigures { input_mana: 50, output_mana: 20, initial_excess: 0, chains: vec![(id(7), 40, 10)] };
    let added = vec![output(OutputKind::Account, id(7), 10, ed(1))];
    assert!(!required_remainder_amount(&selected, &outputs, &added, &vec![], &None, &None, SLOT, RANGE, &chained, 100, 60).2);
    // Burning mana counts only what exceeds the initial excess.
    let burning = ManaFigures { input_mana: 50, output_mana: 20, initial_excess: 40, chains: vec![] };
    let burn = Some(Burn::new().set_mana(true));
    assert!(!required_remainder_amount(&selected, &outputs, &vec![], &vec![], &None, &burn, SLOT, RANGE, &burning, 100, 60).2);
}
