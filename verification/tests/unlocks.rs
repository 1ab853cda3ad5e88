use iota_client::ledger::{
    Address, AddressKind, CommittableAgeRange, Id, InputSigningData, Output, OutputId, OutputKind,
};
use iota_client::ordered_inputs::OrderedInputs;
use iota_client::selection::SelectionError;
use iota_client::unlocks::{null_transaction_unlocks, Unlock};

const RANGE: CommittableAgeRange = CommittableAgeRange { min: 5, max: 15 };
const SLOT: u32 = 100;

fn id(b: u8) -> Id {
    Id::new(vec![b; 32])
}

fn output(kind: OutputKind, chain: Option<u8>, address: Address) -> Output {
    Output {
        kind,
        amount: 1,
        mana: 0,
        chain_id: match chain {
            Some(b) => id(b),
            None => Id::new(vec![]),
        },
        address,
        storage_deposit_return: None,
        expiration: None,
        timelock: None,
        native_token: None,
        circulating_supply: None,
        sender: None,
        issuer: None,
        block_issuer: None,
        staking: None,
        foundry_counter: 0,
        serial_number: 0,
        other_features: false,
    }
}

fn input(output: Output, b: u8) -> InputSigningData {
    InputSigningData { output, output_id: OutputId { transaction_hash: id(b), slot_index: 1, index: 0 }, chain: None }
}

fn basic_to(kind: AddressKind, b: u8) -> InputSigningData {
    input(output(OutputKind::Basic, None, Address::new(kind, id(b))), 50 + b)
}

#[test]
fn later_inputs_of_an_address_reference_the_first() {
    let mut restricted = Address::new(AddressKind::Ed25519, id(2));
    restricted.restricted = true;
    let inputs = vec![
        basic_to(AddressKind::Ed25519, 1),
        basic_to(AddressKind::Ed25519, 1),
        input(output(OutputKind::Account, Some(7), Address::new(AddressKind::Ed25519, id(1))), 10),
        basic_to(AddressKind::Account, 7),
        input(output(OutputKind::Basic, None, restricted), 11),
        basic_to(AddressKind::ImplicitAccountCreation, 2),
        input(output(OutputKind::Nft, Some(9), Address::new(AddressKind::Account, id(7))), 12),
        basic_to(AddressKind::Nft, 9),
    ];
    let unlocks = null_transaction_unlocks(&inputs, SLOT, RANGE).unwrap();
    assert_eq!(
        unlocks,
        vec![
            Unlock::Signature,
            Unlock::Reference(0),
            Unlock::Reference(0),
            Unlock::Account(2),
            Unlock::Signature,
            Unlock::Reference(4),
            Unlock::Account(2),
            Unlock::Nft(6),
        ]
    );
}

#[test]
fn a_chain_address_met_first_cannot_be_unlocked() {
    let inputs = vec![basic_to(AddressKind::Ed25519, 1), basic_to(AddressKind::Nft, 9)];
    assert!(matches!(
        null_transaction_unlocks(&inputs, SLOT, RANGE),
        Err(SelectionError::MissingInputWithEd25519Address)
    ));
    let anchored = vec![basic_to(AddressKind::Anchor, 3)];
    assert!(matches!(
        null_transaction_unlocks(&anchored, SLOT, RANGE),
        Err(SelectionError::MissingInputWithEd25519Address)
    ));
    assert_eq!(null_transaction_unlocks(&vec![], SLOT, RANGE).unwrap(), vec![]);
}

#[test]
fn unlocks_of_inputs_in_signing_order() {
    let mut selected = OrderedInputs::new();
    let nft = input(output(OutputKind::Nft, Some(9), Address::new(AddressKind::Ed25519, id(1))), 12);
    let owned_by_nft = basic_to(AddressKind::Nft, 9);
    selected.insert(Address::new(AddressKind::Nft, id(9)), owned_by_nft);
    selected.insert(Address::new(AddressKind::Ed25519, id(1)), nft);
    let ordered = selected.sorted_iter();
    let unlocks = null_transaction_unlocks(&ordered, SLOT, RANGE).unwrap();
    assert_eq!(unlocks, vec![Unlock::Signature, Unlock::Nft(0)]);
}
