use iota_client::ledger::{
    Address, AddressKind, CommittableAgeRange, Id, InputSigningData, Output, OutputId, OutputKind,
};
use iota_client::ordered_inputs::{address_lt, OrderedInputs};
use iota_client::signing_order::sort_input_signing_data;

const RANGE: CommittableAgeRange = CommittableAgeRange { min: 5, max: 15 };

fn id(b: u8) -> Id {
    Id::new(vec![b; 32])
}

fn addr(kind: AddressKind, b: u8) -> Address {
    Address::new(kind, id(b))
}

fn output(kind: OutputKind, chain: Option<u8>, address: Address) -> Output {
    Output {
        kind,
        amount: 1,
        mana: 0,
        chain_id: match chain {
            Some(b) => id(b),
            None => Id::new(vec![]),
        },
        address,
        storage_deposit_return: None,
        expiration: None,
        timelock: None,
        native_token: None,
        circulating_supply: None,
        sender: None,
        issuer: None,
        block_issuer: None,
        staking: None,
        foundry_counter: 0,
        serial_number: 0,
        other_features: false,
    }
}

fn input(output: Output, b: u8) -> InputSigningData {
    InputSigningData { output, output_id: OutputId { transaction_hash: id(b), slot_index: 1, index: 0 }, chain: None }
}

fn tags(v: &[InputSigningData]) -> Vec<u8> {
    v.iter().map(|i| i.output_id.transaction_hash.bytes[0]).collect()
}

#[test]
fn signing_order_places_dependents_after_their_chain() {
    let me = addr(AddressKind::Ed25519, 1);
    let nft = input(output(OutputKind::Nft, Some(7), me.clone()), 10);
    let owned_by_nft = input(output(OutputKind::Basic, None, addr(AddressKind::Nft, 7)), 11);
    let plain = input(output(OutputKind::Basic, None, me.clone()), 12);
    let account = input(output(OutputKind::Account, Some(8), addr(AddressKind::Account, 9)), 13);
    let owned_by_account = input(output(OutputKind::Basic, None, addr(AddressKind::Account, 8)), 14);
    // Keys order the inputs first: the dependents come first in key order.
    let items = vec![
        (vec![5], owned_by_account),
        (vec![1], owned_by_nft),
        (vec![3], plain),
        (vec![2], nft),
        (vec![4], account),
    ];
    let r = sort_input_signing_data(items, 100, RANGE);
    // Ed25519 ones in key order (nft 10, plain 12); the nft's dependent right after it;
    // the account (unlocked by an absent account) before its dependent.
    assert_eq!(tags(&r), vec![10, 11, 12, 13, 14]);
}

#[test]
fn signing_order_is_stable_for_equal_keys() {
    let me = addr(AddressKind::Ed25519, 1);
    let items = vec![
        (vec![1], input(output(OutputKind::Basic, None, me.clone()), 20)),
        (vec![0], input(output(OutputKind::Basic, None, me.clone()), 21)),
        (vec![1], input(output(OutputKind::Basic, None, me.clone()), 22)),
        (vec![1, 0], input(output(OutputKind::Basic, None, me.clone()), 23)),
    ];
    let r = sort_input_signing_data(items, 100, RANGE);
    assert_eq!(tags(&r), vec![21, 20, 22, 23]);
}

#[test]
fn ordered_inputs_list_in_signing_order() {
    let me = addr(AddressKind::Ed25519, 1);
    let mut o = OrderedInputs::new();
    assert!(o.is_empty());
    o.insert(addr(AddressKind::Nft, 7), input(output(OutputKind::Basic, None, addr(AddressKind::Nft, 7)), 30));
    o.insert(me.clone(), input(output(OutputKind::Nft, Some(7), me.clone()), 31));
    o.insert(addr(AddressKind::Account, 2), input(output(OutputKind::Basic, None, addr(AddressKind::Account, 2)), 32));
    o.insert(me.clone(), input(output(OutputKind::Basic, None, me.clone()), 33));
    assert_eq!(o.len(), 4);
    // Ed25519-unlocked inputs in order of insertion, the rest by address.
    assert_eq!(tags(&o.iter()), vec![31, 33, 32, 30]);
    // The nft input is followed by what it unlocks; what is left comes by address.
    assert_eq!(tags(&o.sorted_iter()), vec![31, 30, 33, 32]);
    assert_eq!(tags(&o.into_sorted_iter()), vec![31, 30, 33, 32]);
    assert!(address_lt(&addr(AddressKind::Ed25519, 9), &addr(AddressKind::Account, 1)));
    let mut r = addr(AddressKind::Ed25519, 0);
    r.restricted = true;
    assert!(address_lt(&addr(AddressKind::Nft, 9), &r));
}

#[test]
fn signing_order_puts_holders_unlocked_by_ed25519_before_their_dependents() {
    let me = addr(AddressKind::Ed25519, 1);
    let account = input(output(OutputKind::Account, Some(4), me.clone()), 30);
    let nft = input(output(OutputKind::Nft, Some(5), me.clone()), 31);
    let by_account = input(output(OutputKind::Basic, None, addr(AddressKind::Account, 4)), 32);
    let by_nft = input(output(OutputKind::Basic, None, addr(AddressKind::Nft, 5)), 33);
    let nft_by_account = input(output(OutputKind::Nft, Some(6), addr(AddressKind::Account, 4)), 34);
    let items = vec![
        (vec![9], account),
        (vec![1], by_account),
        (vec![2], by_nft),
        (vec![3], nft_by_account),
        (vec![8], nft),
    ];
    let r = sort_input_signing_data(items, 100, RANGE);
    let t = tags(&r);
    let pos = |tag: u8| t.iter().position(|x| *x == tag).unwrap();
    assert!(pos(30) < pos(32));
    assert!(pos(30) < pos(34));
    assert!(pos(31) < pos(33));
    assert_eq!(t, vec![31, 33, 30, 34, 32]);
}

#[test]
fn inserted_inputs_go_last_in_their_group_and_ed25519_order_is_kept() {
    let me = addr(AddressKind::Ed25519, 1);
    let by_account = addr(AddressKind::Account, 2);
    let mut o = OrderedInputs::new();
    o.insert(me.clone(), input(output(OutputKind::Basic, None, me.clone()), 40));
    o.insert(by_account.clone(), input(output(OutputKind::Basic, None, by_account.clone()), 41));
    o.insert(me.clone(), input(output(OutputKind::Account, Some(2), me.clone()), 42));
    o.insert(by_account.clone(), input(output(OutputKind::Basic, None, by_account.clone()), 43));
    o.insert(me.clone(), input(output(OutputKind::Basic, None, me.clone()), 44));
    // Each group in order of insertion.
    assert_eq!(tags(&o.iter()), vec![40, 42, 44, 41, 43]);
    // The Ed25519 ones keep their order; the account's dependents follow the account.
    assert_eq!(tags(&o.sorted_iter()), vec![40, 42, 41, 43, 44]);
}
