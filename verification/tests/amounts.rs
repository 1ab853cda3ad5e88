use iota_client::amount::{amount_sums, fulfil_by_preference, AmountSelection};
use iota_client::ledger::{
    Address, AddressKind, Id, InputSigningData, NativeToken, Output, OutputId, OutputKind,
    StorageDepositReturn,
};
use iota_client::requirement::{
    is_account_with_id, is_account_with_id_non_null, is_delegation_with_id, is_foundry_with_id,
    is_nft_with_id, sdruc_not_expired,
};
use iota_client::token_amount::TokenAmount;

fn id(b: u8) -> Id {
    Id::new(vec![b; 32])
}

fn addr(b: u8) -> Address {
    Address::new(AddressKind::Ed25519, id(b))
}

fn basic(amount: u64, to: u8) -> Output {
    Output {
        kind: OutputKind::Basic,
        amount,
        mana: 0,
        chain_id: Id::new(vec![]),
        address: addr(to),
        storage_deposit_return: None,
        expiration: None,
        timelock: None,
        native_token: None,
        circulating_supply: None,
        sender: None,
        issuer: None,
        block_issuer: None,
        staking: None,
        foundry_counter: 0,
        serial_number: 0,
        other_features: false,
    }
}

fn input(output: Output, b: u8) -> InputSigningData {
    InputSigningData { output, output_id: OutputId { transaction_hash: id(b), slot_index: 1, index: 0 }, chain: None }
}

#[test]
fn sums_count_owed_returns() {
    let mut owing = basic(100, 1);
    owing.storage_deposit_return = Some(StorageDepositReturn { return_address: addr(9), amount: 40 });
    let (ins, outs, in_sdr, out_sdr) = amount_sums(&vec![input(owing, 1)], &vec![basic(50, 2)], 10);
    assert_eq!(ins, 100);
    // The outputs owe the storage deposit back on top of what they hold.
    assert_eq!(outs, 90);
    assert_eq!(in_sdr.get(&addr(9)), 40);
    assert_eq!(out_sdr.get(&addr(9)), 0);
}

#[test]
fn amount_selection_covers_the_gap() {
    let mut s = AmountSelection::new(&vec![], &vec![basic(150, 5)], 10, 0, false);
    assert_eq!(s.missing_amount(), 150);
    let inputs = vec![input(basic(100, 1), 1), input(basic(30, 1), 2), input(basic(50, 1), 3), input(basic(70, 1), 4)];
    assert!(s.fulfil(&inputs));
    assert_eq!(s.missing_amount(), 0);
    let picked: Vec<u8> = s.into_newly_selected_inputs().iter().map(|i| i.output_id.transaction_hash.bytes[0]).collect();
    assert_eq!(picked, vec![1, 2, 3]);

    let mut s = AmountSelection::new(&vec![], &vec![basic(1000, 5)], 10, 0, false);
    assert!(!s.fulfil(&inputs));
    assert_eq!(s.missing_amount(), 750);
}

#[test]
fn amount_selection_prefers_plain_inputs() {
    let mut with_token = basic(100, 1);
    with_token.native_token = Some(NativeToken { token_id: id(3), amount: TokenAmount::from(1u64) });
    let inputs = vec![input(with_token, 1), input(basic(60, 1), 2), input(basic(100, 1), 3)];
    let mut s = AmountSelection::new(&vec![], &vec![basic(150, 5)], 10, 0, false);
    assert!(fulfil_by_preference(&mut s, &inputs));
    let picked: Vec<u8> = s.into_newly_selected_inputs().iter().map(|i| i.output_id.transaction_hash.bytes[0]).collect();
    assert_eq!(picked, vec![2, 3]);
}

#[test]
fn chain_predicates() {
    let oid = OutputId { transaction_hash: id(1), slot_index: 2, index: 3 };
    let mut account = basic(1, 1);
    account.kind = OutputKind::Account;
    account.chain_id = id(6);
    assert!(is_account_with_id(&account, &id(6), &oid));
    assert!(is_account_with_id_non_null(&account, &id(6)));
    assert!(!is_nft_with_id(&account, &id(6), &oid));
    // A null chain id stands for the id derived from the output id.
    let derived = oid.derived_chain_id();
    assert_eq!(derived.bytes.len(), 32);
    assert_ne!(derived.bytes, oid.pack());
    let mut nft = basic(1, 1);
    nft.kind = OutputKind::Nft;
    nft.chain_id = Id::null(32);
    assert!(is_nft_with_id(&nft, &derived, &oid));
    let mut implicit = basic(1, 1);
    implicit.address = Address::new(AddressKind::ImplicitAccountCreation, id(1));
    assert!(is_account_with_id(&implicit, &derived, &oid));
    let mut delegation = basic(1, 1);
    delegation.kind = OutputKind::Delegation;
    delegation.chain_id = id(4);
    assert!(is_delegation_with_id(&delegation, &id(4), &oid));
    let mut foundry = basic(1, 1);
    foundry.kind = OutputKind::Foundry;
    foundry.chain_id = id(5);
    assert!(is_foundry_with_id(&foundry, &id(5)));
    // The packed output id: hash, slot (4 bytes), index (2 bytes), little-endian.
    let packed = oid.pack();
    assert_eq!(packed.len(), 38);
    assert_eq!(&packed[32..], &[2, 0, 0, 0, 3, 0]);
}

#[test]
fn owed_returns_expire() {
    let mut o = basic(100, 1);
    o.storage_deposit_return = Some(StorageDepositReturn { return_address: addr(9), amount: 40 });
    o.expiration = Some(iota_client::ledger::Expiration { return_address: addr(1), slot_index: 20 });
    assert_eq!(sdruc_not_expired(&o, 19).map(|s| s.amount), Some(40));
    assert!(sdruc_not_expired(&o, 20).is_none());
}

#[test]
fn transitioned_chains_give_up_funds() {
    let mut nft = basic(500, 1);
    nft.kind = OutputKind::Nft;
    nft.chain_id = id(7);
    let mut issuer = basic(400, 1);
    issuer.kind = OutputKind::Account;
    issuer.chain_id = id(8);
    issuer.block_issuer = Some(iota_client::ledger::BlockIssuerFeature { expiry_slot: 10, keys: vec![] });
    let mut outputs = vec![issuer, nft, basic(100, 2)];
    // 400 + 500 + 100 go out; 850 come in, so 150 are missing.
    let ins = vec![input(basic(850, 1), 1)];
    let mut s = AmountSelection::new(&ins, &outputs, 10, 0, false);
    assert_eq!(s.missing_amount(), 150);
    let covered = s.reduce_funds_of_chains(&mut outputs, &vec![id(7), id(8)], &vec![50, 50, 50]);
    assert!(covered);
    assert_eq!(s.missing_amount(), 0);
    // The block issuing account keeps its funds; the nft gives up what was missing.
    assert_eq!(outputs[0].amount, 400);
    assert_eq!(outputs[1].amount, 350);
    assert_eq!(outputs[2].amount, 100);
    // The output sum follows the outputs.
    assert_eq!(s.outputs_sum, outputs.iter().map(|o| o.amount).sum::<u64>());

    // Down to its minimum the nft cannot cover a larger gap.
    let mut nft = basic(500, 1);
    nft.kind = OutputKind::Nft;
    nft.chain_id = id(7);
    let mut outputs = vec![nft, basic(600, 2)];
    let mut s = AmountSelection::new(&ins, &outputs, 10, 0, false);
    assert_eq!(s.missing_amount(), 250);
    let covered = s.reduce_funds_of_chains(&mut outputs, &vec![id(7)], &vec![300, 0]);
    assert!(!covered);
    assert_eq!(outputs[0].amount, 300);
    assert_eq!(s.missing_amount(), 50);
    assert_eq!(s.outputs_sum, outputs.iter().map(|o| o.amount).sum::<u64>());
}
