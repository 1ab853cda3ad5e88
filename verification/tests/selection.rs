use iota_client::burn::Burn;
use iota_client::fulfilment::{fulfill_requirement, fulfill_requirements};
use iota_client::ledger::{
    Address, Bip44, AddressKind, CommittableAgeRange, Expiration, Id, InputSigningData, Output, OutputId,
    OutputKind,
};
use iota_client::amounts::AddressAmounts;
use iota_client::ordered_inputs::OrderedInputs;
use iota_client::requirement::Requirement;
use iota_client::selection::{
    burn_requirements, filter_inputs, fulfill_account_requirement, fulfill_delegation_requirement,
    fulfill_ed25519_requirement, fulfill_issuer_requirement, fulfill_nft_requirement,
    fulfill_sender_requirement, get_remainder_address, outputs_requirements,
    required_account_nft_addresses, select_input, select_required_inputs, selection_addresses,
    storage_deposit_return_outputs, SelectionError,
};

const RANGE: CommittableAgeRange = CommittableAgeRange { min: 5, max: 15 };
const SLOT: u32 = 100;

fn id(b: u8) -> Id {
    Id::new(vec![b; 32])
}

fn addr(kind: AddressKind, b: u8) -> Address {
    Address::new(kind, id(b))
}

fn output(kind: OutputKind, amount: u64, chain: Option<u8>, address: Address) -> Output {
    Output {
        kind,
        amount,
        mana: 0,
        chain_id: match chain {
            Some(b) => id(b),
            None => Id::new(vec![]),
        },
        address,
        storage_deposit_return: None,
        expiration: None,
        timelock: None,
        native_token: None,
        circulating_supply: None,
        sender: None,
        issuer: None,
        block_issuer: None,
        staking: None,
        foundry_counter: 0,
        serial_number: 0,
        other_features: false,
    }
}

fn oid(b: u8, index: u16) -> OutputId {
    OutputId { transaction_hash: id(b), slot_index: 1, index }
}

fn input(output: Output, b: u8) -> InputSigningData {
    InputSigningData { output, output_id: oid(b, 0), chain: None }
}

fn ids(v: &[InputSigningData]) -> Vec<u8> {
    v.iter().map(|i| i.output_id.transaction_hash.bytes[0]).collect()
}

#[test]
fn filter_keeps_only_unlockable_inputs() {
    let me = addr(AddressKind::Ed25519, 1);
    let other = addr(AddressKind::Ed25519, 2);
    let mut timelocked = output(OutputKind::Basic, 10, None, me.clone());
    timelocked.timelock = Some(SLOT + 6);
    let mut expiring = output(OutputKind::Basic, 10, None, me.clone());
    // The expiration is neither surely after nor surely before the committable range.
    expiring.expiration = Some(Expiration { return_address: other.clone(), slot_index: SLOT + 10 });
    let mut expired = output(OutputKind::Basic, 10, None, other.clone());
    // Expired: the return address unlocks it.
    expired.expiration = Some(Expiration { return_address: me.clone(), slot_index: SLOT + 2 });
    let inputs = vec![
        input(output(OutputKind::Basic, 10, None, me.clone()), 10),
        input(output(OutputKind::Basic, 10, None, other.clone()), 11),
        input(timelocked, 12),
        input(expiring, 13),
        input(expired, 14),
        input(output(OutputKind::Basic, 10, None, addr(AddressKind::Anchor, 3)), 15),
        input(output(OutputKind::Delegation, 10, Some(7), me.clone()), 16),
        input(output(OutputKind::Anchor, 10, Some(8), me.clone()), 17),
    ];
    let kept = filter_inputs(inputs, &vec![me.clone()], &vec![], &None, SLOT, 5, RANGE);
    assert_eq!(ids(&kept), vec![10, 14]);
}

#[test]
fn filter_keeps_burned_delegations_and_required_implicit_accounts() {
    let me = addr(AddressKind::Ed25519, 1);
    let implicit = output(OutputKind::Basic, 10, None, addr(AddressKind::ImplicitAccountCreation, 1));
    let inputs = vec![
        input(output(OutputKind::Delegation, 10, Some(7), me.clone()), 16),
        input(implicit, 20),
    ];
    let burn = Some(Burn::new().add_delegation(id(7)));
    let kept = filter_inputs(inputs, &vec![me.clone()], &vec![oid(20, 0)], &burn, SLOT, 5, RANGE);
    assert_eq!(ids(&kept), vec![16, 20]);

    let implicit = output(OutputKind::Basic, 10, None, addr(AddressKind::ImplicitAccountCreation, 1));
    let kept = filter_inputs(vec![input(implicit, 20)], &vec![me], &vec![], &None, SLOT, 5, RANGE);
    assert!(kept.is_empty());
}

#[test]
fn selection_addresses_reduce_to_ed25519_and_add_chains() {
    let given = vec![addr(AddressKind::ImplicitAccountCreation, 4), addr(AddressKind::Nft, 5)];
    let inputs = vec![input(output(OutputKind::Account, 1, Some(9), addr(AddressKind::Ed25519, 4)), 30)];
    let r = selection_addresses(&given, &inputs);
    assert_eq!(r.len(), 3);
    assert_eq!(r[0].kind, AddressKind::Ed25519);
    assert_eq!(r[0].id.bytes, vec![4; 32]);
    assert_eq!(r[1].kind, AddressKind::Nft);
    assert_eq!(r[2].kind, AddressKind::Account);
    assert_eq!(r[2].id.bytes, vec![9; 32]);
}

#[test]
fn ed25519_requirement_prefers_basic_outputs() {
    let me = addr(AddressKind::Ed25519, 1);
    let mut available = vec![
        input(output(OutputKind::Account, 10, Some(9), me.clone()), 40),
        input(output(OutputKind::Basic, 10, None, me.clone()), 41),
        input(output(OutputKind::Basic, 10, None, me.clone()), 42),
    ];
    let r = fulfill_ed25519_requirement(&mut available, &vec![], &me, SLOT, RANGE).unwrap();
    assert_eq!(ids(&r), vec![41]);
    // The last available input takes the place of the taken one.
    assert_eq!(ids(&available), vec![40, 42]);

    // Already fulfilled by a selected input.
    let selected = vec![input(output(OutputKind::Basic, 10, None, me.clone()), 43)];
    let r = fulfill_ed25519_requirement(&mut available, &selected, &me, SLOT, RANGE).unwrap();
    assert!(r.is_empty());
    assert_eq!(ids(&available), vec![40, 42]);

    let nobody = addr(AddressKind::Ed25519, 2);
    match fulfill_ed25519_requirement(&mut available, &vec![], &nobody, SLOT, RANGE) {
        Err(SelectionError::UnfulfillableRequirement(Requirement::Ed25519(a))) => assert_eq!(a.id.bytes, vec![2; 32]),
        other => panic!("unexpected {other:?}"),
    }
}

#[test]
fn chain_requirements_pick_by_id() {
    let me = addr(AddressKind::Ed25519, 1);
    let mut available = vec![
        input(output(OutputKind::Nft, 1, Some(5), me.clone()), 50),
        input(output(OutputKind::Account, 1, Some(6), me.clone()), 51),
        input(output(OutputKind::Delegation, 1, Some(7), me.clone()), 52),
    ];
    assert_eq!(ids(&fulfill_account_requirement(&mut available, &vec![], &id(6)).unwrap()), vec![51]);
    assert_eq!(ids(&available), vec![50, 52]);
    assert_eq!(ids(&fulfill_delegation_requirement(&mut available, &vec![], &id(7)).unwrap()), vec![52]);
    assert_eq!(ids(&fulfill_nft_requirement(&mut available, &vec![], &id(5), true).unwrap()), vec![50]);
    assert!(available.is_empty());
    assert!(matches!(
        fulfill_nft_requirement(&mut available, &vec![], &id(5), true),
        Err(SelectionError::UnfulfillableRequirement(Requirement::Nft(_)))
    ));
}

#[test]
fn sender_and_issuer_requirements() {
    let me = addr(AddressKind::Ed25519, 1);
    let mut available = vec![input(output(OutputKind::Account, 1, Some(6), me.clone()), 51)];
    let r = fulfill_sender_requirement(&mut available, &vec![], &addr(AddressKind::Account, 6), SLOT, RANGE, true).unwrap();
    assert_eq!(ids(&r), vec![51]);
    match fulfill_sender_requirement(&mut available, &vec![], &addr(AddressKind::Anchor, 6), SLOT, RANGE, true) {
        Err(SelectionError::UnsupportedAddressType(AddressKind::Anchor)) => {}
        other => panic!("unexpected {other:?}"),
    }
    match fulfill_sender_requirement(&mut available, &vec![], &addr(AddressKind::Nft, 6), SLOT, RANGE, true) {
        Err(SelectionError::UnfulfillableRequirement(Requirement::Sender(a))) => assert_eq!(a.kind, AddressKind::Nft),
        other => panic!("unexpected {other:?}"),
    }
    match fulfill_issuer_requirement(&mut available, &vec![], &addr(AddressKind::Nft, 6), SLOT, RANGE, true) {
        Err(SelectionError::UnfulfillableRequirement(Requirement::Issuer(a))) => assert_eq!(a.kind, AddressKind::Nft),
        other => panic!("unexpected {other:?}"),
    }
    // A restricted address is treated as its inner address.
    let mut restricted = addr(AddressKind::Ed25519, 1);
    restricted.restricted = true;
    let mut available = vec![input(output(OutputKind::Basic, 1, None, me.clone()), 60)];
    let r = fulfill_sender_requirement(&mut available, &vec![], &restricted, SLOT, RANGE, true).unwrap();
    assert_eq!(ids(&r), vec![60]);
}

#[test]
fn outputs_impose_requirements() {
    let me = addr(AddressKind::Ed25519, 1);
    let mut account = output(OutputKind::Account, 1, Some(6), me.clone());
    account.sender = Some(addr(AddressKind::Ed25519, 2));
    let mut nft = output(OutputKind::Nft, 1, Some(0), me.clone());
    nft.issuer = Some(addr(AddressKind::Ed25519, 3));
    let foundry = output(OutputKind::Foundry, 1, Some(8), addr(AddressKind::Account, 6));
    let outputs = vec![account, nft, foundry];
    let r = outputs_requirements(&outputs, &vec![], &vec![]);
    assert_eq!(r.len(), 4);
    assert!(matches!(&r[0], Requirement::Account(i) if i.bytes == vec![6; 32]));
    assert!(matches!(&r[1], Requirement::Sender(a) if a.id.bytes == vec![2; 32]));
    assert!(matches!(&r[2], Requirement::Issuer(a) if a.id.bytes == vec![3; 32]));
    assert!(matches!(&r[3], Requirement::Account(i) if i.bytes == vec![6; 32]));

    // A foundry that an input holds is transitioned.
    let available = vec![input(output(OutputKind::Foundry, 1, Some(8), addr(AddressKind::Account, 6)), 70)];
    let r = outputs_requirements(&vec![output(OutputKind::Foundry, 1, Some(8), addr(AddressKind::Account, 6))], &available, &vec![]);
    assert_eq!(r.len(), 2);
    assert!(matches!(&r[0], Requirement::Foundry(i) if i.bytes == vec![8; 32]));
}

#[test]
fn burn_requirements_refuse_transitioned_chains() {
    let me = addr(AddressKind::Ed25519, 1);
    let burn = Burn::new().add_account(id(6)).add_nft(id(5));
    let r = burn_requirements(&burn, &vec![]).unwrap();
    assert_eq!(r.len(), 2);
    assert!(matches!(&r[0], Requirement::Account(_)));
    assert!(matches!(&r[1], Requirement::Nft(_)));
    let outputs = vec![output(OutputKind::Nft, 1, Some(5), me)];
    match burn_requirements(&burn, &outputs) {
        Err(SelectionError::BurnAndTransition(i)) => assert_eq!(i.bytes, vec![5; 32]),
        other => panic!("unexpected {other:?}"),
    }
}

#[test]
fn required_inputs_are_selected() {
    let me = addr(AddressKind::Ed25519, 1);
    let mut available = vec![
        input(output(OutputKind::Basic, 1, None, addr(AddressKind::Account, 6)), 80),
        input(output(OutputKind::Basic, 1, None, me.clone()), 81),
    ];
    let mut selected = OrderedInputs::new();
    let mut requirements = Vec::new();
    select_required_inputs(&mut available, &mut selected, &mut requirements, &vec![oid(80, 0)], SLOT, RANGE).unwrap();
    assert_eq!(selected.len(), 1);
    assert_eq!(ids(&available), vec![81]);
    assert_eq!(requirements.len(), 1);
    assert!(matches!(&requirements[0], Requirement::Account(i) if i.bytes == vec![6; 32]));
    match select_required_inputs(&mut available, &mut selected, &mut requirements, &vec![oid(99, 0)], SLOT, RANGE) {
        Err(SelectionError::RequiredInputIsNotAvailable(o)) => assert_eq!(o.transaction_hash.bytes, vec![99; 32]),
        other => panic!("unexpected {other:?}"),
    }
}

#[test]
fn select_input_refuses_past_the_input_limit() {
    let me = addr(AddressKind::Ed25519, 1);
    let mut selected = OrderedInputs::new();
    let mut requirements = Vec::new();
    for i in 0..128u16 {
        let x = InputSigningData { output: output(OutputKind::Basic, 1, None, me.clone()), output_id: oid(1, i), chain: None };
        select_input(&mut selected, &mut requirements, x, SLOT, RANGE).unwrap();
    }
    let x = input(output(OutputKind::Basic, 1, None, me.clone()), 2);
    assert!(matches!(select_input(&mut selected, &mut requirements, x, SLOT, RANGE), Err(SelectionError::InvalidInputCount(129))));
    let r = required_account_nft_addresses(&input(output(OutputKind::Basic, 1, None, addr(AddressKind::Nft, 4)), 3), SLOT, RANGE);
    assert!(matches!(r, Some(Requirement::Nft(i)) if i.bytes == vec![4; 32]));
}

#[test]
fn remainder_address_is_configured_or_found() {
    let me = addr(AddressKind::Ed25519, 1);
    let chain = Bip44 { coin_type: 4219, account: 0, change: 0, address_index: 3 };
    let mut with_chain = input(output(OutputKind::Basic, 1, None, me.clone()), 90);
    with_chain.chain = Some(chain);
    let available = vec![with_chain];
    let selected = vec![input(output(OutputKind::Basic, 1, None, addr(AddressKind::ImplicitAccountCreation, 7)), 91)];
    let (a, c) = get_remainder_address(&Some(me.clone()), &available, &selected, SLOT, RANGE).unwrap();
    assert_eq!(a.id.bytes, vec![1; 32]);
    assert_eq!(c, Some(chain));
    let (a, c) = get_remainder_address(&None, &available, &selected, SLOT, RANGE).unwrap();
    assert_eq!(a.kind, AddressKind::Ed25519);
    assert_eq!(a.id.bytes, vec![7; 32]);
    assert_eq!(c, None);
    assert!(get_remainder_address(&None, &available, &vec![], SLOT, RANGE).is_none());
}

#[test]
fn storage_deposits_are_returned() {
    let a = addr(AddressKind::Ed25519, 1);
    let b = addr(AddressKind::Ed25519, 2);
    let mut ins = AddressAmounts::new();
    ins.add(&a, 100);
    ins.add(&b, 30);
    let mut outs = AddressAmounts::new();
    outs.add(&a, 40);
    outs.add(&b, 30);
    let r = storage_deposit_return_outputs(&ins, &outs);
    assert_eq!(r.len(), 1);
    assert_eq!(r[0].amount, 60);
    assert_eq!(r[0].kind, OutputKind::Basic);
    assert_eq!(r[0].address.id.bytes, vec![1; 32]);
}

#[test]
fn disabled_selection_asks_for_additional_inputs() {
    let me = addr(AddressKind::Ed25519, 1);
    let nft = input(output(OutputKind::Nft, 1, Some(5), me.clone()), 50);
    let mut available = vec![nft];
    match fulfill_nft_requirement(&mut available, &vec![], &id(5), false) {
        Err(SelectionError::AdditionalInputsRequired(Requirement::Nft(_))) => {}
        other => panic!("unexpected {other:?}"),
    }
    assert_eq!(ids(&available), vec![50]);
    // Already selected: nothing more is needed.
    let selected = vec![input(output(OutputKind::Nft, 1, Some(5), me.clone()), 51)];
    assert!(fulfill_nft_requirement(&mut available, &selected, &id(5), false).unwrap().is_empty());
    match fulfill_sender_requirement(&mut available, &vec![], &addr(AddressKind::Nft, 5), SLOT, RANGE, false) {
        Err(SelectionError::AdditionalInputsRequired(Requirement::Nft(_))) => {}
        other => panic!("unexpected {other:?}"),
    }
    match fulfill_issuer_requirement(&mut available, &vec![], &addr(AddressKind::Nft, 5), SLOT, RANGE, false) {
        Err(SelectionError::AdditionalInputsRequired(Requirement::Nft(_))) => {}
        other => panic!("unexpected {other:?}"),
    }
}

#[test]
fn requirements_are_worked_through_until_one_needs_the_caller() {
    let me = addr(AddressKind::Ed25519, 1);
    let nft = input(output(OutputKind::Nft, 1, Some(5), addr(AddressKind::Account, 6)), 50);
    let account = input(output(OutputKind::Account, 1, Some(6), me.clone()), 51);
    let other = input(output(OutputKind::Basic, 1, None, me.clone()), 52);
    let mut available = vec![nft, account, other];
    let mut selected = OrderedInputs::new();
    let mut requirements = vec![Requirement::Amount, Requirement::Nft(id(5))];
    let r = fulfill_requirements(&mut available, &mut selected, &mut requirements, SLOT, RANGE, true).unwrap();
    // The nft is picked; it is unlocked through the account, which is then picked too.
    assert!(matches!(r, Some(Requirement::Amount)));
    assert!(requirements.is_empty());
    assert_eq!(selected.len(), 2);
    assert_eq!(ids(&available), vec![52]);
    // An account requirement met already picks nothing.
    let mut reqs = vec![];
    assert!(fulfill_requirement(&mut available, &mut selected, &mut reqs, &Requirement::Account(id(6)), SLOT, RANGE, true).unwrap());
    assert_eq!(selected.len(), 2);
    // The amount requirement is left to the caller.
    assert!(!fulfill_requirement(&mut available, &mut selected, &mut reqs, &Requirement::Amount, SLOT, RANGE, true).unwrap());
    // Nothing pending: done.
    assert!(fulfill_requirements(&mut available, &mut selected, &mut reqs, SLOT, RANGE, true).unwrap().is_none());
}

#[test]
fn requirements_fail_where_no_input_fulfils_them() {
    let mut available = vec![];
    let mut selected = OrderedInputs::new();
    let mut requirements = vec![Requirement::Delegation(id(9))];
    match fulfill_requirements(&mut available, &mut selected, &mut requirements, SLOT, RANGE, true) {
        Err(SelectionError::UnfulfillableRequirement(Requirement::Delegation(_))) => {}
        other => panic!("unexpected {other:?}"),
    }
}
