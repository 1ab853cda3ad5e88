use iota_client::burn::Burn;
use iota_client::chain_transitions::{
    apply_account_change, chain_transitions_to_validate, validate_transitions, ChainPair, transition_account_input, transition_foundry_input, transition_implicit_account_input,
    transition_input, transition_nft_input, StakingEpochs,
};
use iota_client::ledger::{
    Address, AddressKind, BlockIssuerFeature, Id, InputSigningData, Output, OutputId, OutputKind, StakingFeature,
};
use iota_client::requirement::Requirement;
use iota_client::selection::SelectionError;
use iota_client::transitions::{AccountChange, Transitions};

const EPOCHS: StakingEpochs =
    StakingEpochs { start_epoch: 100, past_bounded_epoch: 90, future_bounded_epoch: 120, unbonding_period: 10 };

fn id(b: u8) -> Id {
    Id::new(vec![b; 32])
}

fn oid(b: u8) -> OutputId {
    OutputId { transaction_hash: id(b), slot_index: 1, index: 0 }
}

fn output(kind: OutputKind, chain: Id, address: Address) -> Output {
    Output {
        kind,
        amount: 5000,
        mana: 70,
        chain_id: chain,
        address,
        storage_deposit_return: None,
        expiration: None,
        timelock: None,
        native_token: None,
        circulating_supply: None,
        sender: Some(Address::new(AddressKind::Ed25519, id(3))),
        issuer: None,
        block_issuer: None,
        staking: None,
        foundry_counter: 3,
        serial_number: 0,
        other_features: false,
    }
}

fn account(chain: u8) -> Output {
    output(OutputKind::Account, id(chain), Address::new(AddressKind::Ed25519, id(1)))
}

fn foundry_of(account_id: u8, serial: u32, fid: u8) -> Output {
    let mut f = output(OutputKind::Foundry, id(fid), Address::new(AddressKind::Account, id(account_id)));
    f.serial_number = serial;
    f
}

fn staking(start: u32, end: u32) -> StakingFeature {
    StakingFeature { staked_amount: 10, fixed_cost: 1, start_epoch: start, end_epoch: end }
}

fn issuer(keys: &[u8]) -> Option<BlockIssuerFeature> {
    Some(BlockIssuerFeature { expiry_slot: 9, keys: keys.iter().map(|b| id(*b)).collect() })
}

#[test]
fn an_account_is_continued_with_its_foundry_counter() {
    let outputs = vec![foundry_of(7, 5, 40), foundry_of(8, 9, 41)];
    let o = transition_account_input(&account(7), &oid(1), &None, &outputs, &None, EPOCHS, 0, 300)
        .unwrap()
        .unwrap();
    assert_eq!(o.kind, OutputKind::Account);
    assert_eq!(o.amount, 300);
    assert_eq!(o.mana, 0);
    assert_eq!(o.chain_id, id(7));
    assert_eq!(o.foundry_counter, 5);
    assert!(o.sender.is_none());
}

#[test]
fn a_null_account_id_is_derived_from_the_output_id() {
    let input = output(OutputKind::Account, Id::null(32), Address::new(AddressKind::Ed25519, id(1)));
    let o = transition_account_input(&input, &oid(2), &None, &vec![], &None, EPOCHS, 0, 300).unwrap().unwrap();
    assert_eq!(o.chain_id, oid(2).derived_chain_id());
    assert!(!o.chain_id.is_null());
}

#[test]
fn burned_or_continued_accounts_are_not_transitioned() {
    let burn = Some(Burn::new().add_account(id(7)));
    assert!(transition_account_input(&account(7), &oid(1), &burn, &vec![], &None, EPOCHS, 0, 300).unwrap().is_none());
    let outputs = vec![account(7)];
    assert!(transition_account_input(&account(7), &oid(1), &None, &outputs, &None, EPOCHS, 0, 300).unwrap().is_none());
}

#[test]
fn block_issuers_keep_their_mana() {
    let mut input = account(7);
    input.block_issuer = issuer(&[1]);
    let o = transition_account_input(&input, &oid(1), &None, &vec![], &None, EPOCHS, 55, 300).unwrap().unwrap();
    assert_eq!(o.mana, 55);
    let burn = Some(Burn::new().set_generated_mana(true));
    let o = transition_account_input(&input, &oid(1), &burn, &vec![], &None, EPOCHS, 55, 300).unwrap().unwrap();
    assert_eq!(o.mana, 70);
}

#[test]
fn staking_begins_only_without_staking() {
    let begin = AccountChange::BeginStaking { staked_amount: 10, fixed_cost: 1, staking_period: Some(12) };
    let (s, _) = apply_account_change(None, None, &begin, &id(7), EPOCHS).unwrap();
    assert_eq!(s, Some(staking(100, 112)));
    let forever = AccountChange::BeginStaking { staked_amount: 10, fixed_cost: 1, staking_period: None };
    let (s, _) = apply_account_change(None, None, &forever, &id(7), EPOCHS).unwrap();
    assert_eq!(s, Some(staking(100, u32::MAX)));
    assert!(matches!(
        apply_account_change(Some(staking(1, 2)), None, &begin, &id(7), EPOCHS),
        Err(SelectionError::AlreadyStaking(_))
    ));
}

#[test]
fn staking_is_extended_or_renewed() {
    let extend = AccountChange::ExtendStaking { additional_epochs: 15 };
    let (s, _) = apply_account_change(Some(staking(80, 130)), None, &extend, &id(7), EPOCHS).unwrap();
    assert_eq!(s, Some(staking(80, 145)));
    let (s, _) = apply_account_change(Some(staking(80, 110)), None, &extend, &id(7), EPOCHS).unwrap();
    assert_eq!(s, Some(staking(90, 105)));
    let (s, _) = apply_account_change(Some(staking(80, u32::MAX - 3)), None, &extend, &id(7), EPOCHS).unwrap();
    assert_eq!(s, Some(staking(80, u32::MAX)));
    let short = AccountChange::ExtendStaking { additional_epochs: 5 };
    assert!(matches!(
        apply_account_change(Some(staking(80, 110)), None, &short, &id(7), EPOCHS),
        Err(SelectionError::StakingPeriodLessThanMin { additional_epochs: 5, min: 10 })
    ));
    assert!(matches!(apply_account_change(None, None, &extend, &id(7), EPOCHS), Err(SelectionError::NotStaking(_))));
}

#[test]
fn staking_ends_only_with_staking() {
    let (s, _) = apply_account_change(Some(staking(1, 2)), None, &AccountChange::EndStaking, &id(7), EPOCHS).unwrap();
    assert_eq!(s, None);
    assert!(matches!(
        apply_account_change(None, None, &AccountChange::EndStaking, &id(7), EPOCHS),
        Err(SelectionError::NotStaking(_))
    ));
}

#[test]
fn block_issuer_keys_are_replaced() {
    let change = AccountChange::ModifyBlockIssuerKeys { keys_to_add: vec![id(4)], keys_to_remove: vec![id(2)] };
    let (_, b) = apply_account_change(None, issuer(&[1, 2, 3]), &change, &id(7), EPOCHS).unwrap();
    let b = b.unwrap();
    assert_eq!(b.expiry_slot, 9);
    assert_eq!(b.keys, vec![id(1), id(3), id(4)]);
    assert!(matches!(
        apply_account_change(None, None, &change, &id(7), EPOCHS),
        Err(SelectionError::MissingBlockIssuerFeature(_))
    ));
}

#[test]
fn account_changes_come_from_the_transitions() {
    let t = Some(Transitions::new().add_account(id(7), AccountChange::EndStaking));
    let mut input = account(7);
    input.staking = Some(staking(1, 2));
    let o = transition_account_input(&input, &oid(1), &None, &vec![], &t, EPOCHS, 0, 300).unwrap().unwrap();
    assert!(o.staking.is_none());
    assert!(matches!(
        transition_account_input(&account(7), &oid(1), &None, &vec![], &t, EPOCHS, 0, 300),
        Err(SelectionError::NotStaking(_))
    ));
}

#[test]
fn nfts_and_foundries_are_continued() {
    let nft = output(OutputKind::Nft, id(9), Address::new(AddressKind::Ed25519, id(1)));
    let o = transition_nft_input(&nft, &oid(1), &None, &vec![], 200).unwrap();
    assert_eq!((o.kind, o.amount, o.mana, o.chain_id.clone()), (OutputKind::Nft, 200, 0, id(9)));
    assert!(o.sender.is_none());
    assert!(transition_nft_input(&nft, &oid(1), &Some(Burn::new().add_nft(id(9))), &vec![], 200).is_none());

    let f = foundry_of(7, 2, 40);
    let o = transition_foundry_input(&f, &None, &vec![], 250).unwrap();
    assert_eq!((o.amount, o.serial_number, o.chain_id.clone()), (250, 2, id(40)));
    assert!(transition_foundry_input(&f, &None, &vec![foundry_of(7, 2, 40)], 250).is_none());
    assert!(transition_foundry_input(&f, &Some(Burn::new().add_foundry(id(40))), &vec![], 250).is_none());
}

#[test]
fn implicit_accounts_become_accounts() {
    let implicit = output(OutputKind::Basic, Id::new(vec![]), Address::new(AddressKind::ImplicitAccountCreation, id(6)));
    let t = Some(Transitions::new().add_implicit_account(oid(4), id(8)));
    let o = transition_implicit_account_input(&implicit, &oid(4), &t).unwrap().unwrap();
    assert_eq!(o.kind, OutputKind::Account);
    assert_eq!(o.amount, 5000);
    assert_eq!(o.chain_id, oid(4).derived_chain_id());
    assert_eq!(o.address.kind, AddressKind::Ed25519);
    assert_eq!(o.address.id, id(6));
    let b = o.block_issuer.unwrap();
    assert_eq!((b.expiry_slot, b.keys), (u32::MAX, vec![id(8)]));
    assert!(transition_implicit_account_input(&implicit, &oid(5), &t).unwrap().is_none());

    let plain = output(OutputKind::Basic, Id::new(vec![]), Address::new(AddressKind::Ed25519, id(6)));
    assert!(matches!(
        transition_implicit_account_input(&plain, &oid(4), &t),
        Err(SelectionError::TransitionNonImplicitAccount(_))
    ));
}

#[test]
fn inputs_dispatch_by_kind() {
    let x = InputSigningData { output: account(7), output_id: oid(1), chain: None };
    assert!(transition_input(&x, &None, &vec![], &None, EPOCHS, 0, 300).unwrap().is_some());
    let d = InputSigningData {
        output: output(OutputKind::Delegation, id(2), Address::new(AddressKind::Ed25519, id(1))),
        output_id: oid(1),
        chain: None,
    };
    assert!(transition_input(&d, &None, &vec![], &None, EPOCHS, 0, 300).unwrap().is_none());
}

#[test]
fn chain_outputs_pair_with_the_inputs_of_their_chains() {
    let implicit = output(OutputKind::Basic, Id::new(vec![]), Address::new(AddressKind::ImplicitAccountCreation, id(6)));
    let nft = output(OutputKind::Nft, Id::null(32), Address::new(AddressKind::Ed25519, id(1)));
    let inputs = vec![
        InputSigningData { output: account(7), output_id: oid(1), chain: None },
        InputSigningData { output: foundry_of(7, 1, 40), output_id: oid(2), chain: None },
        InputSigningData { output: nft, output_id: oid(3), chain: None },
        InputSigningData { output: implicit, output_id: oid(4), chain: None },
    ];
    let outputs = vec![
        account(7),
        output(OutputKind::Account, Id::null(32), Address::new(AddressKind::Ed25519, id(1))),
        foundry_of(7, 1, 40),
        foundry_of(7, 2, 41),
        output(OutputKind::Nft, oid(3).derived_chain_id(), Address::new(AddressKind::Ed25519, id(1))),
        output(OutputKind::Account, oid(4).derived_chain_id(), Address::new(AddressKind::Ed25519, id(6))),
    ];
    let pairs = chain_transitions_to_validate(&inputs, &outputs);
    assert_eq!(
        pairs,
        vec![
            ChainPair::Account { input: 0, output: 0 },
            ChainPair::Foundry { input: 1, output: 2 },
            ChainPair::Nft { input: 2, output: 4 },
        ]
    );
    assert!(validate_transitions(&pairs, &vec![true, true, true], &outputs).is_ok());
    match validate_transitions(&pairs, &vec![true, false, false], &outputs) {
        Err(SelectionError::UnfulfillableRequirement(Requirement::Foundry(f))) => assert_eq!(f, id(40)),
        _ => panic!("expected the foundry to be refused"),
    }
}

#[test]
fn overlong_stakings_of_burned_continued_or_staking_accounts_need_no_room() {
    let begin = AccountChange::BeginStaking { staked_amount: 10, fixed_cost: 1, staking_period: Some(u32::MAX) };
    let t = Some(Transitions::new().add_account(id(7), begin));
    // A burned or continued account is left alone, whatever its change.
    let burn = Some(Burn::new().add_account(id(7)));
    assert!(transition_account_input(&account(7), &oid(1), &burn, &vec![], &t, EPOCHS, 0, 300).unwrap().is_none());
    assert!(transition_account_input(&account(7), &oid(1), &None, &vec![account(7)], &t, EPOCHS, 0, 300).unwrap().is_none());
    // An account that stakes already cannot begin staking, before any end epoch is computed.
    let mut input = account(7);
    input.staking = Some(staking(1, 2));
    assert!(matches!(
        transition_account_input(&input, &oid(1), &None, &vec![], &t, EPOCHS, 0, 300),
        Err(SelectionError::AlreadyStaking(_))
    ));
}
