use iota_client::context_inputs::{fulfill_context_inputs_requirement, ContextInput};
use iota_client::ledger::{
    Address, AddressKind, BlockIssuerFeature, Id, InputSigningData, Output, OutputId, OutputKind,
};

fn id(b: u8) -> Id {
    Id::new(vec![b; 32])
}

fn oid(b: u8) -> OutputId {
    OutputId { transaction_hash: id(b), slot_index: 1, index: 0 }
}

fn output(kind: OutputKind, chain: Id, address: Address) -> Output {
    Output {
        kind,
        amount: 1,
        mana: 0,
        chain_id: chain,
        address,
        storage_deposit_return: None,
        expiration: None,
        timelock: None,
        native_token: None,
        circulating_supply: None,
        sender: None,
        issuer: None,
        block_issuer: None,
        staking: None,
        foundry_counter: 0,
        serial_number: 0,
        other_features: false,
    }
}

fn basic() -> Output {
    output(OutputKind::Basic, Id::new(vec![]), Address::new(AddressKind::Ed25519, id(1)))
}

fn input(output: Output, b: u8) -> InputSigningData {
    InputSigningData { output, output_id: oid(b), chain: None }
}

fn describe(v: &Vec<ContextInput>) -> Vec<String> {
    v.iter()
        .map(|c| match c {
            ContextInput::BlockIssuanceCredit(a) => format!("credit {}", a.bytes[0]),
            ContextInput::Commitment(a) => format!("commitment {}", a.bytes[0]),
            ContextInput::Reward(i) => format!("reward {i}"),
        })
        .collect()
}

#[test]
fn inputs_ask_for_credits_rewards_and_a_commitment() {
    let mut issuer = output(OutputKind::Account, id(7), Address::new(AddressKind::Ed25519, id(1)));
    issuer.block_issuer = Some(BlockIssuerFeature { expiry_slot: 9, keys: vec![id(2)] });
    let mut locked = basic();
    locked.timelock = Some(50);
    let implicit = output(OutputKind::Basic, Id::new(vec![]), Address::new(AddressKind::ImplicitAccountCreation, id(1)));
    let selected = vec![input(issuer, 1), input(locked, 2), input(implicit, 3), input(basic(), 4)];
    let mut ctx = Vec::new();
    let picked = fulfill_context_inputs_requirement(&mut ctx, &selected, &vec![oid(4)], &vec![basic()], &id(99));
    assert!(picked.is_empty());
    let implicit_credit = format!("credit {}", oid(3).derived_chain_id().bytes[0]);
    assert_eq!(describe(&ctx), vec!["credit 7".to_string(), implicit_credit, "reward 3".to_string(), "commitment 99".to_string()]);
}

#[test]
fn plain_inputs_need_no_context() {
    let mut ctx = Vec::new();
    fulfill_context_inputs_requirement(&mut ctx, &vec![input(basic(), 1)], &vec![], &vec![basic()], &id(99));
    assert!(ctx.is_empty());
}

#[test]
fn delegations_need_a_single_commitment() {
    let delegation = output(OutputKind::Delegation, Id::null(32), Address::new(AddressKind::Ed25519, id(1)));
    let mut ctx = Vec::new();
    fulfill_context_inputs_requirement(&mut ctx, &vec![input(basic(), 1)], &vec![], &vec![delegation], &id(99));
    assert_eq!(describe(&ctx), vec!["commitment 99".to_string()]);

    let mut ctx = vec![ContextInput::Commitment(id(5))];
    let delegation = output(OutputKind::Delegation, Id::null(32), Address::new(AddressKind::Ed25519, id(1)));
    fulfill_context_inputs_requirement(&mut ctx, &vec![input(basic(), 1)], &vec![], &vec![delegation], &id(99));
    assert_eq!(describe(&ctx), vec!["commitment 5".to_string()]);
}
