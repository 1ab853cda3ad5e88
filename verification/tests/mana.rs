use iota_client::burn::Burn;
use iota_client::ledger::{Address, AddressKind, Id, InputSigningData, Output, OutputId, OutputKind};
use iota_client::ledger::{CommittableAgeRange, Expiration};
use iota_client::mana::{
    best_score, mana_balance_step, take_best_scored,
    add_excess_mana, fulfill_mana_requirement, get_output_for_added_mana, initial_mana_excess, mana_chains, mana_sums,
    output_for_added_mana_exists, total_mana, total_selected_mana,
};
use iota_client::remainders::{RemainderData, Remainders};

fn id(b: u8) -> Id {
    Id::new(vec![b; 32])
}

fn addr(b: u8) -> Address {
    Address::new(AddressKind::Ed25519, id(b))
}

fn output(kind: OutputKind, chain: u8, amount: u64, mana: u64) -> Output {
    Output {
        kind,
        amount,
        mana,
        chain_id: if kind == OutputKind::Basic { Id::new(vec![]) } else { id(chain) },
        address: addr(1),
        storage_deposit_return: None,
        expiration: None,
        timelock: None,
        native_token: None,
        circulating_supply: None,
        sender: None,
        issuer: None,
        block_issuer: None,
        staking: None,
        foundry_counter: 0,
        serial_number: 0,
        other_features: false,
    }
}

fn oid(b: u8) -> OutputId {
    OutputId { transaction_hash: id(b), slot_index: 1, index: 0 }
}

fn input(output: Output, b: u8) -> InputSigningData {
    InputSigningData { output, output_id: oid(b), chain: None }
}

fn empty_remainders() -> Remainders {
    Remainders { address: None, data: vec![], storage_deposit_returns: vec![], added_amount: vec![], added_mana: vec![] }
}

#[test]
fn input_mana_counts_rewards_and_generation() {
    let x = input(output(OutputKind::Basic, 0, 100, 40), 1);
    let rewards = vec![(oid(2), 7), (oid(1), 5), (oid(1), 9)];
    // The first reward entry of the output counts.
    assert_eq!(total_mana(&x, &rewards, true, 60), 65);
    // Without generated mana only what the output holds counts.
    assert_eq!(total_mana(&x, &rewards, false, 60), 45);
    assert_eq!(total_mana(&x, &vec![], false, 60), 40);
}

#[test]
fn selected_and_required_mana() {
    let selected = vec![input(output(OutputKind::Basic, 0, 100, 40), 1), input(output(OutputKind::Nft, 9, 100, 10), 2)];
    let rewards = vec![(oid(2), 3)];
    assert_eq!(total_selected_mana(&selected, &rewards, true, &vec![50, 20]), 73);
    assert_eq!(total_selected_mana(&selected, &rewards, false, &vec![50, 20]), 53);

    let outputs = vec![output(OutputKind::Basic, 0, 100, 30)];
    let mut remainders = empty_remainders();
    remainders.data.push(RemainderData { output: output(OutputKind::Basic, 0, 10, 4), chain: None, address: addr(1) });
    remainders.added_mana.push((None, 2));
    let allotments = vec![(id(5), 6), (id(6), 8)];
    let burn = Some(Burn::new().set_generated_mana(true));
    // No issuer: all allotments count.
    let (sel, req) = mana_sums(&selected, &rewards, &None, &vec![50, 20], &outputs, &remainders, &allotments, &None, None, false);
    assert_eq!((sel, req), (73, 44));
    // Burning generated mana leaves it out; the remainders count where asked.
    let (sel, req) = mana_sums(&selected, &rewards, &burn, &vec![50, 20], &outputs, &remainders, &allotments, &None, None, true);
    assert_eq!((sel, req), (53, 50));
    // The issuer's allotment counts as the required allotment where that is more.
    let (_, req) = mana_sums(&selected, &rewards, &None, &vec![50, 20], &outputs, &remainders, &allotments, &Some(id(5)), Some(20), false);
    assert_eq!(req, 58);
    let (_, req) = mana_sums(&selected, &rewards, &None, &vec![50, 20], &outputs, &remainders, &allotments, &Some(id(5)), Some(1), false);
    assert_eq!(req, 44);
    // An issuer without an allotment yet.
    let (_, req) = mana_sums(&selected, &rewards, &None, &vec![50, 20], &outputs, &remainders, &allotments, &Some(id(7)), Some(12), false);
    assert_eq!(req, 56);
}

#[test]
fn initial_excess_of_required_inputs() {
    let selected = vec![input(output(OutputKind::Basic, 0, 100, 40), 1), input(output(OutputKind::Basic, 0, 100, 10), 2)];
    let provided = vec![output(OutputKind::Basic, 0, 100, 15)];
    // Only the required input counts.
    assert_eq!(initial_mana_excess(&selected, &vec![oid(1)], &provided, &vec![], &None, &vec![50, 20]), 35);
    let burn = Some(Burn::new().set_generated_mana(true));
    assert_eq!(initial_mana_excess(&selected, &vec![oid(1)], &provided, &vec![], &burn, &vec![50, 20]), 25);
    // Saturates at zero.
    assert_eq!(initial_mana_excess(&selected, &vec![oid(2)], &provided, &vec![], &burn, &vec![50, 20]), 0);
}

#[test]
fn chains_collect_mana() {
    let outputs = vec![output(OutputKind::Account, 3, 100, 10), output(OutputKind::Basic, 0, 5, 99), output(OutputKind::Account, 3, 100, 12)];
    let selected = vec![
        input(output(OutputKind::Account, 3, 100, 40), 1),
        input(output(OutputKind::Basic, 0, 100, 10), 2),
        input(output(OutputKind::Nft, 4, 100, 1), 3),
    ];
    let chains = mana_chains(&outputs, &selected, &vec![(oid(3), 2)], &None, &vec![50, 20, 30]);
    let v: Vec<(u8, u64, u64)> = chains.iter().map(|(k, i, o)| (k.bytes[0], *i, *o)).collect();
    // A later output of a chain replaces an earlier one; basic outputs have no chain.
    assert_eq!(v, vec![(3, 50, 12), (4, 32, 0)]);
}

#[test]
fn mana_requirement_takes_inputs_from_the_end() {
    let mut available = vec![
        input(output(OutputKind::Basic, 0, 1, 0), 1),
        input(output(OutputKind::Basic, 0, 1, 0), 2),
        input(output(OutputKind::Basic, 0, 1, 0), 3),
    ];
    let picked = fulfill_mana_requirement(10, 35, &mut available, &vec![100, 20, 10]).unwrap();
    let ids: Vec<u8> = picked.iter().map(|i| i.output_id.transaction_hash.bytes[0]).collect();
    assert_eq!(ids, vec![3, 2]);
    assert_eq!(available.len(), 1);

    let mut available = vec![input(output(OutputKind::Basic, 0, 1, 0), 1)];
    assert!(fulfill_mana_requirement(40, 35, &mut available, &vec![5]).unwrap().is_empty());
    assert_eq!(available.len(), 1);

    let e = fulfill_mana_requirement(10, 35, &mut available, &vec![5]).unwrap_err();
    assert_eq!((e.found, e.required), (15, 35));
    assert!(available.is_empty());
}

const RANGE: CommittableAgeRange = CommittableAgeRange { min: 5, max: 15 };

fn owned(kind: OutputKind, chain: u8, owner: u8) -> Output {
    let mut o = output(kind, chain, 100, 1);
    o.address = addr(owner);
    o
}

#[test]
fn excess_mana_goes_to_the_last_output_of_the_first_kind_that_fits() {
    let outputs = vec![
        owned(OutputKind::Basic, 0, 1),
        owned(OutputKind::Nft, 4, 1),
        owned(OutputKind::Basic, 0, 1),
        owned(OutputKind::Account, 3, 2),
    ];
    assert!(output_for_added_mana_exists(&outputs, &addr(1), 10, RANGE));
    assert!(!output_for_added_mana_exists(&outputs, &addr(9), 10, RANGE));
    // The account is not unlocked by the address; of the basic outputs the last counts.
    assert_eq!(get_output_for_added_mana(&outputs, &addr(1), 10, RANGE), Some(2));
    assert_eq!(get_output_for_added_mana(&outputs, &addr(2), 10, RANGE), Some(3));
    assert_eq!(get_output_for_added_mana(&outputs, &addr(9), 10, RANGE), None);

    // Only the last basic output is looked at: where the address does not unlock it, the nft is next.
    let mut outputs = vec![owned(OutputKind::Basic, 0, 1), owned(OutputKind::Nft, 4, 1), owned(OutputKind::Basic, 0, 2)];
    assert_eq!(get_output_for_added_mana(&outputs, &addr(1), 10, RANGE), Some(1));
    // An expiring output takes no excess mana.
    outputs[1].expiration = Some(Expiration { return_address: addr(5), slot_index: 100 });
    assert_eq!(get_output_for_added_mana(&outputs, &addr(1), 10, RANGE), None);

    let mut outputs = vec![owned(OutputKind::Basic, 0, 1), owned(OutputKind::Nft, 4, 1)];
    assert!(add_excess_mana(&mut outputs, &addr(1), 10, RANGE, 25));
    assert_eq!(outputs[0].mana, 26);
    assert_eq!(outputs[1].mana, 1);
    assert!(!add_excess_mana(&mut outputs, &addr(7), 10, RANGE, 25));
}

#[test]
fn the_best_scored_input_is_taken_last_of_equals() {
    assert_eq!(best_score(&vec![Some(3), None, Some(7), Some(7), Some(1)]), Some(3));
    assert_eq!(best_score(&vec![None, None]), None);
    let mut available = vec![
        input(output(OutputKind::Basic, 0, 1, 0), 1),
        input(output(OutputKind::Basic, 0, 1, 0), 2),
        input(output(OutputKind::Basic, 0, 1, 0), 3),
    ];
    let x = take_best_scored(&mut available, &vec![Some(9), None, Some(2)]).unwrap();
    assert_eq!(x.output_id.transaction_hash.bytes[0], 1);
    let rest: Vec<u8> = available.iter().map(|i| i.output_id.transaction_hash.bytes[0]).collect();
    assert_eq!(rest, vec![3, 2]);
    assert!(take_best_scored(&mut available, &vec![None, None]).is_none());
}

#[test]
fn the_mana_requirement_asks_for_the_missing_mana() {
    assert!(matches!(mana_balance_step(10, 10, false), Ok(None)));
    assert!(matches!(mana_balance_step(4, 10, true), Ok(Some(6))));
    assert!(matches!(
        mana_balance_step(4, 10, false),
        Err(iota_client::selection::SelectionError::AdditionalInputsRequired(
            iota_client::requirement::Requirement::Mana
        ))
    ));
}
