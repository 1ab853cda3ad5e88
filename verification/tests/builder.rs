use iota_client::builder::TransactionBuilder;
use iota_client::ledger::{Address, AddressKind, CommittableAgeRange, Id, InputSigningData, Output, OutputId, OutputKind};
use iota_client::ordered_inputs::OrderedInputs;
use iota_client::remainders::{ManaFigures, Remainders};
use iota_client::burn::Burn;
use iota_client::token_amount::TokenAmount;
use iota_client::selection::{SelectionError, TransactionFailure};

const RANGE: CommittableAgeRange = CommittableAgeRange { min: 5, max: 15 };

fn id(b: u8) -> Id {
    Id::new(vec![b; 32])
}

fn ed(b: u8) -> Address {
    Address::new(AddressKind::Ed25519, id(b))
}

fn basic(amount: u64, to: u8) -> Output {
    Output {
        kind: OutputKind::Basic,
        amount,
        mana: 0,
        chain_id: Id::new(vec![]),
        address: ed(to),
        storage_deposit_return: None,
        expiration: None,
        timelock: None,
        native_token: None,
        circulating_supply: None,
        sender: None,
        issuer: None,
        block_issuer: None,
        staking: None,
        foundry_counter: 0,
        serial_number: 0,
        other_features: false,
    }
}

fn oid(b: u8) -> OutputId {
    OutputId { transaction_hash: id(b), slot_index: 1, index: 0 }
}

fn builder(selected_amount: u64, input_mana: u64, output_mana: u64) -> TransactionBuilder {
    let mut selected = OrderedInputs::new();
    selected.insert(ed(1), InputSigningData { output: basic(selected_amount, 1), output_id: oid(1), chain: None });
    TransactionBuilder {
        provided_outputs: vec![basic(100, 2)],
        added_outputs: vec![],
        available_inputs: vec![],
        selected_inputs: selected,
        remainder_address: None,
        burn: None,
        min_mana_allotment: false,
        remainders: Remainders {
            address: None,
            data: vec![],
            storage_deposit_returns: vec![],
            added_amount: vec![],
            added_mana: vec![],
        },
        mana: ManaFigures { input_mana, output_mana, initial_excess: 0, chains: vec![] },
        slots_remaining: 7,
        token_min_amount: 0,
        catchall_min_amount: 0,
        mana_rewards: vec![],
        reward_inputs: vec![],
        slot: 10,
        range: RANGE,
        allotted_mana: output_mana,
        generated_input_mana: input_mana,
    }
}

#[test]
fn finish_lists_inputs_and_outputs() {
    let d = builder(100, 0, 0).finish().unwrap();
    assert_eq!(d.inputs_data.len(), 1);
    assert!(d.inputs_data[0].output_id.same(&oid(1)));
    assert_eq!(d.outputs.len(), 1);
    assert_eq!(d.outputs[0].amount, 100);
}

#[test]
fn finish_adds_a_remainder_after_the_provided_outputs() {
    let d = builder(150, 0, 0).finish().unwrap();
    assert_eq!(d.outputs.len(), 2);
    assert_eq!((d.outputs[0].amount, d.outputs[0].address.id.clone()), (100, id(2)));
    // The remainder goes to the address of the selected input.
    assert_eq!((d.outputs[1].amount, d.outputs[1].address.id.clone()), (50, id(1)));
    // The outputs hold what the inputs bring.
    assert_eq!(d.outputs.iter().map(|o| o.amount).sum::<u64>(), 150);
}

#[test]
fn finish_reports_missing_mana_and_stray_rewards() {
    assert!(matches!(
        builder(100, 3, 5).finish(),
        Err(SelectionError::InsufficientMana { found: 3, required: 5, slots_remaining: 7 })
    ));
    let mut b = builder(100, 0, 0);
    b.mana_rewards = vec![(oid(9), 4)];
    assert!(matches!(b.finish(), Err(SelectionError::ExtraManaRewards(_))));
    let mut b = builder(100, 0, 0);
    b.selected_inputs = OrderedInputs::new();
    b.min_mana_allotment = true;
    assert!(matches!(b.finish(), Err(SelectionError::InvalidInputCount(0))));
}

fn input(output: Output, b: u8) -> InputSigningData {
    InputSigningData { output, output_id: oid(b), chain: None }
}

#[test]
fn start_selects_the_required_inputs() {
    let inputs = vec![input(basic(10, 1), 1), input(basic(20, 1), 2), input(basic(30, 9), 3)];
    let s = TransactionBuilder::start(inputs, &vec![ed(1)], &vec![oid(2)], &None, &vec![basic(5, 2)], false, 10, 1, RANGE)
        .unwrap();
    // The input of an unknown address does not take part; the required one is selected.
    assert_eq!(s.selected.len(), 1);
    let ids: Vec<u8> = s.available.iter().map(|i| i.output_id.transaction_hash.bytes[0]).collect();
    assert_eq!(ids, vec![1]);
    assert_eq!(s.requirements.len(), 3);
}

#[test]
fn start_reports_its_errors() {
    let inputs = vec![input(basic(10, 1), 1)];
    assert!(matches!(
        TransactionBuilder::start(inputs.clone(), &vec![ed(1)], &vec![], &None, &vec![], false, 10, 1, RANGE),
        Err(SelectionError::InvalidOutputCount(0))
    ));
    assert!(matches!(
        TransactionBuilder::start(inputs.clone(), &vec![ed(7)], &vec![], &None, &vec![basic(5, 2)], false, 10, 1, RANGE),
        Err(SelectionError::NoAvailableInputsProvided)
    ));
    assert!(matches!(
        TransactionBuilder::start(inputs, &vec![ed(1)], &vec![oid(4)], &None, &vec![basic(5, 2)], false, 10, 1, RANGE),
        Err(SelectionError::RequiredInputIsNotAvailable(_))
    ));
}

#[test]
fn default_transitions_are_empty() {
    let t = iota_client::transitions::Transitions::default();
    assert!(t.accounts().is_empty());
    assert!(t.implicit_accounts().is_empty());
}

#[test]
fn finish_validates_the_balance_of_given_remainders() {
    // Remainders given as they are, under a minimum allotment, that leave amount behind.
    let mut b = builder(150, 0, 0);
    b.min_mana_allotment = true;
    assert!(matches!(
        b.finish(),
        Err(SelectionError::Semantic(TransactionFailure::InputOutputBaseTokenMismatch))
    ));
    let mut b = builder(100, 0, 0);
    b.min_mana_allotment = true;
    assert!(b.finish().is_ok());
}

#[test]
fn finish_validates_the_mana_balance() {
    // The allotments take more mana than the inputs bring with what they generate.
    let mut b = builder(100, 10, 4);
    b.generated_input_mana = 5;
    assert!(matches!(b.finish(), Err(SelectionError::Semantic(TransactionFailure::InputOutputManaMismatch))));
    // Generated mana left over without burning it.
    let mut b = builder(100, 10, 4);
    b.generated_input_mana = 12;
    assert!(matches!(
        b.finish(),
        Err(SelectionError::Semantic(TransactionFailure::CapabilitiesManaBurningNotAllowed))
    ));
    // Burning the generated mana allows it and sets the capability.
    let mut b = builder(100, 10, 4);
    b.generated_input_mana = 12;
    b.burn = Some(Burn::new().set_generated_mana(true));
    let d = b.finish().unwrap();
    assert!(d.capabilities.burn_mana);
    assert!(!d.capabilities.burn_native_tokens);
    // Balanced mana: the excess goes to a remainder.
    let d = builder(100, 10, 4).finish().unwrap();
    assert_eq!(d.outputs.iter().map(|o| o.mana).sum::<u64>() + 4, 10);
    assert!(!d.capabilities.burn_mana);
}

#[test]
fn finish_sets_the_native_token_burn_capability() {
    let mut b = builder(100, 0, 0);
    b.min_mana_allotment = true;
    b.burn = Some(Burn::new().add_native_token(id(5), TokenAmount([3, 0, 0, 0])));
    let d = b.finish().unwrap();
    assert!(d.capabilities.burn_native_tokens);
}
