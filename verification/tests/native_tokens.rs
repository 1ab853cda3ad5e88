use iota_client::burn::Burn;
use iota_client::ledger::{Address, AddressKind, Id, InputSigningData, NativeToken, Output, OutputId, OutputKind};
use iota_client::native_tokens::{
    fulfill_native_tokens_requirement, get_minted_and_melted_native_tokens, get_native_tokens,
    get_native_tokens_diff,
};
use iota_client::selection::SelectionError;
use iota_client::token_amount::TokenAmount;

fn id(b: u8) -> Id {
    Id::new(vec![b; 32])
}

fn amt(v: u64) -> TokenAmount {
    TokenAmount::from(v)
}

fn output(kind: OutputKind, chain: Id, token: Option<(u8, u64)>, supply: Option<u64>) -> Output {
    Output {
        kind,
        amount: 1000,
        mana: 0,
        chain_id: chain,
        address: Address::new(AddressKind::Ed25519, id(1)),
        storage_deposit_return: None,
        expiration: None,
        timelock: None,
        native_token: token.map(|(t, a)| NativeToken { token_id: id(t), amount: amt(a) }),
        circulating_supply: supply.map(amt),
        sender: None,
        issuer: None,
        block_issuer: None,
        staking: None,
        foundry_counter: 0,
        serial_number: 0,
        other_features: false,
    }
}

fn basic(token: Option<(u8, u64)>) -> Output {
    output(OutputKind::Basic, Id::new(vec![]), token, None)
}

fn foundry(fid: u8, supply: u64) -> Output {
    output(OutputKind::Foundry, id(fid), None, Some(supply))
}

fn input(output: Output, b: u8) -> InputSigningData {
    InputSigningData { output, output_id: OutputId { transaction_hash: id(b), slot_index: 1, index: 0 }, chain: None }
}

fn tags(v: &Vec<InputSigningData>) -> Vec<u8> {
    v.iter().map(|i| i.output_id.transaction_hash.bytes[0]).collect()
}

fn pairs(v: &Vec<(Id, TokenAmount)>) -> Vec<(u8, TokenAmount)> {
    v.iter().map(|(k, a)| (k.bytes[0], *a)).collect()
}

#[test]
fn sums_per_token_in_token_order() {
    let outs = vec![basic(Some((9, 10))), basic(Some((3, 5))), basic(None), basic(Some((9, 7)))];
    assert_eq!(pairs(&get_native_tokens(&outs)), vec![(3, amt(5)), (9, amt(17))]);
    assert!(get_native_tokens(&vec![]).is_empty());
}

#[test]
fn sums_carry_into_higher_words() {
    let big = TokenAmount([u64::MAX, 0, 0, 0]);
    let mut a = basic(None);
    a.native_token = Some(NativeToken { token_id: id(4), amount: big });
    let mut b = basic(None);
    b.native_token = Some(NativeToken { token_id: id(4), amount: amt(2) });
    assert_eq!(pairs(&get_native_tokens(&vec![a, b])), vec![(4, TokenAmount([1, 1, 0, 0]))]);
}

#[test]
fn diff_keeps_the_excess_of_the_first_sums() {
    let a = vec![(id(3), amt(10)), (id(5), amt(4)), (id(9), amt(7))];
    let b = vec![(id(3), amt(4)), (id(9), amt(7))];
    let d = get_native_tokens_diff(&a, &b).unwrap();
    assert_eq!(pairs(&d), vec![(3, amt(6)), (5, amt(4))]);
    assert!(get_native_tokens_diff(&b, &a).is_none());
    assert!(get_native_tokens_diff(&vec![], &a).is_none());
}

#[test]
fn foundry_supply_changes_mint_and_melt() {
    let grown = get_minted_and_melted_native_tokens(&vec![foundry(7, 100)], &vec![input(foundry(7, 60), 1)]);
    assert_eq!(pairs(&grown.0), vec![(7, amt(40))]);
    assert!(grown.1.is_empty());

    let shrunk = get_minted_and_melted_native_tokens(&vec![foundry(7, 30)], &vec![input(foundry(7, 60), 1)]);
    assert!(shrunk.0.is_empty());
    assert_eq!(pairs(&shrunk.1), vec![(7, amt(30))]);

    let created = get_minted_and_melted_native_tokens(&vec![foundry(7, 100), foundry(8, 0)], &vec![input(foundry(6, 5), 1)]);
    assert_eq!(pairs(&created.0), vec![(7, amt(100))]);
    assert!(created.1.is_empty());

    let unchanged = get_minted_and_melted_native_tokens(&vec![foundry(7, 60)], &vec![input(foundry(7, 60), 1)]);
    assert!(unchanged.0.is_empty() && unchanged.1.is_empty());
}

#[test]
fn picks_inputs_until_the_token_is_covered() {
    let selected = vec![input(basic(Some((5, 10))), 1)];
    let outputs = vec![basic(Some((5, 50)))];
    let mut available = vec![
        input(basic(Some((5, 15))), 10),
        input(basic(None), 11),
        input(basic(Some((5, 30))), 12),
        input(basic(Some((5, 20))), 13),
    ];
    let picked = fulfill_native_tokens_requirement(&selected, &outputs, &None, &mut available, true).unwrap();
    assert_eq!(tags(&picked), vec![10, 12]);
    assert_eq!(tags(&available), vec![11, 13]);
}

#[test]
fn reports_a_token_that_cannot_be_covered() {
    let selected = vec![input(basic(Some((5, 10))), 1)];
    let outputs = vec![basic(Some((5, 100))), basic(Some((2, 1)))];
    let mut available = vec![input(basic(Some((5, 15))), 10), input(basic(Some((5, 30))), 12), input(basic(Some((2, 3))), 14)];
    let r = fulfill_native_tokens_requirement(&selected, &outputs, &None, &mut available, true);
    match r {
        Err(SelectionError::InsufficientNativeTokenAmount { token_id, found, required }) => {
            // Token 2 comes first in token order and is covered; token 5 is not.
            assert_eq!(token_id.bytes[0], 5);
            assert_eq!(found, amt(45));
            assert_eq!(required, amt(90));
        }
        _ => panic!("expected an insufficient native token amount"),
    }
    assert_eq!(tags(&available), vec![10, 12, 14]);
}

#[test]
fn burned_tokens_must_be_brought_by_inputs() {
    let burn = Burn::new().add_native_token(id(5), amt(8));
    let mut available = vec![input(basic(Some((5, 3))), 10), input(basic(Some((5, 6))), 11), input(basic(Some((5, 1))), 12)];
    let picked = fulfill_native_tokens_requirement(&vec![], &vec![], &Some(burn), &mut available, true).unwrap();
    assert_eq!(tags(&picked), vec![10, 11]);
    assert_eq!(tags(&available), vec![12]);
}

#[test]
fn minted_tokens_cover_outputs() {
    let outputs = vec![foundry(5, 50), basic(Some((5, 50)))];
    let mut available = vec![input(basic(Some((5, 3))), 10)];
    let picked = fulfill_native_tokens_requirement(&vec![], &outputs, &None, &mut available, true).unwrap();
    assert!(picked.is_empty());
    assert_eq!(tags(&available), vec![10]);
}

#[test]
fn melted_tokens_must_be_brought_by_inputs() {
    let selected = vec![input(foundry(5, 50), 1)];
    let outputs = vec![foundry(5, 20)];
    let mut available = vec![input(basic(Some((5, 40))), 10)];
    let picked = fulfill_native_tokens_requirement(&selected, &outputs, &None, &mut available, true).unwrap();
    assert_eq!(tags(&picked), vec![10]);
    assert!(available.is_empty());
}

#[test]
fn disabled_selection_asks_for_inputs_with_the_token() {
    let selected = vec![input(basic(Some((5, 10))), 1)];
    let outputs = vec![basic(Some((5, 50)))];
    let mut available = vec![input(basic(Some((5, 45))), 10)];
    let r = fulfill_native_tokens_requirement(&selected, &outputs, &None, &mut available, false);
    assert!(matches!(
        r,
        Err(SelectionError::AdditionalInputsRequired(iota_client::requirement::Requirement::NativeTokens))
    ));
    assert_eq!(tags(&available), vec![10]);
    // Nothing short: nothing to select, disabled or not.
    let outputs = vec![basic(Some((5, 10)))];
    assert!(fulfill_native_tokens_requirement(&selected, &outputs, &None, &mut available, false).unwrap().is_empty());
}
