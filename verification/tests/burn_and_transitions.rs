use iota_client::burn::Burn;
use iota_client::ledger::{Id, NativeToken, OutputId};
use iota_client::transitions::{AccountChange, Transitions};
use iota_client::token_amount::TokenAmount;

fn id(b: u8) -> Id {
    Id::new(vec![b; 32])
}

#[test]
fn burn_collects_each_chain_once() {
    let burn = Burn::new()
        .add_account(id(1))
        .add_account(id(1))
        .add_foundry(id(2))
        .add_nft(id(3))
        .add_delegation(id(4))
        .set_mana(true);
    assert_eq!(burn.accounts().len(), 1);
    assert_eq!(burn.foundries().len(), 1);
    assert_eq!(burn.nfts().len(), 1);
    assert_eq!(burn.delegations().len(), 1);
    assert!(burn.mana());
    assert!(!burn.generated_mana());
    let burn = burn.set_accounts(vec![id(5), id(6), id(5)]).set_generated_mana(true);
    assert_eq!(burn.accounts().len(), 2);
    assert_eq!(burn.accounts()[0].bytes, vec![5; 32]);
    assert_eq!(burn.accounts()[1].bytes, vec![6; 32]);
    assert!(burn.generated_mana());
}

#[test]
fn burn_native_tokens_in_token_order() {
    let burn = Burn::new()
        .add_native_token(id(9), TokenAmount::from(10u64))
        .add_native_token(id(3), TokenAmount::from(20u64))
        .add_native_token(id(9), TokenAmount::from(30u64));
    let tokens = burn.native_tokens();
    assert_eq!(tokens.len(), 2);
    assert_eq!(tokens[0].0.bytes, vec![3; 32]);
    assert_eq!(tokens[0].1, TokenAmount::from(20u64));
    assert_eq!(tokens[1].0.bytes, vec![9; 32]);
    assert_eq!(tokens[1].1, TokenAmount::from(30u64));
    let burn = burn.set_native_tokens(vec![(id(7), TokenAmount::from(1u64)), (id(2), TokenAmount::from(2u64)), (id(7), TokenAmount::from(3u64))]);
    let tokens = burn.native_tokens();
    assert_eq!(tokens.len(), 2);
    assert_eq!(tokens[0].0.bytes, vec![2; 32]);
    assert_eq!(tokens[1].1, TokenAmount::from(3u64));
    let one = Burn::from_native_token(NativeToken { token_id: id(1), amount: TokenAmount::from(5u64) });
    assert_eq!(one.native_tokens().len(), 1);
    assert_eq!(Burn::from_account(id(1)).accounts().len(), 1);
    assert_eq!(Burn::from_nft(id(1)).nfts().len(), 1);
    assert_eq!(Burn::from_foundry(id(1)).foundries().len(), 1);
    assert_eq!(Burn::from_delegation(id(1)).delegations().len(), 1);
}

fn oid(b: u8) -> OutputId {
    OutputId { transaction_hash: id(b), slot_index: 3, index: 0 }
}

#[test]
fn transitions_keep_one_entry_per_key() {
    let t = Transitions::new()
        .add_implicit_account(oid(1), id(10))
        .add_implicit_account(oid(1), id(11))
        .add_account(id(2), AccountChange::EndStaking)
        .add_account(id(2), AccountChange::ExtendStaking { additional_epochs: 4 });
    assert_eq!(t.implicit_accounts().len(), 1);
    assert_eq!(t.implicit_accounts()[0].1.bytes, vec![11; 32]);
    assert_eq!(t.accounts().len(), 1);
    assert!(matches!(t.accounts()[0].1, AccountChange::ExtendStaking { additional_epochs: 4 }));
    let t = t
        .set_implicit_accounts(vec![(oid(3), id(1)), (oid(4), id(2)), (oid(3), id(5))])
        .set_accounts(vec![(
            id(8),
            AccountChange::BeginStaking { staked_amount: 100, fixed_cost: 1, staking_period: None },
        )]);
    assert_eq!(t.implicit_accounts().len(), 2);
    assert_eq!(t.implicit_accounts()[0].1.bytes, vec![5; 32]);
    assert_eq!(t.accounts().len(), 1);
}
