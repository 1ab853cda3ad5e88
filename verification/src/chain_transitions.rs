//! Automatic transitions of chain outputs: when an account, nft or foundry input is
//! selected and no output continues its chain, an output that does is created; a basic
//! output asked to become an implicit account's account becomes one.

use vstd::prelude::*;

use crate::amount::inputs_view;
use crate::burn::{ids_view, Burn};
use crate::ledger::{
    block_issuer_view, id_list_view, is_null_id, InputV, Address, AddressKind, AddressV, BlockIssuerFeature, Id,
    InputSigningData, Output, OutputId, OutputIdV, OutputKind, OutputV, StakingFeature,
};
use crate::requirement::{Requirement, RequirementV};
use crate::selection::{contains_id, SelectionError, SelectionErrorV};
use crate::transitions::{
    accounts_view, implicit_view, keys_unique, lemma_list_map_unique, list_map, AccountChange, Transitions,
};

verus! {

/// The epochs that the protocol parameters derive from the latest slot commitment, which
/// staking changes read.
#[derive(Clone, Copy, Debug, PartialEq, Eq, Structural)]
pub struct StakingEpochs {
    /// The epoch of the past-bounded slot of the latest commitment: where a new staking starts.
    pub start_epoch: u32,
    /// The past-bounded epoch of the latest commitment: where a renewed staking starts.
    pub past_bounded_epoch: u32,
    /// The future-bounded epoch of the latest commitment.
    pub future_bounded_epoch: u32,
    /// The staking unbonding period, in epochs.
    pub unbonding_period: u32,
}

/// `a + b`, or the largest `u32` where the sum does not fit.
pub open spec fn saturating_add(a: u32, b: u32) -> u32 {
    if a + b > u32::MAX {
        u32::MAX
    } else {
        (a + b) as u32
    }
}

/// The keys of `keys` that `remove` does not hold, in their order.
pub open spec fn keys_kept(keys: Seq<Seq<u8>>, remove: Seq<Seq<u8>>) -> Seq<Seq<u8>>
    decreases keys.len(),
{
    if keys.len() == 0 {
        Seq::empty()
    } else {
        let r = keys_kept(keys.drop_last(), remove);
        if remove.contains(keys.last()) {
            r
        } else {
            r.push(keys.last())
        }
    }
}

/// Whether a change of an account with the staking feature `staking` can be applied
/// without an overflow of its end epoch: only a staking that begins where there is none
/// adds its period to the start epoch.
pub open spec fn change_fits(change: AccountChange, staking: Option<StakingFeature>, ep: StakingEpochs) -> bool {
    match change {
        AccountChange::BeginStaking { staking_period: Some(p), .. } => staking is Some || ep.start_epoch + p
            <= u32::MAX,
        _ => true,
    }
}

/// Whether the change asked of the account `input`, spent by `output_id`, fits where it is
/// applied: the account is neither burned nor continued by an output already.
pub open spec fn account_change_fits(
    input: OutputV,
    output_id: OutputIdV,
    burn: Option<Burn>,
    outputs: Seq<OutputV>,
    t: Option<Transitions>,
    ep: StakingEpochs,
) -> bool {
    let id = input.chain_id_non_null(output_id);
    !burns_chain(burn, OutputKind::Account, id) && !holds_chain(outputs, OutputKind::Account, id) ==> (change_of(
        t,
        id,
    ) matches Some(c) ==> change_fits(c, input.staking, ep))
}

/// The staking and block issuer features of account `account_id` after `change`, or the
/// error where the account cannot undergo it.
pub open spec fn account_change_spec(
    staking: Option<StakingFeature>,
    block_issuer: Option<(u32, Seq<Seq<u8>>)>,
    change: AccountChange,
    account_id: Seq<u8>,
    ep: StakingEpochs,
) -> Result<(Option<StakingFeature>, Option<(u32, Seq<Seq<u8>>)>), SelectionErrorV> {
    match change {
        AccountChange::BeginStaking { staked_amount, fixed_cost, staking_period } => if staking is Some {
            Err(SelectionErrorV::AlreadyStaking(account_id))
        } else {
            Ok(
                (
                    Some(
                        StakingFeature {
                            staked_amount,
                            fixed_cost,
                            start_epoch: ep.start_epoch,
                            end_epoch: match staking_period {
                                Some(p) => (ep.start_epoch + p) as u32,
                                None => u32::MAX,
                            },
                        },
                    ),
                    block_issuer,
                ),
            )
        },
        AccountChange::ExtendStaking { additional_epochs } => match staking {
            Some(f) => if ep.future_bounded_epoch <= f.end_epoch {
                Ok(
                    (
                        Some(
                            StakingFeature {
                                end_epoch: saturating_add(f.end_epoch, additional_epochs),
                                ..f
                            },
                        ),
                        block_issuer,
                    ),
                )
            } else if additional_epochs < ep.unbonding_period {
                Err(
                    SelectionErrorV::StakingPeriodLessThanMin {
                        additional_epochs,
                        min: ep.unbonding_period,
                    },
                )
            } else {
                Ok(
                    (
                        Some(
                            StakingFeature {
                                start_epoch: ep.past_bounded_epoch,
                                end_epoch: saturating_add(ep.past_bounded_epoch, additional_epochs),
                                ..f
                            },
                        ),
                        block_issuer,
                    ),
                )
            },
            None => Err(SelectionErrorV::NotStaking(account_id)),
        },
        AccountChange::EndStaking => if staking is None {
            Err(SelectionErrorV::NotStaking(account_id))
        } else {
            Ok((None, block_issuer))
        },
        AccountChange::ModifyBlockIssuerKeys { keys_to_add, keys_to_remove } => match block_issuer {
            Some((expiry, keys)) => Ok(
                (
                    staking,
                    Some(
                        (
                            expiry,
                            keys_kept(keys, id_list_view(keys_to_remove@)) + id_list_view(
                                keys_to_add@,
                            ),
                        ),
                    ),
                ),
            ),
            None => Err(SelectionErrorV::MissingBlockIssuerFeature(account_id)),
        },
    }
}

/// The block issuer keys kept after `remove`, followed by those of `add`.
fn updated_keys(keys: &Vec<Id>, add: &Vec<Id>, remove: &Vec<Id>) -> (r: Vec<Id>)
    ensures
        id_list_view(r@) == keys_kept(id_list_view(keys@), id_list_view(remove@)) + id_list_view(add@),
{
    let ghost kv = id_list_view(keys@);
    let ghost rv = id_list_view(remove@);
    let mut r: Vec<Id> = Vec::new();
    let mut i: usize = 0;
    assert(kv.take(0) =~= Seq::<Seq<u8>>::empty());
    assert(id_list_view(r@) =~= Seq::<Seq<u8>>::empty());
    while i < keys.len()
        invariant
            i <= keys@.len(),
            kv == id_list_view(keys@),
            rv == id_list_view(remove@),
            id_list_view(r@) == keys_kept(kv.take(i as int), rv),
        decreases keys@.len() - i,
    {
        proof {
            assert(kv.take(i + 1).drop_last() =~= kv.take(i as int));
            assert(kv.take(i + 1).last() == kv[i as int]);
            assert(kv[i as int] == keys@[i as int]@);
        }
        let ghost r0 = id_list_view(r@);
        if !contains_id(remove, &keys[i]) {
            let c = keys[i].clone();
            r.push(c);
            assert(id_list_view(r@) =~= r0.push(c@));
        }
        proof {
            assert(ids_view(remove@) == rv);
        }
        i = i + 1;
    }
    assert(kv.take(i as int) =~= kv);
    let ghost kept = id_list_view(r@);
    let mut j: usize = 0;
    while j < add.len()
        invariant
            j <= add@.len(),
            id_list_view(r@) == kept + id_list_view(add@).take(j as int),
        decreases add@.len() - j,
    {
        let ghost r0 = id_list_view(r@);
        let c = add[j].clone();
        r.push(c);
        proof {
            assert(id_list_view(add@).take(j + 1) =~= id_list_view(add@).take(j as int).push(
                add@[j as int]@,
            ));
            assert(id_list_view(r@) =~= r0.push(c@));
        }
        j = j + 1;
    }
    assert(id_list_view(add@).take(j as int) =~= id_list_view(add@));
    r
}

/// The staking and block issuer features of account `account_id` after `change`, or the
/// error where the account cannot undergo it: a staking begins only where there is none,
/// is extended or ended only where there is one, and block issuer keys change only where
/// the account has a block issuer feature.
pub fn apply_account_change(
    staking: Option<StakingFeature>,
    block_issuer: Option<BlockIssuerFeature>,
    change: &AccountChange,
    account_id: &Id,
    ep: StakingEpochs,
) -> (r: Result<(Option<StakingFeature>, Option<BlockIssuerFeature>), SelectionError>)
    requires
        change_fits(*change, staking, ep),
    ensures
        account_change_spec(staking, block_issuer_view(block_issuer), *change, account_id@, ep) == match r {
            Ok((s, b)) => Ok::<
                (Option<StakingFeature>, Option<(u32, Seq<Seq<u8>>)>),
                SelectionErrorV,
            >((s, block_issuer_view(b))),
            Err(e) => Err(e@),
        },
{
    match change {
        AccountChange::BeginStaking { staked_amount, fixed_cost, staking_period } => {
            if staking.is_some() {
                return Err(SelectionError::AlreadyStaking(account_id.clone()));
            }
            let end_epoch = match staking_period {
                Some(p) => ep.start_epoch + *p,
                None => u32::MAX,
            };
            Ok(
                (
                    Some(
                        StakingFeature {
                            staked_amount: *staked_amount,
                            fixed_cost: *fixed_cost,
                            start_epoch: ep.start_epoch,
                            end_epoch,
                        },
                    ),
                    block_issuer,
                ),
            )
        },
        AccountChange::ExtendStaking { additional_epochs } => match staking {
            Some(f) => {
                if ep.future_bounded_epoch <= f.end_epoch {
                    Ok(
                        (
                            Some(
                                StakingFeature {
                                    end_epoch: f.end_epoch.saturating_add(*additional_epochs),
                                    ..f
                                },
                            ),
                            block_issuer,
                        ),
                    )
                } else if *additional_epochs < ep.unbonding_period {
                    Err(
                        SelectionError::StakingPeriodLessThanMin {
                            additional_epochs: *additional_epochs,
                            min: ep.unbonding_period,
                        },
                    )
                } else {
                    Ok(
                        (
                            Some(
                                StakingFeature {
                                    start_epoch: ep.past_bounded_epoch,
                                    end_epoch: ep.past_bounded_epoch.saturating_add(*additional_epochs),
                                    ..f
                                },
                            ),
                            block_issuer,
                        ),
                    )
                }
            },
            None => Err(SelectionError::NotStaking(account_id.clone())),
        },
        AccountChange::EndStaking => {
            if staking.is_none() {
                return Err(SelectionError::NotStaking(account_id.clone()));
            }
            Ok((None, block_issuer))
        },
        AccountChange::ModifyBlockIssuerKeys { keys_to_add, keys_to_remove } => match block_issuer {
            Some(b) => {
                let keys = updated_keys(&b.keys, keys_to_add, keys_to_remove);
                Ok((staking, Some(BlockIssuerFeature { expiry_slot: b.expiry_slot, keys })))
            },
            None => Err(SelectionError::MissingBlockIssuerFeature(account_id.clone())),
        },
    }
}

/// Whether `o` continues the chain `id` of kind `kind`.
pub open spec fn continues_chain(o: OutputV, kind: OutputKind, id: Seq<u8>) -> bool {
    o.kind == kind && o.chain_id == id
}

/// Whether some output continues the chain `id` of kind `kind`.
pub open spec fn holds_chain(outputs: Seq<OutputV>, kind: OutputKind, id: Seq<u8>) -> bool {
    exists|i: int| 0 <= i < outputs.len() && #[trigger] continues_chain(outputs[i], kind, id)
}

/// The highest serial number of the foundry outputs that account `account_id` controls;
/// zero where there is none.
pub open spec fn highest_serial(outputs: Seq<OutputV>, account_id: Seq<u8>) -> u32
    decreases outputs.len(),
{
    if outputs.len() == 0 {
        0
    } else {
        let h = highest_serial(outputs.drop_last(), account_id);
        let o = outputs.last();
        if o.kind == OutputKind::Foundry && o.address.kind == AddressKind::Account && o.address.id
            == account_id && o.serial_number > h {
            o.serial_number
        } else {
            h
        }
    }
}

/// The change asked of account `id`, if any.
pub open spec fn change_of(t: Option<Transitions>, id: Seq<u8>) -> Option<AccountChange> {
    match t {
        Some(t) => if t@.accounts.dom().contains(id) {
            Some(t@.accounts[id])
        } else {
            None
        },
        None => None,
    }
}

/// The block issuer key asked of the implicit account created by `output_id`, if any.
pub open spec fn implicit_key_of(t: Option<Transitions>, output_id: OutputIdV) -> Option<Seq<u8>> {
    match t {
        Some(t) => if t@.implicit_accounts.dom().contains(output_id) {
            Some(t@.implicit_accounts[output_id])
        } else {
            None
        },
        None => None,
    }
}

/// Whether the transitions are well formed, where there are some.
pub open spec fn transitions_wf(t: Option<Transitions>) -> bool {
    t matches Some(t) ==> t.wf()
}

/// Whether the burn burns the account, foundry or nft `id`.
pub open spec fn burns_chain(burn: Option<Burn>, kind: OutputKind, id: Seq<u8>) -> bool {
    match burn {
        Some(b) => match kind {
            OutputKind::Account => b@.accounts.contains(id),
            OutputKind::Foundry => b@.foundries.contains(id),
            OutputKind::Nft => b@.nfts.contains(id),
            _ => false,
        },
        None => false,
    }
}

/// The mana of a transitioned account: none, except that a block issuer keeps its mana,
/// all of it where the generated mana is burned and otherwise the mana available to it.
pub open spec fn account_mana(input: OutputV, burn: Option<Burn>, available_mana: u64) -> u64 {
    if input.block_issuer is Some {
        if burn matches Some(b) && b@.generated_mana {
            input.mana
        } else {
            available_mana
        }
    } else {
        0
    }
}

/// The output that continues the account `input` (spent by `output_id`), or none where
/// the account is burned or an output continues it already; or the error where the change
/// asked of the account cannot be applied. The output holds `minimum_amount`, the mana of
/// `account_mana`, the non-null account id, a foundry counter that covers the foundries it
/// controls among the outputs, no sender, and the changed features.
pub open spec fn account_transition(
    input: OutputV,
    output_id: OutputIdV,
    burn: Option<Burn>,
    outputs: Seq<OutputV>,
    t: Option<Transitions>,
    ep: StakingEpochs,
    available_mana: u64,
    minimum_amount: u64,
) -> Result<Option<OutputV>, SelectionErrorV> {
    let id = input.chain_id_non_null(output_id);
    if burns_chain(burn, OutputKind::Account, id) || holds_chain(outputs, OutputKind::Account, id) {
        Ok(None)
    } else {
        let features = match change_of(t, id) {
            Some(c) => account_change_spec(input.staking, input.block_issuer, c, id, ep),
            None => Ok((input.staking, input.block_issuer)),
        };
        match features {
            Err(e) => Err(e),
            Ok((staking, block_issuer)) => {
                let h = highest_serial(outputs, id);
                Ok(
                    Some(
                        OutputV {
                            amount: minimum_amount,
                            mana: account_mana(input, burn, available_mana),
                            chain_id: id,
                            foundry_counter: if h > input.foundry_counter {
                                h
                            } else {
                                input.foundry_counter
                            },
                            sender: None,
                            staking,
                            block_issuer,
                            ..input
                        },
                    ),
                )
            },
        }
    }
}

/// The output that continues the nft `input`, or none where the nft is burned or an output
/// continues it already: it holds `minimum_amount`, no mana, the non-null nft id and no
/// sender.
pub open spec fn nft_transition(
    input: OutputV,
    output_id: OutputIdV,
    burn: Option<Burn>,
    outputs: Seq<OutputV>,
    minimum_amount: u64,
) -> Option<OutputV> {
    let id = input.chain_id_non_null(output_id);
    if burns_chain(burn, OutputKind::Nft, id) || holds_chain(outputs, OutputKind::Nft, id) {
        None
    } else {
        Some(OutputV { amount: minimum_amount, mana: 0, chain_id: id, sender: None, ..input })
    }
}

/// The output that continues the foundry `input`, or none where the foundry is burned or
/// an output continues it already: it holds `minimum_amount`.
pub open spec fn foundry_transition(
    input: OutputV,
    burn: Option<Burn>,
    outputs: Seq<OutputV>,
    minimum_amount: u64,
) -> Option<OutputV> {
    let id = input.chain_id;
    if burns_chain(burn, OutputKind::Foundry, id) || holds_chain(outputs, OutputKind::Foundry, id) {
        None
    } else {
        Some(OutputV { amount: minimum_amount, ..input })
    }
}

/// The account created from the implicit account `input` (spent by `output_id`) where the
/// transitions ask for one, with the requested block issuer key; the error where `input`
/// creates no implicit account.
pub open spec fn implicit_transition(input: OutputV, output_id: OutputIdV, t: Option<Transitions>) -> Result<
    Option<OutputV>,
    SelectionErrorV,
> {
    match implicit_key_of(t, output_id) {
        None => Ok(None),
        Some(key) => if !input.is_implicit_account() {
            Err(SelectionErrorV::TransitionNonImplicitAccount(output_id))
        } else {
            Ok(
                Some(
                    OutputV {
                        kind: OutputKind::Account,
                        amount: input.amount,
                        mana: 0,
                        chain_id: output_id.derived_chain_id(),
                        address: AddressV::ed25519(input.address.id),
                        storage_deposit_return: None,
                        expiration: None,
                        timelock: None,
                        native_token: None,
                        circulating_supply: None,
                        sender: None,
                        issuer: None,
                        block_issuer: Some((u32::MAX, seq![key])),
                        staking: None,
                        foundry_counter: 0,
                        serial_number: 0,
                        other_features: false,
                    },
                ),
            )
        },
    }
}

/// Whether some output continues the chain `id` of kind `kind`.
fn chain_output_exists(outputs: &Vec<Output>, kind: OutputKind, id: &Id) -> (r: bool)
    ensures
        r == holds_chain(outputs@.map_values(|o: Output| o@), kind, id@),
{
    let ghost outs = outputs@.map_values(|o: Output| o@);
    let mut i: usize = 0;
    while i < outputs.len()
        invariant
            i <= outputs@.len(),
            outs == outputs@.map_values(|o: Output| o@),
            forall|j: int| 0 <= j < i ==> !continues_chain(#[trigger] outs[j], kind, id@),
        decreases outputs@.len() - i,
    {
        if outputs[i].kind == kind && outputs[i].chain_id.same(id) {
            assert(continues_chain(outs[i as int], kind, id@));
            return true;
        }
        i = i + 1;
    }
    false
}

/// The highest serial number of the foundry outputs that account `id` controls.
fn highest_foundry_serial(outputs: &Vec<Output>, id: &Id) -> (r: u32)
    ensures
        r == highest_serial(outputs@.map_values(|o: Output| o@), id@),
{
    let ghost outs = outputs@.map_values(|o: Output| o@);
    let mut h: u32 = 0;
    let mut i: usize = 0;
    assert(outs.take(0) =~= Seq::<OutputV>::empty());
    while i < outputs.len()
        invariant
            i <= outputs@.len(),
            outs == outputs@.map_values(|o: Output| o@),
            h == highest_serial(outs.take(i as int), id@),
        decreases outputs@.len() - i,
    {
        proof {
            assert(outs.take(i + 1).drop_last() =~= outs.take(i as int));
            assert(outs.take(i + 1).last() == outputs@[i as int]@);
        }
        let o = &outputs[i];
        if o.kind == OutputKind::Foundry && o.address.kind == AddressKind::Account && o.address.id.same(id)
            && o.serial_number > h {
            h = o.serial_number;
        }
        i = i + 1;
    }
    assert(outs.take(i as int) =~= outs);
    h
}

/// Whether the burn burns the chain `id` of kind `kind`.
fn burns_chain_exec(burn: &Option<Burn>, kind: OutputKind, id: &Id) -> (r: bool)
    ensures
        r == burns_chain(*burn, kind, id@),
{
    match burn {
        Some(b) => match kind {
            OutputKind::Account => {
                let list = b.accounts();
                let r = contains_id(list, id);
                proof {
                    assert(ids_view(list@).to_set().contains(id@) == ids_view(list@).contains(id@));
                }
                r
            },
            OutputKind::Foundry => {
                let list = b.foundries();
                let r = contains_id(list, id);
                proof {
                    assert(ids_view(list@).to_set().contains(id@) == ids_view(list@).contains(id@));
                }
                r
            },
            OutputKind::Nft => {
                let list = b.nfts();
                let r = contains_id(list, id);
                proof {
                    assert(ids_view(list@).to_set().contains(id@) == ids_view(list@).contains(id@));
                }
                r
            },
            _ => false,
        },
        None => false,
    }
}

/// The change asked of account `id`, if any.
fn find_change<'a>(t: &'a Option<Transitions>, id: &Id) -> (r: Option<&'a AccountChange>)
    requires
        transitions_wf(*t),
    ensures
        match r {
            Some(c) => change_of(*t, id@) == Some(*c),
            None => change_of(*t, id@) is None,
        },
{
    match t {
        None => None,
        Some(tr) => {
            let list = tr.accounts();
            let ghost v = accounts_view(list@);
            proof {
                lemma_list_map_unique(v);
            }
            let mut i: usize = 0;
            while i < list.len()
                invariant
                    i <= list@.len(),
                    v == accounts_view(list@),
                    list_map(v) == tr@.accounts,
                    *t == Some(*tr),
                    keys_unique(v),
                    forall|j: int| 0 <= j < i ==> v[j].0 != id@,
                decreases list@.len() - i,
            {
                if list[i].0.same(id) {
                    proof {
                        lemma_list_map_unique(v);
                        assert(v[i as int].0 == id@);
                        assert(list_map(v)[v[i as int].0] == v[i as int].1);
                        assert(list_map(v).dom().contains(id@));
                        assert(tr@.accounts[id@] == list@[i as int].1);
                        assert(*t == Some(*tr));
                    }
                    return Some(&list[i].1);
                }
                i = i + 1;
            }
            proof {
                lemma_list_map_unique(v);
                if list_map(v).dom().contains(id@) {
                    let j = choose|j: int| 0 <= j < v.len() && #[trigger] v[j].0 == id@;
                    assert(false);
                }
            }
            None
        },
    }
}

/// The block issuer key asked of the implicit account created by `output_id`, if any.
fn find_implicit_key(t: &Option<Transitions>, output_id: &OutputId) -> (r: Option<Id>)
    requires
        transitions_wf(*t),
    ensures
        match r {
            Some(k) => implicit_key_of(*t, output_id@) == Some(k@),
            None => implicit_key_of(*t, output_id@) is None,
        },
{
    match t {
        None => None,
        Some(tr) => {
            let list = tr.implicit_accounts();
            let ghost v = implicit_view(list@);
            let mut i: usize = 0;
            while i < list.len()
                invariant
                    i <= list@.len(),
                    v == implicit_view(list@),
                    list_map(v) == tr@.implicit_accounts,
                    *t == Some(*tr),
                    keys_unique(v),
                    forall|j: int| 0 <= j < i ==> v[j].0 != output_id@,
                decreases list@.len() - i,
            {
                if list[i].0.same(output_id) {
                    proof {
                        lemma_list_map_unique(v);
                        assert(v[i as int].0 == output_id@);
                        assert(list_map(v)[v[i as int].0] == v[i as int].1);
                        assert(list_map(v).dom().contains(output_id@));
                        assert(tr@.implicit_accounts[output_id@] == list@[i as int].1@);
                        assert(*t == Some(*tr));
                    }
                    return Some(list[i].1.clone());
                }
                i = i + 1;
            }
            proof {
                lemma_list_map_unique(v);
                if list_map(v).dom().contains(output_id@) {
                    let j = choose|j: int| 0 <= j < v.len() && #[trigger] v[j].0 == output_id@;
                    assert(false);
                }
            }
            None
        },
    }
}

/// The output that continues the account `input`, spent by `output_id`, where one is
/// needed; see `account_transition`. `available_mana` is the mana available to the account
/// at the creation slot, and `minimum_amount` the amount the new output is built with.
pub fn transition_account_input(
    input: &Output,
    output_id: &OutputId,
    burn: &Option<Burn>,
    outputs: &Vec<Output>,
    transitions: &Option<Transitions>,
    ep: StakingEpochs,
    available_mana: u64,
    minimum_amount: u64,
) -> (r: Result<Option<Output>, SelectionError>)
    requires
        transitions_wf(*transitions),
        account_change_fits(
            input@,
            output_id@,
            *burn,
            outputs@.map_values(|o: Output| o@),
            *transitions,
            ep,
        ),
    ensures
        account_transition(
            input@,
            output_id@,
            *burn,
            outputs@.map_values(|o: Output| o@),
            *transitions,
            ep,
            available_mana,
            minimum_amount,
        ) == match r {
            Ok(Some(o)) => Ok::<Option<OutputV>, SelectionErrorV>(Some(o@)),
            Ok(None) => Ok::<Option<OutputV>, SelectionErrorV>(None),
            Err(e) => Err(e@),
        },
{
    let id = input.chain_id_non_null_exec(output_id);
    if burns_chain_exec(burn, OutputKind::Account, &id) || chain_output_exists(outputs, OutputKind::Account, &id) {
        return Ok(None);
    }
    let highest = highest_foundry_serial(outputs, &id);
    let staking = input.staking;
    let block_issuer = match &input.block_issuer {
        Some(b) => Some(b.clone()),
        None => None,
    };
    assert(block_issuer_view(block_issuer) == input@.block_issuer);
    let features = match find_change(transitions, &id) {
        Some(c) => apply_account_change(staking, block_issuer, c, &id, ep),
        None => Ok((staking, block_issuer)),
    };
    match features {
        Err(e) => Err(e),
        Ok((staking, block_issuer)) => {
            let mana = if input.block_issuer.is_some() {
                match burn {
                    Some(b) => if b.generated_mana() {
                        input.mana
                    } else {
                        available_mana
                    },
                    None => available_mana,
                }
            } else {
                0
            };
            let mut o = input.clone();
            o.amount = minimum_amount;
            o.mana = mana;
            o.chain_id = id;
            o.foundry_counter = if highest > input.foundry_counter {
                highest
            } else {
                input.foundry_counter
            };
            o.sender = None;
            o.staking = staking;
            o.block_issuer = block_issuer;
            Ok(Some(o))
        },
    }
}

/// The output that continues the nft `input`, spent by `output_id`, where one is needed;
/// see `nft_transition`.
pub fn transition_nft_input(
    input: &Output,
    output_id: &OutputId,
    burn: &Option<Burn>,
    outputs: &Vec<Output>,
    minimum_amount: u64,
) -> (r: Option<Output>)
    ensures
        nft_transition(input@, output_id@, *burn, outputs@.map_values(|o: Output| o@), minimum_amount)
            == match r {
            Some(o) => Some(o@),
            None => None::<OutputV>,
        },
{
    let id = input.chain_id_non_null_exec(output_id);
    if burns_chain_exec(burn, OutputKind::Nft, &id) || chain_output_exists(outputs, OutputKind::Nft, &id) {
        return None;
    }
    let mut o = input.clone();
    o.amount = minimum_amount;
    o.mana = 0;
    o.chain_id = id;
    o.sender = None;
    Some(o)
}

/// The output that continues the foundry `input` where one is needed; see
/// `foundry_transition`.
pub fn transition_foundry_input(
    input: &Output,
    burn: &Option<Burn>,
    outputs: &Vec<Output>,
    minimum_amount: u64,
) -> (r: Option<Output>)
    ensures
        foundry_transition(input@, *burn, outputs@.map_values(|o: Output| o@), minimum_amount) == match r {
            Some(o) => Some(o@),
            None => None::<OutputV>,
        },
{
    if burns_chain_exec(burn, OutputKind::Foundry, &input.chain_id) || chain_output_exists(
        outputs,
        OutputKind::Foundry,
        &input.chain_id,
    ) {
        return None;
    }
    let mut o = input.clone();
    o.amount = minimum_amount;
    Some(o)
}

/// The account created from the implicit account `input`, spent by `output_id`, where the
/// transitions ask for one; see `implicit_transition`.
pub fn transition_implicit_account_input(
    input: &Output,
    output_id: &OutputId,
    transitions: &Option<Transitions>,
) -> (r: Result<Option<Output>, SelectionError>)
    requires
        transitions_wf(*transitions),
    ensures
        implicit_transition(input@, output_id@, *transitions) == match r {
            Ok(Some(o)) => Ok::<Option<OutputV>, SelectionErrorV>(Some(o@)),
            Ok(None) => Ok::<Option<OutputV>, SelectionErrorV>(None),
            Err(e) => Err(e@),
        },
{
    match find_implicit_key(transitions, output_id) {
        None => Ok(None),
        Some(key) => {
            if !input.is_implicit_account_exec() {
                return Err(SelectionError::TransitionNonImplicitAccount(output_id.clone()));
            }
            let mut keys: Vec<Id> = Vec::new();
            let ghost kv = key@;
            keys.push(key);
            assert(id_list_view(keys@) =~= seq![kv]);
            Ok(
                Some(
                    Output {
                        kind: OutputKind::Account,
                        amount: input.amount,
                        mana: 0,
                        chain_id: output_id.derived_chain_id(),
                        address: Address::new(AddressKind::Ed25519, input.address.id.clone()),
                        storage_deposit_return: None,
                        expiration: None,
                        timelock: None,
                        native_token: None,
                        circulating_supply: None,
                        sender: None,
                        issuer: None,
                        block_issuer: Some(BlockIssuerFeature { expiry_slot: u32::MAX, keys }),
                        staking: None,
                        foundry_counter: 0,
                        serial_number: 0,
                        other_features: false,
                    },
                ),
            )
        },
    }
}

/// The output that the selection of `input` creates to continue its chain, if any: an
/// account, foundry or nft that no output continues and that is not burned is continued;
/// a basic output becomes an account where the transitions ask for it.
pub open spec fn input_transition(
    x: InputSigningData,
    burn: Option<Burn>,
    outputs: Seq<OutputV>,
    t: Option<Transitions>,
    ep: StakingEpochs,
    available_mana: u64,
    minimum_amount: u64,
) -> Result<Option<OutputV>, SelectionErrorV> {
    match x@.output.kind {
        OutputKind::Account => account_transition(
            x@.output,
            x@.output_id,
            burn,
            outputs,
            t,
            ep,
            available_mana,
            minimum_amount,
        ),
        OutputKind::Foundry => Ok(foundry_transition(x@.output, burn, outputs, minimum_amount)),
        OutputKind::Nft => Ok(nft_transition(x@.output, x@.output_id, burn, outputs, minimum_amount)),
        OutputKind::Basic => implicit_transition(x@.output, x@.output_id, t),
        _ => Ok(None),
    }
}

/// The output that the selection of `input` creates to continue its chain, if any; see
/// `input_transition`.
pub fn transition_input(
    input: &InputSigningData,
    burn: &Option<Burn>,
    outputs: &Vec<Output>,
    transitions: &Option<Transitions>,
    ep: StakingEpochs,
    available_mana: u64,
    minimum_amount: u64,
) -> (r: Result<Option<Output>, SelectionError>)
    requires
        transitions_wf(*transitions),
        input@.output.kind == OutputKind::Account ==> account_change_fits(
            input@.output,
            input@.output_id,
            *burn,
            outputs@.map_values(|o: Output| o@),
            *transitions,
            ep,
        ),
    ensures
        input_transition(
            *input,
            *burn,
            outputs@.map_values(|o: Output| o@),
            *transitions,
            ep,
            available_mana,
            minimum_amount,
        ) == match r {
            Ok(Some(o)) => Ok::<Option<OutputV>, SelectionErrorV>(Some(o@)),
            Ok(None) => Ok::<Option<OutputV>, SelectionErrorV>(None),
            Err(e) => Err(e@),
        },
{
    match input.output.kind {
        OutputKind::Account => transition_account_input(
            &input.output,
            &input.output_id,
            burn,
            outputs,
            transitions,
            ep,
            available_mana,
            minimum_amount,
        ),
        OutputKind::Foundry => Ok(transition_foundry_input(&input.output, burn, outputs, minimum_amount)),
        OutputKind::Nft => Ok(transition_nft_input(&input.output, &input.output_id, burn, outputs, minimum_amount)),
        OutputKind::Basic => transition_implicit_account_input(&input.output, &input.output_id, transitions),
        _ => Ok(None),
    }
}

/// A transition of an account, foundry or nft input continues its chain: the new output
/// has the input's kind and its non-null chain id, and no output continues that chain
/// already, nor does the burn burn it.
pub proof fn lemma_transition_continues_chain(
    x: InputSigningData,
    burn: Option<Burn>,
    outputs: Seq<OutputV>,
    t: Option<Transitions>,
    ep: StakingEpochs,
    available_mana: u64,
    minimum_amount: u64,
)
    requires
        x@.output.kind == OutputKind::Account || x@.output.kind == OutputKind::Foundry
            || x@.output.kind == OutputKind::Nft,
        input_transition(x, burn, outputs, t, ep, available_mana, minimum_amount) matches Ok(Some(_)),
    ensures
        ({
            let o = input_transition(x, burn, outputs, t, ep, available_mana, minimum_amount)->Ok_0->0;
            &&& o.kind == x@.output.kind
            &&& o.chain_id == (if x@.output.kind == OutputKind::Foundry {
                x@.output.chain_id
            } else {
                x@.output.chain_id_non_null(x@.output_id)
            })
            &&& !holds_chain(outputs, o.kind, o.chain_id)
            &&& !burns_chain(burn, o.kind, o.chain_id)
        }),
{
}

/// A chain output paired with the input whose chain it continues, by their positions: the
/// pairs whose transitions the block layer's rules must accept.
#[derive(Clone, Copy, Debug, PartialEq, Eq, Structural)]
pub enum ChainPair {
    Account { input: usize, output: usize },
    Foundry { input: usize, output: usize },
    Nft { input: usize, output: usize },
}

/// The value of a pair.
pub enum ChainPairV {
    Account { input: int, output: int },
    Foundry { input: int, output: int },
    Nft { input: int, output: int },
}

impl View for ChainPair {
    type V = ChainPairV;

    open spec fn view(&self) -> ChainPairV {
        match *self {
            ChainPair::Account { input, output } => ChainPairV::Account { input: input as int, output: output as int },
            ChainPair::Foundry { input, output } => ChainPairV::Foundry { input: input as int, output: output as int },
            ChainPair::Nft { input, output } => ChainPairV::Nft { input: input as int, output: output as int },
        }
    }
}

/// The values of a list of pairs.
pub open spec fn pairs_view(s: Seq<ChainPair>) -> Seq<ChainPairV> {
    s.map_values(|p: ChainPair| p@)
}

/// Whether input `x` continues into the account `id`: an account input, or an implicit
/// account whose account gets its id from the output id.
pub open spec fn account_input_for(x: InputV, id: Seq<u8>) -> bool {
    (x.output.kind == OutputKind::Account || x.output.is_implicit_account())
        && crate::requirement::spec_is_account_with_id(x.output, id, x.output_id)
}

/// Whether input `x` is the foundry `id`.
pub open spec fn foundry_input_for(x: InputV, id: Seq<u8>) -> bool {
    x.output.kind == OutputKind::Foundry && x.output.chain_id == id
}

/// Whether input `x` is the nft `id`.
pub open spec fn nft_input_for(x: InputV, id: Seq<u8>) -> bool {
    x.output.kind == OutputKind::Nft && x.output.chain_id_non_null(x.output_id) == id
}

/// The inputs that continue into account `id`.
pub open spec fn account_pred(id: Seq<u8>) -> spec_fn(InputV) -> bool {
    |x: InputV| account_input_for(x, id)
}

/// The inputs that are the foundry `id`.
pub open spec fn foundry_pred(id: Seq<u8>) -> spec_fn(InputV) -> bool {
    |x: InputV| foundry_input_for(x, id)
}

/// The inputs that are the nft `id`.
pub open spec fn nft_pred(id: Seq<u8>) -> spec_fn(InputV) -> bool {
    |x: InputV| nft_input_for(x, id)
}

/// The position of the first input that satisfies `p`, if any.
pub open spec fn first_input(inputs: Seq<InputV>, p: spec_fn(InputV) -> bool) -> Option<int> {
    crate::selection::first_where(inputs, p)
}

/// The pair that output `o`, at position `j`, forms with the inputs, if any: an account or
/// nft with a non-null id pairs with the first input of its chain (an implicit account
/// input forms no pair), a foundry with the first input of the same foundry if there is one.
pub open spec fn pair_of(inputs: Seq<InputV>, o: OutputV, j: int) -> Option<ChainPairV> {
    match o.kind {
        OutputKind::Account => if is_null_id(o.chain_id) {
            None
        } else {
            match first_input(inputs, account_pred(o.chain_id)) {
                Some(i) => if inputs[i].output.kind == OutputKind::Account {
                    Some(ChainPairV::Account { input: i, output: j })
                } else {
                    None
                },
                None => None,
            }
        },
        OutputKind::Foundry => match first_input(inputs, foundry_pred(o.chain_id)) {
            Some(i) => Some(ChainPairV::Foundry { input: i, output: j }),
            None => None,
        },
        OutputKind::Nft => if is_null_id(o.chain_id) {
            None
        } else {
            match first_input(inputs, nft_pred(o.chain_id)) {
                Some(i) => Some(ChainPairV::Nft { input: i, output: j }),
                None => None,
            }
        },
        _ => None,
    }
}

/// The pairs of the outputs, in the order of the outputs.
pub open spec fn chain_pairs(inputs: Seq<InputV>, outputs: Seq<OutputV>) -> Seq<ChainPairV>
    decreases outputs.len(),
{
    if outputs.len() == 0 {
        Seq::empty()
    } else {
        let s = chain_pairs(inputs, outputs.drop_last());
        match pair_of(inputs, outputs.last(), outputs.len() - 1) {
            Some(p) => s.push(p),
            None => s,
        }
    }
}

/// Whether every account and nft output with a non-null id has an input of its chain.
pub open spec fn chains_have_inputs(inputs: Seq<InputV>, outputs: Seq<OutputV>) -> bool {
    forall|j: int|
        0 <= j < outputs.len() && !is_null_id(#[trigger] outputs[j].chain_id) ==> {
            &&& outputs[j].kind == OutputKind::Account ==> exists|i: int|
                0 <= i < inputs.len() && #[trigger] account_input_for(inputs[i], outputs[j].chain_id)
            &&& outputs[j].kind == OutputKind::Nft ==> exists|i: int|
                0 <= i < inputs.len() && #[trigger] nft_input_for(inputs[i], outputs[j].chain_id)
        }
}

/// The position of the first input that continues into account `id`.
fn find_account_input(inputs: &Vec<InputSigningData>, id: &Id) -> (r: Option<usize>)
    ensures
        first_input(inputs_view(inputs@), account_pred(id@)) == match r {
            Some(i) => Some(i as int),
            None => None::<int>,
        },
{
    let ghost s = inputs_view(inputs@);
    let ghost p = account_pred(id@);
    let mut i: usize = 0;
    while i < inputs.len()
        invariant
            i <= inputs@.len(),
            s == inputs_view(inputs@),
            p == account_pred(id@),
            forall|j: int| 0 <= j < i ==> !p(#[trigger] s[j]),
        decreases inputs@.len() - i,
    {
        let x = &inputs[i];
        assert(s[i as int] == x@);
        if (x.output.kind == OutputKind::Account || x.output.is_implicit_account_exec())
            && crate::requirement::is_account_with_id(&x.output, id, &x.output_id) {
            proof {
                crate::selection::lemma_first_where_unique(s, p, i as int);
            }
            return Some(i);
        }
        i = i + 1;
    }
    proof {
        crate::selection::lemma_first_where(s, p);
    }
    None
}

/// The position of the first input that is the foundry `id`.
fn find_foundry_input(inputs: &Vec<InputSigningData>, id: &Id) -> (r: Option<usize>)
    ensures
        first_input(inputs_view(inputs@), foundry_pred(id@)) == match r {
            Some(i) => Some(i as int),
            None => None::<int>,
        },
{
    let ghost s = inputs_view(inputs@);
    let ghost p = foundry_pred(id@);
    let mut i: usize = 0;
    while i < inputs.len()
        invariant
            i <= inputs@.len(),
            s == inputs_view(inputs@),
            p == foundry_pred(id@),
            forall|j: int| 0 <= j < i ==> !p(#[trigger] s[j]),
        decreases inputs@.len() - i,
    {
        let x = &inputs[i];
        assert(s[i as int] == x@);
        if x.output.kind == OutputKind::Foundry && x.output.chain_id.same(id) {
            proof {
                crate::selection::lemma_first_where_unique(s, p, i as int);
            }
            return Some(i);
        }
        i = i + 1;
    }
    proof {
        crate::selection::lemma_first_where(s, p);
    }
    None
}

/// The position of the first input that is the nft `id`.
fn find_nft_input(inputs: &Vec<InputSigningData>, id: &Id) -> (r: Option<usize>)
    ensures
        first_input(inputs_view(inputs@), nft_pred(id@)) == match r {
            Some(i) => Some(i as int),
            None => None::<int>,
        },
{
    let ghost s = inputs_view(inputs@);
    let ghost p = nft_pred(id@);
    let mut i: usize = 0;
    while i < inputs.len()
        invariant
            i <= inputs@.len(),
            s == inputs_view(inputs@),
            p == nft_pred(id@),
            forall|j: int| 0 <= j < i ==> !p(#[trigger] s[j]),
        decreases inputs@.len() - i,
    {
        let x = &inputs[i];
        assert(s[i as int] == x@);
        if x.output.kind == OutputKind::Nft && x.output.chain_id_non_null_exec(&x.output_id).same(id) {
            proof {
                crate::selection::lemma_first_where_unique(s, p, i as int);
            }
            return Some(i);
        }
        i = i + 1;
    }
    proof {
        crate::selection::lemma_first_where(s, p);
    }
    None
}

/// The pairs of chain outputs and the inputs whose chains they continue, in the order of
/// the outputs: the transitions that the block layer's rules must accept.
pub fn chain_transitions_to_validate(inputs: &Vec<InputSigningData>, outputs: &Vec<Output>) -> (r: Vec<ChainPair>)
    requires
        chains_have_inputs(inputs_view(inputs@), outputs@.map_values(|o: Output| o@)),
    ensures
        pairs_view(r@) == chain_pairs(inputs_view(inputs@), outputs@.map_values(|o: Output| o@)),
{
    let ghost ins = inputs_view(inputs@);
    let ghost outs = outputs@.map_values(|o: Output| o@);
    let mut r: Vec<ChainPair> = Vec::new();
    let mut j: usize = 0;
    assert(outs.take(0) =~= Seq::<OutputV>::empty());
    assert(pairs_view(r@) =~= Seq::<ChainPairV>::empty());
    while j < outputs.len()
        invariant
            j <= outputs@.len(),
            ins == inputs_view(inputs@),
            outs == outputs@.map_values(|o: Output| o@),
            pairs_view(r@) == chain_pairs(ins, outs.take(j as int)),
        decreases outputs@.len() - j,
    {
        let ghost r0 = pairs_view(r@);
        proof {
            assert(outs.take(j + 1).drop_last() =~= outs.take(j as int));
            assert(outs.take(j + 1).last() == outs[j as int]);
            assert(outs[j as int] == outputs@[j as int]@);
        }
        let o = &outputs[j];
        match o.kind {
            OutputKind::Account => {
                if !o.chain_id.is_null() {
                    let found = find_account_input(inputs, &o.chain_id);
                    proof {
                        crate::selection::lemma_first_where(ins, account_pred(o.chain_id@));
                    }
                    match found {
                        Some(i) => {
                            if inputs[i].output.kind == OutputKind::Account {
                                r.push(ChainPair::Account { input: i, output: j });
                                assert(pairs_view(r@) =~= r0.push(ChainPairV::Account { input: i as int, output: j as int }));
                            }
                        },
                        None => {},
                    }
                }
            },
            OutputKind::Foundry => match find_foundry_input(inputs, &o.chain_id) {
                Some(i) => {
                    proof {
                        crate::selection::lemma_first_where(ins, foundry_pred(o.chain_id@));
                    }
                    r.push(ChainPair::Foundry { input: i, output: j });
                    assert(pairs_view(r@) =~= r0.push(ChainPairV::Foundry { input: i as int, output: j as int }));
                },
                None => {},
            },
            OutputKind::Nft => {
                if !o.chain_id.is_null() {
                    match find_nft_input(inputs, &o.chain_id) {
                        Some(i) => {
                            r.push(ChainPair::Nft { input: i, output: j });
                            assert(pairs_view(r@) =~= r0.push(ChainPairV::Nft { input: i as int, output: j as int }));
                        },
                        None => {},
                    }
                }
            },
            _ => {},
        }
        j = j + 1;
    }
    assert(outs.take(j as int) =~= outs);
    r
}

/// The position of the output of a pair.
pub open spec fn pair_output(p: ChainPairV) -> int {
    match p {
        ChainPairV::Account { output, .. } => output,
        ChainPairV::Foundry { output, .. } => output,
        ChainPairV::Nft { output, .. } => output,
    }
}

/// The error of a pair whose transition is refused: the requirement of its chain cannot be
/// fulfilled.
pub open spec fn pair_error(p: ChainPairV, outputs: Seq<OutputV>) -> SelectionErrorV {
    let id = outputs[pair_output(p)].chain_id;
    match p {
        ChainPairV::Account { .. } => SelectionErrorV::UnfulfillableRequirement(RequirementV::Account(id)),
        ChainPairV::Foundry { .. } => SelectionErrorV::UnfulfillableRequirement(RequirementV::Foundry(id)),
        ChainPairV::Nft { .. } => SelectionErrorV::UnfulfillableRequirement(RequirementV::Nft(id)),
    }
}

/// The outcome of the validation: the error of the first pair whose transition is refused,
/// if any.
pub open spec fn validation_outcome(pairs: Seq<ChainPairV>, accepted: Seq<bool>, outputs: Seq<OutputV>) -> Result<
    (),
    SelectionErrorV,
>
    decreases pairs.len(),
{
    if pairs.len() == 0 {
        Ok(())
    } else if !accepted[0] {
        Err(pair_error(pairs[0], outputs))
    } else {
        validation_outcome(pairs.drop_first(), accepted.drop_first(), outputs)
    }
}

/// Validates the chain transitions of a transaction, given for each pair whether the block
/// layer's rules accept its transition: the first refused one makes the requirement of its
/// chain unfulfillable.
pub fn validate_transitions(pairs: &Vec<ChainPair>, accepted: &Vec<bool>, outputs: &Vec<Output>) -> (r: Result<
    (),
    SelectionError,
>)
    requires
        accepted@.len() == pairs@.len(),
        forall|i: int| 0 <= i < pairs@.len() ==> 0 <= #[trigger] pair_output(pairs@[i]@) < outputs@.len(),
    ensures
        validation_outcome(pairs_view(pairs@), accepted@, outputs@.map_values(|o: Output| o@)) == match r {
            Ok(()) => Ok::<(), SelectionErrorV>(()),
            Err(e) => Err(e@),
        },
{
    let ghost ps = pairs_view(pairs@);
    let ghost outs = outputs@.map_values(|o: Output| o@);
    let ghost goal = validation_outcome(ps, accepted@, outs);
    let mut i: usize = 0;
    assert(ps.skip(0) =~= ps);
    assert(accepted@.skip(0) =~= accepted@);
    while i < pairs.len()
        invariant
            i <= pairs@.len(),
            accepted@.len() == pairs@.len(),
            ps == pairs_view(pairs@),
            outs == outputs@.map_values(|o: Output| o@),
            forall|k: int| 0 <= k < pairs@.len() ==> 0 <= #[trigger] pair_output(pairs@[k]@) < outputs@.len(),
            goal == validation_outcome(ps, accepted@, outs),
            goal == validation_outcome(ps.skip(i as int), accepted@.skip(i as int), outs),
        decreases pairs@.len() - i,
    {
        proof {
            assert(ps.skip(i as int)[0] == ps[i as int]);
            assert(accepted@.skip(i as int)[0] == accepted@[i as int]);
            assert(ps.skip(i as int).drop_first() =~= ps.skip(i + 1));
            assert(accepted@.skip(i as int).drop_first() =~= accepted@.skip(i + 1));
            assert(ps[i as int] == pairs@[i as int]@);
        }
        if !accepted[i] {
            let p = pairs[i];
            let e = match p {
                ChainPair::Account { output, .. } => SelectionError::UnfulfillableRequirement(
                    Requirement::Account(outputs[output].chain_id.clone()),
                ),
                ChainPair::Foundry { output, .. } => SelectionError::UnfulfillableRequirement(
                    Requirement::Foundry(outputs[output].chain_id.clone()),
                ),
                ChainPair::Nft { output, .. } => SelectionError::UnfulfillableRequirement(
                    Requirement::Nft(outputs[output].chain_id.clone()),
                ),
            };
            assert(e@ == pair_error(ps[i as int], outs));
            return Err(e);
        }
        i = i + 1;
    }
    Ok(())
}

/// Whether `o` is a foundry output that the account `id` controls.
pub open spec fn controls_foundry(o: OutputV, id: Seq<u8>) -> bool {
    o.kind == OutputKind::Foundry && o.address.kind == AddressKind::Account && o.address.id == id
}

proof fn lemma_highest_serial_is(outputs: Seq<OutputV>, id: Seq<u8>)
    ensures
        forall|j: int|
            0 <= j < outputs.len() && controls_foundry(#[trigger] outputs[j], id) ==> outputs[j].serial_number
                <= highest_serial(outputs, id),
        highest_serial(outputs, id) == 0 || exists|j: int|
            0 <= j < outputs.len() && controls_foundry(#[trigger] outputs[j], id) && outputs[j].serial_number
                == highest_serial(outputs, id),
    decreases outputs.len(),
{
    if outputs.len() > 0 {
        let d = outputs.drop_last();
        lemma_highest_serial_is(d, id);
        assert forall|j: int| 0 <= j < outputs.len() - 1 implies outputs[j] == d[j] by {}
        if highest_serial(outputs, id) != 0 && highest_serial(outputs, id) == highest_serial(d, id) {
            let j = choose|j: int|
                0 <= j < d.len() && controls_foundry(#[trigger] d[j], id) && d[j].serial_number == highest_serial(d, id);
            assert(outputs[j] == d[j]);
        }
    }
}

/// The output that continues an account never lowers its foundry counter: the counter is at
/// least that of the input and at least the serial number of every foundry among the outputs
/// that the account controls, and it is the input's counter or one of those serial numbers.
pub proof fn lemma_account_foundry_counter(
    input: OutputV,
    output_id: OutputIdV,
    burn: Option<Burn>,
    outputs: Seq<OutputV>,
    t: Option<Transitions>,
    ep: StakingEpochs,
    available_mana: u64,
    minimum_amount: u64,
)
    ensures
        account_transition(input, output_id, burn, outputs, t, ep, available_mana, minimum_amount) matches Ok(
            Some(o),
        ) ==> {
            &&& o.foundry_counter >= input.foundry_counter
            &&& forall|j: int|
                0 <= j < outputs.len() && controls_foundry(#[trigger] outputs[j], input.chain_id_non_null(output_id))
                    ==> o.foundry_counter >= outputs[j].serial_number
            &&& (o.foundry_counter == input.foundry_counter || exists|j: int|
                0 <= j < outputs.len() && controls_foundry(#[trigger] outputs[j], input.chain_id_non_null(output_id))
                    && o.foundry_counter == outputs[j].serial_number)
        },
{
    lemma_highest_serial_is(outputs, input.chain_id_non_null(output_id));
}

/// An account is continued by the transition exactly where it is neither burned nor already
/// continued by an output; the output continuing it is an account output with the account's
/// non-null id, the minimum amount, no sender, and the input's address, issuer, native token
/// and immutable features; without a change asked of it, its staking and block issuer
/// features are the input's, and an account that issues no blocks keeps no mana.
pub proof fn lemma_account_transition_continues(
    input: OutputV,
    output_id: OutputIdV,
    burn: Option<Burn>,
    outputs: Seq<OutputV>,
    t: Option<Transitions>,
    ep: StakingEpochs,
    available_mana: u64,
    minimum_amount: u64,
)
    requires
        input.kind == OutputKind::Account,
    ensures
        ({
            let id = input.chain_id_non_null(output_id);
            let r = account_transition(input, output_id, burn, outputs, t, ep, available_mana, minimum_amount);
            &&& (r == Ok::<Option<OutputV>, SelectionErrorV>(None)) <==> ((burn matches Some(b)
                && b@.accounts.contains(id)) || exists|j: int|
                0 <= j < outputs.len() && (#[trigger] outputs[j]).kind == OutputKind::Account && outputs[j].chain_id
                    == id)
            &&& r matches Ok(Some(o)) ==> {
                &&& o.kind == OutputKind::Account
                &&& o.chain_id == id
                &&& o.amount == minimum_amount
                &&& o.sender is None
                &&& o.address == input.address
                &&& o.issuer == input.issuer
                &&& o.native_token == input.native_token
                &&& o.other_features == input.other_features
                &&& input.block_issuer is None ==> o.mana == 0
                &&& change_of(t, id) is None ==> o.staking == input.staking && o.block_issuer == input.block_issuer
            }
        }),
{
    let id = input.chain_id_non_null(output_id);
    if exists|j: int|
        0 <= j < outputs.len() && (#[trigger] outputs[j]).kind == OutputKind::Account && outputs[j].chain_id == id {
        let j = choose|j: int|
            0 <= j < outputs.len() && (#[trigger] outputs[j]).kind == OutputKind::Account && outputs[j].chain_id == id;
        assert(continues_chain(outputs[j], OutputKind::Account, id));
    }
}

/// An nft is continued exactly where it is neither burned nor already continued by an
/// output; the output continuing it is the input with the nft's non-null id, the minimum
/// amount, no mana and no sender.
pub proof fn lemma_nft_transition_continues(
    input: OutputV,
    output_id: OutputIdV,
    burn: Option<Burn>,
    outputs: Seq<OutputV>,
    minimum_amount: u64,
)
    ensures
        ({
            let id = input.chain_id_non_null(output_id);
            let r = nft_transition(input, output_id, burn, outputs, minimum_amount);
            &&& r is None <==> ((burn matches Some(b) && b@.nfts.contains(id)) || exists|j: int|
                0 <= j < outputs.len() && (#[trigger] outputs[j]).kind == OutputKind::Nft && outputs[j].chain_id
                    == id)
            &&& r matches Some(o) ==> o == (OutputV { amount: minimum_amount, mana: 0, chain_id: id, sender: None, ..input })
        }),
{
    let id = input.chain_id_non_null(output_id);
    if exists|j: int|
        0 <= j < outputs.len() && (#[trigger] outputs[j]).kind == OutputKind::Nft && outputs[j].chain_id == id {
        let j = choose|j: int|
            0 <= j < outputs.len() && (#[trigger] outputs[j]).kind == OutputKind::Nft && outputs[j].chain_id == id;
        assert(continues_chain(outputs[j], OutputKind::Nft, id));
    }
}

/// A foundry is continued exactly where it is neither burned nor already continued by an
/// output; the output continuing it is the input with the minimum amount.
pub proof fn lemma_foundry_transition_continues(
    input: OutputV,
    burn: Option<Burn>,
    outputs: Seq<OutputV>,
    minimum_amount: u64,
)
    ensures
        ({
            let r = foundry_transition(input, burn, outputs, minimum_amount);
            &&& r is None <==> ((burn matches Some(b) && b@.foundries.contains(input.chain_id)) || exists|j: int|
                0 <= j < outputs.len() && (#[trigger] outputs[j]).kind == OutputKind::Foundry && outputs[j].chain_id
                    == input.chain_id)
            &&& r matches Some(o) ==> o == (OutputV { amount: minimum_amount, ..input })
        }),
{
    if exists|j: int|
        0 <= j < outputs.len() && (#[trigger] outputs[j]).kind == OutputKind::Foundry && outputs[j].chain_id
            == input.chain_id {
        let j = choose|j: int|
            0 <= j < outputs.len() && (#[trigger] outputs[j]).kind == OutputKind::Foundry && outputs[j].chain_id
                == input.chain_id;
        assert(continues_chain(outputs[j], OutputKind::Foundry, input.chain_id));
    }
}

} // verus!
