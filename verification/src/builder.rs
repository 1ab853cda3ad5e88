//! The transaction builder: its start, which checks the outputs, keeps the inputs that can
//! take part and selects the required ones, and its finish, which checks the mana, computes
//! the remainders, gives the excess to existing outputs and lists the inputs in signing
//! order with the outputs of the transaction, which it validates semantically.

use vstd::prelude::*;

use crate::amount::{
    inputs_view, lemma_sum_inputs_permutation, lemma_sum_outputs_update, outputs_view, required_output_amount, sdr_excess, sum_input_amounts,
    sum_output_amounts,
};
use crate::amounts::lookup;
use crate::burn::Burn;
use crate::finishing::{
    check_input_count, check_mana_balance, check_provided_outputs, extra_reward, finish_inputs,
    all_outputs, amount_part, finish_outputs, finished_outputs, mana_part, merge_given, apply_excess, output_for_remainder, target_pred, with_excess, output_count_invalid, reward_positions,
    rewards_view,
};
use crate::address_options::addresses_view;
use crate::ledger::{
    Address, AddressV, CommittableAgeRange, InputSigningData, InputV, Output, OutputId, OutputIdV, OutputKind, OutputV,
};
use crate::ordered_inputs::{lemma_sorted_lists_all, OrderedInputs, OrderedInputsV};
use crate::requirement::{Requirement, RequirementV};
use crate::remainders::{
    allocate_chains, allocate_excess, amount_chains_spec, data_amount, given_total,
    lemma_remainders_balance, remainder_target, remainder_tokens, remainders_computable,
    target_exists, update_remainders, update_remainders_spec, ManaFigures, RemainderDataV,
    Remainders, RemaindersV,
};
use crate::selection::{
    burn_delegations, burn_outcome, burn_requirements, filter_inputs, get_remainder_address,
    kept_inputs, lemma_kept_inputs, lemma_required_moves_inputs, output_ids_view, outputs_requirements,
    outputs_requirements_spec, remainder_address_spec, required_spec, requirements_view, select_required_inputs,
    lemma_first_where, lemma_kept_inputs_distinct, sdr_returns, TransactionFailure, selected_spends, state_view, SelectionError, SelectionErrorV,
    SelectionStateV, INPUT_COUNT_MAX,
};

verus! {

/// The capabilities of a transaction that the builder sets: burning native tokens and
/// burning mana.
#[derive(Debug, Clone, Copy, PartialEq, Eq, Structural)]
pub struct TransactionCapabilities {
    pub burn_native_tokens: bool,
    pub burn_mana: bool,
}

/// A transaction ready to be signed: its inputs in signing order, its outputs, the
/// positions of the inputs whose outputs claim mana rewards, the mana rewards and the
/// capabilities of the transaction.
#[derive(Debug)]
pub struct PreparedTransactionData {
    pub inputs_data: Vec<InputSigningData>,
    pub outputs: Vec<Output>,
    pub reward_context_inputs: Vec<u16>,
    pub mana_rewards: Vec<(OutputId, u64)>,
    pub capabilities: TransactionCapabilities,
}

/// The total mana of `outputs`.
pub open spec fn sum_output_mana(outputs: Seq<OutputV>) -> nat
    decreases outputs.len(),
{
    if outputs.len() == 0 {
        0
    } else {
        sum_output_mana(outputs.drop_last()) + outputs.last().mana as nat
    }
}

/// The total amount of the inputs.
fn input_amount_total(inputs: &Vec<InputSigningData>) -> (t: u128)
    ensures
        t == sum_input_amounts(inputs_view(inputs@)),
{
    let ghost all = inputs_view(inputs@);
    let mut t: u128 = 0;
    let mut i: usize = 0;
    while i < inputs.len()
        invariant
            i <= inputs.len(),
            all == inputs_view(inputs@),
            t == sum_input_amounts(all.take(i as int)),
            t <= (i as int) * 18446744073709551615,
        decreases inputs.len() - i,
    {
        proof {
            assert(all.take(i + 1).drop_last() =~= all.take(i as int));
            assert(all.take(i + 1).last() == inputs@[i as int]@);
        }
        t = t + inputs[i].output.amount as u128;
        i = i + 1;
    }
    proof {
        assert(all.take(i as int) =~= all);
    }
    t
}

/// The total amount and the total mana of the outputs.
fn output_totals(outputs: &Vec<Output>) -> (t: (u128, u128))
    ensures
        t.0 == sum_output_amounts(outputs_view(outputs@)),
        t.1 == sum_output_mana(outputs_view(outputs@)),
        t.1 <= (outputs@.len() as int) * 18446744073709551615,
{
    let ghost all = outputs_view(outputs@);
    let mut amount: u128 = 0;
    let mut mana: u128 = 0;
    let mut i: usize = 0;
    while i < outputs.len()
        invariant
            i <= outputs.len(),
            all == outputs_view(outputs@),
            amount == sum_output_amounts(all.take(i as int)),
            mana == sum_output_mana(all.take(i as int)),
            amount <= (i as int) * 18446744073709551615,
            mana <= (i as int) * 18446744073709551615,
        decreases outputs.len() - i,
    {
        proof {
            assert(all.take(i + 1).drop_last() =~= all.take(i as int));
            assert(all.take(i + 1).last() == outputs@[i as int]@);
        }
        amount = amount + outputs[i].amount as u128;
        mana = mana + outputs[i].mana as u128;
        i = i + 1;
    }
    proof {
        assert(all.take(i as int) =~= all);
    }
    (amount, mana)
}

/// The state of a transaction builder once the requirements are fulfilled: the outputs
/// asked for and those added by transitions, the selected and still available inputs, the
/// remainder address asked for, the burn, the mana figures and the storage deposits of
/// remainder outputs that the protocol's rules give, and the mana rewards.
#[derive(Debug)]
pub struct TransactionBuilder {
    pub provided_outputs: Vec<Output>,
    pub added_outputs: Vec<Output>,
    pub available_inputs: Vec<InputSigningData>,
    pub selected_inputs: OrderedInputs,
    pub remainder_address: Option<Address>,
    pub burn: Option<Burn>,
    /// Whether a minimum mana allotment is asked for; the remainders are then already up to date.
    pub min_mana_allotment: bool,
    pub remainders: Remainders,
    pub mana: ManaFigures,
    /// The slots until the selected inputs generate the mana that is missing.
    pub slots_remaining: u32,
    pub token_min_amount: u64,
    pub catchall_min_amount: u64,
    pub mana_rewards: Vec<(OutputId, u64)>,
    /// The outputs whose rewards are claimed through reward context inputs.
    pub reward_inputs: Vec<OutputId>,
    pub slot: u32,
    pub range: CommittableAgeRange,
    /// The mana that the mana allotments take, part of the output mana.
    pub allotted_mana: u64,
    /// The mana that the selected inputs bring together with the mana they generate up to
    /// the creation slot, and their rewards: what semantic validation counts.
    pub generated_input_mana: u64,
}

/// The configured remainder address by value.
pub open spec fn configured_view(a: Option<Address>) -> Option<AddressV> {
    match a {
        Some(a) => Some(a@),
        None => None,
    }
}

impl TransactionBuilder {
    /// The remainders that the finish works with: those computed last where a minimum mana
    /// allotment is asked for, otherwise those computed from the selection.
    pub open spec fn final_remainders(&self) -> Result<RemaindersV, SelectionErrorV> {
        if self.min_mana_allotment {
            Ok(self.remainders@)
        } else {
            update_remainders_spec(
                self.selected_inputs@.all(),
                outputs_view(self.provided_outputs@),
                outputs_view(self.added_outputs@),
                inputs_view(self.available_inputs@),
                configured_view(self.remainder_address),
                self.burn,
                self.slot,
                self.range,
                self.mana.input_mana,
                self.mana.output_mana,
                self.mana.initial_excess,
                crate::remainders::chains_view(self.mana.chains@),
                self.token_min_amount,
                self.catchall_min_amount,
            )
        }
    }

    /// The remainder address of the transaction, if any.
    pub open spec fn final_address(&self) -> Option<AddressV> {
        match remainder_address_spec(
            configured_view(self.remainder_address),
            inputs_view(self.available_inputs@),
            self.selected_inputs@.all(),
            self.slot,
            self.range,
        ) {
            Some((a, _)) => Some(a),
            None => None,
        }
    }

    /// What the finish assembles: the inputs in signing order, the outputs and the
    /// positions of the inputs that claim rewards; or the first error among: the inputs
    /// bring less mana than the outputs need; the remainders cannot be made; the number of
    /// inputs is outside 1 to 128; there is no remainder address; the number of outputs is
    /// outside 1 to 128; mana rewards are given for an output that no input spends.
    pub open spec fn assembled_spec(&self) -> Result<(Seq<InputV>, Seq<OutputV>, Seq<nat>), SelectionErrorV> {
        if self.mana.input_mana < self.mana.output_mana {
            Err(
                SelectionErrorV::InsufficientMana {
                    found: self.mana.input_mana,
                    required: self.mana.output_mana,
                    slots_remaining: self.slots_remaining,
                },
            )
        } else {
            match self.final_remainders() {
                Err(e) => Err(e),
                Ok(rem) => if !(1 <= self.selected_inputs@.len <= INPUT_COUNT_MAX) {
                    Err(SelectionErrorV::InvalidInputCount(self.selected_inputs@.len))
                } else {
                    match self.final_address() {
                        None => Err(SelectionErrorV::MissingInputWithEd25519Address),
                        Some(addr) => match finished_outputs(
                            outputs_view(self.provided_outputs@),
                            outputs_view(self.added_outputs@),
                            rem,
                            addr,
                            self.slot,
                            self.range,
                        ) {
                            Err(e) => Err(e),
                            Ok(outs) => {
                                let ins = self.selected_inputs@.sorted();
                                match extra_reward(ins, rewards_view(self.mana_rewards@)) {
                                    Some(id) => Err(SelectionErrorV::ExtraManaRewards(id)),
                                    None => Ok((ins, outs, reward_positions(ins, output_ids_view(self.reward_inputs@)))),
                                }
                            },
                        },
                    }
                }
            }
        }
    }

    /// The capabilities of the transaction: burning native tokens where the burn holds
    /// native tokens; burning mana where generated mana is burned and the inputs bring more
    /// mana with what they generate than without.
    pub open spec fn capabilities_spec(&self) -> TransactionCapabilities {
        TransactionCapabilities {
            burn_native_tokens: (self.burn matches Some(b) && b.native_tokens_list().len() > 0),
            burn_mana: (self.burn matches Some(b) && b@.generated_mana && self.mana.input_mana
                < self.generated_input_mana),
        }
    }

    /// Why the transaction of `ins` and `outs` fails semantic validation, if it does: its
    /// outputs do not hold the amount of its inputs; its outputs and allotments take more
    /// mana than its inputs bring with generated mana and rewards; or they take less while
    /// the transaction may not burn mana.
    pub open spec fn semantic_failure(&self, ins: Seq<InputV>, outs: Seq<OutputV>) -> Option<TransactionFailure> {
        let taken = sum_output_mana(outs) + self.allotted_mana;
        if sum_output_amounts(outs) != sum_input_amounts(ins) {
            Some(TransactionFailure::InputOutputBaseTokenMismatch)
        } else if taken > self.generated_input_mana {
            Some(TransactionFailure::InputOutputManaMismatch)
        } else if taken < self.generated_input_mana && !self.capabilities_spec().burn_mana {
            Some(TransactionFailure::CapabilitiesManaBurningNotAllowed)
        } else {
            None
        }
    }

    /// What the finish gives: what it assembles, where that passes semantic validation.
    pub open spec fn finish_spec(&self) -> Result<(Seq<InputV>, Seq<OutputV>, Seq<nat>), SelectionErrorV> {
        match self.assembled_spec() {
            Err(e) => Err(e),
            Ok((ins, outs, pos)) => match self.semantic_failure(ins, outs) {
                Some(f) => Err(SelectionErrorV::Semantic(f)),
                None => Ok((ins, outs, pos)),
            },
        }
    }

    /// Whether the finish keeps every sum within 64 bits: the remainders can be computed, and
    /// the excess that existing outputs take fits in them.
    pub open spec fn finish_fits(&self) -> bool {
        &&& self.selected_inputs@.wf()
        &&& self.mana.input_mana >= self.mana.output_mana && !self.min_mana_allotment ==> remainders_computable(
            self.selected_inputs@.all(),
            outputs_view(self.provided_outputs@) + outputs_view(self.added_outputs@),
            self.burn,
            self.slot,
            self.mana.input_mana,
            self.mana.output_mana,
            self.token_min_amount,
        )
        &&& self.mana.input_mana >= self.mana.output_mana ==> match (self.final_remainders(), self.final_address()) {
            (Ok(rem), Some(addr)) => apply_excess(
                outputs_view(self.added_outputs@),
                merge_given(rem.added_amount, rem.added_mana),
                addr,
                self.slot,
                self.range,
            ) is Some,
            _ => true,
        }
    }

    /// Finishes the transaction; see `finish_spec`. On success the inputs are the selected
    /// ones, each as often as selected, in signing order, 1 to 128 of them; the outputs
    /// begin with the provided ones and number 1 to 128; the outputs hold exactly the amount
    /// that the inputs bring, and with the allotments take the mana that the inputs bring,
    /// or less where the transaction may burn mana. Where the finish computes the
    /// remainders, the amount check never fails (see `lemma_finish_balances`).
    pub fn finish(self) -> (r: Result<PreparedTransactionData, SelectionError>)
        requires
            self.finish_fits(),
        ensures
            match r {
                Ok(d) => self.finish_spec() == Ok::<(Seq<InputV>, Seq<OutputV>, Seq<nat>), SelectionErrorV>(
                    (
                        inputs_view(d.inputs_data@),
                        outputs_view(d.outputs@),
                        d.reward_context_inputs@.map_values(|i: u16| i as nat),
                    ),
                ),
                Err(e) => self.finish_spec() == Err::<(Seq<InputV>, Seq<OutputV>, Seq<nat>), SelectionErrorV>(e@),
            },
            r matches Ok(d) ==> {
                &&& inputs_view(d.inputs_data@) == self.selected_inputs@.sorted()
                &&& inputs_view(d.inputs_data@).to_multiset() == self.selected_inputs@.all().to_multiset()
                &&& 1 <= d.inputs_data@.len() <= INPUT_COUNT_MAX
                &&& !output_count_invalid(d.outputs@.len())
                &&& outputs_view(d.outputs@).take(self.provided_outputs@.len() as int) == outputs_view(
                    self.provided_outputs@,
                )
                &&& d.mana_rewards@ == self.mana_rewards@
                &&& d.capabilities == self.capabilities_spec()
                &&& self.selected_inputs@.all().no_duplicates() ==> inputs_view(d.inputs_data@).no_duplicates()
                &&& forall|id: OutputIdV|
                    #[trigger] selected_spends(self.selected_inputs@, id) ==> exists|k: int|
                        0 <= k < d.inputs_data@.len() && d.inputs_data@[k].output_id@ == id
                &&& sum_output_amounts(outputs_view(d.outputs@)) == sum_input_amounts(inputs_view(d.inputs_data@))
                &&& sum_output_amounts(outputs_view(d.outputs@)) == sum_input_amounts(self.selected_inputs@.all())
                &&& sum_output_mana(outputs_view(d.outputs@)) + self.allotted_mana <= self.generated_input_mana
                &&& !d.capabilities.burn_mana ==> sum_output_mana(outputs_view(d.outputs@)) + self.allotted_mana
                    == self.generated_input_mana
            },
            !self.min_mana_allotment && self.covers_token_remainders() ==> self.finish_spec() != Err::<
                (Seq<InputV>, Seq<OutputV>, Seq<nat>),
                SelectionErrorV,
            >(SelectionErrorV::Semantic(TransactionFailure::InputOutputBaseTokenMismatch)),
    {
        proof {
            lemma_sorted_lists_all(self.selected_inputs@);
            lemma_sum_inputs_permutation(self.selected_inputs@.sorted(), self.selected_inputs@.all());
            lemma_same_inputs_distinct_and_spent(self.selected_inputs@.sorted(), self.selected_inputs@);
            if self.assembled_spec() is Ok && !self.min_mana_allotment && self.covers_token_remainders() {
                lemma_finish_balances(&self);
            }
            lemma_sorted_lists_all(self.selected_inputs@);
            vstd::seq_lib::to_multiset_len(self.selected_inputs@.sorted());
            vstd::seq_lib::to_multiset_len(self.selected_inputs@.all());
        }
        let TransactionBuilder {
            provided_outputs,
            added_outputs,
            available_inputs,
            selected_inputs,
            remainder_address,
            burn,
            min_mana_allotment,
            remainders,
            mana,
            slots_remaining,
            token_min_amount,
            catchall_min_amount,
            mana_rewards,
            reward_inputs,
            slot,
            range,
            allotted_mana,
            generated_input_mana,
        } = self;
        match check_mana_balance(mana.input_mana, mana.output_mana, slots_remaining) {
            Err(e) => {
                return Err(e);
            },
            Ok(()) => {},
        }
        let selected = selected_inputs.iter();
        let remainders = if min_mana_allotment {
            remainders
        } else {
            match update_remainders(
                &selected,
                &provided_outputs,
                &added_outputs,
                &available_inputs,
                &remainder_address,
                &burn,
                slot,
                range,
                &mana,
                token_min_amount,
                catchall_min_amount,
            ) {
                Err(e) => {
                    return Err(e);
                },
                Ok(rem) => rem,
            }
        };
        match check_input_count(selected_inputs.len()) {
            Err(e) => {
                return Err(e);
            },
            Ok(()) => {},
        }
        let addr = match get_remainder_address(&remainder_address, &available_inputs, &selected, slot, range) {
            Some((a, _)) => a,
            None => {
                return Err(SelectionError::MissingInputWithEd25519Address);
            },
        };
        let n_provided = provided_outputs.len();
        let ghost provided_view = outputs_view(provided_outputs@);
        let outputs = match finish_outputs(provided_outputs, added_outputs, remainders, &addr, slot, range) {
            Err(e) => {
                return Err(e);
            },
            Ok(v) => v,
        };
        proof {
            assert(outputs_view(outputs@).take(n_provided as int) =~= provided_view);
        }
        let capabilities = TransactionCapabilities {
            burn_native_tokens: match &burn {
                Some(b) => b.native_tokens().len() > 0,
                None => false,
            },
            burn_mana: match &burn {
                Some(b) => b.generated_mana() && mana.input_mana < generated_input_mana,
                None => false,
            },
        };
        match finish_inputs(selected_inputs, &mana_rewards, &reward_inputs) {
            Err(e) => Err(e),
            Ok((inputs_data, reward_context_inputs)) => {
                let in_amount = input_amount_total(&inputs_data);
                let (out_amount, out_mana) = output_totals(&outputs);
                let taken = out_mana + allotted_mana as u128;
                if out_amount != in_amount {
                    Err(SelectionError::Semantic(TransactionFailure::InputOutputBaseTokenMismatch))
                } else if taken > generated_input_mana as u128 {
                    Err(SelectionError::Semantic(TransactionFailure::InputOutputManaMismatch))
                } else if taken < generated_input_mana as u128 && !capabilities.burn_mana {
                    Err(SelectionError::Semantic(TransactionFailure::CapabilitiesManaBurningNotAllowed))
                } else {
                    Ok(PreparedTransactionData { inputs_data, outputs, reward_context_inputs, mana_rewards, capabilities })
                }
            },
        }
    }
}

/// The selection at the start of the requirements: the available inputs, the selected
/// ones and the requirements still to fulfil.
#[derive(Debug)]
pub struct SelectionStart {
    pub available: Vec<InputSigningData>,
    pub selected: OrderedInputs,
    pub requirements: Vec<Requirement>,
}

/// The requirements that every selection begins with.
pub open spec fn initial_requirements() -> Seq<RequirementV> {
    seq![RequirementV::Mana, RequirementV::Amount, RequirementV::NativeTokens]
}

/// The start of a selection: the error where the number of provided outputs is outside
/// 1 to 128 and neither a burn, mana allotments nor required inputs will add outputs; the
/// inputs that can take part; the error where there are none; the required inputs moved to
/// the selected ones; then the requirements of the provided outputs and of the burn.
pub open spec fn start_spec(
    inputs: Seq<InputV>,
    addresses: Seq<AddressV>,
    required: Seq<OutputIdV>,
    burn: Option<Burn>,
    provided: Seq<OutputV>,
    has_allotments: bool,
    slot: u32,
    min_committable_age: u32,
    range: CommittableAgeRange,
) -> Result<SelectionStateV, SelectionErrorV> {
    let kept = kept_inputs(
        inputs,
        addresses.to_set(),
        required.to_set(),
        burn_delegations(burn),
        slot,
        min_committable_age,
        range,
    );
    if output_count_invalid(provided.len()) && (provided.len() != 0 || (burn is None && !has_allotments
        && required.len() == 0)) {
        Err(SelectionErrorV::InvalidOutputCount(provided.len()))
    } else if kept.len() == 0 {
        Err(SelectionErrorV::NoAvailableInputsProvided)
    } else {
        let st = SelectionStateV {
            available: kept,
            selected: OrderedInputsV { ed25519: Seq::empty(), other: Seq::empty(), len: 0 },
            requirements: initial_requirements(),
        };
        match required_spec(st, required, slot, range) {
            Err(e) => Err(e),
            Ok(s1) => {
                let reqs = s1.requirements + outputs_requirements_spec(provided, s1.available + s1.selected.all());
                match burn {
                    None => Ok(SelectionStateV { requirements: reqs, ..s1 }),
                    Some(b) => match burn_outcome(b, provided) {
                        Err(e) => Err(e),
                        Ok(q) => Ok(SelectionStateV { requirements: reqs + q, ..s1 }),
                    },
                }
            },
        }
    }
}

impl TransactionBuilder {
    /// Starts the selection of inputs for `provided` outputs; see `start_spec`. On success
    /// the selected and the available inputs together are the inputs that can take part,
    /// each as often as given, and every required output is spent by a selected input.
    pub fn start(
        inputs: Vec<InputSigningData>,
        addresses: &Vec<Address>,
        required: &Vec<OutputId>,
        burn: &Option<Burn>,
        provided: &Vec<Output>,
        has_allotments: bool,
        slot: u32,
        min_committable_age: u32,
        range: CommittableAgeRange,
    ) -> (r: Result<SelectionStart, SelectionError>)
        requires
            forall|i: int|
                0 <= i < inputs@.len() && (#[trigger] inputs@[i]).output.kind == OutputKind::Delegation
                    ==> inputs@[i].output.expiration is None,
        ensures
            ({
                let spec = start_spec(
                    inputs_view(inputs@),
                    addresses_view(addresses@),
                    output_ids_view(required@),
                    *burn,
                    outputs_view(provided@),
                    has_allotments,
                    slot,
                    min_committable_age,
                    range,
                );
                match r {
                    Ok(s) => spec == Ok::<SelectionStateV, SelectionErrorV>(
                        state_view(s.available@, s.selected@, s.requirements@),
                    ),
                    Err(e) => spec == Err::<SelectionStateV, SelectionErrorV>(e@),
                }
            }),
            r matches Ok(s) ==> {
                let kept = kept_inputs(
                    inputs_view(inputs@),
                    addresses_view(addresses@).to_set(),
                    output_ids_view(required@).to_set(),
                    burn_delegations(*burn),
                    slot,
                    min_committable_age,
                    range,
                );
                &&& s.selected@.wf()
                &&& (inputs_view(s.available@) + s.selected@.all()).to_multiset() == kept.to_multiset()
                &&& forall|k: int| 0 <= k < required@.len() ==> #[trigger] selected_spends(s.selected@, required@[k]@)
                &&& inputs_view(inputs@).no_duplicates() ==> (inputs_view(s.available@)
                    + s.selected@.all()).no_duplicates()
            },
    {
        match check_provided_outputs(provided.len(), burn.is_some(), has_allotments, required.len() > 0) {
            Err(e) => {
                return Err(e);
            },
            Ok(()) => {},
        }
        let ghost all = inputs_view(inputs@);
        let mut available = filter_inputs(inputs, addresses, required, burn, slot, min_committable_age, range);
        if available.len() == 0 {
            return Err(SelectionError::NoAvailableInputsProvided);
        }
        proof {
            let kept = inputs_view(available@);
            lemma_kept_inputs(
                all,
                addresses_view(addresses@).to_set(),
                output_ids_view(required@).to_set(),
                burn_delegations(*burn),
                slot,
                min_committable_age,
                range,
            );
            assert forall|i: int| 0 <= i < kept.len() implies (#[trigger] kept[i]).output.required_address(slot, range) is Some by {
                let x = kept[i];
                if x.output.kind == OutputKind::Delegation {
                    let j = choose|j: int| 0 <= j < all.len() && all[j] == x;
                    assert(inputs@[j]@ == x);
                }
            }
        }
        let mut selected = OrderedInputs::new();
        let mut requirements: Vec<Requirement> = Vec::new();
        requirements.push(Requirement::Mana);
        requirements.push(Requirement::Amount);
        requirements.push(Requirement::NativeTokens);
        assert(requirements_view(requirements@) =~= initial_requirements());
        let ghost st0 = state_view(available@, selected@, requirements@);
        match select_required_inputs(&mut available, &mut selected, &mut requirements, required, slot, range) {
            Err(e) => {
                return Err(e);
            },
            Ok(()) => {},
        }
        proof {
            lemma_required_moves_inputs(st0, output_ids_view(required@), slot, range);
            assert(st0.selected.all() =~= Seq::<InputV>::empty());
            assert(st0.available + st0.selected.all() =~= st0.available);
            assert forall|k: int| 0 <= k < required@.len() implies #[trigger] selected_spends(selected@, required@[k]@) by {
                assert(output_ids_view(required@)[k] == required@[k]@);
            }
        }
        let selected_list = selected.iter();
        let mut from_outputs = outputs_requirements(provided, &available, &selected_list);
        let ghost r1 = requirements@;
        let ghost f1 = from_outputs@;
        requirements.append(&mut from_outputs);
        assert(requirements_view(requirements@) =~= requirements_view(r1) + requirements_view(f1));
        match burn {
            None => {},
            Some(b) => match burn_requirements(b, provided) {
                Err(e) => {
                    return Err(e);
                },
                Ok(q) => {
                    let mut q = q;
                    let ghost r2 = requirements@;
                    let ghost q1 = q@;
                    requirements.append(&mut q);
                    assert(requirements_view(requirements@) =~= requirements_view(r2) + requirements_view(q1));
                },
            },
        }
        proof {
            if all.no_duplicates() {
                let kept = kept_inputs(
                    all,
                    addresses_view(addresses@).to_set(),
                    output_ids_view(required@).to_set(),
                    burn_delegations(*burn),
                    slot,
                    min_committable_age,
                    range,
                );
                lemma_kept_inputs_distinct(
                    all,
                    addresses_view(addresses@).to_set(),
                    output_ids_view(required@).to_set(),
                    burn_delegations(*burn),
                    slot,
                    min_committable_age,
                    range,
                );
                kept.lemma_multiset_has_no_duplicates();
                let both = inputs_view(available@) + selected@.all();
                assert(both.to_multiset() == kept.to_multiset());
                assert forall|x: InputV| both.to_multiset().contains(x) implies both.to_multiset().count(x) == 1 by {
                    assert(kept.to_multiset().contains(x));
                }
                both.lemma_multiset_has_no_duplicates_conv();
            }
        }
        Ok(SelectionStart { available, selected, requirements })
    }
}

/// A list holding the selected inputs, each as often, holds each input once where the
/// selection does, and spends every output that the selection spends.
proof fn lemma_same_inputs_distinct_and_spent(s: Seq<InputV>, sel: OrderedInputsV)
    requires
        s.to_multiset() == sel.all().to_multiset(),
    ensures
        sel.all().no_duplicates() ==> s.no_duplicates(),
        forall|id: OutputIdV|
            #[trigger] selected_spends(sel, id) ==> exists|k: int| 0 <= k < s.len() && s[k].output_id == id,
{
    broadcast use vstd::seq_lib::group_to_multiset_ensures;

    if sel.all().no_duplicates() {
        sel.all().lemma_multiset_has_no_duplicates();
        s.lemma_multiset_has_no_duplicates_conv();
    }
    assert forall|id: OutputIdV| #[trigger] selected_spends(sel, id) implies exists|k: int|
        0 <= k < s.len() && s[k].output_id == id by {
        let x = choose|x: InputV| sel.all().to_multiset().contains(x) && x.output_id == id;
        assert(s.to_multiset().count(x) > 0);
        assert(s.contains(x));
        let k = choose|k: int| 0 <= k < s.len() && s[k] == x;
        assert(s[k].output_id == id);
    }
}

/// The total amount of two lists of outputs is the sum of their totals.
proof fn lemma_sum_concat(a: Seq<OutputV>, b: Seq<OutputV>)
    ensures
        sum_output_amounts(a + b) == sum_output_amounts(a) + sum_output_amounts(b),
    decreases b.len(),
{
    if b.len() > 0 {
        lemma_sum_concat(a, b.drop_last());
        assert((a + b).drop_last() =~= a + b.drop_last());
        assert((a + b).last() == b.last());
    } else {
        assert(a + b =~= a);
    }
}

/// The remainder outputs hold the amount of the remainders.
proof fn lemma_data_outputs_sum(d: Seq<RemainderDataV>)
    ensures
        sum_output_amounts(d.map_values(|r: RemainderDataV| r.output)) == data_amount(d),
    decreases d.len(),
{
    if d.len() > 0 {
        lemma_data_outputs_sum(d.drop_last());
        assert(d.map_values(|r: RemainderDataV| r.output).drop_last() =~= d.drop_last().map_values(
            |r: RemainderDataV| r.output,
        ));
    } else {
        assert(d.map_values(|r: RemainderDataV| r.output) =~= Seq::<OutputV>::empty());
    }
}

/// The outputs that return storage deposits hold what the outputs did not already return.
proof fn lemma_sdr_returns_sum(ins: Seq<(AddressV, nat)>, outs: Seq<(AddressV, nat)>)
    requires
        sdr_excess(ins, outs) <= u64::MAX,
    ensures
        sum_output_amounts(sdr_returns(ins, outs)) == sdr_excess(ins, outs),
    decreases ins.len(),
{
    if ins.len() > 0 {
        lemma_sdr_returns_sum(ins.drop_last(), outs);
        let rest = sdr_returns(ins.drop_last(), outs);
        let (a, n) = ins.last();
        if n > lookup(outs, a) {
            assert(sdr_returns(ins, outs).drop_last() =~= rest);
        }
    }
}

/// The total excess amount of merged entries.
pub open spec fn merged_amount(m: Seq<(Option<Seq<u8>>, nat, nat)>) -> nat
    decreases m.len(),
{
    if m.len() == 0 {
        0
    } else {
        merged_amount(m.drop_last()) + m.last().1
    }
}

/// Whether each entry with an excess amount has an output that can take it.
pub open spec fn targets_found(
    outs: Seq<OutputV>,
    m: Seq<(Option<Seq<u8>>, nat, nat)>,
    addr: AddressV,
    slot: u32,
    range: CommittableAgeRange,
) -> bool {
    forall|i: int|
        0 <= i < m.len() && (#[trigger] m[i]).1 > 0 ==> target_exists(outs, m[i].0, addr, slot, range)
            || target_exists(outs, None, addr, slot, range)
}

proof fn lemma_apply_excess_sum(
    outs: Seq<OutputV>,
    m: Seq<(Option<Seq<u8>>, nat, nat)>,
    addr: AddressV,
    slot: u32,
    range: CommittableAgeRange,
)
    requires
        apply_excess(outs, m, addr, slot, range) is Some,
        targets_found(outs, m, addr, slot, range),
    ensures
        ({
            let o2 = apply_excess(outs, m, addr, slot, range)->0;
            &&& sum_output_amounts(o2) == sum_output_amounts(outs) + merged_amount(m)
            &&& o2.len() == outs.len()
            &&& forall|i: int, c: Option<Seq<u8>>|
                0 <= i < outs.len() ==> (#[trigger] remainder_target(o2[i], c, addr, slot, range) == remainder_target(
                    outs[i],
                    c,
                    addr,
                    slot,
                    range,
                ))
        }),
    decreases m.len(),
{
    if m.len() > 0 {
        let init = m.drop_last();
        assert(targets_found(outs, init, addr, slot, range)) by {
            assert forall|i: int| 0 <= i < init.len() && (#[trigger] init[i]).1 > 0 implies target_exists(
                outs,
                init[i].0,
                addr,
                slot,
                range,
            ) || target_exists(outs, None, addr, slot, range) by {
                assert(init[i] == m[i]);
            }
        }
        lemma_apply_excess_sum(outs, init, addr, slot, range);
        let o1 = apply_excess(outs, init, addr, slot, range)->0;
        let (k, a, mm) = m.last();
        lemma_first_where(o1, target_pred(k, addr, slot, range));
        lemma_first_where(o1, target_pred(None, addr, slot, range));
        match output_for_remainder(o1, k, addr, slot, range) {
            Some(i) => {
                let n = with_excess(o1[i], a, mm)->0;
                lemma_sum_outputs_update(o1, i, n);
                let o2 = o1.update(i, n);
                assert forall|j: int, c: Option<Seq<u8>>| 0 <= j < outs.len() implies (#[trigger] remainder_target(
                    o2[j],
                    c,
                    addr,
                    slot,
                    range,
                ) == remainder_target(outs[j], c, addr, slot, range)) by {
                    assert(remainder_target(o1[j], c, addr, slot, range) == remainder_target(outs[j], c, addr, slot, range));
                }
            },
            None => {
                if a > 0 {
                    assert(m[m.len() - 1] == m.last());
                    if target_exists(outs, k, addr, slot, range) {
                        let j = choose|j: int| 0 <= j < outs.len() && #[trigger] remainder_target(outs[j], k, addr, slot, range);
                        assert(remainder_target(o1[j], k, addr, slot, range));
                        assert(target_pred(k, addr, slot, range)(o1[j]));
                    } else {
                        let j = choose|j: int| 0 <= j < outs.len() && #[trigger] remainder_target(outs[j], None, addr, slot, range);
                        assert(remainder_target(o1[j], None, addr, slot, range));
                        assert(target_pred(None, addr, slot, range)(o1[j]));
                    }
                }
            },
        }
    }
}

proof fn lemma_merged_concat(a: Seq<(Option<Seq<u8>>, nat, nat)>, b: Seq<(Option<Seq<u8>>, nat, nat)>)
    ensures
        merged_amount(a + b) == merged_amount(a) + merged_amount(b),
    decreases b.len(),
{
    if b.len() > 0 {
        lemma_merged_concat(a, b.drop_last());
        assert((a + b).drop_last() =~= a + b.drop_last());
        assert((a + b).last() == b.last());
    } else {
        assert(a + b =~= a);
    }
}

proof fn lemma_amount_part(amounts: Seq<(Option<Seq<u8>>, nat)>, mana: Seq<(Option<Seq<u8>>, nat)>)
    ensures
        merged_amount(amount_part(amounts, mana)) == given_total(amounts),
        amount_part(amounts, mana).len() == amounts.len(),
        forall|i: int| 0 <= i < amounts.len() ==> (#[trigger] amount_part(amounts, mana)[i]).0 == amounts[i].0
            && amount_part(amounts, mana)[i].1 == amounts[i].1,
    decreases amounts.len(),
{
    if amounts.len() > 0 {
        lemma_amount_part(amounts.drop_last(), mana);
        let p = amount_part(amounts, mana);
        assert(p.drop_last() =~= amount_part(amounts.drop_last(), mana));
        assert forall|i: int| 0 <= i < amounts.len() implies (#[trigger] p[i]).0 == amounts[i].0 && p[i].1
            == amounts[i].1 by {
            if i < amounts.len() - 1 {
                assert(p[i] == amount_part(amounts.drop_last(), mana)[i]);
                assert(amounts.drop_last()[i] == amounts[i]);
            }
        }
    }
}

proof fn lemma_mana_part(amounts: Seq<(Option<Seq<u8>>, nat)>, mana: Seq<(Option<Seq<u8>>, nat)>)
    ensures
        merged_amount(mana_part(amounts, mana)) == 0,
        forall|i: int| 0 <= i < mana_part(amounts, mana).len() ==> (#[trigger] mana_part(amounts, mana)[i]).1 == 0,
    decreases mana.len(),
{
    if mana.len() > 0 {
        lemma_mana_part(amounts, mana.drop_last());
        let r = mana_part(amounts, mana.drop_last());
        let p = mana_part(amounts, mana);
        if p.len() > r.len() {
            assert(p.drop_last() =~= r);
        }
        assert forall|i: int| 0 <= i < p.len() implies (#[trigger] p[i]).1 == 0 by {
            if i < r.len() {
                assert(p[i] == r[i]);
            }
        }
    }
}

/// Whether each amount given goes under a key for which an added output can take it.
pub open spec fn given_targets(
    given: Seq<(Option<Seq<u8>>, nat)>,
    added: Seq<OutputV>,
    addr: AddressV,
    slot: u32,
    range: CommittableAgeRange,
) -> bool {
    forall|i: int|
        0 <= i < given.len() ==> target_exists(added, (#[trigger] given[i]).0, addr, slot, range) || target_exists(
            added,
            None,
            addr,
            slot,
            range,
        )
}

proof fn lemma_allocate_chains_targets(
    chains: Seq<(Seq<u8>, (nat, nat))>,
    diff: nat,
    reserve: nat,
    added: Seq<OutputV>,
    addr: AddressV,
    slot: u32,
    range: CommittableAgeRange,
)
    ensures
        given_targets(allocate_chains(chains, diff, reserve, added, addr, slot, range).1, added, addr, slot, range),
    decreases chains.len(),
{
    if chains.len() > 0 {
        lemma_allocate_chains_targets(chains.drop_last(), diff, reserve, added, addr, slot, range);
        let g0 = allocate_chains(chains.drop_last(), diff, reserve, added, addr, slot, range).1;
        let g = allocate_chains(chains, diff, reserve, added, addr, slot, range).1;
        assert forall|i: int| 0 <= i < g.len() implies target_exists(added, (#[trigger] g[i]).0, addr, slot, range)
            || target_exists(added, None, addr, slot, range) by {
            if i < g0.len() {
                assert(g[i] == g0[i]);
            }
        }
    }
}

proof fn lemma_allocate_excess_targets(
    chains: Seq<(Seq<u8>, (nat, nat))>,
    diff: nat,
    reserve: nat,
    added: Seq<OutputV>,
    addr: AddressV,
    slot: u32,
    range: CommittableAgeRange,
)
    ensures
        given_targets(allocate_excess(chains, diff, reserve, added, addr, slot, range).1, added, addr, slot, range),
{
    lemma_allocate_chains_targets(chains, diff, reserve, added, addr, slot, range);
    if diff > reserve {
        let g0 = allocate_chains(chains, diff, reserve, added, addr, slot, range).1;
        let g = allocate_excess(chains, diff, reserve, added, addr, slot, range).1;
        assert forall|i: int| 0 <= i < g.len() implies target_exists(added, (#[trigger] g[i]).0, addr, slot, range)
            || target_exists(added, None, addr, slot, range) by {
            if i < g0.len() {
                assert(g[i] == g0[i]);
            }
        }
    }
}

/// Merging the amounts and the mana given keeps the total amount and finds an output for
/// each amount.
proof fn lemma_merge_given(
    amounts: Seq<(Option<Seq<u8>>, nat)>,
    mana: Seq<(Option<Seq<u8>>, nat)>,
    added: Seq<OutputV>,
    addr: AddressV,
    slot: u32,
    range: CommittableAgeRange,
)
    requires
        given_targets(amounts, added, addr, slot, range),
    ensures
        merged_amount(merge_given(amounts, mana)) == given_total(amounts),
        targets_found(added, merge_given(amounts, mana), addr, slot, range),
{
    lemma_amount_part(amounts, mana);
    lemma_mana_part(amounts, mana);
    lemma_merged_concat(amount_part(amounts, mana), mana_part(amounts, mana));
    let m = merge_given(amounts, mana);
    let ap = amount_part(amounts, mana);
    assert forall|i: int| 0 <= i < m.len() && (#[trigger] m[i]).1 > 0 implies target_exists(
        added,
        m[i].0,
        addr,
        slot,
        range,
    ) || target_exists(added, None, addr, slot, range) by {
        if i < ap.len() {
            assert(m[i] == ap[i]);
            assert(ap[i].0 == amounts[i].0);
        } else {
            assert(m[i] == mana_part(amounts, mana)[i - ap.len()]);
        }
    }
}

impl TransactionBuilder {
    /// The outputs that the finish gives, none where it fails.
    pub open spec fn finish_outputs_spec(&self) -> Seq<OutputV> {
        match self.assembled_spec() {
            Ok((_, outs, _)) => outs,
            Err(_) => Seq::empty(),
        }
    }

    /// Whether the excess amount covers the storage deposits of all native token
    /// remainders but one, where native tokens need remainders.
    pub open spec fn covers_token_remainders(&self) -> bool {
        let sel = self.selected_inputs@.all();
        let outs = outputs_view(self.provided_outputs@) + outputs_view(self.added_outputs@);
        let n = remainder_tokens(sel, outs, self.burn).len();
        n > 0 ==> sum_input_amounts(sel) - required_output_amount(sel, outs, self.slot) >= self.token_min_amount * (n
            - 1)
    }
}

/// A transaction whose remainders the finish computes is assembled with balanced amounts:
/// its outputs hold what the selected inputs bring, wherever the excess covers the storage
/// deposits of the native token remainders but one.
pub proof fn lemma_finish_balances(b: &TransactionBuilder)
    requires
        b.finish_fits(),
        !b.min_mana_allotment,
        b.covers_token_remainders(),
        b.assembled_spec() is Ok,
    ensures
        sum_output_amounts(b.finish_outputs_spec()) == sum_input_amounts(b.selected_inputs@.all()),
{
    let sel = b.selected_inputs@.all();
    let provided = outputs_view(b.provided_outputs@);
    let added = outputs_view(b.added_outputs@);
    let outs = provided + added;
    let rem = b.final_remainders()->Ok_0;
    let addr = b.final_address()->0;
    lemma_remainders_balance(
        sel,
        provided,
        added,
        inputs_view(b.available_inputs@),
        configured_view(b.remainder_address),
        b.burn,
        b.slot,
        b.range,
        b.mana.input_mana,
        b.mana.output_mana,
        b.mana.initial_excess,
        crate::remainders::chains_view(b.mana.chains@),
        b.token_min_amount,
        b.catchall_min_amount,
    );
    let tokens = remainder_tokens(sel, outs, b.burn);
    let amount_diff = (sum_input_amounts(sel) - required_output_amount(sel, outs, b.slot)) as nat;
    let reserve = (if tokens.len() > 0 {
        b.token_min_amount * tokens.len()
    } else {
        0
    }) as nat;
    assert(rem.added_amount == allocate_excess(
        amount_chains_spec(outs, sel),
        amount_diff,
        reserve,
        added,
        addr,
        b.slot,
        b.range,
    ).1);
    lemma_allocate_excess_targets(amount_chains_spec(outs, sel), amount_diff, reserve, added, addr, b.slot, b.range);
    lemma_merge_given(rem.added_amount, rem.added_mana, added, addr, b.slot, b.range);
    lemma_apply_excess_sum(added, merge_given(rem.added_amount, rem.added_mana), addr, b.slot, b.range);
    let added2 = apply_excess(added, merge_given(rem.added_amount, rem.added_mana), addr, b.slot, b.range)->0;
    let ins_sdr = crate::amount::inputs_sdr(sel, b.slot);
    let outs_sdr = crate::amount::outputs_sdr(outs);
    assert(rem.storage_deposit_returns == sdr_returns(ins_sdr, outs_sdr));
    lemma_sdr_returns_sum(ins_sdr, outs_sdr);
    let dout = rem.data.map_values(|r: RemainderDataV| r.output);
    lemma_data_outputs_sum(rem.data);
    let all = all_outputs(provided, added2, rem.storage_deposit_returns, rem.data);
    lemma_sum_concat(provided, added2);
    lemma_sum_concat(provided + added2, rem.storage_deposit_returns);
    lemma_sum_concat(provided + added2 + rem.storage_deposit_returns, dout);
    lemma_sum_concat(provided, added);
    assert(b.finish_outputs_spec() == all);
}

} // verus!
