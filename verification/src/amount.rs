//! The amount balance of a transaction under construction, and the selection of inputs
//! that covers a missing amount.

use vstd::prelude::*;

use crate::amounts::{
    accumulate, add_amount, distinct_addresses, lemma_accumulate, lemma_add_amount, lookup,
    AddressAmounts,
};
use crate::ledger::{AddressV, Id, InputSigningData, InputV, Output, OutputIdV, OutputKind, OutputV};

verus! {

/// The total amount of the outputs that `inputs` spend.
pub open spec fn sum_input_amounts(inputs: Seq<InputV>) -> nat
    decreases inputs.len(),
{
    if inputs.len() == 0 {
        0
    } else {
        sum_input_amounts(inputs.drop_last()) + inputs.last().output.amount as nat
    }
}

/// The total amount of `outputs`.
pub open spec fn sum_output_amounts(outputs: Seq<OutputV>) -> nat
    decreases outputs.len(),
{
    if outputs.len() == 0 {
        0
    } else {
        sum_output_amounts(outputs.drop_last()) + outputs.last().amount as nat
    }
}

/// The storage deposit returns that the inputs still owe at `slot`, in input order.
pub open spec fn input_sdr_contributions(inputs: Seq<InputV>, slot: u32) -> Seq<(AddressV, nat)>
    decreases inputs.len(),
{
    if inputs.len() == 0 {
        Seq::empty()
    } else {
        input_sdr_contributions(inputs.drop_last(), slot) + match inputs.last().output.sdruc_not_expired(
            slot,
        ) {
            Some((a, n)) => seq![(a, n as nat)],
            None => Seq::empty(),
        }
    }
}

/// The amounts that outputs without further conditions send to their address, in output order.
pub open spec fn output_sdr_contributions(outputs: Seq<OutputV>) -> Seq<(AddressV, nat)>
    decreases outputs.len(),
{
    if outputs.len() == 0 {
        Seq::empty()
    } else {
        output_sdr_contributions(outputs.drop_last()) + match outputs.last().simple_deposit_address() {
            Some(a) => seq![(a, outputs.last().amount as nat)],
            None => Seq::empty(),
        }
    }
}

/// How much the storage deposit returns owed to each address exceed what the outputs send
/// to it, summed over the addresses.
pub open spec fn sdr_excess(ins: Seq<(AddressV, nat)>, outs: Seq<(AddressV, nat)>) -> nat
    decreases ins.len(),
{
    if ins.len() == 0 {
        0
    } else {
        sdr_excess(ins.drop_last(), outs) + if ins.last().1 > lookup(outs, ins.last().0) {
            (ins.last().1 - lookup(outs, ins.last().0)) as nat
        } else {
            0
        }
    }
}

/// The storage deposit returns owed per address.
pub open spec fn inputs_sdr(inputs: Seq<InputV>, slot: u32) -> Seq<(AddressV, nat)> {
    accumulate(input_sdr_contributions(inputs, slot))
}

/// The amounts sent per address by outputs without further conditions.
pub open spec fn outputs_sdr(outputs: Seq<OutputV>) -> Seq<(AddressV, nat)> {
    accumulate(output_sdr_contributions(outputs))
}

/// The amount that the outputs need: their own amounts, plus the storage deposit returns
/// that they do not already pay.
pub open spec fn required_output_amount(inputs: Seq<InputV>, outputs: Seq<OutputV>, slot: u32) -> nat {
    sum_output_amounts(outputs) + sdr_excess(inputs_sdr(inputs, slot), outputs_sdr(outputs))
}

/// Whether the sums that `amount_sums` computes fit in 64 bits.
pub open spec fn amount_sums_fit(inputs: Seq<InputV>, outputs: Seq<OutputV>, slot: u32) -> bool {
    &&& sum_input_amounts(inputs) <= u64::MAX
    &&& forall|a: AddressV| #[trigger] lookup(inputs_sdr(inputs, slot), a) <= u64::MAX
    &&& forall|a: AddressV| #[trigger] lookup(outputs_sdr(outputs), a) <= u64::MAX
    &&& required_output_amount(inputs, outputs, slot) <= u64::MAX
}

/// The total amount of a list is that of the list without one input, plus that input's.
pub proof fn lemma_sum_inputs_remove(s: Seq<InputV>, k: int)
    requires
        0 <= k < s.len(),
    ensures
        sum_input_amounts(s) == sum_input_amounts(s.remove(k)) + s[k].output.amount,
    decreases s.len(),
{
    if k < s.len() - 1 {
        lemma_sum_inputs_remove(s.drop_last(), k);
        assert(s.remove(k).drop_last() =~= s.drop_last().remove(k));
        assert(s.remove(k).last() == s.last());
    } else {
        assert(s.remove(k) =~= s.drop_last());
    }
}

/// Two lists of the same inputs, each as often, have the same total amount.
pub proof fn lemma_sum_inputs_permutation(s: Seq<InputV>, u: Seq<InputV>)
    requires
        s.to_multiset() == u.to_multiset(),
    ensures
        sum_input_amounts(s) == sum_input_amounts(u),
    decreases s.len(),
{
    broadcast use vstd::seq_lib::group_to_multiset_ensures;
    broadcast use vstd::multiset::group_multiset_axioms;

    if s.len() == 0 {
        assert(s.to_multiset().len() == 0);
        assert(u.len() == u.to_multiset().len());
    } else {
        let x = s.last();
        assert(s.contains(x)) by {
            assert(s[s.len() - 1] == x);
        }
        assert(s.to_multiset().count(x) > 0);
        assert(u.to_multiset().count(x) > 0);
        assert(u.contains(x));
        let k = choose|k: int| 0 <= k < u.len() && u[k] == x;
        let u2 = u.remove(k);
        assert(s.drop_last().push(x) =~= s);
        assert(s.drop_last().to_multiset() =~= u2.to_multiset());
        lemma_sum_inputs_permutation(s.drop_last(), u2);
        lemma_sum_inputs_remove(u, k);
    }
}

pub proof fn lemma_sum_inputs_prefix(inputs: Seq<InputV>, k: int)
    requires
        0 <= k <= inputs.len(),
    ensures
        sum_input_amounts(inputs.take(k)) <= sum_input_amounts(inputs),
    decreases inputs.len() - k,
{
    if k < inputs.len() {
        lemma_sum_inputs_prefix(inputs, k + 1);
        assert(inputs.take(k + 1).drop_last() =~= inputs.take(k));
    } else {
        assert(inputs.take(k) =~= inputs);
    }
}

proof fn lemma_sum_outputs_prefix(outputs: Seq<OutputV>, k: int)
    requires
        0 <= k <= outputs.len(),
    ensures
        sum_output_amounts(outputs.take(k)) <= sum_output_amounts(outputs),
    decreases outputs.len() - k,
{
    if k < outputs.len() {
        lemma_sum_outputs_prefix(outputs, k + 1);
        assert(outputs.take(k + 1).drop_last() =~= outputs.take(k));
    } else {
        assert(outputs.take(k) =~= outputs);
    }
}

/// Adding one contribution at the end only grows the accumulated amounts.
proof fn lemma_accumulate_grow(c: Seq<(AddressV, nat)>, extra: Seq<(AddressV, nat)>, a: AddressV)
    requires
        extra.len() <= 1,
    ensures
        lookup(accumulate(c), a) <= lookup(accumulate(c + extra), a),
{
    if extra.len() == 1 {
        assert((c + extra).drop_last() =~= c);
        lemma_accumulate(c + extra);
    } else {
        assert(c + extra =~= c);
    }
}

proof fn lemma_inputs_sdr_prefix(inputs: Seq<InputV>, slot: u32, k: int, a: AddressV)
    requires
        0 <= k <= inputs.len(),
    ensures
        lookup(inputs_sdr(inputs.take(k), slot), a) <= lookup(inputs_sdr(inputs, slot), a),
    decreases inputs.len() - k,
{
    if k < inputs.len() {
        lemma_inputs_sdr_prefix(inputs, slot, k + 1, a);
        let p = inputs.take(k + 1);
        assert(p.drop_last() =~= inputs.take(k));
        let extra = match p.last().output.sdruc_not_expired(slot) {
            Some((b, n)) => seq![(b, n as nat)],
            None => Seq::<(AddressV, nat)>::empty(),
        };
        lemma_accumulate_grow(input_sdr_contributions(inputs.take(k), slot), extra, a);
    } else {
        assert(inputs.take(k) =~= inputs);
    }
}

proof fn lemma_outputs_sdr_prefix(outputs: Seq<OutputV>, k: int, a: AddressV)
    requires
        0 <= k <= outputs.len(),
    ensures
        lookup(outputs_sdr(outputs.take(k)), a) <= lookup(outputs_sdr(outputs), a),
    decreases outputs.len() - k,
{
    if k < outputs.len() {
        lemma_outputs_sdr_prefix(outputs, k + 1, a);
        let p = outputs.take(k + 1);
        assert(p.drop_last() =~= outputs.take(k));
        let extra = match p.last().simple_deposit_address() {
            Some(b) => seq![(b, p.last().amount as nat)],
            None => Seq::<(AddressV, nat)>::empty(),
        };
        lemma_accumulate_grow(output_sdr_contributions(outputs.take(k)), extra, a);
    } else {
        assert(outputs.take(k) =~= outputs);
    }
}

proof fn lemma_sdr_excess_prefix(ins: Seq<(AddressV, nat)>, outs: Seq<(AddressV, nat)>, k: int)
    requires
        0 <= k <= ins.len(),
    ensures
        sdr_excess(ins.take(k), outs) <= sdr_excess(ins, outs),
    decreases ins.len() - k,
{
    if k < ins.len() {
        lemma_sdr_excess_prefix(ins, outs, k + 1);
        assert(ins.take(k + 1).drop_last() =~= ins.take(k));
    } else {
        assert(ins.take(k) =~= ins);
    }
}

/// The views of a vector of inputs.
pub open spec fn inputs_view(v: Seq<InputSigningData>) -> Seq<InputV> {
    v.map_values(|i: InputSigningData| i@)
}

/// The views of a vector of outputs.
pub open spec fn outputs_view(v: Seq<Output>) -> Seq<OutputV> {
    v.map_values(|o: Output| o@)
}

/// Sums the amounts of the selected inputs and of the outputs, and collects the storage
/// deposit returns owed by the inputs and paid by the outputs, per address. The outputs sum
/// includes the returns that the outputs do not already pay.
pub fn amount_sums(selected_inputs: &Vec<InputSigningData>, outputs: &Vec<Output>, slot_index: u32) -> (r: (
    u64,
    u64,
    AddressAmounts,
    AddressAmounts,
))
    requires
        amount_sums_fit(inputs_view(selected_inputs@), outputs_view(outputs@), slot_index),
    ensures
        r.0 == sum_input_amounts(inputs_view(selected_inputs@)),
        r.1 == required_output_amount(inputs_view(selected_inputs@), outputs_view(outputs@), slot_index),
        r.2@ == inputs_sdr(inputs_view(selected_inputs@), slot_index),
        r.3@ == outputs_sdr(outputs_view(outputs@)),
{
    let ghost ins = inputs_view(selected_inputs@);
    let ghost outs = outputs_view(outputs@);
    let mut inputs_sum: u64 = 0;
    let mut outputs_sum: u64 = 0;
    let mut in_sdr = AddressAmounts::new();
    let mut out_sdr = AddressAmounts::new();

    let mut i: usize = 0;
    while i < selected_inputs.len()
        invariant
            i <= selected_inputs@.len(),
            ins == inputs_view(selected_inputs@),
            amount_sums_fit(ins, outs, slot_index),
            inputs_sum == sum_input_amounts(ins.take(i as int)),
            in_sdr@ == inputs_sdr(ins.take(i as int), slot_index),
        decreases selected_inputs@.len() - i,
    {
        let input = &selected_inputs[i];
        let ghost p = ins.take(i + 1);
        proof {
            assert(p.drop_last() =~= ins.take(i as int));
            assert(p.last() == input@);
            lemma_sum_inputs_prefix(ins, i + 1);
        }
        inputs_sum = inputs_sum + input.output.amount;
        match input.output.sdruc_not_expired_exec(slot_index) {
            Some((address, amount)) => {
                proof {
                    lemma_inputs_sdr_prefix(ins, slot_index, i + 1, address@);
                    lemma_accumulate(input_sdr_contributions(p, slot_index));
                    assert(input_sdr_contributions(p, slot_index).drop_last()
                        =~= input_sdr_contributions(ins.take(i as int), slot_index));
                    lemma_accumulate(input_sdr_contributions(ins.take(i as int), slot_index));
                    crate::amounts::lemma_add_amount(in_sdr@, address@, amount as nat);
                }
                in_sdr.add(&address, amount);
            },
            None => {
                assert(input_sdr_contributions(p, slot_index) =~= input_sdr_contributions(
                    ins.take(i as int),
                    slot_index,
                ));
            },
        }
        i = i + 1;
    }
    assert(ins.take(i as int) =~= ins);

    let mut j: usize = 0;
    while j < outputs.len()
        invariant
            j <= outputs@.len(),
            outs == outputs_view(outputs@),
            amount_sums_fit(ins, outs, slot_index),
            outputs_sum == sum_output_amounts(outs.take(j as int)),
            out_sdr@ == outputs_sdr(outs.take(j as int)),
        decreases outputs@.len() - j,
    {
        let output = &outputs[j];
        let ghost p = outs.take(j + 1);
        proof {
            assert(p.drop_last() =~= outs.take(j as int));
            assert(p.last() == output@);
            lemma_sum_outputs_prefix(outs, j + 1);
            assert(sum_output_amounts(outs) <= required_output_amount(ins, outs, slot_index));
        }
        outputs_sum = outputs_sum + output.amount;
        match output.simple_deposit_address_exec() {
            Some(address) => {
                proof {
                    lemma_outputs_sdr_prefix(outs, j + 1, address@);
                    lemma_accumulate(output_sdr_contributions(p));
                    assert(output_sdr_contributions(p).drop_last() =~= output_sdr_contributions(
                        outs.take(j as int),
                    ));
                    lemma_accumulate(output_sdr_contributions(outs.take(j as int)));
                    crate::amounts::lemma_add_amount(out_sdr@, address@, output.amount as nat);
                }
                out_sdr.add(&address, output.amount);
            },
            None => {
                assert(output_sdr_contributions(p) =~= output_sdr_contributions(outs.take(j as int)));
            },
        }
        j = j + 1;
    }
    assert(outs.take(j as int) =~= outs);

    let ghost insdr = in_sdr@;
    let ghost outsdr = out_sdr@;
    let mut k: usize = 0;
    while k < in_sdr.entries.len()
        invariant
            k <= in_sdr.entries@.len(),
            insdr == in_sdr@,
            outsdr == out_sdr@,
            insdr == inputs_sdr(ins, slot_index),
            outsdr == outputs_sdr(outs),
            amount_sums_fit(ins, outs, slot_index),
            outputs_sum == sum_output_amounts(outs) + sdr_excess(insdr.take(k as int), outsdr),
        decreases in_sdr.entries@.len() - k,
    {
        let input_sdr_amount = in_sdr.entries[k].1;
        let output_sdr_amount = out_sdr.get(&in_sdr.entries[k].0);
        proof {
            assert(insdr.take(k + 1).drop_last() =~= insdr.take(k as int));
            assert(insdr.take(k + 1).last() == insdr[k as int]);
            lemma_sdr_excess_prefix(insdr, outsdr, k + 1);
        }
        if input_sdr_amount > output_sdr_amount {
            outputs_sum = outputs_sum + (input_sdr_amount - output_sdr_amount);
        }
        k = k + 1;
    }
    assert(insdr.take(k as int) =~= insdr);
    (inputs_sum, outputs_sum, in_sdr, out_sdr)
}

/// The value of an amount selection.
pub struct SelectionV {
    pub selected: Seq<InputV>,
    pub inputs_sum: nat,
    pub outputs_sum: nat,
    pub inputs_sdr: Seq<(AddressV, nat)>,
    pub outputs_sdr: Seq<(AddressV, nat)>,
    pub remainder_amount: nat,
    pub native_tokens_remainder: bool,
    pub slot_index: u32,
}

/// Whether some input of `sel` spends the output `id`.
pub open spec fn spends(sel: Seq<InputV>, id: OutputIdV) -> bool {
    exists|i: int| 0 <= i < sel.len() && #[trigger] sel[i].output_id == id
}

/// Whether no two inputs of `sel` spend the same output.
pub open spec fn distinct_inputs(sel: Seq<InputV>) -> bool {
    forall|i: int, j: int| 0 <= i < j < sel.len() ==> sel[i].output_id != sel[j].output_id
}

impl SelectionV {
    /// Addresses and spent outputs occur once each.
    pub open spec fn wf(self) -> bool {
        &&& distinct_addresses(self.inputs_sdr)
        &&& distinct_addresses(self.outputs_sdr)
        &&& distinct_inputs(self.selected)
    }

    /// The amount still missing: the gap between outputs and inputs, or what a remainder
    /// needs beyond the surplus of the inputs.
    pub open spec fn missing_amount(self) -> nat {
        if self.inputs_sum > self.outputs_sum {
            let diff = (self.inputs_sum - self.outputs_sum) as nat;
            if self.remainder_amount > diff {
                (self.remainder_amount - diff) as nat
            } else {
                0
            }
        } else if self.inputs_sum < self.outputs_sum {
            (self.outputs_sum - self.inputs_sum) as nat
        } else if self.native_tokens_remainder {
            self.remainder_amount
        } else {
            0
        }
    }

    /// The selection after considering `input`; `None` when the input is skipped because
    /// it was already selected or because it makes no amount available beyond what it
    /// must return.
    pub open spec fn step(self, input: InputV) -> Option<SelectionV> {
        if spends(self.selected, input.output_id) {
            None
        } else {
            match input.output.sdruc_not_expired(self.slot_index) {
                Some((a, n)) => if input.output.amount == n {
                    None
                } else {
                    let input_sdr = lookup(self.inputs_sdr, a) + n;
                    let output_sdr = lookup(self.outputs_sdr, a);
                    Some(
                        SelectionV {
                            selected: self.selected.push(input),
                            inputs_sum: self.inputs_sum + input.output.amount as nat,
                            outputs_sum: if input_sdr > output_sdr {
                                self.outputs_sum + (input_sdr - output_sdr) as nat
                            } else {
                                self.outputs_sum
                            },
                            inputs_sdr: add_amount(self.inputs_sdr, a, n as nat),
                            outputs_sdr: if input_sdr > output_sdr {
                                add_amount(self.outputs_sdr, a, n as nat)
                            } else {
                                self.outputs_sdr
                            },
                            ..self
                        },
                    )
                },
                None => Some(
                    SelectionV {
                        selected: self.selected.push(input),
                        inputs_sum: self.inputs_sum + input.output.amount as nat,
                        ..self
                    },
                ),
            }
        }
    }

    /// Whether considering `input` keeps every counter within 64 bits.
    pub open spec fn step_fits(self, input: InputV) -> bool {
        &&& self.inputs_sum + input.output.amount <= u64::MAX
        &&& match input.output.sdruc_not_expired(self.slot_index) {
            Some((a, n)) => {
                let input_sdr = lookup(self.inputs_sdr, a) + n;
                let output_sdr = lookup(self.outputs_sdr, a);
                &&& input_sdr <= u64::MAX
                &&& input_sdr > output_sdr ==> self.outputs_sum + (input_sdr - output_sdr)
                    <= u64::MAX && output_sdr + n <= u64::MAX
            },
            None => true,
        }
    }

    /// Considers the inputs in order, selecting each one that makes amount available,
    /// until nothing is missing any more. Also returns whether nothing is missing at the end.
    pub open spec fn fulfil(self, inputs: Seq<InputV>) -> (SelectionV, bool)
        decreases inputs.len(),
    {
        if inputs.len() == 0 {
            (self, false)
        } else {
            match self.step(inputs[0]) {
                None => self.fulfil(inputs.drop_first()),
                Some(next) => if next.missing_amount() == 0 {
                    (next, true)
                } else {
                    next.fulfil(inputs.drop_first())
                },
            }
        }
    }

    /// Whether `fulfil` keeps every counter within 64 bits.
    pub open spec fn fulfil_fits(self, inputs: Seq<InputV>) -> bool
        decreases inputs.len(),
    {
        if inputs.len() == 0 {
            true
        } else {
            &&& self.step_fits(inputs[0])
            &&& match self.step(inputs[0]) {
                None => self.fulfil_fits(inputs.drop_first()),
                Some(next) => next.missing_amount() == 0 || next.fulfil_fits(inputs.drop_first()),
            }
        }
    }

    /// Whether every counter is within 64 bits.
    pub open spec fn fits(self) -> bool {
        &&& self.inputs_sum <= u64::MAX
        &&& self.outputs_sum <= u64::MAX
        &&& self.remainder_amount <= u64::MAX
        &&& forall|a: AddressV| #[trigger] lookup(self.inputs_sdr, a) <= u64::MAX
        &&& forall|a: AddressV| #[trigger] lookup(self.outputs_sdr, a) <= u64::MAX
    }
}

/// A step keeps the selection well formed and, where it fits, within 64 bits.
pub proof fn lemma_step(st: SelectionV, input: InputV)
    requires
        st.wf(),
        st.fits(),
        st.step_fits(input),
    ensures
        st.step(input) matches Some(next) ==> next.wf() && next.fits() && !spends(
            st.selected,
            input.output_id,
        ) && next.selected == st.selected.push(input),
{
    if let Some(next) = st.step(input) {
        assert forall|i: int, j: int| 0 <= i < j < next.selected.len() implies next.selected[i].output_id
            != next.selected[j].output_id by {
            if j == st.selected.len() {
                assert(st.selected[i] == next.selected[i]);
            }
        }
        if let Some((a, n)) = input.output.sdruc_not_expired(st.slot_index) {
            lemma_add_amount(st.inputs_sdr, a, n as nat);
            lemma_add_amount(st.outputs_sdr, a, n as nat);
            assert forall|b: AddressV| #[trigger] lookup(next.inputs_sdr, b) <= u64::MAX by {
                assert(lookup(st.inputs_sdr, b) <= u64::MAX);
            }
            assert forall|b: AddressV| #[trigger] lookup(next.outputs_sdr, b) <= u64::MAX by {
                assert(lookup(st.outputs_sdr, b) <= u64::MAX);
            }
        }
    }
}

/// When `fulfil` reports success, nothing is missing any more; it keeps the selection
/// well formed and only appends inputs to it.
pub proof fn lemma_fulfil(st: SelectionV, inputs: Seq<InputV>)
    requires
        st.wf(),
        st.fits(),
        st.fulfil_fits(inputs),
    ensures
        st.fulfil(inputs).1 ==> st.fulfil(inputs).0.missing_amount() == 0,
        st.fulfil(inputs).0.wf(),
        st.fulfil(inputs).0.fits(),
        st.selected.is_prefix_of(st.fulfil(inputs).0.selected),
    decreases inputs.len(),
{
    if inputs.len() > 0 {
        lemma_step(st, inputs[0]);
        match st.step(inputs[0]) {
            None => {
                lemma_fulfil(st, inputs.drop_first());
            },
            Some(next) => {
                if next.missing_amount() != 0 {
                    lemma_fulfil(next, inputs.drop_first());
                }
                assert(st.selected.is_prefix_of(next.selected));
            },
        }
    }
}

/// Whether the chain of `o` was transitioned automatically: an output other than a basic
/// one whose chain id is in `transitioned`.
pub open spec fn auto_transitioned(o: OutputV, transitioned: Seq<Seq<u8>>) -> bool {
    o.kind != OutputKind::Basic && transitioned.contains(o.chain_id)
}

/// The amount a transitioned output keeps when it gives up what is missing: all but the
/// missing amount where it keeps at least its minimum, otherwise its minimum.
pub open spec fn reduced_amount(amount: nat, missing: nat, minimum: nat) -> nat {
    if amount >= missing + minimum {
        (amount - missing) as nat
    } else {
        minimum
    }
}

/// The outputs and the selection after the output at `i` gives up funds, and whether
/// nothing is missing any more; none where the sums would overflow or underflow, or where
/// the output is of a kind that no automatic transition creates.
pub open spec fn reduce_step(
    outs: Seq<OutputV>,
    sel: SelectionV,
    i: int,
    transitioned: Seq<Seq<u8>>,
    minimum: nat,
) -> Option<(Seq<OutputV>, SelectionV, bool)> {
    let o = outs[i];
    if !auto_transitioned(o, transitioned) {
        Some((outs, sel, false))
    } else {
        let missing = sel.missing_amount();
        let new_amount = reduced_amount(o.amount as nat, missing, minimum);
        if missing + minimum > u64::MAX {
            None
        } else if o.kind == OutputKind::Account && o.block_issuer is Some {
            Some((outs, sel, false))
        } else if o.kind != OutputKind::Account && o.kind != OutputKind::Foundry && o.kind != OutputKind::Nft {
            None
        } else if new_amount > o.amount || sel.outputs_sum < o.amount - new_amount {
            None
        } else {
            let sel2 = SelectionV { outputs_sum: (sel.outputs_sum - (o.amount - new_amount)) as nat, ..sel };
            Some((outs.update(i, OutputV { amount: new_amount as u64, ..o }), sel2, sel2.missing_amount() == 0))
        }
    }
}

/// The outputs and the selection after the automatically transitioned outputs from `i` on
/// give up funds in turn, and whether they covered the missing amount, where one stops.
pub open spec fn reduce_from(
    outs: Seq<OutputV>,
    sel: SelectionV,
    i: int,
    transitioned: Seq<Seq<u8>>,
    minimums: Seq<u64>,
) -> Option<(Seq<OutputV>, SelectionV, bool)>
    decreases outs.len() - i,
{
    if i < 0 || i >= outs.len() {
        Some((outs, sel, false))
    } else {
        match reduce_step(outs, sel, i, transitioned, minimums[i] as nat) {
            None => None,
            Some((outs2, sel2, done)) => if done {
                Some((outs2, sel2, true))
            } else {
                reduce_from(outs2, sel2, i + 1, transitioned, minimums)
            },
        }
    }
}

/// Replacing an output changes the total amount by the difference of the two amounts.
pub proof fn lemma_sum_outputs_update(outs: Seq<OutputV>, i: int, o: OutputV)
    requires
        0 <= i < outs.len(),
    ensures
        sum_output_amounts(outs.update(i, o)) + outs[i].amount == sum_output_amounts(outs) + o.amount,
    decreases outs.len(),
{
    let u = outs.update(i, o);
    if i == outs.len() - 1 {
        assert(u.drop_last() =~= outs.drop_last());
    } else {
        lemma_sum_outputs_update(outs.drop_last(), i, o);
        assert(u.drop_last() =~= outs.drop_last().update(i, o));
    }
}

/// Reducing the funds of the transitioned chains keeps the selection's output sum in step
/// with the outputs: what the outputs give up, the output sum loses.
pub proof fn lemma_reduce_conserves(
    outs: Seq<OutputV>,
    sel: SelectionV,
    i: int,
    transitioned: Seq<Seq<u8>>,
    minimums: Seq<u64>,
)
    requires
        0 <= i,
    ensures
        match reduce_from(outs, sel, i, transitioned, minimums) {
            Some((outs2, sel2, _)) => {
                &&& sum_output_amounts(outs2) + sel.outputs_sum == sum_output_amounts(outs) + sel2.outputs_sum
                &&& sel2.selected == sel.selected
                &&& sel2.inputs_sum == sel.inputs_sum
            },
            None => true,
        },
    decreases outs.len() - i,
{
    if i < outs.len() {
        match reduce_step(outs, sel, i, transitioned, minimums[i] as nat) {
            None => {},
            Some((outs2, sel2, done)) => {
                let o = outs[i];
                if auto_transitioned(o, transitioned) && !(o.kind == OutputKind::Account && o.block_issuer is Some) {
                    let new_amount = reduced_amount(o.amount as nat, sel.missing_amount(), minimums[i] as nat);
                    lemma_sum_outputs_update(outs, i, OutputV { amount: new_amount as u64, ..o });
                }
                if !done {
                    lemma_reduce_conserves(outs2, sel2, i + 1, transitioned, minimums);
                }
            },
        }
    }
}

/// The state of the selection of inputs that covers a missing amount.
#[derive(Debug)]
pub struct AmountSelection {
    pub newly_selected_inputs: Vec<InputSigningData>,
    pub inputs_sum: u64,
    pub outputs_sum: u64,
    pub inputs_sdr: AddressAmounts,
    pub outputs_sdr: AddressAmounts,
    pub remainder_amount: u64,
    pub native_tokens_remainder: bool,
    pub slot_index: u32,
}

impl View for AmountSelection {
    type V = SelectionV;

    open spec fn view(&self) -> SelectionV {
        SelectionV {
            selected: inputs_view(self.newly_selected_inputs@),
            inputs_sum: self.inputs_sum as nat,
            outputs_sum: self.outputs_sum as nat,
            inputs_sdr: self.inputs_sdr@,
            outputs_sdr: self.outputs_sdr@,
            remainder_amount: self.remainder_amount as nat,
            native_tokens_remainder: self.native_tokens_remainder,
            slot_index: self.slot_index,
        }
    }
}

impl AmountSelection {
    /// Starts a selection from the balance of the already selected inputs and the outputs,
    /// with the amount that a remainder needs and whether native tokens need one.
    pub fn new(
        selected_inputs: &Vec<InputSigningData>,
        outputs: &Vec<Output>,
        slot_index: u32,
        remainder_amount: u64,
        native_tokens_remainder: bool,
    ) -> (r: AmountSelection)
        requires
            amount_sums_fit(inputs_view(selected_inputs@), outputs_view(outputs@), slot_index),
        ensures
            r@ == (SelectionV {
                selected: Seq::empty(),
                inputs_sum: sum_input_amounts(inputs_view(selected_inputs@)),
                outputs_sum: required_output_amount(
                    inputs_view(selected_inputs@),
                    outputs_view(outputs@),
                    slot_index,
                ),
                inputs_sdr: inputs_sdr(inputs_view(selected_inputs@), slot_index),
                outputs_sdr: outputs_sdr(outputs_view(outputs@)),
                remainder_amount: remainder_amount as nat,
                native_tokens_remainder,
                slot_index,
            }),
            r@.wf(),
            r@.fits(),
    {
        let (inputs_sum, outputs_sum, inputs_sdr, outputs_sdr) = amount_sums(
            selected_inputs,
            outputs,
            slot_index,
        );
        proof {
            lemma_accumulate(input_sdr_contributions(inputs_view(selected_inputs@), slot_index));
            lemma_accumulate(output_sdr_contributions(outputs_view(outputs@)));
        }
        let r = AmountSelection {
            newly_selected_inputs: Vec::new(),
            inputs_sum,
            outputs_sum,
            inputs_sdr,
            outputs_sdr,
            remainder_amount,
            native_tokens_remainder,
            slot_index,
        };
        assert(r@.selected =~= Seq::<InputV>::empty());
        r
    }

    /// The amount still missing.
    pub fn missing_amount(&self) -> (r: u64)
        ensures
            r == self@.missing_amount(),
    {
        if self.inputs_sum > self.outputs_sum {
            let diff = self.inputs_sum - self.outputs_sum;
            if self.remainder_amount > diff {
                self.remainder_amount - diff
            } else {
                0
            }
        } else if self.inputs_sum < self.outputs_sum {
            self.outputs_sum - self.inputs_sum
        } else if self.native_tokens_remainder {
            self.remainder_amount
        } else {
            0
        }
    }

    /// Lowers the amounts of the automatically transitioned outputs, in order, to cover the
    /// missing amount, each down to at most its minimum amount; block issuing accounts keep
    /// theirs. `minimum_amounts` holds the minimum amount of each output. Returns whether the
    /// missing amount was covered; where it was not, the amount is insufficient.
    pub fn reduce_funds_of_chains(
        &mut self,
        outputs: &mut Vec<Output>,
        transitioned: &Vec<Id>,
        minimum_amounts: &Vec<u64>,
    ) -> (covered: bool)
        requires
            minimum_amounts@.len() == outputs_view(old(outputs)@).len(),
            old(self)@.fits(),
            reduce_from(
                outputs_view(old(outputs)@),
                old(self)@,
                0,
                crate::burn::ids_view(transitioned@),
                minimum_amounts@,
            ) is Some,
        ensures
            reduce_from(
                outputs_view(old(outputs)@),
                old(self)@,
                0,
                crate::burn::ids_view(transitioned@),
                minimum_amounts@,
            ) == Some((outputs_view(final(outputs)@), final(self)@, covered)),
    {
        let ghost tv = crate::burn::ids_view(transitioned@);
        let ghost goal = reduce_from(outputs_view(outputs@), self@, 0, tv, minimum_amounts@);
        let mut i: usize = 0;
        while i < outputs.len()
            invariant
                i <= outputs@.len(),
                minimum_amounts@.len() == outputs@.len(),
                tv == crate::burn::ids_view(transitioned@),
                self@.fits(),
                goal == reduce_from(outputs_view(old(outputs)@), old(self)@, 0, tv, minimum_amounts@),
                goal is Some,
                goal == reduce_from(outputs_view(outputs@), self@, i as int, tv, minimum_amounts@),
            decreases outputs@.len() - i,
        {
            let ghost outs = outputs_view(outputs@);
            let ghost sel = self@;
            let o = &outputs[i];
            assert(outs[i as int] == o@);
            let in_set = o.kind != OutputKind::Basic && crate::selection::contains_id(transitioned, &o.chain_id);
            if in_set {
                let missing = self.missing_amount();
                let amount = o.amount;
                let minimum = minimum_amounts[i];
                assert(reduce_step(outs, sel, i as int, tv, minimum as nat) is Some);
                let new_amount = if amount >= missing + minimum {
                    amount - missing
                } else {
                    minimum
                };
                let skip = o.kind == OutputKind::Account && o.block_issuer.is_some();
                if !skip {
                    let mut n = o.clone();
                    n.amount = new_amount;
                    outputs.set(i, n);
                    assert(outputs_view(outputs@) =~= outs.update(
                        i as int,
                        OutputV { amount: new_amount, ..outs[i as int] },
                    ));
                    self.outputs_sum = self.outputs_sum - (amount - new_amount);
                    if self.missing_amount() == 0 {
                        assert(reduce_step(outs, sel, i as int, tv, minimum as nat) == Some(
                            (outputs_view(outputs@), self@, true),
                        ));
                        return true;
                    }
                }
            }
            i = i + 1;
        }
        false
    }

    pub(crate) fn is_newly_selected(&self, input: &InputSigningData) -> (r: bool)
        ensures
            r == spends(self@.selected, input@.output_id),
    {
        let mut i: usize = 0;
        while i < self.newly_selected_inputs.len()
            invariant
                i <= self.newly_selected_inputs@.len(),
                forall|j: int|
                    0 <= j < i ==> self.newly_selected_inputs@[j]@.output_id != input@.output_id,
            decreases self.newly_selected_inputs@.len() - i,
        {
            if self.newly_selected_inputs[i].output_id.same(&input.output_id) {
                assert(self@.selected[i as int].output_id == input@.output_id);
                return true;
            }
            i = i + 1;
        }
        assert forall|j: int| 0 <= j < self@.selected.len() implies #[trigger] self@.selected[j].output_id
            != input@.output_id by {
            assert(self@.selected[j] == self.newly_selected_inputs@[j]@);
        }
        false
    }

    /// Considers `input` and reports whether it was selected.
    fn consider(&mut self, input: &InputSigningData) -> (selected: bool)
        requires
            old(self)@.wf(),
            old(self)@.fits(),
            old(self)@.step_fits(input@),
        ensures
            match old(self)@.step(input@) {
                Some(next) => selected && final(self)@ == next,
                None => !selected && final(self)@ == old(self)@,
            },
    {
        if self.is_newly_selected(input) {
            return false;
        }
        match input.output.sdruc_not_expired_exec(self.slot_index) {
            Some((address, amount)) => {
                if input.output.amount == amount {
                    return false;
                }
                proof {
                    lemma_add_amount(self@.inputs_sdr, address@, amount as nat);
                    lemma_add_amount(self@.outputs_sdr, address@, amount as nat);
                }
                let input_sdr = self.inputs_sdr.get(&address) + amount;
                let output_sdr = self.outputs_sdr.get(&address);
                if input_sdr > output_sdr {
                    let diff = input_sdr - output_sdr;
                    self.outputs_sum = self.outputs_sum + diff;
                    self.outputs_sdr.add(&address, amount);
                }
                self.inputs_sdr.add(&address, amount);
            },
            None => {},
        }
        self.inputs_sum = self.inputs_sum + input.output.amount;
        self.newly_selected_inputs.push(input.clone());
        assert(self@.selected =~= old(self)@.selected.push(input@));
        true
    }

    /// Selects inputs, in order, until the amount is covered; reports whether it is.
    pub fn fulfil(&mut self, inputs: &Vec<InputSigningData>) -> (r: bool)
        requires
            old(self)@.wf(),
            old(self)@.fits(),
            old(self)@.fulfil_fits(inputs_view(inputs@)),
        ensures
            (final(self)@, r) == old(self)@.fulfil(inputs_view(inputs@)),
            final(self)@.wf(),
            final(self)@.fits(),
            r ==> final(self)@.missing_amount() == 0,
    {
        let ghost ins = inputs_view(inputs@);
        proof {
            lemma_fulfil(self@, ins);
            assert(ins.skip(0) =~= ins);
        }
        let mut i: usize = 0;
        while i < inputs.len()
            invariant
                i <= inputs@.len(),
                ins == inputs_view(inputs@),
                self@.wf(),
                self@.fits(),
                self@.fulfil_fits(ins.skip(i as int)),
                self@.fulfil(ins.skip(i as int)) == old(self)@.fulfil(ins),
            decreases inputs@.len() - i,
        {
            let ghost rest = ins.skip(i as int);
            assert(rest[0] == inputs@[i as int]@);
            assert(rest.drop_first() =~= ins.skip(i + 1));
            proof {
                lemma_step(self@, rest[0]);
            }
            if self.consider(&inputs[i]) {
                if self.missing_amount() == 0 {
                    return true;
                }
            }
            i = i + 1;
        }
        false
    }

    /// The inputs that the selection added, in the order of their selection.
    pub fn into_newly_selected_inputs(self) -> (r: Vec<InputSigningData>)
        ensures
            inputs_view(r@) == self@.selected,
    {
        self.newly_selected_inputs
    }
}

/// The preference class of an input: inputs without a native token come first, and within
/// each group those that owe no storage deposit return at `slot`.
pub open spec fn preference_class(input: InputV, slot: u32) -> int {
    (if input.output.native_token is Some {
        2int
    } else {
        0int
    }) + (if input.output.sdruc_not_expired(slot) is Some {
        1int
    } else {
        0int
    })
}

/// The inputs that pass `pass` considers: those of the class `pass`, or all of them in the
/// last pass, in their order.
pub open spec fn pass_inputs(inputs: Seq<InputV>, slot: u32, pass: int) -> Seq<InputV>
    decreases inputs.len(),
{
    if inputs.len() == 0 {
        Seq::empty()
    } else {
        pass_inputs(inputs.drop_last(), slot, pass) + if pass == 4 || preference_class(
            inputs.last(),
            slot,
        ) == pass {
            seq![inputs.last()]
        } else {
            Seq::empty()
        }
    }
}

impl SelectionV {
    /// Runs `fulfil` over the passes from `pass` on, stopping at the first that covers the amount.
    pub open spec fn fulfil_by_preference(self, inputs: Seq<InputV>, pass: int) -> (SelectionV, bool)
        decreases 5 - pass,
    {
        if pass >= 5 {
            (self, false)
        } else {
            let (next, done) = self.fulfil(pass_inputs(inputs, self.slot_index, pass));
            if done {
                (next, true)
            } else {
                next.fulfil_by_preference(inputs, pass + 1)
            }
        }
    }

    /// Whether `fulfil_by_preference` keeps every counter within 64 bits.
    pub open spec fn fulfil_by_preference_fits(self, inputs: Seq<InputV>, pass: int) -> bool
        decreases 5 - pass,
    {
        if pass >= 5 {
            true
        } else {
            let (next, done) = self.fulfil(pass_inputs(inputs, self.slot_index, pass));
            &&& self.fulfil_fits(pass_inputs(inputs, self.slot_index, pass))
            &&& (done || next.fulfil_by_preference_fits(inputs, pass + 1))
        }
    }
}

fn preference_class_exec(input: &InputSigningData, slot: u32) -> (r: u8)
    ensures
        r == preference_class(input@, slot),
{
    let nt: u8 = if input.output.native_token.is_some() {
        2
    } else {
        0
    };
    let sdr: u8 = if input.output.sdruc_not_expired_exec(slot).is_some() {
        1
    } else {
        0
    };
    nt + sdr
}

fn select_pass(inputs: &Vec<InputSigningData>, slot: u32, pass: u8) -> (r: Vec<InputSigningData>)
    ensures
        inputs_view(r@) == pass_inputs(inputs_view(inputs@), slot, pass as int),
{
    let ghost ins = inputs_view(inputs@);
    let mut r: Vec<InputSigningData> = Vec::new();
    let mut i: usize = 0;
    while i < inputs.len()
        invariant
            i <= inputs@.len(),
            ins == inputs_view(inputs@),
            inputs_view(r@) == pass_inputs(ins.take(i as int), slot, pass as int),
        decreases inputs@.len() - i,
    {
        let ghost before = r@;
        assert(ins.take(i + 1).drop_last() =~= ins.take(i as int));
        assert(ins.take(i + 1).last() == inputs@[i as int]@);
        if pass == 4 || preference_class_exec(&inputs[i], slot) == pass {
            r.push(inputs[i].clone());
            assert(inputs_view(r@) =~= inputs_view(before).push(inputs@[i as int]@));
        } else {
            assert(inputs_view(r@) =~= pass_inputs(ins.take(i + 1), slot, pass as int));
        }
        i = i + 1;
    }
    assert(ins.take(i as int) =~= ins);
    r
}

/// Covers the missing amount from `base_inputs` in order of preference: first inputs
/// without native tokens and without storage deposit returns, then without native tokens,
/// then with native tokens but no returns, then with both, then any input.
pub fn fulfil_by_preference(selection: &mut AmountSelection, base_inputs: &Vec<InputSigningData>) -> (r: bool)
    requires
        old(selection)@.wf(),
        old(selection)@.fits(),
        old(selection)@.fulfil_by_preference_fits(inputs_view(base_inputs@), 0),
    ensures
        (final(selection)@, r) == old(selection)@.fulfil_by_preference(inputs_view(base_inputs@), 0),
        final(selection)@.wf(),
        final(selection)@.fits(),
        r ==> final(selection)@.missing_amount() == 0,
{
    let ghost ins = inputs_view(base_inputs@);
    let mut pass: u8 = 0;
    while pass < 5
        invariant
            pass <= 5,
            ins == inputs_view(base_inputs@),
            selection@.wf(),
            selection@.fits(),
            selection@.fulfil_by_preference_fits(ins, pass as int),
            selection@.fulfil_by_preference(ins, pass as int) == old(selection)@.fulfil_by_preference(
                ins,
                0,
            ),
        decreases 5 - pass,
    {
        let inputs = select_pass(base_inputs, selection.slot_index, pass);
        if selection.fulfil(&inputs) {
            return true;
        }
        pass = pass + 1;
    }
    false
}

/// The balance of base tokens once a remainder is accounted for: where the inputs exceed
/// the outputs by less than a remainder needs, the outputs grow by the shortfall; where
/// they do not exceed them and native tokens or mana need a remainder, by the whole
/// amount that the remainder needs.
pub fn amount_balance(
    inputs_sum: u64,
    outputs_sum: u64,
    remainder_amount: u64,
    native_tokens_remainder: bool,
    mana_remainder: bool,
) -> (r: (u64, u64))
    requires
        outputs_sum + remainder_amount <= u64::MAX,
    ensures
        r.0 == inputs_sum,
        r.1 == if inputs_sum > outputs_sum {
            if remainder_amount > inputs_sum - outputs_sum {
                outputs_sum + remainder_amount - (inputs_sum - outputs_sum)
            } else {
                outputs_sum as int
            }
        } else if native_tokens_remainder || mana_remainder {
            outputs_sum + remainder_amount
        } else {
            outputs_sum as int
        },
{
    let mut outputs = outputs_sum;
    if inputs_sum > outputs_sum {
        let diff = inputs_sum - outputs_sum;
        if remainder_amount > diff {
            outputs = outputs + (remainder_amount - diff);
        }
    } else if native_tokens_remainder || mana_remainder {
        outputs = outputs + remainder_amount;
    }
    (inputs_sum, outputs)
}

} // verus!
