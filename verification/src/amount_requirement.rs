//! The amount requirement: the available inputs are ordered by amount, low to high, and
//! inputs are selected by kind and preference until the outputs are covered; where that
//! would pass the number of inputs a transaction can have, the order is reversed, and
//! automatically transitioned chains give up funds for what is still missing.

use vstd::prelude::*;
use vstd::seq_lib::{to_multiset_contains, to_multiset_insert};

use crate::amount::{
    amount_sums_fit, fulfil_by_preference, inputs_sdr, inputs_view, lemma_reduce_conserves, outputs_sdr,
    outputs_view, pass_inputs, reduce_from, required_output_amount, spends, sum_input_amounts, AmountSelection,
    SelectionV,
};
use crate::burn::ids_view;
use crate::ledger::{AddressKind, CommittableAgeRange, Id, InputSigningData, InputV, Output, OutputKind, OutputV};
use crate::requirement::{Requirement, RequirementV};
use crate::selection::{requirements_view, SelectionError, SelectionErrorV, INPUT_COUNT_MAX};

verus! {

/// Whether `a` goes after an input of amount `amount`: its amount is higher (lower where
/// the order is descending).
pub open spec fn goes_after(a: InputV, amount: u64, descending: bool) -> bool {
    if descending {
        a.output.amount < amount
    } else {
        a.output.amount > amount
    }
}

/// Where `x` goes in the ordered inputs `s`: before the first input that goes after it,
/// so that it follows the inputs of the same amount.
pub open spec fn insert_position(s: Seq<InputV>, x: InputV, descending: bool) -> int
    decreases s.len(),
{
    if s.len() == 0 {
        0
    } else if goes_after(s[0], x.output.amount, descending) {
        0
    } else {
        1 + insert_position(s.drop_first(), x, descending)
    }
}

/// The inputs ordered by amount, low to high (high to low where `descending`); inputs of
/// the same amount keep their order.
pub open spec fn sorted_by_amount(s: Seq<InputV>, descending: bool) -> Seq<InputV>
    decreases s.len(),
{
    if s.len() == 0 {
        s
    } else {
        let t = sorted_by_amount(s.drop_last(), descending);
        t.insert(insert_position(t, s.last(), descending), s.last())
    }
}

/// Whether the inputs are ordered by amount.
pub open spec fn ordered_by_amount(s: Seq<InputV>, descending: bool) -> bool {
    forall|i: int, j: int|
        0 <= i < j < s.len() ==> if descending {
            s[i].output.amount >= s[j].output.amount
        } else {
            s[i].output.amount <= s[j].output.amount
        }
}

proof fn lemma_insert_position(s: Seq<InputV>, x: InputV, descending: bool)
    ensures
        0 <= insert_position(s, x, descending) <= s.len(),
        forall|k: int|
            0 <= k < insert_position(s, x, descending) ==> !goes_after(#[trigger] s[k], x.output.amount, descending),
        insert_position(s, x, descending) < s.len() ==> goes_after(
            s[insert_position(s, x, descending)],
            x.output.amount,
            descending,
        ),
    decreases s.len(),
{
    if s.len() > 0 && !goes_after(s[0], x.output.amount, descending) {
        lemma_insert_position(s.drop_first(), x, descending);
        assert forall|k: int| 0 <= k < insert_position(s, x, descending) implies !goes_after(
            #[trigger] s[k],
            x.output.amount,
            descending,
        ) by {
            if k > 0 {
                assert(s[k] == s.drop_first()[k - 1]);
            }
        }
    }
}

/// Ordering by amount keeps the inputs, each as often as before, and orders them.
pub proof fn lemma_sorted_by_amount(s: Seq<InputV>, descending: bool)
    ensures
        sorted_by_amount(s, descending).to_multiset() == s.to_multiset(),
        sorted_by_amount(s, descending).len() == s.len(),
        ordered_by_amount(sorted_by_amount(s, descending), descending),
    decreases s.len(),
{
    if s.len() > 0 {
        let init = s.drop_last();
        let x = s.last();
        lemma_sorted_by_amount(init, descending);
        let t = sorted_by_amount(init, descending);
        let p = insert_position(t, x, descending);
        lemma_insert_position(t, x, descending);
        to_multiset_insert(t, p, x);
        assert(s =~= init.push(x));
        init.to_multiset_ensures();
        let r = t.insert(p, x);
        assert forall|i: int, j: int| 0 <= i < j < r.len() implies if descending {
            r[i].output.amount >= r[j].output.amount
        } else {
            r[i].output.amount <= r[j].output.amount
        } by {
            if j < p {
                assert(r[i] == t[i] && r[j] == t[j]);
            } else if j == p {
                assert(r[i] == t[i]);
                assert(!goes_after(t[i], x.output.amount, descending));
            } else if i < p {
                assert(r[i] == t[i] && r[j] == t[j - 1]);
            } else if i == p {
                assert(r[j] == t[j - 1]);
                assert(goes_after(t[p], x.output.amount, descending));
                if j - 1 > p {
                    assert(t[p] == t[p]);
                }
            } else {
                assert(r[i] == t[i - 1] && r[j] == t[j - 1]);
            }
        }
    }
}

/// Where `x` goes among the ordered inputs `sorted`; see `insert_position`.
fn find_insert_position(sorted: &Vec<InputSigningData>, amount: u64, descending: bool, x: Ghost<InputV>) -> (r: usize)
    requires
        x@.output.amount == amount,
    ensures
        r == insert_position(inputs_view(sorted@), x@, descending),
{
    let ghost s = inputs_view(sorted@);
    let mut j: usize = 0;
    assert(s.skip(0) =~= s);
    while j < sorted.len()
        invariant
            j <= sorted@.len(),
            s == inputs_view(sorted@),
            x@.output.amount == amount,
            insert_position(s, x@, descending) == j + insert_position(s.skip(j as int), x@, descending),
        decreases sorted@.len() - j,
    {
        assert(s.skip(j as int)[0] == sorted@[j as int]@);
        assert(s.skip(j as int).drop_first() =~= s.skip(j + 1));
        let a = sorted[j].output.amount;
        let after = if descending {
            a < amount
        } else {
            a > amount
        };
        if after {
            return j;
        }
        j = j + 1;
    }
    j
}

/// Orders the inputs by amount, low to high (high to low where `descending`), keeping the
/// order of inputs of the same amount.
pub fn sort_by_amount(inputs: &mut Vec<InputSigningData>, descending: bool)
    ensures
        inputs_view(final(inputs)@) == sorted_by_amount(inputs_view(old(inputs)@), descending),
{
    let ghost ins = inputs_view(inputs@);
    let mut sorted: Vec<InputSigningData> = Vec::new();
    let mut i: usize = 0;
    assert(ins.take(0) =~= Seq::<InputV>::empty());
    assert(inputs_view(sorted@) =~= Seq::<InputV>::empty());
    while i < inputs.len()
        invariant
            i <= inputs@.len(),
            ins == inputs_view(inputs@),
            inputs_view(sorted@) == sorted_by_amount(ins.take(i as int), descending),
        decreases inputs@.len() - i,
    {
        let ghost t = inputs_view(sorted@);
        assert(ins.take(i + 1).drop_last() =~= ins.take(i as int));
        assert(ins.take(i + 1).last() == inputs@[i as int]@);
        let x = inputs[i].clone();
        let p = find_insert_position(&sorted, x.output.amount, descending, Ghost(x@));
        proof {
            lemma_insert_position(t, x@, descending);
        }
        sorted.insert(p, x);
        assert(inputs_view(sorted@) =~= t.insert(p as int, inputs@[i as int]@));
        i = i + 1;
    }
    assert(ins.take(i as int) =~= ins);
    *inputs = sorted;
}

/// The group of an input in the amount selection: basic inputs that a plain Ed25519
/// address unlocks at `slot` (0), other basic inputs (1), and inputs of other kinds (2).
pub open spec fn amount_group(x: InputV, slot: u32, range: CommittableAgeRange) -> int {
    if x.output.kind != OutputKind::Basic {
        2
    } else if x.output.required_address(slot, range) matches Some(a) && a.kind == AddressKind::Ed25519
        && !a.restricted {
        0
    } else {
        1
    }
}

/// The inputs of the group `group`, in their order.
pub open spec fn group_inputs(s: Seq<InputV>, slot: u32, range: CommittableAgeRange, group: int) -> Seq<InputV>
    decreases s.len(),
{
    if s.len() == 0 {
        Seq::empty()
    } else {
        group_inputs(s.drop_last(), slot, range, group) + if amount_group(s.last(), slot, range) == group {
            seq![s.last()]
        } else {
            Seq::empty()
        }
    }
}

/// Whether an address unlocks each basic input at `slot`.
pub open spec fn basic_unlockable(s: Seq<InputV>, slot: u32, range: CommittableAgeRange) -> bool {
    forall|i: int|
        0 <= i < s.len() && (#[trigger] s[i]).output.kind == OutputKind::Basic ==> s[i].output.required_address(
            slot,
            range,
        ) is Some
}

/// One round of the amount selection over the ordered available inputs: the basic inputs
/// of a plain Ed25519 address, then the other basic inputs, each by preference; where that
/// does not cover the amount, the inputs of other kinds. Returns the selection and whether
/// the round selected inputs of other kinds within the input limit (`selected_count` inputs
/// are selected already), which asks for another amount round once they are transitioned.
pub open spec fn amount_round(
    st: SelectionV,
    available: Seq<InputV>,
    slot: u32,
    range: CommittableAgeRange,
    selected_count: nat,
) -> (SelectionV, bool) {
    let (s1, d1) = st.fulfil_by_preference(group_inputs(available, slot, range, 0), 0);
    if d1 {
        (s1, false)
    } else {
        let (s2, d2) = s1.fulfil_by_preference(group_inputs(available, slot, range, 1), 0);
        if d2 {
            (s2, false)
        } else {
            let others = group_inputs(available, slot, range, 2);
            if others.len() == 0 {
                (s2, false)
            } else {
                let s3 = s2.fulfil(others).0;
                (s3, selected_count + s3.selected.len() <= INPUT_COUNT_MAX)
            }
        }
    }
}

/// Whether a round keeps every counter within 64 bits.
pub open spec fn amount_round_fits(st: SelectionV, available: Seq<InputV>, slot: u32, range: CommittableAgeRange) -> bool {
    let (s1, d1) = st.fulfil_by_preference(group_inputs(available, slot, range, 0), 0);
    let (s2, d2) = s1.fulfil_by_preference(group_inputs(available, slot, range, 1), 0);
    &&& st.fulfil_by_preference_fits(group_inputs(available, slot, range, 0), 0)
    &&& !d1 ==> s1.fulfil_by_preference_fits(group_inputs(available, slot, range, 1), 0)
    &&& !d1 && !d2 ==> s2.fulfil_fits(group_inputs(available, slot, range, 2))
}

fn amount_group_exec(x: &InputSigningData, slot: u32, range: CommittableAgeRange) -> (r: u8)
    requires
        x@.output.kind == OutputKind::Basic ==> x@.output.required_address(slot, range) is Some,
    ensures
        r == amount_group(x@, slot, range),
{
    if x.output.kind != OutputKind::Basic {
        2
    } else {
        match x.output.required_address_at(slot, range) {
            Some(a) => if a.is_ed25519() {
                0
            } else {
                1
            },
            None => 1,
        }
    }
}

/// The inputs of a group; see `group_inputs`.
fn select_group(inputs: &Vec<InputSigningData>, slot: u32, range: CommittableAgeRange, group: u8) -> (r: Vec<
    InputSigningData,
>)
    requires
        basic_unlockable(inputs_view(inputs@), slot, range),
    ensures
        inputs_view(r@) == group_inputs(inputs_view(inputs@), slot, range, group as int),
{
    let ghost ins = inputs_view(inputs@);
    let mut r: Vec<InputSigningData> = Vec::new();
    let mut i: usize = 0;
    assert(inputs_view(r@) =~= group_inputs(ins.take(0), slot, range, group as int));
    while i < inputs.len()
        invariant
            i <= inputs@.len(),
            ins == inputs_view(inputs@),
            basic_unlockable(ins, slot, range),
            inputs_view(r@) == group_inputs(ins.take(i as int), slot, range, group as int),
        decreases inputs@.len() - i,
    {
        let ghost before = r@;
        assert(ins.take(i + 1).drop_last() =~= ins.take(i as int));
        assert(ins.take(i + 1).last() == inputs@[i as int]@);
        assert(ins[i as int] == inputs@[i as int]@);
        if amount_group_exec(&inputs[i], slot, range) == group {
            r.push(inputs[i].clone());
            assert(inputs_view(r@) =~= inputs_view(before).push(inputs@[i as int]@));
        } else {
            assert(inputs_view(r@) =~= group_inputs(ins.take(i + 1), slot, range, group as int));
        }
        i = i + 1;
    }
    assert(ins.take(i as int) =~= ins);
    r
}

/// Runs one round of the amount selection; see `amount_round`.
fn run_amount_round(
    selection: &mut AmountSelection,
    available: &Vec<InputSigningData>,
    slot: u32,
    range: CommittableAgeRange,
    selected_count: usize,
) -> (r: bool)
    requires
        old(selection)@.wf(),
        old(selection)@.fits(),
        basic_unlockable(inputs_view(available@), slot, range),
        amount_round_fits(old(selection)@, inputs_view(available@), slot, range),
    ensures
        (final(selection)@, r) == amount_round(old(selection)@, inputs_view(available@), slot, range, selected_count as nat),
        final(selection)@.wf(),
        final(selection)@.fits(),
{
    let ed = select_group(available, slot, range, 0);
    if fulfil_by_preference(selection, &ed) {
        return false;
    }
    let other_basic = select_group(available, slot, range, 1);
    if fulfil_by_preference(selection, &other_basic) {
        return false;
    }
    let others = select_group(available, slot, range, 2);
    if others.len() == 0 {
        return false;
    }
    selection.fulfil(&others);
    let newly = selection.newly_selected_inputs.len();
    selected_count <= INPUT_COUNT_MAX && newly <= INPUT_COUNT_MAX - selected_count
}

/// Ordering by amount keeps an address on each basic input.
proof fn lemma_sorted_basic_unlockable(s: Seq<InputV>, descending: bool, slot: u32, range: CommittableAgeRange)
    requires
        basic_unlockable(s, slot, range),
    ensures
        basic_unlockable(sorted_by_amount(s, descending), slot, range),
{
    let t = sorted_by_amount(s, descending);
    lemma_sorted_by_amount(s, descending);
    assert forall|i: int| 0 <= i < t.len() && (#[trigger] t[i]).output.kind == OutputKind::Basic implies t[i].output.required_address(
        slot,
        range,
    ) is Some by {
        to_multiset_contains(t, t[i]);
        to_multiset_contains(s, t[i]);
        assert(t.contains(t[i]));
        let j = choose|j: int| 0 <= j < s.len() && s[j] == t[i];
        assert(s[j] == t[i]);
    }
}

/// The inputs that `selected` does not spend, in their order.
pub open spec fn unselected(s: Seq<InputV>, selected: Seq<InputV>) -> Seq<InputV>
    decreases s.len(),
{
    if s.len() == 0 {
        Seq::empty()
    } else {
        unselected(s.drop_last(), selected) + if spends(selected, s.last().output_id) {
            Seq::empty()
        } else {
            seq![s.last()]
        }
    }
}

/// Keeps the available inputs that the selection did not select.
fn retain_unselected(available: &mut Vec<InputSigningData>, selection: &AmountSelection)
    ensures
        inputs_view(final(available)@) == unselected(inputs_view(old(available)@), selection@.selected),
{
    let ghost ins = inputs_view(available@);
    let mut kept: Vec<InputSigningData> = Vec::new();
    let mut i: usize = 0;
    assert(inputs_view(kept@) =~= unselected(ins.take(0), selection@.selected));
    while i < available.len()
        invariant
            i <= available@.len(),
            ins == inputs_view(available@),
            inputs_view(kept@) == unselected(ins.take(i as int), selection@.selected),
        decreases available@.len() - i,
    {
        let ghost before = kept@;
        assert(ins.take(i + 1).drop_last() =~= ins.take(i as int));
        assert(ins.take(i + 1).last() == available@[i as int]@);
        if !selection.is_newly_selected(&available[i]) {
            kept.push(available[i].clone());
            assert(inputs_view(kept@) =~= inputs_view(before).push(available@[i as int]@));
        } else {
            assert(inputs_view(kept@) =~= unselected(ins.take(i + 1), selection@.selected));
        }
        i = i + 1;
    }
    assert(ins.take(i as int) =~= ins);
    *available = kept;
}

/// The selection that an amount round starts from: nothing newly selected, and the
/// balance of the selected inputs and the outputs.
pub open spec fn start_selection(
    selected: Seq<InputV>,
    outputs: Seq<OutputV>,
    slot: u32,
    remainder_amount: u64,
    native_tokens_remainder: bool,
) -> SelectionV {
    SelectionV {
        selected: Seq::empty(),
        inputs_sum: sum_input_amounts(selected),
        outputs_sum: required_output_amount(selected, outputs, slot),
        inputs_sdr: inputs_sdr(selected, slot),
        outputs_sdr: outputs_sdr(outputs),
        remainder_amount: remainder_amount as nat,
        native_tokens_remainder,
        slot_index: slot,
    }
}

/// What the amount requirement gives: the newly selected inputs or the error, the
/// available inputs and the outputs after it, and whether it asks for another round.
pub struct AmountOutcome {
    pub result: Result<Seq<InputV>, SelectionErrorV>,
    pub available: Seq<InputV>,
    pub outputs: Seq<OutputV>,
    pub another_round: bool,
}

/// The end of the amount requirement for the selection `s` over the ordered available
/// inputs: the error where the inputs would pass the limit; otherwise, where an amount is
/// still missing, the transitioned chains give up funds, and the error where they cannot
/// cover it; the selected inputs leave the available ones.
pub open spec fn amount_finish(
    s: SelectionV,
    available: Seq<InputV>,
    selected_count: nat,
    outputs: Seq<OutputV>,
    transitioned: Seq<Seq<u8>>,
    minimums: Seq<u64>,
) -> AmountOutcome {
    let n = selected_count + s.selected.len();
    if n > INPUT_COUNT_MAX {
        AmountOutcome {
            result: Err(SelectionErrorV::InvalidInputCount(n)),
            available,
            outputs,
            another_round: false,
        }
    } else if s.missing_amount() != 0 {
        match reduce_from(outputs, s, 0, transitioned, minimums) {
            Some((outs, s2, covered)) => if covered {
                AmountOutcome {
                    result: Ok(s2.selected),
                    available: unselected(available, s2.selected),
                    outputs: outs,
                    another_round: false,
                }
            } else {
                AmountOutcome {
                    result: Err(
                        SelectionErrorV::InsufficientAmount {
                            found: s2.inputs_sum as u64,
                            required: (s2.inputs_sum + s2.missing_amount()) as u64,
                        },
                    ),
                    available,
                    outputs: outs,
                    another_round: false,
                }
            },
            None => AmountOutcome {
                result: Ok(s.selected),
                available: unselected(available, s.selected),
                outputs,
                another_round: false,
            },
        }
    } else {
        AmountOutcome {
            result: Ok(s.selected),
            available: unselected(available, s.selected),
            outputs,
            another_round: false,
        }
    }
}

/// Whether the end of the amount requirement keeps every figure within its machine type.
pub open spec fn amount_finish_fits(
    s: SelectionV,
    selected_count: nat,
    outputs: Seq<OutputV>,
    transitioned: Seq<Seq<u8>>,
    minimums: Seq<u64>,
) -> bool {
    let n = selected_count + s.selected.len();
    &&& n <= usize::MAX
    &&& n <= INPUT_COUNT_MAX && s.missing_amount() != 0 ==> match reduce_from(
        outputs,
        s,
        0,
        transitioned,
        minimums,
    ) {
        Some((_, s2, covered)) => covered || s2.inputs_sum + s2.missing_amount() <= u64::MAX,
        None => false,
    }
}

/// The amount requirement: nothing where no amount is missing; otherwise a round over the
/// available inputs ordered low to high, and, where its inputs would pass the limit, a new
/// round over them ordered high to low; a round that selects inputs of other kinds ends
/// the requirement and asks for another round; see `amount_finish` for the rest.
pub open spec fn amount_requirement(
    st: SelectionV,
    available: Seq<InputV>,
    selected_count: nat,
    outputs: Seq<OutputV>,
    transitioned: Seq<Seq<u8>>,
    minimums: Seq<u64>,
    slot: u32,
    range: CommittableAgeRange,
) -> AmountOutcome {
    if st.missing_amount() == 0 {
        AmountOutcome { result: Ok(st.selected), available, outputs, another_round: false }
    } else {
        let asc = sorted_by_amount(available, false);
        let (s1, r1) = amount_round(st, asc, slot, range, selected_count);
        if r1 {
            AmountOutcome {
                result: Ok(s1.selected),
                available: unselected(asc, s1.selected),
                outputs,
                another_round: true,
            }
        } else if selected_count + s1.selected.len() > INPUT_COUNT_MAX {
            let desc = sorted_by_amount(asc, true);
            let (s2, r2) = amount_round(st, desc, slot, range, selected_count);
            if r2 {
                AmountOutcome {
                    result: Ok(s2.selected),
                    available: unselected(desc, s2.selected),
                    outputs,
                    another_round: true,
                }
            } else {
                amount_finish(s2, desc, selected_count, outputs, transitioned, minimums)
            }
        } else {
            amount_finish(s1, asc, selected_count, outputs, transitioned, minimums)
        }
    }
}

/// Whether the amount requirement keeps every figure within its machine type.
pub open spec fn amount_requirement_fits(
    st: SelectionV,
    available: Seq<InputV>,
    selected_count: nat,
    outputs: Seq<OutputV>,
    transitioned: Seq<Seq<u8>>,
    minimums: Seq<u64>,
    slot: u32,
    range: CommittableAgeRange,
) -> bool {
    let asc = sorted_by_amount(available, false);
    let (s1, r1) = amount_round(st, asc, slot, range, selected_count);
    let desc = sorted_by_amount(asc, true);
    let (s2, r2) = amount_round(st, desc, slot, range, selected_count);
    st.missing_amount() != 0 ==> {
        &&& amount_round_fits(st, asc, slot, range)
        &&& !r1 && selected_count + s1.selected.len() > INPUT_COUNT_MAX ==> {
            &&& amount_round_fits(st, desc, slot, range)
            &&& !r2 ==> amount_finish_fits(s2, selected_count, outputs, transitioned, minimums)
        }
        &&& !r1 && selected_count + s1.selected.len() <= INPUT_COUNT_MAX ==> amount_finish_fits(
            s1,
            selected_count,
            outputs,
            transitioned,
            minimums,
        )
    }
}

/// Ends the amount requirement; see `amount_finish`.
fn finish_amount(
    selection: &mut AmountSelection,
    available: &mut Vec<InputSigningData>,
    selected_count: usize,
    outputs: &mut Vec<Output>,
    transitioned: &Vec<Id>,
    minimum_amounts: &Vec<u64>,
) -> (r: Result<Vec<InputSigningData>, SelectionError>)
    requires
        old(selection)@.fits(),
        minimum_amounts@.len() == old(outputs)@.len(),
        amount_finish_fits(
            old(selection)@,
            selected_count as nat,
            outputs_view(old(outputs)@),
            ids_view(transitioned@),
            minimum_amounts@,
        ),
    ensures
        ({
            let o = amount_finish(
                old(selection)@,
                inputs_view(old(available)@),
                selected_count as nat,
                outputs_view(old(outputs)@),
                ids_view(transitioned@),
                minimum_amounts@,
            );
            &&& inputs_view(final(available)@) == o.available
            &&& outputs_view(final(outputs)@) == o.outputs
            &&& match r {
                Ok(v) => o.result == Ok::<Seq<InputV>, SelectionErrorV>(inputs_view(v@)),
                Err(e) => o.result == Err::<Seq<InputV>, SelectionErrorV>(e@),
            }
        }),
{
    let newly = selection.newly_selected_inputs.len();
    if selected_count > INPUT_COUNT_MAX || newly > INPUT_COUNT_MAX - selected_count {
        return Err(SelectionError::InvalidInputCount(selected_count + newly));
    }
    if selection.missing_amount() != 0 {
        let covered = selection.reduce_funds_of_chains(outputs, transitioned, minimum_amounts);
        if !covered {
            let found = selection.inputs_sum;
            let missing = selection.missing_amount();
            return Err(SelectionError::InsufficientAmount { found, required: found + missing });
        }
    }
    retain_unselected(available, selection);
    let mut none: Vec<InputSigningData> = Vec::new();
    std::mem::swap(&mut none, &mut selection.newly_selected_inputs);
    Ok(none)
}

/// Fulfils the amount requirement: selects available inputs until the outputs, the
/// storage deposits owed back and the remainder are covered; see `amount_requirement`.
/// `remainder_amount` is the amount that a remainder needs and `native_tokens_remainder`
/// whether native tokens need one; `minimum_amounts` holds the minimum amount of each
/// output. Another round is asked for by adding the amount requirement to `requirements`.
pub fn fulfill_amount_requirement(
    selected: &Vec<InputSigningData>,
    outputs: &mut Vec<Output>,
    available: &mut Vec<InputSigningData>,
    requirements: &mut Vec<Requirement>,
    transitioned: &Vec<Id>,
    minimum_amounts: &Vec<u64>,
    slot: u32,
    range: CommittableAgeRange,
    remainder_amount: u64,
    native_tokens_remainder: bool,
    allow_additional: bool,
) -> (r: Result<Vec<InputSigningData>, SelectionError>)
    requires
        amount_sums_fit(inputs_view(selected@), outputs_view(old(outputs)@), slot),
        minimum_amounts@.len() == old(outputs)@.len(),
        basic_unlockable(inputs_view(old(available)@), slot, range),
        amount_requirement_fits(
            start_selection(
                inputs_view(selected@),
                outputs_view(old(outputs)@),
                slot,
                remainder_amount,
                native_tokens_remainder,
            ),
            inputs_view(old(available)@),
            selected@.len(),
            outputs_view(old(outputs)@),
            ids_view(transitioned@),
            minimum_amounts@,
            slot,
            range,
        ),
    ensures
        !allow_additional && start_selection(
            inputs_view(selected@),
            outputs_view(old(outputs)@),
            slot,
            remainder_amount,
            native_tokens_remainder,
        ).missing_amount() != 0 ==> {
            &&& r matches Err(SelectionError::AdditionalInputsRequired(Requirement::Amount))
            &&& final(available)@ == old(available)@
            &&& final(outputs)@ == old(outputs)@
            &&& final(requirements)@ == old(requirements)@
        },
        allow_additional || start_selection(
            inputs_view(selected@),
            outputs_view(old(outputs)@),
            slot,
            remainder_amount,
            native_tokens_remainder,
        ).missing_amount() == 0 ==> ({
            let o = amount_requirement(
                start_selection(
                    inputs_view(selected@),
                    outputs_view(old(outputs)@),
                    slot,
                    remainder_amount,
                    native_tokens_remainder,
                ),
                inputs_view(old(available)@),
                selected@.len(),
                outputs_view(old(outputs)@),
                ids_view(transitioned@),
                minimum_amounts@,
                slot,
                range,
            );
            &&& inputs_view(final(available)@) == o.available
            &&& outputs_view(final(outputs)@) == o.outputs
            &&& requirements_view(final(requirements)@) == if o.another_round {
                requirements_view(old(requirements)@).push(RequirementV::Amount)
            } else {
                requirements_view(old(requirements)@)
            }
            &&& match r {
                Ok(v) => o.result == Ok::<Seq<InputV>, SelectionErrorV>(inputs_view(v@)),
                Err(e) => o.result == Err::<Seq<InputV>, SelectionErrorV>(e@),
            }
        }),
{
    let ghost av0 = inputs_view(available@);
    let ghost req0 = requirements_view(requirements@);
    let mut selection = AmountSelection::new(selected, outputs, slot, remainder_amount, native_tokens_remainder);
    if selection.missing_amount() == 0 {
        return Ok(selection.into_newly_selected_inputs());
    }
    if !allow_additional {
        return Err(SelectionError::AdditionalInputsRequired(Requirement::Amount));
    }
    sort_by_amount(available, false);
    proof {
        lemma_sorted_basic_unlockable(av0, false, slot, range);
    }
    if run_amount_round(&mut selection, available, slot, range, selected.len()) {
        retain_unselected(available, &selection);
        requirements.push(Requirement::Amount);
        assert(requirements_view(requirements@) =~= req0.push(RequirementV::Amount));
        return Ok(selection.into_newly_selected_inputs());
    }
    let count = selected.len();
    let newly = selection.newly_selected_inputs.len();
    if count > INPUT_COUNT_MAX || newly > INPUT_COUNT_MAX - count {
        selection = AmountSelection::new(selected, outputs, slot, remainder_amount, native_tokens_remainder);
        let ghost asc = inputs_view(available@);
        sort_by_amount(available, true);
        proof {
            lemma_sorted_basic_unlockable(asc, true, slot, range);
        }
        if run_amount_round(&mut selection, available, slot, range, selected.len()) {
            retain_unselected(available, &selection);
            requirements.push(Requirement::Amount);
            assert(requirements_view(requirements@) =~= req0.push(RequirementV::Amount));
            return Ok(selection.into_newly_selected_inputs());
        }
    }
    finish_amount(&mut selection, available, selected.len(), outputs, transitioned, minimum_amounts)
}

/// Whether every input of `sel` is one of `pool`.
pub open spec fn drawn_from(sel: Seq<InputV>, pool: Seq<InputV>) -> bool {
    forall|i: int| 0 <= i < sel.len() ==> pool.contains(#[trigger] sel[i])
}

proof fn lemma_fulfil_drawn(s: SelectionV, inputs: Seq<InputV>, pool: Seq<InputV>)
    requires
        drawn_from(s.selected, pool),
        drawn_from(inputs, pool),
    ensures
        drawn_from(s.fulfil(inputs).0.selected, pool),
    decreases inputs.len(),
{
    if inputs.len() > 0 {
        assert(pool.contains(inputs[0]));
        let rest = inputs.drop_first();
        assert(drawn_from(rest, pool)) by {
            assert forall|i: int| 0 <= i < rest.len() implies pool.contains(#[trigger] rest[i]) by {
                assert(rest[i] == inputs[i + 1]);
            }
        }
        match s.step(inputs[0]) {
            None => lemma_fulfil_drawn(s, rest, pool),
            Some(next) => {
                assert(next.selected == s.selected.push(inputs[0]));
                assert(drawn_from(next.selected, pool)) by {
                    assert forall|i: int| 0 <= i < next.selected.len() implies pool.contains(
                        #[trigger] next.selected[i],
                    ) by {
                        if i < s.selected.len() {
                            assert(next.selected[i] == s.selected[i]);
                        }
                    }
                }
                if next.missing_amount() != 0 {
                    lemma_fulfil_drawn(next, rest, pool);
                }
            },
        }
    }
}

proof fn lemma_pass_inputs_drawn(inputs: Seq<InputV>, slot: u32, pass: int)
    ensures
        drawn_from(pass_inputs(inputs, slot, pass), inputs),
    decreases inputs.len(),
{
    if inputs.len() > 0 {
        let init = inputs.drop_last();
        lemma_pass_inputs_drawn(init, slot, pass);
        let p = pass_inputs(inputs, slot, pass);
        let q = pass_inputs(init, slot, pass);
        assert forall|i: int| 0 <= i < p.len() implies inputs.contains(#[trigger] p[i]) by {
            if i < q.len() {
                assert(p[i] == q[i]);
                assert(init.contains(q[i]));
                let j = choose|j: int| 0 <= j < init.len() && init[j] == q[i];
                assert(inputs[j] == init[j]);
            } else {
                assert(p[i] == inputs.last());
                assert(inputs[inputs.len() - 1] == inputs.last());
            }
        }
    }
}

proof fn lemma_drawn_trans(a: Seq<InputV>, b: Seq<InputV>, c: Seq<InputV>)
    requires
        drawn_from(a, b),
        drawn_from(b, c),
    ensures
        drawn_from(a, c),
{
    assert forall|i: int| 0 <= i < a.len() implies c.contains(#[trigger] a[i]) by {
        assert(b.contains(a[i]));
        let j = choose|j: int| 0 <= j < b.len() && b[j] == a[i];
        assert(c.contains(b[j]));
    }
}

proof fn lemma_preference_drawn(s: SelectionV, inputs: Seq<InputV>, pass: int, pool: Seq<InputV>)
    requires
        drawn_from(s.selected, pool),
        drawn_from(inputs, pool),
    ensures
        drawn_from(s.fulfil_by_preference(inputs, pass).0.selected, pool),
    decreases 5 - pass,
{
    if pass < 5 {
        let ps = pass_inputs(inputs, s.slot_index, pass);
        lemma_pass_inputs_drawn(inputs, s.slot_index, pass);
        lemma_drawn_trans(ps, inputs, pool);
        lemma_fulfil_drawn(s, ps, pool);
        let (next, done) = s.fulfil(ps);
        if !done {
            lemma_preference_drawn(next, inputs, pass + 1, pool);
        }
    }
}

proof fn lemma_group_drawn(s: Seq<InputV>, slot: u32, range: CommittableAgeRange, group: int)
    ensures
        drawn_from(group_inputs(s, slot, range, group), s),
    decreases s.len(),
{
    if s.len() > 0 {
        let init = s.drop_last();
        lemma_group_drawn(init, slot, range, group);
        let p = group_inputs(s, slot, range, group);
        let q = group_inputs(init, slot, range, group);
        assert forall|i: int| 0 <= i < p.len() implies s.contains(#[trigger] p[i]) by {
            if i < q.len() {
                assert(p[i] == q[i]);
                let j = choose|j: int| 0 <= j < init.len() && init[j] == q[i];
                assert(s[j] == init[j]);
            } else {
                assert(s[s.len() - 1] == p[i]);
            }
        }
    }
}

proof fn lemma_round_drawn(
    st: SelectionV,
    available: Seq<InputV>,
    slot: u32,
    range: CommittableAgeRange,
    selected_count: nat,
)
    requires
        drawn_from(st.selected, available),
    ensures
        drawn_from(amount_round(st, available, slot, range, selected_count).0.selected, available),
{
    let g0 = group_inputs(available, slot, range, 0);
    let g1 = group_inputs(available, slot, range, 1);
    let g2 = group_inputs(available, slot, range, 2);
    lemma_group_drawn(available, slot, range, 0);
    lemma_group_drawn(available, slot, range, 1);
    lemma_group_drawn(available, slot, range, 2);
    lemma_preference_drawn(st, g0, 0, available);
    let (s1, d1) = st.fulfil_by_preference(g0, 0);
    lemma_preference_drawn(s1, g1, 0, available);
    let (s2, d2) = s1.fulfil_by_preference(g1, 0);
    lemma_fulfil_drawn(s2, g2, available);
}

proof fn lemma_sorted_drawn(s: Seq<InputV>, descending: bool)
    ensures
        drawn_from(sorted_by_amount(s, descending), s),
        drawn_from(s, sorted_by_amount(s, descending)),
{
    let t = sorted_by_amount(s, descending);
    lemma_sorted_by_amount(s, descending);
    assert forall|i: int| 0 <= i < t.len() implies s.contains(#[trigger] t[i]) by {
        to_multiset_contains(t, t[i]);
        to_multiset_contains(s, t[i]);
        assert(t.contains(t[i]));
    }
    assert forall|i: int| 0 <= i < s.len() implies t.contains(#[trigger] s[i]) by {
        to_multiset_contains(t, s[i]);
        to_multiset_contains(s, s[i]);
        assert(s.contains(s[i]));
    }
}

proof fn lemma_unselected(s: Seq<InputV>, selected: Seq<InputV>)
    ensures
        drawn_from(unselected(s, selected), s),
        forall|i: int|
            0 <= i < unselected(s, selected).len() ==> !spends(selected, (#[trigger] unselected(s, selected)[i]).output_id),
    decreases s.len(),
{
    if s.len() > 0 {
        let init = s.drop_last();
        lemma_unselected(init, selected);
        let p = unselected(s, selected);
        let q = unselected(init, selected);
        assert forall|i: int| 0 <= i < p.len() implies s.contains(#[trigger] p[i]) && !spends(selected, p[i].output_id) by {
            if i < q.len() {
                assert(p[i] == q[i]);
                let j = choose|j: int| 0 <= j < init.len() && init[j] == q[i];
                assert(s[j] == init[j]);
            } else {
                assert(s[s.len() - 1] == p[i]);
            }
        }
    }
}

/// The amount requirement selects only available inputs; the inputs that stay available
/// were available, and none of them is among the selected ones.
pub proof fn lemma_amount_requirement_draws_from_available(
    st: SelectionV,
    available: Seq<InputV>,
    selected_count: nat,
    outputs: Seq<OutputV>,
    transitioned: Seq<Seq<u8>>,
    minimums: Seq<u64>,
    slot: u32,
    range: CommittableAgeRange,
)
    requires
        st.selected.len() == 0,
    ensures
        ({
            let o = amount_requirement(st, available, selected_count, outputs, transitioned, minimums, slot, range);
            &&& drawn_from(o.available, available)
            &&& o.result matches Ok(v) ==> {
                &&& drawn_from(v, available)
                &&& forall|i: int| 0 <= i < o.available.len() ==> !spends(v, (#[trigger] o.available[i]).output_id)
            }
        }),
{
    let o = amount_requirement(st, available, selected_count, outputs, transitioned, minimums, slot, range);
    assert(drawn_from(available, available)) by {
        assert forall|i: int| 0 <= i < available.len() implies available.contains(#[trigger] available[i]) by {}
    }
    if st.missing_amount() != 0 {
        let asc = sorted_by_amount(available, false);
        let desc = sorted_by_amount(asc, true);
        lemma_sorted_drawn(available, false);
        lemma_sorted_drawn(asc, true);
        lemma_drawn_trans(desc, asc, available);
        lemma_round_drawn(st, asc, slot, range, selected_count);
        lemma_round_drawn(st, desc, slot, range, selected_count);
        let (s1, r1) = amount_round(st, asc, slot, range, selected_count);
        let (s2, r2) = amount_round(st, desc, slot, range, selected_count);
        lemma_drawn_trans(s1.selected, asc, available);
        lemma_drawn_trans(s2.selected, desc, available);
        lemma_unselected(asc, s1.selected);
        lemma_unselected(desc, s2.selected);
        lemma_drawn_trans(unselected(asc, s1.selected), asc, available);
        lemma_drawn_trans(unselected(desc, s2.selected), desc, available);
        lemma_reduce_conserves(outputs, s1, 0, transitioned, minimums);
        lemma_reduce_conserves(outputs, s2, 0, transitioned, minimums);
    }
}

} // verus!
