//! The last steps of building a transaction: the checks on the numbers of inputs and
//! outputs, the excess amount and mana added to existing outputs, the list of outputs, the
//! mana rewards, and the reward context inputs.

use vstd::prelude::*;

use crate::amount::{inputs_view, outputs_view};
use crate::ledger::{Address, AddressV, CommittableAgeRange, Id, InputSigningData, InputV, Output, OutputId, OutputIdV, OutputKind, OutputV};
use crate::ordered_inputs::{lemma_sorted_lists_all, OrderedInputs};
use crate::remainders::{
    given_view, remainder_target, remainders_view, RemainderData, RemainderDataV, Remainders, RemaindersV,
};
use crate::selection::{
    contains_output_id, first_where, lemma_first_where, lemma_first_where_unique, output_ids_view, SelectionError,
    SelectionErrorV, INPUT_COUNT_MAX, OUTPUT_COUNT_MAX,
};

verus! {

/// Whether a number of outputs is outside the range a transaction allows.
pub open spec fn output_count_invalid(n: nat) -> bool {
    n < 1 || n > OUTPUT_COUNT_MAX
}

/// Checks the number of provided outputs: outside the allowed range it is an error, unless
/// there are none and a burn, mana allotments or required inputs will add outputs.
pub fn check_provided_outputs(
    provided_len: usize,
    has_burn: bool,
    has_allotments: bool,
    has_required_inputs: bool,
) -> (r: Result<(), SelectionError>)
    ensures
        r is Err <==> output_count_invalid(provided_len as nat) && (provided_len != 0 || (!has_burn
            && !has_allotments && !has_required_inputs)),
        r matches Err(e) ==> e@ == SelectionErrorV::InvalidOutputCount(provided_len as nat),
{
    if provided_len < 1 || provided_len > OUTPUT_COUNT_MAX {
        if provided_len != 0 || (!has_burn && !has_allotments && !has_required_inputs) {
            return Err(SelectionError::InvalidOutputCount(provided_len));
        }
    }
    Ok(())
}

/// Checks that the inputs bring the mana that the outputs need; otherwise the error tells
/// how much was found, how much is needed, and in how many slots enough is generated.
pub fn check_mana_balance(input_mana: u64, output_mana: u64, slots_remaining: u32) -> (r: Result<(), SelectionError>)
    ensures
        r is Ok <==> input_mana >= output_mana,
        r matches Err(e) ==> e@ == (SelectionErrorV::InsufficientMana {
            found: input_mana,
            required: output_mana,
            slots_remaining,
        }),
{
    if input_mana < output_mana {
        return Err(SelectionError::InsufficientMana { found: input_mana, required: output_mana, slots_remaining });
    }
    Ok(())
}

/// Checks the number of selected inputs against the range a transaction allows.
pub fn check_input_count(n: usize) -> (r: Result<(), SelectionError>)
    ensures
        r is Ok <==> 1 <= n <= INPUT_COUNT_MAX,
        r matches Err(e) ==> e@ == SelectionErrorV::InvalidInputCount(n as nat),
{
    if n < 1 || n > INPUT_COUNT_MAX {
        return Err(SelectionError::InvalidInputCount(n));
    }
    Ok(())
}

/// The amount given under `k`, zero where nothing is.
pub open spec fn given_under(g: Seq<(Option<Seq<u8>>, nat)>, k: Option<Seq<u8>>) -> nat
    decreases g.len(),
{
    if g.len() == 0 {
        0
    } else if g[0].0 == k {
        g[0].1
    } else {
        given_under(g.drop_first(), k)
    }
}

/// Whether something is given under `k`.
pub open spec fn given_has(g: Seq<(Option<Seq<u8>>, nat)>, k: Option<Seq<u8>>) -> bool {
    exists|i: int| 0 <= i < g.len() && #[trigger] g[i].0 == k
}

/// Each key of the amounts with its amount and the mana given under it.
pub open spec fn amount_part(
    amounts: Seq<(Option<Seq<u8>>, nat)>,
    mana: Seq<(Option<Seq<u8>>, nat)>,
) -> Seq<(Option<Seq<u8>>, nat, nat)>
    decreases amounts.len(),
{
    if amounts.len() == 0 {
        Seq::empty()
    } else {
        amount_part(amounts.drop_last(), mana).push(
            (amounts.last().0, amounts.last().1, given_under(mana, amounts.last().0)),
        )
    }
}

/// Each key that only the mana has, with no amount and its mana.
pub open spec fn mana_part(
    amounts: Seq<(Option<Seq<u8>>, nat)>,
    mana: Seq<(Option<Seq<u8>>, nat)>,
) -> Seq<(Option<Seq<u8>>, nat, nat)>
    decreases mana.len(),
{
    if mana.len() == 0 {
        Seq::empty()
    } else {
        let r = mana_part(amounts, mana.drop_last());
        if given_has(amounts, mana.last().0) {
            r
        } else {
            r.push((mana.last().0, 0, mana.last().1))
        }
    }
}

/// The excess amount and mana per chain: each key of the amounts with its amount and mana,
/// then each key that only the mana has.
pub open spec fn merge_given(
    amounts: Seq<(Option<Seq<u8>>, nat)>,
    mana: Seq<(Option<Seq<u8>>, nat)>,
) -> Seq<(Option<Seq<u8>>, nat, nat)> {
    amount_part(amounts, mana) + mana_part(amounts, mana)
}

/// Whether two optional chain ids are equal.
fn same_key(a: &Option<Id>, b: &Option<Id>) -> (r: bool)
    ensures
        r == (match a {
            Some(x) => Some(x@),
            None => None::<Seq<u8>>,
        } == match b {
            Some(x) => Some(x@),
            None => None::<Seq<u8>>,
        }),
{
    match (a, b) {
        (Some(x), Some(y)) => x.same(y),
        (None, None) => true,
        _ => false,
    }
}

/// The value of an optional chain id.
pub open spec fn key_view(k: Option<Id>) -> Option<Seq<u8>> {
    match k {
        Some(x) => Some(x@),
        None => None,
    }
}

/// A copy of an optional chain id.
fn clone_key(k: &Option<Id>) -> (r: Option<Id>)
    ensures
        key_view(r) == key_view(*k),
{
    match k {
        Some(x) => Some(x.clone()),
        None => None,
    }
}

/// The amount given under `k`.
fn given_lookup(g: &Vec<(Option<Id>, u64)>, k: &Option<Id>) -> (r: u64)
    ensures
        r as nat == given_under(given_view(g@), key_view(*k)),
{
    let ghost gv = given_view(g@);
    let mut i: usize = 0;
    assert(gv.skip(0) =~= gv);
    while i < g.len()
        invariant
            i <= g@.len(),
            gv == given_view(g@),
            given_under(gv, key_view(*k)) == given_under(gv.skip(i as int), key_view(*k)),
        decreases g@.len() - i,
    {
        proof {
            assert(gv.skip(i as int)[0] == gv[i as int]);
            assert(gv.skip(i as int).drop_first() =~= gv.skip(i + 1));
        }
        if same_key(&g[i].0, k) {
            return g[i].1;
        }
        i = i + 1;
    }
    0
}

/// Whether something is given under `k`.
fn given_contains(g: &Vec<(Option<Id>, u64)>, k: &Option<Id>) -> (r: bool)
    ensures
        r == given_has(given_view(g@), key_view(*k)),
{
    let ghost gv = given_view(g@);
    let mut i: usize = 0;
    while i < g.len()
        invariant
            i <= g@.len(),
            gv == given_view(g@),
            forall|j: int| 0 <= j < i ==> gv[j].0 != key_view(*k),
        decreases g@.len() - i,
    {
        if same_key(&g[i].0, k) {
            assert(gv[i as int].0 == key_view(*k));
            return true;
        }
        i = i + 1;
    }
    false
}

/// The values of the merged excesses.
pub open spec fn merged_view(v: Seq<(Option<Id>, u64, u64)>) -> Seq<(Option<Seq<u8>>, nat, nat)> {
    v.map_values(|e: (Option<Id>, u64, u64)| (key_view(e.0), e.1 as nat, e.2 as nat))
}

/// The excess amount and mana per chain; see `merge_given`.
pub fn merge_added(amounts: &Vec<(Option<Id>, u64)>, mana: &Vec<(Option<Id>, u64)>) -> (r: Vec<(Option<Id>, u64, u64)>)
    ensures
        merged_view(r@) == merge_given(given_view(amounts@), given_view(mana@)),
{
    let ghost av = given_view(amounts@);
    let ghost mv = given_view(mana@);
    let mut r: Vec<(Option<Id>, u64, u64)> = Vec::new();
    let mut i: usize = 0;
    assert(av.take(0) =~= Seq::<(Option<Seq<u8>>, nat)>::empty());
    assert(merged_view(r@) =~= Seq::<(Option<Seq<u8>>, nat, nat)>::empty());
    while i < amounts.len()
        invariant
            i <= amounts@.len(),
            av == given_view(amounts@),
            mv == given_view(mana@),
            merged_view(r@) == amount_part(av.take(i as int), mv),
        decreases amounts@.len() - i,
    {
        let ghost r0 = merged_view(r@);
        proof {
            assert(av.take(i + 1).drop_last() =~= av.take(i as int));
            assert(av.take(i + 1).last() == av[i as int]);
        }
        let k = clone_key(&amounts[i].0);
        let m = given_lookup(mana, &k);
        let ghost e = (key_view(k), amounts@[i as int].1 as nat, m as nat);
        r.push((k, amounts[i].1, m));
        assert(merged_view(r@) =~= r0.push(e));
        i = i + 1;
    }
    assert(av.take(i as int) =~= av);
    let ghost first = merged_view(r@);
    let mut j: usize = 0;
    assert(mv.take(0) =~= Seq::<(Option<Seq<u8>>, nat)>::empty());
    while j < mana.len()
        invariant
            j <= mana@.len(),
            av == given_view(amounts@),
            mv == given_view(mana@),
            first == amount_part(av, mv),
            merged_view(r@) == first + mana_part(av, mv.take(j as int)),
        decreases mana@.len() - j,
    {
        let ghost r0 = merged_view(r@);
        proof {
            assert(mv.take(j + 1).drop_last() =~= mv.take(j as int));
            assert(mv.take(j + 1).last() == mv[j as int]);
        }
        if !given_contains(amounts, &mana[j].0) {
            let k = clone_key(&mana[j].0);
            let ghost e = (key_view(k), 0nat, mana@[j as int].1 as nat);
            r.push((k, 0, mana[j].1));
            assert(merged_view(r@) =~= r0.push(e));
        }
        j = j + 1;
    }
    assert(mv.take(j as int) =~= mv);
    r
}

/// The outputs that can take an excess for `chain` and `addr`.
pub open spec fn target_pred(
    chain: Option<Seq<u8>>,
    addr: AddressV,
    slot: u32,
    range: CommittableAgeRange,
) -> spec_fn(OutputV) -> bool {
    |o: OutputV| remainder_target(o, chain, addr, slot, range)
}

/// The position of the output that takes the excess of `chain`: the first that can take
/// it for the chain, or else the first that can take it for no particular chain.
pub open spec fn output_for_remainder(
    outs: Seq<OutputV>,
    chain: Option<Seq<u8>>,
    addr: AddressV,
    slot: u32,
    range: CommittableAgeRange,
) -> Option<int> {
    match first_where(outs, target_pred(chain, addr, slot, range)) {
        Some(i) => Some(i),
        None => first_where(outs, target_pred(None, addr, slot, range)),
    }
}

/// The output with an excess amount and mana added; a foundry takes no mana. None where a
/// sum overflows or the output is of a kind that takes no excess (an anchor or delegation).
pub open spec fn with_excess(o: OutputV, amount: nat, mana: nat) -> Option<OutputV> {
    if o.amount + amount > u64::MAX || (o.kind != OutputKind::Foundry && o.mana + mana > u64::MAX)
        || o.kind == OutputKind::Anchor || o.kind == OutputKind::Delegation {
        None
    } else {
        Some(
            OutputV {
                amount: (o.amount + amount) as u64,
                mana: if o.kind == OutputKind::Foundry {
                    o.mana
                } else {
                    (o.mana + mana) as u64
                },
                ..o
            },
        )
    }
}

/// The outputs after each excess in turn goes to the output that takes it, if any; none
/// where a sum overflows.
pub open spec fn apply_excess(
    outs: Seq<OutputV>,
    merged: Seq<(Option<Seq<u8>>, nat, nat)>,
    addr: AddressV,
    slot: u32,
    range: CommittableAgeRange,
) -> Option<Seq<OutputV>>
    decreases merged.len(),
{
    if merged.len() == 0 {
        Some(outs)
    } else {
        match apply_excess(outs, merged.drop_last(), addr, slot, range) {
            None => None,
            Some(o1) => {
                let (k, a, m) = merged.last();
                match output_for_remainder(o1, k, addr, slot, range) {
                    None => Some(o1),
                    Some(i) => match with_excess(o1[i], a, m) {
                        None => None,
                        Some(n) => Some(o1.update(i, n)),
                    },
                }
            },
        }
    }
}

/// The position of the first output that can take an excess for `chain`.
fn first_target(
    outs: &Vec<Output>,
    chain: &Option<Id>,
    addr: &Address,
    slot: u32,
    range: CommittableAgeRange,
) -> (r: Option<usize>)
    ensures
        first_where(outputs_view(outs@), target_pred(key_view(*chain), addr@, slot, range)) == match r {
            Some(i) => Some(i as int),
            None => None::<int>,
        },
{
    let ghost s = outputs_view(outs@);
    let ghost p = target_pred(key_view(*chain), addr@, slot, range);
    let mut i: usize = 0;
    while i < outs.len()
        invariant
            i <= outs@.len(),
            s == outputs_view(outs@),
            p == target_pred(key_view(*chain), addr@, slot, range),
            forall|j: int| 0 <= j < i ==> !p(#[trigger] s[j]),
        decreases outs@.len() - i,
    {
        let single: Vec<Output> = vec![outs[i].clone()];
        assert(outputs_view(single@) =~= seq![s[i as int]]);
        if crate::remainders::output_for_remainder_exists(&single, chain, addr, slot, range) {
            proof {
                let j = choose|j: int| 0 <= j < outputs_view(single@).len() && #[trigger] remainder_target(
                    outputs_view(single@)[j],
                    key_view(*chain),
                    addr@,
                    slot,
                    range,
                );
                assert(j == 0);
                lemma_first_where_unique(s, p, i as int);
            }
            return Some(i);
        }
        assert(!remainder_target(outputs_view(single@)[0], key_view(*chain), addr@, slot, range));
        i = i + 1;
    }
    proof {
        lemma_first_where(s, p);
    }
    None
}

/// Adds each excess in turn to the output that takes it; see `apply_excess`.
pub fn add_excess_to_outputs(
    outs: &mut Vec<Output>,
    merged: &Vec<(Option<Id>, u64, u64)>,
    addr: &Address,
    slot: u32,
    range: CommittableAgeRange,
)
    requires
        apply_excess(outputs_view(old(outs)@), merged_view(merged@), addr@, slot, range) is Some,
    ensures
        apply_excess(outputs_view(old(outs)@), merged_view(merged@), addr@, slot, range) == Some(
            outputs_view(final(outs)@),
        ),
{
    let ghost o0 = outputs_view(outs@);
    let ghost mv = merged_view(merged@);
    let mut i: usize = 0;
    assert(mv.take(0) =~= Seq::<(Option<Seq<u8>>, nat, nat)>::empty());
    while i < merged.len()
        invariant
            i <= merged@.len(),
            mv == merged_view(merged@),
            apply_excess(o0, mv, addr@, slot, range) is Some,
            apply_excess(o0, mv.take(i as int), addr@, slot, range) == Some(outputs_view(outs@)),
        decreases merged@.len() - i,
    {
        proof {
            assert(mv.take(i + 1).drop_last() =~= mv.take(i as int));
            assert(mv.take(i + 1).last() == mv[i as int]);
            lemma_apply_excess_prefix(o0, mv, addr@, slot, range, i + 1);
        }
        let ghost cur = outputs_view(outs@);
        let (k, a, m) = (&merged[i].0, merged[i].1, merged[i].2);
        let found = match first_target(outs, k, addr, slot, range) {
            Some(p) => Some(p),
            None => {
                let none: Option<Id> = None;
                first_target(outs, &none, addr, slot, range)
            },
        };
        match found {
            Some(p) => {
                proof {
                    lemma_first_where(cur, target_pred(key_view(*k), addr@, slot, range));
                    lemma_first_where(cur, target_pred(None, addr@, slot, range));
                }
                let mut o = outs[p].clone();
                assert(cur[p as int] == o@);
                o.amount = o.amount + a;
                if o.kind != OutputKind::Foundry {
                    o.mana = o.mana + m;
                }
                outs.set(p, o);
                assert(outputs_view(outs@) =~= cur.update(p as int, o@));
            },
            None => {},
        }
        i = i + 1;
    }
    assert(mv.take(i as int) =~= mv);
}

proof fn lemma_apply_excess_prefix(
    outs: Seq<OutputV>,
    merged: Seq<(Option<Seq<u8>>, nat, nat)>,
    addr: AddressV,
    slot: u32,
    range: CommittableAgeRange,
    k: int,
)
    requires
        0 <= k <= merged.len(),
        apply_excess(outs, merged, addr, slot, range) is Some,
    ensures
        apply_excess(outs, merged.take(k), addr, slot, range) is Some,
    decreases merged.len() - k,
{
    if k < merged.len() {
        lemma_apply_excess_prefix(outs, merged, addr, slot, range, k + 1);
        assert(merged.take(k + 1).drop_last() =~= merged.take(k));
    } else {
        assert(merged.take(k) =~= merged);
    }
}

/// The outputs of a transaction: the provided ones, the added ones, the storage deposit
/// returns and the remainder outputs, in this order.
pub open spec fn all_outputs(
    provided: Seq<OutputV>,
    added: Seq<OutputV>,
    sdr: Seq<OutputV>,
    data: Seq<RemainderDataV>,
) -> Seq<OutputV> {
    provided + added + sdr + data.map_values(|r: RemainderDataV| r.output)
}

/// Lists the outputs of a transaction; see `all_outputs`. Their number must be in the
/// allowed range.
pub fn final_outputs(
    provided: Vec<Output>,
    added: Vec<Output>,
    sdr: Vec<Output>,
    data: &Vec<RemainderData>,
) -> (r: Result<Vec<Output>, SelectionError>)
    ensures
        match r {
            Ok(v) => outputs_view(v@) == all_outputs(
                outputs_view(provided@),
                outputs_view(added@),
                outputs_view(sdr@),
                remainders_view(data@),
            ) && !output_count_invalid(v@.len()),
            Err(e) => output_count_invalid(
                all_outputs(
                    outputs_view(provided@),
                    outputs_view(added@),
                    outputs_view(sdr@),
                    remainders_view(data@),
                ).len(),
            ) && e@ == SelectionErrorV::InvalidOutputCount(
                all_outputs(
                    outputs_view(provided@),
                    outputs_view(added@),
                    outputs_view(sdr@),
                    remainders_view(data@),
                ).len(),
            ),
        },
{
    let ghost target = all_outputs(
        outputs_view(provided@),
        outputs_view(added@),
        outputs_view(sdr@),
        remainders_view(data@),
    );
    let mut all = provided;
    let mut added = added;
    let mut sdr = sdr;
    let ghost a0 = outputs_view(all@);
    let ghost b0 = outputs_view(added@);
    let ghost c0 = outputs_view(sdr@);
    all.append(&mut added);
    assert(outputs_view(all@) =~= a0 + b0);
    let ghost ab = outputs_view(all@);
    all.append(&mut sdr);
    assert(outputs_view(all@) =~= ab + c0);
    let ghost dv = remainders_view(data@).map_values(|r: RemainderDataV| r.output);
    let ghost base = outputs_view(all@);
    let mut i: usize = 0;
    while i < data.len()
        invariant
            i <= data@.len(),
            base + dv.take(i as int) == outputs_view(all@),
            dv == remainders_view(data@).map_values(|r: RemainderDataV| r.output),
        decreases data@.len() - i,
    {
        let ghost cur = outputs_view(all@);
        all.push(data[i].output.clone());
        proof {
            assert(dv[i as int] == data@[i as int].output@);
            assert(dv.take(i + 1) =~= dv.take(i as int).push(dv[i as int]));
            assert(outputs_view(all@) =~= cur.push(dv[i as int]));
        }
        i = i + 1;
    }
    assert(dv.take(i as int) =~= dv);
    assert(outputs_view(all@) =~= target);
    if all.len() < 1 || all.len() > OUTPUT_COUNT_MAX {
        return Err(SelectionError::InvalidOutputCount(all.len()));
    }
    Ok(all)
}

/// Whether some input spends the output `id`.
pub open spec fn spent_by(inputs: Seq<InputV>, id: OutputIdV) -> bool {
    exists|i: int| 0 <= i < inputs.len() && #[trigger] inputs[i].output_id == id
}

/// The first output id with mana rewards that no input spends, if any.
pub open spec fn extra_reward(inputs: Seq<InputV>, rewards: Seq<(OutputIdV, u64)>) -> Option<OutputIdV> {
    match first_where(rewards, |r: (OutputIdV, u64)| !spent_by(inputs, r.0)) {
        Some(i) => Some(rewards[i].0),
        None => None,
    }
}

/// The values of a list of mana rewards.
pub open spec fn rewards_view(s: Seq<(OutputId, u64)>) -> Seq<(OutputIdV, u64)> {
    s.map_values(|e: (OutputId, u64)| (e.0@, e.1))
}

/// Whether some input spends the output `id`.
fn spends(inputs: &Vec<InputSigningData>, id: &OutputId) -> (r: bool)
    ensures
        r == spent_by(inputs_view(inputs@), id@),
{
    let ghost s = inputs_view(inputs@);
    let mut i: usize = 0;
    while i < inputs.len()
        invariant
            i <= inputs@.len(),
            s == inputs_view(inputs@),
            forall|j: int| 0 <= j < i ==> s[j].output_id != id@,
        decreases inputs@.len() - i,
    {
        assert(s[i as int] == inputs@[i as int]@);
        if inputs[i].output_id.same(id) {
            assert(s[i as int].output_id == id@);
            return true;
        }
        i = i + 1;
    }
    false
}

/// Checks that mana rewards are only given for outputs that the inputs spend.
pub fn check_mana_rewards(inputs: &Vec<InputSigningData>, rewards: &Vec<(OutputId, u64)>) -> (r: Result<(), SelectionError>)
    ensures
        match extra_reward(inputs_view(inputs@), rewards_view(rewards@)) {
            Some(id) => r matches Err(e) && e@ == SelectionErrorV::ExtraManaRewards(id),
            None => r is Ok,
        },
{
    let ghost s = rewards_view(rewards@);
    let ghost p = |r: (OutputIdV, u64)| !spent_by(inputs_view(inputs@), r.0);
    let mut i: usize = 0;
    while i < rewards.len()
        invariant
            i <= rewards@.len(),
            s == rewards_view(rewards@),
            p == (|r: (OutputIdV, u64)| !spent_by(inputs_view(inputs@), r.0)),
            forall|j: int| 0 <= j < i ==> !p(#[trigger] s[j]),
        decreases rewards@.len() - i,
    {
        assert(s[i as int].0 == rewards@[i as int].0@);
        if !spends(inputs, &rewards[i].0) {
            proof {
                lemma_first_where_unique(s, p, i as int);
            }
            return Err(SelectionError::ExtraManaRewards(rewards[i].0.clone()));
        }
        i = i + 1;
    }
    proof {
        lemma_first_where(s, p);
    }
    Ok(())
}

/// The positions, in order, of the inputs whose outputs claim rewards.
pub open spec fn reward_positions(inputs: Seq<InputV>, reward_ids: Seq<OutputIdV>) -> Seq<nat>
    decreases inputs.len(),
{
    if inputs.len() == 0 {
        Seq::empty()
    } else {
        let r = reward_positions(inputs.drop_last(), reward_ids);
        if reward_ids.contains(inputs.last().output_id) {
            r.push((inputs.len() - 1) as nat)
        } else {
            r
        }
    }
}

/// The reward context inputs: the positions of the inputs whose outputs claim rewards.
pub fn reward_context_indices(inputs: &Vec<InputSigningData>, reward_ids: &Vec<OutputId>) -> (r: Vec<u16>)
    requires
        inputs@.len() <= INPUT_COUNT_MAX,
    ensures
        r@.map_values(|i: u16| i as nat) == reward_positions(inputs_view(inputs@), output_ids_view(reward_ids@)),
{
    let ghost s = inputs_view(inputs@);
    let ghost ids = output_ids_view(reward_ids@);
    let mut r: Vec<u16> = Vec::new();
    let mut i: usize = 0;
    assert(s.take(0) =~= Seq::<InputV>::empty());
    assert(r@.map_values(|i: u16| i as nat) =~= Seq::<nat>::empty());
    while i < inputs.len()
        invariant
            i <= inputs@.len(),
            inputs@.len() <= INPUT_COUNT_MAX,
            s == inputs_view(inputs@),
            ids == output_ids_view(reward_ids@),
            r@.map_values(|i: u16| i as nat) == reward_positions(s.take(i as int), ids),
        decreases inputs@.len() - i,
    {
        let ghost r0 = r@.map_values(|i: u16| i as nat);
        proof {
            assert(s.take(i + 1).drop_last() =~= s.take(i as int));
            assert(s.take(i + 1).last() == inputs@[i as int]@);
        }
        if contains_output_id(reward_ids, &inputs[i].output_id) {
            r.push(i as u16);
            assert(r@.map_values(|i: u16| i as nat) =~= r0.push(i as nat));
        }
        i = i + 1;
    }
    assert(s.take(i as int) =~= s);
    r
}

/// The outputs of a finished transaction: the excess amount and mana of the remainders go
/// to the added outputs that take them, then the outputs are listed; see `all_outputs`.
pub open spec fn finished_outputs(
    provided: Seq<OutputV>,
    added: Seq<OutputV>,
    remainders: RemaindersV,
    addr: AddressV,
    slot: u32,
    range: CommittableAgeRange,
) -> Result<Seq<OutputV>, SelectionErrorV> {
    let added2 = apply_excess(
        added,
        merge_given(remainders.added_amount, remainders.added_mana),
        addr,
        slot,
        range,
    )->0;
    let all = all_outputs(provided, added2, remainders.storage_deposit_returns, remainders.data);
    if output_count_invalid(all.len()) {
        Err(SelectionErrorV::InvalidOutputCount(all.len()))
    } else {
        Ok(all)
    }
}

/// The outputs of a finished transaction; see `finished_outputs`.
pub fn finish_outputs(
    provided: Vec<Output>,
    added: Vec<Output>,
    remainders: Remainders,
    addr: &Address,
    slot: u32,
    range: CommittableAgeRange,
) -> (r: Result<Vec<Output>, SelectionError>)
    requires
        apply_excess(
            outputs_view(added@),
            merge_given(remainders@.added_amount, remainders@.added_mana),
            addr@,
            slot,
            range,
        ) is Some,
    ensures
        finished_outputs(outputs_view(provided@), outputs_view(added@), remainders@, addr@, slot, range)
            == match r {
            Ok(v) => Ok::<Seq<OutputV>, SelectionErrorV>(outputs_view(v@)),
            Err(e) => Err(e@),
        },
{
    let mut added = added;
    let merged = merge_added(&remainders.added_amount, &remainders.added_mana);
    add_excess_to_outputs(&mut added, &merged, addr, slot, range);
    final_outputs(provided, added, remainders.storage_deposit_returns, &remainders.data)
}

/// The inputs of a finished transaction, in signing order, and the positions of those whose
/// outputs claim rewards; the error where mana rewards are given for an output that no
/// input spends.
pub fn finish_inputs(
    selected: OrderedInputs,
    rewards: &Vec<(OutputId, u64)>,
    reward_ids: &Vec<OutputId>,
) -> (r: Result<(Vec<InputSigningData>, Vec<u16>), SelectionError>)
    requires
        selected@.wf(),
        selected@.len <= INPUT_COUNT_MAX,
    ensures
        match extra_reward(selected@.sorted(), rewards_view(rewards@)) {
            Some(id) => r matches Err(e) && e@ == SelectionErrorV::ExtraManaRewards(id),
            None => r matches Ok((inputs, positions)) && inputs_view(inputs@) == selected@.sorted()
                && positions@.map_values(|i: u16| i as nat) == reward_positions(
                selected@.sorted(),
                output_ids_view(reward_ids@),
            ),
        },
{
    proof {
        lemma_sorted_lists_all(selected@);
        vstd::seq_lib::to_multiset_len(selected@.sorted());
        vstd::seq_lib::to_multiset_len(selected@.all());
    }
    let inputs = selected.into_sorted_iter();
    match check_mana_rewards(&inputs, rewards) {
        Err(e) => Err(e),
        Ok(()) => {
            let positions = reward_context_indices(&inputs, reward_ids);
            Ok((inputs, positions))
        },
    }
}

} // verus!
