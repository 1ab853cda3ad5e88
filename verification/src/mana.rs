//! Mana: what the selected inputs bring, what the outputs and allotments take, the excess
//! of the required inputs, the mana of each chain, and the picking of more inputs until the
//! mana suffices. The mana that an input has generated comes from the protocol's decay
//! rules; the caller gives it, one figure per input.

use vstd::prelude::*;

use crate::allotment::{allotment_of, allotments_view, allotted, find_allotment};
use crate::amount::{inputs_view, outputs_view};
use crate::burn::Burn;
use crate::finishing::rewards_view;
use crate::ledger::{
    Address, AddressV, CommittableAgeRange, Id, InputSigningData, InputV, Output, OutputId, OutputIdV, OutputKind,
    OutputV,
};
use crate::selection::lemma_first_where;
use crate::remainders::{
    chain_add_in, chain_of, chain_of_exec, chain_put, chains_view, find_chain, key_is, data_mana, given_total, given_view, remainders_view, RemainderData, RemainderDataV, Remainders};
use crate::requirement::Requirement;
use crate::selection::{contains_output_id, output_ids_view, SelectionError};

verus! {

/// The mana rewards given for an output, zero where none are; the first entry for it counts.
pub open spec fn reward_of(rewards: Seq<(OutputIdV, u64)>, id: OutputIdV) -> nat
    decreases rewards.len(),
{
    if rewards.len() == 0 {
        0
    } else if rewards[0].0 == id {
        rewards[0].1 as nat
    } else {
        reward_of(rewards.drop_first(), id)
    }
}

/// The mana that an input brings: its rewards, and either the mana that it has available
/// (`available`: what it holds together with what it generated) or, where generated mana is
/// left out, only the mana that it holds.
pub open spec fn input_mana(
    x: InputV,
    rewards: Seq<(OutputIdV, u64)>,
    include_generated: bool,
    available: u64,
) -> nat {
    reward_of(rewards, x.output_id) + if include_generated {
        available as nat
    } else {
        x.output.mana as nat
    }
}

/// The mana that the inputs bring, `available` giving the available mana of each input.
pub open spec fn inputs_mana(
    xs: Seq<InputV>,
    rewards: Seq<(OutputIdV, u64)>,
    include_generated: bool,
    available: Seq<u64>,
) -> nat
    decreases xs.len(),
{
    if xs.len() == 0 {
        0
    } else {
        inputs_mana(xs.drop_last(), rewards, include_generated, available) + input_mana(
            xs.last(),
            rewards,
            include_generated,
            available[xs.len() - 1],
        )
    }
}

/// The mana of a prefix of the inputs is at most that of all of them, and one more input
/// adds its own mana.
pub proof fn lemma_inputs_mana_prefix(
    xs: Seq<InputV>,
    rewards: Seq<(OutputIdV, u64)>,
    include_generated: bool,
    available: Seq<u64>,
    k: int,
)
    requires
        0 <= k <= xs.len(),
    ensures
        inputs_mana(xs.take(k), rewards, include_generated, available) <= inputs_mana(
            xs,
            rewards,
            include_generated,
            available,
        ),
        k < xs.len() ==> inputs_mana(xs.take(k + 1), rewards, include_generated, available) == inputs_mana(
            xs.take(k),
            rewards,
            include_generated,
            available,
        ) + input_mana(xs[k], rewards, include_generated, available[k]),
    decreases xs.len(),
{
    if k < xs.len() {
        assert(xs.take(k + 1).drop_last() =~= xs.take(k));
        lemma_inputs_mana_prefix(xs.drop_last(), rewards, include_generated, available, k);
        assert(xs.drop_last().take(k) =~= xs.take(k));
    } else {
        assert(xs.take(k) =~= xs);
    }
}

/// The mana rewards given for `id`; see `reward_of`.
fn reward_lookup(rewards: &Vec<(OutputId, u64)>, id: &OutputId) -> (r: u64)
    ensures
        r == reward_of(rewards_view(rewards@), id@),
{
    let ghost s = rewards_view(rewards@);
    let mut i: usize = 0;
    assert(s.skip(0) =~= s);
    while i < rewards.len()
        invariant
            i <= rewards@.len(),
            s == rewards_view(rewards@),
            reward_of(s, id@) == reward_of(s.skip(i as int), id@),
        decreases rewards@.len() - i,
    {
        assert(s.skip(i as int)[0] == (rewards@[i as int].0@, rewards@[i as int].1));
        assert(s.skip(i as int).drop_first() =~= s.skip(i + 1));
        if rewards[i].0.same(id) {
            return rewards[i].1;
        }
        i = i + 1;
    }
    assert(s.skip(i as int) =~= Seq::<(OutputIdV, u64)>::empty());
    0
}

/// The mana that an input brings; see `input_mana`.
pub fn total_mana(
    input: &InputSigningData,
    rewards: &Vec<(OutputId, u64)>,
    include_generated: bool,
    available: u64,
) -> (r: u64)
    requires
        input_mana(input@, rewards_view(rewards@), include_generated, available) <= u64::MAX,
    ensures
        r == input_mana(input@, rewards_view(rewards@), include_generated, available),
{
    let reward = reward_lookup(rewards, &input.output_id);
    let held = if include_generated {
        available
    } else {
        input.output.mana
    };
    reward + held
}

/// The mana that the selected inputs bring; see `inputs_mana`. `available` holds the
/// available mana of each selected input.
pub fn total_selected_mana(
    selected: &Vec<InputSigningData>,
    rewards: &Vec<(OutputId, u64)>,
    include_generated: bool,
    available: &Vec<u64>,
) -> (r: u64)
    requires
        available@.len() == selected@.len(),
        inputs_mana(inputs_view(selected@), rewards_view(rewards@), include_generated, available@) <= u64::MAX,
    ensures
        r == inputs_mana(inputs_view(selected@), rewards_view(rewards@), include_generated, available@),
{
    let ghost xs = inputs_view(selected@);
    let ghost rv = rewards_view(rewards@);
    let mut sum: u64 = 0;
    let mut i: usize = 0;
    assert(xs.take(0) =~= Seq::<InputV>::empty());
    while i < selected.len()
        invariant
            i <= selected@.len(),
            available@.len() == selected@.len(),
            xs == inputs_view(selected@),
            rv == rewards_view(rewards@),
            inputs_mana(xs, rv, include_generated, available@) <= u64::MAX,
            sum == inputs_mana(xs.take(i as int), rv, include_generated, available@),
        decreases selected@.len() - i,
    {
        proof {
            lemma_inputs_mana_prefix(xs, rv, include_generated, available@, i as int);
            lemma_inputs_mana_prefix(xs, rv, include_generated, available@, i + 1);
        }
        assert(xs[i as int] == selected@[i as int]@);
        let m = total_mana(&selected[i], rewards, include_generated, available[i]);
        sum = sum + m;
        i = i + 1;
    }
    assert(xs.take(i as int) =~= xs);
    sum
}

/// The mana that the outputs hold.
pub open spec fn outputs_mana(os: Seq<OutputV>) -> nat
    decreases os.len(),
{
    if os.len() == 0 {
        0
    } else {
        outputs_mana(os.drop_last()) + os.last().mana as nat
    }
}

proof fn lemma_outputs_mana_prefix(os: Seq<OutputV>, k: int)
    requires
        0 <= k <= os.len(),
    ensures
        outputs_mana(os.take(k)) <= outputs_mana(os),
        k < os.len() ==> outputs_mana(os.take(k + 1)) == outputs_mana(os.take(k)) + os[k].mana,
    decreases os.len(),
{
    if k < os.len() {
        assert(os.take(k + 1).drop_last() =~= os.take(k));
        lemma_outputs_mana_prefix(os.drop_last(), k);
        assert(os.drop_last().take(k) =~= os.take(k));
    } else {
        assert(os.take(k) =~= os);
    }
}

/// The mana that the outputs hold; see `outputs_mana`.
pub fn output_mana_sum(outputs: &Vec<Output>) -> (r: u64)
    requires
        outputs_mana(outputs_view(outputs@)) <= u64::MAX,
    ensures
        r == outputs_mana(outputs_view(outputs@)),
{
    let ghost os = outputs_view(outputs@);
    let mut sum: u64 = 0;
    let mut i: usize = 0;
    assert(os.take(0) =~= Seq::<OutputV>::empty());
    while i < outputs.len()
        invariant
            i <= outputs@.len(),
            os == outputs_view(outputs@),
            outputs_mana(os) <= u64::MAX,
            sum == outputs_mana(os.take(i as int)),
        decreases outputs@.len() - i,
    {
        proof {
            lemma_outputs_mana_prefix(os, i as int);
            lemma_outputs_mana_prefix(os, i + 1);
        }
        assert(os[i as int] == outputs@[i as int]@);
        sum = sum + outputs[i].mana;
        i = i + 1;
    }
    assert(os.take(i as int) =~= os);
    sum
}

/// The mana that the inputs among `xs` that are required (their output ids are in
/// `required`) bring.
pub open spec fn required_inputs_mana(
    xs: Seq<InputV>,
    required: Seq<OutputIdV>,
    rewards: Seq<(OutputIdV, u64)>,
    include_generated: bool,
    available: Seq<u64>,
) -> nat
    decreases xs.len(),
{
    if xs.len() == 0 {
        0
    } else {
        required_inputs_mana(xs.drop_last(), required, rewards, include_generated, available) + if required.contains(
            xs.last().output_id,
        ) {
            input_mana(xs.last(), rewards, include_generated, available[xs.len() - 1])
        } else {
            0
        }
    }
}

proof fn lemma_required_mana_prefix(
    xs: Seq<InputV>,
    required: Seq<OutputIdV>,
    rewards: Seq<(OutputIdV, u64)>,
    include_generated: bool,
    available: Seq<u64>,
    k: int,
)
    requires
        0 <= k <= xs.len(),
    ensures
        required_inputs_mana(xs.take(k), required, rewards, include_generated, available) <= required_inputs_mana(
            xs,
            required,
            rewards,
            include_generated,
            available,
        ),
        k < xs.len() ==> required_inputs_mana(xs.take(k + 1), required, rewards, include_generated, available)
            == required_inputs_mana(xs.take(k), required, rewards, include_generated, available) + if required.contains(
            xs[k].output_id,
        ) {
            input_mana(xs[k], rewards, include_generated, available[k])
        } else {
            0
        },
    decreases xs.len(),
{
    if k < xs.len() {
        assert(xs.take(k + 1).drop_last() =~= xs.take(k));
        lemma_required_mana_prefix(xs.drop_last(), required, rewards, include_generated, available, k);
        assert(xs.drop_last().take(k) =~= xs.take(k));
    } else {
        assert(xs.take(k) =~= xs);
    }
}

/// What is left of `a` after taking `b`, zero where `b` is more.
pub open spec fn saturating_diff(a: nat, b: nat) -> nat {
    if a >= b {
        (a - b) as nat
    } else {
        0
    }
}

/// Whether generated mana counts: unless the burn burns it.
pub open spec fn counts_generated(burn: Option<Burn>) -> bool {
    match burn {
        Some(b) => !b@.generated_mana,
        None => true,
    }
}

/// The mana that the required inputs bring beyond what the provided outputs hold, before
/// any input is selected: the mana of the selected inputs that are required, less the mana
/// of the provided outputs, zero where that is more. `available` holds the available mana
/// of each selected input.
pub fn initial_mana_excess(
    selected: &Vec<InputSigningData>,
    required: &Vec<OutputId>,
    provided: &Vec<Output>,
    rewards: &Vec<(OutputId, u64)>,
    burn: &Option<Burn>,
    available: &Vec<u64>,
) -> (r: u64)
    requires
        available@.len() == selected@.len(),
        outputs_mana(outputs_view(provided@)) <= u64::MAX,
        required_inputs_mana(
            inputs_view(selected@),
            output_ids_view(required@),
            rewards_view(rewards@),
            counts_generated(*burn),
            available@,
        ) <= u64::MAX,
    ensures
        r == saturating_diff(
            required_inputs_mana(
                inputs_view(selected@),
                output_ids_view(required@),
                rewards_view(rewards@),
                counts_generated(*burn),
                available@,
            ),
            outputs_mana(outputs_view(provided@)),
        ),
{
    let output_mana = output_mana_sum(provided);
    let include_generated = match burn {
        Some(b) => !b.generated_mana(),
        None => true,
    };
    let ghost xs = inputs_view(selected@);
    let ghost req = output_ids_view(required@);
    let ghost rv = rewards_view(rewards@);
    let mut input_mana: u64 = 0;
    let mut i: usize = 0;
    assert(xs.take(0) =~= Seq::<InputV>::empty());
    while i < selected.len()
        invariant
            i <= selected@.len(),
            available@.len() == selected@.len(),
            xs == inputs_view(selected@),
            req == output_ids_view(required@),
            rv == rewards_view(rewards@),
            include_generated == counts_generated(*burn),
            required_inputs_mana(xs, req, rv, include_generated, available@) <= u64::MAX,
            input_mana == required_inputs_mana(xs.take(i as int), req, rv, include_generated, available@),
        decreases selected@.len() - i,
    {
        proof {
            lemma_required_mana_prefix(xs, req, rv, include_generated, available@, i as int);
            lemma_required_mana_prefix(xs, req, rv, include_generated, available@, i + 1);
        }
        assert(xs[i as int] == selected@[i as int]@);
        if contains_output_id(required, &selected[i].output_id) {
            proof {
                crate::mana::lemma_input_mana_le_required(xs, req, rv, include_generated, available@, i as int);
            }
            let m = total_mana(&selected[i], rewards, include_generated, available[i]);
            input_mana = input_mana + m;
        }
        i = i + 1;
    }
    assert(xs.take(i as int) =~= xs);
    input_mana.saturating_sub(output_mana)
}

/// The mana of one required input is at most that of all required inputs.
proof fn lemma_input_mana_le_required(
    xs: Seq<InputV>,
    required: Seq<OutputIdV>,
    rewards: Seq<(OutputIdV, u64)>,
    include_generated: bool,
    available: Seq<u64>,
    k: int,
)
    requires
        0 <= k < xs.len(),
        required.contains(xs[k].output_id),
    ensures
        input_mana(xs[k], rewards, include_generated, available[k]) <= required_inputs_mana(
            xs,
            required,
            rewards,
            include_generated,
            available,
        ),
{
    lemma_required_mana_prefix(xs, required, rewards, include_generated, available, k);
    lemma_required_mana_prefix(xs, required, rewards, include_generated, available, k + 1);
}

/// The mana allotted to the accounts other than `except` (to all where it is none).
pub open spec fn allotted_except(a: Seq<(Seq<u8>, nat)>, except: Option<Seq<u8>>) -> nat
    decreases a.len(),
{
    if a.len() == 0 {
        0
    } else {
        allotted_except(a.drop_last(), except) + if except == Some(a.last().0) {
            0
        } else {
            a.last().1
        }
    }
}

/// The allotments that the transaction needs: all of them, where the allotment of the
/// issuer counts as the required allotment where that is more.
pub open spec fn allotments_needed(a: Seq<(Seq<u8>, nat)>, issuer: Option<Seq<u8>>, required: Option<u64>) -> nat {
    match issuer {
        Some(i) => {
            let req: nat = match required {
                Some(r) => r as nat,
                None => 0,
            };
            allotted_except(a, issuer) + if allotted(a, i) >= req {
                allotted(a, i)
            } else {
                req
            }
        },
        None => allotted_except(a, None),
    }
}

/// The mana that the remainders take: the remainder outputs, the storage deposit returns
/// and the mana given to existing outputs.
pub open spec fn remainders_mana(data: Seq<RemainderDataV>, sdr_outputs: Seq<OutputV>, added: Seq<(Option<Seq<u8>>, nat)>) -> nat {
    data_mana(data) + outputs_mana(sdr_outputs) + given_total(added)
}

/// The mana that the transaction needs: what its outputs other than the remainders hold
/// and the allotments, and, where the remainders are counted, what they take.
pub open spec fn required_mana(
    outputs: Seq<OutputV>,
    data: Seq<RemainderDataV>,
    sdr_outputs: Seq<OutputV>,
    added: Seq<(Option<Seq<u8>>, nat)>,
    allotments: Seq<(Seq<u8>, nat)>,
    issuer: Option<Seq<u8>>,
    required_allotment: Option<u64>,
    include_remainders: bool,
) -> nat {
    outputs_mana(outputs) + allotments_needed(allotments, issuer, required_allotment) + if include_remainders {
        remainders_mana(data, sdr_outputs, added)
    } else {
        0
    }
}

proof fn lemma_allotted_prefix(a: Seq<(Seq<u8>, nat)>, except: Option<Seq<u8>>, k: int)
    requires
        0 <= k <= a.len(),
    ensures
        allotted_except(a.take(k), except) <= allotted_except(a, except),
        k < a.len() ==> allotted_except(a.take(k + 1), except) == allotted_except(a.take(k), except) + if except == Some(a[k].0) {
            0
        } else {
            a[k].1 as nat
        },
    decreases a.len(),
{
    if k < a.len() {
        assert(a.take(k + 1).drop_last() =~= a.take(k));
        lemma_allotted_prefix(a.drop_last(), except, k);
        assert(a.drop_last().take(k) =~= a.take(k));
    } else {
        assert(a.take(k) =~= a);
    }
}

/// The mana allotted to the accounts other than `except`; see `allotted_except`.
fn allotted_sum(allotments: &Vec<(Id, u64)>, except: &Option<Id>) -> (r: u64)
    requires
        allotted_except(
            allotments_view(allotments@),
            match except {
                Some(i) => Some(i@),
                None => None,
            },
        ) <= u64::MAX,
    ensures
        r == allotted_except(
            allotments_view(allotments@),
            match except {
                Some(i) => Some(i@),
                None => None,
            },
        ),
{
    let ghost a = allotments_view(allotments@);
    let ghost ex: Option<Seq<u8>> = match except {
        Some(i) => Some(i@),
        None => None,
    };
    let mut sum: u64 = 0;
    let mut i: usize = 0;
    assert(a.take(0) =~= Seq::<(Seq<u8>, nat)>::empty());
    while i < allotments.len()
        invariant
            i <= allotments@.len(),
            a == allotments_view(allotments@),
            ex == match except {
                Some(i) => Some(i@),
                None => None::<Seq<u8>>,
            },
            allotted_except(a, ex) <= u64::MAX,
            sum == allotted_except(a.take(i as int), ex),
        decreases allotments@.len() - i,
    {
        proof {
            lemma_allotted_prefix(a, ex, i as int);
            lemma_allotted_prefix(a, ex, i + 1);
        }
        assert(a[i as int] == (allotments@[i as int].0@, allotments@[i as int].1 as nat));
        let skip = match except {
            Some(e) => allotments[i].0.same(e),
            None => false,
        };
        if !skip {
            sum = sum + allotments[i].1;
        }
        i = i + 1;
    }
    assert(a.take(i as int) =~= a);
    sum
}

proof fn lemma_data_mana_prefix(d: Seq<RemainderDataV>, k: int)
    requires
        0 <= k <= d.len(),
    ensures
        data_mana(d.take(k)) <= data_mana(d),
        k < d.len() ==> data_mana(d.take(k + 1)) == data_mana(d.take(k)) + d[k].output.mana,
    decreases d.len(),
{
    if k < d.len() {
        assert(d.take(k + 1).drop_last() =~= d.take(k));
        lemma_data_mana_prefix(d.drop_last(), k);
        assert(d.drop_last().take(k) =~= d.take(k));
    } else {
        assert(d.take(k) =~= d);
    }
}

proof fn lemma_given_total_prefix(g: Seq<(Option<Seq<u8>>, nat)>, k: int)
    requires
        0 <= k <= g.len(),
    ensures
        given_total(g.take(k)) <= given_total(g),
        k < g.len() ==> given_total(g.take(k + 1)) == given_total(g.take(k)) + g[k].1,
    decreases g.len(),
{
    if k < g.len() {
        assert(g.take(k + 1).drop_last() =~= g.take(k));
        lemma_given_total_prefix(g.drop_last(), k);
        assert(g.drop_last().take(k) =~= g.take(k));
    } else {
        assert(g.take(k) =~= g);
    }
}

/// The mana of the remainder outputs; see `data_mana`.
fn data_mana_sum(data: &Vec<RemainderData>) -> (r: u64)
    requires
        data_mana(remainders_view(data@)) <= u64::MAX,
    ensures
        r == data_mana(remainders_view(data@)),
{
    let ghost d = remainders_view(data@);
    let mut sum: u64 = 0;
    let mut i: usize = 0;
    assert(d.take(0) =~= Seq::<RemainderDataV>::empty());
    while i < data.len()
        invariant
            i <= data@.len(),
            d == remainders_view(data@),
            data_mana(d) <= u64::MAX,
            sum == data_mana(d.take(i as int)),
        decreases data@.len() - i,
    {
        proof {
            lemma_data_mana_prefix(d, i as int);
            lemma_data_mana_prefix(d, i + 1);
        }
        assert(d[i as int] == data@[i as int]@);
        sum = sum + data[i].output.mana;
        i = i + 1;
    }
    assert(d.take(i as int) =~= d);
    sum
}

/// The total of what is given; see `given_total`.
fn given_sum(given: &Vec<(Option<Id>, u64)>) -> (r: u64)
    requires
        given_total(given_view(given@)) <= u64::MAX,
    ensures
        r == given_total(given_view(given@)),
{
    let ghost g = given_view(given@);
    let mut sum: u64 = 0;
    let mut i: usize = 0;
    assert(g.take(0) =~= Seq::<(Option<Seq<u8>>, nat)>::empty());
    while i < given.len()
        invariant
            i <= given@.len(),
            g == given_view(given@),
            given_total(g) <= u64::MAX,
            sum == given_total(g.take(i as int)),
        decreases given@.len() - i,
    {
        proof {
            lemma_given_total_prefix(g, i as int);
            lemma_given_total_prefix(g, i + 1);
        }
        assert(g[i as int].1 == given@[i as int].1);
        sum = sum + given[i].1;
        i = i + 1;
    }
    assert(g.take(i as int) =~= g);
    sum
}

/// The mana that the selected inputs bring and the mana that the transaction needs; see
/// `inputs_mana` and `required_mana`. `outputs` are the outputs other than the remainders,
/// `available` holds the available mana of each selected input, and `required_allotment`
/// the allotment that the issuer needs, where one is asked for.
pub fn mana_sums(
    selected: &Vec<InputSigningData>,
    rewards: &Vec<(OutputId, u64)>,
    burn: &Option<Burn>,
    available: &Vec<u64>,
    outputs: &Vec<Output>,
    remainders: &Remainders,
    allotments: &Vec<(Id, u64)>,
    issuer: &Option<Id>,
    required_allotment: Option<u64>,
    include_remainders: bool,
) -> (r: (u64, u64))
    requires
        available@.len() == selected@.len(),
        inputs_mana(inputs_view(selected@), rewards_view(rewards@), counts_generated(*burn), available@)
            <= u64::MAX,
        required_mana(
            outputs_view(outputs@),
            remainders@.data,
            remainders@.storage_deposit_returns,
            remainders@.added_mana,
            allotments_view(allotments@),
            match issuer {
                Some(i) => Some(i@),
                None => None,
            },
            required_allotment,
            include_remainders,
        ) <= u64::MAX,
    ensures
        r.0 == inputs_mana(inputs_view(selected@), rewards_view(rewards@), counts_generated(*burn), available@),
        r.1 == required_mana(
            outputs_view(outputs@),
            remainders@.data,
            remainders@.storage_deposit_returns,
            remainders@.added_mana,
            allotments_view(allotments@),
            match issuer {
                Some(i) => Some(i@),
                None => None,
            },
            required_allotment,
            include_remainders,
        ),
{
    let allotments_sum: u64 = match issuer {
        Some(i) => {
            let req: u64 = match required_allotment {
                Some(r) => r,
                None => 0,
            };
            proof {
                lemma_first_where(allotments_view(allotments@), allotment_of(i@));
            }
            let own: u64 = match find_allotment(allotments, i) {
                Some(p) => {
                    assert(allotments_view(allotments@)[p as int].1 == allotments@[p as int].1);
                    allotments[p].1
                },
                None => 0,
            };
            let others = allotted_sum(allotments, issuer);
            if own >= req {
                others + own
            } else {
                others + req
            }
        },
        None => allotted_sum(allotments, issuer),
    };
    let mut required = output_mana_sum(outputs) + allotments_sum;
    if include_remainders {
        let d = data_mana_sum(&remainders.data);
        let o = output_mana_sum(&remainders.storage_deposit_returns);
        let g = given_sum(&remainders.added_mana);
        required = required + d + o + g;
    }
    let include_generated = match burn {
        Some(b) => !b.generated_mana(),
        None => true,
    };
    let selected_mana = total_selected_mana(selected, rewards, include_generated, available);
    (selected_mana, required)
}

/// The mana of each chain among the outputs, with nothing on the input side; a later
/// output of a chain replaces an earlier one.
pub open spec fn output_mana_chains(outputs: Seq<OutputV>) -> Seq<(Seq<u8>, (nat, nat))>
    decreases outputs.len(),
{
    if outputs.len() == 0 {
        Seq::empty()
    } else {
        let s = output_mana_chains(outputs.drop_last());
        match chain_of(outputs.last()) {
            Some(k) => chain_put(s, k, (0, outputs.last().mana as nat)),
            None => s,
        }
    }
}

/// The input and output mana of each chain: the mana that the outputs hold, and the mana
/// that the selected inputs of the chain bring, whose null ids are derived from their
/// output ids.
pub open spec fn mana_chains_spec(
    outputs: Seq<OutputV>,
    inputs: Seq<InputV>,
    rewards: Seq<(OutputIdV, u64)>,
    include_generated: bool,
    available: Seq<u64>,
) -> Seq<(Seq<u8>, (nat, nat))>
    decreases inputs.len(),
{
    if inputs.len() == 0 {
        output_mana_chains(outputs)
    } else {
        let s = mana_chains_spec(outputs, inputs.drop_last(), rewards, include_generated, available);
        let x = inputs.last();
        match chain_of(x.output) {
            Some(_) => chain_add_in(
                s,
                x.output.chain_id_non_null(x.output_id),
                input_mana(x, rewards, include_generated, available[inputs.len() - 1]),
            ),
            None => s,
        }
    }
}

/// Whether each input-side figure of the list is at most `bound` and each output-side
/// figure fits in 64 bits.
pub open spec fn chains_within(s: Seq<(Seq<u8>, (nat, nat))>, bound: nat) -> bool {
    forall|i: int| 0 <= i < s.len() ==> #[trigger] s[i].1.0 <= bound && s[i].1.1 <= u64::MAX
}

proof fn lemma_output_mana_chains_bound(outputs: Seq<OutputV>)
    ensures
        chains_within(output_mana_chains(outputs), 0),
    decreases outputs.len(),
{
    if outputs.len() > 0 {
        lemma_output_mana_chains_bound(outputs.drop_last());
        let s = output_mana_chains(outputs.drop_last());
        if let Some(k) = chain_of(outputs.last()) {
            lemma_first_where(s, key_is(k));
        }
    }
}

proof fn lemma_mana_chains_bound(
    outputs: Seq<OutputV>,
    inputs: Seq<InputV>,
    rewards: Seq<(OutputIdV, u64)>,
    include_generated: bool,
    available: Seq<u64>,
)
    ensures
        chains_within(
            mana_chains_spec(outputs, inputs, rewards, include_generated, available),
            inputs_mana(inputs, rewards, include_generated, available),
        ),
    decreases inputs.len(),
{
    if inputs.len() == 0 {
        lemma_output_mana_chains_bound(outputs);
    } else {
        let init = inputs.drop_last();
        lemma_mana_chains_bound(outputs, init, rewards, include_generated, available);
        let s = mana_chains_spec(outputs, init, rewards, include_generated, available);
        let x = inputs.last();
        if chain_of(x.output) is Some {
            let k = x.output.chain_id_non_null(x.output_id);
            lemma_first_where(s, key_is(k));
        }
    }
}

/// The input and output mana of each chain; see `mana_chains_spec`. `outputs` are the
/// outputs other than the remainders, and `available` holds the available mana of each
/// selected input.
pub fn mana_chains(
    outputs: &Vec<Output>,
    selected: &Vec<InputSigningData>,
    rewards: &Vec<(OutputId, u64)>,
    burn: &Option<Burn>,
    available: &Vec<u64>,
) -> (r: Vec<(Id, u64, u64)>)
    requires
        available@.len() == selected@.len(),
        inputs_mana(inputs_view(selected@), rewards_view(rewards@), counts_generated(*burn), available@)
            <= u64::MAX,
    ensures
        chains_view(r@) == mana_chains_spec(
            outputs_view(outputs@),
            inputs_view(selected@),
            rewards_view(rewards@),
            counts_generated(*burn),
            available@,
        ),
{
    let include_generated = match burn {
        Some(b) => !b.generated_mana(),
        None => true,
    };
    let ghost outs = outputs_view(outputs@);
    let ghost ins = inputs_view(selected@);
    let ghost rv = rewards_view(rewards@);
    let mut r: Vec<(Id, u64, u64)> = Vec::new();
    let mut j: usize = 0;
    assert(outs.take(0) =~= Seq::<OutputV>::empty());
    assert(chains_view(r@) =~= Seq::<(Seq<u8>, (nat, nat))>::empty());
    while j < outputs.len()
        invariant
            j <= outputs@.len(),
            outs == outputs_view(outputs@),
            chains_view(r@) == output_mana_chains(outs.take(j as int)),
        decreases outputs@.len() - j,
    {
        let ghost s0 = chains_view(r@);
        proof {
            assert(outs.take(j + 1).drop_last() =~= outs.take(j as int));
            assert(outs.take(j + 1).last() == outputs@[j as int]@);
        }
        let o = &outputs[j];
        match chain_of_exec(o) {
            Some(k) => {
                let ghost kv = k@;
                let found = find_chain(&r, &k);
                proof {
                    lemma_first_where(s0, key_is(kv));
                }
                match found {
                    Some(i) => {
                        r.set(i, (k, 0, o.mana));
                        assert(chains_view(r@) =~= s0.update(i as int, (kv, (0nat, o.mana as nat))));
                    },
                    None => {
                        r.push((k, 0, o.mana));
                        assert(chains_view(r@) =~= s0.push((kv, (0nat, o.mana as nat))));
                    },
                }
            },
            None => {},
        }
        j = j + 1;
    }
    assert(outs.take(j as int) =~= outs);
    let mut i: usize = 0;
    assert(ins.take(0) =~= Seq::<InputV>::empty());
    while i < selected.len()
        invariant
            i <= selected@.len(),
            available@.len() == selected@.len(),
            outs == outputs_view(outputs@),
            ins == inputs_view(selected@),
            rv == rewards_view(rewards@),
            include_generated == counts_generated(*burn),
            inputs_mana(ins, rv, include_generated, available@) <= u64::MAX,
            chains_view(r@) == mana_chains_spec(outs, ins.take(i as int), rv, include_generated, available@),
        decreases selected@.len() - i,
    {
        let ghost s0 = chains_view(r@);
        proof {
            assert(ins.take(i + 1).drop_last() =~= ins.take(i as int));
            assert(ins.take(i + 1).last() == selected@[i as int]@);
            assert(ins.take(i + 1).len() - 1 == i);
            lemma_mana_chains_bound(outs, ins.take(i as int), rv, include_generated, available@);
            lemma_inputs_mana_prefix(ins, rv, include_generated, available@, i + 1);
        }
        let x = &selected[i];
        if x.output.kind != OutputKind::Basic {
            let m = total_mana(x, rewards, include_generated, available[i]);
            let k = x.output.chain_id_non_null_exec(&x.output_id);
            let ghost kv = k@;
            match find_chain(&r, &k) {
                Some(p) => {
                    proof {
                        lemma_first_where(s0, key_is(kv));
                    }
                    let (_, m_in, m_out) = r[p];
                    assert(s0[p as int].1.0 == m_in);
                    r.set(p, (k, m_in + m, m_out));
                    assert(chains_view(r@) =~= s0.update(p as int, (kv, ((m_in + m) as nat, m_out as nat))));
                },
                None => {
                    r.push((k, m, 0));
                    assert(chains_view(r@) =~= s0.push((kv, (m as nat, 0nat))));
                },
            }
        }
        i = i + 1;
    }
    assert(ins.take(i as int) =~= ins);
    r
}

/// The available inputs run short of mana: the mana found and the mana required.
#[derive(Debug)]
pub struct InsufficientMana {
    pub found: u64,
    pub required: u64,
}

/// How many inputs are taken from the end of the available ones, where `totals` holds the
/// mana that each brings, until the selected mana `have` reaches `need`, and the selected
/// mana then.
pub open spec fn mana_picks(totals: Seq<u64>, have: nat, need: nat) -> (nat, nat)
    decreases totals.len(),
{
    if have >= need || totals.len() == 0 {
        (0, have)
    } else {
        let r = mana_picks(totals.drop_last(), have + totals.last() as nat, need);
        (r.0 + 1, r.1)
    }
}

proof fn lemma_mana_picks(totals: Seq<u64>, have: nat, need: nat)
    ensures
        mana_picks(totals, have, need).1 >= have,
        mana_picks(totals, have, need).0 <= totals.len(),
    decreases totals.len(),
{
    if !(have >= need || totals.len() == 0) {
        lemma_mana_picks(totals.drop_last(), have + totals.last() as nat, need);
    }
}

/// Takes inputs from the end of the available ones, last first, until the selected mana
/// reaches the required mana; `totals` holds the mana that each available input brings.
/// The inputs taken, or the error with the mana found where all of them do not suffice;
/// the inputs taken leave `available` either way.
pub fn fulfill_mana_requirement(
    selected_mana: u64,
    required_mana: u64,
    available: &mut Vec<InputSigningData>,
    totals: &Vec<u64>,
) -> (r: Result<Vec<InputSigningData>, InsufficientMana>)
    requires
        totals@.len() == old(available)@.len(),
        mana_picks(totals@, selected_mana as nat, required_mana as nat).1 <= u64::MAX,
    ensures
        ({
            let k = mana_picks(totals@, selected_mana as nat, required_mana as nat).0;
            let found = mana_picks(totals@, selected_mana as nat, required_mana as nat).1;
            let n = old(available)@.len();
            &&& k <= n
            &&& final(available)@ == old(available)@.take(n - k)
            &&& match r {
                Ok(v) => found >= required_mana && v@.len() == k && forall|j: int|
                    0 <= j < k ==> #[trigger] v@[j] == old(available)@[n - 1 - j],
                Err(e) => found < required_mana && e.found == found && e.required == required_mana,
            }
        }),
{
    let ghost old_av = available@;
    let ghost n = old_av.len();
    let ghost goal = mana_picks(totals@, selected_mana as nat, required_mana as nat);
    proof {
        lemma_mana_picks(totals@, selected_mana as nat, required_mana as nat);
        assert(totals@.take(n as int) =~= totals@);
    }
    let mut have = selected_mana;
    let mut inputs: Vec<InputSigningData> = Vec::new();
    while available.len() > 0 && have < required_mana
        invariant
            available@.len() <= n,
            n == old_av.len(),
            totals@.len() == n,
            available@ == old_av.take(available@.len() as int),
            goal == mana_picks(totals@, selected_mana as nat, required_mana as nat),
            goal.0 == (n - available@.len()) + mana_picks(
                totals@.take(available@.len() as int),
                have as nat,
                required_mana as nat,
            ).0,
            goal.1 == mana_picks(totals@.take(available@.len() as int), have as nat, required_mana as nat).1,
            goal.1 <= u64::MAX,
            inputs@.len() == n - available@.len(),
            forall|j: int| 0 <= j < inputs@.len() ==> #[trigger] inputs@[j] == old_av[n - 1 - j],
        decreases available@.len(),
    {
        let len = available.len();
        let ghost t = totals@.take(len as int);
        proof {
            assert(t.drop_last() =~= totals@.take(len - 1));
            lemma_mana_picks(t.drop_last(), have as nat + t.last() as nat, required_mana as nat);
        }
        let t_last = totals[len - 1];
        assert(t.last() == t_last);
        assert(available@[len - 1] == old_av[len - 1]);
        let x = available.pop().unwrap();
        assert(x == old_av[len - 1]);
        assert(available@ =~= old_av.take(len - 1));
        have = have + t_last;
        inputs.push(x);
    }
    proof {
        lemma_mana_picks(totals@.take(available@.len() as int), have as nat, required_mana as nat);
    }
    if have < required_mana {
        return Err(InsufficientMana { found: have, required: required_mana });
    }
    Ok(inputs)
}

/// Whether `o` can take the excess mana for the remainder address `addr`: a basic, account,
/// anchor or nft output without expiration and timelock that `addr` unlocks at `slot`.
pub open spec fn takes_added_mana(o: OutputV, addr: AddressV, slot: u32, range: CommittableAgeRange) -> bool {
    &&& (o.kind == OutputKind::Basic || o.kind == OutputKind::Account || o.kind == OutputKind::Anchor || o.kind
        == OutputKind::Nft)
    &&& o.expiration is None
    &&& o.timelock is None
    &&& o.required_address(slot, range) == Some(addr)
}

/// Whether some output can take the excess mana for `addr`.
pub open spec fn added_mana_target_exists(
    outputs: Seq<OutputV>,
    addr: AddressV,
    slot: u32,
    range: CommittableAgeRange,
) -> bool {
    exists|i: int| 0 <= i < outputs.len() && #[trigger] takes_added_mana(outputs[i], addr, slot, range)
}

/// Whether some output can take the excess mana for `addr`; see `takes_added_mana`.
pub fn output_for_added_mana_exists(
    outputs: &Vec<Output>,
    addr: &Address,
    slot: u32,
    range: CommittableAgeRange,
) -> (r: bool)
    ensures
        r == added_mana_target_exists(outputs_view(outputs@), addr@, slot, range),
{
    let ghost outs = outputs_view(outputs@);
    let mut i: usize = 0;
    while i < outputs.len()
        invariant
            i <= outputs@.len(),
            outs == outputs_view(outputs@),
            forall|j: int| 0 <= j < i ==> !takes_added_mana(#[trigger] outs[j], addr@, slot, range),
        decreases outputs@.len() - i,
    {
        let o = &outputs[i];
        assert(outs[i as int] == o@);
        let kind_fits = o.kind == OutputKind::Basic || o.kind == OutputKind::Account || o.kind == OutputKind::Anchor
            || o.kind == OutputKind::Nft;
        if kind_fits && o.expiration.is_none() && o.timelock.is_none() {
            match o.required_address_at(slot, range) {
                Some(a) => {
                    if a.same(addr) {
                        assert(takes_added_mana(outs[i as int], addr@, slot, range));
                        return true;
                    }
                },
                None => {},
            }
        }
        i = i + 1;
    }
    false
}

/// The position of the last output of `kind` without expiration and timelock, if any.
pub open spec fn last_free_of_kind(outputs: Seq<OutputV>, kind: OutputKind) -> Option<int>
    decreases outputs.len(),
{
    if outputs.len() == 0 {
        None
    } else if outputs.last().kind == kind && outputs.last().expiration is None && outputs.last().timelock is None {
        Some(outputs.len() - 1)
    } else {
        last_free_of_kind(outputs.drop_last(), kind)
    }
}

/// The last output of `kind` without expiration and timelock, where `addr` unlocks it.
pub open spec fn added_mana_candidate(
    outputs: Seq<OutputV>,
    kind: OutputKind,
    addr: AddressV,
    slot: u32,
    range: CommittableAgeRange,
) -> Option<int> {
    match last_free_of_kind(outputs, kind) {
        Some(i) => if outputs[i].required_address(slot, range) == Some(addr) {
            Some(i)
        } else {
            None
        },
        None => None,
    }
}

/// The output that takes the excess mana for `addr`: of the last account, basic and nft
/// outputs without expiration and timelock, the first, in that order, that `addr` unlocks.
pub open spec fn output_for_added_mana(
    outputs: Seq<OutputV>,
    addr: AddressV,
    slot: u32,
    range: CommittableAgeRange,
) -> Option<int> {
    match added_mana_candidate(outputs, OutputKind::Account, addr, slot, range) {
        Some(i) => Some(i),
        None => match added_mana_candidate(outputs, OutputKind::Basic, addr, slot, range) {
            Some(i) => Some(i),
            None => added_mana_candidate(outputs, OutputKind::Nft, addr, slot, range),
        },
    }
}

proof fn lemma_last_free_of_kind(outputs: Seq<OutputV>, kind: OutputKind)
    ensures
        last_free_of_kind(outputs, kind) matches Some(i) ==> 0 <= i < outputs.len(),
    decreases outputs.len(),
{
    if outputs.len() > 0 {
        lemma_last_free_of_kind(outputs.drop_last(), kind);
    }
}

/// The last output of `kind` without expiration and timelock; see `last_free_of_kind`.
fn find_last_free_of_kind(outputs: &Vec<Output>, kind: OutputKind) -> (r: Option<usize>)
    ensures
        last_free_of_kind(outputs_view(outputs@), kind) == match r {
            Some(i) => Some(i as int),
            None => None::<int>,
        },
{
    let ghost outs = outputs_view(outputs@);
    let mut i: usize = outputs.len();
    assert(outs.take(i as int) =~= outs);
    while i > 0
        invariant
            i <= outputs@.len(),
            outs == outputs_view(outputs@),
            last_free_of_kind(outs, kind) == last_free_of_kind(outs.take(i as int), kind),
        decreases i,
    {
        let o = &outputs[i - 1];
        assert(outs.take(i as int).last() == o@);
        assert(outs.take(i as int).drop_last() =~= outs.take(i - 1));
        if o.kind == kind && o.expiration.is_none() && o.timelock.is_none() {
            return Some(i - 1);
        }
        i = i - 1;
    }
    None
}

/// The output that takes the excess mana for `addr`, by position; see `output_for_added_mana`.
pub fn get_output_for_added_mana(
    outputs: &Vec<Output>,
    addr: &Address,
    slot: u32,
    range: CommittableAgeRange,
) -> (r: Option<usize>)
    ensures
        output_for_added_mana(outputs_view(outputs@), addr@, slot, range) == match r {
            Some(i) => Some(i as int),
            None => None::<int>,
        },
{
    let ghost outs = outputs_view(outputs@);
    let kinds = [OutputKind::Account, OutputKind::Basic, OutputKind::Nft];
    let mut k: usize = 0;
    while k < 3
        invariant
            k <= 3,
            outs == outputs_view(outputs@),
            kinds@ == seq![OutputKind::Account, OutputKind::Basic, OutputKind::Nft],
            forall|j: int| 0 <= j < k ==> added_mana_candidate(outs, #[trigger] kinds@[j], addr@, slot, range) is None,
        decreases 3 - k,
    {
        let kind = kinds[k];
        match find_last_free_of_kind(outputs, kind) {
            Some(i) => {
                proof {
                    lemma_last_free_of_kind(outs, kind);
                }
                assert(outs[i as int] == outputs@[i as int]@);
                match outputs[i].required_address_at(slot, range) {
                    Some(a) => {
                        if a.same(addr) {
                            assert(added_mana_candidate(outs, kind, addr@, slot, range) == Some(i as int));
                            assert(kinds@[0] == OutputKind::Account);
                            assert(kinds@[1] == OutputKind::Basic);
                            return Some(i);
                        }
                    },
                    None => {},
                }
            },
            None => {},
        }
        k = k + 1;
    }
    assert(added_mana_candidate(outs, kinds@[0], addr@, slot, range) is None);
    assert(added_mana_candidate(outs, kinds@[1], addr@, slot, range) is None);
    assert(added_mana_candidate(outs, kinds@[2], addr@, slot, range) is None);
    None
}

/// Gives the excess mana to the output that takes it for `addr`, if any; see
/// `output_for_added_mana`. Returns whether an output took it.
pub fn add_excess_mana(
    outputs: &mut Vec<Output>,
    addr: &Address,
    slot: u32,
    range: CommittableAgeRange,
    added_mana: u64,
) -> (r: bool)
    requires
        output_for_added_mana(outputs_view(old(outputs)@), addr@, slot, range) matches Some(i)
            ==> old(outputs)@[i].mana + added_mana <= u64::MAX,
    ensures
        match output_for_added_mana(outputs_view(old(outputs)@), addr@, slot, range) {
            Some(i) => r && outputs_view(final(outputs)@) == outputs_view(old(outputs)@).update(
                i,
                OutputV { mana: (old(outputs)@[i].mana + added_mana) as u64, ..old(outputs)@[i]@ },
            ),
            None => !r && final(outputs)@ == old(outputs)@,
        },
{
    match get_output_for_added_mana(outputs, addr, slot, range) {
        Some(i) => {
            let ghost outs = outputs_view(outputs@);
            proof {
                lemma_last_free_of_kind(outs, OutputKind::Account);
                lemma_last_free_of_kind(outs, OutputKind::Basic);
                lemma_last_free_of_kind(outs, OutputKind::Nft);
            }
            let mut o = outputs[i].clone();
            o.mana = o.mana + added_mana;
            outputs.set(i, o);
            assert(outputs_view(outputs@) =~= outs.update(
                i as int,
                OutputV { mana: (old(outputs)@[i as int].mana + added_mana) as u64, ..old(outputs)@[i as int]@ },
            ));
            true
        },
        None => false,
    }
}

/// Whether `i` is the position of the best score: a score, no other one above it, and
/// every later one below it, so that of equal best scores the last one counts.
pub open spec fn is_best_score(scores: Seq<Option<usize>>, i: int) -> bool {
    &&& 0 <= i < scores.len()
    &&& scores[i] is Some
    &&& forall|j: int| 0 <= j < scores.len() && #[trigger] scores[j] is Some ==> scores[j]->0 <= scores[i]->0
    &&& forall|j: int| i < j < scores.len() && #[trigger] scores[j] is Some ==> scores[j]->0 < scores[i]->0
}

/// The position of the best score, none where no input has a score (see `is_best_score`).
pub fn best_score(scores: &Vec<Option<usize>>) -> (r: Option<usize>)
    ensures
        match r {
            Some(i) => is_best_score(scores@, i as int),
            None => forall|j: int| 0 <= j < scores@.len() ==> #[trigger] scores@[j] is None,
        },
{
    let mut best: Option<usize> = None;
    let mut i: usize = 0;
    while i < scores.len()
        invariant
            i <= scores@.len(),
            match best {
                Some(b) => b < i && scores@[b as int] is Some && (forall|j: int|
                    0 <= j < i && #[trigger] scores@[j] is Some ==> scores@[j]->0 <= scores@[b as int]->0) && (
                forall|j: int| b < j < i && #[trigger] scores@[j] is Some ==> scores@[j]->0 < scores@[b as int]->0),
                None => forall|j: int| 0 <= j < i ==> #[trigger] scores@[j] is None,
            },
        decreases scores@.len() - i,
    {
        match scores[i] {
            Some(s) => {
                match best {
                    Some(b) => {
                        let t = scores[b].unwrap();
                        if s >= t {
                            best = Some(i);
                        }
                    },
                    None => {
                        best = Some(i);
                    },
                }
            },
            None => {},
        }
        i = i + 1;
    }
    best
}

/// Takes the available input with the best score out of the available inputs (the last
/// one takes its place) and returns it; none where no input has a score. `scores` holds
/// the score of each available input: what the protocol's rules make of how well its mana
/// meets the missing mana and of the work it adds.
pub fn take_best_scored(available: &mut Vec<InputSigningData>, scores: &Vec<Option<usize>>) -> (r: Option<
    InputSigningData,
>)
    requires
        scores@.len() == old(available)@.len(),
    ensures
        match r {
            Some(x) => exists|i: int|
                is_best_score(scores@, i) && x == old(available)@[i] && final(available)@ == old(
                    available,
                )@.update(i, old(available)@.last()).drop_last(),
            None => final(available)@ == old(available)@ && forall|j: int|
                0 <= j < scores@.len() ==> #[trigger] scores@[j] is None,
        },
{
    match best_score(scores) {
        Some(i) => {
            let ghost before = available@;
            let x = available.swap_remove(i);
            assert(available@ =~= before.update(i as int, before.last()).drop_last());
            Some(x)
        },
        None => None,
    }
}

/// What the mana requirement asks for next: nothing where the selected inputs bring the
/// mana that the outputs need; else, where selecting more inputs is disabled, the error
/// that more are needed; else an input for the missing mana.
pub fn mana_balance_step(selected_mana: u64, required_mana: u64, allow_additional: bool) -> (r: Result<
    Option<u64>,
    SelectionError,
>)
    ensures
        selected_mana >= required_mana ==> r matches Ok(None),
        selected_mana < required_mana && !allow_additional ==> r matches Err(
            SelectionError::AdditionalInputsRequired(Requirement::Mana),
        ),
        selected_mana < required_mana && allow_additional ==> r == Ok::<Option<u64>, SelectionError>(
            Some((required_mana - selected_mana) as u64),
        ),
{
    if selected_mana >= required_mana {
        Ok(None)
    } else if !allow_additional {
        Err(SelectionError::AdditionalInputsRequired(Requirement::Mana))
    } else {
        Ok(Some(required_mana - selected_mana))
    }
}

/// Whether `o` is an output of `kind` that neither expires nor is timelocked.
pub open spec fn free_of_kind(o: OutputV, kind: OutputKind) -> bool {
    o.kind == kind && o.expiration is None && o.timelock is None
}

proof fn lemma_last_free_of_kind_is(outputs: Seq<OutputV>, kind: OutputKind)
    ensures
        match last_free_of_kind(outputs, kind) {
            Some(i) => 0 <= i < outputs.len() && free_of_kind(outputs[i], kind) && forall|j: int|
                i < j < outputs.len() ==> !free_of_kind(#[trigger] outputs[j], kind),
            None => forall|j: int| 0 <= j < outputs.len() ==> !free_of_kind(#[trigger] outputs[j], kind),
        },
    decreases outputs.len(),
{
    if outputs.len() > 0 {
        lemma_last_free_of_kind_is(outputs.drop_last(), kind);
        assert forall|j: int| 0 <= j < outputs.len() - 1 implies outputs[j] == outputs.drop_last()[j] by {}
    }
}

/// The output chosen to take the excess mana of `addr` is an account, basic or nft output
/// that `addr` unlocks and that neither expires nor is timelocked, and no later output of its
/// kind is such an output; an account output is preferred to a basic one and a basic one to
/// an nft one; where none is chosen, the last such output of each of these kinds, if any, is
/// not unlocked by `addr`.
pub proof fn lemma_added_mana_output_is_free(
    outputs: Seq<OutputV>,
    addr: AddressV,
    slot: u32,
    range: CommittableAgeRange,
)
    ensures
        output_for_added_mana(outputs, addr, slot, range) matches Some(i) ==> {
            &&& 0 <= i < outputs.len()
            &&& outputs[i].expiration is None
            &&& outputs[i].timelock is None
            &&& (outputs[i].kind == OutputKind::Account || outputs[i].kind == OutputKind::Basic || outputs[i].kind
                == OutputKind::Nft)
            &&& outputs[i].required_address(slot, range) == Some(addr)
            &&& forall|j: int| i < j < outputs.len() ==> !free_of_kind(#[trigger] outputs[j], outputs[i].kind)
            &&& forall|j: int, kind: OutputKind|
                0 <= j < outputs.len() && (kind == OutputKind::Account || (kind == OutputKind::Basic
                    && outputs[i].kind == OutputKind::Nft)) && kind != outputs[i].kind && #[trigger] free_of_kind(
                    outputs[j],
                    kind,
                ) && (forall|k: int| j < k < outputs.len() ==> !free_of_kind(#[trigger] outputs[k], kind))
                    ==> outputs[j].required_address(slot, range) != Some(addr)
        },
        output_for_added_mana(outputs, addr, slot, range) is None ==> forall|j: int, kind: OutputKind|
            0 <= j < outputs.len() && (kind == OutputKind::Account || kind == OutputKind::Basic || kind
                == OutputKind::Nft) && #[trigger] free_of_kind(outputs[j], kind) && (forall|k: int|
                j < k < outputs.len() ==> !free_of_kind(#[trigger] outputs[k], kind)) ==> outputs[j].required_address(
                slot,
                range,
            ) != Some(addr),
{
    lemma_last_free_of_kind_is(outputs, OutputKind::Account);
    lemma_last_free_of_kind_is(outputs, OutputKind::Basic);
    lemma_last_free_of_kind_is(outputs, OutputKind::Nft);
    if let Some(i) = output_for_added_mana(outputs, addr, slot, range) {
        assert forall|j: int, kind: OutputKind|
            0 <= j < outputs.len() && (kind == OutputKind::Account || (kind == OutputKind::Basic
                && outputs[i].kind == OutputKind::Nft)) && kind != outputs[i].kind && #[trigger] free_of_kind(
                outputs[j],
                kind,
            ) && (forall|k: int| j < k < outputs.len() ==> !free_of_kind(#[trigger] outputs[k], kind))
                implies outputs[j].required_address(slot, range) != Some(addr) by {
            lemma_last_free_of_kind_is(outputs, kind);
            match last_free_of_kind(outputs, kind) {
                Some(l) => {
                    if l < j {
                        assert(!free_of_kind(outputs[j], kind));
                    } else if j < l {
                        assert(!free_of_kind(outputs[l], kind));
                    }
                },
                None => {},
            }
        }
    }
    if output_for_added_mana(outputs, addr, slot, range) is None {
        assert forall|j: int, kind: OutputKind|
            0 <= j < outputs.len() && (kind == OutputKind::Account || kind == OutputKind::Basic || kind
                == OutputKind::Nft) && #[trigger] free_of_kind(outputs[j], kind) && (forall|k: int|
                j < k < outputs.len() ==> !free_of_kind(#[trigger] outputs[k], kind)) implies outputs[j].required_address(
            slot,
            range,
        ) != Some(addr) by {
            lemma_last_free_of_kind_is(outputs, kind);
            match last_free_of_kind(outputs, kind) {
                Some(i) => {
                    if i < j {
                        assert(!free_of_kind(outputs[j], kind));
                    } else if j < i {
                        assert(!free_of_kind(outputs[i], kind));
                    }
                },
                None => {},
            }
        }
    }
}

} // verus!
