//! The context inputs that a transaction needs: the block issuance credit of each account
//! that issues blocks, the rewards claimed by inputs, and the slot commitment that time-bound
//! inputs, delegations and block issuance credits refer to.

use vstd::prelude::*;

use crate::amount::{inputs_view, outputs_view};
use crate::ledger::{Id, InputSigningData, InputV, Output, OutputId, OutputIdV, OutputKind, OutputV};
use crate::selection::{contains_output_id, output_ids_view, INPUT_COUNT_MAX};

verus! {

/// A context input.
#[derive(Debug)]
pub enum ContextInput {
    /// The block issuance credit of an account.
    BlockIssuanceCredit(Id),
    /// The slot commitment the transaction refers to.
    Commitment(Id),
    /// The mana rewards claimed by the input at the given index.
    Reward(u16),
}

/// The value of a context input.
pub enum ContextInputV {
    BlockIssuanceCredit(Seq<u8>),
    Commitment(Seq<u8>),
    Reward(nat),
}

impl View for ContextInput {
    type V = ContextInputV;

    open spec fn view(&self) -> ContextInputV {
        match self {
            ContextInput::BlockIssuanceCredit(i) => ContextInputV::BlockIssuanceCredit(i@),
            ContextInput::Commitment(i) => ContextInputV::Commitment(i@),
            ContextInput::Reward(i) => ContextInputV::Reward(*i as nat),
        }
    }
}

impl ContextInput {
    /// Whether both context inputs are equal.
    pub fn same(&self, other: &ContextInput) -> (r: bool)
        ensures
            r == (self@ == other@),
    {
        match (self, other) {
            (ContextInput::BlockIssuanceCredit(a), ContextInput::BlockIssuanceCredit(b)) => a.same(b),
            (ContextInput::Commitment(a), ContextInput::Commitment(b)) => a.same(b),
            (ContextInput::Reward(a), ContextInput::Reward(b)) => *a == *b,
            _ => false,
        }
    }
}

/// The values of a list of context inputs.
pub open spec fn contexts_view(s: Seq<ContextInput>) -> Seq<ContextInputV> {
    s.map_values(|c: ContextInput| c@)
}

/// The block issuance credit that selecting `x` asks for: that of an account that issues
/// blocks, or that of the account an implicit account becomes.
pub open spec fn credit_of(x: InputV) -> Option<Seq<u8>> {
    if x.output.kind == OutputKind::Account && x.output.block_issuer is Some {
        Some(x.output.chain_id_non_null(x.output_id))
    } else if x.output.is_implicit_account() {
        Some(x.output_id.derived_chain_id())
    } else {
        None
    }
}

/// Whether the input is bound in time: it has a timelock or an expiration.
pub open spec fn time_bound(x: InputV) -> bool {
    x.output.timelock is Some || x.output.expiration is Some
}

/// The context inputs after those that the selected inputs ask for are added: a block
/// issuance credit per block issuing account, and a reward input per input that claims
/// rewards. Also whether a commitment is needed for an input.
pub open spec fn input_contexts(
    ctx: Set<ContextInputV>,
    selected: Seq<InputV>,
    rewards: Seq<OutputIdV>,
) -> (Set<ContextInputV>, bool)
    decreases selected.len(),
{
    if selected.len() == 0 {
        (ctx, false)
    } else {
        let (c, needs) = input_contexts(ctx, selected.drop_last(), rewards);
        let x = selected.last();
        let idx = (selected.len() - 1) as nat;
        let c1 = match credit_of(x) {
            Some(a) => c.insert(ContextInputV::BlockIssuanceCredit(a)),
            None => c,
        };
        let claims = rewards.contains(x.output_id);
        let c2 = if claims {
            c1.insert(ContextInputV::Reward(idx))
        } else {
            c1
        };
        (c2, needs || time_bound(x) || claims)
    }
}

/// Whether some output is a delegation.
pub open spec fn has_delegation(outputs: Seq<OutputV>) -> bool {
    exists|i: int| 0 <= i < outputs.len() && #[trigger] outputs[i].kind == OutputKind::Delegation
}

/// Whether the set holds a block issuance credit.
pub open spec fn has_credit(ctx: Set<ContextInputV>) -> bool {
    exists|c: ContextInputV| ctx.contains(c) && c is BlockIssuanceCredit
}

/// Whether the set holds a commitment.
pub open spec fn has_commitment(ctx: Set<ContextInputV>) -> bool {
    exists|c: ContextInputV| ctx.contains(c) && c is Commitment
}

/// The context inputs of the transaction once the selected inputs are in: those the inputs
/// ask for, and the latest slot commitment where an input is bound in time or claims
/// rewards, an output is a delegation, or a block issuance credit is among them, unless a
/// commitment is there already.
pub open spec fn context_inputs_spec(
    ctx: Set<ContextInputV>,
    selected: Seq<InputV>,
    rewards: Seq<OutputIdV>,
    outputs: Seq<OutputV>,
    commitment: Seq<u8>,
) -> Set<ContextInputV> {
    let (c, needs) = input_contexts(ctx, selected, rewards);
    let needs = needs || has_delegation(outputs) || has_credit(c);
    if needs && !has_commitment(c) {
        c.insert(ContextInputV::Commitment(commitment))
    } else {
        c
    }
}

/// Adds a context input to a list of distinct context inputs, unless it is there.
fn insert_context(v: &mut Vec<ContextInput>, c: ContextInput)
    ensures
        contexts_view(final(v)@).to_set() == contexts_view(old(v)@).to_set().insert(c@),
{
    let ghost s0 = contexts_view(v@);
    let mut i: usize = 0;
    while i < v.len()
        invariant
            i <= v@.len(),
            v@ == old(v)@,
            s0 == contexts_view(v@),
            forall|j: int| 0 <= j < i ==> s0[j] != c@,
        decreases v@.len() - i,
    {
        if v[i].same(&c) {
            proof {
                assert(s0[i as int] == c@);
                assert(s0.to_set().insert(c@) =~= s0.to_set());
            }
            return;
        }
        i = i + 1;
    }
    let ghost cv = c@;
    v.push(c);
    proof {
        assert(contexts_view(v@) =~= s0.push(cv));
        s0.lemma_push_to_set_commute(cv);
    }
}

/// Whether some output is a delegation.
fn holds_delegation(outputs: &Vec<Output>) -> (r: bool)
    ensures
        r == has_delegation(outputs_view(outputs@)),
{
    let ghost outs = outputs_view(outputs@);
    let mut j: usize = 0;
    while j < outputs.len()
        invariant
            j <= outputs@.len(),
            outs == outputs_view(outputs@),
            forall|k: int| 0 <= k < j ==> outs[k].kind != OutputKind::Delegation,
        decreases outputs@.len() - j,
    {
        if outputs[j].kind == OutputKind::Delegation {
            assert(outs[j as int].kind == OutputKind::Delegation);
            return true;
        }
        j = j + 1;
    }
    false
}

/// Whether the list holds a block issuance credit.
fn holds_credit(v: &Vec<ContextInput>) -> (r: bool)
    ensures
        r == has_credit(contexts_view(v@).to_set()),
{
    let ghost s = contexts_view(v@);
    let mut i: usize = 0;
    while i < v.len()
        invariant
            i <= v@.len(),
            s == contexts_view(v@),
            forall|j: int| 0 <= j < i ==> !(s[j] is BlockIssuanceCredit),
        decreases v@.len() - i,
    {
        match &v[i] {
            ContextInput::BlockIssuanceCredit(_) => {
                assert(s.to_set().contains(s[i as int]));
                return true;
            },
            _ => {},
        }
        i = i + 1;
    }
    proof {
        if has_credit(s.to_set()) {
            let c = choose|c: ContextInputV| s.to_set().contains(c) && c is BlockIssuanceCredit;
            assert(s.contains(c));
        }
    }
    false
}

/// Whether the list holds a commitment.
fn holds_commitment(v: &Vec<ContextInput>) -> (r: bool)
    ensures
        r == has_commitment(contexts_view(v@).to_set()),
{
    let ghost s = contexts_view(v@);
    let mut i: usize = 0;
    while i < v.len()
        invariant
            i <= v@.len(),
            s == contexts_view(v@),
            forall|j: int| 0 <= j < i ==> !(s[j] is Commitment),
        decreases v@.len() - i,
    {
        match &v[i] {
            ContextInput::Commitment(_) => {
                assert(s.to_set().contains(s[i as int]));
                return true;
            },
            _ => {},
        }
        i = i + 1;
    }
    proof {
        if has_commitment(s.to_set()) {
            let c = choose|c: ContextInputV| s.to_set().contains(c) && c is Commitment;
            assert(s.contains(c));
        }
    }
    false
}

/// Adds the context inputs that the selected inputs and the outputs need; see
/// `context_inputs_spec`. No further input is selected for them.
pub fn fulfill_context_inputs_requirement(
    context_inputs: &mut Vec<ContextInput>,
    selected: &Vec<InputSigningData>,
    rewards: &Vec<OutputId>,
    outputs: &Vec<Output>,
    commitment: &Id,
) -> (r: Vec<InputSigningData>)
    requires
        selected@.len() <= INPUT_COUNT_MAX,
    ensures
        contexts_view(final(context_inputs)@).to_set() == context_inputs_spec(
            contexts_view(old(context_inputs)@).to_set(),
            inputs_view(selected@),
            output_ids_view(rewards@),
            outputs_view(outputs@),
            commitment@,
        ),
        r@.len() == 0,
{
    let ghost ctx0 = contexts_view(context_inputs@).to_set();
    let ghost ins = inputs_view(selected@);
    let ghost rv = output_ids_view(rewards@);
    let mut needs = false;
    let mut i: usize = 0;
    assert(ins.take(0) =~= Seq::<InputV>::empty());
    while i < selected.len()
        invariant
            i <= selected@.len(),
            selected@.len() <= INPUT_COUNT_MAX,
            ins == inputs_view(selected@),
            rv == output_ids_view(rewards@),
            input_contexts(ctx0, ins.take(i as int), rv) == (contexts_view(context_inputs@).to_set(), needs),
        decreases selected@.len() - i,
    {
        proof {
            assert(ins.take(i + 1).drop_last() =~= ins.take(i as int));
            assert(ins.take(i + 1).last() == selected@[i as int]@);
        }
        let x = &selected[i];
        if x.output.kind == OutputKind::Account && x.output.block_issuer.is_some() {
            insert_context(context_inputs, ContextInput::BlockIssuanceCredit(x.output.chain_id_non_null_exec(&x.output_id)));
        } else if x.output.is_implicit_account_exec() {
            insert_context(context_inputs, ContextInput::BlockIssuanceCredit(x.output_id.derived_chain_id()));
        }
        if x.output.timelock.is_some() || x.output.expiration.is_some() {
            needs = true;
        }
        if contains_output_id(rewards, &x.output_id) {
            insert_context(context_inputs, ContextInput::Reward(i as u16));
            needs = true;
        }
        i = i + 1;
    }
    assert(ins.take(i as int) =~= ins);
    if holds_delegation(outputs) {
        needs = true;
    }
    if holds_credit(context_inputs) {
        needs = true;
    }
    if needs && !holds_commitment(context_inputs) {
        insert_context(context_inputs, ContextInput::Commitment(commitment.clone()));
    }
    Vec::new()
}

/// Whether `c` is a context input that the selected inputs ask for: the block issuance
/// credit of a selected account that issues blocks or of the account that a selected
/// implicit account becomes, or the reward input at the index of a selected input that
/// claims rewards.
pub open spec fn asked_by_inputs(c: ContextInputV, selected: Seq<InputV>, rewards: Seq<OutputIdV>) -> bool {
    exists|i: int|
        0 <= i < selected.len() && {
            ||| ((#[trigger] selected[i]).output.kind == OutputKind::Account && selected[i].output.block_issuer is Some
                && c == ContextInputV::BlockIssuanceCredit(selected[i].output.chain_id_non_null(selected[i].output_id)))
            ||| (selected[i].output.is_implicit_account() && c == ContextInputV::BlockIssuanceCredit(
                selected[i].output_id.derived_chain_id(),
            ))
            ||| (rewards.contains(selected[i].output_id) && c == ContextInputV::Reward(i as nat))
        }
}

proof fn lemma_input_contexts_is(ctx: Set<ContextInputV>, selected: Seq<InputV>, rewards: Seq<OutputIdV>)
    ensures
        ({
            let (c, needs) = input_contexts(ctx, selected, rewards);
            &&& ctx.subset_of(c)
            &&& needs <==> exists|i: int|
                0 <= i < selected.len() && ((#[trigger] selected[i]).output.timelock is Some
                    || selected[i].output.expiration is Some || rewards.contains(selected[i].output_id))
            &&& forall|i: int|
                0 <= i < selected.len() && (#[trigger] selected[i]).output.kind == OutputKind::Account
                    && selected[i].output.block_issuer is Some ==> c.contains(
                    ContextInputV::BlockIssuanceCredit(selected[i].output.chain_id_non_null(selected[i].output_id)),
                )
            &&& forall|i: int|
                0 <= i < selected.len() && rewards.contains((#[trigger] selected[i]).output_id) ==> c.contains(
                    ContextInputV::Reward(i as nat),
                )
            &&& forall|i: int|
                0 <= i < selected.len() && (#[trigger] selected[i]).output.is_implicit_account() ==> c.contains(
                    ContextInputV::BlockIssuanceCredit(selected[i].output_id.derived_chain_id()),
                )
            &&& forall|x: ContextInputV| #[trigger] c.contains(x) ==> ctx.contains(x) || asked_by_inputs(x, selected, rewards)
        }),
    decreases selected.len(),
{
    if selected.len() > 0 {
        let d = selected.drop_last();
        lemma_input_contexts_is(ctx, d, rewards);
        assert forall|i: int| 0 <= i < selected.len() - 1 implies selected[i] == d[i] by {}
        let (c, needs) = input_contexts(ctx, selected, rewards);
        let (c0, needs0) = input_contexts(ctx, d, rewards);
        assert(c0.subset_of(c));
        assert forall|x: ContextInputV| #[trigger] c.contains(x) implies ctx.contains(x) || asked_by_inputs(
            x,
            selected,
            rewards,
        ) by {
            if c0.contains(x) {
                if !ctx.contains(x) {
                    let i = choose|i: int|
                        0 <= i < d.len() && {
                            ||| ((#[trigger] d[i]).output.kind == OutputKind::Account && d[i].output.block_issuer is Some
                                && x == ContextInputV::BlockIssuanceCredit(d[i].output.chain_id_non_null(d[i].output_id)))
                            ||| (d[i].output.is_implicit_account() && x == ContextInputV::BlockIssuanceCredit(
                                d[i].output_id.derived_chain_id(),
                            ))
                            ||| (rewards.contains(d[i].output_id) && x == ContextInputV::Reward(i as nat))
                        };
                    assert(selected[i] == d[i]);
                }
            } else {
                let i = selected.len() - 1;
                assert(selected[i] == selected.last());
            }
        }
        if needs {
            if !needs0 {
                assert(time_bound(selected.last()) || rewards.contains(selected.last().output_id));
                let i = selected.len() - 1;
                assert(selected[i] == selected.last());
            } else {
                let i = choose|i: int|
                    0 <= i < d.len() && ((#[trigger] d[i]).output.timelock is Some || d[i].output.expiration is Some
                        || rewards.contains(d[i].output_id));
                assert(selected[i] == d[i]);
            }
        }
        if exists|i: int|
            0 <= i < selected.len() && ((#[trigger] selected[i]).output.timelock is Some
                || selected[i].output.expiration is Some || rewards.contains(selected[i].output_id)) {
            let i = choose|i: int|
                0 <= i < selected.len() && ((#[trigger] selected[i]).output.timelock is Some
                    || selected[i].output.expiration is Some || rewards.contains(selected[i].output_id));
            if i < selected.len() - 1 {
                assert(d[i] == selected[i]);
            }
        }
    }
}

/// The context inputs after the requirement keep those given, and hold the block issuance
/// credit of every selected account that issues blocks and of the account of every selected
/// implicit account, a reward input at the index of every selected input that claims
/// rewards, and a commitment wherever a selected input is timelocked, expires or claims
/// rewards, or an output is a delegation; they hold nothing else but the given commitment.
pub proof fn lemma_context_inputs_needed(
    ctx: Set<ContextInputV>,
    selected: Seq<InputV>,
    rewards: Seq<OutputIdV>,
    outputs: Seq<OutputV>,
    commitment: Seq<u8>,
)
    ensures
        ({
            let r = context_inputs_spec(ctx, selected, rewards, outputs, commitment);
            &&& ctx.subset_of(r)
            &&& forall|i: int|
                0 <= i < selected.len() && (#[trigger] selected[i]).output.kind == OutputKind::Account
                    && selected[i].output.block_issuer is Some ==> r.contains(
                    ContextInputV::BlockIssuanceCredit(selected[i].output.chain_id_non_null(selected[i].output_id)),
                )
            &&& forall|i: int|
                0 <= i < selected.len() && rewards.contains((#[trigger] selected[i]).output_id) ==> r.contains(
                    ContextInputV::Reward(i as nat),
                )
            &&& forall|i: int|
                0 <= i < selected.len() && (#[trigger] selected[i]).output.is_implicit_account() ==> r.contains(
                    ContextInputV::BlockIssuanceCredit(selected[i].output_id.derived_chain_id()),
                )
            &&& forall|x: ContextInputV| #[trigger] r.contains(x) ==> ctx.contains(x) || asked_by_inputs(
                x,
                selected,
                rewards,
            ) || x == ContextInputV::Commitment(commitment)
            &&& (exists|i: int|
                0 <= i < selected.len() && ((#[trigger] selected[i]).output.timelock is Some
                    || selected[i].output.expiration is Some || rewards.contains(selected[i].output_id)))
                || (exists|j: int| 0 <= j < outputs.len() && #[trigger] outputs[j].kind == OutputKind::Delegation)
                ==> exists|c: ContextInputV| r.contains(c) && c is Commitment
        }),
{
    lemma_input_contexts_is(ctx, selected, rewards);
    let (c, needs) = input_contexts(ctx, selected, rewards);
    let r = context_inputs_spec(ctx, selected, rewards, outputs, commitment);
    assert(c.subset_of(r));
    if !has_commitment(c) && (needs || has_delegation(outputs) || has_credit(c)) {
        assert(r.contains(ContextInputV::Commitment(commitment)));
    }
}

} // verus!
