//! Working through the requirements of a selection: each requirement for an address, an
//! account, an nft or a delegation is fulfilled by the rules of its kind and the picked
//! input is selected, which may add the requirement of the account or nft that unlocks
//! it. The amount, mana, native token and foundry requirements need figures that the
//! protocol's rules give, and are handed back to the caller.

use vstd::prelude::*;

use crate::amount::inputs_view;
use crate::ledger::{AddressKind, AddressV, CommittableAgeRange, InputSigningData, InputV};
use crate::ordered_inputs::{lemma_insert_all, OrderedInputs, OrderedInputsV};
use crate::requirement::{Requirement, RequirementV};
use crate::selection::{
    account_with, all_unlockable, already_by, basic_backed_by, delegation_with, ed25519_pick, first_where,
    fulfil_outcome, fulfil_view, fulfill_account_requirement, fulfill_delegation_requirement,
    fulfill_ed25519_requirement, fulfill_issuer_requirement, fulfill_nft_requirement,
    fulfill_sender_requirement, lemma_first_where, lemma_take_at_keeps_inputs, nft_with, other_backed_by,
    requirements_view, select_input, sender_outcome, take_at, unlocked_by, SelectionError, SelectionErrorV,
    INPUT_COUNT_MAX,
};

verus! {

/// Whether a selected input is unlocked by the Ed25519 address `a`, or is backed by its
/// key hash.
pub open spec fn ed25519_met(all: Seq<InputV>, a: AddressV, slot: u32, range: CommittableAgeRange) -> bool {
    already_by(all, unlocked_by(a, slot, range)) || already_by(all, basic_backed_by(a, slot, range))
        || already_by(all, other_backed_by(a, slot, range))
}

/// Whether the selected inputs meet a sender or issuer requirement for `a`: through its
/// inner address, an Ed25519 one as above, or the account or nft of an account or nft
/// address.
pub open spec fn address_met(all: Seq<InputV>, a: AddressV, slot: u32, range: CommittableAgeRange) -> bool {
    let a = a.inner();
    match a.kind {
        AddressKind::Ed25519 => ed25519_met(all, a, slot, range),
        AddressKind::Account => already_by(all, account_with(a.id)),
        AddressKind::Nft => already_by(all, nft_with(a.id)),
        _ => false,
    }
}

/// Whether the requirement is one that `fulfill_requirement` works through.
pub open spec fn fulfilled_here(q: RequirementV) -> bool {
    match q {
        RequirementV::Sender(_) | RequirementV::Issuer(_) | RequirementV::Ed25519(_) | RequirementV::Account(_)
        | RequirementV::Nft(_) | RequirementV::Delegation(_) => true,
        _ => false,
    }
}

/// Whether the selected inputs meet the requirement.
pub open spec fn requirement_met(q: RequirementV, all: Seq<InputV>, slot: u32, range: CommittableAgeRange) -> bool {
    match q {
        RequirementV::Sender(a) => address_met(all, a, slot, range),
        RequirementV::Issuer(a) => address_met(all, a, slot, range),
        RequirementV::Ed25519(a) => ed25519_met(all, a, slot, range),
        RequirementV::Account(id) => already_by(all, account_with(id)),
        RequirementV::Nft(id) => already_by(all, nft_with(id)),
        RequirementV::Delegation(id) => already_by(all, delegation_with(id)),
        _ => false,
    }
}

/// An element of a list's multiset is at some position of the list.
proof fn lemma_in_list(s: Seq<InputV>, x: InputV, p: spec_fn(InputV) -> bool)
    requires
        s.to_multiset().count(x) > 0,
        p(x),
    ensures
        already_by(s, p),
{
    broadcast use vstd::seq_lib::group_to_multiset_ensures;

    assert(s.contains(x));
    let k = choose|k: int| 0 <= k < s.len() && s[k] == x;
    assert(p(s[k]));
}

/// What a fulfilment that picks at most one input gives: no input where the requirement is
/// met already, else the picked one, which `p` accepts; the remaining available inputs
/// with the picked ones are those before, and every one of them is unlocked.
proof fn lemma_fulfilled(
    already: bool,
    pick: Option<int>,
    avail: Seq<InputV>,
    e: SelectionErrorV,
    v: Seq<InputV>,
    after: Seq<InputV>,
    p: spec_fn(InputV) -> bool,
    slot: u32,
    range: CommittableAgeRange,
)
    requires
        fulfil_outcome(already, pick, avail, e, Ok(v), after),
        pick matches Some(i) ==> 0 <= i < avail.len() && p(avail[i]),
        all_unlockable(avail, slot, range),
    ensures
        v.len() <= 1,
        v.len() == 0 ==> already,
        v.len() == 1 ==> p(v[0]) && v[0].output.required_address(slot, range) is Some,
        (after + v).to_multiset() == avail.to_multiset(),
        all_unlockable(after, slot, range),
{
    if already {
        assert(after + v =~= avail);
    } else {
        let i = pick->0;
        lemma_take_at_keeps_inputs(avail, i);
        assert(after + v =~= take_at(avail, i).push(avail[i]));
        assert forall|k: int| 0 <= k < after.len() implies (#[trigger] after[k]).output.required_address(
            slot,
            range,
        ) is Some by {
            if k == i {
                assert(after[k] == avail[avail.len() - 1]);
            } else {
                assert(after[k] == avail[k]);
            }
        }
    }
}

/// The inputs that an Ed25519 requirement picks: those whose unlocking address the key
/// hash of `a` backs.
pub open spec fn backed_by(a: AddressV, slot: u32, range: CommittableAgeRange) -> spec_fn(InputV) -> bool {
    |x: InputV| basic_backed_by(a, slot, range)(x) || other_backed_by(a, slot, range)(x)
}

/// Where an Ed25519 requirement picks an input, the address backs it.
proof fn lemma_ed25519_pick(s: Seq<InputV>, a: AddressV, slot: u32, range: CommittableAgeRange)
    ensures
        ed25519_pick(s, a, slot, range) matches Some(i) ==> 0 <= i < s.len() && backed_by(a, slot, range)(s[i]),
{
    lemma_first_where(s, basic_backed_by(a, slot, range));
    lemma_first_where(s, other_backed_by(a, slot, range));
}

/// An input backed by the key hash of `a` meets the Ed25519 requirement of `a`.
proof fn lemma_backed_meets(s: Seq<InputV>, a: AddressV, slot: u32, range: CommittableAgeRange)
    requires
        already_by(s, backed_by(a, slot, range)),
    ensures
        ed25519_met(s, a, slot, range),
{
    let i = choose|i: int| 0 <= i < s.len() && backed_by(a, slot, range)(#[trigger] s[i]);
    if basic_backed_by(a, slot, range)(s[i]) {
        assert(already_by(s, basic_backed_by(a, slot, range)));
    } else {
        assert(already_by(s, other_backed_by(a, slot, range)));
    }
}

/// The inputs that a sender or issuer requirement for `a` picks.
pub open spec fn address_pick(a: AddressV, slot: u32, range: CommittableAgeRange) -> spec_fn(InputV) -> bool {
    let a = a.inner();
    match a.kind {
        AddressKind::Ed25519 => backed_by(a, slot, range),
        AddressKind::Account => account_with(a.id),
        AddressKind::Nft => nft_with(a.id),
        _ => |x: InputV| false,
    }
}

/// What a sender requirement that succeeds gives: as `lemma_fulfilled`, through the
/// requirement of the kind of its inner address.
proof fn lemma_address_fulfilled(
    a: AddressV,
    sel: Seq<InputV>,
    avail: Seq<InputV>,
    v: Seq<InputV>,
    after: Seq<InputV>,
    slot: u32,
    range: CommittableAgeRange,
    allow_additional: bool,
)
    requires
        sender_outcome(a, sel, avail, slot, range, allow_additional, Ok(v), after),
        all_unlockable(avail, slot, range),
    ensures
        v.len() <= 1,
        v.len() == 0 ==> address_met(sel, a, slot, range),
        v.len() == 1 ==> address_pick(a, slot, range)(v[0]) && v[0].output.required_address(slot, range) is Some,
        (after + v).to_multiset() == avail.to_multiset(),
        all_unlockable(after, slot, range),
{
    let ai = a.inner();
    let e = SelectionErrorV::UnfulfillableRequirement(RequirementV::Sender(ai));
    match ai.kind {
        AddressKind::Ed25519 => {
            lemma_ed25519_pick(avail, ai, slot, range);
            lemma_fulfilled(
                already_by(sel, unlocked_by(ai, slot, range)),
                ed25519_pick(avail, ai, slot, range),
                avail,
                e,
                v,
                after,
                backed_by(ai, slot, range),
                slot,
                range,
            );
        },
        AddressKind::Account => {
            lemma_first_where(avail, account_with(ai.id));
            lemma_fulfilled(
                already_by(sel, account_with(ai.id)),
                first_where(avail, account_with(ai.id)),
                avail,
                e,
                v,
                after,
                account_with(ai.id),
                slot,
                range,
            );
        },
        AddressKind::Nft => {
            lemma_first_where(avail, nft_with(ai.id));
            lemma_fulfilled(
                already_by(sel, nft_with(ai.id)),
                first_where(avail, nft_with(ai.id)),
                avail,
                e,
                v,
                after,
                nft_with(ai.id),
                slot,
                range,
            );
        },
        _ => {},
    }
}

/// Fulfils one requirement for an address, an account, an nft or a delegation (see
/// `fulfilled_here`) and selects the input it picks, if any; any other requirement is left
/// to the caller and nothing changes (`Ok(false)`). Where selecting more inputs is
/// disabled, an nft requirement that is not met yet fails. On success the selected inputs
/// meet the requirement, no input is lost or duplicated between the available and the
/// selected ones, and the requirement of the account or nft that unlocks the picked input
/// is added.
pub fn fulfill_requirement(
    available: &mut Vec<InputSigningData>,
    selected: &mut OrderedInputs,
    requirements: &mut Vec<Requirement>,
    requirement: &Requirement,
    slot: u32,
    range: CommittableAgeRange,
    allow_additional: bool,
) -> (r: Result<bool, SelectionError>)
    requires
        old(selected)@.wf(),
        old(selected)@.len <= INPUT_COUNT_MAX,
        all_unlockable(inputs_view(old(available)@), slot, range),
    ensures
        final(selected)@.wf(),
        final(selected)@.len <= INPUT_COUNT_MAX,
        !fulfilled_here(requirement@) ==> r == Ok::<bool, SelectionError>(false) && final(available)@ == old(
            available,
        )@ && final(selected)@ == old(selected)@ && final(requirements)@ == old(requirements)@,
        fulfilled_here(requirement@) ==> !(r matches Ok(false)),
        r is Ok ==> {
            &&& all_unlockable(inputs_view(final(available)@), slot, range)
            &&& (inputs_view(final(available)@) + final(selected)@.all()).to_multiset() == (inputs_view(
                old(available)@,
            ) + old(selected)@.all()).to_multiset()
            &&& requirements_view(old(requirements)@).is_prefix_of(requirements_view(final(requirements)@))
        },
        r matches Ok(true) ==> requirement_met(requirement@, final(selected)@.all(), slot, range),
        r is Ok ==> forall|x: InputV|
            old(selected)@.all().to_multiset().count(x) <= #[trigger] final(selected)@.all().to_multiset().count(x),
        r is Ok ==> final(available)@.len() <= old(available)@.len(),
        r is Ok ==> final(available)@.len() < old(available)@.len() || final(requirements)@.len()
            == old(requirements)@.len(),
{
    let ghost av0 = inputs_view(available@);
    let ghost sel0 = selected@.all();
    let ghost q = requirement@;
    let sel_list = selected.iter();
    let ghost mut pred: spec_fn(InputV) -> bool;
    let res = match requirement {
        Requirement::Ed25519(a) => {
            let r = fulfill_ed25519_requirement(available, &sel_list, a, slot, range);
            proof {
                pred = backed_by(a@, slot, range);
                lemma_ed25519_pick(av0, a@, slot, range);
                if let Ok(v) = &r {
                    lemma_fulfilled(
                        already_by(sel0, unlocked_by(a@, slot, range)),
                        ed25519_pick(av0, a@, slot, range),
                        av0,
                        SelectionErrorV::UnfulfillableRequirement(RequirementV::Ed25519(a@)),
                        inputs_view(v@),
                        inputs_view(available@),
                        pred,
                        slot,
                        range,
                    );
                }
                assert forall|s: Seq<InputV>| already_by(s, pred) implies requirement_met(q, s, slot, range) by {
                    lemma_backed_meets(s, a@, slot, range);
                }
            }
            r
        },
        Requirement::Account(id) => {
            let r = fulfill_account_requirement(available, &sel_list, id);
            proof {
                pred = account_with(id@);
                assert(forall|s: Seq<InputV>| already_by(s, pred) ==> requirement_met(q, s, slot, range));
                lemma_first_where(av0, pred);
                if let Ok(v) = &r {
                    lemma_fulfilled(
                        already_by(sel0, pred),
                        first_where(av0, pred),
                        av0,
                        SelectionErrorV::UnfulfillableRequirement(RequirementV::Account(id@)),
                        inputs_view(v@),
                        inputs_view(available@),
                        pred,
                        slot,
                        range,
                    );
                }
            }
            r
        },
        Requirement::Nft(id) => {
            let r = fulfill_nft_requirement(available, &sel_list, id, allow_additional);
            proof {
                pred = nft_with(id@);
                assert(forall|s: Seq<InputV>| already_by(s, pred) ==> requirement_met(q, s, slot, range));
                lemma_first_where(av0, pred);
                if let Ok(v) = &r {
                    lemma_fulfilled(
                        already_by(sel0, pred),
                        first_where(av0, pred),
                        av0,
                        SelectionErrorV::UnfulfillableRequirement(RequirementV::Nft(id@)),
                        inputs_view(v@),
                        inputs_view(available@),
                        pred,
                        slot,
                        range,
                    );
                }
            }
            r
        },
        Requirement::Delegation(id) => {
            let r = fulfill_delegation_requirement(available, &sel_list, id);
            proof {
                pred = delegation_with(id@);
                assert(forall|s: Seq<InputV>| already_by(s, pred) ==> requirement_met(q, s, slot, range));
                lemma_first_where(av0, pred);
                if let Ok(v) = &r {
                    lemma_fulfilled(
                        already_by(sel0, pred),
                        first_where(av0, pred),
                        av0,
                        SelectionErrorV::UnfulfillableRequirement(RequirementV::Delegation(id@)),
                        inputs_view(v@),
                        inputs_view(available@),
                        pred,
                        slot,
                        range,
                    );
                }
            }
            r
        },
        Requirement::Sender(a) => {
            let r = fulfill_sender_requirement(available, &sel_list, a, slot, range, allow_additional);
            proof {
                pred = address_pick(a@, slot, range);
                assert forall|s: Seq<InputV>| already_by(s, pred) implies requirement_met(q, s, slot, range) by {
                    if a@.inner().kind == AddressKind::Ed25519 {
                        lemma_backed_meets(s, a@.inner(), slot, range);
                    }
                }
                if let Ok(v) = &r {
                    lemma_address_fulfilled(a@, sel0, av0, inputs_view(v@), inputs_view(available@), slot, range, allow_additional);
                }
            }
            r
        },
        Requirement::Issuer(a) => {
            let r = fulfill_issuer_requirement(available, &sel_list, a, slot, range, allow_additional);
            proof {
                pred = address_pick(a@, slot, range);
                assert forall|s: Seq<InputV>| already_by(s, pred) implies requirement_met(q, s, slot, range) by {
                    if a@.inner().kind == AddressKind::Ed25519 {
                        lemma_backed_meets(s, a@.inner(), slot, range);
                    }
                }
                if let Ok(v) = &r {
                    let r0 = choose|r0: Result<Seq<InputV>, SelectionErrorV>|
                        sender_outcome(a@, sel0, av0, slot, range, allow_additional, r0, inputs_view(available@))
                            && fulfil_view(r) == match r0 {
                            Err(SelectionErrorV::UnfulfillableRequirement(RequirementV::Sender(_))) => Err(
                                SelectionErrorV::UnfulfillableRequirement(RequirementV::Issuer(a@)),
                            ),
                            _ => r0,
                        };
                    assert(r0 == Ok::<Seq<InputV>, SelectionErrorV>(inputs_view(v@)));
                    lemma_address_fulfilled(a@, sel0, av0, inputs_view(v@), inputs_view(available@), slot, range, allow_additional);
                }
            }
            r
        },
        _ => {
            return Ok(false);
        },
    };
    let mut picked = match res {
        Err(e) => {
            return Err(e);
        },
        Ok(v) => v,
    };
    let ghost avail_after = inputs_view(available@);
    let ghost req0 = requirements_view(requirements@);
    let ghost v = inputs_view(picked@);
    proof {
        assert(v.len() <= 1);
        assert(forall|s: Seq<InputV>| already_by(s, pred) ==> requirement_met(q, s, slot, range));
        assert(v.len() == 0 ==> requirement_met(q, sel0, slot, range));
        assert(v.len() == 1 ==> pred(v[0]) && v[0].output.required_address(slot, range) is Some);
        assert((avail_after + v).to_multiset() == av0.to_multiset());
        assert(all_unlockable(avail_after, slot, range));
    }
    if picked.len() == 1 {
        let x = picked.pop().unwrap();
        let ghost xv = x@;
        proof {
            assert(xv == v[0]);
            assert(v =~= seq![xv]);
        }
        let ghost before = selected@;
        match select_input(selected, requirements, x, slot, range) {
            Err(e) => {
                return Err(e);
            },
            Ok(()) => {},
        }
        proof {
            lemma_insert_all(before, xv.output.required_address(slot, range)->0, xv);
            lemma_in_list(selected@.all(), xv, pred);
            assert((avail_after + seq![xv]).to_multiset() == av0.to_multiset());
            vstd::seq_lib::lemma_multiset_commutative(av0, sel0);
            vstd::seq_lib::lemma_multiset_commutative(avail_after, selected@.all());
            vstd::seq_lib::lemma_multiset_commutative(avail_after, seq![xv]);
            assert(seq![xv].to_multiset() =~= vstd::multiset::Multiset::empty().insert(xv)) by {
                vstd::seq_lib::to_multiset_build(Seq::<InputV>::empty(), xv);
                assert(Seq::<InputV>::empty().push(xv) =~= seq![xv]);
                vstd::seq_lib::to_multiset_len(Seq::<InputV>::empty());
                vstd::multiset::lemma_multiset_empty_len(Seq::<InputV>::empty().to_multiset());
            }
            assert(req0.is_prefix_of(requirements_view(requirements@)));
            vstd::seq_lib::to_multiset_len(avail_after + seq![xv]);
            vstd::seq_lib::to_multiset_len(av0);
        }
    } else {
        proof {
            assert(inputs_view(picked@) =~= Seq::<InputV>::empty());
            assert(avail_after + Seq::<InputV>::empty() =~= avail_after);
            assert(req0.is_prefix_of(req0));
        }
    }
    Ok(true)
}

/// A requirement that the selected inputs meet stays met when more inputs are selected.
proof fn lemma_met_grows(q: RequirementV, s: Seq<InputV>, t: Seq<InputV>, slot: u32, range: CommittableAgeRange)
    requires
        requirement_met(q, s, slot, range),
        forall|x: InputV| s.to_multiset().count(x) <= #[trigger] t.to_multiset().count(x),
    ensures
        requirement_met(q, t, slot, range),
{
    broadcast use vstd::seq_lib::group_to_multiset_ensures;

    assert forall|p: spec_fn(InputV) -> bool| #[trigger] already_by(s, p) implies already_by(t, p) by {
        let i = choose|i: int| 0 <= i < s.len() && p(#[trigger] s[i]);
        assert(s.contains(s[i]));
        assert(t.to_multiset().count(s[i]) > 0);
        lemma_in_list(t, s[i], p);
    }
}

/// Works through the pending requirements, last first, with `fulfill_requirement`, until
/// none is left (`Ok(None)`) or one comes that needs the caller (`Ok(Some(..))`, taken off
/// the pending ones). No input is lost or duplicated between the available and the
/// selected ones; where none is left, the selected inputs meet every requirement that was
/// pending at the start and is worked through here.
pub fn fulfill_requirements(
    available: &mut Vec<InputSigningData>,
    selected: &mut OrderedInputs,
    requirements: &mut Vec<Requirement>,
    slot: u32,
    range: CommittableAgeRange,
    allow_additional: bool,
) -> (r: Result<Option<Requirement>, SelectionError>)
    requires
        old(selected)@.wf(),
        old(selected)@.len <= INPUT_COUNT_MAX,
        all_unlockable(inputs_view(old(available)@), slot, range),
    ensures
        final(selected)@.wf(),
        final(selected)@.len <= INPUT_COUNT_MAX,
        r is Ok ==> {
            &&& all_unlockable(inputs_view(final(available)@), slot, range)
            &&& (inputs_view(final(available)@) + final(selected)@.all()).to_multiset() == (inputs_view(
                old(available)@,
            ) + old(selected)@.all()).to_multiset()
        },
        r matches Ok(Some(q)) ==> !fulfilled_here(q@),
        r matches Ok(None) ==> final(requirements)@.len() == 0 && forall|j: int|
            0 <= j < old(requirements)@.len() && fulfilled_here(#[trigger] old(requirements)@[j]@) ==> requirement_met(
                old(requirements)@[j]@,
                final(selected)@.all(),
                slot,
                range,
            ),
{
    let ghost req0 = requirements_view(requirements@);
    let ghost n = req0.len();
    let ghost av0 = inputs_view(available@);
    let ghost sel0 = selected@.all();
    let ghost mut m: int = n as int;
    let ghost mut done: Seq<RequirementV> = Seq::empty();
    loop
        invariant
            req0 == requirements_view(old(requirements)@),
            av0 == inputs_view(old(available)@),
            sel0 == old(selected)@.all(),
            selected@.wf(),
            selected@.len <= INPUT_COUNT_MAX,
            all_unlockable(inputs_view(available@), slot, range),
            (inputs_view(available@) + selected@.all()).to_multiset() == (av0 + sel0).to_multiset(),
            0 <= m <= n,
            n == req0.len(),
            m <= requirements@.len(),
            requirements_view(requirements@).take(m) == req0.take(m),
            forall|j: int| m <= j < n ==> #[trigger] done.contains(req0[j]),
            forall|k: int|
                0 <= k < done.len() && fulfilled_here(#[trigger] done[k]) ==> requirement_met(
                    done[k],
                    selected@.all(),
                    slot,
                    range,
                ),
        decreases available@.len(), requirements@.len(),
    {
        let ghost before = requirements_view(requirements@);
        let ghost sel_before = selected@.all();
        let ghost av_before = available@.len();
        let q = match requirements.pop() {
            None => {
                proof {
                    assert forall|j: int|
                        0 <= j < old(requirements)@.len() && fulfilled_here(#[trigger] old(requirements)@[j]@)
                            implies requirement_met(old(requirements)@[j]@, selected@.all(), slot, range) by {
                        assert(old(requirements)@[j]@ == req0[j]);
                        assert(done.contains(req0[j]));
                        let k = choose|k: int| 0 <= k < done.len() && done[k] == req0[j];
                    }
                }
                return Ok(None);
            },
            Some(q) => q,
        };
        let ghost after_pop = requirements_view(requirements@);
        proof {
            assert(before =~= after_pop.push(q@));
        }
        match fulfill_requirement(available, selected, requirements, &q, slot, range, allow_additional) {
            Err(e) => {
                return Err(e);
            },
            Ok(false) => {
                return Ok(Some(q));
            },
            Ok(true) => {},
        }
        proof {
            let m0 = m;
            if after_pop.len() < m {
                assert(q@ == before[m - 1]);
                assert(before.take(m) == req0.take(m));
                assert(before.take(m)[m - 1] == before[m - 1]);
                m = m - 1;
            }
            assert(after_pop.take(m) =~= before.take(m));
            assert(before.take(m0).take(m) =~= before.take(m));
            assert(req0.take(m0).take(m) =~= req0.take(m));
            let now = requirements_view(requirements@);
            assert(after_pop.is_prefix_of(now));
            assert(now.take(m) =~= after_pop.take(m));
            let done0 = done;
            done = done.push(q@);
            assert forall|j: int| m <= j < n implies #[trigger] done.contains(req0[j]) by {
                if j == m && m < m0 {
                    assert(done[done.len() - 1] == req0[j]);
                } else {
                    assert(done0.contains(req0[j]));
                    let k = choose|k: int| 0 <= k < done0.len() && done0[k] == req0[j];
                    assert(done[k] == req0[j]);
                }
            }
            assert forall|k: int|
                0 <= k < done.len() && fulfilled_here(#[trigger] done[k]) implies requirement_met(
                done[k],
                selected@.all(),
                slot,
                range,
            ) by {
                if k < done.len() - 1 {
                    assert(done[k] == done0[k]);
                    lemma_met_grows(done[k], sel_before, selected@.all(), slot, range);
                }
            }
        }
    }
}

} // verus!
