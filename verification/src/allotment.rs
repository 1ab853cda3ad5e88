//! The minimum mana allotment: the issuing account allots at least what the block's work
//! score costs at the reference mana cost, and what it allots beyond the allotments asked
//! for is a debt that its own account output pays from its mana.

use vstd::prelude::*;

use crate::amount::outputs_view;
use crate::ledger::{Id, Output, OutputKind, OutputV};
use crate::selection::{first_where, lemma_first_where, lemma_first_where_unique};

verus! {

/// The mana that a block of the given work score costs at the reference mana cost.
pub fn required_allotment_mana(block_work_score: u32, reference_mana_cost: u64) -> (r: u64)
    requires
        block_work_score * reference_mana_cost <= u64::MAX,
    ensures
        r == block_work_score * reference_mana_cost,
{
    (block_work_score as u64) * reference_mana_cost
}

/// The allotments by value.
pub open spec fn allotments_view(s: Seq<(Id, u64)>) -> Seq<(Seq<u8>, nat)> {
    s.map_values(|e: (Id, u64)| (e.0@, e.1 as nat))
}

/// Whether an allotment entry is that of account `id`.
pub open spec fn allotment_of(id: Seq<u8>) -> spec_fn((Seq<u8>, nat)) -> bool {
    |e: (Seq<u8>, nat)| e.0 == id
}

/// The mana allotted to account `id`, zero where nothing is.
pub open spec fn allotted(s: Seq<(Seq<u8>, nat)>, id: Seq<u8>) -> nat {
    match first_where(s, allotment_of(id)) {
        Some(i) => s[i].1,
        None => 0,
    }
}

/// The allotments with `v` allotted to account `id`: in place of its entry, or appended.
pub open spec fn set_allotment(s: Seq<(Seq<u8>, nat)>, id: Seq<u8>, v: nat) -> Seq<(Seq<u8>, nat)> {
    match first_where(s, allotment_of(id)) {
        Some(i) => s.update(i, (id, v)),
        None => s.push((id, v)),
    }
}

/// The allotments and the debt once the issuer allots at least `required`: where it allots
/// less, its allotment is raised to `required` and the raise adds to the debt; otherwise
/// the debt is its whole allotment.
pub open spec fn raised_allotment(s: Seq<(Seq<u8>, nat)>, issuer: Seq<u8>, debt: nat, required: nat) -> (
    Seq<(Seq<u8>, nat)>,
    nat,
) {
    let current = allotted(s, issuer);
    let s1 = set_allotment(s, issuer, current);
    if required > current {
        (set_allotment(s1, issuer, required), (debt + (required - current)) as nat)
    } else {
        (s1, current)
    }
}

/// The position of the allotment of account `id`.
pub(crate) fn find_allotment(s: &Vec<(Id, u64)>, id: &Id) -> (r: Option<usize>)
    ensures
        first_where(allotments_view(s@), allotment_of(id@)) == match r {
            Some(i) => Some(i as int),
            None => None::<int>,
        },
{
    let ghost v = allotments_view(s@);
    let ghost p = allotment_of(id@);
    let mut i: usize = 0;
    while i < s.len()
        invariant
            i <= s@.len(),
            v == allotments_view(s@),
            p == allotment_of(id@),
            forall|j: int| 0 <= j < i ==> !p(#[trigger] v[j]),
        decreases s@.len() - i,
    {
        assert(v[i as int].0 == s@[i as int].0@);
        if s[i].0.same(id) {
            proof {
                lemma_first_where_unique(v, p, i as int);
            }
            return Some(i);
        }
        i = i + 1;
    }
    proof {
        lemma_first_where(v, p);
    }
    None
}

/// Raises the issuer's allotment to at least `required` and updates the allotment debt;
/// see `raised_allotment`.
pub fn raise_issuer_allotment(allotments: &mut Vec<(Id, u64)>, issuer: &Id, debt: &mut u64, required: u64)
    requires
        raised_allotment(allotments_view(old(allotments)@), issuer@, *old(debt) as nat, required as nat).1
            <= u64::MAX,
    ensures
        raised_allotment(allotments_view(old(allotments)@), issuer@, *old(debt) as nat, required as nat) == (
            allotments_view(final(allotments)@),
            *final(debt) as nat,
        ),
{
    let ghost s0 = allotments_view(allotments@);
    let p = match find_allotment(allotments, issuer) {
        Some(p) => {
            proof {
                lemma_first_where(s0, allotment_of(issuer@));
            }
            p
        },
        None => {
            proof {
                lemma_first_where(s0, allotment_of(issuer@));
            }
            allotments.push((issuer.clone(), 0));
            assert(allotments_view(allotments@) =~= s0.push((issuer@, 0nat)));
            allotments.len() - 1
        },
    };
    let ghost s1 = allotments_view(allotments@);
    proof {
        if first_where(s0, allotment_of(issuer@)) is Some {
            assert(s0.update(p as int, (issuer@, s0[p as int].1)) =~= s0);
        }
        lemma_first_where(s1, allotment_of(issuer@));
        assert(s1[p as int].0 == issuer@);
        if first_where(s0, allotment_of(issuer@)) is None {
            assert forall|j: int| 0 <= j < p implies !allotment_of(issuer@)(#[trigger] s1[j]) by {
                assert(s1[j] == s0[j]);
            }
        }
        lemma_first_where_unique(s1, allotment_of(issuer@), p as int);
    }
    let current = allotments[p].1;
    if required > current {
        allotments.set(p, (issuer.clone(), required));
        assert(allotments_view(allotments@) =~= s1.update(p as int, (issuer@, required as nat)));
        *debt = *debt + (required - current);
    } else {
        *debt = current;
    }
}

/// Whether `o` is the issuer's account output and holds mana.
pub open spec fn pays_allotment(o: OutputV, issuer: Seq<u8>) -> bool {
    o.kind == OutputKind::Account && o.mana != 0 && o.chain_id == issuer
}

/// The issuer's account outputs that hold mana.
pub open spec fn payer(issuer: Seq<u8>) -> spec_fn(OutputV) -> bool {
    |o: OutputV| pays_allotment(o, issuer)
}

/// Pays the allotment debt from the mana of the first account output of the issuer that
/// holds mana: the output keeps what the debt leaves of its mana, and the debt keeps what
/// the mana did not cover; so the mana taken from the output is the debt paid.
pub fn reduce_account_output(outputs: &mut Vec<Output>, issuer: &Id, debt: &mut u64)
    ensures
        match first_where(outputs_view(old(outputs)@), payer(issuer@)) {
            Some(i) => {
                let o = outputs_view(old(outputs)@)[i];
                &&& outputs_view(final(outputs)@) == outputs_view(old(outputs)@).update(
                    i,
                    OutputV { mana: if o.mana >= *old(debt) { (o.mana - *old(debt)) as u64 } else { 0 }, ..o },
                )
                &&& *final(debt) == if *old(debt) >= o.mana { (*old(debt) - o.mana) as u64 } else { 0 }
                &&& outputs_view(final(outputs)@)[i].mana + *old(debt) == o.mana + *final(debt)
            },
            None => outputs_view(final(outputs)@) == outputs_view(old(outputs)@) && *final(debt) == *old(debt),
        },
{
    let ghost s = outputs_view(outputs@);
    let ghost p = payer(issuer@);
    let mut i: usize = 0;
    while i < outputs.len()
        invariant
            i <= outputs@.len(),
            outputs@ == old(outputs)@,
            *debt == *old(debt),
            s == outputs_view(outputs@),
            p == payer(issuer@),
            forall|j: int| 0 <= j < i ==> !p(#[trigger] s[j]),
        decreases outputs@.len() - i,
    {
        let o = &outputs[i];
        assert(s[i as int] == o@);
        if o.kind == OutputKind::Account && o.mana != 0 && o.chain_id.same(issuer) {
            proof {
                lemma_first_where_unique(s, p, i as int);
            }
            let mana = o.mana;
            let mut n = o.clone();
            n.mana = mana.saturating_sub(*debt);
            outputs.set(i, n);
            assert(outputs_view(outputs@) =~= s.update(i as int, n@));
            *debt = debt.saturating_sub(mana);
            return;
        }
        i = i + 1;
    }
    proof {
        lemma_first_where(s, p);
    }
}

/// The allotment part of the minimum mana allotment, once the block's work score is
/// known (the protocol's rules give it from the transaction as built so far): the issuer
/// allots at least what the block costs at the reference mana cost, the raise adds to the
/// allotment debt (see `raised_allotment`), and the issuer's account output pays the debt
/// from its mana (see `reduce_account_output`).
pub fn fulfill_allotment_requirement(
    allotments: &mut Vec<(Id, u64)>,
    outputs: &mut Vec<Output>,
    issuer: &Id,
    debt: &mut u64,
    block_work_score: u32,
    reference_mana_cost: u64,
)
    requires
        block_work_score * reference_mana_cost <= u64::MAX,
        raised_allotment(
            allotments_view(old(allotments)@),
            issuer@,
            *old(debt) as nat,
            (block_work_score * reference_mana_cost) as nat,
        ).1 <= u64::MAX,
    ensures
        ({
            let (s, d) = raised_allotment(
                allotments_view(old(allotments)@),
                issuer@,
                *old(debt) as nat,
                (block_work_score * reference_mana_cost) as nat,
            );
            &&& allotments_view(final(allotments)@) == s
            &&& match first_where(outputs_view(old(outputs)@), payer(issuer@)) {
                Some(i) => {
                    let o = outputs_view(old(outputs)@)[i];
                    &&& outputs_view(final(outputs)@) == outputs_view(old(outputs)@).update(
                        i,
                        OutputV { mana: if o.mana >= d { (o.mana - d) as u64 } else { 0 }, ..o },
                    )
                    &&& *final(debt) == if d >= o.mana { (d - o.mana) as u64 } else { 0 }
                },
                None => outputs_view(final(outputs)@) == outputs_view(old(outputs)@) && *final(debt) == d,
            }
        }),
{
    let required = required_allotment_mana(block_work_score, reference_mana_cost);
    raise_issuer_allotment(allotments, issuer, debt, required);
    reduce_account_output(outputs, issuer, debt);
}

} // verus!
