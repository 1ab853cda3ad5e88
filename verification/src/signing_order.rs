//! The order in which selected inputs are signed: the inputs that plain Ed25519 addresses
//! unlock come first, and an input unlocked through an account or nft address is placed
//! right after the input of that account or nft where that input is already in place,
//! since an unlock can only reference an unlock at a lower index.

use vstd::prelude::*;

use crate::amount::inputs_view;
use crate::ledger::{
    Address, AddressKind, AddressV, CommittableAgeRange, InputSigningData, InputV, OutputKind,
};
use crate::ordered_inputs::{bytes_lt, bytes_lt_exec, dependents_address, dependents_address_exec};
use crate::selection::{all_unlockable, first_where, lemma_first_where};
use vstd::multiset::Multiset;

verus! {

/// The position at which `k` goes into a list ordered by key so that the order stays
/// stable: after every entry whose key is not above `k`.
pub open spec fn upper_pos(s: Seq<(Seq<u8>, InputV)>, k: Seq<u8>) -> int
    decreases s.len(),
{
    if s.len() == 0 {
        0
    } else if bytes_lt(k, s[0].0) {
        0
    } else {
        1 + upper_pos(s.drop_first(), k)
    }
}

/// The entries ordered by key, entries with equal keys in their given order.
pub open spec fn key_sort(s: Seq<(Seq<u8>, InputV)>) -> Seq<(Seq<u8>, InputV)>
    decreases s.len(),
{
    if s.len() == 0 {
        Seq::empty()
    } else {
        let t = key_sort(s.drop_last());
        t.insert(upper_pos(t, s.last().0), s.last())
    }
}

proof fn lemma_upper_pos(s: Seq<(Seq<u8>, InputV)>, k: Seq<u8>)
    ensures
        0 <= upper_pos(s, k) <= s.len(),
        forall|j: int| 0 <= j < upper_pos(s, k) ==> !bytes_lt(k, #[trigger] s[j].0),
        upper_pos(s, k) < s.len() ==> bytes_lt(k, s[upper_pos(s, k)].0),
    decreases s.len(),
{
    if s.len() > 0 && !bytes_lt(k, s[0].0) {
        lemma_upper_pos(s.drop_first(), k);
        assert forall|j: int| 1 <= j < s.len() implies s[j] == s.drop_first()[j - 1] by {}
    }
}

/// Whether the required address of `x` is a plain Ed25519 address.
pub open spec fn unlocked_by_ed25519(x: InputV, slot: u32, range: CommittableAgeRange) -> bool {
    let a = x.output.required_address(slot, range)->0;
    a.kind == AddressKind::Ed25519 && !a.restricted
}

/// The inputs of `s` that an Ed25519 address unlocks, in order.
pub open spec fn ed25519_part(s: Seq<InputV>, slot: u32, range: CommittableAgeRange) -> Seq<InputV>
    decreases s.len(),
{
    if s.len() == 0 {
        Seq::empty()
    } else if unlocked_by_ed25519(s.last(), slot, range) {
        ed25519_part(s.drop_last(), slot, range).push(s.last())
    } else {
        ed25519_part(s.drop_last(), slot, range)
    }
}

/// The other inputs of `s`, in order.
pub open spec fn other_part(s: Seq<InputV>, slot: u32, range: CommittableAgeRange) -> Seq<InputV>
    decreases s.len(),
{
    if s.len() == 0 {
        Seq::empty()
    } else if unlocked_by_ed25519(s.last(), slot, range) {
        other_part(s.drop_last(), slot, range)
    } else {
        other_part(s.drop_last(), slot, range).push(s.last())
    }
}

/// Whether `y` is the account or nft input whose chain the plain address `a` names.
pub open spec fn holds_chain_of(a: AddressV) -> spec_fn(InputV) -> bool {
    |y: InputV|
        !a.restricted && ((a.kind == AddressKind::Account && y.output.kind == OutputKind::Account
            && y.output.chain_id_non_null(y.output_id) == a.id) || (a.kind == AddressKind::Nft
            && y.output.kind == OutputKind::Nft && y.output.chain_id_non_null(y.output_id) == a.id))
}

/// Whether `y` is unlocked by the address `a`.
pub open spec fn required_is(a: AddressV, slot: u32, range: CommittableAgeRange) -> spec_fn(InputV) -> bool {
    |y: InputV| y.output.required_address(slot, range) == Some(a)
}

/// The inputs after `x` is placed: right after the account or nft input that unlocks
/// it; else, for an account or nft input, right before the first input that its address
/// unlocks; else at the end.
pub open spec fn place(acc: Seq<InputV>, x: InputV, slot: u32, range: CommittableAgeRange) -> Seq<InputV> {
    let a = x.output.required_address(slot, range)->0;
    match first_where(acc, holds_chain_of(a)) {
        Some(j) => acc.insert(j + 1, x),
        None => match dependents_address(x) {
            Some(d) => match first_where(acc, required_is(d, slot, range)) {
                Some(j) => acc.insert(j, x),
                None => acc.push(x),
            },
            None => acc.push(x),
        },
    }
}

/// The inputs after each of `others` is placed, in order.
pub open spec fn place_all(acc: Seq<InputV>, others: Seq<InputV>, slot: u32, range: CommittableAgeRange) -> Seq<
    InputV,
>
    decreases others.len(),
{
    if others.len() == 0 {
        acc
    } else {
        place(place_all(acc, others.drop_last(), slot, range), others.last(), slot, range)
    }
}

/// The inputs of keyed entries.
pub open spec fn entry_inputs(s: Seq<(Seq<u8>, InputV)>) -> Seq<InputV> {
    s.map_values(|e: (Seq<u8>, InputV)| e.1)
}

/// The signing order of inputs keyed by the packed bytes of their outputs: ordered by
/// key, the inputs that an Ed25519 address unlocks first, then each other input placed
/// in turn.
pub open spec fn signing_order(items: Seq<(Seq<u8>, InputV)>, slot: u32, range: CommittableAgeRange) -> Seq<
    InputV,
> {
    let sorted = entry_inputs(key_sort(items));
    place_all(ed25519_part(sorted, slot, range), other_part(sorted, slot, range), slot, range)
}

/// The keyed entries by value.
pub open spec fn keyed_view(s: Seq<(Vec<u8>, InputSigningData)>) -> Seq<(Seq<u8>, InputV)> {
    s.map_values(|e: (Vec<u8>, InputSigningData)| (e.0@, e.1@))
}

/// Orders the entries by key, stably.
fn sort_by_key(items: Vec<(Vec<u8>, InputSigningData)>) -> (r: Vec<(Vec<u8>, InputSigningData)>)
    ensures
        keyed_view(r@) == key_sort(keyed_view(items@)),
{
    let ghost all = keyed_view(items@);
    let mut r: Vec<(Vec<u8>, InputSigningData)> = Vec::new();
    let mut src = items;
    let n = src.len();
    let mut i: usize = 0;
    assert(all.take(0) =~= Seq::<(Seq<u8>, InputV)>::empty());
    assert(keyed_view(r@) =~= Seq::<(Seq<u8>, InputV)>::empty());
    while src.len() > 0
        invariant
            src@.len() + i == n,
            n == all.len(),
            keyed_view(src@) =~= all.subrange(i as int, n as int),
            keyed_view(r@) == key_sort(all.take(i as int)),
        decreases src@.len(),
    {
        let ghost before = keyed_view(src@);
        let e = src.remove(0);
        proof {
            assert(before[0] == (e.0@, e.1@));
            assert(keyed_view(src@) =~= before.drop_first());
            assert(all.take(i + 1).drop_last() =~= all.take(i as int));
            assert(all.take(i + 1).last() == all[i as int]);
        }
        let ghost t = keyed_view(r@);
        let mut p: usize = 0;
        while p < r.len() && !bytes_lt_exec(&e.0, &r[p].0)
            invariant
                p <= r@.len(),
                t == keyed_view(r@),
                forall|j: int| 0 <= j < p ==> !bytes_lt(e.0@, #[trigger] t[j].0),
            decreases r@.len() - p,
        {
            p = p + 1;
        }
        proof {
            lemma_upper_pos(t, e.0@);
            assert(p == upper_pos(t, e.0@)) by {
                if p < upper_pos(t, e.0@) {
                    assert(!bytes_lt(e.0@, t[p as int].0));
                } else if p > upper_pos(t, e.0@) {
                    assert(bytes_lt(e.0@, t[upper_pos(t, e.0@)].0));
                }
            }
        }
        let ghost ev = (e.0@, e.1@);
        r.insert(p, e);
        proof {
            assert(keyed_view(r@) =~= t.insert(p as int, ev));
        }
        i = i + 1;
        assert(keyed_view(src@) =~= all.subrange(i as int, n as int));
    }
    assert(all.take(i as int) =~= all);
    r
}

fn unlocked_by_ed25519_exec(x: &InputSigningData, slot: u32, range: CommittableAgeRange) -> (r: bool)
    requires
        x@.output.required_address(slot, range) is Some,
    ensures
        r == unlocked_by_ed25519(x@, slot, range),
{
    match x.output.required_address_at(slot, range) {
        Some(a) => a.is_ed25519(),
        None => false,
    }
}

fn holds_chain_of_exec(a: &Address, y: &InputSigningData) -> (r: bool)
    ensures
        r == holds_chain_of(a@)(y@),
{
    if a.restricted {
        return false;
    }
    match a.kind {
        AddressKind::Account => y.output.kind == OutputKind::Account
            && y.output.chain_id_non_null_exec(&y.output_id).same(&a.id),
        AddressKind::Nft => y.output.kind == OutputKind::Nft && y.output.chain_id_non_null_exec(
            &y.output_id,
        ).same(&a.id),
        _ => false,
    }
}

fn required_is_exec(a: &Address, y: &InputSigningData, slot: u32, range: CommittableAgeRange) -> (r: bool)
    ensures
        r == required_is(a@, slot, range)(y@),
{
    match y.output.required_address_at(slot, range) {
        Some(b) => b.same(a),
        None => false,
    }
}

/// Places `x` among the ordered inputs.
fn place_exec(acc: &mut Vec<InputSigningData>, x: InputSigningData, slot: u32, range: CommittableAgeRange)
    requires
        x@.output.required_address(slot, range) is Some,
    ensures
        inputs_view(final(acc)@) == place(inputs_view(old(acc)@), x@, slot, range),
{
    let ghost s = inputs_view(acc@);
    let ghost xv = x@;
    let a = match x.output.required_address_at(slot, range) {
        Some(a) => a,
        None => x.output.address.clone(),
    };
    let ghost p = holds_chain_of(a@);
    let mut j: usize = 0;
    while j < acc.len() && !holds_chain_of_exec(&a, &acc[j])
        invariant
            j <= acc@.len(),
            s == inputs_view(acc@),
            p == holds_chain_of(a@),
            forall|k: int| 0 <= k < j ==> !p(#[trigger] s[k]),
        decreases acc@.len() - j,
    {
        j = j + 1;
    }
    proof {
        lemma_first_where(s, p);
    }
    if j < acc.len() {
        proof {
            match first_where(s, p) {
                Some(k) => {
                    if k < j {
                        assert(!p(s[k]));
                    } else if k > j {
                        assert(!p(s[j as int]));
                    }
                },
                None => {
                    assert(!p(s[j as int]));
                },
            }
        }
        acc.insert(j + 1, x);
        assert(inputs_view(acc@) =~= s.insert(j + 1, xv));
        return;
    }
    match dependents_address_exec(&x) {
        Some(d) => {
            let ghost q = required_is(d@, slot, range);
            let mut k: usize = 0;
            while k < acc.len() && !required_is_exec(&d, &acc[k], slot, range)
                invariant
                    k <= acc@.len(),
                    s == inputs_view(acc@),
                    q == required_is(d@, slot, range),
                    forall|m: int| 0 <= m < k ==> !q(#[trigger] s[m]),
                decreases acc@.len() - k,
            {
                k = k + 1;
            }
            proof {
                lemma_first_where(s, q);
            }
            if k < acc.len() {
                proof {
                    match first_where(s, q) {
                        Some(m) => {
                            if m < k {
                                assert(!q(s[m]));
                            } else if m > k {
                                assert(!q(s[k as int]));
                            }
                        },
                        None => {
                            assert(!q(s[k as int]));
                        },
                    }
                }
                acc.insert(k, x);
                assert(inputs_view(acc@) =~= s.insert(k as int, xv));
            } else {
                acc.push(x);
                assert(inputs_view(acc@) =~= s.push(xv));
            }
        },
        None => {
            acc.push(x);
            assert(inputs_view(acc@) =~= s.push(xv));
        },
    }
}

/// Orders selected inputs for signing. Each input comes with the packed bytes of its
/// output, by which the inputs are first ordered; then the inputs that an Ed25519 address
/// unlocks come first, and each other input is placed after the account or nft input
/// that unlocks it, or before the inputs that its own address unlocks.
pub fn sort_input_signing_data(
    inputs: Vec<(Vec<u8>, InputSigningData)>,
    slot: u32,
    range: CommittableAgeRange,
) -> (r: Vec<InputSigningData>)
    requires
        all_unlockable(entry_inputs(keyed_view(inputs@)), slot, range),
    ensures
        inputs_view(r@) == signing_order(keyed_view(inputs@), slot, range),
{
    let ghost items = keyed_view(inputs@);
    let sorted = sort_by_key(inputs);
    let ghost sv = entry_inputs(keyed_view(sorted@));
    proof {
        lemma_key_sort_keeps_entries(items);
        assert forall|i: int| 0 <= i < sv.len() implies (#[trigger] sv[i]).output.required_address(slot, range) is Some by {
            let e = key_sort(items)[i];
            assert(key_sort(items).contains(e));
            vstd::seq_lib::to_multiset_contains(key_sort(items), e);
            vstd::seq_lib::to_multiset_contains(items, e);
            assert(items.contains(e));
            let m = choose|m: int| 0 <= m < items.len() && items[m] == e;
            assert(entry_inputs(items)[m] == e.1);
            assert(sv[i] == e.1);
        }
    }
    let mut ed: Vec<InputSigningData> = Vec::new();
    let mut others: Vec<InputSigningData> = Vec::new();
    let mut src = sorted;
    let n = src.len();
    let mut i: usize = 0;
    assert(inputs_view(ed@) =~= ed25519_part(sv.take(0), slot, range));
    assert(inputs_view(others@) =~= other_part(sv.take(0), slot, range));
    while src.len() > 0
        invariant
            src@.len() + i == n,
            n == sv.len(),
            entry_inputs(keyed_view(src@)) =~= sv.subrange(i as int, n as int),
            all_unlockable(sv, slot, range),
            inputs_view(ed@) == ed25519_part(sv.take(i as int), slot, range),
            inputs_view(others@) == other_part(sv.take(i as int), slot, range),
            all_unlockable(inputs_view(others@), slot, range),
        decreases src@.len(),
    {
        let ghost before = entry_inputs(keyed_view(src@));
        let (_, x) = src.remove(0);
        proof {
            assert(before[0] == x@);
            assert(entry_inputs(keyed_view(src@)) =~= before.drop_first());
            assert(sv.take(i + 1).drop_last() =~= sv.take(i as int));
            assert(sv.take(i + 1).last() == sv[i as int]);
            assert(sv[i as int] == x@);
        }
        let ghost e0 = inputs_view(ed@);
        let ghost o0 = inputs_view(others@);
        if unlocked_by_ed25519_exec(&x, slot, range) {
            ed.push(x);
            assert(inputs_view(ed@) =~= e0.push(sv[i as int]));
        } else {
            others.push(x);
            assert(inputs_view(others@) =~= o0.push(sv[i as int]));
        }
        i = i + 1;
        assert(entry_inputs(keyed_view(src@)) =~= sv.subrange(i as int, n as int));
    }
    assert(sv.take(i as int) =~= sv);
    let ghost start = inputs_view(ed@);
    let ghost all_others = inputs_view(others@);
    let mut acc = ed;
    let mut rest = others;
    let m = rest.len();
    let mut k: usize = 0;
    assert(all_others.take(0) =~= Seq::<InputV>::empty());
    while rest.len() > 0
        invariant
            rest@.len() + k == m,
            m == all_others.len(),
            inputs_view(rest@) =~= all_others.subrange(k as int, m as int),
            all_unlockable(all_others, slot, range),
            inputs_view(acc@) == place_all(start, all_others.take(k as int), slot, range),
        decreases rest@.len(),
    {
        let ghost before = inputs_view(rest@);
        let x = rest.remove(0);
        proof {
            assert(before[0] == x@);
            assert(inputs_view(rest@) =~= before.drop_first());
            assert(all_others.take(k + 1).drop_last() =~= all_others.take(k as int));
            assert(all_others.take(k + 1).last() == all_others[k as int]);
            assert(all_others[k as int] == x@);
        }
        place_exec(&mut acc, x, slot, range);
        k = k + 1;
        assert(inputs_view(rest@) =~= all_others.subrange(k as int, m as int));
    }
    assert(all_others.take(k as int) =~= all_others);
    acc
}

/// Ordering by key keeps the entries: the same entries, as often.
pub proof fn lemma_key_sort_keeps_entries(s: Seq<(Seq<u8>, InputV)>)
    ensures
        key_sort(s).to_multiset() == s.to_multiset(),
        key_sort(s).len() == s.len(),
    decreases s.len(),
{
    broadcast use vstd::seq_lib::to_multiset_build;

    if s.len() > 0 {
        lemma_key_sort_keeps_entries(s.drop_last());
        let t = key_sort(s.drop_last());
        lemma_upper_pos(t, s.last().0);
        vstd::seq_lib::to_multiset_insert(t, upper_pos(t, s.last().0), s.last());
        vstd::seq_lib::to_multiset_build(s.drop_last(), s.last());
        assert(s.drop_last().push(s.last()) =~= s);
    } else {
        assert(key_sort(s) =~= s);
    }
}

/// Ordering by key keeps the inputs: the same inputs, as often.
proof fn lemma_key_sort_keeps_inputs(s: Seq<(Seq<u8>, InputV)>)
    ensures
        entry_inputs(key_sort(s)).to_multiset() == entry_inputs(s).to_multiset(),
    decreases s.len(),
{
    if s.len() > 0 {
        lemma_key_sort_keeps_inputs(s.drop_last());
        let t = key_sort(s.drop_last());
        let p = upper_pos(t, s.last().0);
        lemma_upper_pos(t, s.last().0);
        assert(entry_inputs(t.insert(p, s.last())) =~= entry_inputs(t).insert(p, s.last().1));
        vstd::seq_lib::to_multiset_insert(entry_inputs(t), p, s.last().1);
        assert(entry_inputs(s) =~= entry_inputs(s.drop_last()).push(s.last().1));
        vstd::seq_lib::to_multiset_build(entry_inputs(s.drop_last()), s.last().1);
    } else {
        assert(entry_inputs(key_sort(s)) =~= entry_inputs(s));
    }
}

/// Splitting by the kind of unlocking address keeps the inputs.
proof fn lemma_parts_keep_inputs(s: Seq<InputV>, slot: u32, range: CommittableAgeRange)
    ensures
        ed25519_part(s, slot, range).to_multiset().add(other_part(s, slot, range).to_multiset())
            == s.to_multiset(),
    decreases s.len(),
{
    broadcast use vstd::multiset::group_multiset_axioms;

    if s.len() > 0 {
        lemma_parts_keep_inputs(s.drop_last(), slot, range);
        let e = ed25519_part(s.drop_last(), slot, range);
        let o = other_part(s.drop_last(), slot, range);
        vstd::seq_lib::to_multiset_build(e, s.last());
        vstd::seq_lib::to_multiset_build(o, s.last());
        vstd::seq_lib::to_multiset_build(s.drop_last(), s.last());
        assert(s.drop_last().push(s.last()) =~= s);
        assert(ed25519_part(s, slot, range).to_multiset().add(other_part(s, slot, range).to_multiset())
            =~= s.to_multiset());
    } else {
        vstd::seq_lib::to_multiset_len(s);
        vstd::seq_lib::to_multiset_len(ed25519_part(s, slot, range));
        vstd::seq_lib::to_multiset_len(other_part(s, slot, range));
        vstd::multiset::lemma_multiset_empty_len(s.to_multiset());
        vstd::multiset::lemma_multiset_empty_len(ed25519_part(s, slot, range).to_multiset());
        vstd::multiset::lemma_multiset_empty_len(other_part(s, slot, range).to_multiset());
        assert(ed25519_part(s, slot, range).to_multiset().add(other_part(s, slot, range).to_multiset())
            =~= s.to_multiset());
    }
}

/// Placing an input adds exactly that input.
proof fn lemma_place_keeps_inputs(acc: Seq<InputV>, x: InputV, slot: u32, range: CommittableAgeRange)
    ensures
        place(acc, x, slot, range).to_multiset() == acc.to_multiset().insert(x),
{
    let a = x.output.required_address(slot, range)->0;
    lemma_first_where(acc, holds_chain_of(a));
    vstd::seq_lib::to_multiset_build(acc, x);
    match first_where(acc, holds_chain_of(a)) {
        Some(j) => {
            vstd::seq_lib::to_multiset_insert(acc, j + 1, x);
        },
        None => match dependents_address(x) {
            Some(d) => {
                lemma_first_where(acc, required_is(d, slot, range));
                match first_where(acc, required_is(d, slot, range)) {
                    Some(j) => {
                        vstd::seq_lib::to_multiset_insert(acc, j, x);
                    },
                    None => {},
                }
            },
            None => {},
        },
    }
}

/// Placing inputs in turn adds exactly those inputs.
proof fn lemma_place_all_keeps_inputs(acc: Seq<InputV>, others: Seq<InputV>, slot: u32, range: CommittableAgeRange)
    ensures
        place_all(acc, others, slot, range).to_multiset() == acc.to_multiset().add(others.to_multiset()),
    decreases others.len(),
{
    broadcast use vstd::multiset::group_multiset_axioms;

    if others.len() > 0 {
        lemma_place_all_keeps_inputs(acc, others.drop_last(), slot, range);
        lemma_place_keeps_inputs(place_all(acc, others.drop_last(), slot, range), others.last(), slot, range);
        vstd::seq_lib::to_multiset_build(others.drop_last(), others.last());
        assert(others.drop_last().push(others.last()) =~= others);
        assert(place_all(acc, others, slot, range).to_multiset() =~= acc.to_multiset().add(others.to_multiset()));
    } else {
        vstd::seq_lib::to_multiset_len(others);
        vstd::multiset::lemma_multiset_empty_len(others.to_multiset());
        assert(place_all(acc, others, slot, range).to_multiset() =~= acc.to_multiset().add(others.to_multiset()));
    }
}

/// The signing order neither loses nor duplicates an input: it holds the given inputs,
/// each as often as it is given.
pub proof fn lemma_signing_order_keeps_inputs(items: Seq<(Seq<u8>, InputV)>, slot: u32, range: CommittableAgeRange)
    ensures
        signing_order(items, slot, range).to_multiset() == entry_inputs(items).to_multiset(),
{
    let sorted = entry_inputs(key_sort(items));
    lemma_key_sort_keeps_inputs(items);
    lemma_parts_keep_inputs(sorted, slot, range);
    lemma_place_all_keeps_inputs(ed25519_part(sorted, slot, range), other_part(sorted, slot, range), slot, range);
}

/// Whether `x` is unlocked through the address of the account or nft that `y` holds.
pub open spec fn unlocks_through(y: InputV, x: InputV, slot: u32, range: CommittableAgeRange) -> bool {
    match x.output.required_address(slot, range) {
        Some(a) => holds_chain_of(a)(y),
        None => false,
    }
}

/// Whether every input of `s` unlocked through the address of an account or nft comes
/// after each input of `s` holding that account or nft.
pub open spec fn holders_first(s: Seq<InputV>, slot: u32, range: CommittableAgeRange) -> bool {
    forall|i: int, j: int|
        0 <= i < s.len() && 0 <= j < s.len() && #[trigger] unlocks_through(s[i], s[j], slot, range) ==> i < j
}

/// Inserting `x` keeps holders first when `x` holds nothing that an input of `acc` or `x`
/// itself is unlocked through, and every holder of what unlocks `x` stands before `p`.
proof fn lemma_insert_holders_first(acc: Seq<InputV>, p: int, x: InputV, slot: u32, range: CommittableAgeRange)
    requires
        0 <= p <= acc.len(),
        holders_first(acc, slot, range),
        !unlocks_through(x, x, slot, range),
        forall|i: int| 0 <= i < acc.len() ==> !#[trigger] unlocks_through(x, acc[i], slot, range),
        forall|i: int| 0 <= i < acc.len() && #[trigger] unlocks_through(acc[i], x, slot, range) ==> i < p,
    ensures
        holders_first(acc.insert(p, x), slot, range),
{
    let t = acc.insert(p, x);
    assert forall|i: int, j: int|
        0 <= i < t.len() && 0 <= j < t.len() && #[trigger] unlocks_through(t[i], t[j], slot, range) implies i < j by {
        let oi = if i < p { i } else { i - 1 };
        let oj = if j < p { j } else { j - 1 };
        if i == p && j == p {
        } else if i == p {
            assert(t[j] == acc[oj]);
        } else if j == p {
            assert(t[i] == acc[oi]);
        } else {
            assert(t[i] == acc[oi]);
            assert(t[j] == acc[oj]);
            assert(unlocks_through(acc[oi], acc[oj], slot, range));
        }
    }
}

/// The inputs of the Ed25519 part are those that a plain Ed25519 address unlocks.
proof fn lemma_ed25519_part_kind(s: Seq<InputV>, slot: u32, range: CommittableAgeRange)
    ensures
        forall|k: int|
            0 <= k < ed25519_part(s, slot, range).len() ==> unlocked_by_ed25519(
                #[trigger] ed25519_part(s, slot, range)[k],
                slot,
                range,
            ),
        forall|k: int|
            0 <= k < other_part(s, slot, range).len() ==> !unlocked_by_ed25519(
                #[trigger] other_part(s, slot, range)[k],
                slot,
                range,
            ),
    decreases s.len(),
{
    if s.len() > 0 {
        let t = s.drop_last();
        lemma_ed25519_part_kind(t, slot, range);
        let e = ed25519_part(t, slot, range);
        let o = other_part(t, slot, range);
        if unlocked_by_ed25519(s.last(), slot, range) {
            assert(ed25519_part(s, slot, range) == e.push(s.last()));
            assert(other_part(s, slot, range) == o);
            assert forall|k: int| 0 <= k < e.len() + 1 implies unlocked_by_ed25519(
                #[trigger] e.push(s.last())[k],
                slot,
                range,
            ) by {
                if k < e.len() {
                    assert(e.push(s.last())[k] == e[k]);
                }
            }
        } else {
            assert(ed25519_part(s, slot, range) == e);
            assert(other_part(s, slot, range) == o.push(s.last()));
            assert forall|k: int| 0 <= k < o.len() + 1 implies !unlocked_by_ed25519(
                #[trigger] o.push(s.last())[k],
                slot,
                range,
            ) by {
                if k < o.len() {
                    assert(o.push(s.last())[k] == o[k]);
                }
            }
        }
    }
}

/// Placing each other input in turn keeps holders first, where no input of the pool is
/// held twice and no other input holds what an input is unlocked through.
proof fn lemma_place_all_holders_first(
    acc0: Seq<InputV>,
    others: Seq<InputV>,
    pool: Multiset<InputV>,
    slot: u32,
    range: CommittableAgeRange,
)
    requires
        holders_first(acc0, slot, range),
        forall|y: InputV| #[trigger] acc0.to_multiset().add(others.to_multiset()).count(y) <= pool.count(y),
        forall|y: InputV| #[trigger] pool.count(y) <= 1,
        forall|y: InputV, z: InputV, a: AddressV|
            #![trigger pool.count(y), pool.count(z), holds_chain_of(a)(y), holds_chain_of(a)(z)]
            pool.count(y) > 0 && pool.count(z) > 0 && holds_chain_of(a)(y) && holds_chain_of(a)(z) ==> y == z,
        forall|y: InputV, x: InputV|
            #![trigger pool.count(y), pool.count(x), unlocks_through(y, x, slot, range)]
            pool.count(y) > 0 && pool.count(x) > 0 && unlocks_through(y, x, slot, range) ==> unlocked_by_ed25519(
                y,
                slot,
                range,
            ),
        forall|k: int| 0 <= k < others.len() ==> !unlocked_by_ed25519(#[trigger] others[k], slot, range),
    ensures
        holders_first(place_all(acc0, others, slot, range), slot, range),
    decreases others.len(),
{
    broadcast use vstd::multiset::group_multiset_axioms;
    broadcast use vstd::seq_lib::group_to_multiset_ensures;

    if others.len() > 0 {
        let rest = others.drop_last();
        let x = others.last();
        assert(others =~= rest.push(x));
        assert forall|y: InputV| #[trigger] acc0.to_multiset().add(rest.to_multiset()).count(y) <= pool.count(y) by {
            assert(acc0.to_multiset().add(others.to_multiset()).count(y) <= pool.count(y));
        }
        lemma_place_all_holders_first(acc0, rest, pool, slot, range);
        let acc = place_all(acc0, rest, slot, range);
        lemma_place_all_keeps_inputs(acc0, rest, slot, range);
        lemma_place_keeps_inputs(acc, x, slot, range);
        let whole = acc.to_multiset().insert(x);
        assert(whole =~= acc0.to_multiset().add(others.to_multiset()));
        assert forall|y: InputV| #[trigger] whole.count(y) <= pool.count(y) by {
            assert(acc0.to_multiset().add(others.to_multiset()).count(y) <= pool.count(y));
        }
        // Every input placed so far belongs to the pool, each once.
        assert forall|i: int| 0 <= i < acc.len() implies pool.count(#[trigger] acc[i]) > 0 by {
            assert(acc.contains(acc[i]));
            assert(whole.count(acc[i]) >= acc.to_multiset().count(acc[i]));
        }
        assert(pool.count(x) > 0) by {
            assert(whole.count(x) > 0);
        }
        assert(!unlocked_by_ed25519(x, slot, range)) by {
            assert(others[others.len() - 1] == x);
        }
        assert forall|i: int, k: int| 0 <= i < acc.len() && 0 <= k < acc.len() && acc[i] == acc[k] implies i == k by {
            if i != k {
                assert(acc.to_multiset().count(acc[i]) >= 2) by {
                    let lo = if i < k { i } else { k };
                    let hi = if i < k { k } else { i };
                    assert(acc[lo] == acc[hi]);
                    vstd::seq_lib::lemma_multiset_commutative(acc.take(lo + 1), acc.skip(lo + 1));
                    assert(acc =~= acc.take(lo + 1) + acc.skip(lo + 1));
                    assert(acc.take(lo + 1).contains(acc[lo])) by {
                        assert(acc.take(lo + 1)[lo] == acc[lo]);
                    }
                    assert(acc.skip(lo + 1).contains(acc[lo])) by {
                        assert(acc.skip(lo + 1)[hi - lo - 1] == acc[hi]);
                    }
                    vstd::seq_lib::lemma_multiset_commutative(acc.take(lo + 1), acc.skip(lo + 1));
                }
                assert(whole.count(acc[i]) <= 1);
            }
        }
        assert(!unlocks_through(x, x, slot, range));
        assert forall|i: int| 0 <= i < acc.len() implies !#[trigger] unlocks_through(x, acc[i], slot, range) by {
            assert(pool.count(acc[i]) > 0);
        }
        let a = x.output.required_address(slot, range)->0;
        lemma_first_where(acc, holds_chain_of(a));
        match first_where(acc, holds_chain_of(a)) {
            Some(h) => {
                assert forall|i: int|
                    0 <= i < acc.len() && #[trigger] unlocks_through(acc[i], x, slot, range) implies i < h + 1 by {
                    assert(pool.count(acc[i]) > 0 && pool.count(acc[h]) > 0);
                    assert(holds_chain_of(a)(acc[i]) && holds_chain_of(a)(acc[h]));
                }
                lemma_insert_holders_first(acc, h + 1, x, slot, range);
            },
            None => {
                assert forall|i: int|
                    0 <= i < acc.len() && #[trigger] unlocks_through(acc[i], x, slot, range) implies i < 0 by {
                    assert(holds_chain_of(a)(acc[i]));
                }
                match dependents_address(x) {
                    Some(d) => {
                        lemma_first_where(acc, required_is(d, slot, range));
                        match first_where(acc, required_is(d, slot, range)) {
                            Some(j) => {
                                lemma_insert_holders_first(acc, j, x, slot, range);
                            },
                            None => {
                                lemma_insert_holders_first(acc, acc.len() as int, x, slot, range);
                                assert(acc.insert(acc.len() as int, x) =~= acc.push(x));
                            },
                        }
                    },
                    None => {
                        lemma_insert_holders_first(acc, acc.len() as int, x, slot, range);
                        assert(acc.insert(acc.len() as int, x) =~= acc.push(x));
                    },
                }
            },
        }
    } else {
        assert(place_all(acc0, others, slot, range) == acc0);
    }
}

/// Inputs are ordered so that their unlocks can reference lower indices, where each input
/// is given once, no two inputs hold the same account or nft, and every input holding an
/// account or nft that another input is unlocked through is itself unlocked by a plain
/// Ed25519 address: then each input unlocked through the address of an account or nft
/// comes after the input holding it.
pub proof fn lemma_signing_order_holders_first(
    items: Seq<(Seq<u8>, InputV)>,
    slot: u32,
    range: CommittableAgeRange,
)
    requires
        entry_inputs(items).no_duplicates(),
        forall|p: int, q: int, a: AddressV|
            0 <= p < items.len() && 0 <= q < items.len() && #[trigger] holds_chain_of(a)(items[p].1)
                && #[trigger] holds_chain_of(a)(items[q].1) ==> p == q,
        forall|p: int, q: int|
            0 <= p < items.len() && 0 <= q < items.len() && #[trigger] unlocks_through(
                items[p].1,
                items[q].1,
                slot,
                range,
            ) ==> unlocked_by_ed25519(items[p].1, slot, range),
    ensures
        holders_first(signing_order(items, slot, range), slot, range),
{
    broadcast use vstd::multiset::group_multiset_axioms;
    broadcast use vstd::seq_lib::group_to_multiset_ensures;

    let s0 = entry_inputs(items);
    let pool = s0.to_multiset();
    let sorted = entry_inputs(key_sort(items));
    let ed = ed25519_part(sorted, slot, range);
    let others = other_part(sorted, slot, range);
    lemma_key_sort_keeps_inputs(items);
    lemma_parts_keep_inputs(sorted, slot, range);
    lemma_ed25519_part_kind(sorted, slot, range);
    s0.lemma_multiset_has_no_duplicates();
    assert forall|y: InputV| #[trigger] pool.count(y) <= 1 by {
        if pool.count(y) > 0 {
            assert(pool.contains(y));
        }
    }
    assert forall|y: InputV, z: InputV, a: AddressV|
        #![trigger pool.count(y), pool.count(z), holds_chain_of(a)(y), holds_chain_of(a)(z)]
        pool.count(y) > 0 && pool.count(z) > 0 && holds_chain_of(a)(y) && holds_chain_of(a)(z) implies y == z by {
        assert(s0.contains(y) && s0.contains(z));
        let p = choose|p: int| 0 <= p < s0.len() && s0[p] == y;
        let q = choose|q: int| 0 <= q < s0.len() && s0[q] == z;
        assert(s0[p] == items[p].1 && s0[q] == items[q].1);
    }
    assert forall|y: InputV, x: InputV|
        #![trigger pool.count(y), pool.count(x), unlocks_through(y, x, slot, range)]
        pool.count(y) > 0 && pool.count(x) > 0 && unlocks_through(y, x, slot, range) implies unlocked_by_ed25519(
            y,
            slot,
            range,
        ) by {
        assert(s0.contains(y) && s0.contains(x));
        let p = choose|p: int| 0 <= p < s0.len() && s0[p] == y;
        let q = choose|q: int| 0 <= q < s0.len() && s0[q] == x;
        assert(s0[p] == items[p].1 && s0[q] == items[q].1);
    }
    assert(holders_first(ed, slot, range)) by {
        assert forall|i: int, j: int|
            0 <= i < ed.len() && 0 <= j < ed.len() && #[trigger] unlocks_through(ed[i], ed[j], slot, range) implies i
            < j by {
            assert(unlocked_by_ed25519(ed[j], slot, range));
        }
    }
    assert forall|y: InputV| #[trigger] ed.to_multiset().add(others.to_multiset()).count(y) <= pool.count(y) by {}
    lemma_place_all_holders_first(ed, others, pool, slot, range);
}

} // verus!
