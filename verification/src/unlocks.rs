//! The unlocks of a transaction whose signatures are left empty: one unlock per input, in
//! signing order, which the mana requirement uses to estimate the size of the transaction.

use vstd::prelude::*;

use crate::amount::inputs_view;
use crate::ledger::{Address, AddressKind, AddressV, CommittableAgeRange, InputSigningData, InputV};
use crate::ordered_inputs::{dependents_address, dependents_address_exec};
use crate::selection::{all_unlockable, SelectionError, SelectionErrorV, INPUT_COUNT_MAX};
use crate::transitions::{keys_unique, lemma_list_map_unique, lemma_list_map_update, list_map};

verus! {

/// How an input is unlocked.
#[derive(Clone, Copy, Debug, PartialEq, Eq, Structural)]
pub enum Unlock {
    /// By a signature; in a null transaction, one whose key and bytes are all zero.
    Signature,
    /// By the signature of the unlock at the given index.
    Reference(u16),
    /// By the account unlocked at the given index.
    Account(u16),
    /// By the nft unlocked at the given index.
    Nft(u16),
}

/// The value of an unlock.
pub enum UnlockV {
    Signature,
    Reference(nat),
    Account(nat),
    Nft(nat),
}

impl View for Unlock {
    type V = UnlockV;

    open spec fn view(&self) -> UnlockV {
        match self {
            Unlock::Signature => UnlockV::Signature,
            Unlock::Reference(i) => UnlockV::Reference(*i as nat),
            Unlock::Account(i) => UnlockV::Account(*i as nat),
            Unlock::Nft(i) => UnlockV::Nft(*i as nat),
        }
    }
}

/// The values of a list of unlocks.
pub open spec fn unlocks_view(s: Seq<Unlock>) -> Seq<UnlockV> {
    s.map_values(|u: Unlock| u@)
}

/// The address under which an unlock is remembered: a restricted address by the address it
/// restricts, an implicit account creation address by its Ed25519 address.
pub open spec fn unlock_key(a: AddressV) -> AddressV {
    if a.restricted {
        a.inner()
    } else if a.kind == AddressKind::ImplicitAccountCreation {
        AddressV::ed25519(a.id)
    } else {
        a
    }
}

/// The unlocks so far and, per address, the index of the unlock that unlocks it.
pub struct UnlockStateV {
    pub unlocks: Seq<UnlockV>,
    pub index: Map<AddressV, nat>,
}

/// The state after the input `x`, at index `i`, gets its unlock: a reference to an earlier
/// unlock of its address, or a signature where its address is an Ed25519 one met for the
/// first time; an account or nft input then unlocks its own address.
pub open spec fn unlock_step(st: UnlockStateV, x: InputV, i: nat, slot: u32, range: CommittableAgeRange) -> Result<
    UnlockStateV,
    SelectionErrorV,
> {
    let a = unlock_key(x.output.required_address(slot, range)->0);
    let next = if st.index.dom().contains(a) {
        let j = st.index[a];
        match a.kind {
            AddressKind::Ed25519 | AddressKind::ImplicitAccountCreation => Ok(
                UnlockStateV { unlocks: st.unlocks.push(UnlockV::Reference(j)), ..st },
            ),
            AddressKind::Account => Ok(
                UnlockStateV { unlocks: st.unlocks.push(UnlockV::Account(j)), ..st },
            ),
            AddressKind::Nft => Ok(UnlockStateV { unlocks: st.unlocks.push(UnlockV::Nft(j)), ..st }),
            _ => Err(SelectionErrorV::UnsupportedAddressKind(a.kind)),
        }
    } else {
        match a.kind {
            AddressKind::Ed25519 | AddressKind::ImplicitAccountCreation => Ok(
                UnlockStateV {
                    unlocks: st.unlocks.push(UnlockV::Signature),
                    index: st.index.insert(a, i),
                },
            ),
            _ => Err(SelectionErrorV::MissingInputWithEd25519Address),
        }
    };
    match next {
        Err(e) => Err(e),
        Ok(n) => Ok(
            match dependents_address(x) {
                Some(d) => UnlockStateV { index: n.index.insert(d, i), ..n },
                None => n,
            },
        ),
    }
}

/// The state after each input of the list gets its unlock in turn, or the first error.
pub open spec fn unlock_all(inputs: Seq<InputV>, slot: u32, range: CommittableAgeRange) -> Result<
    UnlockStateV,
    SelectionErrorV,
>
    decreases inputs.len(),
{
    if inputs.len() == 0 {
        Ok(UnlockStateV { unlocks: Seq::empty(), index: Map::empty() })
    } else {
        match unlock_all(inputs.drop_last(), slot, range) {
            Err(e) => Err(e),
            Ok(st) => unlock_step(st, inputs.last(), (inputs.len() - 1) as nat, slot, range),
        }
    }
}

/// The unlocks of the inputs, or the first error.
pub open spec fn null_unlocks(inputs: Seq<InputV>, slot: u32, range: CommittableAgeRange) -> Result<
    Seq<UnlockV>,
    SelectionErrorV,
> {
    match unlock_all(inputs, slot, range) {
        Ok(st) => Ok(st.unlocks),
        Err(e) => Err(e),
    }
}

/// The index of the unlock remembered for an address, by value.
pub open spec fn index_view(s: Seq<(Address, usize)>) -> Seq<(AddressV, nat)> {
    s.map_values(|e: (Address, usize)| (e.0@, e.1 as nat))
}

/// The position of `a` in the list of remembered addresses, if it is there.
fn find_address(s: &Vec<(Address, usize)>, a: &Address) -> (r: Option<usize>)
    requires
        keys_unique(index_view(s@)),
    ensures
        match r {
            Some(i) => i < s@.len() && s@[i as int].0@ == a@ && list_map(index_view(s@)).dom().contains(a@)
                && list_map(index_view(s@))[a@] == s@[i as int].1,
            None => !list_map(index_view(s@)).dom().contains(a@),
        },
{
    let ghost v = index_view(s@);
    proof {
        lemma_list_map_unique(v);
    }
    let mut i: usize = 0;
    while i < s.len()
        invariant
            i <= s@.len(),
            v == index_view(s@),
            keys_unique(v),
            forall|j: int| 0 <= j < i ==> v[j].0 != a@,
        decreases s@.len() - i,
    {
        if s[i].0.same(a) {
            proof {
                lemma_list_map_unique(v);
                assert(v[i as int].0 == a@);
                assert(list_map(v)[v[i as int].0] == v[i as int].1);
            }
            return Some(i);
        }
        i = i + 1;
    }
    proof {
        if list_map(v).dom().contains(a@) {
            let j = choose|j: int| 0 <= j < v.len() && #[trigger] v[j].0 == a@;
            assert(false);
        }
    }
    None
}

/// Remembers that the unlock at index `i` unlocks `a`.
fn remember(s: &mut Vec<(Address, usize)>, a: Address, i: usize)
    requires
        keys_unique(index_view(old(s)@)),
        forall|j: int| 0 <= j < old(s)@.len() ==> #[trigger] old(s)@[j].1 <= i,
    ensures
        keys_unique(index_view(final(s)@)),
        forall|j: int| 0 <= j < final(s)@.len() ==> #[trigger] final(s)@[j].1 <= i,
        list_map(index_view(final(s)@)) == list_map(index_view(old(s)@)).insert(a@, i as nat),
{
    let ghost v = index_view(s@);
    match find_address(s, &a) {
        Some(p) => {
            let ghost key = a@;
            s.set(p, (a, i));
            proof {
                assert forall|j: int| 0 <= j < s@.len() implies #[trigger] s@[j].1 <= i by {
                    if j != p {
                        assert(s@[j] == old(s)@[j]);
                    }
                }
                assert(index_view(s@) =~= v.update(p as int, (v[p as int].0, i as nat)));
                lemma_list_map_update(v, p as int, i as nat);
                let n = index_view(s@);
                assert forall|x: int, y: int| 0 <= x < y < n.len() implies n[x].0 != n[y].0 by {
                    assert(n[x].0 == v[x].0 && n[y].0 == v[y].0);
                }
            }
        },
        None => {
            let ghost key = a@;
            s.push((a, i));
            proof {
                assert forall|j: int| 0 <= j < s@.len() implies #[trigger] s@[j].1 <= i by {
                    if j < old(s)@.len() {
                        assert(s@[j] == old(s)@[j]);
                    }
                }
                let n = index_view(s@);
                assert(n =~= v.push((key, i as nat)));
                assert(n.drop_last() =~= v);
                lemma_list_map_unique(v);
                assert forall|x: int, y: int| 0 <= x < y < n.len() implies n[x].0 != n[y].0 by {
                    if y == v.len() {
                        assert(n[x] == v[x]);
                        if v[x].0 == key {
                            assert(list_map(v).dom().contains(v[x].0));
                        }
                    } else {
                        assert(n[x] == v[x] && n[y] == v[y]);
                    }
                }
            }
        },
    }
}

/// The address under which the unlock of `a` is remembered.
fn unlock_key_exec(a: &Address) -> (r: Address)
    ensures
        r@ == unlock_key(a@),
{
    if a.restricted {
        a.inner()
    } else if a.kind == AddressKind::ImplicitAccountCreation {
        Address::new(AddressKind::Ed25519, a.id.clone())
    } else {
        a.clone()
    }
}

proof fn lemma_unlock_all_prefix(inputs: Seq<InputV>, slot: u32, range: CommittableAgeRange, i: int)
    requires
        0 <= i <= inputs.len(),
        unlock_all(inputs.take(i), slot, range) is Err,
    ensures
        unlock_all(inputs, slot, range) == unlock_all(inputs.take(i), slot, range),
    decreases inputs.len() - i,
{
    if i < inputs.len() {
        assert(inputs.take(i + 1).drop_last() =~= inputs.take(i));
        lemma_unlock_all_prefix(inputs, slot, range, i + 1);
    } else {
        assert(inputs.take(i) =~= inputs);
    }
}

/// The unlocks of a transaction that spends `inputs`, given in signing order, with every
/// signature left empty: a reference to an earlier unlock where an earlier input unlocks
/// the same address, otherwise a signature for an Ed25519 address; an input unlocked by
/// an account or nft that no earlier input unlocks cannot be unlocked.
pub fn null_transaction_unlocks(
    inputs: &Vec<InputSigningData>,
    slot: u32,
    range: CommittableAgeRange,
) -> (r: Result<Vec<Unlock>, SelectionError>)
    requires
        inputs@.len() <= INPUT_COUNT_MAX,
        all_unlockable(inputs_view(inputs@), slot, range),
    ensures
        match r {
            Ok(u) => null_unlocks(inputs_view(inputs@), slot, range) == Ok::<
                Seq<UnlockV>,
                SelectionErrorV,
            >(unlocks_view(u@)),
            Err(e) => null_unlocks(inputs_view(inputs@), slot, range) == Err::<
                Seq<UnlockV>,
                SelectionErrorV,
            >(e@),
        },
{
    let ghost all = inputs_view(inputs@);
    let mut blocks: Vec<Unlock> = Vec::new();
    let mut index: Vec<(Address, usize)> = Vec::new();
    let mut i: usize = 0;
    assert(all.take(0) =~= Seq::<InputV>::empty());
    assert(unlocks_view(blocks@) =~= Seq::<UnlockV>::empty());
    assert(list_map(index_view(index@)) =~= Map::<AddressV, nat>::empty());
    while i < inputs.len()
        invariant
            i <= inputs@.len(),
            inputs@.len() <= INPUT_COUNT_MAX,
            all == inputs_view(inputs@),
            all_unlockable(all, slot, range),
            keys_unique(index_view(index@)),
            forall|j: int| 0 <= j < index@.len() ==> #[trigger] index@[j].1 < i,
            unlock_all(all.take(i as int), slot, range) == Ok::<UnlockStateV, SelectionErrorV>(
                UnlockStateV {
                    unlocks: unlocks_view(blocks@),
                    index: list_map(index_view(index@)),
                },
            ),
        decreases inputs@.len() - i,
    {
        let ghost st = UnlockStateV {
            unlocks: unlocks_view(blocks@),
            index: list_map(index_view(index@)),
        };
        let ghost b0 = unlocks_view(blocks@);
        proof {
            assert(all.take(i + 1).drop_last() =~= all.take(i as int));
            assert(all.take(i + 1).last() == all[i as int]);
            assert(all[i as int] == inputs@[i as int]@);
            assert(all[i as int].output.required_address(slot, range) is Some);
        }
        let input = &inputs[i];
        let required = match input.output.required_address_at(slot, range) {
            Some(a) => a,
            None => {
                assert(false);
                return Err(SelectionError::MissingInputWithEd25519Address);
            },
        };
        let key = unlock_key_exec(&required);
        match find_address(&index, &key) {
            Some(p) => {
                let j = index[p].1;
                assert(j < i);
                let ju = j as u16;
                if key.kind == AddressKind::Ed25519 || key.kind == AddressKind::ImplicitAccountCreation {
                    blocks.push(Unlock::Reference(ju));
                    assert(unlocks_view(blocks@) =~= b0.push(UnlockV::Reference(j as nat)));
                } else if key.kind == AddressKind::Account {
                    blocks.push(Unlock::Account(ju));
                    assert(unlocks_view(blocks@) =~= b0.push(UnlockV::Account(j as nat)));
                } else if key.kind == AddressKind::Nft {
                    blocks.push(Unlock::Nft(ju));
                    assert(unlocks_view(blocks@) =~= b0.push(UnlockV::Nft(j as nat)));
                } else {
                    proof {
                        lemma_unlock_all_prefix(all, slot, range, i + 1);
                    }
                    return Err(SelectionError::UnsupportedAddressKind(key.kind));
                }
            },
            None => {
                if key.kind == AddressKind::Ed25519 || key.kind == AddressKind::ImplicitAccountCreation {
                    blocks.push(Unlock::Signature);
                    assert(unlocks_view(blocks@) =~= b0.push(UnlockV::Signature));
                    remember(&mut index, key, i);
                } else {
                    proof {
                        lemma_unlock_all_prefix(all, slot, range, i + 1);
                    }
                    return Err(SelectionError::MissingInputWithEd25519Address);
                }
            },
        }
        match dependents_address_exec(input) {
            Some(d) => remember(&mut index, d, i),
            None => {},
        }
        i = i + 1;
    }
    assert(all.take(i as int) =~= all);
    Ok(blocks)
}

/// Whether every unlock that refers to another refers to an earlier one, and every
/// reference refers to a signature.
pub open spec fn refers_backwards(u: Seq<UnlockV>) -> bool {
    forall|p: int|
        0 <= p < u.len() ==> match #[trigger] u[p] {
            UnlockV::Signature => true,
            UnlockV::Reference(j) => j < p && u[j as int] is Signature,
            UnlockV::Account(j) => j < p,
            UnlockV::Nft(j) => j < p,
        }
}

/// What holds of the state after `n` inputs: `n` unlocks that refer backwards, and every
/// remembered index is one of them, a signature for an Ed25519 address.
pub open spec fn unlock_state_inv(st: UnlockStateV, n: nat) -> bool {
    &&& st.unlocks.len() == n
    &&& refers_backwards(st.unlocks)
    &&& forall|a: AddressV|
        #[trigger] st.index.dom().contains(a) ==> st.index[a] < n && ((a.kind == AddressKind::Ed25519
            || a.kind == AddressKind::ImplicitAccountCreation) ==> st.unlocks[st.index[a] as int] is Signature)
}

proof fn lemma_unlock_all_inv(inputs: Seq<InputV>, slot: u32, range: CommittableAgeRange)
    requires
        unlock_all(inputs, slot, range) is Ok,
    ensures
        unlock_state_inv(unlock_all(inputs, slot, range)->Ok_0, inputs.len()),
    decreases inputs.len(),
{
    if inputs.len() > 0 {
        let init = inputs.drop_last();
        lemma_unlock_all_inv(init, slot, range);
        let st = unlock_all(init, slot, range)->Ok_0;
        let n = init.len();
        let x = inputs.last();
        let a = unlock_key(x.output.required_address(slot, range)->0);
        let st2 = unlock_all(inputs, slot, range)->Ok_0;
        assert(st2.unlocks.len() == n + 1);
        assert(st2.unlocks.drop_last() =~= st.unlocks);
        assert forall|p: int| 0 <= p < st2.unlocks.len() implies match #[trigger] st2.unlocks[p] {
            UnlockV::Signature => true,
            UnlockV::Reference(j) => j < p && st2.unlocks[j as int] is Signature,
            UnlockV::Account(j) => j < p,
            UnlockV::Nft(j) => j < p,
        } by {
            if p < n {
                assert(st2.unlocks[p] == st.unlocks[p]);
                match st.unlocks[p] {
                    UnlockV::Reference(j) => {
                        assert(st2.unlocks[j as int] == st.unlocks[j as int]);
                    },
                    _ => {},
                }
            } else {
                if st.index.dom().contains(a) {
                    assert(st2.unlocks[st.index[a] as int] == st.unlocks[st.index[a] as int]);
                }
            }
        }
        assert forall|b: AddressV| #[trigger] st2.index.dom().contains(b) implies st2.index[b] < n + 1 && ((
        b.kind == AddressKind::Ed25519 || b.kind == AddressKind::ImplicitAccountCreation)
            ==> st2.unlocks[st2.index[b] as int] is Signature) by {
            if st.index.dom().contains(b) && st2.index[b] == st.index[b] {
                assert(st2.unlocks[st.index[b] as int] == st.unlocks[st.index[b] as int]);
            }
        }
    }
}

/// Whether each unlock that refers to another refers to the right input: a reference to an
/// input unlocked through the same address, an account or nft unlock to the input that
/// holds the account or nft through which it is unlocked.
pub open spec fn refers_to_holders(inputs: Seq<InputV>, u: Seq<UnlockV>, slot: u32, range: CommittableAgeRange) -> bool {
    forall|p: int|
        0 <= p < u.len() ==> {
            let a = unlock_key(inputs[p].output.required_address(slot, range)->0);
            match #[trigger] u[p] {
                UnlockV::Signature => true,
                UnlockV::Reference(j) => unlock_key(inputs[j as int].output.required_address(slot, range)->0) == a,
                UnlockV::Account(j) => dependents_address(inputs[j as int]) == Some(a),
                UnlockV::Nft(j) => dependents_address(inputs[j as int]) == Some(a),
            }
        }
}

/// Whether every remembered index names the input that unlocks its address: an input of
/// that Ed25519 key, or the account or nft input that holds it.
pub open spec fn index_names_holders(inputs: Seq<InputV>, st: UnlockStateV, slot: u32, range: CommittableAgeRange) -> bool {
    forall|b: AddressV|
        #[trigger] st.index.dom().contains(b) ==> if b.kind == AddressKind::Ed25519 || b.kind
            == AddressKind::ImplicitAccountCreation {
            unlock_key(inputs[st.index[b] as int].output.required_address(slot, range)->0) == b
        } else {
            dependents_address(inputs[st.index[b] as int]) == Some(b)
        }
}

proof fn lemma_unlock_all_points(inputs: Seq<InputV>, slot: u32, range: CommittableAgeRange)
    requires
        unlock_all(inputs, slot, range) is Ok,
    ensures
        refers_to_holders(inputs, unlock_all(inputs, slot, range)->Ok_0.unlocks, slot, range),
        index_names_holders(inputs, unlock_all(inputs, slot, range)->Ok_0, slot, range),
    decreases inputs.len(),
{
    lemma_unlock_all_inv(inputs, slot, range);
    if inputs.len() > 0 {
        let init = inputs.drop_last();
        lemma_unlock_all_points(init, slot, range);
        lemma_unlock_all_inv(init, slot, range);
        let st = unlock_all(init, slot, range)->Ok_0;
        let n = init.len();
        let x = inputs.last();
        let a = unlock_key(x.output.required_address(slot, range)->0);
        let st2 = unlock_all(inputs, slot, range)->Ok_0;
        assert(st2.unlocks.drop_last() =~= st.unlocks);
        assert forall|j: int| 0 <= j < n implies inputs[j] == init[j] by {}
        assert(inputs[n as int] == x);
        assert forall|p: int| 0 <= p < st2.unlocks.len() implies {
            let c = unlock_key(inputs[p].output.required_address(slot, range)->0);
            match #[trigger] st2.unlocks[p] {
                UnlockV::Signature => true,
                UnlockV::Reference(j) => unlock_key(inputs[j as int].output.required_address(slot, range)->0) == c,
                UnlockV::Account(j) => dependents_address(inputs[j as int]) == Some(c),
                UnlockV::Nft(j) => dependents_address(inputs[j as int]) == Some(c),
            }
        } by {
            if p < n {
                assert(st2.unlocks[p] == st.unlocks[p]);
                match st.unlocks[p] {
                    UnlockV::Reference(j) => {
                        assert(j < n);
                    },
                    UnlockV::Account(j) => {
                        assert(j < n);
                    },
                    UnlockV::Nft(j) => {
                        assert(j < n);
                    },
                    _ => {},
                }
            } else {
                if st.index.dom().contains(a) {
                    assert(st.index[a] < n);
                }
            }
        }
        assert forall|b: AddressV| #[trigger] st2.index.dom().contains(b) implies if b.kind == AddressKind::Ed25519
            || b.kind == AddressKind::ImplicitAccountCreation {
            unlock_key(inputs[st2.index[b] as int].output.required_address(slot, range)->0) == b
        } else {
            dependents_address(inputs[st2.index[b] as int]) == Some(b)
        } by {
            if st.index.dom().contains(b) && st2.index[b] == st.index[b] {
                assert(st.index[b] < n);
            }
        }
    }
}

/// The unlocks of a null transaction are one per input, and each that refers to another
/// unlock refers to an earlier one; a reference refers to a signature of an input unlocked
/// through the same address, an account or nft unlock to the input holding that account or nft.
pub proof fn lemma_null_unlocks_refer_backwards(inputs: Seq<InputV>, slot: u32, range: CommittableAgeRange)
    requires
        null_unlocks(inputs, slot, range) is Ok,
    ensures
        null_unlocks(inputs, slot, range)->Ok_0.len() == inputs.len(),
        refers_backwards(null_unlocks(inputs, slot, range)->Ok_0),
        refers_to_holders(inputs, null_unlocks(inputs, slot, range)->Ok_0, slot, range),
{
    lemma_unlock_all_inv(inputs, slot, range);
    lemma_unlock_all_points(inputs, slot, range);
}

} // verus!
