//! Remainders: where the selected inputs bring more amount, mana or native tokens than the
//! outputs take, the excess goes to existing outputs of the remainder address or into new
//! remainder outputs; storage deposits owed back get outputs of their own.

use vstd::prelude::*;

use crate::amount::{
    amount_sums, amount_sums_fit, inputs_sdr, inputs_view, outputs_sdr, outputs_view, required_output_amount,
    sum_input_amounts,
};
use crate::burn::Burn;
use crate::native_tokens::{
    burn_tokens, get_native_tokens_diff, native_token_balance, native_token_totals, tokens_diff,
};
use crate::ledger::{
    Address, AddressV, Bip44, CommittableAgeRange, Id, InputSigningData, InputV, NativeToken, Output,
    OutputKind, OutputV,
};
use crate::native_tokens::tokens_view;
use crate::selection::{
    basic_output_to, first_where, get_remainder_address, lemma_first_where, lemma_first_where_unique,
    remainder_address_spec, sdr_returns, storage_deposit_return_outputs, SelectionError, SelectionErrorV,
};
use crate::token_amount::TokenAmount;

verus! {

/// The chain of an output: its chain id, except for a basic output, which has none.
pub open spec fn chain_of(o: OutputV) -> Option<Seq<u8>> {
    if o.kind == OutputKind::Basic {
        None
    } else {
        Some(o.chain_id)
    }
}

/// Whether `o` can take an excess for the remainder address `addr`: it is of `chain`, or,
/// without a chain, a basic, account or nft output; it has no expiration and no timelock,
/// and `addr` unlocks it.
pub open spec fn remainder_target(
    o: OutputV,
    chain: Option<Seq<u8>>,
    addr: AddressV,
    slot: u32,
    range: CommittableAgeRange,
) -> bool {
    &&& (chain_of(o) == chain || (chain is None && (o.kind == OutputKind::Basic || o.kind
        == OutputKind::Account || o.kind == OutputKind::Nft)))
    &&& o.expiration is None
    &&& o.timelock is None
    &&& o.required_address(slot, range) == Some(addr)
}

/// Whether some added output can take an excess for `addr` and `chain`.
pub open spec fn target_exists(
    added: Seq<OutputV>,
    chain: Option<Seq<u8>>,
    addr: AddressV,
    slot: u32,
    range: CommittableAgeRange,
) -> bool {
    exists|i: int| 0 <= i < added.len() && #[trigger] remainder_target(added[i], chain, addr, slot, range)
}

/// The chain of an output, by value.
pub(crate) fn chain_of_exec(o: &Output) -> (r: Option<Id>)
    ensures
        match chain_of(o@) {
            Some(c) => r matches Some(i) && i@ == c,
            None => r is None,
        },
{
    if o.kind == OutputKind::Basic {
        None
    } else {
        Some(o.chain_id.clone())
    }
}

/// Whether some added output can take an excess for `addr` and `chain`.
pub fn output_for_remainder_exists(
    added: &Vec<Output>,
    chain: &Option<Id>,
    addr: &Address,
    slot: u32,
    range: CommittableAgeRange,
) -> (r: bool)
    ensures
        r == target_exists(
            outputs_view(added@),
            match chain {
                Some(c) => Some(c@),
                None => None,
            },
            addr@,
            slot,
            range,
        ),
{
    let ghost outs = outputs_view(added@);
    let ghost ch = match chain {
        Some(c) => Some(c@),
        None => None::<Seq<u8>>,
    };
    let mut i: usize = 0;
    while i < added.len()
        invariant
            i <= added@.len(),
            outs == outputs_view(added@),
            ch == match chain {
                Some(c) => Some(c@),
                None => None::<Seq<u8>>,
            },
            forall|j: int| 0 <= j < i ==> !remainder_target(#[trigger] outs[j], ch, addr@, slot, range),
        decreases added@.len() - i,
    {
        let o = &added[i];
        assert(outs[i as int] == o@);
        let own = chain_of_exec(o);
        let chain_fits = match (&own, chain) {
            (Some(a), Some(b)) => a.same(b),
            (None, None) => true,
            _ => false,
        } || (chain.is_none() && (o.kind == OutputKind::Basic || o.kind == OutputKind::Account || o.kind
            == OutputKind::Nft));
        if chain_fits && o.expiration.is_none() && o.timelock.is_none() {
            match o.required_address_at(slot, range) {
                Some(a) => {
                    if a.same(addr) {
                        assert(remainder_target(outs[i as int], ch, addr@, slot, range));
                        return true;
                    }
                },
                None => {},
            }
        }
        i = i + 1;
    }
    false
}

/// Whether an entry of the chain list has key `k`.
pub open spec fn key_is(k: Seq<u8>) -> spec_fn((Seq<u8>, (nat, nat))) -> bool {
    |e: (Seq<u8>, (nat, nat))| e.0 == k
}

/// The list with `v` stored under `k`: in place of an earlier entry, or appended.
pub open spec fn chain_put(s: Seq<(Seq<u8>, (nat, nat))>, k: Seq<u8>, v: (nat, nat)) -> Seq<
    (Seq<u8>, (nat, nat)),
> {
    match first_where(s, key_is(k)) {
        Some(i) => s.update(i, (k, v)),
        None => s.push((k, v)),
    }
}

/// The list with `a` added to the input side of `k`.
pub open spec fn chain_add_in(s: Seq<(Seq<u8>, (nat, nat))>, k: Seq<u8>, a: nat) -> Seq<
    (Seq<u8>, (nat, nat)),
> {
    match first_where(s, key_is(k)) {
        Some(i) => s.update(i, (k, (s[i].1.0 + a, s[i].1.1))),
        None => s.push((k, (a, 0))),
    }
}

/// The amount of each chain among the outputs, with nothing on the input side; a later
/// output of a chain replaces an earlier one.
pub open spec fn output_chains(outputs: Seq<OutputV>) -> Seq<(Seq<u8>, (nat, nat))>
    decreases outputs.len(),
{
    if outputs.len() == 0 {
        Seq::empty()
    } else {
        let s = output_chains(outputs.drop_last());
        match chain_of(outputs.last()) {
            Some(k) => chain_put(s, k, (0, outputs.last().amount as nat)),
            None => s,
        }
    }
}

/// The input and output amounts of each chain: the outputs' amounts, and the amounts of
/// the selected inputs of the chain, whose null ids are derived from their output ids.
pub open spec fn amount_chains_spec(outputs: Seq<OutputV>, inputs: Seq<InputV>) -> Seq<(Seq<u8>, (nat, nat))>
    decreases inputs.len(),
{
    if inputs.len() == 0 {
        output_chains(outputs)
    } else {
        let s = amount_chains_spec(outputs, inputs.drop_last());
        let x = inputs.last();
        match chain_of(x.output) {
            Some(_) => chain_add_in(s, x.output.chain_id_non_null(x.output_id), x.output.amount as nat),
            None => s,
        }
    }
}

/// The list of chains by value.
pub open spec fn chains_view(v: Seq<(Id, u64, u64)>) -> Seq<(Seq<u8>, (nat, nat))> {
    v.map_values(|e: (Id, u64, u64)| (e.0@, (e.1 as nat, e.2 as nat)))
}

/// The position of the entry of `k`, if any.
pub(crate) fn find_chain(v: &Vec<(Id, u64, u64)>, k: &Id) -> (r: Option<usize>)
    ensures
        first_where(chains_view(v@), key_is(k@)) == match r {
            Some(i) => Some(i as int),
            None => None::<int>,
        },
{
    let ghost s = chains_view(v@);
    let ghost p = key_is(k@);
    let mut i: usize = 0;
    while i < v.len()
        invariant
            i <= v@.len(),
            s == chains_view(v@),
            p == key_is(k@),
            forall|j: int| 0 <= j < i ==> !p(#[trigger] s[j]),
        decreases v@.len() - i,
    {
        assert(s[i as int].0 == v@[i as int].0@);
        if v[i].0.same(k) {
            proof {
                lemma_first_where_unique(s, p, i as int);
            }
            return Some(i);
        }
        i = i + 1;
    }
    proof {
        lemma_first_where(s, p);
    }
    None
}

/// Whether every input-side amount of the list is at most `bound`.
pub open spec fn inputs_at_most(s: Seq<(Seq<u8>, (nat, nat))>, bound: nat) -> bool {
    forall|i: int| 0 <= i < s.len() ==> #[trigger] s[i].1.0 <= bound
}

/// The input-side amounts of the chains are at most the total of the inputs.
proof fn lemma_amount_chains_bound(outputs: Seq<OutputV>, inputs: Seq<InputV>)
    ensures
        inputs_at_most(amount_chains_spec(outputs, inputs), sum_input_amounts(inputs)),
        forall|i: int|
            0 <= i < amount_chains_spec(outputs, inputs).len() ==> #[trigger] amount_chains_spec(
                outputs,
                inputs,
            )[i].1.1 <= u64::MAX,
    decreases inputs.len(),
{
    if inputs.len() == 0 {
        lemma_output_chains_bound(outputs);
    } else {
        let init = inputs.drop_last();
        lemma_amount_chains_bound(outputs, init);
        let s = amount_chains_spec(outputs, init);
        let x = inputs.last();
        if chain_of(x.output) is Some {
            let k = x.output.chain_id_non_null(x.output_id);
            lemma_first_where(s, key_is(k));
        }
    }
}

proof fn lemma_output_chains_bound(outputs: Seq<OutputV>)
    ensures
        inputs_at_most(output_chains(outputs), 0),
        forall|i: int| 0 <= i < output_chains(outputs).len() ==> #[trigger] output_chains(outputs)[i].1.1 <= u64::MAX,
    decreases outputs.len(),
{
    if outputs.len() > 0 {
        lemma_output_chains_bound(outputs.drop_last());
        let s = output_chains(outputs.drop_last());
        if let Some(k) = chain_of(outputs.last()) {
            lemma_first_where(s, key_is(k));
        }
    }
}

/// The input and output amounts of each chain; see `amount_chains_spec`.
pub fn amount_chains(outputs: &Vec<Output>, selected: &Vec<InputSigningData>) -> (r: Vec<(Id, u64, u64)>)
    requires
        sum_input_amounts(inputs_view(selected@)) <= u64::MAX,
    ensures
        chains_view(r@) == amount_chains_spec(outputs_view(outputs@), inputs_view(selected@)),
{
    let ghost outs = outputs_view(outputs@);
    let ghost ins = inputs_view(selected@);
    let mut r: Vec<(Id, u64, u64)> = Vec::new();
    let mut j: usize = 0;
    assert(outs.take(0) =~= Seq::<OutputV>::empty());
    assert(chains_view(r@) =~= Seq::<(Seq<u8>, (nat, nat))>::empty());
    while j < outputs.len()
        invariant
            j <= outputs@.len(),
            outs == outputs_view(outputs@),
            chains_view(r@) == output_chains(outs.take(j as int)),
        decreases outputs@.len() - j,
    {
        let ghost s0 = chains_view(r@);
        proof {
            assert(outs.take(j + 1).drop_last() =~= outs.take(j as int));
            assert(outs.take(j + 1).last() == outputs@[j as int]@);
        }
        let o = &outputs[j];
        match chain_of_exec(o) {
            Some(k) => {
                let ghost kv = k@;
                let found = find_chain(&r, &k);
                proof {
                    lemma_first_where(s0, key_is(kv));
                }
                match found {
                    Some(i) => {
                        r.set(i, (k, 0, o.amount));
                        assert(chains_view(r@) =~= s0.update(i as int, (kv, (0nat, o.amount as nat))));
                    },
                    None => {
                        r.push((k, 0, o.amount));
                        assert(chains_view(r@) =~= s0.push((kv, (0nat, o.amount as nat))));
                    },
                }
            },
            None => {},
        }
        j = j + 1;
    }
    assert(outs.take(j as int) =~= outs);
    let mut i: usize = 0;
    assert(ins.take(0) =~= Seq::<InputV>::empty());
    while i < selected.len()
        invariant
            i <= selected@.len(),
            outs == outputs_view(outputs@),
            ins == inputs_view(selected@),
            sum_input_amounts(ins) <= u64::MAX,
            chains_view(r@) == amount_chains_spec(outs, ins.take(i as int)),
        decreases selected@.len() - i,
    {
        let ghost s0 = chains_view(r@);
        proof {
            assert(ins.take(i + 1).drop_last() =~= ins.take(i as int));
            assert(ins.take(i + 1).last() == selected@[i as int]@);
            lemma_amount_chains_bound(outs, ins.take(i as int));
            crate::amount::lemma_sum_inputs_prefix(ins, i + 1);
            assert(sum_input_amounts(ins.take(i + 1)) == sum_input_amounts(ins.take(i as int))
                + selected@[i as int].output.amount);
        }
        let x = &selected[i];
        if x.output.kind != OutputKind::Basic {
            let k = x.output.chain_id_non_null_exec(&x.output_id);
            let ghost kv = k@;
            match find_chain(&r, &k) {
                Some(p) => {
                    proof {
                        lemma_first_where(s0, key_is(kv));
                    }
                    let (_, a_in, a_out) = r[p];
                    assert(s0[p as int].1.0 == a_in);
                    r.set(p, (k, a_in + x.output.amount, a_out));
                    assert(chains_view(r@) =~= s0.update(
                        p as int,
                        (kv, ((a_in + x.output.amount) as nat, a_out as nat)),
                    ));
                },
                None => {
                    r.push((k, x.output.amount, 0));
                    assert(chains_view(r@) =~= s0.push((kv, (x.output.amount as nat, 0nat))));
                },
            }
        }
        i = i + 1;
    }
    assert(ins.take(i as int) =~= ins);
    r
}

/// The smaller of two numbers.
pub open spec fn min_nat(a: nat, b: nat) -> nat {
    if a < b {
        a
    } else {
        b
    }
}

/// The excess `diff`, above what must stay in reserve, given in turn to each chain whose
/// inputs bring more than its outputs take and for which an added output can take it: each
/// gets the smaller of what is left and its own excess. Gives what is left and the amounts
/// given, by chain.
pub open spec fn allocate_chains(
    chains: Seq<(Seq<u8>, (nat, nat))>,
    diff: nat,
    reserve: nat,
    added: Seq<OutputV>,
    addr: AddressV,
    slot: u32,
    range: CommittableAgeRange,
) -> (nat, Seq<(Option<Seq<u8>>, nat)>)
    decreases chains.len(),
{
    if chains.len() == 0 {
        (diff, Seq::empty())
    } else {
        let (d, given) = allocate_chains(chains.drop_last(), diff, reserve, added, addr, slot, range);
        let (k, (i, o)) = chains.last();
        if i > o && (target_exists(added, Some(k), addr, slot, range) || target_exists(
            added,
            None,
            addr,
            slot,
            range,
        )) {
            let x = min_nat((d - reserve) as nat, (i - o) as nat);
            ((d - x) as nat, given.push((Some(k), x)))
        } else {
            (d, given)
        }
    }
}

/// The allocation of an excess above `reserve` to existing outputs: first to the chains,
/// then what is still left to any output of the remainder address.
pub open spec fn allocate_excess(
    chains: Seq<(Seq<u8>, (nat, nat))>,
    diff: nat,
    reserve: nat,
    added: Seq<OutputV>,
    addr: AddressV,
    slot: u32,
    range: CommittableAgeRange,
) -> (nat, Seq<(Option<Seq<u8>>, nat)>) {
    if diff > reserve {
        let (d, given) = allocate_chains(chains, diff, reserve, added, addr, slot, range);
        if d > reserve && target_exists(added, None, addr, slot, range) {
            (reserve, given.push((None, (d - reserve) as nat)))
        } else {
            (d, given)
        }
    } else {
        (diff, Seq::empty())
    }
}

/// What is left stays between the reserve and the excess.
proof fn lemma_allocate_chains_bounds(
    chains: Seq<(Seq<u8>, (nat, nat))>,
    diff: nat,
    reserve: nat,
    added: Seq<OutputV>,
    addr: AddressV,
    slot: u32,
    range: CommittableAgeRange,
)
    requires
        reserve <= diff,
    ensures
        reserve <= allocate_chains(chains, diff, reserve, added, addr, slot, range).0 <= diff,
    decreases chains.len(),
{
    if chains.len() > 0 {
        lemma_allocate_chains_bounds(chains.drop_last(), diff, reserve, added, addr, slot, range);
    }
}

/// The amounts given, by value.
pub open spec fn given_view(v: Seq<(Option<Id>, u64)>) -> Seq<(Option<Seq<u8>>, nat)> {
    v.map_values(
        |e: (Option<Id>, u64)|
            (
                match e.0 {
                    Some(i) => Some(i@),
                    None => None,
                },
                e.1 as nat,
            ),
    )
}

/// Allocates an excess above `reserve` to existing outputs; see `allocate_excess`.
pub fn allocate_to_outputs(
    chains: &Vec<(Id, u64, u64)>,
    diff: u64,
    reserve: u64,
    added: &Vec<Output>,
    addr: &Address,
    slot: u32,
    range: CommittableAgeRange,
) -> (r: (u64, Vec<(Option<Id>, u64)>))
    ensures
        allocate_excess(chains_view(chains@), diff as nat, reserve as nat, outputs_view(added@), addr@, slot, range)
            == (r.0 as nat, given_view(r.1@)),
{
    let ghost cs = chains_view(chains@);
    let ghost outs = outputs_view(added@);
    let mut given: Vec<(Option<Id>, u64)> = Vec::new();
    assert(given_view(given@) =~= Seq::<(Option<Seq<u8>>, nat)>::empty());
    if diff <= reserve {
        return (diff, given);
    }
    let none: Option<Id> = None;
    let exists_none = output_for_remainder_exists(added, &none, addr, slot, range);
    let mut d = diff;
    let mut i: usize = 0;
    assert(cs.take(0) =~= Seq::<(Seq<u8>, (nat, nat))>::empty());
    while i < chains.len()
        invariant
            i <= chains@.len(),
            cs == chains_view(chains@),
            outs == outputs_view(added@),
            reserve <= d <= diff,
            exists_none == target_exists(outs, None, addr@, slot, range),
            allocate_chains(cs.take(i as int), diff as nat, reserve as nat, outs, addr@, slot, range) == (
                d as nat,
                given_view(given@),
            ),
        decreases chains@.len() - i,
    {
        let ghost g0 = given_view(given@);
        proof {
            assert(cs.take(i + 1).drop_last() =~= cs.take(i as int));
            assert(cs.take(i + 1).last() == cs[i as int]);
        }
        let (k, a_in, a_out) = (&chains[i].0, chains[i].1, chains[i].2);
        if a_in > a_out {
            let some_k = Some(k.clone());
            let fits = output_for_remainder_exists(added, &some_k, addr, slot, range) || exists_none;
            if fits {
                let left = d - reserve;
                let own = a_in - a_out;
                let x = if left < own {
                    left
                } else {
                    own
                };
                d = d - x;
                given.push((some_k, x));
                assert(given_view(given@) =~= g0.push((Some(k@), x as nat)));
            }
        }
        i = i + 1;
    }
    assert(cs.take(i as int) =~= cs);
    if d > reserve && exists_none {
        let ghost g0 = given_view(given@);
        given.push((None, d - reserve));
        assert(given_view(given@) =~= g0.push((None, (d - reserve) as nat)));
        d = reserve;
    }
    (d, given)
}

/// An output that holds part of a remainder.
#[derive(Debug)]
pub struct RemainderData {
    pub output: Output,
    /// The BIP-44 chain of the key that unlocks the remainder address, where known.
    pub chain: Option<Bip44>,
    pub address: Address,
}

/// The value of a remainder output.
pub struct RemainderDataV {
    pub output: OutputV,
    pub chain: Option<Bip44>,
    pub address: AddressV,
}

impl View for RemainderData {
    type V = RemainderDataV;

    open spec fn view(&self) -> RemainderDataV {
        RemainderDataV { output: self.output@, chain: self.chain, address: self.address@ }
    }
}

/// The values of a list of remainder outputs.
pub open spec fn remainders_view(s: Seq<RemainderData>) -> Seq<RemainderDataV> {
    s.map_values(|r: RemainderData| r@)
}

/// A basic output to `addr` holding `amount`, `mana` and possibly a native token.
pub open spec fn remainder_output(addr: AddressV, amount: u64, mana: u64, token: Option<(Seq<u8>, nat)>) -> OutputV {
    OutputV { mana, native_token: token, ..basic_output_to(addr, amount) }
}

/// `x` less `m`, `n` times over, stopping at zero.
pub open spec fn sat_sub_times(x: nat, m: nat, n: nat) -> nat
    decreases n,
{
    if n == 0 {
        x
    } else {
        sat_sub_times(if x >= m {
            (x - m) as nat
        } else {
            0
        }, m, (n - 1) as nat)
    }
}

/// The outputs of a remainder: one output per native token but the last, each holding
/// `token_min_amount`, then a catch-all output with the amount left, the mana, and the last
/// native token; the error where the catch-all holds less than `catchall_min_amount`.
pub open spec fn remainder_outputs(
    amount_diff: u64,
    mana_diff: u64,
    tokens: Seq<(Seq<u8>, nat)>,
    addr: AddressV,
    chain: Option<Bip44>,
    token_min_amount: u64,
    catchall_min_amount: u64,
) -> Result<Seq<RemainderDataV>, SelectionErrorV> {
    let others = if tokens.len() > 0 {
        tokens.drop_last()
    } else {
        tokens
    };
    let last = if tokens.len() > 0 {
        Some(tokens.last())
    } else {
        None
    };
    let left = sat_sub_times(amount_diff as nat, token_min_amount as nat, others.len()) as u64;
    if left < catchall_min_amount {
        Err(SelectionErrorV::InsufficientStorageDepositAmount { amount: left, required: catchall_min_amount })
    } else {
        Ok(
            others.map_values(
                |t: (Seq<u8>, nat)|
                    RemainderDataV {
                        output: remainder_output(addr, token_min_amount, 0, Some(t)),
                        chain,
                        address: addr,
                    },
            ).push(
                RemainderDataV { output: remainder_output(addr, left, mana_diff, last), chain, address: addr },
            ),
        )
    }
}

/// Creates the outputs of a remainder; see `remainder_outputs`.
pub fn create_remainder_outputs(
    amount_diff: u64,
    mana_diff: u64,
    tokens: &Vec<(Id, TokenAmount)>,
    addr: &Address,
    chain: Option<Bip44>,
    token_min_amount: u64,
    catchall_min_amount: u64,
) -> (r: Result<Vec<RemainderData>, SelectionError>)
    ensures
        remainder_outputs(
            amount_diff,
            mana_diff,
            tokens_view(tokens@),
            addr@,
            chain,
            token_min_amount,
            catchall_min_amount,
        ) == match r {
            Ok(v) => Ok::<Seq<RemainderDataV>, SelectionErrorV>(remainders_view(v@)),
            Err(e) => Err(e@),
        },
{
    let ghost tv = tokens_view(tokens@);
    let n_others: usize = if tokens.len() > 0 {
        tokens.len() - 1
    } else {
        0
    };
    let ghost others = if tv.len() > 0 {
        tv.drop_last()
    } else {
        tv
    };
    let ghost item = |t: (Seq<u8>, nat)|
        RemainderDataV {
            output: remainder_output(addr@, token_min_amount, 0, Some(t)),
            chain,
            address: addr@,
        };
    let mut data: Vec<RemainderData> = Vec::new();
    let mut left = amount_diff;
    let mut i: usize = 0;
    assert(remainders_view(data@) =~= others.take(0).map_values(item));
    while i < n_others
        invariant
            i <= n_others,
            n_others == others.len(),
            tv == tokens_view(tokens@),
            n_others < tokens@.len() || n_others == 0,
            others == (if tv.len() > 0 {
                tv.drop_last()
            } else {
                tv
            }),
            item == (|t: (Seq<u8>, nat)|
                RemainderDataV {
                    output: remainder_output(addr@, token_min_amount, 0, Some(t)),
                    chain,
                    address: addr@,
                }),
            remainders_view(data@) == others.take(i as int).map_values(item),
            sat_sub_times(amount_diff as nat, token_min_amount as nat, others.len()) == sat_sub_times(
                left as nat,
                token_min_amount as nat,
                (others.len() - i) as nat,
            ),
        decreases n_others - i,
    {
        let ghost d0 = remainders_view(data@);
        let t = &tokens[i];
        assert(others[i as int] == tv[i as int]);
        assert(tv[i as int] == (t.0@, t.1@));
        let out = Output {
            kind: OutputKind::Basic,
            amount: token_min_amount,
            mana: 0,
            chain_id: Id::new(Vec::new()),
            address: addr.clone(),
            storage_deposit_return: None,
            expiration: None,
            timelock: None,
            native_token: Some(NativeToken { token_id: t.0.clone(), amount: t.1 }),
            circulating_supply: None,
            sender: None,
            issuer: None,
            block_issuer: None,
            staking: None,
            foundry_counter: 0,
            serial_number: 0,
            other_features: false,
        };
        let rd = RemainderData { output: out, chain, address: addr.clone() };
        assert(rd@ == item(others[i as int]));
        data.push(rd);
        proof {
            assert(others.take(i + 1) =~= others.take(i as int).push(others[i as int]));
            assert(others.take(i + 1).map_values(item) =~= others.take(i as int).map_values(item).push(
                item(others[i as int]),
            ));
        }
        left = left.saturating_sub(token_min_amount);
        i = i + 1;
    }
    assert(others.take(i as int) =~= others);
    if left < catchall_min_amount {
        return Err(SelectionError::InsufficientStorageDepositAmount { amount: left, required: catchall_min_amount });
    }
    let token = if tokens.len() > 0 {
        let t = &tokens[tokens.len() - 1];
        assert(tv.last() == (t.0@, t.1@));
        Some(NativeToken { token_id: t.0.clone(), amount: t.1 })
    } else {
        None
    };
    let catchall = Output {
        kind: OutputKind::Basic,
        amount: left,
        mana: mana_diff,
        chain_id: Id::new(Vec::new()),
        address: addr.clone(),
        storage_deposit_return: None,
        expiration: None,
        timelock: None,
        native_token: token,
        circulating_supply: None,
        sender: None,
        issuer: None,
        block_issuer: None,
        staking: None,
        foundry_counter: 0,
        serial_number: 0,
        other_features: false,
    };
    let ghost d0 = remainders_view(data@);
    data.push(RemainderData { output: catchall, chain, address: addr.clone() });
    assert(remainders_view(data@) =~= d0.push(remainders_view(data@).last()));
    Ok(data)
}

/// The mana figures of a transaction, which the protocol's mana rules give: the mana that
/// the selected inputs bring, the mana that the outputs and allotments take, the excess of
/// the required inputs before selection, and the input and output mana of each chain.
#[derive(Debug)]
pub struct ManaFigures {
    pub input_mana: u64,
    pub output_mana: u64,
    pub initial_excess: u64,
    pub chains: Vec<(Id, u64, u64)>,
}

/// The remainders of a transaction: the remainder address asked for, the remainder
/// outputs, the outputs that return storage deposits, and the amounts and mana given to
/// existing outputs, by chain (none for any output of the remainder address).
#[derive(Debug)]
pub struct Remainders {
    pub address: Option<Address>,
    pub data: Vec<RemainderData>,
    pub storage_deposit_returns: Vec<Output>,
    pub added_amount: Vec<(Option<Id>, u64)>,
    pub added_mana: Vec<(Option<Id>, u64)>,
}

/// The value of the remainders.
pub struct RemaindersV {
    pub address: Option<AddressV>,
    pub data: Seq<RemainderDataV>,
    pub storage_deposit_returns: Seq<OutputV>,
    pub added_amount: Seq<(Option<Seq<u8>>, nat)>,
    pub added_mana: Seq<(Option<Seq<u8>>, nat)>,
}

impl View for Remainders {
    type V = RemaindersV;

    open spec fn view(&self) -> RemaindersV {
        RemaindersV {
            address: match self.address {
                Some(a) => Some(a@),
                None => None,
            },
            data: remainders_view(self.data@),
            storage_deposit_returns: outputs_view(self.storage_deposit_returns@),
            added_amount: given_view(self.added_amount@),
            added_mana: given_view(self.added_mana@),
        }
    }
}

/// The native tokens that the inputs bring beyond what goes out, per token id.
pub open spec fn remainder_tokens(selected: Seq<InputV>, outputs: Seq<OutputV>, burn: Option<Burn>) -> Seq<
    (Seq<u8>, nat),
> {
    let (incoming, outgoing) = native_token_balance(selected, outputs, burn_tokens(burn))->0;
    tokens_diff(incoming, outgoing)
}

/// The mana left for remainders: what the inputs bring beyond what goes out, less the
/// initial excess where the burn burns mana.
pub open spec fn mana_excess(input_mana: u64, output_mana: u64, initial_excess: u64, burn: Option<Burn>) -> nat {
    let d = (input_mana - output_mana) as nat;
    if burn matches Some(b) && b@.mana {
        if d >= initial_excess {
            (d - initial_excess) as nat
        } else {
            0
        }
    } else {
        d
    }
}

/// The remainders of a transaction whose outputs are `provided` and `added`: storage
/// deposit returns; the excess amount, above what the native token remainders need, and
/// the excess mana given to existing outputs of the remainder address; and remainder
/// outputs for what is left and for the native tokens in excess. The error where there is
/// no remainder address or the catch-all remainder lacks its storage deposit.
pub open spec fn update_remainders_spec(
    selected: Seq<InputV>,
    provided: Seq<OutputV>,
    added: Seq<OutputV>,
    available: Seq<InputV>,
    configured: Option<AddressV>,
    burn: Option<Burn>,
    slot: u32,
    range: CommittableAgeRange,
    input_mana: u64,
    output_mana: u64,
    initial_excess: u64,
    mana_chains: Seq<(Seq<u8>, (nat, nat))>,
    token_min_amount: u64,
    catchall_min_amount: u64,
) -> Result<RemaindersV, SelectionErrorV> {
    let outputs = provided + added;
    let sdr = sdr_returns(inputs_sdr(selected, slot), outputs_sdr(outputs));
    let tokens = remainder_tokens(selected, outputs, burn);
    let amount_diff = (sum_input_amounts(selected) - required_output_amount(selected, outputs, slot)) as nat;
    let mana_diff = mana_excess(input_mana, output_mana, initial_excess, burn);
    match remainder_address_spec(configured, available, selected, slot, range) {
        None => Err(SelectionErrorV::MissingInputWithEd25519Address),
        Some((addr, chain)) => {
            let reserve = if tokens.len() > 0 {
                token_min_amount * tokens.len()
            } else {
                0
            };
            let (amount_left, added_amount) = allocate_excess(
                amount_chains_spec(outputs, selected),
                amount_diff,
                reserve as nat,
                added,
                addr,
                slot,
                range,
            );
            let (mana_left, added_mana) = allocate_excess(mana_chains, mana_diff, 0, added, addr, slot, range);
            if amount_left == 0 && mana_left == 0 && tokens.len() == 0 {
                Ok(
                    RemaindersV {
                        address: configured,
                        data: Seq::empty(),
                        storage_deposit_returns: sdr,
                        added_amount,
                        added_mana,
                    },
                )
            } else {
                match remainder_outputs(
                    amount_left as u64,
                    mana_left as u64,
                    tokens,
                    addr,
                    chain,
                    token_min_amount,
                    catchall_min_amount,
                ) {
                    Err(e) => Err(e),
                    Ok(data) => Ok(
                        RemaindersV {
                            address: configured,
                            data,
                            storage_deposit_returns: sdr,
                            added_amount,
                            added_mana,
                        },
                    ),
                }
            }
        },
    }
}

/// Whether the inputs of `update_remainders` are those on which it does not panic: the sums
/// fit, the inputs cover the amount and the mana that go out, and the storage deposits of
/// the native token remainders fit in 64 bits.
pub open spec fn remainders_computable(
    selected: Seq<InputV>,
    outputs: Seq<OutputV>,
    burn: Option<Burn>,
    slot: u32,
    input_mana: u64,
    output_mana: u64,
    token_min_amount: u64,
) -> bool {
    &&& amount_sums_fit(selected, outputs, slot)
    &&& sum_input_amounts(selected) >= required_output_amount(selected, outputs, slot)
    &&& native_token_balance(selected, outputs, burn_tokens(burn)) is Some
    &&& input_mana >= output_mana
    &&& token_min_amount * remainder_tokens(selected, outputs, burn).len() <= u64::MAX
}

/// A copy of a list of outputs, followed by a copy of another.
fn concat_outputs(a: &Vec<Output>, b: &Vec<Output>) -> (r: Vec<Output>)
    ensures
        outputs_view(r@) == outputs_view(a@) + outputs_view(b@),
{
    let mut r: Vec<Output> = Vec::new();
    let mut i: usize = 0;
    while i < a.len()
        invariant
            i <= a@.len(),
            outputs_view(r@) == outputs_view(a@).take(i as int),
        decreases a@.len() - i,
    {
        let ghost r0 = outputs_view(r@);
        let o = a[i].clone();
        r.push(o);
        assert(outputs_view(r@) =~= r0.push(a@[i as int]@));
        assert(outputs_view(a@).take(i + 1) =~= outputs_view(a@).take(i as int).push(a@[i as int]@));
        i = i + 1;
    }
    assert(outputs_view(a@).take(i as int) =~= outputs_view(a@));
    let mut j: usize = 0;
    while j < b.len()
        invariant
            j <= b@.len(),
            outputs_view(r@) == outputs_view(a@) + outputs_view(b@).take(j as int),
        decreases b@.len() - j,
    {
        let ghost r0 = outputs_view(r@);
        let o = b[j].clone();
        r.push(o);
        assert(outputs_view(r@) =~= r0.push(b@[j as int]@));
        assert(outputs_view(b@).take(j + 1) =~= outputs_view(b@).take(j as int).push(b@[j as int]@));
        j = j + 1;
    }
    assert(outputs_view(b@).take(j as int) =~= outputs_view(b@));
    r
}

/// Computes the remainders of a transaction; see `update_remainders_spec`. The mana
/// figures and the storage deposits of the remainder outputs (one holding a native token,
/// and the catch-all) come from the protocol's rules.
pub fn update_remainders(
    selected: &Vec<InputSigningData>,
    provided: &Vec<Output>,
    added: &Vec<Output>,
    available: &Vec<InputSigningData>,
    configured: &Option<Address>,
    burn: &Option<Burn>,
    slot: u32,
    range: CommittableAgeRange,
    mana: &ManaFigures,
    token_min_amount: u64,
    catchall_min_amount: u64,
) -> (r: Result<Remainders, SelectionError>)
    requires
        remainders_computable(
            inputs_view(selected@),
            outputs_view(provided@) + outputs_view(added@),
            *burn,
            slot,
            mana.input_mana,
            mana.output_mana,
            token_min_amount,
        ),
    ensures
        update_remainders_spec(
            inputs_view(selected@),
            outputs_view(provided@),
            outputs_view(added@),
            inputs_view(available@),
            match configured {
                Some(a) => Some(a@),
                None => None,
            },
            *burn,
            slot,
            range,
            mana.input_mana,
            mana.output_mana,
            mana.initial_excess,
            chains_view(mana.chains@),
            token_min_amount,
            catchall_min_amount,
        ) == match r {
            Ok(v) => Ok::<RemaindersV, SelectionErrorV>(v@),
            Err(e) => Err(e@),
        },
{
    let ghost sel = inputs_view(selected@);
    let outputs = concat_outputs(provided, added);
    let ghost outs = outputs_view(outputs@);
    let (amount_in, amount_out, in_sdr, out_sdr) = amount_sums(selected, &outputs, slot);
    let storage_deposit_returns = storage_deposit_return_outputs(&in_sdr, &out_sdr);
    let (incoming, outgoing) = native_token_totals(selected, &outputs, burn);
    let tokens = match get_native_tokens_diff(&incoming, &outgoing) {
        Some(d) => d,
        None => {
            let d: Vec<(Id, TokenAmount)> = Vec::new();
            assert(tokens_view(d@) =~= Seq::<(Seq<u8>, nat)>::empty());
            d
        },
    };
    assert(tokens_view(tokens@) == remainder_tokens(sel, outs, *burn));
    let amount_diff = amount_in - amount_out;
    let mut mana_diff = mana.input_mana - mana.output_mana;
    match burn {
        Some(b) => if b.mana() {
            mana_diff = mana_diff.saturating_sub(mana.initial_excess);
        },
        None => {},
    }
    assert(mana_diff == mana_excess(mana.input_mana, mana.output_mana, mana.initial_excess, *burn));
    let (addr, chain) = match get_remainder_address(configured, available, selected, slot, range) {
        Some(p) => p,
        None => {
            return Err(SelectionError::MissingInputWithEd25519Address);
        },
    };
    let reserve: u64 = if tokens.len() > 0 {
        token_min_amount * (tokens.len() as u64)
    } else {
        0
    };
    let chains = amount_chains(&outputs, selected);
    let (amount_left, added_amount) = allocate_to_outputs(&chains, amount_diff, reserve, added, &addr, slot, range);
    let (mana_left, added_mana) = allocate_to_outputs(&mana.chains, mana_diff, 0, added, &addr, slot, range);
    if amount_left == 0 && mana_left == 0 && tokens.len() == 0 {
        let data: Vec<RemainderData> = Vec::new();
        assert(remainders_view(data@) =~= Seq::<RemainderDataV>::empty());
        return Ok(
            Remainders {
                address: match configured {
                    Some(a) => Some(a.clone()),
                    None => None,
                },
                data,
                storage_deposit_returns,
                added_amount,
                added_mana,
            },
        );
    }
    match create_remainder_outputs(amount_left, mana_left, &tokens, &addr, chain, token_min_amount, catchall_min_amount) {
        Err(e) => Err(e),
        Ok(data) => Ok(
            Remainders {
                address: match configured {
                    Some(a) => Some(a.clone()),
                    None => None,
                },
                data,
                storage_deposit_returns,
                added_amount,
                added_mana,
            },
        ),
    }
}

/// The total of the amounts given.
pub open spec fn given_total(g: Seq<(Option<Seq<u8>>, nat)>) -> nat
    decreases g.len(),
{
    if g.len() == 0 {
        0
    } else {
        given_total(g.drop_last()) + g.last().1
    }
}

/// The total amount of the remainder outputs.
pub open spec fn data_amount(d: Seq<RemainderDataV>) -> nat
    decreases d.len(),
{
    if d.len() == 0 {
        0
    } else {
        data_amount(d.drop_last()) + d.last().output.amount as nat
    }
}

/// The total mana of the remainder outputs.
pub open spec fn data_mana(d: Seq<RemainderDataV>) -> nat
    decreases d.len(),
{
    if d.len() == 0 {
        0
    } else {
        data_mana(d.drop_last()) + d.last().output.mana as nat
    }
}

proof fn lemma_allocate_chains_conserves(
    chains: Seq<(Seq<u8>, (nat, nat))>,
    diff: nat,
    reserve: nat,
    added: Seq<OutputV>,
    addr: AddressV,
    slot: u32,
    range: CommittableAgeRange,
)
    requires
        reserve <= diff,
    ensures
        ({
            let (d, g) = allocate_chains(chains, diff, reserve, added, addr, slot, range);
            d + given_total(g) == diff && reserve <= d
        }),
    decreases chains.len(),
{
    if chains.len() > 0 {
        lemma_allocate_chains_conserves(chains.drop_last(), diff, reserve, added, addr, slot, range);
        let (d, g) = allocate_chains(chains, diff, reserve, added, addr, slot, range);
        if g.len() > 0 {
            let (d0, g0) = allocate_chains(chains.drop_last(), diff, reserve, added, addr, slot, range);
            if g != g0 {
                assert(g.drop_last() =~= g0);
            }
        }
    }
}

/// What an allocation gives and what it leaves make up the excess; it leaves at least the
/// reserve where the excess reaches it.
proof fn lemma_allocate_excess_conserves(
    chains: Seq<(Seq<u8>, (nat, nat))>,
    diff: nat,
    reserve: nat,
    added: Seq<OutputV>,
    addr: AddressV,
    slot: u32,
    range: CommittableAgeRange,
)
    ensures
        ({
            let (d, g) = allocate_excess(chains, diff, reserve, added, addr, slot, range);
            &&& d + given_total(g) == diff
            &&& diff >= reserve ==> d >= reserve
            &&& diff < reserve ==> d == diff
        }),
{
    if diff > reserve {
        lemma_allocate_chains_conserves(chains, diff, reserve, added, addr, slot, range);
        let (d, g) = allocate_chains(chains, diff, reserve, added, addr, slot, range);
        if d > reserve && target_exists(added, None, addr, slot, range) {
            let g2 = g.push((None, (d - reserve) as nat));
            assert(g2.drop_last() =~= g);
        }
    } else {
        assert(given_total(Seq::<(Option<Seq<u8>>, nat)>::empty()) == 0);
    }
}

proof fn lemma_sat_sub_times(x: nat, m: nat, n: nat)
    requires
        x >= m * n,
    ensures
        sat_sub_times(x, m, n) == x - m * n,
    decreases n,
{
    if n > 0 {
        assert(m * n == m + m * (n - 1)) by (nonlinear_arith)
            requires
                n >= 1,
        ;
        lemma_sat_sub_times((x - m) as nat, m, (n - 1) as nat);
        assert(sat_sub_times(x, m, n) == sat_sub_times((x - m) as nat, m, (n - 1) as nat));
    } else {
        assert(m * n == 0) by (nonlinear_arith)
            requires
                n == 0,
        ;
    }
}

proof fn lemma_token_remainders_totals(others: Seq<(Seq<u8>, nat)>, addr: AddressV, chain: Option<Bip44>, m: u64)
    ensures
        ({
            let d = others.map_values(
                |t: (Seq<u8>, nat)|
                    RemainderDataV { output: remainder_output(addr, m, 0, Some(t)), chain, address: addr },
            );
            data_amount(d) == m * others.len() && data_mana(d) == 0
        }),
    decreases others.len(),
{
    let item = |t: (Seq<u8>, nat)|
        RemainderDataV { output: remainder_output(addr, m, 0, Some(t)), chain, address: addr };
    let d = others.map_values(item);
    if others.len() > 0 {
        lemma_token_remainders_totals(others.drop_last(), addr, chain, m);
        assert(d.drop_last() =~= others.drop_last().map_values(item));
        assert(m * others.len() == m * (others.len() - 1) + m) by (nonlinear_arith)
            requires
                others.len() >= 1,
        ;
    } else {
        assert(d.len() == 0);
    }
}

/// The remainders account for all of the excess: the amount that the inputs bring beyond
/// what the outputs need is what is given to existing outputs plus what the remainder
/// outputs hold, wherever that excess covers the native token remainders but one; the
/// excess mana is what is given plus what the remainders hold.
pub proof fn lemma_remainders_balance(
    selected: Seq<InputV>,
    provided: Seq<OutputV>,
    added: Seq<OutputV>,
    available: Seq<InputV>,
    configured: Option<AddressV>,
    burn: Option<Burn>,
    slot: u32,
    range: CommittableAgeRange,
    input_mana: u64,
    output_mana: u64,
    initial_excess: u64,
    mana_chains: Seq<(Seq<u8>, (nat, nat))>,
    token_min_amount: u64,
    catchall_min_amount: u64,
)
    requires
        remainders_computable(selected, provided + added, burn, slot, input_mana, output_mana, token_min_amount),
        update_remainders_spec(
            selected,
            provided,
            added,
            available,
            configured,
            burn,
            slot,
            range,
            input_mana,
            output_mana,
            initial_excess,
            mana_chains,
            token_min_amount,
            catchall_min_amount,
        ) is Ok,
        remainder_tokens(selected, provided + added, burn).len() > 0 ==> sum_input_amounts(selected)
            - required_output_amount(selected, provided + added, slot) >= token_min_amount * (remainder_tokens(
            selected,
            provided + added,
            burn,
        ).len() - 1),
    ensures
        ({
            let r = update_remainders_spec(
                selected,
                provided,
                added,
                available,
                configured,
                burn,
                slot,
                range,
                input_mana,
                output_mana,
                initial_excess,
                mana_chains,
                token_min_amount,
                catchall_min_amount,
            )->Ok_0;
            &&& given_total(r.added_amount) + data_amount(r.data) == sum_input_amounts(selected)
                - required_output_amount(selected, provided + added, slot)
            &&& given_total(r.added_mana) + data_mana(r.data) == mana_excess(
                input_mana,
                output_mana,
                initial_excess,
                burn,
            )
        }),
{
    let outputs = provided + added;
    let tokens = remainder_tokens(selected, outputs, burn);
    let amount_diff = (sum_input_amounts(selected) - required_output_amount(selected, outputs, slot)) as nat;
    let mana_diff = mana_excess(input_mana, output_mana, initial_excess, burn);
    let (addr, chain) = remainder_address_spec(configured, available, selected, slot, range)->0;
    let reserve = (if tokens.len() > 0 {
        token_min_amount * tokens.len()
    } else {
        0
    }) as nat;
    let chains = amount_chains_spec(outputs, selected);
    lemma_allocate_excess_conserves(chains, amount_diff, reserve, added, addr, slot, range);
    lemma_allocate_excess_conserves(mana_chains, mana_diff, 0, added, addr, slot, range);
    let (amount_left, added_amount) = allocate_excess(chains, amount_diff, reserve, added, addr, slot, range);
    let (mana_left, added_mana) = allocate_excess(mana_chains, mana_diff, 0, added, addr, slot, range);
    if !(amount_left == 0 && mana_left == 0 && tokens.len() == 0) {
        let others = if tokens.len() > 0 {
            tokens.drop_last()
        } else {
            tokens
        };
        let last = if tokens.len() > 0 {
            Some(tokens.last())
        } else {
            None
        };
        let m = token_min_amount;
        if tokens.len() > 0 {
            assert(m * tokens.len() >= m * others.len()) by (nonlinear_arith)
                requires
                    tokens.len() >= others.len(),
            ;
        }
        assert(amount_left >= m * others.len());
        lemma_sat_sub_times(amount_left, m as nat, others.len());
        lemma_token_remainders_totals(others, addr, chain, m);
        let left = sat_sub_times(amount_left, m as nat, others.len()) as u64;
        let item = |t: (Seq<u8>, nat)|
            RemainderDataV { output: remainder_output(addr, m, 0, Some(t)), chain, address: addr };
        let d0 = others.map_values(item);
        let d = d0.push(
            RemainderDataV { output: remainder_output(addr, left, mana_left as u64, last), chain, address: addr },
        );
        assert(d.drop_last() =~= d0);
    }
}

/// The excess mana left after each chain whose inputs bring more mana than its outputs
/// take, and for which an added output of the remainder address exists, absorbs its own
/// excess.
pub open spec fn mana_left_after_chains(
    chains: Seq<(Seq<u8>, (nat, nat))>,
    diff: nat,
    added: Seq<OutputV>,
    addr: AddressV,
    slot: u32,
    range: CommittableAgeRange,
) -> nat
    decreases chains.len(),
{
    if chains.len() == 0 {
        diff
    } else {
        let r = mana_left_after_chains(chains.drop_last(), diff, added, addr, slot, range);
        let (k, (i, o)) = chains.last();
        if i > o && target_exists(added, Some(k), addr, slot, range) {
            (r - min_nat(r, (i - o) as nat)) as nat
        } else {
            r
        }
    }
}

/// Whether the mana needs a remainder output of its own: the inputs bring more mana than
/// the outputs take, and without a remainder address, or where neither the chains nor any
/// added output of the remainder address can take all of it; where the burn burns mana,
/// only an excess beyond the initial excess counts.
pub open spec fn needs_mana_remainder(
    input_mana: u64,
    output_mana: u64,
    initial_excess: u64,
    burn: Option<Burn>,
    chains: Seq<(Seq<u8>, (nat, nat))>,
    addr: Option<AddressV>,
    added: Seq<OutputV>,
    slot: u32,
    range: CommittableAgeRange,
) -> bool {
    let base = input_mana > output_mana && match addr {
        None => true,
        Some(a) => {
            let left = mana_left_after_chains(chains, (input_mana - output_mana) as nat, added, a, slot, range);
            left > 0 && !target_exists(added, None, a, slot, range)
        },
    };
    if burn matches Some(b) && b@.mana {
        base && input_mana > output_mana + initial_excess
    } else {
        base
    }
}

/// The amount that remainder outputs need, whether native tokens need them, and whether
/// mana needs one: one storage deposit per native token in excess, or that of a plain
/// remainder where there is none.
pub open spec fn required_remainder_spec(
    selected: Seq<InputV>,
    outputs: Seq<OutputV>,
    added: Seq<OutputV>,
    available: Seq<InputV>,
    configured: Option<AddressV>,
    burn: Option<Burn>,
    slot: u32,
    range: CommittableAgeRange,
    input_mana: u64,
    output_mana: u64,
    initial_excess: u64,
    mana_chains: Seq<(Seq<u8>, (nat, nat))>,
    token_min_amount: u64,
    basic_min_amount: u64,
) -> (nat, bool, bool) {
    let tokens = remainder_tokens(selected, outputs, burn);
    let amount = if tokens.len() > 0 {
        token_min_amount * tokens.len()
    } else {
        basic_min_amount as int
    };
    let addr = match remainder_address_spec(configured, available, selected, slot, range) {
        Some((a, _)) => Some(a),
        None => None,
    };
    (
        amount as nat,
        tokens.len() > 0,
        needs_mana_remainder(input_mana, output_mana, initial_excess, burn, mana_chains, addr, added, slot, range),
    )
}

/// What the remainders need; see `required_remainder_spec`. The mana figures and the
/// storage deposits of a remainder with one native token and of a plain one come from the
/// protocol's rules.
pub fn required_remainder_amount(
    selected: &Vec<InputSigningData>,
    outputs: &Vec<Output>,
    added: &Vec<Output>,
    available: &Vec<InputSigningData>,
    configured: &Option<Address>,
    burn: &Option<Burn>,
    slot: u32,
    range: CommittableAgeRange,
    mana: &ManaFigures,
    token_min_amount: u64,
    basic_min_amount: u64,
) -> (r: (u64, bool, bool))
    requires
        native_token_balance(inputs_view(selected@), outputs_view(outputs@), burn_tokens(*burn)) is Some,
        token_min_amount * remainder_tokens(inputs_view(selected@), outputs_view(outputs@), *burn).len()
            <= u64::MAX,
        burn matches Some(b) && b@.mana ==> mana.output_mana + mana.initial_excess <= u64::MAX,
    ensures
        required_remainder_spec(
            inputs_view(selected@),
            outputs_view(outputs@),
            outputs_view(added@),
            inputs_view(available@),
            match configured {
                Some(a) => Some(a@),
                None => None,
            },
            *burn,
            slot,
            range,
            mana.input_mana,
            mana.output_mana,
            mana.initial_excess,
            chains_view(mana.chains@),
            token_min_amount,
            basic_min_amount,
        ) == (r.0 as nat, r.1, r.2),
{
    let ghost sel = inputs_view(selected@);
    let ghost outs = outputs_view(outputs@);
    let ghost adds = outputs_view(added@);
    let (incoming, outgoing) = native_token_totals(selected, outputs, burn);
    let tokens = match get_native_tokens_diff(&incoming, &outgoing) {
        Some(d) => d,
        None => {
            let d: Vec<(Id, TokenAmount)> = Vec::new();
            assert(tokens_view(d@) =~= Seq::<(Seq<u8>, nat)>::empty());
            d
        },
    };
    assert(tokens_view(tokens@) == remainder_tokens(sel, outs, *burn));
    let amount: u64 = if tokens.len() > 0 {
        token_min_amount * (tokens.len() as u64)
    } else {
        basic_min_amount
    };
    let addr = match get_remainder_address(configured, available, selected, slot, range) {
        Some((a, _)) => Some(a),
        None => None,
    };
    let mut needs = mana.input_mana > mana.output_mana;
    if needs {
        match &addr {
            None => {},
            Some(a) => {
                let ghost cs = chains_view(mana.chains@);
                let mut left = mana.input_mana - mana.output_mana;
                let mut i: usize = 0;
                assert(cs.take(0) =~= Seq::<(Seq<u8>, (nat, nat))>::empty());
                while i < mana.chains.len()
                    invariant
                        i <= mana.chains@.len(),
                        cs == chains_view(mana.chains@),
                        adds == outputs_view(added@),
                        mana.input_mana > mana.output_mana,
                        left as nat == mana_left_after_chains(
                            cs.take(i as int),
                            (mana.input_mana - mana.output_mana) as nat,
                            adds,
                            a@,
                            slot,
                            range,
                        ),
                    decreases mana.chains@.len() - i,
                {
                    proof {
                        assert(cs.take(i + 1).drop_last() =~= cs.take(i as int));
                        assert(cs.take(i + 1).last() == cs[i as int]);
                    }
                    let (k, m_in, m_out) = (&mana.chains[i].0, mana.chains[i].1, mana.chains[i].2);
                    if m_in > m_out {
                        let some_k = Some(k.clone());
                        if output_for_remainder_exists(added, &some_k, a, slot, range) {
                            let own = m_in - m_out;
                            let x = if left < own {
                                left
                            } else {
                                own
                            };
                            left = left - x;
                        }
                    }
                    i = i + 1;
                }
                assert(cs.take(i as int) =~= cs);
                let none: Option<Id> = None;
                needs = left > 0 && !output_for_remainder_exists(added, &none, a, slot, range);
            },
        }
    }
    match burn {
        Some(b) => if b.mana() {
            needs = needs && mana.input_mana > mana.output_mana + mana.initial_excess;
        },
        None => {},
    }
    (amount, tokens.len() > 0, needs)
}

} // verus!
