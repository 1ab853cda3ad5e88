//! Native token balances: amounts per token id, kept in increasing order of token id, and
//! the selection of inputs that bring the native tokens the outputs need.

use vstd::prelude::*;

use crate::amount::{inputs_view, outputs_view};
use crate::burn::Burn;
use crate::ledger::{Id, InputSigningData, InputV, Output, OutputId, OutputIdV, OutputKind, OutputV};
use crate::requirement::Requirement;
use crate::selection::{contains_output_id, output_ids_view, SelectionError, SelectionErrorV};
use crate::ordered_inputs::{
    bytes_lt, bytes_lt_exec, lemma_bytes_lt_irreflexive, lemma_bytes_lt_total,
    lemma_bytes_lt_transitive,
};
use crate::token_amount::{amount_bound, TokenAmount};
use crate::transitions::{keys_unique, lemma_list_map_unique, lemma_list_map_update, list_map};

verus! {

/// Token amounts per token id, by value.
pub open spec fn tokens_view(s: Seq<(Id, TokenAmount)>) -> Seq<(Seq<u8>, nat)> {
    s.map_values(|e: (Id, TokenAmount)| (e.0@, e.1@))
}

/// Whether the token ids strictly increase.
pub open spec fn token_ids_increase(s: Seq<(Seq<u8>, nat)>) -> bool {
    forall|i: int, j: int| 0 <= i < j < s.len() ==> bytes_lt(s[i].0, s[j].0)
}

proof fn lemma_increasing_unique(s: Seq<(Seq<u8>, nat)>)
    requires
        token_ids_increase(s),
    ensures
        keys_unique(s),
{
    assert forall|i: int, j: int| 0 <= i < j < s.len() implies s[i].0 != s[j].0 by {
        if s[i].0 == s[j].0 {
            lemma_bytes_lt_irreflexive(s[i].0);
        }
    }
}

/// The position of token id `k` in a list ordered by token id: the number of entries
/// before the first one whose id is not below `k`.
pub open spec fn token_pos(s: Seq<(Seq<u8>, nat)>, k: Seq<u8>) -> nat
    decreases s.len(),
{
    if s.len() == 0 {
        0
    } else if bytes_lt(s[0].0, k) {
        1 + token_pos(s.drop_first(), k)
    } else {
        0
    }
}

/// The amount stored under `k`, if any.
pub open spec fn token_get(s: Seq<(Seq<u8>, nat)>, k: Seq<u8>) -> Option<nat> {
    let p = token_pos(s, k) as int;
    if p < s.len() && s[p].0 == k {
        Some(s[p].1)
    } else {
        None
    }
}

/// The amount stored under `k`, zero where there is none.
pub open spec fn token_value(s: Seq<(Seq<u8>, nat)>, k: Seq<u8>) -> nat {
    match token_get(s, k) {
        Some(v) => v,
        None => 0,
    }
}

/// The list with `a` stored under `k`: in place of the earlier amount, or inserted at the
/// position of `k`.
pub open spec fn token_put(s: Seq<(Seq<u8>, nat)>, k: Seq<u8>, a: nat) -> Seq<(Seq<u8>, nat)> {
    let p = token_pos(s, k) as int;
    if p < s.len() && s[p].0 == k {
        s.update(p, (k, a))
    } else {
        s.insert(p, (k, a))
    }
}

/// The list with `a` added to the amount stored under `k`.
pub open spec fn token_add(s: Seq<(Seq<u8>, nat)>, k: Seq<u8>, a: nat) -> Seq<(Seq<u8>, nat)> {
    token_put(s, k, token_value(s, k) + a)
}
/// In a list ordered by token id, the entries before the position of `k` have lower ids,
/// those after it higher ones, and only the entry at the position can have id `k`.
pub proof fn lemma_token_pos(s: Seq<(Seq<u8>, nat)>, k: Seq<u8>)
    requires
        token_ids_increase(s),
    ensures
        token_pos(s, k) <= s.len(),
        forall|j: int| 0 <= j < token_pos(s, k) ==> bytes_lt(#[trigger] s[j].0, k),
        forall|j: int| token_pos(s, k) <= j < s.len() ==> !bytes_lt(#[trigger] s[j].0, k),
        forall|j: int| token_pos(s, k) < j < s.len() ==> bytes_lt(k, #[trigger] s[j].0),
        forall|j: int| 0 <= j < s.len() && #[trigger] s[j].0 == k ==> j == token_pos(s, k),
    decreases s.len(),
{
    let p = token_pos(s, k) as int;
    if s.len() > 0 && bytes_lt(s[0].0, k) {
        let t = s.drop_first();
        lemma_token_pos(t, k);
        assert forall|j: int| 0 <= j < p implies bytes_lt(#[trigger] s[j].0, k) by {
            if j > 0 {
                assert(s[j] == t[j - 1]);
            }
        }
        if p < s.len() {
            assert(s[p] == t[p - 1]);
        }
    }
    if p < s.len() {
        assert(!bytes_lt(s[p].0, k));
        assert forall|j: int| p < j < s.len() implies bytes_lt(k, #[trigger] s[j].0) by {
            assert(bytes_lt(s[p].0, s[j].0));
            if s[p].0 != k {
                lemma_bytes_lt_total(s[p].0, k);
                lemma_bytes_lt_transitive(k, s[p].0, s[j].0);
            }
        }
        assert forall|j: int| p <= j < s.len() implies !bytes_lt(#[trigger] s[j].0, k) by {
            if j > p && bytes_lt(s[j].0, k) {
                lemma_bytes_lt_transitive(k, s[j].0, k);
                lemma_bytes_lt_irreflexive(k);
            }
        }
    }
    assert forall|j: int| 0 <= j < s.len() && #[trigger] s[j].0 == k implies j == p by {
        lemma_bytes_lt_irreflexive(k);
    }
}

/// In a list ordered by token id, the amount stored under `k` is the one its map holds.
pub proof fn lemma_token_get_map(s: Seq<(Seq<u8>, nat)>, k: Seq<u8>)
    requires
        token_ids_increase(s),
    ensures
        token_get(s, k) == (if list_map(s).dom().contains(k) {
            Some(list_map(s)[k])
        } else {
            None::<nat>
        }),
{
    lemma_increasing_unique(s);
    lemma_list_map_unique(s);
    lemma_token_pos(s, k);
    let p = token_pos(s, k) as int;
    if p < s.len() && s[p].0 == k {
        assert(list_map(s)[s[p].0] == s[p].1);
    } else {
        assert forall|i: int| 0 <= i < s.len() implies #[trigger] s[i].0 != k by {}
    }
}

/// Storing an amount keeps the list ordered by token id, and stores it in the map.
pub proof fn lemma_token_put(s: Seq<(Seq<u8>, nat)>, k: Seq<u8>, a: nat)
    requires
        token_ids_increase(s),
    ensures
        token_ids_increase(token_put(s, k, a)),
        list_map(token_put(s, k, a)) == list_map(s).insert(k, a),
{
    lemma_increasing_unique(s);
    lemma_token_pos(s, k);
    let p = token_pos(s, k) as int;
    let t = token_put(s, k, a);
    if p < s.len() && s[p].0 == k {
        lemma_list_map_update(s, p, a);
        assert forall|i: int, j: int| 0 <= i < j < t.len() implies bytes_lt(t[i].0, t[j].0) by {
            assert(t[i].0 == s[i].0 && t[j].0 == s[j].0);
        }
    } else {
        assert forall|i: int, j: int| 0 <= i < j < t.len() implies bytes_lt(t[i].0, t[j].0) by {
            if j < p {
                assert(t[i] == s[i] && t[j] == s[j]);
            } else if j == p {
                assert(t[i] == s[i]);
            } else if i < p {
                assert(t[i] == s[i] && t[j] == s[j - 1]);
                if j - 1 == p {
                    lemma_bytes_lt_total(s[p].0, k);
                    lemma_bytes_lt_transitive(s[i].0, k, s[p].0);
                } else {
                    lemma_bytes_lt_transitive(s[i].0, k, s[j - 1].0);
                }
            } else if i == p {
                assert(t[j] == s[j - 1]);
                if j - 1 == p {
                    lemma_bytes_lt_total(s[p].0, k);
                }
            } else {
                assert(t[i] == s[i - 1] && t[j] == s[j - 1]);
            }
        }
        assert forall|i: int| 0 <= i < s.len() implies #[trigger] s[i].0 != k by {}
        lemma_list_map_insert_new(s, p, k, a);
    }
}

/// Inserting a pair whose key occurs nowhere in a list stores it in the map.
proof fn lemma_list_map_insert_new(s: Seq<(Seq<u8>, nat)>, p: int, k: Seq<u8>, a: nat)
    requires
        0 <= p <= s.len(),
        keys_unique(s),
        forall|i: int| 0 <= i < s.len() ==> #[trigger] s[i].0 != k,
    ensures
        list_map(s.insert(p, (k, a))) == list_map(s).insert(k, a),
    decreases s.len() - p,
{
    let t = s.insert(p, (k, a));
    if p == s.len() {
        assert(t.drop_last() =~= s);
    } else {
        lemma_list_map_insert_new(s.drop_last(), p, k, a);
        assert(t.drop_last() =~= s.drop_last().insert(p, (k, a)));
        assert(t.last() == s.last());
        assert(list_map(t) =~= list_map(s).insert(k, a));
    }
}

/// After an amount is stored under `k`, `k` holds it and every other id keeps its amount.
pub proof fn lemma_token_get_put(s: Seq<(Seq<u8>, nat)>, k: Seq<u8>, a: nat, j: Seq<u8>)
    requires
        token_ids_increase(s),
    ensures
        token_get(token_put(s, k, a), j) == (if j == k {
            Some(a)
        } else {
            token_get(s, j)
        }),
{
    lemma_token_put(s, k, a);
    lemma_token_get_map(s, j);
    lemma_token_get_map(token_put(s, k, a), j);
}

/// The position of `k` in the list `v`.
fn token_position(v: &Vec<(Id, TokenAmount)>, k: &Id) -> (r: usize)
    ensures
        r == token_pos(tokens_view(v@), k@),
{
    let ghost s = tokens_view(v@);
    let mut i: usize = 0;
    assert(s.skip(0) =~= s);
    while i < v.len() && bytes_lt_exec(&v[i].0.bytes, &k.bytes)
        invariant
            i <= v@.len(),
            s == tokens_view(v@),
            token_pos(s, k@) == i + token_pos(s.skip(i as int), k@),
        decreases v@.len() - i,
    {
        proof {
            let t = s.skip(i as int);
            assert(t[0] == s[i as int]);
            assert(t.drop_first() =~= s.skip(i + 1));
        }
        i = i + 1;
    }
    proof {
        if i < v@.len() {
            assert(s.skip(i as int)[0] == s[i as int]);
        }
    }
    i
}

/// Stores `amount` under `token_id` in a list ordered by token id.
pub fn put_token(v: &mut Vec<(Id, TokenAmount)>, token_id: Id, amount: TokenAmount)
    requires
        token_ids_increase(tokens_view(old(v)@)),
    ensures
        tokens_view(final(v)@) == token_put(tokens_view(old(v)@), token_id@, amount@),
        token_ids_increase(tokens_view(final(v)@)),
        list_map(tokens_view(final(v)@)) == list_map(tokens_view(old(v)@)).insert(
            token_id@,
            amount@,
        ),
{
    let ghost s0 = tokens_view(v@);
    let ghost k = token_id@;
    let ghost a = amount@;
    proof {
        lemma_token_put(s0, k, a);
        lemma_token_pos(s0, k);
    }
    let p = token_position(v, &token_id);
    if p < v.len() && v[p].0.same(&token_id) {
        v.set(p, (token_id, amount));
        assert(tokens_view(v@) =~= s0.update(p as int, (k, a)));
    } else {
        v.insert(p, (token_id, amount));
        assert(tokens_view(v@) =~= s0.insert(p as int, (k, a)));
    }
}

/// Adds `amount` to the amount stored under `token_id`.
pub fn add_token(v: &mut Vec<(Id, TokenAmount)>, token_id: &Id, amount: &TokenAmount)
    requires
        token_ids_increase(tokens_view(old(v)@)),
        token_value(tokens_view(old(v)@), token_id@) + amount@ < amount_bound(),
    ensures
        tokens_view(final(v)@) == token_add(tokens_view(old(v)@), token_id@, amount@),
        token_ids_increase(tokens_view(final(v)@)),
{
    let ghost s0 = tokens_view(v@);
    let p = token_position(v, token_id);
    let sum = if p < v.len() && v[p].0.same(token_id) {
        assert(s0[p as int] == (v@[p as int].0@, v@[p as int].1@));
        v[p].1.add(amount)
    } else {
        *amount
    };
    put_token(v, token_id.clone(), sum);
}

/// Whether the output holds the token `k`.
pub open spec fn has_token(output: OutputV, k: Seq<u8>) -> bool {
    output.native_token matches Some((t, _)) && t == k
}

/// Whether some output of the list holds the token `k`.
pub open spec fn holds_token(outputs: Seq<OutputV>, k: Seq<u8>) -> bool {
    exists|i: int| 0 <= i < outputs.len() && #[trigger] has_token(outputs[i], k)
}

/// The amount of token `k` that the outputs hold together.
pub open spec fn token_total(outputs: Seq<OutputV>, k: Seq<u8>) -> nat
    decreases outputs.len(),
{
    if outputs.len() == 0 {
        0
    } else {
        token_total(outputs.drop_last(), k) + match outputs.last().native_token {
            Some((t, a)) => if t == k {
                a
            } else {
                0
            },
            None => 0,
        }
    }
}

/// The amounts per token id that the outputs hold, in the order in which summing them one
/// output after the other stores them.
pub open spec fn token_sums(outputs: Seq<OutputV>) -> Seq<(Seq<u8>, nat)>
    decreases outputs.len(),
{
    if outputs.len() == 0 {
        Seq::empty()
    } else {
        let s = token_sums(outputs.drop_last());
        match outputs.last().native_token {
            Some((k, a)) => token_add(s, k, a),
            None => s,
        }
    }
}

/// The sums per token id are ordered by token id, and hold for each token that some output
/// holds the total amount of it, and nothing for the others.
pub proof fn lemma_token_sums(outputs: Seq<OutputV>)
    ensures
        token_ids_increase(token_sums(outputs)),
        forall|k: Seq<u8>|
            #[trigger] token_get(token_sums(outputs), k) == (if holds_token(outputs, k) {
                Some(token_total(outputs, k))
            } else {
                None::<nat>
            }),
        forall|k: Seq<u8>| #[trigger] token_value(token_sums(outputs), k) == token_total(outputs, k),
    decreases outputs.len(),
{
    if outputs.len() > 0 {
        let init = outputs.drop_last();
        lemma_token_sums(init);
        let s = token_sums(init);
        assert forall|k: Seq<u8>| #[trigger] token_get(token_sums(outputs), k) == (if holds_token(
            outputs,
            k,
        ) {
            Some(token_total(outputs, k))
        } else {
            None::<nat>
        }) by {
            assert(token_get(s, k) == (if holds_token(init, k) {
                Some(token_total(init, k))
            } else {
                None::<nat>
            }));
            assert(holds_token(init, k) ==> holds_token(outputs, k)) by {
                if holds_token(init, k) {
                    let i = choose|i: int| 0 <= i < init.len() && #[trigger] has_token(init[i], k);
                    assert(outputs[i] == init[i]);
                }
            }
            match outputs.last().native_token {
                Some((t, a)) => {
                    lemma_token_get_put(s, t, token_value(s, t) + a, k);
                    assert(outputs[outputs.len() - 1] == outputs.last());
                    assert(token_value(s, k) == token_total(init, k));
                    if t == k {
                        assert(has_token(outputs[outputs.len() - 1], k));
                    }
                    if t != k {
                        assert(holds_token(outputs, k) ==> holds_token(init, k)) by {
                            if holds_token(outputs, k) {
                                let i = choose|i: int| 0 <= i < outputs.len() && #[trigger] has_token(outputs[i], k);
                                assert(i != outputs.len() - 1);
                                assert(init[i] == outputs[i]);
                            }
                        }
                    }
                },
                None => {
                    assert(holds_token(outputs, k) ==> holds_token(init, k)) by {
                        if holds_token(outputs, k) {
                            let i = choose|i: int| 0 <= i < outputs.len() && #[trigger] has_token(outputs[i], k);
                            assert(i != outputs.len() - 1);
                            assert(init[i] == outputs[i]);
                        }
                    }
                },
            }
        }
        match outputs.last().native_token {
            Some((t, a)) => {
                lemma_token_put(s, t, token_value(s, t) + a);
                assert forall|k: Seq<u8>| #[trigger] token_value(token_sums(outputs), k) == token_total(
                    outputs,
                    k,
                ) by {
                    lemma_token_get_put(s, t, token_value(s, t) + a, k);
                    assert(token_value(s, k) == token_total(init, k));
                }
            },
            None => {
                assert forall|k: Seq<u8>| #[trigger] token_value(token_sums(outputs), k) == token_total(
                    outputs,
                    k,
                ) by {
                    assert(token_value(s, k) == token_total(init, k));
                }
            },
        }
    }
}

/// The total of a token over a prefix of the outputs is at most the total over all of them.
pub proof fn lemma_token_total_prefix(outputs: Seq<OutputV>, i: int, k: Seq<u8>)
    requires
        0 <= i <= outputs.len(),
    ensures
        token_total(outputs.take(i), k) <= token_total(outputs, k),
    decreases outputs.len() - i,
{
    if i < outputs.len() {
        lemma_token_total_prefix(outputs, i + 1, k);
        assert(outputs.take(i + 1).drop_last() =~= outputs.take(i));
    } else {
        assert(outputs.take(i) =~= outputs);
    }
}

/// Whether no token's total over the outputs reaches two to the power of 256.
pub open spec fn totals_fit(outputs: Seq<OutputV>) -> bool {
    forall|k: Seq<u8>| #[trigger] token_total(outputs, k) < amount_bound()
}

/// Adds the native token of `output`, if it has one, to the sums.
fn add_output_token(sums: &mut Vec<(Id, TokenAmount)>, output: &Output)
    requires
        token_ids_increase(tokens_view(old(sums)@)),
        output@.native_token matches Some((k, a)) ==> token_value(tokens_view(old(sums)@), k) + a
            < amount_bound(),
    ensures
        tokens_view(final(sums)@) == match output@.native_token {
            Some((k, a)) => token_add(tokens_view(old(sums)@), k, a),
            None => tokens_view(old(sums)@),
        },
        token_ids_increase(tokens_view(final(sums)@)),
{
    match &output.native_token {
        Some(t) => add_token(sums, &t.token_id, &t.amount),
        None => {},
    }
}

/// The amounts per token id that the outputs hold, ordered by token id.
pub fn get_native_tokens(outputs: &Vec<Output>) -> (r: Vec<(Id, TokenAmount)>)
    requires
        totals_fit(outputs_view(outputs@)),
    ensures
        tokens_view(r@) == token_sums(outputs_view(outputs@)),
        token_ids_increase(tokens_view(r@)),
{
    let ghost outs = outputs_view(outputs@);
    let mut sums: Vec<(Id, TokenAmount)> = Vec::new();
    let mut i: usize = 0;
    assert(outs.take(0) =~= Seq::<OutputV>::empty());
    assert(tokens_view(sums@) =~= Seq::<(Seq<u8>, nat)>::empty());
    while i < outputs.len()
        invariant
            i <= outputs@.len(),
            outs == outputs_view(outputs@),
            totals_fit(outs),
            tokens_view(sums@) == token_sums(outs.take(i as int)),
            token_ids_increase(tokens_view(sums@)),
        decreases outputs@.len() - i,
    {
        proof {
            let pre = outs.take(i as int);
            let next = outs.take(i + 1);
            assert(next.drop_last() =~= pre);
            assert(next.last() == outs[i as int]);
            lemma_token_sums(pre);
            if let Some((k, a)) = outs[i as int].native_token {
                lemma_token_total_prefix(outs, i + 1, k);
                assert(token_value(token_sums(pre), k) == token_total(pre, k));
                assert(token_total(next, k) == token_total(pre, k) + a);
            }
        }
        add_output_token(&mut sums, &outputs[i]);
        i = i + 1;
    }
    assert(outs.take(i as int) =~= outs);
    sums
}

/// The amount stored under `k` in the list `v`, if any.
pub fn token_lookup(v: &Vec<(Id, TokenAmount)>, k: &Id) -> (r: Option<TokenAmount>)
    ensures
        match r {
            Some(x) => token_get(tokens_view(v@), k@) == Some(x@),
            None => token_get(tokens_view(v@), k@) is None,
        },
{
    let p = token_position(v, k);
    if p < v.len() && v[p].0.same(k) {
        assert(tokens_view(v@)[p as int] == (v@[p as int].0@, v@[p as int].1@));
        Some(v[p].1)
    } else {
        None
    }
}

/// The amounts by which the first sums exceed the second, for each token id of the first
/// sums in their order: all of it where the second sums lack the token.
pub open spec fn tokens_diff(a: Seq<(Seq<u8>, nat)>, b: Seq<(Seq<u8>, nat)>) -> Seq<(Seq<u8>, nat)>
    decreases a.len(),
{
    if a.len() == 0 {
        Seq::empty()
    } else {
        let d = tokens_diff(a.drop_last(), b);
        let (k, x) = a.last();
        match token_get(b, k) {
            None => d.push((k, x)),
            Some(y) => if x > y {
                d.push((k, (x - y) as nat))
            } else {
                d
            },
        }
    }
}

/// The differences keep the order of the first sums and take their ids from them.
pub proof fn lemma_tokens_diff(a: Seq<(Seq<u8>, nat)>, b: Seq<(Seq<u8>, nat)>)
    requires
        token_ids_increase(a),
    ensures
        token_ids_increase(tokens_diff(a, b)),
        forall|i: int|
            0 <= i < tokens_diff(a, b).len() ==> exists|j: int|
                0 <= j < a.len() && #[trigger] tokens_diff(a, b)[i].0 == a[j].0,
    decreases a.len(),
{
    if a.len() > 0 {
        let init = a.drop_last();
        lemma_tokens_diff(init, b);
        let d0 = tokens_diff(init, b);
        let d = tokens_diff(a, b);
        assert forall|i: int| 0 <= i < d0.len() implies bytes_lt(#[trigger] d0[i].0, a.last().0) by {
            let j = choose|j: int| 0 <= j < init.len() && d0[i].0 == init[j].0;
            assert(init[j] == a[j]);
        }
        assert forall|i: int| 0 <= i < d.len() implies exists|j: int|
            0 <= j < a.len() && #[trigger] d[i].0 == a[j].0 by {
            if i < d0.len() {
                assert(d[i] == d0[i]);
                let j = choose|j: int| 0 <= j < init.len() && d0[i].0 == init[j].0;
                assert(init[j] == a[j]);
            } else {
                assert(d[i].0 == a[a.len() - 1].0);
            }
        }
        assert forall|i: int, j: int| 0 <= i < j < d.len() implies bytes_lt(d[i].0, d[j].0) by {
            if j < d0.len() {
                assert(d[i] == d0[i] && d[j] == d0[j]);
            } else {
                assert(d[i] == d0[i]);
            }
        }
    }
}

/// The amounts by which the first sums exceed the second, or none where they exceed them
/// nowhere.
pub fn get_native_tokens_diff(a: &Vec<(Id, TokenAmount)>, b: &Vec<(Id, TokenAmount)>) -> (r: Option<
    Vec<(Id, TokenAmount)>,
>)
    requires
        token_ids_increase(tokens_view(a@)),
    ensures
        match r {
            Some(d) => tokens_view(d@) == tokens_diff(tokens_view(a@), tokens_view(b@))
                && d@.len() > 0,
            None => tokens_diff(tokens_view(a@), tokens_view(b@)).len() == 0,
        },
{
    let ghost sa = tokens_view(a@);
    let ghost sb = tokens_view(b@);
    let mut d: Vec<(Id, TokenAmount)> = Vec::new();
    let mut i: usize = 0;
    assert(sa.take(0) =~= Seq::<(Seq<u8>, nat)>::empty());
    assert(tokens_view(d@) =~= Seq::<(Seq<u8>, nat)>::empty());
    while i < a.len()
        invariant
            i <= a@.len(),
            sa == tokens_view(a@),
            sb == tokens_view(b@),
            tokens_view(d@) == tokens_diff(sa.take(i as int), sb),
        decreases a@.len() - i,
    {
        let ghost d0 = tokens_view(d@);
        proof {
            assert(sa.take(i + 1).drop_last() =~= sa.take(i as int));
            assert(sa.take(i + 1).last() == sa[i as int]);
        }
        let k = &a[i].0;
        let x = a[i].1;
        match token_lookup(b, k) {
            None => {
                d.push((k.clone(), x));
                assert(tokens_view(d@) =~= d0.push((k@, x@)));
            },
            Some(y) => {
                if y.lt(&x) {
                    let diff = x.sub(&y);
                    d.push((k.clone(), diff));
                    assert(tokens_view(d@) =~= d0.push((k@, (x@ - y@) as nat)));
                }
            },
        }
        i = i + 1;
    }
    assert(sa.take(i as int) =~= sa);
    if d.len() == 0 {
        None
    } else {
        Some(d)
    }
}

/// The list with `a` added under `k`, or none where the sum reaches two to the power of 256.
pub open spec fn token_add_checked(s: Seq<(Seq<u8>, nat)>, k: Seq<u8>, a: nat) -> Option<
    Seq<(Seq<u8>, nat)>,
> {
    if token_value(s, k) + a < amount_bound() {
        Some(token_add(s, k, a))
    } else {
        None
    }
}

/// The circulating supply of a foundry output, zero where it gives none.
pub open spec fn supply(o: OutputV) -> nat {
    match o.circulating_supply {
        Some(c) => c,
        None => 0,
    }
}

/// Whether `x` is the foundry `o` in an earlier state.
pub open spec fn same_foundry(x: OutputV, o: OutputV) -> bool {
    x.kind == OutputKind::Foundry && x.chain_id == o.chain_id
}

/// The minted and melted sums after the foundry output `o` is compared with each selected
/// input that holds the same foundry: what its supply grew by is minted, what it shrank by
/// is melted. Also whether such an input was found. None where a sum overflows.
pub open spec fn supply_changes(
    mm: (Seq<(Seq<u8>, nat)>, Seq<(Seq<u8>, nat)>),
    o: OutputV,
    ins: Seq<InputV>,
) -> Option<((Seq<(Seq<u8>, nat)>, Seq<(Seq<u8>, nat)>), bool)>
    decreases ins.len(),
{
    if ins.len() == 0 {
        Some((mm, false))
    } else {
        match supply_changes(mm, o, ins.drop_last()) {
            None => None,
            Some((m, found)) => {
                let x = ins.last().output;
                if same_foundry(x, o) {
                    if supply(o) > supply(x) {
                        match token_add_checked(m.0, o.chain_id, (supply(o) - supply(x)) as nat) {
                            Some(minted) => Some(((minted, m.1), true)),
                            None => None,
                        }
                    } else if supply(o) < supply(x) {
                        match token_add_checked(m.1, o.chain_id, (supply(x) - supply(o)) as nat) {
                            Some(melted) => Some(((m.0, melted), true)),
                            None => None,
                        }
                    } else {
                        Some((m, true))
                    }
                } else {
                    Some((m, found))
                }
            },
        }
    }
}

/// The native tokens that the outputs mint and melt, per token id: for each foundry output,
/// the changes of its supply against the selected inputs of the same foundry, or its whole
/// supply as minted where no such input is selected. None where a sum overflows.
pub open spec fn minted_melted(outs: Seq<OutputV>, ins: Seq<InputV>) -> Option<
    (Seq<(Seq<u8>, nat)>, Seq<(Seq<u8>, nat)>),
>
    decreases outs.len(),
{
    if outs.len() == 0 {
        Some((Seq::empty(), Seq::empty()))
    } else {
        match minted_melted(outs.drop_last(), ins) {
            None => None,
            Some(mm) => {
                let o = outs.last();
                if o.kind == OutputKind::Foundry {
                    match supply_changes(mm, o, ins) {
                        None => None,
                        Some((m, found)) => if !found && supply(o) != 0 {
                            match token_add_checked(m.0, o.chain_id, supply(o)) {
                                Some(minted) => Some((minted, m.1)),
                                None => None,
                            }
                        } else {
                            Some(m)
                        },
                    }
                } else {
                    Some(mm)
                }
            },
        }
    }
}

proof fn lemma_supply_changes_prefix(
    mm: (Seq<(Seq<u8>, nat)>, Seq<(Seq<u8>, nat)>),
    o: OutputV,
    ins: Seq<InputV>,
    j: int,
)
    requires
        0 <= j <= ins.len(),
        supply_changes(mm, o, ins) is Some,
    ensures
        supply_changes(mm, o, ins.take(j)) is Some,
    decreases ins.len() - j,
{
    if j < ins.len() {
        lemma_supply_changes_prefix(mm, o, ins, j + 1);
        assert(ins.take(j + 1).drop_last() =~= ins.take(j));
    } else {
        assert(ins.take(j) =~= ins);
    }
}

proof fn lemma_minted_melted_prefix(outs: Seq<OutputV>, ins: Seq<InputV>, i: int)
    requires
        0 <= i <= outs.len(),
        minted_melted(outs, ins) is Some,
    ensures
        minted_melted(outs.take(i), ins) is Some,
    decreases outs.len() - i,
{
    if i < outs.len() {
        lemma_minted_melted_prefix(outs, ins, i + 1);
        assert(outs.take(i + 1).drop_last() =~= outs.take(i));
    } else {
        assert(outs.take(i) =~= outs);
    }
}

/// The circulating supply of a foundry output, zero where it gives none.
fn supply_exec(o: &Output) -> (r: TokenAmount)
    ensures
        r@ == supply(o@),
{
    match o.circulating_supply {
        Some(c) => c,
        None => TokenAmount::zero(),
    }
}

/// Adds `a` under `k` where the sum stays below two to the power of 256.
fn add_token_checked(v: &mut Vec<(Id, TokenAmount)>, k: &Id, a: &TokenAmount)
    requires
        token_ids_increase(tokens_view(old(v)@)),
        token_add_checked(tokens_view(old(v)@), k@, a@) is Some,
    ensures
        Some(tokens_view(final(v)@)) == token_add_checked(tokens_view(old(v)@), k@, a@),
        token_ids_increase(tokens_view(final(v)@)),
{
    add_token(v, k, a);
}

/// Compares the foundry output `o` with the selected inputs of the same foundry, adding
/// the growth of its supply to `minted` and the shrinking to `melted`; tells whether such
/// an input was found.
fn add_supply_changes(
    minted: &mut Vec<(Id, TokenAmount)>,
    melted: &mut Vec<(Id, TokenAmount)>,
    o: &Output,
    selected: &Vec<InputSigningData>,
) -> (found: bool)
    requires
        token_ids_increase(tokens_view(old(minted)@)),
        token_ids_increase(tokens_view(old(melted)@)),
        supply_changes(
            (tokens_view(old(minted)@), tokens_view(old(melted)@)),
            o@,
            inputs_view(selected@),
        ) is Some,
    ensures
        supply_changes(
            (tokens_view(old(minted)@), tokens_view(old(melted)@)),
            o@,
            inputs_view(selected@),
        ) == Some(((tokens_view(final(minted)@), tokens_view(final(melted)@)), found)),
        token_ids_increase(tokens_view(final(minted)@)),
        token_ids_increase(tokens_view(final(melted)@)),
{
    let ghost mm0 = (tokens_view(minted@), tokens_view(melted@));
    let ghost ins = inputs_view(selected@);
    let out_supply = supply_exec(o);
    let mut found = false;
    let mut j: usize = 0;
    assert(ins.take(0) =~= Seq::<InputV>::empty());
    while j < selected.len()
        invariant
            j <= selected@.len(),
            ins == inputs_view(selected@),
            out_supply@ == supply(o@),
            supply_changes(mm0, o@, ins) is Some,
            supply_changes(mm0, o@, ins.take(j as int)) == Some(
                ((tokens_view(minted@), tokens_view(melted@)), found),
            ),
            token_ids_increase(tokens_view(minted@)),
            token_ids_increase(tokens_view(melted@)),
        decreases selected@.len() - j,
    {
        proof {
            lemma_supply_changes_prefix(mm0, o@, ins, j + 1);
            assert(ins.take(j + 1).drop_last() =~= ins.take(j as int));
            assert(ins.take(j + 1).last() == selected@[j as int]@);
        }
        let x = &selected[j].output;
        if x.kind == OutputKind::Foundry && x.chain_id.same(&o.chain_id) {
            let in_supply = supply_exec(x);
            if in_supply.lt(&out_supply) {
                let grown = out_supply.sub(&in_supply);
                add_token_checked(minted, &o.chain_id, &grown);
            } else if out_supply.lt(&in_supply) {
                let shrunk = in_supply.sub(&out_supply);
                add_token_checked(melted, &o.chain_id, &shrunk);
            }
            found = true;
        }
        j = j + 1;
    }
    assert(ins.take(j as int) =~= ins);
    found
}

/// The native tokens that the outputs mint and melt, per token id and ordered by token id.
pub fn get_minted_and_melted_native_tokens(outputs: &Vec<Output>, selected: &Vec<InputSigningData>) -> (r: (
    Vec<(Id, TokenAmount)>,
    Vec<(Id, TokenAmount)>,
))
    requires
        minted_melted(outputs_view(outputs@), inputs_view(selected@)) is Some,
    ensures
        minted_melted(outputs_view(outputs@), inputs_view(selected@)) == Some(
            (tokens_view(r.0@), tokens_view(r.1@)),
        ),
        token_ids_increase(tokens_view(r.0@)),
        token_ids_increase(tokens_view(r.1@)),
{
    let ghost outs = outputs_view(outputs@);
    let ghost ins = inputs_view(selected@);
    let mut minted: Vec<(Id, TokenAmount)> = Vec::new();
    let mut melted: Vec<(Id, TokenAmount)> = Vec::new();
    let mut i: usize = 0;
    assert(outs.take(0) =~= Seq::<OutputV>::empty());
    assert(tokens_view(minted@) =~= Seq::<(Seq<u8>, nat)>::empty());
    assert(tokens_view(melted@) =~= Seq::<(Seq<u8>, nat)>::empty());
    while i < outputs.len()
        invariant
            i <= outputs@.len(),
            outs == outputs_view(outputs@),
            ins == inputs_view(selected@),
            minted_melted(outs, ins) is Some,
            minted_melted(outs.take(i as int), ins) == Some(
                (tokens_view(minted@), tokens_view(melted@)),
            ),
            token_ids_increase(tokens_view(minted@)),
            token_ids_increase(tokens_view(melted@)),
        decreases outputs@.len() - i,
    {
        proof {
            lemma_minted_melted_prefix(outs, ins, i + 1);
            assert(outs.take(i + 1).drop_last() =~= outs.take(i as int));
            assert(outs.take(i + 1).last() == outputs@[i as int]@);
        }
        let o = &outputs[i];
        if o.kind == OutputKind::Foundry {
            let found = add_supply_changes(&mut minted, &mut melted, o, selected);
            if !found {
                let s = supply_exec(o);
                if !s.is_zero() {
                    add_token_checked(&mut minted, &o.chain_id, &s);
                }
            }
        }
        i = i + 1;
    }
    assert(outs.take(i as int) =~= outs);
    (minted, melted)
}

/// The outputs that a list of inputs spends.
pub open spec fn input_outputs(s: Seq<InputV>) -> Seq<OutputV> {
    s.map_values(|x: InputV| x.output)
}

/// The sums `s` with each amount of the list `t` added in turn, or none where a sum
/// overflows.
pub open spec fn tokens_add_all(s: Seq<(Seq<u8>, nat)>, t: Seq<(Seq<u8>, nat)>) -> Option<
    Seq<(Seq<u8>, nat)>,
>
    decreases t.len(),
{
    if t.len() == 0 {
        Some(s)
    } else {
        match tokens_add_all(s, t.drop_last()) {
            None => None,
            Some(s1) => token_add_checked(s1, t.last().0, t.last().1),
        }
    }
}

proof fn lemma_tokens_add_all_prefix(s: Seq<(Seq<u8>, nat)>, t: Seq<(Seq<u8>, nat)>, i: int)
    requires
        0 <= i <= t.len(),
        tokens_add_all(s, t) is Some,
    ensures
        tokens_add_all(s, t.take(i)) is Some,
    decreases t.len() - i,
{
    if i < t.len() {
        lemma_tokens_add_all_prefix(s, t, i + 1);
        assert(t.take(i + 1).drop_last() =~= t.take(i));
    } else {
        assert(t.take(i) =~= t);
    }
}

/// Adds each amount of `t` in turn to the sums `v`.
fn add_all_tokens(v: &mut Vec<(Id, TokenAmount)>, t: &Vec<(Id, TokenAmount)>)
    requires
        token_ids_increase(tokens_view(old(v)@)),
        tokens_add_all(tokens_view(old(v)@), tokens_view(t@)) is Some,
    ensures
        tokens_add_all(tokens_view(old(v)@), tokens_view(t@)) == Some(tokens_view(final(v)@)),
        token_ids_increase(tokens_view(final(v)@)),
{
    let ghost s0 = tokens_view(v@);
    let ghost st = tokens_view(t@);
    let mut i: usize = 0;
    assert(st.take(0) =~= Seq::<(Seq<u8>, nat)>::empty());
    while i < t.len()
        invariant
            i <= t@.len(),
            st == tokens_view(t@),
            tokens_add_all(s0, st) is Some,
            tokens_add_all(s0, st.take(i as int)) == Some(tokens_view(v@)),
            token_ids_increase(tokens_view(v@)),
        decreases t@.len() - i,
    {
        proof {
            lemma_tokens_add_all_prefix(s0, st, i + 1);
            assert(st.take(i + 1).drop_last() =~= st.take(i as int));
            assert(st.take(i + 1).last() == st[i as int]);
        }
        add_token_checked(v, &t[i].0, &t[i].1);
        i = i + 1;
    }
    assert(st.take(i as int) =~= st);
}

/// The native tokens that a burn burns, in increasing order of token id; none without a
/// burn.
pub open spec fn burn_tokens(burn: Option<Burn>) -> Seq<(Seq<u8>, nat)> {
    match burn {
        Some(b) => b.native_tokens_list(),
        None => Seq::empty(),
    }
}

/// The native tokens that come in (those of the selected inputs and the minted ones) and
/// those that go out (those of the outputs, the melted and the burned ones), per token id;
/// none where a sum overflows.
pub open spec fn native_token_balance(
    selected: Seq<InputV>,
    outputs: Seq<OutputV>,
    burned: Seq<(Seq<u8>, nat)>,
) -> Option<(Seq<(Seq<u8>, nat)>, Seq<(Seq<u8>, nat)>)> {
    if !totals_fit(input_outputs(selected)) || !totals_fit(outputs) {
        None
    } else {
        match minted_melted(outputs, selected) {
            None => None,
            Some((minted, melted)) => match tokens_add_all(
                token_sums(input_outputs(selected)),
                minted,
            ) {
                None => None,
                Some(incoming) => match tokens_add_all(token_sums(outputs), melted) {
                    None => None,
                    Some(o) => match tokens_add_all(o, burned) {
                        None => None,
                        Some(outgoing) => Some((incoming, outgoing)),
                    },
                },
            },
        }
    }
}

/// The inputs picked for token `k` until `diff` of it is reached: the available inputs that
/// hold it, in order; an input whose output id was picked before counts again but is not
/// picked twice. Gives the picked ids and inputs and the amount reached; none where the
/// amount overflows.
pub open spec fn token_pick(
    avail: Seq<InputV>,
    k: Seq<u8>,
    diff: nat,
    ids: Seq<OutputIdV>,
    picked: Seq<InputV>,
    amount: nat,
) -> Option<(Seq<OutputIdV>, Seq<InputV>, nat)>
    decreases avail.len(),
{
    if avail.len() == 0 {
        Some((ids, picked, amount))
    } else {
        let x = avail[0];
        match x.output.native_token {
            Some((t, a)) => if t == k {
                if amount + a >= amount_bound() {
                    None
                } else {
                    let next = (amount + a) as nat;
                    let ids2 = if ids.contains(x.output_id) {
                        ids
                    } else {
                        ids.push(x.output_id)
                    };
                    let picked2 = if ids.contains(x.output_id) {
                        picked
                    } else {
                        picked.push(x)
                    };
                    if next >= diff {
                        Some((ids2, picked2, next))
                    } else {
                        token_pick(avail.drop_first(), k, diff, ids2, picked2, next)
                    }
                }
            } else {
                token_pick(avail.drop_first(), k, diff, ids, picked, amount)
            },
            None => token_pick(avail.drop_first(), k, diff, ids, picked, amount),
        }
    }
}

/// The inputs picked for each missing token in turn, or the error for the first token of
/// which the available inputs hold too little; none where an amount overflows.
pub open spec fn tokens_pick(
    avail: Seq<InputV>,
    diffs: Seq<(Seq<u8>, nat)>,
    ids: Seq<OutputIdV>,
    picked: Seq<InputV>,
) -> Option<Result<(Seq<OutputIdV>, Seq<InputV>), SelectionErrorV>>
    decreases diffs.len(),
{
    if diffs.len() == 0 {
        Some(Ok((ids, picked)))
    } else {
        let (k, d) = diffs[0];
        match token_pick(avail, k, d, ids, picked, 0) {
            None => None,
            Some((ids2, picked2, amount)) => if amount < d {
                Some(
                    Err(
                        SelectionErrorV::InsufficientNativeTokenAmount {
                            token_id: k,
                            found: amount,
                            required: d,
                        },
                    ),
                )
            } else {
                tokens_pick(avail, diffs.drop_first(), ids2, picked2)
            },
        }
    }
}

/// The inputs whose output ids are not in `ids`, in their order.
pub open spec fn without_ids(avail: Seq<InputV>, ids: Seq<OutputIdV>) -> Seq<InputV>
    decreases avail.len(),
{
    if avail.len() == 0 {
        Seq::empty()
    } else {
        let rest = without_ids(avail.drop_last(), ids);
        if ids.contains(avail.last().output_id) {
            rest
        } else {
            rest.push(avail.last())
        }
    }
}

/// What fulfilling the native tokens requirement gives: where the outgoing native tokens
/// exceed the incoming ones, the inputs picked to cover the excess and the available
/// inputs left, or the error for a token that cannot be covered; otherwise no input and
/// the available inputs unchanged. None where a sum overflows.
pub open spec fn native_tokens_fulfilment(
    selected: Seq<InputV>,
    outputs: Seq<OutputV>,
    burned: Seq<(Seq<u8>, nat)>,
    avail: Seq<InputV>,
) -> Option<Result<(Seq<InputV>, Seq<InputV>), SelectionErrorV>> {
    match native_token_balance(selected, outputs, burned) {
        None => None,
        Some((incoming, outgoing)) => {
            let diffs = tokens_diff(outgoing, incoming);
            if diffs.len() == 0 {
                Some(Ok((Seq::empty(), avail)))
            } else {
                match tokens_pick(avail, diffs, Seq::empty(), Seq::empty()) {
                    None => None,
                    Some(Err(e)) => Some(Err(e)),
                    Some(Ok((ids, picked))) => Some(Ok((picked, without_ids(avail, ids)))),
                }
            }
        }
    }
}

/// The native token amounts per token id of the outputs that the inputs spend.
fn get_input_native_tokens(inputs: &Vec<InputSigningData>) -> (r: Vec<(Id, TokenAmount)>)
    requires
        totals_fit(input_outputs(inputs_view(inputs@))),
    ensures
        tokens_view(r@) == token_sums(input_outputs(inputs_view(inputs@))),
        token_ids_increase(tokens_view(r@)),
{
    let ghost outs = input_outputs(inputs_view(inputs@));
    let mut sums: Vec<(Id, TokenAmount)> = Vec::new();
    let mut i: usize = 0;
    assert(outs.take(0) =~= Seq::<OutputV>::empty());
    assert(tokens_view(sums@) =~= Seq::<(Seq<u8>, nat)>::empty());
    while i < inputs.len()
        invariant
            i <= inputs@.len(),
            outs == input_outputs(inputs_view(inputs@)),
            totals_fit(outs),
            tokens_view(sums@) == token_sums(outs.take(i as int)),
            token_ids_increase(tokens_view(sums@)),
        decreases inputs@.len() - i,
    {
        proof {
            let pre = outs.take(i as int);
            let next = outs.take(i + 1);
            assert(next.drop_last() =~= pre);
            assert(next.last() == outs[i as int]);
            assert(outs[i as int] == inputs@[i as int]@.output);
            lemma_token_sums(pre);
            if let Some((k, a)) = outs[i as int].native_token {
                lemma_token_total_prefix(outs, i + 1, k);
                assert(token_value(token_sums(pre), k) == token_total(pre, k));
                assert(token_total(next, k) == token_total(pre, k) + a);
            }
        }
        add_output_token(&mut sums, &inputs[i].output);
        i = i + 1;
    }
    assert(outs.take(i as int) =~= outs);
    sums
}

/// Picks the available inputs that hold token `k` until `diff` of it is reached.
fn pick_token(
    avail: &Vec<InputSigningData>,
    k: &Id,
    diff: &TokenAmount,
    ids: &mut Vec<OutputId>,
    picked: &mut Vec<InputSigningData>,
) -> (amount: TokenAmount)
    requires
        token_pick(inputs_view(avail@), k@, diff@, output_ids_view(old(ids)@), inputs_view(old(picked)@), 0) is Some,
    ensures
        token_pick(inputs_view(avail@), k@, diff@, output_ids_view(old(ids)@), inputs_view(old(picked)@), 0)
            == Some((output_ids_view(final(ids)@), inputs_view(final(picked)@), amount@)),
{
    let ghost all = inputs_view(avail@);
    let ghost goal = token_pick(all, k@, diff@, output_ids_view(ids@), inputs_view(picked@), 0);
    let mut amount = TokenAmount::zero();
    let mut i: usize = 0;
    assert(all.skip(0) =~= all);
    while i < avail.len()
        invariant
            i <= avail@.len(),
            all == inputs_view(avail@),
            goal is Some,
            goal == token_pick(all, k@, diff@, output_ids_view(old(ids)@), inputs_view(old(picked)@), 0),
            goal == token_pick(all.skip(i as int), k@, diff@, output_ids_view(ids@), inputs_view(picked@), amount@),
        decreases avail@.len() - i,
    {
        let ghost rest = all.skip(i as int);
        let ghost ids0 = output_ids_view(ids@);
        let ghost picked0 = inputs_view(picked@);
        let ghost amount0 = amount@;
        proof {
            assert(rest[0] == all[i as int]);
            assert(rest.drop_first() =~= all.skip(i + 1));
        }
        let x = &avail[i];
        assert(x@ == rest[0]);
        match &x.output.native_token {
            Some(t) => {
                if t.token_id.same(k) {
                    assert(x@.output.native_token == Some((k@, t.amount@)));
                    assert(amount0 + t.amount@ < amount_bound());
                    amount = amount.add(&t.amount);
                    let fresh = !contains_output_id(ids, &x.output_id);
                    if fresh {
                        ids.push(x.output_id.clone());
                        picked.push(x.clone());
                        assert(output_ids_view(ids@) =~= ids0.push(x@.output_id));
                        assert(inputs_view(picked@) =~= picked0.push(x@));
                    }
                    assert(fresh == !ids0.contains(x@.output_id));
                    if !amount.lt(diff) {
                        assert(token_pick(rest, k@, diff@, ids0, picked0, amount0) == Some(
                            (output_ids_view(ids@), inputs_view(picked@), amount@),
                        ));
                        return amount;
                    }
                }
            },
            None => {},
        }
        i = i + 1;
    }
    proof {
        assert(all.skip(i as int).len() == 0);
    }
    amount
}

/// Picks the inputs for each missing token in turn; stops at the first token of which the
/// available inputs hold too little.
fn pick_tokens(
    avail: &Vec<InputSigningData>,
    diffs: &Vec<(Id, TokenAmount)>,
) -> (r: Result<(Vec<OutputId>, Vec<InputSigningData>), SelectionError>)
    requires
        tokens_pick(inputs_view(avail@), tokens_view(diffs@), Seq::empty(), Seq::empty()) is Some,
    ensures
        tokens_pick(inputs_view(avail@), tokens_view(diffs@), Seq::empty(), Seq::empty()) == Some(
            match r {
                Ok((ids, picked)) => Ok::<(Seq<OutputIdV>, Seq<InputV>), SelectionErrorV>(
                    (output_ids_view(ids@), inputs_view(picked@)),
                ),
                Err(e) => Err(e@),
            },
        ),
{
    let ghost all = inputs_view(avail@);
    let ghost ds = tokens_view(diffs@);
    let ghost goal = tokens_pick(all, ds, Seq::empty(), Seq::empty());
    let mut ids: Vec<OutputId> = Vec::new();
    let mut picked: Vec<InputSigningData> = Vec::new();
    let mut i: usize = 0;
    assert(ds.skip(0) =~= ds);
    assert(output_ids_view(ids@) =~= Seq::<OutputIdV>::empty());
    assert(inputs_view(picked@) =~= Seq::<InputV>::empty());
    while i < diffs.len()
        invariant
            i <= diffs@.len(),
            all == inputs_view(avail@),
            ds == tokens_view(diffs@),
            goal is Some,
            goal == tokens_pick(all, ds, Seq::empty(), Seq::empty()),
            goal == tokens_pick(all, ds.skip(i as int), output_ids_view(ids@), inputs_view(picked@)),
        decreases diffs@.len() - i,
    {
        let ghost rest = ds.skip(i as int);
        proof {
            assert(rest[0] == ds[i as int]);
            assert(rest.drop_first() =~= ds.skip(i + 1));
        }
        let k = &diffs[i].0;
        let d = &diffs[i].1;
        let ghost ids_b = output_ids_view(ids@);
        let ghost picked_b = inputs_view(picked@);
        assert(rest[0] == (k@, d@));
        let amount = pick_token(avail, k, d, &mut ids, &mut picked);
        assert(token_pick(all, k@, d@, ids_b, picked_b, 0) == Some(
            (output_ids_view(ids@), inputs_view(picked@), amount@),
        ));
        if amount.lt(d) {
            let e = SelectionError::InsufficientNativeTokenAmount {
                token_id: k.clone(),
                found: amount,
                required: *d,
            };
            assert(e@ == SelectionErrorV::InsufficientNativeTokenAmount {
                token_id: k@,
                found: amount@,
                required: d@,
            });
            assert(tokens_pick(all, rest, ids_b, picked_b) == Some(
                Err::<(Seq<OutputIdV>, Seq<InputV>), SelectionErrorV>(e@),
            ));
            return Err(e);
        }
        i = i + 1;
    }
    proof {
        assert(ds.skip(i as int).len() == 0);
    }
    Ok((ids, picked))
}

/// Removes from `available` the inputs whose output ids are in `ids`.
fn remove_ids(available: &mut Vec<InputSigningData>, ids: &Vec<OutputId>)
    ensures
        inputs_view(final(available)@) == without_ids(inputs_view(old(available)@), output_ids_view(ids@)),
{
    let ghost all = inputs_view(available@);
    let ghost idv = output_ids_view(ids@);
    let mut src: Vec<InputSigningData> = Vec::new();
    std::mem::swap(available, &mut src);
    let n = src.len();
    let mut i: usize = 0;
    assert(all.take(0) =~= Seq::<InputV>::empty());
    assert(inputs_view(available@) =~= Seq::<InputV>::empty());
    while src.len() > 0
        invariant
            src@.len() + i == n,
            n == all.len(),
            inputs_view(src@) =~= all.subrange(i as int, n as int),
            inputs_view(available@) == without_ids(all.take(i as int), idv),
            idv == output_ids_view(ids@),
        decreases src@.len(),
    {
        let ghost before = inputs_view(src@);
        let x = src.remove(0);
        proof {
            assert(before[0] == x@);
            assert(inputs_view(src@) =~= before.drop_first());
            assert(all.take(i + 1).drop_last() =~= all.take(i as int));
            assert(all.take(i + 1).last() == all[i as int]);
            assert(all[i as int] == x@);
        }
        let ghost kept = inputs_view(available@);
        if !contains_output_id(ids, &x.output_id) {
            available.push(x);
            assert(inputs_view(available@) =~= kept.push(all[i as int]));
        }
        i = i + 1;
        assert(inputs_view(src@) =~= all.subrange(i as int, n as int));
    }
    assert(all.take(i as int) =~= all);
}

/// The native tokens that come in and those that go out, per token id, ordered by token id;
/// see `native_token_balance`.
pub fn native_token_totals(
    selected: &Vec<InputSigningData>,
    outputs: &Vec<Output>,
    burn: &Option<Burn>,
) -> (r: (Vec<(Id, TokenAmount)>, Vec<(Id, TokenAmount)>))
    requires
        native_token_balance(inputs_view(selected@), outputs_view(outputs@), burn_tokens(*burn)) is Some,
    ensures
        native_token_balance(inputs_view(selected@), outputs_view(outputs@), burn_tokens(*burn)) == Some(
            (tokens_view(r.0@), tokens_view(r.1@)),
        ),
        token_ids_increase(tokens_view(r.0@)),
        token_ids_increase(tokens_view(r.1@)),
{
    let ghost sel = inputs_view(selected@);
    let ghost outs = outputs_view(outputs@);
    let ghost burned = burn_tokens(*burn);
    let ghost balance = native_token_balance(sel, outs, burned);
    assert(balance is Some);
    let mut incoming = get_input_native_tokens(selected);
    let mut outgoing = get_native_tokens(outputs);
    let (minted, melted) = get_minted_and_melted_native_tokens(outputs, selected);
    add_all_tokens(&mut incoming, &minted);
    add_all_tokens(&mut outgoing, &melted);
    match burn {
        Some(b) => add_all_tokens(&mut outgoing, b.native_tokens()),
        None => {
            assert(tokens_add_all(tokens_view(outgoing@), burned) == Some(tokens_view(outgoing@)));
        },
    }
    assert(balance == Some((tokens_view(incoming@), tokens_view(outgoing@))));
    (incoming, outgoing)
}

/// Whether the outputs, the melted and the burned native tokens need more of some token
/// than the selected inputs and the minted tokens bring.
pub open spec fn native_tokens_short(selected: Seq<InputV>, outputs: Seq<OutputV>, burned: Seq<(Seq<u8>, nat)>) -> bool {
    match native_token_balance(selected, outputs, burned) {
        Some((incoming, outgoing)) => tokens_diff(outgoing, incoming).len() > 0,
        None => false,
    }
}

/// Fulfils the native tokens requirement: where the outputs, the melted and the burned
/// native tokens need more of a token than the selected inputs and the minted tokens
/// bring, picks available inputs that hold it and takes them out of the available inputs;
/// where selecting more inputs is disabled, that is the error that more are needed.
pub fn fulfill_native_tokens_requirement(
    selected: &Vec<InputSigningData>,
    outputs: &Vec<Output>,
    burn: &Option<Burn>,
    available: &mut Vec<InputSigningData>,
    allow_additional: bool,
) -> (r: Result<Vec<InputSigningData>, SelectionError>)
    requires
        native_tokens_fulfilment(
            inputs_view(selected@),
            outputs_view(outputs@),
            burn_tokens(*burn),
            inputs_view(old(available)@),
        ) is Some,
    ensures
        !allow_additional && native_tokens_short(inputs_view(selected@), outputs_view(outputs@), burn_tokens(*burn))
            ==> r matches Err(SelectionError::AdditionalInputsRequired(Requirement::NativeTokens)),
        allow_additional || !native_tokens_short(inputs_view(selected@), outputs_view(outputs@), burn_tokens(*burn))
            ==> native_tokens_fulfilment(
            inputs_view(selected@),
            outputs_view(outputs@),
            burn_tokens(*burn),
            inputs_view(old(available)@),
        ) == Some(
            match r {
                Ok(v) => Ok::<(Seq<InputV>, Seq<InputV>), SelectionErrorV>(
                    (inputs_view(v@), inputs_view(final(available)@)),
                ),
                Err(e) => Err(e@),
            },
        ),
        r is Err ==> final(available)@ == old(available)@,
{
    let ghost sel = inputs_view(selected@);
    let ghost outs = outputs_view(outputs@);
    let ghost burned = burn_tokens(*burn);
    assert(native_token_balance(sel, outs, burned) is Some);
    let (incoming, outgoing) = native_token_totals(selected, outputs, burn);
    match get_native_tokens_diff(&outgoing, &incoming) {
        None => {
            let v: Vec<InputSigningData> = Vec::new();
            assert(inputs_view(v@) =~= Seq::<InputV>::empty());
            Ok(v)
        },
        Some(diffs) => if !allow_additional {
            Err(SelectionError::AdditionalInputsRequired(Requirement::NativeTokens))
        } else {
            match pick_tokens(available, &diffs) {
            Ok((ids, picked)) => {
                remove_ids(available, &ids);
                Ok(picked)
            },
            Err(e) => Err(e),
        }
        },
    }
}

/// The total of a token over two lists of outputs is the sum of the totals.
pub proof fn lemma_token_total_concat(a: Seq<OutputV>, b: Seq<OutputV>, k: Seq<u8>)
    ensures
        token_total(a + b, k) == token_total(a, k) + token_total(b, k),
    decreases b.len(),
{
    if b.len() == 0 {
        assert(a + b =~= a);
    } else {
        lemma_token_total_concat(a, b.drop_last(), k);
        assert((a + b).drop_last() =~= a + b.drop_last());
        assert((a + b).last() == b.last());
    }
}

/// The total of a token over a single output.
proof fn lemma_token_total_single(o: OutputV, k: Seq<u8>)
    ensures
        token_total(seq![o], k) == (if has_token(o, k) {
            held_amount(o)
        } else {
            0
        }),
{
    assert(seq![o].drop_last() =~= Seq::<OutputV>::empty());
    assert(token_total(seq![o].drop_last(), k) == 0);
    assert(seq![o].last() == o);
}

/// The amount of the native token an output holds, zero where it holds none.
pub open spec fn held_amount(o: OutputV) -> nat {
    match o.native_token {
        Some((_, a)) => a,
        None => 0,
    }
}

/// Whether no two inputs of the list spend the same output.
pub open spec fn distinct_output_ids(s: Seq<InputV>) -> bool {
    forall|i: int, j: int|
        0 <= i < s.len() && 0 <= j < s.len() && #[trigger] s[i].output_id == #[trigger] s[j].output_id
            ==> i == j
}

/// Whether no input of `avail` that holds token `k` spends an output of `ids`.
pub open spec fn token_inputs_fresh(avail: Seq<InputV>, k: Seq<u8>, ids: Seq<OutputIdV>) -> bool {
    forall|i: int|
        0 <= i < avail.len() && #[trigger] has_token(avail[i].output, k) ==> !ids.contains(
            avail[i].output_id,
        )
}

/// Picking for one token adds available inputs that hold it, each once, whose amounts
/// make up what the picking counted; the ids of the added inputs are added to `ids`.
proof fn lemma_token_pick(
    avail: Seq<InputV>,
    k: Seq<u8>,
    diff: nat,
    ids: Seq<OutputIdV>,
    picked: Seq<InputV>,
    amount: nat,
)
    requires
        distinct_output_ids(avail),
        token_inputs_fresh(avail, k, ids),
        token_pick(avail, k, diff, ids, picked, amount) is Some,
    ensures
        ({
            let (ids2, picked2, amount2) = token_pick(avail, k, diff, ids, picked, amount)->0;
            exists|fresh: Seq<InputV>|
                {
                    &&& picked2 == picked + fresh
                    &&& ids2 == ids + fresh.map_values(|x: InputV| x.output_id)
                    &&& forall|i: int| 0 <= i < fresh.len() ==> has_token(#[trigger] fresh[i].output, k)
                    &&& forall|i: int| 0 <= i < fresh.len() ==> avail.contains(#[trigger] fresh[i])
                    &&& amount2 == amount + token_total(input_outputs(fresh), k)
                }
        }),
    decreases avail.len(),
{
    let r = token_pick(avail, k, diff, ids, picked, amount)->0;
    if avail.len() == 0 {
        let fresh = Seq::<InputV>::empty();
        assert(picked + fresh =~= picked);
        assert(ids + fresh.map_values(|x: InputV| x.output_id) =~= ids);
        assert(input_outputs(fresh) =~= Seq::<OutputV>::empty());
    } else {
        let x = avail[0];
        let rest = avail.drop_first();
        assert forall|i: int, j: int|
            0 <= i < rest.len() && 0 <= j < rest.len() && #[trigger] rest[i].output_id
                == #[trigger] rest[j].output_id implies i == j by {
            assert(rest[i] == avail[i + 1] && rest[j] == avail[j + 1]);
        }
        if has_token(x.output, k) {
            let a = held_amount(x.output);
            assert(has_token(avail[0].output, k));
            assert(!ids.contains(x.output_id));
            let next = (amount + a) as nat;
            let ids2 = ids.push(x.output_id);
            let picked2 = picked.push(x);
            let one = seq![x];
            lemma_token_total_single(x.output, k);
            assert(input_outputs(one) =~= seq![x.output]);
            if next >= diff {
                assert(r == (ids2, picked2, next));
                assert(picked + one =~= picked2);
                assert(ids + one.map_values(|y: InputV| y.output_id) =~= ids2);
                assert(avail.contains(one[0]));
            } else {
                assert forall|i: int| 0 <= i < rest.len() && #[trigger] has_token(rest[i].output, k)
                    implies !ids2.contains(rest[i].output_id) by {
                    assert(rest[i] == avail[i + 1]);
                    assert(has_token(avail[i + 1].output, k));
                    if ids2.contains(rest[i].output_id) {
                        let j = choose|j: int| 0 <= j < ids2.len() && ids2[j] == rest[i].output_id;
                        if j < ids.len() {
                            assert(ids.contains(avail[i + 1].output_id));
                        } else {
                            assert(avail[i + 1].output_id == avail[0].output_id);
                        }
                    }
                }
                lemma_token_pick(rest, k, diff, ids2, picked2, next);
                let (ids3, picked3, amount3) = r;
                let fresh2 = choose|fresh: Seq<InputV>|
                    {
                        &&& picked3 == picked2 + fresh
                        &&& ids3 == ids2 + fresh.map_values(|y: InputV| y.output_id)
                        &&& forall|i: int| 0 <= i < fresh.len() ==> has_token(#[trigger] fresh[i].output, k)
                        &&& forall|i: int| 0 <= i < fresh.len() ==> rest.contains(#[trigger] fresh[i])
                        &&& amount3 == next + token_total(input_outputs(fresh), k)
                    };
                let fresh = one + fresh2;
                assert(picked3 =~= picked + fresh);
                assert(fresh.map_values(|y: InputV| y.output_id) =~= one.map_values(
                    |y: InputV| y.output_id,
                ) + fresh2.map_values(|y: InputV| y.output_id));
                assert(ids3 =~= ids + fresh.map_values(|y: InputV| y.output_id));
                assert forall|i: int| 0 <= i < fresh.len() implies avail.contains(#[trigger] fresh[i]) by {
                    if i == 0 {
                        assert(avail[0] == fresh[0]);
                    } else {
                        assert(fresh[i] == fresh2[i - 1]);
                        assert(rest.contains(fresh2[i - 1]));
                        let j = choose|j: int| 0 <= j < rest.len() && rest[j] == fresh2[i - 1];
                        assert(avail[j + 1] == rest[j]);
                    }
                }
                assert forall|i: int| 0 <= i < fresh.len() implies has_token(#[trigger] fresh[i].output, k) by {
                    if i > 0 {
                        assert(fresh[i] == fresh2[i - 1]);
                    }
                }
                assert(input_outputs(fresh) =~= input_outputs(one) + input_outputs(fresh2));
                lemma_token_total_concat(input_outputs(one), input_outputs(fresh2), k);
            }
        } else {
            assert forall|i: int| 0 <= i < rest.len() && #[trigger] has_token(rest[i].output, k)
                implies !ids.contains(rest[i].output_id) by {
                assert(rest[i] == avail[i + 1]);
                assert(has_token(avail[i + 1].output, k));
            }
            lemma_token_pick(rest, k, diff, ids, picked, amount);
            let (ids3, picked3, amount3) = r;
            let fresh = choose|fresh: Seq<InputV>|
                {
                    &&& picked3 == picked + fresh
                    &&& ids3 == ids + fresh.map_values(|y: InputV| y.output_id)
                    &&& forall|i: int| 0 <= i < fresh.len() ==> has_token(#[trigger] fresh[i].output, k)
                    &&& forall|i: int| 0 <= i < fresh.len() ==> rest.contains(#[trigger] fresh[i])
                    &&& amount3 == amount + token_total(input_outputs(fresh), k)
                };
            assert forall|i: int| 0 <= i < fresh.len() implies avail.contains(#[trigger] fresh[i]) by {
                assert(rest.contains(fresh[i]));
                let j = choose|j: int| 0 <= j < rest.len() && rest[j] == fresh[i];
                assert(avail[j + 1] == rest[j]);
            }
        }
    }
}

/// The inputs that a successful picking picked; none otherwise.
pub open spec fn picked_of(r: Option<Result<(Seq<OutputIdV>, Seq<InputV>), SelectionErrorV>>) -> Seq<InputV> {
    match r {
        Some(Ok((_, p))) => p,
        _ => Seq::empty(),
    }
}

/// Picking for each missing token in turn adds to the picked inputs, for each token, at
/// least the missing amount of it.
proof fn lemma_tokens_pick(
    avail: Seq<InputV>,
    diffs: Seq<(Seq<u8>, nat)>,
    ids: Seq<OutputIdV>,
    picked: Seq<InputV>,
)
    requires
        distinct_output_ids(avail),
        token_ids_increase(diffs),
        forall|i: int| 0 <= i < diffs.len() ==> token_inputs_fresh(avail, #[trigger] diffs[i].0, ids),
        tokens_pick(avail, diffs, ids, picked) matches Some(Ok(_)),
    ensures
        ({
            let picked_f = picked_of(tokens_pick(avail, diffs, ids, picked));
            &&& forall|k: Seq<u8>|
                #[trigger] token_total(input_outputs(picked_f), k) >= token_total(input_outputs(picked), k)
            &&& forall|i: int|
                0 <= i < diffs.len() ==> token_total(input_outputs(picked_f), #[trigger] diffs[i].0)
                    >= token_total(input_outputs(picked), diffs[i].0) + diffs[i].1
        }),
    decreases diffs.len(),
{
    if diffs.len() > 0 {
        let (k, d) = diffs[0];
        assert(token_inputs_fresh(avail, diffs[0].0, ids));
        lemma_token_pick(avail, k, d, ids, picked, 0);
        let (ids2, picked2, amount) = token_pick(avail, k, d, ids, picked, 0)->0;
        let fresh = choose|fresh: Seq<InputV>|
            {
                &&& picked2 == picked + fresh
                &&& ids2 == ids + fresh.map_values(|x: InputV| x.output_id)
                &&& forall|i: int| 0 <= i < fresh.len() ==> has_token(#[trigger] fresh[i].output, k)
                &&& forall|i: int| 0 <= i < fresh.len() ==> avail.contains(#[trigger] fresh[i])
                &&& amount == 0 + token_total(input_outputs(fresh), k)
            };
        assert(input_outputs(picked2) =~= input_outputs(picked) + input_outputs(fresh));
        assert forall|k2: Seq<u8>| #[trigger] token_total(input_outputs(picked2), k2) == token_total(
            input_outputs(picked),
            k2,
        ) + token_total(input_outputs(fresh), k2) by {
            lemma_token_total_concat(input_outputs(picked), input_outputs(fresh), k2);
        }
        let rest = diffs.drop_first();
        assert forall|i: int| 0 <= i < rest.len() implies token_inputs_fresh(avail, #[trigger] rest[i].0, ids2) by {
            assert(rest[i] == diffs[i + 1]);
            assert(token_inputs_fresh(avail, diffs[i + 1].0, ids));
            assert(bytes_lt(k, rest[i].0));
            assert forall|j: int| 0 <= j < avail.len() && #[trigger] has_token(avail[j].output, rest[i].0)
                implies !ids2.contains(avail[j].output_id) by {
                if ids2.contains(avail[j].output_id) {
                    let m = choose|m: int| 0 <= m < ids2.len() && ids2[m] == avail[j].output_id;
                    if m >= ids.len() {
                        let f = fresh[m - ids.len()];
                        assert(has_token(fresh[m - ids.len()].output, k));
                        assert(avail.contains(fresh[m - ids.len()]));
                        let q = choose|q: int| 0 <= q < avail.len() && avail[q] == f;
                        assert(avail[q].output_id == avail[j].output_id);
                        assert(q == j);
                        lemma_bytes_lt_irreflexive(k);
                    }
                }
            }
        }
        assert forall|a: int, b: int| 0 <= a < b < rest.len() implies bytes_lt(rest[a].0, rest[b].0) by {
            assert(rest[a] == diffs[a + 1] && rest[b] == diffs[b + 1]);
        }
        if amount < d {
            assert(false);
        }
        lemma_tokens_pick(avail, rest, ids2, picked2);
        let picked_f = picked_of(tokens_pick(avail, diffs, ids, picked));
        assert forall|i: int| 0 <= i < diffs.len() implies token_total(input_outputs(picked_f), #[trigger] diffs[i].0)
            >= token_total(input_outputs(picked), diffs[i].0) + diffs[i].1 by {
            if i > 0 {
                assert(rest[i - 1] == diffs[i]);
            } else {
                assert(token_total(input_outputs(picked_f), k) >= token_total(input_outputs(picked2), k));
            }
        }
    }
}

/// Adding amounts keeps a list ordered by token id.
proof fn lemma_tokens_add_all_sorted(s: Seq<(Seq<u8>, nat)>, t: Seq<(Seq<u8>, nat)>)
    requires
        token_ids_increase(s),
        tokens_add_all(s, t) is Some,
    ensures
        token_ids_increase(tokens_add_all(s, t)->0),
    decreases t.len(),
{
    if t.len() > 0 {
        lemma_tokens_add_all_sorted(s, t.drop_last());
        let s1 = tokens_add_all(s, t.drop_last())->0;
        lemma_token_put(s1, t.last().0, token_value(s1, t.last().0) + t.last().1);
    }
}

/// An id whose amount in the first sums exceeds the one in the second is in the
/// differences, with the excess.
proof fn lemma_tokens_diff_member(a: Seq<(Seq<u8>, nat)>, b: Seq<(Seq<u8>, nat)>, j: int)
    requires
        0 <= j < a.len(),
        a[j].1 > token_value(b, a[j].0),
    ensures
        exists|i: int|
            0 <= i < tokens_diff(a, b).len() && #[trigger] tokens_diff(a, b)[i] == (
                a[j].0,
                (a[j].1 - token_value(b, a[j].0)) as nat,
            ),
    decreases a.len(),
{
    let d0 = tokens_diff(a.drop_last(), b);
    let d = tokens_diff(a, b);
    if j == a.len() - 1 {
        assert(d[d.len() - 1] == (a[j].0, (a[j].1 - token_value(b, a[j].0)) as nat));
    } else {
        assert(a.drop_last()[j] == a[j]);
        lemma_tokens_diff_member(a.drop_last(), b, j);
        let i = choose|i: int|
            0 <= i < d0.len() && #[trigger] d0[i] == (a[j].0, (a[j].1 - token_value(b, a[j].0)) as nat);
        assert(d[i] == d0[i]);
    }
}

/// The inputs that a fulfilment picked; none otherwise.
pub open spec fn fulfilment_picked(r: Option<Result<(Seq<InputV>, Seq<InputV>), SelectionErrorV>>) -> Seq<InputV> {
    match r {
        Some(Ok((p, _))) => p,
        _ => Seq::empty(),
    }
}

proof fn lemma_tokens_pick_error(
    avail: Seq<InputV>,
    diffs: Seq<(Seq<u8>, nat)>,
    ids: Seq<OutputIdV>,
    picked: Seq<InputV>,
)
    ensures
        tokens_pick(avail, diffs, ids, picked) matches Some(Err(e)) ==> e matches SelectionErrorV::InsufficientNativeTokenAmount {
            token_id,
            found,
            required,
        } && found < required && exists|i: int| 0 <= i < diffs.len() && #[trigger] diffs[i] == (token_id, required),
    decreases diffs.len(),
{
    if diffs.len() > 0 {
        let (k, d) = diffs[0];
        match token_pick(avail, k, d, ids, picked, 0) {
            None => {},
            Some((ids2, picked2, amount)) => if amount >= d {
                lemma_tokens_pick_error(avail, diffs.drop_first(), ids2, picked2);
                if let Some(Err(SelectionErrorV::InsufficientNativeTokenAmount { token_id, found, required })) =
                    tokens_pick(avail, diffs.drop_first(), ids2, picked2) {
                    {
                        let i = choose|i: int| 0 <= i < diffs.drop_first().len() && #[trigger] diffs.drop_first()[i] == (
                            token_id,
                            required,
                        );
                        assert(diffs[i + 1] == diffs.drop_first()[i]);
                    }
                }
            } else {
                assert(diffs[0] == (k, d));
            },
        }
    }
}

proof fn lemma_tokens_diff_entries(a: Seq<(Seq<u8>, nat)>, b: Seq<(Seq<u8>, nat)>)
    ensures
        forall|i: int|
            0 <= i < tokens_diff(a, b).len() ==> exists|j: int|
                0 <= j < a.len() && a[j].1 >= token_value(b, a[j].0) && #[trigger] tokens_diff(a, b)[i] == (
                    a[j].0,
                    (a[j].1 - token_value(b, a[j].0)) as nat,
                ),
    decreases a.len(),
{
    if a.len() > 0 {
        let init = a.drop_last();
        lemma_tokens_diff_entries(init, b);
        let d0 = tokens_diff(init, b);
        let d = tokens_diff(a, b);
        assert forall|i: int| 0 <= i < d.len() implies exists|j: int|
            0 <= j < a.len() && a[j].1 >= token_value(b, a[j].0) && #[trigger] d[i] == (
                a[j].0,
                (a[j].1 - token_value(b, a[j].0)) as nat,
            ) by {
            if i < d0.len() {
                assert(d[i] == d0[i]);
                let j = choose|j: int|
                    0 <= j < init.len() && init[j].1 >= token_value(b, init[j].0) && #[trigger] d0[i] == (
                        init[j].0,
                        (init[j].1 - token_value(b, init[j].0)) as nat,
                    );
                assert(a[j] == init[j]);
            } else {
                assert(a[a.len() - 1] == a.last());
            }
        }
    }
}

/// Where the available inputs run short of a native token, the error names a token that the
/// outputs take more of than the inputs bring, the amount missing as required, and a found
/// amount below it.
pub proof fn lemma_short_token_reported(
    selected: Seq<InputV>,
    outputs: Seq<OutputV>,
    burned: Seq<(Seq<u8>, nat)>,
    avail: Seq<InputV>,
)
    ensures
        native_tokens_fulfilment(selected, outputs, burned, avail) matches Some(Err(e)) ==> {
            let (incoming, outgoing) = native_token_balance(selected, outputs, burned)->0;
            e matches SelectionErrorV::InsufficientNativeTokenAmount { token_id, found, required } && found < required
                && exists|j: int|
                0 <= j < outgoing.len() && #[trigger] outgoing[j].0 == token_id && outgoing[j].1 > token_value(
                    incoming,
                    token_id,
                ) && required == outgoing[j].1 - token_value(incoming, token_id)
        },
{
    match native_token_balance(selected, outputs, burned) {
        None => {},
        Some((incoming, outgoing)) => {
            let diffs = tokens_diff(outgoing, incoming);
            lemma_tokens_pick_error(avail, diffs, Seq::empty(), Seq::empty());
            lemma_tokens_diff_entries(outgoing, incoming);
            if let Some(Err(SelectionErrorV::InsufficientNativeTokenAmount { token_id, found, required })) =
                native_tokens_fulfilment(selected, outputs, burned, avail) {
                {
                    let i = choose|i: int| 0 <= i < diffs.len() && #[trigger] diffs[i] == (token_id, required);
                    let j = choose|j: int|
                        0 <= j < outgoing.len() && outgoing[j].1 >= token_value(incoming, outgoing[j].0) && #[trigger] diffs[i] == (
                            outgoing[j].0,
                            (outgoing[j].1 - token_value(incoming, outgoing[j].0)) as nat,
                        );
                    assert(outgoing[j].0 == token_id);
                }
            }
        },
    }
}

/// Fulfilling the native tokens requirement covers every token: where the available inputs
/// spend distinct outputs and the fulfilment succeeds, the native tokens that come in, with
/// those of the picked inputs, reach for each token id the amount that goes out.
pub proof fn lemma_fulfilment_covers(
    selected: Seq<InputV>,
    outputs: Seq<OutputV>,
    burned: Seq<(Seq<u8>, nat)>,
    avail: Seq<InputV>,
    k: Seq<u8>,
)
    requires
        distinct_output_ids(avail),
        native_tokens_fulfilment(selected, outputs, burned, avail) matches Some(Ok(_)),
    ensures
        ({
            let (incoming, outgoing) = native_token_balance(selected, outputs, burned)->0;
            let picked = fulfilment_picked(native_tokens_fulfilment(selected, outputs, burned, avail));
            token_value(outgoing, k) <= token_value(incoming, k) + token_total(input_outputs(picked), k)
        }),
{
    let (minted, melted) = minted_melted(outputs, selected)->0;
    lemma_token_sums(input_outputs(selected));
    lemma_token_sums(outputs);
    lemma_tokens_add_all_sorted(token_sums(input_outputs(selected)), minted);
    lemma_tokens_add_all_sorted(token_sums(outputs), melted);
    let o = tokens_add_all(token_sums(outputs), melted)->0;
    lemma_tokens_add_all_sorted(o, burned);
    let (incoming, outgoing) = native_token_balance(selected, outputs, burned)->0;
    let picked = fulfilment_picked(native_tokens_fulfilment(selected, outputs, burned, avail));
    if token_value(outgoing, k) > token_value(incoming, k) {
        lemma_token_pos(outgoing, k);
        let p = token_pos(outgoing, k) as int;
        assert(outgoing[p] == (k, token_value(outgoing, k)));
        lemma_tokens_diff_member(outgoing, incoming, p);
        let diffs = tokens_diff(outgoing, incoming);
        lemma_tokens_diff(outgoing, incoming);
        let i = choose|i: int|
            0 <= i < diffs.len() && #[trigger] diffs[i] == (
                k,
                (token_value(outgoing, k) - token_value(incoming, k)) as nat,
            );
        assert forall|m: int| 0 <= m < diffs.len() implies token_inputs_fresh(
            avail,
            #[trigger] diffs[m].0,
            Seq::empty(),
        ) by {}
        lemma_tokens_pick(avail, diffs, Seq::empty(), Seq::empty());
        assert(input_outputs(Seq::<InputV>::empty()) =~= Seq::<OutputV>::empty());
        assert(picked == picked_of(tokens_pick(avail, diffs, Seq::empty(), Seq::empty())));
        assert(token_total(input_outputs(picked), diffs[i].0) >= 0 + diffs[i].1);
    }
}

} // verus!
