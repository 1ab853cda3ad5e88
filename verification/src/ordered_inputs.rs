//! Selected inputs, kept so that they can be listed in signing order: an input unlocked
//! through an account or nft address comes after the input of that account or nft.

use vstd::prelude::*;
use vstd::multiset::Multiset;

use crate::amount::inputs_view;
use crate::ledger::{Address, AddressKind, AddressV, InputSigningData, InputV, OutputKind};

verus! {

/// The rank of an address kind in the order of addresses.
pub open spec fn kind_rank(k: AddressKind) -> int {
    match k {
        AddressKind::Ed25519 => 0,
        AddressKind::Account => 1,
        AddressKind::Nft => 2,
        AddressKind::Anchor => 3,
        AddressKind::ImplicitAccountCreation => 4,
    }
}

/// Lexicographic order on byte strings.
pub open spec fn bytes_lt(x: Seq<u8>, y: Seq<u8>) -> bool
    decreases x.len(),
{
    if x.len() == 0 {
        y.len() > 0
    } else if y.len() == 0 {
        false
    } else if x[0] < y[0] {
        true
    } else if x[0] > y[0] {
        false
    } else {
        bytes_lt(x.drop_first(), y.drop_first())
    }
}

/// The order of addresses: plain ones before restricted ones, then by kind, then by id.
pub open spec fn key_lt(a: AddressV, b: AddressV) -> bool {
    ||| (!a.restricted && b.restricted)
    ||| (a.restricted == b.restricted && kind_rank(a.kind) < kind_rank(b.kind))
    ||| (a.restricted == b.restricted && a.kind == b.kind && bytes_lt(a.id, b.id))
}

pub proof fn lemma_bytes_lt_irreflexive(x: Seq<u8>)
    ensures
        !bytes_lt(x, x),
    decreases x.len(),
{
    if x.len() > 0 {
        lemma_bytes_lt_irreflexive(x.drop_first());
    }
}

pub proof fn lemma_bytes_lt_transitive(x: Seq<u8>, y: Seq<u8>, z: Seq<u8>)
    requires
        bytes_lt(x, y),
        bytes_lt(y, z),
    ensures
        bytes_lt(x, z),
    decreases x.len(),
{
    if x.len() > 0 && y.len() > 0 && z.len() > 0 && x[0] == y[0] && y[0] == z[0] {
        lemma_bytes_lt_transitive(x.drop_first(), y.drop_first(), z.drop_first());
    }
}

pub proof fn lemma_bytes_lt_total(x: Seq<u8>, y: Seq<u8>)
    requires
        x != y,
    ensures
        bytes_lt(x, y) || bytes_lt(y, x),
    decreases x.len(),
{
    if x.len() > 0 && y.len() > 0 && x[0] == y[0] {
        if x.drop_first() == y.drop_first() {
            assert(x =~= seq![x[0]] + x.drop_first());
            assert(y =~= seq![y[0]] + y.drop_first());
        }
        lemma_bytes_lt_total(x.drop_first(), y.drop_first());
    } else if x.len() == 0 && y.len() == 0 {
        assert(x =~= y);
    }
}

pub proof fn lemma_key_lt_irreflexive(a: AddressV)
    ensures
        !key_lt(a, a),
{
    lemma_bytes_lt_irreflexive(a.id);
}

pub proof fn lemma_key_lt_transitive(a: AddressV, b: AddressV, c: AddressV)
    requires
        key_lt(a, b),
        key_lt(b, c),
    ensures
        key_lt(a, c),
{
    if a.restricted == b.restricted && b.restricted == c.restricted && a.kind == b.kind && b.kind
        == c.kind && bytes_lt(a.id, b.id) && bytes_lt(b.id, c.id) {
        lemma_bytes_lt_transitive(a.id, b.id, c.id);
    }
}

pub proof fn lemma_key_lt_total(a: AddressV, b: AddressV)
    requires
        a != b,
    ensures
        key_lt(a, b) || key_lt(b, a),
{
    if a.restricted == b.restricted && a.kind == b.kind {
        if a.id == b.id {
            assert(a == b);
        }
        lemma_bytes_lt_total(a.id, b.id);
    }
}

/// Decides `bytes_lt`.
pub fn bytes_lt_exec(x: &Vec<u8>, y: &Vec<u8>) -> (r: bool)
    ensures
        r == bytes_lt(x@, y@),
{
    let mut i: usize = 0;
    assert(x@.skip(0) =~= x@);
    assert(y@.skip(0) =~= y@);
    while i < x.len() && i < y.len()
        invariant
            i <= x@.len(),
            i <= y@.len(),
            bytes_lt(x@, y@) == bytes_lt(x@.skip(i as int), y@.skip(i as int)),
        decreases x@.len() - i,
    {
        let ghost xs = x@.skip(i as int);
        let ghost ys = y@.skip(i as int);
        assert(xs[0] == x@[i as int]);
        assert(ys[0] == y@[i as int]);
        if x[i] < y[i] {
            return true;
        }
        if x[i] > y[i] {
            return false;
        }
        assert(xs.drop_first() =~= x@.skip(i + 1));
        assert(ys.drop_first() =~= y@.skip(i + 1));
        i = i + 1;
    }
    i < y.len()
}

fn kind_rank_exec(k: AddressKind) -> (r: u8)
    ensures
        r == kind_rank(k),
{
    match k {
        AddressKind::Ed25519 => 0,
        AddressKind::Account => 1,
        AddressKind::Nft => 2,
        AddressKind::Anchor => 3,
        AddressKind::ImplicitAccountCreation => 4,
    }
}

/// Decides `key_lt`.
pub fn address_lt(a: &Address, b: &Address) -> (r: bool)
    ensures
        r == key_lt(a@, b@),
{
    if !a.restricted && b.restricted {
        return true;
    }
    if a.restricted != b.restricted {
        return false;
    }
    let ra = kind_rank_exec(a.kind);
    let rb = kind_rank_exec(b.kind);
    if ra < rb {
        return true;
    }
    if ra > rb {
        return false;
    }
    assert(a.kind == b.kind);
    bytes_lt_exec(&a.id.bytes, &b.id.bytes)
}

/// The inputs stored under one unlock address.
#[derive(Debug)]
pub struct AddressInputs {
    pub address: Address,
    pub inputs: Vec<InputSigningData>,
}

/// The value of the inputs stored under an address.
pub open spec fn entry_view(e: AddressInputs) -> (AddressV, Seq<InputV>) {
    (e.address@, inputs_view(e.inputs@))
}

/// The values of all entries.
pub open spec fn entries_view(v: Seq<AddressInputs>) -> Seq<(AddressV, Seq<InputV>)> {
    v.map_values(|e: AddressInputs| entry_view(e))
}

/// Whether the addresses of the entries strictly increase.
pub open spec fn sorted_keys(other: Seq<(AddressV, Seq<InputV>)>) -> bool {
    forall|i: int, j: int| 0 <= i < j < other.len() ==> key_lt(other[i].0, other[j].0)
}

/// The position of the entry for `key`, or -1.
pub open spec fn find_key(other: Seq<(AddressV, Seq<InputV>)>, key: AddressV) -> int
    decreases other.len(),
{
    if other.len() == 0 {
        -1
    } else if other[0].0 == key {
        0
    } else {
        let r = find_key(other.drop_first(), key);
        if r < 0 {
            -1
        } else {
            r + 1
        }
    }
}

/// The number of leading entries whose address is below `key`.
pub open spec fn insert_pos(other: Seq<(AddressV, Seq<InputV>)>, key: AddressV) -> int
    decreases other.len(),
{
    if other.len() == 0 {
        0
    } else if key_lt(other[0].0, key) {
        1 + insert_pos(other.drop_first(), key)
    } else {
        0
    }
}

/// The entries after `x` is stored under `key`.
pub open spec fn insert_other(other: Seq<(AddressV, Seq<InputV>)>, key: AddressV, x: InputV) -> Seq<
    (AddressV, Seq<InputV>),
> {
    let i = find_key(other, key);
    if i >= 0 {
        other.update(i, (key, other[i].1.push(x)))
    } else {
        other.insert(insert_pos(other, key), (key, seq![x]))
    }
}

proof fn lemma_find_key(other: Seq<(AddressV, Seq<InputV>)>, key: AddressV)
    ensures
        -1 <= find_key(other, key) < other.len(),
        find_key(other, key) >= 0 ==> other[find_key(other, key)].0 == key && forall|j: int|
            0 <= j < find_key(other, key) ==> other[j].0 != key,
        find_key(other, key) < 0 ==> forall|j: int| 0 <= j < other.len() ==> other[j].0 != key,
    decreases other.len(),
{
    if other.len() > 0 && other[0].0 != key {
        lemma_find_key(other.drop_first(), key);
        assert forall|j: int| 1 <= j < other.len() implies other[j] == other.drop_first()[j - 1] by {}
    }
}

proof fn lemma_insert_pos(other: Seq<(AddressV, Seq<InputV>)>, key: AddressV)
    ensures
        0 <= insert_pos(other, key) <= other.len(),
        forall|j: int| 0 <= j < insert_pos(other, key) ==> key_lt(other[j].0, key),
        insert_pos(other, key) < other.len() ==> !key_lt(other[insert_pos(other, key)].0, key),
    decreases other.len(),
{
    if other.len() > 0 && key_lt(other[0].0, key) {
        lemma_insert_pos(other.drop_first(), key);
        assert forall|j: int| 1 <= j < other.len() implies other[j] == other.drop_first()[j - 1] by {}
    }
}

/// The first position holding `key` is the one that `find_key` gives.
proof fn lemma_find_key_is(other: Seq<(AddressV, Seq<InputV>)>, key: AddressV, f: int)
    requires
        f >= 0 ==> 0 <= f < other.len() && other[f].0 == key && forall|j: int| 0 <= j < f ==> other[j].0 != key,
        f < 0 ==> f == -1 && forall|j: int| 0 <= j < other.len() ==> other[j].0 != key,
    ensures
        find_key(other, key) == f,
{
    lemma_find_key(other, key);
    let g = find_key(other, key);
    if g >= 0 && f >= 0 {
        if g < f {
            assert(other[g].0 != key);
        } else if f < g {
            assert(other[f].0 != key);
        }
    } else if g >= 0 {
        assert(other[g].0 != key);
    } else if f >= 0 {
        assert(other[f].0 != key);
    }
}

/// The value of the selected inputs: those unlocked by an Ed25519 key in order of
/// insertion, the others per address in the order of addresses, and their count.
pub struct OrderedInputsV {
    pub ed25519: Seq<InputV>,
    pub other: Seq<(AddressV, Seq<InputV>)>,
    pub len: nat,
}

impl OrderedInputsV {
    /// Addresses increase, no address holds an empty list, and the count is the number of
    /// stored inputs.
    pub open spec fn wf(self) -> bool {
        &&& sorted_keys(self.other)
        &&& forall|i: int| 0 <= i < self.other.len() ==> #[trigger] self.other[i].1.len() > 0
        &&& self.len == self.ed25519.len() + flatten_entries(self.other).len()
    }

    /// The inputs after `x`, unlocked through `required`, is stored.
    pub open spec fn insert(self, required: AddressV, x: InputV) -> OrderedInputsV {
        if required.backing_ed25519() is Some {
            OrderedInputsV { ed25519: self.ed25519.push(x), len: self.len + 1, ..self }
        } else {
            OrderedInputsV {
                other: insert_other(self.other, required, x),
                len: self.len + 1,
                ..self
            }
        }
    }
}

/// Selected inputs, grouped so that they can be listed in signing order.
#[derive(Debug)]
pub struct OrderedInputs {
    ed25519: Vec<InputSigningData>,
    other: Vec<AddressInputs>,
    len: usize,
}

impl View for OrderedInputs {
    type V = OrderedInputsV;

    closed spec fn view(&self) -> OrderedInputsV {
        OrderedInputsV {
            ed25519: inputs_view(self.ed25519@),
            other: entries_view(self.other@),
            len: self.len as nat,
        }
    }
}

impl OrderedInputs {
    /// No inputs.
    pub fn new() -> (r: OrderedInputs)
        ensures
            r@ == (OrderedInputsV { ed25519: Seq::empty(), other: Seq::empty(), len: 0 }),
            r@.wf(),
    {
        let r = OrderedInputs { ed25519: Vec::new(), other: Vec::new(), len: 0 };
        assert(r@.ed25519 =~= Seq::<InputV>::empty());
        assert(r@.other =~= Seq::<(AddressV, Seq<InputV>)>::empty());
        r
    }

    /// The number of inputs.
    pub fn len(&self) -> (r: usize)
        ensures
            r == self@.len,
    {
        self.len
    }

    /// Whether there are no inputs.
    pub fn is_empty(&self) -> (r: bool)
        ensures
            r == (self@.len == 0),
    {
        self.len() == 0
    }

    /// Stores `input`, which `required_address` unlocks.
    pub fn insert(&mut self, required_address: Address, input: InputSigningData)
        requires
            old(self)@.wf(),
            old(self)@.len < usize::MAX,
        ensures
            final(self)@ == old(self)@.insert(required_address@, input@),
            final(self)@.wf(),
    {
        let ghost key = required_address@;
        let ghost x = input@;
        if required_address.is_ed25519_backed() {
            self.ed25519.push(input);
            assert(inputs_view(self.ed25519@) =~= old(self)@.ed25519.push(x));
        } else {
            let ghost o = old(self)@.other;
            proof {
                lemma_insert_other_len(o, key, x);
            }
            let mut p: usize = 0;
            while p < self.other.len() && address_lt(&self.other[p].address, &required_address)
                invariant
                    p <= self.other@.len(),
                    o == entries_view(self.other@),
                    key == required_address@,
                    forall|j: int| 0 <= j < p ==> key_lt(o[j].0, key),
                decreases self.other@.len() - p,
            {
                p = p + 1;
            }
            proof {
                lemma_insert_pos(o, key);
                lemma_find_key(o, key);
                assert(p == insert_pos(o, key)) by {
                    if p < insert_pos(o, key) {
                        assert(key_lt(o[p as int].0, key));
                    } else if p > insert_pos(o, key) {
                        assert(key_lt(o[insert_pos(o, key)].0, key));
                    }
                }
            }
            if p < self.other.len() && self.other[p].address.same(&required_address) {
                proof {
                    assert forall|j: int| 0 <= j < p implies o[j].0 != key by {
                        lemma_key_lt_irreflexive(key);
                    }
                    assert(find_key(o, key) == p);
                }
                let ghost before = self.other@;
                let mut e = self.other.remove(p);
                let ghost e_old = e;
                e.inputs.push(input);
                proof {
                    assert(inputs_view(e.inputs@) =~= inputs_view(e_old.inputs@).push(x));
                    assert(e_old == before[p as int]);
                    assert(entry_view(e) == (key, o[p as int].1.push(x)));
                }
                self.other.insert(p, e);
                proof {
                    assert(self.other@ =~= before.update(p as int, e));
                    assert(entries_view(self.other@) =~= insert_other(o, key, x));
                    let n = entries_view(self.other@);
                    assert forall|i: int, j: int| 0 <= i < j < n.len() implies key_lt(n[i].0, n[j].0) by {
                        assert(n[i].0 == o[i].0 && n[j].0 == o[j].0);
                    }
                }
            } else {
                proof {
                    assert forall|j: int| 0 <= j < o.len() implies o[j].0 != key by {
                        lemma_key_lt_irreflexive(key);
                        if j >= p {
                            assert(!key_lt(o[p as int].0, key));
                            assert(o[p as int].0 != key);
                            lemma_key_lt_total(o[p as int].0, key);
                            if j > p {
                                lemma_key_lt_transitive(key, o[p as int].0, o[j].0);
                                lemma_key_lt_irreflexive(o[j].0);
                            }
                        }
                    }
                    assert(find_key(o, key) == -1);
                }
                let mut inputs: Vec<InputSigningData> = Vec::new();
                inputs.push(input);
                let e = AddressInputs { address: required_address, inputs };
                self.other.insert(p, e);
                proof {
                    assert(inputs_view(e.inputs@) =~= seq![x]);
                    assert(entries_view(self.other@) =~= insert_other(o, key, x));
                    let n = entries_view(self.other@);
                    assert forall|i: int, j: int| 0 <= i < j < n.len() implies key_lt(n[i].0, n[j].0) by {
                        if j == p {
                            assert(n[i].0 == o[i].0);
                        } else if i == p {
                            assert(n[j].0 == o[j - 1].0);
                            if j - 1 > p {
                                lemma_key_lt_total(o[p as int].0, key);
                                lemma_key_lt_transitive(key, o[p as int].0, o[j - 1].0);
                            } else {
                                lemma_key_lt_total(o[p as int].0, key);
                            }
                        } else if j < p {
                            assert(n[i].0 == o[i].0 && n[j].0 == o[j].0);
                        } else if i < p {
                            assert(n[i].0 == o[i].0 && n[j].0 == o[j - 1].0);
                        } else {
                            assert(n[i].0 == o[i - 1].0 && n[j].0 == o[j - 1].0);
                        }
                    }
                    assert forall|i: int| 0 <= i < n.len() implies #[trigger] n[i].1.len() > 0 by {
                        if i < p {
                            assert(n[i] == o[i]);
                        } else if i > p {
                            assert(n[i] == o[i - 1]);
                        }
                    }
                }
            }
        }
        self.len = self.len + 1;
    }
}

/// The state of a listing in signing order: the queue of inputs to list next, and the
/// inputs still stored per address.
pub struct ListingV {
    pub queue: Seq<InputV>,
    pub other: Seq<(AddressV, Seq<InputV>)>,
}

/// The address through which other inputs are unlocked by the account or nft of `x`.
pub open spec fn dependents_address(x: InputV) -> Option<AddressV> {
    match x.output.kind {
        OutputKind::Account => Some(
            AddressV {
                kind: AddressKind::Account,
                id: x.output.chain_id_non_null(x.output_id),
                restricted: false,
            },
        ),
        OutputKind::Nft => Some(
            AddressV {
                kind: AddressKind::Nft,
                id: x.output.chain_id_non_null(x.output_id),
                restricted: false,
            },
        ),
        _ => None,
    }
}

/// The next input of the listing and the state after it: the head of the queue, whose
/// dependents then go to the front of the queue; or, once the queue is empty, the first
/// input stored under the lowest address.
pub open spec fn next_listed(st: ListingV) -> Option<(InputV, ListingV)> {
    if st.queue.len() > 0 {
        let x = st.queue[0];
        let rest = st.queue.drop_first();
        match dependents_address(x) {
            Some(k) => {
                let i = find_key(st.other, k);
                if i >= 0 {
                    Some((x, ListingV { queue: st.other[i].1 + rest, other: st.other.remove(i) }))
                } else {
                    Some((x, ListingV { queue: rest, other: st.other }))
                }
            },
            None => Some((x, ListingV { queue: rest, other: st.other })),
        }
    } else if st.other.len() > 0 && st.other[0].1.len() > 0 {
        let items = st.other[0].1;
        Some(
            (
                items[0],
                ListingV {
                    queue: st.queue,
                    other: if items.len() == 1 {
                        st.other.drop_first()
                    } else {
                        st.other.update(0, (st.other[0].0, items.drop_first()))
                    },
                },
            ),
        )
    } else {
        None
    }
}

/// The first `fuel` inputs of the listing from `st`.
pub open spec fn listing(st: ListingV, fuel: nat) -> Seq<InputV>
    decreases fuel,
{
    if fuel == 0 {
        Seq::empty()
    } else {
        match next_listed(st) {
            Some((x, next)) => seq![x] + listing(next, (fuel - 1) as nat),
            None => Seq::empty(),
        }
    }
}

impl OrderedInputsV {
    /// The inputs in signing order.
    pub open spec fn sorted(self) -> Seq<InputV> {
        listing(ListingV { queue: self.ed25519, other: self.other }, self.len)
    }

    /// The inputs unlocked by Ed25519 keys, then those stored per address, in the order of
    /// addresses.
    pub open spec fn all(self) -> Seq<InputV> {
        self.ed25519 + flatten_entries(self.other)
    }
}

/// The inputs of all entries, in order.
pub open spec fn flatten_entries(other: Seq<(AddressV, Seq<InputV>)>) -> Seq<InputV>
    decreases other.len(),
{
    if other.len() == 0 {
        Seq::empty()
    } else {
        flatten_entries(other.drop_last()) + other.last().1
    }
}

/// The inputs of two lists of entries are those of the first, then those of the second.
pub proof fn lemma_flatten_concat(a: Seq<(AddressV, Seq<InputV>)>, b: Seq<(AddressV, Seq<InputV>)>)
    ensures
        flatten_entries(a + b) == flatten_entries(a) + flatten_entries(b),
    decreases b.len(),
{
    if b.len() == 0 {
        assert(a + b =~= a);
        assert(flatten_entries(a) + flatten_entries(b) =~= flatten_entries(a));
    } else {
        lemma_flatten_concat(a, b.drop_last());
        assert((a + b).drop_last() =~= a + b.drop_last());
        assert((a + b).last() == b.last());
        assert(flatten_entries(a) + flatten_entries(b.drop_last()) + b.last().1 =~= flatten_entries(a) + (
        flatten_entries(b.drop_last()) + b.last().1));
    }
}

/// The inputs of the entries are those before the entry at `i`, its own, then those after.
pub proof fn lemma_flatten_split(o: Seq<(AddressV, Seq<InputV>)>, i: int)
    requires
        0 <= i < o.len(),
    ensures
        flatten_entries(o) == flatten_entries(o.take(i)) + o[i].1 + flatten_entries(o.skip(i + 1)),
        flatten_entries(o.remove(i)) == flatten_entries(o.take(i)) + flatten_entries(o.skip(i + 1)),
{
    let single = seq![o[i]];
    assert(o =~= o.take(i) + single + o.skip(i + 1));
    assert(o.remove(i) =~= o.take(i) + o.skip(i + 1));
    lemma_flatten_concat(o.take(i) + single, o.skip(i + 1));
    lemma_flatten_concat(o.take(i), single);
    lemma_flatten_concat(o.take(i), o.skip(i + 1));
    assert(single.drop_last() =~= Seq::<(AddressV, Seq<InputV>)>::empty());
    assert(flatten_entries(single.drop_last()) =~= Seq::<InputV>::empty());
    assert(flatten_entries(single) =~= flatten_entries(single.drop_last()) + single.last().1);
    assert(flatten_entries(single) =~= o[i].1);
}

/// Storing an input adds it to the stored inputs, whatever address it is stored under.
pub proof fn lemma_insert_all(v: OrderedInputsV, required: AddressV, x: InputV)
    ensures
        v.insert(required, x).all().to_multiset() == v.all().to_multiset().insert(x),
{
    broadcast use vstd::multiset::group_multiset_axioms;
    broadcast use vstd::seq_lib::lemma_multiset_commutative;
    broadcast use vstd::seq_lib::to_multiset_build;

    let w = v.insert(required, x);
    if required.backing_ed25519() is Some {
        assert(w.all() =~= v.ed25519.push(x) + flatten_entries(v.other));
        assert(w.all().to_multiset() =~= v.all().to_multiset().insert(x));
    } else {
        let o = v.other;
        let key = required;
        lemma_find_key(o, key);
        lemma_insert_pos(o, key);
        let i = find_key(o, key);
        let single = seq![x];
        assert(single.to_multiset() =~= Multiset::<InputV>::empty().insert(x)) by {
            vstd::seq_lib::to_multiset_build(Seq::<InputV>::empty(), x);
            assert(Seq::<InputV>::empty().push(x) =~= single);
            vstd::seq_lib::to_multiset_len(Seq::<InputV>::empty());
            vstd::multiset::lemma_multiset_empty_len(Seq::<InputV>::empty().to_multiset());
        }
        if i >= 0 {
            let n = o.update(i, (key, o[i].1.push(x)));
            lemma_flatten_split(o, i);
            lemma_flatten_split(n, i);
            assert(n.take(i) =~= o.take(i));
            assert(n.skip(i + 1) =~= o.skip(i + 1));
            assert(flatten_entries(n).to_multiset() =~= flatten_entries(o).to_multiset().insert(x));
        } else {
            let p = insert_pos(o, key);
            let n = o.insert(p, (key, seq![x]));
            lemma_flatten_split(n, p);
            assert(n.take(p) =~= o.take(p));
            assert(n.skip(p + 1) =~= o.skip(p));
            lemma_flatten_concat(o.take(p), o.skip(p));
            assert(o =~= o.take(p) + o.skip(p));
            assert(flatten_entries(n).to_multiset() =~= flatten_entries(o).to_multiset().insert(x));
        }
        assert(w.all() =~= v.ed25519 + flatten_entries(insert_other(o, key, x)));
        assert(w.all().to_multiset() =~= v.all().to_multiset().insert(x));
    }
}

/// Storing one more input adds one to the stored inputs.
proof fn lemma_insert_other_len(o: Seq<(AddressV, Seq<InputV>)>, key: AddressV, x: InputV)
    ensures
        flatten_entries(insert_other(o, key, x)).len() == flatten_entries(o).len() + 1,
{
    lemma_find_key(o, key);
    lemma_insert_pos(o, key);
    let i = find_key(o, key);
    if i >= 0 {
        let n = o.update(i, (key, o[i].1.push(x)));
        lemma_flatten_split(o, i);
        lemma_flatten_split(n, i);
        assert(n.take(i) =~= o.take(i));
        assert(n.skip(i + 1) =~= o.skip(i + 1));
    } else {
        let p = insert_pos(o, key);
        let n = o.insert(p, (key, seq![x]));
        lemma_flatten_split(n, p);
        assert(n.take(p) =~= o.take(p));
        assert(n.skip(p + 1) =~= o.skip(p));
        lemma_flatten_concat(o.take(p), o.skip(p));
        assert(o =~= o.take(p) + o.skip(p));
    }
}

/// The inputs still to be listed: the queue, then those stored per address.
pub open spec fn listing_pool(st: ListingV) -> Multiset<InputV> {
    st.queue.to_multiset().add(flatten_entries(st.other).to_multiset())
}

/// Whether no address of the listing state holds an empty list.
pub open spec fn listing_wf(st: ListingV) -> bool {
    forall|i: int| 0 <= i < st.other.len() ==> #[trigger] st.other[i].1.len() > 0
}

proof fn lemma_next_listed(st: ListingV)
    requires
        listing_wf(st),
    ensures
        match next_listed(st) {
            Some((x, n)) => listing_wf(n) && listing_pool(st) == listing_pool(n).insert(x),
            None => listing_pool(st).len() == 0,
        },
{
    broadcast use vstd::multiset::group_multiset_axioms;
    broadcast use vstd::seq_lib::lemma_multiset_commutative;
    broadcast use vstd::seq_lib::to_multiset_len;

    if st.queue.len() > 0 {
        let x = st.queue[0];
        let rest = st.queue.drop_first();
        assert(st.queue =~= seq![x] + rest);
        assert(seq![x].to_multiset() =~= Multiset::empty().insert(x)) by {
            vstd::seq_lib::to_multiset_build(Seq::<InputV>::empty(), x);
            assert(Seq::<InputV>::empty().push(x) =~= seq![x]);
            vstd::seq_lib::to_multiset_len(Seq::<InputV>::empty());
            vstd::multiset::lemma_multiset_empty_len(Seq::<InputV>::empty().to_multiset());
        }
        match dependents_address(x) {
            Some(k) => {
                let i = find_key(st.other, k);
                lemma_find_key(st.other, k);
                if i >= 0 {
                    lemma_flatten_split(st.other, i);
                    let n = ListingV { queue: st.other[i].1 + rest, other: st.other.remove(i) };
                    assert forall|j: int| 0 <= j < n.other.len() implies #[trigger] n.other[j].1.len() > 0 by {
                        if j < i {
                            assert(n.other[j] == st.other[j]);
                        } else {
                            assert(n.other[j] == st.other[j + 1]);
                        }
                    }
                    assert(listing_pool(st) =~= listing_pool(n).insert(x));
                } else {
                    let n = ListingV { queue: rest, other: st.other };
                    assert(listing_pool(st) =~= listing_pool(n).insert(x));
                }
            },
            None => {
                let n = ListingV { queue: rest, other: st.other };
                assert(listing_pool(st) =~= listing_pool(n).insert(x));
            },
        }
    } else if st.other.len() > 0 {
        let items = st.other[0].1;
        assert(items.len() > 0);
        lemma_flatten_split(st.other, 0);
        assert(st.other.take(0) =~= Seq::<(AddressV, Seq<InputV>)>::empty());
        assert(flatten_entries(st.other.take(0)) =~= Seq::<InputV>::empty());
        assert(items =~= seq![items[0]] + items.drop_first());
        assert(seq![items[0]].to_multiset() =~= Multiset::empty().insert(items[0])) by {
            vstd::seq_lib::to_multiset_build(Seq::<InputV>::empty(), items[0]);
            assert(Seq::<InputV>::empty().push(items[0]) =~= seq![items[0]]);
            vstd::seq_lib::to_multiset_len(Seq::<InputV>::empty());
            vstd::multiset::lemma_multiset_empty_len(Seq::<InputV>::empty().to_multiset());
        }
        assert(st.queue =~= Seq::<InputV>::empty());
        vstd::multiset::lemma_multiset_empty_len(st.queue.to_multiset());
        if items.len() == 1 {
            let n = ListingV { queue: st.queue, other: st.other.drop_first() };
            assert(st.other.drop_first() =~= st.other.skip(1));
            assert(items.drop_first() =~= Seq::<InputV>::empty());
            vstd::multiset::lemma_multiset_empty_len(items.drop_first().to_multiset());
            assert forall|j: int| 0 <= j < n.other.len() implies #[trigger] n.other[j].1.len() > 0 by {
                assert(n.other[j] == st.other[j + 1]);
            }
            assert(listing_pool(st) =~= listing_pool(n).insert(items[0]));
        } else {
            let o2 = st.other.update(0, (st.other[0].0, items.drop_first()));
            let n = ListingV { queue: st.queue, other: o2 };
            lemma_flatten_split(o2, 0);
            assert(o2.take(0) =~= Seq::<(AddressV, Seq<InputV>)>::empty());
            assert(o2.skip(1) =~= st.other.skip(1));
            assert forall|j: int| 0 <= j < n.other.len() implies #[trigger] n.other[j].1.len() > 0 by {
                if j > 0 {
                    assert(n.other[j] == st.other[j]);
                }
            }
            assert(listing_pool(st) =~= listing_pool(n).insert(items[0]));
        }
    } else {
        assert(st.queue =~= Seq::<InputV>::empty());
        assert(st.other =~= Seq::<(AddressV, Seq<InputV>)>::empty());
        assert(flatten_entries(st.other) =~= Seq::<InputV>::empty());
    }
}

proof fn lemma_listing(st: ListingV, fuel: nat)
    requires
        listing_wf(st),
        listing_pool(st).len() <= fuel,
    ensures
        listing(st, fuel).to_multiset() == listing_pool(st),
    decreases fuel,
{
    broadcast use vstd::multiset::group_multiset_axioms;
    broadcast use vstd::seq_lib::lemma_multiset_commutative;

    lemma_next_listed(st);
    match next_listed(st) {
        Some((x, n)) => {
            assert(fuel > 0);
            lemma_listing(n, (fuel - 1) as nat);
            assert(seq![x].to_multiset() =~= Multiset::empty().insert(x)) by {
                vstd::seq_lib::to_multiset_build(Seq::<InputV>::empty(), x);
                assert(Seq::<InputV>::empty().push(x) =~= seq![x]);
                vstd::seq_lib::to_multiset_len(Seq::<InputV>::empty());
                vstd::multiset::lemma_multiset_empty_len(Seq::<InputV>::empty().to_multiset());
            }
            if fuel > 0 {
                assert(listing(st, fuel) == seq![x] + listing(n, (fuel - 1) as nat));
                assert(listing(st, fuel).to_multiset() =~= listing_pool(st));
            }
        },
        None => {
            vstd::seq_lib::to_multiset_len(listing(st, fuel));
            vstd::multiset::lemma_multiset_empty_len(listing_pool(st));
            assert(listing(st, fuel) =~= Seq::<InputV>::empty());
            vstd::multiset::lemma_multiset_empty_len(listing(st, fuel).to_multiset());
        },
    }
}

/// Listing in signing order neither loses nor duplicates an input: it holds every stored
/// input, as often as it is stored.
pub proof fn lemma_sorted_lists_all(v: OrderedInputsV)
    requires
        v.wf(),
    ensures
        v.sorted().to_multiset() == v.all().to_multiset(),
{
    broadcast use vstd::multiset::group_multiset_axioms;
    broadcast use vstd::seq_lib::lemma_multiset_commutative;
    broadcast use vstd::seq_lib::to_multiset_len;

    let st = ListingV { queue: v.ed25519, other: v.other };
    assert(listing_pool(st) =~= v.all().to_multiset());
    lemma_listing(st, v.len);
}

/// The inputs stored under the address `a`, none where there is no entry for it.
pub open spec fn stored_under(other: Seq<(AddressV, Seq<InputV>)>, a: AddressV) -> Seq<InputV> {
    let i = find_key(other, a);
    if i >= 0 {
        other[i].1
    } else {
        Seq::empty()
    }
}

/// The listing state once the queue runs empty: what is then still stored per address was
/// never reached from the inputs that Ed25519 keys unlock.
pub open spec fn drained(st: ListingV, fuel: nat) -> ListingV
    decreases fuel,
{
    if fuel == 0 || st.queue.len() == 0 {
        st
    } else {
        match next_listed(st) {
            Some((_, n)) => drained(n, (fuel - 1) as nat),
            None => st,
        }
    }
}

/// Whether the inputs of `a` occur in `b` in the same order, others possibly between them.
pub open spec fn in_order_within(a: Seq<InputV>, b: Seq<InputV>) -> bool
    decreases b.len(),
{
    if a.len() == 0 {
        true
    } else if b.len() == 0 {
        false
    } else {
        (a[0] == b[0] && in_order_within(a.drop_first(), b.drop_first())) || in_order_within(a, b.drop_first())
    }
}

proof fn lemma_in_order_skip(a: Seq<InputV>, b: Seq<InputV>)
    requires
        b.len() > 0,
        in_order_within(a, b.drop_first()),
    ensures
        in_order_within(a, b),
{
}

proof fn lemma_in_order_drop_first(a: Seq<InputV>, b: Seq<InputV>)
    requires
        a.len() > 0,
        in_order_within(a, b),
    ensures
        in_order_within(a.drop_first(), b),
    decreases b.len(),
{
    if a[0] == b[0] && in_order_within(a.drop_first(), b.drop_first()) {
        if a.drop_first().len() > 0 {
            lemma_in_order_skip(a.drop_first(), b);
        }
    } else {
        lemma_in_order_drop_first(a, b.drop_first());
        if a.drop_first().len() > 0 {
            lemma_in_order_skip(a.drop_first(), b);
        }
    }
}

proof fn lemma_in_order_suffix(p: Seq<InputV>, q: Seq<InputV>, b: Seq<InputV>)
    requires
        in_order_within(p + q, b),
    ensures
        in_order_within(q, b),
    decreases p.len(),
{
    if p.len() > 0 {
        lemma_in_order_drop_first(p + q, b);
        assert((p + q).drop_first() =~= p.drop_first() + q);
        lemma_in_order_suffix(p.drop_first(), q, b);
    } else {
        assert(p + q =~= q);
    }
}

/// The queue of a listing state comes out in its order.
proof fn lemma_queue_in_listing(st: ListingV, fuel: nat)
    requires
        listing_wf(st),
        listing_pool(st).len() <= fuel,
    ensures
        in_order_within(st.queue, listing(st, fuel)),
    decreases fuel,
{
    broadcast use vstd::multiset::group_multiset_axioms;

    if st.queue.len() > 0 {
        vstd::seq_lib::to_multiset_len(st.queue);
        lemma_next_listed(st);
        let (x, n) = next_listed(st)->0;
        assert(x == st.queue[0]);
        lemma_queue_in_listing(n, (fuel - 1) as nat);
        let l = listing(n, (fuel - 1) as nat);
        let rest = st.queue.drop_first();
        if n.queue != rest {
            let k = find_key(st.other, dependents_address(x)->0);
            assert(n.queue == st.other[k].1 + rest);
            lemma_in_order_suffix(st.other[k].1, rest, l);
        }
        assert(listing(st, fuel) == seq![x] + l);
        assert((seq![x] + l).drop_first() =~= l);
        assert((seq![x] + l)[0] == x);
    }
}

/// Inputs unlocked through Ed25519-backed addresses are signed in the order in which they
/// were stored, with other inputs possibly between them.
pub proof fn lemma_sorted_keeps_ed25519_order(v: OrderedInputsV)
    requires
        v.wf(),
    ensures
        in_order_within(v.ed25519, v.sorted()),
{
    broadcast use vstd::multiset::group_multiset_axioms;

    let st = ListingV { queue: v.ed25519, other: v.other };
    vstd::seq_lib::to_multiset_len(v.ed25519);
    vstd::seq_lib::to_multiset_len(flatten_entries(v.other));
    assert(listing_wf(st));
    lemma_queue_in_listing(st, v.len);
}

/// Storing an input puts it last: an input unlocked through an Ed25519-backed address
/// last in the queue of such inputs, any other last among the inputs stored under its
/// address; everything else stays as it was, and the count grows by one.
pub proof fn lemma_insert_stores_last(v: OrderedInputsV, a: AddressV, x: InputV, b: AddressV)
    ensures
        v.insert(a, x).len == v.len + 1,
        a.backing_ed25519() is Some ==> v.insert(a, x).ed25519 == v.ed25519.push(x) && stored_under(
            v.insert(a, x).other,
            b,
        ) == stored_under(v.other, b),
        a.backing_ed25519() is None ==> v.insert(a, x).ed25519 == v.ed25519 && stored_under(v.insert(a, x).other, b)
            == if b == a {
            stored_under(v.other, a).push(x)
        } else {
            stored_under(v.other, b)
        },
{
    if a.backing_ed25519() is None {
        let o = v.other;
        let o2 = v.insert(a, x).other;
        lemma_find_key(o, a);
        lemma_find_key(o, b);
        let i = find_key(o, a);
        let f = find_key(o, b);
        if i >= 0 {
            assert(o2 == o.update(i, (a, o[i].1.push(x))));
            lemma_find_key_is(o2, b, f);
            if b != a && f >= 0 {
                assert(f != i);
                assert(o2[f] == o[f]);
            }
        } else {
            let p = insert_pos(o, a);
            lemma_insert_pos(o, a);
            assert(o2 == o.insert(p, (a, seq![x])));
            if b == a {
                lemma_find_key_is(o2, a, p);
                assert(seq![x] =~= Seq::<InputV>::empty().push(x));
            } else if f >= 0 {
                if f < p {
                    lemma_find_key_is(o2, b, f);
                } else {
                    assert forall|j: int| 0 <= j < f + 1 implies o2[j].0 != b by {
                        if j < p {
                            assert(o2[j] == o[j]);
                        } else if j > p {
                            assert(o2[j] == o[j - 1]);
                        }
                    }
                    lemma_find_key_is(o2, b, f + 1);
                    assert(o2[f + 1] == o[f]);
                }
            } else {
                assert forall|j: int| 0 <= j < o2.len() implies o2[j].0 != b by {
                    if j < p {
                        assert(o2[j] == o[j]);
                    } else if j > p {
                        assert(o2[j] == o[j - 1]);
                    }
                }
                lemma_find_key_is(o2, b, -1);
            }
        }
    }
}

/// Whether no two distinct inputs of the pool hold the same account or nft.
pub open spec fn distinct_holders(pool: Multiset<InputV>) -> bool {
    forall|y: InputV, z: InputV|
        #![trigger pool.count(y), pool.count(z)]
        pool.count(y) > 0 && pool.count(z) > 0 && y != z && dependents_address(y) is Some ==> dependents_address(y)
            != dependents_address(z)
}

/// Whether each input occurs at most once in the pool.
pub open spec fn single_inputs(pool: Multiset<InputV>) -> bool {
    forall|y: InputV| #[trigger] pool.count(y) <= 1
}

/// Removing the entry at `k` leaves the inputs stored under any other address as they were.
proof fn lemma_stored_under_remove(other: Seq<(AddressV, Seq<InputV>)>, k: int, a: AddressV)
    requires
        0 <= k < other.len(),
        other[k].0 != a,
    ensures
        stored_under(other.remove(k), a) == stored_under(other, a),
{
    let o2 = other.remove(k);
    lemma_find_key(other, a);
    lemma_find_key(o2, a);
    let i = find_key(other, a);
    let i2 = find_key(o2, a);
    if i >= 0 {
        if i < k {
            assert(o2[i] == other[i]);
            if i2 >= 0 && i2 < i {
                assert(o2[i2] == other[i2]);
            }
            assert(i2 == i);
        } else {
            assert(o2[i - 1] == other[i]);
            if i2 >= 0 && i2 < i - 1 {
                if i2 < k {
                    assert(o2[i2] == other[i2]);
                } else {
                    assert(o2[i2] == other[i2 + 1]);
                }
            }
            assert(i2 == i - 1);
        }
    } else {
        if i2 >= 0 {
            if i2 < k {
                assert(o2[i2] == other[i2]);
            } else {
                assert(o2[i2] == other[i2 + 1]);
            }
        }
    }
}

proof fn lemma_stored_in_entries(other: Seq<(AddressV, Seq<InputV>)>, a: AddressV, y: InputV)
    requires
        stored_under(other, a).contains(y),
    ensures
        flatten_entries(other).to_multiset().count(y) > 0,
{
    let i = find_key(other, a);
    lemma_find_key(other, a);
    lemma_flatten_split(other, i);
    let f = flatten_entries(other);
    let items = other[i].1;
    let j = choose|j: int| 0 <= j < items.len() && items[j] == y;
    let before = flatten_entries(other.take(i));
    assert(f[before.len() + j] == y);
    assert(f.contains(y));
    vstd::seq_lib::to_multiset_contains(f, y);
}

proof fn lemma_listing_order(st: ListingV, fuel: nat, a: AddressV, i: int, j: int)
    requires
        listing_wf(st),
        listing_pool(st).len() <= fuel,
        single_inputs(listing_pool(st)),
        distinct_holders(listing_pool(st)),
        drained(st, fuel).other.len() == 0,
        0 <= i < listing(st, fuel).len(),
        0 <= j < listing(st, fuel).len(),
        dependents_address(listing(st, fuel)[i]) == Some(a),
        stored_under(st.other, a).contains(listing(st, fuel)[j]),
    ensures
        i < j,
    decreases fuel,
{
    broadcast use vstd::multiset::group_multiset_axioms;

    let l = listing(st, fuel);
    lemma_next_listed(st);
    lemma_find_key(st.other, a);
    if st.queue.len() == 0 {
        assert(drained(st, fuel) == st);
        assert(stored_under(st.other, a).len() == 0);
    } else {
        let x = st.queue[0];
        let (x0, n) = match next_listed(st) {
            Some(p) => p,
            None => (x, st),
        };
        assert(next_listed(st) == Some((x0, n)));
        assert(x0 == x);
        assert(fuel > 0);
        let l2 = listing(n, (fuel - 1) as nat);
        assert(l == seq![x] + l2);
        assert(drained(st, fuel) == drained(n, (fuel - 1) as nat));
        lemma_listing(n, (fuel - 1) as nat);
        assert(listing_pool(st) == listing_pool(n).insert(x));
        assert(listing_pool(st).count(x) <= 1);
        assert(listing_pool(n).count(x) == 0);
        assert(st.queue.contains(x));
        vstd::seq_lib::to_multiset_contains(st.queue, x);
        if j == 0 {
            assert(l[j] == x);
            lemma_stored_in_entries(st.other, a, x);
            assert(listing_pool(st).count(x) >= 2);
            assert(false);
        }
        if i > 0 {
            let y = l2[i - 1];
            assert(l[i] == y);
            assert(l[j] == l2[j - 1]);
            assert(l2.contains(y));
            vstd::seq_lib::to_multiset_contains(l2, y);
            assert(listing_pool(n).count(y) > 0);
            assert(y != x);
            assert(listing_pool(st).count(y) > 0);
            assert(stored_under(n.other, a) == stored_under(st.other, a)) by {
                match dependents_address(x) {
                    Some(k) => {
                        let idx = find_key(st.other, k);
                        lemma_find_key(st.other, k);
                        if idx >= 0 {
                            assert(n.other == st.other.remove(idx));
                            if k == a {
                                assert(listing_pool(st).count(x) > 0 && listing_pool(st).count(y) > 0);
                                assert(dependents_address(x) != dependents_address(y));
                                assert(false);
                            } else {
                                lemma_stored_under_remove(st.other, idx, a);
                            }
                        } else {
                            assert(n.other == st.other);
                        }
                    },
                    None => {
                        assert(n.other == st.other);
                    },
                }
            }
            assert(single_inputs(listing_pool(n))) by {
                assert forall|v: InputV| #[trigger] listing_pool(n).count(v) <= 1 by {
                    assert(listing_pool(st).count(v) <= 1);
                }
            }
            assert(distinct_holders(listing_pool(n))) by {
                assert forall|u: InputV, w: InputV|
                    #![trigger listing_pool(n).count(u), listing_pool(n).count(w)]
                    listing_pool(n).count(u) > 0 && listing_pool(n).count(w) > 0 && u != w && dependents_address(
                        u,
                    ) is Some implies dependents_address(u) != dependents_address(w) by {
                    assert(listing_pool(st).count(u) > 0 && listing_pool(st).count(w) > 0);
                }
            }
            lemma_listing_order(n, (fuel - 1) as nat, a, i - 1, j - 1);
        }
    }
}

/// Inputs are listed so that their unlocks can reference lower indices: where each input
/// occurs once, no two inputs hold the same account or nft, and every input stored under an
/// account or nft address is reached from the inputs that Ed25519 keys unlock, each input
/// stored under the address of an account or nft comes after the input holding it.
pub proof fn lemma_sorted_references_backwards(v: OrderedInputsV, a: AddressV, i: int, j: int)
    requires
        v.wf(),
        v.all().no_duplicates(),
        forall|p: int, q: int|
            0 <= p < v.all().len() && 0 <= q < v.all().len() && p != q && dependents_address(#[trigger] v.all()[p])
                is Some ==> dependents_address(v.all()[p]) != dependents_address(#[trigger] v.all()[q]),
        drained(ListingV { queue: v.ed25519, other: v.other }, v.len).other.len() == 0,
        0 <= i < v.sorted().len(),
        0 <= j < v.sorted().len(),
        dependents_address(v.sorted()[i]) == Some(a),
        stored_under(v.other, a).contains(v.sorted()[j]),
    ensures
        i < j,
{
    broadcast use vstd::multiset::group_multiset_axioms;

    let st = ListingV { queue: v.ed25519, other: v.other };
    let all = v.all();
    assert(listing_pool(st) =~= all.to_multiset()) by {
        vstd::seq_lib::lemma_multiset_commutative(v.ed25519, flatten_entries(v.other));
    }
    all.lemma_multiset_has_no_duplicates();
    vstd::seq_lib::to_multiset_len(all);
    assert(single_inputs(listing_pool(st))) by {
        assert forall|y: InputV| #[trigger] listing_pool(st).count(y) <= 1 by {
            if listing_pool(st).count(y) > 0 {
                assert(all.to_multiset().contains(y));
            }
        }
    }
    assert(distinct_holders(listing_pool(st))) by {
        assert forall|y: InputV, z: InputV|
            #![trigger listing_pool(st).count(y), listing_pool(st).count(z)]
            listing_pool(st).count(y) > 0 && listing_pool(st).count(z) > 0 && y != z && dependents_address(y)
                is Some implies dependents_address(y) != dependents_address(z) by {
            vstd::seq_lib::to_multiset_contains(all, y);
            vstd::seq_lib::to_multiset_contains(all, z);
            let p = choose|p: int| 0 <= p < all.len() && all[p] == y;
            let q = choose|q: int| 0 <= q < all.len() && all[q] == z;
            assert(p != q);
        }
    }
    assert(listing_wf(st));
    lemma_listing_order(st, v.len, a, i, j);
}

pub fn dependents_address_exec(x: &InputSigningData) -> (r: Option<Address>)
    ensures
        match dependents_address(x@) {
            Some(k) => r matches Some(a) && a@ == k,
            None => r is None,
        },
{
    match x.output.kind {
        OutputKind::Account => Some(
            Address::new(AddressKind::Account, x.output.chain_id_non_null_exec(&x.output_id)),
        ),
        OutputKind::Nft => Some(
            Address::new(AddressKind::Nft, x.output.chain_id_non_null_exec(&x.output_id)),
        ),
        _ => None,
    }
}

fn find_entry(other: &Vec<AddressInputs>, key: &Address) -> (r: usize)
    ensures
        find_key(entries_view(other@), key@) >= 0 ==> r == find_key(entries_view(other@), key@),
        find_key(entries_view(other@), key@) < 0 ==> r == other@.len(),
{
    proof {
        lemma_find_key(entries_view(other@), key@);
    }
    let mut i: usize = 0;
    while i < other.len() && !other[i].address.same(key)
        invariant
            i <= other@.len(),
            forall|j: int| 0 <= j < i ==> entries_view(other@)[j].0 != key@,
        decreases other@.len() - i,
    {
        i = i + 1;
    }
    proof {
        if i < other@.len() {
            assert(entries_view(other@)[i as int].0 == key@);
        }
    }
    i
}

/// Lists the next input and updates the state.
fn next_listed_exec(queue: &mut Vec<InputSigningData>, other: &mut Vec<AddressInputs>) -> (r: Option<
    InputSigningData,
>)
    ensures
        match next_listed(ListingV { queue: inputs_view(old(queue)@), other: entries_view(old(other)@) }) {
            Some((x, next)) => r matches Some(y) && y@ == x && next == (ListingV {
                queue: inputs_view(final(queue)@),
                other: entries_view(final(other)@),
            }),
            None => r is None,
        },
{
    let ghost q0 = inputs_view(queue@);
    let ghost o0 = entries_view(other@);
    if queue.len() > 0 {
        let ghost queue_before = queue@;
        let x = queue.remove(0);
        assert(x == queue_before[0]);
        assert(x@ == q0[0]);
        assert(inputs_view(queue@) =~= q0.drop_first());
        match dependents_address_exec(&x) {
            Some(k) => {
                let i = find_entry(other, &k);
                if i < other.len() {
                    let ghost other_before = other@;
                    let e = other.remove(i);
                    assert(e == other_before[i as int]);
                    assert(entry_view(e) == o0[i as int]);
                    assert(entries_view(other@) =~= o0.remove(i as int));
                    let mut items = e.inputs;
                    let ghost items0 = inputs_view(items@);
                    let ghost rest = inputs_view(queue@);
                    items.append(queue);
                    assert(inputs_view(items@) =~= items0 + rest);
                    *queue = items;
                    assert(find_key(o0, k@) == i);
                    assert(inputs_view(queue@) == o0[i as int].1 + q0.drop_first());
                } else {
                    proof {
                        lemma_find_key(o0, k@);
                    }
                }
                assert(dependents_address(x@) == Some(k@));
            },
            None => {},
        }
        assert(next_listed(ListingV { queue: q0, other: o0 }) == Some(
            (x@, ListingV { queue: inputs_view(queue@), other: entries_view(other@) }),
        ));
        Some(x)
    } else if other.len() > 0 && other[0].inputs.len() > 0 {
        let ghost other_before = other@;
        let mut e = other.remove(0);
        let ghost e0 = e;
        assert(e0 == other_before[0]);
        assert(entry_view(e0) == o0[0]);
        let x = e.inputs.remove(0);
        assert(x == e0.inputs@[0]);
        assert(inputs_view(e.inputs@) =~= inputs_view(e0.inputs@).drop_first());
        if e.inputs.len() > 0 {
            other.insert(0, e);
            assert(entries_view(other@) =~= o0.update(0, (o0[0].0, o0[0].1.drop_first())));
        } else {
            assert(entries_view(other@) =~= o0.drop_first());
        }
        assert(next_listed(ListingV { queue: q0, other: o0 }) == Some(
            (x@, ListingV { queue: inputs_view(queue@), other: entries_view(other@) }),
        ));
        Some(x)
    } else {
        None
    }
}

fn clone_inputs(v: &Vec<InputSigningData>) -> (r: Vec<InputSigningData>)
    ensures
        inputs_view(r@) == inputs_view(v@),
{
    let mut r: Vec<InputSigningData> = Vec::new();
    let mut i: usize = 0;
    while i < v.len()
        invariant
            i <= v@.len(),
            inputs_view(r@) == inputs_view(v@.take(i as int)),
        decreases v@.len() - i,
    {
        let ghost before = inputs_view(r@);
        r.push(v[i].clone());
        assert(inputs_view(r@) =~= before.push(v@[i as int]@));
        assert(inputs_view(v@.take(i + 1)) =~= inputs_view(v@.take(i as int)).push(v@[i as int]@));
        i = i + 1;
    }
    assert(v@.take(i as int) =~= v@);
    r
}

impl OrderedInputs {
    /// Consumes the inputs and lists them in signing order: inputs unlocked by Ed25519 keys
    /// in order of insertion, each account or nft input followed by the inputs that its
    /// address unlocks; then what is left, by address.
    pub fn into_sorted_iter(self) -> (r: Vec<InputSigningData>)
        ensures
            inputs_view(r@) == self@.sorted(),
    {
        let ghost target = self@.sorted();
        let mut queue = self.ed25519;
        let mut other = self.other;
        let mut out: Vec<InputSigningData> = Vec::new();
        let mut fuel = self.len;
        let mut done = false;
        while fuel > 0 && !done
            invariant
                inputs_view(out@) + (if done {
                    Seq::empty()
                } else {
                    listing(
                        ListingV { queue: inputs_view(queue@), other: entries_view(other@) },
                        fuel as nat,
                    )
                }) == target,
            decreases fuel,
        {
            let ghost before = inputs_view(out@);
            match next_listed_exec(&mut queue, &mut other) {
                Some(x) => {
                    out.push(x);
                    assert(inputs_view(out@) =~= before.push(x@));
                    fuel = fuel - 1;
                    assert(before.push(x@) + listing(
                        ListingV { queue: inputs_view(queue@), other: entries_view(other@) },
                        fuel as nat,
                    ) =~= before + (seq![x@] + listing(
                        ListingV { queue: inputs_view(queue@), other: entries_view(other@) },
                        fuel as nat,
                    )));
                },
                None => {
                    done = true;
                    fuel = 0;
                    assert(inputs_view(out@) + Seq::<InputV>::empty() =~= inputs_view(out@));
                },
            }
        }
        assert(inputs_view(out@) + Seq::<InputV>::empty() =~= inputs_view(out@));
        out
    }

    /// Lists the inputs in signing order, leaving them in place.
    pub fn sorted_iter(&self) -> (r: Vec<InputSigningData>)
        ensures
            inputs_view(r@) == self@.sorted(),
    {
        let copy = self.duplicate();
        copy.into_sorted_iter()
    }

    /// The inputs unlocked by Ed25519 keys, then those stored per address, by address.
    pub fn iter(&self) -> (r: Vec<InputSigningData>)
        ensures
            inputs_view(r@) == self@.all(),
    {
        let mut r = clone_inputs(&self.ed25519);
        let ghost first = inputs_view(r@);
        let mut i: usize = 0;
        while i < self.other.len()
            invariant
                i <= self.other@.len(),
                first == inputs_view(self.ed25519@),
                inputs_view(r@) == first + flatten_entries(entries_view(self.other@).take(i as int)),
            decreases self.other@.len() - i,
        {
            let ghost before = inputs_view(r@);
            let mut more = clone_inputs(&self.other[i].inputs);
            r.append(&mut more);
            proof {
                let es = entries_view(self.other@);
                assert(es.take(i + 1).drop_last() =~= es.take(i as int));
                assert(es.take(i + 1).last() == entry_view(self.other@[i as int]));
                assert(inputs_view(r@) =~= before + inputs_view(self.other@[i as int].inputs@));
            }
            i = i + 1;
        }
        assert(entries_view(self.other@).take(i as int) =~= entries_view(self.other@));
        r
    }

    /// A copy of the inputs.
    fn duplicate(&self) -> (r: OrderedInputs)
        ensures
            r@ == self@,
    {
        let mut other: Vec<AddressInputs> = Vec::new();
        let mut i: usize = 0;
        while i < self.other.len()
            invariant
                i <= self.other@.len(),
                entries_view(other@) == entries_view(self.other@.take(i as int)),
            decreases self.other@.len() - i,
        {
            let e = AddressInputs {
                address: self.other[i].address.clone(),
                inputs: clone_inputs(&self.other[i].inputs),
            };
            let ghost before = entries_view(other@);
            proof {
                assert(entry_view(e) == entry_view(self.other@[i as int]));
            }
            other.push(e);
            assert(entries_view(other@) =~= before.push(entry_view(self.other@[i as int])));
            assert(entries_view(self.other@.take(i + 1)) =~= entries_view(self.other@.take(i as int)).push(
                entry_view(self.other@[i as int]),
            ));
            i = i + 1;
        }
        assert(self.other@.take(i as int) =~= self.other@);
        OrderedInputs { ed25519: clone_inputs(&self.ed25519), other, len: self.len }
    }
}

} // verus!
