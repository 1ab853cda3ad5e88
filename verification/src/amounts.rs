//! Amounts per address, kept in the order in which the addresses first occur.

use vstd::prelude::*;

use crate::ledger::{Address, AddressV};

verus! {

/// The position of `a` among the addresses of `m`, or -1.
pub open spec fn find_address(m: Seq<(AddressV, nat)>, a: AddressV) -> int
    decreases m.len(),
{
    if m.len() == 0 {
        -1
    } else if m.last().0 == a {
        m.len() - 1
    } else {
        find_address(m.drop_last(), a)
    }
}

/// The amount recorded for `a` in `m`, or zero.
pub open spec fn lookup(m: Seq<(AddressV, nat)>, a: AddressV) -> nat {
    let i = find_address(m, a);
    if i >= 0 {
        m[i].1
    } else {
        0
    }
}

/// Whether no address occurs twice in `m`.
pub open spec fn distinct_addresses(m: Seq<(AddressV, nat)>) -> bool {
    forall|i: int, j: int| 0 <= i < j < m.len() ==> m[i].0 != m[j].0
}

/// `m` with `n` added to the amount of `a`; `a` is appended when it is new.
pub open spec fn add_amount(m: Seq<(AddressV, nat)>, a: AddressV, n: nat) -> Seq<(AddressV, nat)> {
    let i = find_address(m, a);
    if i >= 0 {
        m.update(i, (a, m[i].1 + n))
    } else {
        m.push((a, n))
    }
}

/// The amounts per address that a list of contributions adds up to, addresses in the
/// order of their first contribution.
pub open spec fn accumulate(c: Seq<(AddressV, nat)>) -> Seq<(AddressV, nat)>
    decreases c.len(),
{
    if c.len() == 0 {
        Seq::empty()
    } else {
        add_amount(accumulate(c.drop_last()), c.last().0, c.last().1)
    }
}

/// `find_address` finds the entry of `a` exactly when `a` occurs.
pub proof fn lemma_find_address(m: Seq<(AddressV, nat)>, a: AddressV)
    ensures
        -1 <= find_address(m, a) < m.len(),
        find_address(m, a) >= 0 ==> m[find_address(m, a)].0 == a,
        find_address(m, a) < 0 ==> forall|j: int| 0 <= j < m.len() ==> m[j].0 != a,
    decreases m.len(),
{
    if m.len() > 0 && m.last().0 != a {
        lemma_find_address(m.drop_last(), a);
        assert forall|j: int| 0 <= j < m.len() - 1 implies m[j] == m.drop_last()[j] by {}
    }
}

/// In a map without repeated addresses, the entry at `j` is the one that `find_address` finds.
pub proof fn lemma_find_distinct(m: Seq<(AddressV, nat)>, j: int)
    requires
        distinct_addresses(m),
        0 <= j < m.len(),
    ensures
        find_address(m, m[j].0) == j,
{
    lemma_find_address(m, m[j].0);
}

/// Adding an amount keeps the addresses distinct and changes only the amount of `a`.
pub proof fn lemma_add_amount(m: Seq<(AddressV, nat)>, a: AddressV, n: nat)
    requires
        distinct_addresses(m),
    ensures
        distinct_addresses(add_amount(m, a, n)),
        lookup(add_amount(m, a, n), a) == lookup(m, a) + n,
        forall|b: AddressV| b != a ==> lookup(add_amount(m, a, n), b) == lookup(m, b),
{
    lemma_find_address(m, a);
    let r = add_amount(m, a, n);
    assert forall|b: AddressV| b != a implies lookup(r, b) == lookup(m, b) by {
        lemma_find_address(m, b);
        lemma_find_address(r, b);
        if find_address(m, b) >= 0 {
            lemma_find_distinct(m, find_address(m, b));
            assert(r[find_address(m, b)].0 == b);
            if find_address(r, b) >= 0 {
                assert(find_address(r, b) == find_address(m, b)) by {
                    let k = find_address(r, b);
                    if k != find_address(m, b) {
                        if k < m.len() {
                            assert(m[k].0 == b);
                        }
                    }
                }
            }
        } else {
            if find_address(r, b) >= 0 {
                let k = find_address(r, b);
                if k < m.len() {
                    assert(r[k] == m[k] || r[k].0 == a);
                }
            }
        }
    }
    lemma_find_address(r, a);
    if find_address(m, a) >= 0 {
        lemma_find_distinct(m, find_address(m, a));
        assert(distinct_addresses(r));
        lemma_find_distinct(r, find_address(m, a));
    } else {
        assert(distinct_addresses(r));
        lemma_find_distinct(r, m.len() as int);
    }
}

/// Accumulated contributions never repeat an address, and an amount only grows as more
/// contributions come in.
pub proof fn lemma_accumulate(c: Seq<(AddressV, nat)>)
    ensures
        distinct_addresses(accumulate(c)),
        c.len() > 0 ==> forall|b: AddressV|
            lookup(accumulate(c.drop_last()), b) <= #[trigger] lookup(accumulate(c), b),
    decreases c.len(),
{
    if c.len() > 0 {
        lemma_accumulate(c.drop_last());
        lemma_add_amount(accumulate(c.drop_last()), c.last().0, c.last().1);
    }
}

/// The amount of an address in the accumulation of a prefix is at most its final amount.
pub proof fn lemma_accumulate_prefix(c: Seq<(AddressV, nat)>, k: int, b: AddressV)
    requires
        0 <= k <= c.len(),
    ensures
        lookup(accumulate(c.subrange(0, k)), b) <= lookup(accumulate(c), b),
    decreases c.len() - k,
{
    if k < c.len() {
        lemma_accumulate_prefix(c, k + 1, b);
        let p = c.subrange(0, k + 1);
        assert(p.drop_last() =~= c.subrange(0, k));
        lemma_accumulate(p);
    } else {
        assert(c.subrange(0, k) =~= c);
    }
}

/// Amounts per address: each address once, in the order in which it was first added.
#[derive(Debug)]
pub struct AddressAmounts {
    pub entries: Vec<(Address, u64)>,
}

/// The value of an entry.
pub open spec fn entry_view(e: (Address, u64)) -> (AddressV, nat) {
    (e.0@, e.1 as nat)
}

impl View for AddressAmounts {
    type V = Seq<(AddressV, nat)>;

    open spec fn view(&self) -> Seq<(AddressV, nat)> {
        self.entries@.map_values(|e: (Address, u64)| entry_view(e))
    }
}

impl AddressAmounts {
    /// No amounts.
    pub fn new() -> (r: AddressAmounts)
        ensures
            r@ == Seq::<(AddressV, nat)>::empty(),
    {
        let r = AddressAmounts { entries: Vec::new() };
        assert(r@ =~= Seq::<(AddressV, nat)>::empty());
        r
    }

    /// The position of `a`, if it has an amount.
    pub fn position(&self, a: &Address) -> (r: Option<usize>)
        ensures
            match r {
                Some(i) => i as int == find_address(self@, a@),
                None => find_address(self@, a@) == -1,
            },
    {
        let mut i = self.entries.len();
        assert(self@.subrange(0, i as int) =~= self@);
        while i > 0
            invariant
                i <= self.entries@.len(),
                find_address(self@, a@) == find_address(self@.subrange(0, i as int), a@),
            decreases i,
        {
            let ghost p = self@.subrange(0, i as int);
            if self.entries[i - 1].0.same(a) {
                return Some(i - 1);
            }
            assert(p.drop_last() =~= self@.subrange(0, i - 1));
            i = i - 1;
        }
        None
    }

    /// The amount of `a`, or zero.
    pub fn get(&self, a: &Address) -> (r: u64)
        ensures
            r == lookup(self@, a@),
    {
        proof {
            lemma_find_address(self@, a@);
        }
        match self.position(a) {
            Some(i) => self.entries[i].1,
            None => 0,
        }
    }

    /// Adds `n` to the amount of `a`.
    pub fn add(&mut self, a: &Address, n: u64)
        requires
            lookup(old(self)@, a@) + n <= u64::MAX,
        ensures
            final(self)@ == add_amount(old(self)@, a@, n as nat),
    {
        proof {
            lemma_find_address(self@, a@);
        }
        match self.position(a) {
            Some(i) => {
                let v = self.entries[i].1;
                self.entries.set(i, (a.clone(), v + n));
                assert(self@ =~= add_amount(old(self)@, a@, n as nat));
            },
            None => {
                self.entries.push((a.clone(), n));
                assert(self@ =~= add_amount(old(self)@, a@, n as nat));
            },
        }
    }
}

} // verus!
