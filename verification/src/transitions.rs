//! The transitions that a transaction is asked to perform: implicit accounts to turn
//! into accounts, and changes to accounts.

use vstd::prelude::*;

use crate::ledger::{Id, OutputId, OutputIdV};

verus! {

/// The map that a list of pairs builds when later pairs replace earlier ones.
pub open spec fn list_map<K, V>(s: Seq<(K, V)>) -> Map<K, V>
    decreases s.len(),
{
    if s.len() == 0 {
        Map::empty()
    } else {
        list_map(s.drop_last()).insert(s.last().0, s.last().1)
    }
}

/// Whether no key occurs twice.
pub open spec fn keys_unique<K, V>(s: Seq<(K, V)>) -> bool {
    forall|i: int, j: int| 0 <= i < j < s.len() ==> s[i].0 != s[j].0
}

/// A key that occurs nowhere in the list is not in its map.
proof fn lemma_list_map_absent<K, V>(s: Seq<(K, V)>, k: K)
    requires
        forall|i: int| 0 <= i < s.len() ==> s[i].0 != k,
    ensures
        !list_map(s).dom().contains(k),
    decreases s.len(),
{
    if s.len() > 0 {
        lemma_list_map_absent(s.drop_last(), k);
    }
}

/// In a list without repeated keys, the map holds exactly the keys of the list, each with
/// its value.
pub proof fn lemma_list_map_unique<K, V>(s: Seq<(K, V)>)
    requires
        keys_unique(s),
    ensures
        forall|k: K|
            list_map(s).dom().contains(k) <==> exists|i: int| 0 <= i < s.len() && #[trigger] s[i].0
                == k,
        forall|i: int| 0 <= i < s.len() ==> list_map(s)[#[trigger] s[i].0] == s[i].1,
    decreases s.len(),
{
    if s.len() > 0 {
        let t = s.drop_last();
        lemma_list_map_unique(t);
        assert forall|k: K| list_map(s).dom().contains(k) implies exists|i: int|
            0 <= i < s.len() && #[trigger] s[i].0 == k by {
            if k != s.last().0 {
                assert(list_map(s) == list_map(t).insert(s.last().0, s.last().1));
                assert(list_map(t).dom().contains(k));
                let i = choose|i: int| 0 <= i < t.len() && #[trigger] t[i].0 == k;
                assert(s[i].0 == k);
            } else {
                assert(s[s.len() - 1].0 == k);
            }
        }
        assert forall|i: int| 0 <= i < s.len() implies list_map(s)[#[trigger] s[i].0] == s[i].1 by {
            if i < s.len() - 1 {
                assert(t[i] == s[i]);
                assert(s[i].0 != s.last().0);
            }
        }
        assert forall|k: K| (exists|i: int| 0 <= i < s.len() && #[trigger] s[i].0 == k) implies list_map(
            s,
        ).dom().contains(k) by {
            let i = choose|i: int| 0 <= i < s.len() && #[trigger] s[i].0 == k;
            if i < s.len() - 1 {
                assert(t[i] == s[i]);
            }
        }
    }
}
/// Replacing the value of a key in a list without repeated keys replaces it in the map.
pub proof fn lemma_list_map_update<K, V>(s: Seq<(K, V)>, i: int, v: V)
    requires
        keys_unique(s),
        0 <= i < s.len(),
    ensures
        list_map(s.update(i, (s[i].0, v))) == list_map(s).insert(s[i].0, v),
    decreases s.len(),
{
    let t = s.update(i, (s[i].0, v));
    if i == s.len() - 1 {
        assert(t.drop_last() =~= s.drop_last());
        assert(list_map(s).insert(s[i].0, v) =~= list_map(s.drop_last()).insert(s[i].0, v));
    } else {
        lemma_list_map_update(s.drop_last(), i, v);
        assert(t.drop_last() =~= s.drop_last().update(i, (s[i].0, v)));
        assert(s.last().0 != s[i].0);
        assert(list_map(t) =~= list_map(s).insert(s[i].0, v));
    }
}

/// The changes asked of an account.
#[derive(Debug)]
pub enum AccountChange {
    /// Begins staking.
    BeginStaking {
        /// The amount of tokens to stake.
        staked_amount: u64,
        /// The fixed cost of the validator, which it receives as part of its mana rewards.
        fixed_cost: u64,
        /// The staking period in epochs; the staking unbonding period where not given.
        staking_period: Option<u32>,
    },
    /// Extends staking by a number of epochs.
    ExtendStaking { additional_epochs: u32 },
    /// Ends staking.
    EndStaking,
    /// Adds and removes block issuer keys (Ed25519 public key hashes).
    ModifyBlockIssuerKeys {
        /// The keys that will be added.
        keys_to_add: Vec<Id>,
        /// The keys that will be removed.
        keys_to_remove: Vec<Id>,
    },
}

/// The pairs of implicit accounts by value.
pub open spec fn implicit_view(s: Seq<(OutputId, Id)>) -> Seq<(OutputIdV, Seq<u8>)> {
    s.map_values(|e: (OutputId, Id)| (e.0@, e.1@))
}

/// The pairs of accounts by value.
pub open spec fn accounts_view(s: Seq<(Id, AccountChange)>) -> Seq<(Seq<u8>, AccountChange)> {
    s.map_values(|e: (Id, AccountChange)| (e.0@, e.1))
}

/// The value of the transitions: the block issuer key (hash) of each implicit account to
/// transition, by output id, and the change of each account, by account id.
pub struct TransitionsV {
    pub implicit_accounts: Map<OutputIdV, Seq<u8>>,
    pub accounts: Map<Seq<u8>, AccountChange>,
}

/// The transitions that a transaction is asked to perform.
#[derive(Debug)]
pub struct Transitions {
    implicit_accounts: Vec<(OutputId, Id)>,
    accounts: Vec<(Id, AccountChange)>,
}

impl View for Transitions {
    type V = TransitionsV;

    closed spec fn view(&self) -> TransitionsV {
        TransitionsV {
            implicit_accounts: list_map(implicit_view(self.implicit_accounts@)),
            accounts: list_map(accounts_view(self.accounts@)),
        }
    }
}

/// Stores `value` under `key` in a list without repeated keys.
fn put_implicit(s: &mut Vec<(OutputId, Id)>, key: OutputId, value: Id)
    requires
        keys_unique(implicit_view(old(s)@)),
    ensures
        keys_unique(implicit_view(final(s)@)),
        list_map(implicit_view(final(s)@)) == list_map(implicit_view(old(s)@)).insert(
            key@,
            value@,
        ),
{
    let ghost s0 = implicit_view(s@);
    let mut i: usize = 0;
    while i < s.len()
        invariant
            i <= s@.len(),
            s0 == implicit_view(s@),
            s@ == old(s)@,
            keys_unique(s0),
            forall|j: int| 0 <= j < i ==> s0[j].0 != key@,
        decreases s@.len() - i,
    {
        if s[i].0.same(&key) {
            s.set(i, (key, value));
            proof {
                assert(implicit_view(s@) =~= s0.update(i as int, (s0[i as int].0, value@)));
                lemma_list_map_update(s0, i as int, value@);
            }
            return;
        }
        i = i + 1;
    }
    let ghost kv = key@;
    s.push((key, value));
    proof {
        assert(implicit_view(s@) =~= s0.push((kv, value@)));
        assert(implicit_view(s@).drop_last() =~= s0);
    }
}

/// Stores `change` under `key` in a list without repeated keys.
fn put_account(s: &mut Vec<(Id, AccountChange)>, key: Id, change: AccountChange)
    requires
        keys_unique(accounts_view(old(s)@)),
    ensures
        keys_unique(accounts_view(final(s)@)),
        list_map(accounts_view(final(s)@)) == list_map(accounts_view(old(s)@)).insert(
            key@,
            change,
        ),
{
    let ghost s0 = accounts_view(s@);
    let ghost c = change;
    let mut i: usize = 0;
    while i < s.len()
        invariant
            i <= s@.len(),
            s0 == accounts_view(s@),
            s@ == old(s)@,
            keys_unique(s0),
            c == change,
            forall|j: int| 0 <= j < i ==> s0[j].0 != key@,
        decreases s@.len() - i,
    {
        if s[i].0.same(&key) {
            s.set(i, (key, change));
            proof {
                assert(accounts_view(s@) =~= s0.update(i as int, (s0[i as int].0, c)));
                lemma_list_map_update(s0, i as int, c);
            }
            return;
        }
        i = i + 1;
    }
    let ghost kv = key@;
    s.push((key, change));
    proof {
        assert(accounts_view(s@) =~= s0.push((kv, c)));
        assert(accounts_view(s@).drop_last() =~= s0);
    }
}

impl Default for Transitions {
    /// No transition; see `Transitions::new`.
    fn default() -> (r: Transitions)
        ensures
            r.wf(),
            r@.implicit_accounts == Map::<OutputIdV, Seq<u8>>::empty(),
            r@.accounts == Map::<Seq<u8>, AccountChange>::empty(),
    {
        Transitions::new()
    }
}

impl Transitions {
    /// Whether no output id and no account id occurs twice.
    pub closed spec fn wf(&self) -> bool {
        &&& keys_unique(implicit_view(self.implicit_accounts@))
        &&& keys_unique(accounts_view(self.accounts@))
    }

    /// No transition.
    pub fn new() -> (r: Transitions)
        ensures
            r.wf(),
            r@.implicit_accounts == Map::<OutputIdV, Seq<u8>>::empty(),
            r@.accounts == Map::<Seq<u8>, AccountChange>::empty(),
    {
        let r = Transitions { implicit_accounts: Vec::new(), accounts: Vec::new() };
        assert(implicit_view(r.implicit_accounts@) =~= Seq::empty());
        assert(accounts_view(r.accounts@) =~= Seq::empty());
        r
    }

    /// Adds an implicit account to transition, with the block issuer key hash of the new
    /// account; an earlier key for the same output is replaced.
    pub fn add_implicit_account(self, output_id: OutputId, block_issuer_key: Id) -> (r: Transitions)
        requires
            self.wf(),
        ensures
            r.wf(),
            r@.implicit_accounts == self@.implicit_accounts.insert(output_id@, block_issuer_key@),
            r@.accounts == self@.accounts,
    {
        let mut t = self;
        put_implicit(&mut t.implicit_accounts, output_id, block_issuer_key);
        t
    }

    /// Sets the implicit accounts to transition, from pairs of output id and key hash in
    /// which a later pair replaces an earlier one with the same output id.
    pub fn set_implicit_accounts(self, implicit_accounts: Vec<(OutputId, Id)>) -> (r: Transitions)
        requires
            self.wf(),
        ensures
            r.wf(),
            r@.implicit_accounts == list_map(implicit_view(implicit_accounts@)),
            r@.accounts == self@.accounts,
    {
        let mut t = self;
        let mut list: Vec<(OutputId, Id)> = Vec::new();
        let mut src = implicit_accounts;
        let ghost all = implicit_view(src@);
        let mut i: usize = 0;
        assert(implicit_view(list@) =~= Seq::empty());
        assert(all.take(0) =~= Seq::empty());
        let n = src.len();
        while src.len() > 0
            invariant
                src@.len() + i == n,
                n == all.len(),
                implicit_view(src@) =~= all.subrange(i as int, n as int),
                keys_unique(implicit_view(list@)),
                list_map(implicit_view(list@)) == list_map(all.take(i as int)),
            decreases src@.len(),
        {
            let ghost before = implicit_view(src@);
            let (k, v) = src.remove(0);
            proof {
                assert(before[0] == (k@, v@));
                assert(implicit_view(src@) =~= before.drop_first());
                assert(all.take(i + 1).drop_last() =~= all.take(i as int));
                assert(all.take(i + 1).last() == all[i as int]);
                assert(all[i as int] == before[0]);
            }
            put_implicit(&mut list, k, v);
            i = i + 1;
            assert(implicit_view(src@) =~= all.subrange(i as int, n as int));
        }
        assert(all.take(i as int) =~= all);
        t.implicit_accounts = list;
        t
    }

    /// The implicit accounts to transition, as pairs of output id and key hash.
    pub fn implicit_accounts(&self) -> (r: &Vec<(OutputId, Id)>)
        requires
            self.wf(),
        ensures
            keys_unique(implicit_view(r@)),
            list_map(implicit_view(r@)) == self@.implicit_accounts,
    {
        &self.implicit_accounts
    }

    /// Adds a change of an account; an earlier change of the same account is replaced.
    pub fn add_account(self, account_id: Id, change: AccountChange) -> (r: Transitions)
        requires
            self.wf(),
        ensures
            r.wf(),
            r@.accounts == self@.accounts.insert(account_id@, change),
            r@.implicit_accounts == self@.implicit_accounts,
    {
        let mut t = self;
        put_account(&mut t.accounts, account_id, change);
        t
    }

    /// Sets the account changes, from pairs of account id and change in which a later
    /// pair replaces an earlier one with the same account id.
    pub fn set_accounts(self, accounts: Vec<(Id, AccountChange)>) -> (r: Transitions)
        requires
            self.wf(),
        ensures
            r.wf(),
            r@.accounts == list_map(accounts_view(accounts@)),
            r@.implicit_accounts == self@.implicit_accounts,
    {
        let mut t = self;
        let mut list: Vec<(Id, AccountChange)> = Vec::new();
        let mut src = accounts;
        let ghost all = accounts_view(src@);
        let mut i: usize = 0;
        assert(accounts_view(list@) =~= Seq::empty());
        assert(all.take(0) =~= Seq::empty());
        let n = src.len();
        while src.len() > 0
            invariant
                src@.len() + i == n,
                n == all.len(),
                accounts_view(src@) =~= all.subrange(i as int, n as int),
                keys_unique(accounts_view(list@)),
                list_map(accounts_view(list@)) == list_map(all.take(i as int)),
            decreases src@.len(),
        {
            let ghost before = accounts_view(src@);
            let (k, c) = src.remove(0);
            proof {
                assert(before[0] == (k@, c));
                assert(accounts_view(src@) =~= before.drop_first());
                assert(all.take(i + 1).drop_last() =~= all.take(i as int));
                assert(all.take(i + 1).last() == all[i as int]);
                assert(all[i as int] == before[0]);
            }
            put_account(&mut list, k, c);
            i = i + 1;
            assert(accounts_view(src@) =~= all.subrange(i as int, n as int));
        }
        assert(all.take(i as int) =~= all);
        t.accounts = list;
        t
    }

    /// The account changes, as pairs of account id and change.
    pub fn accounts(&self) -> (r: &Vec<(Id, AccountChange)>)
        requires
            self.wf(),
        ensures
            keys_unique(accounts_view(r@)),
            list_map(accounts_view(r@)) == self@.accounts,
    {
        &self.accounts
    }
}

} // verus!
