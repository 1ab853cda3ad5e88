//! What a transaction is asked to burn. Nothing is burned that is not set here.

use vstd::prelude::*;


use crate::ledger::{Id, NativeToken};
use crate::token_amount::TokenAmount;
use crate::native_tokens::{put_token, token_ids_increase, tokens_view};
use crate::transitions::list_map;

verus! {

/// The values of a list of identifiers.
pub open spec fn ids_view(s: Seq<Id>) -> Seq<Seq<u8>> {
    s.map_values(|i: Id| i@)
}

/// Whether no identifier occurs twice.
pub open spec fn no_repeated_id(s: Seq<Seq<u8>>) -> bool {
    forall|i: int, j: int| 0 <= i < j < s.len() ==> s[i] != s[j]
}

/// Adds `id` to a list of distinct identifiers, unless it is there already.
fn insert_id(v: &mut Vec<Id>, id: Id)
    requires
        no_repeated_id(ids_view(old(v)@)),
    ensures
        no_repeated_id(ids_view(final(v)@)),
        ids_view(final(v)@).to_set() == ids_view(old(v)@).to_set().insert(id@),
{
    let ghost s0 = ids_view(v@);
    let mut i: usize = 0;
    while i < v.len()
        invariant
            i <= v@.len(),
            v@ == old(v)@,
            s0 == ids_view(v@),
            no_repeated_id(s0),
            forall|j: int| 0 <= j < i ==> s0[j] != id@,
        decreases v@.len() - i,
    {
        if v[i].same(&id) {
            proof {
                assert(s0[i as int] == id@);
                assert(s0.to_set().insert(id@) =~= s0.to_set());
            }
            return;
        }
        i = i + 1;
    }
    let ghost iv = id@;
    v.push(id);
    proof {
        assert(ids_view(v@) =~= s0.push(iv));
        s0.lemma_push_to_set_commute(iv);
    }
}

/// The distinct identifiers of `v`, in order of first occurrence.
fn distinct_ids(v: Vec<Id>) -> (r: Vec<Id>)
    ensures
        no_repeated_id(ids_view(r@)),
        ids_view(r@).to_set() == ids_view(v@).to_set(),
{
    let mut r: Vec<Id> = Vec::new();
    let ghost all = ids_view(v@);
    let mut i: usize = 0;
    assert(ids_view(r@) =~= Seq::<Seq<u8>>::empty());
    assert(all.take(0) =~= Seq::<Seq<u8>>::empty());
    while i < v.len()
        invariant
            i <= v@.len(),
            all == ids_view(v@),
            no_repeated_id(ids_view(r@)),
            ids_view(r@).to_set() == all.take(i as int).to_set(),
        decreases v@.len() - i,
    {
        let id = v[i].clone();
        insert_id(&mut r, id);
        proof {
            assert(all.take(i + 1) =~= all.take(i as int).push(all[i as int]));
            all.take(i as int).lemma_push_to_set_commute(all[i as int]);
        }
        i = i + 1;
    }
    assert(all.take(i as int) =~= all);
    r
}

/// The value of a burn.
pub struct BurnV {
    pub mana: bool,
    pub generated_mana: bool,
    pub accounts: Set<Seq<u8>>,
    pub foundries: Set<Seq<u8>>,
    pub nfts: Set<Seq<u8>>,
    pub delegations: Set<Seq<u8>>,
    pub native_tokens: Map<Seq<u8>, nat>,
}

/// What a transaction is asked to burn: initial excess mana, generated mana, accounts,
/// foundries, nfts, delegations, and amounts of native tokens.
#[derive(Debug)]
pub struct Burn {
    mana: bool,
    generated_mana: bool,
    accounts: Vec<Id>,
    foundries: Vec<Id>,
    nfts: Vec<Id>,
    delegations: Vec<Id>,
    native_tokens: Vec<(Id, TokenAmount)>,
}

impl View for Burn {
    type V = BurnV;

    closed spec fn view(&self) -> BurnV {
        BurnV {
            mana: self.mana,
            generated_mana: self.generated_mana,
            accounts: ids_view(self.accounts@).to_set(),
            foundries: ids_view(self.foundries@).to_set(),
            nfts: ids_view(self.nfts@).to_set(),
            delegations: ids_view(self.delegations@).to_set(),
            native_tokens: list_map(tokens_view(self.native_tokens@)),
        }
    }
}

impl Burn {
    #[verifier::type_invariant]
    spec fn inv(self) -> bool {
        &&& no_repeated_id(ids_view(self.accounts@))
        &&& no_repeated_id(ids_view(self.foundries@))
        &&& no_repeated_id(ids_view(self.nfts@))
        &&& no_repeated_id(ids_view(self.delegations@))
        &&& token_ids_increase(tokens_view(self.native_tokens@))
    }

    /// The accounts to burn, in the order in which they are listed.
    pub closed spec fn accounts_list(&self) -> Seq<Seq<u8>> {
        ids_view(self.accounts@)
    }

    /// The foundries to burn, in the order in which they are listed.
    pub closed spec fn foundries_list(&self) -> Seq<Seq<u8>> {
        ids_view(self.foundries@)
    }

    /// The nfts to burn, in the order in which they are listed.
    pub closed spec fn nfts_list(&self) -> Seq<Seq<u8>> {
        ids_view(self.nfts@)
    }

    /// The delegations to burn, in the order in which they are listed.
    pub closed spec fn delegations_list(&self) -> Seq<Seq<u8>> {
        ids_view(self.delegations@)
    }

    /// The native tokens to burn, in increasing order of token id.
    pub closed spec fn native_tokens_list(&self) -> Seq<(Seq<u8>, nat)> {
        tokens_view(self.native_tokens@)
    }

    /// Nothing to burn.
    pub fn new() -> (r: Burn)
        ensures
            r@ == (BurnV {
                mana: false,
                generated_mana: false,
                accounts: Set::empty(),
                foundries: Set::empty(),
                nfts: Set::empty(),
                delegations: Set::empty(),
                native_tokens: Map::empty(),
            }),
    {
        let r = Burn {
            mana: false,
            generated_mana: false,
            accounts: Vec::new(),
            foundries: Vec::new(),
            nfts: Vec::new(),
            delegations: Vec::new(),
            native_tokens: Vec::new(),
        };
        assert(ids_view(r.accounts@) =~= Seq::empty());
        assert(ids_view(r.foundries@) =~= Seq::empty());
        assert(ids_view(r.nfts@) =~= Seq::empty());
        assert(ids_view(r.delegations@) =~= Seq::empty());
        assert(tokens_view(r.native_tokens@) =~= Seq::empty());
        assert(Seq::<Seq<u8>>::empty().to_set() =~= Set::empty());
        r
    }

    /// Sets whether the initial excess mana is burned.
    pub fn set_mana(self, burn_mana: bool) -> (r: Burn)
        ensures
            r@ == (BurnV { mana: burn_mana, ..self@ }),
    {
        proof {
            use_type_invariant(&self);
        }
        Burn { mana: burn_mana, ..self }
    }

    /// Whether the initial excess mana is burned.
    pub fn mana(&self) -> (r: bool)
        ensures
            r == self@.mana,
    {
        self.mana
    }

    /// Sets whether the generated mana is burned.
    pub fn set_generated_mana(self, burn_generated_mana: bool) -> (r: Burn)
        ensures
            r@ == (BurnV { generated_mana: burn_generated_mana, ..self@ }),
    {
        proof {
            use_type_invariant(&self);
        }
        Burn { generated_mana: burn_generated_mana, ..self }
    }

    /// Whether the generated mana is burned.
    pub fn generated_mana(&self) -> (r: bool)
        ensures
            r == self@.generated_mana,
    {
        self.generated_mana
    }

    /// Adds an account to burn.
    pub fn add_account(self, account_id: Id) -> (r: Burn)
        ensures
            r@ == (BurnV { accounts: self@.accounts.insert(account_id@), ..self@ }),
    {
        proof {
            use_type_invariant(&self);
        }
        let mut accounts = self.accounts;
        insert_id(&mut accounts, account_id);
        Burn { accounts, ..self }
    }

    /// Sets the accounts to burn.
    pub fn set_accounts(self, accounts: Vec<Id>) -> (r: Burn)
        ensures
            r@ == (BurnV { accounts: ids_view(accounts@).to_set(), ..self@ }),
    {
        proof {
            use_type_invariant(&self);
        }
        Burn { accounts: distinct_ids(accounts), ..self }
    }

    /// The accounts to burn, each once.
    pub fn accounts(&self) -> (r: &Vec<Id>)
        ensures
            no_repeated_id(ids_view(r@)),
            ids_view(r@).to_set() == self@.accounts,
            ids_view(r@) == self.accounts_list(),
    {
        proof {
            use_type_invariant(self);
        }
        &self.accounts
    }

    /// Adds a foundry to burn.
    pub fn add_foundry(self, foundry_id: Id) -> (r: Burn)
        ensures
            r@ == (BurnV { foundries: self@.foundries.insert(foundry_id@), ..self@ }),
    {
        proof {
            use_type_invariant(&self);
        }
        let mut foundries = self.foundries;
        insert_id(&mut foundries, foundry_id);
        Burn { foundries, ..self }
    }

    /// Sets the foundries to burn.
    pub fn set_foundries(self, foundries: Vec<Id>) -> (r: Burn)
        ensures
            r@ == (BurnV { foundries: ids_view(foundries@).to_set(), ..self@ }),
    {
        proof {
            use_type_invariant(&self);
        }
        Burn { foundries: distinct_ids(foundries), ..self }
    }

    /// The foundries to burn, each once.
    pub fn foundries(&self) -> (r: &Vec<Id>)
        ensures
            no_repeated_id(ids_view(r@)),
            ids_view(r@).to_set() == self@.foundries,
            ids_view(r@) == self.foundries_list(),
    {
        proof {
            use_type_invariant(self);
        }
        &self.foundries
    }

    /// Adds an nft to burn.
    pub fn add_nft(self, nft_id: Id) -> (r: Burn)
        ensures
            r@ == (BurnV { nfts: self@.nfts.insert(nft_id@), ..self@ }),
    {
        proof {
            use_type_invariant(&self);
        }
        let mut nfts = self.nfts;
        insert_id(&mut nfts, nft_id);
        Burn { nfts, ..self }
    }

    /// Sets the nfts to burn.
    pub fn set_nfts(self, nfts: Vec<Id>) -> (r: Burn)
        ensures
            r@ == (BurnV { nfts: ids_view(nfts@).to_set(), ..self@ }),
    {
        proof {
            use_type_invariant(&self);
        }
        Burn { nfts: distinct_ids(nfts), ..self }
    }

    /// The nfts to burn, each once.
    pub fn nfts(&self) -> (r: &Vec<Id>)
        ensures
            no_repeated_id(ids_view(r@)),
            ids_view(r@).to_set() == self@.nfts,
            ids_view(r@) == self.nfts_list(),
    {
        proof {
            use_type_invariant(self);
        }
        &self.nfts
    }

    /// Adds a delegation to burn.
    pub fn add_delegation(self, delegation_id: Id) -> (r: Burn)
        ensures
            r@ == (BurnV { delegations: self@.delegations.insert(delegation_id@), ..self@ }),
    {
        proof {
            use_type_invariant(&self);
        }
        let mut delegations = self.delegations;
        insert_id(&mut delegations, delegation_id);
        Burn { delegations, ..self }
    }

    /// Sets the delegations to burn.
    pub fn set_delegation(self, delegations: Vec<Id>) -> (r: Burn)
        ensures
            r@ == (BurnV { delegations: ids_view(delegations@).to_set(), ..self@ }),
    {
        proof {
            use_type_invariant(&self);
        }
        Burn { delegations: distinct_ids(delegations), ..self }
    }

    /// The delegations to burn, each once.
    pub fn delegations(&self) -> (r: &Vec<Id>)
        ensures
            no_repeated_id(ids_view(r@)),
            ids_view(r@).to_set() == self@.delegations,
            ids_view(r@) == self.delegations_list(),
    {
        proof {
            use_type_invariant(self);
        }
        &self.delegations
    }

    /// Adds an amount of a native token to burn; an earlier amount of the same token is
    /// replaced.
    pub fn add_native_token(self, token_id: Id, amount: TokenAmount) -> (r: Burn)
        ensures
            r@ == (BurnV { native_tokens: self@.native_tokens.insert(token_id@, amount@), ..self@ }),
    {
        proof {
            use_type_invariant(&self);
        }
        let mut native_tokens = self.native_tokens;
        put_token(&mut native_tokens, token_id, amount);
        Burn { native_tokens, ..self }
    }

    /// Sets the amounts of native tokens to burn, from pairs in which a later pair replaces
    /// an earlier one with the same token id.
    pub fn set_native_tokens(self, native_tokens: Vec<(Id, TokenAmount)>) -> (r: Burn)
        ensures
            r@ == (BurnV { native_tokens: list_map(tokens_view(native_tokens@)), ..self@ }),
    {
        proof {
            use_type_invariant(&self);
        }
        let mut list: Vec<(Id, TokenAmount)> = Vec::new();
        let mut src = native_tokens;
        let ghost all = tokens_view(src@);
        let n = src.len();
        let mut i: usize = 0;
        assert(tokens_view(list@) =~= Seq::empty());
        assert(all.take(0) =~= Seq::empty());
        while src.len() > 0
            invariant
                src@.len() + i == n,
                n == all.len(),
                tokens_view(src@) =~= all.subrange(i as int, n as int),
                token_ids_increase(tokens_view(list@)),
                list_map(tokens_view(list@)) == list_map(all.take(i as int)),
            decreases src@.len(),
        {
            let ghost before = tokens_view(src@);
            let (k, a) = src.remove(0);
            proof {
                assert(before[0] == (k@, a@));
                assert(tokens_view(src@) =~= before.drop_first());
                assert(all.take(i + 1).drop_last() =~= all.take(i as int));
                assert(all.take(i + 1).last() == all[i as int]);
            }
            put_token(&mut list, k, a);
            i = i + 1;
            assert(tokens_view(src@) =~= all.subrange(i as int, n as int));
        }
        assert(all.take(i as int) =~= all);
        Burn { native_tokens: list, ..self }
    }

    /// The amounts of native tokens to burn, in increasing order of token id.
    pub fn native_tokens(&self) -> (r: &Vec<(Id, TokenAmount)>)
        ensures
            tokens_view(r@) == self.native_tokens_list(),
            token_ids_increase(tokens_view(r@)),
            list_map(tokens_view(r@)) == self@.native_tokens,
    {
        proof {
            use_type_invariant(self);
        }
        &self.native_tokens
    }

    /// Burns one account.
    pub fn from_account(account_id: Id) -> (r: Burn)
        ensures
            r@ == (BurnV { accounts: set![account_id@], ..Burn::new_spec() }),
    {
        Burn::new().add_account(account_id)
    }

    /// Burns one foundry.
    pub fn from_foundry(foundry_id: Id) -> (r: Burn)
        ensures
            r@ == (BurnV { foundries: set![foundry_id@], ..Burn::new_spec() }),
    {
        Burn::new().add_foundry(foundry_id)
    }

    /// Burns one nft.
    pub fn from_nft(nft_id: Id) -> (r: Burn)
        ensures
            r@ == (BurnV { nfts: set![nft_id@], ..Burn::new_spec() }),
    {
        Burn::new().add_nft(nft_id)
    }

    /// Burns one delegation.
    pub fn from_delegation(delegation_id: Id) -> (r: Burn)
        ensures
            r@ == (BurnV { delegations: set![delegation_id@], ..Burn::new_spec() }),
    {
        Burn::new().add_delegation(delegation_id)
    }

    /// Burns the amount of one native token.
    pub fn from_native_token(native_token: NativeToken) -> (r: Burn)
        ensures
            r@ == (BurnV {
                native_tokens: map![native_token.token_id@ => native_token.amount@],
                ..Burn::new_spec()
            }),
    {
        Burn::new().add_native_token(native_token.token_id, native_token.amount)
    }

    /// The value of a burn of nothing.
    pub open spec fn new_spec() -> BurnV {
        BurnV {
            mana: false,
            generated_mana: false,
            accounts: Set::empty(),
            foundries: Set::empty(),
            nfts: Set::empty(),
            delegations: Set::empty(),
            native_tokens: Map::empty(),
        }
    }
}

} // verus!
