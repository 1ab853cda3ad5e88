//! The ledger objects that the client reads and builds: identifiers, addresses,
//! outputs, and inputs with their signing data.

use vstd::prelude::*;


use crate::hash::{blake2b256, blake2b256_digest};
use crate::token_amount::TokenAmount;

verus! {

/// The bytes of an identifier (a hash, an account id, a token id, ...).
#[derive(Debug, PartialEq, Eq)]
pub struct Id {
    pub bytes: Vec<u8>,
}

impl View for Id {
    type V = Seq<u8>;

    open spec fn view(&self) -> Seq<u8> {
        self.bytes@
    }
}

/// The null identifier of `n` bytes: all zero.
pub open spec fn null_id(n: nat) -> Seq<u8> {
    Seq::new(n, |i: int| 0u8)
}

/// Whether every byte of `s` is zero.
pub open spec fn is_null_id(s: Seq<u8>) -> bool {
    forall|i: int| 0 <= i < s.len() ==> s[i] == 0u8
}

impl Id {
    /// The identifier made of `bytes`.
    pub fn new(bytes: Vec<u8>) -> (r: Id)
        ensures
            r@ == bytes@,
    {
        Id { bytes }
    }

    /// The null identifier of `n` bytes.
    pub fn null(n: usize) -> (r: Id)
        ensures
            r@ == null_id(n as nat),
    {
        let mut bytes: Vec<u8> = Vec::new();
        let mut i: usize = 0;
        while i < n
            invariant
                i <= n,
                bytes@ == null_id(i as nat),
            decreases n - i,
        {
            bytes.push(0u8);
            i = i + 1;
            assert(bytes@ =~= null_id(i as nat));
        }
        Id { bytes }
    }

    /// Whether all bytes of the identifier are zero.
    pub fn is_null(&self) -> (r: bool)
        ensures
            r == is_null_id(self@),
    {
        let mut i: usize = 0;
        while i < self.bytes.len()
            invariant
                i <= self.bytes@.len(),
                forall|j: int| 0 <= j < i ==> self.bytes@[j] == 0u8,
            decreases self.bytes@.len() - i,
        {
            if self.bytes[i] != 0u8 {
                return false;
            }
            i = i + 1;
        }
        true
    }

    /// Whether both identifiers have the same bytes.
    pub fn same(&self, other: &Id) -> (r: bool)
        ensures
            r == (self@ == other@),
    {
        if self.bytes.len() != other.bytes.len() {
            return false;
        }
        let mut i: usize = 0;
        while i < self.bytes.len()
            invariant
                i <= self.bytes@.len(),
                self.bytes@.len() == other.bytes@.len(),
                forall|j: int| 0 <= j < i ==> self.bytes@[j] == other.bytes@[j],
            decreases self.bytes@.len() - i,
        {
            if self.bytes[i] != other.bytes[i] {
                return false;
            }
            i = i + 1;
        }
        assert(self@ =~= other@);
        true
    }

    /// The bytes of the identifier.
    pub fn as_bytes(&self) -> (r: &Vec<u8>)
        ensures
            r@ == self@,
    {
        &self.bytes
    }
}

impl Clone for Id {
    fn clone(&self) -> (r: Self)
        ensures
            r@ == self@,
    {
        let bytes = self.bytes.clone();
        assert(bytes@ =~= self.bytes@);
        Id { bytes }
    }
}

/// The kinds of address.
#[derive(Clone, Copy, Debug, PartialEq, Eq, Structural)]
pub enum AddressKind {
    Ed25519,
    Account,
    Nft,
    Anchor,
    /// An Ed25519 address from which an implicit account can be created.
    ImplicitAccountCreation,
}

/// An address: its kind, the identifier it points to, and whether it is wrapped
/// in a restricted address.
#[derive(Debug)]
pub struct Address {
    pub kind: AddressKind,
    /// For Ed25519 and implicit account creation addresses the Ed25519 public key hash,
    /// otherwise the id of the account, nft or anchor.
    pub id: Id,
    pub restricted: bool,
}

/// The value of an address.
pub struct AddressV {
    pub kind: AddressKind,
    pub id: Seq<u8>,
    pub restricted: bool,
}

impl View for Address {
    type V = AddressV;

    open spec fn view(&self) -> AddressV {
        AddressV { kind: self.kind, id: self.id@, restricted: self.restricted }
    }
}

impl AddressV {
    /// The address without its restriction.
    pub open spec fn inner(self) -> AddressV {
        AddressV { restricted: false, ..self }
    }

    /// The Ed25519 key hash that backs the address, if any.
    pub open spec fn backing_ed25519(self) -> Option<Seq<u8>> {
        match self.kind {
            AddressKind::Ed25519 | AddressKind::ImplicitAccountCreation => Some(self.id),
            _ => None,
        }
    }

    /// The plain Ed25519 address with key hash `id`.
    pub open spec fn ed25519(id: Seq<u8>) -> AddressV {
        AddressV { kind: AddressKind::Ed25519, id, restricted: false }
    }
}

impl Address {
    /// A plain address of the given kind.
    pub fn new(kind: AddressKind, id: Id) -> (r: Address)
        ensures
            r@ == (AddressV { kind, id: id@, restricted: false }),
    {
        Address { kind, id, restricted: false }
    }

    /// The address without its restriction.
    pub fn inner(&self) -> (r: Address)
        ensures
            r@ == self@.inner(),
    {
        Address { kind: self.kind, id: self.id.clone(), restricted: false }
    }

    /// Whether both addresses are equal.
    pub fn same(&self, other: &Address) -> (r: bool)
        ensures
            r == (self@ == other@),
    {
        self.kind == other.kind && self.restricted == other.restricted && self.id.same(&other.id)
    }

    /// Whether the address is a plain Ed25519 address.
    pub fn is_ed25519(&self) -> (r: bool)
        ensures
            r == (self@.kind == AddressKind::Ed25519 && !self@.restricted),
    {
        self.kind == AddressKind::Ed25519 && !self.restricted
    }

    /// The Ed25519 address that backs this one, if any.
    pub fn backing_ed25519(&self) -> (r: Option<Address>)
        ensures
            match self@.backing_ed25519() {
                Some(h) => r matches Some(a) && a@ == AddressV::ed25519(h),
                None => r is None,
            },
    {
        match self.kind {
            AddressKind::Ed25519 | AddressKind::ImplicitAccountCreation => Some(
                Address::new(AddressKind::Ed25519, self.id.clone()),
            ),
            _ => None,
        }
    }

    /// Whether an Ed25519 key hash backs the address.
    pub fn is_ed25519_backed(&self) -> (r: bool)
        ensures
            r == self@.backing_ed25519() is Some,
    {
        match self.kind {
            AddressKind::Ed25519 | AddressKind::ImplicitAccountCreation => true,
            _ => false,
        }
    }
}

impl Clone for Address {
    fn clone(&self) -> (r: Self)
        ensures
            r@ == self@,
    {
        Address { kind: self.kind, id: self.id.clone(), restricted: self.restricted }
    }
}

/// The little-endian bytes of `x`, `n` of them.
pub open spec fn le_bytes(x: nat, n: nat) -> Seq<u8>
    decreases n,
{
    if n == 0 {
        Seq::empty()
    } else {
        seq![(x % 256) as u8] + le_bytes(x / 256, (n - 1) as nat)
    }
}

/// Appends the `n` little-endian bytes of `x` to `v`.
fn push_le(v: &mut Vec<u8>, x: u64, n: usize)
    requires
        n <= 8,
    ensures
        final(v)@ == old(v)@ + le_bytes(x as nat, n as nat),
{
    let mut y = x;
    let mut i: usize = 0;
    while i < n
        invariant
            i <= n,
            v@ + le_bytes(y as nat, (n - i) as nat) == old(v)@ + le_bytes(x as nat, n as nat),
        decreases n - i,
    {
        let ghost before = v@;
        v.push((y % 256) as u8);
        proof {
            assert(le_bytes(y as nat, (n - i) as nat) == seq![(y % 256) as u8] + le_bytes(
                (y / 256) as nat,
                (n - i - 1) as nat,
            ));
            assert(v@ + le_bytes((y / 256) as nat, (n - i - 1) as nat) =~= before + le_bytes(
                y as nat,
                (n - i) as nat,
            ));
        }
        y = y / 256;
        i = i + 1;
    }
    assert(v@ =~= v@ + le_bytes(y as nat, 0));
}

/// The identifier of an output: the transaction that created it (its hash and the
/// slot of its creation) and its index among the transaction's outputs.
#[derive(Debug)]
pub struct OutputId {
    pub transaction_hash: Id,
    pub slot_index: u32,
    pub index: u16,
}

/// The value of an output identifier.
pub struct OutputIdV {
    pub transaction_hash: Seq<u8>,
    pub slot_index: u32,
    pub index: u16,
}

impl View for OutputId {
    type V = OutputIdV;

    open spec fn view(&self) -> OutputIdV {
        OutputIdV {
            transaction_hash: self.transaction_hash@,
            slot_index: self.slot_index,
            index: self.index,
        }
    }
}

impl OutputIdV {
    /// The packed form: transaction hash, slot index (4 bytes), output index (2 bytes).
    pub open spec fn packed(self) -> Seq<u8> {
        self.transaction_hash + le_bytes(self.slot_index as nat, 4) + le_bytes(
            self.index as nat,
            2,
        )
    }

    /// The chain id that an output with a null chain id gets from this output id.
    pub open spec fn derived_chain_id(self) -> Seq<u8> {
        blake2b256(self.packed())
    }
}

impl OutputId {
    /// Whether both output ids are equal.
    pub fn same(&self, other: &OutputId) -> (r: bool)
        ensures
            r == (self@ == other@),
    {
        self.slot_index == other.slot_index && self.index == other.index
            && self.transaction_hash.same(&other.transaction_hash)
    }

    /// The packed bytes of the output id.
    pub fn pack(&self) -> (r: Vec<u8>)
        ensures
            r@ == self@.packed(),
    {
        let mut v = self.transaction_hash.bytes.clone();
        assert(v@ =~= self.transaction_hash@);
        push_le(&mut v, self.slot_index as u64, 4);
        push_le(&mut v, self.index as u64, 2);
        v
    }

    /// The chain id derived from this output id: the hash of its packed bytes.
    pub fn derived_chain_id(&self) -> (r: Id)
        ensures
            r@ == self@.derived_chain_id(),
            r@.len() == 32,
    {
        let packed = self.pack();
        Id::new(blake2b256_digest(packed.as_slice()))
    }
}

impl Clone for OutputId {
    fn clone(&self) -> (r: Self)
        ensures
            r@ == self@,
    {
        OutputId {
            transaction_hash: self.transaction_hash.clone(),
            slot_index: self.slot_index,
            index: self.index,
        }
    }
}

/// The index of a slot, a unit of time of the ledger.
#[derive(Clone, Copy, Debug, PartialEq, Eq, Structural)]
pub struct SlotIndex(pub u32);

impl From<u32> for SlotIndex {
    fn from(v: u32) -> (r: SlotIndex) {
        SlotIndex(v)
    }
}

impl vstd::std_specs::convert::FromSpecImpl<u32> for SlotIndex {
    open spec fn obeys_from_spec() -> bool {
        true
    }

    open spec fn from_spec(v: u32) -> SlotIndex {
        SlotIndex(v)
    }
}

/// The kinds of output.
#[derive(Clone, Copy, Debug, PartialEq, Eq, Structural)]
pub enum OutputKind {
    Basic,
    Account,
    Anchor,
    Foundry,
    Nft,
    Delegation,
}

/// A storage deposit return unlock condition: the amount that must be returned to an address.
#[derive(Debug)]
pub struct StorageDepositReturn {
    pub return_address: Address,
    pub amount: u64,
}

/// An expiration unlock condition: from the slot on, the return address unlocks the output.
#[derive(Debug)]
pub struct Expiration {
    pub return_address: Address,
    pub slot_index: u32,
}

/// A native token held by an output.
#[derive(Debug)]
pub struct NativeToken {
    pub token_id: Id,
    pub amount: TokenAmount,
}

/// A staking feature: the staked amount, the validator's fixed cost, and the epochs in which
/// the staking starts and ends.
#[derive(Clone, Copy, Debug, PartialEq, Eq, Structural)]
pub struct StakingFeature {
    pub staked_amount: u64,
    pub fixed_cost: u64,
    pub start_epoch: u32,
    pub end_epoch: u32,
}

/// A block issuer feature: the slot at which it expires and the block issuer keys (Ed25519
/// public key hashes).
#[derive(Debug)]
pub struct BlockIssuerFeature {
    pub expiry_slot: u32,
    pub keys: Vec<Id>,
}

/// The values of a list of identifiers.
pub open spec fn id_list_view(s: Seq<Id>) -> Seq<Seq<u8>> {
    s.map_values(|i: Id| i@)
}

/// The value of an optional block issuer feature: its expiry slot and keys.
pub open spec fn block_issuer_view(b: Option<BlockIssuerFeature>) -> Option<(u32, Seq<Seq<u8>>)> {
    match b {
        Some(f) => Some((f.expiry_slot, id_list_view(f.keys@))),
        None => None,
    }
}

/// An output, as far as the transaction building logic reads it.
#[derive(Debug)]
pub struct Output {
    pub kind: OutputKind,
    pub amount: u64,
    pub mana: u64,
    /// The account, anchor, nft or delegation id (null for one created by the transaction),
    /// or the foundry id; empty for basic outputs.
    pub chain_id: Id,
    /// The address that unlocks the output: the address unlock condition, the state controller
    /// of an anchor, or the account that controls a foundry.
    pub address: Address,
    pub storage_deposit_return: Option<StorageDepositReturn>,
    pub expiration: Option<Expiration>,
    /// The slot until which the output is timelocked.
    pub timelock: Option<u32>,
    pub native_token: Option<NativeToken>,
    /// The circulating supply of a foundry's token scheme: the tokens it minted and did not
    /// melt; none for other outputs.
    pub circulating_supply: Option<TokenAmount>,
    /// The sender feature.
    pub sender: Option<Address>,
    /// The issuer immutable feature.
    pub issuer: Option<Address>,
    /// The block issuer feature of an account.
    pub block_issuer: Option<BlockIssuerFeature>,
    /// The staking feature of an account.
    pub staking: Option<StakingFeature>,
    /// The foundry counter of an account: the highest serial number of its foundries.
    pub foundry_counter: u32,
    /// The serial number of a foundry.
    pub serial_number: u32,
    /// Whether the output carries features beyond the ones above (metadata, tag, ...).
    pub other_features: bool,
}

/// The range of slots, relative to the current one, in which commitments can be referenced.
#[derive(Clone, Copy, Debug, PartialEq, Eq, Structural)]
pub struct CommittableAgeRange {
    pub min: u32,
    pub max: u32,
}

/// The value of an output.
pub struct OutputV {
    pub kind: OutputKind,
    pub amount: u64,
    pub mana: u64,
    pub chain_id: Seq<u8>,
    pub address: AddressV,
    /// The return address and amount of the storage deposit return.
    pub storage_deposit_return: Option<(AddressV, u64)>,
    /// The return address and slot of the expiration.
    pub expiration: Option<(AddressV, u32)>,
    pub timelock: Option<u32>,
    /// The token id and amount of the native token.
    pub native_token: Option<(Seq<u8>, nat)>,
    pub circulating_supply: Option<nat>,
    pub sender: Option<AddressV>,
    pub issuer: Option<AddressV>,
    pub block_issuer: Option<(u32, Seq<Seq<u8>>)>,
    pub staking: Option<StakingFeature>,
    pub foundry_counter: u32,
    pub serial_number: u32,
    pub other_features: bool,
}

/// The value of an optional address.
pub open spec fn opt_address_view(a: Option<Address>) -> Option<AddressV> {
    match a {
        Some(a) => Some(a@),
        None => None,
    }
}

impl View for Output {
    type V = OutputV;

    open spec fn view(&self) -> OutputV {
        OutputV {
            kind: self.kind,
            amount: self.amount,
            mana: self.mana,
            chain_id: self.chain_id@,
            address: self.address@,
            storage_deposit_return: match self.storage_deposit_return {
                Some(s) => Some((s.return_address@, s.amount)),
                None => None,
            },
            expiration: match self.expiration {
                Some(e) => Some((e.return_address@, e.slot_index)),
                None => None,
            },
            timelock: self.timelock,
            native_token: match self.native_token {
                Some(t) => Some((t.token_id@, t.amount@)),
                None => None,
            },
            circulating_supply: match self.circulating_supply {
                Some(c) => Some(c@),
                None => None,
            },
            sender: opt_address_view(self.sender),
            issuer: opt_address_view(self.issuer),
            block_issuer: block_issuer_view(self.block_issuer),
            staking: self.staking,
            foundry_counter: self.foundry_counter,
            serial_number: self.serial_number,
            other_features: self.other_features,
        }
    }
}

impl OutputV {
    /// The address that can unlock the output at `slot`: the return address once an
    /// expiration is reached, nobody while the expiration is not yet decidable.
    pub open spec fn required_address(self, slot: u32, range: CommittableAgeRange) -> Option<AddressV> {
        match self.expiration {
            None => Some(self.address),
            Some((ret, exp)) => if exp > slot + range.max {
                Some(self.address)
            } else if exp <= slot + range.min {
                Some(ret)
            } else {
                None
            },
        }
    }

    /// Whether a timelock still holds the output at `slot`.
    pub open spec fn is_timelocked(self, slot: u32, min_committable_age: u32) -> bool {
        self.timelock matches Some(t) && slot + min_committable_age < t
    }

    /// Whether the output is a basic output that can create an implicit account.
    pub open spec fn is_implicit_account(self) -> bool {
        self.kind == OutputKind::Basic && self.address.kind == AddressKind::ImplicitAccountCreation
    }

    /// The chain id of the output; a null id is derived from the output id.
    pub open spec fn chain_id_non_null(self, output_id: OutputIdV) -> Seq<u8> {
        if is_null_id(self.chain_id) {
            output_id.derived_chain_id()
        } else {
            self.chain_id
        }
    }

    /// The storage deposit return that is still owed at `slot`: none once an expiration is reached.
    pub open spec fn sdruc_not_expired(self, slot: u32) -> Option<(AddressV, u64)> {
        match self.storage_deposit_return {
            None => None,
            Some(sdr) => if self.expiration matches Some((_, e)) && slot >= e {
                None
            } else {
                Some(sdr)
            },
        }
    }

    /// The address of a basic output that only has an address unlock condition, no mana and
    /// no features.
    pub open spec fn simple_deposit_address(self) -> Option<AddressV> {
        if self.kind == OutputKind::Basic && self.storage_deposit_return is None
            && self.expiration is None && self.timelock is None && self.mana == 0
            && self.native_token is None && self.sender is None && self.issuer is None
            && self.block_issuer is None && self.staking is None && !self.other_features {
            Some(self.address)
        } else {
            None
        }
    }
}

impl Output {
    /// Decides `required_address`.
    pub fn required_address_at(&self, slot: u32, range: CommittableAgeRange) -> (r: Option<Address>)
        ensures
            match self@.required_address(slot, range) {
                Some(a) => r matches Some(b) && b@ == a,
                None => r is None,
            },
    {
        match &self.expiration {
            None => Some(self.address.clone()),
            Some(e) => {
                if e.slot_index as u64 > slot as u64 + range.max as u64 {
                    Some(self.address.clone())
                } else if e.slot_index as u64 <= slot as u64 + range.min as u64 {
                    Some(e.return_address.clone())
                } else {
                    None
                }
            },
        }
    }

    /// Decides `is_timelocked`.
    pub fn is_timelocked_at(&self, slot: u32, min_committable_age: u32) -> (r: bool)
        ensures
            r == self@.is_timelocked(slot, min_committable_age),
    {
        match self.timelock {
            Some(t) => (slot as u64 + min_committable_age as u64) < t as u64,
            None => false,
        }
    }

    /// Whether the output is a basic output.
    pub fn is_basic(&self) -> (r: bool)
        ensures
            r == (self.kind == OutputKind::Basic),
    {
        self.kind == OutputKind::Basic
    }

    /// Whether the output is a basic output that can create an implicit account.
    pub fn is_implicit_account_exec(&self) -> (r: bool)
        ensures
            r == self@.is_implicit_account(),
    {
        self.kind == OutputKind::Basic && self.address.kind == AddressKind::ImplicitAccountCreation
    }

    /// The chain id of the output; a null id is derived from the output id.
    pub fn chain_id_non_null_exec(&self, output_id: &OutputId) -> (r: Id)
        ensures
            r@ == self@.chain_id_non_null(output_id@),
    {
        if self.chain_id.is_null() {
            output_id.derived_chain_id()
        } else {
            self.chain_id.clone()
        }
    }

    /// The storage deposit return that is still owed at `slot`.
    pub fn sdruc_not_expired_exec(&self, slot: u32) -> (r: Option<(Address, u64)>)
        ensures
            match self@.sdruc_not_expired(slot) {
                Some((a, n)) => r matches Some((b, m)) && b@ == a && m == n,
                None => r is None,
            },
    {
        match &self.storage_deposit_return {
            None => None,
            Some(sdr) => {
                let expired = match &self.expiration {
                    Some(e) => slot >= e.slot_index,
                    None => false,
                };
                if !expired {
                    Some((sdr.return_address.clone(), sdr.amount))
                } else {
                    None
                }
            },
        }
    }

    /// Decides `simple_deposit_address`.
    pub fn simple_deposit_address_exec(&self) -> (r: Option<Address>)
        ensures
            match self@.simple_deposit_address() {
                Some(a) => r matches Some(b) && b@ == a,
                None => r is None,
            },
    {
        if self.kind == OutputKind::Basic && self.storage_deposit_return.is_none()
            && self.expiration.is_none() && self.timelock.is_none() && self.mana == 0
            && self.native_token.is_none() && self.sender.is_none() && self.issuer.is_none()
            && self.block_issuer.is_none() && self.staking.is_none() && !self.other_features {
            Some(self.address.clone())
        } else {
            None
        }
    }
}

impl Clone for StorageDepositReturn {
    fn clone(&self) -> (r: Self)
        ensures
            r.return_address@ == self.return_address@,
            r.amount == self.amount,
    {
        StorageDepositReturn { return_address: self.return_address.clone(), amount: self.amount }
    }
}

impl Clone for Expiration {
    fn clone(&self) -> (r: Self)
        ensures
            r.return_address@ == self.return_address@,
            r.slot_index == self.slot_index,
    {
        Expiration { return_address: self.return_address.clone(), slot_index: self.slot_index }
    }
}

/// A copy of a list of identifiers.
pub fn clone_ids(v: &Vec<Id>) -> (r: Vec<Id>)
    ensures
        id_list_view(r@) == id_list_view(v@),
{
    let mut r: Vec<Id> = Vec::new();
    let mut i: usize = 0;
    while i < v.len()
        invariant
            i <= v@.len(),
            id_list_view(r@) == id_list_view(v@.take(i as int)),
        decreases v@.len() - i,
    {
        let ghost r0 = id_list_view(r@);
        let c = v[i].clone();
        r.push(c);
        proof {
            assert(v@.take(i + 1) =~= v@.take(i as int).push(v@[i as int]));
            assert(id_list_view(r@) =~= r0.push(c@));
            assert(id_list_view(r@) =~= id_list_view(v@.take(i + 1)));
        }
        i = i + 1;
    }
    assert(v@.take(i as int) =~= v@);
    r
}

impl Clone for BlockIssuerFeature {
    fn clone(&self) -> (r: Self)
        ensures
            r.expiry_slot == self.expiry_slot,
            id_list_view(r.keys@) == id_list_view(self.keys@),
    {
        BlockIssuerFeature { expiry_slot: self.expiry_slot, keys: clone_ids(&self.keys) }
    }
}

impl Clone for NativeToken {
    fn clone(&self) -> (r: Self)
        ensures
            r.token_id@ == self.token_id@,
            r.amount@ == self.amount@,
    {
        NativeToken { token_id: self.token_id.clone(), amount: self.amount }
    }
}

fn clone_opt_address(a: &Option<Address>) -> (r: Option<Address>)
    ensures
        opt_address_view(r) == opt_address_view(*a),
{
    match a {
        Some(a) => Some(a.clone()),
        None => None,
    }
}

impl Clone for Output {
    fn clone(&self) -> (r: Self)
        ensures
            r@ == self@,
    {
        Output {
            kind: self.kind,
            amount: self.amount,
            mana: self.mana,
            chain_id: self.chain_id.clone(),
            address: self.address.clone(),
            storage_deposit_return: match &self.storage_deposit_return {
                Some(s) => Some(s.clone()),
                None => None,
            },
            expiration: match &self.expiration {
                Some(e) => Some(e.clone()),
                None => None,
            },
            timelock: self.timelock,
            native_token: match &self.native_token {
                Some(t) => Some(t.clone()),
                None => None,
            },
            circulating_supply: self.circulating_supply,
            sender: clone_opt_address(&self.sender),
            issuer: clone_opt_address(&self.issuer),
            block_issuer: match &self.block_issuer {
                Some(b) => Some(b.clone()),
                None => None,
            },
            staking: self.staking,
            foundry_counter: self.foundry_counter,
            serial_number: self.serial_number,
            other_features: self.other_features,
        }
    }
}

/// An input together with what signing it needs: the output it spends, the id of that
/// output, and the BIP-44 chain of the key that unlocks it.
#[derive(Debug)]
pub struct InputSigningData {
    pub output: Output,
    pub output_id: OutputId,
    pub chain: Option<Bip44>,
}

/// A BIP-44 derivation chain.
#[derive(Clone, Copy, Debug, PartialEq, Eq, Structural)]
pub struct Bip44 {
    pub coin_type: u32,
    pub account: u32,
    pub change: u32,
    pub address_index: u32,
}

/// The value of an input: the output it spends and the id of that output.
pub struct InputV {
    pub output: OutputV,
    pub output_id: OutputIdV,
    pub chain: Option<Bip44>,
}

impl View for InputSigningData {
    type V = InputV;

    open spec fn view(&self) -> InputV {
        InputV { output: self.output@, output_id: self.output_id@, chain: self.chain }
    }
}

impl Clone for InputSigningData {
    fn clone(&self) -> (r: Self)
        ensures
            r@ == self@,
    {
        InputSigningData {
            output: self.output.clone(),
            output_id: self.output_id.clone(),
            chain: self.chain,
        }
    }
}

} // verus!
