//! Requirements that outputs and burns put on the selected inputs, and the predicates
//! that find the inputs that fulfil them.

use vstd::prelude::*;

use crate::ledger::{
    Address, AddressV, Id, Output, OutputId, OutputIdV, OutputKind, OutputV, StorageDepositReturn,
};

verus! {

/// A requirement, imposed by outputs, that needs to be resolved by selected inputs.
#[derive(Debug)]
pub enum Requirement {
    /// Sender requirement.
    Sender(Address),
    /// Issuer requirement.
    Issuer(Address),
    /// Ed25519 requirement.
    Ed25519(Address),
    /// Foundry requirement.
    Foundry(Id),
    /// Account requirement.
    Account(Id),
    /// Nft requirement.
    Nft(Id),
    /// Delegation requirement.
    Delegation(Id),
    /// Native tokens requirement.
    NativeTokens,
    /// Amount requirement.
    Amount,
    /// Mana requirement.
    Mana,
}

/// The value of a requirement.
pub enum RequirementV {
    Sender(AddressV),
    Issuer(AddressV),
    Ed25519(AddressV),
    Foundry(Seq<u8>),
    Account(Seq<u8>),
    Nft(Seq<u8>),
    Delegation(Seq<u8>),
    NativeTokens,
    Amount,
    Mana,
}

impl View for Requirement {
    type V = RequirementV;

    open spec fn view(&self) -> RequirementV {
        match self {
            Requirement::Sender(a) => RequirementV::Sender(a@),
            Requirement::Issuer(a) => RequirementV::Issuer(a@),
            Requirement::Ed25519(a) => RequirementV::Ed25519(a@),
            Requirement::Foundry(i) => RequirementV::Foundry(i@),
            Requirement::Account(i) => RequirementV::Account(i@),
            Requirement::Nft(i) => RequirementV::Nft(i@),
            Requirement::Delegation(i) => RequirementV::Delegation(i@),
            Requirement::NativeTokens => RequirementV::NativeTokens,
            Requirement::Amount => RequirementV::Amount,
            Requirement::Mana => RequirementV::Mana,
        }
    }
}

/// Whether `output` is the account with id `account_id` once created by `output_id`: an account
/// output, or a basic output that creates an implicit account.
pub open spec fn spec_is_account_with_id(output: OutputV, account_id: Seq<u8>, output_id: OutputIdV) -> bool {
    match output.kind {
        OutputKind::Basic => output.is_implicit_account() && output_id.derived_chain_id()
            == account_id,
        OutputKind::Account => output.chain_id_non_null(output_id) == account_id,
        _ => false,
    }
}

/// Checks if an output is an account with output ID that matches the given account ID.
pub fn is_account_with_id(output: &Output, account_id: &Id, output_id: &OutputId) -> (r: bool)
    ensures
        r == spec_is_account_with_id(output@, account_id@, output_id@),
{
    match output.kind {
        OutputKind::Basic => output.is_implicit_account_exec() && output_id.derived_chain_id().same(
            account_id,
        ),
        OutputKind::Account => output.chain_id_non_null_exec(output_id).same(account_id),
        _ => false,
    }
}

/// Checks if an output is an account with a given non null account ID.
pub fn is_account_with_id_non_null(output: &Output, account_id: &Id) -> (r: bool)
    ensures
        r == (output@.kind == OutputKind::Account && output@.chain_id == account_id@),
{
    output.kind == OutputKind::Account && output.chain_id.same(account_id)
}

/// Checks if an output is an nft with a given nft ID; a null nft ID is derived from the output ID.
pub fn is_nft_with_id(output: &Output, nft_id: &Id, output_id: &OutputId) -> (r: bool)
    ensures
        r == (output@.kind == OutputKind::Nft && output@.chain_id_non_null(output_id@) == nft_id@),
{
    output.kind == OutputKind::Nft && output.chain_id_non_null_exec(output_id).same(nft_id)
}

/// Checks if an output is an nft with a given non null nft ID.
pub fn is_nft_with_id_non_null(output: &Output, nft_id: &Id) -> (r: bool)
    ensures
        r == (output@.kind == OutputKind::Nft && output@.chain_id == nft_id@),
{
    output.kind == OutputKind::Nft && output.chain_id.same(nft_id)
}

/// Checks if an output is a delegation with a given delegation ID; a null delegation ID is
/// derived from the output ID.
pub fn is_delegation_with_id(output: &Output, delegation_id: &Id, output_id: &OutputId) -> (r: bool)
    ensures
        r == (output@.kind == OutputKind::Delegation && output@.chain_id_non_null(output_id@)
            == delegation_id@),
{
    output.kind == OutputKind::Delegation && output.chain_id_non_null_exec(output_id).same(
        delegation_id,
    )
}

/// Checks if an output is a delegation with a given non null delegation ID.
pub fn is_delegation_with_id_non_null(output: &Output, delegation_id: &Id) -> (r: bool)
    ensures
        r == (output@.kind == OutputKind::Delegation && output@.chain_id == delegation_id@),
{
    output.kind == OutputKind::Delegation && output.chain_id.same(delegation_id)
}

/// Checks if an output is a foundry with a given foundry ID.
pub fn is_foundry_with_id(output: &Output, foundry_id: &Id) -> (r: bool)
    ensures
        r == (output@.kind == OutputKind::Foundry && output@.chain_id == foundry_id@),
{
    output.kind == OutputKind::Foundry && output.chain_id.same(foundry_id)
}

/// Get the storage deposit return unlock condition, if not expired at `slot_index`.
pub fn sdruc_not_expired(output: &Output, slot_index: u32) -> (r: Option<StorageDepositReturn>)
    ensures
        match output@.sdruc_not_expired(slot_index) {
            Some((a, n)) => r matches Some(s) && s.return_address@ == a && s.amount == n,
            None => r is None,
        },
{
    match output.sdruc_not_expired_exec(slot_index) {
        Some((return_address, amount)) => Some(StorageDepositReturn { return_address, amount }),
        None => None,
    }
}

} // verus!
