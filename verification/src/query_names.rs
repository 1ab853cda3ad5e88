//! The names under which the indexer query parameters are sent: each parameter that is
//! set goes into the query string under the camel-case name of its own field.

use vstd::prelude::*;

use crate::bech32_address::{bech32_text, Bech32Address};
use crate::ledger::{Id, SlotIndex};
use crate::query::{
    address_pair, flag_pair, query_string, size_pair, slot_pair, text_pair, token_pair,
    AccountOutputQueryParameters, AnchorOutputQueryParameters, BasicOutputQueryParameters,
    DelegationOutputQueryParameters, FoundryOutputQueryParameters, NftOutputQueryParameters,
    OutputQueryParameters,
};
use crate::text::{decimal, hex_digits};

verus! {

/// With only `has_native_token` set, to `v`, the query string is `hasNativeToken=` followed by `v`.
pub proof fn lemma_output_has_native_token_name(v: bool)
    ensures
        query_string((OutputQueryParameters { has_native_token: Some(v), native_token: None, unlockable_by_address: None, page_size: None, cursor: None, created_before: None, created_after: None }).query_pairs()) == Some(
            "hasNativeToken"@ + seq!['='] + (if v { "true"@ } else { "false"@ }),
        ),
{
    reveal(address_pair);
    reveal(flag_pair);
    reveal(size_pair);
    reveal(slot_pair);
    reveal(text_pair);
    reveal(token_pair);
    let p = OutputQueryParameters { has_native_token: Some(v), native_token: None, unlockable_by_address: None, page_size: None, cursor: None, created_before: None, created_after: None };
    assert(p.query_pairs() =~= seq![("hasNativeToken"@, (if v { "true"@ } else { "false"@ }))]);
}

/// With only `native_token` set, to `v`, the query string is `nativeToken=` followed by `v`.
pub proof fn lemma_output_native_token_name(v: Id)
    ensures
        query_string((OutputQueryParameters { has_native_token: None, native_token: Some(v), unlockable_by_address: None, page_size: None, cursor: None, created_before: None, created_after: None }).query_pairs()) == Some(
            "nativeToken"@ + seq!['='] + "0x"@ + hex_digits(v@),
        ),
{
    reveal(address_pair);
    reveal(flag_pair);
    reveal(size_pair);
    reveal(slot_pair);
    reveal(text_pair);
    reveal(token_pair);
    let p = OutputQueryParameters { has_native_token: None, native_token: Some(v), unlockable_by_address: None, page_size: None, cursor: None, created_before: None, created_after: None };
    assert(p.query_pairs() =~= seq![("nativeToken"@, "0x"@ + hex_digits(v@))]);
}

/// With only `unlockable_by_address` set, to `v`, the query string is `unlockableByAddress=` followed by `v`.
pub proof fn lemma_output_unlockable_by_address_name(v: Bech32Address)
    ensures
        query_string((OutputQueryParameters { has_native_token: None, native_token: None, unlockable_by_address: Some(v), page_size: None, cursor: None, created_before: None, created_after: None }).query_pairs()) == Some(
            "unlockableByAddress"@ + seq!['='] + bech32_text(v@),
        ),
{
    reveal(address_pair);
    reveal(flag_pair);
    reveal(size_pair);
    reveal(slot_pair);
    reveal(text_pair);
    reveal(token_pair);
    let p = OutputQueryParameters { has_native_token: None, native_token: None, unlockable_by_address: Some(v), page_size: None, cursor: None, created_before: None, created_after: None };
    assert(p.query_pairs() =~= seq![("unlockableByAddress"@, bech32_text(v@))]);
}

/// With only `page_size` set, to `v`, the query string is `pageSize=` followed by `v`.
pub proof fn lemma_output_page_size_name(v: usize)
    ensures
        query_string((OutputQueryParameters { has_native_token: None, native_token: None, unlockable_by_address: None, page_size: Some(v), cursor: None, created_before: None, created_after: None }).query_pairs()) == Some(
            "pageSize"@ + seq!['='] + decimal(v as nat),
        ),
{
    reveal(address_pair);
    reveal(flag_pair);
    reveal(size_pair);
    reveal(slot_pair);
    reveal(text_pair);
    reveal(token_pair);
    let p = OutputQueryParameters { has_native_token: None, native_token: None, unlockable_by_address: None, page_size: Some(v), cursor: None, created_before: None, created_after: None };
    assert(p.query_pairs() =~= seq![("pageSize"@, decimal(v as nat))]);
}

/// With only `cursor` set, to `v`, the query string is `cursor=` followed by `v`.
pub proof fn lemma_output_cursor_name(v: String)
    ensures
        query_string((OutputQueryParameters { has_native_token: None, native_token: None, unlockable_by_address: None, page_size: None, cursor: Some(v), created_before: None, created_after: None }).query_pairs()) == Some(
            "cursor"@ + seq!['='] + v@,
        ),
{
    reveal(address_pair);
    reveal(flag_pair);
    reveal(size_pair);
    reveal(slot_pair);
    reveal(text_pair);
    reveal(token_pair);
    let p = OutputQueryParameters { has_native_token: None, native_token: None, unlockable_by_address: None, page_size: None, cursor: Some(v), created_before: None, created_after: None };
    assert(p.query_pairs() =~= seq![("cursor"@, v@)]);
}

/// With only `created_before` set, to `v`, the query string is `createdBefore=` followed by `v`.
pub proof fn lemma_output_created_before_name(v: SlotIndex)
    ensures
        query_string((OutputQueryParameters { has_native_token: None, native_token: None, unlockable_by_address: None, page_size: None, cursor: None, created_before: Some(v), created_after: None }).query_pairs()) == Some(
            "createdBefore"@ + seq!['='] + decimal(v.0 as nat),
        ),
{
    reveal(address_pair);
    reveal(flag_pair);
    reveal(size_pair);
    reveal(slot_pair);
    reveal(text_pair);
    reveal(token_pair);
    let p = OutputQueryParameters { has_native_token: None, native_token: None, unlockable_by_address: None, page_size: None, cursor: None, created_before: Some(v), created_after: None };
    assert(p.query_pairs() =~= seq![("createdBefore"@, decimal(v.0 as nat))]);
}

/// With only `created_after` set, to `v`, the query string is `createdAfter=` followed by `v`.
pub proof fn lemma_output_created_after_name(v: SlotIndex)
    ensures
        query_string((OutputQueryParameters { has_native_token: None, native_token: None, unlockable_by_address: None, page_size: None, cursor: None, created_before: None, created_after: Some(v) }).query_pairs()) == Some(
            "createdAfter"@ + seq!['='] + decimal(v.0 as nat),
        ),
{
    reveal(address_pair);
    reveal(flag_pair);
    reveal(size_pair);
    reveal(slot_pair);
    reveal(text_pair);
    reveal(token_pair);
    let p = OutputQueryParameters { has_native_token: None, native_token: None, unlockable_by_address: None, page_size: None, cursor: None, created_before: None, created_after: Some(v) };
    assert(p.query_pairs() =~= seq![("createdAfter"@, decimal(v.0 as nat))]);
}

/// With only `has_native_token` set, to `v`, the query string is `hasNativeToken=` followed by `v`.
pub proof fn lemma_basic_output_has_native_token_name(v: bool)
    ensures
        query_string((BasicOutputQueryParameters { has_native_token: Some(v), native_token: None, unlockable_by_address: None, address: None, has_storage_deposit_return: None, storage_deposit_return_address: None, has_expiration: None, expiration_return_address: None, expires_before: None, expires_after: None, has_timelock: None, timelocked_before: None, timelocked_after: None, sender: None, tag: None, page_size: None, cursor: None, created_before: None, created_after: None }).query_pairs()) == Some(
            "hasNativeToken"@ + seq!['='] + (if v { "true"@ } else { "false"@ }),
        ),
{
    reveal(address_pair);
    reveal(flag_pair);
    reveal(size_pair);
    reveal(slot_pair);
    reveal(text_pair);
    reveal(token_pair);
    let p = BasicOutputQueryParameters { has_native_token: Some(v), native_token: None, unlockable_by_address: None, address: None, has_storage_deposit_return: None, storage_deposit_return_address: None, has_expiration: None, expiration_return_address: None, expires_before: None, expires_after: None, has_timelock: None, timelocked_before: None, timelocked_after: None, sender: None, tag: None, page_size: None, cursor: None, created_before: None, created_after: None };
    assert(p.query_pairs() =~= seq![("hasNativeToken"@, (if v { "true"@ } else { "false"@ }))]);
}

/// With only `native_token` set, to `v`, the query string is `nativeToken=` followed by `v`.
pub proof fn lemma_basic_output_native_token_name(v: Id)
    ensures
        query_string((BasicOutputQueryParameters { has_native_token: None, native_token: Some(v), unlockable_by_address: None, address: None, has_storage_deposit_return: None, storage_deposit_return_address: None, has_expiration: None, expiration_return_address: None, expires_before: None, expires_after: None, has_timelock: None, timelocked_before: None, timelocked_after: None, sender: None, tag: None, page_size: None, cursor: None, created_before: None, created_after: None }).query_pairs()) == Some(
            "nativeToken"@ + seq!['='] + "0x"@ + hex_digits(v@),
        ),
{
    reveal(address_pair);
    reveal(flag_pair);
    reveal(size_pair);
    reveal(slot_pair);
    reveal(text_pair);
    reveal(token_pair);
    let p = BasicOutputQueryParameters { has_native_token: None, native_token: Some(v), unlockable_by_address: None, address: None, has_storage_deposit_return: None, storage_deposit_return_address: None, has_expiration: None, expiration_return_address: None, expires_before: None, expires_after: None, has_timelock: None, timelocked_before: None, timelocked_after: None, sender: None, tag: None, page_size: None, cursor: None, created_before: None, created_after: None };
    assert(p.query_pairs() =~= seq![("nativeToken"@, "0x"@ + hex_digits(v@))]);
}

/// With only `unlockable_by_address` set, to `v`, the query string is `unlockableByAddress=` followed by `v`.
pub proof fn lemma_basic_output_unlockable_by_address_name(v: Bech32Address)
    ensures
        query_string((BasicOutputQueryParameters { has_native_token: None, native_token: None, unlockable_by_address: Some(v), address: None, has_storage_deposit_return: None, storage_deposit_return_address: None, has_expiration: None, expiration_return_address: None, expires_before: None, expires_after: None, has_timelock: None, timelocked_before: None, timelocked_after: None, sender: None, tag: None, page_size: None, cursor: None, created_before: None, created_after: None }).query_pairs()) == Some(
            "unlockableByAddress"@ + seq!['='] + bech32_text(v@),
        ),
{
    reveal(address_pair);
    reveal(flag_pair);
    reveal(size_pair);
    reveal(slot_pair);
    reveal(text_pair);
    reveal(token_pair);
    let p = BasicOutputQueryParameters { has_native_token: None, native_token: None, unlockable_by_address: Some(v), address: None, has_storage_deposit_return: None, storage_deposit_return_address: None, has_expiration: None, expiration_return_address: None, expires_before: None, expires_after: None, has_timelock: None, timelocked_before: None, timelocked_after: None, sender: None, tag: None, page_size: None, cursor: None, created_before: None, created_after: None };
    assert(p.query_pairs() =~= seq![("unlockableByAddress"@, bech32_text(v@))]);
}

/// With only `address` set, to `v`, the query string is `address=` followed by `v`.
pub proof fn lemma_basic_output_address_name(v: Bech32Address)
    ensures
        query_string((BasicOutputQueryParameters { has_native_token: None, native_token: None, unlockable_by_address: None, address: Some(v), has_storage_deposit_return: None, storage_deposit_return_address: None, has_expiration: None, expiration_return_address: None, expires_before: None, expires_after: None, has_timelock: None, timelocked_before: None, timelocked_after: None, sender: None, tag: None, page_size: None, cursor: None, created_before: None, created_after: None }).query_pairs()) == Some(
            "address"@ + seq!['='] + bech32_text(v@),
        ),
{
    reveal(address_pair);
    reveal(flag_pair);
    reveal(size_pair);
    reveal(slot_pair);
    reveal(text_pair);
    reveal(token_pair);
    let p = BasicOutputQueryParameters { has_native_token: None, native_token: None, unlockable_by_address: None, address: Some(v), has_storage_deposit_return: None, storage_deposit_return_address: None, has_expiration: None, expiration_return_address: None, expires_before: None, expires_after: None, has_timelock: None, timelocked_before: None, timelocked_after: None, sender: None, tag: None, page_size: None, cursor: None, created_before: None, created_after: None };
    assert(p.query_pairs() =~= seq![("address"@, bech32_text(v@))]);
}

/// With only `has_storage_deposit_return` set, to `v`, the query string is `hasStorageDepositReturn=` followed by `v`.
pub proof fn lemma_basic_output_has_storage_deposit_return_name(v: bool)
    ensures
        query_string((BasicOutputQueryParameters { has_native_token: None, native_token: None, unlockable_by_address: None, address: None, has_storage_deposit_return: Some(v), storage_deposit_return_address: None, has_expiration: None, expiration_return_address: None, expires_before: None, expires_after: None, has_timelock: None, timelocked_before: None, timelocked_after: None, sender: None, tag: None, page_size: None, cursor: None, created_before: None, created_after: None }).query_pairs()) == Some(
            "hasStorageDepositReturn"@ + seq!['='] + (if v { "true"@ } else { "false"@ }),
        ),
{
    reveal(address_pair);
    reveal(flag_pair);
    reveal(size_pair);
    reveal(slot_pair);
    reveal(text_pair);
    reveal(token_pair);
    let p = BasicOutputQueryParameters { has_native_token: None, native_token: None, unlockable_by_address: None, address: None, has_storage_deposit_return: Some(v), storage_deposit_return_address: None, has_expiration: None, expiration_return_address: None, expires_before: None, expires_after: None, has_timelock: None, timelocked_before: None, timelocked_after: None, sender: None, tag: None, page_size: None, cursor: None, created_before: None, created_after: None };
    assert(p.query_pairs() =~= seq![("hasStorageDepositReturn"@, (if v { "true"@ } else { "false"@ }))]);
}

/// With only `storage_deposit_return_address` set, to `v`, the query string is `storageDepositReturnAddress=` followed by `v`.
pub proof fn lemma_basic_output_storage_deposit_return_address_name(v: Bech32Address)
    ensures
        query_string((BasicOutputQueryParameters { has_native_token: None, native_token: None, unlockable_by_address: None, address: None, has_storage_deposit_return: None, storage_deposit_return_address: Some(v), has_expiration: None, expiration_return_address: None, expires_before: None, expires_after: None, has_timelock: None, timelocked_before: None, timelocked_after: None, sender: None, tag: None, page_size: None, cursor: None, created_before: None, created_after: None }).query_pairs()) == Some(
            "storageDepositReturnAddress"@ + seq!['='] + bech32_text(v@),
        ),
{
    reveal(address_pair);
    reveal(flag_pair);
    reveal(size_pair);
    reveal(slot_pair);
    reveal(text_pair);
    reveal(token_pair);
    let p = BasicOutputQueryParameters { has_native_token: None, native_token: None, unlockable_by_address: None, address: None, has_storage_deposit_return: None, storage_deposit_return_address: Some(v), has_expiration: None, expiration_return_address: None, expires_before: None, expires_after: None, has_timelock: None, timelocked_before: None, timelocked_after: None, sender: None, tag: None, page_size: None, cursor: None, created_before: None, created_after: None };
    assert(p.query_pairs() =~= seq![("storageDepositReturnAddress"@, bech32_text(v@))]);
}

/// With only `has_expiration` set, to `v`, the query string is `hasExpiration=` followed by `v`.
pub proof fn lemma_basic_output_has_expiration_name(v: bool)
    ensures
        query_string((BasicOutputQueryParameters { has_native_token: None, native_token: None, unlockable_by_address: None, address: None, has_storage_deposit_return: None, storage_deposit_return_address: None, has_expiration: Some(v), expiration_return_address: None, expires_before: None, expires_after: None, has_timelock: None, timelocked_before: None, timelocked_after: None, sender: None, tag: None, page_size: None, cursor: None, created_before: None, created_after: None }).query_pairs()) == Some(
            "hasExpiration"@ + seq!['='] + (if v { "true"@ } else { "false"@ }),
        ),
{
    reveal(address_pair);
    reveal(flag_pair);
    reveal(size_pair);
    reveal(slot_pair);
    reveal(text_pair);
    reveal(token_pair);
    let p = BasicOutputQueryParameters { has_native_token: None, native_token: None, unlockable_by_address: None, address: None, has_storage_deposit_return: None, storage_deposit_return_address: None, has_expiration: Some(v), expiration_return_address: None, expires_before: None, expires_after: None, has_timelock: None, timelocked_before: None, timelocked_after: None, sender: None, tag: None, page_size: None, cursor: None, created_before: None, created_after: None };
    assert(p.query_pairs() =~= seq![("hasExpiration"@, (if v { "true"@ } else { "false"@ }))]);
}

/// With only `expiration_return_address` set, to `v`, the query string is `expirationReturnAddress=` followed by `v`.
pub proof fn lemma_basic_output_expiration_return_address_name(v: Bech32Address)
    ensures
        query_string((BasicOutputQueryParameters { has_native_token: None, native_token: None, unlockable_by_address: None, address: None, has_storage_deposit_return: None, storage_deposit_return_address: None, has_expiration: None, expiration_return_address: Some(v), expires_before: None, expires_after: None, has_timelock: None, timelocked_before: None, timelocked_after: None, sender: None, tag: None, page_size: None, cursor: None, created_before: None, created_after: None }).query_pairs()) == Some(
            "expirationReturnAddress"@ + seq!['='] + bech32_text(v@),
        ),
{
    reveal(address_pair);
    reveal(flag_pair);
    reveal(size_pair);
    reveal(slot_pair);
    reveal(text_pair);
    reveal(token_pair);
    let p = BasicOutputQueryParameters { has_native_token: None, native_token: None, unlockable_by_address: None, address: None, has_storage_deposit_return: None, storage_deposit_return_address: None, has_expiration: None, expiration_return_address: Some(v), expires_before: None, expires_after: None, has_timelock: None, timelocked_before: None, timelocked_after: None, sender: None, tag: None, page_size: None, cursor: None, created_before: None, created_after: None };
    assert(p.query_pairs() =~= seq![("expirationReturnAddress"@, bech32_text(v@))]);
}

/// With only `expires_before` set, to `v`, the query string is `expiresBefore=` followed by `v`.
pub proof fn lemma_basic_output_expires_before_name(v: SlotIndex)
    ensures
        query_string((BasicOutputQueryParameters { has_native_token: None, native_token: None, unlockable_by_address: None, address: None, has_storage_deposit_return: None, storage_deposit_return_address: None, has_expiration: None, expiration_return_address: None, expires_before: Some(v), expires_after: None, has_timelock: None, timelocked_before: None, timelocked_after: None, sender: None, tag: None, page_size: None, cursor: None, created_before: None, created_after: None }).query_pairs()) == Some(
            "expiresBefore"@ + seq!['='] + decimal(v.0 as nat),
        ),
{
    reveal(address_pair);
    reveal(flag_pair);
    reveal(size_pair);
    reveal(slot_pair);
    reveal(text_pair);
    reveal(token_pair);
    let p = BasicOutputQueryParameters { has_native_token: None, native_token: None, unlockable_by_address: None, address: None, has_storage_deposit_return: None, storage_deposit_return_address: None, has_expiration: None, expiration_return_address: None, expires_before: Some(v), expires_after: None, has_timelock: None, timelocked_before: None, timelocked_after: None, sender: None, tag: None, page_size: None, cursor: None, created_before: None, created_after: None };
    assert(p.query_pairs() =~= seq![("expiresBefore"@, decimal(v.0 as nat))]);
}

/// With only `expires_after` set, to `v`, the query string is `expiresAfter=` followed by `v`.
pub proof fn lemma_basic_output_expires_after_name(v: SlotIndex)
    ensures
        query_string((BasicOutputQueryParameters { has_native_token: None, native_token: None, unlockable_by_address: None, address: None, has_storage_deposit_return: None, storage_deposit_return_address: None, has_expiration: None, expiration_return_address: None, expires_before: None, expires_after: Some(v), has_timelock: None, timelocked_before: None, timelocked_after: None, sender: None, tag: None, page_size: None, cursor: None, created_before: None, created_after: None }).query_pairs()) == Some(
            "expiresAfter"@ + seq!['='] + decimal(v.0 as nat),
        ),
{
    reveal(address_pair);
    reveal(flag_pair);
    reveal(size_pair);
    reveal(slot_pair);
    reveal(text_pair);
    reveal(token_pair);
    let p = BasicOutputQueryParameters { has_native_token: None, native_token: None, unlockable_by_address: None, address: None, has_storage_deposit_return: None, storage_deposit_return_address: None, has_expiration: None, expiration_return_address: None, expires_before: None, expires_after: Some(v), has_timelock: None, timelocked_before: None, timelocked_after: None, sender: None, tag: None, page_size: None, cursor: None, created_before: None, created_after: None };
    assert(p.query_pairs() =~= seq![("expiresAfter"@, decimal(v.0 as nat))]);
}

/// With only `has_timelock` set, to `v`, the query string is `hasTimelock=` followed by `v`.
pub proof fn lemma_basic_output_has_timelock_name(v: bool)
    ensures
        query_string((BasicOutputQueryParameters { has_native_token: None, native_token: None, unlockable_by_address: None, address: None, has_storage_deposit_return: None, storage_deposit_return_address: None, has_expiration: None, expiration_return_address: None, expires_before: None, expires_after: None, has_timelock: Some(v), timelocked_before: None, timelocked_after: None, sender: None, tag: None, page_size: None, cursor: None, created_before: None, created_after: None }).query_pairs()) == Some(
            "hasTimelock"@ + seq!['='] + (if v { "true"@ } else { "false"@ }),
        ),
{
    reveal(address_pair);
    reveal(flag_pair);
    reveal(size_pair);
    reveal(slot_pair);
    reveal(text_pair);
    reveal(token_pair);
    let p = BasicOutputQueryParameters { has_native_token: None, native_token: None, unlockable_by_address: None, address: None, has_storage_deposit_return: None, storage_deposit_return_address: None, has_expiration: None, expiration_return_address: None, expires_before: None, expires_after: None, has_timelock: Some(v), timelocked_before: None, timelocked_after: None, sender: None, tag: None, page_size: None, cursor: None, created_before: None, created_after: None };
    assert(p.query_pairs() =~= seq![("hasTimelock"@, (if v { "true"@ } else { "false"@ }))]);
}

/// With only `timelocked_before` set, to `v`, the query string is `timelockedBefore=` followed by `v`.
pub proof fn lemma_basic_output_timelocked_before_name(v: SlotIndex)
    ensures
        query_string((BasicOutputQueryParameters { has_native_token: None, native_token: None, unlockable_by_address: None, address: None, has_storage_deposit_return: None, storage_deposit_return_address: None, has_expiration: None, expiration_return_address: None, expires_before: None, expires_after: None, has_timelock: None, timelocked_before: Some(v), timelocked_after: None, sender: None, tag: None, page_size: None, cursor: None, created_before: None, created_after: None }).query_pairs()) == Some(
            "timelockedBefore"@ + seq!['='] + decimal(v.0 as nat),
        ),
{
    reveal(address_pair);
    reveal(flag_pair);
    reveal(size_pair);
    reveal(slot_pair);
    reveal(text_pair);
    reveal(token_pair);
    let p = BasicOutputQueryParameters { has_native_token: None, native_token: None, unlockable_by_address: None, address: None, has_storage_deposit_return: None, storage_deposit_return_address: None, has_expiration: None, expiration_return_address: None, expires_before: None, expires_after: None, has_timelock: None, timelocked_before: Some(v), timelocked_after: None, sender: None, tag: None, page_size: None, cursor: None, created_before: None, created_after: None };
    assert(p.query_pairs() =~= seq![("timelockedBefore"@, decimal(v.0 as nat))]);
}

/// With only `timelocked_after` set, to `v`, the query string is `timelockedAfter=` followed by `v`.
pub proof fn lemma_basic_output_timelocked_after_name(v: SlotIndex)
    ensures
        query_string((BasicOutputQueryParameters { has_native_token: None, native_token: None, unlockable_by_address: None, address: None, has_storage_deposit_return: None, storage_deposit_return_address: None, has_expiration: None, expiration_return_address: None, expires_before: None, expires_after: None, has_timelock: None, timelocked_before: None, timelocked_after: Some(v), sender: None, tag: None, page_size: None, cursor: None, created_before: None, created_after: None }).query_pairs()) == Some(
            "timelockedAfter"@ + seq!['='] + decimal(v.0 as nat),
        ),
{
    reveal(address_pair);
    reveal(flag_pair);
    reveal(size_pair);
    reveal(slot_pair);
    reveal(text_pair);
    reveal(token_pair);
    let p = BasicOutputQueryParameters { has_native_token: None, native_token: None, unlockable_by_address: None, address: None, has_storage_deposit_return: None, storage_deposit_return_address: None, has_expiration: None, expiration_return_address: None, expires_before: None, expires_after: None, has_timelock: None, timelocked_before: None, timelocked_after: Some(v), sender: None, tag: None, page_size: None, cursor: None, created_before: None, created_after: None };
    assert(p.query_pairs() =~= seq![("timelockedAfter"@, decimal(v.0 as nat))]);
}

/// With only `sender` set, to `v`, the query string is `sender=` followed by `v`.
pub proof fn lemma_basic_output_sender_name(v: Bech32Address)
    ensures
        query_string((BasicOutputQueryParameters { has_native_token: None, native_token: None, unlockable_by_address: None, address: None, has_storage_deposit_return: None, storage_deposit_return_address: None, has_expiration: None, expiration_return_address: None, expires_before: None, expires_after: None, has_timelock: None, timelocked_before: None, timelocked_after: None, sender: Some(v), tag: None, page_size: None, cursor: None, created_before: None, created_after: None }).query_pairs()) == Some(
            "sender"@ + seq!['='] + bech32_text(v@),
        ),
{
    reveal(address_pair);
    reveal(flag_pair);
    reveal(size_pair);
    reveal(slot_pair);
    reveal(text_pair);
    reveal(token_pair);
    let p = BasicOutputQueryParameters { has_native_token: None, native_token: None, unlockable_by_address: None, address: None, has_storage_deposit_return: None, storage_deposit_return_address: None, has_expiration: None, expiration_return_address: None, expires_before: None, expires_after: None, has_timelock: None, timelocked_before: None, timelocked_after: None, sender: Some(v), tag: None, page_size: None, cursor: None, created_before: None, created_after: None };
    assert(p.query_pairs() =~= seq![("sender"@, bech32_text(v@))]);
}

/// With only `tag` set, to `v`, the query string is `tag=` followed by `v`.
pub proof fn lemma_basic_output_tag_name(v: String)
    ensures
        query_string((BasicOutputQueryParameters { has_native_token: None, native_token: None, unlockable_by_address: None, address: None, has_storage_deposit_return: None, storage_deposit_return_address: None, has_expiration: None, expiration_return_address: None, expires_before: None, expires_after: None, has_timelock: None, timelocked_before: None, timelocked_after: None, sender: None, tag: Some(v), page_size: None, cursor: None, created_before: None, created_after: None }).query_pairs()) == Some(
            "tag"@ + seq!['='] + v@,
        ),
{
    reveal(address_pair);
    reveal(flag_pair);
    reveal(size_pair);
    reveal(slot_pair);
    reveal(text_pair);
    reveal(token_pair);
    let p = BasicOutputQueryParameters { has_native_token: None, native_token: None, unlockable_by_address: None, address: None, has_storage_deposit_return: None, storage_deposit_return_address: None, has_expiration: None, expiration_return_address: None, expires_before: None, expires_after: None, has_timelock: None, timelocked_before: None, timelocked_after: None, sender: None, tag: Some(v), page_size: None, cursor: None, created_before: None, created_after: None };
    assert(p.query_pairs() =~= seq![("tag"@, v@)]);
}

/// With only `page_size` set, to `v`, the query string is `pageSize=` followed by `v`.
pub proof fn lemma_basic_output_page_size_name(v: usize)
    ensures
        query_string((BasicOutputQueryParameters { has_native_token: None, native_token: None, unlockable_by_address: None, address: None, has_storage_deposit_return: None, storage_deposit_return_address: None, has_expiration: None, expiration_return_address: None, expires_before: None, expires_after: None, has_timelock: None, timelocked_before: None, timelocked_after: None, sender: None, tag: None, page_size: Some(v), cursor: None, created_before: None, created_after: None }).query_pairs()) == Some(
            "pageSize"@ + seq!['='] + decimal(v as nat),
        ),
{
    reveal(address_pair);
    reveal(flag_pair);
    reveal(size_pair);
    reveal(slot_pair);
    reveal(text_pair);
    reveal(token_pair);
    let p = BasicOutputQueryParameters { has_native_token: None, native_token: None, unlockable_by_address: None, address: None, has_storage_deposit_return: None, storage_deposit_return_address: None, has_expiration: None, expiration_return_address: None, expires_before: None, expires_after: None, has_timelock: None, timelocked_before: None, timelocked_after: None, sender: None, tag: None, page_size: Some(v), cursor: None, created_before: None, created_after: None };
    assert(p.query_pairs() =~= seq![("pageSize"@, decimal(v as nat))]);
}

/// With only `cursor` set, to `v`, the query string is `cursor=` followed by `v`.
pub proof fn lemma_basic_output_cursor_name(v: String)
    ensures
        query_string((BasicOutputQueryParameters { has_native_token: None, native_token: None, unlockable_by_address: None, address: None, has_storage_deposit_return: None, storage_deposit_return_address: None, has_expiration: None, expiration_return_address: None, expires_before: None, expires_after: None, has_timelock: None, timelocked_before: None, timelocked_after: None, sender: None, tag: None, page_size: None, cursor: Some(v), created_before: None, created_after: None }).query_pairs()) == Some(
            "cursor"@ + seq!['='] + v@,
        ),
{
    reveal(address_pair);
    reveal(flag_pair);
    reveal(size_pair);
    reveal(slot_pair);
    reveal(text_pair);
    reveal(token_pair);
    let p = BasicOutputQueryParameters { has_native_token: None, native_token: None, unlockable_by_address: None, address: None, has_storage_deposit_return: None, storage_deposit_return_address: None, has_expiration: None, expiration_return_address: None, expires_before: None, expires_after: None, has_timelock: None, timelocked_before: None, timelocked_after: None, sender: None, tag: None, page_size: None, cursor: Some(v), created_before: None, created_after: None };
    assert(p.query_pairs() =~= seq![("cursor"@, v@)]);
}

/// With only `created_before` set, to `v`, the query string is `createdBefore=` followed by `v`.
pub proof fn lemma_basic_output_created_before_name(v: SlotIndex)
    ensures
        query_string((BasicOutputQueryParameters { has_native_token: None, native_token: None, unlockable_by_address: None, address: None, has_storage_deposit_return: None, storage_deposit_return_address: None, has_expiration: None, expiration_return_address: None, expires_before: None, expires_after: None, has_timelock: None, timelocked_before: None, timelocked_after: None, sender: None, tag: None, page_size: None, cursor: None, created_before: Some(v), created_after: None }).query_pairs()) == Some(
            "createdBefore"@ + seq!['='] + decimal(v.0 as nat),
        ),
{
    reveal(address_pair);
    reveal(flag_pair);
    reveal(size_pair);
    reveal(slot_pair);
    reveal(text_pair);
    reveal(token_pair);
    let p = BasicOutputQueryParameters { has_native_token: None, native_token: None, unlockable_by_address: None, address: None, has_storage_deposit_return: None, storage_deposit_return_address: None, has_expiration: None, expiration_return_address: None, expires_before: None, expires_after: None, has_timelock: None, timelocked_before: None, timelocked_after: None, sender: None, tag: None, page_size: None, cursor: None, created_before: Some(v), created_after: None };
    assert(p.query_pairs() =~= seq![("createdBefore"@, decimal(v.0 as nat))]);
}

/// With only `created_after` set, to `v`, the query string is `createdAfter=` followed by `v`.
pub proof fn lemma_basic_output_created_after_name(v: SlotIndex)
    ensures
        query_string((BasicOutputQueryParameters { has_native_token: None, native_token: None, unlockable_by_address: None, address: None, has_storage_deposit_return: None, storage_deposit_return_address: None, has_expiration: None, expiration_return_address: None, expires_before: None, expires_after: None, has_timelock: None, timelocked_before: None, timelocked_after: None, sender: None, tag: None, page_size: None, cursor: None, created_before: None, created_after: Some(v) }).query_pairs()) == Some(
            "createdAfter"@ + seq!['='] + decimal(v.0 as nat),
        ),
{
    reveal(address_pair);
    reveal(flag_pair);
    reveal(size_pair);
    reveal(slot_pair);
    reveal(text_pair);
    reveal(token_pair);
    let p = BasicOutputQueryParameters { has_native_token: None, native_token: None, unlockable_by_address: None, address: None, has_storage_deposit_return: None, storage_deposit_return_address: None, has_expiration: None, expiration_return_address: None, expires_before: None, expires_after: None, has_timelock: None, timelocked_before: None, timelocked_after: None, sender: None, tag: None, page_size: None, cursor: None, created_before: None, created_after: Some(v) };
    assert(p.query_pairs() =~= seq![("createdAfter"@, decimal(v.0 as nat))]);
}

/// With only `address` set, to `v`, the query string is `address=` followed by `v`.
pub proof fn lemma_account_output_address_name(v: Bech32Address)
    ensures
        query_string((AccountOutputQueryParameters { address: Some(v), issuer: None, sender: None, page_size: None, cursor: None, created_before: None, created_after: None }).query_pairs()) == Some(
            "address"@ + seq!['='] + bech32_text(v@),
        ),
{
    reveal(address_pair);
    reveal(flag_pair);
    reveal(size_pair);
    reveal(slot_pair);
    reveal(text_pair);
    reveal(token_pair);
    let p = AccountOutputQueryParameters { address: Some(v), issuer: None, sender: None, page_size: None, cursor: None, created_before: None, created_after: None };
    assert(p.query_pairs() =~= seq![("address"@, bech32_text(v@))]);
}

/// With only `issuer` set, to `v`, the query string is `issuer=` followed by `v`.
pub proof fn lemma_account_output_issuer_name(v: Bech32Address)
    ensures
        query_string((AccountOutputQueryParameters { address: None, issuer: Some(v), sender: None, page_size: None, cursor: None, created_before: None, created_after: None }).query_pairs()) == Some(
            "issuer"@ + seq!['='] + bech32_text(v@),
        ),
{
    reveal(address_pair);
    reveal(flag_pair);
    reveal(size_pair);
    reveal(slot_pair);
    reveal(text_pair);
    reveal(token_pair);
    let p = AccountOutputQueryParameters { address: None, issuer: Some(v), sender: None, page_size: None, cursor: None, created_before: None, created_after: None };
    assert(p.query_pairs() =~= seq![("issuer"@, bech32_text(v@))]);
}

/// With only `sender` set, to `v`, the query string is `sender=` followed by `v`.
pub proof fn lemma_account_output_sender_name(v: Bech32Address)
    ensures
        query_string((AccountOutputQueryParameters { address: None, issuer: None, sender: Some(v), page_size: None, cursor: None, created_before: None, created_after: None }).query_pairs()) == Some(
            "sender"@ + seq!['='] + bech32_text(v@),
        ),
{
    reveal(address_pair);
    reveal(flag_pair);
    reveal(size_pair);
    reveal(slot_pair);
    reveal(text_pair);
    reveal(token_pair);
    let p = AccountOutputQueryParameters { address: None, issuer: None, sender: Some(v), page_size: None, cursor: None, created_before: None, created_after: None };
    assert(p.query_pairs() =~= seq![("sender"@, bech32_text(v@))]);
}

/// With only `page_size` set, to `v`, the query string is `pageSize=` followed by `v`.
pub proof fn lemma_account_output_page_size_name(v: usize)
    ensures
        query_string((AccountOutputQueryParameters { address: None, issuer: None, sender: None, page_size: Some(v), cursor: None, created_before: None, created_after: None }).query_pairs()) == Some(
            "pageSize"@ + seq!['='] + decimal(v as nat),
        ),
{
    reveal(address_pair);
    reveal(flag_pair);
    reveal(size_pair);
    reveal(slot_pair);
    reveal(text_pair);
    reveal(token_pair);
    let p = AccountOutputQueryParameters { address: None, issuer: None, sender: None, page_size: Some(v), cursor: None, created_before: None, created_after: None };
    assert(p.query_pairs() =~= seq![("pageSize"@, decimal(v as nat))]);
}

/// With only `cursor` set, to `v`, the query string is `cursor=` followed by `v`.
pub proof fn lemma_account_output_cursor_name(v: String)
    ensures
        query_string((AccountOutputQueryParameters { address: None, issuer: None, sender: None, page_size: None, cursor: Some(v), created_before: None, created_after: None }).query_pairs()) == Some(
            "cursor"@ + seq!['='] + v@,
        ),
{
    reveal(address_pair);
    reveal(flag_pair);
    reveal(size_pair);
    reveal(slot_pair);
    reveal(text_pair);
    reveal(token_pair);
    let p = AccountOutputQueryParameters { address: None, issuer: None, sender: None, page_size: None, cursor: Some(v), created_before: None, created_after: None };
    assert(p.query_pairs() =~= seq![("cursor"@, v@)]);
}

/// With only `created_before` set, to `v`, the query string is `createdBefore=` followed by `v`.
pub proof fn lemma_account_output_created_before_name(v: SlotIndex)
    ensures
        query_string((AccountOutputQueryParameters { address: None, issuer: None, sender: None, page_size: None, cursor: None, created_before: Some(v), created_after: None }).query_pairs()) == Some(
            "createdBefore"@ + seq!['='] + decimal(v.0 as nat),
        ),
{
    reveal(address_pair);
    reveal(flag_pair);
    reveal(size_pair);
    reveal(slot_pair);
    reveal(text_pair);
    reveal(token_pair);
    let p = AccountOutputQueryParameters { address: None, issuer: None, sender: None, page_size: None, cursor: None, created_before: Some(v), created_after: None };
    assert(p.query_pairs() =~= seq![("createdBefore"@, decimal(v.0 as nat))]);
}

/// With only `created_after` set, to `v`, the query string is `createdAfter=` followed by `v`.
pub proof fn lemma_account_output_created_after_name(v: SlotIndex)
    ensures
        query_string((AccountOutputQueryParameters { address: None, issuer: None, sender: None, page_size: None, cursor: None, created_before: None, created_after: Some(v) }).query_pairs()) == Some(
            "createdAfter"@ + seq!['='] + decimal(v.0 as nat),
        ),
{
    reveal(address_pair);
    reveal(flag_pair);
    reveal(size_pair);
    reveal(slot_pair);
    reveal(text_pair);
    reveal(token_pair);
    let p = AccountOutputQueryParameters { address: None, issuer: None, sender: None, page_size: None, cursor: None, created_before: None, created_after: Some(v) };
    assert(p.query_pairs() =~= seq![("createdAfter"@, decimal(v.0 as nat))]);
}

/// With only `unlockable_by_address` set, to `v`, the query string is `unlockableByAddress=` followed by `v`.
pub proof fn lemma_anchor_output_unlockable_by_address_name(v: Bech32Address)
    ensures
        query_string((AnchorOutputQueryParameters { unlockable_by_address: Some(v), state_controller: None, governor: None, issuer: None, sender: None, page_size: None, cursor: None, created_before: None, created_after: None }).query_pairs()) == Some(
            "unlockableByAddress"@ + seq!['='] + bech32_text(v@),
        ),
{
    reveal(address_pair);
    reveal(flag_pair);
    reveal(size_pair);
    reveal(slot_pair);
    reveal(text_pair);
    reveal(token_pair);
    let p = AnchorOutputQueryParameters { unlockable_by_address: Some(v), state_controller: None, governor: None, issuer: None, sender: None, page_size: None, cursor: None, created_before: None, created_after: None };
    assert(p.query_pairs() =~= seq![("unlockableByAddress"@, bech32_text(v@))]);
}

/// With only `state_controller` set, to `v`, the query string is `stateController=` followed by `v`.
pub proof fn lemma_anchor_output_state_controller_name(v: Bech32Address)
    ensures
        query_string((AnchorOutputQueryParameters { unlockable_by_address: None, state_controller: Some(v), governor: None, issuer: None, sender: None, page_size: None, cursor: None, created_before: None, created_after: None }).query_pairs()) == Some(
            "stateController"@ + seq!['='] + bech32_text(v@),
        ),
{
    reveal(address_pair);
    reveal(flag_pair);
    reveal(size_pair);
    reveal(slot_pair);
    reveal(text_pair);
    reveal(token_pair);
    let p = AnchorOutputQueryParameters { unlockable_by_address: None, state_controller: Some(v), governor: None, issuer: None, sender: None, page_size: None, cursor: None, created_before: None, created_after: None };
    assert(p.query_pairs() =~= seq![("stateController"@, bech32_text(v@))]);
}

/// With only `governor` set, to `v`, the query string is `governor=` followed by `v`.
pub proof fn lemma_anchor_output_governor_name(v: Bech32Address)
    ensures
        query_string((AnchorOutputQueryParameters { unlockable_by_address: None, state_controller: None, governor: Some(v), issuer: None, sender: None, page_size: None, cursor: None, created_before: None, created_after: None }).query_pairs()) == Some(
            "governor"@ + seq!['='] + bech32_text(v@),
        ),
{
    reveal(address_pair);
    reveal(flag_pair);
    reveal(size_pair);
    reveal(slot_pair);
    reveal(text_pair);
    reveal(token_pair);
    let p = AnchorOutputQueryParameters { unlockable_by_address: None, state_controller: None, governor: Some(v), issuer: None, sender: None, page_size: None, cursor: None, created_before: None, created_after: None };
    assert(p.query_pairs() =~= seq![("governor"@, bech32_text(v@))]);
}

/// With only `issuer` set, to `v`, the query string is `issuer=` followed by `v`.
pub proof fn lemma_anchor_output_issuer_name(v: Bech32Address)
    ensures
        query_string((AnchorOutputQueryParameters { unlockable_by_address: None, state_controller: None, governor: None, issuer: Some(v), sender: None, page_size: None, cursor: None, created_before: None, created_after: None }).query_pairs()) == Some(
            "issuer"@ + seq!['='] + bech32_text(v@),
        ),
{
    reveal(address_pair);
    reveal(flag_pair);
    reveal(size_pair);
    reveal(slot_pair);
    reveal(text_pair);
    reveal(token_pair);
    let p = AnchorOutputQueryParameters { unlockable_by_address: None, state_controller: None, governor: None, issuer: Some(v), sender: None, page_size: None, cursor: None, created_before: None, created_after: None };
    assert(p.query_pairs() =~= seq![("issuer"@, bech32_text(v@))]);
}

/// With only `sender` set, to `v`, the query string is `sender=` followed by `v`.
pub proof fn lemma_anchor_output_sender_name(v: Bech32Address)
    ensures
        query_string((AnchorOutputQueryParameters { unlockable_by_address: None, state_controller: None, governor: None, issuer: None, sender: Some(v), page_size: None, cursor: None, created_before: None, created_after: None }).query_pairs()) == Some(
            "sender"@ + seq!['='] + bech32_text(v@),
        ),
{
    reveal(address_pair);
    reveal(flag_pair);
    reveal(size_pair);
    reveal(slot_pair);
    reveal(text_pair);
    reveal(token_pair);
    let p = AnchorOutputQueryParameters { unlockable_by_address: None, state_controller: None, governor: None, issuer: None, sender: Some(v), page_size: None, cursor: None, created_before: None, created_after: None };
    assert(p.query_pairs() =~= seq![("sender"@, bech32_text(v@))]);
}

/// With only `page_size` set, to `v`, the query string is `pageSize=` followed by `v`.
pub proof fn lemma_anchor_output_page_size_name(v: usize)
    ensures
        query_string((AnchorOutputQueryParameters { unlockable_by_address: None, state_controller: None, governor: None, issuer: None, sender: None, page_size: Some(v), cursor: None, created_before: None, created_after: None }).query_pairs()) == Some(
            "pageSize"@ + seq!['='] + decimal(v as nat),
        ),
{
    reveal(address_pair);
    reveal(flag_pair);
    reveal(size_pair);
    reveal(slot_pair);
    reveal(text_pair);
    reveal(token_pair);
    let p = AnchorOutputQueryParameters { unlockable_by_address: None, state_controller: None, governor: None, issuer: None, sender: None, page_size: Some(v), cursor: None, created_before: None, created_after: None };
    assert(p.query_pairs() =~= seq![("pageSize"@, decimal(v as nat))]);
}

/// With only `cursor` set, to `v`, the query string is `cursor=` followed by `v`.
pub proof fn lemma_anchor_output_cursor_name(v: String)
    ensures
        query_string((AnchorOutputQueryParameters { unlockable_by_address: None, state_controller: None, governor: None, issuer: None, sender: None, page_size: None, cursor: Some(v), created_before: None, created_after: None }).query_pairs()) == Some(
            "cursor"@ + seq!['='] + v@,
        ),
{
    reveal(address_pair);
    reveal(flag_pair);
    reveal(size_pair);
    reveal(slot_pair);
    reveal(text_pair);
    reveal(token_pair);
    let p = AnchorOutputQueryParameters { unlockable_by_address: None, state_controller: None, governor: None, issuer: None, sender: None, page_size: None, cursor: Some(v), created_before: None, created_after: None };
    assert(p.query_pairs() =~= seq![("cursor"@, v@)]);
}

/// With only `created_before` set, to `v`, the query string is `createdBefore=` followed by `v`.
pub proof fn lemma_anchor_output_created_before_name(v: SlotIndex)
    ensures
        query_string((AnchorOutputQueryParameters { unlockable_by_address: None, state_controller: None, governor: None, issuer: None, sender: None, page_size: None, cursor: None, created_before: Some(v), created_after: None }).query_pairs()) == Some(
            "createdBefore"@ + seq!['='] + decimal(v.0 as nat),
        ),
{
    reveal(address_pair);
    reveal(flag_pair);
    reveal(size_pair);
    reveal(slot_pair);
    reveal(text_pair);
    reveal(token_pair);
    let p = AnchorOutputQueryParameters { unlockable_by_address: None, state_controller: None, governor: None, issuer: None, sender: None, page_size: None, cursor: None, created_before: Some(v), created_after: None };
    assert(p.query_pairs() =~= seq![("createdBefore"@, decimal(v.0 as nat))]);
}

/// With only `created_after` set, to `v`, the query string is `createdAfter=` followed by `v`.
pub proof fn lemma_anchor_output_created_after_name(v: SlotIndex)
    ensures
        query_string((AnchorOutputQueryParameters { unlockable_by_address: None, state_controller: None, governor: None, issuer: None, sender: None, page_size: None, cursor: None, created_before: None, created_after: Some(v) }).query_pairs()) == Some(
            "createdAfter"@ + seq!['='] + decimal(v.0 as nat),
        ),
{
    reveal(address_pair);
    reveal(flag_pair);
    reveal(size_pair);
    reveal(slot_pair);
    reveal(text_pair);
    reveal(token_pair);
    let p = AnchorOutputQueryParameters { unlockable_by_address: None, state_controller: None, governor: None, issuer: None, sender: None, page_size: None, cursor: None, created_before: None, created_after: Some(v) };
    assert(p.query_pairs() =~= seq![("createdAfter"@, decimal(v.0 as nat))]);
}

/// With only `address` set, to `v`, the query string is `address=` followed by `v`.
pub proof fn lemma_delegation_output_address_name(v: Bech32Address)
    ensures
        query_string((DelegationOutputQueryParameters { address: Some(v), validator: None, page_size: None, cursor: None, created_before: None, created_after: None }).query_pairs()) == Some(
            "address"@ + seq!['='] + bech32_text(v@),
        ),
{
    reveal(address_pair);
    reveal(flag_pair);
    reveal(size_pair);
    reveal(slot_pair);
    reveal(text_pair);
    reveal(token_pair);
    let p = DelegationOutputQueryParameters { address: Some(v), validator: None, page_size: None, cursor: None, created_before: None, created_after: None };
    assert(p.query_pairs() =~= seq![("address"@, bech32_text(v@))]);
}

/// With only `validator` set, to `v`, the query string is `validator=` followed by `v`.
pub proof fn lemma_delegation_output_validator_name(v: Bech32Address)
    ensures
        query_string((DelegationOutputQueryParameters { address: None, validator: Some(v), page_size: None, cursor: None, created_before: None, created_after: None }).query_pairs()) == Some(
            "validator"@ + seq!['='] + bech32_text(v@),
        ),
{
    reveal(address_pair);
    reveal(flag_pair);
    reveal(size_pair);
    reveal(slot_pair);
    reveal(text_pair);
    reveal(token_pair);
    let p = DelegationOutputQueryParameters { address: None, validator: Some(v), page_size: None, cursor: None, created_before: None, created_after: None };
    assert(p.query_pairs() =~= seq![("validator"@, bech32_text(v@))]);
}

/// With only `page_size` set, to `v`, the query string is `pageSize=` followed by `v`.
pub proof fn lemma_delegation_output_page_size_name(v: usize)
    ensures
        query_string((DelegationOutputQueryParameters { address: None, validator: None, page_size: Some(v), cursor: None, created_before: None, created_after: None }).query_pairs()) == Some(
            "pageSize"@ + seq!['='] + decimal(v as nat),
        ),
{
    reveal(address_pair);
    reveal(flag_pair);
    reveal(size_pair);
    reveal(slot_pair);
    reveal(text_pair);
    reveal(token_pair);
    let p = DelegationOutputQueryParameters { address: None, validator: None, page_size: Some(v), cursor: None, created_before: None, created_after: None };
    assert(p.query_pairs() =~= seq![("pageSize"@, decimal(v as nat))]);
}

/// With only `cursor` set, to `v`, the query string is `cursor=` followed by `v`.
pub proof fn lemma_delegation_output_cursor_name(v: String)
    ensures
        query_string((DelegationOutputQueryParameters { address: None, validator: None, page_size: None, cursor: Some(v), created_before: None, created_after: None }).query_pairs()) == Some(
            "cursor"@ + seq!['='] + v@,
        ),
{
    reveal(address_pair);
    reveal(flag_pair);
    reveal(size_pair);
    reveal(slot_pair);
    reveal(text_pair);
    reveal(token_pair);
    let p = DelegationOutputQueryParameters { address: None, validator: None, page_size: None, cursor: Some(v), created_before: None, created_after: None };
    assert(p.query_pairs() =~= seq![("cursor"@, v@)]);
}

/// With only `created_before` set, to `v`, the query string is `createdBefore=` followed by `v`.
pub proof fn lemma_delegation_output_created_before_name(v: SlotIndex)
    ensures
        query_string((DelegationOutputQueryParameters { address: None, validator: None, page_size: None, cursor: None, created_before: Some(v), created_after: None }).query_pairs()) == Some(
            "createdBefore"@ + seq!['='] + decimal(v.0 as nat),
        ),
{
    reveal(address_pair);
    reveal(flag_pair);
    reveal(size_pair);
    reveal(slot_pair);
    reveal(text_pair);
    reveal(token_pair);
    let p = DelegationOutputQueryParameters { address: None, validator: None, page_size: None, cursor: None, created_before: Some(v), created_after: None };
    assert(p.query_pairs() =~= seq![("createdBefore"@, decimal(v.0 as nat))]);
}

/// With only `created_after` set, to `v`, the query string is `createdAfter=` followed by `v`.
pub proof fn lemma_delegation_output_created_after_name(v: SlotIndex)
    ensures
        query_string((DelegationOutputQueryParameters { address: None, validator: None, page_size: None, cursor: None, created_before: None, created_after: Some(v) }).query_pairs()) == Some(
            "createdAfter"@ + seq!['='] + decimal(v.0 as nat),
        ),
{
    reveal(address_pair);
    reveal(flag_pair);
    reveal(size_pair);
    reveal(slot_pair);
    reveal(text_pair);
    reveal(token_pair);
    let p = DelegationOutputQueryParameters { address: None, validator: None, page_size: None, cursor: None, created_before: None, created_after: Some(v) };
    assert(p.query_pairs() =~= seq![("createdAfter"@, decimal(v.0 as nat))]);
}

/// With only `has_native_token` set, to `v`, the query string is `hasNativeToken=` followed by `v`.
pub proof fn lemma_foundry_output_has_native_token_name(v: bool)
    ensures
        query_string((FoundryOutputQueryParameters { has_native_token: Some(v), native_token: None, account: None, page_size: None, cursor: None, created_before: None, created_after: None }).query_pairs()) == Some(
            "hasNativeToken"@ + seq!['='] + (if v { "true"@ } else { "false"@ }),
        ),
{
    reveal(address_pair);
    reveal(flag_pair);
    reveal(size_pair);
    reveal(slot_pair);
    reveal(text_pair);
    reveal(token_pair);
    let p = FoundryOutputQueryParameters { has_native_token: Some(v), native_token: None, account: None, page_size: None, cursor: None, created_before: None, created_after: None };
    assert(p.query_pairs() =~= seq![("hasNativeToken"@, (if v { "true"@ } else { "false"@ }))]);
}

/// With only `native_token` set, to `v`, the query string is `nativeToken=` followed by `v`.
pub proof fn lemma_foundry_output_native_token_name(v: Id)
    ensures
        query_string((FoundryOutputQueryParameters { has_native_token: None, native_token: Some(v), account: None, page_size: None, cursor: None, created_before: None, created_after: None }).query_pairs()) == Some(
            "nativeToken"@ + seq!['='] + "0x"@ + hex_digits(v@),
        ),
{
    reveal(address_pair);
    reveal(flag_pair);
    reveal(size_pair);
    reveal(slot_pair);
    reveal(text_pair);
    reveal(token_pair);
    let p = FoundryOutputQueryParameters { has_native_token: None, native_token: Some(v), account: None, page_size: None, cursor: None, created_before: None, created_after: None };
    assert(p.query_pairs() =~= seq![("nativeToken"@, "0x"@ + hex_digits(v@))]);
}

/// With only `account` set, to `v`, the query string is `account=` followed by `v`.
pub proof fn lemma_foundry_output_account_name(v: Bech32Address)
    ensures
        query_string((FoundryOutputQueryParameters { has_native_token: None, native_token: None, account: Some(v), page_size: None, cursor: None, created_before: None, created_after: None }).query_pairs()) == Some(
            "account"@ + seq!['='] + bech32_text(v@),
        ),
{
    reveal(address_pair);
    reveal(flag_pair);
    reveal(size_pair);
    reveal(slot_pair);
    reveal(text_pair);
    reveal(token_pair);
    let p = FoundryOutputQueryParameters { has_native_token: None, native_token: None, account: Some(v), page_size: None, cursor: None, created_before: None, created_after: None };
    assert(p.query_pairs() =~= seq![("account"@, bech32_text(v@))]);
}

/// With only `page_size` set, to `v`, the query string is `pageSize=` followed by `v`.
pub proof fn lemma_foundry_output_page_size_name(v: usize)
    ensures
        query_string((FoundryOutputQueryParameters { has_native_token: None, native_token: None, account: None, page_size: Some(v), cursor: None, created_before: None, created_after: None }).query_pairs()) == Some(
            "pageSize"@ + seq!['='] + decimal(v as nat),
        ),
{
    reveal(address_pair);
    reveal(flag_pair);
    reveal(size_pair);
    reveal(slot_pair);
    reveal(text_pair);
    reveal(token_pair);
    let p = FoundryOutputQueryParameters { has_native_token: None, native_token: None, account: None, page_size: Some(v), cursor: None, created_before: None, created_after: None };
    assert(p.query_pairs() =~= seq![("pageSize"@, decimal(v as nat))]);
}

/// With only `cursor` set, to `v`, the query string is `cursor=` followed by `v`.
pub proof fn lemma_foundry_output_cursor_name(v: String)
    ensures
        query_string((FoundryOutputQueryParameters { has_native_token: None, native_token: None, account: None, page_size: None, cursor: Some(v), created_before: None, created_after: None }).query_pairs()) == Some(
            "cursor"@ + seq!['='] + v@,
        ),
{
    reveal(address_pair);
    reveal(flag_pair);
    reveal(size_pair);
    reveal(slot_pair);
    reveal(text_pair);
    reveal(token_pair);
    let p = FoundryOutputQueryParameters { has_native_token: None, native_token: None, account: None, page_size: None, cursor: Some(v), created_before: None, created_after: None };
    assert(p.query_pairs() =~= seq![("cursor"@, v@)]);
}

/// With only `created_before` set, to `v`, the query string is `createdBefore=` followed by `v`.
pub proof fn lemma_foundry_output_created_before_name(v: SlotIndex)
    ensures
        query_string((FoundryOutputQueryParameters { has_native_token: None, native_token: None, account: None, page_size: None, cursor: None, created_before: Some(v), created_after: None }).query_pairs()) == Some(
            "createdBefore"@ + seq!['='] + decimal(v.0 as nat),
        ),
{
    reveal(address_pair);
    reveal(flag_pair);
    reveal(size_pair);
    reveal(slot_pair);
    reveal(text_pair);
    reveal(token_pair);
    let p = FoundryOutputQueryParameters { has_native_token: None, native_token: None, account: None, page_size: None, cursor: None, created_before: Some(v), created_after: None };
    assert(p.query_pairs() =~= seq![("createdBefore"@, decimal(v.0 as nat))]);
}

/// With only `created_after` set, to `v`, the query string is `createdAfter=` followed by `v`.
pub proof fn lemma_foundry_output_created_after_name(v: SlotIndex)
    ensures
        query_string((FoundryOutputQueryParameters { has_native_token: None, native_token: None, account: None, page_size: None, cursor: None, created_before: None, created_after: Some(v) }).query_pairs()) == Some(
            "createdAfter"@ + seq!['='] + decimal(v.0 as nat),
        ),
{
    reveal(address_pair);
    reveal(flag_pair);
    reveal(size_pair);
    reveal(slot_pair);
    reveal(text_pair);
    reveal(token_pair);
    let p = FoundryOutputQueryParameters { has_native_token: None, native_token: None, account: None, page_size: None, cursor: None, created_before: None, created_after: Some(v) };
    assert(p.query_pairs() =~= seq![("createdAfter"@, decimal(v.0 as nat))]);
}

/// With only `unlockable_by_address` set, to `v`, the query string is `unlockableByAddress=` followed by `v`.
pub proof fn lemma_nft_output_unlockable_by_address_name(v: Bech32Address)
    ensures
        query_string((NftOutputQueryParameters { unlockable_by_address: Some(v), address: None, has_storage_deposit_return: None, storage_deposit_return_address: None, has_expiration: None, expiration_return_address: None, expires_before: None, expires_after: None, has_timelock: None, timelocked_before: None, timelocked_after: None, issuer: None, sender: None, tag: None, page_size: None, cursor: None, created_before: None, created_after: None }).query_pairs()) == Some(
            "unlockableByAddress"@ + seq!['='] + bech32_text(v@),
        ),
{
    reveal(address_pair);
    reveal(flag_pair);
    reveal(size_pair);
    reveal(slot_pair);
    reveal(text_pair);
    reveal(token_pair);
    let p = NftOutputQueryParameters { unlockable_by_address: Some(v), address: None, has_storage_deposit_return: None, storage_deposit_return_address: None, has_expiration: None, expiration_return_address: None, expires_before: None, expires_after: None, has_timelock: None, timelocked_before: None, timelocked_after: None, issuer: None, sender: None, tag: None, page_size: None, cursor: None, created_before: None, created_after: None };
    assert(p.query_pairs() =~= seq![("unlockableByAddress"@, bech32_text(v@))]);
}

/// With only `address` set, to `v`, the query string is `address=` followed by `v`.
pub proof fn lemma_nft_output_address_name(v: Bech32Address)
    ensures
        query_string((NftOutputQueryParameters { unlockable_by_address: None, address: Some(v), has_storage_deposit_return: None, storage_deposit_return_address: None, has_expiration: None, expiration_return_address: None, expires_before: None, expires_after: None, has_timelock: None, timelocked_before: None, timelocked_after: None, issuer: None, sender: None, tag: None, page_size: None, cursor: None, created_before: None, created_after: None }).query_pairs()) == Some(
            "address"@ + seq!['='] + bech32_text(v@),
        ),
{
    reveal(address_pair);
    reveal(flag_pair);
    reveal(size_pair);
    reveal(slot_pair);
    reveal(text_pair);
    reveal(token_pair);
    let p = NftOutputQueryParameters { unlockable_by_address: None, address: Some(v), has_storage_deposit_return: None, storage_deposit_return_address: None, has_expiration: None, expiration_return_address: None, expires_before: None, expires_after: None, has_timelock: None, timelocked_before: None, timelocked_after: None, issuer: None, sender: None, tag: None, page_size: None, cursor: None, created_before: None, created_after: None };
    assert(p.query_pairs() =~= seq![("address"@, bech32_text(v@))]);
}

/// With only `has_storage_deposit_return` set, to `v`, the query string is `hasStorageDepositReturn=` followed by `v`.
pub proof fn lemma_nft_output_has_storage_deposit_return_name(v: bool)
    ensures
        query_string((NftOutputQueryParameters { unlockable_by_address: None, address: None, has_storage_deposit_return: Some(v), storage_deposit_return_address: None, has_expiration: None, expiration_return_address: None, expires_before: None, expires_after: None, has_timelock: None, timelocked_before: None, timelocked_after: None, issuer: None, sender: None, tag: None, page_size: None, cursor: None, created_before: None, created_after: None }).query_pairs()) == Some(
            "hasStorageDepositReturn"@ + seq!['='] + (if v { "true"@ } else { "false"@ }),
        ),
{
    reveal(address_pair);
    reveal(flag_pair);
    reveal(size_pair);
    reveal(slot_pair);
    reveal(text_pair);
    reveal(token_pair);
    let p = NftOutputQueryParameters { unlockable_by_address: None, address: None, has_storage_deposit_return: Some(v), storage_deposit_return_address: None, has_expiration: None, expiration_return_address: None, expires_before: None, expires_after: None, has_timelock: None, timelocked_before: None, timelocked_after: None, issuer: None, sender: None, tag: None, page_size: None, cursor: None, created_before: None, created_after: None };
    assert(p.query_pairs() =~= seq![("hasStorageDepositReturn"@, (if v { "true"@ } else { "false"@ }))]);
}

/// With only `storage_deposit_return_address` set, to `v`, the query string is `storageDepositReturnAddress=` followed by `v`.
pub proof fn lemma_nft_output_storage_deposit_return_address_name(v: Bech32Address)
    ensures
        query_string((NftOutputQueryParameters { unlockable_by_address: None, address: None, has_storage_deposit_return: None, storage_deposit_return_address: Some(v), has_expiration: None, expiration_return_address: None, expires_before: None, expires_after: None, has_timelock: None, timelocked_before: None, timelocked_after: None, issuer: None, sender: None, tag: None, page_size: None, cursor: None, created_before: None, created_after: None }).query_pairs()) == Some(
            "storageDepositReturnAddress"@ + seq!['='] + bech32_text(v@),
        ),
{
    reveal(address_pair);
    reveal(flag_pair);
    reveal(size_pair);
    reveal(slot_pair);
    reveal(text_pair);
    reveal(token_pair);
    let p = NftOutputQueryParameters { unlockable_by_address: None, address: None, has_storage_deposit_return: None, storage_deposit_return_address: Some(v), has_expiration: None, expiration_return_address: None, expires_before: None, expires_after: None, has_timelock: None, timelocked_before: None, timelocked_after: None, issuer: None, sender: None, tag: None, page_size: None, cursor: None, created_before: None, created_after: None };
    assert(p.query_pairs() =~= seq![("storageDepositReturnAddress"@, bech32_text(v@))]);
}

/// With only `has_expiration` set, to `v`, the query string is `hasExpiration=` followed by `v`.
pub proof fn lemma_nft_output_has_expiration_name(v: bool)
    ensures
        query_string((NftOutputQueryParameters { unlockable_by_address: None, address: None, has_storage_deposit_return: None, storage_deposit_return_address: None, has_expiration: Some(v), expiration_return_address: None, expires_before: None, expires_after: None, has_timelock: None, timelocked_before: None, timelocked_after: None, issuer: None, sender: None, tag: None, page_size: None, cursor: None, created_before: None, created_after: None }).query_pairs()) == Some(
            "hasExpiration"@ + seq!['='] + (if v { "true"@ } else { "false"@ }),
        ),
{
    reveal(address_pair);
    reveal(flag_pair);
    reveal(size_pair);
    reveal(slot_pair);
    reveal(text_pair);
    reveal(token_pair);
    let p = NftOutputQueryParameters { unlockable_by_address: None, address: None, has_storage_deposit_return: None, storage_deposit_return_address: None, has_expiration: Some(v), expiration_return_address: None, expires_before: None, expires_after: None, has_timelock: None, timelocked_before: None, timelocked_after: None, issuer: None, sender: None, tag: None, page_size: None, cursor: None, created_before: None, created_after: None };
    assert(p.query_pairs() =~= seq![("hasExpiration"@, (if v { "true"@ } else { "false"@ }))]);
}

/// With only `expiration_return_address` set, to `v`, the query string is `expirationReturnAddress=` followed by `v`.
pub proof fn lemma_nft_output_expiration_return_address_name(v: Bech32Address)
    ensures
        query_string((NftOutputQueryParameters { unlockable_by_address: None, address: None, has_storage_deposit_return: None, storage_deposit_return_address: None, has_expiration: None, expiration_return_address: Some(v), expires_before: None, expires_after: None, has_timelock: None, timelocked_before: None, timelocked_after: None, issuer: None, sender: None, tag: None, page_size: None, cursor: None, created_before: None, created_after: None }).query_pairs()) == Some(
            "expirationReturnAddress"@ + seq!['='] + bech32_text(v@),
        ),
{
    reveal(address_pair);
    reveal(flag_pair);
    reveal(size_pair);
    reveal(slot_pair);
    reveal(text_pair);
    reveal(token_pair);
    let p = NftOutputQueryParameters { unlockable_by_address: None, address: None, has_storage_deposit_return: None, storage_deposit_return_address: None, has_expiration: None, expiration_return_address: Some(v), expires_before: None, expires_after: None, has_timelock: None, timelocked_before: None, timelocked_after: None, issuer: None, sender: None, tag: None, page_size: None, cursor: None, created_before: None, created_after: None };
    assert(p.query_pairs() =~= seq![("expirationReturnAddress"@, bech32_text(v@))]);
}

/// With only `expires_before` set, to `v`, the query string is `expiresBefore=` followed by `v`.
pub proof fn lemma_nft_output_expires_before_name(v: SlotIndex)
    ensures
        query_string((NftOutputQueryParameters { unlockable_by_address: None, address: None, has_storage_deposit_return: None, storage_deposit_return_address: None, has_expiration: None, expiration_return_address: None, expires_before: Some(v), expires_after: None, has_timelock: None, timelocked_before: None, timelocked_after: None, issuer: None, sender: None, tag: None, page_size: None, cursor: None, created_before: None, created_after: None }).query_pairs()) == Some(
            "expiresBefore"@ + seq!['='] + decimal(v.0 as nat),
        ),
{
    reveal(address_pair);
    reveal(flag_pair);
    reveal(size_pair);
    reveal(slot_pair);
    reveal(text_pair);
    reveal(token_pair);
    let p = NftOutputQueryParameters { unlockable_by_address: None, address: None, has_storage_deposit_return: None, storage_deposit_return_address: None, has_expiration: None, expiration_return_address: None, expires_before: Some(v), expires_after: None, has_timelock: None, timelocked_before: None, timelocked_after: None, issuer: None, sender: None, tag: None, page_size: None, cursor: None, created_before: None, created_after: None };
    assert(p.query_pairs() =~= seq![("expiresBefore"@, decimal(v.0 as nat))]);
}

/// With only `expires_after` set, to `v`, the query string is `expiresAfter=` followed by `v`.
pub proof fn lemma_nft_output_expires_after_name(v: SlotIndex)
    ensures
        query_string((NftOutputQueryParameters { unlockable_by_address: None, address: None, has_storage_deposit_return: None, storage_deposit_return_address: None, has_expiration: None, expiration_return_address: None, expires_before: None, expires_after: Some(v), has_timelock: None, timelocked_before: None, timelocked_after: None, issuer: None, sender: None, tag: None, page_size: None, cursor: None, created_before: None, created_after: None }).query_pairs()) == Some(
            "expiresAfter"@ + seq!['='] + decimal(v.0 as nat),
        ),
{
    reveal(address_pair);
    reveal(flag_pair);
    reveal(size_pair);
    reveal(slot_pair);
    reveal(text_pair);
    reveal(token_pair);
    let p = NftOutputQueryParameters { unlockable_by_address: None, address: None, has_storage_deposit_return: None, storage_deposit_return_address: None, has_expiration: None, expiration_return_address: None, expires_before: None, expires_after: Some(v), has_timelock: None, timelocked_before: None, timelocked_after: None, issuer: None, sender: None, tag: None, page_size: None, cursor: None, created_before: None, created_after: None };
    assert(p.query_pairs() =~= seq![("expiresAfter"@, decimal(v.0 as nat))]);
}

/// With only `has_timelock` set, to `v`, the query string is `hasTimelock=` followed by `v`.
pub proof fn lemma_nft_output_has_timelock_name(v: bool)
    ensures
        query_string((NftOutputQueryParameters { unlockable_by_address: None, address: None, has_storage_deposit_return: None, storage_deposit_return_address: None, has_expiration: None, expiration_return_address: None, expires_before: None, expires_after: None, has_timelock: Some(v), timelocked_before: None, timelocked_after: None, issuer: None, sender: None, tag: None, page_size: None, cursor: None, created_before: None, created_after: None }).query_pairs()) == Some(
            "hasTimelock"@ + seq!['='] + (if v { "true"@ } else { "false"@ }),
        ),
{
    reveal(address_pair);
    reveal(flag_pair);
    reveal(size_pair);
    reveal(slot_pair);
    reveal(text_pair);
    reveal(token_pair);
    let p = NftOutputQueryParameters { unlockable_by_address: None, address: None, has_storage_deposit_return: None, storage_deposit_return_address: None, has_expiration: None, expiration_return_address: None, expires_before: None, expires_after: None, has_timelock: Some(v), timelocked_before: None, timelocked_after: None, issuer: None, sender: None, tag: None, page_size: None, cursor: None, created_before: None, created_after: None };
    assert(p.query_pairs() =~= seq![("hasTimelock"@, (if v { "true"@ } else { "false"@ }))]);
}

/// With only `timelocked_before` set, to `v`, the query string is `timelockedBefore=` followed by `v`.
pub proof fn lemma_nft_output_timelocked_before_name(v: SlotIndex)
    ensures
        query_string((NftOutputQueryParameters { unlockable_by_address: None, address: None, has_storage_deposit_return: None, storage_deposit_return_address: None, has_expiration: None, expiration_return_address: None, expires_before: None, expires_after: None, has_timelock: None, timelocked_before: Some(v), timelocked_after: None, issuer: None, sender: None, tag: None, page_size: None, cursor: None, created_before: None, created_after: None }).query_pairs()) == Some(
            "timelockedBefore"@ + seq!['='] + decimal(v.0 as nat),
        ),
{
    reveal(address_pair);
    reveal(flag_pair);
    reveal(size_pair);
    reveal(slot_pair);
    reveal(text_pair);
    reveal(token_pair);
    let p = NftOutputQueryParameters { unlockable_by_address: None, address: None, has_storage_deposit_return: None, storage_deposit_return_address: None, has_expiration: None, expiration_return_address: None, expires_before: None, expires_after: None, has_timelock: None, timelocked_before: Some(v), timelocked_after: None, issuer: None, sender: None, tag: None, page_size: None, cursor: None, created_before: None, created_after: None };
    assert(p.query_pairs() =~= seq![("timelockedBefore"@, decimal(v.0 as nat))]);
}

/// With only `timelocked_after` set, to `v`, the query string is `timelockedAfter=` followed by `v`.
pub proof fn lemma_nft_output_timelocked_after_name(v: SlotIndex)
    ensures
        query_string((NftOutputQueryParameters { unlockable_by_address: None, address: None, has_storage_deposit_return: None, storage_deposit_return_address: None, has_expiration: None, expiration_return_address: None, expires_before: None, expires_after: None, has_timelock: None, timelocked_before: None, timelocked_after: Some(v), issuer: None, sender: None, tag: None, page_size: None, cursor: None, created_before: None, created_after: None }).query_pairs()) == Some(
            "timelockedAfter"@ + seq!['='] + decimal(v.0 as nat),
        ),
{
    reveal(address_pair);
    reveal(flag_pair);
    reveal(size_pair);
    reveal(slot_pair);
    reveal(text_pair);
    reveal(token_pair);
    let p = NftOutputQueryParameters { unlockable_by_address: None, address: None, has_storage_deposit_return: None, storage_deposit_return_address: None, has_expiration: None, expiration_return_address: None, expires_before: None, expires_after: None, has_timelock: None, timelocked_before: None, timelocked_after: Some(v), issuer: None, sender: None, tag: None, page_size: None, cursor: None, created_before: None, created_after: None };
    assert(p.query_pairs() =~= seq![("timelockedAfter"@, decimal(v.0 as nat))]);
}

/// With only `issuer` set, to `v`, the query string is `issuer=` followed by `v`.
pub proof fn lemma_nft_output_issuer_name(v: Bech32Address)
    ensures
        query_string((NftOutputQueryParameters { unlockable_by_address: None, address: None, has_storage_deposit_return: None, storage_deposit_return_address: None, has_expiration: None, expiration_return_address: None, expires_before: None, expires_after: None, has_timelock: None, timelocked_before: None, timelocked_after: None, issuer: Some(v), sender: None, tag: None, page_size: None, cursor: None, created_before: None, created_after: None }).query_pairs()) == Some(
            "issuer"@ + seq!['='] + bech32_text(v@),
        ),
{
    reveal(address_pair);
    reveal(flag_pair);
    reveal(size_pair);
    reveal(slot_pair);
    reveal(text_pair);
    reveal(token_pair);
    let p = NftOutputQueryParameters { unlockable_by_address: None, address: None, has_storage_deposit_return: None, storage_deposit_return_address: None, has_expiration: None, expiration_return_address: None, expires_before: None, expires_after: None, has_timelock: None, timelocked_before: None, timelocked_after: None, issuer: Some(v), sender: None, tag: None, page_size: None, cursor: None, created_before: None, created_after: None };
    assert(p.query_pairs() =~= seq![("issuer"@, bech32_text(v@))]);
}

/// With only `sender` set, to `v`, the query string is `sender=` followed by `v`.
pub proof fn lemma_nft_output_sender_name(v: Bech32Address)
    ensures
        query_string((NftOutputQueryParameters { unlockable_by_address: None, address: None, has_storage_deposit_return: None, storage_deposit_return_address: None, has_expiration: None, expiration_return_address: None, expires_before: None, expires_after: None, has_timelock: None, timelocked_before: None, timelocked_after: None, issuer: None, sender: Some(v), tag: None, page_size: None, cursor: None, created_before: None, created_after: None }).query_pairs()) == Some(
            "sender"@ + seq!['='] + bech32_text(v@),
        ),
{
    reveal(address_pair);
    reveal(flag_pair);
    reveal(size_pair);
    reveal(slot_pair);
    reveal(text_pair);
    reveal(token_pair);
    let p = NftOutputQueryParameters { unlockable_by_address: None, address: None, has_storage_deposit_return: None, storage_deposit_return_address: None, has_expiration: None, expiration_return_address: None, expires_before: None, expires_after: None, has_timelock: None, timelocked_before: None, timelocked_after: None, issuer: None, sender: Some(v), tag: None, page_size: None, cursor: None, created_before: None, created_after: None };
    assert(p.query_pairs() =~= seq![("sender"@, bech32_text(v@))]);
}

/// With only `tag` set, to `v`, the query string is `tag=` followed by `v`.
pub proof fn lemma_nft_output_tag_name(v: String)
    ensures
        query_string((NftOutputQueryParameters { unlockable_by_address: None, address: None, has_storage_deposit_return: None, storage_deposit_return_address: None, has_expiration: None, expiration_return_address: None, expires_before: None, expires_after: None, has_timelock: None, timelocked_before: None, timelocked_after: None, issuer: None, sender: None, tag: Some(v), page_size: None, cursor: None, created_before: None, created_after: None }).query_pairs()) == Some(
            "tag"@ + seq!['='] + v@,
        ),
{
    reveal(address_pair);
    reveal(flag_pair);
    reveal(size_pair);
    reveal(slot_pair);
    reveal(text_pair);
    reveal(token_pair);
    let p = NftOutputQueryParameters { unlockable_by_address: None, address: None, has_storage_deposit_return: None, storage_deposit_return_address: None, has_expiration: None, expiration_return_address: None, expires_before: None, expires_after: None, has_timelock: None, timelocked_before: None, timelocked_after: None, issuer: None, sender: None, tag: Some(v), page_size: None, cursor: None, created_before: None, created_after: None };
    assert(p.query_pairs() =~= seq![("tag"@, v@)]);
}

/// With only `page_size` set, to `v`, the query string is `pageSize=` followed by `v`.
pub proof fn lemma_nft_output_page_size_name(v: usize)
    ensures
        query_string((NftOutputQueryParameters { unlockable_by_address: None, address: None, has_storage_deposit_return: None, storage_deposit_return_address: None, has_expiration: None, expiration_return_address: None, expires_before: None, expires_after: None, has_timelock: None, timelocked_before: None, timelocked_after: None, issuer: None, sender: None, tag: None, page_size: Some(v), cursor: None, created_before: None, created_after: None }).query_pairs()) == Some(
            "pageSize"@ + seq!['='] + decimal(v as nat),
        ),
{
    reveal(address_pair);
    reveal(flag_pair);
    reveal(size_pair);
    reveal(slot_pair);
    reveal(text_pair);
    reveal(token_pair);
    let p = NftOutputQueryParameters { unlockable_by_address: None, address: None, has_storage_deposit_return: None, storage_deposit_return_address: None, has_expiration: None, expiration_return_address: None, expires_before: None, expires_after: None, has_timelock: None, timelocked_before: None, timelocked_after: None, issuer: None, sender: None, tag: None, page_size: Some(v), cursor: None, created_before: None, created_after: None };
    assert(p.query_pairs() =~= seq![("pageSize"@, decimal(v as nat))]);
}

/// With only `cursor` set, to `v`, the query string is `cursor=` followed by `v`.
pub proof fn lemma_nft_output_cursor_name(v: String)
    ensures
        query_string((NftOutputQueryParameters { unlockable_by_address: None, address: None, has_storage_deposit_return: None, storage_deposit_return_address: None, has_expiration: None, expiration_return_address: None, expires_before: None, expires_after: None, has_timelock: None, timelocked_before: None, timelocked_after: None, issuer: None, sender: None, tag: None, page_size: None, cursor: Some(v), created_before: None, created_after: None }).query_pairs()) == Some(
            "cursor"@ + seq!['='] + v@,
        ),
{
    reveal(address_pair);
    reveal(flag_pair);
    reveal(size_pair);
    reveal(slot_pair);
    reveal(text_pair);
    reveal(token_pair);
    let p = NftOutputQueryParameters { unlockable_by_address: None, address: None, has_storage_deposit_return: None, storage_deposit_return_address: None, has_expiration: None, expiration_return_address: None, expires_before: None, expires_after: None, has_timelock: None, timelocked_before: None, timelocked_after: None, issuer: None, sender: None, tag: None, page_size: None, cursor: Some(v), created_before: None, created_after: None };
    assert(p.query_pairs() =~= seq![("cursor"@, v@)]);
}

/// With only `created_before` set, to `v`, the query string is `createdBefore=` followed by `v`.
pub proof fn lemma_nft_output_created_before_name(v: SlotIndex)
    ensures
        query_string((NftOutputQueryParameters { unlockable_by_address: None, address: None, has_storage_deposit_return: None, storage_deposit_return_address: None, has_expiration: None, expiration_return_address: None, expires_before: None, expires_after: None, has_timelock: None, timelocked_before: None, timelocked_after: None, issuer: None, sender: None, tag: None, page_size: None, cursor: None, created_before: Some(v), created_after: None }).query_pairs()) == Some(
            "createdBefore"@ + seq!['='] + decimal(v.0 as nat),
        ),
{
    reveal(address_pair);
    reveal(flag_pair);
    reveal(size_pair);
    reveal(slot_pair);
    reveal(text_pair);
    reveal(token_pair);
    let p = NftOutputQueryParameters { unlockable_by_address: None, address: None, has_storage_deposit_return: None, storage_deposit_return_address: None, has_expiration: None, expiration_return_address: None, expires_before: None, expires_after: None, has_timelock: None, timelocked_before: None, timelocked_after: None, issuer: None, sender: None, tag: None, page_size: None, cursor: None, created_before: Some(v), created_after: None };
    assert(p.query_pairs() =~= seq![("createdBefore"@, decimal(v.0 as nat))]);
}

/// With only `created_after` set, to `v`, the query string is `createdAfter=` followed by `v`.
pub proof fn lemma_nft_output_created_after_name(v: SlotIndex)
    ensures
        query_string((NftOutputQueryParameters { unlockable_by_address: None, address: None, has_storage_deposit_return: None, storage_deposit_return_address: None, has_expiration: None, expiration_return_address: None, expires_before: None, expires_after: None, has_timelock: None, timelocked_before: None, timelocked_after: None, issuer: None, sender: None, tag: None, page_size: None, cursor: None, created_before: None, created_after: Some(v) }).query_pairs()) == Some(
            "createdAfter"@ + seq!['='] + decimal(v.0 as nat),
        ),
{
    reveal(address_pair);
    reveal(flag_pair);
    reveal(size_pair);
    reveal(slot_pair);
    reveal(text_pair);
    reveal(token_pair);
    let p = NftOutputQueryParameters { unlockable_by_address: None, address: None, has_storage_deposit_return: None, storage_deposit_return_address: None, has_expiration: None, expiration_return_address: None, expires_before: None, expires_after: None, has_timelock: None, timelocked_before: None, timelocked_after: None, issuer: None, sender: None, tag: None, page_size: None, cursor: None, created_before: None, created_after: Some(v) };
    assert(p.query_pairs() =~= seq![("createdAfter"@, decimal(v.0 as nat))]);
}

} // verus!
