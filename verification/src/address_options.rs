//! Options of address generation, and the search of an address among generated ones.

use std::ops::Range;

use vstd::prelude::*;

use crate::bech32_address::{is_valid_hrp, Bech32Error, Hrp};
use crate::ledger::{Address, AddressV};

verus! {

/// The BIP-44 coin type of IOTA.
pub const IOTA_COIN_TYPE: u32 = 4218;

/// The BIP-44 coin type of Shimmer.
pub const SHIMMER_COIN_TYPE: u32 = 4219;

/// The BIP-44 coin type of Ethereum.
pub const ETHER_COIN_TYPE: u32 = 60;

/// The number of addresses generated by default.
pub const ADDRESS_GAP_RANGE: u32 = 20;

/// Options of the generation of one address.
#[derive(Clone, Copy, Debug, PartialEq, Eq, Structural)]
pub struct GenerateAddressOptions {
    /// Whether the address is internal (a change address) rather than public.
    pub internal: bool,
    /// Whether a Ledger Nano shows the address for confirmation.
    pub ledger_nano_prompt: bool,
}

impl GenerateAddressOptions {
    /// The options of an internal address, without prompt.
    pub fn internal() -> (r: GenerateAddressOptions)
        ensures
            r == (GenerateAddressOptions { internal: true, ledger_nano_prompt: false }),
    {
        GenerateAddressOptions { internal: true, ledger_nano_prompt: false }
    }
}

/// Options of the generation of a range of addresses.
#[derive(Debug)]
pub struct GetAddressesOptions {
    /// The BIP-44 coin type.
    pub coin_type: u32,
    /// The BIP-44 account index.
    pub account_index: u32,
    /// The address indexes to generate.
    pub range: Range<u32>,
    /// The human-readable part of the generated addresses.
    pub bech32_hrp: Hrp,
    /// The options of each generation.
    pub options: Option<GenerateAddressOptions>,
}

impl GetAddressesOptions {
    /// The defaults: Shimmer's coin type, account 0, the first twenty addresses, the
    /// Shimmer testnet part `rms`, no options.
    pub fn new() -> (r: GetAddressesOptions)
        ensures
            r.coin_type == SHIMMER_COIN_TYPE,
            r.account_index == 0,
            r.range.start == 0,
            r.range.end == ADDRESS_GAP_RANGE,
            r.bech32_hrp@ == "rms"@,
            r.options is None,
    {
        GetAddressesOptions {
            coin_type: SHIMMER_COIN_TYPE,
            account_index: 0,
            range: Range { start: 0, end: ADDRESS_GAP_RANGE },
            bech32_hrp: Hrp::shimmer_testnet(),
            options: None,
        }
    }

    /// Sets the coin type.
    pub fn with_coin_type(self, coin_type: u32) -> (r: GetAddressesOptions)
        ensures
            r == (GetAddressesOptions { coin_type, ..self }),
    {
        GetAddressesOptions { coin_type, ..self }
    }

    /// Sets the account index.
    pub fn with_account_index(self, account_index: u32) -> (r: GetAddressesOptions)
        ensures
            r == (GetAddressesOptions { account_index, ..self }),
    {
        GetAddressesOptions { account_index, ..self }
    }

    /// Sets the range of address indexes.
    pub fn with_range(self, range: Range<u32>) -> (r: GetAddressesOptions)
        ensures
            r == (GetAddressesOptions { range, ..self }),
    {
        GetAddressesOptions { range, ..self }
    }

    /// Sets the human-readable part.
    pub fn with_bech32_hrp(self, bech32_hrp: Hrp) -> (r: GetAddressesOptions)
        ensures
            r == (GetAddressesOptions { bech32_hrp, ..self }),
    {
        GetAddressesOptions { bech32_hrp, ..self }
    }

    /// Sets the human-readable part from text, which must be a valid part.
    pub fn try_with_bech32_hrp(self, bech32_hrp: &str) -> (r: Result<
        GetAddressesOptions,
        Bech32Error,
    >)
        ensures
            is_valid_hrp(bech32_hrp@) ==> (r matches Ok(o) && o.bech32_hrp@ == bech32_hrp@
                && o.coin_type == self.coin_type && o.account_index == self.account_index
                && o.range == self.range && o.options == self.options),
            !is_valid_hrp(bech32_hrp@) ==> (r matches Err(e) && e == Bech32Error::InvalidHrp),
    {
        match Hrp::parse(bech32_hrp) {
            Ok(h) => Ok(GetAddressesOptions { bech32_hrp: h, ..self }),
            Err(e) => Err(e),
        }
    }

    /// Asks for internal addresses: sets `internal` in the options, or sets the options
    /// of an internal address where there are none.
    pub fn internal(self) -> (r: GetAddressesOptions)
        ensures
            r == (GetAddressesOptions {
                options: Some(
                    match self.options {
                        Some(o) => GenerateAddressOptions { internal: true, ..o },
                        None => GenerateAddressOptions { internal: true, ledger_nano_prompt: false },
                    },
                ),
                ..self
            }),
    {
        match self.options {
            Some(o) => GetAddressesOptions {
                options: Some(GenerateAddressOptions { internal: true, ..o }),
                ..self
            },
            None => self.with_options(Some(GenerateAddressOptions::internal())),
        }
    }

    /// Sets the options of each generation.
    pub fn with_options(self, options: Option<GenerateAddressOptions>) -> (r: GetAddressesOptions)
        ensures
            r == (GetAddressesOptions { options, ..self }),
    {
        GetAddressesOptions { options, ..self }
    }
}

impl Default for GetAddressesOptions {
    fn default() -> (r: GetAddressesOptions)
        ensures
            r.coin_type == SHIMMER_COIN_TYPE,
            r.account_index == 0,
            r.range.start == 0,
            r.range.end == ADDRESS_GAP_RANGE,
            r.bech32_hrp@ == "rms"@,
            r.options is None,
    {
        GetAddressesOptions::new()
    }
}

/// The errors of searching an address.
#[derive(Clone, Copy, Debug, PartialEq, Eq, Structural)]
pub enum SearchError {
    /// The address is none of the generated ones.
    AddressNotFound,
}

/// The first position at which `public` or `internal` holds `a`, and whether it was in
/// `internal`; positions are tried in order, the public address before the internal one.
pub open spec fn first_match(public: Seq<AddressV>, internal: Seq<AddressV>, a: AddressV, from: int) -> Option<
    (int, bool),
>
    decreases public.len() - from,
{
    if from < 0 || from >= public.len() {
        None
    } else if public[from] == a {
        Some((from, false))
    } else if from < internal.len() && internal[from] == a {
        Some((from, true))
    } else {
        first_match(public, internal, a, from + 1)
    }
}

/// The values of a list of addresses.
pub open spec fn addresses_view(s: Seq<Address>) -> Seq<AddressV> {
    s.map_values(|a: Address| a@)
}

/// Finds `address` among generated addresses: `public` and `internal` hold the public and
/// internal addresses of the indexes from `start` on. Gives the index of the first match
/// and whether it is internal.
pub fn search_address(public: &Vec<Address>, internal: &Vec<Address>, start: u32, address: &Address) -> (r:
    Result<(u32, bool), SearchError>)
    requires
        start + public@.len() <= u32::MAX,
        public@.len() <= internal@.len(),
    ensures
        match first_match(addresses_view(public@), addresses_view(internal@), address@, 0) {
            Some((i, b)) => r == Ok::<(u32, bool), SearchError>(((start + i) as u32, b)),
            None => r == Err::<(u32, bool), SearchError>(SearchError::AddressNotFound),
        },
{
    let ghost p = addresses_view(public@);
    let ghost q = addresses_view(internal@);
    let mut i: usize = 0;
    while i < public.len()
        invariant
            i <= public@.len(),
            public@.len() <= internal@.len(),
            start + public@.len() <= u32::MAX,
            p == addresses_view(public@),
            q == addresses_view(internal@),
            first_match(p, q, address@, 0) == first_match(p, q, address@, i as int),
        decreases public@.len() - i,
    {
        if public[i].same(address) {
            return Ok((start + i as u32, false));
        }
        if internal[i].same(address) {
            return Ok((start + i as u32, true));
        }
        i = i + 1;
    }
    Err(SearchError::AddressNotFound)
}

} // verus!
