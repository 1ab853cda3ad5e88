//! Client-side logic of an IOTA node client: MQTT topics and broker options,
//! indexer query strings, client configuration builders, and the input
//! selection rules used when building transactions.

pub mod address_options;
pub mod allotment;
pub mod amount;
pub mod amount_requirement;
pub mod amounts;
pub mod bech32_address;
pub mod builder;
pub mod burn;
pub mod chain_transitions;
pub mod client_builder;
pub mod context_inputs;
pub mod finishing;
pub mod fulfilment;
pub mod hash;
pub mod input_search;
pub mod ledger;
pub mod mana;
pub mod mqtt;
pub mod mqtt_session;
pub mod native_tokens;
pub mod options;
pub mod ordered_inputs;
pub mod query;
pub mod query_names;
pub mod remainders;
pub mod requirement;
pub mod selection;
pub mod signing_order;
pub mod text;
pub mod time;
pub mod token_amount;
pub mod transitions;
pub mod unlocks;
