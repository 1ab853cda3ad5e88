use iota_client::bech32_address::{Bech32Address, Bech32Error};
use iota_client::ledger::{Id, OutputId, SlotIndex};
use iota_client::query::{
    is_single_page_query, AccountOutputQueryParameters, BasicOutputQueryParameters,
    DelegationOutputQueryParameters, FoundryOutputQueryParameters, NftOutputQueryParameters,
    OutputIdsResponse, OutputQueryParameters,
};

const ADDRESS: &str = "atoi1qzt0nhsf38nh6rs4p6zs5knqp6psgha9wsv74uajqgjmwc75ugupx3y7x0r";

#[test]
fn query_parameter() {
    let empty_basic_outputs_query_parameters = BasicOutputQueryParameters::new();
    assert_eq!(empty_basic_outputs_query_parameters.to_query_string(), None);

    let mut basic_outputs_query_parameters = BasicOutputQueryParameters::new()
        .address(Bech32Address::try_from_str(ADDRESS).unwrap())
        .created_after(5.into())
        .has_timelock(true)
        .cursor("".into());
    assert_eq!(
        basic_outputs_query_parameters.to_query_string(),
        Some(
            "address=atoi1qzt0nhsf38nh6rs4p6zs5knqp6psgha9wsv74uajqgjmwc75ugupx3y7x0r&createdAfter=5&cursor=&hasTimelock=true"
                .into()
        )
    );

    basic_outputs_query_parameters.replace_cursor("newCursor".into());
    assert_eq!(
        basic_outputs_query_parameters.to_query_string(),
        Some("address=atoi1qzt0nhsf38nh6rs4p6zs5knqp6psgha9wsv74uajqgjmwc75ugupx3y7x0r&createdAfter=5&cursor=newCursor&hasTimelock=true".into())
    );
}

#[test]
fn bech32_address_round_trip() {
    let a = Bech32Address::try_from_str(ADDRESS).unwrap();
    assert_eq!(a.hrp().as_str(), "atoi");
    assert_eq!(a.to_bech32_string(), ADDRESS);
    assert_eq!(a.inner().id.bytes.len(), 32);
}

#[test]
fn bech32_address_errors() {
    assert!(matches!(Bech32Address::try_from_str("not an address"), Err(Bech32Error::InvalidBech32)));
    // A valid checksum over data that is no packed address.
    let broken = "atoi1qzt0nhsf38nh6rs4p6zs5knqp6psgha9wsv74uajqgjmwc75ugupx3y7x0s";
    assert!(Bech32Address::try_from_str(broken).is_err());
}

#[test]
fn only_address_unlock_condition_query() {
    let a = Bech32Address::try_from_str(ADDRESS).unwrap();
    let q = BasicOutputQueryParameters::only_address_unlock_condition(a.clone()).to_query_string();
    assert_eq!(
        q,
        Some(format!("address={ADDRESS}&hasExpiration=false&hasStorageDepositReturn=false&hasTimelock=false"))
    );
    let n = NftOutputQueryParameters::only_address_unlock_condition(a).to_query_string();
    assert_eq!(
        n,
        Some(format!("address={ADDRESS}&hasExpiration=false&hasStorageDepositReturn=false&hasTimelock=false"))
    );
}

#[test]
fn query_string_numbers_and_tokens() {
    let q = OutputQueryParameters::new()
        .page_size(1000)
        .native_token(Id::new(vec![0x0a, 0xff, 0x01]))
        .created_before(SlotIndex(1234567))
        .has_native_token(false);
    assert_eq!(
        q.to_query_string(),
        Some("createdBefore=1234567&hasNativeToken=false&nativeToken=0x0aff01&pageSize=1000".to_string())
    );
    let f = FoundryOutputQueryParameters::new().created_after(SlotIndex(0));
    assert_eq!(f.to_query_string(), Some("createdAfter=0".to_string()));
    let d = DelegationOutputQueryParameters::new().cursor("abc".to_string()).page_size(u32::MAX as usize);
    assert_eq!(d.to_query_string(), Some("cursor=abc&pageSize=4294967295".to_string()));
    let acc = AccountOutputQueryParameters::new();
    assert_eq!(acc.to_query_string(), None);
}

#[test]
fn empty_cursor_asks_single_page() {
    let q = BasicOutputQueryParameters::new().cursor(String::new()).has_timelock(true).to_query_string();
    assert!(is_single_page_query(&q));
    let q = BasicOutputQueryParameters::new().cursor(String::new()).to_query_string();
    assert!(is_single_page_query(&q));
    let q = BasicOutputQueryParameters::new().cursor("next".to_string()).to_query_string();
    assert!(!is_single_page_query(&q));
    assert!(!is_single_page_query(&None));
}

fn oid_at(b: u8) -> OutputId {
    OutputId { transaction_hash: Id::new(vec![b; 32]), slot_index: 1, index: 0 }
}

#[test]
fn output_id_pages_are_joined_in_order() {
    let mut merged = OutputIdsResponse::new();
    assert_eq!((merged.committed_slot.0, merged.page_size, merged.items.len()), (0, 1000, 0));
    let first = OutputIdsResponse {
        committed_slot: SlotIndex(7),
        page_size: 2,
        cursor: Some("abc.7.2".to_string()),
        items: vec![oid_at(1), oid_at(2)],
    };
    assert_eq!(merged.join_page(first), Some("abc.7.2".to_string()));
    let last = OutputIdsResponse {
        committed_slot: SlotIndex(8),
        page_size: 2,
        cursor: None,
        items: vec![oid_at(3)],
    };
    assert_eq!(merged.join_page(last), None);
    assert_eq!((merged.committed_slot.0, merged.page_size, merged.cursor.clone()), (8, 2, None));
    let tags: Vec<u8> = merged.items.iter().map(|o| o.transaction_hash.bytes[0]).collect();
    assert_eq!(tags, vec![1, 2, 3]);
}
