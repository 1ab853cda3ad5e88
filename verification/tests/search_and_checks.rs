use iota_client::amount::amount_balance;
use iota_client::bech32_address::{bech32_hrp_matches, Hrp};
use iota_client::input_search::{
    AcceptanceAction, AcceptancePoll, AcceptanceReply,
    acceptance_schedule, acceptance_step, find_inputs_from_outputs, AcceptanceStep,
    InsufficientAmount, TransactionState,
};
use iota_client::ledger::{Id, OutputId};

fn oid(b: u8) -> OutputId {
    OutputId { transaction_hash: Id::new(vec![b; 32]), slot_index: 0, index: 0 }
}

fn tags(v: &[OutputId]) -> Vec<u8> {
    v.iter().map(|o| o.transaction_hash.bytes[0]).collect()
}

#[test]
fn inputs_are_found_largest_first() {
    let outputs = vec![(oid(1), 10), (oid(2), 50), (oid(3), 30), (oid(4), 50)];
    let r = find_inputs_from_outputs(outputs.clone(), 90).unwrap();
    // Equal amounts keep their order.
    assert_eq!(tags(&r), vec![2, 4]);
    let r = find_inputs_from_outputs(outputs.clone(), 101).unwrap();
    assert_eq!(tags(&r), vec![2, 4, 3]);
    assert!(find_inputs_from_outputs(outputs.clone(), 0).unwrap().is_empty());
    assert_eq!(
        find_inputs_from_outputs(outputs, 1000).err(),
        Some(InsufficientAmount { found: 140, required: 1000 })
    );
}

#[test]
fn inputs_are_capped_at_the_input_limit() {
    let outputs: Vec<(OutputId, u64)> = (0..200u8).map(|b| (oid(b), 1)).collect();
    assert_eq!(
        find_inputs_from_outputs(outputs.clone(), 150).err(),
        Some(InsufficientAmount { found: 128, required: 150 })
    );
    assert_eq!(find_inputs_from_outputs(outputs, 128).unwrap().len(), 128);
}

#[test]
fn acceptance_decisions() {
    assert_eq!(acceptance_step(Some(TransactionState::Accepted)), AcceptanceStep::Accepted);
    assert_eq!(acceptance_step(Some(TransactionState::Committed)), AcceptanceStep::Accepted);
    assert_eq!(acceptance_step(Some(TransactionState::Finalized)), AcceptanceStep::Accepted);
    assert_eq!(acceptance_step(Some(TransactionState::Failed)), AcceptanceStep::Failed);
    assert_eq!(acceptance_step(Some(TransactionState::Pending)), AcceptanceStep::Wait);
    assert_eq!(acceptance_step(None), AcceptanceStep::Wait);
    assert_eq!(acceptance_schedule(None, None), (500, 80));
    assert_eq!(acceptance_schedule(Some(10), Some(2)), (10, 2));
}

#[test]
fn hrps_compare_regardless_of_case() {
    let a = Hrp::parse("ATOI").unwrap();
    assert!(bech32_hrp_matches(&a, &Hrp::iota_testnet()).is_ok());
    match bech32_hrp_matches(&Hrp::shimmer(), &Hrp::iota()) {
        Err(e) => {
            assert_eq!(e.provided, "smr");
            assert_eq!(e.expected, "iota");
        }
        Ok(()) => panic!("different parts matched"),
    }
}

#[test]
fn balance_accounts_for_the_remainder() {
    assert_eq!(amount_balance(100, 90, 30, false, false), (100, 110));
    assert_eq!(amount_balance(100, 50, 30, false, false), (100, 50));
    assert_eq!(amount_balance(100, 100, 30, true, false), (100, 130));
    assert_eq!(amount_balance(100, 100, 30, false, true), (100, 130));
    assert_eq!(amount_balance(80, 100, 30, false, false), (80, 100));
}

#[test]
fn only_the_chosen_outputs_are_summed() {
    let tx = |b: u8| OutputId { transaction_hash: Id::new(vec![b; 32]), slot_index: 0, index: 0 };
    // The outputs together pass 64 bits; the choice for 1 takes only the first.
    let r = find_inputs_from_outputs(vec![(tx(1), u64::MAX), (tx(2), u64::MAX)], 1).unwrap();
    assert_eq!(r.len(), 1);
}

#[test]
fn waiting_for_acceptance_polls_at_most_the_allowed_times() {
    let mut p = AcceptancePoll::new(None, Some(2));
    assert_eq!(p.interval, 500);
    assert_eq!(p.next(), AcceptanceAction::Poll);
    assert_eq!(p.on_reply(AcceptanceReply::State(TransactionState::Pending)), AcceptanceAction::Wait(500));
    assert_eq!(p.next(), AcceptanceAction::Poll);
    assert_eq!(p.on_reply(AcceptanceReply::NotFound), AcceptanceAction::Wait(500));
    assert_eq!(p.attempts, 2);
    assert_eq!(p.next(), AcceptanceAction::NotAccepted);
    let d = AcceptancePoll::new(Some(10), None);
    assert_eq!((d.interval, d.max_attempts, d.attempts), (10, 80, 0));
}

#[test]
fn waiting_for_acceptance_stops_on_a_final_state_or_a_request_error() {
    let mut p = AcceptancePoll::new(Some(1), Some(5));
    assert_eq!(p.on_reply(AcceptanceReply::State(TransactionState::Committed)), AcceptanceAction::Accepted);
    assert_eq!(p.on_reply(AcceptanceReply::State(TransactionState::Failed)), AcceptanceAction::NotAccepted);
    assert_eq!(p.on_reply(AcceptanceReply::RequestFailed), AcceptanceAction::ReturnRequestError);
    assert_eq!(p.attempts, 0);
    let none = AcceptancePoll::new(Some(1), Some(0));
    assert_eq!(none.next(), AcceptanceAction::NotAccepted);
}
