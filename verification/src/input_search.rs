//! The choice of inputs for an amount among the outputs that addresses alone unlock, as
//! done for offline signing, and the decisions of waiting for a transaction's acceptance.

use vstd::prelude::*;

use crate::ledger::{OutputId, OutputIdV};
use crate::selection::INPUT_COUNT_MAX;

verus! {

/// The position at which an output of `amount` goes among outputs ordered by decreasing
/// amount so that the order stays stable: after every output of at least that amount.
pub open spec fn desc_pos(s: Seq<(OutputIdV, u64)>, amount: u64) -> int
    decreases s.len(),
{
    if s.len() == 0 {
        0
    } else if s[0].1 < amount {
        0
    } else {
        1 + desc_pos(s.drop_first(), amount)
    }
}

/// The outputs ordered by decreasing amount, outputs of equal amounts in their given order.
pub open spec fn by_amount_desc(s: Seq<(OutputIdV, u64)>) -> Seq<(OutputIdV, u64)>
    decreases s.len(),
{
    if s.len() == 0 {
        Seq::empty()
    } else {
        let t = by_amount_desc(s.drop_last());
        t.insert(desc_pos(t, s.last().1), s.last())
    }
}

proof fn lemma_desc_pos(s: Seq<(OutputIdV, u64)>, amount: u64)
    ensures
        0 <= desc_pos(s, amount) <= s.len(),
        forall|j: int| 0 <= j < desc_pos(s, amount) ==> #[trigger] s[j].1 >= amount,
        desc_pos(s, amount) < s.len() ==> s[desc_pos(s, amount)].1 < amount,
    decreases s.len(),
{
    if s.len() > 0 && s[0].1 >= amount {
        lemma_desc_pos(s.drop_first(), amount);
        assert forall|j: int| 1 <= j < s.len() implies s[j] == s.drop_first()[j - 1] by {}
    }
}

/// The outputs taken for `amount` from `s`, in order, while the taken sum `sum` stays
/// below the amount; with the sum they reach.
pub open spec fn take_for_amount(s: Seq<(OutputIdV, u64)>, amount: u64, sum: nat) -> (Seq<OutputIdV>, nat)
    decreases s.len(),
{
    if s.len() == 0 || sum >= amount {
        (Seq::empty(), sum)
    } else {
        let (rest, total) = take_for_amount(s.drop_first(), amount, (sum + s[0].1) as nat);
        (seq![s[0].0] + rest, total)
    }
}

/// The error of a choice that cannot reach the amount: the sum found and the amount asked.
#[derive(Clone, Copy, Debug, PartialEq, Eq, Structural)]
pub struct InsufficientAmount {
    pub found: u64,
    pub required: u64,
}

/// The outputs that the choice looks at: the largest first, at most as many as a
/// transaction can have inputs.
pub open spec fn amount_candidates(outputs: Seq<(OutputIdV, u64)>) -> Seq<(OutputIdV, u64)> {
    let sorted = by_amount_desc(outputs);
    if sorted.len() <= INPUT_COUNT_MAX {
        sorted
    } else {
        sorted.take(INPUT_COUNT_MAX as int)
    }
}

/// The sum of the outputs that the choice for `amount` takes.
pub open spec fn chosen_total(outputs: Seq<(OutputIdV, u64)>, amount: u64) -> nat {
    take_for_amount(amount_candidates(outputs), amount, 0).1
}

/// The outputs chosen for `amount`: the largest first, at most as many as a transaction
/// can have inputs, until their sum reaches the amount; or the sum they reach where it
/// stays below.
pub open spec fn chosen_inputs(outputs: Seq<(OutputIdV, u64)>, amount: u64) -> Result<Seq<OutputIdV>, (nat, u64)> {
    let (ids, total) = take_for_amount(amount_candidates(outputs), amount, 0);
    if total < amount {
        Err((total, amount))
    } else {
        Ok(ids)
    }
}

/// The pairs by value.
pub open spec fn pairs_view(s: Seq<(OutputId, u64)>) -> Seq<(OutputIdV, u64)> {
    s.map_values(|e: (OutputId, u64)| (e.0@, e.1))
}

/// Chooses inputs for `amount` among outputs that only their addresses unlock, given with
/// their amounts.
pub fn find_inputs_from_outputs(outputs: Vec<(OutputId, u64)>, amount: u64) -> (r: Result<
    Vec<OutputId>,
    InsufficientAmount,
>)
    requires
        chosen_total(pairs_view(outputs@), amount) <= u64::MAX,
    ensures
        match chosen_inputs(pairs_view(outputs@), amount) {
            Ok(ids) => r matches Ok(v) && v@.map_values(|o: OutputId| o@) == ids,
            Err((found, required)) => r == Err::<Vec<OutputId>, InsufficientAmount>(
                InsufficientAmount { found: found as u64, required },
            ),
        },
{
    let ghost all = pairs_view(outputs@);
    // Order by decreasing amount, keeping the order of equal amounts.
    let mut sorted: Vec<(OutputId, u64)> = Vec::new();
    let mut src = outputs;
    let n = src.len();
    let mut i: usize = 0;
    assert(all.take(0) =~= Seq::<(OutputIdV, u64)>::empty());
    assert(pairs_view(sorted@) =~= Seq::<(OutputIdV, u64)>::empty());
    while src.len() > 0
        invariant
            src@.len() + i == n,
            n == all.len(),
            pairs_view(src@) =~= all.subrange(i as int, n as int),
            pairs_view(sorted@) == by_amount_desc(all.take(i as int)),
        decreases src@.len(),
    {
        let ghost before = pairs_view(src@);
        let e = src.remove(0);
        proof {
            assert(before[0] == (e.0@, e.1));
            assert(pairs_view(src@) =~= before.drop_first());
            assert(all.take(i + 1).drop_last() =~= all.take(i as int));
            assert(all.take(i + 1).last() == all[i as int]);
        }
        let ghost t = pairs_view(sorted@);
        let mut p: usize = 0;
        while p < sorted.len() && sorted[p].1 >= e.1
            invariant
                p <= sorted@.len(),
                t == pairs_view(sorted@),
                forall|j: int| 0 <= j < p ==> #[trigger] t[j].1 >= e.1,
            decreases sorted@.len() - p,
        {
            p = p + 1;
        }
        proof {
            lemma_desc_pos(t, e.1);
            assert(p == desc_pos(t, e.1)) by {
                if p < desc_pos(t, e.1) {
                    assert(t[p as int].1 >= e.1);
                } else if p > desc_pos(t, e.1) {
                    assert(t[desc_pos(t, e.1)].1 < e.1);
                }
            }
        }
        let ghost ev = (e.0@, e.1);
        sorted.insert(p, e);
        assert(pairs_view(sorted@) =~= t.insert(p as int, ev));
        i = i + 1;
        assert(pairs_view(src@) =~= all.subrange(i as int, n as int));
    }
    assert(all.take(i as int) =~= all);
    let ghost sv = pairs_view(sorted@);
    let limit = if sorted.len() < INPUT_COUNT_MAX {
        sorted.len()
    } else {
        INPUT_COUNT_MAX
    };
    let ghost cand = if sv.len() <= INPUT_COUNT_MAX {
        sv
    } else {
        sv.take(INPUT_COUNT_MAX as int)
    };
    proof {
        assert(cand =~= sv.take(limit as int));
        assert(cand == amount_candidates(all));
    }
    let mut total: u64 = 0;
    let mut chosen: Vec<OutputId> = Vec::new();
    let mut k: usize = 0;
    assert(cand.skip(0) =~= cand);
    while k < limit && total < amount
        invariant
            k <= limit,
            limit <= sorted@.len(),
            limit == cand.len(),
            sv == pairs_view(sorted@),
            cand =~= sv.take(limit as int),
            take_for_amount(cand, amount, 0).1 <= u64::MAX,
            take_for_amount(cand, amount, 0) == ({
                let (rest, t) = take_for_amount(cand.skip(k as int), amount, total as nat);
                (chosen@.map_values(|o: OutputId| o@) + rest, t)
            }),
        decreases limit - k,
    {
        let ghost rest = cand.skip(k as int);
        proof {
            assert(rest[0] == cand[k as int]);
            assert(rest.drop_first() =~= cand.skip(k + 1));
            lemma_take_len(rest.drop_first(), amount, (total + rest[0].1) as nat);
        }
        let id = sorted[k].0.clone();
        let ghost before = chosen@.map_values(|o: OutputId| o@);
        total = total + sorted[k].1;
        chosen.push(id);
        proof {
            assert(chosen@.map_values(|o: OutputId| o@) =~= before.push(cand[k as int].0));
            let (r2, t2) = take_for_amount(cand.skip(k + 1), amount, total as nat);
            assert(before + (seq![cand[k as int].0] + r2) =~= before.push(cand[k as int].0) + r2);
        }
        k = k + 1;
    }
    proof {
        let rest = cand.skip(k as int);
        assert(take_for_amount(rest, amount, total as nat) == (Seq::<OutputIdV>::empty(), total as nat)) by {
            if k == limit {
                assert(rest.len() == 0);
            }
        }
        assert(chosen@.map_values(|o: OutputId| o@) + Seq::<OutputIdV>::empty() =~= chosen@.map_values(
            |o: OutputId| o@,
        ));
    }
    if total < amount {
        return Err(InsufficientAmount { found: total, required: amount });
    }
    Ok(chosen)
}

proof fn lemma_take_len(s: Seq<(OutputIdV, u64)>, amount: u64, sum: nat)
    ensures
        take_for_amount(s, amount, sum).0.len() <= s.len(),
        take_for_amount(s, amount, sum).1 >= sum,
    decreases s.len(),
{
    if s.len() > 0 && sum < amount {
        lemma_take_len(s.drop_first(), amount, (sum + s[0].1) as nat);
    }
}

/// A choice never holds more outputs than a transaction can have inputs.
pub proof fn lemma_chosen_inputs_fit(outputs: Seq<(OutputIdV, u64)>, amount: u64)
    ensures
        chosen_inputs(outputs, amount) matches Ok(ids) ==> ids.len() <= INPUT_COUNT_MAX,
{
    let sorted = by_amount_desc(outputs);
    let candidates = if sorted.len() <= INPUT_COUNT_MAX {
        sorted
    } else {
        sorted.take(INPUT_COUNT_MAX as int)
    };
    lemma_take_len(candidates, amount, 0);
}

/// The state of a transaction as a node reports it.
#[derive(Clone, Copy, Debug, PartialEq, Eq, Structural)]
pub enum TransactionState {
    Pending,
    Accepted,
    Committed,
    Finalized,
    Failed,
}

/// What a poll of a transaction's state asks for.
#[derive(Clone, Copy, Debug, PartialEq, Eq, Structural)]
pub enum AcceptanceStep {
    /// The transaction is accepted: wait for its first output to be indexed, then stop.
    Accepted,
    /// The transaction failed.
    Failed,
    /// Wait the interval and poll again.
    Wait,
}

/// The decision after one poll: the reported state, or nothing where the node does not
/// know the transaction yet.
pub open spec fn acceptance_step_spec(state: Option<TransactionState>) -> AcceptanceStep {
    match state {
        Some(TransactionState::Accepted) | Some(TransactionState::Committed) | Some(
            TransactionState::Finalized,
        ) => AcceptanceStep::Accepted,
        Some(TransactionState::Failed) => AcceptanceStep::Failed,
        _ => AcceptanceStep::Wait,
    }
}

/// Decides what one poll of a transaction's state asks for.
pub fn acceptance_step(state: Option<TransactionState>) -> (r: AcceptanceStep)
    ensures
        r == acceptance_step_spec(state),
{
    match state {
        Some(TransactionState::Accepted) | Some(TransactionState::Committed) | Some(
            TransactionState::Finalized,
        ) => AcceptanceStep::Accepted,
        Some(TransactionState::Failed) => AcceptanceStep::Failed,
        _ => AcceptanceStep::Wait,
    }
}

/// The default interval between two polls, in milliseconds.
pub const DEFAULT_WAIT_FOR_TX_ACCEPTANCE_INTERVAL_MS: u64 = 500;

/// The default number of polls.
pub const DEFAULT_WAIT_FOR_TX_ACCEPTANCE_MAX_ATTEMPTS: u64 = 80;

/// The interval and number of polls: the given ones, or the defaults.
pub fn acceptance_schedule(interval: Option<u64>, max_attempts: Option<u64>) -> (r: (u64, u64))
    ensures
        r.0 == match interval {
            Some(i) => i,
            None => DEFAULT_WAIT_FOR_TX_ACCEPTANCE_INTERVAL_MS,
        },
        r.1 == match max_attempts {
            Some(m) => m,
            None => DEFAULT_WAIT_FOR_TX_ACCEPTANCE_MAX_ATTEMPTS,
        },
{
    (
        match interval {
            Some(i) => i,
            None => DEFAULT_WAIT_FOR_TX_ACCEPTANCE_INTERVAL_MS,
        },
        match max_attempts {
            Some(m) => m,
            None => DEFAULT_WAIT_FOR_TX_ACCEPTANCE_MAX_ATTEMPTS,
        },
    )
}

/// What a node answered when asked for the state of a transaction.
#[derive(Clone, Copy, Debug, PartialEq, Eq, Structural)]
pub enum AcceptanceReply {
    /// The state of the transaction.
    State(TransactionState),
    /// The node does not know the transaction yet.
    NotFound,
    /// The request failed otherwise; the error is handed back as it is.
    RequestFailed,
}

/// What waiting for a transaction's acceptance does next.
#[derive(Clone, Copy, Debug, PartialEq, Eq, Structural)]
pub enum AcceptanceAction {
    /// Ask the node for the state of the transaction.
    Poll,
    /// Sleep for the interval, then ask what comes next.
    Wait(u64),
    /// The transaction is accepted: wait for its first output to be indexed, then stop.
    Accepted,
    /// Stop with the error that the transaction was not accepted.
    NotAccepted,
    /// Stop with the error of the failed request.
    ReturnRequestError,
}

/// Waiting for a transaction's acceptance: the interval between polls, the number of polls
/// allowed and the number of polls that found the transaction pending or unknown.
#[derive(Clone, Copy, Debug, PartialEq, Eq, Structural)]
pub struct AcceptancePoll {
    pub interval: u64,
    pub max_attempts: u64,
    pub attempts: u64,
}

impl AcceptancePoll {
    /// Starts waiting with the given interval and number of polls, or the defaults.
    pub fn new(interval: Option<u64>, max_attempts: Option<u64>) -> (r: AcceptancePoll)
        ensures
            r.interval == acceptance_schedule_spec(interval, max_attempts).0,
            r.max_attempts == acceptance_schedule_spec(interval, max_attempts).1,
            r.attempts == 0,
    {
        let (interval, max_attempts) = acceptance_schedule(interval, max_attempts);
        AcceptancePoll { interval, max_attempts, attempts: 0 }
    }

    /// What comes next before a poll: a poll while polls are left, else the error that the
    /// transaction was not accepted.
    pub fn next(&self) -> (r: AcceptanceAction)
        ensures
            r == (if self.attempts < self.max_attempts {
                AcceptanceAction::Poll
            } else {
                AcceptanceAction::NotAccepted
            }),
    {
        if self.attempts < self.max_attempts {
            AcceptanceAction::Poll
        } else {
            AcceptanceAction::NotAccepted
        }
    }

    /// What comes after a reply to a poll: an accepted, committed or finalized transaction
    /// stops the wait; a failed one stops it with the error that it was not accepted; a
    /// failed request stops it with that error; a pending or unknown transaction counts one
    /// poll and waits the interval.
    pub fn on_reply(&mut self, reply: AcceptanceReply) -> (r: AcceptanceAction)
        requires
            old(self).attempts < old(self).max_attempts,
        ensures
            r == match reply {
                AcceptanceReply::State(s) => match acceptance_step_spec(Some(s)) {
                    AcceptanceStep::Accepted => AcceptanceAction::Accepted,
                    AcceptanceStep::Failed => AcceptanceAction::NotAccepted,
                    AcceptanceStep::Wait => AcceptanceAction::Wait(old(self).interval),
                },
                AcceptanceReply::NotFound => AcceptanceAction::Wait(old(self).interval),
                AcceptanceReply::RequestFailed => AcceptanceAction::ReturnRequestError,
            },
            final(self).interval == old(self).interval,
            final(self).max_attempts == old(self).max_attempts,
            final(self).attempts == if r is Wait {
                old(self).attempts + 1
            } else {
                old(self).attempts as int
            },
    {
        let step = match reply {
            AcceptanceReply::State(s) => acceptance_step(Some(s)),
            AcceptanceReply::NotFound => AcceptanceStep::Wait,
            AcceptanceReply::RequestFailed => {
                return AcceptanceAction::ReturnRequestError;
            },
        };
        match step {
            AcceptanceStep::Accepted => AcceptanceAction::Accepted,
            AcceptanceStep::Failed => AcceptanceAction::NotAccepted,
            AcceptanceStep::Wait => {
                self.attempts = self.attempts + 1;
                AcceptanceAction::Wait(self.interval)
            },
        }
    }
}

/// The outcome of waiting for acceptance when the node answers `replies` in turn: the
/// action that ends the wait and the number of polls made, or none where the replies run
/// out first.
pub open spec fn acceptance_run(p: AcceptancePoll, replies: Seq<AcceptanceReply>) -> Option<(AcceptanceAction, nat)>
    decreases replies.len(),
{
    if p.attempts >= p.max_attempts {
        Some((AcceptanceAction::NotAccepted, 0))
    } else if replies.len() == 0 {
        None
    } else {
        let r = replies[0];
        match r {
            AcceptanceReply::State(TransactionState::Pending) | AcceptanceReply::NotFound => match acceptance_run(
                AcceptancePoll { attempts: (p.attempts + 1) as u64, ..p },
                replies.drop_first(),
            ) {
                Some((a, n)) => Some((a, n + 1)),
                None => None,
            },
            AcceptanceReply::State(TransactionState::Failed) => Some((AcceptanceAction::NotAccepted, 1)),
            AcceptanceReply::RequestFailed => Some((AcceptanceAction::ReturnRequestError, 1)),
            _ => Some((AcceptanceAction::Accepted, 1)),
        }
    }
}

/// A transaction that stays pending or unknown is polled exactly as many times as allowed,
/// and the wait then ends with the error that it was not accepted.
pub proof fn lemma_pending_polls_all_attempts(p: AcceptancePoll, replies: Seq<AcceptanceReply>)
    requires
        p.attempts <= p.max_attempts,
        replies.len() >= p.max_attempts - p.attempts,
        forall|i: int|
            0 <= i < replies.len() ==> (#[trigger] replies[i] == AcceptanceReply::State(TransactionState::Pending)
                || replies[i] == AcceptanceReply::NotFound),
    ensures
        acceptance_run(p, replies) == Some((AcceptanceAction::NotAccepted, (p.max_attempts - p.attempts) as nat)),
    decreases p.max_attempts - p.attempts,
{
    if p.attempts < p.max_attempts {
        let q = AcceptancePoll { attempts: (p.attempts + 1) as u64, ..p };
        assert forall|i: int| 0 <= i < replies.drop_first().len() implies (#[trigger] replies.drop_first()[i]
            == AcceptanceReply::State(TransactionState::Pending) || replies.drop_first()[i]
            == AcceptanceReply::NotFound) by {
            assert(replies.drop_first()[i] == replies[i + 1]);
        }
        assert(replies[0] == AcceptanceReply::State(TransactionState::Pending) || replies[0] == AcceptanceReply::NotFound);
        lemma_pending_polls_all_attempts(q, replies.drop_first());
    }
}

/// The interval and number of polls: the given ones, or the defaults.
pub open spec fn acceptance_schedule_spec(interval: Option<u64>, max_attempts: Option<u64>) -> (u64, u64) {
    (
        match interval {
            Some(i) => i,
            None => DEFAULT_WAIT_FOR_TX_ACCEPTANCE_INTERVAL_MS,
        },
        match max_attempts {
            Some(m) => m,
            None => DEFAULT_WAIT_FOR_TX_ACCEPTANCE_MAX_ATTEMPTS,
        },
    )
}

} // verus!
