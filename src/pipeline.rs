//! The submission pipeline: a balance check, an optional dry run that sets the
//! compute-unit ceiling, a broadcast with bounded retries and backoff, and
//! optional polling for confirmation. The pipeline decides; whoever drives it
//! performs each action it asks for and hands back what came of it.

use vstd::prelude::*;
use solana_program::instruction::Instruction;

verus! {

#[verifier::external_type_specification]
#[verifier::external_body]
pub struct ExInstruction(Instruction);

/// Relies on solana_sdk::compute_budget::ComputeBudgetInstruction::set_compute_unit_limit
/// to build the instruction that caps a transaction's compute units at `units`.
#[verifier::external_body]
fn compute_unit_limit_instruction(units: u32) -> Instruction {
    solana_sdk::compute_budget::ComputeBudgetInstruction::set_compute_unit_limit(units)
}

/// Dry runs tried before the submission is given up.
pub const SIMULATION_ATTEMPTS: u64 = 4;

/// Broadcasts tried before the submission is given up.
pub const SEND_ATTEMPTS: u64 = 4;

/// Status polls made before confirmation is given up.
pub const CONFIRM_ATTEMPTS: u64 = 4;

/// Seconds to wait after a failed broadcast before the next one.
pub const SEND_BACKOFF_SECS: u64 = 2;

/// Seconds to wait before each status poll.
pub const POLL_INTERVAL_SECS: u64 = 2;

/// Compute units added to what the dry run used.
pub const COMPUTE_UNIT_MARGIN: u64 = 1000;

/// How final the ledger reports a transaction to be.
#[derive(Clone, Copy, Debug, PartialEq, Eq, Structural)]
pub enum Finality {
    Processed,
    Confirmed,
    Finalized,
}

/// How a submission ended.
#[derive(Clone, Copy, Debug)]
pub enum Outcome<R> {
    /// Sent and seen at confirmed finality or stronger.
    Confirmed(R),
    /// Sent, with confirmation not asked for.
    Sent(R),
    /// The signer holds nothing to pay with.
    InsufficientBalance,
    /// The signer's balance could not be read.
    BalanceUnavailable,
    /// No dry run succeeded within its attempts.
    SimulationFailed,
    /// No broadcast succeeded within its attempts.
    SendFailed,
    /// Sent, but never seen as confirmed within the polls.
    ConfirmationTimedOut,
}

/// Where a submission stands.
#[derive(Clone, Copy, Debug)]
pub enum Phase<R> {
    CheckingBalance,
    Simulating { failures: u64 },
    Sending { failures: u64 },
    Confirming { receipt: R, polls: u64 },
    Done(Outcome<R>),
}

/// What the driver reports back.
#[derive(Clone, Copy, Debug)]
pub enum Event<R> {
    /// The signer's balance.
    Balance(u64),
    /// The balance query failed.
    BalanceUnavailable,
    /// The dry run succeeded, with the compute units it used where reported.
    Simulated(Option<u64>),
    /// The dry run reported an execution error, or did not get through.
    SimulationError,
    /// The broadcast was accepted under this receipt.
    SendOk(R),
    /// The broadcast did not get through.
    SendError,
    /// The status poll's answer, if the ledger knows the transaction.
    Status(Option<Finality>),
    /// The status poll did not get through.
    StatusUnavailable,
}

/// What the driver is asked to do next.
#[derive(Clone, Copy, Debug)]
pub enum Action<R> {
    QueryBalance,
    Simulate,
    /// Broadcast, after waiting the given seconds.
    Send { wait_secs: u64 },
    /// Poll the status, after waiting the given seconds.
    Poll { wait_secs: u64 },
    /// Stop: the submission has ended.
    Finish(Outcome<R>),
}

/// The state of one submission.
#[derive(Clone, Copy, Debug)]
pub struct Pipeline<R> {
    /// Whether a dry run sets the compute-unit ceiling before the broadcast.
    pub simulate: bool,
    /// Whether the broadcast alone ends the submission.
    pub skip_confirm: bool,
    /// The compute-unit ceiling to put in front of the instructions.
    pub cost_ceiling: Option<u32>,
    pub phase: Phase<R>,
}

/// The compute-unit ceiling for a dry run that used `units`: the usage plus
/// the margin, held to what fits in 32 bits.
pub open spec fn ceiling_for(units: u64) -> u32 {
    if units + COMPUTE_UNIT_MARGIN > u32::MAX {
        u32::MAX
    } else {
        (units + COMPUTE_UNIT_MARGIN) as u32
    }
}

/// Whether a status ends the polling with success.
pub open spec fn is_confirmed(status: Option<Finality>) -> bool {
    status == Some(Finality::Confirmed) || status == Some(Finality::Finalized)
}

/// The action a pipeline in `phase` waits on the outcome of.
pub open spec fn pending<R>(phase: Phase<R>) -> Action<R> {
    match phase {
        Phase::CheckingBalance => Action::QueryBalance,
        Phase::Simulating { .. } => Action::Simulate,
        Phase::Sending { failures } => Action::Send {
            wait_secs: if failures == 0 {
                0
            } else {
                SEND_BACKOFF_SECS
            },
        },
        Phase::Confirming { .. } => Action::Poll { wait_secs: POLL_INTERVAL_SECS },
        Phase::Done(o) => Action::Finish(o),
    }
}

/// The phase after a successful balance check.
pub open spec fn first_stage<R>(simulate: bool) -> Phase<R> {
    if simulate {
        Phase::Simulating { failures: 0 }
    } else {
        Phase::Sending { failures: 0 }
    }
}

/// The new state of `p` after `ev`; an event that does not answer what the
/// pipeline waits on, or comes after the end, changes nothing. A dry run that
/// succeeds without reporting its compute units counts as a failed attempt:
/// it leaves nothing to set the ceiling from.
pub open spec fn next<R>(p: Pipeline<R>, ev: Event<R>) -> Pipeline<R> {
    match (p.phase, ev) {
        (Phase::CheckingBalance, Event::Balance(b)) => Pipeline {
            phase: if b == 0 {
                Phase::Done(Outcome::InsufficientBalance)
            } else {
                first_stage(p.simulate)
            },
            ..p
        },
        (Phase::CheckingBalance, Event::BalanceUnavailable) => Pipeline {
            phase: Phase::Done(Outcome::BalanceUnavailable),
            ..p
        },
        (Phase::Simulating { failures }, Event::Simulated(Some(units))) => Pipeline {
            cost_ceiling: Some(ceiling_for(units)),
            phase: Phase::Sending { failures: 0 },
            ..p
        },
        (Phase::Simulating { failures }, Event::Simulated(None))
        | (Phase::Simulating { failures }, Event::SimulationError) => Pipeline {
            phase: if failures + 1 >= SIMULATION_ATTEMPTS {
                Phase::Done(Outcome::SimulationFailed)
            } else {
                Phase::Simulating { failures: (failures + 1) as u64 }
            },
            ..p
        },
        (Phase::Sending { failures }, Event::SendOk(r)) => Pipeline {
            phase: if p.skip_confirm {
                Phase::Done(Outcome::Sent(r))
            } else {
                Phase::Confirming { receipt: r, polls: 0 }
            },
            ..p
        },
        (Phase::Sending { failures }, Event::SendError) => Pipeline {
            phase: if failures + 1 >= SEND_ATTEMPTS {
                Phase::Done(Outcome::SendFailed)
            } else {
                Phase::Sending { failures: (failures + 1) as u64 }
            },
            ..p
        },
        (Phase::Confirming { receipt, polls }, Event::Status(s)) => Pipeline {
            phase: if is_confirmed(s) {
                Phase::Done(Outcome::Confirmed(receipt))
            } else if polls + 1 >= CONFIRM_ATTEMPTS {
                Phase::Done(Outcome::ConfirmationTimedOut)
            } else {
                Phase::Confirming { receipt, polls: (polls + 1) as u64 }
            },
            ..p
        },
        (Phase::Confirming { receipt, polls }, Event::StatusUnavailable) => Pipeline {
            phase: if polls + 1 >= CONFIRM_ATTEMPTS {
                Phase::Done(Outcome::ConfirmationTimedOut)
            } else {
                Phase::Confirming { receipt, polls: (polls + 1) as u64 }
            },
            ..p
        },
        _ => p,
    }
}

/// Counters stay below their bounds.
pub open spec fn phase_wf<R>(phase: Phase<R>) -> bool {
    match phase {
        Phase::Simulating { failures } => failures < SIMULATION_ATTEMPTS,
        Phase::Sending { failures } => failures < SEND_ATTEMPTS,
        Phase::Confirming { polls, .. } => polls < CONFIRM_ATTEMPTS,
        _ => true,
    }
}

/// The compute-unit ceiling for a dry run that used `units`.
pub fn compute_unit_ceiling(units: u64) -> (r: u32)
    ensures
        r == ceiling_for(units),
{
    if units >= u32::MAX as u64 || u32::MAX as u64 - units < COMPUTE_UNIT_MARGIN {
        u32::MAX
    } else {
        (units + COMPUTE_UNIT_MARGIN) as u32
    }
}

impl<R: Copy> Pipeline<R> {
    /// A submission about to check the signer's balance.
    pub fn new(simulate: bool, skip_confirm: bool) -> (p: Pipeline<R>)
        ensures
            p.simulate == simulate,
            p.skip_confirm == skip_confirm,
            p.cost_ceiling is None,
            p.phase is CheckingBalance,
            p.wf(),
    {
        Pipeline { simulate, skip_confirm, cost_ceiling: None, phase: Phase::CheckingBalance }
    }

    pub open spec fn wf(&self) -> bool {
        phase_wf(self.phase)
    }

    /// What the driver is to do now.
    pub fn action(&self) -> (a: Action<R>)
        ensures
            a == pending(self.phase),
    {
        match self.phase {
            Phase::CheckingBalance => Action::QueryBalance,
            Phase::Simulating { .. } => Action::Simulate,
            Phase::Sending { failures } => Action::Send {
                wait_secs: if failures == 0 {
                    0
                } else {
                    SEND_BACKOFF_SECS
                },
            },
            Phase::Confirming { .. } => Action::Poll { wait_secs: POLL_INTERVAL_SECS },
            Phase::Done(o) => Action::Finish(o),
        }
    }

    /// Whether the submission has ended, and how.
    pub fn outcome(&self) -> (o: Option<Outcome<R>>)
        ensures
            match self.phase {
                Phase::Done(x) => o == Some(x),
                _ => o is None,
            },
    {
        match self.phase {
            Phase::Done(x) => Some(x),
            _ => None,
        }
    }

    /// The instructions to broadcast: those given, behind an instruction that
    /// sets the compute-unit ceiling where a dry run fixed one.
    pub fn instructions_to_send(&self, ixs: Vec<Instruction>) -> (r: Vec<Instruction>)
        requires
            ixs@.len() < usize::MAX,
        ensures
            match self.cost_ceiling {
                Some(_) => r@.len() == ixs@.len() + 1 && r@.drop_first() == ixs@,
                None => r@ == ixs@,
            },
    {
        let mut r = ixs;
        match self.cost_ceiling {
            Some(units) => {
                r.insert(0, compute_unit_limit_instruction(units));
                assert(r@.drop_first() =~= ixs@);
            },
            None => {},
        }
        r
    }

    /// Takes in what came of the last action and returns the next one.
    pub fn on_event(&mut self, ev: Event<R>) -> (a: Action<R>)
        requires
            old(self).wf(),
        ensures
            final(self).wf(),
            *final(self) == next(*old(self), ev),
            a == pending(final(self).phase),
    {
        match (self.phase, ev) {
            (Phase::CheckingBalance, Event::Balance(b)) => {
                self.phase = if b == 0 {
                    Phase::Done(Outcome::InsufficientBalance)
                } else if self.simulate {
                    Phase::Simulating { failures: 0 }
                } else {
                    Phase::Sending { failures: 0 }
                };
            },
            (Phase::CheckingBalance, Event::BalanceUnavailable) => {
                self.phase = Phase::Done(Outcome::BalanceUnavailable);
            },
            (Phase::Simulating { .. }, Event::Simulated(Some(units))) => {
                self.cost_ceiling = Some(compute_unit_ceiling(units));
                self.phase = Phase::Sending { failures: 0 };
            },
            (Phase::Simulating { failures }, Event::Simulated(None))
            | (Phase::Simulating { failures }, Event::SimulationError) => {
                self.phase = if failures + 1 >= SIMULATION_ATTEMPTS {
                    Phase::Done(Outcome::SimulationFailed)
                } else {
                    Phase::Simulating { failures: failures + 1 }
                };
            },
            (Phase::Sending { .. }, Event::SendOk(r)) => {
                self.phase = if self.skip_confirm {
                    Phase::Done(Outcome::Sent(r))
                } else {
                    Phase::Confirming { receipt: r, polls: 0 }
                };
            },
            (Phase::Sending { failures }, Event::SendError) => {
                self.phase = if failures + 1 >= SEND_ATTEMPTS {
                    Phase::Done(Outcome::SendFailed)
                } else {
                    Phase::Sending { failures: failures + 1 }
                };
            },
            (Phase::Confirming { receipt, polls }, Event::Status(s)) => {
                let confirmed = match s {
                    Some(Finality::Confirmed) | Some(Finality::Finalized) => true,
                    _ => false,
                };
                self.phase = if confirmed {
                    Phase::Done(Outcome::Confirmed(receipt))
                } else if polls + 1 >= CONFIRM_ATTEMPTS {
                    Phase::Done(Outcome::ConfirmationTimedOut)
                } else {
                    Phase::Confirming { receipt, polls: polls + 1 }
                };
            },
            (Phase::Confirming { receipt, polls }, Event::StatusUnavailable) => {
                self.phase = if polls + 1 >= CONFIRM_ATTEMPTS {
                    Phase::Done(Outcome::ConfirmationTimedOut)
                } else {
                    Phase::Confirming { receipt, polls: polls + 1 }
                };
            },
            _ => {},
        }
        self.action()
    }
}

/// The state after each of `evs` in turn.
pub open spec fn run<R>(p: Pipeline<R>, evs: Seq<Event<R>>) -> Pipeline<R>
    decreases evs.len(),
{
    if evs.len() == 0 {
        p
    } else {
        next(run(p, evs.drop_last()), evs.last())
    }
}

/// The actions asked for along the way, one after each of `evs`.
pub open spec fn actions<R>(p: Pipeline<R>, evs: Seq<Event<R>>) -> Seq<Action<R>>
    decreases evs.len(),
{
    if evs.len() == 0 {
        Seq::empty()
    } else {
        actions(p, evs.drop_last()).push(pending(run(p, evs).phase))
    }
}

/// `k` copies of one event.
pub open spec fn repeated<R>(ev: Event<R>, k: nat) -> Seq<Event<R>> {
    Seq::new(k, |_i: int| ev)
}

/// A poll that does not end the polling with success.
pub open spec fn is_unconfirmed_poll<R>(ev: Event<R>) -> bool {
    match ev {
        Event::Status(s) => !is_confirmed(s),
        Event::StatusUnavailable => true,
        _ => false,
    }
}

/// Once the first event ends a submission, it stays ended, and every action
/// asked for from then on is to finish with the same outcome.
pub proof fn lemma_end_is_final<R>(p: Pipeline<R>, evs: Seq<Event<R>>, o: Outcome<R>)
    requires
        evs.len() >= 1,
        next(p, evs[0]).phase == Phase::Done(o),
    ensures
        run(p, evs).phase == Phase::Done(o),
        actions(p, evs).len() == evs.len(),
        forall|i: int| 0 <= i < evs.len() ==> #[trigger] actions(p, evs)[i] == Action::Finish(o),
    decreases evs.len(),
{
    let front = evs.drop_last();
    if evs.len() == 1 {
        assert(front =~= Seq::<Event<R>>::empty());
        assert(run(p, front) == p);
        assert(actions(p, front) == Seq::<Action<R>>::empty());
    } else {
        assert(front[0] == evs[0]);
        lemma_end_is_final(p, front, o);
    }
    assert(run(p, evs) == next(run(p, front), evs.last()));
    assert(actions(p, evs) == actions(p, front).push(pending(run(p, evs).phase)));
}

/// With a balance of zero the submission ends at once as insufficient, and no
/// dry run or broadcast is ever asked for, whatever events follow.
pub proof fn lemma_balance_guard<R>(simulate: bool, skip_confirm: bool, evs: Seq<Event<R>>)
    requires
        evs.len() >= 1,
        evs[0] == Event::<R>::Balance(0),
    ensures
        ({
            let p = Pipeline::<R> {
                simulate,
                skip_confirm,
                cost_ceiling: None,
                phase: Phase::CheckingBalance,
            };
            &&& run(p, evs).phase == Phase::<R>::Done(Outcome::InsufficientBalance)
            &&& forall|i: int|
                0 <= i < evs.len() ==> !(#[trigger] actions(p, evs)[i] is Simulate)
                    && !(actions(p, evs)[i] is Send)
        }),
{
    let p = Pipeline::<R> {
        simulate,
        skip_confirm,
        cost_ceiling: None,
        phase: Phase::CheckingBalance,
    };
    lemma_end_is_final(p, evs, Outcome::InsufficientBalance);
}

/// Without confirmation, an accepted broadcast alone ends the submission as
/// sent, and no status poll is ever asked for, whatever events follow.
pub proof fn lemma_skip_confirm<R>(p: Pipeline<R>, receipt: R, evs: Seq<Event<R>>)
    requires
        p.skip_confirm,
        p.phase is Sending,
        evs.len() >= 1,
        evs[0] == Event::SendOk(receipt),
    ensures
        run(p, evs).phase == Phase::Done(Outcome::Sent(receipt)),
        forall|i: int| 0 <= i < evs.len() ==> !(#[trigger] actions(p, evs)[i] is Poll),
{
    lemma_end_is_final(p, evs, Outcome::Sent(receipt));
}

proof fn lemma_send_failures<R>(p: Pipeline<R>, k: nat)
    requires
        p.phase == (Phase::<R>::Sending { failures: 0 }),
        k <= SEND_ATTEMPTS,
    ensures
        run(p, repeated(Event::SendError, k)).skip_confirm == p.skip_confirm,
        k < SEND_ATTEMPTS ==> run(p, repeated(Event::SendError, k)).phase == (Phase::<R>::Sending {
            failures: k as u64,
        }),
        k == SEND_ATTEMPTS ==> run(p, repeated(Event::SendError, k)).phase == Phase::<R>::Done(
            Outcome::SendFailed,
        ),
        actions(p, repeated(Event::SendError, k)).len() == k,
        forall|i: int|
            0 <= i < k && i + 1 < SEND_ATTEMPTS ==> #[trigger] actions(
                p,
                repeated(Event::SendError, k),
            )[i] == (Action::<R>::Send { wait_secs: SEND_BACKOFF_SECS }),
    decreases k,
{
    if k > 0 {
        let k1 = (k - 1) as nat;
        assert(repeated(Event::<R>::SendError, k).drop_last() =~= repeated(Event::SendError, k1));
        lemma_send_failures(p, k1);
    }
}

/// A broadcast that fails fewer times than its bound and then gets through
/// ends as sent, or goes on to confirmation.
pub proof fn lemma_send_recovers<R>(p: Pipeline<R>, k: nat, receipt: R)
    requires
        p.phase == (Phase::<R>::Sending { failures: 0 }),
        k < SEND_ATTEMPTS,
    ensures
        p.skip_confirm ==> run(p, repeated(Event::SendError, k).push(Event::SendOk(receipt))).phase
            == Phase::Done(Outcome::Sent(receipt)),
        !p.skip_confirm ==> run(p, repeated(Event::SendError, k).push(Event::SendOk(receipt))).phase
            == (Phase::Confirming { receipt, polls: 0 }),
{
    lemma_send_failures(p, k);
    let evs = repeated(Event::SendError, k).push(Event::SendOk(receipt));
    assert(evs.drop_last() =~= repeated(Event::SendError, k));
}

/// A broadcast that always fails is tried exactly as many times as its bound:
/// the first try, a retry after backoff for each failure but the last, and
/// then the submission ends as failed to send.
pub proof fn lemma_send_gives_up<R>(p: Pipeline<R>)
    requires
        p.phase == (Phase::<R>::Sending { failures: 0 }),
    ensures
        pending(p.phase) == (Action::<R>::Send { wait_secs: 0 }),
        run(p, repeated(Event::SendError, SEND_ATTEMPTS as nat)).phase == Phase::<R>::Done(
            Outcome::SendFailed,
        ),
        actions(p, repeated(Event::SendError, SEND_ATTEMPTS as nat)) =~= (seq![
            Action::<R>::Send { wait_secs: SEND_BACKOFF_SECS },
            Action::<R>::Send { wait_secs: SEND_BACKOFF_SECS },
            Action::<R>::Send { wait_secs: SEND_BACKOFF_SECS },
            Action::<R>::Finish(Outcome::SendFailed),
        ]),
{
    let evs = repeated(Event::<R>::SendError, SEND_ATTEMPTS as nat);
    lemma_send_failures(p, SEND_ATTEMPTS as nat);
    assert(actions(p, evs)[0] == Action::<R>::Send { wait_secs: SEND_BACKOFF_SECS });
    assert(actions(p, evs)[1] == Action::<R>::Send { wait_secs: SEND_BACKOFF_SECS });
    assert(actions(p, evs)[2] == Action::<R>::Send { wait_secs: SEND_BACKOFF_SECS });
}

proof fn lemma_unconfirmed_polls<R>(p: Pipeline<R>, receipt: R, evs: Seq<Event<R>>)
    requires
        p.phase == (Phase::Confirming { receipt, polls: 0 }),
        evs.len() <= CONFIRM_ATTEMPTS,
        forall|i: int| 0 <= i < evs.len() ==> is_unconfirmed_poll(#[trigger] evs[i]),
    ensures
        evs.len() < CONFIRM_ATTEMPTS ==> run(p, evs).phase == (Phase::Confirming {
            receipt,
            polls: evs.len() as u64,
        }),
        evs.len() == CONFIRM_ATTEMPTS ==> run(p, evs).phase == Phase::<R>::Done(
            Outcome::ConfirmationTimedOut,
        ),
    decreases evs.len(),
{
    if evs.len() > 0 {
        let front = evs.drop_last();
        assert forall|i: int| 0 <= i < front.len() implies is_unconfirmed_poll(
            #[trigger] front[i],
        ) by {
            assert(front[i] == evs[i]);
        }
        lemma_unconfirmed_polls(p, receipt, front);
        assert(is_unconfirmed_poll(evs[evs.len() - 1]));
    }
}

/// Polls that see the transaction only as processed, then one that sees it
/// confirmed, end the submission as confirmed, so long as the polls fit the
/// bound.
pub proof fn lemma_confirmed_within_bound<R>(p: Pipeline<R>, receipt: R, k: nat)
    requires
        p.phase == (Phase::Confirming { receipt, polls: 0 }),
        k < CONFIRM_ATTEMPTS,
    ensures
        run(
            p,
            repeated(Event::Status(Some(Finality::Processed)), k).push(
                Event::Status(Some(Finality::Confirmed)),
            ),
        ).phase == Phase::Done(Outcome::Confirmed(receipt)),
{
    let weak = repeated(Event::<R>::Status(Some(Finality::Processed)), k);
    lemma_unconfirmed_polls(p, receipt, weak);
    let evs = weak.push(Event::Status(Some(Finality::Confirmed)));
    assert(evs.drop_last() =~= weak);
}

/// As many polls as the bound, none of them confirming, end the submission as
/// timed out.
pub proof fn lemma_confirmation_times_out<R>(p: Pipeline<R>, receipt: R, evs: Seq<Event<R>>)
    requires
        p.phase == (Phase::Confirming { receipt, polls: 0 }),
        evs.len() == CONFIRM_ATTEMPTS,
        forall|i: int| 0 <= i < evs.len() ==> is_unconfirmed_poll(#[trigger] evs[i]),
    ensures
        run(p, evs).phase == Phase::<R>::Done(Outcome::ConfirmationTimedOut),
{
    lemma_unconfirmed_polls(p, receipt, evs);
}

} // verus!
