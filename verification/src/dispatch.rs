//! The dispatcher's polling policy: what one poll outcome obliges the
//! surrounding loop to do next, and how long it must wait before polling
//! again.
//!
//! The dispatcher owns the cadence of the poll loop and never performs job
//! work itself.  Each iteration pops once and hands the outcome to [`plan`];
//! the loop then performs the directed action, sleeps for the directed
//! delay, and polls again.  No outcome ever directs the loop to stop: the
//! loop's only exit is an external shutdown signal.

use vstd::prelude::*;

use crate::decode::decode_entry;
use crate::decode::spec_decode;
use crate::decode::DecodeError;
use crate::decode::Job;

verus! {

/// Seconds to wait before the next poll after the queue reported no work.
pub const EMPTY_BACKOFF_SECS: u64 = 1;

/// Seconds to wait before the next poll after a transport error.
pub const ERROR_BACKOFF_SECS: u64 = 5;

/// What one non-blocking pop of the work queue reported.
pub enum PollOutcome {
    /// The queue handed over one raw entry; the dispatcher now owns it.
    Entry(Vec<u8>),
    /// The queue is reachable but has no work.
    Empty,
    /// The queue could not be reached; distinct from an empty queue.
    TransportError,
}

/// What the loop must do with the outcome of one poll.
pub enum Action {
    /// Hand the decoded job to the concurrency supervisor for execution.
    Admit(Job),
    /// Drop the entry after logging the decode failure; the entry is lost
    /// and is not retried.
    Discard(DecodeError),
    /// Nothing to run this iteration (empty queue or transport error).
    Idle,
}

/// One iteration's decision: the action to take now and the least delay,
/// in seconds, before the next poll.
pub struct Directive {
    pub action: Action,
    pub delay_secs: u64,
}

/// The delay the dispatcher directs after a poll outcome: none while work
/// is arriving, a short pause on an empty queue, a longer one after a
/// transport error.
pub open spec fn backoff_for(outcome: &PollOutcome) -> u64 {
    match outcome {
        PollOutcome::Entry(_) => 0,
        PollOutcome::Empty => EMPTY_BACKOFF_SECS,
        PollOutcome::TransportError => ERROR_BACKOFF_SECS,
    }
}

/// Decides one poll-loop iteration.  An entry is decoded and either admitted
/// or discarded with its decode error, and the loop polls again at once; an
/// empty queue or a transport error directs no action and the respective
/// backoff.  Every outcome yields a directive: no outcome, and in particular
/// no malformed entry, can stall or stop the loop.
pub fn plan(outcome: PollOutcome) -> (d: Directive)
    requires
        outcome matches PollOutcome::Entry(raw) ==> raw.len() < usize::MAX,
    ensures
        d.delay_secs == backoff_for(&outcome),
        match outcome {
            PollOutcome::Entry(raw) => match spec_decode(raw@) {
                Ok(p) => d.action matches Action::Admit(job) && job@ == p,
                Err(e) => d.action matches Action::Discard(e2) && e2 == e,
            },
            PollOutcome::Empty => d.action is Idle,
            PollOutcome::TransportError => d.action is Idle,
        },
{
    match outcome {
        PollOutcome::Entry(raw) => match decode_entry(raw.as_slice()) {
            Ok(job) => Directive { action: Action::Admit(job), delay_secs: 0 },
            Err(e) => Directive { action: Action::Discard(e), delay_secs: 0 },
        },
        PollOutcome::Empty => Directive { action: Action::Idle, delay_secs: EMPTY_BACKOFF_SECS },
        PollOutcome::TransportError => Directive {
            action: Action::Idle,
            delay_secs: ERROR_BACKOFF_SECS,
        },
    }
}

/// A faithful run of the poll loop: `polls[k]` is the instant, in seconds,
/// of the `k`-th pop, `outcomes[k]` what it reported.  The loop is faithful
/// when each next pop waits at least the delay the dispatcher directed.
pub open spec fn faithful_run(polls: Seq<int>, outcomes: Seq<PollOutcome>) -> bool {
    &&& polls.len() == outcomes.len() + 1
    &&& forall|k: int|
        0 <= k < outcomes.len() ==> polls[k + 1] >= polls[k] + backoff_for(&outcomes[k])
}

/// After a transport error, the next pop attempt comes no sooner than the
/// error backoff after the failed one.
pub proof fn lemma_error_backoff(polls: Seq<int>, outcomes: Seq<PollOutcome>, k: int)
    requires
        faithful_run(polls, outcomes),
        0 <= k < outcomes.len(),
        outcomes[k] is TransportError,
    ensures
        polls[k + 1] - polls[k] >= ERROR_BACKOFF_SECS,
{
}

/// After an empty-queue result, the next pop attempt comes no sooner than
/// the empty backoff after it.
pub proof fn lemma_empty_backoff(polls: Seq<int>, outcomes: Seq<PollOutcome>, k: int)
    requires
        faithful_run(polls, outcomes),
        0 <= k < outcomes.len(),
        outcomes[k] is Empty,
    ensures
        polls[k + 1] - polls[k] >= EMPTY_BACKOFF_SECS,
{
}

/// Two consecutive empty polls put the third pop attempt at least twice the
/// empty backoff after the first.
pub proof fn lemma_two_empty_polls(polls: Seq<int>, outcomes: Seq<PollOutcome>, k: int)
    requires
        faithful_run(polls, outcomes),
        0 <= k,
        k + 1 < outcomes.len(),
        outcomes[k] is Empty,
        outcomes[k + 1] is Empty,
    ensures
        polls[k + 2] - polls[k] >= 2 * EMPTY_BACKOFF_SECS,
{
}

/// A malformed entry never stalls the loop: the dispatcher directs no delay,
/// so in a faithful run the next pop may come at once, and the iteration
/// after a decode failure still polls.
pub proof fn lemma_decode_failure_keeps_polling(outcome: PollOutcome)
    requires
        outcome matches PollOutcome::Entry(raw) && spec_decode(raw@) is Err,
    ensures
        backoff_for(&outcome) == 0,
{
}

} // verus!
