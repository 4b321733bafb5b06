//! The job executor: running one decoded job to completion.
//!
//! Handlers are keyed by the job's `job_type` discriminator over a closed
//! set of kinds.  An unknown kind is a distinct, loggable error, never a
//! panic: execution of any job, known or not, returns a report, so one job's
//! outcome cannot crash the process, the poll loop, or a sibling execution.
//! Success and failure are both terminal; nothing is retried or requeued.

use vstd::prelude::*;

use crate::decode::Job;

verus! {

/// The discriminator bytes of the `echo` kind, the one built-in handler.
pub open spec fn echo_kind() -> Seq<u8> {
    seq![0x65u8, 0x63u8, 0x68u8, 0x6fu8]
}

/// How one execution ended.  Both variants are terminal.
#[derive(Clone, Copy, Debug, PartialEq, Eq, Structural)]
pub enum ExecOutcome {
    /// The handler for the job's kind finished without error.
    Succeeded,
    /// No handler is registered for the job's kind; reported and dropped,
    /// never retried.
    UnknownKind,
}

/// The outcome executing a job must produce: the `echo` handler succeeds on
/// its kind, and every other discriminator is the handled unknown-kind
/// error.
pub open spec fn spec_execute(job_type: Seq<u8>) -> ExecOutcome {
    if job_type == echo_kind() {
        ExecOutcome::Succeeded
    } else {
        ExecOutcome::UnknownKind
    }
}

/// The `echo` handler: reproduces the job's payload bytes unchanged.
pub fn run_echo(payload: &Vec<u8>) -> (out: Vec<u8>)
    ensures
        out@ == payload@,
{
    let mut out: Vec<u8> = Vec::new();
    let mut k: usize = 0;
    while k < payload.len()
        invariant
            0 <= k <= payload.len(),
            out@ == payload@.subrange(0, k as int),
        decreases payload.len() - k,
    {
        out.push(payload[k]);
        proof {
            assert(out@ =~= payload@.subrange(0, k + 1));
        }
        k = k + 1;
    }
    proof {
        assert(out@ =~= payload@);
    }
    out
}

/// Runs one job: selects the handler for its kind and reports the terminal
/// outcome.  Total over all jobs, so no entry, whatever its kind, can crash
/// the executor; an unknown kind comes back as its own error.  The echoed
/// bytes accompany a success.
pub fn execute(job: &Job) -> (r: (ExecOutcome, Option<Vec<u8>>))
    ensures
        r.0 == spec_execute(job.job_type@),
        r.0 is Succeeded ==> (r.1 matches Some(out) && out@ == job.payload@),
        r.0 is UnknownKind ==> r.1 is None,
{
    let jt = job.job_type.as_slice();
    if jt.len() == 4 && jt[0] == 0x65 && jt[1] == 0x63 && jt[2] == 0x68 && jt[3] == 0x6f {
        proof {
            assert(job.job_type@ =~= echo_kind());
        }
        (ExecOutcome::Succeeded, Some(run_echo(&job.payload)))
    } else {
        proof {
            assert(job.job_type@ != echo_kind());
        }
        (ExecOutcome::UnknownKind, None)
    }
}

/// An unknown `job_type` is always the handled unknown-kind error: execution
/// still returns a report, and the process does not crash.
pub proof fn lemma_unknown_kind_is_handled(job_type: Seq<u8>)
    requires
        job_type != echo_kind(),
    ensures
        spec_execute(job_type) == ExecOutcome::UnknownKind,
{
}

} // verus!
