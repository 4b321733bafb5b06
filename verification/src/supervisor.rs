//! The concurrency supervisor: the record of every execution the process
//! has admitted and how far each has come.
//!
//! Admission is unbounded, as the dispatcher requires: every decoded job is
//! admitted at once, and admission never refuses.  Each admitted job walks
//! the state machine `Admitted -> Running -> Succeeded | Failed`; there is
//! no transition back and no retry.  One job's progress never touches a
//! sibling's record, so a failing execution is isolated from the loop and
//! from other in-flight jobs.

use vstd::prelude::*;

verus! {

/// How far one admitted execution has come.
#[derive(Clone, Copy, Debug, PartialEq, Eq, Structural)]
pub enum JobState {
    /// Handed to an execution unit, not yet started.
    Admitted,
    /// The execution unit is running the handler.
    Running,
    /// Terminal: the handler finished without error.
    Succeeded,
    /// Terminal: the handler reported an error; the job is not retried.
    Failed,
}

/// Terminal states are never left.
pub open spec fn is_terminal(st: JobState) -> bool {
    st == JobState::Succeeded || st == JobState::Failed
}

/// Tracks every admitted execution by a dense id, in admission order.
pub struct Supervisor {
    states: Vec<JobState>,
}

impl Supervisor {
    /// The state of each admitted execution, indexed by id.
    pub closed spec fn view(&self) -> Seq<JobState> {
        self.states@
    }

    /// A fresh supervisor that has admitted nothing.
    pub fn new() -> (s: Supervisor)
        ensures
            s@ == Seq::<JobState>::empty(),
    {
        Supervisor { states: Vec::new() }
    }

    /// How many executions have been admitted so far.
    pub fn admitted_count(&self) -> (n: usize)
        ensures
            n == self@.len(),
    {
        self.states.len()
    }

    /// The state of the execution with the given id.
    pub fn state_of(&self, id: usize) -> (st: JobState)
        requires
            id < self@.len(),
        ensures
            st == self@[id as int],
    {
        self.states[id]
    }

    /// Admits one decoded job for execution, returning its id.  Admission is
    /// unbounded: it appends a record and never refuses or touches an
    /// existing one.
    pub fn admit_job(&mut self) -> (id: usize)
        ensures
            id == old(self)@.len(),
            final(self)@ == old(self)@.push(JobState::Admitted),
    {
        let id = self.states.len();
        self.states.push(JobState::Admitted);
        id
    }

    /// Marks an admitted execution as running.  Only that record changes.
    pub fn begin(&mut self, id: usize)
        requires
            id < old(self)@.len(),
            old(self)@[id as int] == JobState::Admitted,
        ensures
            final(self)@ == old(self)@.update(id as int, JobState::Running),
    {
        self.states[id] = JobState::Running;
    }

    /// Marks a running execution as terminal: succeeded, or failed.  Failure
    /// is terminal and not retried; only that record changes, so a failing
    /// job cannot affect a sibling execution or the poll loop.
    pub fn complete(&mut self, id: usize, success: bool)
        requires
            id < old(self)@.len(),
            old(self)@[id as int] == JobState::Running,
        ensures
            final(self)@ == old(self)@.update(
                id as int,
                if success {
                    JobState::Succeeded
                } else {
                    JobState::Failed
                },
            ),
            is_terminal(final(self)@[id as int]),
    {
        self.states[id] = if success {
            JobState::Succeeded
        } else {
            JobState::Failed
        };
    }

    /// How many admitted executions have not yet reached a terminal state.
    pub fn in_flight(&self) -> (n: usize)
        ensures
            n == count_in_flight(self@),
    {
        let mut n: usize = 0;
        let mut k: usize = 0;
        while k < self.states.len()
            invariant
                0 <= k <= self@.len(),
                n == count_in_flight(self@.subrange(0, k as int)),
                n <= k,
            decreases self@.len() - k,
        {
            proof {
                assert(self@.subrange(0, k + 1).drop_last() =~= self@.subrange(0, k as int));
                assert(self@.subrange(0, k + 1).last() == self@[k as int]);
            }
            if !matches!(self.states[k], JobState::Succeeded | JobState::Failed) {
                n = n + 1;
            }
            k = k + 1;
        }
        proof {
            assert(self@.subrange(0, self@.len() as int) =~= self@);
        }
        n
    }
}

/// How many states in the sequence are not terminal.
pub open spec fn count_in_flight(sts: Seq<JobState>) -> int
    decreases sts.len(),
{
    if sts.len() == 0 {
        0
    } else {
        count_in_flight(sts.drop_last()) + if is_terminal(sts.last()) {
            0int
        } else {
            1int
        }
    }
}

/// The process may drain and exit exactly when nothing is in flight: a zero
/// in-flight count says that every admitted job has reached a terminal
/// state, so stopping then loses no already-popped job.
pub proof fn lemma_drained_means_all_terminal(sts: Seq<JobState>)
    ensures
        count_in_flight(sts) == 0 <==> (forall|k: int| 0 <= k < sts.len() ==> is_terminal(sts[k])),
    decreases sts.len(),
{
    if sts.len() > 0 {
        lemma_drained_means_all_terminal(sts.drop_last());
        lemma_in_flight_bounds(sts.drop_last());
        assert(forall|k: int| 0 <= k < sts.len() - 1 ==> sts.drop_last()[k] == sts[k]);
        assert(sts.last() == sts[sts.len() - 1]);
    }
}

/// The in-flight count never undercounts or overcounts: it lies between
/// zero and the number of admitted jobs.
pub proof fn lemma_in_flight_bounds(sts: Seq<JobState>)
    ensures
        0 <= count_in_flight(sts) <= sts.len(),
    decreases sts.len(),
{
    if sts.len() > 0 {
        lemma_in_flight_bounds(sts.drop_last());
    }
}

/// The states after admitting `n` jobs in immediate succession.
pub open spec fn admit_burst(sts: Seq<JobState>, n: nat) -> Seq<JobState>
    decreases n,
{
    if n == 0 {
        sts
    } else {
        admit_burst(sts, (n - 1) as nat).push(JobState::Admitted)
    }
}

/// A burst of `n` admissions admits all `n` jobs: each gets its own record,
/// in admission order, and no earlier record is touched.
pub proof fn lemma_burst_admits_all(sts: Seq<JobState>, n: nat)
    ensures
        admit_burst(sts, n).len() == sts.len() + n,
        forall|k: int| 0 <= k < sts.len() ==> admit_burst(sts, n)[k] == sts[k],
        forall|k: int|
            sts.len() <= k < sts.len() + n ==> admit_burst(sts, n)[k] == JobState::Admitted,
    decreases n,
{
    if n > 0 {
        lemma_burst_admits_all(sts, (n - 1) as nat);
    }
}

/// Every admitted job can reach a terminal state: starting and completing
/// its execution leaves it terminal, and no sibling record moves at any
/// step.  Completion order across jobs is thus unconstrained, and one job's
/// failure cannot affect another.
pub proof fn lemma_admitted_job_reaches_terminal(sts: Seq<JobState>, id: int, success: bool)
    requires
        0 <= id < sts.len(),
        sts[id] == JobState::Admitted,
    ensures
        ({
            let run = sts.update(id, JobState::Running);
            let done = run.update(
                id,
                if success {
                    JobState::Succeeded
                } else {
                    JobState::Failed
                },
            );
            &&& run[id] == JobState::Running
            &&& is_terminal(done[id])
            &&& done.len() == sts.len()
            &&& forall|k: int| 0 <= k < sts.len() && k != id ==> done[k] == sts[k]
        }),
{
}

} // verus!
