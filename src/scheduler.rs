use vstd::prelude::*;
use crate::extract::ExtractionOutcome;
use crate::gate::ConcurrencyGate;

verus! {

/// The tally of a run: how many units succeeded and how many failed.
#[derive(Debug, Clone, Copy, PartialEq, Eq, Structural)]
pub struct RunSummary {
    pub successful: usize,
    pub failed: usize,
}

impl RunSummary {
    /// A tally of no units.
    pub fn new() -> (r: Self)
        ensures
            r.successful == 0,
            r.failed == 0,
    {
        RunSummary { successful: 0, failed: 0 }
    }

    /// Counts one more outcome.
    pub fn record(&mut self, outcome: &ExtractionOutcome)
        requires
            old(self).successful + old(self).failed < usize::MAX,
        ensures
            outcome is Success ==> final(self).successful == old(self).successful + 1
                && final(self).failed == old(self).failed,
            outcome is Failure ==> final(self).failed == old(self).failed + 1
                && final(self).successful == old(self).successful,
    {
        match outcome {
            ExtractionOutcome::Success(_) => {
                self.successful = self.successful + 1;
            },
            ExtractionOutcome::Failure(_) => {
                self.failed = self.failed + 1;
            },
        }
    }

    /// The verdict of the run: it succeeded exactly when no unit failed.
    pub fn is_success(&self) -> (r: bool)
        ensures
            r == (self.failed == 0),
    {
        self.failed == 0
    }

    /// The process exit status of the run: zero exactly when no unit failed.
    pub fn exit_code(&self) -> (r: i32)
        ensures
            r == (if self.failed == 0 {
                0i32
            } else {
                1i32
            }),
    {
        if self.failed == 0 {
            0
        } else {
            1
        }
    }
}

/// What the scheduler asks for next.
#[derive(Debug, Clone, Copy, PartialEq, Eq, Structural)]
pub enum SchedulerStep {
    /// Start the unit of the commit at this position of the history; it holds
    /// a permit until it completes.
    Admit(usize),
    /// Every permit is out, or every unit is admitted: wait for a unit to
    /// complete and report its outcome.
    AwaitCompletion,
    /// Every unit has completed; this is the tally of the run.
    Finished(RunSummary),
}

/// Admits the units of a history in order under a gate, and folds their
/// outcomes, in whatever order they complete, into a summary.
pub struct Scheduler {
    total: usize,
    admitted: usize,
    gate: ConcurrencyGate,
    summary: RunSummary,
}

impl Scheduler {
    /// The number of units of the run.
    pub closed spec fn total_spec(&self) -> nat {
        self.total as nat
    }

    /// The number of units admitted so far; they are the first ones of the history.
    pub closed spec fn admitted_spec(&self) -> nat {
        self.admitted as nat
    }

    /// The number of admitted units that have not completed.
    pub closed spec fn in_flight_spec(&self) -> nat {
        self.gate.outstanding_spec()
    }

    /// The concurrency limit.
    pub closed spec fn limit_spec(&self) -> nat {
        self.gate.capacity_spec()
    }

    /// The tally of the units that have completed.
    pub closed spec fn summary_spec(&self) -> RunSummary {
        self.summary
    }

    /// No more units run at once than the limit allows, and every admitted
    /// unit is either in flight or counted once.
    pub open spec fn wf(&self) -> bool {
        &&& 0 < self.limit_spec()
        &&& self.in_flight_spec() <= self.limit_spec()
        &&& self.admitted_spec() <= self.total_spec()
        &&& self.summary_spec().successful + self.summary_spec().failed + self.in_flight_spec()
            == self.admitted_spec()
    }

    /// A scheduler for `total` units, at most `limit` of them at once.
    pub fn new(total: usize, limit: usize) -> (r: Self)
        requires
            limit > 0,
        ensures
            r.wf(),
            r.total_spec() == total,
            r.limit_spec() == limit,
            r.admitted_spec() == 0,
            r.in_flight_spec() == 0,
            r.summary_spec() == (RunSummary { successful: 0, failed: 0 }),
    {
        Scheduler { total, admitted: 0, gate: ConcurrencyGate::new(limit), summary: RunSummary::new() }
    }

    pub fn in_flight(&self) -> (r: usize)
        ensures
            r == self.in_flight_spec(),
    {
        self.gate.outstanding()
    }

    pub fn admitted(&self) -> (r: usize)
        ensures
            r == self.admitted_spec(),
    {
        self.admitted
    }

    pub fn summary(&self) -> (r: RunSummary)
        ensures
            r == self.summary_spec(),
    {
        self.summary
    }

    /// Decides the next step. Where units remain and a permit is free, the next
    /// unit in history order is admitted; else, where units are in flight, the
    /// scheduler waits for one; else the run is finished and every unit is
    /// counted.
    pub fn next_step(&mut self) -> (r: SchedulerStep)
        requires
            old(self).wf(),
        ensures
            final(self).wf(),
            final(self).total_spec() == old(self).total_spec(),
            final(self).limit_spec() == old(self).limit_spec(),
            final(self).summary_spec() == old(self).summary_spec(),
            old(self).admitted_spec() < old(self).total_spec() && old(self).in_flight_spec()
                < old(self).limit_spec() ==> {
                &&& r == SchedulerStep::Admit(old(self).admitted_spec() as usize)
                &&& final(self).admitted_spec() == old(self).admitted_spec() + 1
                &&& final(self).in_flight_spec() == old(self).in_flight_spec() + 1
            },
            !(old(self).admitted_spec() < old(self).total_spec() && old(self).in_flight_spec()
                < old(self).limit_spec()) ==> {
                &&& final(self).admitted_spec() == old(self).admitted_spec()
                &&& final(self).in_flight_spec() == old(self).in_flight_spec()
            },
            !(old(self).admitted_spec() < old(self).total_spec() && old(self).in_flight_spec()
                < old(self).limit_spec()) && old(self).in_flight_spec() > 0 ==> r
                == SchedulerStep::AwaitCompletion,
            !(old(self).admitted_spec() < old(self).total_spec() && old(self).in_flight_spec()
                < old(self).limit_spec()) && old(self).in_flight_spec() == 0 ==> {
                &&& r == SchedulerStep::Finished(old(self).summary_spec())
                &&& old(self).admitted_spec() == old(self).total_spec()
                &&& old(self).summary_spec().successful + old(self).summary_spec().failed
                    == old(self).total_spec()
            },
    {
        if self.admitted < self.total {
            if self.gate.try_acquire() {
                let index = self.admitted;
                self.admitted = self.admitted + 1;
                return SchedulerStep::Admit(index);
            }
        }
        if self.gate.outstanding() > 0 {
            SchedulerStep::AwaitCompletion
        } else {
            SchedulerStep::Finished(self.summary)
        }
    }

    /// Takes the outcome of a unit that completed: its permit is released and
    /// its outcome counted.
    pub fn complete(&mut self, outcome: &ExtractionOutcome)
        requires
            old(self).wf(),
            old(self).in_flight_spec() > 0,
        ensures
            final(self).wf(),
            final(self).total_spec() == old(self).total_spec(),
            final(self).limit_spec() == old(self).limit_spec(),
            final(self).admitted_spec() == old(self).admitted_spec(),
            final(self).in_flight_spec() == old(self).in_flight_spec() - 1,
            outcome is Success ==> final(self).summary_spec().successful
                == old(self).summary_spec().successful + 1 && final(self).summary_spec().failed
                == old(self).summary_spec().failed,
            outcome is Failure ==> final(self).summary_spec().failed
                == old(self).summary_spec().failed + 1 && final(self).summary_spec().successful
                == old(self).summary_spec().successful,
    {
        self.gate.release();
        self.summary.record(outcome);
    }
}

/// However the run goes, no more units are in flight than the limit allows.
pub proof fn lemma_in_flight_within_limit(s: &Scheduler)
    requires
        s.wf(),
    ensures
        s.in_flight_spec() <= s.limit_spec(),
{
}

/// Once every unit has been admitted and none is in flight, each unit of the
/// history is counted exactly once, as a success or as a failure.
pub proof fn lemma_every_unit_counted(s: &Scheduler)
    requires
        s.wf(),
        s.admitted_spec() == s.total_spec(),
        s.in_flight_spec() == 0,
    ensures
        s.summary_spec().successful + s.summary_spec().failed == s.total_spec(),
{
}

/// The number of successes among `outcomes`.
pub open spec fn count_successes(outcomes: Seq<ExtractionOutcome>) -> nat
    decreases outcomes.len(),
{
    if outcomes.len() == 0 {
        0
    } else {
        count_successes(outcomes.drop_last()) + if outcomes.last() is Success {
            1nat
        } else {
            0nat
        }
    }
}

proof fn lemma_count_successes_bounded(outcomes: Seq<ExtractionOutcome>)
    ensures
        count_successes(outcomes) <= outcomes.len(),
    decreases outcomes.len(),
{
    if outcomes.len() > 0 {
        lemma_count_successes_bounded(outcomes.drop_last());
    }
}

/// Folds the outcomes of the units of a run into its tally: every outcome is
/// counted once, as a success or as a failure.
pub fn summarize(outcomes: &Vec<ExtractionOutcome>) -> (r: RunSummary)
    ensures
        r.successful == count_successes(outcomes@),
        r.failed == outcomes@.len() - count_successes(outcomes@),
{
    let mut summary = RunSummary::new();
    let mut i: usize = 0;
    while i < outcomes.len()
        invariant
            i <= outcomes@.len(),
            summary.successful == count_successes(outcomes@.take(i as int)),
            summary.successful + summary.failed == i,
        decreases outcomes@.len() - i,
    {
        proof {
            assert(outcomes@.take(i + 1).drop_last() =~= outcomes@.take(i as int));
        }
        summary.record(&outcomes[i]);
        i += 1;
    }
    proof {
        assert(outcomes@.take(i as int) =~= outcomes@);
        lemma_count_successes_bounded(outcomes@);
    }
    summary
}

/// Successes add up over outcomes that complete one run after the other.
pub proof fn lemma_count_successes_concat(a: Seq<ExtractionOutcome>, b: Seq<ExtractionOutcome>)
    ensures
        count_successes(a + b) == count_successes(a) + count_successes(b),
    decreases b.len(),
{
    if b.len() == 0 {
        assert(a + b =~= a);
    } else {
        lemma_count_successes_concat(a, b.drop_last());
        assert((a + b).drop_last() =~= a + b.drop_last());
        assert((a + b).last() == b.last());
    }
}

/// The tally does not depend on the order in which units complete: two groups
/// of outcomes give the same tally whichever completes first.
pub proof fn lemma_tally_ignores_completion_order(
    a: Seq<ExtractionOutcome>,
    b: Seq<ExtractionOutcome>,
)
    ensures
        count_successes(a + b) == count_successes(b + a),
        (a + b).len() == (b + a).len(),
{
    lemma_count_successes_concat(a, b);
    lemma_count_successes_concat(b, a);
}

} // verus!
