//! The time budgets of one evaluation request.

use vstd::prelude::*;

verus! {

/// The wall-clock budgets of one request, in milliseconds: one for the whole
/// request and one for each of its two runs. The run of the source as
/// written only has to catch errors that show at once, so its budget is
/// shorter than that of the instrumented run; the budget of the whole
/// request covers both runs.
#[derive(Clone, Copy, Debug)]
pub struct Budgets {
    overall_ms: u64,
    raw_run_ms: u64,
    instrumented_run_ms: u64,
}

/// Whether three budgets fit together: the raw run's is shorter than the
/// instrumented run's, and the overall budget covers both.
pub open spec fn budgets_fit(overall_ms: nat, raw_run_ms: nat, instrumented_run_ms: nat) -> bool {
    raw_run_ms < instrumented_run_ms && raw_run_ms + instrumented_run_ms <= overall_ms
}

impl Budgets {
    #[verifier::type_invariant]
    spec fn fits(self) -> bool {
        budgets_fit(
            self.overall_ms as nat,
            self.raw_run_ms as nat,
            self.instrumented_run_ms as nat,
        )
    }

    /// The budget of the whole request.
    pub closed spec fn overall(self) -> nat {
        self.overall_ms as nat
    }

    /// The budget of the run of the source as written.
    pub closed spec fn raw_run(self) -> nat {
        self.raw_run_ms as nat
    }

    /// The budget of the instrumented run.
    pub closed spec fn instrumented_run(self) -> nat {
        self.instrumented_run_ms as nat
    }

    /// The budgets, if they fit together; `None` otherwise.
    pub fn new(overall_ms: u64, raw_run_ms: u64, instrumented_run_ms: u64) -> (budgets: Option<
        Budgets,
    >)
        ensures
            budgets is Some <==> budgets_fit(
                overall_ms as nat,
                raw_run_ms as nat,
                instrumented_run_ms as nat,
            ),
            budgets matches Some(b) ==> b.overall() == overall_ms && b.raw_run() == raw_run_ms
                && b.instrumented_run() == instrumented_run_ms,
    {
        if raw_run_ms < instrumented_run_ms && instrumented_run_ms <= overall_ms && raw_run_ms
            <= overall_ms - instrumented_run_ms {
            Some(Budgets { overall_ms, raw_run_ms, instrumented_run_ms })
        } else {
            None
        }
    }

    /// The budget of the whole request, in milliseconds.
    pub fn overall_ms(&self) -> (ms: u64)
        ensures
            ms == self.overall(),
            budgets_fit(self.overall(), self.raw_run(), self.instrumented_run()),
    {
        proof {
            use_type_invariant(self);
        }
        self.overall_ms
    }

    /// The budget of the run of the source as written, in milliseconds.
    pub fn raw_run_ms(&self) -> (ms: u64)
        ensures
            ms == self.raw_run(),
            budgets_fit(self.overall(), self.raw_run(), self.instrumented_run()),
    {
        proof {
            use_type_invariant(self);
        }
        self.raw_run_ms
    }

    /// The budget of the instrumented run, in milliseconds.
    pub fn instrumented_run_ms(&self) -> (ms: u64)
        ensures
            ms == self.instrumented_run(),
            budgets_fit(self.overall(), self.raw_run(), self.instrumented_run()),
    {
        proof {
            use_type_invariant(self);
        }
        self.instrumented_run_ms
    }
}

} // verus!
