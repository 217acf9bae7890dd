//! The fixed configuration of a simulation lineage.

use vstd::prelude::*;

verus! {

/// Nanoseconds in one millisecond.
pub const NANOS_PER_MILLI: u64 = 1_000_000;

/// The step interval a scheme has when it names none: 50 ms.
pub const DEFAULT_STEP_NANOS: u64 = 50_000_000;

/// The wall-clock length of one tick, in nanoseconds. It is never zero and
/// does not change for the lifetime of a simulation lineage.
#[derive(Clone, Copy, Debug, PartialEq, Eq)]
pub struct StepInterval {
    nanos: u64,
}

impl View for StepInterval {
    type V = nat;

    closed spec fn view(&self) -> nat {
        self.nanos as nat
    }
}

impl StepInterval {
    #[verifier::type_invariant]
    spec fn positive(self) -> bool {
        self.nanos > 0
    }

    /// Every interval fits in 64 bits.
    pub proof fn lemma_bounded(self)
        ensures
            self@ <= u64::MAX,
    {
    }

    /// An interval of `nanos` nanoseconds; none for zero.
    pub fn from_nanos(nanos: u64) -> (r: Option<StepInterval>)
        ensures
            r.is_none() <==> nanos == 0,
            r matches Some(s) ==> s@ == nanos,
    {
        if nanos == 0 {
            None
        } else {
            Some(StepInterval { nanos })
        }
    }

    /// An interval of `millis` milliseconds; none for zero.
    pub fn from_millis(millis: u32) -> (r: Option<StepInterval>)
        ensures
            r.is_none() <==> millis == 0,
            r matches Some(s) ==> s@ == millis * NANOS_PER_MILLI,
    {
        if millis == 0 {
            None
        } else {
            let wide: u64 = millis as u64;
            assert(wide * NANOS_PER_MILLI <= u64::MAX) by (nonlinear_arith)
                requires
                    wide <= u32::MAX,
                    NANOS_PER_MILLI == 1_000_000,
            ;
            assert(wide * NANOS_PER_MILLI > 0) by (nonlinear_arith)
                requires
                    wide > 0,
                    NANOS_PER_MILLI == 1_000_000,
            ;
            Some(StepInterval { nanos: wide * NANOS_PER_MILLI })
        }
    }

    /// The interval in nanoseconds.
    pub fn nanos(&self) -> (r: u64)
        ensures
            r == self@,
            r > 0,
    {
        proof {
            use_type_invariant(self);
        }
        self.nanos
    }
}

impl Default for StepInterval {
    /// Twenty ticks a second.
    fn default() -> (r: StepInterval)
        ensures
            r@ == DEFAULT_STEP_NANOS,
    {
        StepInterval { nanos: DEFAULT_STEP_NANOS }
    }
}

} // verus!
