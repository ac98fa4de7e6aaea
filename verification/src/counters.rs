//! Observability counters.
//!
//! The pipeline reports how often processors were invoked, succeeded and
//! failed, and how connection acquisition fared. Counters only ever grow,
//! saturating at the top instead of wrapping. One `Counters` value is the
//! process-wide façade; a fresh one serves as a no-op substitute in tests.

use vstd::prelude::*;

verus! {

/// `x + 1`, stuck at the top of the range.
pub open spec fn bumped(x: u64) -> u64 {
    if x == u64::MAX {
        x
    } else {
        (x + 1) as u64
    }
}

pub struct Counters {
    pub processor_invocations: u64,
    pub processor_successes: u64,
    pub processor_errors: u64,
    pub got_connection: u64,
    pub unable_to_get_connection: u64,
}

/// The counters after one processor run that succeeded or failed.
pub open spec fn spec_count_run(c: Counters, ok: bool) -> Counters {
    Counters {
        processor_invocations: bumped(c.processor_invocations),
        processor_successes: if ok {
            bumped(c.processor_successes)
        } else {
            c.processor_successes
        },
        processor_errors: if ok {
            c.processor_errors
        } else {
            bumped(c.processor_errors)
        },
        ..c
    }
}

impl Counters {
    pub fn new() -> (r: Counters)
        ensures
            r.processor_invocations == 0,
            r.processor_successes == 0,
            r.processor_errors == 0,
            r.got_connection == 0,
            r.unable_to_get_connection == 0,
    {
        Counters {
            processor_invocations: 0,
            processor_successes: 0,
            processor_errors: 0,
            got_connection: 0,
            unable_to_get_connection: 0,
        }
    }

    pub fn record_invocation(&mut self)
        ensures
            *final(self) == (Counters {
                processor_invocations: bumped(old(self).processor_invocations),
                ..*old(self)
            }),
    {
        if self.processor_invocations < u64::MAX {
            self.processor_invocations = self.processor_invocations + 1;
        }
    }

    pub fn record_success(&mut self)
        ensures
            *final(self) == (Counters {
                processor_successes: bumped(old(self).processor_successes),
                ..*old(self)
            }),
    {
        if self.processor_successes < u64::MAX {
            self.processor_successes = self.processor_successes + 1;
        }
    }

    pub fn record_error(&mut self)
        ensures
            *final(self) == (Counters {
                processor_errors: bumped(old(self).processor_errors),
                ..*old(self)
            }),
    {
        if self.processor_errors < u64::MAX {
            self.processor_errors = self.processor_errors + 1;
        }
    }

    pub fn record_got_connection(&mut self)
        ensures
            *final(self) == (Counters {
                got_connection: bumped(old(self).got_connection),
                ..*old(self)
            }),
    {
        if self.got_connection < u64::MAX {
            self.got_connection = self.got_connection + 1;
        }
    }

    pub fn record_unable_to_get_connection(&mut self)
        ensures
            *final(self) == (Counters {
                unable_to_get_connection: bumped(old(self).unable_to_get_connection),
                ..*old(self)
            }),
    {
        if self.unable_to_get_connection < u64::MAX {
            self.unable_to_get_connection = self.unable_to_get_connection + 1;
        }
    }
}

} // verus!
