//! Chunking for batched writes.
//!
//! A backend statement carries `field_count` bind parameters per row and at
//! most `MAX_PARAMS_PER_STATEMENT` in total, so a batch of rows is split
//! into consecutive ranges of at most `floor(MAX_PARAMS_PER_STATEMENT /
//! field_count)` rows each.

use vstd::prelude::*;

verus! {

pub const MAX_PARAMS_PER_STATEMENT: usize = 65535;

/// Largest number of rows of `field_count` columns one statement may carry.
pub open spec fn spec_chunk_size(field_count: usize) -> int {
    MAX_PARAMS_PER_STATEMENT as int / field_count as int
}

/// Split `[0, num_items)` into consecutive half-open ranges `(start, end)`,
/// in order, each non-empty and no larger than the chunk size.
pub fn get_chunks(num_items: usize, field_count: usize) -> (chunks: Vec<(usize, usize)>)
    requires
        1 <= field_count <= MAX_PARAMS_PER_STATEMENT,
    ensures
        num_items == 0 ==> chunks@.len() == 0,
        num_items > 0 ==> chunks@.len() > 0 && chunks@[0].0 == 0 && chunks@[chunks@.len()
            - 1].1 == num_items,
        forall|i: int|
            0 <= i < chunks@.len() ==> (#[trigger] chunks@[i]).0 < chunks@[i].1 && chunks@[i].1
                <= num_items && chunks@[i].1 - chunks@[i].0 <= spec_chunk_size(field_count),
        forall|i: int|
            0 <= i < chunks@.len() - 1 ==> (#[trigger] chunks@[i]).1 == chunks@[i + 1].0
                && chunks@[i].1 - chunks@[i].0 == spec_chunk_size(field_count),
{
    proof {
        vstd::arithmetic::div_mod::lemma_div_non_zero(
            MAX_PARAMS_PER_STATEMENT as int,
            field_count as int,
        );
    }
    let cs: usize = MAX_PARAMS_PER_STATEMENT / field_count;
    let mut chunks: Vec<(usize, usize)> = Vec::new();
    let mut start: usize = 0;
    while start < num_items
        invariant
            1 <= cs,
            cs as int == spec_chunk_size(field_count),
            start <= num_items,
            chunks@.len() == 0 ==> start == 0,
            chunks@.len() > 0 ==> chunks@[0].0 == 0 && chunks@[chunks@.len() - 1].1 == start
                && start > 0,
            chunks@.len() > 0 ==> chunks@[chunks@.len() - 1].1 - chunks@[chunks@.len() - 1].0
                == cs || chunks@[chunks@.len() - 1].1 == num_items,
            forall|i: int|
                0 <= i < chunks@.len() ==> (#[trigger] chunks@[i]).0 < chunks@[i].1
                    && chunks@[i].1 <= num_items && chunks@[i].1 - chunks@[i].0 <= cs,
            forall|i: int|
                0 <= i < chunks@.len() - 1 ==> (#[trigger] chunks@[i]).1 == chunks@[i + 1].0
                    && chunks@[i].1 - chunks@[i].0 == cs,
        decreases num_items - start,
    {
        let end: usize = if num_items - start < cs {
            num_items
        } else {
            start + cs
        };
        chunks.push((start, end));
        start = end;
    }
    chunks
}

/// How many acquisition attempts the connection layer may make before
/// giving up; the default policy never gives up.
pub struct ConnectionRetryPolicy {
    pub max_attempts: Option<u64>,
}

impl ConnectionRetryPolicy {
    /// The unbounded policy: keep retrying until a connection arrives.
    pub fn unbounded() -> (r: ConnectionRetryPolicy)
        ensures
            r.max_attempts is None,
    {
        ConnectionRetryPolicy { max_attempts: Option::None }
    }

    /// Whether one more acquisition attempt is allowed after `attempts`
    /// failed ones.
    pub fn should_retry(&self, attempts: u64) -> (r: bool)
        ensures
            r == match self.max_attempts {
                Option::Some(m) => attempts < m,
                Option::None => true,
            },
    {
        match self.max_attempts {
            Option::Some(m) => attempts < m,
            Option::None => true,
        }
    }
}

} // verus!
