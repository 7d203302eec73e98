//! Optimistic concurrency against the record store: read a record and its
//! generation, apply a delta, write back expecting the generation unchanged,
//! and retry from the top on a conflict.
//!
//! A write commits only if the record still carries the generation the value
//! was read under, so every committed write lands on exactly the value it
//! read: the committed history applies each delta once, whatever the
//! interleaving.

use vstd::prelude::*;

verus! {

/// What a point-read of an aggregate record yielded.
#[derive(Debug, Clone, Copy, PartialEq, Eq, Structural)]
pub enum ReadOutcome {
    Found { count: i64, sum_price: i64, generation: u32 },
    Missing,
    TransportErr,
}

/// What a compare-and-set write yielded.
#[derive(Debug, Clone, Copy, PartialEq, Eq, Structural)]
pub enum WriteOutcome {
    Stored,
    GenerationConflict,
    KeyMissing,
    TransportErr,
}

/// Where one update stands.
#[derive(Debug, Clone, Copy, PartialEq, Eq, Structural)]
pub enum UpdateState {
    Reading,
    Writing { count: i64, sum_price: i64, generation: u32 },
    Done,
    Failed,
}

/// After a read: an absent record starts from zero at generation zero; a
/// found record contributes its values; a malformed or overflowing record,
/// or a transport failure, surfaces as an error.
pub open spec fn spec_on_read(d_count: i64, d_sum: i64, r: ReadOutcome) -> UpdateState {
    match r {
        ReadOutcome::Found { count, sum_price, generation } => {
            if count >= 0 && sum_price >= 0 && count + d_count <= i64::MAX && sum_price + d_sum
                <= i64::MAX {
                UpdateState::Writing {
                    count: (count + d_count) as i64,
                    sum_price: (sum_price + d_sum) as i64,
                    generation,
                }
            } else {
                UpdateState::Failed
            }
        },
        ReadOutcome::Missing => UpdateState::Writing {
            count: d_count,
            sum_price: d_sum,
            generation: 0,
        },
        ReadOutcome::TransportErr => UpdateState::Failed,
    }
}

/// Applies a read outcome to an update of the given delta.
pub fn on_read(d_count: i64, d_sum: i64, r: ReadOutcome) -> (s: UpdateState)
    requires
        d_count >= 0,
        d_sum >= 0,
    ensures
        s == spec_on_read(d_count, d_sum, r),
{
    match r {
        ReadOutcome::Found { count, sum_price, generation } => {
            if count >= 0 && sum_price >= 0 && count <= i64::MAX - d_count && sum_price <= i64::MAX
                - d_sum {
                UpdateState::Writing { count: count + d_count, sum_price: sum_price + d_sum, generation }
            } else {
                UpdateState::Failed
            }
        },
        ReadOutcome::Missing => UpdateState::Writing {
            count: d_count,
            sum_price: d_sum,
            generation: 0,
        },
        ReadOutcome::TransportErr => UpdateState::Failed,
    }
}

/// After a write: stored means done; a generation conflict or a key that
/// vanished under us goes back to the read; transport failures surface.
pub open spec fn spec_on_write(r: WriteOutcome) -> UpdateState {
    match r {
        WriteOutcome::Stored => UpdateState::Done,
        WriteOutcome::GenerationConflict => UpdateState::Reading,
        WriteOutcome::KeyMissing => UpdateState::Reading,
        WriteOutcome::TransportErr => UpdateState::Failed,
    }
}

/// Applies a write outcome to an update that was writing.
pub fn on_write(r: WriteOutcome) -> (s: UpdateState)
    ensures
        s == spec_on_write(r),
{
    match r {
        WriteOutcome::Stored => UpdateState::Done,
        WriteOutcome::GenerationConflict => UpdateState::Reading,
        WriteOutcome::KeyMissing => UpdateState::Reading,
        WriteOutcome::TransportErr => UpdateState::Failed,
    }
}

/// The value after a history of committed writes, each landing on the value
/// it read.
pub open spec fn apply_deltas(init: (int, int), ds: Seq<(int, int)>) -> (int, int)
    decreases ds.len(),
{
    if ds.len() == 0 {
        init
    } else {
        let prev = apply_deltas(init, ds.drop_last());
        (prev.0 + ds.last().0, prev.1 + ds.last().1)
    }
}

pub open spec fn sum_counts(ds: Seq<(int, int)>) -> int
    decreases ds.len(),
{
    if ds.len() == 0 {
        0
    } else {
        sum_counts(ds.drop_last()) + ds.last().0
    }
}

pub open spec fn sum_sums(ds: Seq<(int, int)>) -> int
    decreases ds.len(),
{
    if ds.len() == 0 {
        0
    } else {
        sum_sums(ds.drop_last()) + ds.last().1
    }
}

/// Compare-and-set safety: however concurrent updates on one key interleave,
/// each commits onto the value it read, so the record ends at the sum of all
/// the deltas.
pub proof fn lemma_cas_total(init: (int, int), ds: Seq<(int, int)>)
    ensures
        apply_deltas(init, ds) == (init.0 + sum_counts(ds), init.1 + sum_sums(ds)),
    decreases ds.len(),
{
    if ds.len() > 0 {
        lemma_cas_total(init, ds.drop_last());
    }
}

} // verus!
