//! Batch pregeneration accounting: worker-pool sizing, chunked progress,
//! and the outcome summary.
use vstd::prelude::*;

verus! {

/// Items per progress-reporting chunk.
pub const CHUNK_SIZE: usize = 100;

/// The smallest worker pool ever built, whatever the machine reports.
pub const MIN_THREAD_COUNT: usize = 4;

/// Progress lines appear only for collections larger than this.
pub const PROGRESS_THRESHOLD: usize = 50;

/// Relies on num_cpus::get: the number of available logical CPUs,
/// documented to always be at least 1.
#[verifier::external_body]
fn available_cpus() -> (r: usize)
    ensures
        r >= 1,
{
    num_cpus::get()
}

/// The pool size for a machine with `cpus` CPUs: the CPU count, floored at
/// `MIN_THREAD_COUNT` so constrained systems still get a usable pool.
pub fn pool_size_for(cpus: usize) -> (r: usize)
    ensures
        r == if cpus > MIN_THREAD_COUNT {
            cpus as int
        } else {
            MIN_THREAD_COUNT as int
        },
{
    if cpus > MIN_THREAD_COUNT {
        cpus
    } else {
        MIN_THREAD_COUNT
    }
}

/// The worker-pool size of this machine: its CPU count, floored at
/// `MIN_THREAD_COUNT`.
pub fn worker_pool_size() -> (r: usize)
    ensures
        r >= MIN_THREAD_COUNT,
{
    let cpus = available_cpus();
    pool_size_for(cpus)
}

/// How one batch item ended: reused from a cache, freshly generated, or
/// failed to decode or encode.
#[derive(Clone, Copy, PartialEq, Eq, Structural)]
pub enum GenerationOutcome {
    CachedHit,
    Generated,
    Failed,
}

/// How a resolved request is classified: anything served from a cache
/// location is a cache hit — never a fresh generation; otherwise a produced
/// buffer counts as freshly generated, and nothing produced is a failure.
pub fn classify_outcome(from_cache: bool, generated: bool) -> (r: GenerationOutcome)
    ensures
        r is CachedHit <==> from_cache,
        !from_cache ==> (r is Generated <==> generated),
        r is Failed <==> !from_cache && !generated,
{
    if from_cache {
        GenerationOutcome::CachedHit
    } else if generated {
        GenerationOutcome::Generated
    } else {
        GenerationOutcome::Failed
    }
}

pub open spec fn count_of(s: Seq<GenerationOutcome>, o: GenerationOutcome) -> int
    decreases s.len(),
{
    if s.len() == 0 {
        0
    } else {
        count_of(s.drop_last(), o) + if s.last() == o {
            1int
        } else {
            0int
        }
    }
}

/// The counts a finished batch reports.
pub struct BatchSummary {
    pub cached: usize,
    pub generated: usize,
    pub failed: usize,
}

/// Count a batch's outcomes.  Every item lands in exactly one bucket, so the
/// three counts sum to the batch size.
pub fn summarize_outcomes(outcomes: &Vec<GenerationOutcome>) -> (r: BatchSummary)
    ensures
        r.cached == count_of(outcomes@, GenerationOutcome::CachedHit),
        r.generated == count_of(outcomes@, GenerationOutcome::Generated),
        r.failed == count_of(outcomes@, GenerationOutcome::Failed),
        r.cached + r.generated + r.failed == outcomes@.len(),
{
    let mut cached: usize = 0;
    let mut generated: usize = 0;
    let mut failed: usize = 0;
    let mut i: usize = 0;
    while i < outcomes.len()
        invariant
            i <= outcomes@.len(),
            cached == count_of(outcomes@.take(i as int), GenerationOutcome::CachedHit),
            generated == count_of(outcomes@.take(i as int), GenerationOutcome::Generated),
            failed == count_of(outcomes@.take(i as int), GenerationOutcome::Failed),
            cached + generated + failed == i,
        decreases outcomes@.len() - i,
    {
        proof {
            assert(outcomes@.take(i as int + 1).drop_last() =~= outcomes@.take(i as int));
            assert(outcomes@.take(i as int + 1).last() == outcomes@[i as int]);
        }
        match outcomes[i] {
            GenerationOutcome::CachedHit => {
                cached = cached + 1;
            },
            GenerationOutcome::Generated => {
                generated = generated + 1;
            },
            GenerationOutcome::Failed => {
                failed = failed + 1;
            },
        }
        i = i + 1;
    }
    proof {
        assert(outcomes@.take(outcomes@.len() as int) =~= outcomes@);
    }
    BatchSummary { cached, generated, failed }
}

/// Whether chunk-boundary progress lines are printed: only for collections
/// over the threshold and only when verbose per-item logging is off.
pub fn should_report_progress(total: usize, debug: bool) -> (r: bool)
    ensures
        r == (!debug && total > PROGRESS_THRESHOLD),
{
    !debug && total > PROGRESS_THRESHOLD
}

/// How many fixed-size chunks a batch of `total` items is partitioned into.
pub fn chunk_count(total: usize) -> (r: usize)
    ensures
        r == (total + CHUNK_SIZE - 1) as int / CHUNK_SIZE as int,
{
    let q: usize = total / CHUNK_SIZE;
    let rem: usize = total % CHUNK_SIZE;
    if rem != 0 {
        assert(q + 1 == (total + CHUNK_SIZE - 1) as int / CHUNK_SIZE as int) by (nonlinear_arith)
            requires
                q == total as int / CHUNK_SIZE as int,
                rem == total as int % CHUNK_SIZE as int,
                rem != 0,
                CHUNK_SIZE == 100,
        ;
        q + 1
    } else {
        assert(q == (total + CHUNK_SIZE - 1) as int / CHUNK_SIZE as int) by (nonlinear_arith)
            requires
                q == total as int / CHUNK_SIZE as int,
                rem == total as int % CHUNK_SIZE as int,
                rem == 0,
                CHUNK_SIZE == 100,
        ;
        q
    }
}

/// The half-open range of batch positions that chunk `chunk_idx` covers.
pub fn chunk_bounds(chunk_idx: usize, total: usize) -> (r: (usize, usize))
    ensures
        r.0 == if chunk_idx * CHUNK_SIZE > total {
            total as int
        } else {
            chunk_idx * CHUNK_SIZE
        },
        r.1 == if chunk_idx * CHUNK_SIZE + CHUNK_SIZE > total {
            total as int
        } else {
            chunk_idx * CHUNK_SIZE + CHUNK_SIZE
        },
        r.0 <= r.1 <= total,
{
    let lo_wide: u128 = (chunk_idx as u128) * (CHUNK_SIZE as u128);
    let lo: usize = if lo_wide > total as u128 {
        total
    } else {
        lo_wide as usize
    };
    let hi: usize = if lo_wide + (CHUNK_SIZE as u128) > total as u128 {
        total
    } else {
        (lo_wide as usize) + CHUNK_SIZE
    };
    (lo, hi)
}

/// How many items are done once chunk `chunk_idx` completes: a full chunk
/// per finished chunk, capped at the batch size.
pub fn chunk_progress(chunk_idx: usize, total: usize) -> (r: usize)
    ensures
        r == if (chunk_idx + 1) * CHUNK_SIZE > total {
            total as int
        } else {
            (chunk_idx + 1) * CHUNK_SIZE
        },
{
    let done: u128 = (chunk_idx as u128 + 1) * (CHUNK_SIZE as u128);
    if done > total as u128 {
        total
    } else {
        done as usize
    }
}

} // verus!
