//! Sizing of the worker pool from the host's CPU count.

use vstd::prelude::*;

verus! {

/// The storage medium a scan is assumed to run on.
#[derive(Clone, Copy, Debug, PartialEq, Eq, Structural)]
pub enum StorageMedium {
    /// Solid-state storage: seeks are cheap, so more workers than cores pay off.
    SolidState,
    /// Rotational storage: concurrent seeks thrash, so fewer workers are used.
    Rotational,
}

/// The smallest pool used on solid-state storage.
pub const MIN_WORKERS_SOLID_STATE: usize = 4;

/// The smallest pool used on rotational storage.
pub const MIN_WORKERS_ROTATIONAL: usize = 2;

/// The number of workers for `cpu_count` cores on the given medium, as a
/// mathematical integer: one and a half workers per core (rounded down) and at
/// least four on solid-state storage, half a worker per core (rounded down)
/// and at least two on rotational storage.
pub open spec fn concurrency_for(cpu_count: int, medium: StorageMedium) -> int {
    match medium {
        StorageMedium::SolidState => {
            let scaled = cpu_count + cpu_count / 2;
            if scaled < 4 { 4 } else { scaled }
        },
        StorageMedium::Rotational => {
            let scaled = cpu_count / 2;
            if scaled < 2 { 2 } else { scaled }
        },
    }
}

/// The medium every scan currently assumes; nothing probes the device.
pub fn assumed_medium() -> (medium: StorageMedium)
    ensures
        medium == StorageMedium::SolidState,
{
    StorageMedium::SolidState
}

/// The pool size for `cpu_count` cores on `medium`, saturating at
/// `usize::MAX` where the scaled count does not fit.
pub fn concurrency_on(cpu_count: usize, medium: StorageMedium) -> (workers: usize)
    ensures
        concurrency_for(cpu_count as int, medium) <= usize::MAX ==> workers == concurrency_for(
            cpu_count as int,
            medium,
        ),
        concurrency_for(cpu_count as int, medium) > usize::MAX ==> workers == usize::MAX,
{
    match medium {
        StorageMedium::SolidState => {
            let half: usize = cpu_count / 2;
            let scaled: usize = if cpu_count > usize::MAX - half {
                usize::MAX
            } else {
                cpu_count + half
            };
            if scaled < MIN_WORKERS_SOLID_STATE {
                MIN_WORKERS_SOLID_STATE
            } else {
                scaled
            }
        },
        StorageMedium::Rotational => {
            let scaled: usize = cpu_count / 2;
            if scaled < MIN_WORKERS_ROTATIONAL {
                MIN_WORKERS_ROTATIONAL
            } else {
                scaled
            }
        },
    }
}

/// The pool size used for scans on a host with `cpu_count` cores.
pub fn optimal_concurrency(cpu_count: usize) -> (workers: usize)
    ensures
        workers >= 4,
        concurrency_for(cpu_count as int, StorageMedium::SolidState) <= usize::MAX ==> workers
            == concurrency_for(cpu_count as int, StorageMedium::SolidState),
        concurrency_for(cpu_count as int, StorageMedium::SolidState) > usize::MAX ==> workers
            == usize::MAX,
{
    concurrency_on(cpu_count, assumed_medium())
}

} // verus!
