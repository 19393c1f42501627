//! Progress events and the arithmetic behind their figures.

use vstd::arithmetic::div_mod::{lemma_div_is_ordered, lemma_div_pos_is_pos};
use vstd::prelude::*;

verus! {

/// The percent at which a scan stands when the top level has been listed.
pub const LISTED_PERCENT: u32 = 20;

/// The most that is reported before a scan is complete.
pub const AGGREGATION_CAP: u32 = 95;

/// The percent of the event that ends an operation.
pub const COMPLETE_PERCENT: u32 = 100;

/// One notice to an observer. Times are in milliseconds.
#[derive(Debug)]
pub struct ProgressEvent {
    /// Whole percent, rounded down, from 0 to 100.
    pub percent: u32,
    pub current: usize,
    pub total: usize,
    /// What was worked on last.
    pub label: String,
    pub elapsed_ms: u64,
    pub remaining_ms: u64,
}

/// The percent reported when `completed` of `total` directories have been
/// aggregated: 20 plus the completed share of 75, rounded down and at most
/// 95. No directories at all count as one.
pub open spec fn aggregation_percent(completed: nat, total: nat) -> nat {
    let share = if total == 0 {
        completed * 75
    } else {
        (completed * 75) / total
    };
    if 20 + share > 95 {
        95
    } else {
        20 + share
    }
}

/// The percent reported when `done` of `total` steps have been taken: the
/// share that is done, rounded down and at most 100. No steps at all are
/// done at once.
pub open spec fn share_percent(done: nat, total: nat) -> nat {
    if total == 0 || done >= total {
        100
    } else {
        (done * 100) / total
    }
}

/// The time that the rest will take if it goes on at the rate so far:
/// `elapsed` for each of the `completed`, spread over what is left. Nothing
/// is estimated before the first completion.
pub open spec fn remaining_estimate(completed: nat, total: nat, elapsed: nat) -> nat {
    if completed == 0 || completed >= total {
        0
    } else {
        ((elapsed * (total - completed)) / (completed as int)) as nat
    }
}

/// `estimate` as a `u64`, and `u64::MAX` where it does not fit.
pub open spec fn clamp_ms(estimate: nat) -> u64 {
    if estimate > u64::MAX {
        u64::MAX
    } else {
        estimate as u64
    }
}

/// The aggregation percent lies between 20 and 95 and does not fall as more
/// directories complete.
pub proof fn lemma_aggregation_percent_grows(earlier: nat, later: nat, total: nat)
    requires
        earlier <= later,
    ensures
        20 <= aggregation_percent(earlier, total) <= aggregation_percent(later, total) <= 95,
{
    assert(earlier * 75 <= later * 75);
    if total > 0 {
        lemma_div_is_ordered((earlier * 75) as int, (later * 75) as int, total as int);
        lemma_div_pos_is_pos((earlier * 75) as int, total as int);
    }
}

/// The share percent is at most 100, does not fall as more steps are taken,
/// and is 100 when all are.
pub proof fn lemma_share_percent_grows(earlier: nat, later: nat, total: nat)
    requires
        earlier <= later,
    ensures
        share_percent(earlier, total) <= share_percent(later, total) <= 100,
        later >= total ==> share_percent(later, total) == 100,
{
    if total > 0 {
        assert((total * 100) as int / (total as int) == 100) by (nonlinear_arith)
            requires
                total > 0,
        ;
        if earlier < total {
            lemma_div_is_ordered((earlier * 100) as int, (total * 100) as int, total as int);
        }
        if later < total {
            lemma_div_is_ordered((earlier * 100) as int, (later * 100) as int, total as int);
            lemma_div_is_ordered((later * 100) as int, (total * 100) as int, total as int);
        }
    }
}

/// The percent of a scan in which `completed` of `total` directories have
/// been aggregated.
pub fn scan_percent(completed: usize, total: usize) -> (percent: u32)
    ensures
        percent == aggregation_percent(completed as nat, total as nat),
        20 <= percent <= 95,
{
    let parts: u128 = if total == 0 {
        1
    } else {
        total as u128
    };
    let scaled: u128 = (completed as u128) * 75;
    let raw: u128 = 20 + scaled / parts;
    proof {
        lemma_aggregation_percent_grows(completed as nat, completed as nat, total as nat);
    }
    if raw > 95 {
        AGGREGATION_CAP
    } else {
        raw as u32
    }
}

/// The percent of a batch in which `done` of `total` steps have been taken.
pub fn batch_percent(done: usize, total: usize) -> (percent: u32)
    ensures
        percent == share_percent(done as nat, total as nat),
        percent <= 100,
{
    if total == 0 || done >= total {
        return COMPLETE_PERCENT;
    }
    let scaled: u128 = (done as u128) * 100;
    let share: u128 = scaled / (total as u128);
    proof {
        lemma_share_percent_grows(done as nat, done as nat, total as nat);
    }
    share as u32
}

/// The estimate of the time left when `completed` of `total` steps have
/// taken `elapsed_ms`, saturating at `u64::MAX`.
pub fn estimate_remaining(completed: usize, total: usize, elapsed_ms: u64) -> (remaining_ms: u64)
    ensures
        remaining_ms == clamp_ms(
            remaining_estimate(completed as nat, total as nat, elapsed_ms as nat),
        ),
{
    if completed == 0 || completed >= total {
        return 0;
    }
    let left: u128 = (total - completed) as u128;
    assert(elapsed_ms * left <= u64::MAX * usize::MAX) by (nonlinear_arith)
        requires
            elapsed_ms <= u64::MAX,
            left <= usize::MAX,
    ;
    let scaled: u128 = (elapsed_ms as u128) * left;
    let estimate: u128 = scaled / (completed as u128);
    if estimate > u64::MAX as u128 {
        u64::MAX
    } else {
        estimate as u64
    }
}

/// The event that announces that `done` of the `total` steps of a batch
/// have been taken, the last of them on `label`, `elapsed_ms` after the start.
pub fn batch_event(done: usize, total: usize, label: String, elapsed_ms: u64) -> (event:
    ProgressEvent)
    ensures
        event.percent == share_percent(done as nat, total as nat),
        event.current == done,
        event.total == total,
        event.label == label,
        event.elapsed_ms == elapsed_ms,
        event.remaining_ms == clamp_ms(
            remaining_estimate(done as nat, total as nat, elapsed_ms as nat),
        ),
{
    ProgressEvent {
        percent: batch_percent(done, total),
        current: done,
        total,
        label,
        elapsed_ms,
        remaining_ms: estimate_remaining(done, total, elapsed_ms),
    }
}

/// The event that ends an operation of `total` steps, `elapsed_ms` after its
/// start: 100 percent, and nothing left.
pub fn complete_event(total: usize, elapsed_ms: u64) -> (event: ProgressEvent)
    ensures
        event.percent == 100,
        event.current == total,
        event.total == total,
        event.label@ == "complete"@,
        event.elapsed_ms == elapsed_ms,
        event.remaining_ms == 0,
{
    ProgressEvent {
        percent: COMPLETE_PERCENT,
        current: total,
        total,
        label: "complete".to_owned(),
        elapsed_ms,
        remaining_ms: 0,
    }
}

} // verus!
