//! How long a publisher waits before it reconnects. Durations are in
//! milliseconds.

use vstd::arithmetic::power2::pow2;
use vstd::prelude::*;

verus! {

/// Two to the power of the attempt, up to the largest 32-bit number.
pub open spec fn backoff_factor(attempt: u32) -> nat {
    if attempt < 32 {
        pow2(attempt as nat)
    } else {
        u32::MAX as nat
    }
}

/// The wait before an attempt: it doubles with each, and never exceeds `max`.
pub open spec fn backoff(attempt: u32, min: u64, max: u64) -> u64 {
    let scaled = min * backoff_factor(attempt);
    if scaled < max {
        scaled as u64
    } else {
        max
    }
}

fn factor(attempt: u32) -> (r: u32)
    ensures
        r == backoff_factor(attempt),
{
    if attempt >= 32 {
        return u32::MAX;
    }
    let mut r: u32 = 1;
    let mut i: u32 = 0;
    proof {
        vstd::arithmetic::power2::lemma2_to64();
    }
    while i < attempt
        invariant
            i <= attempt < 32,
            r == pow2(i as nat),
        decreases attempt - i,
    {
        proof {
            vstd::arithmetic::power2::lemma2_to64();
            vstd::arithmetic::power2::lemma_pow2_unfold((i + 1) as nat);
            if i + 1 < 31 {
                vstd::arithmetic::power2::lemma_pow2_strictly_increases((i + 1) as nat, 31);
            }
        }
        r = r * 2;
        i = i + 1;
    }
    r
}

/// The wait before the next attempt, after this many losses in a row.
pub fn backoff_duration(attempt: u32, min: u64, max: u64) -> (r: u64)
    ensures
        r == backoff(attempt, min, max),
{
    let f: u32 = factor(attempt);
    assert(0 <= min as int * f as int <= 0xffff_ffff_ffff_ffff * 0xffff_ffff) by (nonlinear_arith)
        requires
            0 <= min <= 0xffff_ffff_ffff_ffff,
            0 <= f <= 0xffff_ffff,
    ;
    let scaled: u128 = min as u128 * f as u128;
    if scaled < max as u128 {
        scaled as u64
    } else {
        max
    }
}

/// The number of losses in a row after a session: a session that stayed up long
/// enough ends the row.
pub open spec fn carried_attempt(attempt: u32, uptime: u64, healthy_after: u64) -> u32 {
    if uptime >= healthy_after {
        0
    } else {
        attempt
    }
}

/// The number of losses in a row after a session.
pub fn attempt_after_session(attempt: u32, uptime: u64, healthy_after: u64) -> (r: u32)
    ensures
        r == carried_attempt(attempt, uptime, healthy_after),
{
    if uptime >= healthy_after {
        0
    } else {
        attempt
    }
}

/// How a task of a session ended.
#[derive(Copy, Clone, Debug, PartialEq, Eq, Structural)]
pub enum TaskEnd {
    Clean,
    Failed,
    /// It panicked or was cancelled.
    Aborted,
}

/// Which task ended a session, and whether with an error.
pub struct SessionLost {
    pub task: &'static str,
    pub failed: bool,
}

pub fn describe_task_end(task: &'static str, end: TaskEnd) -> (r: SessionLost)
    ensures
        r.task == task,
        r.failed == (end != TaskEnd::Clean),
{
    SessionLost { task, failed: !matches!(end, TaskEnd::Clean) }
}

/// One loss more, up to the largest number there is.
pub open spec fn one_more(attempt: u32) -> u32 {
    if attempt == u32::MAX {
        u32::MAX
    } else {
        (attempt + 1) as u32
    }
}

/// A lost session: the wait that the losses so far ask for, and then one loss
/// more.
pub fn reconnect_after_failure(attempt: &mut u32, min: u64, max: u64) -> (wait: u64)
    ensures
        wait == backoff(*old(attempt), min, max),
        *final(attempt) == one_more(*old(attempt)),
{
    let wait: u64 = backoff_duration(*attempt, min, max);
    *attempt = attempt.saturating_add(1);
    wait
}

/// The wait never exceeds its cap, and without losses it is the shortest one.
pub proof fn law_backoff_is_capped(attempt: u32, min: u64, max: u64)
    ensures
        backoff(attempt, min, max) <= max,
        min <= max ==> backoff(0, min, max) == min,
{
    vstd::arithmetic::power2::lemma2_to64();
    assert(min * pow2(0) == min) by (nonlinear_arith)
        requires
            pow2(0) == 1,
    ;
}

/// The wait doubles with each loss, up to its cap.
pub proof fn law_backoff_doubles(attempt: u32, min: u64, max: u64)
    requires
        attempt < 31,
    ensures
        ({
            let twice = 2 * backoff(attempt, min, max);
            backoff((attempt + 1) as u32, min, max) == if twice < max {
                twice
            } else {
                max as int
            }
        }),
{
    let f = pow2(attempt as nat);
    vstd::arithmetic::power2::lemma_pow2_unfold((attempt + 1) as nat);
    assert(min * (2 * f) == 2 * (min * f)) by (nonlinear_arith);
}

/// A longer row of losses never waits less.
pub proof fn law_backoff_is_monotonic(a: u32, b: u32, min: u64, max: u64)
    requires
        a <= b,
    ensures
        backoff(a, min, max) <= backoff(b, min, max),
{
    vstd::arithmetic::power2::lemma2_to64();
    if a < 32 && b < 32 {
        if a < b {
            vstd::arithmetic::power2::lemma_pow2_strictly_increases(a as nat, b as nat);
        }
    } else if a < 32 {
        if a < 31 {
            vstd::arithmetic::power2::lemma_pow2_strictly_increases(a as nat, 31);
        }
    }
    let (fa, fb) = (backoff_factor(a), backoff_factor(b));
    assert(min * fa <= min * fb) by (nonlinear_arith)
        requires
            fa <= fb,
            0 <= min,
    ;
}

/// How a publisher comes back to its relay: the losses in a row, and the bounds
/// of the wait after one.
#[derive(Copy, Clone, Debug, PartialEq, Eq, Structural)]
pub struct Reconnect {
    pub attempt: u32,
    pub min: u64,
    pub max: u64,
}

impl Reconnect {
    /// The losses in a row that the next wait is for.
    pub open spec fn carried(self, uptime: Option<u64>) -> u32 {
        match uptime {
            Some(uptime) => carried_attempt(self.attempt, uptime, self.max),
            None => self.attempt,
        }
    }

    /// The session is lost: after it was up for some time, or before it came
    /// up. Gives the wait before the next attempt. A session that outlived the
    /// longest wait ends the row of losses.
    pub fn session_lost(&mut self, uptime: Option<u64>) -> (wait: u64)
        ensures
            wait == backoff(old(self).carried(uptime), old(self).min, old(self).max),
            *final(self) == (Reconnect {
                attempt: one_more(old(self).carried(uptime)),
                ..*old(self)
            }),
    {
        if let Some(uptime) = uptime {
            self.attempt = attempt_after_session(self.attempt, uptime, self.max);
        }
        reconnect_after_failure(&mut self.attempt, self.min, self.max)
    }
}

/// One healthy session returns the next wait to the shortest one, however many
/// losses there were before it.
pub proof fn law_healthy_session_resets_backoff(r: Reconnect, uptime: u64)
    requires
        r.min <= r.max,
        uptime >= r.max,
    ensures
        backoff(r.carried(Some(uptime)), r.min, r.max) == r.min,
{
    law_backoff_is_capped(r.attempt, r.min, r.max);
}

/// A session that dies before it is healthy is part of the row: the wait after
/// it is no shorter than the wait before it.
pub proof fn law_short_session_keeps_backing_off(r: Reconnect, uptime: u64, before: u32)
    requires
        uptime < r.max,
        r.attempt == one_more(before),
    ensures
        backoff(r.carried(Some(uptime)), r.min, r.max) >= backoff(before, r.min, r.max),
{
    law_backoff_is_monotonic(before, r.attempt, r.min, r.max);
}

/// Losses in a row are counted one by one, up to the largest number; a session
/// that stayed up as long as the longest wait starts the count anew, and one that
/// did not, or never came up, goes on with it.
pub proof fn law_losses_are_counted(r: Reconnect, uptime: u64)
    ensures
        uptime >= r.max ==> r.carried(Some(uptime)) == 0,
        uptime < r.max ==> r.carried(Some(uptime)) == r.attempt,
        r.carried(None) == r.attempt,
        r.attempt < 0xffff_ffff ==> one_more(r.attempt) == r.attempt + 1,
        r.attempt == 0xffff_ffff ==> one_more(r.attempt) == 0xffff_ffff,
        carried_attempt(r.attempt, uptime, r.max) == r.carried(Some(uptime)),
{
}

/// After many losses the wait is the shortest one times the largest 32-bit
/// number, or the cap.
pub proof fn law_backoff_stops_growing(attempt: u32, min: u64, max: u64)
    requires
        attempt >= 32,
    ensures
        min * 0xffff_ffff >= max ==> backoff(attempt, min, max) == max,
        min * 0xffff_ffff < max ==> backoff(attempt, min, max) == min * 0xffff_ffff,
{
}

} // verus!
