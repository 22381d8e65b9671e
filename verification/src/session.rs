//! Capture-cycle session state.
//!
//! Capture cycles start every few milliseconds while triggered, and the
//! remote analysis of a superseded capture may finish late.  Each capture
//! receives a generation number; a result set is accepted only when its
//! generation is still the current one, so stale analyses are discarded
//! instead of overwriting fresher results.  The font-scale stepping and
//! the hint rotation of the presentation layer live here too, as pure
//! decisions.

use vstd::prelude::*;

use crate::annotate::JpnText;

verus! {

/// The annotation results of the capture cycles, guarded by a generation
/// counter, with the index of the hint currently presented.
pub struct AnnotationSession {
    pub generation: u64,
    pub results: Vec<JpnText>,
    pub result_index: usize,
}

impl AnnotationSession {
    pub fn new() -> (s: AnnotationSession)
        ensures
            s.generation == 0,
            s.results@.len() == 0,
            s.result_index == 0,
    {
        AnnotationSession { generation: 0, results: Vec::new(), result_index: 0 }
    }

    /// Begins a new capture cycle: clears the previous results and hands
    /// out the new cycle's generation number.
    pub fn start_capture(&mut self) -> (g: u64)
        requires
            old(self).generation < u64::MAX,
        ensures
            final(self).generation == old(self).generation + 1,
            final(self).results@.len() == 0,
            final(self).result_index == 0,
            g == final(self).generation,
    {
        self.generation = self.generation + 1;
        self.results = Vec::new();
        self.result_index = 0;
        self.generation
    }

    /// Delivers a capture's results: accepted exactly when they belong to
    /// the current generation; a late delivery changes nothing.
    pub fn deliver(&mut self, generation: u64, results: Vec<JpnText>) -> (accepted: bool)
        ensures
            accepted == (generation == old(self).generation),
            accepted ==> final(self).results == results && final(self).result_index == 0,
            !accepted ==> *final(self) == *old(self),
            final(self).generation == old(self).generation,
    {
        if generation == self.generation {
            self.results = results;
            self.result_index = 0;
            true
        } else {
            false
        }
    }

    /// Rotates the presented hint to the next result, wrapping around;
    /// with no results there is nothing to rotate.
    pub fn next_hint(&mut self)
        ensures
            final(self).generation == old(self).generation,
            final(self).results == old(self).results,
            old(self).results@.len() == 0 ==> final(self).result_index == old(self).result_index,
            old(self).results@.len() > 0 ==> final(self).result_index == (old(self).result_index
                + 1) % (old(self).results@.len() as int),
    {
        if self.results.len() > 0 {
            let len = self.results.len();
            let ghost i = self.result_index as int;
            let ghost n = len as int;
            let r = self.result_index % len;
            self.result_index = (r + 1) % len;
            proof {
                vstd::arithmetic::div_mod::lemma_add_mod_noop(i, 1, n);
                if n > 1 {
                    vstd::arithmetic::div_mod::lemma_small_mod(1, n as nat);
                }
            }
        }
    }
}

/// The number of connection attempts allowed while waiting for the
/// analyzer at service start-up.
pub const CONNECT_ATTEMPTS: u32 = 16;

/// The retry budget for establishing the analyzer connection: the one
/// place a hard failure is appropriate.  Each failed attempt spends one
/// try; when the budget is exhausted the service start-up fails.
pub struct RetryBudget {
    pub attempts: u32,
    pub limit: u32,
}

impl RetryBudget {
    pub fn new() -> (b: RetryBudget)
        ensures
            b.attempts == 0,
            b.limit == CONNECT_ATTEMPTS,
    {
        RetryBudget { attempts: 0, limit: CONNECT_ATTEMPTS }
    }

    /// Records one failed attempt; the caller retries (after its fixed
    /// interval) exactly while this returns true, and fails the start-up
    /// when the budget is spent.
    pub fn record_failure(&mut self) -> (keep_trying: bool)
        requires
            old(self).attempts < u32::MAX,
        ensures
            final(self).attempts == old(self).attempts + 1,
            final(self).limit == old(self).limit,
            keep_trying == (final(self).attempts < final(self).limit),
    {
        self.attempts = self.attempts + 1;
        self.attempts < self.limit
    }
}

/// One font-scale step, as a percentage: up or down by 25, clamped into
/// 50..=200.
pub open spec fn spec_step_font_scale(scale: int, up: bool) -> int {
    let moved = if up {
        scale + 25
    } else {
        scale - 25
    };
    if moved < 50 {
        50
    } else if moved > 200 {
        200
    } else {
        moved
    }
}

/// Steps the overlay font scale by a quarter, kept within half to double
/// size.
pub fn step_font_scale(scale: i32, up: bool) -> (r: i32)
    requires
        -0x7000_0000 < scale < 0x7000_0000,
    ensures
        r == spec_step_font_scale(scale as int, up),
{
    let moved = if up {
        scale + 25
    } else {
        scale - 25
    };
    if moved < 50 {
        50
    } else if moved > 200 {
        200
    } else {
        moved
    }
}

} // verus!
