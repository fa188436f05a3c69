//! Schedules built from a step or a delay.
use vstd::prelude::*;

use crate::clock::now_nanos;
use crate::instant_iter::{lemma_every_nth, lemma_list_nth, sat_add, InstantIter, IntoInstantIter, TimesView};

verus! {

/// Moments at fixed intervals: `start + step`, `start + 2 * step`, and so on.
///
/// A moment past the end of the clock's range is clamped to `u64::MAX`.
pub struct Every {
    pub duration: u64,
    pub start: u64,
}

impl Every {
    /// Intervals of `duration` nanoseconds, counted from now.
    pub fn new(duration: u64) -> (r: Every)
        ensures
            r.duration == duration,
    {
        let now = now_nanos();
        Every::since(duration, now)
    }

    /// Intervals of `duration` nanoseconds, counted from `start`.
    pub fn since(duration: u64, start: u64) -> (r: Every)
        ensures
            r.duration == duration,
            r.start == start,
    {
        Every { duration, start }
    }
}

impl IntoInstantIter for Every {
    open spec fn instants(&self) -> TimesView {
        TimesView::Every { step: self.duration, last: self.start }
    }

    fn into_instant_iter(self) -> (r: InstantIter) {
        InstantIter::Every { step: self.duration, last: self.start }
    }
}

/// Successive moments of a fixed-interval schedule differ by its step, and
/// the `(k + 1)`-th is its start plus `k + 1` steps: late firings do not
/// shift later moments.
pub proof fn lemma_every_no_drift(e: Every, k: nat)
    requires
        e.start + (k + 2) * e.duration <= u64::MAX,
    ensures
        e.instants().nth(k) == Some((e.start + (k + 1) * e.duration) as u64),
        e.instants().nth(k + 1) == Some((e.start + (k + 2) * e.duration) as u64),
        e.instants().nth(k + 1).unwrap() - e.instants().nth(k).unwrap() == e.duration,
{
    assert((k + 1) * e.duration <= (k + 2) * e.duration) by (nonlinear_arith);
    assert((k + 2) * e.duration == (k + 1) * e.duration + e.duration) by (nonlinear_arith);
    lemma_every_nth(e.duration, e.start, k);
    lemma_every_nth(e.duration, e.start, k + 1);
}

/// A single moment, a fixed delay after the reference moment.
pub struct After {
    pub duration: u64,
    pub now: u64,
}

impl After {
    /// One moment, `duration` nanoseconds from now.
    pub fn new(duration: u64) -> (r: After)
        ensures
            r.duration == duration,
    {
        let now = now_nanos();
        After::since(duration, now)
    }

    /// One moment, `duration` nanoseconds after `now`.
    pub fn since(duration: u64, now: u64) -> (r: After)
        ensures
            r.duration == duration,
            r.now == now,
    {
        After { duration, now }
    }
}

impl IntoInstantIter for After {
    open spec fn instants(&self) -> TimesView {
        TimesView::List { items: seq![sat_add(self.now, self.duration)], pos: 0 }
    }

    fn into_instant_iter(self) -> (r: InstantIter) {
        let at = self.now.saturating_add(self.duration);
        let items: Vec<u64> = vec![at];
        assert(items@ =~= seq![sat_add(self.now, self.duration)]);
        InstantIter::Moments { items, pos: 0 }
    }
}

/// A single-delay schedule yields its moment once and never again.
pub proof fn lemma_after_once(a: After, k: nat)
    ensures
        a.instants().nth(0) == Some(sat_add(a.now, a.duration)),
        k >= 1 ==> a.instants().nth(k) == None::<u64>,
{
    lemma_list_nth(seq![sat_add(a.now, a.duration)], 0, 0);
    lemma_list_nth(seq![sat_add(a.now, a.duration)], 0, k);
}

} // verus!
