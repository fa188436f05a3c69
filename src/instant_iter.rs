//! Lazy sequences of moments, and the schedules that produce them.
use vstd::prelude::*;

use crate::clock::now_nanos;

verus! {

/// `a + b`, clamped to the clock's range.
pub open spec fn sat_add(a: u64, b: u64) -> u64 {
    if a + b > u64::MAX {
        u64::MAX
    } else {
        (a + b) as u64
    }
}

/// What remains of a sequence of moments.
pub enum TimesView {
    /// An unbounded sequence: each moment is the previous one plus `step`.
    Every { step: u64, last: u64 },
    /// A finite sequence: the moments of `items` from index `pos` on.
    List { items: Seq<u64>, pos: nat },
}

impl TimesView {
    /// The next moment, and what remains after it.
    pub open spec fn advance(self) -> (TimesView, Option<u64>) {
        match self {
            TimesView::Every { step, last } => {
                let t = sat_add(last, step);
                (TimesView::Every { step, last: t }, Some(t))
            },
            TimesView::List { items, pos } => {
                if pos < items.len() {
                    (TimesView::List { items, pos: pos + 1 }, Some(items[pos as int]))
                } else {
                    (self, None)
                }
            },
        }
    }

    /// The moment handed out by the `(k + 1)`-th call of `next`.
    pub open spec fn nth(self, k: nat) -> Option<u64>
        decreases k,
    {
        if k == 0 {
            self.advance().1
        } else {
            self.advance().0.nth((k - 1) as nat)
        }
    }
}

/// A finite sequence hands out its remaining items in order, then nothing.
pub proof fn lemma_list_nth(items: Seq<u64>, pos: nat, k: nat)
    ensures
        (TimesView::List { items, pos }).nth(k) == if pos + k < items.len() {
            Some(items[pos + k as int])
        } else {
            None::<u64>
        },
    decreases k,
{
    if k > 0 {
        if pos < items.len() {
            lemma_list_nth(items, pos + 1, (k - 1) as nat);
        } else {
            lemma_list_nth(items, pos, (k - 1) as nat);
        }
    }
}

/// An unbounded sequence never drifts: the `(k + 1)`-th moment is the
/// starting moment plus `k + 1` steps, wherever that fits the clock.
pub proof fn lemma_every_nth(step: u64, last: u64, k: nat)
    requires
        last + (k + 1) * step <= u64::MAX,
    ensures
        (TimesView::Every { step, last }).nth(k) == Some((last + (k + 1) * step) as u64),
    decreases k,
{
    assert((k + 1) * step >= step) by (nonlinear_arith);
    assert(sat_add(last, step) == last + step);
    if k == 0 {
        assert((k + 1) * step == step) by (nonlinear_arith)
            requires
                k == 0,
        ;
    } else {
        let next = (last + step) as u64;
        assert(next + ((k - 1) as nat + 1) * step == last + (k + 1) * step) by (nonlinear_arith)
            requires
                next == last + step,
                k > 0,
        ;
        lemma_every_nth(step, next, (k - 1) as nat);
    }
}

/// A schedule in the form the planner consumes it.
pub enum InstantIter {
    Every { step: u64, last: u64 },
    Moments { items: Vec<u64>, pos: usize },
    Durations(DurationToInstantIter),
}

impl View for InstantIter {
    type V = TimesView;

    open spec fn view(&self) -> TimesView {
        match self {
            InstantIter::Every { step, last } => TimesView::Every { step: *step, last: *last },
            InstantIter::Moments { items, pos } => TimesView::List { items: items@, pos: *pos as nat },
            InstantIter::Durations(d) => d@,
        }
    }
}

impl InstantIter {
    /// Hands out the next moment, if any remains.
    pub fn next(&mut self) -> (r: Option<u64>)
        ensures
            (final(self)@, r) == old(self)@.advance(),
    {
        match self {
            InstantIter::Every { step, last } => {
                let t = last.saturating_add(*step);
                *last = t;
                Some(t)
            },
            InstantIter::Moments { items, pos } => {
                if *pos < items.len() {
                    let t = items[*pos];
                    *pos = *pos + 1;
                    Some(t)
                } else {
                    None
                }
            },
            InstantIter::Durations(d) => d.next(),
        }
    }
}

/// Offsets in nanoseconds, each resolved against the same reference moment
/// (not against the previous offset), in the order given.
pub struct DurationToInstantIter {
    pub durations: Vec<u64>,
    pub pos: usize,
    pub now: u64,
}

impl View for DurationToInstantIter {
    type V = TimesView;

    open spec fn view(&self) -> TimesView {
        TimesView::List {
            items: Seq::new(self.durations@.len(), |i: int| sat_add(self.now, self.durations@[i])),
            pos: self.pos as nat,
        }
    }
}

impl DurationToInstantIter {
    /// The offsets `durations`, resolved against now.
    pub fn new(durations: Vec<u64>) -> (r: DurationToInstantIter)
        ensures
            r.durations@ == durations@,
            r.pos == 0,
    {
        let now = now_nanos();
        DurationToInstantIter::since(durations, now)
    }

    /// The offsets `durations`, resolved against `now`.
    pub fn since(durations: Vec<u64>, now: u64) -> (r: DurationToInstantIter)
        ensures
            r.durations@ == durations@,
            r.pos == 0,
            r.now == now,
    {
        DurationToInstantIter { durations, pos: 0, now }
    }

    /// Hands out the next offset resolved to a moment, if any remains.
    pub fn next(&mut self) -> (r: Option<u64>)
        ensures
            (final(self)@, r) == old(self)@.advance(),
            final(self).now == old(self).now,
            final(self).durations@ == old(self).durations@,
    {
        if self.pos < self.durations.len() {
            let t = self.now.saturating_add(self.durations[self.pos]);
            self.pos = self.pos + 1;
            proof {
                assert(final(self)@ == old(self)@.advance().0);
            }
            Some(t)
        } else {
            None
        }
    }
}

/// A value that describes when a job runs.
pub trait IntoInstantIter: Sized {
    /// The moments this value describes.
    spec fn instants(&self) -> TimesView;

    /// The lazy sequence of those moments.
    fn into_instant_iter(self) -> (r: InstantIter)
        ensures
            r@ == self.instants(),
    ;
}

impl IntoInstantIter for InstantIter {
    open spec fn instants(&self) -> TimesView {
        self@
    }

    fn into_instant_iter(self) -> (r: InstantIter) {
        self
    }
}

/// Absolute moments, in the order given.
impl IntoInstantIter for Vec<u64> {
    open spec fn instants(&self) -> TimesView {
        TimesView::List { items: self@, pos: 0 }
    }

    fn into_instant_iter(self) -> (r: InstantIter) {
        InstantIter::Moments { items: self, pos: 0 }
    }
}

impl IntoInstantIter for DurationToInstantIter {
    open spec fn instants(&self) -> TimesView {
        self@
    }

    fn into_instant_iter(self) -> (r: InstantIter) {
        InstantIter::Durations(self)
    }
}

} // verus!
