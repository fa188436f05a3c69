//! The job queue and the decisions of the scheduler loop.
//!
//! The planner holds no thread and no callback: it keeps the jobs ordered by
//! their next moment and tells its driver what to do. `add` and `start` say
//! whether a loop must be spawned or woken; `step` says which callback is due,
//! how long to wait otherwise, or that the queue is empty and the loop ends.
use vstd::prelude::*;

use crate::clock::now_nanos;
use crate::instant_iter::{InstantIter, IntoInstantIter, TimesView};

verus! {

/// A job as a value: its callback, its next moment and the moments after it.
pub struct JobView {
    pub callback: usize,
    pub due: u64,
    pub rest: TimesView,
}

/// The job that a schedule gives, if it yields at least one moment.
pub open spec fn job_from(callback: usize, times: TimesView) -> Option<JobView> {
    match times.advance() {
        (rest, Some(due)) => Some(JobView { callback, due, rest }),
        (_, None) => None,
    }
}

/// A callback bound to its next moment and to the rest of its schedule.
pub struct Job {
    pub callback: usize,
    pub next_time: u64,
    pub rest_times: InstantIter,
}

impl View for Job {
    type V = JobView;

    open spec fn view(&self) -> JobView {
        JobView { callback: self.callback, due: self.next_time, rest: self.rest_times@ }
    }
}

/// The view of an optional job.
pub open spec fn job_opt_view(o: Option<Job>) -> Option<JobView> {
    match o {
        Some(j) => Some(j@),
        None => None,
    }
}

impl Job {
    /// The job that runs `callback` at the moments of `times`; `None` when
    /// `times` yields no moment.
    pub fn new<T: IntoInstantIter>(callback: usize, times: T) -> (r: Option<Job>)
        ensures
            job_opt_view(r) == job_from(callback, times.instants()),
    {
        let mut rest_times = times.into_instant_iter();
        match rest_times.next() {
            Some(next_time) => Some(Job { callback, next_time, rest_times }),
            None => None,
        }
    }

    /// The same job at its following moment; `None` when its schedule is
    /// exhausted.
    pub fn to_next_time(self) -> (r: Option<Job>)
        ensures
            job_opt_view(r) == job_from(self.callback, self.rest_times@),
    {
        let mut rest_times = self.rest_times;
        match rest_times.next() {
            Some(next_time) => Some(Job { callback: self.callback, next_time, rest_times }),
            None => None,
        }
    }
}

/// Jobs in the order in which they fall due.
pub open spec fn sorted(q: Seq<JobView>) -> bool {
    forall|i: int, k: int| 0 <= i < k < q.len() ==> q[i].due <= q[k].due
}

/// `q` with `j` placed after every job due no later than it.
pub open spec fn insert_sorted(q: Seq<JobView>, j: JobView) -> Seq<JobView>
    decreases q.len(),
{
    if q.len() == 0 {
        seq![j]
    } else if j.due < q[0].due {
        seq![j] + q
    } else {
        seq![q[0]] + insert_sorted(q.drop_first(), j)
    }
}

proof fn lemma_insert_at(q: Seq<JobView>, j: JobView, i: int)
    requires
        sorted(q),
        0 <= i <= q.len(),
        forall|k: int| 0 <= k < i ==> q[k].due <= j.due,
        i < q.len() ==> j.due < q[i].due,
    ensures
        insert_sorted(q, j) == q.insert(i, j),
        sorted(q.insert(i, j)),
    decreases q.len(),
{
    if q.len() == 0 {
        assert(q.insert(i, j) =~= seq![j]);
    } else if j.due < q[0].due {
        assert(q.insert(0, j) =~= seq![j] + q);
    } else {
        lemma_insert_at(q.drop_first(), j, i - 1);
        assert(q.insert(i, j) =~= seq![q[0]] + q.drop_first().insert(i - 1, j));
    }
    let r = q.insert(i, j);
    assert forall|a: int, b: int| 0 <= a < b < r.len() implies r[a].due <= r[b].due by {
        if b < i {
        } else if b == i {
        } else if a < i {
        } else if a == i {
            assert(r[b] == q[b - 1]);
        } else {
        }
    }
}

/// What the driver of a planner must do after `add` or `start`.
#[derive(Clone, Copy, Debug, PartialEq, Eq, Structural)]
pub enum Prompt {
    /// No loop runs: spawn one.
    Spawn,
    /// The loop runs and the new job is now the earliest: wake it.
    Wake,
    /// The loop runs and needs no notice.
    Idle,
}

/// What the scheduler loop must do next.
#[derive(Clone, Copy, Debug, PartialEq, Eq, Structural)]
pub enum Step {
    /// Run this callback, then step again at once.
    Fire(usize),
    /// Wait this many nanoseconds, or until woken, then step again.
    Wait(u64),
    /// The queue is empty: the loop ends.
    Stop,
}

/// Why a job was refused.
#[derive(Clone, Copy, Debug, PartialEq, Eq, Structural)]
pub enum AddError {
    /// The schedule yields no moment, so the job would never run.
    EmptySchedule,
}

/// A planner as a value: its queue, earliest job first; whether it was ever
/// started; and whether a scheduler loop is running.
pub struct PlannerView {
    pub queue: Seq<JobView>,
    pub started: bool,
    pub looping: bool,
}

/// The planner after adding a job for `callback` on `times`, and the result.
pub open spec fn add_spec(v: PlannerView, callback: usize, times: TimesView) -> (
    PlannerView,
    Result<Prompt, AddError>,
) {
    match job_from(callback, times) {
        None => (v, Err(AddError::EmptySchedule)),
        Some(j) => {
            let q = insert_sorted(v.queue, j);
            let prompt = if !v.looping {
                Prompt::Spawn
            } else if q[0].due == j.due {
                Prompt::Wake
            } else {
                Prompt::Idle
            };
            (PlannerView { queue: q, started: true, looping: true }, Ok(prompt))
        },
    }
}

/// The planner after `start`, and whether a loop must be spawned: only the
/// first start does anything.
pub open spec fn start_spec(v: PlannerView) -> (PlannerView, bool) {
    if v.started {
        (v, false)
    } else {
        (PlannerView { queue: v.queue, started: true, looping: true }, true)
    }
}

/// The planner after one step of the loop at moment `now`, and the step.
pub open spec fn step_spec(v: PlannerView, now: u64) -> (PlannerView, Step) {
    if v.queue.len() == 0 {
        (PlannerView { queue: v.queue, started: v.started, looping: false }, Step::Stop)
    } else if v.queue[0].due <= now {
        let j = v.queue[0];
        let rest = v.queue.drop_first();
        let q = match job_from(j.callback, j.rest) {
            Some(renewed) => insert_sorted(rest, renewed),
            None => rest,
        };
        (PlannerView { queue: q, started: v.started, looping: v.looping }, Step::Fire(j.callback))
    } else {
        (v, Step::Wait((v.queue[0].due - now) as u64))
    }
}

/// A step fires the earliest queued job once it is due, and only then;
/// otherwise it waits exactly until that job is due.
pub proof fn lemma_step_fires_earliest(v: PlannerView, now: u64)
    requires
        sorted(v.queue),
        v.queue.len() > 0,
    ensures
        step_spec(v, now).1 == Step::Fire(v.queue[0].callback) <==> v.queue[0].due <= now,
        v.queue[0].due > now ==> step_spec(v, now).1 == Step::Wait((v.queue[0].due - now) as u64),
        forall|i: int| 0 <= i < v.queue.len() ==> v.queue[0].due <= #[trigger] v.queue[i].due,
{
}

/// Queueing a job keeps the queue ordered and loses no job.
pub proof fn lemma_insert_sorted(q: Seq<JobView>, j: JobView)
    requires
        sorted(q),
    ensures
        sorted(insert_sorted(q, j)),
        exists|i: int| 0 <= i <= q.len() && insert_sorted(q, j) == q.insert(i, j),
    decreases q.len(),
{
    if q.len() == 0 {
        assert(insert_sorted(q, j) == q.insert(0, j));
    } else if j.due < q[0].due {
        lemma_insert_at(q, j, 0);
    } else {
        let t = q.drop_first();
        lemma_insert_sorted(t, j);
        let i = choose|i: int| 0 <= i <= t.len() && insert_sorted(t, j) == t.insert(i, j);
        assert(q.insert(i + 1, j) =~= seq![q[0]] + t.insert(i, j));
        let r = q.insert(i + 1, j);
        assert forall|a: int, b: int| 0 <= a < b < r.len() implies r[a].due <= r[b].due by {
            if a == 0 && b == i + 1 {
            } else if a == 0 {
                assert(r[b] == insert_sorted(t, j)[b - 1]);
            } else {
                assert(r[a] == insert_sorted(t, j)[a - 1]);
                assert(r[b] == insert_sorted(t, j)[b - 1]);
            }
        }
    }
}

/// A schedule that yields no moment is refused and the planner is left
/// as it was.
pub proof fn lemma_empty_schedule_refused(v: PlannerView, callback: usize, times: TimesView)
    requires
        times.advance().1 == None::<u64>,
    ensures
        add_spec(v, callback, times) == (v, Err::<Prompt, AddError>(AddError::EmptySchedule)),
{
}

/// Starting twice spawns one loop: the second start changes nothing and
/// asks for no loop.
pub proof fn lemma_start_twice(v: PlannerView)
    ensures
        start_spec(start_spec(v).0) == (start_spec(v).0, false),
        start_spec(v).0.queue == v.queue,
{
}

/// Once started, a planner stays started: no operation clears the mark.
pub proof fn lemma_started_stays(
    v: PlannerView,
    now: u64,
    callback: usize,
    times: TimesView,
)
    requires
        v.started,
    ensures
        add_spec(v, callback, times).0.started,
        start_spec(v).0.started,
        step_spec(v, now).0.started,
{
}

/// Once the queue has emptied the loop stops, and the next job added asks
/// for a new loop, with no call of `start`.
pub proof fn lemma_resume_after_empty(
    v: PlannerView,
    now: u64,
    callback: usize,
    times: TimesView,
)
    requires
        v.queue.len() == 0,
        times.advance().1 is Some,
    ensures
        step_spec(v, now).1 == Step::Stop,
        !step_spec(v, now).0.looping,
        step_spec(v, now).0.started == v.started,
        add_spec(step_spec(v, now).0, callback, times).1 == Ok::<Prompt, AddError>(Prompt::Spawn),
        add_spec(step_spec(v, now).0, callback, times).0.queue.len() == 1,
{
    assert(insert_sorted(Seq::<JobView>::empty(), job_from(callback, times).unwrap()).len() == 1);
}

/// How many moments a schedule has left to hand out; none are counted for
/// an unbounded one.
pub open spec fn moments_left(t: TimesView) -> nat {
    match t {
        TimesView::Every { .. } => 0,
        TimesView::List { items, pos } => if pos < items.len() {
            (items.len() - pos) as nat
        } else {
            0
        },
    }
}

/// Every queued job has a finite schedule.
pub open spec fn all_finite(q: Seq<JobView>) -> bool {
    forall|i: int| 0 <= i < q.len() ==> (#[trigger] q[i]).rest is List
}

/// The firings still to come in a queue: one for each job, and one for each
/// moment its schedule has left.
pub open spec fn firings_left(q: Seq<JobView>) -> nat
    decreases q.len(),
{
    if q.len() == 0 {
        0
    } else {
        1 + moments_left(q[0].rest) + firings_left(q.drop_first())
    }
}

proof fn lemma_firings_left_insert(q: Seq<JobView>, i: int, j: JobView)
    requires
        0 <= i <= q.len(),
    ensures
        firings_left(q.insert(i, j)) == firings_left(q) + 1 + moments_left(j.rest),
    decreases q.len(),
{
    if i == 0 {
        assert(q.insert(0, j).drop_first() =~= q);
    } else {
        lemma_firings_left_insert(q.drop_first(), i - 1, j);
        assert(q.insert(i, j).drop_first() =~= q.drop_first().insert(i - 1, j));
    }
}

/// With finite schedules only, each firing uses up one of the firings left
/// and any other step leaves the queue as it was; the queue is empty exactly
/// when none are left. So after at most `firings_left` firings the loop
/// stops.
pub proof fn lemma_finite_schedules_run_out(v: PlannerView, now: u64)
    requires
        sorted(v.queue),
        all_finite(v.queue),
    ensures
        all_finite(step_spec(v, now).0.queue),
        step_spec(v, now).1 is Fire ==> firings_left(step_spec(v, now).0.queue) + 1
            == firings_left(v.queue),
        !(step_spec(v, now).1 is Fire) ==> step_spec(v, now).0.queue == v.queue,
        firings_left(v.queue) == 0 <==> v.queue.len() == 0,
{
    if v.queue.len() > 0 && v.queue[0].due <= now {
        let j = v.queue[0];
        let rest = v.queue.drop_first();
        assert(j.rest is List);
        assert(all_finite(rest)) by {
            assert forall|i: int| 0 <= i < rest.len() implies (#[trigger] rest[i]).rest is List by {
                assert(rest[i] == v.queue[i + 1]);
            }
        }
        match job_from(j.callback, j.rest) {
            Some(renewed) => {
                assert(sorted(rest));
                lemma_insert_sorted(rest, renewed);
                let i = choose|i: int|
                    0 <= i <= rest.len() && insert_sorted(rest, renewed) == rest.insert(i, renewed);
                lemma_firings_left_insert(rest, i, renewed);
                let q = rest.insert(i, renewed);
                assert forall|k: int| 0 <= k < q.len() implies (#[trigger] q[k]).rest is List by {
                    if k < i {
                        assert(q[k] == rest[k]);
                    } else if k > i {
                        assert(q[k] == rest[k - 1]);
                    }
                }
            },
            None => {},
        }
    }
}

/// Schedules callbacks at the moments their schedules give.
pub struct Planner {
    queue: Vec<Job>,
    started: bool,
    looping: bool,
}

impl View for Planner {
    type V = PlannerView;

    closed spec fn view(&self) -> PlannerView {
        PlannerView {
            queue: self.queue@.map_values(|j: Job| j@),
            started: self.started,
            looping: self.looping,
        }
    }
}

impl Planner {
    /// The queue is ordered by due moment, and a loop runs only in a
    /// started planner.
    pub open spec fn wf(&self) -> bool {
        &&& sorted(self@.queue)
        &&& self@.looping ==> self@.started
    }

    /// An empty planner, not started, with no loop running.
    pub fn new() -> (r: Planner)
        ensures
            r.wf(),
            r@.queue.len() == 0,
            !r@.started,
            !r@.looping,
    {
        let r = Planner { queue: Vec::new(), started: false, looping: false };
        assert(r@.queue =~= Seq::<JobView>::empty());
        r
    }

    /// Whether the planner was ever started, by `start` or by a successful
    /// `add`.
    pub fn is_started(&self) -> (r: bool)
        ensures
            r == self@.started,
    {
        self.started
    }

    /// Whether a scheduler loop is running: it stops when the queue empties
    /// and runs again after the next successful `add`.
    pub fn is_running(&self) -> (r: bool)
        ensures
            r == self@.looping,
    {
        self.looping
    }

    /// The number of queued jobs.
    pub fn len(&self) -> (r: usize)
        ensures
            r == self@.queue.len(),
    {
        self.queue.len()
    }

    /// Places `job` after every queued job due no later than it.
    fn push(&mut self, job: Job)
        requires
            old(self).wf(),
        ensures
            final(self).wf(),
            final(self)@.queue == insert_sorted(old(self)@.queue, job@),
            final(self)@.queue.len() == old(self)@.queue.len() + 1,
            final(self)@.started == old(self)@.started,
            final(self)@.looping == old(self)@.looping,
    {
        let ghost q = self@.queue;
        let mut i: usize = 0;
        while i < self.queue.len() && self.queue[i].next_time <= job.next_time
            invariant
                q == self@.queue,
                0 <= i <= q.len(),
                forall|k: int| 0 <= k < i ==> q[k].due <= job@.due,
            decreases q.len() - i,
        {
            i = i + 1;
        }
        proof {
            lemma_insert_at(q, job@, i as int);
        }
        self.queue.insert(i, job);
        assert(self@.queue =~= q.insert(i as int, job@));
    }

    /// Registers a job for `callback` at the moments of `times`.
    ///
    /// Refused, with the queue left as it was, when `times` yields no
    /// moment. Otherwise the job joins the queue after every job due no later
    /// than it, the planner counts as started, and the result says whether a
    /// loop must be spawned (none ran) or woken (the new job is the earliest).
    pub fn add<T: IntoInstantIter>(&mut self, callback: usize, times: T) -> (r: Result<
        Prompt,
        AddError,
    >)
        requires
            old(self).wf(),
        ensures
            final(self).wf(),
            (final(self)@, r) == add_spec(old(self)@, callback, times.instants()),
    {
        let job = match Job::new(callback, times) {
            Some(j) => j,
            None => return Err(AddError::EmptySchedule),
        };
        let due = job.next_time;
        self.push(job);
        assert(self.queue@.len() == self@.queue.len());
        assert(self.queue@[0]@ == self@.queue[0]);
        let is_earliest = self.queue[0].next_time == due;
        let prompt = if !self.looping {
            Prompt::Spawn
        } else if is_earliest {
            Prompt::Wake
        } else {
            Prompt::Idle
        };
        self.started = true;
        self.looping = true;
        Ok(prompt)
    }

    /// Marks the planner started and its loop running; `true` on the first
    /// start, so that the caller spawns the loop, and `false` (with nothing
    /// changed) once the planner was started.
    pub fn start(&mut self) -> (r: bool)
        requires
            old(self).wf(),
        ensures
            final(self).wf(),
            (final(self)@, r) == start_spec(old(self)@),
    {
        if self.started {
            return false;
        }
        self.started = true;
        self.looping = true;
        true
    }

    /// One iteration of the scheduler loop at moment `now`.
    ///
    /// With an empty queue the loop stops. When the earliest job is due it is
    /// taken out, its callback is returned to be fired, and it is queued
    /// again at its next moment if its schedule has one. Otherwise the result
    /// is the time left until the earliest job is due.
    pub fn step(&mut self, now: u64) -> (r: Step)
        requires
            old(self).wf(),
        ensures
            final(self).wf(),
            (final(self)@, r) == step_spec(old(self)@, now),
    {
        if self.queue.len() == 0 {
            self.looping = false;
            return Step::Stop;
        }
        let due = self.queue[0].next_time;
        if due <= now {
            let ghost q = self@.queue;
            let job = self.queue.remove(0);
            assert(self@.queue =~= q.drop_first());
            let callback = job.callback;
            match job.to_next_time() {
                Some(renewed) => self.push(renewed),
                None => {},
            }
            Step::Fire(callback)
        } else {
            Step::Wait(due - now)
        }
    }

    /// One iteration of the scheduler loop at the present moment.
    pub fn step_now(&mut self) -> (r: Step)
        requires
            old(self).wf(),
        ensures
            final(self).wf(),
            exists|now: u64| (final(self)@, r) == step_spec(old(self)@, now),
    {
        let now = now_nanos();
        self.step(now)
    }
}

} // verus!
