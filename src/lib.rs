//! Scheduling of callbacks at fixed intervals, after a delay, or at listed
//! moments.
//!
//! Time is counted in nanoseconds on the system clock. A schedule is turned
//! into an [`InstantIter`], a lazy sequence of moments; the [`Planner`] keeps
//! its jobs ordered by their next moment and decides, step by step, which
//! callback is due and how long to wait for the next one. Callbacks are
//! named by the index that the caller gave them.
mod clock;

pub mod instant_iter;
pub mod period;
pub mod planner;

pub use instant_iter::{DurationToInstantIter, InstantIter, IntoInstantIter, TimesView};
pub use period::{After, Every};
pub use planner::{AddError, Job, JobView, Planner, PlannerView, Prompt, Step};
