use periodic::{AddError, After, DurationToInstantIter, Every, Job, Planner, Prompt, Step};

const SEC: u64 = 1_000_000_000;

#[test]
fn new_planner_is_empty_and_stopped() {
    let p = Planner::new();
    assert_eq!(p.len(), 0);
    assert!(!p.is_started());
    assert!(!p.is_running());
}

#[test]
fn first_add_asks_for_a_loop() {
    let mut p = Planner::new();
    assert_eq!(p.add(0, After::since(SEC, 0)), Ok(Prompt::Spawn));
    assert!(p.is_started());
    assert_eq!(p.len(), 1);
}

#[test]
fn due_job_fires_and_early_job_waits_exactly() {
    let t0 = 1_000 * SEC;
    let mut p = Planner::new();
    p.add(4, After::since(2 * SEC, t0)).unwrap();
    assert_eq!(p.step(t0), Step::Wait(2 * SEC));
    assert_eq!(p.step(t0 + SEC), Step::Wait(SEC));
    assert_eq!(p.step(t0 + 2 * SEC), Step::Fire(4));
}

#[test]
fn late_step_still_fires() {
    let mut p = Planner::new();
    p.add(1, After::since(5, 100)).unwrap();
    assert_eq!(p.step(10_000), Step::Fire(1));
    assert_eq!(p.step(10_000), Step::Stop);
}

#[test]
fn every_fires_without_drift_after_late_steps() {
    let t0 = 50 * SEC;
    let mut p = Planner::new();
    p.add(7, Every::since(SEC, t0)).unwrap();
    // The loop comes late to the first firing; the next one stays on the grid.
    assert_eq!(p.step(t0 + SEC + SEC / 2), Step::Fire(7));
    assert_eq!(p.step(t0 + SEC + SEC / 2), Step::Wait(SEC / 2));
    assert_eq!(p.step(t0 + 2 * SEC), Step::Fire(7));
    assert_eq!(p.step(t0 + 2 * SEC), Step::Wait(SEC));
    // Very late: each missed moment fires back to back, without sleeping.
    assert_eq!(p.step(t0 + 5 * SEC), Step::Fire(7));
    assert_eq!(p.step(t0 + 5 * SEC), Step::Fire(7));
    assert_eq!(p.step(t0 + 5 * SEC), Step::Fire(7));
    assert_eq!(p.step(t0 + 5 * SEC), Step::Wait(SEC));
}

#[test]
fn after_fires_once() {
    let mut p = Planner::new();
    p.add(3, After::since(SEC, 0)).unwrap();
    assert_eq!(p.step(SEC), Step::Fire(3));
    assert_eq!(p.len(), 0);
    assert_eq!(p.step(100 * SEC), Step::Stop);
}

#[test]
fn durations_three_five_seven_fire_in_order() {
    let t0 = 10 * SEC;
    let mut p = Planner::new();
    p.add(2, DurationToInstantIter::since(vec![3 * SEC, 5 * SEC, 7 * SEC], t0)).unwrap();
    assert_eq!(p.step(t0), Step::Wait(3 * SEC));
    assert_eq!(p.step(t0 + 3 * SEC), Step::Fire(2));
    assert_eq!(p.step(t0 + 3 * SEC), Step::Wait(2 * SEC));
    assert_eq!(p.step(t0 + 5 * SEC), Step::Fire(2));
    assert_eq!(p.step(t0 + 5 * SEC), Step::Wait(2 * SEC));
    assert_eq!(p.step(t0 + 7 * SEC), Step::Fire(2));
    assert_eq!(p.step(t0 + 7 * SEC), Step::Stop);
}

#[test]
fn earlier_job_fires_first() {
    let t0 = 0;
    let mut p = Planner::new();
    p.add(5, After::since(5 * SEC, t0)).unwrap();
    p.add(1, After::since(SEC, t0)).unwrap();
    assert_eq!(p.step(t0 + 10 * SEC), Step::Fire(1));
    assert_eq!(p.step(t0 + 10 * SEC), Step::Fire(5));
    assert_eq!(p.step(t0 + 10 * SEC), Step::Stop);
}

#[test]
fn out_of_order_durations_fire_by_time() {
    let mut p = Planner::new();
    p.add(0, DurationToInstantIter::since(vec![9, 2], 0)).unwrap();
    p.add(1, vec![5u64]).unwrap();
    assert_eq!(p.step(100), Step::Fire(1));
    assert_eq!(p.step(100), Step::Fire(0));
    assert_eq!(p.step(100), Step::Fire(0));
    assert_eq!(p.step(100), Step::Stop);
}

#[test]
fn empty_schedule_is_refused_and_queue_unchanged() {
    let mut p = Planner::new();
    p.add(0, After::since(SEC, 0)).unwrap();
    assert_eq!(p.add(1, Vec::<u64>::new()), Err(AddError::EmptySchedule));
    assert_eq!(p.len(), 1);
    assert_eq!(p.add(2, DurationToInstantIter::since(Vec::new(), 0)), Err(AddError::EmptySchedule));
    assert_eq!(p.len(), 1);
    assert_eq!(p.step(SEC), Step::Fire(0));
    assert_eq!(p.step(SEC), Step::Stop);
}

#[test]
fn empty_schedule_on_new_planner_does_not_start_it() {
    let mut p = Planner::new();
    assert_eq!(p.add(1, Vec::<u64>::new()), Err(AddError::EmptySchedule));
    assert!(!p.is_started());
}

#[test]
fn start_twice_is_a_no_op() {
    let mut p = Planner::new();
    p.add(0, After::since(SEC, 0)).unwrap();
    assert!(!p.start());
    let mut q = Planner::new();
    assert!(q.start());
    assert!(!q.start());
    assert!(q.is_started());
    assert_eq!(q.add(0, After::since(SEC, 0)), Ok(Prompt::Wake));
    assert!(!q.start());
    assert_eq!(q.len(), 1);
}

#[test]
fn wake_only_for_new_earliest_job() {
    let mut p = Planner::new();
    assert_eq!(p.add(0, After::since(5 * SEC, 0)), Ok(Prompt::Spawn));
    assert_eq!(p.add(1, After::since(7 * SEC, 0)), Ok(Prompt::Idle));
    assert_eq!(p.add(2, After::since(5 * SEC, 0)), Ok(Prompt::Wake));
    assert_eq!(p.add(3, After::since(SEC, 0)), Ok(Prompt::Wake));
    assert_eq!(p.len(), 4);
}

#[test]
fn equal_moments_fire_in_insertion_order() {
    let mut p = Planner::new();
    p.add(0, After::since(SEC, 0)).unwrap();
    p.add(1, After::since(SEC, 0)).unwrap();
    assert_eq!(p.step(SEC), Step::Fire(0));
    assert_eq!(p.step(SEC), Step::Fire(1));
}

#[test]
fn planner_resumes_after_queue_empties() {
    let mut p = Planner::new();
    assert!(p.start());
    p.add(0, After::since(SEC, 0)).unwrap();
    p.add(1, After::since(2 * SEC, 0)).unwrap();
    assert_eq!(p.step(3 * SEC), Step::Fire(0));
    assert_eq!(p.step(3 * SEC), Step::Fire(1));
    assert_eq!(p.step(3 * SEC), Step::Stop);
    assert!(p.is_started());
    assert!(!p.is_running());
    assert_eq!(p.add(2, After::since(SEC, 3 * SEC)), Ok(Prompt::Spawn));
    assert!(p.is_running());
    assert_eq!(p.step(4 * SEC), Step::Fire(2));
}

#[test]
fn planner_stays_started_after_queue_empties() {
    let mut p = Planner::new();
    assert!(p.start());
    assert_eq!(p.step(0), Step::Stop);
    assert!(p.is_started());
    assert!(!p.is_running());
    assert!(!p.start());
    assert!(!p.is_running());
    assert_eq!(p.add(0, After::since(SEC, 0)), Ok(Prompt::Spawn));
}

#[test]
fn step_on_empty_planner_stops() {
    let mut p = Planner::new();
    assert_eq!(p.step(0), Step::Stop);
    assert!(!p.is_started());
    assert!(!p.is_running());
}

#[test]
fn step_now_fires_a_past_job() {
    let mut p = Planner::new();
    p.add(8, After::since(0, 1)).unwrap();
    assert_eq!(p.step_now(), Step::Fire(8));
    p.add(9, After::since(0, u64::MAX)).unwrap();
    assert!(matches!(p.step_now(), Step::Wait(_)));
}

#[test]
fn job_takes_first_moment_and_advances() {
    let j = Job::new(6, vec![4u64, 2]).unwrap();
    assert_eq!(j.callback, 6);
    assert_eq!(j.next_time, 4);
    let j = j.to_next_time().unwrap();
    assert_eq!(j.next_time, 2);
    assert!(j.to_next_time().is_none());
    assert!(Job::new(6, Vec::<u64>::new()).is_none());
}
