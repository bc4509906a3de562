//! Queues of work and timers.

use gpui_zgui::dispatcher::worker_count;
use gpui_zgui::dispatcher::MainQueue;
use gpui_zgui::dispatcher::Priority;
use gpui_zgui::dispatcher::TimerStep;
use gpui_zgui::dispatcher::Timers;

#[test]
fn urgent_work_runs_first_and_each_class_in_order() {
    let mut queue = MainQueue::new();
    queue.push(1, Priority::Medium);
    queue.push(2, Priority::High);
    queue.push(3, Priority::Low);
    queue.push(4, Priority::RealtimeAudio);
    queue.push(5, Priority::Medium);
    assert_eq!(queue.drain(), vec![2, 4, 1, 3, 5]);
    assert!(queue.is_empty());
    assert_eq!(queue.drain(), Vec::<i32>::new());
}

#[test]
fn the_loop_is_woken_once() {
    let mut queue = MainQueue::new();
    assert!(queue.queue_main('a', Priority::Low));
    assert!(!queue.queue_main('b', Priority::High));
    assert_eq!(queue.drain(), vec!['b', 'a']);
    assert!(queue.queue_main('c', Priority::Medium));
}

fn ran<R>(step: TimerStep<R>) -> Vec<R> {
    match step {
        TimerStep::Run(due) => due,
        _ => panic!("timers were due"),
    }
}

#[test]
fn timers_fire_when_due_and_soonest_first() {
    let mut timers = Timers::new();
    timers.dispatch_after(100, 50, "later");
    timers.dispatch_after(100, 10, "soon");
    timers.dispatch_after(100, 50, "latest");
    assert!(matches!(timers.step(100), TimerStep::SleepFor(10)));
    assert!(matches!(timers.step(109), TimerStep::SleepFor(1)));
    assert_eq!(ran(timers.step(110)), vec!["soon"]);
    assert!(matches!(timers.step(120), TimerStep::SleepFor(30)));
    assert_eq!(ran(timers.step(1000)), vec!["later", "latest"]);
    assert!(matches!(timers.step(1000), TimerStep::Sleep));
}

#[test]
fn due_timers_are_taken_and_the_rest_stay() {
    let mut timers = Timers::new();
    for delay in [5, 3, 9, 1] {
        timers.dispatch_after(0, delay, delay);
    }
    assert_eq!(timers.take_due(0), Vec::<u128>::new());
    assert_eq!(timers.take_due(5), vec![1, 3, 5]);
    assert_eq!(timers.take_due(8), Vec::<u128>::new());
    assert_eq!(timers.take_due(9), vec![9]);
}

#[test]
fn a_timer_without_delay_is_due_at_once() {
    let mut timers = Timers::new();
    timers.dispatch_after(7, 0, ());
    assert_eq!(ran(timers.step(7)).len(), 1);
}

#[test]
fn a_stopped_thread_runs_nothing_more() {
    let mut timers = Timers::new();
    timers.dispatch_after(0, 1, ());
    timers.stop();
    assert!(matches!(timers.step(5), TimerStep::Stop));
    assert!(matches!(timers.step(5), TimerStep::Stop));
}

#[test]
fn there_are_always_two_workers() {
    assert_eq!(worker_count(None), 2);
    assert_eq!(worker_count(Some(1)), 2);
    assert_eq!(worker_count(Some(2)), 2);
    assert_eq!(worker_count(Some(16)), 16);
}
