//! Measurements.

use gpui_zgui::stats::add_elapsed;
use gpui_zgui::stats::time;
use gpui_zgui::stats::Frame;
use gpui_zgui::stats::Stats;
use gpui_zgui::stats::LONGEST;
use gpui_zgui::stats::REPORT_EVERY;

fn frame() -> Frame {
    Frame {
        compare: 1,
        translate: 20,
        finish: 300,
        submit: 4000,
        damaged: 10,
        surface: 40,
        primitives: 7,
    }
}

#[test]
fn a_frame_adds_up() {
    assert_eq!(frame().total(), 4321);
    assert_eq!(Frame::default().total(), 0);
    assert_eq!(frame().line("25.0", "4.32"), "frame: 7 prims, 25.0% redrawn, 4.32ms");
}

#[test]
fn a_report_is_due_every_thirty_drawn_frames() {
    let mut stats = Stats::new(true);
    for round in 1..=2u32 {
        for n in 1..REPORT_EVERY {
            stats.skipped();
            assert!(stats.drawn(frame(), n == 1).is_none());
        }
        let summary = stats.drawn(frame(), false).expect("the thirtieth frame makes one due");
        assert_eq!(summary.drawn, 30 * round);
        assert_eq!(summary.skipped, 29 * round);
        assert_eq!(summary.considered, 59 * round);
        assert_eq!(summary.full, round);
        assert_eq!(summary.damaged, 300 * round as u64);
        assert_eq!(summary.surface, 1200 * round as u64);
        assert_eq!(summary.primitives_per_frame, 7);
        assert_eq!(summary.compare, 30 * round as u128);
        assert_eq!(summary.translate, 600 * round as u128);
        assert_eq!(summary.finish, 9000 * round as u128);
        assert_eq!(summary.submit, 120_000 * round as u128);
        assert!(summary.elapsed <= LONGEST);
    }
    assert_eq!(REPORT_EVERY, 30);
}

#[test]
fn skipped_frames_alone_are_reported_when_asked() {
    let mut stats = Stats::new(true);
    assert!(stats.report().is_none());
    for _ in 0..40 {
        stats.skipped();
    }
    let summary = stats.report().expect("frames were considered");
    assert_eq!((summary.considered, summary.drawn, summary.skipped), (40, 0, 40));
    assert_eq!(summary.primitives_per_frame, 0);
}

#[test]
fn nothing_is_collected_while_it_is_off() {
    let mut stats = Stats::new(false);
    assert!(!stats.enabled());
    stats.skipped();
    for _ in 0..REPORT_EVERY {
        assert!(stats.drawn(frame(), true).is_none());
    }
    assert!(stats.report().is_none());
}

#[test]
fn timing_gives_the_result_and_adds_the_time() {
    let mut spent = 5;
    assert_eq!(time(false, &mut spent, || 6 * 7), 42);
    assert_eq!(spent, 5);
    let slow = || std::time::Instant::now().elapsed().as_nanos() < u128::MAX;
    assert!(time(true, &mut spent, slow));
    assert!(spent >= 5);
    add_elapsed(&mut spent, 10);
    assert!(spent >= 15);
}

#[test]
fn time_that_passes_is_counted() {
    let mut spent = 0;
    let spin = || {
        let started = std::time::Instant::now();
        while started.elapsed().as_millis() < 2 {}
    };
    time(true, &mut spent, spin);
    assert!(spent >= 2_000_000, "only {spent} ns were counted");
}

#[test]
fn totals_are_the_sums_over_the_frames() {
    let mut stats = Stats::new(true);
    for n in 1..=4u32 {
        let each = Frame {
            compare: u128::from(n),
            damaged: u64::from(10 * n),
            surface: 100,
            primitives: n as usize,
            ..Frame::default()
        };
        assert!(stats.has_room(&each, false));
        stats.drawn(each, n % 2 == 0);
        stats.skipped();
    }
    let summary = stats.report().expect("frames were considered");
    assert_eq!((summary.considered, summary.drawn, summary.skipped), (8, 4, 4));
    assert_eq!(summary.full, 2);
    assert_eq!((summary.compare, summary.damaged, summary.surface), (10, 100, 400));
    assert_eq!(summary.primitives_per_frame, 2);
}

#[test]
fn totals_say_when_they_are_full() {
    let mut stats = Stats::new(true);
    let many = Frame { surface: u64::MAX, ..Frame::default() };
    assert!(stats.has_room(&many, true));
    stats.drawn(many, true);
    assert!(stats.has_room(&Frame::default(), true));
    assert!(!stats.has_room(&frame(), true));
    assert!(Stats::new(false).has_room(&Frame { submit: u128::MAX, ..frame() }, true));
}
