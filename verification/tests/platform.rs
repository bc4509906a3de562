//! The open windows, displays, keyboards and the event loop's memory.

use gpui_zgui::display::ZguiDisplay;
use gpui_zgui::events::Action;
use gpui_zgui::events::WindowEvent;
use gpui_zgui::events::WindowState;
use gpui_zgui::keyboard::ZguiKeyboardLayout;
use gpui_zgui::outcome::FrameOutcome;
use gpui_zgui::outcome::SkipReason;
use gpui_zgui::platform::window_attributes;
use gpui_zgui::platform::App;
use gpui_zgui::platform::PlatformState;
use gpui_zgui::platform::WindowParams;
use gpui_zgui::scene::Bounds;
use uuid::Uuid;

const NAMESPACE: Uuid = Uuid::from_u128(0x9a1d_4f2b_7c36_4e88_b051_3d7a_6c94_2e11);

fn two_windows() -> PlatformState {
    let mut state = PlatformState::new();
    state.open(7, WindowState::new());
    state.open(9, WindowState::new());
    state
}

#[test]
fn an_event_reaches_its_window_alone() {
    let mut state = two_windows();
    let moved = gpui_zgui::input::Point { x: 5, y: 6 };
    state.handle(9, WindowEvent::CursorMoved { position: moved });
    let first = state.window_for(7).expect("the first window is open");
    let second = state.window_for(9).expect("the second window is open");
    assert_eq!((first, second), (0, 1));
    assert_eq!(state.window(second).input.mouse_position, moved);
    assert_ne!(state.window(first).input.mouse_position, moved);
}

#[test]
fn an_event_for_a_window_that_is_not_open_asks_for_nothing() {
    let mut state = two_windows();
    assert_eq!(state.handle(8, WindowEvent::RedrawRequested), vec![]);
    assert_eq!(state.window_for(8), None);
}

#[test]
fn every_press_that_can_be_counted_is_taken() {
    let mut state = two_windows();
    let press = |now: u128| WindowEvent::MouseInput {
        state: gpui_zgui::input::ElementState::Pressed,
        button: gpui_zgui::input::RawButton::Left,
        near: true,
        now,
    };
    for now in 0..3u128 {
        for id in [7, 8, 9] {
            assert!(state.can_handle(id, &press(now)));
        }
        state.handle(7, press(now));
    }
    assert_eq!(state.window(0).input.clicks.release(), 3);
    assert_eq!(state.window(1).input.clicks.release(), 0);
}

#[test]
fn a_closed_window_is_forgotten() {
    let mut state = two_windows();
    assert_eq!(state.handle(7, WindowEvent::CloseRequested), vec![Action::AskClose]);
    assert_eq!(state.handle(7, WindowEvent::CloseAnswered { close: false }), vec![]);
    assert!(state.window_for(7).is_some());
    assert_eq!(
        state.handle(7, WindowEvent::CloseAnswered { close: true }),
        vec![Action::ReportClosed, Action::Forget]
    );
    assert_eq!(state.window_for(7), None);
    assert_eq!(state.request_redraw(), vec![9]);
    assert!(!state.is_empty());
    state.handle(9, WindowEvent::Destroyed);
    assert!(state.is_empty());
}

#[test]
fn an_occluded_window_is_not_asked_for_frames() {
    let mut state = two_windows();
    assert_eq!(state.request_redraw(), vec![7, 9]);
    state.drew(7, FrameOutcome::Skipped(SkipReason::Occluded));
    assert_eq!(state.request_redraw(), vec![9]);
    state.handle(7, WindowEvent::Focused(true));
    assert_eq!(state.request_redraw(), vec![7, 9]);
    state.drew(8, FrameOutcome::Skipped(SkipReason::Occluded));
    assert_eq!(state.request_redraw(), vec![7, 9]);
}

#[test]
fn quitting_drops_every_window() {
    let mut state = two_windows();
    state.quit();
    assert!(state.is_empty());
    assert_eq!(state.request_redraw(), Vec::<u64>::new());
}

#[test]
fn a_window_is_asked_for_as_it_was_described() {
    let attributes = window_attributes(WindowParams {
        width: 800.0f32.to_bits(),
        height: 600.0f32.to_bits(),
        is_resizable: true,
        show: false,
        titlebar: Some(Some("hello".to_string())),
        min_size: Some((1, 2)),
    });
    assert_eq!(attributes.width, 800.0f32.to_bits());
    assert_eq!(attributes.height, 600.0f32.to_bits());
    assert!(attributes.resizable);
    assert!(!attributes.visible);
    assert_eq!(attributes.title.as_deref(), Some("hello"));
    assert_eq!(attributes.min_size, Some((1, 2)));
}

#[test]
fn a_window_without_a_title_bar_has_no_title() {
    for titlebar in [None, Some(None)] {
        let attributes = window_attributes(WindowParams {
            width: 0,
            height: 0,
            is_resizable: false,
            show: true,
            titlebar,
            min_size: None,
        });
        assert_eq!(attributes.title, None);
    }
}

#[test]
fn drawing_is_no_reason_to_draw_again() {
    let mut app = App::new();
    assert!(app.about_to_wait(false), "nothing has been drawn yet");
    app.window_event(true, false);
    assert!(!app.about_to_wait(false));
    app.window_event(true, true);
    assert!(app.about_to_wait(false), "a task ran after the frame");
    app.window_event(true, false);
    app.window_event(false, false);
    assert!(app.about_to_wait(false), "any other event may change what is shown");
    app.window_event(true, false);
    app.ran_tasks(false);
    assert!(!app.dirty);
    app.ran_tasks(true);
    assert!(app.dirty);
    app.window_event(true, false);
    assert!(app.about_to_wait(true));
    app.window_event(true, false);
    app.launched();
    assert!(app.dirty);
}

#[test]
fn a_display_is_known_by_its_name() {
    let bounds = Bounds { x: 1, y: 2, width: 3, height: 4 };
    let display = ZguiDisplay::new(3, Some("DP-1".to_string()), bounds);
    assert_eq!(display.id(), 3);
    assert_eq!(display.bounds(), bounds);
    assert_eq!(display.uuid(), Uuid::new_v5(&NAMESPACE, b"DP-1").as_u128());
    let again = ZguiDisplay::new(4, Some("DP-1".to_string()), bounds);
    assert_eq!(again.uuid(), display.uuid());
}

#[test]
fn a_display_without_a_name_is_known_by_its_place() {
    let bounds = Bounds { x: 0, y: 0, width: 0, height: 0 };
    let display = ZguiDisplay::new(12, None, bounds);
    assert_eq!(display.uuid(), Uuid::new_v5(&NAMESPACE, b"display-12").as_u128());
}

#[test]
fn without_displays_there_is_a_stand_in() {
    let stand_in = ZguiDisplay::primary_or_placeholder(&vec![]);
    assert_eq!(stand_in, ZguiDisplay::placeholder());
    assert_eq!(stand_in.id(), 0);
    assert_eq!(stand_in.uuid(), Uuid::new_v5(&NAMESPACE, b"placeholder").as_u128());
    assert_eq!(f32::from_bits(stand_in.bounds().width), 1920.0);
    assert_eq!(f32::from_bits(stand_in.bounds().height), 1080.0);
    let bounds = Bounds { x: 0, y: 0, width: 0, height: 0 };
    let first = ZguiDisplay::new(0, None, bounds);
    let second = ZguiDisplay::new(1, None, bounds);
    assert_eq!(ZguiDisplay::primary_or_placeholder(&vec![first, second]), first);
}

#[test]
fn there_is_one_keyboard_layout() {
    assert_eq!(ZguiKeyboardLayout.id(), "winit");
    assert_eq!(ZguiKeyboardLayout.name(), "System");
}
