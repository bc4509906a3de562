//! Window events, and what they ask to be done.

use gpui_zgui::events::Action;
use gpui_zgui::events::Keystroke;
use gpui_zgui::events::PlatformInput;
use gpui_zgui::events::TouchPhase;
use gpui_zgui::events::WindowEvent;
use gpui_zgui::events::WindowState;
use gpui_zgui::input::Capslock;
use gpui_zgui::input::ElementState;
use gpui_zgui::input::Key;
use gpui_zgui::input::Modifiers;
use gpui_zgui::input::MouseButton;
use gpui_zgui::input::NamedKey;
use gpui_zgui::input::Point;
use gpui_zgui::input::RawButton;
use gpui_zgui::input::ScrollDelta;
use gpui_zgui::outcome::FrameOutcome;
use gpui_zgui::outcome::SkipReason;
use gpui_zgui::window::cursor_icon;
use gpui_zgui::window::typed_text;
use gpui_zgui::window::window_bounds;
use gpui_zgui::window::CursorIcon;
use gpui_zgui::window::CursorStyle;
use gpui_zgui::window::Shown;
use winit::keyboard::ModifiersState;

fn at(x: f32, y: f32) -> Point {
    Point { x: x.to_bits(), y: y.to_bits() }
}

fn shift() -> Modifiers {
    Modifiers { shift: true, ..Default::default() }
}

fn button(state: ElementState, button: RawButton, near: bool, now: u128) -> WindowEvent {
    WindowEvent::MouseInput { state, button, near, now }
}

#[test]
fn a_redraw_begins_a_frame_and_asks_for_it() {
    let mut window = WindowState::new();
    assert_eq!(
        window.handle(WindowEvent::RedrawRequested),
        vec![Action::BeginFrame, Action::RequestFrame]
    );
}

#[test]
fn a_resize_reconfigures_tells_and_redraws() {
    let mut window = WindowState::new();
    let scale = 2.0f32.to_bits();
    let expected = vec![
        Action::ResizeSurface { width: 800, height: 600, scale },
        Action::ReportResize { width: 800, height: 600, scale },
        Action::RequestRedraw,
    ];
    assert_eq!(
        window.handle(WindowEvent::Resized { width: 800, height: 600, scale }),
        expected
    );
    assert_eq!(
        window.handle(WindowEvent::ScaleFactorChanged { width: 800, height: 600, scale }),
        expected
    );
}

#[test]
fn a_window_closes_only_where_it_may() {
    let mut window = WindowState::new();
    assert_eq!(window.handle(WindowEvent::CloseRequested), vec![Action::AskClose]);
    assert_eq!(window.handle(WindowEvent::CloseAnswered { close: false }), vec![]);
    assert_eq!(
        window.handle(WindowEvent::CloseAnswered { close: true }),
        vec![Action::ReportClosed, Action::Forget]
    );
    assert_eq!(window.handle(WindowEvent::Destroyed), vec![Action::Forget]);
}

#[test]
fn pointer_events_carry_what_is_remembered() {
    let mut window = WindowState::new();
    let down = ModifiersState::SHIFT.bits();
    assert_eq!(
        window.handle(WindowEvent::ModifiersChanged(down)),
        vec![Action::Dispatch(PlatformInput::ModifiersChanged {
            modifiers: shift(),
            capslock: Capslock { on: false },
        })]
    );
    assert_eq!(
        window.handle(WindowEvent::CursorMoved { position: at(3.0, 4.0) }),
        vec![Action::Dispatch(PlatformInput::MouseMove {
            position: at(3.0, 4.0),
            pressed_button: None,
            modifiers: shift(),
        })]
    );
    assert_eq!(
        window.handle(button(ElementState::Pressed, RawButton::Left, false, 0)),
        vec![Action::Dispatch(PlatformInput::MouseDown {
            button: MouseButton::Left,
            position: at(3.0, 4.0),
            modifiers: shift(),
            click_count: 1,
            first_mouse: false,
        })]
    );
    assert_eq!(
        window.handle(WindowEvent::CursorMoved { position: at(5.0, 4.0) }),
        vec![Action::Dispatch(PlatformInput::MouseMove {
            position: at(5.0, 4.0),
            pressed_button: Some(MouseButton::Left),
            modifiers: shift(),
        })]
    );
    assert_eq!(
        window.handle(button(ElementState::Released, RawButton::Left, true, 9)),
        vec![Action::Dispatch(PlatformInput::MouseUp {
            button: MouseButton::Left,
            position: at(5.0, 4.0),
            modifiers: shift(),
            click_count: 1,
        })]
    );
    assert_eq!(
        window.handle(WindowEvent::CursorLeft),
        vec![
            Action::Dispatch(PlatformInput::MouseExited {
                position: at(5.0, 4.0),
                pressed_button: None,
                modifiers: shift(),
            }),
            Action::ReportHover(false),
        ]
    );
    assert_eq!(window.handle(WindowEvent::CursorEntered), vec![Action::ReportHover(true)]);
}

#[test]
fn a_release_reports_the_count_of_its_press() {
    let mut window = WindowState::new();
    window.handle(button(ElementState::Pressed, RawButton::Left, false, 0));
    window.handle(button(ElementState::Released, RawButton::Left, true, 1));
    window.handle(button(ElementState::Pressed, RawButton::Left, true, 2));
    assert_eq!(
        window.handle(button(ElementState::Released, RawButton::Left, true, 3)),
        vec![Action::Dispatch(PlatformInput::MouseUp {
            button: MouseButton::Left,
            position: at(0.0, 0.0),
            modifiers: Modifiers::default(),
            click_count: 2,
        })]
    );
}

#[test]
fn a_button_without_a_name_asks_for_nothing() {
    let mut window = WindowState::new();
    assert_eq!(
        window.handle(button(ElementState::Pressed, RawButton::Other(12), false, 0)),
        vec![]
    );
    assert_eq!(window.input.pressed_button, None);
    assert_eq!(window.input.clicks.last_position(), None);
}

#[test]
fn the_wheel_scrolls_the_view() {
    let mut window = WindowState::new();
    assert_eq!(
        window.handle(WindowEvent::MouseWheel {
            delta: ScrollDelta::Lines(at(0.0, 3.0)),
            phase: TouchPhase::Moved,
        }),
        vec![Action::Dispatch(PlatformInput::ScrollWheel {
            position: at(0.0, 0.0),
            delta: ScrollDelta::Lines(at(-0.0, -3.0)),
            modifiers: Modifiers::default(),
            touch_phase: TouchPhase::Moved,
        })]
    );
}

#[test]
fn a_key_goes_down_and_up() {
    let mut window = WindowState::new();
    let keystroke = Keystroke {
        modifiers: Modifiers::default(),
        key: "a".to_string(),
        key_char: Some("A".to_string()),
    };
    assert_eq!(
        window.handle(WindowEvent::KeyboardInput {
            key: Key::Character("A".into()),
            state: ElementState::Pressed,
            repeat: true,
        }),
        vec![Action::Dispatch(PlatformInput::KeyDown {
            keystroke: keystroke.clone(),
            is_held: true,
            prefer_character_input: false,
        })]
    );
    assert_eq!(
        window.handle(WindowEvent::KeyboardInput {
            key: Key::Character("A".into()),
            state: ElementState::Released,
            repeat: false,
        }),
        vec![Action::Dispatch(PlatformInput::KeyUp { keystroke })]
    );
    assert_eq!(
        window.handle(WindowEvent::KeyboardInput {
            key: Key::Named(NamedKey::Shift),
            state: ElementState::Pressed,
            repeat: false,
        }),
        vec![]
    );
}

#[test]
fn composition_marks_commits_and_ends() {
    let mut window = WindowState::new();
    assert_eq!(
        window.handle(WindowEvent::ImePreedit { text: "ka".into(), cursor: Some((1, 2)) }),
        vec![Action::Mark { text: "ka".to_string(), selection: Some((1, 2)) }]
    );
    assert_eq!(
        window.handle(WindowEvent::ImePreedit { text: String::new(), cursor: None }),
        vec![Action::Unmark]
    );
    assert_eq!(
        window.handle(WindowEvent::ImeCommit { text: "か".into() }),
        vec![Action::Commit { text: "か".to_string() }]
    );
}

#[test]
fn the_rest_is_passed_on_or_let_be() {
    let mut window = WindowState::new();
    assert_eq!(window.handle(WindowEvent::Focused(true)), vec![Action::ReportActive(true)]);
    assert_eq!(window.handle(WindowEvent::Moved), vec![Action::ReportMoved]);
    assert_eq!(window.handle(WindowEvent::Other), vec![]);
}

#[test]
fn any_event_but_a_redraw_resumes_frames() {
    let mut window = WindowState::new();
    window.drew(FrameOutcome::Skipped(SkipReason::Occluded));
    assert!(window.frames_suppressed());
    window.handle(WindowEvent::RedrawRequested);
    assert!(window.frames_suppressed());
    window.handle(WindowEvent::Other);
    assert!(!window.frames_suppressed());
}

#[test]
fn only_two_reasons_suppress_frames() {
    let mut window = WindowState::new();
    for reason in [
        SkipReason::Unconfigured,
        SkipReason::Timeout,
        SkipReason::Unacquired,
        SkipReason::Occluded,
        SkipReason::Outdated,
        SkipReason::Validation,
        SkipReason::DeviceUnavailable,
        SkipReason::Undamaged,
    ] {
        window.drew(FrameOutcome::Skipped(reason));
        let expected = reason == SkipReason::Occluded || reason == SkipReason::DeviceUnavailable;
        assert_eq!(window.frames_suppressed(), expected, "{reason:?}");
    }
    window.drew(FrameOutcome::Skipped(SkipReason::Occluded));
    window.drew(FrameOutcome::Presented { damage_px: 1 });
    assert!(!window.frames_suppressed());
    window.drew(FrameOutcome::Skipped(SkipReason::DeviceUnavailable));
    window.resume_frames();
    assert!(!window.frames_suppressed());
}

#[test]
fn hovering_goes_by_where_the_pointer_last_was() {
    let mut window = WindowState::new();
    assert!(window.is_hovered());
    window.handle(WindowEvent::CursorMoved { position: at(-1.0, 5.0) });
    assert!(!window.is_hovered());
}

#[test]
fn only_unconsumed_plain_typing_inserts_text() {
    let key_down = |modifiers: Modifiers, key_char: Option<String>| PlatformInput::KeyDown {
        keystroke: Keystroke { modifiers, key: "a".to_string(), key_char },
        is_held: false,
        prefer_character_input: false,
    };
    let text = Some("a".to_string());
    let none = Modifiers::default();
    assert_eq!(typed_text(&key_down(none, text.clone()), true), text);
    assert_eq!(typed_text(&key_down(shift(), text.clone()), true), text);
    assert_eq!(typed_text(&key_down(none, text.clone()), false), None);
    assert_eq!(typed_text(&key_down(none, None), true), None);
    let alt = Modifiers { alt: true, ..Default::default() };
    assert_eq!(typed_text(&key_down(alt, text.clone()), true), None);
    let up = PlatformInput::KeyUp {
        keystroke: Keystroke { modifiers: none, key: "a".to_string(), key_char: text },
    };
    assert_eq!(typed_text(&up, true), None);
}

#[test]
fn a_window_is_shown_one_way_at_a_time() {
    assert_eq!(window_bounds(false, false), Shown::Windowed);
    assert_eq!(window_bounds(false, true), Shown::Maximized);
    assert_eq!(window_bounds(true, false), Shown::Fullscreen);
    assert_eq!(window_bounds(true, true), Shown::Fullscreen);
}

#[test]
fn pointer_shapes_have_their_counterparts() {
    assert_eq!(cursor_icon(CursorStyle::Arrow), CursorIcon::Default);
    assert_eq!(cursor_icon(CursorStyle::IBeam), CursorIcon::Text);
    assert_eq!(cursor_icon(CursorStyle::ResizeUpLeftDownRight), CursorIcon::NwseResize);
    assert_eq!(cursor_icon(CursorStyle::ContextualMenu), CursorIcon::ContextMenu);
}
