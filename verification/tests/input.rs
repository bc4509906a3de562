//! Clicks, keys, buttons and scrolling.

use gpui_zgui::input::capslock;
use gpui_zgui::input::character_key;
use gpui_zgui::input::is_pressed;
use gpui_zgui::input::key_char;
use gpui_zgui::input::key_name;
use gpui_zgui::input::modifiers;
use gpui_zgui::input::mouse_button;
use gpui_zgui::input::named_key;
use gpui_zgui::input::scroll_delta;
use gpui_zgui::input::Clicks;
use gpui_zgui::input::ElementState;
use gpui_zgui::input::Key;
use gpui_zgui::input::Modifiers;
use gpui_zgui::input::MouseButton;
use gpui_zgui::input::NamedKey;
use gpui_zgui::input::Point;
use gpui_zgui::input::RawButton;
use gpui_zgui::input::ScrollDelta;
use gpui_zgui::input::MULTI_CLICK_INTERVAL;
use winit::keyboard::ModifiersState;

fn at(x: f32, y: f32) -> Point {
    Point { x: x.to_bits(), y: y.to_bits() }
}

/// Presses at `position`, near the last press when it is within the slop of four pixels.
fn press(clicks: &mut Clicks, button: MouseButton, position: Point, now: u128) -> usize {
    let near = match clicks.last_position() {
        Some(last) => {
            (f32::from_bits(last.x) - f32::from_bits(position.x)).abs() <= 4.0
                && (f32::from_bits(last.y) - f32::from_bits(position.y)).abs() <= 4.0
        }
        None => false,
    };
    clicks.press(button, position, near, now)
}

#[test]
fn repeated_presses_in_the_same_place_count_up() {
    let mut clicks = Clicks::new();
    assert_eq!(press(&mut clicks, MouseButton::Left, at(10.0, 10.0), 0), 1);
    assert_eq!(press(&mut clicks, MouseButton::Left, at(10.0, 10.0), 1), 2);
    assert_eq!(press(&mut clicks, MouseButton::Left, at(11.0, 11.0), 2), 3);
    assert_eq!(clicks.release(), 3);
}

#[test]
fn a_press_far_away_starts_a_new_sequence() {
    let mut clicks = Clicks::new();
    assert_eq!(press(&mut clicks, MouseButton::Left, at(10.0, 10.0), 0), 1);
    assert_eq!(press(&mut clicks, MouseButton::Left, at(80.0, 10.0), 1), 1);
}

#[test]
fn a_different_button_starts_a_new_sequence() {
    let mut clicks = Clicks::new();
    assert_eq!(press(&mut clicks, MouseButton::Left, at(10.0, 10.0), 0), 1);
    assert_eq!(press(&mut clicks, MouseButton::Right, at(10.0, 10.0), 1), 1);
}

#[test]
fn a_press_half_a_second_later_still_counts() {
    let mut clicks = Clicks::new();
    assert_eq!(press(&mut clicks, MouseButton::Left, at(1.0, 1.0), 7), 1);
    let last = 7 + MULTI_CLICK_INTERVAL;
    assert_eq!(press(&mut clicks, MouseButton::Left, at(1.0, 1.0), last), 2);
    let late = last + MULTI_CLICK_INTERVAL + 1;
    assert_eq!(press(&mut clicks, MouseButton::Left, at(1.0, 1.0), late), 1);
    assert_eq!(MULTI_CLICK_INTERVAL, 500_000_000);
}

#[test]
fn a_clock_that_stands_still_keeps_counting() {
    let mut clicks = Clicks::new();
    assert_eq!(press(&mut clicks, MouseButton::Middle, at(1.0, 1.0), 9), 1);
    assert_eq!(press(&mut clicks, MouseButton::Middle, at(1.0, 1.0), 3), 2);
}

#[test]
fn a_shifted_letter_is_named_by_its_unshifted_key() {
    let key = Key::Character("A".into());
    assert_eq!(key_name(&key).as_deref(), Some("a"));
}

#[test]
fn a_shifted_letter_still_types_its_shifted_character() {
    let key = Key::Character("A".into());
    let shift = Modifiers { shift: true, ..Default::default() };
    assert_eq!(key_char(&key, shift).as_deref(), Some("A"));
}

#[test]
fn a_control_chord_types_nothing() {
    let key = Key::Character("a".into());
    let control = Modifiers { control: true, ..Default::default() };
    assert_eq!(key_char(&key, control), None);
    assert_eq!(key_name(&key).as_deref(), Some("a"));
}

#[test]
fn modifier_keys_are_not_keystrokes_of_their_own() {
    assert_eq!(key_name(&Key::Named(NamedKey::Shift)), None);
    assert_eq!(key_name(&Key::Named(NamedKey::Control)), None);
}

#[test]
fn a_system_chord_types_nothing() {
    let key = Key::Character("a".into());
    let system = Modifiers { platform: true, ..Default::default() };
    assert_eq!(key_char(&key, system), None);
    let alt = Modifiers { alt: true, ..Default::default() };
    assert_eq!(key_char(&key, alt).as_deref(), Some("a"));
}

#[test]
fn only_the_space_bar_types_among_the_named_keys() {
    let none = Modifiers::default();
    assert_eq!(key_char(&Key::Named(NamedKey::Space), none).as_deref(), Some(" "));
    assert_eq!(key_char(&Key::Named(NamedKey::Enter), none), None);
    assert_eq!(key_char(&Key::Unidentified, none), None);
}

#[test]
fn named_keys_are_spelt_as_a_keymap_spells_them() {
    assert_eq!(named_key(&NamedKey::PageUp).as_deref(), Some("pageup"));
    assert_eq!(named_key(&NamedKey::ArrowLeft).as_deref(), Some("left"));
    assert_eq!(named_key(&NamedKey::F12).as_deref(), Some("f12"));
    assert_eq!(named_key(&NamedKey::CapsLock), None);
    assert_eq!(named_key(&NamedKey::Unlisted(Some("\r".into()))).as_deref(), Some("\r"));
    assert_eq!(named_key(&NamedKey::Unlisted(None)), None);
}

#[test]
fn a_key_without_text_has_no_name() {
    assert_eq!(character_key(String::new()), None);
    assert_eq!(key_name(&Key::Character(String::new())), None);
    assert_eq!(key_name(&Key::Unidentified), None);
}

#[test]
fn lower_case_reaches_past_ascii() {
    assert_eq!(key_name(&Key::Character("\u{c4}".into())).as_deref(), Some("\u{e4}"));
}

#[test]
fn modifier_keys_are_told_apart() {
    let shift = modifiers(ModifiersState::SHIFT.bits());
    assert_eq!(shift, Modifiers { shift: true, ..Default::default() });
    let control = modifiers(ModifiersState::CONTROL.bits());
    assert_eq!(control, Modifiers { control: true, ..Default::default() });
    let alt = modifiers(ModifiersState::ALT.bits());
    assert_eq!(alt, Modifiers { alt: true, ..Default::default() });
    let system = modifiers(ModifiersState::SUPER.bits());
    assert_eq!(system, Modifiers { platform: true, ..Default::default() });
    assert_eq!(modifiers(0), Modifiers::default());
    let both = modifiers((ModifiersState::SHIFT | ModifiersState::ALT).bits());
    assert_eq!(both, Modifiers { shift: true, alt: true, ..Default::default() });
}

#[test]
fn capslock_is_never_on() {
    assert!(!capslock().on);
}

#[test]
fn shift_alone_is_still_plain_typing() {
    assert!(Modifiers::default().is_subset_of_shift());
    assert!(Modifiers { shift: true, ..Default::default() }.is_subset_of_shift());
    assert!(!Modifiers { shift: true, alt: true, ..Default::default() }.is_subset_of_shift());
    assert!(!Modifiers { function: true, ..Default::default() }.is_subset_of_shift());
}

#[test]
fn buttons_keep_their_meaning() {
    assert_eq!(mouse_button(RawButton::Left), Some(MouseButton::Left));
    assert_eq!(mouse_button(RawButton::Right), Some(MouseButton::Right));
    assert_eq!(mouse_button(RawButton::Middle), Some(MouseButton::Middle));
    assert_eq!(mouse_button(RawButton::Back), Some(MouseButton::NavigateBack));
    assert_eq!(mouse_button(RawButton::Forward), Some(MouseButton::NavigateForward));
    assert_eq!(mouse_button(RawButton::Other(9)), None);
}

#[test]
fn scrolling_moves_the_view_against_the_content() {
    assert_eq!(
        scroll_delta(ScrollDelta::Lines(at(1.0, -3.0))),
        ScrollDelta::Lines(at(-1.0, 3.0))
    );
    let pixels = ScrollDelta::Pixels(at(0.5, 120.0));
    assert_eq!(scroll_delta(pixels), ScrollDelta::Pixels(at(-0.5, -120.0)));
    assert_eq!(scroll_delta(scroll_delta(pixels)), pixels);
}

#[test]
fn a_state_says_whether_it_is_down() {
    assert!(is_pressed(ElementState::Pressed));
    assert!(!is_pressed(ElementState::Released));
}
