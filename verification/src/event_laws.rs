//! What each window event does, and what it leaves alone.

use vstd::prelude::*;

use crate::events::action_view;
use crate::events::actions_view;
use crate::events::asked;
use crate::events::countable;
use crate::events::input_view;
use crate::events::keystroke_view;
use crate::events::press_count;
use crate::events::remembered;
use crate::events::Action;
use crate::events::Keystroke;
use crate::events::Memory;
use crate::events::PlatformInput;
use crate::events::TouchPhase;
use crate::events::WindowEvent;
use crate::events::WindowState;
use crate::input::char_of;
use crate::input::meaning;
use crate::input::modifiers_of;
use crate::input::name_of;
use crate::input::view_delta;
use crate::input::ElementState;
use crate::input::Key;
use crate::input::MouseButton;
use crate::input::Point;
use crate::input::RawButton;
use crate::input::ScrollDelta;
use crate::window::inserted;

verus! {

/// Each part of what a window remembers changes with its own events alone: where the pointer is
/// with a move, the modifiers with the modifier keys, and the clicks and the held button with a
/// mouse button.
pub proof fn law_events_leave_the_rest_alone(before: Memory, event: WindowEvent)
    ensures
        ({
            let after = remembered(before, event);
            &&& !(event is CursorMoved) ==> after.mouse_position == before.mouse_position
            &&& !(event is ModifiersChanged) ==> after.modifiers == before.modifiers
                && after.capslock == before.capslock
            &&& !(event is MouseInput) ==> after.last_press == before.last_press
                && after.click_count == before.click_count && after.pressed_button
                == before.pressed_button
        }),
{
}

/// Any event may have made drawing worthwhile again, but for a redraw, which says nothing of that.
pub proof fn law_events_wake_a_window(before: Memory, event: WindowEvent)
    ensures
        event is RedrawRequested ==> remembered(before, event) == before,
        !(event is RedrawRequested) ==> !remembered(before, event).frames_suppressed,
{
}

/// A redraw marks the start of a frame and then draws it, and only a redraw does.
pub proof fn law_redraws_draw(before: Memory, event: WindowEvent)
    ensures
        event is RedrawRequested ==> asked(before, event) == seq![
            Action::<Seq<char>>::BeginFrame,
            Action::RequestFrame,
        ],
        !(event is RedrawRequested) ==> !asked(before, event).contains(Action::RequestFrame)
            && !asked(before, event).contains(Action::BeginFrame),
{
    let actions = asked(before, event);
    assert forall|i: int| 0 <= i < actions.len() && !(event is RedrawRequested) implies !((
    #[trigger] actions[i]) is RequestFrame) && !(actions[i] is BeginFrame) by {}
}

/// A window that changes size, or whose scale changes, resizes its surface to exactly what it was
/// told, then reports the same, and then asks to be redrawn. Which of the two happened makes no
/// difference.
pub proof fn law_resizing_reports_the_size(before: Memory, width: u32, height: u32, scale: u32)
    ensures
        asked(before, WindowEvent::Resized { width, height, scale }) == seq![
            Action::<Seq<char>>::ResizeSurface { width, height, scale },
            Action::ReportResize { width, height, scale },
            Action::RequestRedraw,
        ],
        asked(before, WindowEvent::ScaleFactorChanged { width, height, scale }) == asked(
            before,
            WindowEvent::Resized { width, height, scale },
        ),
{
}

/// A window is asked before it closes: the request does nothing but ask. It goes away, reported
/// first, exactly where the answer is that it may, and a refusal does nothing. One that the window
/// system took away is dropped without a question.
pub proof fn law_windows_are_asked_before_closing(before: Memory, close: bool)
    ensures
        asked(before, WindowEvent::CloseRequested) == seq![Action::<Seq<char>>::AskClose],
        close ==> asked(before, WindowEvent::CloseAnswered { close }) == seq![
            Action::<Seq<char>>::ReportClosed,
            Action::Forget,
        ],
        !close ==> asked(before, WindowEvent::CloseAnswered { close }).len() == 0,
        asked(before, WindowEvent::Destroyed) == seq![Action::<Seq<char>>::Forget],
{
}

/// A window reports that it is active exactly as it gains the focus, and that it is not as it loses
/// it.
pub proof fn law_focus_is_reported_as_it_is(before: Memory, focused: bool)
    ensures
        asked(before, WindowEvent::Focused(focused)) == seq![
            Action::<Seq<char>>::ReportActive(focused),
        ],
        asked(before, WindowEvent::Focused(focused)) != asked(
            before,
            WindowEvent::Focused(!focused),
        ),
{
    assert(asked(before, WindowEvent::Focused(focused))[0] == Action::<Seq<char>>::ReportActive(
        focused,
    ));
    assert(asked(before, WindowEvent::Focused(!focused))[0] == Action::<Seq<char>>::ReportActive(
        !focused,
    ));
}

/// Modifier keys are reported as they are now, which is also what the window remembers: the report
/// and every later event agree. Capslock is never on.
pub proof fn law_modifiers_are_reported_and_kept(before: Memory, state: u32)
    ensures
        ({
            let event = WindowEvent::ModifiersChanged(state);
            let after = remembered(before, event);
            &&& asked(before, event) == seq![
                Action::Dispatch(
                    PlatformInput::<Seq<char>>::ModifiersChanged {
                        modifiers: after.modifiers,
                        capslock: after.capslock,
                    },
                ),
            ]
            &&& after.modifiers == modifiers_of(state)
            &&& !after.capslock.on
        }),
{
}

/// A move is reported where it went, with the button that is held and the modifiers that are down,
/// and the window remembers the place.
pub proof fn law_moves_are_reported_and_kept(before: Memory, position: Point)
    ensures
        ({
            let event = WindowEvent::CursorMoved { position };
            &&& asked(before, event) == seq![
                Action::Dispatch(
                    PlatformInput::<Seq<char>>::MouseMove {
                        position,
                        pressed_button: before.pressed_button,
                        modifiers: before.modifiers,
                    },
                ),
            ]
            &&& remembered(before, event).mouse_position == position
        }),
{
}

/// A pointer that enters is reported to hover. One that leaves is reported to have left from where
/// it last was, with no button held, and then not to hover.
pub proof fn law_hovering_follows_the_pointer(before: Memory)
    ensures
        asked(before, WindowEvent::CursorEntered) == seq![Action::<Seq<char>>::ReportHover(true)],
        asked(before, WindowEvent::CursorLeft) == seq![
            Action::Dispatch(
                PlatformInput::<Seq<char>>::MouseExited {
                    position: before.mouse_position,
                    pressed_button: None,
                    modifiers: before.modifiers,
                },
            ),
            Action::ReportHover(false),
        ],
{
}

/// A button that goes down is reported where the pointer is, and is held from then on. It counts
/// one click, or one more than the last where it goes on counting them.
pub proof fn law_presses_are_reported_and_kept(
    before: Memory,
    raw: RawButton,
    button: MouseButton,
    near: bool,
    now: u128,
)
    requires
        meaning(raw) == Some(button),
        before.click_count < usize::MAX,
    ensures
        ({
            let event = WindowEvent::MouseInput {
                state: ElementState::Pressed,
                button: raw,
                near,
                now,
            };
            let after = remembered(before, event);
            let again = before.last_press matches Some(last) && last.0 == button && near && now
                <= last.2 + 500_000_000;
            &&& asked(before, event) == seq![
                Action::Dispatch(
                    PlatformInput::<Seq<char>>::MouseDown {
                        button,
                        position: before.mouse_position,
                        modifiers: before.modifiers,
                        click_count: after.click_count,
                        first_mouse: false,
                    },
                ),
            ]
            &&& after.click_count == if again {
                before.click_count + 1
            } else {
                1
            }
            &&& after.pressed_button == Some(button)
            &&& after.last_press == Some((button, before.mouse_position, now))
        }),
{
}

/// A button that goes up is reported where the pointer is, with the count that the last press was
/// given, and no button is held from then on. It changes no count.
pub proof fn law_releases_report_the_press_count(
    before: Memory,
    raw: RawButton,
    button: MouseButton,
    near: bool,
    now: u128,
)
    requires
        meaning(raw) == Some(button),
    ensures
        ({
            let event = WindowEvent::MouseInput {
                state: ElementState::Released,
                button: raw,
                near,
                now,
            };
            let after = remembered(before, event);
            &&& asked(before, event) == seq![
                Action::Dispatch(
                    PlatformInput::<Seq<char>>::MouseUp {
                        button,
                        position: before.mouse_position,
                        modifiers: before.modifiers,
                        click_count: before.click_count,
                    },
                ),
            ]
            &&& after.pressed_button is None
            &&& after.last_press == before.last_press
            &&& after.click_count == before.click_count
        }),
{
}

/// A press and the release after it report one count, whatever the pointer, the modifiers or the
/// window did between them.
pub proof fn law_a_click_has_one_count(
    before: Memory,
    pressed: WindowEvent,
    between: WindowEvent,
    released: WindowEvent,
)
    requires
        pressed matches WindowEvent::MouseInput { state, button, .. } && state is Pressed
            && meaning(button) is Some,
        !(between is MouseInput),
        released matches WindowEvent::MouseInput { state, button, .. } && state is Released
            && meaning(button) is Some,
    ensures
        ({
            let held = remembered(remembered(before, pressed), between);
            &&& asked(before, pressed).len() == 1
            &&& asked(held, released).len() == 1
            &&& asked(before, pressed)[0] matches Action::Dispatch(
                PlatformInput::MouseDown { click_count: down, .. },
            ) && (asked(held, released)[0] matches Action::Dispatch(
                PlatformInput::MouseUp { click_count: up, .. },
            ) && up == down)
        }),
{
}

/// A button without a name is passed over: nothing is reported and nothing of the pointer changes.
pub proof fn law_unknown_buttons_are_passed_over(
    before: Memory,
    state: ElementState,
    code: u16,
    near: bool,
    now: u128,
)
    ensures
        ({
            let button = RawButton::Other(code);
            let event = WindowEvent::MouseInput { state, button, near, now };
            &&& asked(before, event).len() == 0
            &&& remembered(before, event) == (Memory { frames_suppressed: false, ..before })
        }),
{
}

/// A turn of the wheel is reported where the pointer is, the way the view moves, in the phase it
/// came in.
pub proof fn law_the_wheel_is_reported_at_the_pointer(
    before: Memory,
    delta: ScrollDelta,
    phase: TouchPhase,
)
    ensures
        asked(before, WindowEvent::MouseWheel { delta, phase }) == seq![
            Action::Dispatch(
                PlatformInput::<Seq<char>>::ScrollWheel {
                    position: before.mouse_position,
                    delta: view_delta(delta),
                    modifiers: before.modifiers,
                    touch_phase: phase,
                },
            ),
        ],
{
}

/// A key that has a name is reported as going down or up by that name, with what it types under the
/// modifiers that are down. It is held exactly where it repeats. A key without a name is not
/// reported.
pub proof fn law_keys_are_reported_by_name(
    before: Memory,
    key: Key,
    state: ElementState,
    repeat: bool,
)
    ensures
        ({
            let actions = asked(before, WindowEvent::KeyboardInput { key, state, repeat });
            match name_of(key) {
                None => actions.len() == 0,
                Some(name) => {
                    let keystroke = Keystroke {
                        modifiers: before.modifiers,
                        key: name,
                        key_char: char_of(key, before.modifiers),
                    };
                    &&& state is Pressed ==> actions == seq![
                        Action::Dispatch(
                            PlatformInput::KeyDown {
                                keystroke,
                                is_held: repeat,
                                prefer_character_input: false,
                            },
                        ),
                    ]
                    &&& state is Released ==> actions == seq![
                        Action::Dispatch(PlatformInput::KeyUp { keystroke }),
                    ]
                },
            }
        }),
{
}

/// Composed text is marked as it is, with its selection; without text the composition ends,
/// wherever the selection is said to be. Final text is inserted as it is.
pub proof fn law_composed_text_is_passed_on(
    before: Memory,
    text: String,
    cursor: Option<(usize, usize)>,
)
    ensures
        text@.len() > 0 ==> asked(before, WindowEvent::ImePreedit { text, cursor }) == seq![
            Action::Mark { text: text@, selection: cursor },
        ],
        text@.len() == 0 ==> asked(before, WindowEvent::ImePreedit { text, cursor }) == seq![
            Action::<Seq<char>>::Unmark,
        ],
        asked(before, WindowEvent::ImeCommit { text }) == seq![Action::Commit { text: text@ }],
{
}

/// A window that moved says so, and an event of no account asks for nothing.
pub proof fn law_moved_windows_say_so(before: Memory)
    ensures
        asked(before, WindowEvent::Moved) == seq![Action::<Seq<char>>::ReportMoved],
        asked(before, WindowEvent::Other).len() == 0,
{
}

/// What an event asks for depends on what the window remembers only where it is of the pointer or
/// of a key: of every other event each window asks the same.
pub proof fn law_only_input_depends_on_the_past(before: Memory, other: Memory, event: WindowEvent)
    requires
        !(event is CursorMoved || event is CursorLeft || event is MouseInput || event is MouseWheel
            || event is KeyboardInput),
    ensures
        asked(before, event) == asked(other, event),
{
}

/// Every event can be taken in while clicks can be counted, and the others can even then.
pub proof fn law_events_can_be_taken_in(before: Memory, event: WindowEvent)
    ensures
        before.click_count < usize::MAX ==> countable(before, event),
        !(event is MouseInput) ==> countable(before, event),
        event matches WindowEvent::MouseInput { state, .. } && state is Released ==> countable(
            before,
            event,
        ),
        before.last_press is None ==> countable(before, event),
{
}

/// Two actions that say the same are the same but for how their texts are held: every variant, and
/// every value in it, shows.
pub proof fn law_actions_show_all_they_hold(action: Action<String>)
    ensures
        match action {
            Action::BeginFrame => action_view(action) is BeginFrame,
            Action::RequestFrame => action_view(action) is RequestFrame,
            Action::ResizeSurface { width, height, scale } => action_view(action) == (
            Action::<Seq<char>>::ResizeSurface { width, height, scale }),
            Action::ReportResize { width, height, scale } => action_view(action) == (Action::<
                Seq<char>,
            >::ReportResize { width, height, scale }),
            Action::RequestRedraw => action_view(action) is RequestRedraw,
            Action::AskClose => action_view(action) is AskClose,
            Action::ReportClosed => action_view(action) is ReportClosed,
            Action::Forget => action_view(action) is Forget,
            Action::ReportActive(active) => action_view(action) == Action::<
                Seq<char>,
            >::ReportActive(active),
            Action::ReportHover(hovered) => action_view(action) == Action::<
                Seq<char>,
            >::ReportHover(hovered),
            Action::Dispatch(input) => action_view(action) == Action::Dispatch(input_view(input)),
            Action::Unmark => action_view(action) is Unmark,
            Action::Mark { text, selection } => action_view(action) == (Action::Mark {
                text: text@,
                selection,
            }),
            Action::Commit { text } => action_view(action) == (Action::Commit { text: text@ }),
            Action::ReportMoved => action_view(action) is ReportMoved,
        },
{
}

/// An input event shows every value it holds, and a keystroke its modifiers, its key and its text.
pub proof fn law_input_shows_all_it_holds(
    input: PlatformInput<String>,
    keystroke: Keystroke<String>,
)
    ensures
        keystroke_view(keystroke).modifiers == keystroke.modifiers,
        keystroke_view(keystroke).key == keystroke.key@,
        match keystroke.key_char {
            Some(text) => keystroke_view(keystroke).key_char == Some(text@),
            None => keystroke_view(keystroke).key_char is None,
        },
        match (input, input_view(input)) {
            (
                PlatformInput::ModifiersChanged { modifiers: m, capslock: c },
                PlatformInput::ModifiersChanged { modifiers, capslock },
            ) => m == modifiers && c == capslock,
            (
                PlatformInput::MouseMove { position: p, pressed_button: b, modifiers: m },
                PlatformInput::MouseMove { position, pressed_button, modifiers },
            ) => p == position && b == pressed_button && m == modifiers,
            (
                PlatformInput::MouseExited { position: p, pressed_button: b, modifiers: m },
                PlatformInput::MouseExited { position, pressed_button, modifiers },
            ) => p == position && b == pressed_button && m == modifiers,
            (
                PlatformInput::MouseDown {
                    button: b,
                    position: p,
                    modifiers: m,
                    click_count: n,
                    first_mouse: f,
                },
                PlatformInput::MouseDown { button, position, modifiers, click_count, first_mouse },
            ) => b == button && p == position && m == modifiers && n == click_count && f
                == first_mouse,
            (
                PlatformInput::MouseUp { button: b, position: p, modifiers: m, click_count: n },
                PlatformInput::MouseUp { button, position, modifiers, click_count },
            ) => b == button && p == position && m == modifiers && n == click_count,
            (
                PlatformInput::ScrollWheel { position: p, delta: d, modifiers: m, touch_phase: t },
                PlatformInput::ScrollWheel { position, delta, modifiers, touch_phase },
            ) => p == position && d == delta && m == modifiers && t == touch_phase,
            (
                PlatformInput::KeyDown { keystroke: k, is_held: h, prefer_character_input: p },
                PlatformInput::KeyDown { keystroke, is_held, prefer_character_input },
            ) => keystroke == keystroke_view(k) && h == is_held && p == prefer_character_input,
            (PlatformInput::KeyUp { keystroke: k }, PlatformInput::KeyUp { keystroke }) => keystroke
                == keystroke_view(k),
            _ => false,
        },
{
}

/// A list of actions shows each of them, in order.
pub proof fn law_lists_show_every_action(actions: Seq<Action<String>>, i: int)
    requires
        0 <= i < actions.len(),
    ensures
        actions_view(actions).len() == actions.len(),
        actions_view(actions)[i] == action_view(actions[i]),
{
}

/// What a window remembers is what it holds, part for part.
pub proof fn law_windows_show_all_they_hold(window: WindowState)
    ensures
        window@.mouse_position == window.input.mouse_position,
        window@.modifiers == window.input.modifiers,
        window@.capslock == window.input.capslock,
        window@.last_press == window.input.clicks.last(),
        window@.click_count == window.input.clicks.count(),
        window@.pressed_button == window.input.pressed_button,
        window@.frames_suppressed == window.frames_suppressed,
{
}

/// The count of a press is one, or one more than the last, and never nothing.
pub proof fn law_presses_count_at_least_once(
    before: Memory,
    button: MouseButton,
    near: bool,
    now: u128,
)
    requires
        before.click_count < usize::MAX,
    ensures
        press_count(before, button, near, now) == 1 || press_count(before, button, near, now)
            == before.click_count + 1,
        !near || before.last_press is None ==> press_count(before, button, near, now) == 1,
        press_count(before, button, near, now) >= 1,
{
}

/// What is typed is what is inserted: a character key that goes down with no modifier but shift,
/// and that nothing consumes, inserts its own text, also while it repeats. With any other modifier
/// it inserts nothing.
pub proof fn law_typed_characters_are_inserted(
    before: Memory,
    text: String,
    repeat: bool,
    sent: PlatformInput<String>,
)
    requires
        ({
            let event = WindowEvent::KeyboardInput {
                key: Key::Character(text),
                state: ElementState::Pressed,
                repeat,
            };
            asked(before, event) == seq![Action::Dispatch(input_view(sent))]
        }),
    ensures
        ({
            let down = before.modifiers;
            let chord = down.control || down.alt || down.platform || down.function;
            &&& !chord ==> inserted(sent, true) == Some(text@)
            &&& chord ==> inserted(sent, true) is None
            &&& inserted(sent, false) is None
        }),
{
    let event = WindowEvent::KeyboardInput {
        key: Key::Character(text),
        state: ElementState::Pressed,
        repeat,
    };
    let name = name_of(Key::Character(text));
    if name is None {
        assert(asked(before, event).len() == 0);
        assert(seq![Action::Dispatch(input_view(sent))].len() == 1);
    } else {
        assert(asked(before, event)[0] == seq![Action::Dispatch(input_view(sent))][0]);
    }
}

} // verus!
