//! Routing window events into input.
//!
//! Every event first updates what its window remembers of the pointer and the modifiers, and then
//! asks for what is to be done: the events that go out carry the position and the modifiers that
//! were in effect at the event.

use vstd::prelude::*;
use vstd::string::StringExecFns;

use crate::input::capslock;
use crate::input::char_of;
use crate::input::continues;
use crate::input::is_pressed;
use crate::input::key_char;
use crate::input::key_name;
use crate::input::meaning;
use crate::input::modifiers;
use crate::input::modifiers_of;
use crate::input::mouse_button;
use crate::input::name_of;
use crate::input::scroll_delta;
use crate::input::text_view;
use crate::input::view_delta;
use crate::input::Capslock;
use crate::input::Clicks;
use crate::input::ElementState;
use crate::input::Key;
use crate::input::Modifiers;
use crate::input::MouseButton;
use crate::input::Point;
use crate::input::RawButton;
use crate::input::ScrollDelta;

verus! {

/// Where a touch or a turn of the wheel stands.
#[derive(Clone, Copy, Debug, PartialEq, Eq, Structural)]
pub enum TouchPhase {
    Started,
    Moved,
    Ended,
    Cancelled,
}

/// What happened to a window. Positions and scales are float bits, positions already in the
/// window's own pixels.
#[derive(Clone, Debug)]
pub enum WindowEvent {
    RedrawRequested,
    Resized { width: u32, height: u32, scale: u32 },
    /// The scale changed; the size is the one the window has now.
    ScaleFactorChanged { width: u32, height: u32, scale: u32 },
    CloseRequested,
    /// The answer to whether the window may close.
    CloseAnswered { close: bool },
    Destroyed,
    Focused(bool),
    /// The bits of the modifier keys that are now down.
    ModifiersChanged(u32),
    CursorMoved { position: Point },
    CursorEntered,
    CursorLeft,
    /// A button went down or up at a time in nanoseconds; `near` says whether the pointer is near
    /// enough to where the last press was to count as the same place.
    MouseInput { state: ElementState, button: RawButton, near: bool, now: u128 },
    MouseWheel { delta: ScrollDelta, phase: TouchPhase },
    KeyboardInput { key: Key, state: ElementState, repeat: bool },
    ImePreedit { text: String, cursor: Option<(usize, usize)> },
    ImeCommit { text: String },
    Moved,
    /// Anything else.
    Other,
}

/// A key with the modifiers it was pressed under.
#[derive(Clone, Debug, PartialEq, Eq)]
pub struct Keystroke<T> {
    pub modifiers: Modifiers,
    pub key: T,
    /// The text the key would type.
    pub key_char: Option<T>,
}

/// An input event as it goes out.
#[derive(Clone, Debug, PartialEq, Eq)]
pub enum PlatformInput<T> {
    ModifiersChanged { modifiers: Modifiers, capslock: Capslock },
    MouseMove { position: Point, pressed_button: Option<MouseButton>, modifiers: Modifiers },
    MouseExited { position: Point, pressed_button: Option<MouseButton>, modifiers: Modifiers },
    MouseDown {
        button: MouseButton,
        position: Point,
        modifiers: Modifiers,
        click_count: usize,
        first_mouse: bool,
    },
    MouseUp { button: MouseButton, position: Point, modifiers: Modifiers, click_count: usize },
    ScrollWheel {
        position: Point,
        delta: ScrollDelta,
        modifiers: Modifiers,
        touch_phase: TouchPhase,
    },
    KeyDown { keystroke: Keystroke<T>, is_held: bool, prefer_character_input: bool },
    KeyUp { keystroke: Keystroke<T> },
}

/// Something an event asks to be done.
#[derive(Clone, Debug, PartialEq, Eq)]
pub enum Action<T> {
    /// Mark the start of a frame.
    BeginFrame,
    /// Run the callback that draws.
    RequestFrame,
    /// Reconfigure the renderer for a new surface size.
    ResizeSurface { width: u32, height: u32, scale: u32 },
    /// Tell that the window changed size.
    ReportResize { width: u32, height: u32, scale: u32 },
    /// Ask the window system for a redraw.
    RequestRedraw,
    /// Ask whether the window may close.
    AskClose,
    /// Tell that the window is going away.
    ReportClosed,
    /// Drop the window.
    Forget,
    ReportActive(bool),
    ReportHover(bool),
    Dispatch(PlatformInput<T>),
    /// End the composition without text.
    Unmark,
    /// Replace the marked text, with the selection inside it where there is one.
    Mark { text: T, selection: Option<(usize, usize)> },
    /// Replace the marked text by final text.
    Commit { text: T },
    ReportMoved,
}

/// The pointer and keyboard state a window has to remember between events.
pub struct InputState {
    pub mouse_position: Point,
    pub modifiers: Modifiers,
    pub capslock: Capslock,
    pub clicks: Clicks,
    /// Which button is held, for the button every move event carries.
    pub pressed_button: Option<MouseButton>,
}

/// What is remembered of a window.
pub struct WindowState {
    pub input: InputState,
    /// Whether the renderer said that further frames cannot help until something changes. Only
    /// ever a reason to stop asking for frames.
    pub frames_suppressed: bool,
}

impl WindowState {
    /// A window that has seen no event yet.
    pub fn new() -> (window: WindowState)
        ensures
            window.input.mouse_position == (Point { x: 0, y: 0 }),
            window.input.modifiers == Modifiers::none(),
            !window.input.capslock.on,
            window.input.clicks.last() is None,
            window.input.clicks.count() == 0,
            window.input.pressed_button is None,
            !window.frames_suppressed,
    {
        WindowState {
            input: InputState {
                mouse_position: Point { x: 0, y: 0 },
                modifiers: Modifiers::default(),
                capslock: Capslock { on: false },
                clicks: Clicks::new(),
                pressed_button: None,
            },
            frames_suppressed: false,
        }
    }
}

/// What a keystroke says.
pub open spec fn keystroke_view(keystroke: Keystroke<String>) -> Keystroke<Seq<char>> {
    Keystroke {
        modifiers: keystroke.modifiers,
        key: keystroke.key@,
        key_char: text_view(keystroke.key_char),
    }
}

/// What an input event says.
pub open spec fn input_view(input: PlatformInput<String>) -> PlatformInput<Seq<char>> {
    match input {
        PlatformInput::ModifiersChanged { modifiers, capslock } => PlatformInput::ModifiersChanged {
            modifiers,
            capslock,
        },
        PlatformInput::MouseMove { position, pressed_button, modifiers } =>
        PlatformInput::MouseMove { position, pressed_button, modifiers },
        PlatformInput::MouseExited { position, pressed_button, modifiers } =>
        PlatformInput::MouseExited { position, pressed_button, modifiers },
        PlatformInput::MouseDown { button, position, modifiers, click_count, first_mouse } =>
        PlatformInput::MouseDown { button, position, modifiers, click_count, first_mouse },
        PlatformInput::MouseUp { button, position, modifiers, click_count } =>
        PlatformInput::MouseUp { button, position, modifiers, click_count },
        PlatformInput::ScrollWheel { position, delta, modifiers, touch_phase } =>
        PlatformInput::ScrollWheel { position, delta, modifiers, touch_phase },
        PlatformInput::KeyDown { keystroke, is_held, prefer_character_input } =>
        PlatformInput::KeyDown {
            keystroke: keystroke_view(keystroke),
            is_held,
            prefer_character_input,
        },
        PlatformInput::KeyUp { keystroke } => PlatformInput::KeyUp {
            keystroke: keystroke_view(keystroke),
        },
    }
}

/// What an action says.
pub open spec fn action_view(action: Action<String>) -> Action<Seq<char>> {
    match action {
        Action::BeginFrame => Action::BeginFrame,
        Action::RequestFrame => Action::RequestFrame,
        Action::ResizeSurface { width, height, scale } => Action::ResizeSurface {
            width,
            height,
            scale,
        },
        Action::ReportResize { width, height, scale } => Action::ReportResize {
            width,
            height,
            scale,
        },
        Action::RequestRedraw => Action::RequestRedraw,
        Action::AskClose => Action::AskClose,
        Action::ReportClosed => Action::ReportClosed,
        Action::Forget => Action::Forget,
        Action::ReportActive(active) => Action::ReportActive(active),
        Action::ReportHover(hovered) => Action::ReportHover(hovered),
        Action::Dispatch(input) => Action::Dispatch(input_view(input)),
        Action::Unmark => Action::Unmark,
        Action::Mark { text, selection } => Action::Mark { text: text@, selection },
        Action::Commit { text } => Action::Commit { text: text@ },
        Action::ReportMoved => Action::ReportMoved,
    }
}

/// What a list of actions says.
pub open spec fn actions_view(actions: Seq<Action<String>>) -> Seq<Action<Seq<char>>> {
    actions.map_values(|action: Action<String>| action_view(action))
}

/// What is remembered of a window, as values.
pub struct Memory {
    pub mouse_position: Point,
    pub modifiers: Modifiers,
    pub capslock: Capslock,
    pub last_press: Option<(MouseButton, Point, u128)>,
    pub click_count: usize,
    pub pressed_button: Option<MouseButton>,
    pub frames_suppressed: bool,
}

impl View for WindowState {
    type V = Memory;

    open spec fn view(&self) -> Memory {
        Memory {
            mouse_position: self.input.mouse_position,
            modifiers: self.input.modifiers,
            capslock: self.input.capslock,
            last_press: self.input.clicks.last(),
            click_count: self.input.clicks.count(),
            pressed_button: self.input.pressed_button,
            frames_suppressed: self.frames_suppressed,
        }
    }
}

/// The count of a press.
pub open spec fn press_count(before: Memory, button: MouseButton, near: bool, now: u128) -> usize {
    if continues(before.last_press, button, near, now) {
        (before.click_count + 1) as usize
    } else {
        1
    }
}

/// Whether a mouse button is a press that goes on counting clicks.
pub open spec fn continues_clicks(
    before: Memory,
    state: ElementState,
    button: RawButton,
    near: bool,
    now: u128,
) -> bool {
    match meaning(button) {
        Some(button) => state is Pressed && continues(before.last_press, button, near, now),
        None => false,
    }
}

/// Whether the clicks can still be counted after an event: only a press that goes on counting them
/// asks for that.
pub open spec fn countable(before: Memory, event: WindowEvent) -> bool {
    match event {
        WindowEvent::MouseInput { state, button, near, now } => continues_clicks(
            before,
            state,
            button,
            near,
            now,
        ) ==> before.click_count < usize::MAX,
        _ => true,
    }
}

/// What a window remembers after an event.
pub open spec fn remembered(before: Memory, event: WindowEvent) -> Memory {
    let awake = Memory {
        frames_suppressed: before.frames_suppressed && event is RedrawRequested,
        ..before
    };
    match event {
        WindowEvent::ModifiersChanged(state) => Memory {
            modifiers: modifiers_of(state),
            capslock: Capslock { on: false },
            ..awake
        },
        WindowEvent::CursorMoved { position } => Memory { mouse_position: position, ..awake },
        WindowEvent::MouseInput { state, button, near, now } => remembered_button(
            awake,
            state,
            button,
            near,
            now,
        ),
        _ => awake,
    }
}

/// What an event asks to be done, given what its window remembered before.
pub open spec fn asked(before: Memory, event: WindowEvent) -> Seq<Action<Seq<char>>> {
    match event {
        WindowEvent::RedrawRequested => seq![Action::BeginFrame, Action::RequestFrame],
        WindowEvent::Resized { width, height, scale } => seq![
            Action::ResizeSurface { width, height, scale },
            Action::ReportResize { width, height, scale },
            Action::RequestRedraw,
        ],
        WindowEvent::ScaleFactorChanged { width, height, scale } => seq![
            Action::ResizeSurface { width, height, scale },
            Action::ReportResize { width, height, scale },
            Action::RequestRedraw,
        ],
        WindowEvent::CloseRequested => seq![Action::AskClose],
        WindowEvent::CloseAnswered { close } => if close {
            seq![Action::ReportClosed, Action::Forget]
        } else {
            Seq::empty()
        },
        WindowEvent::Destroyed => seq![Action::Forget],
        WindowEvent::Focused(focused) => seq![Action::ReportActive(focused)],
        WindowEvent::ModifiersChanged(state) => seq![
            Action::Dispatch(
                PlatformInput::ModifiersChanged {
                    modifiers: modifiers_of(state),
                    capslock: Capslock { on: false },
                },
            ),
        ],
        WindowEvent::CursorMoved { position } => seq![
            Action::Dispatch(
                PlatformInput::MouseMove {
                    position,
                    pressed_button: before.pressed_button,
                    modifiers: before.modifiers,
                },
            ),
        ],
        WindowEvent::CursorEntered => seq![Action::ReportHover(true)],
        WindowEvent::CursorLeft => seq![
            Action::Dispatch(
                PlatformInput::MouseExited {
                    position: before.mouse_position,
                    pressed_button: None,
                    modifiers: before.modifiers,
                },
            ),
            Action::ReportHover(false),
        ],
        WindowEvent::MouseInput { state, button, near, now } => asked_by_button(
            before,
            state,
            button,
            near,
            now,
        ),
        WindowEvent::MouseWheel { delta, phase } => seq![
            Action::Dispatch(
                PlatformInput::ScrollWheel {
                    position: before.mouse_position,
                    delta: view_delta(delta),
                    modifiers: before.modifiers,
                    touch_phase: phase,
                },
            ),
        ],
        WindowEvent::KeyboardInput { key, state, repeat } => asked_by_key(
            before,
            key,
            state,
            repeat,
        ),
        WindowEvent::ImePreedit { text, cursor } => if text@.len() == 0 {
            seq![Action::Unmark]
        } else {
            seq![Action::Mark { text: text@, selection: cursor }]
        },
        WindowEvent::ImeCommit { text } => seq![Action::Commit { text: text@ }],
        WindowEvent::Moved => seq![Action::ReportMoved],
        WindowEvent::Other => Seq::empty(),
    }
}

fn one(action: Action<String>) -> (actions: Vec<Action<String>>)
    ensures
        actions_view(actions@) == seq![action_view(action)],
{
    let mut actions = Vec::new();
    actions.push(action);
    assert(actions_view(actions@) =~= seq![action_view(action)]);
    actions
}

fn two(first: Action<String>, second: Action<String>) -> (actions: Vec<Action<String>>)
    ensures
        actions_view(actions@) == seq![action_view(first), action_view(second)],
{
    let mut actions = Vec::new();
    actions.push(first);
    actions.push(second);
    assert(actions_view(actions@) =~= seq![action_view(first), action_view(second)]);
    actions
}

fn none() -> (actions: Vec<Action<String>>)
    ensures
        actions_view(actions@) == Seq::<Action<Seq<char>>>::empty(),
{
    let actions: Vec<Action<String>> = Vec::new();
    assert(actions_view(actions@) =~= Seq::<Action<Seq<char>>>::empty());
    actions
}

fn resized(width: u32, height: u32, scale: u32) -> (actions: Vec<Action<String>>)
    ensures
        actions_view(actions@) == seq![
            Action::<Seq<char>>::ResizeSurface { width, height, scale },
            Action::ReportResize { width, height, scale },
            Action::RequestRedraw,
        ],
{
    let mut actions = two(
        Action::ResizeSurface { width, height, scale },
        Action::ReportResize { width, height, scale },
    );
    let ghost before = actions@;
    actions.push(Action::RequestRedraw);
    proof {
        assert(actions_view(actions@) =~= actions_view(before).push(
            Action::<Seq<char>>::RequestRedraw,
        ));
        assert(actions_view(actions@) =~= seq![
            Action::<Seq<char>>::ResizeSurface { width, height, scale },
            Action::ReportResize { width, height, scale },
            Action::RequestRedraw,
        ]);
    }
    actions
}

/// The keystroke of a key, given its name.
pub open spec fn keystroke_of(before: Memory, key: Key, name: Seq<char>) -> Keystroke<Seq<char>> {
    Keystroke { modifiers: before.modifiers, key: name, key_char: char_of(key, before.modifiers) }
}

/// What a key asks to be done.
pub open spec fn asked_by_key(
    before: Memory,
    key: Key,
    state: ElementState,
    repeat: bool,
) -> Seq<Action<Seq<char>>> {
    match name_of(key) {
        Some(name) => if state is Pressed {
            seq![
                Action::Dispatch(
                    PlatformInput::KeyDown {
                        keystroke: keystroke_of(before, key, name),
                        is_held: repeat,
                        prefer_character_input: false,
                    },
                ),
            ]
        } else {
            seq![
                Action::Dispatch(
                    PlatformInput::KeyUp { keystroke: keystroke_of(before, key, name) },
                ),
            ]
        },
        None => Seq::empty(),
    }
}

/// What a mouse button asks to be done.
pub open spec fn asked_by_button(
    before: Memory,
    state: ElementState,
    button: RawButton,
    near: bool,
    now: u128,
) -> Seq<Action<Seq<char>>> {
    match meaning(button) {
        Some(button) => if state is Pressed {
            seq![
                Action::Dispatch(
                    PlatformInput::MouseDown {
                        button,
                        position: before.mouse_position,
                        modifiers: before.modifiers,
                        click_count: press_count(before, button, near, now),
                        first_mouse: false,
                    },
                ),
            ]
        } else {
            seq![
                Action::Dispatch(
                    PlatformInput::MouseUp {
                        button,
                        position: before.mouse_position,
                        modifiers: before.modifiers,
                        click_count: before.click_count,
                    },
                ),
            ]
        },
        None => Seq::empty(),
    }
}

/// What a window remembers after a mouse button.
pub open spec fn remembered_button(
    before: Memory,
    state: ElementState,
    button: RawButton,
    near: bool,
    now: u128,
) -> Memory {
    match meaning(button) {
        Some(button) => if state is Pressed {
            Memory {
                pressed_button: Some(button),
                last_press: Some((button, before.mouse_position, now)),
                click_count: press_count(before, button, near, now),
                ..before
            }
        } else {
            Memory { pressed_button: None, ..before }
        },
        None => before,
    }
}

impl WindowState {
    fn mouse_input(&mut self, state: ElementState, button: RawButton, near: bool, now: u128) -> (
    actions: Vec<Action<String>>)
        requires
            continues_clicks(old(self)@, state, button, near, now) ==> old(self)@.click_count
                < usize::MAX,
        ensures
            final(self)@ == remembered_button(old(self)@, state, button, near, now),
            actions_view(actions@) == asked_by_button(old(self)@, state, button, near, now),
    {
        match mouse_button(button) {
            Some(button) => {
                let position = self.input.mouse_position;
                let modifiers = self.input.modifiers;
                if is_pressed(state) {
                    self.input.pressed_button = Some(button);
                    let click_count = self.input.clicks.press(button, position, near, now);
                    one(
                        Action::Dispatch(
                            PlatformInput::MouseDown {
                                button,
                                position,
                                modifiers,
                                click_count,
                                first_mouse: false,
                            },
                        ),
                    )
                } else {
                    self.input.pressed_button = None;
                    let click_count = self.input.clicks.release();
                    one(
                        Action::Dispatch(
                            PlatformInput::MouseUp { button, position, modifiers, click_count },
                        ),
                    )
                }
            },
            None => none(),
        }
    }

    fn keyboard_input(&self, key: &Key, state: ElementState, repeat: bool) -> (actions: Vec<
        Action<String>,
    >)
        ensures
            actions_view(actions@) == asked_by_key(self@, *key, state, repeat),
    {
        let modifiers = self.input.modifiers;
        match key_name(key) {
            Some(name) => {
                let keystroke = Keystroke {
                    modifiers,
                    key: name,
                    key_char: key_char(key, modifiers),
                };
                if is_pressed(state) {
                    one(
                        Action::Dispatch(
                            PlatformInput::KeyDown {
                                keystroke,
                                is_held: repeat,
                                prefer_character_input: false,
                            },
                        ),
                    )
                } else {
                    one(Action::Dispatch(PlatformInput::KeyUp { keystroke }))
                }
            },
            None => none(),
        }
    }

    /// Whether an event can be taken in: only a press whose click cannot be counted any more
    /// cannot.
    pub fn can_handle(&self, event: &WindowEvent) -> (can: bool)
        ensures
            can == countable(self@, *event),
    {
        match event {
            WindowEvent::MouseInput { state, button, near, now } => match mouse_button(*button) {
                Some(button) => !is_pressed(*state) || self.input.clicks.can_press(
                    button,
                    *near,
                    *now,
                ),
                None => true,
            },
            _ => true,
        }
    }

    /// Takes an event in: updates what the window remembers, and gives what is to be done, in
    /// order.
    ///
    /// Whether a window may close is asked first, and the answer comes back as an event.
    pub fn handle(&mut self, event: WindowEvent) -> (actions: Vec<Action<String>>)
        requires
            countable(old(self)@, event),
        ensures
            final(self)@ == remembered(old(self)@, event),
            actions_view(actions@) == asked(old(self)@, event),
    {
        // Anything at all may have made drawing worthwhile again: being unoccluded arrives as an
        // ordinary event like any other.
        match event {
            WindowEvent::RedrawRequested => {},
            _ => {
                self.frames_suppressed = false;
            },
        }
        match event {
            WindowEvent::RedrawRequested => two(Action::BeginFrame, Action::RequestFrame),
            WindowEvent::Resized { width, height, scale } => resized(width, height, scale),
            WindowEvent::ScaleFactorChanged { width, height, scale } => resized(
                width,
                height,
                scale,
            ),
            WindowEvent::CloseRequested => one(Action::AskClose),
            WindowEvent::CloseAnswered { close } => if close {
                two(Action::ReportClosed, Action::Forget)
            } else {
                none()
            },
            WindowEvent::Destroyed => one(Action::Forget),
            WindowEvent::Focused(focused) => one(Action::ReportActive(focused)),
            WindowEvent::ModifiersChanged(state) => {
                let modifiers = modifiers(state);
                let capslock = capslock();
                self.input.modifiers = modifiers;
                self.input.capslock = capslock;
                one(Action::Dispatch(PlatformInput::ModifiersChanged { modifiers, capslock }))
            },
            WindowEvent::CursorMoved { position } => {
                self.input.mouse_position = position;
                one(
                    Action::Dispatch(
                        PlatformInput::MouseMove {
                            position,
                            pressed_button: self.input.pressed_button,
                            modifiers: self.input.modifiers,
                        },
                    ),
                )
            },
            WindowEvent::CursorEntered => one(Action::ReportHover(true)),
            WindowEvent::CursorLeft => two(
                Action::Dispatch(
                    PlatformInput::MouseExited {
                        position: self.input.mouse_position,
                        pressed_button: None,
                        modifiers: self.input.modifiers,
                    },
                ),
                Action::ReportHover(false),
            ),
            WindowEvent::MouseInput { state, button, near, now } => self.mouse_input(
                state,
                button,
                near,
                now,
            ),
            WindowEvent::MouseWheel { delta, phase } => one(
                Action::Dispatch(
                    PlatformInput::ScrollWheel {
                        position: self.input.mouse_position,
                        delta: scroll_delta(delta),
                        modifiers: self.input.modifiers,
                        touch_phase: phase,
                    },
                ),
            ),
            WindowEvent::KeyboardInput { key, state, repeat } => self.keyboard_input(
                &key,
                state,
                repeat,
            ),
            WindowEvent::ImePreedit { text, cursor } => if text.as_str().unicode_len() == 0 {
                one(Action::Unmark)
            } else {
                one(Action::Mark { text, selection: cursor })
            },
            WindowEvent::ImeCommit { text } => one(Action::Commit { text }),
            WindowEvent::Moved => one(Action::ReportMoved),
            WindowEvent::Other => none(),
        }
    }
}

} // verus!
