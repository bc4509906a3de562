//! Window-system events as input.
//!
//! **Key names.** A key is identified by the name printed on it, and whatever character it would
//! have typed is kept apart, so that a binding still fires on a layout where that key types
//! something else.
//!
//! **Click counts.** Every press and release carries a running click count, which is reconstructed
//! from how much time and how much movement lay between two presses.

use vstd::prelude::*;
use vstd::string::StringExecFns;

use crate::bits::negate;
use crate::bits::negated;
use crate::text::decimal;

verus! {

/// How long after a click a second one still counts as a double click, in nanoseconds.
pub const MULTI_CLICK_INTERVAL: u128 = 500_000_000;

/// A point, as float bits.
#[derive(Clone, Copy, Debug, PartialEq, Eq, Structural)]
pub struct Point {
    pub x: u32,
    pub y: u32,
}

/// A mouse button that has a meaning.
#[derive(Clone, Copy, Debug, PartialEq, Eq, Structural)]
pub enum MouseButton {
    Left,
    Right,
    Middle,
    NavigateBack,
    NavigateForward,
}

/// A mouse button as the window system reports it.
#[derive(Clone, Copy, Debug, PartialEq, Eq, Structural)]
pub enum RawButton {
    Left,
    Right,
    Middle,
    Back,
    Forward,
    Other(u16),
}

/// Whether a key or a button went down or up.
#[derive(Clone, Copy, Debug, PartialEq, Eq, Structural)]
pub enum ElementState {
    Pressed,
    Released,
}

/// Which modifier keys are down.
#[derive(Clone, Copy, Debug, PartialEq, Eq, Structural)]
pub struct Modifiers {
    pub control: bool,
    pub alt: bool,
    pub shift: bool,
    pub platform: bool,
    pub function: bool,
}

/// Whether capslock is on.
#[derive(Clone, Copy, Debug, PartialEq, Eq, Structural)]
pub struct Capslock {
    pub on: bool,
}

/// How far the wheel turned, as float bits: in lines, or in pixels.
#[derive(Clone, Copy, Debug, PartialEq, Eq, Structural)]
pub enum ScrollDelta {
    Lines(Point),
    Pixels(Point),
}

/// A key that has a name of its own.
#[derive(Clone, Debug)]
pub enum NamedKey {
    Enter,
    Tab,
    Space,
    Backspace,
    Delete,
    Escape,
    ArrowUp,
    ArrowDown,
    ArrowLeft,
    ArrowRight,
    Home,
    End,
    PageUp,
    PageDown,
    Insert,
    F1,
    F2,
    F3,
    F4,
    F5,
    F6,
    F7,
    F8,
    F9,
    F10,
    F11,
    F12,
    Shift,
    Control,
    Alt,
    Super,
    Meta,
    CapsLock,
    /// Any other, with the text the window system says it stands for, where there is one.
    Unlisted(Option<String>),
}

/// A key with the layout already applied.
#[derive(Clone, Debug)]
pub enum Key {
    Character(String),
    Named(NamedKey),
    /// A key that could not be identified, or that only alters the next one.
    Unidentified,
}

impl Modifiers {
    /// No modifier.
    pub open spec fn none() -> Modifiers {
        Modifiers { control: false, alt: false, shift: false, platform: false, function: false }
    }

    /// Whether no modifier but shift is down.
    pub open spec fn at_most_shift(self) -> bool {
        !self.control && !self.alt && !self.platform && !self.function
    }

    /// Whether no modifier but shift is down.
    pub fn is_subset_of_shift(&self) -> (answer: bool)
        ensures
            answer == self.at_most_shift(),
    {
        !self.control && !self.alt && !self.platform && !self.function
    }
}

impl Default for Modifiers {
    fn default() -> (none: Modifiers)
        ensures
            none == Modifiers::none(),
    {
        Modifiers { control: false, alt: false, shift: false, platform: false, function: false }
    }
}

/// Reconstructs click counts from a stream of presses.
pub struct Clicks {
    last: Option<(MouseButton, Point, u128)>,
    count: usize,
}

/// Whether a press of `button` at the time `now`, near the last press or not, continues the last.
pub open spec fn continues(
    last: Option<(MouseButton, Point, u128)>,
    button: MouseButton,
    near: bool,
    now: u128,
) -> bool {
    &&& last matches Some((before, _, when)) && before == button && now - when
        <= MULTI_CLICK_INTERVAL
    &&& near
}

impl Clicks {
    /// The last press: its button, its place and its time.
    pub closed spec fn last(self) -> Option<(MouseButton, Point, u128)> {
        self.last
    }

    /// The count that the last press was given.
    pub closed spec fn count(self) -> usize {
        self.count
    }

    /// No press yet.
    pub fn new() -> (clicks: Clicks)
        ensures
            clicks.last() is None,
            clicks.count() == 0,
    {
        Clicks { last: None, count: 0 }
    }

    /// Where the last press was.
    pub fn last_position(&self) -> (position: Option<Point>)
        ensures
            position == (match self.last() {
                Some((_, at, _)) => Some(at),
                None => None,
            }),
    {
        match self.last {
            Some((_, at, _)) => Some(at),
            None => None,
        }
    }

    /// Whether a press goes on counting the last one's clicks.
    fn counts_on(&self, button: MouseButton, near: bool, now: u128) -> (same: bool)
        ensures
            same == continues(self.last(), button, near, now),
    {
        match self.last {
            Some((before, _, when)) => near && before == button && (now <= when || now - when
                <= MULTI_CLICK_INTERVAL),
            None => false,
        }
    }

    /// Whether a press can be counted: one that goes on counting clicks needs a count that can
    /// still grow.
    pub fn can_press(&self, button: MouseButton, near: bool, now: u128) -> (can: bool)
        ensures
            can == (continues(self.last(), button, near, now) ==> self.count() < usize::MAX),
    {
        !self.counts_on(button, near, now) || self.count < usize::MAX
    }

    /// The click count for a press of `button` at `position` and the time `now`, in nanoseconds.
    /// `near` says whether the last press was near enough to count as the same place.
    pub fn press(&mut self, button: MouseButton, position: Point, near: bool, now: u128) -> (count:
        usize)
        requires
            continues(old(self).last(), button, near, now) ==> old(self).count() < usize::MAX,
        ensures
            count == final(self).count(),
            count == (if continues(old(self).last(), button, near, now) {
                old(self).count() + 1
            } else {
                1
            }),
            final(self).last() == Some((button, position, now)),
    {
        self.count = if self.counts_on(button, near, now) {
            self.count + 1
        } else {
            1
        };
        self.last = Some((button, position, now));
        self.count
    }

    /// The click count to report on release, which is the one the press reported.
    pub fn release(&self) -> (count: usize)
        ensures
            count == self.count(),
    {
        self.count
    }
}

/// The bit of the shift key in a set of modifier keys.
pub const SHIFT_BIT: u32 = 0x4;

/// The bit of the control key.
pub const CONTROL_BIT: u32 = 0x20;

/// The bit of the alt key.
pub const ALT_BIT: u32 = 0x100;

/// The bit of the key that belongs to the system.
pub const SUPER_BIT: u32 = 0x800;

/// Calls `winit::keyboard::ModifiersState::shift_key` on the state with those bits: whether the
/// shift key's bit is set.
#[verifier::external_body]
fn shift_key(state: u32) -> (down: bool)
    ensures
        down == (state & SHIFT_BIT != 0),
{
    winit::keyboard::ModifiersState::from_bits_retain(state).shift_key()
}

/// Calls `winit::keyboard::ModifiersState::control_key` on the state with those bits: whether the
/// control key's bit is set.
#[verifier::external_body]
fn control_key(state: u32) -> (down: bool)
    ensures
        down == (state & CONTROL_BIT != 0),
{
    winit::keyboard::ModifiersState::from_bits_retain(state).control_key()
}

/// Calls `winit::keyboard::ModifiersState::alt_key` on the state with those bits: whether the alt
/// key's bit is set.
#[verifier::external_body]
fn alt_key(state: u32) -> (down: bool)
    ensures
        down == (state & ALT_BIT != 0),
{
    winit::keyboard::ModifiersState::from_bits_retain(state).alt_key()
}

/// Calls `winit::keyboard::ModifiersState::super_key` on the state with those bits: whether the
/// bit of the system's key is set.
#[verifier::external_body]
fn super_key(state: u32) -> (down: bool)
    ensures
        down == (state & SUPER_BIT != 0),
{
    winit::keyboard::ModifiersState::from_bits_retain(state).super_key()
}

/// The modifiers of a set of modifier keys. There is no bit for a function key.
pub open spec fn modifiers_of(state: u32) -> Modifiers {
    Modifiers {
        control: state & CONTROL_BIT != 0,
        alt: state & ALT_BIT != 0,
        shift: state & SHIFT_BIT != 0,
        platform: state & SUPER_BIT != 0,
        function: false,
    }
}

/// The modifiers of a set of modifier keys, given by its bits.
pub fn modifiers(state: u32) -> (down: Modifiers)
    ensures
        down == modifiers_of(state),
{
    Modifiers {
        control: control_key(state),
        alt: alt_key(state),
        shift: shift_key(state),
        platform: super_key(state),
        function: false,
    }
}

/// Capslock, which is always off: the window system reports modifier keys and no lock state.
pub fn capslock() -> (capslock: Capslock)
    ensures
        !capslock.on,
{
    Capslock { on: false }
}

/// The meaning of a button, where it has one.
pub open spec fn meaning(button: RawButton) -> Option<MouseButton> {
    match button {
        RawButton::Left => Some(MouseButton::Left),
        RawButton::Right => Some(MouseButton::Right),
        RawButton::Middle => Some(MouseButton::Middle),
        RawButton::Back => Some(MouseButton::NavigateBack),
        RawButton::Forward => Some(MouseButton::NavigateForward),
        RawButton::Other(_) => None,
    }
}

/// The meaning of a button, or nothing for one that has no name.
pub fn mouse_button(button: RawButton) -> (named: Option<MouseButton>)
    ensures
        named == meaning(button),
{
    match button {
        RawButton::Left => Some(MouseButton::Left),
        RawButton::Right => Some(MouseButton::Right),
        RawButton::Middle => Some(MouseButton::Middle),
        RawButton::Back => Some(MouseButton::NavigateBack),
        RawButton::Forward => Some(MouseButton::NavigateForward),
        RawButton::Other(_) => None,
    }
}

/// How far the view moves when the content moves by `delta`.
pub open spec fn view_delta(delta: ScrollDelta) -> ScrollDelta {
    match delta {
        ScrollDelta::Lines(by) => ScrollDelta::Lines(Point { x: negated(by.x), y: negated(by.y) }),
        ScrollDelta::Pixels(by) => ScrollDelta::Pixels(
            Point { x: negated(by.x), y: negated(by.y) },
        ),
    }
}

/// How far the view moves.
///
/// A line delta stays a line delta: the two are told apart so that the line height can be applied
/// later. The sign is inverted, because the window system reports the direction the content moves
/// and the direction the view moves is expected.
pub fn scroll_delta(delta: ScrollDelta) -> (moved: ScrollDelta)
    ensures
        moved == view_delta(delta),
{
    match delta {
        ScrollDelta::Lines(by) => ScrollDelta::Lines(Point { x: negate(by.x), y: negate(by.y) }),
        ScrollDelta::Pixels(by) => ScrollDelta::Pixels(Point { x: negate(by.x), y: negate(by.y) }),
    }
}

/// Whether a key or a button went down.
pub fn is_pressed(state: ElementState) -> (pressed: bool)
    ensures
        pressed == (state is Pressed),
{
    match state {
        ElementState::Pressed => true,
        ElementState::Released => false,
    }
}

/// A text in lower case.
pub uninterp spec fn lower_case(text: Seq<char>) -> Seq<char>;

/// Calls `str::to_lowercase`: the lower-case equivalent of the text, which is a function of the
/// text alone.
#[verifier::external_body]
fn to_lowercase(text: &str) -> (lowered: String)
    ensures
        lowered@ == lower_case(text@),
{
    text.to_lowercase()
}

/// The name of a named key, where it has one. Modifier keys have none: they are reported as
/// modifiers and not as keystrokes.
pub open spec fn named_key_name(key: NamedKey) -> Option<Seq<char>> {
    match key {
        NamedKey::Enter => Some("enter"@),
        NamedKey::Tab => Some("tab"@),
        NamedKey::Space => Some("space"@),
        NamedKey::Backspace => Some("backspace"@),
        NamedKey::Delete => Some("delete"@),
        NamedKey::Escape => Some("escape"@),
        NamedKey::ArrowUp => Some("up"@),
        NamedKey::ArrowDown => Some("down"@),
        NamedKey::ArrowLeft => Some("left"@),
        NamedKey::ArrowRight => Some("right"@),
        NamedKey::Home => Some("home"@),
        NamedKey::End => Some("end"@),
        NamedKey::PageUp => Some("pageup"@),
        NamedKey::PageDown => Some("pagedown"@),
        NamedKey::Insert => Some("insert"@),
        NamedKey::F1 => Some("f1"@),
        NamedKey::F2 => Some("f2"@),
        NamedKey::F3 => Some("f3"@),
        NamedKey::F4 => Some("f4"@),
        NamedKey::F5 => Some("f5"@),
        NamedKey::F6 => Some("f6"@),
        NamedKey::F7 => Some("f7"@),
        NamedKey::F8 => Some("f8"@),
        NamedKey::F9 => Some("f9"@),
        NamedKey::F10 => Some("f10"@),
        NamedKey::F11 => Some("f11"@),
        NamedKey::F12 => Some("f12"@),
        NamedKey::Shift => None,
        NamedKey::Control => None,
        NamedKey::Alt => None,
        NamedKey::Super => None,
        NamedKey::Meta => None,
        NamedKey::CapsLock => None,
        NamedKey::Unlisted(text) => text_view(text),
    }
}

/// What an optional text says.
pub open spec fn text_view(text: Option<String>) -> Option<Seq<char>> {
    match text {
        Some(text) => Some(text@),
        None => None,
    }
}

/// The name of a character key, given its text in lower case: none where there is no text.
pub open spec fn character_name(lowered: Seq<char>) -> Option<Seq<char>> {
    if lowered.len() == 0 {
        None
    } else {
        Some(lowered)
    }
}

/// The name of a key, where it has one.
pub open spec fn name_of(key: Key) -> Option<Seq<char>> {
    match key {
        Key::Character(text) => character_name(lower_case(text@)),
        Key::Named(name) => named_key_name(name),
        Key::Unidentified => None,
    }
}

/// The text a key press types, where it types any.
pub open spec fn char_of(key: Key, modifiers: Modifiers) -> Option<Seq<char>> {
    if modifiers.control || modifiers.platform {
        None
    } else {
        match key {
            Key::Character(text) => Some(text@),
            Key::Named(NamedKey::Space) => Some(" "@),
            _ => None,
        }
    }
}

fn named(name: &str) -> (text: Option<String>)
    ensures
        text_view(text) == Some(name@),
{
    Some(String::from_str(name))
}

/// The name of a named key, where it has one. One that is not listed is passed through as its own
/// text.
pub fn named_key(key: &NamedKey) -> (name: Option<String>)
    ensures
        text_view(name) == named_key_name(*key),
{
    match key {
        NamedKey::Enter => named("enter"),
        NamedKey::Tab => named("tab"),
        NamedKey::Space => named("space"),
        NamedKey::Backspace => named("backspace"),
        NamedKey::Delete => named("delete"),
        NamedKey::Escape => named("escape"),
        NamedKey::ArrowUp => named("up"),
        NamedKey::ArrowDown => named("down"),
        NamedKey::ArrowLeft => named("left"),
        NamedKey::ArrowRight => named("right"),
        NamedKey::Home => named("home"),
        NamedKey::End => named("end"),
        NamedKey::PageUp => named("pageup"),
        NamedKey::PageDown => named("pagedown"),
        NamedKey::Insert => named("insert"),
        NamedKey::F1 => named("f1"),
        NamedKey::F2 => named("f2"),
        NamedKey::F3 => named("f3"),
        NamedKey::F4 => named("f4"),
        NamedKey::F5 => named("f5"),
        NamedKey::F6 => named("f6"),
        NamedKey::F7 => named("f7"),
        NamedKey::F8 => named("f8"),
        NamedKey::F9 => named("f9"),
        NamedKey::F10 => named("f10"),
        NamedKey::F11 => named("f11"),
        NamedKey::F12 => named("f12"),
        NamedKey::Shift => None,
        NamedKey::Control => None,
        NamedKey::Alt => None,
        NamedKey::Super => None,
        NamedKey::Meta => None,
        NamedKey::CapsLock => None,
        NamedKey::Unlisted(text) => match text {
            Some(text) => Some(text.clone()),
            None => None,
        },
    }
}

/// The name of a character key, given its text in lower case.
pub fn character_key(lowered: String) -> (name: Option<String>)
    ensures
        text_view(name) == character_name(lowered@),
{
    if lowered.as_str().unicode_len() == 0 {
        None
    } else {
        Some(lowered)
    }
}

/// The name of a key, the way a keymap file spells it.
///
/// A character key goes by its unshifted name, because the shift is already in the modifiers.
pub fn key_name(key: &Key) -> (name: Option<String>)
    ensures
        text_view(name) == name_of(*key),
{
    match key {
        Key::Character(text) => character_key(to_lowercase(text.as_str())),
        Key::Named(name) => named_key(name),
        Key::Unidentified => None,
    }
}

/// The text a key press would type, or nothing when it types nothing.
///
/// A control chord types nothing: reporting text for it would insert a character alongside running
/// the binding.
pub fn key_char(key: &Key, modifiers: Modifiers) -> (text: Option<String>)
    ensures
        text_view(text) == char_of(*key, modifiers),
{
    if modifiers.control || modifiers.platform {
        return None;
    }
    match key {
        Key::Character(text) => Some(text.clone()),
        Key::Named(NamedKey::Space) => named(" "),
        _ => None,
    }
}

/// Inverting the direction twice gives it back.
pub proof fn law_inverting_twice_is_nothing(delta: ScrollDelta)
    ensures
        view_delta(view_delta(delta)) == delta,
{
}

/// Scrolling keeps lines lines and pixels pixels, keeps each axis its own, and turns each axis
/// round: what came without a sign goes out with one, and by the same amount.
pub proof fn law_scrolling_turns_each_axis_round(delta: ScrollDelta)
    ensures
        match (delta, view_delta(delta)) {
            (ScrollDelta::Lines(by), ScrollDelta::Lines(moved)) => turned(by.x, moved.x) && turned(
                by.y,
                moved.y,
            ),
            (ScrollDelta::Pixels(by), ScrollDelta::Pixels(moved)) => turned(by.x, moved.x)
                && turned(by.y, moved.y),
            _ => false,
        },
{
}

/// Whether two numbers, as float bits, have one magnitude and different signs.
pub open spec fn turned(one: u32, two: u32) -> bool {
    &&& one % 0x8000_0000 == two % 0x8000_0000
    &&& one < 0x8000_0000 <==> two >= 0x8000_0000
}

/// Every modifier has one bit, and that bit decides it alone: it is down exactly where its bit is
/// set, and other bits change nothing. No bit stands for the function key.
pub proof fn law_each_modifier_has_its_bit(state: u32, other: u32)
    ensures
        modifiers_of(state).shift == (state & 0x4 != 0),
        modifiers_of(state).control == (state & 0x20 != 0),
        modifiers_of(state).alt == (state & 0x100 != 0),
        modifiers_of(state).platform == (state & 0x800 != 0),
        !modifiers_of(state).function,
        state & 0x924 == other & 0x924 <==> modifiers_of(state) == modifiers_of(other),
{
    assert(state & 0x924 == other & 0x924 <==> ((state & 0x4 != 0) == (other & 0x4 != 0) && (state
        & 0x20 != 0) == (other & 0x20 != 0) && (state & 0x100 != 0) == (other & 0x100 != 0) && (
    state & 0x800 != 0) == (other & 0x800 != 0))) by (bit_vector);
}

/// Shift alone, and nothing at all, are at most shift; anything else that is down is more.
pub proof fn law_at_most_shift_ignores_shift(modifiers: Modifiers)
    ensures
        modifiers.at_most_shift() <==> (Modifiers { shift: false, ..modifiers })
            == Modifiers::none(),
        !Modifiers::none().shift && !Modifiers::none().control && !Modifiers::none().alt,
        !Modifiers::none().platform && !Modifiers::none().function,
{
}

/// The button the window system reports for a meaning.
pub open spec fn reported_as(button: MouseButton) -> RawButton {
    match button {
        MouseButton::Left => RawButton::Left,
        MouseButton::Right => RawButton::Right,
        MouseButton::Middle => RawButton::Middle,
        MouseButton::NavigateBack => RawButton::Back,
        MouseButton::NavigateForward => RawButton::Forward,
    }
}

/// Every meaning is that of the one button that is reported for it, and a button without a name has
/// none.
pub proof fn law_buttons_keep_their_meaning(raw: RawButton, button: MouseButton)
    ensures
        meaning(raw) == Some(button) <==> raw == reported_as(button),
        meaning(raw) is None <==> raw is Other,
{
}

/// A press goes on counting clicks exactly where there was a press of the same button, near enough,
/// and no more than half a second ago. Where the last press was says nothing more.
pub proof fn law_clicks_continue_within_half_a_second(
    last: (MouseButton, Point, u128),
    button: MouseButton,
    near: bool,
    now: u128,
)
    ensures
        continues(Some(last), button, near, now) <==> last.0 == button && near && now <= last.2
            + 500_000_000,
        !continues(None, button, near, now),
{
}

/// A press that goes on counting clicks would also do so at any earlier time.
pub proof fn law_sooner_clicks_count_too(
    last: Option<(MouseButton, Point, u128)>,
    button: MouseButton,
    near: bool,
    now: u128,
    sooner: u128,
)
    requires
        continues(last, button, near, now),
        sooner <= now,
    ensures
        continues(last, button, near, sooner),
        near,
{
}

/// The name a listed key goes by is what the keymap calls it: arrows by their direction, function
/// keys by their number, and the others by what is printed on them.
pub proof fn law_keys_go_by_what_is_printed_on_them()
    ensures
        named_key_name(NamedKey::ArrowUp) == Some("up"@),
        named_key_name(NamedKey::ArrowDown) == Some("down"@),
        named_key_name(NamedKey::ArrowLeft) == Some("left"@),
        named_key_name(NamedKey::ArrowRight) == Some("right"@),
        named_key_name(NamedKey::Home) == Some("home"@),
        named_key_name(NamedKey::End) == Some("end"@),
        named_key_name(NamedKey::PageUp) == Some("page"@ + "up"@),
        named_key_name(NamedKey::PageDown) == Some("page"@ + "down"@),
        named_key_name(NamedKey::Insert) == Some("insert"@),
        named_key_name(NamedKey::Delete) == Some("delete"@),
        named_key_name(NamedKey::Backspace) == Some("back"@ + "space"@),
        named_key_name(NamedKey::Space) == Some("space"@),
        named_key_name(NamedKey::Tab) == Some("tab"@),
        named_key_name(NamedKey::Enter) == Some("enter"@),
        named_key_name(NamedKey::Escape) == Some("escape"@),
{
    reveal_strlit("up");
    reveal_strlit("down");
    reveal_strlit("page");
    reveal_strlit("pageup");
    reveal_strlit("pagedown");
    reveal_strlit("back");
    reveal_strlit("space");
    reveal_strlit("backspace");
    assert("pageup"@ =~= "page"@ + "up"@);
    assert("pagedown"@ =~= "page"@ + "down"@);
    assert("backspace"@ =~= "back"@ + "space"@);
}

/// The function key of a number.
pub open spec fn function_key(number: u8) -> Option<NamedKey> {
    match number {
        1 => Some(NamedKey::F1),
        2 => Some(NamedKey::F2),
        3 => Some(NamedKey::F3),
        4 => Some(NamedKey::F4),
        5 => Some(NamedKey::F5),
        6 => Some(NamedKey::F6),
        7 => Some(NamedKey::F7),
        8 => Some(NamedKey::F8),
        9 => Some(NamedKey::F9),
        10 => Some(NamedKey::F10),
        11 => Some(NamedKey::F11),
        12 => Some(NamedKey::F12),
        _ => None,
    }
}

/// A function key goes by the letter and its number.
pub proof fn law_function_keys_go_by_their_number(number: u8)
    ensures
        function_key(number) matches Some(key) ==> named_key_name(key) == Some(
            seq!['f'] + decimal(number as nat),
        ),
{
    reveal_strlit("f1");
    reveal_strlit("f2");
    reveal_strlit("f3");
    reveal_strlit("f4");
    reveal_strlit("f5");
    reveal_strlit("f6");
    reveal_strlit("f7");
    reveal_strlit("f8");
    reveal_strlit("f9");
    reveal_strlit("f10");
    reveal_strlit("f11");
    reveal_strlit("f12");
    reveal_with_fuel(decimal, 3);
    if function_key(number) is Some {
        let key = function_key(number)->0;
        assert(named_key_name(key)->0 =~= seq!['f'] + decimal(number as nat));
    }
}

/// A key that only alters others has no name, so it is no keystroke; neither has one that could not
/// be identified. A key that is not listed goes by the text the window system gives it, or by none.
pub proof fn law_modifier_keys_are_no_keystrokes(text: Option<String>)
    ensures
        name_of(Key::Named(NamedKey::Shift)) is None,
        name_of(Key::Named(NamedKey::Control)) is None,
        name_of(Key::Named(NamedKey::Alt)) is None,
        name_of(Key::Named(NamedKey::Super)) is None,
        name_of(Key::Named(NamedKey::Meta)) is None,
        name_of(Key::Named(NamedKey::CapsLock)) is None,
        name_of(Key::Unidentified) is None,
        text matches Some(text) ==> name_of(Key::Named(NamedKey::Unlisted(Some(text)))) == Some(
            text@,
        ),
        name_of(Key::Named(NamedKey::Unlisted(None))) is None,
{
}

/// A named key goes by its name whichever way it is asked for, and a character key by its text in
/// lower case, so two that differ in nothing but case go by one name. One without text has no name.
pub proof fn law_character_keys_go_by_their_lower_case(key: NamedKey, one: String, two: String)
    ensures
        name_of(Key::Named(key)) == named_key_name(key),
        lower_case(one@).len() > 0 ==> name_of(Key::Character(one)) == Some(lower_case(one@)),
        lower_case(one@).len() == 0 ==> name_of(Key::Character(one)) is None,
        lower_case(one@) == lower_case(two@) ==> name_of(Key::Character(one)) == name_of(
            Key::Character(two),
        ),
{
}

/// With the control key or the system's key down nothing is typed, whatever the key. Without them a
/// character key types its text and the space key a space, whichever other modifiers are down, and
/// no other key types anything.
pub proof fn law_chords_type_nothing(key: Key, modifiers: Modifiers)
    ensures
        modifiers.control || modifiers.platform ==> char_of(key, modifiers) is None,
        !modifiers.control && !modifiers.platform ==> match key {
            Key::Character(text) => char_of(key, modifiers) == Some(text@),
            Key::Named(name) => char_of(key, modifiers) == if name is Space {
                Some(seq![' '])
            } else {
                None
            },
            Key::Unidentified => char_of(key, modifiers) is None,
        },
{
    reveal_strlit(" ");
    assert(" "@ =~= seq![' ']);
}

/// A text that is there says what it says, and one that is not says nothing.
pub proof fn law_texts_say_what_they_hold(text: String)
    ensures
        text_view(Some(text)) == Some(text@),
        text_view(None) is None,
{
}

/// No two listed keys go by one name.
pub proof fn law_listed_keys_have_names_of_their_own(one: NamedKey, two: NamedKey)
    requires
        !(one is Unlisted),
        !(two is Unlisted),
        named_key_name(one) is Some,
        named_key_name(one) == named_key_name(two),
    ensures
        one == two,
{
    reveal_strlit("enter");
    reveal_strlit("tab");
    reveal_strlit("space");
    reveal_strlit("backspace");
    reveal_strlit("delete");
    reveal_strlit("escape");
    reveal_strlit("up");
    reveal_strlit("down");
    reveal_strlit("left");
    reveal_strlit("right");
    reveal_strlit("home");
    reveal_strlit("end");
    reveal_strlit("pageup");
    reveal_strlit("pagedown");
    reveal_strlit("insert");
    reveal_strlit("f1");
    reveal_strlit("f2");
    reveal_strlit("f3");
    reveal_strlit("f4");
    reveal_strlit("f5");
    reveal_strlit("f6");
    reveal_strlit("f7");
    reveal_strlit("f8");
    reveal_strlit("f9");
    reveal_strlit("f10");
    reveal_strlit("f11");
    reveal_strlit("f12");
    let (a, b) = (named_key_name(one)->0, named_key_name(two)->0);
    assert(a.len() == b.len());
    assert(a[0] == b[0]);
    assert(a[a.len() - 1] == b[b.len() - 1]);
}

} // verus!
