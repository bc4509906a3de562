//! What a window decides: which text a key press inserts, when frames are pointless, and how it is
//! shown.

use vstd::prelude::*;

use crate::bits::at_least_zero;
use crate::bits::is_at_least_zero;
use crate::events::keystroke_view;
use crate::events::Keystroke;
use crate::events::PlatformInput;
use crate::events::WindowState;
use crate::input::text_view;
use crate::outcome::FrameOutcome;
use crate::outcome::SkipReason;

verus! {

/// The text that a key press nothing consumed inserts, where it inserts any: what it would type,
/// where no modifier but shift is down, so that a control chord runs its binding instead.
pub open spec fn inserted(event: PlatformInput<String>, propagated: bool) -> Option<Seq<char>> {
    match event {
        PlatformInput::KeyDown { keystroke, is_held: _, prefer_character_input: _ } => if propagated
            && keystroke.modifiers.at_most_shift() {
            keystroke_view(keystroke).key_char
        } else {
            None
        },
        _ => None,
    }
}

/// The text to insert once an event has been dispatched, given whether it propagated.
pub fn typed_text(event: &PlatformInput<String>, propagated: bool) -> (text: Option<String>)
    ensures
        text_view(text) == inserted(*event, propagated),
{
    match event {
        PlatformInput::KeyDown { keystroke, is_held: _, prefer_character_input: _ } => {
            if propagated && keystroke.modifiers.is_subset_of_shift() {
                match &keystroke.key_char {
                    Some(text) => Some(text.clone()),
                    None => None,
                }
            } else {
                None
            }
        },
        _ => None,
    }
}

impl WindowState {
    /// Whether asking for another frame would be pointless right now.
    pub fn frames_suppressed(&self) -> (suppressed: bool)
        ensures
            suppressed == self@.frames_suppressed,
    {
        self.frames_suppressed
    }

    /// Allows frames to be requested again.
    pub fn resume_frames(&mut self)
        ensures
            final(self)@ == (crate::events::Memory {
                frames_suppressed: false,
                ..old(self)@
            }),
    {
        self.frames_suppressed = false;
    }

    /// Records what became of a frame: two reasons to skip one mean that no further frame can help
    /// until the window system says otherwise, because nothing is visible or there is no device to
    /// draw with. An undamaged frame is not one of them.
    pub fn drew(&mut self, outcome: FrameOutcome)
        ensures
            final(self)@ == (crate::events::Memory {
                frames_suppressed: outcome == FrameOutcome::Skipped(SkipReason::Occluded)
                    || outcome == FrameOutcome::Skipped(SkipReason::DeviceUnavailable),
                ..old(self)@
            }),
            outcome is Presented || outcome is Recovered ==> !final(self)@.frames_suppressed,
            outcome matches FrameOutcome::Skipped(reason) ==> (final(self)@.frames_suppressed
                <==> reason is Occluded || reason is DeviceUnavailable),
    {
        self.frames_suppressed = match outcome {
            FrameOutcome::Skipped(SkipReason::Occluded) => true,
            FrameOutcome::Skipped(SkipReason::DeviceUnavailable) => true,
            _ => false,
        };
    }

    /// Whether the pointer is over the window, by where it last was.
    pub fn is_hovered(&self) -> (hovered: bool)
        ensures
            hovered == is_at_least_zero(self@.mouse_position.x),
    {
        at_least_zero(self.input.mouse_position.x)
    }
}

/// How a window is shown.
#[derive(Clone, Copy, Debug, PartialEq, Eq, Structural)]
pub enum Shown {
    Windowed,
    Maximized,
    Fullscreen,
}

/// How a window is shown: a window that fills the screen does so whether it is maximised or not.
pub fn window_bounds(fullscreen: bool, maximized: bool) -> (shown: Shown)
    ensures
        fullscreen ==> shown is Fullscreen,
        !fullscreen && maximized ==> shown is Maximized,
        !fullscreen && !maximized ==> shown is Windowed,
{
    if fullscreen {
        Shown::Fullscreen
    } else if maximized {
        Shown::Maximized
    } else {
        Shown::Windowed
    }
}

/// The pointer shapes that are asked for.
#[derive(Clone, Copy, Debug, PartialEq, Eq, Structural)]
pub enum CursorStyle {
    Arrow,
    IBeam,
    Crosshair,
    ClosedHand,
    OpenHand,
    PointingHand,
    ResizeLeft,
    ResizeRight,
    ResizeLeftRight,
    ResizeUp,
    ResizeDown,
    ResizeUpDown,
    ResizeUpLeftDownRight,
    ResizeUpRightDownLeft,
    ResizeColumn,
    ResizeRow,
    IBeamCursorForVerticalLayout,
    OperationNotAllowed,
    DragLink,
    DragCopy,
    ContextualMenu,
}

/// The pointer shapes the window system has.
#[derive(Clone, Copy, Debug, PartialEq, Eq, Structural)]
pub enum CursorIcon {
    Default,
    Text,
    Crosshair,
    Grabbing,
    Grab,
    Pointer,
    WResize,
    EResize,
    EwResize,
    NResize,
    SResize,
    NsResize,
    NwseResize,
    NeswResize,
    ColResize,
    RowResize,
    VerticalText,
    NotAllowed,
    Alias,
    Copy,
    ContextMenu,
}

/// The window system's shape for one that is asked for.
pub open spec fn icon_of(style: CursorStyle) -> CursorIcon {
    match style {
        CursorStyle::Arrow => CursorIcon::Default,
        CursorStyle::IBeam => CursorIcon::Text,
        CursorStyle::Crosshair => CursorIcon::Crosshair,
        CursorStyle::ClosedHand => CursorIcon::Grabbing,
        CursorStyle::OpenHand => CursorIcon::Grab,
        CursorStyle::PointingHand => CursorIcon::Pointer,
        CursorStyle::ResizeLeft => CursorIcon::WResize,
        CursorStyle::ResizeRight => CursorIcon::EResize,
        CursorStyle::ResizeLeftRight => CursorIcon::EwResize,
        CursorStyle::ResizeUp => CursorIcon::NResize,
        CursorStyle::ResizeDown => CursorIcon::SResize,
        CursorStyle::ResizeUpDown => CursorIcon::NsResize,
        CursorStyle::ResizeUpLeftDownRight => CursorIcon::NwseResize,
        CursorStyle::ResizeUpRightDownLeft => CursorIcon::NeswResize,
        CursorStyle::ResizeColumn => CursorIcon::ColResize,
        CursorStyle::ResizeRow => CursorIcon::RowResize,
        CursorStyle::IBeamCursorForVerticalLayout => CursorIcon::VerticalText,
        CursorStyle::OperationNotAllowed => CursorIcon::NotAllowed,
        CursorStyle::DragLink => CursorIcon::Alias,
        CursorStyle::DragCopy => CursorIcon::Copy,
        CursorStyle::ContextualMenu => CursorIcon::ContextMenu,
    }
}

/// The window system's shape for one that is asked for.
pub fn cursor_icon(style: CursorStyle) -> (icon: CursorIcon)
    ensures
        icon == icon_of(style),
{
    match style {
        CursorStyle::Arrow => CursorIcon::Default,
        CursorStyle::IBeam => CursorIcon::Text,
        CursorStyle::Crosshair => CursorIcon::Crosshair,
        CursorStyle::ClosedHand => CursorIcon::Grabbing,
        CursorStyle::OpenHand => CursorIcon::Grab,
        CursorStyle::PointingHand => CursorIcon::Pointer,
        CursorStyle::ResizeLeft => CursorIcon::WResize,
        CursorStyle::ResizeRight => CursorIcon::EResize,
        CursorStyle::ResizeLeftRight => CursorIcon::EwResize,
        CursorStyle::ResizeUp => CursorIcon::NResize,
        CursorStyle::ResizeDown => CursorIcon::SResize,
        CursorStyle::ResizeUpDown => CursorIcon::NsResize,
        CursorStyle::ResizeUpLeftDownRight => CursorIcon::NwseResize,
        CursorStyle::ResizeUpRightDownLeft => CursorIcon::NeswResize,
        CursorStyle::ResizeColumn => CursorIcon::ColResize,
        CursorStyle::ResizeRow => CursorIcon::RowResize,
        CursorStyle::IBeamCursorForVerticalLayout => CursorIcon::VerticalText,
        CursorStyle::OperationNotAllowed => CursorIcon::NotAllowed,
        CursorStyle::DragLink => CursorIcon::Alias,
        CursorStyle::DragCopy => CursorIcon::Copy,
        CursorStyle::ContextualMenu => CursorIcon::ContextMenu,
    }
}

/// No two shapes that are asked for get one shape of the window system's.
pub proof fn law_every_style_has_its_own_icon(one: CursorStyle, two: CursorStyle)
    ensures
        icon_of(one) == icon_of(two) <==> one == two,
{
}

/// What a key press inserts depends on its keystroke and on whether anything consumed it, and on
/// nothing else: whether the key is held, and whether characters are preferred, change nothing. A
/// press that nothing consumed, with no modifier but shift down, inserts exactly what it types.
pub proof fn law_key_presses_insert_what_they_type(
    keystroke: Keystroke<String>,
    is_held: bool,
    prefer_character_input: bool,
    propagated: bool,
)
    ensures
        ({
            let press = PlatformInput::KeyDown { keystroke, is_held, prefer_character_input };
            let down = keystroke.modifiers;
            let chord = down.control || down.alt || down.platform || down.function;
            &&& propagated && !chord ==> match keystroke.key_char {
                Some(text) => inserted(press, propagated) == Some(text@),
                None => inserted(press, propagated) is None,
            }
            &&& !propagated || chord ==> inserted(press, propagated) is None
        }),
{
}

/// Two presses of one keystroke insert one text, held or not.
pub proof fn law_held_keys_insert_like_others(
    keystroke: Keystroke<String>,
    held: (bool, bool),
    prefer: (bool, bool),
    propagated: bool,
)
    ensures
        inserted(
            PlatformInput::KeyDown {
                keystroke,
                is_held: held.0,
                prefer_character_input: prefer.0,
            },
            propagated,
        ) == inserted(
            PlatformInput::KeyDown {
                keystroke,
                is_held: held.1,
                prefer_character_input: prefer.1,
            },
            propagated,
        ),
{
}

/// Nothing but a key press inserts text: not a release, and not the pointer.
pub proof fn law_only_key_presses_insert(event: PlatformInput<String>, propagated: bool)
    ensures
        inserted(event, propagated) is Some ==> event is KeyDown && propagated,
{
}

/// The shape that is asked for where the window system has one.
pub open spec fn style_of(icon: CursorIcon) -> CursorStyle {
    match icon {
        CursorIcon::Default => CursorStyle::Arrow,
        CursorIcon::Text => CursorStyle::IBeam,
        CursorIcon::Crosshair => CursorStyle::Crosshair,
        CursorIcon::Grabbing => CursorStyle::ClosedHand,
        CursorIcon::Grab => CursorStyle::OpenHand,
        CursorIcon::Pointer => CursorStyle::PointingHand,
        CursorIcon::WResize => CursorStyle::ResizeLeft,
        CursorIcon::EResize => CursorStyle::ResizeRight,
        CursorIcon::EwResize => CursorStyle::ResizeLeftRight,
        CursorIcon::NResize => CursorStyle::ResizeUp,
        CursorIcon::SResize => CursorStyle::ResizeDown,
        CursorIcon::NsResize => CursorStyle::ResizeUpDown,
        CursorIcon::NwseResize => CursorStyle::ResizeUpLeftDownRight,
        CursorIcon::NeswResize => CursorStyle::ResizeUpRightDownLeft,
        CursorIcon::ColResize => CursorStyle::ResizeColumn,
        CursorIcon::RowResize => CursorStyle::ResizeRow,
        CursorIcon::VerticalText => CursorStyle::IBeamCursorForVerticalLayout,
        CursorIcon::NotAllowed => CursorStyle::OperationNotAllowed,
        CursorIcon::Alias => CursorStyle::DragLink,
        CursorIcon::Copy => CursorStyle::DragCopy,
        CursorIcon::ContextMenu => CursorStyle::ContextualMenu,
    }
}

/// The window system's shapes and those that are asked for stand one for one: each comes back from
/// the other.
pub proof fn law_icons_and_styles_pair_up(style: CursorStyle, icon: CursorIcon)
    ensures
        style_of(icon_of(style)) == style,
        icon_of(style_of(icon)) == icon,
{
}

} // verus!
