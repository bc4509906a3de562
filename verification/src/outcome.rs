//! What became of a frame.

use vstd::prelude::*;

verus! {

/// Why a frame did not reach the screen.
#[derive(Clone, Copy, Debug, PartialEq, Eq, Structural)]
pub enum SkipReason {
    Unconfigured,
    Timeout,
    Unacquired,
    Occluded,
    Outdated,
    Validation,
    DeviceUnavailable,
    Undamaged,
}

/// What drawing a frame did.
#[derive(Clone, Copy, Debug, PartialEq, Eq, Structural)]
pub enum FrameOutcome {
    /// The frame reached the screen, having redrawn so many pixels.
    Presented { damage_px: u64 },
    Skipped(SkipReason),
    /// The device was lost and has been rebuilt.
    Recovered,
}

/// Whether a frame's work was submitted: all but three reasons to skip one come after that.
pub open spec fn submitted(outcome: FrameOutcome) -> bool {
    &&& outcome != FrameOutcome::Skipped(SkipReason::Unconfigured)
    &&& outcome != FrameOutcome::Skipped(SkipReason::Unacquired)
    &&& outcome != FrameOutcome::Skipped(SkipReason::DeviceUnavailable)
}

/// Calls `zgui_render::FrameOutcome::retires_damage` for a frame that was skipped: whether its
/// work was submitted all the same.
#[verifier::external_body]
fn skip_retires(reason: SkipReason) -> (retired: bool)
    ensures
        retired == submitted(FrameOutcome::Skipped(reason)),
{
    let reason = match reason {
        SkipReason::Unconfigured => zgui_render::SkipReason::Unconfigured,
        SkipReason::Timeout => zgui_render::SkipReason::Timeout,
        SkipReason::Unacquired => zgui_render::SkipReason::Unacquired,
        SkipReason::Occluded => zgui_render::SkipReason::Occluded,
        SkipReason::Outdated => zgui_render::SkipReason::Outdated,
        SkipReason::Validation => zgui_render::SkipReason::Validation,
        SkipReason::DeviceUnavailable => zgui_render::SkipReason::DeviceUnavailable,
        SkipReason::Undamaged => zgui_render::SkipReason::Undamaged,
    };
    zgui_render::FrameOutcome::Skipped(reason).retires_damage()
}

/// Whether a frame's damage need not be redrawn, because its work was submitted.
///
/// A frame that composed everything and then failed to reach the screen has still done the work.
pub fn retires_damage(outcome: FrameOutcome) -> (retired: bool)
    ensures
        retired == submitted(outcome),
{
    match outcome {
        FrameOutcome::Presented { damage_px: _ } => true,
        FrameOutcome::Skipped(reason) => skip_retires(reason),
        FrameOutcome::Recovered => true,
    }
}

/// A frame that reached the screen, or on which the device was rebuilt, was submitted. Of the
/// reasons to skip one, exactly three come before its work is handed over: there is no surface to
/// draw to, it could not be acquired, or there is no device.
pub proof fn law_only_three_reasons_keep_damage(outcome: FrameOutcome)
    ensures
        outcome is Presented || outcome is Recovered ==> submitted(outcome),
        outcome matches FrameOutcome::Skipped(reason) ==> (!submitted(outcome) <==> reason
            is Unconfigured || reason is Unacquired || reason is DeviceUnavailable),
{
}

} // verus!
