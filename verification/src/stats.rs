//! Per-frame measurements, for answering whether redrawing only what changed is worth it.
//!
//! Times are whole nanoseconds. A summary is due every so many drawn frames, and once more when
//! the renderer goes away.

use std::time::Instant;

use vstd::prelude::*;
use vstd::string::StringExecFns;

use crate::text::decimal;
use crate::text::to_decimal;

verus! {

/// How many drawn frames between reports.
pub const REPORT_EVERY: u32 = 30;

/// The longest time a clock reports, in nanoseconds.
pub const LONGEST: u128 = 18_446_744_073_709_551_615_999_999_999;

/// A moment on the monotonic clock.
#[verifier::external_type_specification]
#[verifier::external_body]
pub struct ExInstant(std::time::Instant);

/// Calls `std::time::Instant::now`. Nothing is said of the moment.
#[verifier::external_body]
fn instant_now() -> Instant {
    Instant::now()
}

/// Calls `std::time::Instant::elapsed` and gives the duration in nanoseconds: at most the longest
/// duration there is. How much time passed is not said.
#[verifier::external_body]
fn elapsed(at: &Instant) -> (nanos: u128)
    ensures
        nanos <= LONGEST,
{
    at.elapsed().as_nanos()
}

/// What one frame cost, and how much of the surface it touched.
#[derive(Clone, Copy, Debug, PartialEq, Eq, Structural)]
pub struct Frame {
    /// Deriving damage by comparing against the previous frame.
    pub compare: u128,
    /// Rewriting the scene as a display list.
    pub translate: u128,
    /// Sorting into batches and planning passes.
    pub finish: u128,
    /// Encoding and submitting.
    pub submit: u128,
    /// Pixels the renderer was asked to redraw.
    pub damaged: u64,
    /// Pixels the surface holds.
    pub surface: u64,
    /// Primitives the scene held.
    pub primitives: usize,
}

impl Default for Frame {
    fn default() -> (frame: Frame)
        ensures
            frame == (Frame {
                compare: 0,
                translate: 0,
                finish: 0,
                submit: 0,
                damaged: 0,
                surface: 0,
                primitives: 0,
            }),
    {
        Frame {
            compare: 0,
            translate: 0,
            finish: 0,
            submit: 0,
            damaged: 0,
            surface: 0,
            primitives: 0,
        }
    }
}

impl Frame {
    /// Everything spent on the frame.
    pub open spec fn spec_total(self) -> int {
        self.compare + self.translate + self.finish + self.submit
    }

    /// Everything spent on the frame.
    pub fn total(&self) -> (nanos: u128)
        requires
            self.spec_total() <= LONGEST,
        ensures
            nanos == self.spec_total(),
    {
        self.compare + self.translate + self.finish + self.submit
    }

    /// A one-line description of the frame, given the redrawn share in percent and the time spent
    /// in milliseconds, each written out.
    pub fn line(&self, redrawn: &str, millis: &str) -> (text: String)
        ensures
            text@ == "frame: "@ + decimal(self.primitives as nat) + " prims, "@ + redrawn@
                + "% redrawn, "@ + millis@ + "ms"@,
    {
        let mut text = String::from_str("frame: ");
        text.append(to_decimal(self.primitives as u64).as_str());
        text.append(" prims, ");
        text.append(redrawn);
        text.append("% redrawn, ");
        text.append(millis);
        text.append("ms");
        text
    }
}

/// Running totals over a session.
pub struct Stats {
    enabled: bool,
    frames: u32,
    /// Frames that were skipped before being translated, because nothing had changed.
    skipped: u32,
    since_report: u32,
    compare: u128,
    translate: u128,
    finish: u128,
    submit: u128,
    damaged: u64,
    surface: u64,
    primitives: u64,
    /// Frames the comparison gave up on and redrew whole.
    full: u32,
    started: Option<Instant>,
}

/// The totals, apart from when they were started.
pub struct Totals {
    pub enabled: bool,
    pub frames: int,
    pub skipped: int,
    pub since_report: int,
    pub compare: int,
    pub translate: int,
    pub finish: int,
    pub submit: int,
    pub damaged: int,
    pub surface: int,
    pub primitives: int,
    pub full: int,
}

/// What a report says.
#[derive(Clone, Copy, Debug, PartialEq, Eq, Structural)]
pub struct Summary {
    /// Frames drawn or skipped.
    pub considered: u32,
    pub drawn: u32,
    pub skipped: u32,
    /// Frames redrawn whole.
    pub full: u32,
    /// Pixels redrawn over all drawn frames.
    pub damaged: u64,
    /// Pixels of the surface over all drawn frames.
    pub surface: u64,
    pub primitives_per_frame: u64,
    pub compare: u128,
    pub translate: u128,
    pub finish: u128,
    pub submit: u128,
    /// Time since the first frame.
    pub elapsed: u128,
}

impl Totals {
    /// The totals with one drawn frame added.
    pub open spec fn with(self, frame: Frame, was_full: bool) -> Totals {
        Totals {
            enabled: self.enabled,
            frames: self.frames + 1,
            skipped: self.skipped,
            since_report: if self.since_report + 1 >= REPORT_EVERY {
                0
            } else {
                self.since_report + 1
            },
            compare: self.compare + frame.compare,
            translate: self.translate + frame.translate,
            finish: self.finish + frame.finish,
            submit: self.submit + frame.submit,
            damaged: self.damaged + frame.damaged,
            surface: self.surface + frame.surface,
            primitives: self.primitives + frame.primitives,
            full: self.full + if was_full {
                1int
            } else {
                0int
            },
        }
    }

    /// The totals with one skipped frame added.
    pub open spec fn with_skipped(self) -> Totals {
        Totals { skipped: self.skipped + 1, ..self }
    }

    /// Whether every total is within its range.
    pub open spec fn in_range(self) -> bool {
        &&& 0 <= self.frames
        &&& 0 <= self.skipped
        &&& self.frames + self.skipped <= u32::MAX
        &&& 0 <= self.full <= self.frames
        &&& 0 <= self.compare
        &&& 0 <= self.translate
        &&& 0 <= self.finish
        &&& 0 <= self.submit
        &&& self.compare + self.translate + self.finish + self.submit <= LONGEST
        &&& 0 <= self.damaged <= u64::MAX
        &&& 0 <= self.surface <= u64::MAX
        &&& 0 <= self.primitives <= u64::MAX
    }

    /// Whether `summary` reports these totals.
    pub open spec fn reported_by(self, summary: Summary) -> bool {
        &&& summary.considered == self.frames + self.skipped
        &&& summary.drawn == self.frames
        &&& summary.skipped == self.skipped
        &&& summary.full == self.full
        &&& summary.damaged == self.damaged
        &&& summary.surface == self.surface
        &&& summary.primitives_per_frame == self.primitives / if self.frames > 0 {
            self.frames
        } else {
            1
        }
        &&& summary.compare == self.compare
        &&& summary.translate == self.translate
        &&& summary.finish == self.finish
        &&& summary.submit == self.submit
        &&& summary.elapsed <= LONGEST
    }
}

impl View for Stats {
    type V = Totals;

    closed spec fn view(&self) -> Totals {
        Totals {
            enabled: self.enabled,
            frames: self.frames as int,
            skipped: self.skipped as int,
            since_report: self.since_report as int,
            compare: self.compare as int,
            translate: self.translate as int,
            finish: self.finish as int,
            submit: self.submit as int,
            damaged: self.damaged as int,
            surface: self.surface as int,
            primitives: self.primitives as int,
            full: self.full as int,
        }
    }
}

/// Whether the clock runs in `after`, and from the moment it was started at where it ran before.
pub open spec fn keeps_start(before: Option<Instant>, after: Option<Instant>) -> bool {
    &&& after is Some
    &&& before is Some ==> after == before
}

impl Stats {
    /// When the clock was started, which the first frame does.
    pub closed spec fn started(self) -> Option<Instant> {
        self.started
    }

    /// Whether every total is within its range and fewer frames were drawn since the last report
    /// than make one due.
    pub open spec fn wf(self) -> bool {
        &&& self@.in_range()
        &&& 0 <= self@.since_report < REPORT_EVERY
    }

    /// Totals of nothing yet.
    pub fn new(enabled: bool) -> (stats: Stats)
        ensures
            stats.wf(),
            stats.started() is None,
            stats@ == (Totals {
                enabled,
                frames: 0,
                skipped: 0,
                since_report: 0,
                compare: 0,
                translate: 0,
                finish: 0,
                submit: 0,
                damaged: 0,
                surface: 0,
                primitives: 0,
                full: 0,
            }),
    {
        Stats {
            enabled,
            frames: 0,
            skipped: 0,
            since_report: 0,
            compare: 0,
            translate: 0,
            finish: 0,
            submit: 0,
            damaged: 0,
            surface: 0,
            primitives: 0,
            full: 0,
            started: None,
        }
    }

    /// Whether measurements are being collected at all.
    pub fn enabled(&self) -> (enabled: bool)
        ensures
            enabled == self@.enabled,
    {
        self.enabled
    }

    fn start(&mut self)
        ensures
            final(self)@ == old(self)@,
            keeps_start(old(self).started(), final(self).started()),
    {
        if self.started.is_none() {
            self.started = Some(instant_now());
        }
    }

    /// Records a frame that was skipped because nothing had changed.
    pub fn skipped(&mut self)
        requires
            old(self).wf(),
            old(self)@.enabled ==> old(self)@.frames + old(self)@.skipped < u32::MAX,
        ensures
            final(self).wf(),
            !old(self)@.enabled ==> *final(self) == *old(self),
            old(self)@.enabled ==> keeps_start(old(self).started(), final(self).started())
                && final(self)@ == old(self)@.with_skipped(),
    {
        if !self.enabled {
            return ;
        }
        self.start();
        self.skipped = self.skipped + 1;
    }

    /// Whether a drawn frame can be added to the totals without one of them leaving its range.
    pub fn has_room(&self, frame: &Frame, was_full: bool) -> (room: bool)
        requires
            self.wf(),
        ensures
            room == (self@.enabled ==> self@.with(*frame, was_full).in_range()),
    {
        if !self.enabled {
            return true;
        }
        let spent: Option<u128> = match frame.compare.checked_add(frame.translate) {
            Some(some) => match some.checked_add(frame.finish) {
                Some(more) => more.checked_add(frame.submit),
                None => None,
            },
            None => None,
        };
        let before: u128 = self.compare + self.translate + self.finish + self.submit;
        let in_time = match spent {
            Some(spent) => spent <= LONGEST && before + spent <= LONGEST,
            None => false,
        };
        in_time && self.frames + self.skipped < u32::MAX && frame.damaged <= u64::MAX
            - self.damaged && frame.surface <= u64::MAX - self.surface && frame.primitives as u64
            <= u64::MAX - self.primitives
    }

    /// Records a frame that was drawn, and gives the report where one is now due.
    pub fn drawn(&mut self, frame: Frame, was_full: bool) -> (due: Option<Summary>)
        requires
            old(self).wf(),
            old(self)@.enabled ==> old(self)@.with(frame, was_full).in_range(),
        ensures
            final(self).wf(),
            !old(self)@.enabled ==> *final(self) == *old(self) && due is None,
            old(self)@.enabled ==> {
                &&& keeps_start(old(self).started(), final(self).started())
                &&& final(self)@ == old(self)@.with(frame, was_full)
                &&& due is Some <==> old(self)@.since_report + 1 == REPORT_EVERY
                &&& due matches Some(summary) ==> final(self)@.reported_by(summary)
            },
    {
        if !self.enabled {
            return None;
        }
        self.start();
        self.frames = self.frames + 1;
        self.compare = self.compare + frame.compare;
        self.translate = self.translate + frame.translate;
        self.finish = self.finish + frame.finish;
        self.submit = self.submit + frame.submit;
        self.damaged = self.damaged + frame.damaged;
        self.surface = self.surface + frame.surface;
        self.primitives = self.primitives + frame.primitives as u64;
        if was_full {
            self.full = self.full + 1;
        }
        self.tick()
    }

    /// Counts a drawn frame towards the next report, and gives the report where it is now due.
    fn tick(&mut self) -> (due: Option<Summary>)
        requires
            old(self)@.in_range(),
            old(self)@.enabled,
            old(self)@.frames > 0,
            0 <= old(self)@.since_report < REPORT_EVERY,
        ensures
            final(self)@ == (Totals {
                since_report: if old(self)@.since_report + 1 >= REPORT_EVERY {
                    0
                } else {
                    old(self)@.since_report + 1
                },
                ..old(self)@
            }),
            final(self).started() == old(self).started(),
            due is Some <==> old(self)@.since_report + 1 == REPORT_EVERY,
            due matches Some(summary) ==> final(self)@.reported_by(summary),
    {
        self.since_report = self.since_report + 1;
        if self.since_report >= REPORT_EVERY {
            let due = self.report();
            self.since_report = 0;
            due
        } else {
            None
        }
    }

    /// What has been measured so far, where anything has.
    pub fn report(&self) -> (summary: Option<Summary>)
        requires
            self@.in_range(),
        ensures
            summary is Some <==> self@.enabled && (self@.frames > 0 || self@.skipped > 0),
            summary matches Some(summary) ==> {
                &&& self@.reported_by(summary)
                &&& self.started() is None ==> summary.elapsed == 0
            },
    {
        if !self.enabled || (self.frames == 0 && self.skipped == 0) {
            return None;
        }
        let elapsed: u128 = match &self.started {
            Some(at) => elapsed(at),
            None => 0,
        };
        let frames: u64 = if self.frames > 0 {
            self.frames as u64
        } else {
            1
        };
        Some(
            Summary {
                considered: self.frames + self.skipped,
                drawn: self.frames,
                skipped: self.skipped,
                full: self.full,
                damaged: self.damaged,
                surface: self.surface,
                primitives_per_frame: self.primitives / frames,
                compare: self.compare,
                translate: self.translate,
                finish: self.finish,
                submit: self.submit,
                elapsed,
            },
        )
    }
}

/// Adds a measured time to a running total.
pub fn add_elapsed(into: &mut u128, nanos: u128)
    requires
        *old(into) <= LONGEST,
        nanos <= LONGEST,
    ensures
        *final(into) == *old(into) + nanos,
{
    *into = *into + nanos;
}

/// Times `f`, but only when measuring is on.
///
/// The time it took is added to `into`; how much that is depends on the clock.
pub fn time<R, F: FnOnce() -> R>(enabled: bool, into: &mut u128, f: F) -> (result: R)
    requires
        f.requires(()),
        *old(into) <= LONGEST,
    ensures
        f.ensures((), result),
        !enabled ==> *final(into) == *old(into),
        *old(into) <= *final(into) <= *old(into) + LONGEST,
{
    if !enabled {
        return f();
    }
    let at = instant_now();
    let result = f();
    add_elapsed(into, elapsed(&at));
    result
}

/// Skipping frames brings no report nearer: whatever was skipped in between, a report is due at
/// every thirtieth drawn frame.
pub proof fn law_reports_count_drawn_frames(totals: Totals, frame: Frame, was_full: bool, more: int)
    requires
        0 <= totals.since_report < REPORT_EVERY,
    ensures
        (Totals { skipped: totals.skipped + more, ..totals }).with(frame, was_full).since_report
            == totals.with(frame, was_full).since_report,
        totals.with(frame, was_full).since_report == (totals.since_report + 1) % (
        REPORT_EVERY as int),
{
}

/// What became of a frame: it was drawn, or skipped because nothing had changed.
pub enum Considered {
    Drawn { frame: Frame, was_full: bool },
    Skipped,
}

/// The totals after some frames, in order.
pub open spec fn totals_after(start: Totals, frames: Seq<Considered>) -> Totals
    decreases frames.len(),
{
    if frames.len() == 0 {
        start
    } else {
        let before = totals_after(start, frames.drop_last());
        match frames.last() {
            Considered::Drawn { frame, was_full } => before.with(frame, was_full),
            Considered::Skipped => before.with_skipped(),
        }
    }
}

/// How many frames were drawn.
pub open spec fn count_drawn(frames: Seq<Considered>) -> nat
    decreases frames.len(),
{
    if frames.len() == 0 {
        0
    } else {
        count_drawn(frames.drop_last()) + if frames.last() is Drawn {
            1nat
        } else {
            0nat
        }
    }
}

/// How many frames were redrawn whole.
pub open spec fn count_full(frames: Seq<Considered>) -> nat
    decreases frames.len(),
{
    if frames.len() == 0 {
        0
    } else {
        count_full(frames.drop_last()) + if frames.last() is Drawn && frames.last()->was_full {
            1nat
        } else {
            0nat
        }
    }
}

/// The totals count what happened, whatever the order: so many frames drawn, so many skipped, so
/// many redrawn whole, and as many drawn since the last report as are past a multiple of thirty.
pub proof fn law_totals_count_the_frames(start: Totals, frames: Seq<Considered>)
    requires
        start.frames == 0,
        start.skipped == 0,
        start.full == 0,
        start.since_report == 0,
    ensures
        ({
            let after = totals_after(start, frames);
            &&& after.enabled == start.enabled
            &&& after.frames == count_drawn(frames)
            &&& after.skipped == frames.len() - count_drawn(frames)
            &&& after.full == count_full(frames)
            &&& after.full <= after.frames
            &&& after.since_report == after.frames % (REPORT_EVERY as int)
        }),
    decreases frames.len(),
{
    if frames.len() > 0 {
        law_totals_count_the_frames(start, frames.drop_last());
    }
}

/// Once the clock is started, its start is never replaced: after any number of frames it is the
/// moment that the first of them set.
pub proof fn law_start_is_never_replaced(starts: Seq<Option<Instant>>, upto: int)
    requires
        forall|i: int|
            0 <= i < starts.len() - 1 ==> keeps_start(#[trigger] starts[i], starts[i + 1]),
        1 <= upto < starts.len(),
    ensures
        starts[1] is Some,
        starts[upto] == starts[1],
        starts[0] is Some ==> starts[upto] == starts[0],
    decreases upto,
{
    assert(keeps_start(starts[0], starts[1]));
    if upto > 1 {
        law_start_is_never_replaced(starts, upto - 1);
        assert(keeps_start(starts[upto - 1], starts[upto]));
    }
}

/// What the drawn frames among some hold between them.
pub open spec fn sum_over(frames: Seq<Considered>, of: spec_fn(Frame) -> int) -> int
    decreases frames.len(),
{
    if frames.len() == 0 {
        0
    } else {
        sum_over(frames.drop_last(), of) + match frames.last() {
            Considered::Drawn { frame, .. } => of(frame),
            Considered::Skipped => 0,
        }
    }
}

/// Every total is the sum over the drawn frames of what it totals, each of its own, and skipped
/// frames add nothing.
pub proof fn law_totals_add_up(start: Totals, frames: Seq<Considered>)
    ensures
        ({
            let after = totals_after(start, frames);
            &&& after.compare == start.compare + sum_over(frames, |f: Frame| f.compare as int)
            &&& after.translate == start.translate + sum_over(
                frames,
                |f: Frame| f.translate as int,
            )
            &&& after.finish == start.finish + sum_over(frames, |f: Frame| f.finish as int)
            &&& after.submit == start.submit + sum_over(frames, |f: Frame| f.submit as int)
            &&& after.damaged == start.damaged + sum_over(frames, |f: Frame| f.damaged as int)
            &&& after.surface == start.surface + sum_over(frames, |f: Frame| f.surface as int)
            &&& after.primitives == start.primitives + sum_over(
                frames,
                |f: Frame| f.primitives as int,
            )
        }),
    decreases frames.len(),
{
    if frames.len() > 0 {
        law_totals_add_up(start, frames.drop_last());
    }
}

/// A report says what was totalled: every frame considered was drawn or skipped, no more were
/// redrawn whole than were drawn, and the primitives to a frame are the whole part of the mean over
/// the drawn frames.
pub proof fn law_reports_say_what_was_totalled(totals: Totals, summary: Summary)
    requires
        totals.in_range(),
        totals.reported_by(summary),
    ensures
        summary.considered == summary.drawn + summary.skipped,
        summary.full <= summary.drawn,
        summary.drawn == totals.frames && summary.skipped == totals.skipped,
        summary.full == totals.full,
        summary.damaged == totals.damaged && summary.surface == totals.surface,
        summary.compare == totals.compare && summary.translate == totals.translate,
        summary.finish == totals.finish && summary.submit == totals.submit,
        summary.drawn > 0 ==> summary.primitives_per_frame * summary.drawn <= totals.primitives
            < (summary.primitives_per_frame + 1) * summary.drawn,
        summary.drawn == 0 ==> summary.primitives_per_frame == totals.primitives,
{
    if totals.frames > 0 {
        let (p, n, q) = (totals.primitives, totals.frames, summary.primitives_per_frame as int);
        assert(q * n <= p < (q + 1) * n) by (nonlinear_arith)
            requires
                n > 0,
                p >= 0,
                q == p / n,
        ;
    }
}

/// What was spent on a frame is spent on one of its four parts: more of any one is as much more in
/// all.
pub proof fn law_time_is_spent_in_four_parts(frame: Frame, other: Frame)
    ensures
        frame.spec_total() - other.spec_total() == (frame.compare - other.compare) + (
        frame.translate - other.translate) + (frame.finish - other.finish) + (frame.submit
            - other.submit),
        frame.compare == 0 && frame.translate == 0 && frame.finish == 0 && frame.submit == 0
            ==> frame.spec_total() == 0,
{
}

/// A thirtieth drawn frame makes a report due, and the frames before it do not.
pub proof fn law_thirty_frames_make_a_report(totals: Totals, frame: Frame, was_full: bool)
    requires
        0 <= totals.since_report < 30,
    ensures
        REPORT_EVERY == 30,
        totals.with(frame, was_full).since_report == 0 <==> totals.since_report == 29,
        totals.since_report < 29 ==> totals.with(frame, was_full).since_report
            == totals.since_report + 1,
        totals.with_skipped().since_report == totals.since_report,
        totals.with(frame, was_full).full == totals.full <==> !was_full,
{
}

/// Totals are in range as long as each can be held: so many frames, no more of them whole than
/// drawn, no longer a time in all than a clock reports, and as many pixels and primitives as a
/// number holds.
pub proof fn law_totals_have_room(totals: Totals)
    ensures
        totals.in_range() <==> {
            &&& totals.frames >= 0 && totals.skipped >= 0
            &&& totals.frames + totals.skipped <= 0xffff_ffff
            &&& 0 <= totals.full && totals.full <= totals.frames
            &&& totals.compare >= 0 && totals.translate >= 0
            &&& totals.finish >= 0 && totals.submit >= 0
            &&& totals.compare + totals.translate + totals.finish + totals.submit
                < 0x1_0000_0000_0000_0000 * 1_000_000_000
            &&& 0 <= totals.damaged < 0x1_0000_0000_0000_0000
            &&& 0 <= totals.surface < 0x1_0000_0000_0000_0000
            &&& 0 <= totals.primitives < 0x1_0000_0000_0000_0000
        },
{
}

} // verus!
