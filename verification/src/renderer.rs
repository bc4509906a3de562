//! What drawing a frame decides: whether anything is drawn, what its damage is, which textures its
//! surfaces are known by, and what is reported.

use std::collections::HashMap;

use rustc_hash::FxBuildHasher;
use vstd::prelude::*;
use vstd::string::StringExecFns;
use zgui_bits::DamageSet;

use crate::bits::equal;
use crate::bits::same_number;
use crate::damage::confined;
use crate::damage::frame_damage;
use crate::damage::reachable;
use crate::damage::sufficient;
use crate::damage::total_area;
use crate::damage::Damage;
use crate::damage_laws::told_apart;
use crate::fx::fx_get;
use crate::fx::fx_insert;
use crate::fx::fx_map;
use crate::geom::Rect;
use crate::input::text_view;
use crate::outcome::retires_damage;
use crate::outcome::submitted;
use crate::outcome::FrameOutcome;
use crate::paint_laws::law_changed_paths_are_redrawn;
use crate::paint_laws::same_path;
use crate::pool::AtlasLimits;
use crate::region::damage_for_frame;
use crate::region::damage_whole;
use crate::region::is_empty;
use crate::region::is_full;
use crate::region::rects;
use crate::region::region;
use crate::region::Region;
use crate::snapshot::shown_on;
use crate::snapshot::snapshot_of;
use crate::snapshot::Painting;
use crate::stats::keeps_start;
use crate::stats::Frame;
use crate::stats::Stats;
use crate::stats::Summary;
use crate::stats::Totals;
use crate::translate::Unsupported;

verus! {

/// How much atlas memory to hold before cold rasters are released.
pub const ATLAS_SOFT_BYTES: u64 = 67108864;

/// What is drawn into.
#[derive(Clone, Copy, Debug, PartialEq, Eq, Structural)]
pub struct RenderTarget {
    pub width: i32,
    pub height: i32,
    /// Float bits.
    pub scale: u32,
    pub opaque: bool,
}

impl RenderTarget {
    /// Whether the two are the same target, the scale taken as a number.
    pub open spec fn same(self, other: RenderTarget) -> bool {
        &&& self.width == other.width
        &&& self.height == other.height
        &&& same_number(self.scale, other.scale)
        &&& self.opaque == other.opaque
    }

    /// The whole of the target.
    pub open spec fn surface(self) -> Rect {
        Rect { x: 0, y: 0, width: self.width, height: self.height }
    }
}

/// Whether redrawing only what changed is on, given the setting: on by default.
pub open spec fn incremental_by(setting: Option<Seq<char>>) -> bool {
    match setting {
        Some(value) => value != "0"@ && value != "off"@ && value != "false"@,
        None => true,
    }
}

/// Whether redrawing only what changed is on, given the value of the setting where it has one.
pub fn incremental_enabled(setting: Option<String>) -> (enabled: bool)
    ensures
        enabled == incremental_by(text_view(setting)),
{
    match setting {
        Some(value) => value != String::from_str("0") && value != String::from_str("off") && value
            != String::from_str("false"),
        None => true,
    }
}

/// Whether measuring is on, given the value of the setting where it has one.
pub fn stats_enabled(setting: Option<String>) -> (enabled: bool)
    ensures
        enabled == (text_view(setting) == Some("1"@)),
{
    match setting {
        Some(value) => value == String::from_str("1"),
        None => false,
    }
}

/// Calls `zgui_atlas::AtlasLimits::default`: textures of 1024 texels a side and at most 4096,
/// sixteen to a pool, and no soft limit.
#[verifier::external_body]
fn default_limits() -> (limits: AtlasLimits)
    ensures
        limits == (AtlasLimits {
            texture_size: 1024,
            max_texture_size: 4096,
            max_textures_per_pool: 16,
            soft_bytes: None,
        }),
{
    let limits = zgui_atlas::AtlasLimits::default();
    AtlasLimits {
        texture_size: limits.texture_size,
        max_texture_size: limits.max_texture_size,
        max_textures_per_pool: limits.max_textures_per_pool,
        soft_bytes: limits.soft_bytes,
    }
}

/// The atlas limits on a device whose textures are at most so long a side: cold rasters are
/// released above the soft limit, where a long-lived window would otherwise keep every one.
pub fn atlas_limits(max_texture_size: i32) -> (limits: AtlasLimits)
    ensures
        limits == (AtlasLimits {
            texture_size: 1024,
            max_texture_size,
            max_textures_per_pool: 16,
            soft_bytes: Some(ATLAS_SOFT_BYTES),
        }),
{
    let mut limits = default_limits();
    limits.max_texture_size = max_texture_size;
    limits.soft_bytes = Some(ATLAS_SOFT_BYTES);
    limits
}

/// How a frame starts.
pub enum DrawStart {
    /// Nothing changed, so nothing is drawn.
    Skip,
    /// Draw what the damage holds.
    Draw(DamageSet),
}

/// What a renderer remembers between frames.
pub struct ZguiRenderer {
    target: RenderTarget,
    damage: Damage,
    stats: Stats,
    /// Whether damage-based redraw is on. Off redraws the whole surface every frame.
    incremental: bool,
    /// The handle the surface at each place of the scene was registered under.
    externals: HashMap<u64, u64, FxBuildHasher>,
    /// The last external handle given. Never reused.
    last_external: u64,
    /// What the last frame could not express, so that it is reported when it changes.
    reported: Unsupported,
}

/// Handles given to the first so many surfaces, of which those that are `present` have a texture.
pub open spec fn surface_handles(
    held: Map<u64, u64>,
    last: int,
    present: Seq<bool>,
    upto: nat,
) -> (Map<u64, u64>, int, Seq<Option<u64>>)
    decreases upto,
{
    if upto == 0 {
        (held, last, Seq::empty())
    } else {
        let at = (upto - 1) as u64;
        let (held, last, given) = surface_handles(held, last, present, (upto - 1) as nat);
        if !present[upto - 1] {
            (held, last, given.push(None))
        } else if held.dom().contains(at) {
            (held, last, given.push(Some(held[at])))
        } else {
            (held.insert(at, (last + 1) as u64), last + 1, given.push(Some((last + 1) as u64)))
        }
    }
}

impl ZguiRenderer {
    /// What frames are drawn into.
    pub closed spec fn target(self) -> RenderTarget {
        self.target
    }

    /// The comparison with the frame before.
    pub closed spec fn damage(self) -> Damage {
        self.damage
    }

    /// The totals over the frames drawn.
    pub closed spec fn stats(self) -> Stats {
        self.stats
    }

    /// Whether only what changed is redrawn.
    pub closed spec fn incremental(self) -> bool {
        self.incremental
    }

    /// The handle each surface's texture was given.
    pub closed spec fn externals(self) -> Map<u64, u64> {
        self.externals@
    }

    /// The handle that was given out last.
    pub closed spec fn last_external(self) -> u64 {
        self.last_external
    }

    /// What was reported last as not drawn.
    pub closed spec fn reported(self) -> Unsupported {
        self.reported
    }

    /// Whether the comparison and the totals are fit for the next frame, and no two surfaces share
    /// a handle.
    pub open spec fn wf(self) -> bool {
        &&& self.damage().wf()
        &&& self.stats().wf()
        &&& handles_ok(self.externals(), self.last_external() as int)
    }

    /// A renderer that has drawn nothing yet.
    pub fn new(target: RenderTarget, incremental: bool, measuring: bool) -> (renderer: ZguiRenderer)
        ensures
            renderer.wf(),
            renderer.target() == target,
            renderer.incremental() == incremental,
            renderer.stats()@.enabled == measuring,
            renderer.stats().started() is None,
            renderer.damage().previous() is None,
            renderer.damage().pending() == Region::none(),
            !renderer.damage().forced(),
            (renderer.externals() == Map::<u64, u64>::empty()),
            renderer.last_external() == 0,
            renderer.reported() == (Unsupported { paths: 0, foreign_surfaces: 0, patterns: 0 }),
    {
        ZguiRenderer {
            target,
            damage: Damage::new(),
            stats: Stats::new(measuring),
            incremental,
            externals: fx_map(),
            last_external: 0,
            reported: Unsupported::default(),
        }
    }

    /// Whether only what changed is redrawn.
    pub fn is_incremental(&self) -> (incremental: bool)
        ensures
            incremental == self.incremental(),
    {
        self.incremental
    }

    /// Whether frames are measured.
    pub fn is_measuring(&self) -> (measuring: bool)
        ensures
            measuring == self.stats()@.enabled,
    {
        self.stats.enabled()
    }

    /// What has been measured so far, where anything has.
    pub fn summary(&self) -> (summary: Option<Summary>)
        requires
            self.wf(),
        ensures
            summary is Some <==> self.stats()@.enabled && (self.stats()@.frames > 0
                || self.stats()@.skipped > 0),
            summary matches Some(summary) ==> self.stats()@.reported_by(summary),
    {
        self.stats.report()
    }

    /// Turns damage-based redraw on or off. Either way the next frame redraws everything, because
    /// the target's contents are only to be trusted for frames that were drawn incrementally.
    pub fn set_incremental(&mut self, incremental: bool)
        requires
            old(self).wf(),
        ensures
            final(self).wf(),
            final(self).incremental() == incremental,
            final(self).damage().forced(),
            final(self).damage().previous() == old(self).damage().previous(),
            final(self).damage().pending() == old(self).damage().pending(),
            final(self).target() == old(self).target(),
            final(self).stats() == old(self).stats(),
            final(self).externals() == old(self).externals(),
            final(self).last_external() == old(self).last_external(),
            final(self).reported() == old(self).reported(),
    {
        self.incremental = incremental;
        self.damage.invalidate();
    }

    /// Takes a new surface size and scale, and says whether the surface is to be reconfigured,
    /// which discards what was composed and forces one full redraw.
    pub fn resize(&mut self, width: i32, height: i32, scale: u32) -> (reconfigure: bool)
        requires
            old(self).wf(),
        ensures
            final(self).wf(),
            ({
                let target = RenderTarget { width, height, scale, ..old(self).target() };
                &&& reconfigure == !target.same(old(self).target())
                &&& reconfigure ==> final(self).target() == target && final(self).damage().forced()
                &&& !reconfigure ==> final(self).target() == old(self).target()
                    && final(self).damage() == old(self).damage()
            }),
            final(self).damage().previous() == old(self).damage().previous(),
            final(self).damage().pending() == old(self).damage().pending(),
            final(self).incremental() == old(self).incremental(),
            final(self).stats() == old(self).stats(),
            final(self).externals() == old(self).externals(),
            final(self).last_external() == old(self).last_external(),
            final(self).reported() == old(self).reported(),
    {
        let target = RenderTarget { width, height, scale, opaque: self.target.opaque };
        if target.width == self.target.width && target.height == self.target.height && equal(
            target.scale,
            self.target.scale,
        ) {
            return false;
        }
        self.target = target;
        self.damage.invalidate();
        true
    }

    /// Starts a frame: works out its damage before anything is translated, because the cheapest
    /// frame is the one that is not built at all.
    ///
    /// The process's environment can ask for everything to be redrawn every frame, so the damage
    /// starts as nothing or as the whole surface; what follows is as
    /// [`ZguiRenderer::begin_draw_from`] says.
    pub fn begin_draw(&mut self, painting: &Painting) -> (start: DrawStart)
        requires
            old(self).wf(),
            painting.fits(old(self).target().surface()),
            painting.marks().len() <= i32::MAX,
            old(self).stats()@.enabled ==> old(self).stats()@.frames + old(self).stats()@.skipped
                < u32::MAX,
        ensures
            final(self).wf(),
            ({
                ||| {
                    &&& begins(*old(self), *painting, Region::none(), *final(self), start)
                    &&& start matches DrawStart::Draw(damage) ==> stays_small(
                        *old(self),
                        *painting,
                        Region::none(),
                        region(damage),
                    )
                }
                ||| begins(*old(self), *painting, Region::whole(), *final(self), start)
            }),
            start matches DrawStart::Draw(damage) ==> covers_what_changed(
                *old(self),
                *painting,
                region(damage),
            ),
            start is Skip ==> covers_what_changed(*old(self), *painting, Region::none()),
    {
        let forced = damage_for_frame();
        self.begin_draw_from(painting, forced)
    }

    /// Starts a frame with `forced` damaged in any case.
    ///
    /// With redrawing only what changed off, everything is damaged. With it on, the damage holds
    /// what was left to redraw and all that changed; where that is nothing, the frame is skipped.
    pub fn begin_draw_from(&mut self, painting: &Painting, forced: DamageSet) -> (start: DrawStart)
        requires
            old(self).wf(),
            region(forced).wf(),
            painting.fits(old(self).target().surface()),
            painting.marks().len() <= i32::MAX,
            old(self).stats()@.enabled ==> old(self).stats()@.frames + old(self).stats()@.skipped
                < u32::MAX,
        ensures
            final(self).wf(),
            begins(*old(self), *painting, region(forced), *final(self), start),
            start matches DrawStart::Draw(damage) ==> covers_what_changed(
                *old(self),
                *painting,
                region(damage),
            ),
            start is Skip ==> covers_what_changed(*old(self), *painting, Region::none()),
            start matches DrawStart::Draw(damage) ==> reaches_no_further(
                *old(self),
                *painting,
                region(forced),
                region(damage),
            ),
            start matches DrawStart::Draw(damage) ==> stays_small(
                *old(self),
                *painting,
                region(forced),
                region(damage),
            ),
    {
        let damage = if self.incremental {
            self.damage.damage_from(painting, self.target.width, self.target.height, forced)
        } else {
            damage_whole()
        };
        if is_empty(&damage) {
            proof {
                assert(region(damage) =~= Region::none());
            }
            self.damage.retire(true);
            self.stats.skipped();
            return DrawStart::Skip;
        }
        DrawStart::Draw(damage)
    }

    /// The handles of a frame's surfaces: one for each that has a texture to adopt, the one its
    /// place in the scene had before or a new one. A surface keeps its place from frame to frame.
    pub fn register_surfaces(&mut self, present: &Vec<bool>) -> (handles: Vec<Option<u64>>)
        requires
            old(self).wf(),
            old(self).last_external() + present@.len() <= u64::MAX,
        ensures
            final(self).wf(),
            (final(self).externals(), final(self).last_external() as int, handles@)
                == surface_handles(
                old(self).externals(),
                old(self).last_external() as int,
                present@,
                present@.len(),
            ),
            final(self).target() == old(self).target(),
            final(self).damage() == old(self).damage(),
            final(self).stats() == old(self).stats(),
            final(self).incremental() == old(self).incremental(),
            final(self).reported() == old(self).reported(),
    {
        let mut handles: Vec<Option<u64>> = Vec::new();
        let mut at: usize = 0;
        while at < present.len()
            invariant
                at <= present@.len(),
                old(self).last_external() + present@.len() <= u64::MAX,
                self.last_external <= old(self).last_external() + at,
                handles_ok(self.externals@, self.last_external as int),
                (self.externals@, self.last_external as int, handles@) == surface_handles(
                    old(self).externals(),
                    old(self).last_external() as int,
                    present@,
                    at as nat,
                ),
                self.target == old(self).target,
                self.damage == old(self).damage,
                self.stats == old(self).stats,
                self.incremental == old(self).incremental,
                self.reported == old(self).reported,
            decreases present@.len() - at,
        {
            if present[at] {
                let handle: u64 = match fx_get(&self.externals, &(at as u64)) {
                    Some(handle) => handle,
                    None => {
                        self.last_external = self.last_external + 1;
                        fx_insert(&mut self.externals, at as u64, self.last_external);
                        self.last_external
                    },
                };
                handles.push(Some(handle));
            } else {
                handles.push(None);
            }
            at = at + 1;
        }
        handles
    }

    /// What is to be reported of what a frame could not express: the totals, where they changed
    /// and are not nothing.
    pub fn report(&mut self, missing: Unsupported) -> (due: Option<Unsupported>)
        requires
            old(self).wf(),
        ensures
            final(self).wf(),
            final(self).reported() == missing,
            due == (if missing != old(self).reported() && !(missing.paths == 0
                && missing.foreign_surfaces == 0 && missing.patterns == 0) {
                Some(missing)
            } else {
                None
            }),
            final(self).target() == old(self).target(),
            final(self).damage() == old(self).damage(),
            final(self).stats() == old(self).stats(),
            final(self).incremental() == old(self).incremental(),
            final(self).externals() == old(self).externals(),
            final(self).last_external() == old(self).last_external(),
    {
        if missing == self.reported {
            return None;
        }
        self.reported = missing;
        if missing.is_empty() {
            return None;
        }
        Some(missing)
    }

    /// What is recorded of a frame.
    fn measure(
        &self,
        painting: &Painting,
        damage: &DamageSet,
        outcome: FrameOutcome,
        spent: Frame,
    ) -> (frame: Frame)
        requires
            region(*damage).wf(),
            self.target().width >= 0,
            self.target().height >= 0,
            painting.marks().len() <= i32::MAX,
        ensures
            frame == measured(spent, *painting, region(*damage), outcome, self.target()),
    {
        let mut frame = spent;
        proof {
            assert(0 <= self.target.width * self.target.height <= 0x4000_0000_0000_0000)
                by (nonlinear_arith)
                requires
                    0 <= self.target.width <= 0x7fff_ffff,
                    0 <= self.target.height <= 0x7fff_ffff,
            ;
            lemma_primitives(*painting);
        }
        frame.surface = (self.target.width as u64) * (self.target.height as u64);
        frame.damaged = match outcome {
            FrameOutcome::Presented { damage_px } => damage_px,
            _ => if is_full(damage) {
                frame.surface
            } else {
                pixels(damage)
            },
        };
        frame.primitives = painting.quads.len() + painting.shadows.len()
            + painting.underlines.len() + painting.monochrome_sprites.len()
            + painting.subpixel_sprites.len() + painting.polychrome_sprites.len()
            + painting.paths.len();
        frame
    }

    /// Whether a frame that was drawn can be ended: its cost can be added to the totals without one
    /// of them leaving its range.
    pub fn can_finish(
        &self,
        painting: &Painting,
        damage: &DamageSet,
        outcome: FrameOutcome,
        spent: Frame,
    ) -> (fits: bool)
        requires
            self.wf(),
            region(*damage).wf(),
            self.target().width >= 0,
            self.target().height >= 0,
            painting.marks().len() <= i32::MAX,
        ensures
            fits == (self.stats()@.enabled ==> self.stats()@.with(
                measured(spent, *painting, region(*damage), outcome, self.target()),
                region(*damage).full,
            ).in_range()),
    {
        let frame = self.measure(painting, damage, outcome, spent);
        self.stats.has_room(&frame, is_full(damage))
    }

    /// Ends a frame that was drawn with `damage`: records what it cost where measuring is on, and
    /// retires its damage where its work was submitted. Gives the report where one is now due.
    ///
    /// `spent` holds the times measured.
    pub fn finish_draw(
        &mut self,
        painting: &Painting,
        damage: &DamageSet,
        outcome: FrameOutcome,
        spent: Frame,
    ) -> (due: Option<Summary>)
        requires
            old(self).wf(),
            region(*damage).wf(),
            old(self).target().width >= 0,
            old(self).target().height >= 0,
            painting.marks().len() <= i32::MAX,
            old(self).stats()@.enabled ==> old(self).stats()@.with(
                measured(spent, *painting, region(*damage), outcome, old(self).target()),
                region(*damage).full,
            ).in_range(),
        ensures
            final(self).wf(),
            final(self).damage().pending() == if submitted(outcome) {
                Region::none()
            } else {
                old(self).damage().pending()
            },
            final(self).damage().previous() == old(self).damage().previous(),
            final(self).damage().forced() == old(self).damage().forced(),
            !old(self).stats()@.enabled ==> final(self).stats() == old(self).stats() && due is None,
            old(self).stats()@.enabled ==> {
                &&& keeps_start(old(self).stats().started(), final(self).stats().started())
                &&& final(self).stats()@ == old(self).stats()@.with(
                    measured(spent, *painting, region(*damage), outcome, old(self).target()),
                    region(*damage).full,
                )
                &&& due is Some <==> old(self).stats()@.since_report + 1
                    == crate::stats::REPORT_EVERY
                &&& due matches Some(summary) ==> final(self).stats()@.reported_by(summary)
            },
            final(self).target() == old(self).target(),
            final(self).incremental() == old(self).incremental(),
            final(self).externals() == old(self).externals(),
            final(self).last_external() == old(self).last_external(),
            final(self).reported() == old(self).reported(),
    {
        let mut due = None;
        if self.stats.enabled() {
            let was_full = is_full(damage);
            let frame = self.measure(painting, damage, outcome, spent);
            due = self.stats.drawn(frame, was_full);
        }
        self.damage.retire(retires_damage(outcome));
        due
    }
}

/// The damage a frame starts with, where `forced` is damaged in any case.
pub open spec fn starting_damage(
    before: ZguiRenderer,
    painting: Painting,
    forced: Region,
) -> Region {
    if before.incremental() {
        before.damage().pending().absorb_region(
            frame_damage(
                before.damage().previous(),
                before.damage().forced(),
                snapshot_of(painting, before.target().surface()),
                forced,
                before.target().surface(),
            ),
        )
    } else {
        Region::whole()
    }
}

/// Whether starting a frame takes `before` to `after` and gives `start`.
pub open spec fn begins(
    before: ZguiRenderer,
    painting: Painting,
    forced: Region,
    after: ZguiRenderer,
    start: DrawStart,
) -> bool {
    let damage = starting_damage(before, painting, forced);
    &&& after.target() == before.target()
    &&& after.incremental() == before.incremental()
    &&& after.externals() == before.externals()
    &&& after.last_external() == before.last_external()
    &&& after.reported() == before.reported()
    &&& before.incremental() ==> {
        &&& after.damage().previous() == Some(
            snapshot_of(painting, before.target().surface()),
        )
        &&& !after.damage().forced()
        &&& after.damage().pending() == damage
    }
    &&& !before.incremental() ==> after.damage() == before.damage()
    &&& match start {
        DrawStart::Skip => {
            &&& damage == Region::none()
            &&& after.stats()@ == skipped_once(before.stats()@)
            &&& before.stats()@.enabled ==> keeps_start(
                before.stats().started(),
                after.stats().started(),
            )
        },
        DrawStart::Draw(drawn) => {
            &&& region(drawn) == damage
            &&& damage.full || damage.rects.len() > 0
            &&& after.stats() == before.stats()
        },
    }
}

/// Whether `damage` holds all that a frame must redraw: what was left to redraw, everything where
/// there is nothing to compare with, and otherwise all that changed.
pub open spec fn covers_what_changed(
    before: ZguiRenderer,
    painting: Painting,
    damage: Region,
) -> bool {
    let frame = snapshot_of(painting, before.target().surface());
    if before.incremental() {
        &&& damage.covers_all(before.damage().pending())
        &&& before.damage().previous() is None || before.damage().forced() ==> damage.full
        &&& before.damage().previous() matches Some(previous) ==> sufficient(
            previous,
            frame,
            damage,
        )
    } else {
        damage.full
    }
}

/// Whether `damage` stays, unless it is everything, in every rectangle that holds what was left to
/// redraw, what was forced, all that changed and all that filters read or write.
pub open spec fn reaches_no_further(
    before: ZguiRenderer,
    painting: Painting,
    forced: Region,
    damage: Region,
) -> bool {
    let frame = snapshot_of(painting, before.target().surface());
    before.incremental() ==> (before.damage().previous() matches Some(previous) ==> confined(
        Region { full: false, rects: before.damage().pending().rects + forced.rects },
        reachable(previous, frame),
        damage,
    ))
}

/// Whether `damage` has every filter settled where nothing was left to redraw, and is not
/// everything for a small difference to the last frame.
pub open spec fn stays_small(
    before: ZguiRenderer,
    painting: Painting,
    forced: Region,
    damage: Region,
) -> bool {
    let frame = snapshot_of(painting, before.target().surface());
    before.incremental() ==> {
        &&& before.damage().settles(frame, damage)
        &&& before.damage().restrains(frame, forced, before.target().surface(), damage)
    }
}

/// Whether no two surfaces share a handle and every handle was given.
pub open spec fn handles_ok(held: Map<u64, u64>, last: int) -> bool {
    &&& forall|at: u64| #[trigger] held.dom().contains(at) ==> 1 <= held[at] <= last
    &&& forall|one: u64, two: u64|
        #![trigger held[one], held[two]]
        held.dom().contains(one) && held.dom().contains(two) && held[one] == held[two] ==> one
            == two
}

/// The totals after a skipped frame.
pub open spec fn skipped_once(totals: Totals) -> Totals {
    if totals.enabled {
        totals.with_skipped()
    } else {
        totals
    }
}

/// The pixels that rectangles hold between them, as far as they can be counted.
pub open spec fn counted_pixels(held: Seq<Rect>) -> u64 {
    if total_area(held) <= u64::MAX {
        total_area(held) as u64
    } else {
        u64::MAX
    }
}

/// How many primitives are counted for a frame.
pub open spec fn counted_primitives(painting: Painting) -> nat {
    painting.quads@.len() + painting.shadows@.len() + painting.underlines@.len()
        + painting.monochrome_sprites@.len() + painting.subpixel_sprites@.len()
        + painting.polychrome_sprites@.len() + painting.paths@.len()
}

/// What is recorded of a frame: the pixels the renderer says it redrew where it presented them,
/// and otherwise those that the damage holds.
pub open spec fn measured(
    spent: Frame,
    painting: Painting,
    damage: Region,
    outcome: FrameOutcome,
    target: RenderTarget,
) -> Frame {
    let surface = (target.width * target.height) as u64;
    Frame {
        surface,
        damaged: match outcome {
            FrameOutcome::Presented { damage_px } => damage_px,
            _ => if damage.full {
                surface
            } else {
                counted_pixels(damage.rects)
            },
        },
        primitives: counted_primitives(painting) as usize,
        ..spent
    }
}

proof fn lemma_primitives(painting: Painting)
    ensures
        counted_primitives(painting) <= painting.marks().len(),
{
}

/// The pixels the damage holds, as far as they can be counted.
fn pixels(damage: &DamageSet) -> (count: u64)
    requires
        region(*damage).wf(),
    ensures
        count == counted_pixels(region(*damage).rects),
{
    let held = rects(damage);
    let mut total: u128 = 0;
    let mut i: usize = 0;
    proof {
        assert(held@.take(0).len() == 0);
    }
    while i < held.len()
        invariant
            i <= held@.len() <= 6,
            forall|k: int|
                0 <= k < held@.len() ==> (#[trigger] held@[k]).width > 0 && held@[k].height > 0,
            total == total_area(held@.take(i as int)),
            total <= i * 0x4000_0000_0000_0000,
        decreases held@.len() - i,
    {
        let rect = held[i];
        proof {
            assert(held@.take(i + 1).drop_last() =~= held@.take(i as int));
            assert(rect.width > 0 && rect.height > 0);
            assert(0 < rect.width * rect.height <= 0x4000_0000_0000_0000) by (nonlinear_arith)
                requires
                    0 < rect.width <= 0x7fff_ffff,
                    0 < rect.height <= 0x7fff_ffff,
            ;
        }
        total = total + (rect.width as u128) * (rect.height as u128);
        i = i + 1;
    }
    proof {
        assert(held@.take(i as int) =~= held@);
    }
    if total <= u64::MAX as u128 {
        total as u64
    } else {
        u64::MAX
    }
}

/// A frame that paints what the last one painted is skipped, where nothing was left to redraw, the
/// comparison is not void, nothing is forced and no surface filled from outside shows.
pub proof fn law_unchanged_frame_is_skipped_whole(
    before: ZguiRenderer,
    painting: Painting,
    after: ZguiRenderer,
    start: DrawStart,
)
    requires
        before.incremental(),
        !before.damage().forced(),
        before.damage().pending() == Region::none(),
        before.damage().previous() == Some(snapshot_of(painting, before.target().surface())),
        snapshot_of(painting, before.target().surface()).always.len() == 0,
        begins(before, painting, Region::none(), after, start),
    ensures
        start is Skip,
{
    crate::damage_laws::law_unchanged_frame_is_skipped(painting, before.target().surface());
}

/// No two surfaces of a frame are known by one handle, and a surface that keeps its place keeps
/// its handle.
pub proof fn law_surfaces_keep_their_handles(
    held: Map<u64, u64>,
    last: int,
    present: Seq<bool>,
    upto: nat,
)
    requires
        handles_ok(held, last),
        0 <= last,
        upto <= present.len(),
        last + upto <= u64::MAX,
    ensures
        ({
            let (after, end, given) = surface_handles(held, last, present, upto);
            &&& handles_ok(after, end)
            &&& last <= end <= last + upto
            &&& given.len() == upto
            &&& forall|at: u64| #[trigger]
                held.dom().contains(at) ==> after.dom().contains(at) && after[at] == held[at]
            &&& forall|i: int|
                0 <= i < upto ==> #[trigger] given[i] == (if present[i] {
                    Some(after[i as u64])
                } else {
                    None
                })
        }),
    decreases upto,
{
    if upto > 0 {
        law_surfaces_keep_their_handles(held, last, present, (upto - 1) as nat);
    }
}

/// Redrawing only what changed is on unless it is switched off by one of three words, and off
/// exactly by them.
pub proof fn law_three_words_switch_redrawing_off(value: Seq<char>)
    ensures
        incremental_by(None),
        !incremental_by(Some(seq!['0'])),
        !incremental_by(Some(seq!['o', 'f', 'f'])),
        !incremental_by(Some(seq!['f', 'a', 'l', 's', 'e'])),
        !incremental_by(Some(value)) ==> value == seq!['0'] || value == seq!['o', 'f', 'f'] || value
            == seq!['f', 'a', 'l', 's', 'e'],
{
    reveal_strlit("0");
    reveal_strlit("off");
    reveal_strlit("false");
    assert("0"@ =~= seq!['0']);
    assert("off"@ =~= seq!['o', 'f', 'f']);
    assert("false"@ =~= seq!['f', 'a', 'l', 's', 'e']);
}

/// Two targets are the same exactly where nothing that is drawn into differs: both sides, whether
/// it is opaque, and the scale as a number.
pub proof fn law_targets_differ_in_anything_drawn(one: RenderTarget, two: RenderTarget)
    ensures
        one.same(two) <==> {
            &&& one.width == two.width && one.height == two.height && one.opaque == two.opaque
            &&& same_number(one.scale, two.scale)
        },
        one.same(two) == two.same(one),
        one.surface() == (Rect { x: 0, y: 0, width: one.width, height: one.height }),
        one.same(two) ==> one.surface() == two.surface(),
{
}

/// With redrawing only what changed off, every frame damages everything; and so does, with it on, a
/// first frame and one after the comparison was declared void.
pub proof fn law_frames_without_comparison_are_whole(
    before: ZguiRenderer,
    painting: Painting,
    forced: Region,
    after: ZguiRenderer,
    start: DrawStart,
)
    requires
        begins(before, painting, forced, after, start),
        !before.incremental() || before.damage().previous() is None || before.damage().forced(),
    ensures
        start matches DrawStart::Draw(damage) && region(damage).full,
{
}

/// A frame is skipped exactly where nothing is damaged, and drawn with exactly the damage there is
/// where anything is. The frame that was painted is what the next is compared with, and the
/// damage stays to be redrawn until it is.
pub proof fn law_damaged_frames_are_drawn(
    before: ZguiRenderer,
    painting: Painting,
    forced: Region,
    after: ZguiRenderer,
    start: DrawStart,
)
    requires
        begins(before, painting, forced, after, start),
    ensures
        start is Skip <==> starting_damage(before, painting, forced) == Region::none(),
        start matches DrawStart::Draw(damage) ==> region(damage) == starting_damage(
            before,
            painting,
            forced,
        ),
        before.incremental() ==> after.damage().previous() == Some(
            snapshot_of(painting, before.target().surface()),
        ) && after.damage().pending() == starting_damage(before, painting, forced),
        after.target() == before.target() && after.incremental() == before.incremental(),
{
}

/// Damage that holds all that changed holds every pixel that was left to redraw, and is everything
/// where there is nothing to compare with.
pub proof fn law_what_was_left_is_redrawn(
    before: ZguiRenderer,
    painting: Painting,
    damage: Region,
    px: int,
    py: int,
)
    requires
        covers_what_changed(before, painting, damage),
    ensures
        before.incremental() && before.damage().pending().covers(px, py) ==> damage.covers(px, py),
        !before.incremental() || before.damage().previous() is None || before.damage().forced()
            ==> damage.full,
        before.incremental() ==> (before.damage().previous() matches Some(previous) ==> sufficient(
            previous,
            snapshot_of(painting, before.target().surface()),
            damage,
        )),
{
}

/// What is recorded of a frame are the pixels of its target, the pixels it redrew and how many
/// primitives of every kind it painted, filters and surfaces apart. The times are those measured.
pub proof fn law_frames_are_measured_as_drawn(
    spent: Frame,
    painting: Painting,
    damage: Region,
    outcome: FrameOutcome,
    target: RenderTarget,
)
    requires
        0 <= target.width,
        0 <= target.height,
        painting.marks().len() <= i32::MAX,
    ensures
        ({
            let frame = measured(spent, painting, damage, outcome, target);
            &&& frame.surface == target.width * target.height
            &&& frame.primitives == painting.quads@.len() + painting.shadows@.len()
                + painting.underlines@.len() + painting.monochrome_sprites@.len()
                + painting.subpixel_sprites@.len() + painting.polychrome_sprites@.len()
                + painting.paths@.len()
            &&& frame.primitives + painting.backdrop_filters@.len()
                + painting.filter_boundaries@.len() == painting.primitives().len()
            &&& outcome matches FrameOutcome::Presented { damage_px } ==> frame.damaged == damage_px
            &&& !(outcome is Presented) && damage.full ==> frame.damaged == frame.surface
            &&& !(outcome is Presented) && !damage.full && 0 <= total_area(damage.rects)
                <= u64::MAX ==> frame.damaged == total_area(damage.rects)
            &&& frame.compare == spent.compare && frame.translate == spent.translate
            &&& frame.finish == spent.finish && frame.submit == spent.submit
        }),
{
    assert(0 <= target.width * target.height <= 0x4000_0000_0000_0000) by (nonlinear_arith)
        requires
            0 <= target.width <= 0x7fff_ffff,
            0 <= target.height <= 0x7fff_ffff,
    ;
    crate::paint_laws::law_every_primitive_is_compared(painting);
}

/// Pixels are counted as they are while they can be, and as the most there can be past that.
pub proof fn law_pixels_are_counted_while_they_can_be(held: Seq<Rect>)
    requires
        0 <= total_area(held),
    ensures
        total_area(held) <= u64::MAX ==> counted_pixels(held) == total_area(held),
        total_area(held) > u64::MAX ==> counted_pixels(held) == u64::MAX,
{
}

/// A skipped frame counts as one where frames are measured, and changes no other total; where they
/// are not, it changes none.
pub proof fn law_skipped_frames_count_once(totals: Totals)
    ensures
        !totals.enabled ==> skipped_once(totals) == totals,
        totals.enabled ==> skipped_once(totals).skipped == totals.skipped + 1,
        skipped_once(totals).frames == totals.frames && skipped_once(totals).full == totals.full,
        skipped_once(totals).damaged == totals.damaged && skipped_once(totals).surface
            == totals.surface,
        skipped_once(totals).since_report == totals.since_report,
        skipped_once(totals).enabled == totals.enabled,
        skipped_once(totals).primitives == totals.primitives,
{
}

/// A surface without a texture gets no handle; one with a texture gets the handle its place had, or
/// the next where its place had none, which is then its place's.
pub proof fn law_surfaces_with_a_texture_get_a_handle(
    held: Map<u64, u64>,
    last: int,
    present: Seq<bool>,
    upto: nat,
)
    requires
        0 < upto <= present.len(),
        upto <= u64::MAX,
        0 <= last,
        last + upto <= u64::MAX,
        handles_ok(held, last),
    ensures
        ({
            let at = (upto - 1) as u64;
            let (before, used, _) = surface_handles(held, last, present, (upto - 1) as nat);
            let (after, end, given) = surface_handles(held, last, present, upto);
            &&& !present[upto - 1] ==> given.last() is None && after == before && end == used
            &&& present[upto - 1] ==> given.last() == Some(after[at])
            &&& present[upto - 1] && before.dom().contains(at) ==> after == before && end == used
            &&& present[upto - 1] && !before.dom().contains(at) ==> after[at] == used + 1 && end
                == used + 1
        }),
{
    law_surfaces_keep_their_handles(held, last, present, (upto - 1) as nat);
}

/// The soft limit of the atlas is sixty-four mebibytes.
pub proof fn law_soft_limit_of_the_atlas()
    ensures
        ATLAS_SOFT_BYTES == 64 * 1024 * 1024,
{
}

/// A path that changed reaches the screen: where redrawing only what changed is on and the last
/// frame is known, damage that holds all that changed holds every pixel of a path that no path of
/// the last frame agrees with in all that draws it.
pub proof fn law_changed_paths_reach_the_screen(
    before: ZguiRenderer,
    last: Painting,
    painting: Painting,
    damage: Region,
    at: int,
    px: int,
    py: int,
)
    requires
        before.incremental(),
        before.damage().previous() == Some(snapshot_of(last, before.target().surface())),
        covers_what_changed(before, painting, damage),
        told_apart(
            shown_on(last.primitives(), before.target().surface()) + shown_on(
                painting.primitives(),
                before.target().surface(),
            ),
        ),
        0 <= at < painting.paths@.len(),
        forall|i: int|
            0 <= i < last.paths@.len() ==> !same_path(
                #[trigger] last.paths@[i],
                painting.paths@[at],
            ),
        painting.paths@[at].rect.comparable(before.target().surface()),
        painting.paths@[at].rect.covers(px, py),
        before.target().surface().covers(px, py),
    ensures
        damage.covers(px, py),
{
    law_changed_paths_are_redrawn(
        last,
        painting,
        before.target().surface(),
        damage,
        at,
        px,
        py,
    );
}

} // verus!
