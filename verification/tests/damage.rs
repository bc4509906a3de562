//! Damage-based redraw must be invisible.
//!
//! What is composed is kept between frames and only the rectangles believed to have changed are
//! redrawn. That is only sound if the belief is right, and a wrong belief shows up as stale
//! pixels: the previous frame's content left behind in a region that should have been repainted.
//!
//! So every test here draws the same sequence of frames twice: once redrawing only what changed,
//! and once redrawing everything. The two must agree pixel for pixel.
//!
//! `damage_actually_restricts_the_redraw` covers the other half, so that a damage set which
//! silently degraded to everything could not pass the whole file.

use gpui_zgui::damage::grow_for_filters;
use gpui_zgui::damage::Damage;
use gpui_zgui::fraction::is_past_share;
use gpui_zgui::geom::Rect;
use gpui_zgui::outcome::retires_damage;
use gpui_zgui::outcome::FrameOutcome;
use gpui_zgui::outcome::SkipReason;
use gpui_zgui::renderer::incremental_enabled;
use gpui_zgui::renderer::stats_enabled;
use gpui_zgui::renderer::DrawStart;
use gpui_zgui::renderer::RenderTarget;
use gpui_zgui::renderer::ZguiRenderer;
use gpui_zgui::scene::Bounds;
use gpui_zgui::scene::Corners;
use gpui_zgui::snapshot::hash_filters;
use gpui_zgui::snapshot::hash_path;
use gpui_zgui::snapshot::snapshot;
use gpui_zgui::snapshot::FilterRole;
use gpui_zgui::snapshot::Painted;
use gpui_zgui::snapshot::PaintedFilter;
use gpui_zgui::snapshot::PaintedPath;
use gpui_zgui::snapshot::PaintedShadow;
use gpui_zgui::snapshot::Painting;
use gpui_zgui::snapshot::Reader;
use gpui_zgui::snapshot::Snapshot;
use gpui_zgui::snapshot::Vertex;
use gpui_zgui::stats::Frame;
use gpui_zgui::stats::LONGEST;
use gpui_zgui::translate::Unsupported;
use rustc_hash::FxHasher;
use std::hash::Hash;
use std::hash::Hasher;
use zgui_bits::DamageSet;

const SIDE: i32 = 64;

type Color = [u8; 3];

#[derive(Clone, Copy)]
struct Quad {
    x: f32,
    y: f32,
    width: f32,
    height: f32,
    color: Color,
}

fn rgb(r: f32, g: f32, b: f32) -> Color {
    [(r * 255.0) as u8, (g * 255.0) as u8, (b * 255.0) as u8]
}

fn quad(at: [f32; 4], color: Color) -> Quad {
    Quad { x: at[0], y: at[1], width: at[2], height: at[3], color }
}

fn rect(x: i32, y: i32, width: i32, height: i32) -> Rect {
    Rect { x, y, width, height }
}

/// The whole pixels a quad touches.
fn pixels(quad: &Quad) -> Rect {
    let left = quad.x.floor() as i32;
    let top = quad.y.floor() as i32;
    rect(
        left,
        top,
        (quad.x + quad.width).ceil() as i32 - left,
        (quad.y + quad.height).ceil() as i32 - top,
    )
}

fn meet(one: &Quad, two: &Quad) -> bool {
    one.x < two.x + two.width
        && two.x < one.x + one.width
        && one.y < two.y + two.height
        && two.y < one.y + one.height
}

fn nothing() -> Painting {
    Painting {
        quads: vec![],
        underlines: vec![],
        monochrome_sprites: vec![],
        subpixel_sprites: vec![],
        polychrome_sprites: vec![],
        shadows: vec![],
        paths: vec![],
        surfaces: vec![],
        backdrop_filters: vec![],
        filter_boundaries: vec![],
    }
}

/// A quad above every earlier one it meets, which is what its draw order says.
fn painting_of(quads: &[Quad]) -> Painting {
    let mut orders: Vec<u32> = vec![];
    let mut painted = vec![];
    for (index, quad) in quads.iter().enumerate() {
        let below = (0..index).filter(|i| meet(&quads[*i], quad)).map(|i| orders[i]).max();
        let order = below.map_or(1, |order| order + 1);
        orders.push(order);
        let mut bytes = order.to_le_bytes().to_vec();
        for number in [quad.x, quad.y, quad.width, quad.height] {
            bytes.extend_from_slice(&number.to_le_bytes());
        }
        bytes.extend_from_slice(&quad.color);
        painted.push(Painted { bytes, rect: pixels(quad) });
    }
    Painting { quads: painted, ..nothing() }
}

fn renderer(incremental: bool) -> ZguiRenderer {
    let target =
        RenderTarget { width: SIDE, height: SIDE, scale: 1.0f32.to_bits(), opaque: true };
    let mut renderer = ZguiRenderer::new(target, true, false);
    renderer.set_incremental(incremental);
    renderer
}

fn covers(damage: &DamageSet, x: i32, y: i32) -> bool {
    damage.is_full()
        || damage.rects().iter().any(|rect| {
            rect.origin.x <= x
                && x < rect.origin.x + rect.size.width
                && rect.origin.y <= y
                && y < rect.origin.y + rect.size.height
        })
}

/// What is kept between frames.
struct Target {
    pixels: Vec<Color>,
}

impl Target {
    fn new() -> Target {
        Target { pixels: vec![[0, 0, 0]; (SIDE * SIDE) as usize] }
    }

    /// Redraws what is damaged, and says how many pixels that was.
    fn redraw(&mut self, quads: &[Quad], damage: &DamageSet) -> u64 {
        let mut redrawn = 0;
        for y in 0..SIDE {
            for x in 0..SIDE {
                if !covers(damage, x, y) {
                    continue;
                }
                redrawn += 1;
                let (px, py) = (x as f32 + 0.5, y as f32 + 0.5);
                let top = quads.iter().rev().find(|quad| {
                    quad.x <= px
                        && px < quad.x + quad.width
                        && quad.y <= py
                        && py < quad.y + quad.height
                });
                self.pixels[(y * SIDE + x) as usize] = top.map_or([0, 0, 0], |quad| quad.color);
            }
        }
        redrawn
    }
}

/// Draws one frame.
fn draw(renderer: &mut ZguiRenderer, target: &mut Target, quads: &[Quad]) -> FrameOutcome {
    let painting = painting_of(quads);
    match renderer.begin_draw(&painting) {
        DrawStart::Skip => FrameOutcome::Skipped(SkipReason::Undamaged),
        DrawStart::Draw(damage) => {
            let damage_px = target.redraw(quads, &damage);
            let outcome = FrameOutcome::Presented { damage_px };
            renderer.finish_draw(&painting, &damage, outcome, Frame::default());
            outcome
        }
    }
}

/// Draws `frames` in order both ways and asserts they agree after every one.
///
/// Checking after every frame rather than only the last is deliberate: a damage bug that leaves
/// stale pixels is often corrected by the next frame, so comparing only the end state would miss
/// it entirely.
fn agrees_frame_by_frame(frames: Vec<Vec<Quad>>) {
    let (mut incremental, mut full) = (renderer(true), renderer(false));
    let (mut restricted, mut complete) = (Target::new(), Target::new());
    for (index, quads) in frames.into_iter().enumerate() {
        draw(&mut incremental, &mut restricted, &quads);
        draw(&mut full, &mut complete, &quads);
        assert!(
            restricted.pixels == complete.pixels,
            "frame {index} differed between a restricted and a full redraw"
        );
    }
}

#[test]
fn recolouring_in_place_leaves_nothing_stale() {
    let at = [16.0, 16.0, 32.0, 32.0];
    agrees_frame_by_frame(vec![
        vec![quad(at, rgb(1.0, 0.0, 0.0))],
        vec![quad(at, rgb(0.0, 1.0, 0.0))],
        vec![quad(at, rgb(0.0, 0.0, 1.0))],
    ]);
}

#[test]
fn a_quad_that_appears_and_disappears_leaves_nothing_stale() {
    let background = quad([0.0, 0.0, 64.0, 64.0], rgb(0.1, 0.1, 0.1));
    let popover = quad([8.0, 8.0, 20.0, 20.0], rgb(1.0, 1.0, 0.0));
    agrees_frame_by_frame(vec![
        vec![background],
        vec![background, popover],
        // The disappearance is the case that catches damage derived only from the new frame:
        // nothing in frame three mentions the region the popover used to occupy.
        vec![background],
    ]);
}

#[test]
fn a_quad_that_moves_leaves_nothing_behind() {
    let background = quad([0.0, 0.0, 64.0, 64.0], rgb(0.1, 0.1, 0.1));
    let mut frames = Vec::new();
    for step in 0..6 {
        let moving = quad([4.0 + step as f32 * 8.0, 24.0, 16.0, 16.0], rgb(1.0, 0.0, 1.0));
        frames.push(vec![background, moving]);
    }
    agrees_frame_by_frame(frames);
}

#[test]
fn two_overlapping_quads_swapping_order_are_noticed() {
    // The case the draw order is kept in the hash for. Both quads exist in both frames with
    // identical geometry and colour; only which one is on top changes. A comparison blind to
    // order would damage nothing and leave the wrong quad showing.
    let lower = quad([8.0, 8.0, 32.0, 32.0], rgb(1.0, 0.0, 0.0));
    let upper = quad([24.0, 24.0, 32.0, 32.0], rgb(0.0, 0.0, 1.0));
    agrees_frame_by_frame(vec![vec![lower, upper], vec![upper, lower]]);
}

#[test]
fn a_quad_growing_over_its_neighbours_leaves_nothing_stale() {
    let background = quad([0.0, 0.0, 64.0, 64.0], rgb(0.1, 0.1, 0.1));
    let mut frames = Vec::new();
    for step in 1..6 {
        frames.push(vec![
            background,
            quad([8.0, 8.0, step as f32 * 10.0, 40.0], rgb(0.0, 1.0, 1.0)),
        ]);
    }
    agrees_frame_by_frame(frames);
}

#[test]
fn a_scene_that_does_not_change_at_all_still_matches() {
    // The frame where damage is legitimately empty: it is skipped and what was composed is kept,
    // so what this shows is that what was kept is still right.
    let quads = vec![
        quad([0.0, 0.0, 64.0, 64.0], rgb(0.2, 0.2, 0.2)),
        quad([16.0, 16.0, 32.0, 32.0], rgb(0.9, 0.4, 0.1)),
    ];
    agrees_frame_by_frame(vec![quads.clone(), quads.clone(), quads]);
}

#[test]
fn damage_actually_restricts_the_redraw() {
    // The rest of the file would pass just as well if damage always went full, so this is what
    // says the mechanism is doing anything: a small change must produce a small redraw.
    let mut renderer = renderer(true);
    let mut target = Target::new();
    let background = quad([0.0, 0.0, 64.0, 64.0], rgb(0.1, 0.1, 0.1));
    let spot = [28.0, 28.0, 8.0, 8.0];

    draw(&mut renderer, &mut target, &[background, quad(spot, rgb(1.0, 0.0, 0.0))]);
    let outcome = draw(&mut renderer, &mut target, &[background, quad(spot, rgb(0.0, 1.0, 0.0))]);

    let FrameOutcome::Presented { damage_px } = outcome else {
        panic!("the second frame should have been presented, was {outcome:?}");
    };
    let surface = (SIDE * SIDE) as u64;
    assert!(
        damage_px < surface / 4,
        "recolouring an 8x8 spot redrew {damage_px} of {surface} pixels"
    );
    assert_eq!(damage_px, 64);
}

#[test]
fn an_unchanged_frame_is_skipped_without_being_translated() {
    // The cheapest frame is the one that is never built. A window redrawn while nothing about it
    // changed should cost a comparison and nothing else.
    let mut renderer = renderer(true);
    let mut target = Target::new();
    let quads = [
        quad([0.0, 0.0, 64.0, 64.0], rgb(0.2, 0.2, 0.2)),
        quad([16.0, 16.0, 32.0, 32.0], rgb(0.9, 0.4, 0.1)),
    ];

    draw(&mut renderer, &mut target, &quads);
    let outcome = draw(&mut renderer, &mut target, &quads);

    assert!(
        matches!(outcome, FrameOutcome::Skipped(SkipReason::Undamaged)),
        "an identical frame should be skipped, was {outcome:?}"
    );
}

fn begin(renderer: &mut ZguiRenderer, quads: &[Quad]) -> Option<DamageSet> {
    match renderer.begin_draw_from(&painting_of(quads), DamageSet::new()) {
        DrawStart::Skip => None,
        DrawStart::Draw(damage) => Some(damage),
    }
}

fn finish(renderer: &mut ZguiRenderer, quads: &[Quad], damage: &DamageSet, outcome: FrameOutcome) {
    renderer.finish_draw(&painting_of(quads), damage, outcome, Frame::default());
}

#[test]
fn damage_that_was_not_submitted_is_drawn_again() {
    let mut renderer = renderer(true);
    let background = quad([0.0, 0.0, 64.0, 64.0], rgb(0.1, 0.1, 0.1));
    let spot = quad([28.0, 28.0, 8.0, 8.0], rgb(1.0, 0.0, 0.0));
    let first = begin(&mut renderer, &[background]).expect("the first frame draws");
    finish(&mut renderer, &[background], &first, FrameOutcome::Recovered);

    let second = begin(&mut renderer, &[background, spot]).expect("a quad appeared");
    assert!(covers(&second, 30, 30) && !covers(&second, 5, 5));
    let lost = FrameOutcome::Skipped(SkipReason::Unacquired);
    finish(&mut renderer, &[background, spot], &second, lost);

    let third = begin(&mut renderer, &[background, spot]).expect("the damage is still pending");
    assert!(covers(&third, 30, 30) && !covers(&third, 5, 5));
    let late = FrameOutcome::Skipped(SkipReason::Timeout);
    finish(&mut renderer, &[background, spot], &third, late);
    assert!(begin(&mut renderer, &[background, spot]).is_none());
}

#[test]
fn only_three_reasons_keep_damage() {
    for reason in [
        SkipReason::Unconfigured,
        SkipReason::Timeout,
        SkipReason::Unacquired,
        SkipReason::Occluded,
        SkipReason::Outdated,
        SkipReason::Validation,
        SkipReason::DeviceUnavailable,
        SkipReason::Undamaged,
    ] {
        let kept = reason == SkipReason::Unconfigured
            || reason == SkipReason::Unacquired
            || reason == SkipReason::DeviceUnavailable;
        assert_eq!(retires_damage(FrameOutcome::Skipped(reason)), !kept, "{reason:?}");
    }
    assert!(retires_damage(FrameOutcome::Presented { damage_px: 3 }));
    assert!(retires_damage(FrameOutcome::Recovered));
}

#[test]
fn a_resize_redraws_everything_once() {
    let mut renderer = renderer(true);
    let quads = [quad([0.0, 0.0, 8.0, 8.0], rgb(0.1, 0.1, 0.1))];
    let first = begin(&mut renderer, &quads).expect("the first frame draws");
    assert!(first.is_full());
    finish(&mut renderer, &quads, &first, FrameOutcome::Presented { damage_px: 1 });
    assert!(!renderer.resize(SIDE, SIDE, 1.0f32.to_bits()));
    assert!(begin(&mut renderer, &quads).is_none());
    assert!(renderer.resize(SIDE, SIDE, 2.0f32.to_bits()));
    let second = begin(&mut renderer, &quads).expect("the surface is new");
    assert!(second.is_full());
    finish(&mut renderer, &quads, &second, FrameOutcome::Presented { damage_px: 1 });
    assert!(begin(&mut renderer, &quads).is_none());
    assert!(renderer.resize(32, SIDE, 2.0f32.to_bits()));
}

#[test]
fn switching_the_mode_redraws_everything_once() {
    let mut renderer = renderer(true);
    let quads = [quad([0.0, 0.0, 8.0, 8.0], rgb(0.1, 0.1, 0.1))];
    let first = begin(&mut renderer, &quads).expect("the first frame draws");
    finish(&mut renderer, &quads, &first, FrameOutcome::Presented { damage_px: 1 });
    renderer.set_incremental(false);
    assert!(!renderer.is_incremental());
    for _ in 0..2 {
        assert!(begin(&mut renderer, &quads).expect("every frame draws").is_full());
    }
    renderer.set_incremental(true);
    assert!(begin(&mut renderer, &quads).expect("the target is not trusted").is_full());
}

#[test]
fn forced_damage_is_drawn_even_where_nothing_changed() {
    let mut renderer = renderer(true);
    let quads = [quad([0.0, 0.0, 8.0, 8.0], rgb(0.1, 0.1, 0.1))];
    let first = begin(&mut renderer, &quads).expect("the first frame draws");
    finish(&mut renderer, &quads, &first, FrameOutcome::Presented { damage_px: 1 });
    let start = renderer.begin_draw_from(&painting_of(&quads), DamageSet::full());
    assert!(matches!(start, DrawStart::Draw(damage) if damage.is_full()));
}

#[test]
fn most_of_the_surface_is_redrawn_whole() {
    let mut damage = Damage::new();
    let small = painting_of(&[quad([0.0, 0.0, 64.0, 44.0], rgb(0.1, 0.1, 0.1))]);
    let large = painting_of(&[quad([0.0, 0.0, 64.0, 45.0], rgb(0.1, 0.1, 0.1))]);
    damage.damage_from(&nothing(), SIDE, SIDE, DamageSet::new());
    damage.retire(true);
    // 44 of 64 rows are under seven tenths, and 45 are over.
    assert!(!damage.damage_from(&small, SIDE, SIDE, DamageSet::new()).is_full());
    damage.retire(true);
    damage.damage_from(&nothing(), SIDE, SIDE, DamageSet::new());
    damage.retire(true);
    assert!(damage.damage_from(&large, SIDE, SIDE, DamageSet::new()).is_full());
}

#[test]
fn too_many_changes_redraw_everything() {
    let spots = |count: i32| -> Painting {
        let quads = (0..count)
            .map(|i| Painted {
                bytes: i.to_le_bytes().to_vec(),
                rect: rect(i % 64, 0, 1, 1),
            })
            .collect();
        Painting { quads, ..nothing() }
    };
    let mut damage = Damage::new();
    damage.damage_for(&nothing(), SIDE, SIDE);
    damage.retire(true);
    let most = damage.damage_from(&spots(2048), SIDE, SIDE, DamageSet::new());
    assert!(!most.is_full());
    damage.retire(true);
    damage.damage_from(&nothing(), SIDE, SIDE, DamageSet::new());
    damage.retire(true);
    assert!(damage.damage_from(&spots(2049), SIDE, SIDE, DamageSet::new()).is_full());
}

#[test]
fn the_same_primitive_drawn_twice_differs_from_once() {
    let spot = Painted { bytes: vec![1, 2, 3], rect: rect(4, 4, 8, 8) };
    let once = Painting { quads: vec![spot.clone()], ..nothing() };
    let twice = Painting { quads: vec![spot.clone(), spot], ..nothing() };
    let mut damage = Damage::new();
    damage.damage_for(&once, SIDE, SIDE);
    damage.retire(true);
    let changed = damage.damage_from(&twice, SIDE, SIDE, DamageSet::new());
    assert!(covers(&changed, 5, 5) && !covers(&changed, 20, 20));
}

#[test]
fn reordering_without_overlap_damages_nothing() {
    let one = Painted { bytes: vec![1], rect: rect(0, 0, 8, 8) };
    let two = Painted { bytes: vec![2], rect: rect(20, 20, 8, 8) };
    let forth = Painting { quads: vec![one.clone(), two.clone()], ..nothing() };
    let back = Painting { quads: vec![two, one], ..nothing() };
    let mut damage = Damage::new();
    damage.damage_for(&forth, SIDE, SIDE);
    damage.retire(true);
    assert!(damage.damage_from(&back, SIDE, SIDE, DamageSet::new()).is_empty());
}

#[test]
fn an_invalidated_frame_is_redrawn_whole() {
    let mut damage = Damage::new();
    damage.damage_for(&nothing(), SIDE, SIDE);
    damage.retire(true);
    damage.invalidate();
    assert!(damage.damage_from(&nothing(), SIDE, SIDE, DamageSet::new()).is_full());
    damage.retire(true);
    assert!(damage.damage_from(&nothing(), SIDE, SIDE, DamageSet::new()).is_empty());
}

#[test]
fn a_surface_filled_from_outside_is_always_redrawn() {
    let video = Painting { surfaces: vec![rect(8, 8, 16, 16)], ..nothing() };
    let mut damage = Damage::new();
    damage.damage_for(&video, SIDE, SIDE);
    damage.retire(true);
    for _ in 0..2 {
        let changed = damage.damage_from(&video, SIDE, SIDE, DamageSet::new());
        assert!(covers(&changed, 10, 10) && !covers(&changed, 40, 40));
        damage.retire(true);
    }
}

fn filter(writes: Rect, reads: Rect) -> PaintedFilter {
    PaintedFilter {
        role: FilterRole::Backdrop,
        order: 1,
        bounds: BOUNDS,
        clip: BOUNDS,
        radii: RADII,
        opacity: 0,
        blurs: vec![4.0f32.to_bits()],
        writes,
        reads,
    }
}

const BOUNDS: Bounds = Bounds { x: 0, y: 0, width: 0, height: 0 };

const RADII: Corners = Corners { top_left: 0, top_right: 0, bottom_right: 0, bottom_left: 0 };

fn path(order: u32, fill: &[u8], vertices: Vec<Vertex>) -> PaintedPath {
    PaintedPath { order, fill: fill.to_vec(), clip: BOUNDS, vertices, rect: rect(4, 4, 8, 8) }
}

#[test]
fn a_filter_that_reads_damage_is_redrawn() {
    let blur = filter(rect(32, 0, 16, 16), rect(20, 0, 40, 30));
    let before = Painting { backdrop_filters: vec![blur.clone()], ..nothing() };
    let spot = Painted { bytes: vec![9], rect: rect(22, 2, 4, 4) };
    let after =
        Painting { quads: vec![spot], backdrop_filters: vec![blur], ..nothing() };
    let mut damage = Damage::new();
    damage.damage_for(&before, SIDE, SIDE);
    damage.retire(true);
    let changed = damage.damage_from(&after, SIDE, SIDE, DamageSet::new());
    assert!(covers(&changed, 23, 3), "the spot itself");
    assert!(covers(&changed, 40, 8), "what the filter writes");
    assert!(!covers(&changed, 40, 40));
}

#[test]
fn damage_grows_to_all_that_a_disturbed_filter_reads() {
    // What the filter writes is computed anew, and so what it reads has to be drawn beneath it.
    let mut set = DamageSet::new();
    set.absorb(zgui_geom::Rect::new(
        zgui_geom::Point::new(0, 0),
        zgui_geom::Size::new(1, 1),
    ));
    let readers = vec![Reader { source: rect(0, 0, 10, 10), writes: rect(2, 2, 2, 2) }];
    grow_for_filters(&mut set, &readers);
    for (x, y) in [(0, 0), (3, 3), (9, 0), (0, 9), (9, 9)] {
        assert!(covers(&set, x, y), "({x}, {y}) is read");
    }
    assert!(!covers(&set, 10, 10) && !set.is_full());
}

/// Whether `after` damages the pixel at (5, 5) and not the one at (30, 30), following `before`.
fn damages_its_place(before: &Painting, after: &Painting) -> bool {
    let mut damage = Damage::new();
    damage.damage_for(before, SIDE, SIDE);
    damage.retire(true);
    let changed = damage.damage_from(after, SIDE, SIDE, DamageSet::new());
    assert!(!covers(&changed, 30, 30));
    covers(&changed, 5, 5)
}

#[test]
fn a_path_that_changes_in_any_way_is_redrawn() {
    let corner = Vertex { x: 1, y: 2, s: 3, t: 4 };
    let drawn = path(1, &[7, 7], vec![corner]);
    let alone = |path: &PaintedPath| Painting { paths: vec![path.clone()], ..nothing() };
    assert!(!damages_its_place(&alone(&drawn), &alone(&drawn)));
    let clip = Bounds { height: 9, ..BOUNDS };
    for altered in [
        PaintedPath { fill: vec![7, 8], ..drawn.clone() },
        PaintedPath { clip, ..drawn.clone() },
        PaintedPath { order: 2, ..drawn.clone() },
        PaintedPath { vertices: vec![Vertex { s: 5, ..corner }], ..drawn.clone() },
        PaintedPath { vertices: vec![corner, corner, corner], ..drawn.clone() },
    ] {
        assert!(damages_its_place(&alone(&drawn), &alone(&altered)), "{altered:?}");
    }
}

#[test]
fn a_filter_that_changes_in_any_way_is_redrawn() {
    let drawn = filter(rect(4, 4, 8, 8), rect(0, 0, 16, 16));
    let alone =
        |filter: &PaintedFilter| Painting { filter_boundaries: vec![filter.clone()], ..nothing() };
    assert!(!damages_its_place(&alone(&drawn), &alone(&drawn)));
    let clip = Bounds { width: 9, ..BOUNDS };
    let radii = Corners { bottom_left: 3, ..RADII };
    for altered in [
        PaintedFilter { role: FilterRole::GroupStart, ..drawn.clone() },
        PaintedFilter { role: FilterRole::GroupEnd, ..drawn.clone() },
        PaintedFilter { order: 2, ..drawn.clone() },
        PaintedFilter { bounds: clip, ..drawn.clone() },
        PaintedFilter { clip, ..drawn.clone() },
        PaintedFilter { radii, ..drawn.clone() },
        PaintedFilter { opacity: 1, ..drawn.clone() },
        PaintedFilter { blurs: vec![], ..drawn.clone() },
    ] {
        assert!(damages_its_place(&alone(&drawn), &alone(&altered)), "{altered:?}");
    }
}

#[test]
fn a_filter_that_reads_no_damage_is_left() {
    let mut set = DamageSet::new();
    set.absorb(zgui_geom::Rect::new(
        zgui_geom::Point::new(0, 0),
        zgui_geom::Size::new(4, 4),
    ));
    let readers =
        vec![Reader { source: rect(30, 30, 10, 10), writes: rect(32, 32, 4, 4) }];
    grow_for_filters(&mut set, &readers);
    assert_eq!(set.rects().len(), 1);
    assert!(!covers(&set, 33, 33));
}

#[test]
fn a_chain_of_filters_is_followed() {
    let mut set = DamageSet::new();
    set.absorb(zgui_geom::Rect::new(
        zgui_geom::Point::new(0, 0),
        zgui_geom::Size::new(2, 2),
    ));
    // Each reads what the next in the list writes, so every round reaches one further.
    let link = |i: i32| Reader {
        source: rect(i * 10, 0, 4, 4),
        writes: rect(i * 10 + 10, 0, 4, 4),
    };
    grow_for_filters(&mut set, &vec![link(2), link(1), link(0)]);
    assert!(!set.is_full());
    for i in 0..4 {
        assert!(covers(&set, i * 10, 0));
    }
    let mut long = DamageSet::new();
    long.absorb(zgui_geom::Rect::new(
        zgui_geom::Point::new(0, 0),
        zgui_geom::Size::new(2, 2),
    ));
    grow_for_filters(&mut long, &vec![link(4), link(3), link(2), link(1), link(0)]);
    assert!(long.is_full(), "a chain that does not settle damages everything");
}

#[test]
fn a_snapshot_holds_what_the_surface_shows() {
    let painting = Painting {
        quads: vec![
            Painted { bytes: vec![1, 2, 3], rect: rect(-4, -4, 10, 10) },
            Painted { bytes: vec![4], rect: rect(100, 100, 10, 10) },
        ],
        shadows: vec![
            PaintedShadow {
                bytes: vec![5],
                inset: 0,
                shape: rect(10, 10, 4, 4),
                reached: rect(4, 4, 16, 16),
            },
            PaintedShadow {
                bytes: vec![6],
                inset: 1,
                shape: rect(10, 10, 4, 4),
                reached: rect(4, 4, 16, 16),
            },
        ],
        surfaces: vec![rect(60, 60, 10, 10)],
        filter_boundaries: vec![filter(rect(0, 0, 8, 8), rect(-8, -8, 24, 24))],
        ..nothing()
    };
    let mut into = Snapshot::new();
    snapshot(&painting, rect(0, 0, SIDE, SIDE), &mut into);
    let rects: Vec<Rect> = into.entries.iter().map(|entry| entry.rect).collect();
    assert_eq!(
        rects,
        vec![rect(0, 0, 6, 6), rect(4, 4, 16, 16), rect(10, 10, 4, 4), rect(0, 0, 8, 8)]
    );
    let mut hasher = FxHasher::default();
    [1u8, 2, 3][..].hash(&mut hasher);
    assert_eq!(into.entries[0].hash, hasher.finish());
    assert_eq!(into.always, vec![rect(60, 60, 4, 4)]);
    assert_eq!(
        into.readers,
        vec![Reader { source: rect(0, 0, 16, 16), writes: rect(0, 0, 8, 8) }]
    );
}

#[test]
fn paths_and_filters_are_hashed_by_what_they_are() {
    let path = PaintedPath {
        clip: Bounds { x: 5, y: 6, width: 7, height: 8 },
        ..path(3, &[9, 10, 11], vec![Vertex { x: 1, y: 2, s: 3, t: 4 }])
    };
    let mut hasher = FxHasher::default();
    [9u8, 10, 11][..].hash(&mut hasher);
    for word in [3u32, 5, 6, 7, 8, 1, 2, 3, 4] {
        word.hash(&mut hasher);
    }
    assert_eq!(hash_path(&path), hasher.finish());

    let filter = PaintedFilter {
        role: FilterRole::GroupEnd,
        order: 1,
        bounds: Bounds { x: 3, y: 4, width: 5, height: 6 },
        clip: Bounds { x: 7, y: 8, width: 9, height: 10 },
        radii: Corners { top_left: 11, top_right: 12, bottom_right: 13, bottom_left: 14 },
        opacity: 15,
        blurs: vec![16],
        writes: rect(0, 0, 1, 1),
        reads: rect(0, 0, 1, 1),
    };
    let mut hasher = FxHasher::default();
    for word in [2u32, 1, 3, 4, 5, 6, 7, 8, 9, 10, 11, 12, 13, 14, 15] {
        word.hash(&mut hasher);
    }
    // Each filter of the chain is told apart by a byte of its own.
    0u8.hash(&mut hasher);
    16u32.hash(&mut hasher);
    assert_eq!(hash_filters(&filter), hasher.finish());

    let painting = Painting { paths: vec![path.clone()], ..nothing() };
    let mut into = Snapshot::new();
    snapshot(&painting, rect(0, 0, SIDE, SIDE), &mut into);
    let mut outer = FxHasher::default();
    hash_path(&path).to_le_bytes()[..].hash(&mut outer);
    assert_eq!(into.entries[0].hash, outer.finish());
}

#[test]
fn a_number_is_added_multiplied_and_rotated() {
    let pixel = rect(0, 0, 1, 1);
    let filter = PaintedFilter { order: 0, opacity: 5, blurs: vec![], ..filter(pixel, pixel) };
    let expected = if usize::BITS == 64 {
        5u64.wrapping_mul(0xf135_7aea_2e62_a9c5).rotate_left(26)
    } else {
        u64::from(5u32.wrapping_mul(0x93d7_65dd).rotate_left(15))
    };
    assert_eq!(hash_filters(&filter), expected);
    // Nothing fed but zero leaves a hasher at zero.
    assert_eq!(hash_filters(&PaintedFilter { opacity: 0, ..filter }), 0);
}

#[test]
fn surfaces_keep_their_handles() {
    let mut renderer = renderer(true);
    assert_eq!(
        renderer.register_surfaces(&vec![true, false, true]),
        vec![Some(1), None, Some(2)]
    );
    assert_eq!(
        renderer.register_surfaces(&vec![true, true, true]),
        vec![Some(1), Some(3), Some(2)]
    );
    assert_eq!(renderer.register_surfaces(&vec![]), Vec::<Option<u64>>::new());
    assert_eq!(renderer.register_surfaces(&vec![false, true]), vec![None, Some(3)]);
}

#[test]
fn what_is_missing_is_reported_when_it_changes() {
    let mut renderer = renderer(true);
    let none = Unsupported::default();
    let some = Unsupported { paths: 1, foreign_surfaces: 0, patterns: 2 };
    assert_eq!(renderer.report(none), None);
    assert_eq!(renderer.report(some), Some(some));
    assert_eq!(renderer.report(some), None);
    assert_eq!(renderer.report(none), None);
    assert_eq!(renderer.report(some), Some(some));
}

#[test]
fn settings_are_read_as_they_are_documented() {
    for off in ["0", "off", "false"] {
        assert!(!incremental_enabled(Some(off.to_string())));
    }
    for on in ["1", "", "on", "FALSE"] {
        assert!(incremental_enabled(Some(on.to_string())));
    }
    assert!(incremental_enabled(None));
    assert!(stats_enabled(Some("1".to_string())));
    assert!(!stats_enabled(Some("true".to_string())));
    assert!(!stats_enabled(None));
}

#[test]
fn drawn_frames_are_measured() {
    let target =
        RenderTarget { width: SIDE, height: SIDE, scale: 1.0f32.to_bits(), opaque: true };
    let mut renderer = ZguiRenderer::new(target, true, true);
    assert!(renderer.is_measuring());
    assert!(renderer.summary().is_none());
    let quads = [quad([0.0, 0.0, 8.0, 8.0], rgb(0.1, 0.1, 0.1))];
    let first = begin(&mut renderer, &quads).expect("the first frame draws");
    let spent = Frame { compare: 5, ..Frame::default() };
    let lost = FrameOutcome::Skipped(SkipReason::Unacquired);
    assert!(renderer.finish_draw(&painting_of(&quads), &first, lost, spent).is_none());
    let moved = [quad([0.0, 0.0, 8.0, 8.0], rgb(0.2, 0.1, 0.1))];
    let second = begin(&mut renderer, &moved).expect("everything is still pending");
    let shown = FrameOutcome::Presented { damage_px: 100 };
    assert!(renderer.finish_draw(&painting_of(&moved), &second, shown, spent).is_none());
    assert!(begin(&mut renderer, &moved).is_none());
    let summary = renderer.summary().expect("frames were drawn");
    assert_eq!((summary.drawn, summary.skipped, summary.full), (2, 1, 2));
    assert_eq!(summary.surface, 2 * 64 * 64);
    assert_eq!(summary.damaged, 64 * 64 + 100);
    assert_eq!(summary.compare, 10);
    assert_eq!(summary.primitives_per_frame, 1);
}

#[test]
fn a_frame_that_cannot_be_added_up_is_told_in_advance() {
    let target =
        RenderTarget { width: SIDE, height: SIDE, scale: 1.0f32.to_bits(), opaque: true };
    let quads = [quad([0.0, 0.0, 8.0, 8.0], rgb(0.1, 0.1, 0.1))];
    let painting = painting_of(&quads);
    let shown = FrameOutcome::Presented { damage_px: u64::MAX };
    let mut measuring = ZguiRenderer::new(target, true, true);
    let damage = begin(&mut measuring, &quads).expect("the first frame draws");
    let long = Frame { submit: LONGEST, ..Frame::default() };
    assert!(measuring.can_finish(&painting, &damage, shown, long));
    let longer = Frame { submit: LONGEST, compare: 1, ..Frame::default() };
    assert!(!measuring.can_finish(&painting, &damage, shown, longer));
    finish(&mut measuring, &quads, &damage, shown);
    // The pixels that were presented are all that can be counted.
    let one = FrameOutcome::Presented { damage_px: 1 };
    assert!(!measuring.can_finish(&painting, &damage, one, Frame::default()));
    let none = FrameOutcome::Presented { damage_px: 0 };
    assert!(measuring.can_finish(&painting, &damage, none, Frame::default()));
    // Without measuring, nothing is added up.
    let idle = ZguiRenderer::new(target, true, false);
    assert!(idle.can_finish(&painting, &damage, shown, longer));
}

#[test]
fn a_small_change_makes_a_small_redraw() {
    let mut damage = Damage::new();
    damage.damage_for(&nothing(), SIDE, SIDE);
    damage.retire(true);
    // A filter that reads elsewhere does not widen what is redrawn.
    let elsewhere = filter(rect(50, 50, 4, 4), rect(48, 48, 8, 8));
    let spot = Painted { bytes: vec![1], rect: rect(4, 4, 8, 8) };
    let first = Painting { backdrop_filters: vec![elsewhere.clone()], ..nothing() };
    damage.damage_from(&first, SIDE, SIDE, DamageSet::new());
    damage.retire(true);
    let second =
        Painting { quads: vec![spot], backdrop_filters: vec![elsewhere], ..nothing() };
    let changed = damage.damage_from(&second, SIDE, SIDE, DamageSet::new());
    assert!(!changed.is_full());
    assert_eq!(changed.rects().len(), 1);
    for (x, y, inside) in [(4, 4, true), (11, 11, true), (3, 4, false), (12, 11, false)] {
        assert_eq!(covers(&changed, x, y), inside);
    }
}

#[test]
fn half_of_the_surface_is_redrawn_in_parts() {
    for total in [2u128, 4096, 3840 * 2160, 1 << 30, (1 << 40) + 7] {
        assert!(!is_past_share(total / 2, total));
        assert!(is_past_share(total, total));
    }
}

#[test]
fn what_was_pending_stays_beside_what_changed() {
    let mut damage = Damage::new();
    damage.damage_for(&nothing(), SIDE, SIDE);
    damage.retire(true);
    let one = Painted { bytes: vec![1], rect: rect(0, 0, 8, 8) };
    let two = Painted { bytes: vec![2], rect: rect(40, 40, 8, 8) };
    let first = Painting { quads: vec![one.clone()], ..nothing() };
    let second = Painting { quads: vec![one, two], ..nothing() };
    let drawn = damage.damage_from(&first, SIDE, SIDE, DamageSet::new());
    assert_eq!(drawn.rects().len(), 1);
    damage.retire(false);
    let both = damage.damage_from(&second, SIDE, SIDE, DamageSet::new());
    assert!(covers(&both, 4, 4) && covers(&both, 44, 44) && !covers(&both, 20, 20));
}
