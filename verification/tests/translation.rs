//! Checks that a scene, rewritten as a display list, produces the pixels it should.
//!
//! The display list is painted by a small painter kept here, so a mistranslated field, clip, paint
//! or order shows up as a wrong pixel.

use gpui_zgui::atlas::AtlasKey;
use gpui_zgui::atlas::AtlasTextureKind;
use gpui_zgui::atlas::AtlasTile;
use gpui_zgui::atlas::LookupError;
use gpui_zgui::atlas::ZguiAtlas;
use gpui_zgui::filters::Filter;
use gpui_zgui::path::mask;
use gpui_zgui::path::FlatColor;
use gpui_zgui::path::Mask;
use gpui_zgui::path::Outline;
use gpui_zgui::raster::raster;
use gpui_zgui::raster::Sample;
use gpui_zgui::raster::TriangleBox;
use gpui_zgui::renderer::atlas_limits;
use gpui_zgui::scene::BackdropFilter;
use gpui_zgui::scene::Background;
use gpui_zgui::scene::Batch;
use gpui_zgui::scene::BorderStyle;
use gpui_zgui::scene::Bounds;
use gpui_zgui::scene::ColorSpace;
use gpui_zgui::scene::ColorStop;
use gpui_zgui::scene::Corners;
use gpui_zgui::scene::Edges;
use gpui_zgui::scene::FilterBoundary;
use gpui_zgui::scene::Hsla;
use gpui_zgui::scene::PaintSurface;
use gpui_zgui::scene::Path;
use gpui_zgui::scene::PolychromeSprite;
use gpui_zgui::scene::Quad;
use gpui_zgui::scene::Scene;
use gpui_zgui::scene::Shadow;
use gpui_zgui::scene::TintedSprite;
use gpui_zgui::scene::Underline;
use gpui_zgui::snapshot::Vertex;
use gpui_zgui::spatial::Space;
use gpui_zgui::spatial::TransformationMatrix;
use gpui_zgui::translate::ClipLink;
use gpui_zgui::translate::DecorationStyle;
use gpui_zgui::translate::DisplayList;
use gpui_zgui::translate::Draw;
use gpui_zgui::translate::Paint;
use gpui_zgui::translate::Translator;
use gpui_zgui::translate::Unsupported;
use zgui_atlas::MemorySink;
use zgui_atlas::TextureId;
use zgui_atlas::TextureKind;

const SIDE: i32 = 64;

type Rgba = [f32; 4];

fn bounds(x: f32, y: f32, width: f32, height: f32) -> Bounds {
    Bounds {
        x: x.to_bits(),
        y: y.to_bits(),
        width: width.to_bits(),
        height: height.to_bits(),
    }
}

fn edges_of(bounds: Bounds) -> [f32; 4] {
    let (x, y) = (f32::from_bits(bounds.x), f32::from_bits(bounds.y));
    [x, y, x + f32::from_bits(bounds.width), y + f32::from_bits(bounds.height)]
}

fn grown(bounds: Bounds, by: f32) -> Bounds {
    let [left, top, right, bottom] = edges_of(bounds);
    self::bounds(left - by, top - by, right - left + 2.0 * by, bottom - top + 2.0 * by)
}

fn full_mask() -> Bounds {
    bounds(0.0, 0.0, SIDE as f32, SIDE as f32)
}

fn square() -> Corners {
    Corners { top_left: 0, top_right: 0, bottom_right: 0, bottom_left: 0 }
}

/// A colour by its channels.
fn rgb(r: f32, g: f32, b: f32) -> Hsla {
    let max = r.max(g).max(b);
    let min = r.min(g).min(b);
    let delta = max - min;
    let l = (max + min) / 2.0;
    let s = if delta == 0.0 { 0.0 } else { delta / (1.0 - (2.0 * l - 1.0).abs()) };
    let h = if delta == 0.0 {
        0.0
    } else if max == r {
        ((g - b) / delta).rem_euclid(6.0) / 6.0
    } else if max == g {
        ((b - r) / delta + 2.0) / 6.0
    } else {
        ((r - g) / delta + 4.0) / 6.0
    };
    Hsla { h: h.to_bits(), s: s.to_bits(), l: l.to_bits(), a: 1.0f32.to_bits() }
}

fn channels(color: Hsla) -> Rgba {
    let (h, s, l, a) = (
        f32::from_bits(color.h),
        f32::from_bits(color.s),
        f32::from_bits(color.l),
        f32::from_bits(color.a),
    );
    let chroma = (1.0 - (2.0 * l - 1.0).abs()) * s;
    let channel = |shift: f32| {
        let k = (h * 6.0 + shift).rem_euclid(6.0);
        l - chroma / 2.0 + chroma * (2.0 - (k - 3.0).abs()).clamp(0.0, 1.0)
    };
    [channel(3.0), channel(1.0), channel(5.0), a]
}

fn quad(at: Bounds, background: Background) -> Quad {
    Quad {
        border_style: BorderStyle::Solid,
        bounds: at,
        content_mask: full_mask(),
        background,
        border_color: Hsla { h: 0, s: 0, l: 0, a: 0 },
        corner_radii: square(),
        border_widths: Edges { top: 0, right: 0, bottom: 0, left: 0 },
    }
}

fn solid(color: Hsla) -> Background {
    Background::Solid { color }
}

fn empty() -> Scene {
    Scene {
        shadows: vec![],
        quads: vec![],
        underlines: vec![],
        monochrome_sprites: vec![],
        subpixel_sprites: vec![],
        polychrome_sprites: vec![],
        surfaces: vec![],
        backdrop_filters: vec![],
        filter_boundaries: vec![],
        paths: vec![],
        batches: vec![],
    }
}

fn scene_of(quads: Vec<Quad>) -> Scene {
    let end = quads.len();
    Scene { quads, batches: vec![Batch::Quads { start: 0, end }], ..empty() }
}

fn translate(scene: &Scene) -> DisplayList {
    Translator::new().translate(scene, &vec![], &vec![])
}

fn inside(bounds: Bounds, x: f32, y: f32) -> bool {
    let [left, top, right, bottom] = edges_of(bounds);
    left <= x && x < right && top <= y && y < bottom
}

fn inside_rounded(bounds: Bounds, radii: Corners, x: f32, y: f32) -> bool {
    if !inside(bounds, x, y) {
        return false;
    }
    let [left, top, right, bottom] = edges_of(bounds);
    let cut = |radius: u32, dx: f32, dy: f32| {
        let r = f32::from_bits(radius);
        dx < r && dy < r && (r - dx).hypot(r - dy) > r
    };
    !(cut(radii.top_left, x - left, y - top)
        || cut(radii.top_right, right - x, y - top)
        || cut(radii.bottom_right, right - x, bottom - y)
        || cut(radii.bottom_left, x - left, bottom - y))
}

/// Half of the normal distribution's mass up to `x`, minus a half.
fn gauss(x: f32) -> f32 {
    let t = 1.0 / (1.0 + 0.2316419 * x.abs());
    let poly = t
        * (0.319_381_53
            + t * (-0.356_563_78 + t * (1.781_477_9 + t * (-1.821_255_9 + t * 1.330_274_4))));
    let tail = (-x * x / 2.0).exp() * 0.398_942_3 * poly;
    if x >= 0.0 {
        1.0 - tail
    } else {
        tail
    }
}

#[derive(Clone)]
struct Canvas {
    /// Premultiplied.
    pixels: Vec<Rgba>,
}

impl Canvas {
    fn new() -> Canvas {
        Canvas { pixels: vec![[0.0; 4]; (SIDE * SIDE) as usize] }
    }

    fn over(&mut self, x: i32, y: i32, color: Rgba, coverage: f32) {
        let alpha = color[3] * coverage;
        let pixel = &mut self.pixels[(y * SIDE + x) as usize];
        for channel in 0..3 {
            pixel[channel] = color[channel] * alpha + pixel[channel] * (1.0 - alpha);
        }
        pixel[3] = alpha + pixel[3] * (1.0 - alpha);
    }

    fn rgba(&self, x: i32, y: i32) -> [u8; 4] {
        self.pixels[(y * SIDE + x) as usize].map(|value| (value * 255.0).round() as u8)
    }

    /// The contents blurred by a standard deviation.
    fn blurred(&self, deviation: f32) -> Canvas {
        let weights: Vec<f32> = (-(SIDE - 1)..SIDE)
            .map(|d| {
                gauss((d as f32 + 0.5) / deviation) - gauss((d as f32 - 0.5) / deviation)
            })
            .collect();
        let weight = |d: i32| weights[(d + SIDE - 1) as usize];
        let pass = |from: &Canvas, horizontal: bool| {
            let mut into = Canvas::new();
            for y in 0..SIDE {
                for x in 0..SIDE {
                    for k in 0..SIDE {
                        let (other, d) = if horizontal {
                            (y * SIDE + k, k - x)
                        } else {
                            (k * SIDE + x, k - y)
                        };
                        for channel in 0..4 {
                            into.pixels[(y * SIDE + x) as usize][channel] +=
                                from.pixels[other as usize][channel] * weight(d);
                        }
                    }
                }
            }
            into
        };
        pass(&pass(self, true), false)
    }
}

fn mix(one: Rgba, two: Rgba, t: f32) -> Rgba {
    let mut mixed = [0.0; 4];
    for channel in 0..4 {
        mixed[channel] = one[channel] * (1.0 - t) + two[channel] * t;
    }
    mixed
}

/// Paints a display list whose tiles were flushed to `sink`.
struct Painter<'a> {
    list: &'a DisplayList,
    sink: &'a MemorySink,
}

impl Painter<'_> {
    fn admits(&self, clip: usize, x: f32, y: f32) -> bool {
        match self.list.clips[clip] {
            ClipLink::Rect { bounds } => inside(bounds, x, y),
            ClipLink::Rounded { outer, bounds, radii } => {
                inside_rounded(bounds, radii, x, y) && self.admits(outer, x, y)
            }
        }
    }

    fn color(&self, paint: usize, x: f32, y: f32) -> Rgba {
        match self.list.paints[paint] {
            Paint::Solid { color } => channels(color),
            Paint::Gradient { angle, bounds, first, second, .. } => {
                let [left, top, right, bottom] = edges_of(bounds);
                let radians = (f32::from_bits(angle) - 90.0).to_radians();
                let (dx, dy) = (radians.cos(), radians.sin());
                let span = if dx.abs() > dy.abs() { right - left } else { bottom - top };
                let along = (x - (left + right) / 2.0) * dx + (y - (top + bottom) / 2.0) * dy;
                let t = along / span + 0.5;
                let (from, to) =
                    (f32::from_bits(first.percentage), f32::from_bits(second.percentage));
                mix(
                    channels(first.color),
                    channels(second.color),
                    ((t - from) / (to - from)).clamp(0.0, 1.0),
                )
            }
        }
    }

    fn texel(&self, kind: TextureKind, index: u32, x: i32, y: i32) -> Vec<u8> {
        let texture = TextureId { kind, index };
        self.sink.texel(texture, x, y).expect("the tile was uploaded").to_vec()
    }

    fn paint(&self) -> Canvas {
        let mut open: Vec<Canvas> = vec![];
        let mut canvas = Canvas::new();
        for draw in &self.list.draws {
            if let Draw::Group { clip, opacity, filters, is_start, .. } = draw {
                if *is_start {
                    open.push(std::mem::replace(&mut canvas, Canvas::new()));
                } else {
                    let mut layer =
                        std::mem::replace(&mut canvas, open.pop().expect("markers are paired"));
                    for filter in filters.to_vec() {
                        match filter {
                            Filter::Blur(deviation) => {
                                layer = layer.blurred(f32::from_bits(deviation));
                            }
                            Filter::Opacity(_) => unreachable!("a group fades as a whole"),
                        }
                    }
                    for y in 0..SIDE {
                        for x in 0..SIDE {
                            if !self.admits(*clip, x as f32 + 0.5, y as f32 + 0.5) {
                                continue;
                            }
                            let [r, g, b, a] = layer.pixels[(y * SIDE + x) as usize];
                            if a > 0.0 {
                                let straight = [r / a, g / a, b / a, a];
                                canvas.over(x, y, straight, f32::from_bits(*opacity));
                            }
                        }
                    }
                }
                continue;
            }
            for y in 0..SIDE {
                for x in 0..SIDE {
                    if let Some((color, coverage)) = self.shade(draw, x, y) {
                        canvas.over(x, y, color, coverage);
                    }
                }
            }
        }
        assert!(open.is_empty(), "every group was closed");
        canvas
    }

    fn shade(
        &self,
        draw: &Draw<usize, usize, gpui_zgui::filters::FilterChain>,
        x: i32,
        y: i32,
    ) -> Option<(Rgba, f32)> {
        let (px, py) = (x as f32 + 0.5, y as f32 + 0.5);
        match draw {
            Draw::Quad { clip, fill, stroke, bounds, radii, border, .. } => {
                if !self.admits(*clip, px, py) || !inside_rounded(*bounds, *radii, px, py) {
                    return None;
                }
                let [left, top, right, bottom] = edges_of(*bounds);
                let edge = px < left + f32::from_bits(border.left)
                    || px >= right - f32::from_bits(border.right)
                    || py < top + f32::from_bits(border.top)
                    || py >= bottom - f32::from_bits(border.bottom);
                let paint = match stroke {
                    Some(stroke) if edge => *stroke,
                    _ => *fill,
                };
                Some((self.color(paint, px, py), 1.0))
            }
            Draw::Shadow { clip, blur, bounds, shape, color, inset, .. } => {
                assert!(!inset, "only drop shadows are painted here");
                if !self.admits(*clip, px, py) || !inside(*bounds, px, py) {
                    return None;
                }
                let deviation = f32::from_bits(*blur);
                let [left, top, right, bottom] = edges_of(*shape);
                let across =
                    gauss((px - left) / deviation) - gauss((px - right) / deviation);
                let down = gauss((py - top) / deviation) - gauss((py - bottom) / deviation);
                Some((channels(*color), across * down))
            }
            Draw::ColorSprite { clip, bounds, tile, opacity, .. } => {
                if !self.admits(*clip, px, py) || !inside(*bounds, px, py) {
                    return None;
                }
                let [left, top, ..] = edges_of(*bounds);
                let texel = self.texel(
                    TextureKind::Color,
                    tile.texture_index,
                    tile.bounds.x + (px - left) as i32,
                    tile.bounds.y + (py - top) as i32,
                );
                let color = [texel[0], texel[1], texel[2], texel[3]].map(|c| c as f32 / 255.0);
                Some((color, f32::from_bits(*opacity)))
            }
            Draw::Mask { clip, mask } => {
                let at = bounds(
                    f32::from_bits(mask.left),
                    f32::from_bits(mask.top),
                    mask.width as f32,
                    mask.height as f32,
                );
                if !self.admits(*clip, px, py) || !inside(at, px, py) {
                    return None;
                }
                let [left, top, ..] = edges_of(at);
                let coverage = self.texel(
                    TextureKind::Mono,
                    mask.tile.index,
                    mask.tile.bounds.x + (px - left) as i32,
                    mask.tile.bounds.y + (py - top) as i32,
                )[0];
                let color = match mask.color {
                    FlatColor::Exact(color) => channels(color),
                    FlatColor::Mean(one, two) => mix(channels(one), channels(two), 0.5),
                };
                Some((color, coverage as f32 / 255.0))
            }
            _ => unreachable!("no other primitive is painted here"),
        }
    }
}

fn render(scene: &Scene) -> Canvas {
    Painter { list: &translate(scene), sink: &MemorySink::new() }.paint()
}

fn assert_pixel(pixels: &Canvas, x: i32, y: i32, expected: [u8; 4]) {
    let actual = pixels.rgba(x, y);
    let worst =
        actual.iter().zip(expected.iter()).map(|(a, b)| a.abs_diff(*b)).max().unwrap_or(0);
    assert!(worst <= 2, "pixel at ({x}, {y}) was {actual:?}, expected about {expected:?}");
}

#[test]
fn a_solid_quad_fills_its_bounds_and_nothing_else() {
    let pixels =
        render(&scene_of(vec![quad(bounds(16.0, 16.0, 32.0, 32.0), solid(rgb(1.0, 0.0, 0.0)))]));

    assert_pixel(&pixels, 32, 32, [255, 0, 0, 255]);
    assert_pixel(&pixels, 17, 17, [255, 0, 0, 255]);
    assert_pixel(&pixels, 46, 46, [255, 0, 0, 255]);
    assert_pixel(&pixels, 4, 4, [0, 0, 0, 0]);
    assert_pixel(&pixels, 60, 60, [0, 0, 0, 0]);
}

#[test]
fn later_primitives_paint_over_earlier_ones() {
    let pixels = render(&scene_of(vec![
        quad(bounds(0.0, 0.0, 64.0, 64.0), solid(rgb(0.0, 0.0, 1.0))),
        quad(bounds(16.0, 16.0, 32.0, 32.0), solid(rgb(0.0, 1.0, 0.0))),
    ]));

    assert_pixel(&pixels, 32, 32, [0, 255, 0, 255]);
    assert_pixel(&pixels, 4, 4, [0, 0, 255, 255]);
}

#[test]
fn a_content_mask_clips_what_it_excludes() {
    let mut clipped = quad(bounds(0.0, 0.0, 64.0, 64.0), solid(rgb(1.0, 0.0, 0.0)));
    clipped.content_mask = bounds(0.0, 0.0, 32.0, 64.0);
    let pixels = render(&scene_of(vec![clipped]));

    assert_pixel(&pixels, 16, 32, [255, 0, 0, 255]);
    assert_pixel(&pixels, 48, 32, [0, 0, 0, 0]);
}

#[test]
fn corner_radii_round_the_corners_they_name() {
    let mut rounded = quad(bounds(0.0, 0.0, 64.0, 64.0), solid(rgb(1.0, 1.0, 1.0)));
    rounded.corner_radii = Corners { top_left: 24.0f32.to_bits(), ..square() };
    let pixels = render(&scene_of(vec![rounded]));

    // The named corner is cut away; the other three are square. This is also what catches the
    // corner order being rotated, which a uniform radius could never show.
    assert_pixel(&pixels, 1, 1, [0, 0, 0, 0]);
    assert_pixel(&pixels, 62, 1, [255, 255, 255, 255]);
    assert_pixel(&pixels, 62, 62, [255, 255, 255, 255]);
    assert_pixel(&pixels, 1, 62, [255, 255, 255, 255]);
}

#[test]
fn a_border_draws_in_its_own_colour_inside_the_bounds() {
    let mut bordered = quad(bounds(0.0, 0.0, 64.0, 64.0), solid(rgb(0.0, 0.0, 0.0)));
    bordered.border_color = rgb(1.0, 0.0, 0.0);
    let width = 8.0f32.to_bits();
    bordered.border_widths = Edges { top: width, right: width, bottom: width, left: width };
    let pixels = render(&scene_of(vec![bordered]));

    assert_pixel(&pixels, 4, 32, [255, 0, 0, 255]);
    assert_pixel(&pixels, 32, 4, [255, 0, 0, 255]);
    assert_pixel(&pixels, 32, 32, [0, 0, 0, 255]);
}

#[test]
fn a_linear_gradient_runs_the_way_its_angle_says() {
    // 180 degrees points down, so the first stop is at the top.
    let pixels = render(&scene_of(vec![quad(
        bounds(0.0, 0.0, 64.0, 64.0),
        Background::LinearGradient {
            angle: 180.0f32.to_bits(),
            first: ColorStop { color: rgb(1.0, 0.0, 0.0), percentage: 0.0f32.to_bits() },
            second: ColorStop { color: rgb(0.0, 1.0, 0.0), percentage: 1.0f32.to_bits() },
            space: ColorSpace::Srgb,
        },
    )]));

    let top = pixels.rgba(32, 1);
    let bottom = pixels.rgba(32, 62);
    assert!(
        top[0] > 200 && top[1] < 60,
        "the top should be nearly the first stop, was {top:?}"
    );
    assert!(
        bottom[1] > 200 && bottom[0] < 60,
        "the bottom should be nearly the second stop, was {bottom:?}"
    );
}

fn shadow(at: Bounds, blur: f32, inset: u32) -> Shadow {
    Shadow {
        bounds: at,
        reached: grown(at, 3.0 * blur),
        content_mask: full_mask(),
        blur_radius: blur.to_bits(),
        corner_radii: square(),
        color: rgb(0.0, 0.0, 0.0),
        inset,
        element_bounds: at,
        element_corner_radii: square(),
    }
}

#[test]
fn a_drop_shadow_paints_outside_the_box_that_cast_it() {
    let element = bounds(24.0, 24.0, 16.0, 16.0);
    let scene = Scene {
        shadows: vec![shadow(element, 4.0, 0)],
        batches: vec![Batch::Shadows { start: 0, end: 1 }],
        ..empty()
    };
    let pixels = render(&scene);

    // Just outside the casting box the shadow is present but not opaque. This is what catches the
    // missing three-sigma dilation: without it the tail is cut off and this pixel is empty.
    let tail = pixels.rgba(24, 20);
    assert!(
        tail[3] > 8 && tail[3] < 250,
        "the gaussian tail should be faintly present outside the box, alpha was {}",
        tail[3]
    );
    // Far outside the reach of three standard deviations, nothing is painted.
    assert_pixel(&pixels, 2, 2, [0, 0, 0, 0]);
}

#[test]
fn a_patterned_fill_degrades_to_its_flat_colour_rather_than_vanishing() {
    let pixels = render(&scene_of(vec![quad(
        bounds(0.0, 0.0, 64.0, 64.0),
        Background::Checkerboard { color: rgb(1.0, 1.0, 1.0) },
    )]));
    assert_pixel(&pixels, 32, 32, [255, 255, 255, 255]);
}

#[test]
fn a_blur_group_spreads_its_contents_beyond_their_bounds() {
    let marker = |is_start: bool| FilterBoundary {
        bounds: bounds(8.0, 8.0, 48.0, 48.0),
        content_mask: full_mask(),
        corner_radii: square(),
        blurs: vec![4.0f32.to_bits()],
        opacity: 1.0f32.to_bits(),
        is_start,
    };
    let scene = Scene {
        quads: vec![quad(bounds(24.0, 24.0, 16.0, 16.0), solid(rgb(1.0, 1.0, 1.0)))],
        filter_boundaries: vec![marker(true), marker(false)],
        batches: vec![
            Batch::FilterBoundary { index: 0 },
            Batch::Quads { start: 0, end: 1 },
            Batch::FilterBoundary { index: 1 },
        ],
        ..empty()
    };
    let pixels = render(&scene);

    // The centre stays bright and the edge softens: a group that failed to isolate would leave a
    // hard edge, and one that was dropped entirely would leave nothing at all.
    assert!(pixels.rgba(32, 32)[3] > 200, "the centre should be drawn");
    let outside = pixels.rgba(20, 32);
    assert!(
        outside[3] > 10 && outside[3] < 200,
        "the blur should spread past the quad's edge, alpha was {}",
        outside[3]
    );
}

#[test]
fn a_transformed_sprite_lands_where_its_matrix_puts_it() {
    // A sprite needs a tile, and the only honest way to get one is through the atlas.
    let mut atlas = ZguiAtlas::<u64>::new(atlas_limits(4096));
    let key = AtlasKey { kind: AtlasTextureKind::Polychrome, id: 1u64 };
    let found: Result<Option<AtlasTile>, LookupError<()>> =
        atlas.get_or_insert_with(&key, || Ok(Some((8, 8, vec![255u8; 8 * 8 * 4]))));
    let tile = match found {
        Ok(tile) => tile.expect("the build produced content"),
        Err(_) => panic!("the tile fits"),
    };
    let mut sink = MemorySink::new();
    atlas.with_atlas().flush_uploads(&mut sink).expect("memory takes every upload");
    let scene = Scene {
        polychrome_sprites: vec![PolychromeSprite {
            bounds: bounds(8.0, 8.0, 8.0, 8.0),
            content_mask: full_mask(),
            corner_radii: square(),
            tile,
            opacity: 1.0f32.to_bits(),
            grayscale: false,
        }],
        batches: vec![Batch::PolychromeSprites { start: 0, end: 1 }],
        ..empty()
    };
    let pixels = Painter { list: &translate(&scene), sink: &sink }.paint();
    assert!(
        pixels.rgba(12, 12)[3] > 200,
        "the sprite should be drawn where its bounds put it"
    );
    assert_pixel(&pixels, 20, 12, [0, 0, 0, 0]);
}

/// The mask of a square path of `size` pixels at `(left, top)`.
fn square_mask(atlas: &mut ZguiAtlas<u64>, left: f32, top: f32, size: i32, color: Hsla) -> Mask {
    let side = size as f32;
    let points = [[0.0, 0.0], [side, 0.0], [side, side], [0.0, 0.0], [side, side], [0.0, side]];
    let outline = Outline {
        vertices: points
            .iter()
            .map(|p: &[f32; 2]| Vertex {
                x: p[0].to_bits(),
                y: p[1].to_bits(),
                s: 0,
                t: 1.0f32.to_bits(),
            })
            .collect(),
        left: left.to_bits(),
        top: top.to_bits(),
        width: size,
        height: size,
        background: solid(color),
    };
    let whole = TriangleBox { degenerate: false, left: 0, top: 0, right: size, bottom: size };
    // One triangle lies above the diagonal and the other below it.
    let covers = |sample: Sample| {
        let x = sample.column as f32 + (sample.sub_x as f32 + 0.5) * 0.5;
        let y = sample.row as f32 + (sample.sub_y as f32 + 0.5) * 0.5;
        if sample.triangle == 0 {
            x >= y
        } else {
            x <= y
        }
    };
    mask(atlas, &outline, || raster(&vec![whole, whole], size, size, covers))
        .expect("the mask fits")
}

#[test]
fn a_path_is_drawn_through_its_rasterised_mask() {
    // What matters is that the shape ends up drawn, filled, with nothing outside it.
    let mut atlas = ZguiAtlas::<u64>::new(atlas_limits(4096));
    let drawn = square_mask(&mut atlas, 8.0, 8.0, 48, rgb(1.0, 1.0, 0.0));
    let mut sink = MemorySink::new();
    atlas.with_atlas().flush_uploads(&mut sink).expect("memory takes every upload");
    let scene = Scene {
        paths: vec![Path { content_mask: full_mask() }],
        batches: vec![Batch::Paths { start: 0, end: 1 }],
        ..empty()
    };
    let list = Translator::new().translate(&scene, &vec![Some(drawn)], &vec![]);
    let pixels = Painter { list: &list, sink: &sink }.paint();

    let inside = pixels.rgba(32, 32);
    assert!(
        inside[0] > 200 && inside[1] > 200 && inside[2] < 60,
        "the path's interior should be filled, was {inside:?}"
    );
    assert_pixel(&pixels, 2, 2, [0, 0, 0, 0]);
}

#[test]
fn consecutive_primitives_share_clips_and_fills() {
    let white = solid(rgb(1.0, 1.0, 1.0));
    let black = solid(rgb(0.0, 0.0, 0.0));
    let at = bounds(0.0, 0.0, 8.0, 8.0);
    let mut other = quad(at, black);
    other.content_mask = bounds(0.0, 0.0, 32.0, 32.0);
    let list = translate(&scene_of(vec![
        quad(at, white),
        quad(at, white),
        other,
        quad(at, white),
    ]));
    assert_eq!(list.clips.len(), 3);
    assert_eq!(list.paints.len(), 3);
    assert_eq!(list.draws.len(), 4);
    assert!(list.missing.is_empty());
}

#[test]
fn what_cannot_be_drawn_is_counted() {
    let scene = Scene {
        quads: vec![
            quad(full_mask(), Background::PatternSlash { color: rgb(1.0, 0.0, 0.0) }),
            quad(full_mask(), Background::Checkerboard { color: rgb(1.0, 0.0, 0.0) }),
        ],
        surfaces: vec![
            PaintSurface { bounds: full_mask(), content_mask: full_mask() },
            PaintSurface { bounds: full_mask(), content_mask: full_mask() },
        ],
        paths: vec![Path { content_mask: full_mask() }],
        batches: vec![
            Batch::Quads { start: 0, end: 2 },
            Batch::Surfaces { start: 0, end: 2 },
            Batch::Paths { start: 0, end: 1 },
        ],
        ..empty()
    };
    let list = Translator::new().translate(&scene, &vec![None], &vec![None, Some(7)]);
    assert_eq!(list.missing, Unsupported { paths: 1, foreign_surfaces: 1, patterns: 2 });
    assert_eq!(list.draws.len(), 3);
    assert!(matches!(list.draws[2], Draw::External { texture: 7, .. }));
}

#[test]
fn a_backdrop_rounds_through_its_clip_and_fades_through_its_filters() {
    let backdrop = BackdropFilter {
        bounds: bounds(8.0, 8.0, 16.0, 16.0),
        content_mask: full_mask(),
        corner_radii: Corners { bottom_left: 4.0f32.to_bits(), ..square() },
        blurs: vec![1.0f32.to_bits(), 2.0f32.to_bits()],
        opacity: 0.5f32.to_bits(),
    };
    let plain = BackdropFilter {
        corner_radii: square(),
        opacity: 1.0f32.to_bits(),
        ..backdrop.clone()
    };
    let scene = Scene {
        backdrop_filters: vec![backdrop.clone(), plain],
        batches: vec![Batch::BackdropFilters { start: 0, end: 2 }],
        ..empty()
    };
    let list = translate(&scene);
    assert_eq!(
        list.clips,
        vec![
            ClipLink::Rect { bounds: full_mask() },
            ClipLink::Rounded {
                outer: 0,
                bounds: backdrop.bounds,
                radii: backdrop.corner_radii,
            },
        ]
    );
    let Draw::Backdrop { clip: 1, filters, .. } = &list.draws[0] else {
        panic!("a backdrop comes first");
    };
    assert_eq!(
        filters.to_vec(),
        vec![
            Filter::Blur(1.0f32.to_bits()),
            Filter::Blur(2.0f32.to_bits()),
            Filter::Opacity(0.5f32.to_bits()),
        ]
    );
    let Draw::Backdrop { clip: 0, filters, .. } = &list.draws[1] else {
        panic!("a plain backdrop keeps the plain clip");
    };
    assert_eq!(filters.to_vec().len(), 2);
}

#[test]
fn a_shadow_inside_its_box_keeps_its_shape() {
    let element = bounds(24.0, 24.0, 16.0, 16.0);
    let scene = Scene {
        shadows: vec![shadow(element, 4.0, 1), shadow(element, 4.0, 0)],
        batches: vec![Batch::Shadows { start: 0, end: 2 }],
        ..empty()
    };
    let list = translate(&scene);
    assert!(matches!(
        list.draws[0],
        Draw::Shadow { bounds, shape, inset: true, .. } if bounds == element && shape == element
    ));
    assert!(matches!(
        list.draws[1],
        Draw::Shadow { bounds, inset: false, .. } if bounds == self::bounds(12.0, 12.0, 40.0, 40.0)
    ));
}

#[test]
fn sprites_are_drawn_in_the_space_of_their_transform() {
    let tile = AtlasTile {
        texture_index: 0,
        texture_kind: AtlasTextureKind::Monochrome,
        tile_id: 0,
        padding: 0,
        bounds: gpui_zgui::geom::Rect { x: 0, y: 0, width: 1, height: 1 },
    };
    let sprite = |scale: f32| TintedSprite {
        bounds: full_mask(),
        content_mask: full_mask(),
        color: rgb(0.0, 0.0, 0.0),
        tile,
        transformation: TransformationMatrix {
            row0_col0: scale.to_bits(),
            row0_col1: 0,
            row1_col0: 0,
            row1_col1: scale.to_bits(),
            translation0: 0,
            translation1: 0,
        },
    };
    let scene = Scene {
        monochrome_sprites: vec![sprite(1.0), sprite(2.0)],
        subpixel_sprites: vec![sprite(2.0), sprite(3.0)],
        batches: vec![
            Batch::MonochromeSprites { start: 0, end: 2 },
            Batch::SubpixelSprites { start: 0, end: 2 },
        ],
        ..empty()
    };
    let mut translator = Translator::new();
    let list = translator.translate(&scene, &vec![], &vec![]);
    assert!(matches!(list.draws[0], Draw::MonoSprite { space: Space::Viewport, .. }));
    assert!(matches!(
        list.draws[1],
        Draw::MonoSprite { space: Space::Owned { owner: 1, .. }, .. }
    ));
    assert!(matches!(
        list.draws[2],
        Draw::SubpixelSprite { space: Space::Owned { owner: 1, .. }, .. }
    ));
    assert!(matches!(
        list.draws[3],
        Draw::SubpixelSprite { space: Space::Owned { owner: 2, .. }, .. }
    ));
    assert_eq!(translator.begin_frame(), Vec::<u64>::new());
    translator.translate(&empty(), &vec![], &vec![]);
    let mut released = translator.begin_frame();
    released.sort();
    assert_eq!(released, vec![1, 2]);
}

#[test]
fn underlines_keep_their_line() {
    let underline = |wavy: bool| Underline {
        bounds: full_mask(),
        content_mask: full_mask(),
        color: rgb(0.0, 0.0, 0.0),
        thickness: 2.0f32.to_bits(),
        wavy,
    };
    let scene = Scene {
        underlines: vec![underline(true), underline(false)],
        batches: vec![Batch::Underlines { start: 0, end: 2 }],
        ..empty()
    };
    let list = translate(&scene);
    assert!(matches!(
        list.draws[0],
        Draw::Decoration { line: DecorationStyle::Wavy, .. }
    ));
    assert!(matches!(
        list.draws[1],
        Draw::Decoration { line: DecorationStyle::Solid, .. }
    ));
}

#[test]
fn a_marker_that_is_not_there_is_let_be() {
    let scene = Scene { batches: vec![Batch::FilterBoundary { index: 3 }], ..empty() };
    let list = translate(&scene);
    assert!(list.draws.is_empty());
    assert!(list.missing.is_empty());
}
