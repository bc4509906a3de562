//! Paths as coverage masks.

use std::hash::Hash;
use std::hash::Hasher;

use gpui_zgui::atlas::ZguiAtlas;
use gpui_zgui::path::flat_color;
use gpui_zgui::path::handle_of;
use gpui_zgui::path::mask;
use gpui_zgui::path::masks;
use gpui_zgui::path::FlatColor;
use gpui_zgui::path::Outline;
use gpui_zgui::path::MAX_SIDE;
use gpui_zgui::pool::AtlasLimits;
use gpui_zgui::raster::raster;
use gpui_zgui::raster::Sample;
use gpui_zgui::raster::TriangleBox;
use gpui_zgui::renderer::atlas_limits;
use gpui_zgui::scene::Background;
use gpui_zgui::scene::ColorSpace;
use gpui_zgui::scene::ColorStop;
use gpui_zgui::scene::Hsla;
use gpui_zgui::snapshot::Vertex;
use rustc_hash::FxHasher;
use zgui_atlas::MemorySink;

fn hsla(h: f32, s: f32, l: f32, a: f32) -> Hsla {
    Hsla { h: h.to_bits(), s: s.to_bits(), l: l.to_bits(), a: a.to_bits() }
}

/// The triangles of a filled square: a fan from its first corner, as filling one makes.
fn square(size: f32) -> Vec<[f32; 2]> {
    vec![
        [0.0, 0.0],
        [size, 0.0],
        [size, size],
        [0.0, 0.0],
        [size, size],
        [0.0, size],
    ]
}

/// An outline measured from `(left, top)`, whose mask is a square of `side` pixels.
fn outline(points: &[[f32; 2]], left: f32, top: f32, side: i32) -> Outline {
    Outline {
        vertices: points
            .iter()
            .map(|point| Vertex {
                x: (point[0] - left).to_bits(),
                y: (point[1] - top).to_bits(),
                s: 0.0f32.to_bits(),
                t: 1.0f32.to_bits(),
            })
            .collect(),
        left: left.to_bits(),
        top: top.to_bits(),
        width: side,
        height: side,
        background: Background::Solid { color: hsla(0.0, 1.0, 0.5, 1.0) },
    }
}

/// Twice the signed area of the triangle with these corners.
fn area(points: &[[f32; 2]]) -> f32 {
    (points[1][0] - points[0][0]) * (points[2][1] - points[0][1])
        - (points[2][0] - points[0][0]) * (points[1][1] - points[0][1])
}

/// The triangles' boxes in whole pixels.
fn boxes(points: &[[f32; 2]]) -> Vec<TriangleBox> {
    points
        .chunks_exact(3)
        .map(|triangle| {
            let low = |axis: usize| triangle.iter().map(|p| p[axis]).fold(f32::MAX, f32::min);
            let high = |axis: usize| triangle.iter().map(|p| p[axis]).fold(f32::MIN, f32::max);
            TriangleBox {
                degenerate: area(triangle).abs() < f32::EPSILON,
                left: low(0).floor() as i32,
                top: low(1).floor() as i32,
                right: high(0).ceil() as i32,
                bottom: high(1).ceil() as i32,
            }
        })
        .collect()
}

/// Whether a triangle covers one of the four points of a pixel.
fn covers(points: &[[f32; 2]], sample: Sample) -> bool {
    let triangle = &points[sample.triangle * 3..sample.triangle * 3 + 3];
    let x = sample.column as f32 + (sample.sub_x as f32 + 0.5) * 0.5;
    let y = sample.row as f32 + (sample.sub_y as f32 + 0.5) * 0.5;
    let area = area(triangle);
    let weigh = |i: usize, j: usize| {
        ((triangle[i][0] - x) * (triangle[j][1] - y)
            - (triangle[j][0] - x) * (triangle[i][1] - y))
            / area
    };
    let w0 = weigh(1, 2);
    let w1 = weigh(2, 0);
    let w2 = 1.0 - w0 - w1;
    w0 >= 0.0 && w1 >= 0.0 && w2 >= 0.0
}

fn rasterise(points: &[[f32; 2]], width: i32, height: i32) -> Vec<u8> {
    raster(&boxes(points), width, height, |sample: Sample| covers(points, sample))
}

#[test]
fn a_filled_square_covers_its_interior() {
    let bytes = rasterise(&square(16.0), 16, 16);
    // Well inside the shape, coverage is complete.
    assert_eq!(bytes[(8 * 16 + 8) as usize], 255);
}

#[test]
fn nothing_is_covered_outside_the_shape() {
    let bytes = rasterise(&square(8.0), 16, 16);
    assert_eq!(
        bytes[(12 * 16 + 12) as usize],
        0,
        "a pixel beyond the square should be clear"
    );
}

#[test]
fn a_translated_path_keeps_its_identity() {
    // The mask is measured from its own origin, so moving a path must not re-rasterise it.
    let here = outline(&square(16.0), 0.0, 0.0, 16);
    let points: Vec<[f32; 2]> =
        square(16.0).iter().map(|point| [point[0] + 40.0, point[1]]).collect();
    let moved = outline(&points, 40.0, 0.0, 16);
    assert_eq!(handle_of(&here), handle_of(&moved));
}

#[test]
fn a_differently_shaped_path_gets_a_different_identity() {
    assert_ne!(
        handle_of(&outline(&square(16.0), 0.0, 0.0, 16)),
        handle_of(&outline(&square(20.0), 0.0, 0.0, 20))
    );
}

#[test]
fn a_gradient_fill_collapses_to_the_mean_of_its_stops() {
    // Red and blue, by hue.
    let red = hsla(0.0, 1.0, 0.5, 1.0);
    let blue = hsla(2.0 / 3.0, 1.0, 0.5, 1.0);
    let background = Background::LinearGradient {
        angle: 0.0f32.to_bits(),
        first: ColorStop { color: red, percentage: 0.0f32.to_bits() },
        second: ColorStop { color: blue, percentage: 1.0f32.to_bits() },
        space: ColorSpace::Srgb,
    };
    let FlatColor::Mean(first, second) = flat_color(&background) else {
        panic!("a ramp has a mean");
    };
    // The channels of a fully saturated colour of middle lightness, by its hue.
    let channels = |color: Hsla| -> [f32; 3] {
        let hue = f32::from_bits(color.h) * 6.0;
        [
            ((hue - 3.0).abs() - 1.0).clamp(0.0, 1.0),
            (2.0 - (hue - 2.0).abs()).clamp(0.0, 1.0),
            (2.0 - (hue - 4.0).abs()).clamp(0.0, 1.0),
        ]
    };
    let (one, two) = (channels(first), channels(second));
    let mean_red = (one[0] + two[0]) / 2.0;
    let mean_blue = (one[2] + two[2]) / 2.0;
    assert!((mean_red - 0.5).abs() < 0.02, "red was {mean_red}");
    assert!((mean_blue - 0.5).abs() < 0.02, "blue was {mean_blue}");
}

#[test]
fn a_flat_fill_or_a_pattern_keeps_its_colour() {
    let color = hsla(0.1, 0.2, 0.3, 0.4);
    for background in [
        Background::Solid { color },
        Background::PatternSlash { color },
        Background::Checkerboard { color },
    ] {
        assert_eq!(flat_color(&background), FlatColor::Exact(color));
    }
}

#[test]
fn the_identity_is_the_hash_of_the_shape_and_the_size() {
    let path = outline(&square(3.0), 0.0, 0.0, 3);
    let mut hasher = FxHasher::default();
    "gpui_zgui::path".hash(&mut hasher);
    for point in square(3.0) {
        point[0].to_bits().hash(&mut hasher);
        point[1].to_bits().hash(&mut hasher);
        0.0f32.to_bits().hash(&mut hasher);
        1.0f32.to_bits().hash(&mut hasher);
    }
    3u32.hash(&mut hasher);
    3u32.hash(&mut hasher);
    assert_eq!(handle_of(&path), hasher.finish());
}

#[test]
fn coverage_counts_the_points() {
    let whole = vec![TriangleBox { degenerate: false, left: 0, top: 0, right: 1, bottom: 1 }];
    let order = |sample: Sample| sample.sub_y * 2 + sample.sub_x;
    for (points, expected) in [(0, 0u8), (1, 64), (2, 128), (3, 191), (4, 255)] {
        let bytes = raster(&whole, 1, 1, |sample: Sample| order(sample) < points);
        assert_eq!(bytes, vec![expected]);
    }
}

#[test]
fn coverage_saturates() {
    let pixel = TriangleBox { degenerate: false, left: 0, top: 0, right: 1, bottom: 1 };
    let bytes = raster(&vec![pixel, pixel, pixel], 1, 1, |_: Sample| true);
    assert_eq!(bytes, vec![255]);
    let halves = raster(&vec![pixel, pixel], 1, 1, |sample: Sample| {
        sample.triangle as i32 == sample.sub_y
    });
    assert_eq!(halves, vec![255]);
    let one = raster(&vec![pixel, pixel], 1, 1, |sample: Sample| {
        sample.sub_y == 0 && sample.sub_x == 0
    });
    assert_eq!(one, vec![128]);
}

#[test]
fn a_degenerate_triangle_covers_nothing() {
    let flat = TriangleBox { degenerate: true, left: 0, top: 0, right: 4, bottom: 4 };
    assert_eq!(raster(&vec![flat], 4, 4, |_: Sample| true), vec![0; 16]);
}

#[test]
fn a_box_past_the_mask_is_cut_off() {
    let wide = TriangleBox { degenerate: false, left: -5, top: 1, right: 9, bottom: 9 };
    let bytes = raster(&vec![wide], 2, 2, |_: Sample| true);
    assert_eq!(bytes, vec![0, 0, 255, 255]);
}

#[test]
fn a_mask_is_rasterised_once() {
    let mut atlas = ZguiAtlas::<u64>::new(atlas_limits(4096));
    let path = outline(&square(16.0), 8.0, 4.0, 16);
    let mut rasters = 0;
    let first = mask(&mut atlas, &path, || {
        rasters += 1;
        rasterise(&square(16.0), 16, 16)
    });
    let again = mask(&mut atlas, &path, || {
        rasters += 1;
        vec![]
    });
    assert_eq!(rasters, 1);
    assert_eq!(first, again);
    let first = first.expect("the mask fits");
    assert_eq!(f32::from_bits(first.left), 8.0);
    assert_eq!(f32::from_bits(first.top), 4.0);
    assert_eq!((first.width, first.height), (16, 16));
    assert_eq!(first.color, FlatColor::Exact(hsla(0.0, 1.0, 0.5, 1.0)));

    let mut sink = MemorySink::new();
    atlas.with_atlas().flush_uploads(&mut sink).expect("memory takes every upload");
    let texture = zgui_atlas::TextureId {
        index: first.tile.index,
        kind: zgui_atlas::TextureKind::Mono,
    };
    let middle = (first.tile.bounds.x + 8, first.tile.bounds.y + 8);
    assert_eq!(sink.texel(texture, middle.0, middle.1), Some(&[255u8][..]));
}

#[test]
fn a_path_that_covers_nothing_has_no_mask() {
    let mut atlas = ZguiAtlas::<u64>::new(atlas_limits(4096));
    let path = outline(&square(16.0), 0.0, 0.0, 0);
    assert!(mask(&mut atlas, &path, || panic!("nothing is rasterised")).is_none());
}

#[test]
fn a_path_that_is_too_large_has_no_mask() {
    let mut atlas = ZguiAtlas::<u64>::new(atlas_limits(4096));
    let path = outline(&square(16.0), 0.0, 0.0, MAX_SIDE + 1);
    assert!(mask(&mut atlas, &path, || panic!("nothing is rasterised")).is_none());
    assert!(atlas.with_atlas().is_empty());
    assert_eq!(MAX_SIDE, 2048);
}

#[test]
fn a_mask_the_atlas_refuses_is_none() {
    let mut atlas = ZguiAtlas::<u64>::new(atlas_limits(4096));
    let path = outline(&square(16.0), 0.0, 0.0, 16);
    assert!(mask(&mut atlas, &path, || vec![0; 3]).is_none());
}

#[test]
fn a_moved_path_reuses_its_mask_at_its_new_corner() {
    // The clip stays where it is; the path moves under it and is cut off by nothing.
    let mut atlas = ZguiAtlas::<u64>::new(atlas_limits(4096));
    let here = outline(&square(16.0), 0.0, 0.0, 16);
    let points: Vec<[f32; 2]> =
        square(16.0).iter().map(|point| [point[0] + 40.0, point[1] + 8.0]).collect();
    let there = outline(&points, 40.0, 8.0, 16);
    let first = mask(&mut atlas, &here, || rasterise(&square(16.0), 16, 16))
        .expect("the mask fits");
    let moved = mask(&mut atlas, &there, || panic!("the mask is there")).expect("the mask fits");
    assert_eq!(first.tile, moved.tile);
    assert_eq!((f32::from_bits(moved.left), f32::from_bits(moved.top)), (40.0, 8.0));
}

#[test]
fn a_path_that_its_clip_cuts_gets_another_mask() {
    let whole = outline(&square(16.0), 0.0, 0.0, 16);
    let cut = outline(&square(16.0), 0.0, 0.0, 8);
    assert_ne!(handle_of(&whole), handle_of(&cut));
}

#[test]
fn every_path_gets_its_mask_in_order() {
    let mut atlas = ZguiAtlas::<u64>::new(atlas_limits(4096));
    let outlines = vec![
        outline(&square(8.0), 0.0, 0.0, 8),
        outline(&square(8.0), 0.0, 0.0, 0),
        outline(&square(8.0), 0.0, 0.0, 8),
        outline(&square(4.0), 0.0, 0.0, 4),
        outline(&square(8.0), 0.0, 0.0, MAX_SIDE + 1),
    ];
    let rasterised = std::cell::RefCell::new(vec![]);
    let given = masks(&mut atlas, &outlines, |at: usize| {
        rasterised.borrow_mut().push(at);
        let side = outlines[at].width;
        rasterise(&square(side as f32), side, side)
    });
    // The first path's mask serves the third, and two paths have none.
    assert_eq!(*rasterised.borrow(), vec![0, 3]);
    assert_eq!(given.len(), 5);
    assert_eq!(given[0], given[2]);
    let sides: Vec<Option<i32>> = given.iter().map(|mask| mask.map(|mask| mask.width)).collect();
    assert_eq!(sides, vec![Some(8), None, Some(8), Some(4), None]);
    assert_ne!(given[0].map(|mask| mask.tile), given[3].map(|mask| mask.tile));
    assert!(masks(&mut atlas, &vec![], |_: usize| vec![]).is_empty());
}

#[test]
fn the_order_of_the_triangles_does_not_matter() {
    // Three triangles of which the first and the last overlap.
    let points = [
        [0.0, 0.0],
        [12.0, 0.0],
        [0.0, 12.0],
        [4.0, 15.0],
        [15.0, 15.0],
        [15.0, 3.0],
        [1.0, 1.0],
        [9.0, 2.0],
        [3.0, 10.0],
    ];
    let forth = rasterise(&points, 16, 16);
    let back: Vec<[f32; 2]> = points.chunks_exact(3).rev().flatten().copied().collect();
    assert_eq!(rasterise(&back, 16, 16), forth);
    // A triangle without area adds nothing, wherever it stands.
    let mut flat = vec![[2.0, 2.0], [6.0, 6.0], [10.0, 10.0]];
    flat.extend_from_slice(&points);
    assert_eq!(rasterise(&flat, 16, 16), forth);
}

#[test]
fn a_mask_is_refused_only_for_want_of_room() {
    // One texture, as large as the first mask, and then nothing is left.
    let limits = AtlasLimits {
        texture_size: 64,
        max_texture_size: 64,
        max_textures_per_pool: 1,
        soft_bytes: None,
    };
    let mut atlas = ZguiAtlas::<u64>::new(limits);
    let small = |side: i32| outline(&square(side as f32), 0.0, 0.0, side);
    for side in [8, 9, 10] {
        let given = mask(&mut atlas, &small(side), || rasterise(&square(16.0), side, side));
        assert!(given.is_some(), "a pool that holds tiles still has room");
    }
    assert!(mask(&mut atlas, &small(64), || rasterise(&square(64.0), 64, 64)).is_none());
    let again = mask(&mut atlas, &small(8), || panic!("the mask is there"));
    assert!(again.is_some());
}
