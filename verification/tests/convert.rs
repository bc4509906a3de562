//! Carrying values from one vocabulary to the other.

use gpui_zgui::atlas::tile_for;
use gpui_zgui::convert::atlas_tile;
use gpui_zgui::convert::border_widths;
use gpui_zgui::convert::bounds_array;
use gpui_zgui::convert::corner_radii;
use gpui_zgui::convert::corner_radii_array;
use gpui_zgui::convert::device_bounds;
use gpui_zgui::convert::point;
use gpui_zgui::convert::rect;
use gpui_zgui::convert::size;
use gpui_zgui::convert::texel_rect;
use gpui_zgui::convert::texel_size;
use gpui_zgui::convert::DeviceBounds;
use gpui_zgui::geom::Rect;
use gpui_zgui::pool::Tile;
use gpui_zgui::scene::Bounds;
use gpui_zgui::scene::Corners;
use gpui_zgui::scene::Edges;

fn bounds(x: f32, y: f32, width: f32, height: f32) -> Bounds {
    Bounds {
        x: x.to_bits(),
        y: y.to_bits(),
        width: width.to_bits(),
        height: height.to_bits(),
    }
}

fn radii() -> Corners {
    Corners {
        top_left: 4.0f32.to_bits(),
        top_right: 8.0f32.to_bits(),
        bottom_right: 0.0f32.to_bits(),
        bottom_left: 2.0f32.to_bits(),
    }
}

#[test]
fn a_circular_radius_widens_to_a_square_ellipse() {
    assert_eq!(
        corner_radii_array(radii()).map(f32::from_bits),
        [4.0, 4.0, 8.0, 8.0, 0.0, 0.0, 2.0, 2.0]
    );
}

#[test]
fn bounds_keep_their_origin_and_extent() {
    let bounds = bounds(3.0, 5.0, 20.0, 10.0);
    assert_eq!(bounds_array(bounds).map(f32::from_bits), [3.0, 5.0, 20.0, 10.0]);
    let converted = rect(bounds);
    assert_eq!(f32::from_bits(converted.origin.x), 3.0);
    assert_eq!(f32::from_bits(converted.size.height), 10.0);
}

#[test]
fn every_corner_keeps_its_own_radius() {
    let widened = corner_radii(radii());
    assert_eq!(f32::from_bits(widened.top_left.x), 4.0);
    assert_eq!(f32::from_bits(widened.top_left.y), 4.0);
    assert_eq!(f32::from_bits(widened.top_right.x), 8.0);
    assert_eq!(f32::from_bits(widened.bottom_right.y), 0.0);
    assert_eq!(f32::from_bits(widened.bottom_left.y), 2.0);
}

#[test]
fn border_widths_run_clockwise_from_the_top() {
    let edges = Edges {
        top: 1.0f32.to_bits(),
        right: 2.0f32.to_bits(),
        bottom: 3.0f32.to_bits(),
        left: 4.0f32.to_bits(),
    };
    assert_eq!(border_widths(edges).map(f32::from_bits), [1.0, 2.0, 3.0, 4.0]);
}

#[test]
fn a_corner_and_an_extent_are_taken_apart() {
    let bounds = bounds(3.0, 5.0, 20.0, 10.0);
    assert_eq!(f32::from_bits(point(bounds).y), 5.0);
    assert_eq!(f32::from_bits(size(bounds).width), 20.0);
}

#[test]
fn rectangles_of_texels_survive_the_round_trip() {
    let bounds = DeviceBounds { origin: (-3, 7), size: (20, 10) };
    let texels = texel_rect(bounds);
    assert_eq!(texels, Rect { x: -3, y: 7, width: 20, height: 10 });
    assert_eq!(device_bounds(texels), bounds);
    assert_eq!(texel_size(bounds), (20, 10));
}

#[test]
fn tiles_survive_the_round_trip() {
    let tile = Tile { index: 3, tile: 11, bounds: Rect { x: 8, y: 16, width: 4, height: 2 } };
    for pool in [0usize, 1, 2] {
        assert_eq!(atlas_tile(tile_for(pool, tile)), (pool, tile));
    }
}
