//! Turning the scene's geometry into the display list's.
//!
//! Both measure in device pixels with y growing downward, so almost everything here is a change of
//! shape. Corner radii are circular in the scene and elliptical in the display list; widening a
//! circle to an ellipse loses nothing.

use vstd::prelude::*;

use crate::atlas::pool_of;
use crate::atlas::sprite_tile;
use crate::atlas::texture_kind;
use crate::atlas::AtlasTile;
use crate::geom::Rect;
use crate::input::Point;
use crate::pool::Tile;
use crate::pool::POOLS;
use crate::scene::Bounds;
use crate::scene::Corners;
use crate::scene::Edges;

verus! {

/// A size, as float bits.
#[derive(Clone, Copy, Debug, PartialEq, Eq, Structural)]
pub struct Size {
    pub width: u32,
    pub height: u32,
}

/// A rectangle by its corner and its size, as float bits.
#[derive(Clone, Copy, Debug, PartialEq, Eq, Structural)]
pub struct DeviceRect {
    pub origin: Point,
    pub size: Size,
}

/// A rectangle of whole pixels by its corner and its size.
#[derive(Clone, Copy, Debug, PartialEq, Eq)]
pub struct DeviceBounds {
    pub origin: (i32, i32),
    pub size: (i32, i32),
}

/// A horizontal and a vertical radius for each corner, as float bits.
#[derive(Clone, Copy, Debug, PartialEq, Eq, Structural)]
pub struct EllipticalCorners {
    pub top_left: Point,
    pub top_right: Point,
    pub bottom_right: Point,
    pub bottom_left: Point,
}

/// The corner of a rectangle.
pub fn point(bounds: Bounds) -> (point: Point)
    ensures
        point == (Point { x: bounds.x, y: bounds.y }),
{
    Point { x: bounds.x, y: bounds.y }
}

/// The size of a rectangle.
pub fn size(bounds: Bounds) -> (size: Size)
    ensures
        size == (Size { width: bounds.width, height: bounds.height }),
{
    Size { width: bounds.width, height: bounds.height }
}

/// A rectangle by its corner and its size.
pub fn rect(bounds: Bounds) -> (rect: DeviceRect)
    ensures
        rect.origin == (Point { x: bounds.x, y: bounds.y }),
        rect.size == (Size { width: bounds.width, height: bounds.height }),
{
    DeviceRect { origin: point(bounds), size: size(bounds) }
}

/// The same pixels, flat.
pub open spec fn flat_rect(bounds: DeviceBounds) -> Rect {
    Rect {
        x: bounds.origin.0,
        y: bounds.origin.1,
        width: bounds.size.0,
        height: bounds.size.1,
    }
}

/// The same pixels, by corner and size.
pub open spec fn nested_rect(rect: Rect) -> DeviceBounds {
    DeviceBounds { origin: (rect.x, rect.y), size: (rect.width, rect.height) }
}

/// A rectangle of whole pixels, as a tile is addressed by.
pub fn texel_rect(bounds: DeviceBounds) -> (rect: Rect)
    ensures
        rect == flat_rect(bounds),
{
    Rect {
        x: bounds.origin.0,
        y: bounds.origin.1,
        width: bounds.size.0,
        height: bounds.size.1,
    }
}

/// The size of a rectangle of whole pixels.
pub fn texel_size(bounds: DeviceBounds) -> (size: (i32, i32))
    ensures
        size == bounds.size,
{
    bounds.size
}

/// A tile's rectangle by its corner and its size.
pub fn device_bounds(rect: Rect) -> (bounds: DeviceBounds)
    ensures
        bounds == nested_rect(rect),
{
    DeviceBounds { origin: (rect.x, rect.y), size: (rect.width, rect.height) }
}

/// The pool a sprite's tile is in, and the tile it samples.
pub fn atlas_tile(tile: AtlasTile) -> (sampled: (usize, Tile))
    ensures
        sampled.0 == pool_of(tile.texture_kind),
        sampled.0 < POOLS,
        sampled.1 == (Tile {
            index: tile.texture_index,
            tile: tile.tile_id,
            bounds: tile.bounds,
        }),
{
    (
        texture_kind(tile.texture_kind),
        Tile { index: tile.texture_index, tile: tile.tile_id, bounds: tile.bounds },
    )
}

/// A radius for both axes.
pub open spec fn widened(radius: u32) -> Point {
    Point { x: radius, y: radius }
}

fn widen(radius: u32) -> (both: Point)
    ensures
        both == widened(radius),
{
    Point { x: radius, y: radius }
}

/// Circular corner radii, as elliptical ones.
pub fn corner_radii(radii: Corners) -> (widened_radii: EllipticalCorners)
    ensures
        widened_radii == (EllipticalCorners {
            top_left: widened(radii.top_left),
            top_right: widened(radii.top_right),
            bottom_right: widened(radii.bottom_right),
            bottom_left: widened(radii.bottom_left),
        }),
{
    EllipticalCorners {
        top_left: widen(radii.top_left),
        top_right: widen(radii.top_right),
        bottom_right: widen(radii.bottom_right),
        bottom_left: widen(radii.bottom_left),
    }
}

/// Circular corner radii, flattened into the eight numbers an instance carries.
pub fn corner_radii_array(radii: Corners) -> (flattened: [u32; 8])
    ensures
        flattened@ == seq![
            radii.top_left,
            radii.top_left,
            radii.top_right,
            radii.top_right,
            radii.bottom_right,
            radii.bottom_right,
            radii.bottom_left,
            radii.bottom_left,
        ],
{
    let flattened = [
        radii.top_left,
        radii.top_left,
        radii.top_right,
        radii.top_right,
        radii.bottom_right,
        radii.bottom_right,
        radii.bottom_left,
        radii.bottom_left,
    ];
    flattened
}

/// Border widths in the order an instance carries: top, right, bottom, left.
pub fn border_widths(edges: Edges) -> (flattened: [u32; 4])
    ensures
        flattened@ == seq![edges.top, edges.right, edges.bottom, edges.left],
{
    let flattened = [edges.top, edges.right, edges.bottom, edges.left];
    flattened
}

/// A rectangle, flattened into the four numbers an instance carries.
pub fn bounds_array(bounds: Bounds) -> (flattened: [u32; 4])
    ensures
        flattened@ == seq![bounds.x, bounds.y, bounds.width, bounds.height],
{
    let flattened = [bounds.x, bounds.y, bounds.width, bounds.height];
    flattened
}

/// A tile's rectangle survives being taken apart and put together, either way.
pub proof fn law_rectangles_survive_the_round_trip(bounds: DeviceBounds, rect: Rect)
    ensures
        nested_rect(flat_rect(bounds)) == bounds,
        flat_rect(nested_rect(rect)) == rect,
{
}

/// A tile that a sprite carries is sampled where it was placed: giving a sprite the tile of a pool
/// and taking it back gives the tile and, but for the pool of images, the pool.
pub proof fn law_tiles_survive_the_round_trip(pool: int, tile: Tile)
    requires
        0 <= pool < 3,
    ensures
        ({
            let sprite = sprite_tile(pool, tile);
            &&& pool_of(sprite.texture_kind) == pool
            &&& sprite.texture_index == tile.index
            &&& sprite.tile_id == tile.tile
            &&& sprite.bounds == tile.bounds
        }),
{
}

/// A rectangle of whole pixels and its flat form cover the same pixels: columns stay columns and
/// rows stay rows.
pub proof fn law_rectangles_keep_their_pixels(bounds: DeviceBounds, px: int, py: int)
    ensures
        flat_rect(bounds).covers(px, py) <==> bounds.origin.0 <= px < bounds.origin.0
            + bounds.size.0 && bounds.origin.1 <= py < bounds.origin.1 + bounds.size.1,
        flat_rect(bounds).width == bounds.size.0 && flat_rect(bounds).height == bounds.size.1,
        flat_rect(bounds).x == bounds.origin.0 && flat_rect(bounds).y == bounds.origin.1,
{
}

/// A circle is an ellipse with both radii its own.
pub proof fn law_circles_are_ellipses(radius: u32)
    ensures
        widened(radius).x == radius,
        widened(radius).y == radius,
{
}

} // verus!
