//! The scene a frame is given as: primitives by kind, and the order to paint them in.
//!
//! Numbers that may have a fraction are carried as float bits.

use vstd::prelude::*;

use crate::atlas::AtlasTile;
use crate::spatial::TransformationMatrix;

verus! {

/// A rectangle, as float bits.
#[derive(Clone, Copy, Debug, PartialEq, Eq, Structural)]
pub struct Bounds {
    pub x: u32,
    pub y: u32,
    pub width: u32,
    pub height: u32,
}

/// A radius for each corner, as float bits.
#[derive(Clone, Copy, Debug, PartialEq, Eq, Structural)]
pub struct Corners {
    pub top_left: u32,
    pub top_right: u32,
    pub bottom_right: u32,
    pub bottom_left: u32,
}

/// A width for each edge, as float bits.
#[derive(Clone, Copy, Debug, PartialEq, Eq, Structural)]
pub struct Edges {
    pub top: u32,
    pub right: u32,
    pub bottom: u32,
    pub left: u32,
}

/// A colour by hue, saturation, lightness and opacity, as float bits.
#[derive(Clone, Copy, Debug, PartialEq, Eq, Structural)]
pub struct Hsla {
    pub h: u32,
    pub s: u32,
    pub l: u32,
    pub a: u32,
}

/// The space a gradient's colours are mixed in.
#[derive(Clone, Copy, Debug, PartialEq, Eq, Structural)]
pub enum ColorSpace {
    Srgb,
    Oklab,
}

/// A colour of a gradient and where it stands, as float bits.
#[derive(Clone, Copy, Debug, PartialEq, Eq, Structural)]
pub struct ColorStop {
    pub color: Hsla,
    pub percentage: u32,
}

/// What a shape is filled with.
#[derive(Clone, Copy, Debug, PartialEq, Eq, Structural)]
pub enum Background {
    Solid { color: Hsla },
    LinearGradient { angle: u32, first: ColorStop, second: ColorStop, space: ColorSpace },
    PatternSlash { color: Hsla },
    Checkerboard { color: Hsla },
}

/// How a border is drawn.
#[derive(Clone, Copy, Debug, PartialEq, Eq, Structural)]
pub enum BorderStyle {
    Solid,
    Dashed,
}

/// A filled rectangle with a border.
#[derive(Clone, Copy, Debug, PartialEq, Eq, Structural)]
pub struct Quad {
    pub bounds: Bounds,
    pub content_mask: Bounds,
    pub background: Background,
    pub border_color: Hsla,
    pub border_widths: Edges,
    pub border_style: BorderStyle,
    pub corner_radii: Corners,
}

/// The shadow of a box.
#[derive(Clone, Copy, Debug, PartialEq, Eq, Structural)]
pub struct Shadow {
    /// The shadow's shape.
    pub bounds: Bounds,
    /// The shape grown by what its blur reaches.
    pub reached: Bounds,
    pub content_mask: Bounds,
    pub blur_radius: u32,
    pub corner_radii: Corners,
    pub color: Hsla,
    /// Zero for a drop shadow; anything else for one that paints inside its box.
    pub inset: u32,
    pub element_bounds: Bounds,
    pub element_corner_radii: Corners,
}

/// A line under text.
#[derive(Clone, Copy, Debug, PartialEq, Eq, Structural)]
pub struct Underline {
    pub bounds: Bounds,
    pub content_mask: Bounds,
    pub color: Hsla,
    pub thickness: u32,
    pub wavy: bool,
}

/// A sprite of one colour, through coverage or through coverage per channel.
#[derive(Clone, Copy, Debug, PartialEq, Eq, Structural)]
pub struct TintedSprite {
    pub bounds: Bounds,
    pub content_mask: Bounds,
    pub color: Hsla,
    pub tile: AtlasTile,
    pub transformation: TransformationMatrix,
}

/// A sprite of many colours.
#[derive(Clone, Copy, Debug, PartialEq, Eq, Structural)]
pub struct PolychromeSprite {
    pub bounds: Bounds,
    pub content_mask: Bounds,
    pub corner_radii: Corners,
    pub tile: AtlasTile,
    pub opacity: u32,
    pub grayscale: bool,
}

/// A place where a texture filled from outside is shown.
#[derive(Clone, Copy, Debug, PartialEq, Eq, Structural)]
pub struct PaintSurface {
    pub bounds: Bounds,
    pub content_mask: Bounds,
}

/// A filter over what lies beneath it.
#[derive(Clone, Debug)]
pub struct BackdropFilter {
    pub bounds: Bounds,
    pub content_mask: Bounds,
    pub corner_radii: Corners,
    /// The standard deviation of each blur in the chain.
    pub blurs: Vec<u32>,
    pub opacity: u32,
}

/// One marker of an isolated group.
#[derive(Clone, Debug)]
pub struct FilterBoundary {
    pub bounds: Bounds,
    pub content_mask: Bounds,
    pub corner_radii: Corners,
    pub blurs: Vec<u32>,
    pub opacity: u32,
    pub is_start: bool,
}

/// A path, of which only the clip is read here: its mask is looked up apart.
#[derive(Clone, Copy, Debug, PartialEq, Eq, Structural)]
pub struct Path {
    pub content_mask: Bounds,
}

/// A run of primitives of one kind, from `start` up to but not including `end`.
#[derive(Clone, Copy, Debug, PartialEq, Eq, Structural)]
pub enum Batch {
    Shadows { start: usize, end: usize },
    Quads { start: usize, end: usize },
    Underlines { start: usize, end: usize },
    MonochromeSprites { start: usize, end: usize },
    SubpixelSprites { start: usize, end: usize },
    PolychromeSprites { start: usize, end: usize },
    Surfaces { start: usize, end: usize },
    BackdropFilters { start: usize, end: usize },
    FilterBoundary { index: usize },
    Paths { start: usize, end: usize },
}

/// Everything a frame paints, and the order.
#[derive(Clone, Debug)]
pub struct Scene {
    pub shadows: Vec<Shadow>,
    pub quads: Vec<Quad>,
    pub underlines: Vec<Underline>,
    pub monochrome_sprites: Vec<TintedSprite>,
    pub subpixel_sprites: Vec<TintedSprite>,
    pub polychrome_sprites: Vec<PolychromeSprite>,
    pub surfaces: Vec<PaintSurface>,
    pub backdrop_filters: Vec<BackdropFilter>,
    pub filter_boundaries: Vec<FilterBoundary>,
    pub paths: Vec<Path>,
    pub batches: Vec<Batch>,
}

/// One primitive, by its kind and its place in the scene.
pub enum Item {
    Shadow(int),
    Quad(int),
    Underline(int),
    MonochromeSprite(int),
    SubpixelSprite(int),
    PolychromeSprite(int),
    Surface(int),
    BackdropFilter(int),
    FilterBoundary(int),
    Path(int),
}

impl Scene {
    /// Whether a batch names only primitives that there are. A marker that is not there is let be.
    pub open spec fn has(self, batch: Batch) -> bool {
        match batch {
            Batch::Shadows { start, end } => start <= end <= self.shadows@.len(),
            Batch::Quads { start, end } => start <= end <= self.quads@.len(),
            Batch::Underlines { start, end } => start <= end <= self.underlines@.len(),
            Batch::MonochromeSprites { start, end } => start <= end
                <= self.monochrome_sprites@.len(),
            Batch::SubpixelSprites { start, end } => start <= end <= self.subpixel_sprites@.len(),
            Batch::PolychromeSprites { start, end } => start <= end
                <= self.polychrome_sprites@.len(),
            Batch::Surfaces { start, end } => start <= end <= self.surfaces@.len(),
            Batch::BackdropFilters { start, end } => start <= end <= self.backdrop_filters@.len(),
            Batch::FilterBoundary { .. } => true,
            Batch::Paths { start, end } => start <= end <= self.paths@.len(),
        }
    }

    /// Whether every batch names only primitives that there are.
    pub open spec fn wf(self) -> bool {
        forall|i: int| 0 <= i < self.batches@.len() ==> self.has(#[trigger] self.batches@[i])
    }

    /// The primitives of a batch, in order.
    pub open spec fn items_of(self, batch: Batch) -> Seq<Item> {
        match batch {
            Batch::Shadows { start, end } => Seq::new(
                (end - start) as nat,
                |i: int| Item::Shadow(start + i),
            ),
            Batch::Quads { start, end } => Seq::new(
                (end - start) as nat,
                |i: int| Item::Quad(start + i),
            ),
            Batch::Underlines { start, end } => Seq::new(
                (end - start) as nat,
                |i: int| Item::Underline(start + i),
            ),
            Batch::MonochromeSprites { start, end } => Seq::new(
                (end - start) as nat,
                |i: int| Item::MonochromeSprite(start + i),
            ),
            Batch::SubpixelSprites { start, end } => Seq::new(
                (end - start) as nat,
                |i: int| Item::SubpixelSprite(start + i),
            ),
            Batch::PolychromeSprites { start, end } => Seq::new(
                (end - start) as nat,
                |i: int| Item::PolychromeSprite(start + i),
            ),
            Batch::Surfaces { start, end } => Seq::new(
                (end - start) as nat,
                |i: int| Item::Surface(start + i),
            ),
            Batch::BackdropFilters { start, end } => Seq::new(
                (end - start) as nat,
                |i: int| Item::BackdropFilter(start + i),
            ),
            Batch::FilterBoundary { index } => if index < self.filter_boundaries@.len() {
                seq![Item::FilterBoundary(index as int)]
            } else {
                Seq::empty()
            },
            Batch::Paths { start, end } => Seq::new(
                (end - start) as nat,
                |i: int| Item::Path(start + i),
            ),
        }
    }

    /// The primitives of a sequence of batches, in order.
    pub open spec fn items_in(self, batches: Seq<Batch>) -> Seq<Item>
        decreases batches.len(),
    {
        if batches.len() == 0 {
            Seq::empty()
        } else {
            self.items_in(batches.drop_last()) + self.items_of(batches.last())
        }
    }

    /// Every primitive, in painting order.
    pub open spec fn items(self) -> Seq<Item> {
        self.items_in(self.batches@)
    }
}

} // verus!
