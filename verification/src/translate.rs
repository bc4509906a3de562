//! Rewriting a scene as a display list.
//!
//! Primitives are pushed in painting order. Each names its clip by its place in a list of clips
//! and its paints by their places in a list of paints; consecutive primitives that share a clip or
//! a flat fill share the entry.

use vstd::prelude::*;

use crate::atlas::AtlasTile;
use crate::bits::below_one;
use crate::bits::is_below_one;
use crate::bits::is_zero;
use crate::bits::zero;
use crate::filters::blurs;
use crate::filters::chain_push;
use crate::filters::filter_chain;
use crate::filters::Filter;
use crate::filters::FilterChain;
use crate::path::Mask;
use crate::scene::Background;
use crate::scene::BackdropFilter;
use crate::scene::Batch;
use crate::scene::BorderStyle;
use crate::scene::Bounds;
use crate::scene::ColorSpace;
use crate::scene::ColorStop;
use crate::scene::Corners;
use crate::scene::Edges;
use crate::scene::FilterBoundary;
use crate::scene::Hsla;
use crate::scene::Item;
use crate::scene::PaintSurface;
use crate::scene::Path;
use crate::scene::PolychromeSprite;
use crate::scene::Quad;
use crate::scene::Scene;
use crate::scene::Shadow;
use crate::scene::TintedSprite;
use crate::scene::Underline;
use crate::spatial::coefficients;
use crate::spatial::idle;
use crate::spatial::key_of;
use crate::spatial::MatrixKey;
use crate::spatial::Space;
use crate::spatial::TransformationMatrix;
use crate::spatial::Transforms;

verus! {

/// Primitives a frame contained that the display list cannot express.
#[derive(Clone, Copy, Debug, PartialEq, Eq, Structural)]
pub struct Unsupported {
    /// Paths that have no mask.
    pub paths: usize,
    /// Surfaces whose texture could not be adopted.
    pub foreign_surfaces: usize,
    /// Slash and checkerboard fills, drawn as their flat colour.
    pub patterns: usize,
}

impl Default for Unsupported {
    fn default() -> (none: Unsupported)
        ensures
            none == (Unsupported { paths: 0, foreign_surfaces: 0, patterns: 0 }),
    {
        Unsupported { paths: 0, foreign_surfaces: 0, patterns: 0 }
    }
}

impl Unsupported {
    /// Whether anything at all went unexpressed.
    pub fn is_empty(&self) -> (empty: bool)
        ensures
            empty <==> self.paths == 0 && self.foreign_surfaces == 0 && self.patterns == 0,
    {
        self.paths == 0 && self.foreign_surfaces == 0 && self.patterns == 0
    }
}

/// How a decoration line is drawn.
#[derive(Clone, Copy, Debug, PartialEq, Eq, Structural)]
pub enum DecorationStyle {
    Solid,
    Wavy,
}

/// A clip of the display list.
#[derive(Clone, Copy, Debug, PartialEq, Eq, Structural)]
pub enum ClipLink {
    /// A rectangle off the root.
    Rect { bounds: Bounds },
    /// A rectangle with rounded corners, under the clip at `outer` in the list.
    Rounded { outer: usize, bounds: Bounds, radii: Corners },
}

/// What a clip admits, wherever it stands in the list.
pub enum Clip {
    Rect { bounds: Bounds },
    Rounded { outer: Bounds, bounds: Bounds, radii: Corners },
}

/// A paint of the display list. A gradient is given by its angle and the bounds it runs over.
#[derive(Clone, Copy, Debug, PartialEq, Eq, Structural)]
pub enum Paint {
    Solid { color: Hsla },
    Gradient { angle: u32, bounds: Bounds, first: ColorStop, second: ColorStop, space: ColorSpace },
}

/// A primitive of the display list, with its clip, its paints and its filters.
pub enum Draw<C, P, F> {
    Shadow {
        clip: C,
        blur: u32,
        /// Everything the shadow paints.
        bounds: Bounds,
        /// The shape that is blurred.
        shape: Bounds,
        radii: Corners,
        element_bounds: Bounds,
        element_radii: Corners,
        color: Hsla,
        inset: bool,
    },
    Quad {
        clip: C,
        fill: P,
        stroke: Option<P>,
        bounds: Bounds,
        radii: Corners,
        border: Edges,
        style: BorderStyle,
    },
    Decoration { clip: C, bounds: Bounds, thickness: u32, color: Hsla, line: DecorationStyle },
    MonoSprite { clip: C, bounds: Bounds, tile: AtlasTile, color: Hsla, space: Space },
    SubpixelSprite { clip: C, bounds: Bounds, tile: AtlasTile, color: Hsla, space: Space },
    ColorSprite {
        clip: C,
        bounds: Bounds,
        tile: AtlasTile,
        radii: Corners,
        opacity: u32,
        grayscale: bool,
    },
    /// A path's mask, drawn in one colour.
    Mask { clip: C, mask: Mask },
    /// A texture filled from outside.
    External { clip: C, bounds: Bounds, texture: u64 },
    Backdrop { clip: C, bounds: Bounds, filters: F },
    /// One marker of an isolated group, never left out: markers come in pairs.
    Group { clip: C, bounds: Bounds, opacity: u32, filters: F, is_start: bool },
}

/// A draw with everything it names put in its place.
pub type Resolved = Draw<Clip, Paint, Seq<Filter>>;

/// A display list.
pub struct DisplayList {
    pub clips: Vec<ClipLink>,
    pub paints: Vec<Paint>,
    pub draws: Vec<Draw<usize, usize, FilterChain>>,
    pub missing: Unsupported,
}

/// What the clip at `at` admits.
pub open spec fn clip_at(clips: Seq<ClipLink>, at: usize) -> Clip {
    match clips[at as int] {
        ClipLink::Rect { bounds } => Clip::Rect { bounds },
        ClipLink::Rounded { outer, bounds, radii } => Clip::Rounded {
            outer: clips[outer as int]->Rect_bounds,
            bounds,
            radii,
        },
    }
}

/// Whether the clip at `at` is there, and a rounded one stands under a rectangle before it.
pub open spec fn clip_ok(clips: Seq<ClipLink>, at: int) -> bool {
    &&& 0 <= at < clips.len()
    &&& clips[at] matches ClipLink::Rounded { outer, bounds: _, radii: _ } ==> outer < at
        && clips[outer as int] is Rect
}

/// Whether no rectangle is listed again while it is the last rectangle listed.
pub open spec fn clips_are_shared(clips: Seq<ClipLink>) -> bool {
    forall|i: int, j: int|
        0 <= i < j < clips.len() && clips[i] is Rect && clips[j] is Rect && (forall|k: int|
            i < k < j ==> (#[trigger] clips[k]) is Rounded) ==> #[trigger] clips[i]
            != #[trigger] clips[j]
}

/// Whether no flat fill is listed again while it is the last flat fill listed.
pub open spec fn fills_are_shared(paints: Seq<Paint>) -> bool {
    forall|i: int, j: int|
        0 <= i < j < paints.len() && paints[i] is Solid && paints[j] is Solid && (forall|k: int|
            i < k < j ==> (#[trigger] paints[k]) is Gradient) ==> #[trigger] paints[i]
            != #[trigger] paints[j]
}

/// A draw with the clip, the paints and the filters it names.
pub open spec fn resolve(
    clips: Seq<ClipLink>,
    paints: Seq<Paint>,
    draw: Draw<usize, usize, FilterChain>,
) -> Resolved {
    match draw {
        Draw::Shadow {
            clip,
            blur,
            bounds,
            shape,
            radii,
            element_bounds,
            element_radii,
            color,
            inset,
        } => Draw::Shadow {
            clip: clip_at(clips, clip),
            blur,
            bounds,
            shape,
            radii,
            element_bounds,
            element_radii,
            color,
            inset,
        },
        Draw::Quad { clip, fill, stroke, bounds, radii, border, style } => Draw::Quad {
            clip: clip_at(clips, clip),
            fill: paints[fill as int],
            stroke: match stroke {
                Some(stroke) => Some(paints[stroke as int]),
                None => None,
            },
            bounds,
            radii,
            border,
            style,
        },
        Draw::Decoration { clip, bounds, thickness, color, line } => Draw::Decoration {
            clip: clip_at(clips, clip),
            bounds,
            thickness,
            color,
            line,
        },
        Draw::MonoSprite { clip, bounds, tile, color, space } => Draw::MonoSprite {
            clip: clip_at(clips, clip),
            bounds,
            tile,
            color,
            space,
        },
        Draw::SubpixelSprite { clip, bounds, tile, color, space } => Draw::SubpixelSprite {
            clip: clip_at(clips, clip),
            bounds,
            tile,
            color,
            space,
        },
        Draw::ColorSprite { clip, bounds, tile, radii, opacity, grayscale } => Draw::ColorSprite {
            clip: clip_at(clips, clip),
            bounds,
            tile,
            radii,
            opacity,
            grayscale,
        },
        Draw::Mask { clip, mask } => Draw::Mask { clip: clip_at(clips, clip), mask },
        Draw::External { clip, bounds, texture } => Draw::External {
            clip: clip_at(clips, clip),
            bounds,
            texture,
        },
        Draw::Backdrop { clip, bounds, filters } => Draw::Backdrop {
            clip: clip_at(clips, clip),
            bounds,
            filters: filters@,
        },
        Draw::Group { clip, bounds, opacity, filters, is_start } => Draw::Group {
            clip: clip_at(clips, clip),
            bounds,
            opacity,
            filters: filters@,
            is_start,
        },
    }
}

/// Whether everything a draw names is there.
pub open spec fn draw_ok(
    clips: Seq<ClipLink>,
    paints: Seq<Paint>,
    draw: Draw<usize, usize, FilterChain>,
) -> bool {
    let clip = match draw {
        Draw::Shadow { clip, .. } => clip,
        Draw::Quad { clip, .. } => clip,
        Draw::Decoration { clip, .. } => clip,
        Draw::MonoSprite { clip, .. } => clip,
        Draw::SubpixelSprite { clip, .. } => clip,
        Draw::ColorSprite { clip, .. } => clip,
        Draw::Mask { clip, .. } => clip,
        Draw::External { clip, .. } => clip,
        Draw::Backdrop { clip, .. } => clip,
        Draw::Group { clip, .. } => clip,
    };
    &&& clip < clips.len()
    &&& draw matches Draw::Quad { fill, stroke, .. } ==> fill < paints.len() && (
    stroke matches Some(stroke) ==> stroke < paints.len())
}

impl DisplayList {
    /// Whether every clip, and everything a draw names, is there.
    pub open spec fn wf(self) -> bool {
        &&& forall|i: int| 0 <= i < self.clips@.len() ==> #[trigger] clip_ok(self.clips@, i)
        &&& forall|i: int|
            0 <= i < self.draws@.len() ==> draw_ok(
                self.clips@,
                self.paints@,
                #[trigger] self.draws@[i],
            )
    }

    /// Whether consecutive primitives that share a clip or a flat fill share the entry.
    pub open spec fn shares(self) -> bool {
        &&& clips_are_shared(self.clips@)
        &&& fills_are_shared(self.paints@)
    }

    /// The draws, with everything they name in its place.
    pub open spec fn resolved(self) -> Seq<Resolved> {
        self.draws@.map_values(
            |draw: Draw<usize, usize, FilterChain>| resolve(self.clips@, self.paints@, draw),
        )
    }
}

/// Whether every corner is square.
pub open spec fn square(radii: Corners) -> bool {
    is_zero(radii.top_left) && is_zero(radii.top_right) && is_zero(radii.bottom_right) && is_zero(
        radii.bottom_left,
    )
}

/// Whether no edge has a border.
pub open spec fn borderless(widths: Edges) -> bool {
    is_zero(widths.top) && is_zero(widths.right) && is_zero(widths.bottom) && is_zero(widths.left)
}

/// The clip of a primitive that rounds its corners through it.
pub open spec fn rounded_clip(mask: Bounds, bounds: Bounds, radii: Corners) -> Clip {
    if square(radii) {
        Clip::Rect { bounds: mask }
    } else {
        Clip::Rounded { outer: mask, bounds, radii }
    }
}

/// The paint of a fill over `bounds`: a pattern is drawn in its flat colour.
pub open spec fn paint_of(background: Background, bounds: Bounds) -> Paint {
    match background {
        Background::Solid { color } => Paint::Solid { color },
        Background::LinearGradient { angle, first, second, space } => Paint::Gradient {
            angle,
            bounds,
            first,
            second,
            space,
        },
        Background::PatternSlash { color } => Paint::Solid { color },
        Background::Checkerboard { color } => Paint::Solid { color },
    }
}

/// Whether a fill is a pattern.
pub open spec fn is_pattern(background: Background) -> bool {
    background is PatternSlash || background is Checkerboard
}

/// The chain of a backdrop: its blurs, and its opacity where that is below one.
pub open spec fn backdrop_filters(backdrop: BackdropFilter) -> Seq<Filter> {
    if is_below_one(backdrop.opacity) {
        blurs(backdrop.blurs@).push(Filter::Opacity(backdrop.opacity))
    } else {
        blurs(backdrop.blurs@)
    }
}

/// What is drawn for a shadow: a drop shadow is as large as its blur reaches.
pub open spec fn draw_of_shadow(shadow: Shadow) -> Resolved {
    Draw::Shadow {
        clip: Clip::Rect { bounds: shadow.content_mask },
        blur: shadow.blur_radius,
        bounds: if shadow.inset != 0 {
            shadow.bounds
        } else {
            shadow.reached
        },
        shape: shadow.bounds,
        radii: shadow.corner_radii,
        element_bounds: shadow.element_bounds,
        element_radii: shadow.element_corner_radii,
        color: shadow.color,
        inset: shadow.inset != 0,
    }
}

/// What is drawn for a quad: its border has a colour only where some side has a width.
pub open spec fn draw_of_quad(quad: Quad) -> Resolved {
    Draw::Quad {
        clip: Clip::Rect { bounds: quad.content_mask },
        fill: paint_of(quad.background, quad.bounds),
        stroke: if borderless(quad.border_widths) {
            None
        } else {
            Some(Paint::Solid { color: quad.border_color })
        },
        bounds: quad.bounds,
        radii: quad.corner_radii,
        border: quad.border_widths,
        style: quad.border_style,
    }
}

/// What is drawn for an underline.
pub open spec fn draw_of_underline(underline: Underline) -> Resolved {
    Draw::Decoration {
        clip: Clip::Rect { bounds: underline.content_mask },
        bounds: underline.bounds,
        thickness: underline.thickness,
        color: underline.color,
        line: if underline.wavy {
            DecorationStyle::Wavy
        } else {
            DecorationStyle::Solid
        },
    }
}

/// What is drawn for a sprite of coverage.
pub open spec fn draw_of_mono(sprite: TintedSprite, space: Space) -> Resolved {
    Draw::MonoSprite {
        clip: Clip::Rect { bounds: sprite.content_mask },
        bounds: sprite.bounds,
        tile: sprite.tile,
        color: sprite.color,
        space,
    }
}

/// What is drawn for a sprite of coverage per channel.
pub open spec fn draw_of_subpixel(sprite: TintedSprite, space: Space) -> Resolved {
    Draw::SubpixelSprite {
        clip: Clip::Rect { bounds: sprite.content_mask },
        bounds: sprite.bounds,
        tile: sprite.tile,
        color: sprite.color,
        space,
    }
}

/// What is drawn for a sprite of colours.
pub open spec fn draw_of_polychrome(sprite: PolychromeSprite) -> Resolved {
    Draw::ColorSprite {
        clip: Clip::Rect { bounds: sprite.content_mask },
        bounds: sprite.bounds,
        tile: sprite.tile,
        radii: sprite.corner_radii,
        opacity: sprite.opacity,
        grayscale: sprite.grayscale,
    }
}

/// What is drawn for a filter over what lies beneath it.
pub open spec fn draw_of_backdrop(backdrop: BackdropFilter) -> Resolved {
    Draw::Backdrop {
        clip: rounded_clip(backdrop.content_mask, backdrop.bounds, backdrop.corner_radii),
        bounds: backdrop.bounds,
        filters: backdrop_filters(backdrop),
    }
}

/// What is drawn for a marker of a group.
pub open spec fn draw_of_group(boundary: FilterBoundary) -> Resolved {
    Draw::Group {
        clip: rounded_clip(boundary.content_mask, boundary.bounds, boundary.corner_radii),
        bounds: boundary.bounds,
        opacity: boundary.opacity,
        filters: blurs(boundary.blurs@),
        is_start: boundary.is_start,
    }
}

/// The owners that matrices hold, and the last one given.
#[verifier::ext_equal]
pub struct Owners {
    pub held: Map<MatrixKey, u64>,
    pub used: Seq<MatrixKey>,
    pub last: int,
}

/// What a translation has come to.
#[verifier::ext_equal]
pub struct Progress {
    pub draws: Seq<Resolved>,
    pub owners: Owners,
    pub paths: int,
    pub foreign_surfaces: int,
    pub patterns: int,
}

/// The space of a transform, and the owners once it was asked for.
pub open spec fn space_of(owners: Owners, transform: TransformationMatrix) -> (Owners, Space) {
    let affine = coefficients(transform);
    let key = key_of(affine);
    if transform.is_unit() {
        (owners, Space::Viewport)
    } else if owners.held.dom().contains(key) {
        (
            Owners { used: owners.used.push(key), ..owners },
            Space::Owned { owner: owners.held[key], affine },
        )
    } else {
        let owner = (owners.last + 1) as u64;
        (
            Owners {
                held: owners.held.insert(key, owner),
                used: owners.used.push(key),
                last: owners.last + 1,
            },
            Space::Owned { owner, affine },
        )
    }
}

/// The entry at `at` of a list of things that may be missing.
pub open spec fn entry_at<T>(list: Seq<Option<T>>, at: int) -> Option<T> {
    if 0 <= at < list.len() {
        list[at]
    } else {
        None
    }
}

impl Progress {
    /// What the translation comes to with one thing more drawn.
    pub open spec fn drew(self, draw: Resolved) -> Progress {
        Progress { draws: self.draws.push(draw), ..self }
    }

    /// What the translation comes to with one primitive more.
    pub open spec fn with_item(
        self,
        from: Scene,
        masks: Seq<Option<Mask>>,
        externals: Seq<Option<u64>>,
        item: Item,
    ) -> Progress {
        match item {
            Item::Shadow(i) => self.drew(draw_of_shadow(from.shadows@[i])),
            Item::Quad(i) => {
                let quad = from.quads@[i];
                let drawn = self.drew(draw_of_quad(quad));
                if is_pattern(quad.background) {
                    Progress { patterns: self.patterns + 1, ..drawn }
                } else {
                    drawn
                }
            },
            Item::Underline(i) => self.drew(draw_of_underline(from.underlines@[i])),
            Item::MonochromeSprite(i) => {
                let sprite = from.monochrome_sprites@[i];
                let (owners, space) = space_of(self.owners, sprite.transformation);
                Progress { owners, ..self.drew(draw_of_mono(sprite, space)) }
            },
            Item::SubpixelSprite(i) => {
                let sprite = from.subpixel_sprites@[i];
                let (owners, space) = space_of(self.owners, sprite.transformation);
                Progress { owners, ..self.drew(draw_of_subpixel(sprite, space)) }
            },
            Item::PolychromeSprite(i) => self.drew(
                draw_of_polychrome(from.polychrome_sprites@[i]),
            ),
            Item::Surface(i) => match entry_at(externals, i) {
                Some(texture) => self.drew(
                    Draw::External {
                        clip: Clip::Rect { bounds: from.surfaces@[i].content_mask },
                        bounds: from.surfaces@[i].bounds,
                        texture,
                    },
                ),
                None => Progress { foreign_surfaces: self.foreign_surfaces + 1, ..self },
            },
            Item::BackdropFilter(i) => self.drew(draw_of_backdrop(from.backdrop_filters@[i])),
            Item::FilterBoundary(i) => self.drew(draw_of_group(from.filter_boundaries@[i])),
            Item::Path(i) => match entry_at(masks, i) {
                Some(mask) => self.drew(
                    Draw::Mask {
                        clip: Clip::Rect { bounds: from.paths@[i].content_mask },
                        mask,
                    },
                ),
                None => Progress { paths: self.paths + 1, ..self },
            },
        }
    }

    /// What the translation comes to with all of `items` more, in order.
    pub open spec fn with_items(
        self,
        from: Scene,
        masks: Seq<Option<Mask>>,
        externals: Seq<Option<u64>>,
        items: Seq<Item>,
    ) -> Progress
        decreases items.len(),
    {
        if items.len() == 0 {
            self
        } else {
            self.with_items(from, masks, externals, items.drop_last()).with_item(
                from,
                masks,
                externals,
                items.last(),
            )
        }
    }
}

/// The owners of a translator's transforms.
pub open spec fn owners_of(transforms: Transforms) -> Owners {
    Owners {
        held: transforms.owners(),
        used: transforms.used(),
        last: transforms.last() as int,
    }
}

/// What a display list has come to.
pub open spec fn progress(list: DisplayList, transforms: Transforms) -> Progress {
    Progress {
        draws: list.resolved(),
        owners: owners_of(transforms),
        paths: list.missing.paths as int,
        foreign_surfaces: list.missing.foreign_surfaces as int,
        patterns: list.missing.patterns as int,
    }
}

/// A display list being built, with the clip and the flat fill that were asked for last.
struct Builder {
    list: DisplayList,
    last_clip: Option<(Bounds, usize)>,
    last_solid: Option<(Hsla, usize)>,
}

impl Builder {
    spec fn wf(self) -> bool {
        &&& self.list.wf()
        &&& self.list.shares()
        &&& match self.last_clip {
            Some((bounds, at)) => {
                &&& at < self.list.clips@.len()
                &&& self.list.clips@[at as int] == (ClipLink::Rect { bounds })
                &&& forall|k: int|
                    at < k < self.list.clips@.len() ==> (#[trigger] self.list.clips@[k]) is Rounded
            },
            None => self.list.clips@.len() == 0,
        }
        &&& match self.last_solid {
            Some((color, at)) => {
                &&& at < self.list.paints@.len()
                &&& self.list.paints@[at as int] == (Paint::Solid { color })
                &&& forall|k: int|
                    at < k < self.list.paints@.len() ==> (
                    #[trigger] self.list.paints@[k]) is Gradient
            },
            None => forall|k: int|
                0 <= k < self.list.paints@.len() ==> (#[trigger] self.list.paints@[k]) is Gradient,
        }
    }

    /// Whether `after` has the draws and the counts of `self`, and its clips and paints with
    /// perhaps more behind them.
    spec fn extended_to(self, after: Builder) -> bool {
        &&& after.list.draws == self.list.draws
        &&& after.list.resolved() == self.list.resolved()
        &&& after.list.missing == self.list.missing
        &&& self.list.clips@.len() <= after.list.clips@.len()
        &&& self.list.paints@.len() <= after.list.paints@.len()
        &&& forall|i: int|
            0 <= i < self.list.clips@.len() ==> after.list.clips@[i]
                == #[trigger] self.list.clips@[i]
        &&& forall|i: int|
            0 <= i < self.list.paints@.len() ==> after.list.paints@[i]
                == #[trigger] self.list.paints@[i]
    }

    fn new() -> (builder: Builder)
        ensures
            builder.wf(),
            builder.list.resolved() == Seq::<Resolved>::empty(),
            builder.list.missing == (Unsupported { paths: 0, foreign_surfaces: 0, patterns: 0 }),
    {
        let builder = Builder {
            list: DisplayList {
                clips: Vec::new(),
                paints: Vec::new(),
                draws: Vec::new(),
                missing: Unsupported { paths: 0, foreign_surfaces: 0, patterns: 0 },
            },
            last_clip: None,
            last_solid: None,
        };
        proof {
            assert(builder.list.resolved() =~= Seq::<Resolved>::empty());
        }
        builder
    }

    /// Lists a rounded clip under the rectangle at `outer`.
    fn push_rounded(&mut self, outer: usize, bounds: Bounds, radii: Corners) -> (at: usize)
        requires
            old(self).wf(),
            outer < old(self).list.clips@.len(),
            old(self).list.clips@[outer as int] is Rect,
        ensures
            final(self).wf(),
            old(self).extended_to(*final(self)),
            at < final(self).list.clips@.len(),
            final(self).list.clips@[at as int] == (ClipLink::Rounded { outer, bounds, radii }),
    {
        let at = self.list.clips.len();
        self.list.clips.push(ClipLink::Rounded { outer, bounds, radii });
        proof {
            lemma_extended(*old(self), *self);
            lemma_clips_shared(old(self).list.clips@, self.list.clips@.last(), None);
        }
        at
    }

    /// Lists a gradient.
    fn push_gradient(&mut self, paint: Paint) -> (at: usize)
        requires
            old(self).wf(),
            paint is Gradient,
        ensures
            final(self).wf(),
            old(self).extended_to(*final(self)),
            at < final(self).list.paints@.len(),
            final(self).list.paints@[at as int] == paint,
            final(self).list.clips == old(self).list.clips,
    {
        let at = self.list.paints.len();
        self.list.paints.push(paint);
        proof {
            lemma_extended(*old(self), *self);
            lemma_fills_shared(old(self).list.paints@, paint, None);
        }
        at
    }

    /// The clip for a content mask, which is always a rectangle with square corners.
    fn clip_for(&mut self, mask: Bounds) -> (at: usize)
        requires
            old(self).wf(),
        ensures
            final(self).wf(),
            old(self).extended_to(*final(self)),
            at < final(self).list.clips@.len(),
            final(self).list.clips@[at as int] == (ClipLink::Rect { bounds: mask }),
    {
        if let Some((cached, at)) = self.last_clip {
            if cached == mask {
                return at;
            }
        }
        let at = self.list.clips.len();
        self.list.clips.push(ClipLink::Rect { bounds: mask });
        proof {
            lemma_extended(*old(self), *self);
            lemma_clips_shared(
                old(self).list.clips@,
                ClipLink::Rect { bounds: mask },
                match old(self).last_clip {
                    Some((_, at)) => Some(at as int),
                    None => None,
                },
            );
        }
        self.last_clip = Some((mask, at));
        at
    }

    /// A clip that also rounds its corners, for the two primitives that carry no radii of their
    /// own in the display list.
    fn rounded_clip_for(&mut self, mask: Bounds, bounds: Bounds, radii: Corners) -> (at: usize)
        requires
            old(self).wf(),
        ensures
            final(self).wf(),
            old(self).extended_to(*final(self)),
            at < final(self).list.clips@.len(),
            clip_at(final(self).list.clips@, at) == rounded_clip(mask, bounds, radii),
    {
        let outer = self.clip_for(mask);
        if zero(radii.top_left) && zero(radii.top_right) && zero(radii.bottom_right) && zero(
            radii.bottom_left,
        ) {
            return outer;
        }
        let ghost between = *self;
        let at = self.push_rounded(outer, bounds, radii);
        proof {
            lemma_extended_trans(*old(self), between, *self);
        }
        at
    }

    /// A flat fill, reusing the last one when it is the same colour.
    fn solid(&mut self, color: Hsla) -> (at: usize)
        requires
            old(self).wf(),
        ensures
            final(self).wf(),
            old(self).extended_to(*final(self)),
            at < final(self).list.paints@.len(),
            final(self).list.paints@[at as int] == (Paint::Solid { color }),
            final(self).list.clips == old(self).list.clips,
    {
        if let Some((cached, at)) = self.last_solid {
            if cached == color {
                return at;
            }
        }
        let at = self.list.paints.len();
        self.list.paints.push(Paint::Solid { color });
        proof {
            lemma_extended(*old(self), *self);
            lemma_fills_shared(
                old(self).list.paints@,
                Paint::Solid { color },
                match old(self).last_solid {
                    Some((_, at)) => Some(at as int),
                    None => None,
                },
            );
        }
        self.last_solid = Some((color, at));
        at
    }

    fn push(&mut self, draw: Draw<usize, usize, FilterChain>)
        requires
            old(self).wf(),
            draw_ok(old(self).list.clips@, old(self).list.paints@, draw),
        ensures
            final(self).wf(),
            final(self).list.resolved() == old(self).list.resolved().push(
                resolve(old(self).list.clips@, old(self).list.paints@, draw),
            ),
            final(self).list.missing == old(self).list.missing,
    {
        self.list.draws.push(draw);
        proof {
            assert(self.list.resolved() =~= old(self).list.resolved().push(
                resolve(old(self).list.clips@, old(self).list.paints@, draw),
            ));
        }
    }
}

/// Listing one clip more keeps the rectangles shared: a rounded one in any case, and a rectangle
/// that differs from the last one listed, at `last`.
proof fn lemma_clips_shared(clips: Seq<ClipLink>, link: ClipLink, last: Option<int>)
    requires
        clips_are_shared(clips),
        link is Rect ==> match last {
            Some(last) => {
                &&& 0 <= last < clips.len()
                &&& clips[last] is Rect
                &&& clips[last] != link
                &&& forall|k: int| last < k < clips.len() ==> (#[trigger] clips[k]) is Rounded
            },
            None => clips.len() == 0,
        },
    ensures
        clips_are_shared(clips.push(link)),
{
    let more = clips.push(link);
    assert forall|i: int, j: int|
        0 <= i < j < more.len() && more[i] is Rect && more[j] is Rect && (forall|k: int|
            i < k < j ==> (#[trigger] more[k]) is Rounded) implies #[trigger] more[i]
        != #[trigger] more[j] by {
        if j < clips.len() {
            assert forall|k: int| i < k < j implies (#[trigger] clips[k]) is Rounded by {
                assert(more[k] == clips[k]);
            }
            assert(clips[i] != clips[j]);
        } else {
            let last = last->0;
            if last != i {
                assert(more[last] == clips[last]);
                assert(more[i] == clips[i]);
            }
        }
    }
}

/// Listing one paint more keeps the flat fills shared: a gradient in any case, and a flat fill that
/// differs from the last one listed, at `last`.
proof fn lemma_fills_shared(paints: Seq<Paint>, paint: Paint, last: Option<int>)
    requires
        fills_are_shared(paints),
        paint is Solid ==> match last {
            Some(last) => {
                &&& 0 <= last < paints.len()
                &&& paints[last] is Solid
                &&& paints[last] != paint
                &&& forall|k: int| last < k < paints.len() ==> (#[trigger] paints[k]) is Gradient
            },
            None => forall|k: int| 0 <= k < paints.len() ==> (#[trigger] paints[k]) is Gradient,
        },
    ensures
        fills_are_shared(paints.push(paint)),
{
    let more = paints.push(paint);
    assert forall|i: int, j: int|
        0 <= i < j < more.len() && more[i] is Solid && more[j] is Solid && (forall|k: int|
            i < k < j ==> (#[trigger] more[k]) is Gradient) implies #[trigger] more[i]
        != #[trigger] more[j] by {
        if j < paints.len() {
            assert forall|k: int| i < k < j implies (#[trigger] paints[k]) is Gradient by {
                assert(more[k] == paints[k]);
            }
            assert(paints[i] != paints[j]);
        } else {
            assert(more[i] == paints[i]);
            if let Some(last) = last {
                if last != i {
                    assert(more[last] == paints[last]);
                }
            }
        }
    }
}

proof fn lemma_extended(before: Builder, after: Builder)
    requires
        before.wf(),
        after.list.draws == before.list.draws,
        after.list.missing == before.list.missing,
        before.list.clips@.len() <= after.list.clips@.len(),
        before.list.paints@.len() <= after.list.paints@.len(),
        forall|i: int|
            0 <= i < before.list.clips@.len() ==> after.list.clips@[i]
                == #[trigger] before.list.clips@[i],
        forall|i: int|
            0 <= i < before.list.paints@.len() ==> after.list.paints@[i]
                == #[trigger] before.list.paints@[i],
    ensures
        before.extended_to(after),
        forall|i: int|
            0 <= i < before.list.clips@.len() ==> #[trigger] clip_ok(after.list.clips@, i),
        forall|i: int|
            0 <= i < after.list.draws@.len() ==> draw_ok(
                after.list.clips@,
                after.list.paints@,
                #[trigger] after.list.draws@[i],
            ),
{
    assert forall|i: int| 0 <= i < before.list.clips@.len() implies #[trigger] clip_ok(
        after.list.clips@,
        i,
    ) by {
        assert(clip_ok(before.list.clips@, i));
        assert(after.list.clips@[i] == before.list.clips@[i]);
        if let ClipLink::Rounded { outer, bounds: _, radii: _ } = before.list.clips@[i] {
            assert(after.list.clips@[outer as int] == before.list.clips@[outer as int]);
        }
    }
    assert forall|i: int| 0 <= i < before.list.draws@.len() implies #[trigger] resolve(
        after.list.clips@,
        after.list.paints@,
        before.list.draws@[i],
    ) == resolve(before.list.clips@, before.list.paints@, before.list.draws@[i]) by {
        let draw = before.list.draws@[i];
        assert(draw_ok(before.list.clips@, before.list.paints@, draw));
        lemma_resolve(before.list, after.list, draw);
    }
    assert(after.list.resolved() =~= before.list.resolved());
}

/// What a draw names stands where it stood when more is put behind it.
proof fn lemma_resolve(
    before: DisplayList,
    after: DisplayList,
    draw: Draw<usize, usize, FilterChain>,
)
    requires
        forall|i: int| 0 <= i < before.clips@.len() ==> #[trigger] clip_ok(before.clips@, i),
        draw_ok(before.clips@, before.paints@, draw),
        before.clips@.len() <= after.clips@.len(),
        before.paints@.len() <= after.paints@.len(),
        forall|i: int|
            0 <= i < before.clips@.len() ==> after.clips@[i] == #[trigger] before.clips@[i],
        forall|i: int|
            0 <= i < before.paints@.len() ==> after.paints@[i] == #[trigger] before.paints@[i],
    ensures
        resolve(after.clips@, after.paints@, draw) == resolve(before.clips@, before.paints@, draw),
{
    assert forall|at: usize| at < before.clips@.len() implies #[trigger] clip_at(after.clips@, at)
        == clip_at(before.clips@, at) by {
        assert(clip_ok(before.clips@, at as int));
        assert(after.clips@[at as int] == before.clips@[at as int]);
        if let ClipLink::Rounded { outer, bounds: _, radii: _ } = before.clips@[at as int] {
            assert(after.clips@[outer as int] == before.clips@[outer as int]);
        }
    }
}

proof fn lemma_extended_trans(first: Builder, second: Builder, third: Builder)
    requires
        first.extended_to(second),
        second.extended_to(third),
    ensures
        first.extended_to(third),
{
    assert forall|i: int| 0 <= i < first.list.clips@.len() implies third.list.clips@[i]
        == #[trigger] first.list.clips@[i] by {
        assert(second.list.clips@[i] == first.list.clips@[i]);
    }
    assert forall|i: int| 0 <= i < first.list.paints@.len() implies third.list.paints@[i]
        == #[trigger] first.list.paints@[i] by {
        assert(second.list.paints@[i] == first.list.paints@[i]);
    }
}

impl Builder {
    /// The paint of a fill. A pattern has no counterpart in the display list: drawing its base
    /// colour keeps the shape visible, and it is counted.
    fn background(&mut self, background: &Background, bounds: Bounds) -> (at: usize)
        requires
            old(self).wf(),
            old(self).list.missing.patterns < usize::MAX,
        ensures
            final(self).wf(),
            at < final(self).list.paints@.len(),
            final(self).list.paints@[at as int] == paint_of(*background, bounds),
            old(self).list.clips@ == final(self).list.clips@,
            final(self).list.resolved() == old(self).list.resolved(),
            final(self).list.missing == (Unsupported {
                patterns: if is_pattern(*background) {
                    (old(self).list.missing.patterns + 1) as usize
                } else {
                    old(self).list.missing.patterns
                },
                ..old(self).list.missing
            }),
    {
        match *background {
            Background::Solid { color } => self.solid(color),
            Background::LinearGradient { angle, first, second, space } => self.push_gradient(
                Paint::Gradient { angle, bounds, first, second, space },
            ),
            Background::PatternSlash { color } => {
                let at = self.solid(color);
                self.list.missing.patterns = self.list.missing.patterns + 1;
                at
            },
            Background::Checkerboard { color } => {
                let at = self.solid(color);
                self.list.missing.patterns = self.list.missing.patterns + 1;
                at
            },
        }
    }

    fn push_quad(&mut self, quad: &Quad)
        requires
            old(self).wf(),
            old(self).list.missing.patterns < usize::MAX,
        ensures
            final(self).wf(),
            final(self).list.resolved() == old(self).list.resolved().push(draw_of_quad(*quad)),
            final(self).list.missing == (Unsupported {
                patterns: if is_pattern(quad.background) {
                    (old(self).list.missing.patterns + 1) as usize
                } else {
                    old(self).list.missing.patterns
                },
                ..old(self).list.missing
            }),
    {
        let clip = self.clip_for(quad.content_mask);
        let fill = self.background(&quad.background, quad.bounds);
        let ghost filled = *self;
        let stroke = if zero(quad.border_widths.top) && zero(quad.border_widths.right) && zero(
            quad.border_widths.bottom,
        ) && zero(quad.border_widths.left) {
            None
        } else {
            Some(self.solid(quad.border_color))
        };
        proof {
            assert(self.list.paints@[fill as int] == filled.list.paints@[fill as int]);
            assert(self.list.clips@[clip as int] == filled.list.clips@[clip as int]);
        }
        self.push(
            Draw::Quad {
                clip,
                fill,
                stroke,
                bounds: quad.bounds,
                radii: quad.corner_radii,
                border: quad.border_widths,
                style: quad.border_style,
            },
        );
    }

    fn push_shadow(&mut self, shadow: &Shadow)
        requires
            old(self).wf(),
        ensures
            final(self).wf(),
            final(self).list.resolved() == old(self).list.resolved().push(
                draw_of_shadow(*shadow),
            ),
            final(self).list.missing == old(self).list.missing,
    {
        let clip = self.clip_for(shadow.content_mask);
        let inset = shadow.inset != 0;
        // A drop shadow paints past its shape, and what it paints is what it is culled and
        // ordered by; one inside its box is painted by its shape already.
        let painted = if inset {
            shadow.bounds
        } else {
            shadow.reached
        };
        self.push(
            Draw::Shadow {
                clip,
                blur: shadow.blur_radius,
                bounds: painted,
                shape: shadow.bounds,
                radii: shadow.corner_radii,
                element_bounds: shadow.element_bounds,
                element_radii: shadow.element_corner_radii,
                color: shadow.color,
                inset,
            },
        );
    }

    fn push_underline(&mut self, underline: &Underline)
        requires
            old(self).wf(),
        ensures
            final(self).wf(),
            final(self).list.resolved() == old(self).list.resolved().push(
                draw_of_underline(*underline),
            ),
            final(self).list.missing == old(self).list.missing,
    {
        let clip = self.clip_for(underline.content_mask);
        let line = if underline.wavy {
            DecorationStyle::Wavy
        } else {
            DecorationStyle::Solid
        };
        self.push(
            Draw::Decoration {
                clip,
                bounds: underline.bounds,
                thickness: underline.thickness,
                color: underline.color,
                line,
            },
        );
    }

    fn push_mono(&mut self, sprite: &TintedSprite, space: Space)
        requires
            old(self).wf(),
        ensures
            final(self).wf(),
            final(self).list.resolved() == old(self).list.resolved().push(
                draw_of_mono(*sprite, space),
            ),
            final(self).list.missing == old(self).list.missing,
    {
        let clip = self.clip_for(sprite.content_mask);
        self.push(
            Draw::MonoSprite {
                clip,
                bounds: sprite.bounds,
                tile: sprite.tile,
                color: sprite.color,
                space,
            },
        );
    }

    fn push_subpixel(&mut self, sprite: &TintedSprite, space: Space)
        requires
            old(self).wf(),
        ensures
            final(self).wf(),
            final(self).list.resolved() == old(self).list.resolved().push(
                draw_of_subpixel(*sprite, space),
            ),
            final(self).list.missing == old(self).list.missing,
    {
        let clip = self.clip_for(sprite.content_mask);
        self.push(
            Draw::SubpixelSprite {
                clip,
                bounds: sprite.bounds,
                tile: sprite.tile,
                color: sprite.color,
                space,
            },
        );
    }

    fn push_polychrome(&mut self, sprite: &PolychromeSprite)
        requires
            old(self).wf(),
        ensures
            final(self).wf(),
            final(self).list.resolved() == old(self).list.resolved().push(
                draw_of_polychrome(*sprite),
            ),
            final(self).list.missing == old(self).list.missing,
    {
        let clip = self.clip_for(sprite.content_mask);
        self.push(
            Draw::ColorSprite {
                clip,
                bounds: sprite.bounds,
                tile: sprite.tile,
                radii: sprite.corner_radii,
                opacity: sprite.opacity,
                grayscale: sprite.grayscale,
            },
        );
    }

    /// A surface whose texture could not be adopted is counted rather than drawn: showing nothing
    /// is wrong, but showing some other texture's contents would be worse.
    fn push_surface(&mut self, surface: &PaintSurface, texture: Option<u64>)
        requires
            old(self).wf(),
            old(self).list.missing.foreign_surfaces < usize::MAX,
        ensures
            final(self).wf(),
            texture is None ==> final(self).list.resolved() == old(self).list.resolved()
                && final(self).list.missing == (Unsupported {
                foreign_surfaces: (old(self).list.missing.foreign_surfaces + 1) as usize,
                ..old(self).list.missing
            }),
            texture matches Some(texture) ==> final(self).list.missing == old(self).list.missing
                && final(self).list.resolved() == old(self).list.resolved().push(
                Draw::External {
                    clip: Clip::Rect { bounds: surface.content_mask },
                    bounds: surface.bounds,
                    texture,
                },
            ),
    {
        match texture {
            Some(texture) => {
                let clip = self.clip_for(surface.content_mask);
                self.push(Draw::External { clip, bounds: surface.bounds, texture });
            },
            None => {
                self.list.missing.foreign_surfaces = self.list.missing.foreign_surfaces + 1;
            },
        }
    }

    /// A path, drawn through its mask; one that has none is counted.
    fn push_path(&mut self, path: &Path, mask: Option<Mask>)
        requires
            old(self).wf(),
            old(self).list.missing.paths < usize::MAX,
        ensures
            final(self).wf(),
            mask is None ==> final(self).list.resolved() == old(self).list.resolved()
                && final(self).list.missing == (Unsupported {
                paths: (old(self).list.missing.paths + 1) as usize,
                ..old(self).list.missing
            }),
            mask matches Some(mask) ==> final(self).list.missing == old(self).list.missing
                && final(self).list.resolved() == old(self).list.resolved().push(
                Draw::Mask { clip: Clip::Rect { bounds: path.content_mask }, mask },
            ),
    {
        match mask {
            Some(mask) => {
                let clip = self.clip_for(path.content_mask);
                self.push(Draw::Mask { clip, mask });
            },
            None => {
                self.list.missing.paths = self.list.missing.paths + 1;
            },
        }
    }

    /// A backdrop carries no corner radii and no opacity of its own in the display list, so the
    /// radii become a rounded link on its clip and the opacity joins the filter chain.
    fn push_backdrop(&mut self, backdrop: &BackdropFilter)
        requires
            old(self).wf(),
        ensures
            final(self).wf(),
            final(self).list.resolved() == old(self).list.resolved().push(
                draw_of_backdrop(*backdrop),
            ),
            final(self).list.missing == old(self).list.missing,
    {
        let clip = self.rounded_clip_for(
            backdrop.content_mask,
            backdrop.bounds,
            backdrop.corner_radii,
        );
        let mut filters = filter_chain(&backdrop.blurs);
        if below_one(backdrop.opacity) {
            chain_push(&mut filters, Filter::Opacity(backdrop.opacity));
        }
        self.push(Draw::Backdrop { clip, bounds: backdrop.bounds, filters });
    }

    /// One marker of an isolated group. Markers are matched pairs and are never left out: dropping
    /// a start would leave a target open, and dropping an end would compose one never begun.
    fn push_group(&mut self, boundary: &FilterBoundary)
        requires
            old(self).wf(),
        ensures
            final(self).wf(),
            final(self).list.resolved() == old(self).list.resolved().push(
                draw_of_group(*boundary),
            ),
            final(self).list.missing == old(self).list.missing,
    {
        let clip = self.rounded_clip_for(
            boundary.content_mask,
            boundary.bounds,
            boundary.corner_radii,
        );
        let filters = filter_chain(&boundary.blurs);
        self.push(
            Draw::Group {
                clip,
                bounds: boundary.bounds,
                opacity: boundary.opacity,
                filters,
                is_start: boundary.is_start,
            },
        );
    }
}

/// The primitive of a batch at `at`.
pub open spec fn item_at(batch: Batch, at: int) -> Item {
    match batch {
        Batch::Shadows { .. } => Item::Shadow(at),
        Batch::Quads { .. } => Item::Quad(at),
        Batch::Underlines { .. } => Item::Underline(at),
        Batch::MonochromeSprites { .. } => Item::MonochromeSprite(at),
        Batch::SubpixelSprites { .. } => Item::SubpixelSprite(at),
        Batch::PolychromeSprites { .. } => Item::PolychromeSprite(at),
        Batch::Surfaces { .. } => Item::Surface(at),
        Batch::BackdropFilters { .. } => Item::BackdropFilter(at),
        Batch::FilterBoundary { .. } => Item::FilterBoundary(at),
        Batch::Paths { .. } => Item::Path(at),
    }
}

/// Whether the scene has a primitive of the batch's kind at `at`.
spec fn has_at(from: Scene, batch: Batch, at: int) -> bool {
    0 <= at < match batch {
        Batch::Shadows { .. } => from.shadows@.len(),
        Batch::Quads { .. } => from.quads@.len(),
        Batch::Underlines { .. } => from.underlines@.len(),
        Batch::MonochromeSprites { .. } => from.monochrome_sprites@.len(),
        Batch::SubpixelSprites { .. } => from.subpixel_sprites@.len(),
        Batch::PolychromeSprites { .. } => from.polychrome_sprites@.len(),
        Batch::Surfaces { .. } => from.surfaces@.len(),
        Batch::BackdropFilters { .. } => from.backdrop_filters@.len(),
        Batch::FilterBoundary { .. } => from.filter_boundaries@.len(),
        Batch::Paths { .. } => from.paths@.len(),
    }
}

/// The places of a batch's primitives. A marker that is not there has none.
fn places_of(from: &Scene, batch: Batch) -> (places: (usize, usize))
    requires
        from.has(batch),
    ensures
        places.0 <= places.1,
        forall|at: int| places.0 <= at < places.1 ==> #[trigger] has_at(*from, batch, at),
        from.items_of(batch) == Seq::new(
            (places.1 - places.0) as nat,
            |i: int| item_at(batch, places.0 + i),
        ),
{
    let places = match batch {
        Batch::Shadows { start, end } => (start, end),
        Batch::Quads { start, end } => (start, end),
        Batch::Underlines { start, end } => (start, end),
        Batch::MonochromeSprites { start, end } => (start, end),
        Batch::SubpixelSprites { start, end } => (start, end),
        Batch::PolychromeSprites { start, end } => (start, end),
        Batch::Surfaces { start, end } => (start, end),
        Batch::BackdropFilters { start, end } => (start, end),
        Batch::FilterBoundary { index } => if index < from.filter_boundaries.len() {
            (index, index + 1)
        } else {
            (index, index)
        },
        Batch::Paths { start, end } => (start, end),
    };
    assert(from.items_of(batch) =~= Seq::new(
        (places.1 - places.0) as nat,
        |i: int| item_at(batch, places.0 + i),
    ));
    places
}

/// The entry at `at` of a list of things that may be missing.
fn entry<T: Copy>(list: &Vec<Option<T>>, at: usize) -> (found: Option<T>)
    ensures
        found == entry_at(list@, at as int),
{
    if at < list.len() {
        list[at]
    } else {
        None
    }
}

/// State the translation keeps between frames.
pub struct Translator {
    /// Sprite transforms, interned as owners of coordinate systems.
    transforms: Transforms,
}

impl Translator {
    /// The transforms interned so far.
    pub closed spec fn transforms(self) -> Transforms {
        self.transforms
    }

    /// A translation that has seen no frame yet.
    pub fn new() -> (translator: Translator)
        ensures
            translator.transforms().wf(),
            (translator.transforms().owners() == Map::<MatrixKey, u64>::empty()),
            translator.transforms().used().len() == 0,
            translator.transforms().last() == 0,
    {
        Translator { transforms: Transforms::new() }
    }

    /// Prepares for a frame, and gives the owners that no primitive of the last one used, for the
    /// tree of coordinate systems to release.
    pub fn begin_frame(&mut self) -> (released: Vec<u64>)
        requires
            old(self).transforms().wf(),
        ensures
            final(self).transforms().wf(),
            final(self).transforms().used().len() == 0,
            final(self).transforms().last() == old(self).transforms().last(),
            final(self).transforms().owners() == old(self).transforms().owners().restrict(
                old(self).transforms().used().to_set(),
            ),
            released@.no_duplicates(),
            forall|owner: u64| #[trigger]
                released@.contains(owner) <==> idle(
                    old(self).transforms().owners(),
                    old(self).transforms().used(),
                    owner,
                ),
    {
        self.transforms.begin_frame()
    }

    /// Rewrites `from` as a display list.
    ///
    /// `masks` gives the mask of each path and `externals` the texture registered for each
    /// surface, by its place in the scene.
    pub fn translate(
        &mut self,
        from: &Scene,
        masks: &Vec<Option<Mask>>,
        externals: &Vec<Option<u64>>,
    ) -> (list: DisplayList)
        requires
            old(self).transforms().wf(),
            from.wf(),
            from.items().len() <= usize::MAX,
            old(self).transforms().last() + from.items().len() <= u64::MAX,
        ensures
            final(self).transforms().wf(),
            list.wf(),
            list.shares(),
            progress(list, final(self).transforms()) == (Progress {
                draws: Seq::empty(),
                owners: owners_of(old(self).transforms()),
                paths: 0,
                foreign_surfaces: 0,
                patterns: 0,
            }).with_items(*from, masks@, externals@, from.items()),
    {
        let mut builder = Builder::new();
        let ghost start = progress(builder.list, self.transforms);
        proof {
            assert(start =~= Progress {
                draws: Seq::empty(),
                owners: owners_of(old(self).transforms()),
                paths: 0,
                foreign_surfaces: 0,
                patterns: 0,
            });
        }
        let mut i: usize = 0;
        while i < from.batches.len()
            invariant
                i <= from.batches@.len(),
                from.wf(),
                from.items().len() <= usize::MAX,
                start.paths == 0,
                start.foreign_surfaces == 0,
                start.patterns == 0,
                start.owners.last + from.items().len() <= u64::MAX,
                self.transforms.wf(),
                builder.wf(),
                progress(builder.list, self.transforms) == start.with_items(
                    *from,
                    masks@,
                    externals@,
                    from.items_in(from.batches@.take(i as int)),
                ),
            decreases from.batches@.len() - i,
        {
            let batch = from.batches[i];
            let ghost before = from.items_in(from.batches@.take(i as int));
            let ghost own = from.items_of(batch);
            let places = places_of(from, batch);
            proof {
                assert(from.batches@.take(i + 1).drop_last() =~= from.batches@.take(i as int));
                assert(from.items_in(from.batches@.take(i + 1)) == before + own);
                lemma_items_grow(*from, from.batches@, i + 1);
            }
            let mut at: usize = places.0;
            proof {
                assert(before + own.take(0) =~= before);
            }
            while at < places.1
                invariant
                    places.0 <= at <= places.1,
                    own == Seq::new(
                        (places.1 - places.0) as nat,
                        |k: int| item_at(batch, places.0 + k),
                    ),
                    forall|k: int|
                        places.0 <= k < places.1 ==> #[trigger] has_at(*from, batch, k),
                    before.len() + own.len() <= from.items().len(),
                    from.items().len() <= usize::MAX,
                    start.paths == 0,
                    start.foreign_surfaces == 0,
                    start.patterns == 0,
                    start.owners.last + from.items().len() <= u64::MAX,
                    self.transforms.wf(),
                    builder.wf(),
                    progress(builder.list, self.transforms) == start.with_items(
                        *from,
                        masks@,
                        externals@,
                        before + own.take(at - places.0),
                    ),
                decreases places.1 - at,
            {
                let ghost done = before + own.take(at - places.0);
                let ghost next = before + own.take(at + 1 - places.0);
                proof {
                    lemma_counts(start, *from, masks@, externals@, done);
                    assert(has_at(*from, batch, at as int));
                    assert(next.drop_last() =~= done);
                    assert(next.last() == item_at(batch, at as int));
                }
                self.push_one(&mut builder, from, masks, externals, batch, at);
                at = at + 1;
            }
            proof {
                assert(own.take(at - places.0) =~= own);
            }
            i = i + 1;
        }
        proof {
            assert(from.batches@.take(i as int) =~= from.batches@);
        }
        builder.list
    }

    /// Pushes the primitive of a batch's kind at `at`.
    fn push_one(
        &mut self,
        builder: &mut Builder,
        from: &Scene,
        masks: &Vec<Option<Mask>>,
        externals: &Vec<Option<u64>>,
        batch: Batch,
        at: usize,
    )
        requires
            old(self).transforms.wf(),
            old(self).transforms.last() < u64::MAX,
            old(builder).wf(),
            old(builder).list.missing.paths < usize::MAX,
            old(builder).list.missing.foreign_surfaces < usize::MAX,
            old(builder).list.missing.patterns < usize::MAX,
            has_at(*from, batch, at as int),
        ensures
            final(self).transforms.wf(),
            final(builder).wf(),
            progress(final(builder).list, final(self).transforms) == progress(
                old(builder).list,
                old(self).transforms,
            ).with_item(*from, masks@, externals@, item_at(batch, at as int)),
    {
        match batch {
            Batch::Shadows { .. } => builder.push_shadow(&from.shadows[at]),
            Batch::Quads { .. } => builder.push_quad(&from.quads[at]),
            Batch::Underlines { .. } => builder.push_underline(&from.underlines[at]),
            Batch::MonochromeSprites { .. } => {
                let space = self.transforms.id_for(&from.monochrome_sprites[at].transformation);
                builder.push_mono(&from.monochrome_sprites[at], space);
            },
            Batch::SubpixelSprites { .. } => {
                let space = self.transforms.id_for(&from.subpixel_sprites[at].transformation);
                builder.push_subpixel(&from.subpixel_sprites[at], space);
            },
            Batch::PolychromeSprites { .. } => builder.push_polychrome(
                &from.polychrome_sprites[at],
            ),
            Batch::Surfaces { .. } => builder.push_surface(
                &from.surfaces[at],
                entry(externals, at),
            ),
            Batch::BackdropFilters { .. } => builder.push_backdrop(&from.backdrop_filters[at]),
            Batch::FilterBoundary { .. } => builder.push_group(&from.filter_boundaries[at]),
            Batch::Paths { .. } => builder.push_path(&from.paths[at], entry(masks, at)),
        }
        proof {
            assert(progress(builder.list, self.transforms) =~= progress(
                old(builder).list,
                old(self).transforms,
            ).with_item(*from, masks@, externals@, item_at(batch, at as int)));
        }
    }
}

/// A part of the batches has no more primitives than all of them.
proof fn lemma_items_grow(from: Scene, batches: Seq<Batch>, upto: int)
    requires
        0 <= upto <= batches.len(),
    ensures
        from.items_in(batches.take(upto)).len() <= from.items_in(batches).len(),
    decreases batches.len(),
{
    if upto < batches.len() {
        lemma_items_grow(from, batches.drop_last(), upto);
        assert(batches.drop_last().take(upto) =~= batches.take(upto));
    } else {
        assert(batches.take(upto) =~= batches);
    }
}

/// Every count grows by at most one with each primitive.
proof fn lemma_counts(
    start: Progress,
    from: Scene,
    masks: Seq<Option<Mask>>,
    externals: Seq<Option<u64>>,
    items: Seq<Item>,
)
    ensures
        ({
            let end = start.with_items(from, masks, externals, items);
            &&& end.paths <= start.paths + items.len()
            &&& end.foreign_surfaces <= start.foreign_surfaces + items.len()
            &&& end.patterns <= start.patterns + items.len()
            &&& end.owners.last <= start.owners.last + items.len()
        }),
    decreases items.len(),
{
    if items.len() > 0 {
        lemma_counts(start, from, masks, externals, items.drop_last());
    }
}

/// Every primitive is drawn once or counted as missing.
pub proof fn law_nothing_is_dropped_silently(
    start: Progress,
    from: Scene,
    masks: Seq<Option<Mask>>,
    externals: Seq<Option<u64>>,
    items: Seq<Item>,
)
    ensures
        ({
            let end = start.with_items(from, masks, externals, items);
            end.draws.len() + end.paths + end.foreign_surfaces == start.draws.len() + start.paths
                + start.foreign_surfaces + items.len()
        }),
    decreases items.len(),
{
    if items.len() > 0 {
        law_nothing_is_dropped_silently(start, from, masks, externals, items.drop_last());
    }
}

/// Painting order is kept: what is painted first comes first, whatever follows.
pub proof fn law_painting_order_is_kept(
    start: Progress,
    from: Scene,
    masks: Seq<Option<Mask>>,
    externals: Seq<Option<u64>>,
    first: Seq<Item>,
    second: Seq<Item>,
)
    ensures
        ({
            let between = start.with_items(from, masks, externals, first);
            let end = start.with_items(from, masks, externals, first + second);
            &&& end == between.with_items(from, masks, externals, second)
            &&& between.draws.is_prefix_of(end.draws)
        }),
    decreases second.len(),
{
    let between = start.with_items(from, masks, externals, first);
    if second.len() == 0 {
        assert(first + second =~= first);
        assert(between.draws.is_prefix_of(between.draws));
    } else {
        law_painting_order_is_kept(start, from, masks, externals, first, second.drop_last());
        assert((first + second).drop_last() =~= first + second.drop_last());
        assert((first + second).last() == second.last());
        let before = between.with_items(from, masks, externals, second.drop_last());
        let end = between.with_items(from, masks, externals, second);
        assert(before.draws.is_prefix_of(end.draws)) by {
            assert(before.draws =~= end.draws.take(before.draws.len() as int));
        }
        assert(between.draws =~= end.draws.take(between.draws.len() as int)) by {
            assert(between.draws =~= before.draws.take(between.draws.len() as int));
        }
    }
}

/// How many markers of isolated groups there are among the draws.
pub open spec fn marker_draws(draws: Seq<Resolved>) -> nat
    decreases draws.len(),
{
    if draws.len() == 0 {
        0
    } else {
        marker_draws(draws.drop_last()) + if draws.last() is Group {
            1nat
        } else {
            0nat
        }
    }
}

/// How many markers of isolated groups there are among the primitives.
pub open spec fn marker_items(items: Seq<Item>) -> nat
    decreases items.len(),
{
    if items.len() == 0 {
        0
    } else {
        marker_items(items.drop_last()) + if items.last() is FilterBoundary {
            1nat
        } else {
            0nat
        }
    }
}

/// Every marker of an isolated group is drawn, so pairs stay pairs.
pub proof fn law_markers_are_never_left_out(
    start: Progress,
    from: Scene,
    masks: Seq<Option<Mask>>,
    externals: Seq<Option<u64>>,
    items: Seq<Item>,
)
    ensures
        marker_draws(start.with_items(from, masks, externals, items).draws) == marker_draws(
            start.draws,
        ) + marker_items(items),
    decreases items.len(),
{
    if items.len() > 0 {
        law_markers_are_never_left_out(start, from, masks, externals, items.drop_last());
        let before = start.with_items(from, masks, externals, items.drop_last());
        let end = start.with_items(from, masks, externals, items);
        if end.draws.len() > before.draws.len() {
            assert(end.draws.drop_last() =~= before.draws);
        }
    }
}

} // verus!
