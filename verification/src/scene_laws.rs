//! What each primitive of a scene becomes in the display list.

use vstd::prelude::*;

use crate::bits::is_below_one;
use crate::bits::is_zero;
use crate::filters::blurs;
use crate::filters::Filter;
use crate::filters::FilterChain;
use crate::path::Mask;
use crate::scene::BackdropFilter;
use crate::scene::Background;
use crate::scene::Batch;
use crate::scene::Bounds;
use crate::scene::ColorSpace;
use crate::scene::ColorStop;
use crate::scene::Corners;
use crate::scene::FilterBoundary;
use crate::scene::Hsla;
use crate::scene::Item;
use crate::scene::PolychromeSprite;
use crate::scene::Quad;
use crate::scene::Scene;
use crate::scene::Shadow;
use crate::scene::TintedSprite;
use crate::scene::Underline;
use crate::spatial::coefficients;
use crate::spatial::interns;
use crate::spatial::key_of;
use crate::spatial::Affine;
use crate::spatial::Space;
use crate::spatial::TransformationMatrix;
use crate::spatial::Transforms;
use crate::translate::backdrop_filters;
use crate::translate::clip_at;
use crate::translate::clip_ok;
use crate::translate::clips_are_shared;
use crate::translate::draw_of_backdrop;
use crate::translate::draw_of_group;
use crate::translate::draw_of_mono;
use crate::translate::draw_of_polychrome;
use crate::translate::draw_of_quad;
use crate::translate::draw_of_shadow;
use crate::translate::draw_of_subpixel;
use crate::translate::draw_of_underline;
use crate::translate::draw_ok;
use crate::translate::fills_are_shared;
use crate::translate::owners_of;
use crate::translate::paint_of;
use crate::translate::progress;
use crate::translate::resolve;
use crate::translate::rounded_clip;
use crate::translate::space_of;
use crate::translate::Clip;
use crate::translate::ClipLink;
use crate::translate::DisplayList;
use crate::translate::Draw;
use crate::translate::Owners;
use crate::translate::Paint;
use crate::translate::Progress;
use crate::translate::Resolved;

verus! {

/// A quad has a border exactly where at least one of its four sides has a width, whichever side
/// that is, and then in the border's own colour.
pub proof fn law_quads_have_a_border_where_a_side_has(quad: Quad)
    ensures
        draw_of_quad(quad) matches Draw::Quad { stroke, .. } && {
            let widths = quad.border_widths;
            let bordered = !is_zero(widths.top) || !is_zero(widths.right) || !is_zero(widths.bottom)
                || !is_zero(widths.left);
            &&& bordered <==> stroke == Some(Paint::Solid { color: quad.border_color })
            &&& !bordered <==> stroke is None
        },
{
}

/// A quad is filled over its own bounds, clipped by its own mask, and keeps its corners, the widths
/// of its border and its style.
pub proof fn law_quads_keep_their_shape(quad: Quad)
    ensures
        draw_of_quad(quad) matches Draw::Quad { clip, fill, bounds, radii, border, style, .. } && {
            &&& clip == (Clip::Rect { bounds: quad.content_mask })
            &&& fill == paint_of(quad.background, quad.bounds)
            &&& bounds == quad.bounds
            &&& radii == quad.corner_radii
            &&& border == quad.border_widths
            &&& style == quad.border_style
        },
{
}

/// A flat fill is painted in its colour, and so is a pattern, wherever it is. A gradient keeps its
/// angle, both of its colours with their places, and the space they are mixed in, and runs over the
/// bounds it fills.
pub proof fn law_fills_keep_their_colours(
    color: Hsla,
    angle: u32,
    first: ColorStop,
    second: ColorStop,
    space: ColorSpace,
    bounds: Bounds,
)
    ensures
        paint_of(Background::Solid { color }, bounds) == (Paint::Solid { color }),
        paint_of(Background::PatternSlash { color }, bounds) == (Paint::Solid { color }),
        paint_of(Background::Checkerboard { color }, bounds) == (Paint::Solid { color }),
        paint_of(Background::LinearGradient { angle, first, second, space }, bounds) == (
        Paint::Gradient { angle, bounds, first, second, space }),
{
}

/// A drop shadow paints all that its blur reaches, and one inside its box no more than its shape.
/// Either way the shape is what is blurred, and colour, blur, corners and the box are its own.
pub proof fn law_shadows_reach_as_far_as_their_blur(shadow: Shadow)
    ensures
        draw_of_shadow(shadow) matches Draw::Shadow {
            clip,
            blur,
            bounds,
            shape,
            radii,
            element_bounds,
            element_radii,
            color,
            inset,
        } && {
            &&& shadow.inset == 0 ==> bounds == shadow.reached && !inset
            &&& shadow.inset != 0 ==> bounds == shadow.bounds && inset
            &&& clip == (Clip::Rect { bounds: shadow.content_mask })
            &&& blur == shadow.blur_radius
            &&& shape == shadow.bounds
            &&& radii == shadow.corner_radii
            &&& element_bounds == shadow.element_bounds
            &&& element_radii == shadow.element_corner_radii
            &&& color == shadow.color
        },
{
}

/// An underline is drawn wavy exactly where it is, in its place, thickness and colour.
pub proof fn law_underlines_keep_their_line(underline: Underline)
    ensures
        draw_of_underline(underline) matches Draw::Decoration {
            clip,
            bounds,
            thickness,
            color,
            line,
        } && {
            &&& line is Wavy <==> underline.wavy
            &&& clip == (Clip::Rect { bounds: underline.content_mask })
            &&& bounds == underline.bounds
            &&& thickness == underline.thickness
            &&& color == underline.color
        },
{
}

/// A tinted sprite keeps its place, its tile and its colour, and is drawn in the space it is given:
/// of coverage and of coverage per channel alike, but never the one as the other.
pub proof fn law_tinted_sprites_keep_their_tile(sprite: TintedSprite, given: Space)
    ensures
        draw_of_mono(sprite, given) matches Draw::MonoSprite { clip, bounds, tile, color, space }
            && {
            &&& clip == (Clip::Rect { bounds: sprite.content_mask })
            &&& bounds == sprite.bounds
            &&& tile == sprite.tile
            &&& color == sprite.color
            &&& space == given
        },
        draw_of_subpixel(sprite, given) matches Draw::SubpixelSprite {
            clip,
            bounds,
            tile,
            color,
            space,
        } && {
            &&& clip == (Clip::Rect { bounds: sprite.content_mask })
            &&& bounds == sprite.bounds
            &&& tile == sprite.tile
            &&& color == sprite.color
            &&& space == given
        },
{
}

/// A sprite of many colours keeps its place, its tile, its corners and its opacity, and is grey
/// exactly where it is to be.
pub proof fn law_coloured_sprites_keep_their_tile(sprite: PolychromeSprite)
    ensures
        draw_of_polychrome(sprite) matches Draw::ColorSprite {
            clip,
            bounds,
            tile,
            radii,
            opacity,
            grayscale,
        } && {
            &&& clip == (Clip::Rect { bounds: sprite.content_mask })
            &&& bounds == sprite.bounds
            &&& tile == sprite.tile
            &&& radii == sprite.corner_radii
            &&& opacity == sprite.opacity
            &&& grayscale == sprite.grayscale
        },
{
}

/// A clip is rounded exactly where at least one of the four corners is, whichever that is: then it
/// rounds the primitive's own bounds under its mask, and otherwise it is the mask.
pub proof fn law_clips_are_rounded_where_a_corner_is(mask: Bounds, bounds: Bounds, radii: Corners)
    ensures
        ({
            let round = !is_zero(radii.top_left) || !is_zero(radii.top_right) || !is_zero(
                radii.bottom_right,
            ) || !is_zero(radii.bottom_left);
            &&& round <==> rounded_clip(mask, bounds, radii) == (Clip::Rounded {
                outer: mask,
                bounds,
                radii,
            })
            &&& !round <==> rounded_clip(mask, bounds, radii) == (Clip::Rect { bounds: mask })
        }),
{
}

/// A backdrop is filtered by its blurs, in order, and then faded exactly where its opacity is below
/// one. It is clipped by its corners and keeps its place.
pub proof fn law_backdrops_fade_below_one(backdrop: BackdropFilter)
    ensures
        draw_of_backdrop(backdrop) matches Draw::Backdrop { clip, bounds, filters } && {
            &&& clip == rounded_clip(
                backdrop.content_mask,
                backdrop.bounds,
                backdrop.corner_radii,
            )
            &&& bounds == backdrop.bounds
            &&& filters == backdrop_filters(backdrop)
        },
        ({
            let chain = backdrop_filters(backdrop);
            let n = backdrop.blurs@.len();
            &&& forall|i: int|
                0 <= i < n ==> #[trigger] chain[i] == Filter::Blur(backdrop.blurs@[i])
            &&& is_below_one(backdrop.opacity) ==> chain.len() == n + 1 && chain[n as int]
                == Filter::Opacity(backdrop.opacity)
            &&& !is_below_one(backdrop.opacity) ==> chain.len() == n
        }),
{
}

/// A marker of a group keeps its opacity, its blurs in order, its place and which end it marks, and
/// is clipped by its corners. Its opacity is no part of its filters.
pub proof fn law_markers_keep_their_end(boundary: FilterBoundary)
    ensures
        draw_of_group(boundary) matches Draw::Group { clip, bounds, opacity, filters, is_start }
            && {
            &&& clip == rounded_clip(
                boundary.content_mask,
                boundary.bounds,
                boundary.corner_radii,
            )
            &&& bounds == boundary.bounds
            &&& opacity == boundary.opacity
            &&& is_start == boundary.is_start
            &&& filters.len() == boundary.blurs@.len()
            &&& forall|i: int|
                0 <= i < filters.len() ==> #[trigger] filters[i] == Filter::Blur(
                    boundary.blurs@[i],
                )
        },
{
}

/// A chain has one blur for each deviation, in order, and two chains are one where their deviations
/// are.
pub proof fn law_chains_hold_every_blur(one: Seq<u32>, two: Seq<u32>)
    ensures
        blurs(one).len() == one.len(),
        forall|i: int| 0 <= i < one.len() ==> #[trigger] blurs(one)[i] == Filter::Blur(one[i]),
        blurs(one) == blurs(two) <==> one == two,
{
    assert(blurs(one).len() == one.len() && blurs(two).len() == two.len());
    if blurs(one) == blurs(two) {
        assert forall|i: int| 0 <= i < one.len() implies one[i] == two[i] by {
            assert(blurs(one)[i] == Filter::Blur(one[i]));
            assert(blurs(two)[i] == Filter::Blur(two[i]));
        }
        assert(one =~= two);
    }
}

/// A primitive that is always drawn adds one thing to what is drawn: itself, behind all that was
/// drawn before. None of them counts as missing, and only a pattern counts as one.
pub proof fn law_primitives_are_drawn_as_themselves(
    before: Progress,
    from: Scene,
    masks: Seq<Option<Mask>>,
    externals: Seq<Option<u64>>,
    i: int,
)
    ensures
        before.with_item(from, masks, externals, Item::Shadow(i)) == before.drew(
            draw_of_shadow(from.shadows@[i]),
        ),
        before.with_item(from, masks, externals, Item::Underline(i)) == before.drew(
            draw_of_underline(from.underlines@[i]),
        ),
        before.with_item(from, masks, externals, Item::PolychromeSprite(i)) == before.drew(
            draw_of_polychrome(from.polychrome_sprites@[i]),
        ),
        before.with_item(from, masks, externals, Item::BackdropFilter(i)) == before.drew(
            draw_of_backdrop(from.backdrop_filters@[i]),
        ),
        before.with_item(from, masks, externals, Item::FilterBoundary(i)) == before.drew(
            draw_of_group(from.filter_boundaries@[i]),
        ),
        ({
            let background = from.quads@[i].background;
            let after = before.with_item(from, masks, externals, Item::Quad(i));
            &&& after.draws == before.draws.push(draw_of_quad(from.quads@[i]))
            &&& after.owners == before.owners
            &&& after.paths == before.paths && after.foreign_surfaces == before.foreign_surfaces
            &&& after.patterns == before.patterns + if background is Solid
                || background is LinearGradient {
                0int
            } else {
                1int
            }
        }),
{
}

/// Drawing one thing more keeps what was drawn and changes nothing else.
pub proof fn law_drawing_adds_behind(before: Progress, draw: Resolved)
    ensures
        before.drew(draw).draws == before.draws.push(draw),
        before.drew(draw).owners == before.owners,
        before.drew(draw).paths == before.paths,
        before.drew(draw).foreign_surfaces == before.foreign_surfaces,
        before.drew(draw).patterns == before.patterns,
{
}

/// A sprite that carries a transform is drawn in the space of that transform, and the owners are
/// then as asking for that space leaves them.
pub proof fn law_sprites_are_drawn_in_their_space(
    before: Progress,
    from: Scene,
    masks: Seq<Option<Mask>>,
    externals: Seq<Option<u64>>,
    i: int,
)
    ensures
        ({
            let sprite = from.monochrome_sprites@[i];
            let (owners, space) = space_of(before.owners, sprite.transformation);
            let after = before.with_item(from, masks, externals, Item::MonochromeSprite(i));
            after == (Progress { owners, ..before.drew(draw_of_mono(sprite, space)) })
        }),
        ({
            let sprite = from.subpixel_sprites@[i];
            let (owners, space) = space_of(before.owners, sprite.transformation);
            let after = before.with_item(from, masks, externals, Item::SubpixelSprite(i));
            after == (Progress { owners, ..before.drew(draw_of_subpixel(sprite, space)) })
        }),
{
}

/// A path is drawn exactly where it has a mask, as that mask under its own clip, and otherwise
/// counts as missing. A surface is drawn exactly where it has a texture, in its own place, and
/// otherwise counts as foreign. The mask and the texture are those at the primitive's own place.
pub proof fn law_paths_and_surfaces_are_drawn_or_counted(
    before: Progress,
    from: Scene,
    masks: Seq<Option<Mask>>,
    externals: Seq<Option<u64>>,
    i: int,
)
    requires
        0 <= i,
    ensures
        ({
            let after = before.with_item(from, masks, externals, Item::Path(i));
            let drawn = i < masks.len() && masks[i] is Some;
            &&& drawn ==> after == before.drew(
                Draw::Mask {
                    clip: Clip::Rect { bounds: from.paths@[i].content_mask },
                    mask: masks[i]->0,
                },
            )
            &&& !drawn ==> after == (Progress { paths: before.paths + 1, ..before })
        }),
        ({
            let after = before.with_item(from, masks, externals, Item::Surface(i));
            let drawn = i < externals.len() && externals[i] is Some;
            &&& drawn ==> after == before.drew(
                Draw::External {
                    clip: Clip::Rect { bounds: from.surfaces@[i].content_mask },
                    bounds: from.surfaces@[i].bounds,
                    texture: externals[i]->0,
                },
            )
            &&& !drawn ==> after == (Progress {
                foreign_surfaces: before.foreign_surfaces + 1,
                ..before
            })
        }),
{
}

/// How many of some primitives are quads filled with a pattern.
pub open spec fn patterned(from: Scene, items: Seq<Item>) -> nat {
    items.filter(
        |item: Item|
            item matches Item::Quad(i) && (from.quads@[i].background is PatternSlash
                || from.quads@[i].background is Checkerboard),
    ).len()
}

/// Every pattern is counted once, and nothing else is.
pub proof fn law_patterns_are_counted(
    start: Progress,
    from: Scene,
    masks: Seq<Option<Mask>>,
    externals: Seq<Option<u64>>,
    items: Seq<Item>,
)
    ensures
        start.with_items(from, masks, externals, items).patterns == start.patterns + patterned(
            from,
            items,
        ),
    decreases items.len(),
{
    reveal(Seq::filter);
    if items.len() > 0 {
        law_patterns_are_counted(start, from, masks, externals, items.drop_last());
    }
}

/// What a sprite's transform makes of the space: none for one that leaves every point where it is,
/// which is so for ones on the diagonal and zeros elsewhere, of either sign.
pub proof fn law_identity_costs_nothing(owners: Owners, transform: TransformationMatrix)
    ensures
        transform.is_unit() <==> {
            &&& transform.row0_col0 == 0x3f80_0000 && transform.row1_col1 == 0x3f80_0000
            &&& is_zero(transform.row0_col1) && is_zero(transform.row1_col0)
            &&& is_zero(transform.translation0) && is_zero(transform.translation1)
        },
        transform.is_unit() ==> space_of(owners, transform) == (owners, Space::Viewport),
        !transform.is_unit() ==> space_of(owners, transform).1 is Owned,
{
}

/// A transform that moves points is drawn in a space of its own matrix: one that was asked for
/// before keeps its owner and gives no new one, and one that is new gets the owner after the last.
/// Either way it counts as used.
pub proof fn law_transforms_are_interned(owners: Owners, transform: TransformationMatrix)
    requires
        !transform.is_unit(),
        0 <= owners.last < u64::MAX,
    ensures
        ({
            let key = key_of(coefficients(transform));
            let (after, space) = space_of(owners, transform);
            &&& space matches Space::Owned { owner, affine } && affine == coefficients(transform)
                && after.held.dom().contains(key) && after.held[key] == owner && (
            owners.held.dom().contains(key) ==> after.held == owners.held && after.last
                == owners.last) && (!owners.held.dom().contains(key) ==> owner == owners.last + 1
                && after.last == owner && after.held == owners.held.insert(key, owner))
            &&& after.used == owners.used.push(key)
        }),
{
}

/// Asking for a space twice gives it twice, and no owner the second time.
pub proof fn law_spaces_are_given_again(owners: Owners, transform: TransformationMatrix)
    requires
        0 <= owners.last < u64::MAX,
    ensures
        ({
            let (once, first) = space_of(owners, transform);
            let (twice, second) = space_of(once, transform);
            &&& first == second
            &&& twice.held == once.held
            &&& twice.last == once.last
        }),
{
}

/// What interning a transform gives is its space, and leaves the owners that asking for it leaves.
pub proof fn law_interning_gives_the_space(
    before: Transforms,
    transform: TransformationMatrix,
    after: Transforms,
    space: Space,
)
    requires
        before.last() < u64::MAX,
        interns(before, transform, after, space),
    ensures
        space_of(owners_of(before), transform) == (owners_of(after), space),
        owners_of(before).held == before.owners(),
        owners_of(before).used == before.used(),
        owners_of(before).last == before.last(),
{
    assert(space_of(owners_of(before), transform).0 =~= owners_of(after));
}

/// A point's column comes from the first row of a transform and its row from the second, while the
/// coefficients are listed by columns: so the first column is the first two, the second the next
/// two, and the translation the last.
pub proof fn law_coefficients_are_listed_by_columns(transform: TransformationMatrix)
    ensures
        ({
            let listed = coefficients(transform);
            &&& (listed.a, listed.b) == (transform.row0_col0, transform.row1_col0)
            &&& (listed.c, listed.d) == (transform.row0_col1, transform.row1_col1)
            &&& (listed.tx, listed.ty) == (transform.translation0, transform.translation1)
        }),
{
}

/// No coefficient of a matrix stands for another: turning a matrix about its diagonal changes its
/// key unless the two middle terms are one number.
pub proof fn law_keys_keep_the_order_of_coefficients(affine: Affine)
    ensures
        key_of(affine) == key_of(Affine { b: affine.c, c: affine.b, ..affine }) <==> affine.b
            == affine.c || (is_zero(affine.b) && is_zero(affine.c)),
        key_of(affine).0 == key_of(Affine { b: 0, c: 0, d: 0, tx: 0, ty: 0, ..affine }).0,
        key_of(affine).3 == key_of(Affine { a: 0, b: 0, c: 0, tx: 0, ty: 0, ..affine }).3,
{
}

/// A batch paints the primitives it names, in order and each once, from its start up to its end:
/// the one at a place in the batch is the one at that place past the start.
pub proof fn law_batches_paint_what_they_name(from: Scene, start: usize, end: usize, i: int)
    requires
        start <= end,
        0 <= i < end - start,
    ensures
        from.items_of(Batch::Shadows { start, end }).len() == end - start,
        from.items_of(Batch::Shadows { start, end })[i] == Item::Shadow(start + i),
        from.items_of(Batch::Quads { start, end }).len() == end - start,
        from.items_of(Batch::Quads { start, end })[i] == Item::Quad(start + i),
        from.items_of(Batch::Underlines { start, end }).len() == end - start,
        from.items_of(Batch::Underlines { start, end })[i] == Item::Underline(start + i),
        from.items_of(Batch::MonochromeSprites { start, end }).len() == end - start,
        from.items_of(Batch::MonochromeSprites { start, end })[i] == Item::MonochromeSprite(
            start + i,
        ),
        from.items_of(Batch::SubpixelSprites { start, end }).len() == end - start,
        from.items_of(Batch::SubpixelSprites { start, end })[i] == Item::SubpixelSprite(start + i),
        from.items_of(Batch::PolychromeSprites { start, end }).len() == end - start,
        from.items_of(Batch::PolychromeSprites { start, end })[i] == Item::PolychromeSprite(
            start + i,
        ),
        from.items_of(Batch::Surfaces { start, end }).len() == end - start,
        from.items_of(Batch::Surfaces { start, end })[i] == Item::Surface(start + i),
        from.items_of(Batch::BackdropFilters { start, end }).len() == end - start,
        from.items_of(Batch::BackdropFilters { start, end })[i] == Item::BackdropFilter(start + i),
        from.items_of(Batch::Paths { start, end }).len() == end - start,
        from.items_of(Batch::Paths { start, end })[i] == Item::Path(start + i),
{
}

/// A batch of no primitives paints nothing, and a marker is painted exactly where it is there.
pub proof fn law_markers_are_painted_where_they_are(from: Scene, at: usize)
    ensures
        from.items_of(Batch::Quads { start: at, end: at }).len() == 0,
        at < from.filter_boundaries@.len() ==> from.items_of(Batch::FilterBoundary { index: at })
            == seq![Item::FilterBoundary(at as int)],
        at >= from.filter_boundaries@.len() ==> from.items_of(
            Batch::FilterBoundary { index: at },
        ).len() == 0,
{
}

/// A scene paints its batches one after the other, and each whole: one batch more adds its
/// primitives behind all others.
pub proof fn law_batches_are_painted_in_order(from: Scene, batches: Seq<Batch>, batch: Batch)
    ensures
        from.items_in(batches.push(batch)) == from.items_in(batches) + from.items_of(batch),
        from.items_in(Seq::empty()).len() == 0,
        from.items() == from.items_in(from.batches@),
{
    assert(batches.push(batch).drop_last() =~= batches);
}

/// A scene in which every batch ends where its primitives end, or before, can be drawn.
pub proof fn law_batches_within_the_scene_can_be_drawn(from: Scene, start: usize, end: usize)
    requires
        start <= end,
    ensures
        end <= from.shadows@.len() <==> from.has(Batch::Shadows { start, end }),
        end <= from.quads@.len() <==> from.has(Batch::Quads { start, end }),
        end <= from.underlines@.len() <==> from.has(Batch::Underlines { start, end }),
        end <= from.monochrome_sprites@.len() <==> from.has(
            Batch::MonochromeSprites { start, end },
        ),
        end <= from.subpixel_sprites@.len() <==> from.has(Batch::SubpixelSprites { start, end }),
        end <= from.polychrome_sprites@.len() <==> from.has(
            Batch::PolychromeSprites { start, end },
        ),
        end <= from.surfaces@.len() <==> from.has(Batch::Surfaces { start, end }),
        end <= from.backdrop_filters@.len() <==> from.has(Batch::BackdropFilters { start, end }),
        end <= from.paths@.len() <==> from.has(Batch::Paths { start, end }),
        from.has(Batch::FilterBoundary { index: start }),
{
}

/// A draw keeps all it holds when what it names is put in its place: only its clip, its paints and
/// its filters are looked up, each by its own number.
pub proof fn law_looking_up_keeps_the_draw(
    clips: Seq<ClipLink>,
    paints: Seq<Paint>,
    draw: Draw<usize, usize, FilterChain>,
)
    ensures
        match (draw, resolve(clips, paints, draw)) {
            (
                Draw::Shadow {
                    clip: c,
                    blur: l,
                    bounds: b,
                    shape: s,
                    radii: r,
                    element_bounds: e,
                    element_radii: f,
                    color: k,
                    inset: i,
                },
                Draw::Shadow {
                    clip,
                    blur,
                    bounds,
                    shape,
                    radii,
                    element_bounds,
                    element_radii,
                    color,
                    inset,
                },
            ) => clip == clip_at(clips, c) && blur == l && bounds == b && shape == s && radii == r
                && element_bounds == e && element_radii == f && color == k && inset == i,
            (
                Draw::Quad {
                    clip: c,
                    fill: f,
                    stroke: s,
                    bounds: b,
                    radii: r,
                    border: w,
                    style: t,
                },
                Draw::Quad { clip, fill, stroke, bounds, radii, border, style },
            ) => clip == clip_at(clips, c) && fill == paints[f as int] && (match s {
                Some(s) => stroke == Some(paints[s as int]),
                None => stroke is None,
            }) && bounds == b && radii == r && border == w && style == t,
            (
                Draw::Decoration { clip: c, bounds: b, thickness: t, color: k, line: l },
                Draw::Decoration { clip, bounds, thickness, color, line },
            ) => clip == clip_at(clips, c) && bounds == b && thickness == t && color == k && line
                == l,
            (
                Draw::MonoSprite { clip: c, bounds: b, tile: t, color: k, space: s },
                Draw::MonoSprite { clip, bounds, tile, color, space },
            ) => clip == clip_at(clips, c) && bounds == b && tile == t && color == k && space == s,
            (
                Draw::SubpixelSprite { clip: c, bounds: b, tile: t, color: k, space: s },
                Draw::SubpixelSprite { clip, bounds, tile, color, space },
            ) => clip == clip_at(clips, c) && bounds == b && tile == t && color == k && space == s,
            (
                Draw::ColorSprite {
                    clip: c,
                    bounds: b,
                    tile: t,
                    radii: r,
                    opacity: o,
                    grayscale: g,
                },
                Draw::ColorSprite { clip, bounds, tile, radii, opacity, grayscale },
            ) => clip == clip_at(clips, c) && bounds == b && tile == t && radii == r && opacity
                == o && grayscale == g,
            (Draw::Mask { clip: c, mask: m }, Draw::Mask { clip, mask }) => clip == clip_at(
                clips,
                c,
            ) && mask == m,
            (
                Draw::External { clip: c, bounds: b, texture: t },
                Draw::External { clip, bounds, texture },
            ) => clip == clip_at(clips, c) && bounds == b && texture == t,
            (
                Draw::Backdrop { clip: c, bounds: b, filters: f },
                Draw::Backdrop { clip, bounds, filters },
            ) => clip == clip_at(clips, c) && bounds == b && filters == f@,
            (
                Draw::Group { clip: c, bounds: b, opacity: o, filters: f, is_start: s },
                Draw::Group { clip, bounds, opacity, filters, is_start },
            ) => clip == clip_at(clips, c) && bounds == b && opacity == o && filters == f@
                && is_start == s,
            _ => false,
        },
{
}

/// A clip that is looked up is the one at that place, and one with rounded corners stands under the
/// rectangle it names.
pub proof fn law_clips_are_looked_up_by_their_place(clips: Seq<ClipLink>, at: usize)
    requires
        clip_ok(clips, at as int),
    ensures
        match clips[at as int] {
            ClipLink::Rect { bounds } => clip_at(clips, at) == (Clip::Rect { bounds }),
            ClipLink::Rounded { outer, bounds, radii } => {
                &&& outer < at
                &&& clips[outer as int] matches ClipLink::Rect { bounds: mask } && clip_at(
                    clips,
                    at,
                ) == (Clip::Rounded { outer: mask, bounds, radii })
            },
        },
        at < clips.len(),
{
}

/// What a display list has come to shows every draw of it, in order, and what it counts as missing.
pub proof fn law_lists_show_every_draw(list: DisplayList, transforms: Transforms, i: int)
    requires
        list.wf(),
        0 <= i < list.draws@.len(),
    ensures
        progress(list, transforms).draws.len() == list.draws@.len(),
        progress(list, transforms).draws[i] == resolve(list.clips@, list.paints@, list.draws@[i]),
        progress(list, transforms).paths == list.missing.paths,
        progress(list, transforms).foreign_surfaces == list.missing.foreign_surfaces,
        progress(list, transforms).patterns == list.missing.patterns,
        progress(list, transforms).owners == owners_of(transforms),
        draw_ok(list.clips@, list.paints@, list.draws@[i]),
        list.draws@[i] matches Draw::Quad { clip, fill, stroke, .. } ==> clip < list.clips@.len()
            && fill < list.paints@.len() && (stroke matches Some(stroke) ==> stroke
            < list.paints@.len()),
        list.draws@[i] matches Draw::Mask { clip, .. } ==> clip < list.clips@.len(),
{
}

/// Two rectangles, and two flat fills, that stand next to each other in a list are never the same:
/// primitives that share one share the entry.
pub proof fn law_neighbours_share_their_entry(clips: Seq<ClipLink>, paints: Seq<Paint>, i: int)
    ensures
        clips_are_shared(clips) && 0 <= i < clips.len() - 1 && clips[i] is Rect && clips[i + 1]
            is Rect ==> clips[i] != clips[i + 1],
        fills_are_shared(paints) && 0 <= i < paints.len() - 1 && paints[i] is Solid && paints[i
            + 1] is Solid ==> paints[i] != paints[i + 1],
{
}

/// Whatever is painted is drawn: a quad, a shadow or a marker that is among the primitives is among
/// the draws, as what it is drawn as.
pub proof fn law_painted_primitives_are_among_the_draws(
    start: Progress,
    from: Scene,
    masks: Seq<Option<Mask>>,
    externals: Seq<Option<u64>>,
    items: Seq<Item>,
    at: int,
)
    requires
        0 <= at < items.len(),
    ensures
        ({
            let draws = start.with_items(from, masks, externals, items).draws;
            match items[at] {
                Item::Quad(i) => draws.contains(draw_of_quad(from.quads@[i])),
                Item::Shadow(i) => draws.contains(draw_of_shadow(from.shadows@[i])),
                Item::Underline(i) => draws.contains(draw_of_underline(from.underlines@[i])),
                Item::PolychromeSprite(i) => draws.contains(
                    draw_of_polychrome(from.polychrome_sprites@[i]),
                ),
                Item::BackdropFilter(i) => draws.contains(
                    draw_of_backdrop(from.backdrop_filters@[i]),
                ),
                Item::FilterBoundary(i) => draws.contains(
                    draw_of_group(from.filter_boundaries@[i]),
                ),
                _ => true,
            }
        }),
    decreases items.len(),
{
    let rest = items.drop_last();
    let before = start.with_items(from, masks, externals, rest).draws;
    let draws = start.with_items(from, masks, externals, items).draws;
    if at < items.len() - 1 {
        law_painted_primitives_are_among_the_draws(start, from, masks, externals, rest, at);
        assert(rest[at] == items[at]);
        assert forall|draw: Resolved| #[trigger] before.contains(draw) implies draws.contains(
            draw,
        ) by {
            let k = choose|k: int| 0 <= k < before.len() && before[k] == draw;
            assert(draws[k] == draw);
        }
    } else if !(items[at] is Path || items[at] is Surface) {
        assert(draws.last() == draws[draws.len() - 1]);
    }
}

} // verus!
