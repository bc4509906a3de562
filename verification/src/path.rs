//! Paths, as cached coverage masks.
//!
//! A path arrives as a list of triangles. Its mask is measured from the mask's own origin and
//! keyed by the triangles and the mask's size, so a path that only moves reuses the mask it has.

use std::hash::Hash;

use vstd::prelude::*;

use crate::atlas::ZguiAtlas;
use crate::fx::hash_of_text_and_words;
use crate::fx::WordHasher;
use crate::paint_laws::law_corners_are_fed_whole;
use crate::pool::answers;
use crate::pool::atlas_get;
use crate::pool::atlas_insert;
use crate::pool::sized;
use crate::pool::Contents;
use crate::pool::Refusal;
use crate::pool::Tile;
use crate::scene::Background;
use crate::scene::ColorSpace;
use crate::scene::ColorStop;
use crate::scene::Hsla;
use crate::snapshot::vertex_words;
use crate::snapshot::Vertex;

verus! {

/// The largest mask that is rasterised, per side, in device pixels.
pub const MAX_SIDE: i32 = 2048;

/// How many points of a pixel are asked about, two to an axis: as many make it fully covered.
pub const FULL: u8 = 4;

/// The one colour a coverage mask is tinted with.
#[derive(Clone, Copy, Debug, PartialEq, Eq, Structural)]
pub enum FlatColor {
    /// That colour.
    Exact(Hsla),
    /// The mean of the two, channel by channel.
    Mean(Hsla, Hsla),
}

/// A rasterised path: where its mask landed, where on the surface it goes, and its colour.
#[derive(Clone, Copy, Debug, PartialEq, Eq, Structural)]
pub struct Mask {
    /// The coverage tile.
    pub tile: Tile,
    /// The corner of the rectangle the tile covers on the surface, as float bits.
    pub left: u32,
    pub top: u32,
    /// The size of that rectangle in whole pixels.
    pub width: i32,
    pub height: i32,
    /// The colour the coverage is tinted with.
    pub color: FlatColor,
}

/// The one colour a fill is drawn in: a pattern's own, and the mean of a gradient's.
pub open spec fn flat(background: Background) -> FlatColor {
    match background {
        Background::Solid { color } => FlatColor::Exact(color),
        Background::PatternSlash { color } => FlatColor::Exact(color),
        Background::Checkerboard { color } => FlatColor::Exact(color),
        Background::LinearGradient { angle: _, first, second, space: _ } => FlatColor::Mean(
            first.color,
            second.color,
        ),
    }
}

/// The one colour a coverage mask can be tinted with: a shape drawn in roughly the right colour
/// beats a shape that is not drawn at all.
pub fn flat_color(background: &Background) -> (color: FlatColor)
    ensures
        color == flat(*background),
{
    match *background {
        Background::Solid { color } => FlatColor::Exact(color),
        Background::PatternSlash { color } => FlatColor::Exact(color),
        Background::Checkerboard { color } => FlatColor::Exact(color),
        Background::LinearGradient { angle: _, first, second, space: _ } => FlatColor::Mean(
            first.color,
            second.color,
        ),
    }
}

/// A path, measured from the corner of its mask: float bits throughout, but for the mask's size in
/// whole pixels.
pub struct Outline {
    /// The corners of its triangles, three to a triangle.
    pub vertices: Vec<Vertex>,
    /// The corner of its mask on the surface.
    pub left: u32,
    pub top: u32,
    /// The size of its mask, which is what its clip leaves of it.
    pub width: i32,
    pub height: i32,
    pub background: Background,
}

impl Outline {
    /// Whether the path covers anything and is not too large to rasterise.
    pub open spec fn rasterisable(self) -> bool {
        0 < self.width <= MAX_SIDE && 0 < self.height <= MAX_SIDE
    }

    /// The numbers that identify the mask.
    pub open spec fn words(self) -> Seq<u64> {
        vertex_words(self.vertices@) + seq![self.width as u32 as u64, self.height as u32 as u64]
    }

    /// The handle of the mask.
    pub open spec fn handle(self) -> u64 {
        hash_of_text_and_words("gpui_zgui::path"@, self.words())
    }
}

/// A stable identity for a path's mask: measured from the mask's own corner, so a path that only
/// moves keeps it. The clip decides which of the coverage survives, and does so through the mask's
/// size alone.
pub fn handle_of(path: &Outline) -> (handle: u64)
    ensures
        handle == path.handle(),
{
    let mut hasher = WordHasher::after_text("gpui_zgui::path");
    let ghost start = hasher.start();
    let mut i: usize = 0;
    while i < path.vertices.len()
        invariant
            i <= path.vertices@.len(),
            hasher.wf(),
            hasher.start() == start,
            hasher.fed() == vertex_words(path.vertices@.take(i as int)),
        decreases path.vertices@.len() - i,
    {
        let ghost next = path.vertices@.take(i + 1);
        let vertex = path.vertices[i];
        hasher.feed(vertex.x);
        hasher.feed(vertex.y);
        hasher.feed(vertex.s);
        hasher.feed(vertex.t);
        proof {
            assert(next.drop_last() =~= path.vertices@.take(i as int));
            assert(hasher.fed() =~= vertex_words(next));
        }
        i = i + 1;
    }
    hasher.feed(path.width as u32);
    hasher.feed(path.height as u32);
    proof {
        assert(path.vertices@.take(i as int) =~= path.vertices@);
        assert(hasher.fed() =~= path.words());
    }
    hasher.finish()
}

/// The mask a path has at `tile`.
pub open spec fn mask_at(path: Outline, tile: Tile) -> Mask {
    Mask {
        tile,
        left: path.left,
        top: path.top,
        width: path.width,
        height: path.height,
        color: flat(path.background),
    }
}

/// Whether asking `before`, which has `room`, for the mask of a path, whose raster is `bytes` where
/// it is needed, gives `mask` and leaves `after`.
pub open spec fn gives_mask(
    before: Contents,
    room: Set<(int, i32, i32)>,
    path: Outline,
    bytes: Seq<u8>,
    after: Contents,
    mask: Option<Mask>,
) -> bool {
    let key = (path.handle(), 0int);
    exists|reply: Result<Tile, Refusal>|
        {
            &&& #[trigger] answers(
                before,
                room,
                key,
                path.width,
                path.height,
                bytes,
                after,
                reply,
            )
            &&& mask == (match reply {
                Ok(tile) => Some(mask_at(path, tile)),
                Err(_) => None,
            })
        }
}

/// The mask for `path`, rasterising it on first use.
///
/// Nothing where the path covers nothing or is too large to rasterise, which leaves the atlas as
/// it is, and where the atlas has no room for the mask.
pub fn mask<K: Eq + Hash + Clone, F: FnOnce() -> Vec<u8>>(
    atlas: &mut ZguiAtlas<K>,
    path: &Outline,
    raster: F,
) -> (mask: Option<Mask>)
    requires
        old(atlas).wf(),
        path.rasterisable() && !old(atlas).held().tiles.dom().contains((path.handle(), 0))
            ==> raster.requires(()),
    ensures
        final(atlas).wf(),
        final(atlas).handles() == old(atlas).handles(),
        final(atlas).next() == old(atlas).next(),
        !path.rasterisable() ==> {
            &&& mask is None
            &&& final(atlas).held() == old(atlas).held()
            &&& final(atlas).room() == old(atlas).room()
        },
        path.rasterisable() && old(atlas).held().tiles.dom().contains((path.handle(), 0)) ==> {
            &&& mask == Some(mask_at(*path, old(atlas).held().tiles[(path.handle(), 0)]))
            &&& final(atlas).held() == old(atlas).held().touched((path.handle(), 0))
            &&& final(atlas).room() == old(atlas).room()
        },
        path.rasterisable() && !old(atlas).held().tiles.dom().contains((path.handle(), 0))
            ==> exists|bytes: Vec<u8>| #[trigger]
            raster.ensures((), bytes) && gives_mask(
                old(atlas).held(),
                old(atlas).room(),
                *path,
                bytes@,
                final(atlas).held(),
                mask,
            ),
        path.rasterisable() && !old(atlas).held().tiles.dom().contains((path.handle(), 0))
            && sized(old(atlas).held().limit, path.width, path.height) && (forall|
            bytes: Vec<u8>,
        | #[trigger]
            raster.ensures((), bytes) ==> bytes@.len() == path.width * path.height) ==> {
            &&& mask is Some <==> old(atlas).room().contains((0, path.width, path.height))
            &&& !old(atlas).held().may_be_full(0) ==> mask is Some
        },
{
    if path.width <= 0 || path.height <= 0 {
        return None;
    }
    if path.width > MAX_SIDE || path.height > MAX_SIDE {
        return None;
    }
    let color = flat_color(&path.background);
    let handle = handle_of(path);
    let held = atlas.with_atlas();
    let tile = match atlas_get(held, handle, 0) {
        Some(tile) => tile,
        None => match atlas_insert(held, handle, 0, (path.width, path.height), raster()) {
            Ok(tile) => tile,
            Err(_) => {
                return None;
            },
        },
    };
    Some(
        Mask {
            tile,
            left: path.left,
            top: path.top,
            width: path.width,
            height: path.height,
            color,
        },
    )
}

/// What an atlas holds, and the rasters it has room for.
pub struct Holding {
    pub held: Contents,
    pub room: Set<(int, i32, i32)>,
}

/// Whether asking `before` for the mask of the path at the place `at`, whose raster is what
/// `raster` gives for that place, gives `mask` and leaves `after`: nothing for a path that has no
/// mask, the mask that is there without rasterising, or one that is rasterised now.
pub open spec fn masked<F: Fn(usize) -> Vec<u8>>(
    before: Holding,
    path: Outline,
    raster: F,
    at: usize,
    after: Holding,
    mask: Option<Mask>,
) -> bool {
    let key = (path.handle(), 0int);
    if !path.rasterisable() {
        mask is None && after == before
    } else if before.held.tiles.dom().contains(key) {
        &&& mask == Some(mask_at(path, before.held.tiles[key]))
        &&& after.held == before.held.touched(key)
        &&& after.room == before.room
    } else {
        exists|bytes: Vec<u8>| #[trigger]
            raster.ensures((at,), bytes) && gives_mask(
                before.held,
                before.room,
                path,
                bytes@,
                after.held,
                mask,
            )
    }
}

/// Whether `masks` are the masks of `outlines`, asked for one after the other, and `held` is what
/// the atlas holds and has room for before each of them and after the last.
pub open spec fn all_masked<F: Fn(usize) -> Vec<u8>>(
    held: Seq<Holding>,
    outlines: Seq<Outline>,
    raster: F,
    masks: Seq<Option<Mask>>,
) -> bool {
    &&& held.len() == outlines.len() + 1
    &&& masks.len() == outlines.len()
    &&& forall|i: int|
        0 <= i < outlines.len() ==> masked(
            held[i],
            outlines[i],
            raster,
            i as usize,
            held[i + 1],
            #[trigger] masks[i],
        )
}

/// The mask of every path, in order, rasterising those that are not there yet. `raster` gives the
/// coverage of the path at a place.
pub fn masks<K: Eq + Hash + Clone, F: Fn(usize) -> Vec<u8>>(
    atlas: &mut ZguiAtlas<K>,
    outlines: &Vec<Outline>,
    raster: F,
) -> (masks: Vec<Option<Mask>>)
    requires
        old(atlas).wf(),
        forall|i: int|
            0 <= i < outlines@.len() && (#[trigger] outlines@[i]).rasterisable() && !old(
                atlas,
            ).held().tiles.dom().contains((outlines@[i].handle(), 0)) ==> raster.requires(
                (i as usize,),
            ),
    ensures
        final(atlas).wf(),
        final(atlas).handles() == old(atlas).handles(),
        final(atlas).next() == old(atlas).next(),
        exists|held: Seq<Holding>|
            {
                &&& #[trigger] all_masked(held, outlines@, raster, masks@)
                &&& held.first() == (Holding { held: old(atlas).held(), room: old(atlas).room() })
                &&& held.last() == (Holding {
                    held: final(atlas).held(),
                    room: final(atlas).room(),
                })
            },
{
    let mut masks: Vec<Option<Mask>> = Vec::new();
    let ghost mut held = seq![Holding { held: atlas.held(), room: atlas.room() }];
    let mut i: usize = 0;
    while i < outlines.len()
        invariant
            i <= outlines@.len(),
            atlas.wf(),
            atlas.handles() == old(atlas).handles(),
            atlas.next() == old(atlas).next(),
            forall|i: int|
                0 <= i < outlines@.len() && (#[trigger] outlines@[i]).rasterisable() && !old(
                    atlas,
                ).held().tiles.dom().contains((outlines@[i].handle(), 0)) ==> raster.requires(
                    (i as usize,),
                ),
            forall|key: (u64, int)| #[trigger]
                old(atlas).held().tiles.dom().contains(key) ==> atlas.held().tiles.dom().contains(
                    key,
                ),
            all_masked(held, outlines@.take(i as int), raster, masks@),
            held.first() == (Holding { held: old(atlas).held(), room: old(atlas).room() }),
            held.last() == (Holding { held: atlas.held(), room: atlas.room() }),
        decreases outlines@.len() - i,
    {
        let ghost before = Holding { held: atlas.held(), room: atlas.room() };
        let outline = &outlines[i];
        let rasterise = || -> (bytes: Vec<u8>)
            requires
                raster.requires((i,))
            ensures
                raster.ensures((i,), bytes)
        {
            raster(i)
        };
        let given = mask(atlas, outline, rasterise);
        masks.push(given);
        proof {
            let after = Holding { held: atlas.held(), room: atlas.room() };
            assert(masked(before, *outline, raster, i, after, given));
            let next = held.push(after);
            assert forall|k: int| 0 <= k < i + 1 implies masked(
                next[k],
                outlines@.take(i + 1)[k],
                raster,
                k as usize,
                next[k + 1],
                #[trigger] masks@[k],
            ) by {
                if k < i {
                    assert(outlines@.take(i + 1)[k] == outlines@.take(i as int)[k]);
                    assert(masks@[k] == masks@.drop_last()[k]);
                }
            }
            held = next;
        }
        i = i + 1;
    }
    proof {
        assert(outlines@.take(i as int) =~= outlines@);
    }
    masks
}

/// Moving a path leaves its identity alone: the identity is a function of what is measured from
/// the corner of the mask, and neither of the corner nor of the clip nor of the fill.
pub proof fn law_moving_keeps_the_identity(path: Outline, moved: Outline)
    requires
        path.vertices@ == moved.vertices@,
        path.width == moved.width,
        path.height == moved.height,
    ensures
        path.handle() == moved.handle(),
{
}

/// A path that was given a mask and then only moves finds that mask again, at its new corner.
pub proof fn law_moved_path_reuses_its_mask(
    before: Contents,
    room: Set<(int, i32, i32)>,
    path: Outline,
    bytes: Seq<u8>,
    after: Contents,
    mask: Mask,
    moved: Outline,
)
    requires
        gives_mask(before, room, path, bytes, after, Some(mask)),
        path.vertices@ == moved.vertices@,
        path.width == moved.width,
        path.height == moved.height,
    ensures
        after.tiles.dom().contains((moved.handle(), 0)),
        ({
            let again = mask_at(moved, after.tiles[(moved.handle(), 0)]);
            &&& again.tile == mask.tile
            &&& again.left == moved.left && again.top == moved.top
            &&& again.width == mask.width && again.height == mask.height
        }),
{
    law_moving_keeps_the_identity(path, moved);
}

/// A path is rasterised exactly where it covers something and neither side is longer than the
/// largest mask: one of a single pixel is, one of the largest size is, and one a pixel longer is
/// not.
pub proof fn law_paths_up_to_the_largest_side_are_rasterised(path: Outline)
    ensures
        0 < path.width <= MAX_SIDE && 0 < path.height <= MAX_SIDE <==> path.rasterisable(),
        1 <= path.width <= 2048 && 1 <= path.height <= 2048 <==> path.rasterisable(),
        MAX_SIDE == 2048,
{
}

/// A path that is rasterised has a mask wherever the atlas holds one already, and otherwise exactly
/// where there is room for one of its size and as many bytes came as it has pixels.
pub proof fn law_rasterised_paths_have_a_mask(
    before: Contents,
    room: Set<(int, i32, i32)>,
    path: Outline,
    bytes: Seq<u8>,
    after: Contents,
    mask: Option<Mask>,
)
    requires
        1 <= path.width <= 2048,
        1 <= path.height <= 2048,
        before.limit >= 2048,
        bytes.len() == path.width * path.height,
        gives_mask(before, room, path, bytes, after, mask),
    ensures
        path.rasterisable(),
        before.tiles.dom().contains((path.handle(), 0)) ==> mask is Some,
        !before.tiles.dom().contains((path.handle(), 0)) ==> (mask is Some <==> room.contains(
            (0, path.width, path.height),
        )),
        !before.may_be_full(0) ==> mask is Some,
        mask is Some ==> after.tiles.dom().contains((path.handle(), 0)),
{
    assert(1 * path.width * path.height == path.width * path.height);
}

/// Asking for many masks gives one to each path that can be rasterised and whose mask is there
/// already, whatever was asked for before it, and none to a path that cannot.
pub proof fn law_masks_are_given_path_by_path<F: Fn(usize) -> Vec<u8>>(
    held: Seq<Holding>,
    outlines: Seq<Outline>,
    raster: F,
    masks: Seq<Option<Mask>>,
    i: int,
)
    requires
        all_masked(held, outlines, raster, masks),
        0 <= i < outlines.len(),
    ensures
        masks.len() == outlines.len(),
        !(0 < outlines[i].width <= 2048 && 0 < outlines[i].height <= 2048) ==> masks[i] is None
            && held[i + 1] == held[i],
        0 < outlines[i].width <= 2048 && 0 < outlines[i].height <= 2048
            && held[i].held.tiles.dom().contains((outlines[i].handle(), 0)) ==> masks[i] is Some
            && masks[i]->0.tile == held[i].held.tiles[(outlines[i].handle(), 0)],
        masks[i] matches Some(mask) ==> mask.left == outlines[i].left && mask.top
            == outlines[i].top && mask.width == outlines[i].width && mask.height
            == outlines[i].height,
{
    assert(masked(held[i], outlines[i], raster, i as usize, held[i + 1], masks[i]));
}

/// A mask stands where its path does, as large as its path, in the one colour of its path's fill.
pub proof fn law_masks_stand_where_their_paths_do(path: Outline, tile: Tile)
    ensures
        mask_at(path, tile).tile == tile,
        mask_at(path, tile).left == path.left && mask_at(path, tile).top == path.top,
        mask_at(path, tile).width == path.width && mask_at(path, tile).height == path.height,
        mask_at(path, tile).color == flat(path.background),
{
}

/// A flat fill and a pattern are drawn in exactly their colour, and a gradient in the mean of both
/// of its colours, whatever its angle, its space and where they stand.
pub proof fn law_fills_have_one_colour(
    color: Hsla,
    angle: u32,
    first: ColorStop,
    second: ColorStop,
    space: ColorSpace,
)
    ensures
        flat(Background::Solid { color }) == FlatColor::Exact(color),
        flat(Background::PatternSlash { color }) == FlatColor::Exact(color),
        flat(Background::Checkerboard { color }) == FlatColor::Exact(color),
        flat(Background::LinearGradient { angle, first, second, space }) == FlatColor::Mean(
            first.color,
            second.color,
        ),
{
}

/// Two masks are identified alike exactly where every corner of every triangle and both sides of
/// the mask agree; the identity is the hash of all that, and of what says it is a path's.
pub proof fn law_masks_are_told_apart(one: Outline, two: Outline)
    ensures
        one.words() == two.words() <==> one.vertices@ == two.vertices@ && one.width == two.width
            && one.height == two.height,
        one.handle() == crate::fx::fx_answer(
            crate::fx::fx_fold(
                crate::fx::fx_after_text(usize::BITS, 0, "gpui_zgui::path"@),
                one.words(),
            ),
        ),
{
    law_corners_are_fed_whole(one.vertices@, two.vertices@);
    law_corners_are_fed_whole(two.vertices@, one.vertices@);
    let (a, b) = (one.words(), two.words());
    let (w1, w2, h1, h2) = (one.width, two.width, one.height, two.height);
    assert(w1 as u32 == w2 as u32 ==> w1 == w2) by (bit_vector);
    assert(h1 as u32 == h2 as u32 ==> h1 == h2) by (bit_vector);
    if a == b {
        let n = a.len() as int;
        assert(a.take(n - 2) =~= vertex_words(one.vertices@));
        assert(b.take(n - 2) =~= vertex_words(two.vertices@));
        assert(a[n - 2] == w1 as u32 as u64 && b[n - 2] == w2 as u32 as u64);
        assert(a[n - 1] == h1 as u32 as u64 && b[n - 1] == h2 as u32 as u64);
    }
}

} // verus!
