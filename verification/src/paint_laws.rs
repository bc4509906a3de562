//! What tells two primitives apart, and what a change of one comes to on the surface.

use vstd::prelude::*;

use crate::damage::changed;
use crate::damage::compared;
use crate::damage::crowded;
use crate::damage::filtered;
use crate::damage::frame_damage;
use crate::damage::grown;
use crate::damage::occurrences;
use crate::damage::one_round;
use crate::damage::settled;
use crate::damage::small_change;
use crate::damage::sufficient;
use crate::damage::total_area;
use crate::damage::unbalanced;
use crate::damage_laws::law_altered_primitives_are_damaged;
use crate::damage_laws::law_filters_are_settled;
use crate::damage_laws::times;
use crate::damage_laws::told_apart;
use crate::fx::fx_after_bytes;
use crate::fx::fx_answer;
use crate::fx::fx_fold;
use crate::geom::Rect;
use crate::region::Region;
use crate::snapshot::blur_words;
use crate::snapshot::filter_words;
use crate::snapshot::hash_of;
use crate::snapshot::mark_of;
use crate::snapshot::path_words;
use crate::snapshot::primitive_filter;
use crate::snapshot::primitive_painted;
use crate::snapshot::primitive_path;
use crate::snapshot::primitive_shadow;
use crate::snapshot::readers_of;
use crate::snapshot::shown_on;
use crate::snapshot::snapshot_of;
use crate::snapshot::vertex_words;
use crate::snapshot::visible;
use crate::snapshot::Entry;
use crate::snapshot::FilterRole;
use crate::snapshot::Identity;
use crate::snapshot::Painted;
use crate::snapshot::PaintedFilter;
use crate::snapshot::PaintedPath;
use crate::snapshot::PaintedShadow;
use crate::snapshot::Painting;
use crate::snapshot::Primitive;
use crate::snapshot::Reader;
use crate::snapshot::SnapshotView;
use crate::snapshot::Vertex;

verus! {

/// Two lists of corners that are fed as the same numbers are the same list: no corner is left out,
/// and none of its four numbers.
pub proof fn law_corners_are_fed_whole(one: Seq<Vertex>, two: Seq<Vertex>)
    ensures
        vertex_words(one) == vertex_words(two) <==> one == two,
        vertex_words(one).len() == 4 * one.len(),
    decreases one.len(),
{
    lemma_vertex_words_len(one);
    lemma_vertex_words_len(two);
    if vertex_words(one) == vertex_words(two) && one.len() > 0 {
        let words = vertex_words(one);
        let (rest, other) = (one.drop_last(), two.drop_last());
        let n = words.len() as int;
        lemma_vertex_words_len(rest);
        lemma_vertex_words_len(other);
        assert(words.take(n - 4) =~= vertex_words(rest));
        assert(words.take(n - 4) =~= vertex_words(other));
        law_corners_are_fed_whole(rest, other);
        assert(words[n - 4] == one.last().x as u64 && words[n - 4] == two.last().x as u64);
        assert(words[n - 3] == one.last().y as u64 && words[n - 3] == two.last().y as u64);
        assert(words[n - 2] == one.last().s as u64 && words[n - 2] == two.last().s as u64);
        assert(words[n - 1] == one.last().t as u64 && words[n - 1] == two.last().t as u64);
        assert(one.last() == two.last());
        assert(one =~= rest.push(one.last()));
        assert(two =~= other.push(two.last()));
    } else if vertex_words(one) == vertex_words(two) {
        assert(one =~= two);
    }
}

proof fn lemma_vertex_words_len(vertices: Seq<Vertex>)
    ensures
        vertex_words(vertices).len() == 4 * vertices.len(),
    decreases vertices.len(),
{
    if vertices.len() > 0 {
        lemma_vertex_words_len(vertices.drop_last());
    }
}

/// Two paths are one to the comparison exactly where they agree in all that draws them: order,
/// fill, clip and every corner of every triangle.
pub proof fn law_paths_are_told_apart(one: PaintedPath, two: PaintedPath)
    ensures
        path_words(one) == path_words(two) <==> one.order == two.order && one.clip == two.clip
            && one.vertices@ == two.vertices@,
        primitive_path(one).identity == primitive_path(two).identity <==> one.order == two.order
            && one.clip == two.clip && one.vertices@ == two.vertices@ && one.fill@ == two.fill@,
{
    law_corners_are_fed_whole(one.vertices@, two.vertices@);
    let (a, b) = (path_words(one), path_words(two));
    if a == b {
        assert(a.skip(5) =~= vertex_words(one.vertices@));
        assert(b.skip(5) =~= vertex_words(two.vertices@));
        assert(a[0] == one.order && b[0] == two.order);
        assert(a[1] == one.clip.x && b[1] == two.clip.x);
        assert(a[2] == one.clip.y && b[2] == two.clip.y);
        assert(a[3] == one.clip.width && b[3] == two.clip.width);
        assert(a[4] == one.clip.height && b[4] == two.clip.height);
    }
}

/// Two chains of blurs that are fed as the same numbers are the same chain.
pub proof fn law_blurs_are_fed_whole(one: Seq<u32>, two: Seq<u32>)
    ensures
        blur_words(one) == blur_words(two) <==> one == two,
    decreases one.len(),
{
    lemma_blur_words_len(one);
    lemma_blur_words_len(two);
    if blur_words(one) == blur_words(two) && one.len() > 0 {
        let words = blur_words(one);
        let (rest, other) = (one.drop_last(), two.drop_last());
        let n = words.len() as int;
        lemma_blur_words_len(rest);
        lemma_blur_words_len(other);
        assert(words.take(n - 2) =~= blur_words(rest));
        assert(words.take(n - 2) =~= blur_words(other));
        law_blurs_are_fed_whole(rest, other);
        assert(words[n - 1] == one.last() as u64 && words[n - 1] == two.last() as u64);
        assert(one =~= rest.push(one.last()));
        assert(two =~= other.push(two.last()));
    } else if blur_words(one) == blur_words(two) {
        assert(one =~= two);
    }
}

proof fn lemma_blur_words_len(blurs: Seq<u32>)
    ensures
        blur_words(blurs).len() == 2 * blurs.len(),
    decreases blurs.len(),
{
    if blurs.len() > 0 {
        lemma_blur_words_len(blurs.drop_last());
    }
}

/// Two filters are one to the comparison exactly where they agree in their role, their order, their
/// place, their clip, their corners, their opacity and every blur of their chain.
pub proof fn law_filters_are_told_apart(one: PaintedFilter, two: PaintedFilter)
    ensures
        primitive_filter(one).identity == primitive_filter(two).identity <==> {
            &&& one.role == two.role
            &&& one.order == two.order
            &&& one.bounds == two.bounds
            &&& one.clip == two.clip
            &&& one.radii == two.radii
            &&& one.opacity == two.opacity
            &&& one.blurs@ == two.blurs@
        },
{
    law_blurs_are_fed_whole(one.blurs@, two.blurs@);
    let (a, b) = (filter_words(one), filter_words(two));
    if a == b {
        assert(a.skip(15) =~= blur_words(one.blurs@));
        assert(b.skip(15) =~= blur_words(two.blurs@));
        assert forall|i: int| 0 <= i < 15 implies #[trigger] a[i] == b[i] by {}
        assert(a[0] == b[0]);
        assert(a[1] == one.order && b[1] == two.order);
        assert(a[2] == one.bounds.x && b[2] == two.bounds.x);
        assert(a[3] == one.bounds.y && b[3] == two.bounds.y);
        assert(a[4] == one.bounds.width && b[4] == two.bounds.width);
        assert(a[5] == one.bounds.height && b[5] == two.bounds.height);
        assert(a[6] == one.clip.x && b[6] == two.clip.x);
        assert(a[7] == one.clip.y && b[7] == two.clip.y);
        assert(a[8] == one.clip.width && b[8] == two.clip.width);
        assert(a[9] == one.clip.height && b[9] == two.clip.height);
        assert(a[10] == one.radii.top_left && b[10] == two.radii.top_left);
        assert(a[11] == one.radii.top_right && b[11] == two.radii.top_right);
        assert(a[12] == one.radii.bottom_right && b[12] == two.radii.bottom_right);
        assert(a[13] == one.radii.bottom_left && b[13] == two.radii.bottom_left);
        assert(a[14] == one.opacity && b[14] == two.opacity);
        match one.role {
            FilterRole::Backdrop => assert(a[0] == 0),
            FilterRole::GroupStart => assert(a[0] == 1),
            FilterRole::GroupEnd => assert(a[0] == 2),
        }
        match two.role {
            FilterRole::Backdrop => assert(b[0] == 0),
            FilterRole::GroupStart => assert(b[0] == 1),
            FilterRole::GroupEnd => assert(b[0] == 2),
        }
    }
}

/// Two primitives that are hashed by their bytes are one to the comparison exactly where all their
/// bytes agree, shadows among them. None of them is ever one with a path or a filter, nor a path
/// with a filter.
pub proof fn law_bytes_tell_the_rest_apart(
    one: Painted,
    two: Painted,
    shadow: PaintedShadow,
    path: PaintedPath,
    filter: PaintedFilter,
)
    ensures
        primitive_painted(one).identity == primitive_painted(two).identity <==> one.bytes@
            == two.bytes@,
        primitive_painted(one).identity == primitive_shadow(shadow).identity <==> one.bytes@
            == shadow.bytes@,
        primitive_painted(one).identity != primitive_path(path).identity,
        primitive_painted(one).identity != primitive_filter(filter).identity,
        primitive_shadow(shadow).identity != primitive_path(path).identity,
        primitive_shadow(shadow).identity != primitive_filter(filter).identity,
        primitive_path(path).identity != primitive_filter(filter).identity,
{
}

/// The pixels a primitive paints: those it was given, a filter those it writes, a shadow inside its
/// box those of its shape, and a drop shadow all that its blur reaches.
pub proof fn law_primitives_paint_their_pixels(
    painted: Painted,
    shadow: PaintedShadow,
    path: PaintedPath,
    filter: PaintedFilter,
)
    ensures
        primitive_painted(painted).rect == painted.rect,
        shadow.inset == 0 ==> primitive_shadow(shadow).rect == shadow.reached,
        shadow.inset != 0 ==> primitive_shadow(shadow).rect == shadow.shape,
        primitive_path(path).rect == path.rect,
        primitive_filter(filter).rect == filter.writes,
{
}

/// The hash of a primitive is that of everything in its identity: of all its bytes, of a path's
/// fill followed by all its numbers, of all of a filter's numbers. What a path or a filter hashes
/// to is hashed once more, as the bytes of a number.
pub proof fn law_hashes_are_of_the_whole_identity(bytes: Seq<u8>, words: Seq<u64>)
    ensures
        hash_of(Identity::Bytes(bytes)) == fx_answer(fx_after_bytes(usize::BITS, 0, bytes)),
        hash_of(Identity::Path { fill: bytes, words }) == hash_of(
            Identity::Bytes(
                vstd::bytes::spec_u64_to_le_bytes(
                    fx_answer(fx_fold(fx_after_bytes(usize::BITS, 0, bytes), words)),
                ),
            ),
        ),
        hash_of(Identity::Filter(words)) == hash_of(
            Identity::Bytes(vstd::bytes::spec_u64_to_le_bytes(fx_answer(fx_fold(0, words)))),
        ),
{
}

/// The pixels two rectangles share are those that lie in both, and they share none exactly where no
/// pixel does.
pub proof fn law_common_pixels_lie_in_both(one: Rect, two: Rect, px: int, py: int)
    requires
        one.comparable(two),
    ensures
        one.common(two) matches Some(shared) ==> (shared.covers(px, py) <==> one.covers(px, py)
            && two.covers(px, py)),
        one.common(two) is None ==> !(one.covers(px, py) && two.covers(px, py)),
        one.covers(px, py) && two.covers(px, py) ==> one.meets(two) && two.meets(one),
        one.meets(two) == (one.common(two) is Some),
{
}

/// Two rectangles that meet share a pixel, and one that contains another covers all its pixels; one
/// that does not misses some pixel of it.
pub proof fn law_meeting_and_containing_are_about_pixels(one: Rect, two: Rect)
    ensures
        one.meets(two) <==> exists|px: int, py: int|
            one.covers(px, py) && #[trigger] two.covers(px, py),
        one.contains(two) <==> forall|px: int, py: int|
            two.covers(px, py) ==> #[trigger] one.covers(px, py),
        one.has_area() <==> exists|px: int, py: int| #[trigger] one.covers(px, py),
{
    let x = crate::geom::max(one.x as int, two.x as int);
    let y = crate::geom::max(one.y as int, two.y as int);
    if one.meets(two) {
        assert(one.covers(x, y) && two.covers(x, y));
    }
    if one.has_area() {
        assert(one.covers(one.x as int, one.y as int));
    }
    if !one.contains(two) {
        let (first, last) = ((two.x as int, two.y as int), (two.right() - 1, two.bottom() - 1));
        assert(two.covers(first.0, first.1) && two.covers(last.0, last.1));
        assert(!(one.covers(first.0, first.1) && one.covers(last.0, last.1)));
    }
}

/// A rectangle covers the pixels between its edges and holds as many as its sides make.
pub proof fn law_rectangles_cover_between_their_edges(rect: Rect, px: int, py: int)
    ensures
        rect.covers(px, py) <==> rect.x <= px < rect.x + rect.width && rect.y <= py < rect.y
            + rect.height,
        rect.area() == rect.width * rect.height,
        rect.right() - rect.width == rect.x && rect.bottom() - rect.height == rect.y,
        rect.on_surface() ==> 0 <= rect.x && 0 <= rect.y,
{
}

/// Every primitive of a painting takes part in the comparison, whichever kind it is of, and nothing
/// else does.
pub proof fn law_every_primitive_is_compared(painting: Painting)
    ensures
        painting.primitives().len() == painting.quads@.len() + painting.underlines@.len()
            + painting.monochrome_sprites@.len() + painting.subpixel_sprites@.len()
            + painting.polychrome_sprites@.len() + painting.shadows@.len() + painting.paths@.len()
            + painting.backdrop_filters@.len() + painting.filter_boundaries@.len(),
        forall|i: int|
            0 <= i < painting.quads@.len() ==> painting.primitives().contains(
                primitive_painted(#[trigger] painting.quads@[i]),
            ),
        forall|i: int|
            0 <= i < painting.underlines@.len() ==> painting.primitives().contains(
                primitive_painted(#[trigger] painting.underlines@[i]),
            ),
        forall|i: int|
            0 <= i < painting.monochrome_sprites@.len() ==> painting.primitives().contains(
                primitive_painted(#[trigger] painting.monochrome_sprites@[i]),
            ),
        forall|i: int|
            0 <= i < painting.subpixel_sprites@.len() ==> painting.primitives().contains(
                primitive_painted(#[trigger] painting.subpixel_sprites@[i]),
            ),
        forall|i: int|
            0 <= i < painting.polychrome_sprites@.len() ==> painting.primitives().contains(
                primitive_painted(#[trigger] painting.polychrome_sprites@[i]),
            ),
        forall|i: int|
            0 <= i < painting.shadows@.len() ==> painting.primitives().contains(
                primitive_shadow(#[trigger] painting.shadows@[i]),
            ),
        forall|i: int|
            0 <= i < painting.paths@.len() ==> painting.primitives().contains(
                primitive_path(#[trigger] painting.paths@[i]),
            ),
        forall|i: int|
            0 <= i < painting.backdrop_filters@.len() ==> painting.primitives().contains(
                primitive_filter(#[trigger] painting.backdrop_filters@[i]),
            ),
        forall|i: int|
            0 <= i < painting.filter_boundaries@.len() ==> painting.primitives().contains(
                primitive_filter(#[trigger] painting.filter_boundaries@[i]),
            ),
{
    let all = painting.primitives();
    let n0 = painting.quads@.len() as int;
    let n1 = n0 + painting.underlines@.len();
    let n2 = n1 + painting.monochrome_sprites@.len();
    let n3 = n2 + painting.subpixel_sprites@.len();
    let n4 = n3 + painting.polychrome_sprites@.len();
    let n5 = n4 + painting.shadows@.len();
    let n6 = n5 + painting.paths@.len();
    let n7 = n6 + painting.backdrop_filters@.len();
    assert forall|i: int| 0 <= i < painting.quads@.len() implies all.contains(
        primitive_painted(#[trigger] painting.quads@[i]),
    ) by {
        assert(all[i] == primitive_painted(painting.quads@[i]));
    }
    assert forall|i: int| 0 <= i < painting.underlines@.len() implies all.contains(
        primitive_painted(#[trigger] painting.underlines@[i]),
    ) by {
        assert(all[n0 + i] == primitive_painted(painting.underlines@[i]));
    }
    assert forall|i: int| 0 <= i < painting.monochrome_sprites@.len() implies all.contains(
        primitive_painted(#[trigger] painting.monochrome_sprites@[i]),
    ) by {
        assert(all[n1 + i] == primitive_painted(painting.monochrome_sprites@[i]));
    }
    assert forall|i: int| 0 <= i < painting.subpixel_sprites@.len() implies all.contains(
        primitive_painted(#[trigger] painting.subpixel_sprites@[i]),
    ) by {
        assert(all[n2 + i] == primitive_painted(painting.subpixel_sprites@[i]));
    }
    assert forall|i: int| 0 <= i < painting.polychrome_sprites@.len() implies all.contains(
        primitive_painted(#[trigger] painting.polychrome_sprites@[i]),
    ) by {
        assert(all[n3 + i] == primitive_painted(painting.polychrome_sprites@[i]));
    }
    assert forall|i: int| 0 <= i < painting.shadows@.len() implies all.contains(
        primitive_shadow(#[trigger] painting.shadows@[i]),
    ) by {
        assert(all[n4 + i] == primitive_shadow(painting.shadows@[i]));
    }
    assert forall|i: int| 0 <= i < painting.paths@.len() implies all.contains(
        primitive_path(#[trigger] painting.paths@[i]),
    ) by {
        assert(all[n5 + i] == primitive_path(painting.paths@[i]));
    }
    assert forall|i: int| 0 <= i < painting.backdrop_filters@.len() implies all.contains(
        primitive_filter(#[trigger] painting.backdrop_filters@[i]),
    ) by {
        assert(all[n6 + i] == primitive_filter(painting.backdrop_filters@[i]));
    }
    assert forall|i: int| 0 <= i < painting.filter_boundaries@.len() implies all.contains(
        primitive_filter(#[trigger] painting.filter_boundaries@[i]),
    ) by {
        assert(all[n7 + i] == primitive_filter(painting.filter_boundaries@[i]));
    }
}

/// A primitive that a path of no painting is identified as is none of its primitives.
proof fn lemma_no_such_path(painting: Painting, path: PaintedPath)
    requires
        forall|i: int|
            0 <= i < painting.paths@.len() ==> !same_path(#[trigger] painting.paths@[i], path),
    ensures
        forall|k: int|
            0 <= k < painting.primitives().len() ==> (
            #[trigger] painting.primitives()[k]).identity != primitive_path(path).identity,
{
    let all = painting.primitives();
    let n4 = painting.quads@.len() + painting.underlines@.len()
        + painting.monochrome_sprites@.len() + painting.subpixel_sprites@.len()
        + painting.polychrome_sprites@.len();
    let n5 = n4 + painting.shadows@.len();
    let n6 = n5 + painting.paths@.len();
    assert forall|k: int| 0 <= k < all.len() implies (#[trigger] all[k]).identity
        != primitive_path(path).identity by {
        if k < n5 {
            assert(all[k].identity is Bytes);
        } else if k < n6 {
            let other = painting.paths@[k - n5];
            assert(all[k] == primitive_path(other));
            law_paths_are_told_apart(other, path);
        } else {
            assert(all[k].identity is Filter);
        }
    }
}

/// Whether two paths agree in all that draws them.
pub open spec fn same_path(one: PaintedPath, two: PaintedPath) -> bool {
    &&& one.order == two.order
    &&& one.fill@ == two.fill@
    &&& one.clip == two.clip
    &&& one.vertices@ == two.vertices@
}

/// A painting all of whose rectangles lie on a surface can be cut off by one.
pub proof fn law_paintings_on_the_surface_fit(painting: Painting, surface: Rect)
    requires
        surface.on_surface(),
        forall|i: int|
            0 <= i < painting.primitives().len() ==> (
            #[trigger] painting.primitives()[i]).rect.on_surface(),
        forall|i: int|
            0 <= i < painting.surfaces@.len() ==> (#[trigger] painting.surfaces@[i]).on_surface(),
        forall|i: int|
            0 <= i < painting.filters().len() ==> (
            #[trigger] painting.filters()[i]).reads.on_surface(),
    ensures
        painting.fits(surface),
{
    let primitives = painting.primitives();
    assert(painting.marks() =~= primitives.map_values(|primitive: Primitive| mark_of(primitive)));
    assert forall|i: int| 0 <= i < painting.marks().len() implies (
    #[trigger] painting.marks()[i]).rect.comparable(surface) by {
        assert(painting.marks()[i].rect == primitives[i].rect);
    }
}

/// A primitive shows on a surface with exactly the pixels that lie on it, and one that has none
/// there does not show.
pub proof fn law_primitives_show_where_the_surface_is(
    primitives: Seq<Primitive>,
    surface: Rect,
    at: int,
    px: int,
    py: int,
)
    requires
        0 <= at < primitives.len(),
        primitives[at].rect.comparable(surface),
        primitives[at].rect.covers(px, py),
        surface.covers(px, py),
    ensures
        exists|i: int|
            0 <= i < shown_on(primitives, surface).len() && (#[trigger] shown_on(
                primitives,
                surface,
            )[i]).identity == primitives[at].identity && shown_on(
                primitives,
                surface,
            )[i].rect.covers(px, py),
    decreases primitives.len(),
{
    let rest = primitives.drop_last();
    let all = shown_on(primitives, surface);
    let before = shown_on(rest, surface);
    if at == primitives.len() - 1 {
        law_common_pixels_lie_in_both(primitives[at].rect, surface, px, py);
        assert(all[all.len() - 1].identity == primitives[at].identity);
    } else {
        law_primitives_show_where_the_surface_is(rest, surface, at, px, py);
        let i = choose|i: int|
            0 <= i < before.len() && (#[trigger] before[i]).identity == rest[at].identity
                && before[i].rect.covers(px, py);
        assert(all[i] == before[i]);
    }
}

/// Whatever shows is a primitive of the painting.
proof fn lemma_shown_are_primitives(primitives: Seq<Primitive>, surface: Rect)
    ensures
        shown_on(primitives, surface).len() <= primitives.len(),
        forall|i: int|
            0 <= i < shown_on(primitives, surface).len() ==> exists|k: int|
                0 <= k < primitives.len() && (#[trigger] primitives[k]).identity == (
                #[trigger] shown_on(primitives, surface)[i]).identity,
    decreases primitives.len(),
{
    if primitives.len() > 0 {
        let rest = primitives.drop_last();
        lemma_shown_are_primitives(rest, surface);
        let all = shown_on(primitives, surface);
        let before = shown_on(rest, surface);
        assert forall|i: int| 0 <= i < all.len() implies exists|k: int|
            0 <= k < primitives.len() && (#[trigger] primitives[k]).identity == (
            #[trigger] all[i]).identity by {
            if i < before.len() {
                assert(all[i] == before[i]);
                let k = choose|k: int|
                    0 <= k < rest.len() && (#[trigger] rest[k]).identity == before[i].identity;
                assert(primitives[k].identity == all[i].identity);
            } else {
                assert(primitives[primitives.len() - 1].identity == all[i].identity);
            }
        }
    }
}

proof fn lemma_times_none(primitives: Seq<Primitive>, identity: Identity)
    requires
        forall|i: int|
            0 <= i < primitives.len() ==> (#[trigger] primitives[i]).identity != identity,
    ensures
        times(primitives, identity) == 0,
    decreases primitives.len(),
{
    if primitives.len() > 0 {
        let rest = primitives.drop_last();
        assert forall|i: int| 0 <= i < rest.len() implies (#[trigger] rest[i]).identity
            != identity by {
            assert(rest[i] == primitives[i]);
        }
        lemma_times_none(rest, identity);
        assert(primitives[primitives.len() - 1] == primitives.last());
    }
}

proof fn lemma_times_some(primitives: Seq<Primitive>, identity: Identity, at: int)
    requires
        0 <= at < primitives.len(),
        primitives[at].identity == identity,
    ensures
        times(primitives, identity) > 0,
    decreases primitives.len(),
{
    if at < primitives.len() - 1 {
        assert(primitives.drop_last()[at] == primitives[at]);
        lemma_times_some(primitives.drop_last(), identity, at);
    }
}

/// A primitive that was not in the frame before is drawn: every pixel of it that lies on the
/// surface is damaged.
pub proof fn law_new_primitives_are_damaged(
    before: Painting,
    after: Painting,
    surface: Rect,
    region: Region,
    at: int,
    px: int,
    py: int,
)
    requires
        told_apart(
            shown_on(before.primitives(), surface) + shown_on(after.primitives(), surface),
        ),
        sufficient(snapshot_of(before, surface), snapshot_of(after, surface), region),
        0 <= at < after.primitives().len(),
        forall|k: int|
            0 <= k < before.primitives().len() ==> (#[trigger] before.primitives()[k]).identity
                != after.primitives()[at].identity,
        after.primitives()[at].rect.comparable(surface),
        after.primitives()[at].rect.covers(px, py),
        surface.covers(px, py),
    ensures
        region.covers(px, py),
{
    let (there, other) = (after.primitives(), before.primitives());
    let i = lemma_shown_in_one(there, other, surface, at, px, py);
    law_altered_primitives_are_damaged(before, after, surface, region);
    assert(region.covers_rect(shown_on(there, surface)[i].rect));
}

/// A primitive that is not in the frame any more is painted over: every pixel of it that lay on the
/// surface is damaged.
pub proof fn law_vanished_primitives_are_damaged(
    before: Painting,
    after: Painting,
    surface: Rect,
    region: Region,
    at: int,
    px: int,
    py: int,
)
    requires
        told_apart(
            shown_on(before.primitives(), surface) + shown_on(after.primitives(), surface),
        ),
        sufficient(snapshot_of(before, surface), snapshot_of(after, surface), region),
        0 <= at < before.primitives().len(),
        forall|k: int|
            0 <= k < after.primitives().len() ==> (#[trigger] after.primitives()[k]).identity
                != before.primitives()[at].identity,
        before.primitives()[at].rect.comparable(surface),
        before.primitives()[at].rect.covers(px, py),
        surface.covers(px, py),
    ensures
        region.covers(px, py),
{
    let (there, other) = (before.primitives(), after.primitives());
    let i = lemma_shown_in_one(there, other, surface, at, px, py);
    law_altered_primitives_are_damaged(before, after, surface, region);
    assert(region.covers_rect(shown_on(there, surface)[i].rect));
}

/// A primitive of one frame that the other has not shows in that frame alone.
proof fn lemma_shown_in_one(
    there: Seq<Primitive>,
    other: Seq<Primitive>,
    surface: Rect,
    at: int,
    px: int,
    py: int,
) -> (i: int)
    requires
        0 <= at < there.len(),
        forall|k: int|
            0 <= k < other.len() ==> (#[trigger] other[k]).identity != there[at].identity,
        there[at].rect.comparable(surface),
        there[at].rect.covers(px, py),
        surface.covers(px, py),
    ensures
        0 <= i < shown_on(there, surface).len(),
        shown_on(there, surface)[i].identity == there[at].identity,
        shown_on(there, surface)[i].rect.covers(px, py),
        times(shown_on(there, surface), there[at].identity) > 0,
        times(shown_on(other, surface), there[at].identity) == 0,
{
    let identity = there[at].identity;
    let (shown, none) = (shown_on(there, surface), shown_on(other, surface));
    law_primitives_show_where_the_surface_is(there, surface, at, px, py);
    let i = choose|i: int|
        0 <= i < shown.len() && (#[trigger] shown[i]).identity == identity && shown[i].rect.covers(
            px,
            py,
        );
    lemma_times_some(shown, identity, i);
    lemma_shown_are_primitives(other, surface);
    assert forall|k: int| 0 <= k < none.len() implies (#[trigger] none[k]).identity
        != identity by {
        let origin = choose|o: int|
            0 <= o < other.len() && (#[trigger] other[o]).identity == none[k].identity;
        assert(other[origin].identity != identity);
    }
    lemma_times_none(none, identity);
    i
}

/// A path that changes in anything that draws it, be it one number of its last corner, is redrawn
/// where it is now: every pixel of it on the surface is damaged.
pub proof fn law_changed_paths_are_redrawn(
    before: Painting,
    after: Painting,
    surface: Rect,
    region: Region,
    at: int,
    px: int,
    py: int,
)
    requires
        told_apart(
            shown_on(before.primitives(), surface) + shown_on(after.primitives(), surface),
        ),
        sufficient(snapshot_of(before, surface), snapshot_of(after, surface), region),
        0 <= at < after.paths@.len(),
        forall|i: int|
            0 <= i < before.paths@.len() ==> !same_path(
                #[trigger] before.paths@[i],
                after.paths@[at],
            ),
        after.paths@[at].rect.comparable(surface),
        after.paths@[at].rect.covers(px, py),
        surface.covers(px, py),
    ensures
        region.covers(px, py),
{
    let path = after.paths@[at];
    lemma_no_such_path(before, path);
    law_every_primitive_is_compared(after);
    let all = after.primitives();
    assert(all.contains(primitive_path(after.paths@[at])));
    let k = choose|k: int| 0 <= k < all.len() && all[k] == primitive_path(path);
    law_new_primitives_are_damaged(before, after, surface, region, k, px, py);
}

/// A surface filled from outside is damaged in every frame, wherever it shows.
pub proof fn law_outside_surfaces_are_always_redrawn(
    rects: Seq<Rect>,
    surface: Rect,
    at: int,
    px: int,
    py: int,
)
    requires
        0 <= at < rects.len(),
        rects[at].comparable(surface),
        rects[at].covers(px, py),
        surface.covers(px, py),
    ensures
        exists|i: int|
            0 <= i < visible(rects, surface).len() && (#[trigger] visible(
                rects,
                surface,
            )[i]).covers(px, py),
    decreases rects.len(),
{
    let rest = rects.drop_last();
    let all = visible(rects, surface);
    let before = visible(rest, surface);
    if at == rects.len() - 1 {
        law_common_pixels_lie_in_both(rects[at], surface, px, py);
        assert(all[all.len() - 1].covers(px, py));
    } else {
        law_outside_surfaces_are_always_redrawn(rest, surface, at, px, py);
        let i = choose|i: int| 0 <= i < before.len() && (#[trigger] before[i]).covers(px, py);
        assert(all[i] == before[i]);
    }
}

/// The surfaces and the filters of a painting are all in its snapshot: over a backdrop and around a
/// group alike.
pub proof fn law_snapshots_hold_surfaces_and_filters(painting: Painting, surface: Rect)
    ensures
        snapshot_of(painting, surface).always == visible(painting.surfaces@, surface),
        snapshot_of(painting, surface).readers == readers_of(
            painting.backdrop_filters@ + painting.filter_boundaries@,
            surface,
        ),
{
}

/// A filter that reads and writes on the surface is kept with exactly the pixels it reads there and
/// exactly those it writes there.
pub proof fn law_filters_read_where_the_surface_is(
    filters: Seq<PaintedFilter>,
    surface: Rect,
    at: int,
)
    requires
        0 <= at < filters.len(),
        filters[at].reads.meets(surface),
        filters[at].writes.meets(surface),
    ensures
        exists|i: int|
            0 <= i < readers_of(filters, surface).len() && Some(
                (#[trigger] readers_of(filters, surface)[i]).source,
            ) == filters[at].reads.common(surface) && Some(
                readers_of(filters, surface)[i].writes,
            ) == filters[at].writes.common(surface),
    decreases filters.len(),
{
    let rest = filters.drop_last();
    let all = readers_of(filters, surface);
    let before = readers_of(rest, surface);
    if at == filters.len() - 1 {
        assert(Some(all[all.len() - 1].source) == filters[at].reads.common(surface));
    } else {
        law_filters_read_where_the_surface_is(rest, surface, at);
        let i = choose|i: int|
            0 <= i < before.len() && Some((#[trigger] before[i]).source)
                == rest[at].reads.common(surface) && Some(before[i].writes)
                == rest[at].writes.common(surface);
        assert(all[i] == before[i]);
    }
}

/// Where filters are settled, one that reads a damaged pixel has everything it reads and everything
/// it writes damaged.
pub proof fn law_filters_over_damage_are_redrawn(
    region: Region,
    readers: Seq<Reader>,
    at: int,
    px: int,
    py: int,
)
    requires
        settled(region, readers),
        0 <= at < readers.len(),
        region.covers(px, py),
        readers[at].source.covers(px, py),
    ensures
        region.covers_rect(readers[at].source),
        region.covers_rect(readers[at].writes),
{
    let (source, writes) = (readers[at].source, readers[at].writes);
    if !region.full {
        let k = choose|k: int|
            0 <= k < region.rects.len() && (#[trigger] region.rects[k]).covers(px, py);
        assert(region.rects[k].meets(source));
        assert(region.meets(source));
        lemma_contained_is_covered(region, source);
        lemma_contained_is_covered(region, writes);
    }
}

proof fn lemma_contained_is_covered(region: Region, rect: Rect)
    requires
        region.contains(rect),
    ensures
        region.covers_rect(rect),
{
    if !region.full {
        let k = choose|k: int|
            0 <= k < region.rects.len() && (#[trigger] region.rects[k]).contains(rect);
        assert forall|px: int, py: int| #[trigger] rect.covers(px, py) implies region.covers(
            px,
            py,
        ) by {
            assert(region.rects[k].covers(px, py));
        }
    }
}

/// Damage between two frames is complete for filters: one that reads a damaged pixel is redrawn
/// whole, unless everything is.
pub proof fn law_compared_damage_reaches_filters(
    previous: SnapshotView,
    frame: SnapshotView,
    start: Region,
    surface: Rect,
    at: int,
    px: int,
    py: int,
)
    requires
        0 <= at < frame.readers.len(),
        compared(previous, frame, start, surface).covers(px, py),
        frame.readers[at].source.covers(px, py),
    ensures
        compared(previous, frame, start, surface).covers_rect(frame.readers[at].source),
        compared(previous, frame, start, surface).covers_rect(frame.readers[at].writes),
{
    let reached = compared(previous, frame, start, surface);
    law_filters_are_settled(previous, frame, start, surface);
    if !reached.full {
        law_filters_over_damage_are_redrawn(reached, frame.readers, at, px, py);
    }
}

/// Damage that disturbs no filter is not grown for any.
pub proof fn law_settled_damage_is_not_grown(start: Region, readers: Seq<Reader>)
    requires
        settled(start, readers),
    ensures
        filtered(start, readers) == start,
{
    lemma_settled_round(start, readers);
    reveal_with_fuel(grown, 2);
}

proof fn lemma_settled_round(start: Region, readers: Seq<Reader>)
    requires
        settled(start, readers),
    ensures
        one_round(start, readers) == (start, false),
    decreases readers.len(),
{
    if readers.len() > 0 {
        let rest = readers.drop_last();
        assert forall|i: int|
            0 <= i < rest.len() && start.meets((#[trigger] rest[i]).source) implies start.contains(
            rest[i].source,
        ) && start.contains(rest[i].writes) by {
            assert(rest[i] == readers[i]);
        }
        lemma_settled_round(start, rest);
        assert(readers[readers.len() - 1] == readers.last());
    }
}

/// Each round for filters costs one: a round that adds nothing ends the growing, and one that adds
/// something leaves one round less. With none left everything is redrawn.
pub proof fn law_rounds_are_counted(start: Region, readers: Seq<Reader>, rounds: nat)
    requires
        rounds > 0,
    ensures
        !one_round(start, readers).1 ==> grown(start, readers, rounds) == one_round(
            start,
            readers,
        ).0,
        one_round(start, readers).1 ==> grown(start, readers, rounds) == grown(
            one_round(start, readers).0,
            readers,
            (rounds - 1) as nat,
        ),
        grown(start, readers, 0) == Region::whole(),
{
}

/// A filter that reads damage and is not damaged whole has all that it reads and all that it writes
/// added; one that reads none, or is damaged whole, adds nothing.
pub proof fn law_each_filter_is_asked_once(start: Region, readers: Seq<Reader>, reader: Reader)
    ensures
        ({
            let (before, grew) = one_round(start, readers);
            let (after, grows) = one_round(start, readers.push(reader));
            let whole = before.contains(reader.source) && before.contains(reader.writes);
            &&& before.meets(reader.source) && !whole ==> grows && after == before.absorb(
                reader.source,
            ).absorb(reader.writes)
            &&& !before.meets(reader.source) || whole ==> grows == grew && after == before
        }),
{
    assert(readers.push(reader).drop_last() =~= readers);
}

/// How often a hash occurs is how many entries carry it, and what changed are the rectangles of the
/// entries whose hash occurs a different number of times in one frame than in the other, in order.
pub proof fn law_changes_are_counted_by_hash(
    entries: Seq<Entry>,
    previous: Seq<Entry>,
    frame: Seq<Entry>,
    hash: u64,
)
    ensures
        occurrences(entries, hash) == entries.filter(|entry: Entry| entry.hash == hash).len(),
        unbalanced(entries, previous, frame) == entries.filter(
            |entry: Entry| occurrences(previous, entry.hash) != occurrences(frame, entry.hash),
        ).map_values(|entry: Entry| entry.rect),
        changed(previous, frame) == unbalanced(previous + frame, previous, frame),
    decreases entries.len(),
{
    reveal(Seq::filter);
    let keep = |entry: Entry|
        occurrences(previous, entry.hash) != occurrences(frame, entry.hash);
    let rect = |entry: Entry| entry.rect;
    if entries.len() > 0 {
        let rest = entries.drop_last();
        law_changes_are_counted_by_hash(rest, previous, frame, hash);
        if keep(entries.last()) {
            assert(rest.filter(keep).push(entries.last()).map_values(rect) =~= rest.filter(
                keep,
            ).map_values(rect).push(entries.last().rect));
        }
    }
    assert(unbalanced(entries, previous, frame) =~= entries.filter(keep).map_values(rect));
}

/// A change is small where no more than so many primitives changed, all that changed and all that
/// is damaged in any case lie in a rectangle no larger than a twelfth of the surface, and no filter
/// reads there.
pub proof fn law_changes_in_a_small_place_are_small(
    previous: SnapshotView,
    frame: SnapshotView,
    start: Region,
    bounds: Rect,
    surface: Rect,
)
    requires
        changed(previous.entries, frame.entries).len() <= 2048,
        !start.full,
        forall|i: int| 0 <= i < start.rects.len() ==> bounds.contains(#[trigger] start.rects[i]),
        forall|i: int|
            0 <= i < changed(previous.entries, frame.entries).len() ==> bounds.contains(
                #[trigger] changed(previous.entries, frame.entries)[i],
            ),
        forall|i: int| 0 <= i < frame.always.len() ==> bounds.contains(#[trigger] frame.always[i]),
        forall|i: int|
            0 <= i < frame.readers.len() ==> !bounds.meets((#[trigger] frame.readers[i]).source),
        bounds.has_area(),
        0 <= bounds.area(),
        12 * bounds.area() <= surface.area(),
    ensures
        small_change(previous, frame, start, bounds, surface),
{
    if surface.area() > 0 {
        crate::fraction::law_half_is_not_past_the_share(
            (6 * bounds.area()) as nat,
            surface.area() as nat,
        );
    }
}

/// What shows of the surfaces is a part of one of them, and what a filter is kept with is what one
/// of them reads and writes on the surface: nothing else is added.
pub proof fn law_snapshots_add_nothing(
    rects: Seq<Rect>,
    filters: Seq<PaintedFilter>,
    surface: Rect,
    i: int,
)
    ensures
        visible(rects, surface).len() <= rects.len(),
        0 <= i < visible(rects, surface).len() ==> exists|k: int|
            0 <= k < rects.len() && (#[trigger] rects[k]).common(surface) == Some(
                visible(rects, surface)[i],
            ),
        readers_of(filters, surface).len() <= filters.len(),
        0 <= i < readers_of(filters, surface).len() ==> exists|k: int|
            0 <= k < filters.len() && (#[trigger] filters[k]).reads.common(surface) == Some(
                readers_of(filters, surface)[i].source,
            ) && filters[k].writes.common(surface) == Some(
                readers_of(filters, surface)[i].writes,
            ),
    decreases rects.len() + filters.len(),
{
    if rects.len() > 0 {
        let rest = rects.drop_last();
        law_snapshots_add_nothing(rest, filters, surface, i);
        let (all, before) = (visible(rects, surface), visible(rest, surface));
        if 0 <= i < before.len() {
            assert(all[i] == before[i]);
            let k = choose|k: int|
                0 <= k < rest.len() && (#[trigger] rest[k]).common(surface) == Some(before[i]);
            assert(rects[k].common(surface) == Some(all[i]));
        } else if i < all.len() && 0 <= i {
            assert(rects[rects.len() - 1].common(surface) == Some(all[i]));
        }
    }
    if filters.len() > 0 {
        let rest = filters.drop_last();
        law_snapshots_add_nothing(rects, rest, surface, i);
        let (all, before) = (readers_of(filters, surface), readers_of(rest, surface));
        if 0 <= i < before.len() {
            assert(all[i] == before[i]);
            let k = choose|k: int|
                0 <= k < rest.len() && (#[trigger] rest[k]).reads.common(surface) == Some(
                    before[i].source,
                ) && rest[k].writes.common(surface) == Some(before[i].writes);
            assert(filters[k].reads.common(surface) == Some(all[i].source));
        } else if i < all.len() && 0 <= i {
            assert(filters[filters.len() - 1].reads.common(surface) == Some(all[i].source));
        }
    }
}

/// The first frame, and one that was declared to be redrawn whole, damage everything, whatever is
/// in them; any other damages what the comparison says.
pub proof fn law_first_and_forced_frames_are_whole(
    previous: SnapshotView,
    frame: SnapshotView,
    start: Region,
    surface: Rect,
    forced: bool,
    px: int,
    py: int,
)
    ensures
        frame_damage(None, forced, frame, start, surface).covers(px, py),
        frame_damage(Some(previous), true, frame, start, surface).covers(px, py),
        frame_damage(Some(previous), false, frame, start, surface) == compared(
            previous,
            frame,
            start,
            surface,
        ),
{
}

/// Damage that holds three quarters of the surface or more makes way for a full pass, and damage
/// that holds no more than half of it does not. A surface without pixels is never crowded.
pub proof fn law_crowding_is_by_area(region: Region, surface: Rect)
    requires
        total_area(region.rects) >= 0,
    ensures
        surface.area() > 0 && 3 * surface.area() <= 4 * total_area(region.rects) ==> crowded(
            region,
            surface,
        ),
        surface.area() > 0 && 2 * total_area(region.rects) <= surface.area() ==> !crowded(
            region,
            surface,
        ),
        surface.area() <= 0 ==> !crowded(region, surface),
{
    if surface.area() > 0 {
        let (held, whole) = (total_area(region.rects) as nat, surface.area() as nat);
        if 3 * whole <= 4 * held {
            crate::fraction::law_three_quarters_are_past_the_share(held, whole);
        }
        if 2 * held <= whole {
            crate::fraction::law_half_is_not_past_the_share(held, whole);
        }
    }
}

/// What rectangles hold adds up: each counts with its own pixels, wherever it stands.
pub proof fn law_areas_add_up(first: Seq<Rect>, rect: Rect)
    ensures
        total_area(first.push(rect)) == total_area(first) + rect.width * rect.height,
        total_area(Seq::<Rect>::empty()) == 0,
{
    assert(first.push(rect).drop_last() =~= first);
}

/// The limits that damage is kept by: so many primitives may change before everything is redrawn,
/// and so many rounds are made for filters that read one another.
pub proof fn law_limits_of_damage()
    ensures
        crate::damage::MAX_CHANGED == 2048,
        crate::damage::FILTER_ROUNDS == 4,
        crate::region::MAX_DAMAGE == 6,
{
}

} // verus!
