//! What damaging by comparison guarantees.

use vstd::prelude::*;

use crate::damage::balanced;
use crate::damage::changed;
use crate::damage::compared;
use crate::damage::crowded;
use crate::damage::filtered;
use crate::damage::frame_damage;
use crate::damage::grown;
use crate::damage::lemma_absorb_each_partial;
use crate::damage::lemma_quiet_round;
use crate::damage::occurrences;
use crate::damage::one_round;
use crate::damage::settled;
use crate::damage::sufficient;
use crate::damage::total_area;
use crate::damage::unbalanced;
use crate::damage::MAX_CHANGED;
use crate::fraction::rounded;
use crate::geom::Rect;
use crate::region::Region;
use crate::snapshot::entry_of;
use crate::snapshot::hash_of;
use crate::snapshot::lemma_entries_of_primitives;
use crate::snapshot::shown_on;
use crate::snapshot::snapshot_of;
use crate::snapshot::Entry;
use crate::snapshot::Identity;
use crate::snapshot::Painting;
use crate::snapshot::Primitive;
use crate::snapshot::Reader;
use crate::snapshot::SnapshotView;

verus! {

/// How many of the entries that carry `hash` paint the pixel at column `px` and row `py`.
pub open spec fn painters(entries: Seq<Entry>, hash: u64, px: int, py: int) -> nat
    decreases entries.len(),
{
    if entries.len() == 0 {
        0
    } else {
        let last = entries.last();
        painters(entries.drop_last(), hash, px, py) + if last.hash == hash && last.rect.covers(
            px,
            py,
        ) {
            1nat
        } else {
            0nat
        }
    }
}

/// Whether primitives with the same hash paint the same rectangle, as they do unless two different
/// primitives collide.
pub open spec fn collision_free(entries: Seq<Entry>) -> bool {
    forall|i: int, j: int|
        0 <= i < entries.len() && 0 <= j < entries.len() && (#[trigger] entries[i]).hash == (
        #[trigger] entries[j]).hash ==> entries[i].rect == entries[j].rect
}

/// Nothing stale is left on the screen: a pixel outside damage that holds all a comparison must
/// damage is painted by the same primitives in both frames, each the same number of times.
pub proof fn law_undamaged_pixel_is_painted_alike(
    previous: SnapshotView,
    frame: SnapshotView,
    region: Region,
    px: int,
    py: int,
    hash: u64,
)
    requires
        sufficient(previous, frame, region),
        collision_free(previous.entries + frame.entries),
        !region.covers(px, py),
    ensures
        painters(previous.entries, hash, px, py) == painters(frame.entries, hash, px, py),
{
    let all = previous.entries + frame.entries;
    if balanced(previous.entries, frame.entries, hash) {
        if exists|i: int|
            0 <= i < all.len() && (#[trigger] all[i]).hash == hash && all[i].rect.covers(px, py) {
            let i = choose|i: int|
                0 <= i < all.len() && (#[trigger] all[i]).hash == hash && all[i].rect.covers(
                    px,
                    py,
                );
            assert forall|k: int|
                0 <= k < previous.entries.len() && (#[trigger] previous.entries[k]).hash
                    == hash implies previous.entries[k].rect.covers(px, py) by {
                assert(all[k] == previous.entries[k]);
                assert(all[k].rect == all[i].rect);
            }
            assert forall|k: int|
                0 <= k < frame.entries.len() && (#[trigger] frame.entries[k]).hash
                    == hash implies frame.entries[k].rect.covers(px, py) by {
                assert(all[previous.entries.len() + k] == frame.entries[k]);
                assert(all[previous.entries.len() + k].rect == all[i].rect);
            }
            lemma_all_paint(previous.entries, hash, px, py);
            lemma_all_paint(frame.entries, hash, px, py);
        } else {
            assert forall|k: int|
                0 <= k < previous.entries.len() && (#[trigger] previous.entries[k]).hash
                    == hash implies !previous.entries[k].rect.covers(px, py) by {
                assert(all[k] == previous.entries[k]);
            }
            assert forall|k: int|
                0 <= k < frame.entries.len() && (#[trigger] frame.entries[k]).hash
                    == hash implies !frame.entries[k].rect.covers(px, py) by {
                assert(all[previous.entries.len() + k] == frame.entries[k]);
            }
            lemma_none_paint(previous.entries, hash, px, py);
            lemma_none_paint(frame.entries, hash, px, py);
        }
    } else {
        assert forall|k: int|
            0 <= k < previous.entries.len() && (#[trigger] previous.entries[k]).hash
                == hash implies !previous.entries[k].rect.covers(px, py) by {
            assert(region.covers_rect(previous.entries[k].rect));
        }
        assert forall|k: int|
            0 <= k < frame.entries.len() && (#[trigger] frame.entries[k]).hash
                == hash implies !frame.entries[k].rect.covers(px, py) by {
            assert(region.covers_rect(frame.entries[k].rect));
        }
        lemma_none_paint(previous.entries, hash, px, py);
        lemma_none_paint(frame.entries, hash, px, py);
    }
}

proof fn lemma_all_paint(entries: Seq<Entry>, hash: u64, px: int, py: int)
    requires
        forall|k: int|
            0 <= k < entries.len() && (#[trigger] entries[k]).hash == hash
                ==> entries[k].rect.covers(px, py),
    ensures
        painters(entries, hash, px, py) == occurrences(entries, hash),
    decreases entries.len(),
{
    if entries.len() > 0 {
        assert forall|k: int|
            0 <= k < entries.drop_last().len() && (#[trigger] entries.drop_last()[k]).hash
                == hash implies entries.drop_last()[k].rect.covers(px, py) by {
            assert(entries.drop_last()[k] == entries[k]);
        }
        lemma_all_paint(entries.drop_last(), hash, px, py);
    }
}

proof fn lemma_none_paint(entries: Seq<Entry>, hash: u64, px: int, py: int)
    requires
        forall|k: int|
            0 <= k < entries.len() && (#[trigger] entries[k]).hash == hash
                ==> !entries[k].rect.covers(px, py),
    ensures
        painters(entries, hash, px, py) == 0,
    decreases entries.len(),
{
    if entries.len() > 0 {
        assert forall|k: int|
            0 <= k < entries.drop_last().len() && (#[trigger] entries.drop_last()[k]).hash
                == hash implies !entries.drop_last()[k].rect.covers(px, py) by {
            assert(entries.drop_last()[k] == entries[k]);
        }
        lemma_none_paint(entries.drop_last(), hash, px, py);
    }
}

/// Two frames that hold every hash equally often, in whatever order, damage nothing, unless a
/// surface is filled from outside.
pub proof fn law_same_primitives_damage_nothing(
    previous: SnapshotView,
    frame: SnapshotView,
    surface: Rect,
)
    requires
        forall|hash: u64| #[trigger] balanced(previous.entries, frame.entries, hash),
        frame.always.len() == 0,
    ensures
        changed(previous.entries, frame.entries).len() == 0,
        compared(previous, frame, Region::none(), surface) == Region::none(),
{
    lemma_all_balanced(previous.entries + frame.entries, previous.entries, frame.entries);
    let reached = filtered(Region::none(), frame.readers);
    assert(reached == Region::none());
    assert(total_area(reached.rects) == 0);
    assert(rounded(0) == 0) by {
        assert(crate::fraction::spacing(0) == 1);
    }
}

proof fn lemma_all_balanced(entries: Seq<Entry>, previous: Seq<Entry>, frame: Seq<Entry>)
    requires
        forall|hash: u64| #[trigger] balanced(previous, frame, hash),
    ensures
        unbalanced(entries, previous, frame).len() == 0,
    decreases entries.len(),
{
    if entries.len() > 0 {
        lemma_all_balanced(entries.drop_last(), previous, frame);
    }
}

/// Painting the same frame again damages nothing, where the comparison is not declared void and no
/// surface filled from outside shows; and where nothing was left to redraw, nothing is.
pub proof fn law_unchanged_frame_is_skipped(painting: Painting, surface: Rect)
    requires
        snapshot_of(painting, surface).always.len() == 0,
    ensures
        ({
            let frame = snapshot_of(painting, surface);
            let added = frame_damage(Some(frame), false, frame, Region::none(), surface);
            &&& added == Region::none()
            &&& Region::none().absorb_region(added) == Region::none()
        }),
{
    let frame = snapshot_of(painting, surface);
    law_same_primitives_damage_nothing(frame, frame, surface);
}

/// Damage that was not retired is not forgotten: a frame that adds none leaves it as it is.
pub proof fn law_unretired_damage_stays(pending: Region)
    ensures
        pending.absorb_region(Region::none()) == pending,
{
}

/// Inserting one primitive damages exactly that primitive, wherever in the list it stands.
pub proof fn law_insertion_damages_only_what_appeared(
    first: Seq<Entry>,
    inserted: Entry,
    second: Seq<Entry>,
)
    requires
        occurrences(first + second, inserted.hash) == 0,
    ensures
        changed(first + second, first.push(inserted) + second) == seq![inserted.rect],
{
    let previous = first + second;
    let frame = first.push(inserted) + second;
    let one = seq![inserted];
    assert(frame =~= first + one + second);
    assert forall|hash: u64| hash != inserted.hash implies #[trigger] balanced(
        previous,
        frame,
        hash,
    ) by {
        lemma_occurrences_concat(first, second, hash);
        lemma_occurrences_concat(first, one, hash);
        lemma_occurrences_concat(first + one, second, hash);
        lemma_occurrences_single(inserted, hash);
    }
    lemma_occurrences_concat(first, second, inserted.hash);
    lemma_occurrences_concat(first, one, inserted.hash);
    lemma_occurrences_concat(first + one, second, inserted.hash);
    lemma_occurrences_single(inserted, inserted.hash);
    lemma_only_carriers(previous, previous, frame, inserted.hash);
    lemma_only_carriers(first, previous, frame, inserted.hash);
    lemma_only_carriers(second, previous, frame, inserted.hash);
    crate::damage::lemma_unbalanced_concat(previous, frame, previous, frame);
    crate::damage::lemma_unbalanced_concat(first, one, previous, frame);
    crate::damage::lemma_unbalanced_concat(first + one, second, previous, frame);
    assert(one.drop_last() =~= Seq::<Entry>::empty());
    reveal_with_fuel(unbalanced, 2);
    assert(changed(previous, frame) =~= seq![inserted.rect]);
}

/// Removing one primitive damages exactly where that primitive was.
pub proof fn law_removal_damages_only_what_vanished(
    first: Seq<Entry>,
    removed: Entry,
    second: Seq<Entry>,
)
    requires
        occurrences(first + second, removed.hash) == 0,
    ensures
        changed(first.push(removed) + second, first + second) == seq![removed.rect],
{
    let frame = first + second;
    let previous = first.push(removed) + second;
    let one = seq![removed];
    assert(previous =~= first + one + second);
    assert forall|hash: u64| hash != removed.hash implies #[trigger] balanced(
        previous,
        frame,
        hash,
    ) by {
        lemma_occurrences_concat(first, second, hash);
        lemma_occurrences_concat(first, one, hash);
        lemma_occurrences_concat(first + one, second, hash);
        lemma_occurrences_single(removed, hash);
    }
    lemma_occurrences_concat(first, second, removed.hash);
    lemma_occurrences_concat(first, one, removed.hash);
    lemma_occurrences_concat(first + one, second, removed.hash);
    lemma_occurrences_single(removed, removed.hash);
    lemma_only_carriers(frame, previous, frame, removed.hash);
    lemma_only_carriers(first, previous, frame, removed.hash);
    lemma_only_carriers(second, previous, frame, removed.hash);
    crate::damage::lemma_unbalanced_concat(previous, frame, previous, frame);
    crate::damage::lemma_unbalanced_concat(first, one, previous, frame);
    crate::damage::lemma_unbalanced_concat(first + one, second, previous, frame);
    assert(one.drop_last() =~= Seq::<Entry>::empty());
    reveal_with_fuel(unbalanced, 2);
    assert(changed(previous, frame) =~= seq![removed.rect]);
}

/// A primitive that changes damages where it was and where it is, and nothing else.
pub proof fn law_change_damages_old_and_new_place(
    first: Seq<Entry>,
    before: Entry,
    after: Entry,
    second: Seq<Entry>,
)
    requires
        before.hash != after.hash,
        occurrences(first + second, before.hash) == 0,
        occurrences(first + second, after.hash) == 0,
    ensures
        changed(first.push(before) + second, first.push(after) + second) == seq![
            before.rect,
            after.rect,
        ],
{
    let previous = first.push(before) + second;
    let frame = first.push(after) + second;
    let old_one = seq![before];
    let new_one = seq![after];
    assert(previous =~= first + old_one + second);
    assert(frame =~= first + new_one + second);
    assert forall|hash: u64|
        hash != before.hash && hash != after.hash implies #[trigger] balanced(
        previous,
        frame,
        hash,
    ) by {
        lemma_occurrences_concat(first, old_one, hash);
        lemma_occurrences_concat(first + old_one, second, hash);
        lemma_occurrences_concat(first, new_one, hash);
        lemma_occurrences_concat(first + new_one, second, hash);
        lemma_occurrences_single(before, hash);
        lemma_occurrences_single(after, hash);
    }
    assert forall|hash: u64| hash == before.hash || hash == after.hash implies !(
    #[trigger] balanced(previous, frame, hash)) && occurrences(first, hash) == 0 && occurrences(
        second,
        hash,
    ) == 0 by {
        lemma_occurrences_concat(first, second, hash);
        lemma_occurrences_concat(first, old_one, hash);
        lemma_occurrences_concat(first + old_one, second, hash);
        lemma_occurrences_concat(first, new_one, hash);
        lemma_occurrences_concat(first + new_one, second, hash);
        lemma_occurrences_single(before, hash);
        lemma_occurrences_single(after, hash);
    }
    assert(!balanced(previous, frame, before.hash));
    assert(!balanced(previous, frame, after.hash));
    lemma_only_two_carriers(first, previous, frame, before.hash, after.hash);
    lemma_only_two_carriers(second, previous, frame, before.hash, after.hash);
    crate::damage::lemma_unbalanced_concat(previous, frame, previous, frame);
    crate::damage::lemma_unbalanced_concat(first, old_one, previous, frame);
    crate::damage::lemma_unbalanced_concat(first + old_one, second, previous, frame);
    crate::damage::lemma_unbalanced_concat(first, new_one, previous, frame);
    crate::damage::lemma_unbalanced_concat(first + new_one, second, previous, frame);
    assert(old_one.drop_last() =~= Seq::<Entry>::empty());
    assert(new_one.drop_last() =~= Seq::<Entry>::empty());
    reveal_with_fuel(unbalanced, 2);
    assert(changed(previous, frame) =~= seq![before.rect, after.rect]);
}

proof fn lemma_occurrences_concat(first: Seq<Entry>, second: Seq<Entry>, hash: u64)
    ensures
        occurrences(first + second, hash) == occurrences(first, hash) + occurrences(second, hash),
    decreases second.len(),
{
    if second.len() == 0 {
        assert(first + second =~= first);
    } else {
        lemma_occurrences_concat(first, second.drop_last(), hash);
        assert((first + second).drop_last() =~= first + second.drop_last());
        assert((first + second).last() == second.last());
    }
}

proof fn lemma_occurrences_single(entry: Entry, hash: u64)
    ensures
        occurrences(seq![entry], hash) == if entry.hash == hash {
            1nat
        } else {
            0nat
        },
{
    assert(seq![entry].drop_last() =~= Seq::<Entry>::empty());
    reveal_with_fuel(occurrences, 2);
}

/// Entries of which none carries the one unbalanced hash all stay.
proof fn lemma_only_carriers(
    entries: Seq<Entry>,
    previous: Seq<Entry>,
    frame: Seq<Entry>,
    carried: u64,
)
    requires
        forall|hash: u64| hash != carried ==> #[trigger] balanced(previous, frame, hash),
        occurrences(entries, carried) == 0,
    ensures
        unbalanced(entries, previous, frame) == Seq::<Rect>::empty(),
    decreases entries.len(),
{
    if entries.len() > 0 {
        lemma_only_carriers(entries.drop_last(), previous, frame, carried);
        assert(entries.last().hash != carried);
        assert(balanced(previous, frame, entries.last().hash));
    }
}

proof fn lemma_only_two_carriers(
    entries: Seq<Entry>,
    previous: Seq<Entry>,
    frame: Seq<Entry>,
    one: u64,
    two: u64,
)
    requires
        forall|hash: u64|
            hash != one && hash != two ==> #[trigger] balanced(previous, frame, hash),
        occurrences(entries, one) == 0,
        occurrences(entries, two) == 0,
    ensures
        unbalanced(entries, previous, frame) == Seq::<Rect>::empty(),
    decreases entries.len(),
{
    if entries.len() > 0 {
        lemma_only_two_carriers(entries.drop_last(), previous, frame, one, two);
        assert(balanced(previous, frame, entries.last().hash));
    }
}

/// A comparison leaves every filter settled: one that reads damage has all it reads and all it
/// writes damaged, or everything is.
pub proof fn law_filters_are_settled(
    previous: SnapshotView,
    frame: SnapshotView,
    start: Region,
    surface: Rect,
)
    ensures
        ({
            let reached = compared(previous, frame, start, surface);
            reached.full || settled(reached, frame.readers)
        }),
{
    let moved = changed(previous.entries, frame.entries);
    let listed = start.absorb_each(moved).absorb_each(frame.always);
    lemma_grown_settles(listed, frame.readers, crate::damage::FILTER_ROUNDS as nat);
    if listed.rects.len() == 0 && !listed.full {
        assert(settled(listed, frame.readers));
    }
}

proof fn lemma_grown_settles(start: Region, readers: Seq<Reader>, rounds: nat)
    ensures
        grown(start, readers, rounds).full || settled(grown(start, readers, rounds), readers),
    decreases rounds,
{
    if rounds > 0 {
        lemma_quiet_round(start, readers);
        let (reached, grew) = one_round(start, readers);
        if grew {
            lemma_grown_settles(reached, readers, (rounds - 1) as nat);
        }
    }
}

/// Without filters, everything is redrawn only where it was to be anyway, where too many
/// primitives changed, or where the damage is most of the surface.
pub proof fn law_partial_damage_stays_partial(
    previous: SnapshotView,
    frame: SnapshotView,
    start: Region,
    surface: Rect,
)
    requires
        !start.full,
        frame.readers.len() == 0,
    ensures
        ({
            let moved = changed(previous.entries, frame.entries);
            let listed = start.absorb_each(moved).absorb_each(frame.always);
            compared(previous, frame, start, surface).full <==> moved.len() > MAX_CHANGED
                || crowded(listed, surface)
        }),
{
    let moved = changed(previous.entries, frame.entries);
    lemma_absorb_each_partial(start, moved);
    lemma_absorb_each_partial(start.absorb_each(moved), frame.always);
}

/// What is shown at each pixel: the frame it was last drawn from.
pub type Shown = spec_fn(int, int) -> Seq<Entry>;

/// What is shown once `damage` has been redrawn from a frame.
pub open spec fn redrawn(shown: Shown, damage: Region, frame: Seq<Entry>) -> Shown {
    |px: int, py: int|
        if damage.covers(px, py) {
            frame
        } else {
            shown(px, py)
        }
}

/// Whether every pixel but those still to be redrawn shows what `frame` paints there: the same
/// primitives, each the same number of times.
pub open spec fn up_to_date(shown: Shown, frame: Seq<Entry>, pending: Region) -> bool {
    forall|px: int, py: int, hash: u64|
        !pending.covers(px, py) ==> #[trigger] painters(shown(px, py), hash, px, py) == painters(
            frame,
            hash,
            px,
            py,
        )
}

/// The screen never goes stale. Where every pixel but the pending ones showed the last frame, and
/// the damage holds what was pending and all a comparison must damage, redrawing the damage shows
/// the new frame everywhere; and where the frame's work was not submitted, every pixel but those of
/// the damage, which stays pending, shows the new frame already.
pub proof fn law_screen_never_goes_stale(
    shown: Shown,
    previous: SnapshotView,
    pending: Region,
    frame: SnapshotView,
    damage: Region,
)
    requires
        up_to_date(shown, previous.entries, pending),
        damage.covers_all(pending),
        sufficient(previous, frame, damage),
        collision_free(previous.entries + frame.entries),
    ensures
        up_to_date(redrawn(shown, damage, frame.entries), frame.entries, Region::none()),
        up_to_date(shown, frame.entries, damage),
{
    assert forall|px: int, py: int, hash: u64| !damage.covers(px, py) implies #[trigger] painters(
        shown(px, py),
        hash,
        px,
        py,
    ) == painters(frame.entries, hash, px, py) by {
        law_undamaged_pixel_is_painted_alike(previous, frame, damage, px, py, hash);
        assert(!pending.covers(px, py));
    }
    let after = redrawn(shown, damage, frame.entries);
    assert forall|px: int, py: int, hash: u64| #[trigger] painters(
        after(px, py),
        hash,
        px,
        py,
    ) == painters(frame.entries, hash, px, py) by {
        if !damage.covers(px, py) {
            assert(after(px, py) == shown(px, py));
            assert(painters(shown(px, py), hash, px, py) == painters(
                frame.entries,
                hash,
                px,
                py,
            ));
        }
    }
}

/// Redrawing everything shows the frame everywhere, whatever was shown before.
pub proof fn law_full_redraw_shows_the_frame(shown: Shown, frame: Seq<Entry>, damage: Region)
    requires
        damage.full,
    ensures
        up_to_date(redrawn(shown, damage, frame), frame, Region::none()),
{
}

/// How many of the primitives are that one.
pub open spec fn times(primitives: Seq<Primitive>, identity: Identity) -> nat
    decreases primitives.len(),
{
    if primitives.len() == 0 {
        0
    } else {
        times(primitives.drop_last(), identity) + if primitives.last().identity == identity {
            1nat
        } else {
            0nat
        }
    }
}

/// The rectangles of those of `listed` that occur a different number of times in one frame than in
/// the other, in order.
pub open spec fn altered(
    listed: Seq<Primitive>,
    before: Seq<Primitive>,
    after: Seq<Primitive>,
) -> Seq<Rect>
    decreases listed.len(),
{
    if listed.len() == 0 {
        Seq::empty()
    } else {
        let rest = altered(listed.drop_last(), before, after);
        if times(before, listed.last().identity) == times(after, listed.last().identity) {
            rest
        } else {
            rest.push(listed.last().rect)
        }
    }
}

/// Whether different primitives have different hashes.
pub open spec fn told_apart(primitives: Seq<Primitive>) -> bool {
    forall|i: int, j: int|
        0 <= i < primitives.len() && 0 <= j < primitives.len() && hash_of(
            (#[trigger] primitives[i]).identity,
        ) == hash_of((#[trigger] primitives[j]).identity) ==> primitives[i].identity
            == primitives[j].identity
}

/// Whether a primitive's place is part of what it is: equal primitives paint the same rectangle.
pub open spec fn placed_by_identity(primitives: Seq<Primitive>) -> bool {
    forall|i: int, j: int|
        0 <= i < primitives.len() && 0 <= j < primitives.len() && (
        #[trigger] primitives[i]).identity == (#[trigger] primitives[j]).identity
            ==> primitives[i].rect == primitives[j].rect
}

/// The entries of some primitives.
pub open spec fn entries_for(primitives: Seq<Primitive>) -> Seq<Entry> {
    primitives.map_values(|primitive: Primitive| entry_of(primitive))
}

/// A hash occurs as often as its primitive, where no other primitive has that hash.
proof fn lemma_occurrences_are_times(primitives: Seq<Primitive>, identity: Identity)
    requires
        forall|i: int|
            0 <= i < primitives.len() && hash_of((#[trigger] primitives[i]).identity) == hash_of(
                identity,
            ) ==> primitives[i].identity == identity,
    ensures
        occurrences(entries_for(primitives), hash_of(identity)) == times(primitives, identity),
    decreases primitives.len(),
{
    if primitives.len() > 0 {
        let rest = primitives.drop_last();
        assert forall|i: int|
            0 <= i < rest.len() && hash_of((#[trigger] rest[i]).identity) == hash_of(
                identity,
            ) implies rest[i].identity == identity by {
            assert(rest[i] == primitives[i]);
        }
        lemma_occurrences_are_times(rest, identity);
        assert(entries_for(primitives).drop_last() =~= entries_for(rest));
        assert(entries_for(primitives).last() == entry_of(primitives.last()));
        assert(primitives[primitives.len() - 1] == primitives.last());
    }
}

/// The unbalanced hashes are those of the altered primitives, where hashes tell them apart.
proof fn lemma_unbalanced_are_altered(
    listed: Seq<Primitive>,
    before: Seq<Primitive>,
    after: Seq<Primitive>,
)
    requires
        told_apart(before + after),
        forall|i: int| 0 <= i < listed.len() ==> (before + after).contains(#[trigger] listed[i]),
    ensures
        unbalanced(entries_for(listed), entries_for(before), entries_for(after)) == altered(
            listed,
            before,
            after,
        ),
    decreases listed.len(),
{
    let all = before + after;
    if listed.len() > 0 {
        let rest = listed.drop_last();
        assert forall|i: int| 0 <= i < rest.len() implies all.contains(#[trigger] rest[i]) by {
            assert(rest[i] == listed[i]);
        }
        lemma_unbalanced_are_altered(rest, before, after);
        assert(entries_for(listed).drop_last() =~= entries_for(rest));
        assert(entries_for(listed).last() == entry_of(listed.last()));
        let identity = listed.last().identity;
        assert(all.contains(listed[listed.len() - 1]));
        let at = choose|at: int| 0 <= at < all.len() && all[at] == listed.last();
        assert forall|i: int|
            0 <= i < before.len() && hash_of((#[trigger] before[i]).identity) == hash_of(
                identity,
            ) implies before[i].identity == identity by {
            assert(all[i] == before[i]);
            assert(all[at].identity == identity);
        }
        assert forall|i: int|
            0 <= i < after.len() && hash_of((#[trigger] after[i]).identity) == hash_of(
                identity,
            ) implies after[i].identity == identity by {
            assert(all[before.len() + i] == after[i]);
            assert(all[at].identity == identity);
        }
        lemma_occurrences_are_times(before, identity);
        lemma_occurrences_are_times(after, identity);
    }
}

/// What the comparison takes as changed are the primitives themselves: those that show and occur,
/// by all that makes them what they are, a different number of times in one frame than in the
/// other. Only two primitives with one hash could hide a change.
pub proof fn law_changes_are_those_of_the_primitives(
    before: Painting,
    after: Painting,
    surface: Rect,
)
    requires
        told_apart(
            shown_on(before.primitives(), surface) + shown_on(after.primitives(), surface),
        ),
    ensures
        ({
            let earlier = shown_on(before.primitives(), surface);
            let later = shown_on(after.primitives(), surface);
            changed(
                snapshot_of(before, surface).entries,
                snapshot_of(after, surface).entries,
            ) == altered(earlier + later, earlier, later)
        }),
{
    let earlier = shown_on(before.primitives(), surface);
    let later = shown_on(after.primitives(), surface);
    lemma_entries_of_primitives(before, surface);
    lemma_entries_of_primitives(after, surface);
    assert(entries_for(earlier) + entries_for(later) =~= entries_for(earlier + later));
    assert forall|i: int| 0 <= i < (earlier + later).len() implies (earlier + later).contains(
        #[trigger] (earlier + later)[i],
    ) by {}
    lemma_unbalanced_are_altered(earlier + later, earlier, later);
}

/// Only a collision can confuse two entries: where different primitives have different hashes and
/// equal ones paint the same rectangle, entries with one hash do too.
pub proof fn law_only_collisions_confuse(before: Painting, after: Painting, surface: Rect)
    requires
        told_apart(
            shown_on(before.primitives(), surface) + shown_on(after.primitives(), surface),
        ),
        placed_by_identity(
            shown_on(before.primitives(), surface) + shown_on(after.primitives(), surface),
        ),
    ensures
        collision_free(
            snapshot_of(before, surface).entries + snapshot_of(after, surface).entries,
        ),
{
    let all = shown_on(before.primitives(), surface) + shown_on(after.primitives(), surface);
    let entries = snapshot_of(before, surface).entries + snapshot_of(after, surface).entries;
    lemma_entries_of_primitives(before, surface);
    lemma_entries_of_primitives(after, surface);
    assert(entries =~= entries_for(all));
    assert forall|i: int, j: int|
        0 <= i < entries.len() && 0 <= j < entries.len() && (#[trigger] entries[i]).hash == (
        #[trigger] entries[j]).hash implies entries[i].rect == entries[j].rect by {
        assert(entries[i] == entry_of(all[i]));
        assert(entries[j] == entry_of(all[j]));
    }
}

/// Damage follows the primitives: whatever shows and occurs a different number of times in one
/// frame than in the other is damaged where it was and where it is, and so is every surface filled
/// from outside.
pub proof fn law_altered_primitives_are_damaged(
    before: Painting,
    after: Painting,
    surface: Rect,
    region: Region,
)
    requires
        told_apart(
            shown_on(before.primitives(), surface) + shown_on(after.primitives(), surface),
        ),
        sufficient(snapshot_of(before, surface), snapshot_of(after, surface), region),
    ensures
        ({
            let earlier = shown_on(before.primitives(), surface);
            let later = shown_on(after.primitives(), surface);
            &&& forall|i: int|
                0 <= i < earlier.len() && times(earlier, earlier[i].identity) != times(
                    later,
                    earlier[i].identity,
                ) ==> region.covers_rect((#[trigger] earlier[i]).rect)
            &&& forall|i: int|
                0 <= i < later.len() && times(earlier, later[i].identity) != times(
                    later,
                    later[i].identity,
                ) ==> region.covers_rect((#[trigger] later[i]).rect)
            &&& forall|i: int|
                0 <= i < snapshot_of(after, surface).always.len() ==> region.covers_rect(
                    #[trigger] snapshot_of(after, surface).always[i],
                )
        }),
{
    let earlier = shown_on(before.primitives(), surface);
    let later = shown_on(after.primitives(), surface);
    lemma_entries_of_primitives(before, surface);
    lemma_entries_of_primitives(after, surface);
    let all = earlier + later;
    assert forall|k: int| 0 <= k < all.len() implies balanced(
        entries_for(earlier),
        entries_for(later),
        hash_of((#[trigger] all[k]).identity),
    ) == (times(earlier, all[k].identity) == times(later, all[k].identity)) by {
        let identity = all[k].identity;
        assert forall|i: int|
            0 <= i < earlier.len() && hash_of((#[trigger] earlier[i]).identity) == hash_of(
                identity,
            ) implies earlier[i].identity == identity by {
            assert(all[i] == earlier[i]);
        }
        assert forall|i: int|
            0 <= i < later.len() && hash_of((#[trigger] later[i]).identity) == hash_of(
                identity,
            ) implies later[i].identity == identity by {
            assert(all[earlier.len() + i] == later[i]);
        }
        lemma_occurrences_are_times(earlier, identity);
        lemma_occurrences_are_times(later, identity);
    }
    assert forall|i: int|
        0 <= i < earlier.len() && times(earlier, earlier[i].identity) != times(
            later,
            earlier[i].identity,
        ) implies region.covers_rect((#[trigger] earlier[i]).rect) by {
        assert(all[i] == earlier[i]);
        assert(snapshot_of(before, surface).entries[i] == entry_of(earlier[i]));
    }
    assert forall|i: int|
        0 <= i < later.len() && times(earlier, later[i].identity) != times(
            later,
            later[i].identity,
        ) implies region.covers_rect((#[trigger] later[i]).rect) by {
        assert(all[earlier.len() + i] == later[i]);
        assert(snapshot_of(after, surface).entries[i] == entry_of(later[i]));
    }
}

/// How far damage goes: everything where too many primitives were altered, never most of the
/// surface in parts, and nothing where no primitive was altered and no surface is filled from
/// outside.
pub proof fn law_extent_of_damage(before: Painting, after: Painting, start: Region, surface: Rect)
    requires
        told_apart(
            shown_on(before.primitives(), surface) + shown_on(after.primitives(), surface),
        ),
    ensures
        ({
            let earlier = shown_on(before.primitives(), surface);
            let later = shown_on(after.primitives(), surface);
            let moved = altered(earlier + later, earlier, later);
            let (previous, frame) = (snapshot_of(before, surface), snapshot_of(after, surface));
            let reached = compared(previous, frame, start, surface);
            &&& moved.len() > MAX_CHANGED ==> reached.full
            &&& reached.full || !crowded(reached, surface)
            &&& moved.len() == 0 && frame.always.len() == 0 ==> compared(
                previous,
                frame,
                Region::none(),
                surface,
            ) == Region::none()
        }),
{
    law_changes_are_those_of_the_primitives(before, after, surface);
    let (previous, frame) = (snapshot_of(before, surface), snapshot_of(after, surface));
    if changed(previous.entries, frame.entries).len() == 0 && frame.always.len() == 0 {
        assert(filtered(Region::none(), frame.readers) == Region::none());
        assert(total_area(Region::none().rects) == 0);
        assert(rounded(0) == 0) by {
            assert(crate::fraction::spacing(0) == 1);
        }
    }
}

} // verus!
