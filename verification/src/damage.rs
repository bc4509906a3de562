//! Working out what changed between two frames, so that only that is redrawn.
//!
//! Two frames are compared as multisets of hashes: a hash that occurs more often in one of them
//! marks every primitive carrying it as changed, in both, and the rectangles of those primitives
//! are damaged. Damaging too much only costs time; damaging too little leaves stale pixels on the
//! screen, so every judgement is made in the direction of too much.

use std::collections::HashMap;

use rustc_hash::FxBuildHasher;
use vstd::prelude::*;
use zgui_bits::DamageSet;

use crate::fraction::is_past_share;
use crate::fraction::law_share_grows_with_damage;
use crate::fraction::past_share;
use crate::fx::fx_clear;
use crate::fx::fx_get;
use crate::fx::fx_insert;
use crate::fx::fx_map;
use crate::geom::Rect;
use crate::region::absorb;
use crate::region::absorb_set;
use crate::region::contains;
use crate::region::damage_for_frame;
use crate::region::damage_none;
use crate::region::intersects;
use crate::region::is_empty;
use crate::region::is_full;
use crate::region::rects;
use crate::region::region;
use crate::region::set_full;
use crate::region::Region;
use crate::region::MAX_DAMAGE;
use crate::snapshot::lemma_snapshot_wf;
use crate::snapshot::snapshot;
use crate::snapshot::snapshot_of;
use crate::snapshot::Entry;
use crate::snapshot::Painting;
use crate::snapshot::Reader;
use crate::snapshot::Snapshot;
use crate::snapshot::SnapshotView;

verus! {

/// Above this many changed primitives, the whole surface is redrawn instead.
pub const MAX_CHANGED: usize = 2048;

/// How many times filter read-extents are propagated before giving up and going full.
pub const FILTER_ROUNDS: usize = 4;

/// How many entries carry `hash`.
pub open spec fn occurrences(entries: Seq<Entry>, hash: u64) -> nat
    decreases entries.len(),
{
    if entries.len() == 0 {
        0
    } else {
        occurrences(entries.drop_last(), hash) + if entries.last().hash == hash {
            1nat
        } else {
            0nat
        }
    }
}

/// Whether `hash` occurs as often in one frame as in the other.
pub open spec fn balanced(previous: Seq<Entry>, frame: Seq<Entry>, hash: u64) -> bool {
    occurrences(previous, hash) == occurrences(frame, hash)
}

/// The rectangles of those of `entries` whose hash is not balanced between the frames, in order.
pub open spec fn unbalanced(
    entries: Seq<Entry>,
    previous: Seq<Entry>,
    frame: Seq<Entry>,
) -> Seq<Rect>
    decreases entries.len(),
{
    if entries.len() == 0 {
        Seq::empty()
    } else {
        let rest = unbalanced(entries.drop_last(), previous, frame);
        if balanced(previous, frame, entries.last().hash) {
            rest
        } else {
            rest.push(entries.last().rect)
        }
    }
}

/// The rectangles that changed between two frames: those of the earlier frame, then those of the
/// later.
pub open spec fn changed(previous: Seq<Entry>, frame: Seq<Entry>) -> Seq<Rect> {
    unbalanced(previous + frame, previous, frame)
}

/// Whether damage reaches what a filter reads without holding all that it reads and writes.
pub open spec fn disturbed(region: Region, reader: Reader) -> bool {
    region.meets(reader.source) && !(region.contains(reader.source) && region.contains(
        reader.writes,
    ))
}

/// Whether every filter that reads damage has all that it reads and all that it writes damaged.
pub open spec fn settled(region: Region, readers: Seq<Reader>) -> bool {
    forall|i: int|
        0 <= i < readers.len() && region.meets((#[trigger] readers[i]).source) ==> region.contains(
            readers[i].source,
        ) && region.contains(readers[i].writes)
}

/// The damage after every filter was asked once, and whether any of them grew it.
pub open spec fn one_round(start: Region, readers: Seq<Reader>) -> (Region, bool)
    decreases readers.len(),
{
    if readers.len() == 0 {
        (start, false)
    } else {
        let (reached, grew) = one_round(start, readers.drop_last());
        if disturbed(reached, readers.last()) {
            (reached.absorb(readers.last().source).absorb(readers.last().writes), true)
        } else {
            (reached, grew)
        }
    }
}

/// The damage after at most `rounds` rounds of growing, and the whole surface where that was not
/// enough.
pub open spec fn grown(start: Region, readers: Seq<Reader>, rounds: nat) -> Region
    decreases rounds,
{
    if rounds == 0 {
        Region::whole()
    } else {
        let (reached, grew) = one_round(start, readers);
        if grew {
            grown(reached, readers, (rounds - 1) as nat)
        } else {
            reached
        }
    }
}

/// The damage grown for what filters read.
pub open spec fn filtered(start: Region, readers: Seq<Reader>) -> Region {
    if readers.len() == 0 || start.full || start.rects.len() == 0 {
        start
    } else {
        grown(start, readers, FILTER_ROUNDS as nat)
    }
}

/// How many pixels the rectangles hold between them, counting a shared pixel once for each.
pub open spec fn total_area(held: Seq<Rect>) -> int
    decreases held.len(),
{
    if held.len() == 0 {
        0
    } else {
        total_area(held.drop_last()) + held.last().area()
    }
}

/// Whether the damage is so much of the surface that one full pass is cheaper.
pub open spec fn crowded(region: Region, surface: Rect) -> bool {
    &&& surface.area() > 0
    &&& past_share(total_area(region.rects) as nat, surface.area() as nat)
}

/// The damage between two frames, added to the damage in `start`.
pub open spec fn compared(
    previous: SnapshotView,
    frame: SnapshotView,
    start: Region,
    surface: Rect,
) -> Region {
    let moved = changed(previous.entries, frame.entries);
    if moved.len() > MAX_CHANGED {
        Region::whole()
    } else {
        let reached = filtered(start.absorb_each(moved).absorb_each(frame.always), frame.readers);
        if !reached.full && crowded(reached, surface) {
            Region::whole()
        } else {
            reached
        }
    }
}

/// Whether `region` holds all that a comparison must damage: every primitive that changed, where it
/// was and where it is, and every surface filled from outside.
pub open spec fn sufficient(
    previous: SnapshotView,
    frame: SnapshotView,
    region: Region,
) -> bool {
    &&& forall|i: int|
        0 <= i < previous.entries.len() && !balanced(
            previous.entries,
            frame.entries,
            previous.entries[i].hash,
        ) ==> region.covers_rect((#[trigger] previous.entries[i]).rect)
    &&& forall|i: int|
        0 <= i < frame.entries.len() && !balanced(
            previous.entries,
            frame.entries,
            frame.entries[i].hash,
        ) ==> region.covers_rect((#[trigger] frame.entries[i]).rect)
    &&& forall|i: int|
        0 <= i < frame.always.len() ==> region.covers_rect(#[trigger] frame.always[i])
}

/// A round that adds nothing leaves the damage as it is, and no filter has anything left to add.
pub proof fn lemma_quiet_round(start: Region, readers: Seq<Reader>)
    ensures
        !one_round(start, readers).1 ==> one_round(start, readers).0 == start && settled(
            start,
            readers,
        ),
    decreases readers.len(),
{
    if readers.len() > 0 {
        lemma_quiet_round(start, readers.drop_last());
        if !one_round(start, readers).1 {
            assert forall|i: int|
                0 <= i < readers.len() && start.meets(
                    (#[trigger] readers[i]).source,
                ) implies start.contains(readers[i].source) && start.contains(
                readers[i].writes,
            ) by {
                if i < readers.len() - 1 {
                    assert(readers.drop_last()[i] == readers[i]);
                }
            }
        }
    }
}

/// Whether every rectangle of `listed` lies in `bounds`.
pub open spec fn all_within(listed: Seq<Rect>, bounds: Rect) -> bool {
    forall|i: int| 0 <= i < listed.len() ==> bounds.contains(#[trigger] listed[i])
}

/// Whether damage reached no further than it had to: where `before` and all that was added lie in
/// some rectangle, so does `after`, unless it is the whole surface.
pub open spec fn confined(before: Region, added: Seq<Rect>, after: Region) -> bool {
    forall|bounds: Rect|
        before.within(bounds) && all_within(added, bounds) ==> #[trigger] after.within(bounds)
}

/// What the filters read and what they write.
pub open spec fn extents(readers: Seq<Reader>) -> Seq<Rect> {
    readers.map_values(|reader: Reader| reader.source) + readers.map_values(
        |reader: Reader| reader.writes,
    )
}

proof fn lemma_confined_trans(
    first: Region,
    one: Seq<Rect>,
    second: Region,
    two: Seq<Rect>,
    third: Region,
)
    requires
        confined(first, one, second),
        confined(second, two, third),
    ensures
        confined(first, one + two, third),
{
    assert forall|bounds: Rect| first.within(bounds) && all_within(
        one + two,
        bounds,
    ) implies #[trigger] third.within(bounds) by {
        assert(all_within(one, bounds)) by {
            assert forall|i: int| 0 <= i < one.len() implies bounds.contains(#[trigger] one[i]) by {
                assert((one + two)[i] == one[i]);
            }
        }
        assert(all_within(two, bounds)) by {
            assert forall|i: int| 0 <= i < two.len() implies bounds.contains(#[trigger] two[i]) by {
                assert((one + two)[one.len() + i] == two[i]);
            }
        }
        assert(second.within(bounds));
    }
}

/// Adding one rectangle more confines to what was added before and that one.
proof fn lemma_confined_one(
    start: Region,
    added: Seq<Rect>,
    reached: Region,
    rect: Rect,
    after: Region,
)
    requires
        confined(start, added, reached),
        crate::region::grows_by(reached, rect, after),
    ensures
        confined(start, added.push(rect), after),
{
    assert forall|bounds: Rect| start.within(bounds) && all_within(
        added.push(rect),
        bounds,
    ) implies #[trigger] after.within(bounds) by {
        assert(bounds.contains(added.push(rect)[added.len() as int]));
        assert forall|i: int| 0 <= i < added.len() implies bounds.contains(#[trigger] added[i]) by {
            assert(added.push(rect)[i] == added[i]);
        }
        assert(reached.within(bounds));
    }
}

/// Grows `damage` until it covers everything every filter that is affected reads.
///
/// A filter that samples outside what it writes gives a different result when the pixels it reads
/// change, even though nothing about the filter itself did. One that reads a region which was not
/// redrawn re-reads its own output, and smears a little further every frame; so what it reads is
/// damaged along with what it writes. One filter's output can be another's input, so the growing is
/// repeated, and a chain that does not settle damages everything.
pub fn grow_for_filters(damage: &mut DamageSet, readers: &Vec<Reader>)
    requires
        region(*old(damage)).wf(),
        forall|i: int|
            0 <= i < readers@.len() ==> (#[trigger] readers@[i]).source.on_surface()
                && readers@[i].writes.on_surface(),
    ensures
        region(*final(damage)) == filtered(region(*old(damage)), readers@),
        region(*final(damage)).wf(),
        region(*final(damage)).covers_all(region(*old(damage))),
        region(*final(damage)).full || settled(region(*final(damage)), readers@),
        confined(region(*old(damage)), extents(readers@), region(*final(damage))),
{
    let ghost start = region(*damage);
    if readers.len() == 0 || is_full(damage) || is_empty(damage) {
        return ;
    }
    let mut round: usize = 0;
    while round < FILTER_ROUNDS
        invariant
            round <= FILTER_ROUNDS,
            start == region(*old(damage)),
            region(*damage).wf(),
            region(*damage).covers_all(start),
            confined(start, extents(readers@), region(*damage)),
            filtered(start, readers@) == grown(
                region(*damage),
                readers@,
                (FILTER_ROUNDS - round) as nat,
            ),
            forall|i: int|
                0 <= i < readers@.len() ==> (#[trigger] readers@[i]).source.on_surface()
                    && readers@[i].writes.on_surface(),
        decreases FILTER_ROUNDS - round,
    {
        let ghost before = region(*damage);
        let mut grew = false;
        let mut i: usize = 0;
        proof {
            assert(readers@.take(0).len() == 0);
        }
        while i < readers.len()
            invariant
                i <= readers@.len(),
                region(*damage).wf(),
                region(*damage).covers_all(start),
                confined(start, extents(readers@), region(*damage)),
                (region(*damage), grew) == one_round(before, readers@.take(i as int)),
                forall|i: int|
                    0 <= i < readers@.len() ==> (#[trigger] readers@[i]).source.on_surface()
                        && readers@[i].writes.on_surface(),
            decreases readers@.len() - i,
        {
            let reader = readers[i];
            proof {
                assert(readers@.take(i + 1).drop_last() =~= readers@.take(i as int));
            }
            let ghost reached = region(*damage);
            if intersects(damage, reader.source) && !(contains(damage, reader.source) && contains(
                damage,
                reader.writes,
            )) {
                absorb(damage, reader.source);
                let ghost between = region(*damage);
                absorb(damage, reader.writes);
                grew = true;
                proof {
                    assert(between =~= reached.absorb(reader.source));
                    assert(region(*damage) =~= between.absorb(reader.writes));
                    lemma_covers_trans(start, reached, between);
                    assert forall|bounds: Rect| start.within(bounds) && all_within(
                        extents(readers@),
                        bounds,
                    ) implies #[trigger] region(*damage).within(bounds) by {
                        assert(bounds.contains(extents(readers@)[i as int]));
                        assert(bounds.contains(extents(readers@)[readers@.len() + i]));
                        assert(reached.within(bounds));
                        assert(between.within(bounds));
                    }
                }
            }
            i = i + 1;
        }
        proof {
            assert(readers@.take(i as int) =~= readers@);
            lemma_quiet_round(before, readers@);
        }
        if !grew {
            return ;
        }
        round = round + 1;
    }
    set_full(damage);
}

/// What a count of zero stands for is not kept in the table.
spec fn count_of(counts: Map<u64, i32>, hash: u64) -> int {
    if counts.dom().contains(hash) {
        counts[hash] as int
    } else {
        0
    }
}

spec fn counts_difference(counts: Map<u64, i32>, more: Seq<Entry>, fewer: Seq<Entry>) -> bool {
    forall|hash: u64| #[trigger]
        count_of(counts, hash) == occurrences(more, hash) - occurrences(fewer, hash)
}

proof fn lemma_occurrences_bound(entries: Seq<Entry>, hash: u64)
    ensures
        occurrences(entries, hash) <= entries.len(),
    decreases entries.len(),
{
    if entries.len() > 0 {
        lemma_occurrences_bound(entries.drop_last(), hash);
    }
}

/// Counts how much more often each hash occurs in the earlier frame than in the later.
fn count(
    counts: &mut HashMap<u64, i32, FxBuildHasher>,
    previous: &Vec<Entry>,
    frame: &Vec<Entry>,
)
    requires
        previous@.len() <= i32::MAX,
        frame@.len() <= i32::MAX,
    ensures
        counts_difference(final(counts)@, previous@, frame@),
{
    fx_clear(counts);
    let mut i: usize = 0;
    while i < previous.len()
        invariant
            i <= previous@.len() <= i32::MAX,
            counts_difference(counts@, previous@.take(i as int), Seq::empty()),
        decreases previous@.len() - i,
    {
        let hash = previous[i].hash;
        let ghost before = counts@;
        let ghost next = previous@.take(i + 1);
        let seen: i32 = match fx_get(counts, &hash) {
            Some(seen) => seen,
            None => 0,
        };
        proof {
            assert(seen == count_of(before, hash));
            lemma_occurrences_bound(previous@.take(i as int), hash);
        }
        fx_insert(counts, hash, seen + 1);
        proof {
            assert(next.drop_last() =~= previous@.take(i as int));
            assert forall|other: u64| #[trigger] count_of(counts@, other) == occurrences(
                next,
                other,
            ) - occurrences(Seq::empty(), other) by {
                assert(count_of(before, other) == occurrences(previous@.take(i as int), other)
                    - occurrences(Seq::empty(), other));
            }
        }
        i = i + 1;
    }
    proof {
        assert(previous@.take(i as int) =~= previous@);
        assert(frame@.take(0) =~= Seq::empty());
    }
    let mut j: usize = 0;
    while j < frame.len()
        invariant
            j <= frame@.len() <= i32::MAX,
            previous@.len() <= i32::MAX,
            counts_difference(counts@, previous@, frame@.take(j as int)),
        decreases frame@.len() - j,
    {
        let hash = frame[j].hash;
        let ghost before = counts@;
        let ghost next = frame@.take(j + 1);
        let seen: i32 = match fx_get(counts, &hash) {
            Some(seen) => seen,
            None => 0,
        };
        proof {
            assert(seen == count_of(before, hash));
            lemma_occurrences_bound(frame@.take(j as int), hash);
        }
        fx_insert(counts, hash, seen - 1);
        proof {
            assert(next.drop_last() =~= frame@.take(j as int));
            assert forall|other: u64| #[trigger] count_of(counts@, other) == occurrences(
                previous@,
                other,
            ) - occurrences(next, other) by {
                assert(count_of(before, other) == occurrences(previous@, other) - occurrences(
                    frame@.take(j as int),
                    other,
                ));
            }
        }
        j = j + 1;
    }
    proof {
        assert(frame@.take(j as int) =~= frame@);
    }
}

/// The later of two regions covers what the earlier covers.
proof fn lemma_covers_trans(first: Region, second: Region, third: Region)
    requires
        second.covers_all(first),
        third.covers_all(second),
    ensures
        third.covers_all(first),
{
}

proof fn lemma_covers_rect_trans(rect: Rect, second: Region, third: Region)
    requires
        second.covers_rect(rect),
        third.covers_all(second),
    ensures
        third.covers_rect(rect),
{
}

/// Damages every one of `entries` that changed, until there are too many of them. The count starts
/// at `seen`; the answer is the count reached, or nothing where there were too many.
fn damage_changed(
    counts: &HashMap<u64, i32, FxBuildHasher>,
    entries: &Vec<Entry>,
    seen: usize,
    damage: &mut DamageSet,
    previous: &Vec<Entry>,
    frame: &Vec<Entry>,
) -> (reached: Option<usize>)
    requires
        counts_difference(counts@, previous@, frame@),
        seen <= MAX_CHANGED,
        region(*old(damage)).wf(),
        forall|i: int| 0 <= i < entries@.len() ==> (#[trigger] entries@[i]).rect.on_surface(),
    ensures
        ({
            let moved = unbalanced(entries@, previous@, frame@);
            match reached {
                Some(total) => {
                    &&& total == seen + moved.len()
                    &&& total <= MAX_CHANGED
                    &&& region(*final(damage)) == region(*old(damage)).absorb_each(moved)
                    &&& region(*final(damage)).wf()
                    &&& region(*final(damage)).covers_all(region(*old(damage)))
                    &&& confined(region(*old(damage)), moved, region(*final(damage)))
                    &&& forall|i: int|
                        0 <= i < entries@.len() && !balanced(
                            previous@,
                            frame@,
                            entries@[i].hash,
                        ) ==> region(*final(damage)).covers_rect((#[trigger] entries@[i]).rect)
                },
                None => {
                    &&& seen + moved.len() > MAX_CHANGED
                    &&& region(*final(damage)) == Region::whole()
                },
            }
        }),
{
    let ghost start = region(*damage);
    let mut total: usize = seen;
    let mut i: usize = 0;
    proof {
        assert(entries@.take(0).len() == 0);
    }
    while i < entries.len()
        invariant
            i <= entries@.len(),
            start == region(*old(damage)),
            counts_difference(counts@, previous@, frame@),
            forall|i: int| 0 <= i < entries@.len() ==> (#[trigger] entries@[i]).rect.on_surface(),
            total <= MAX_CHANGED,
            total == seen + unbalanced(entries@.take(i as int), previous@, frame@).len(),
            region(*damage) == start.absorb_each(
                unbalanced(entries@.take(i as int), previous@, frame@),
            ),
            region(*damage).wf(),
            region(*damage).covers_all(start),
            confined(
                start,
                unbalanced(entries@.take(i as int), previous@, frame@),
                region(*damage),
            ),
            forall|k: int|
                0 <= k < i && !balanced(previous@, frame@, entries@[k].hash) ==> region(
                    *damage,
                ).covers_rect((#[trigger] entries@[k]).rect),
        decreases entries@.len() - i,
    {
        let entry = entries[i];
        let ghost done = unbalanced(entries@.take(i as int), previous@, frame@);
        proof {
            assert(entries@.take(i + 1).drop_last() =~= entries@.take(i as int));
            assert(count_of(counts@, entry.hash) == occurrences(previous@, entry.hash)
                - occurrences(frame@, entry.hash));
        }
        let difference: i32 = match fx_get(counts, &entry.hash) {
            Some(difference) => difference,
            None => 0,
        };
        if difference != 0 {
            total = total + 1;
            if total > MAX_CHANGED {
                set_full(damage);
                proof {
                    lemma_unbalanced_grows(entries@, i + 1, previous@, frame@);
                }
                return None;
            }
            let ghost before = region(*damage);
            absorb(damage, entry.rect);
            proof {
                assert(region(*damage) =~= before.absorb(entry.rect));
                assert(done.push(entry.rect).drop_last() =~= done);
                lemma_confined_one(start, done, before, entry.rect, region(*damage));
                assert forall|k: int|
                    0 <= k < i + 1 && !balanced(previous@, frame@, entries@[k].hash) implies region(
                    *damage,
                ).covers_rect((#[trigger] entries@[k]).rect) by {
                    if k < i {
                        lemma_covers_rect_trans(entries@[k].rect, before, region(*damage));
                    }
                }
            }
        }
        i = i + 1;
    }
    proof {
        assert(entries@.take(i as int) =~= entries@);
    }
    Some(total)
}

proof fn lemma_unbalanced_grows(
    entries: Seq<Entry>,
    upto: int,
    previous: Seq<Entry>,
    frame: Seq<Entry>,
)
    requires
        0 <= upto <= entries.len(),
    ensures
        unbalanced(entries.take(upto), previous, frame).len() <= unbalanced(
            entries,
            previous,
            frame,
        ).len(),
    decreases entries.len(),
{
    if upto < entries.len() {
        lemma_unbalanced_grows(entries.drop_last(), upto, previous, frame);
        assert(entries.drop_last().take(upto) =~= entries.take(upto));
    } else {
        assert(entries.take(upto) =~= entries);
    }
}

/// The changed entries of two lists one after the other are those of the first and those of the
/// second.
pub proof fn lemma_unbalanced_concat(
    first: Seq<Entry>,
    second: Seq<Entry>,
    previous: Seq<Entry>,
    frame: Seq<Entry>,
)
    ensures
        unbalanced(first + second, previous, frame) == unbalanced(first, previous, frame)
            + unbalanced(second, previous, frame),
    decreases second.len(),
{
    if second.len() == 0 {
        assert(first + second =~= first);
        assert(unbalanced(first, previous, frame) + Seq::<Rect>::empty() =~= unbalanced(
            first,
            previous,
            frame,
        ));
    } else {
        lemma_unbalanced_concat(first, second.drop_last(), previous, frame);
        assert((first + second).drop_last() =~= first + second.drop_last());
        assert((first + second).last() == second.last());
        assert(unbalanced(first + second, previous, frame) =~= unbalanced(first, previous, frame)
            + unbalanced(second, previous, frame));
    }
}

proof fn lemma_absorb_each_concat(start: Region, first: Seq<Rect>, second: Seq<Rect>)
    ensures
        start.absorb_each(first + second) == start.absorb_each(first).absorb_each(second),
    decreases second.len(),
{
    if second.len() == 0 {
        assert(first + second =~= first);
    } else {
        lemma_absorb_each_concat(start, first, second.drop_last());
        assert((first + second).drop_last() =~= first + second.drop_last());
        assert((first + second).last() == second.last());
    }
}

/// Whether the damage is past the share of the surface that is worth redrawing in parts.
fn is_crowded(damage: &DamageSet, surface: Rect) -> (past: bool)
    requires
        region(*damage).wf(),
    ensures
        past == crowded(region(*damage), surface),
{
    let held = rects(damage);
    let mut damaged: u128 = 0;
    let mut i: usize = 0;
    proof {
        assert(held@.take(0).len() == 0);
    }
    while i < held.len()
        invariant
            i <= held@.len() <= 6,
            forall|k: int|
                0 <= k < held@.len() ==> (#[trigger] held@[k]).width > 0 && held@[k].height > 0,
            damaged == total_area(held@.take(i as int)),
            damaged <= i * 0x4000_0000_0000_0000,
        decreases held@.len() - i,
    {
        let rect = held[i];
        proof {
            assert(held@.take(i + 1).drop_last() =~= held@.take(i as int));
            assert(rect.width > 0 && rect.height > 0);
            assert(0 < rect.width * rect.height <= 0x4000_0000_0000_0000) by (nonlinear_arith)
                requires
                    0 < rect.width <= 0x7fff_ffff,
                    0 < rect.height <= 0x7fff_ffff,
            ;
        }
        damaged = damaged + (rect.width as u128) * (rect.height as u128);
        i = i + 1;
    }
    proof {
        assert(held@.take(i as int) =~= held@);
        assert(-0x4000_0000_0000_0000 <= surface.width * surface.height <= 0x4000_0000_0000_0000)
            by (nonlinear_arith)
            requires
                -0x8000_0000 <= surface.width <= 0x7fff_ffff,
                -0x8000_0000 <= surface.height <= 0x7fff_ffff,
        ;
    }
    let total: i64 = (surface.width as i64) * (surface.height as i64);
    total > 0 && is_past_share(damaged, total as u128)
}

/// Damages every rectangle of `listed`.
fn damage_each(damage: &mut DamageSet, listed: &Vec<Rect>)
    requires
        region(*old(damage)).wf(),
        forall|i: int| 0 <= i < listed@.len() ==> (#[trigger] listed@[i]).on_surface(),
    ensures
        region(*final(damage)) == region(*old(damage)).absorb_each(listed@),
        region(*final(damage)).wf(),
        region(*final(damage)).covers_all(region(*old(damage))),
        confined(region(*old(damage)), listed@, region(*final(damage))),
        forall|i: int|
            0 <= i < listed@.len() ==> region(*final(damage)).covers_rect(#[trigger] listed@[i]),
{
    let ghost start = region(*damage);
    let mut i: usize = 0;
    proof {
        assert(listed@.take(0).len() == 0);
    }
    while i < listed.len()
        invariant
            i <= listed@.len(),
            start == region(*old(damage)),
            forall|i: int| 0 <= i < listed@.len() ==> (#[trigger] listed@[i]).on_surface(),
            region(*damage) == start.absorb_each(listed@.take(i as int)),
            region(*damage).wf(),
            region(*damage).covers_all(start),
            confined(start, listed@.take(i as int), region(*damage)),
            forall|k: int|
                0 <= k < i ==> region(*damage).covers_rect(#[trigger] listed@[k]),
        decreases listed@.len() - i,
    {
        let ghost before = region(*damage);
        absorb(damage, listed[i]);
        proof {
            assert(region(*damage) =~= before.absorb(listed@[i as int]));
            assert(listed@.take(i + 1).drop_last() =~= listed@.take(i as int));
            lemma_confined_one(
                start,
                listed@.take(i as int),
                before,
                listed@[i as int],
                region(*damage),
            );
            assert(listed@.take(i as int).push(listed@[i as int]) =~= listed@.take(i + 1));
            assert forall|k: int| 0 <= k < i + 1 implies region(*damage).covers_rect(
                #[trigger] listed@[k],
            ) by {
                if k < i {
                    lemma_covers_rect_trans(listed@[k], before, region(*damage));
                }
            }
        }
        i = i + 1;
    }
    proof {
        assert(listed@.take(i as int) =~= listed@);
    }
}

/// The rectangles a comparison may damage: those that changed, those filled from outside and those
/// that filters read or write.
pub open spec fn reachable(previous: SnapshotView, frame: SnapshotView) -> Seq<Rect> {
    changed(previous.entries, frame.entries) + frame.always + extents(frame.readers)
}

/// Whether the difference between two frames is small: few enough primitives changed, those that
/// did, what is filled from outside and what is damaged in any case lie in `bounds`, no filter
/// reads there, and even as many rectangles of that size as a damage set holds are not most of the
/// surface.
pub open spec fn small_change(
    previous: SnapshotView,
    frame: SnapshotView,
    start: Region,
    bounds: Rect,
    surface: Rect,
) -> bool {
    let moved = changed(previous.entries, frame.entries);
    &&& moved.len() <= MAX_CHANGED
    &&& !start.full
    &&& start.within(bounds)
    &&& all_within(moved, bounds)
    &&& all_within(frame.always, bounds)
    &&& forall|i: int|
        0 <= i < frame.readers.len() ==> !bounds.meets((#[trigger] frame.readers[i]).source)
    &&& bounds.has_area()
    &&& surface.area() > 0 ==> !past_share(
        (MAX_DAMAGE * bounds.area()) as nat,
        surface.area() as nat,
    )
}

/// Whether a small difference is redrawn in parts: `after` is the whole surface for none, and stays
/// where the difference is.
pub open spec fn kept_small(
    previous: SnapshotView,
    frame: SnapshotView,
    start: Region,
    surface: Rect,
    after: Region,
) -> bool {
    forall|bounds: Rect| #[trigger]
        small_change(previous, frame, start, bounds, surface) ==> !after.full && after.within(
            bounds,
        )
}

/// Rectangles that lie in `bounds` hold no more pixels between them than as many of that size.
proof fn lemma_area_within(held: Seq<Rect>, bounds: Rect)
    requires
        all_within(held, bounds),
        forall|i: int| 0 <= i < held.len() ==> (#[trigger] held[i]).has_area(),
        bounds.has_area(),
    ensures
        0 <= total_area(held) <= held.len() * bounds.area(),
    decreases held.len(),
{
    if held.len() > 0 {
        let rest = held.drop_last();
        let last = held.last();
        assert forall|i: int| 0 <= i < rest.len() implies bounds.contains(#[trigger] rest[i])
            && rest[i].has_area() by {
            assert(rest[i] == held[i]);
        }
        lemma_area_within(rest, bounds);
        assert(bounds.contains(held[held.len() - 1]) && held[held.len() - 1].has_area());
        assert(0 < last.area() <= bounds.area()) by (nonlinear_arith)
            requires
                0 < last.width <= bounds.width,
                0 < last.height <= bounds.height,
                last.area() == last.width * last.height,
                bounds.area() == bounds.width * bounds.height,
        ;
        assert(held.len() * bounds.area() == rest.len() * bounds.area() + bounds.area())
            by (nonlinear_arith)
            requires
                held.len() == rest.len() + 1,
        ;
    }
}

/// Adding rectangles to damage that is not everything does not make it everything.
pub proof fn lemma_absorb_each_partial(start: Region, listed: Seq<Rect>)
    requires
        !start.full,
    ensures
        !start.absorb_each(listed).full,
    decreases listed.len(),
{
    if listed.len() > 0 {
        lemma_absorb_each_partial(start, listed.drop_last());
    }
}

/// Where no filter reads what is damaged, filters add nothing.
proof fn lemma_unread(region: Region, readers: Seq<Reader>, bounds: Rect)
    requires
        !region.full,
        region.within(bounds),
        forall|i: int| 0 <= i < region.rects.len() ==> (#[trigger] region.rects[i]).has_area(),
        forall|i: int| 0 <= i < readers.len() ==> !bounds.meets((#[trigger] readers[i]).source),
    ensures
        one_round(region, readers) == (region, false),
        filtered(region, readers) == region,
    decreases readers.len(),
{
    if readers.len() > 0 {
        let rest = readers.drop_last();
        assert forall|i: int| 0 <= i < rest.len() implies !bounds.meets(
            (#[trigger] rest[i]).source,
        ) by {
            assert(rest[i] == readers[i]);
        }
        lemma_unread(region, rest, bounds);
        assert(!bounds.meets(readers[readers.len() - 1].source));
        assert(!region.meets(readers.last().source)) by {
            assert forall|i: int| 0 <= i < region.rects.len() implies !(
            #[trigger] region.rects[i]).meets(readers.last().source) by {
                assert(bounds.contains(region.rects[i]));
            }
        }
        reveal_with_fuel(grown, 2);
    }
}

/// Damage that holds a small difference and nothing past its bounds is not most of the surface.
proof fn lemma_small_is_not_crowded(region: Region, bounds: Rect, surface: Rect)
    requires
        region.wf(),
        region.within(bounds),
        bounds.has_area(),
        surface.area() > 0 ==> !past_share(
            (MAX_DAMAGE * bounds.area()) as nat,
            surface.area() as nat,
        ),
    ensures
        !crowded(region, surface),
{
    if surface.area() > 0 {
        lemma_area_within(region.rects, bounds);
        assert(bounds.area() > 0) by (nonlinear_arith)
            requires
                bounds.width > 0,
                bounds.height > 0,
                bounds.area() == bounds.width * bounds.height,
        ;
        assert(region.rects.len() * bounds.area() <= MAX_DAMAGE * bounds.area())
            by (nonlinear_arith)
            requires
                region.rects.len() <= MAX_DAMAGE,
                bounds.area() > 0,
        ;
        if past_share(total_area(region.rects) as nat, surface.area() as nat) {
            law_share_grows_with_damage(
                total_area(region.rects) as nat,
                (MAX_DAMAGE * bounds.area()) as nat,
                surface.area() as nat,
            );
        }
    }
}

/// Derives a damage set for each frame from the one before it.
pub struct Damage {
    previous: Option<Snapshot>,
    /// Damage carried over from frames whose work was not submitted.
    pending: DamageSet,
    /// Set when something outside the scene invalidated the whole surface.
    force_full: bool,
    /// Scratch, kept so that a frame's comparison allocates nothing.
    counts: HashMap<u64, i32, FxBuildHasher>,
    scratch: Snapshot,
}

/// The damage one frame adds: everything where there is nothing to compare with or the comparison
/// was declared void, and otherwise what changed since the last frame.
pub open spec fn frame_damage(
    previous: Option<SnapshotView>,
    forced: bool,
    frame: SnapshotView,
    start: Region,
    surface: Rect,
) -> Region {
    match previous {
        None => Region::whole(),
        Some(previous) => if forced {
            Region::whole()
        } else {
            compared(previous, frame, start, surface)
        },
    }
}

impl Damage {
    /// The frame that the next one is compared with.
    pub closed spec fn previous(self) -> Option<SnapshotView> {
        match self.previous {
            Some(previous) => Some(previous@),
            None => None,
        }
    }

    /// The damage that is still to be redrawn.
    pub closed spec fn pending(self) -> Region {
        region(self.pending)
    }

    /// Whether the next frame must redraw everything.
    pub closed spec fn forced(self) -> bool {
        self.force_full
    }

    /// Whether `after` has every filter of the frame settled, which it has where nothing was left
    /// to redraw: one that reads damage has all that it reads and writes damaged, or everything is.
    pub open spec fn settles(self, frame: SnapshotView, after: Region) -> bool {
        self.pending() == Region::none() ==> after.full || settled(after, frame.readers)
    }

    /// Whether a small difference to the last frame is redrawn in parts: everything is redrawn only
    /// where it was to be anyway, and where what was left to redraw lies with the difference, so
    /// does `after`.
    pub open spec fn restrains(
        self,
        frame: SnapshotView,
        start: Region,
        surface: Rect,
        after: Region,
    ) -> bool {
        self.previous() matches Some(previous) ==> !self.forced() && !self.pending().full
            ==> forall|bounds: Rect| #[trigger]
            small_change(previous, frame, start, bounds, surface) ==> {
                &&& !after.full
                &&& self.pending().within(bounds) ==> after.within(bounds)
            }
    }

    /// Whether what is held is fit for the next comparison.
    pub open spec fn wf(self) -> bool {
        &&& self.pending().wf()
        &&& self.previous() matches Some(previous) ==> previous.wf() && previous.entries.len()
            <= i32::MAX
    }

    /// A comparison that has seen no frame yet.
    pub fn new() -> (damage: Damage)
        ensures
            damage.wf(),
            damage.previous() is None,
            damage.pending() == Region::none(),
            !damage.forced(),
    {
        Damage {
            previous: None,
            pending: damage_none(),
            force_full: false,
            counts: fx_map(),
            scratch: Snapshot::new(),
        }
    }

    /// Declares that the next frame must redraw everything.
    pub fn invalidate(&mut self)
        ensures
            final(self).forced(),
            final(self).previous() == old(self).previous(),
            final(self).pending() == old(self).pending(),
    {
        self.force_full = true;
    }

    /// Records whether a frame's work reached the target, so that its damage need not be redrawn.
    pub fn retire(&mut self, retired: bool)
        ensures
            final(self).pending() == if retired {
                Region::none()
            } else {
                old(self).pending()
            },
            final(self).previous() == old(self).previous(),
            final(self).forced() == old(self).forced(),
    {
        if retired {
            self.pending = damage_none();
        }
    }

    /// The damage for `painting` on a surface of the given size, given everything drawn before it.
    ///
    /// The process's environment can ask for everything to be redrawn every frame, so the damage
    /// starts as nothing or as the whole surface; either way all that changed is in it.
    pub fn damage_for(&mut self, painting: &Painting, width: i32, height: i32) -> (damage:
        DamageSet)
        requires
            old(self).wf(),
            painting.fits((Rect { x: 0, y: 0, width, height })),
            painting.marks().len() <= i32::MAX,
        ensures
            final(self).wf(),
            final(self).previous() == Some(
                snapshot_of(*painting, (Rect { x: 0, y: 0, width, height })),
            ),
            !final(self).forced(),
            final(self).pending() == region(damage),
            ({
                let surface = Rect { x: 0, y: 0, width, height };
                let frame = snapshot_of(*painting, surface);
                let (previous, forced) = (old(self).previous(), old(self).forced());
                ||| {
                    &&& region(damage) == old(self).pending().absorb_region(
                        frame_damage(previous, forced, frame, Region::none(), surface),
                    )
                    &&& old(self).restrains(frame, Region::none(), surface, region(damage))
                }
                ||| region(damage) == old(self).pending().absorb_region(
                    frame_damage(previous, forced, frame, Region::whole(), surface),
                )
            }),
            region(damage).covers_all(old(self).pending()),
            old(self).previous() is None || old(self).forced() ==> region(damage).full,
            old(self).previous() matches Some(previous) ==> sufficient(
                previous,
                snapshot_of(*painting, (Rect { x: 0, y: 0, width, height })),
                region(damage),
            ),
            old(self).settles(
                snapshot_of(*painting, (Rect { x: 0, y: 0, width, height })),
                region(damage),
            ),
    {
        let start = damage_for_frame();
        self.damage_from(painting, width, height, start)
    }

    /// The damage for `painting`, with `start` damaged in any case.
    pub fn damage_from(
        &mut self,
        painting: &Painting,
        width: i32,
        height: i32,
        start: DamageSet,
    ) -> (damage: DamageSet)
        requires
            old(self).wf(),
            region(start).wf(),
            painting.fits((Rect { x: 0, y: 0, width, height })),
            painting.marks().len() <= i32::MAX,
        ensures
            final(self).wf(),
            final(self).previous() == Some(
                snapshot_of(*painting, (Rect { x: 0, y: 0, width, height })),
            ),
            !final(self).forced(),
            final(self).pending() == region(damage),
            ({
                let surface = Rect { x: 0, y: 0, width, height };
                region(damage) == old(self).pending().absorb_region(
                    frame_damage(
                        old(self).previous(),
                        old(self).forced(),
                        snapshot_of(*painting, surface),
                        region(start),
                        surface,
                    ),
                )
            }),
            region(damage).covers_all(old(self).pending()),
            region(damage).covers_all(region(start)),
            old(self).previous() is None || old(self).forced() ==> region(damage).full,
            old(self).previous() matches Some(previous) ==> sufficient(
                previous,
                snapshot_of(*painting, (Rect { x: 0, y: 0, width, height })),
                region(damage),
            ),
            old(self).previous() matches Some(previous) ==> confined(
                Region {
                    full: false,
                    rects: old(self).pending().rects + region(start).rects,
                },
                reachable(
                    previous,
                    snapshot_of(*painting, (Rect { x: 0, y: 0, width, height })),
                ),
                region(damage),
            ),
            old(self).pending() == Region::none() ==> region(damage) == frame_damage(
                old(self).previous(),
                old(self).forced(),
                snapshot_of(*painting, (Rect { x: 0, y: 0, width, height })),
                region(start),
                (Rect { x: 0, y: 0, width, height }),
            ),
            old(self).settles(
                snapshot_of(*painting, (Rect { x: 0, y: 0, width, height })),
                region(damage),
            ),
            old(self).restrains(
                snapshot_of(*painting, (Rect { x: 0, y: 0, width, height })),
                region(start),
                (Rect { x: 0, y: 0, width, height }),
                region(damage),
            ),
    {
        let surface = Rect { x: 0, y: 0, width, height };
        let mut frame = Snapshot::new();
        std::mem::swap(&mut frame, &mut self.scratch);
        frame.clear();
        snapshot(painting, surface, &mut frame);
        proof {
            lemma_snapshot_wf(*painting, surface);
        }
        let mut damage = start;
        let previous = self.previous.take();
        match previous {
            None => {
                set_full(&mut damage);
                self.previous = Some(frame);
            },
            Some(previous) => {
                if self.force_full {
                    set_full(&mut damage);
                } else {
                    self.compare(&previous, &frame, &mut damage, surface);
                }
                self.previous = Some(frame);
                self.scratch = previous;
            },
        }
        self.force_full = false;
        let ghost pending = region(self.pending);
        absorb_set(&mut self.pending, &damage);
        proof {
            if !region(damage).full && !pending.full {
                lemma_absorb_each_partial(pending, region(damage).rects);
            }
            if let Some(earlier) = old(self).previous() {
                lemma_confined_set(
                    pending,
                    region(start),
                    reachable(earlier, snapshot_of(*painting, surface)),
                    region(damage),
                    region(self.pending),
                );
            }
        }
        self.pending
    }

    /// Adds to `damage` everything that differs between two frames.
    fn compare(
        &mut self,
        previous: &Snapshot,
        frame: &Snapshot,
        damage: &mut DamageSet,
        surface: Rect,
    )
        requires
            previous@.wf(),
            frame@.wf(),
            previous@.entries.len() <= i32::MAX,
            frame@.entries.len() <= i32::MAX,
            region(*old(damage)).wf(),
        ensures
            final(self).previous == old(self).previous,
            final(self).pending == old(self).pending,
            final(self).force_full == old(self).force_full,
            final(self).scratch == old(self).scratch,
            region(*final(damage)) == compared(
                previous@,
                frame@,
                region(*old(damage)),
                surface,
            ),
            region(*final(damage)).wf(),
            region(*final(damage)).covers_all(region(*old(damage))),
            sufficient(previous@, frame@, region(*final(damage))),
            confined(region(*old(damage)), reachable(previous@, frame@), region(*final(damage))),
            region(*final(damage)).full || settled(region(*final(damage)), frame@.readers),
            kept_small(
                previous@,
                frame@,
                region(*old(damage)),
                surface,
                region(*final(damage)),
            ),
    {
        let ghost start = region(*damage);
        let ghost one = unbalanced(previous.entries@, previous.entries@, frame.entries@);
        let ghost two = unbalanced(frame.entries@, previous.entries@, frame.entries@);
        proof {
            lemma_unbalanced_concat(
                previous.entries@,
                frame.entries@,
                previous.entries@,
                frame.entries@,
            );
            lemma_absorb_each_concat(start, one, two);
        }
        count(&mut self.counts, &previous.entries, &frame.entries);
        let seen: usize = match damage_changed(
            &self.counts,
            &previous.entries,
            0,
            damage,
            &previous.entries,
            &frame.entries,
        ) {
            Some(seen) => seen,
            None => return ,
        };
        let ghost first = region(*damage);
        match damage_changed(
            &self.counts,
            &frame.entries,
            seen,
            damage,
            &previous.entries,
            &frame.entries,
        ) {
            Some(_) => {},
            None => return ,
        }
        let ghost second = region(*damage);
        damage_each(damage, &frame.always);
        let ghost third = region(*damage);
        proof {
            assert forall|i: int| 0 <= i < frame.readers@.len() implies (
            #[trigger] frame.readers@[i]).source.on_surface()
                && frame.readers@[i].writes.on_surface() by {
                assert(frame@.readers[i] == frame.readers@[i]);
            }
        }
        grow_for_filters(damage, &frame.readers);
        let ghost fourth = region(*damage);
        proof {
            assert(changed(previous.entries@, frame.entries@) == one + two);
            lemma_sufficient(previous@, frame@, start, first, second, third, fourth);
            lemma_confined_trans(start, one, first, two, second);
            lemma_confined_trans(start, one + two, second, frame.always@, third);
            lemma_confined_trans(
                start,
                one + two + frame.always@,
                third,
                extents(frame.readers@),
                fourth,
            );
            assert forall|bounds: Rect| #[trigger]
                small_change(previous@, frame@, start, bounds, surface) implies !fourth.full
                && fourth.within(bounds) && !crowded(fourth, surface) by {
                lemma_absorb_each_partial(start, one + two);
                lemma_absorb_each_partial(second, frame.always@);
                assert(all_within(one + two + frame.always@, bounds)) by {
                    let listed = one + two + frame.always@;
                    assert forall|i: int| 0 <= i < listed.len() implies bounds.contains(
                        #[trigger] listed[i],
                    ) by {
                        if i < (one + two).len() {
                            assert(listed[i] == (one + two)[i]);
                        } else {
                            assert(listed[i] == frame.always@[i - (one + two).len()]);
                        }
                    }
                }
                assert(third.within(bounds));
                lemma_unread(third, frame.readers@, bounds);
                lemma_small_is_not_crowded(fourth, bounds, surface);
            }
        }
        if is_full(damage) {
            return ;
        }
        if is_crowded(damage, surface) {
            set_full(damage);
        }
    }
}

/// Damage that was pending and damage that is confined are confined together.
proof fn lemma_confined_set(
    pending: Region,
    start: Region,
    added: Seq<Rect>,
    damage: Region,
    after: Region,
)
    requires
        damage.full || confined(start, added, damage),
        damage.full ==> damage.rects.len() == 0,
        forall|bounds: Rect|
            pending.within(bounds) && damage.within(bounds) ==> #[trigger] after.within(bounds),
    ensures
        confined(Region { full: false, rects: pending.rects + start.rects }, added, after),
{
    let both = Region { full: false, rects: pending.rects + start.rects };
    assert forall|bounds: Rect| both.within(bounds) && all_within(
        added,
        bounds,
    ) implies #[trigger] after.within(bounds) by {
        assert forall|i: int| 0 <= i < pending.rects.len() implies bounds.contains(
            #[trigger] pending.rects[i],
        ) by {
            assert(both.rects[i] == pending.rects[i]);
        }
        assert forall|i: int| 0 <= i < start.rects.len() implies bounds.contains(
            #[trigger] start.rects[i],
        ) by {
            assert(both.rects[pending.rects.len() + i] == start.rects[i]);
        }
        assert(pending.within(bounds));
        assert(start.within(bounds));
        assert(damage.within(bounds));
    }
}

proof fn lemma_sufficient(
    previous: SnapshotView,
    frame: SnapshotView,
    start: Region,
    first: Region,
    second: Region,
    third: Region,
    fourth: Region,
)
    requires
        first.covers_all(start),
        second.covers_all(first),
        third.covers_all(second),
        fourth.covers_all(third),
        forall|i: int|
            0 <= i < previous.entries.len() && !balanced(
                previous.entries,
                frame.entries,
                previous.entries[i].hash,
            ) ==> first.covers_rect((#[trigger] previous.entries[i]).rect),
        forall|i: int|
            0 <= i < frame.entries.len() && !balanced(
                previous.entries,
                frame.entries,
                frame.entries[i].hash,
            ) ==> second.covers_rect((#[trigger] frame.entries[i]).rect),
        forall|i: int|
            0 <= i < frame.always.len() ==> third.covers_rect(#[trigger] frame.always[i]),
    ensures
        fourth.covers_all(start),
        sufficient(previous, frame, fourth),
{
    lemma_covers_trans(first, second, third);
    lemma_covers_trans(first, third, fourth);
    lemma_covers_trans(start, first, fourth);
    lemma_covers_trans(second, third, fourth);
    assert forall|i: int|
        0 <= i < previous.entries.len() && !balanced(
            previous.entries,
            frame.entries,
            previous.entries[i].hash,
        ) implies fourth.covers_rect((#[trigger] previous.entries[i]).rect) by {
        lemma_covers_rect_trans(previous.entries[i].rect, first, fourth);
    }
    assert forall|i: int|
        0 <= i < frame.entries.len() && !balanced(
            previous.entries,
            frame.entries,
            frame.entries[i].hash,
        ) implies fourth.covers_rect((#[trigger] frame.entries[i]).rect) by {
        lemma_covers_rect_trans(frame.entries[i].rect, second, fourth);
    }
    assert forall|i: int| 0 <= i < frame.always.len() implies fourth.covers_rect(
        #[trigger] frame.always[i],
    ) by {
        lemma_covers_rect_trans(frame.always[i], third, fourth);
    }
}

} // verus!
