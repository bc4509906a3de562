//! A frame reduced to what comparing it with another needs.
//!
//! Every primitive becomes a hash of its identity and the rectangle of whole pixels it paints on
//! the surface. Filters also say what they read, and surfaces filled from outside the scene are
//! listed apart, because nothing about them reveals that their pixels changed.

use vstd::prelude::*;

use crate::fx::hash_bytes;
use crate::fx::hash_of_bytes;
use crate::fx::hash_of_bytes_and_words;
use crate::fx::hash_of_words;
use crate::fx::WordHasher;
use crate::geom::intersection;
use crate::geom::Rect;
use crate::scene::Bounds;
use crate::scene::Corners;

verus! {

/// A primitive identified by its bytes, and the pixels it paints before the surface cuts it off.
#[derive(Clone, Debug)]
pub struct Painted {
    pub bytes: Vec<u8>,
    pub rect: Rect,
}

/// A shadow, with the pixels of its shape and those that its blur reaches.
#[derive(Clone, Debug)]
pub struct PaintedShadow {
    pub bytes: Vec<u8>,
    /// Zero for a drop shadow; anything else for one that paints inside its box.
    pub inset: u32,
    pub shape: Rect,
    pub reached: Rect,
}

/// A corner of a path's triangles: its position and its curve coordinates, as float bits.
#[derive(Clone, Copy, Debug, PartialEq, Eq, Structural)]
pub struct Vertex {
    pub x: u32,
    pub y: u32,
    pub s: u32,
    pub t: u32,
}

/// A path, identified by its draw order, its fill, its clip and its triangles.
#[derive(Clone, Debug)]
pub struct PaintedPath {
    pub order: u32,
    /// The bytes of its fill.
    pub fill: Vec<u8>,
    pub clip: Bounds,
    pub vertices: Vec<Vertex>,
    pub rect: Rect,
}

/// What a filter is over: what lies beneath it, or the group that it opens or closes.
#[derive(Clone, Copy, Debug, PartialEq, Eq, Structural)]
pub enum FilterRole {
    Backdrop,
    GroupStart,
    GroupEnd,
}

/// A filter over what is drawn beneath it or inside it: its identity as float bits, the pixels it
/// writes and the pixels it reads.
#[derive(Clone, Debug)]
pub struct PaintedFilter {
    pub role: FilterRole,
    pub order: u32,
    pub bounds: Bounds,
    pub clip: Bounds,
    pub radii: Corners,
    pub opacity: u32,
    /// The standard deviation of each blur in the chain.
    pub blurs: Vec<u32>,
    pub writes: Rect,
    pub reads: Rect,
}

/// Everything a frame paints.
#[derive(Clone, Debug)]
pub struct Painting {
    pub quads: Vec<Painted>,
    pub underlines: Vec<Painted>,
    pub monochrome_sprites: Vec<Painted>,
    pub subpixel_sprites: Vec<Painted>,
    pub polychrome_sprites: Vec<Painted>,
    pub shadows: Vec<PaintedShadow>,
    pub paths: Vec<PaintedPath>,
    /// Where textures filled from outside the scene are shown.
    pub surfaces: Vec<Rect>,
    pub backdrop_filters: Vec<PaintedFilter>,
    pub filter_boundaries: Vec<PaintedFilter>,
}

/// One primitive, reduced to what the comparison needs.
#[derive(Clone, Copy, Debug, PartialEq, Eq, Structural)]
pub struct Entry {
    /// A hash of all that makes the primitive what it is, including its draw order.
    pub hash: u64,
    /// The pixels it paints on the surface.
    pub rect: Rect,
}

/// A region a filter reads from, and the region whose output changes when it does.
#[derive(Clone, Copy, Debug, PartialEq, Eq, Structural)]
pub struct Reader {
    /// What the filter samples.
    pub source: Rect,
    /// What it writes, which must be redrawn when anything in `source` is.
    pub writes: Rect,
}

/// Everything one frame contributes to the comparison.
pub struct Snapshot {
    pub entries: Vec<Entry>,
    pub readers: Vec<Reader>,
    /// Rectangles that must be damaged whatever the comparison says.
    pub always: Vec<Rect>,
}

/// A snapshot's contents.
#[verifier::ext_equal]
pub struct SnapshotView {
    pub entries: Seq<Entry>,
    pub readers: Seq<Reader>,
    pub always: Seq<Rect>,
}

impl View for Snapshot {
    type V = SnapshotView;

    open spec fn view(&self) -> SnapshotView {
        SnapshotView { entries: self.entries@, readers: self.readers@, always: self.always@ }
    }
}

impl SnapshotView {
    /// Whether every rectangle has pixels in it and lies on the surface.
    pub open spec fn wf(self) -> bool {
        &&& forall|i: int|
            0 <= i < self.entries.len() ==> {
                &&& (#[trigger] self.entries[i]).rect.has_area()
                &&& self.entries[i].rect.on_surface()
            }
        &&& forall|i: int|
            0 <= i < self.readers.len() ==> {
                &&& (#[trigger] self.readers[i]).source.has_area()
                &&& self.readers[i].source.on_surface()
                &&& self.readers[i].writes.has_area()
                &&& self.readers[i].writes.on_surface()
            }
        &&& forall|i: int|
            0 <= i < self.always.len() ==> {
                &&& (#[trigger] self.always[i]).has_area()
                &&& self.always[i].on_surface()
            }
    }
}

impl PaintedShadow {
    /// The pixels the shadow paints: its shape for one inside its box, and for a drop shadow all
    /// that its blur reaches.
    pub open spec fn spec_painted(self) -> Rect {
        if self.inset != 0 {
            self.shape
        } else {
            self.reached
        }
    }

    /// The pixels the shadow paints.
    pub fn painted(&self) -> (rect: Rect)
        ensures
            rect == self.spec_painted(),
    {
        if self.inset != 0 {
            self.shape
        } else {
            self.reached
        }
    }
}

/// The numbers that identify a path's triangles.
pub open spec fn vertex_words(vertices: Seq<Vertex>) -> Seq<u64>
    decreases vertices.len(),
{
    if vertices.len() == 0 {
        Seq::empty()
    } else {
        let last = vertices.last();
        vertex_words(vertices.drop_last()).push(last.x as u64).push(last.y as u64).push(
            last.s as u64,
        ).push(last.t as u64)
    }
}

/// The numbers that identify a path, apart from its fill.
pub open spec fn path_words(path: PaintedPath) -> Seq<u64> {
    seq![
        path.order as u64,
        path.clip.x as u64,
        path.clip.y as u64,
        path.clip.width as u64,
        path.clip.height as u64,
    ] + vertex_words(path.vertices@)
}

/// The numbers that identify a chain of blurs.
pub open spec fn blur_words(blurs: Seq<u32>) -> Seq<u64>
    decreases blurs.len(),
{
    if blurs.len() == 0 {
        Seq::empty()
    } else {
        blur_words(blurs.drop_last()).push(0).push(blurs.last() as u64)
    }
}

/// The number of a filter's role.
pub open spec fn role_word(role: FilterRole) -> u32 {
    match role {
        FilterRole::Backdrop => 0,
        FilterRole::GroupStart => 1,
        FilterRole::GroupEnd => 2,
    }
}

/// The numbers that identify a filter apart from its blurs.
pub open spec fn filter_head(filter: PaintedFilter) -> Seq<u64> {
    seq![
        role_word(filter.role) as u64,
        filter.order as u64,
        filter.bounds.x as u64,
        filter.bounds.y as u64,
        filter.bounds.width as u64,
        filter.bounds.height as u64,
        filter.clip.x as u64,
        filter.clip.y as u64,
        filter.clip.width as u64,
        filter.clip.height as u64,
        filter.radii.top_left as u64,
        filter.radii.top_right as u64,
        filter.radii.bottom_right as u64,
        filter.radii.bottom_left as u64,
        filter.opacity as u64,
    ]
}

/// The numbers that identify a filter.
pub open spec fn filter_words(filter: PaintedFilter) -> Seq<u64> {
    filter_head(filter) + blur_words(filter.blurs@)
}

/// The hash an entry carries for a primitive whose own hash is `identity`.
pub open spec fn rehash(identity: u64) -> u64 {
    hash_of_bytes(vstd::bytes::spec_u64_to_le_bytes(identity))
}

/// All that makes a primitive what it is, its draw order included.
pub enum Identity {
    /// Its bytes.
    Bytes(Seq<u8>),
    /// A path's fill, and its other numbers.
    Path { fill: Seq<u8>, words: Seq<u64> },
    /// A filter's numbers.
    Filter(Seq<u64>),
}

/// The hash an entry carries for a primitive.
pub open spec fn hash_of(identity: Identity) -> u64 {
    match identity {
        Identity::Bytes(bytes) => hash_of_bytes(bytes),
        Identity::Path { fill, words } => rehash(hash_of_bytes_and_words(fill, words)),
        Identity::Filter(words) => rehash(hash_of_words(words)),
    }
}

/// A primitive, and the pixels it paints.
pub struct Primitive {
    pub identity: Identity,
    pub rect: Rect,
}

/// The primitive that is identified by its bytes.
pub open spec fn primitive_painted(item: Painted) -> Primitive {
    Primitive { identity: Identity::Bytes(item.bytes@), rect: item.rect }
}

/// The primitive of a shadow.
pub open spec fn primitive_shadow(item: PaintedShadow) -> Primitive {
    Primitive { identity: Identity::Bytes(item.bytes@), rect: item.spec_painted() }
}

/// The primitive of a path.
pub open spec fn primitive_path(item: PaintedPath) -> Primitive {
    Primitive {
        identity: Identity::Path { fill: item.fill@, words: path_words(item) },
        rect: item.rect,
    }
}

/// The primitive of a filter.
pub open spec fn primitive_filter(item: PaintedFilter) -> Primitive {
    Primitive { identity: Identity::Filter(filter_words(item)), rect: item.writes }
}

/// What the comparison knows of a primitive.
pub open spec fn mark_of(primitive: Primitive) -> Mark {
    Mark { hash: hash_of(primitive.identity), rect: primitive.rect }
}

/// What the comparison knows of a primitive before the surface cuts it off.
pub struct Mark {
    pub hash: u64,
    pub rect: Rect,
}

/// The mark of a primitive that is hashed by its bytes.
pub open spec fn mark_painted(item: Painted) -> Mark {
    Mark { hash: hash_of_bytes(item.bytes@), rect: item.rect }
}

/// The mark of a shadow, which paints more than its shape.
pub open spec fn mark_shadow(item: PaintedShadow) -> Mark {
    Mark { hash: hash_of_bytes(item.bytes@), rect: item.spec_painted() }
}

/// The mark of a path, hashed by its fill, its order, its clip and its corners.
pub open spec fn mark_path(item: PaintedPath) -> Mark {
    Mark {
        hash: rehash(hash_of_bytes_and_words(item.fill@, path_words(item))),
        rect: item.rect,
    }
}

/// The mark of a filter, hashed by its role, its order, its place, its clip, its corners, its
/// opacity and its blurs.
pub open spec fn mark_filter(item: PaintedFilter) -> Mark {
    Mark { hash: rehash(hash_of_words(filter_words(item))), rect: item.writes }
}

impl Painting {
    /// Every primitive, kind by kind.
    pub open spec fn primitives(self) -> Seq<Primitive> {
        self.quads@.map_values(|item: Painted| primitive_painted(item))
            + self.underlines@.map_values(|item: Painted| primitive_painted(item))
            + self.monochrome_sprites@.map_values(|item: Painted| primitive_painted(item))
            + self.subpixel_sprites@.map_values(|item: Painted| primitive_painted(item))
            + self.polychrome_sprites@.map_values(|item: Painted| primitive_painted(item))
            + self.shadows@.map_values(|item: PaintedShadow| primitive_shadow(item))
            + self.paths@.map_values(|item: PaintedPath| primitive_path(item))
            + self.backdrop_filters@.map_values(|item: PaintedFilter| primitive_filter(item))
            + self.filter_boundaries@.map_values(|item: PaintedFilter| primitive_filter(item))
    }

    /// Every primitive's mark, kind by kind.
    pub open spec fn marks(self) -> Seq<Mark> {
        self.quads@.map_values(|item: Painted| mark_painted(item)) + self.underlines@.map_values(
            |item: Painted| mark_painted(item),
        ) + self.monochrome_sprites@.map_values(|item: Painted| mark_painted(item))
            + self.subpixel_sprites@.map_values(|item: Painted| mark_painted(item))
            + self.polychrome_sprites@.map_values(|item: Painted| mark_painted(item))
            + self.shadows@.map_values(|item: PaintedShadow| mark_shadow(item))
            + self.paths@.map_values(|item: PaintedPath| mark_path(item))
            + self.backdrop_filters@.map_values(|item: PaintedFilter| mark_filter(item))
            + self.filter_boundaries@.map_values(|item: PaintedFilter| mark_filter(item))
    }

    /// Every filter, those over a backdrop first.
    pub open spec fn filters(self) -> Seq<PaintedFilter> {
        self.backdrop_filters@ + self.filter_boundaries@
    }

    /// Whether every rectangle of the painting can be cut off by `surface` without leaving the
    /// coordinate range.
    pub open spec fn fits(self, surface: Rect) -> bool {
        &&& forall|i: int|
            0 <= i < self.marks().len() ==> (#[trigger] self.marks()[i]).rect.comparable(surface)
        &&& forall|i: int|
            0 <= i < self.surfaces@.len() ==> (#[trigger] self.surfaces@[i]).comparable(surface)
        &&& forall|i: int|
            0 <= i < self.filters().len() ==> (#[trigger] self.filters()[i]).reads.comparable(
                surface,
            )
    }
}

/// The part of each rectangle that lies on `surface`, leaving out what lies wholly off it.
pub open spec fn visible(rects: Seq<Rect>, surface: Rect) -> Seq<Rect>
    decreases rects.len(),
{
    if rects.len() == 0 {
        Seq::empty()
    } else {
        let rest = visible(rects.drop_last(), surface);
        match rects.last().common(surface) {
            Some(rect) => rest.push(rect),
            None => rest,
        }
    }
}

/// The entries of a sequence of marks, leaving out what lies wholly off `surface`.
pub open spec fn entries_of(marks: Seq<Mark>, surface: Rect) -> Seq<Entry>
    decreases marks.len(),
{
    if marks.len() == 0 {
        Seq::empty()
    } else {
        let rest = entries_of(marks.drop_last(), surface);
        match marks.last().rect.common(surface) {
            Some(rect) => rest.push(Entry { hash: marks.last().hash, rect }),
            None => rest,
        }
    }
}

/// The primitives that show on `surface`, each with the pixels it paints there.
pub open spec fn shown_on(primitives: Seq<Primitive>, surface: Rect) -> Seq<Primitive>
    decreases primitives.len(),
{
    if primitives.len() == 0 {
        Seq::empty()
    } else {
        let rest = shown_on(primitives.drop_last(), surface);
        match primitives.last().rect.common(surface) {
            Some(rect) => rest.push(Primitive { identity: primitives.last().identity, rect }),
            None => rest,
        }
    }
}

/// The entry of a primitive that shows.
pub open spec fn entry_of(primitive: Primitive) -> Entry {
    Entry { hash: hash_of(primitive.identity), rect: primitive.rect }
}

/// A snapshot's entries are those of the primitives that show.
pub proof fn lemma_entries_of_primitives(painting: Painting, surface: Rect)
    ensures
        snapshot_of(painting, surface).entries == shown_on(
            painting.primitives(),
            surface,
        ).map_values(|primitive: Primitive| entry_of(primitive)),
{
    let primitives = painting.primitives();
    let marks = primitives.map_values(|primitive: Primitive| mark_of(primitive));
    assert(painting.marks() =~= marks);
    lemma_entries_of_marks(primitives, surface);
}

proof fn lemma_entries_of_marks(primitives: Seq<Primitive>, surface: Rect)
    ensures
        entries_of(primitives.map_values(|primitive: Primitive| mark_of(primitive)), surface)
            == shown_on(primitives, surface).map_values(
            |primitive: Primitive| entry_of(primitive),
        ),
    decreases primitives.len(),
{
    let marks = primitives.map_values(|primitive: Primitive| mark_of(primitive));
    if primitives.len() > 0 {
        let rest = primitives.drop_last();
        lemma_entries_of_marks(rest, surface);
        assert(marks.drop_last() =~= rest.map_values(|primitive: Primitive| mark_of(primitive)));
        assert(marks.last() == mark_of(primitives.last()));
    }
    assert(entries_of(marks, surface) =~= shown_on(primitives, surface).map_values(
        |primitive: Primitive| entry_of(primitive),
    ));
}

/// What each filter reads and writes on `surface`, leaving out a filter of which either lies
/// wholly off it.
pub open spec fn readers_of(filters: Seq<PaintedFilter>, surface: Rect) -> Seq<Reader>
    decreases filters.len(),
{
    if filters.len() == 0 {
        Seq::empty()
    } else {
        let rest = readers_of(filters.drop_last(), surface);
        match (filters.last().writes.common(surface), filters.last().reads.common(surface)) {
            (Some(writes), Some(source)) => rest.push(Reader { source, writes }),
            _ => rest,
        }
    }
}

/// What a frame contributes to the comparison on `surface`.
pub open spec fn snapshot_of(painting: Painting, surface: Rect) -> SnapshotView {
    SnapshotView {
        entries: entries_of(painting.marks(), surface),
        readers: readers_of(painting.filters(), surface),
        always: visible(painting.surfaces@, surface),
    }
}

/// A path's identity.
pub fn hash_path(path: &PaintedPath) -> (hash: u64)
    ensures
        hash == hash_of_bytes_and_words(path.fill@, path_words(*path)),
{
    let mut hasher = WordHasher::after_bytes(path.fill.as_slice());
    let ghost start = hasher.start();
    hasher.feed(path.order);
    hasher.feed(path.clip.x);
    hasher.feed(path.clip.y);
    hasher.feed(path.clip.width);
    hasher.feed(path.clip.height);
    let ghost head = hasher.fed();
    let mut i: usize = 0;
    proof {
        assert(head =~= seq![
            path.order as u64,
            path.clip.x as u64,
            path.clip.y as u64,
            path.clip.width as u64,
            path.clip.height as u64,
        ]);
        assert(hasher.fed() =~= head + vertex_words(path.vertices@.take(0)));
    }
    while i < path.vertices.len()
        invariant
            i <= path.vertices@.len(),
            hasher.wf(),
            hasher.start() == start,
            hasher.fed() == head + vertex_words(path.vertices@.take(i as int)),
        decreases path.vertices@.len() - i,
    {
        let ghost next = path.vertices@.take(i + 1);
        let vertex = path.vertices[i];
        hasher.feed(vertex.x);
        hasher.feed(vertex.y);
        hasher.feed(vertex.s);
        hasher.feed(vertex.t);
        proof {
            assert(next.drop_last() =~= path.vertices@.take(i as int));
            assert(hasher.fed() =~= head + vertex_words(next));
        }
        i = i + 1;
    }
    proof {
        assert(path.vertices@.take(i as int) =~= path.vertices@);
    }
    hasher.finish()
}

/// A filter's identity.
pub fn hash_filters(filter: &PaintedFilter) -> (hash: u64)
    ensures
        hash == hash_of_words(filter_words(*filter)),
{
    let mut hasher = WordHasher::new();
    let role: u32 = match filter.role {
        FilterRole::Backdrop => 0,
        FilterRole::GroupStart => 1,
        FilterRole::GroupEnd => 2,
    };
    hasher.feed(role);
    hasher.feed(filter.order);
    hasher.feed(filter.bounds.x);
    hasher.feed(filter.bounds.y);
    hasher.feed(filter.bounds.width);
    hasher.feed(filter.bounds.height);
    hasher.feed(filter.clip.x);
    hasher.feed(filter.clip.y);
    hasher.feed(filter.clip.width);
    hasher.feed(filter.clip.height);
    hasher.feed(filter.radii.top_left);
    hasher.feed(filter.radii.top_right);
    hasher.feed(filter.radii.bottom_right);
    hasher.feed(filter.radii.bottom_left);
    hasher.feed(filter.opacity);
    let ghost head = hasher.fed();
    let mut i: usize = 0;
    proof {
        assert(head =~= filter_head(*filter));
        assert(hasher.fed() =~= head + blur_words(filter.blurs@.take(0)));
    }
    while i < filter.blurs.len()
        invariant
            i <= filter.blurs@.len(),
            hasher.wf(),
            hasher.start() == 0,
            hasher.fed() == head + blur_words(filter.blurs@.take(i as int)),
        decreases filter.blurs@.len() - i,
    {
        let ghost next = filter.blurs@.take(i + 1);
        hasher.feed(0);
        hasher.feed(filter.blurs[i]);
        proof {
            assert(next.drop_last() =~= filter.blurs@.take(i as int));
            assert(hasher.fed() =~= head + blur_words(next));
        }
        i = i + 1;
    }
    proof {
        assert(filter.blurs@.take(i as int) =~= filter.blurs@);
    }
    hasher.finish()
}

proof fn lemma_entries_concat(first: Seq<Mark>, second: Seq<Mark>, surface: Rect)
    ensures
        entries_of(first + second, surface) == entries_of(first, surface) + entries_of(
            second,
            surface,
        ),
    decreases second.len(),
{
    if second.len() == 0 {
        assert(first + second =~= first);
        assert(entries_of(first, surface) + Seq::<Entry>::empty() =~= entries_of(first, surface));
    } else {
        lemma_entries_concat(first, second.drop_last(), surface);
        assert((first + second).drop_last() =~= first + second.drop_last());
        assert((first + second).last() == second.last());
        assert(entries_of(first + second, surface) =~= entries_of(first, surface) + entries_of(
            second,
            surface,
        ));
    }
}

/// A mark of the painting is a mark of one of its kinds.
proof fn lemma_fits_kinds(painting: Painting, surface: Rect)
    requires
        painting.fits(surface),
    ensures
        fit_painted(painting.quads@, surface),
        fit_painted(painting.underlines@, surface),
        fit_painted(painting.monochrome_sprites@, surface),
        fit_painted(painting.subpixel_sprites@, surface),
        fit_painted(painting.polychrome_sprites@, surface),
        forall|i: int|
            0 <= i < painting.shadows@.len() ==> (
            #[trigger] painting.shadows@[i]).spec_painted().comparable(surface),
        forall|i: int|
            0 <= i < painting.paths@.len() ==> (#[trigger] painting.paths@[i]).rect.comparable(
                surface,
            ),
        fit_filters(painting.backdrop_filters@, surface),
        fit_filters(painting.filter_boundaries@, surface),
{
    let marks = painting.marks();
    let n0 = painting.quads@.len();
    let n1 = n0 + painting.underlines@.len();
    let n2 = n1 + painting.monochrome_sprites@.len();
    let n3 = n2 + painting.subpixel_sprites@.len();
    let n4 = n3 + painting.polychrome_sprites@.len();
    let n5 = n4 + painting.shadows@.len();
    let n6 = n5 + painting.paths@.len();
    let n7 = n6 + painting.backdrop_filters@.len();
    assert forall|i: int| 0 <= i < painting.quads@.len() implies (
    #[trigger] painting.quads@[i]).rect.comparable(surface) by {
        assert(marks[i].rect == painting.quads@[i].rect);
    }
    assert forall|i: int| 0 <= i < painting.underlines@.len() implies (
    #[trigger] painting.underlines@[i]).rect.comparable(surface) by {
        assert(marks[n0 + i].rect == painting.underlines@[i].rect);
    }
    assert forall|i: int| 0 <= i < painting.monochrome_sprites@.len() implies (
    #[trigger] painting.monochrome_sprites@[i]).rect.comparable(surface) by {
        assert(marks[n1 + i].rect == painting.monochrome_sprites@[i].rect);
    }
    assert forall|i: int| 0 <= i < painting.subpixel_sprites@.len() implies (
    #[trigger] painting.subpixel_sprites@[i]).rect.comparable(surface) by {
        assert(marks[n2 + i].rect == painting.subpixel_sprites@[i].rect);
    }
    assert forall|i: int| 0 <= i < painting.polychrome_sprites@.len() implies (
    #[trigger] painting.polychrome_sprites@[i]).rect.comparable(surface) by {
        assert(marks[n3 + i].rect == painting.polychrome_sprites@[i].rect);
    }
    assert forall|i: int| 0 <= i < painting.shadows@.len() implies (
    #[trigger] painting.shadows@[i]).spec_painted().comparable(surface) by {
        assert(marks[n4 + i].rect == painting.shadows@[i].spec_painted());
    }
    assert forall|i: int| 0 <= i < painting.paths@.len() implies (
    #[trigger] painting.paths@[i]).rect.comparable(surface) by {
        assert(marks[n5 + i].rect == painting.paths@[i].rect);
    }
    assert forall|i: int| 0 <= i < painting.backdrop_filters@.len() implies (
    #[trigger] painting.backdrop_filters@[i]).writes.comparable(surface)
        && painting.backdrop_filters@[i].reads.comparable(surface) by {
        assert(marks[n6 + i].rect == painting.backdrop_filters@[i].writes);
        assert(painting.filters()[i] == painting.backdrop_filters@[i]);
    }
    assert forall|i: int| 0 <= i < painting.filter_boundaries@.len() implies (
    #[trigger] painting.filter_boundaries@[i]).writes.comparable(surface)
        && painting.filter_boundaries@[i].reads.comparable(surface) by {
        assert(marks[n7 + i].rect == painting.filter_boundaries@[i].writes);
        assert(painting.filters()[painting.backdrop_filters@.len() + i]
            == painting.filter_boundaries@[i]);
    }
}

spec fn fit_painted(items: Seq<Painted>, surface: Rect) -> bool {
    forall|i: int| 0 <= i < items.len() ==> (#[trigger] items[i]).rect.comparable(surface)
}

spec fn fit_filters(items: Seq<PaintedFilter>, surface: Rect) -> bool {
    forall|i: int|
        0 <= i < items.len() ==> (#[trigger] items[i]).writes.comparable(surface)
            && items[i].reads.comparable(surface)
}

/// Records a primitive, unless it lies wholly off the surface: then it cannot change any pixel, so
/// it cannot damage one either.
fn push(entries: &mut Vec<Entry>, surface: Rect, hash: u64, rect: Rect)
    requires
        rect.comparable(surface),
    ensures
        final(entries)@ == old(entries)@ + entries_of(seq![Mark { hash, rect }], surface),
{
    proof {
        let mark = Mark { hash, rect };
        assert(seq![mark].drop_last() =~= Seq::<Mark>::empty());
        reveal_with_fuel(entries_of, 2);
    }
    match intersection(rect, surface) {
        Some(rect) => {
            entries.push(Entry { hash, rect });
        },
        None => {},
    }
    proof {
        assert(entries@ =~= old(entries)@ + entries_of(seq![Mark { hash, rect }], surface));
    }
}

fn push_painted(entries: &mut Vec<Entry>, surface: Rect, items: &Vec<Painted>)
    requires
        fit_painted(items@, surface),
    ensures
        final(entries)@ == old(entries)@ + entries_of(
            items@.map_values(|item: Painted| mark_painted(item)),
            surface,
        ),
{
    let ghost marks = items@.map_values(|item: Painted| mark_painted(item));
    let ghost before = entries@;
    let mut i: usize = 0;
    proof {
        assert(before + entries_of(marks.take(0), surface) =~= before);
    }
    while i < items.len()
        invariant
            i <= items@.len(),
            fit_painted(items@, surface),
            marks == items@.map_values(|item: Painted| mark_painted(item)),
            entries@ == before + entries_of(marks.take(i as int), surface),
        decreases items@.len() - i,
    {
        push(entries, surface, hash_bytes(items[i].bytes.as_slice()), items[i].rect);
        proof {
            let one = seq![marks[i as int]];
            lemma_entries_concat(marks.take(i as int), one, surface);
            assert(marks.take(i + 1) =~= marks.take(i as int) + one);
            assert(entries@ =~= before + entries_of(marks.take(i + 1), surface));
        }
        i = i + 1;
    }
    proof {
        assert(marks.take(i as int) =~= marks);
    }
}

fn push_shadows(entries: &mut Vec<Entry>, surface: Rect, items: &Vec<PaintedShadow>)
    requires
        forall|i: int|
            0 <= i < items@.len() ==> (#[trigger] items@[i]).spec_painted().comparable(surface),
    ensures
        final(entries)@ == old(entries)@ + entries_of(
            items@.map_values(|item: PaintedShadow| mark_shadow(item)),
            surface,
        ),
{
    let ghost marks = items@.map_values(|item: PaintedShadow| mark_shadow(item));
    let ghost before = entries@;
    let mut i: usize = 0;
    proof {
        assert(before + entries_of(marks.take(0), surface) =~= before);
    }
    while i < items.len()
        invariant
            i <= items@.len(),
            forall|i: int|
                0 <= i < items@.len() ==> (#[trigger] items@[i]).spec_painted().comparable(surface),
            marks == items@.map_values(|item: PaintedShadow| mark_shadow(item)),
            entries@ == before + entries_of(marks.take(i as int), surface),
        decreases items@.len() - i,
    {
        push(entries, surface, hash_bytes(items[i].bytes.as_slice()), items[i].painted());
        proof {
            let one = seq![marks[i as int]];
            lemma_entries_concat(marks.take(i as int), one, surface);
            assert(marks.take(i + 1) =~= marks.take(i as int) + one);
            assert(entries@ =~= before + entries_of(marks.take(i + 1), surface));
        }
        i = i + 1;
    }
    proof {
        assert(marks.take(i as int) =~= marks);
    }
}

fn push_paths(entries: &mut Vec<Entry>, surface: Rect, items: &Vec<PaintedPath>)
    requires
        forall|i: int|
            0 <= i < items@.len() ==> (#[trigger] items@[i]).rect.comparable(surface),
    ensures
        final(entries)@ == old(entries)@ + entries_of(
            items@.map_values(|item: PaintedPath| mark_path(item)),
            surface,
        ),
{
    let ghost marks = items@.map_values(|item: PaintedPath| mark_path(item));
    let ghost before = entries@;
    let mut i: usize = 0;
    proof {
        assert(before + entries_of(marks.take(0), surface) =~= before);
    }
    while i < items.len()
        invariant
            i <= items@.len(),
            forall|i: int|
                0 <= i < items@.len() ==> (#[trigger] items@[i]).rect.comparable(surface),
            marks == items@.map_values(|item: PaintedPath| mark_path(item)),
            entries@ == before + entries_of(marks.take(i as int), surface),
        decreases items@.len() - i,
    {
        let identity = vstd::bytes::u64_to_le_bytes(hash_path(&items[i]));
        push(entries, surface, hash_bytes(identity.as_slice()), items[i].rect);
        proof {
            let one = seq![marks[i as int]];
            lemma_entries_concat(marks.take(i as int), one, surface);
            assert(marks.take(i + 1) =~= marks.take(i as int) + one);
            assert(entries@ =~= before + entries_of(marks.take(i + 1), surface));
        }
        i = i + 1;
    }
    proof {
        assert(marks.take(i as int) =~= marks);
    }
}

fn push_filters(into: &mut Snapshot, surface: Rect, items: &Vec<PaintedFilter>)
    requires
        fit_filters(items@, surface),
    ensures
        final(into).entries@ == old(into).entries@ + entries_of(
            items@.map_values(|item: PaintedFilter| mark_filter(item)),
            surface,
        ),
        final(into).readers@ == old(into).readers@ + readers_of(items@, surface),
        final(into).always@ == old(into).always@,
{
    let ghost marks = items@.map_values(|item: PaintedFilter| mark_filter(item));
    let ghost before = into@;
    let mut i: usize = 0;
    proof {
        assert(before.entries + entries_of(marks.take(0), surface) =~= before.entries);
        assert(before.readers + readers_of(items@.take(0), surface) =~= before.readers);
    }
    while i < items.len()
        invariant
            i <= items@.len(),
            fit_filters(items@, surface),
            marks == items@.map_values(|item: PaintedFilter| mark_filter(item)),
            into.entries@ == before.entries + entries_of(marks.take(i as int), surface),
            into.readers@ == before.readers + readers_of(items@.take(i as int), surface),
            into.always@ == before.always,
        decreases items@.len() - i,
    {
        push_reader(&mut into.readers, surface, &items[i]);
        let identity = vstd::bytes::u64_to_le_bytes(hash_filters(&items[i]));
        push(&mut into.entries, surface, hash_bytes(identity.as_slice()), items[i].writes);
        proof {
            let one = seq![marks[i as int]];
            lemma_entries_concat(marks.take(i as int), one, surface);
            assert(marks.take(i + 1) =~= marks.take(i as int) + one);
            assert(into.entries@ =~= before.entries + entries_of(marks.take(i + 1), surface));
            assert(items@.take(i + 1).drop_last() =~= items@.take(i as int));
            assert(into.readers@ =~= before.readers + readers_of(items@.take(i + 1), surface));
        }
        i = i + 1;
    }
    proof {
        assert(marks.take(i as int) =~= marks);
        assert(items@.take(i as int) =~= items@);
    }
}

/// Records that whatever a filter writes depends on what it reads, unless either lies wholly off
/// the surface.
fn push_reader(readers: &mut Vec<Reader>, surface: Rect, filter: &PaintedFilter)
    requires
        filter.writes.comparable(surface),
        filter.reads.comparable(surface),
    ensures
        final(readers)@ == (match (filter.writes.common(surface), filter.reads.common(surface)) {
            (Some(writes), Some(source)) => old(readers)@.push(Reader { source, writes }),
            _ => old(readers)@,
        }),
{
    match intersection(filter.writes, surface) {
        Some(writes) => match intersection(filter.reads, surface) {
            Some(source) => {
                readers.push(Reader { source, writes });
            },
            None => {},
        },
        None => {},
    }
}

proof fn lemma_readers_concat(first: Seq<PaintedFilter>, second: Seq<PaintedFilter>, surface: Rect)
    ensures
        readers_of(first + second, surface) == readers_of(first, surface) + readers_of(
            second,
            surface,
        ),
    decreases second.len(),
{
    if second.len() == 0 {
        assert(first + second =~= first);
        assert(readers_of(first, surface) + Seq::<Reader>::empty() =~= readers_of(first, surface));
    } else {
        lemma_readers_concat(first, second.drop_last(), surface);
        assert((first + second).drop_last() =~= first + second.drop_last());
        assert((first + second).last() == second.last());
        assert(readers_of(first + second, surface) =~= readers_of(first, surface) + readers_of(
            second,
            surface,
        ));
    }
}

/// Everything a snapshot holds lies on the surface that cut it off.
pub proof fn lemma_snapshot_wf(painting: Painting, surface: Rect)
    requires
        surface.x == 0,
        surface.y == 0,
    ensures
        snapshot_of(painting, surface).wf(),
        snapshot_of(painting, surface).entries.len() <= painting.marks().len(),
{
    lemma_entries_wf(painting.marks(), surface);
    lemma_readers_wf(painting.filters(), surface);
    lemma_visible_wf(painting.surfaces@, surface);
}

/// What a surface at the origin leaves of a rectangle has pixels in it and lies on the surface.
proof fn lemma_common_on_surface(rect: Rect, surface: Rect)
    requires
        surface.x == 0,
        surface.y == 0,
    ensures
        rect.common(surface) matches Some(shared) ==> shared.has_area() && shared.on_surface(),
{
}

proof fn lemma_entries_wf(marks: Seq<Mark>, surface: Rect)
    requires
        surface.x == 0,
        surface.y == 0,
    ensures
        entries_of(marks, surface).len() <= marks.len(),
        forall|i: int|
            0 <= i < entries_of(marks, surface).len() ==> {
                &&& (#[trigger] entries_of(marks, surface)[i]).rect.has_area()
                &&& entries_of(marks, surface)[i].rect.on_surface()
            },
    decreases marks.len(),
{
    if marks.len() > 0 {
        lemma_entries_wf(marks.drop_last(), surface);
        lemma_common_on_surface(marks.last().rect, surface);
    }
}

proof fn lemma_readers_wf(filters: Seq<PaintedFilter>, surface: Rect)
    requires
        surface.x == 0,
        surface.y == 0,
    ensures
        forall|i: int|
            0 <= i < readers_of(filters, surface).len() ==> {
                &&& (#[trigger] readers_of(filters, surface)[i]).source.has_area()
                &&& readers_of(filters, surface)[i].source.on_surface()
                &&& readers_of(filters, surface)[i].writes.has_area()
                &&& readers_of(filters, surface)[i].writes.on_surface()
            },
    decreases filters.len(),
{
    if filters.len() > 0 {
        lemma_readers_wf(filters.drop_last(), surface);
        lemma_common_on_surface(filters.last().writes, surface);
        lemma_common_on_surface(filters.last().reads, surface);
        let rest = readers_of(filters.drop_last(), surface);
        let all = readers_of(filters, surface);
        assert forall|i: int| 0 <= i < all.len() implies {
            &&& (#[trigger] all[i]).source.has_area()
            &&& all[i].source.on_surface()
            &&& all[i].writes.has_area()
            &&& all[i].writes.on_surface()
        } by {
            if i < rest.len() {
                assert(all[i] == rest[i]);
            }
        }
    }
}

proof fn lemma_visible_wf(rects: Seq<Rect>, surface: Rect)
    requires
        surface.x == 0,
        surface.y == 0,
    ensures
        forall|i: int|
            0 <= i < visible(rects, surface).len() ==> {
                &&& (#[trigger] visible(rects, surface)[i]).has_area()
                &&& visible(rects, surface)[i].on_surface()
            },
    decreases rects.len(),
{
    if rects.len() > 0 {
        lemma_visible_wf(rects.drop_last(), surface);
        lemma_common_on_surface(rects.last(), surface);
        let rest = visible(rects.drop_last(), surface);
        let all = visible(rects, surface);
        assert forall|i: int| 0 <= i < all.len() implies {
            &&& (#[trigger] all[i]).has_area()
            &&& all[i].on_surface()
        } by {
            if i < rest.len() {
                assert(all[i] == rest[i]);
            }
        }
    }
}

impl Snapshot {
    /// A snapshot of nothing.
    pub fn new() -> (snapshot: Snapshot)
        ensures
            snapshot@ == (SnapshotView {
                entries: Seq::empty(),
                readers: Seq::empty(),
                always: Seq::empty(),
            }),
    {
        Snapshot { entries: Vec::new(), readers: Vec::new(), always: Vec::new() }
    }

    /// Forgets everything, keeping the memory.
    pub fn clear(&mut self)
        ensures
            final(self)@ == (SnapshotView {
                entries: Seq::empty(),
                readers: Seq::empty(),
                always: Seq::empty(),
            }),
    {
        self.entries.clear();
        self.readers.clear();
        self.always.clear();
    }
}

/// Reduces a painting to what the comparison needs.
pub fn snapshot(painting: &Painting, surface: Rect, into: &mut Snapshot)
    requires
        painting.fits(surface),
        old(into).entries@.len() == 0,
        old(into).readers@.len() == 0,
        old(into).always@.len() == 0,
    ensures
        final(into)@ == snapshot_of(*painting, surface),
{
    proof {
        lemma_fits_kinds(*painting, surface);
    }
    let ghost quads = painting.quads@.map_values(|item: Painted| mark_painted(item));
    let ghost underlines = painting.underlines@.map_values(|item: Painted| mark_painted(item));
    let ghost mono = painting.monochrome_sprites@.map_values(|item: Painted| mark_painted(item));
    let ghost sub = painting.subpixel_sprites@.map_values(|item: Painted| mark_painted(item));
    let ghost poly = painting.polychrome_sprites@.map_values(|item: Painted| mark_painted(item));
    let ghost shadows = painting.shadows@.map_values(|item: PaintedShadow| mark_shadow(item));
    let ghost paths = painting.paths@.map_values(|item: PaintedPath| mark_path(item));
    let ghost backdrops = painting.backdrop_filters@.map_values(
        |item: PaintedFilter| mark_filter(item),
    );
    let ghost groups = painting.filter_boundaries@.map_values(
        |item: PaintedFilter| mark_filter(item),
    );
    push_painted(&mut into.entries, surface, &painting.quads);
    push_painted(&mut into.entries, surface, &painting.underlines);
    push_painted(&mut into.entries, surface, &painting.monochrome_sprites);
    push_painted(&mut into.entries, surface, &painting.subpixel_sprites);
    push_painted(&mut into.entries, surface, &painting.polychrome_sprites);
    push_shadows(&mut into.entries, surface, &painting.shadows);
    push_paths(&mut into.entries, surface, &painting.paths);
    proof {
        lemma_entries_concat(quads, underlines, surface);
        lemma_entries_concat(quads + underlines, mono, surface);
        lemma_entries_concat(quads + underlines + mono, sub, surface);
        lemma_entries_concat(quads + underlines + mono + sub, poly, surface);
        lemma_entries_concat(quads + underlines + mono + sub + poly, shadows, surface);
        lemma_entries_concat(quads + underlines + mono + sub + poly + shadows, paths, surface);
        assert(into.entries@ =~= entries_of(
            quads + underlines + mono + sub + poly + shadows + paths,
            surface,
        ));
    }
    let mut i: usize = 0;
    let ghost entries = into.entries@;
    proof {
        assert(into.always@ =~= visible(painting.surfaces@.take(0), surface));
    }
    while i < painting.surfaces.len()
        invariant
            i <= painting.surfaces@.len(),
            painting.fits(surface),
            into.entries@ == entries,
            into.readers@.len() == 0,
            into.always@ == visible(painting.surfaces@.take(i as int), surface),
        decreases painting.surfaces@.len() - i,
    {
        proof {
            assert(painting.surfaces@.take(i + 1).drop_last() =~= painting.surfaces@.take(
                i as int,
            ));
        }
        match intersection(painting.surfaces[i], surface) {
            Some(rect) => {
                into.always.push(rect);
            },
            None => {},
        }
        i = i + 1;
    }
    proof {
        assert(painting.surfaces@.take(i as int) =~= painting.surfaces@);
    }
    push_filters(into, surface, &painting.backdrop_filters);
    push_filters(into, surface, &painting.filter_boundaries);
    proof {
        let drawn = quads + underlines + mono + sub + poly + shadows + paths;
        lemma_entries_concat(drawn, backdrops, surface);
        lemma_entries_concat(drawn + backdrops, groups, surface);
        lemma_readers_concat(painting.backdrop_filters@, painting.filter_boundaries@, surface);
        assert(painting.marks() =~= drawn + backdrops + groups);
        assert(into.readers@ =~= readers_of(painting.filters(), surface));
    }
}

} // verus!
