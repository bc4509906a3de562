//! The damage set a frame's passes are scissored to, and what is known of it.

use vstd::prelude::*;
use zgui_bits::DamageSet;

use crate::geom::Rect;

verus! {

/// The damage set itself, which keeps its rectangles to itself.
#[verifier::external_type_specification]
#[verifier::external_body]
pub struct ExDamageSet<const N: usize>(zgui_bits::DamageSet<N>);

/// The rectangles a damage set holds, in order.
pub uninterp spec fn damage_rects(set: DamageSet) -> Seq<Rect>;

/// Whether a damage set stands for the whole surface.
pub uninterp spec fn damage_full(set: DamageSet) -> bool;

/// The rectangles a set of rectangles becomes when one that none of them contains is added.
pub uninterp spec fn absorbed_rects(rects: Seq<Rect>, rect: Rect) -> Seq<Rect>;

/// The most rectangles a damage set holds.
pub const MAX_DAMAGE: usize = 6;

/// What a damage set says: the whole surface, or some rectangles of it.
#[verifier::ext_equal]
pub struct Region {
    pub full: bool,
    pub rects: Seq<Rect>,
}

/// What `set` says.
pub open spec fn region(set: DamageSet) -> Region {
    Region { full: damage_full(set), rects: damage_rects(set) }
}

impl Region {
    /// No damage at all.
    pub open spec fn none() -> Region {
        Region { full: false, rects: Seq::empty() }
    }

    /// The whole surface.
    pub open spec fn whole() -> Region {
        Region { full: true, rects: Seq::empty() }
    }

    /// Whether the pixel at column `px` and row `py` is damaged.
    pub open spec fn covers(self, px: int, py: int) -> bool {
        self.full || exists|i: int|
            0 <= i < self.rects.len() && (#[trigger] self.rects[i]).covers(px, py)
    }

    /// Whether every pixel of `rect` is damaged.
    pub open spec fn covers_rect(self, rect: Rect) -> bool {
        forall|px: int, py: int| #[trigger] rect.covers(px, py) ==> self.covers(px, py)
    }

    /// Whether everything `other` damages is damaged.
    pub open spec fn covers_all(self, other: Region) -> bool {
        forall|px: int, py: int| #[trigger] other.covers(px, py) ==> self.covers(px, py)
    }

    /// Whether one held rectangle contains the whole of `rect`.
    pub open spec fn contains(self, rect: Rect) -> bool {
        self.full || exists|i: int|
            0 <= i < self.rects.len() && (#[trigger] self.rects[i]).contains(rect)
    }

    /// Whether `rect` and the damage share a pixel.
    pub open spec fn meets(self, rect: Rect) -> bool {
        if self.full {
            rect.has_area()
        } else {
            exists|i: int| 0 <= i < self.rects.len() && (#[trigger] self.rects[i]).meets(rect)
        }
    }

    /// Whether every held rectangle lies in `bounds`.
    pub open spec fn within(self, bounds: Rect) -> bool {
        forall|i: int| 0 <= i < self.rects.len() ==> bounds.contains(#[trigger] self.rects[i])
    }

    /// Whether the region is one a damage set can be in: at most so many rectangles, each with
    /// pixels in it and on the surface, and none beside the whole surface.
    pub open spec fn wf(self) -> bool {
        &&& self.rects.len() <= MAX_DAMAGE
        &&& self.full ==> self.rects.len() == 0
        &&& forall|i: int|
            0 <= i < self.rects.len() ==> (#[trigger] self.rects[i]).has_area()
                && self.rects[i].on_surface()
    }

    /// The region with `rect` added.
    pub open spec fn absorb(self, rect: Rect) -> Region {
        if !rect.has_area() || self.contains(rect) {
            self
        } else {
            Region { full: false, rects: absorbed_rects(self.rects, rect) }
        }
    }

    /// The region with every rectangle of `rects` added, in order.
    pub open spec fn absorb_each(self, rects: Seq<Rect>) -> Region
        decreases rects.len(),
    {
        if rects.len() == 0 {
            self
        } else {
            self.absorb_each(rects.drop_last()).absorb(rects.last())
        }
    }

    /// The region with another's damage added.
    pub open spec fn absorb_region(self, other: Region) -> Region {
        if other.full {
            Region::whole()
        } else {
            self.absorb_each(other.rects)
        }
    }
}

/// Whether `after` is what adding `rect` may make of `before`: every pixel of both is in it, it
/// reaches past no rectangle that both lie in, and a rectangle that meets no other is simply held
/// beside the others while there is room.
pub open spec fn grows_by(before: Region, rect: Rect, after: Region) -> bool {
    &&& after.wf()
    &&& after.full == before.full
    &&& after.covers_all(before)
    &&& after.covers_rect(rect)
    &&& forall|bounds: Rect|
        before.within(bounds) && bounds.contains(rect) ==> #[trigger] after.within(bounds)
    &&& (!before.full && rect.has_area() && before.rects.len() < MAX_DAMAGE
        && !before.meets(rect)) ==> after.rects == before.rects.push(rect)
}

/// Calls `zgui_bits::DamageSet::new`: no damage.
#[verifier::external_body]
pub(crate) fn damage_none() -> (set: DamageSet)
    ensures
        !damage_full(set),
        damage_rects(set) == Seq::<Rect>::empty(),
{
    DamageSet::new()
}

/// Calls `zgui_bits::DamageSet::full`: the whole surface.
#[verifier::external_body]
pub(crate) fn damage_whole() -> (set: DamageSet)
    ensures
        region(set) == Region::whole(),
{
    DamageSet::full()
}

/// Calls `zgui_bits::DamageSet::for_frame`: no damage, or the whole surface where the process's
/// environment asks for full damage. Which of the two it is, is left open.
#[verifier::external_body]
pub(crate) fn damage_for_frame() -> (set: DamageSet)
    ensures
        region(set) == Region::none() || region(set) == Region::whole(),
{
    DamageSet::for_frame()
}

/// Calls `zgui_bits::DamageSet::is_full`: whether the set stands for the whole surface.
#[verifier::external_body]
pub(crate) fn is_full(set: &DamageSet) -> (full: bool)
    ensures
        full == region(*set).full,
{
    set.is_full()
}

/// Calls `zgui_bits::DamageSet::is_empty`: whether the set neither stands for the whole surface
/// nor holds a rectangle.
#[verifier::external_body]
pub(crate) fn is_empty(set: &DamageSet) -> (empty: bool)
    ensures
        empty == (!region(*set).full && region(*set).rects.len() == 0),
{
    set.is_empty()
}

/// Calls `zgui_bits::DamageSet::set_full`: the set now stands for the whole surface.
#[verifier::external_body]
pub(crate) fn set_full(set: &mut DamageSet)
    ensures
        region(*final(set)) == Region::whole(),
{
    set.set_full()
}

/// Calls `zgui_bits::DamageSet::rects`: the held rectangles, in order.
#[verifier::external_body]
pub(crate) fn rects(set: &DamageSet) -> (held: Vec<Rect>)
    ensures
        held@ == region(*set).rects,
{
    set.rects().iter().map(
        |r| Rect { x: r.origin.x, y: r.origin.y, width: r.size.width, height: r.size.height },
    ).collect()
}

/// Calls `zgui_bits::DamageSet::absorb`: a set that stands for the whole surface, and one that has
/// a rectangle containing `rect`, stay as they are; any other set covers `rect` as well as what it
/// covered, in at most six rectangles. How the rectangles are merged or cut is a function of the
/// ones that were held and of `rect`.
#[verifier::external_body]
pub(crate) fn absorb(set: &mut DamageSet, rect: Rect)
    requires
        region(*old(set)).wf(),
        rect.on_surface(),
    ensures
        damage_full(*final(set)) == damage_full(*old(set)),
        (!rect.has_area() || region(*old(set)).contains(rect)) ==> damage_rects(*final(set))
            == damage_rects(*old(set)),
        !(!rect.has_area() || region(*old(set)).contains(rect)) ==> damage_rects(*final(set))
            == absorbed_rects(damage_rects(*old(set)), rect),
        grows_by(region(*old(set)), rect, region(*final(set))),
{
    set.absorb(
        zgui_geom::Rect::new(
            zgui_geom::Point::new(rect.x, rect.y),
            zgui_geom::Size::new(rect.width, rect.height),
        ),
    )
}

/// Calls `zgui_bits::DamageSet::contains`: whether the set stands for the whole surface or one
/// held rectangle contains all of `rect`.
#[verifier::external_body]
pub(crate) fn contains(set: &DamageSet, rect: Rect) -> (inside: bool)
    requires
        region(*set).wf(),
        rect.on_surface(),
    ensures
        inside == region(*set).contains(rect),
{
    set.contains(
        zgui_geom::Rect::new(
            zgui_geom::Point::new(rect.x, rect.y),
            zgui_geom::Size::new(rect.width, rect.height),
        ),
    )
}

/// Calls `zgui_bits::DamageSet::intersects`: whether some held rectangle, or the whole surface,
/// shares a pixel with `rect`.
#[verifier::external_body]
pub(crate) fn intersects(set: &DamageSet, rect: Rect) -> (touched: bool)
    requires
        region(*set).wf(),
        rect.on_surface(),
    ensures
        touched == region(*set).meets(rect),
{
    set.intersects(
        zgui_geom::Rect::new(
            zgui_geom::Point::new(rect.x, rect.y),
            zgui_geom::Size::new(rect.width, rect.height),
        ),
    )
}

/// Calls `zgui_bits::DamageSet::absorb_set`: the whole surface where `other` stands for it, and
/// otherwise each of `other`'s rectangles added in turn. A set's rectangles share no pixel, so a
/// set that holds nothing comes to say what `other` says.
#[verifier::external_body]
pub(crate) fn absorb_set(set: &mut DamageSet, other: &DamageSet)
    requires
        region(*old(set)).wf(),
        region(*other).wf(),
    ensures
        region(*final(set)) == region(*old(set)).absorb_region(region(*other)),
        region(*final(set)).wf(),
        region(*final(set)).covers_all(region(*old(set))),
        region(*final(set)).covers_all(region(*other)),
        region(*old(set)) == Region::none() ==> region(*final(set)) == region(*other),
        forall|bounds: Rect|
            region(*old(set)).within(bounds) && region(*other).within(bounds)
                ==> #[trigger] region(*final(set)).within(bounds),
{
    set.absorb_set(other)
}

/// No damage covers no pixel, and the whole surface every one. Otherwise a pixel is damaged exactly
/// where a held rectangle covers it.
pub proof fn law_pixels_are_damaged_where_a_rectangle_is(damage: Region, px: int, py: int)
    ensures
        !Region::none().covers(px, py),
        Region::whole().covers(px, py),
        !damage.full ==> (damage.covers(px, py) <==> exists|i: int|
            0 <= i < damage.rects.len() && (#[trigger] damage.rects[i]).covers(px, py)),
        damage.full ==> damage.covers(px, py),
{
}

/// Damage that covers a rectangle covers each of its pixels, and damage that covers all of another
/// covers whatever that does.
pub proof fn law_covering_is_pixel_by_pixel(
    damage: Region,
    other: Region,
    rect: Rect,
    px: int,
    py: int,
)
    ensures
        damage.covers_rect(rect) && rect.covers(px, py) ==> damage.covers(px, py),
        damage.covers_all(other) && other.covers(px, py) ==> damage.covers(px, py),
        damage.full ==> damage.covers_rect(rect) && damage.covers_all(other),
        damage.covers_all(damage),
{
}

/// Damage meets a rectangle exactly where they share a pixel.
pub proof fn law_damage_meets_where_a_pixel_is_shared(damage: Region, rect: Rect)
    ensures
        damage.meets(rect) <==> exists|px: int, py: int|
            damage.covers(px, py) && #[trigger] rect.covers(px, py),
{
    crate::paint_laws::law_meeting_and_containing_are_about_pixels(rect, rect);
    if damage.full {
        if rect.has_area() {
            assert(damage.covers(rect.x as int, rect.y as int));
            assert(rect.covers(rect.x as int, rect.y as int));
        }
    } else {
        if damage.meets(rect) {
            let i = choose|i: int|
                0 <= i < damage.rects.len() && (#[trigger] damage.rects[i]).meets(rect);
            crate::paint_laws::law_meeting_and_containing_are_about_pixels(damage.rects[i], rect);
            let (px, py) = choose|px: int, py: int|
                damage.rects[i].covers(px, py) && #[trigger] rect.covers(px, py);
            assert(damage.covers(px, py) && rect.covers(px, py));
        }
        if exists|px: int, py: int| damage.covers(px, py) && #[trigger] rect.covers(px, py) {
            let (px, py) = choose|px: int, py: int|
                damage.covers(px, py) && #[trigger] rect.covers(px, py);
            let i = choose|i: int|
                0 <= i < damage.rects.len() && (#[trigger] damage.rects[i]).covers(px, py);
            assert(damage.rects[i].meets(rect));
        }
    }
}

/// Adding what is damaged already, or what has no pixels, adds nothing; adding the whole surface
/// makes the damage the whole surface; and adding one list after another adds both.
pub proof fn law_adding_damage_adds_up(damage: Region, rect: Rect, one: Seq<Rect>, two: Seq<Rect>)
    ensures
        !rect.has_area() ==> damage.absorb(rect) == damage,
        damage.contains(rect) ==> damage.absorb(rect) == damage,
        damage.full ==> damage.absorb(rect) == damage,
        damage.absorb_region(Region::whole()) == Region::whole(),
        damage.absorb_region(Region::none()) == damage,
        damage.absorb_each(one + two) == damage.absorb_each(one).absorb_each(two),
    decreases two.len(),
{
    if two.len() == 0 {
        assert(one + two =~= one);
    } else {
        law_adding_damage_adds_up(damage, rect, one, two.drop_last());
        assert((one + two).drop_last() =~= one + two.drop_last());
    }
}

} // verus!
