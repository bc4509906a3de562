//! Sprite transforms, as coordinate systems.
//!
//! A sprite carries its transform inside it, while the display list names a coordinate system per
//! primitive and keeps the matrices in a tree, so that a thousand rows sharing one transform cost
//! one matrix. Bridging the two means interning: equal matrices get the same owner in the tree.
//! Owners whose matrix went unused for a frame are released, which is what stops an animated
//! transform, a new matrix every frame, from growing the tree without bound.

use std::collections::HashMap;

use rustc_hash::FxBuildHasher;
use vstd::prelude::*;

use crate::bits::is_zero;
use crate::bits::normalize;
use crate::bits::one_zero;
use crate::bits::zero;
use crate::bits::ONE;

verus! {

/// A matrix's six coefficients in the order a style sheet writes them, as float bits.
#[derive(Clone, Copy, Debug, PartialEq, Eq, Structural)]
pub struct Affine {
    pub a: u32,
    pub b: u32,
    pub c: u32,
    pub d: u32,
    pub tx: u32,
    pub ty: u32,
}

/// A sprite's transform, row by row, as float bits: the first row produces a point's column and
/// the second its row.
#[derive(Clone, Copy, Debug, PartialEq, Eq, Structural)]
pub struct TransformationMatrix {
    pub row0_col0: u32,
    pub row0_col1: u32,
    pub row1_col0: u32,
    pub row1_col1: u32,
    pub translation0: u32,
    pub translation1: u32,
}

/// A matrix's coefficients with both zeros made the same, so that they can be a key.
pub type MatrixKey = (u32, u32, u32, u32, u32, u32);

/// The coordinate system a sprite is drawn in.
#[derive(Clone, Copy, Debug, PartialEq, Eq, Structural)]
pub enum Space {
    /// The viewport itself.
    Viewport,
    /// The one that `owner` establishes under the viewport.
    Owned { owner: u64, affine: Affine },
}

impl TransformationMatrix {
    /// Whether the transform leaves every point where it is.
    pub open spec fn is_unit(self) -> bool {
        &&& self.row0_col0 == ONE
        &&& is_zero(self.row0_col1)
        &&& is_zero(self.row1_col0)
        &&& self.row1_col1 == ONE
        &&& is_zero(self.translation0)
        &&& is_zero(self.translation1)
    }

    /// Whether the transform leaves every point where it is.
    pub fn unit(&self) -> (answer: bool)
        ensures
            answer == self.is_unit(),
    {
        self.row0_col0 == ONE && zero(self.row0_col1) && zero(self.row1_col0) && self.row1_col1
            == ONE && zero(self.translation0) && zero(self.translation1)
    }
}

/// The coefficients of a transform.
pub open spec fn coefficients(transform: TransformationMatrix) -> Affine {
    Affine {
        a: transform.row0_col0,
        b: transform.row1_col0,
        c: transform.row0_col1,
        d: transform.row1_col1,
        tx: transform.translation0,
        ty: transform.translation1,
    }
}

/// The key of a matrix.
pub open spec fn key_of(affine: Affine) -> MatrixKey {
    (
        one_zero(affine.a),
        one_zero(affine.b),
        one_zero(affine.c),
        one_zero(affine.d),
        one_zero(affine.tx),
        one_zero(affine.ty),
    )
}

/// The coefficients of a transform: the two middle terms cross over, because the transform is
/// written by rows and the coefficients by columns.
pub fn affine_of(transform: &TransformationMatrix) -> (affine: Affine)
    ensures
        affine == coefficients(*transform),
{
    Affine {
        a: transform.row0_col0,
        b: transform.row1_col0,
        c: transform.row0_col1,
        d: transform.row1_col1,
        tx: transform.translation0,
        ty: transform.translation1,
    }
}

fn matrix_key(affine: &Affine) -> (key: MatrixKey)
    ensures
        key == key_of(*affine),
{
    (
        normalize(affine.a),
        normalize(affine.b),
        normalize(affine.c),
        normalize(affine.d),
        normalize(affine.tx),
        normalize(affine.ty),
    )
}

/// Calls `HashMap::default` for a map hashed by `rustc_hash::FxBuildHasher`: an empty map.
#[verifier::external_body]
fn owners_new() -> (table: HashMap<MatrixKey, u64, FxBuildHasher>)
    ensures
        (table@ == Map::<MatrixKey, u64>::empty()),
{
    HashMap::default()
}

/// Calls `HashMap::get` on a map hashed by `rustc_hash::FxBuildHasher`: what stands under `key`,
/// where anything does.
#[verifier::external_body]
fn owners_get(table: &HashMap<MatrixKey, u64, FxBuildHasher>, key: MatrixKey) -> (owner: Option<
    u64,
>)
    ensures
        table@.dom().contains(key) ==> owner == Some(table@[key]),
        !table@.dom().contains(key) ==> owner is None,
{
    table.get(&key).copied()
}

/// Calls `HashMap::insert` on a map hashed by `rustc_hash::FxBuildHasher`: `owner` stands under
/// `key`, in the place of what stood there.
#[verifier::external_body]
fn owners_insert(table: &mut HashMap<MatrixKey, u64, FxBuildHasher>, key: MatrixKey, owner: u64)
    ensures
        final(table)@ == old(table)@.insert(key, owner),
{
    table.insert(key, owner);
}

/// Calls `HashMap::remove` on a map hashed by `rustc_hash::FxBuildHasher`: nothing stands under
/// `key` any more.
#[verifier::external_body]
fn owners_remove(table: &mut HashMap<MatrixKey, u64, FxBuildHasher>, key: MatrixKey)
    ensures
        final(table)@ == old(table)@.remove(key),
{
    table.remove(&key);
}

/// Calls `HashMap::keys` on a map hashed by `rustc_hash::FxBuildHasher`: every key, once, in an
/// order that is left open.
#[verifier::external_body]
fn owners_keys(table: &HashMap<MatrixKey, u64, FxBuildHasher>) -> (keys: Vec<MatrixKey>)
    ensures
        keys@.no_duplicates(),
        forall|key: MatrixKey| #[trigger] keys@.contains(key) <==> table@.dom().contains(key),
{
    table.keys().copied().collect()
}

/// Whether `owner` is held by a matrix that is not among the used ones.
pub open spec fn idle(owners: Map<MatrixKey, u64>, used: Seq<MatrixKey>, owner: u64) -> bool {
    exists|key: MatrixKey|
        owners.dom().contains(key) && !used.contains(key) && #[trigger] owners[key] == owner
}

/// Interns sprite transforms into owners of coordinate systems.
pub struct Transforms {
    /// Which owner each distinct matrix was given.
    owners: HashMap<MatrixKey, u64, FxBuildHasher>,
    /// Which matrices were asked for this frame, so that the rest can be released.
    used: Vec<MatrixKey>,
    /// The last owner given. Never reused, so a released one cannot be confused with a new one.
    last: u64,
}

impl Transforms {
    /// Which owner each matrix holds.
    pub closed spec fn owners(self) -> Map<MatrixKey, u64> {
        self.owners@
    }

    /// The matrices that were asked for this frame.
    pub closed spec fn used(self) -> Seq<MatrixKey> {
        self.used@
    }

    /// The last owner given.
    pub closed spec fn last(self) -> u64 {
        self.last
    }

    /// Whether every owner is one that was given, no two matrices share one, and every matrix in
    /// use has one.
    pub open spec fn wf(self) -> bool {
        &&& forall|key: MatrixKey| #[trigger]
            self.owners().dom().contains(key) ==> 1 <= self.owners()[key] <= self.last()
        &&& forall|one: MatrixKey, two: MatrixKey|
            #![trigger self.owners()[one], self.owners()[two]]
            self.owners().dom().contains(one) && self.owners().dom().contains(two)
                && self.owners()[one] == self.owners()[two] ==> one == two
        &&& forall|i: int|
            0 <= i < self.used().len() ==> self.owners().dom().contains(#[trigger] self.used()[i])
    }

    /// Nothing interned yet.
    pub fn new() -> (transforms: Transforms)
        ensures
            transforms.wf(),
            (transforms.owners() == Map::<MatrixKey, u64>::empty()),
            transforms.used() == Seq::<MatrixKey>::empty(),
            transforms.last() == 0,
    {
        Transforms { owners: owners_new(), used: Vec::new(), last: 0 }
    }

    /// Forgets the matrices no frame has used since the last call, and gives the owners they held,
    /// each once, for the tree to release.
    pub fn begin_frame(&mut self) -> (released: Vec<u64>)
        requires
            old(self).wf(),
        ensures
            final(self).wf(),
            final(self).used().len() == 0,
            final(self).last() == old(self).last(),
            final(self).owners() == old(self).owners().restrict(old(self).used().to_set()),
            released@.no_duplicates(),
            forall|owner: u64| #[trigger]
                released@.contains(owner) <==> idle(
                    old(self).owners(),
                    old(self).used(),
                    owner,
                ),
    {
        let ghost before = self.owners@;
        let ghost used = self.used@;
        proof {
            assert forall|one: MatrixKey, two: MatrixKey|
                #![trigger before[one], before[two]]
                before.dom().contains(one) && before.dom().contains(two) && before[one]
                    == before[two] implies one == two by {
                assert(old(self).owners()[one] == old(self).owners()[two]);
            }
        }
        let mut live = owners_new();
        let mut i: usize = 0;
        while i < self.used.len()
            invariant
                i <= self.used@.len(),
                forall|key: MatrixKey| #[trigger]
                    live@.dom().contains(key) <==> self.used@.take(i as int).contains(key),
            decreases self.used@.len() - i,
        {
            let ghost had = live@;
            owners_insert(&mut live, self.used[i], 0);
            proof {
                let key = self.used@[i as int];
                let next = self.used@.take(i + 1);
                assert(next.last() == key);
                assert forall|other: MatrixKey| #[trigger]
                    live@.dom().contains(other) <==> next.contains(other) by {
                    if self.used@.take(i as int).contains(other) {
                        let at = choose|k: int|
                            0 <= k < i && #[trigger] self.used@.take(i as int)[k] == other;
                        assert(next[at] == other);
                    }
                    if next.contains(other) && other != key {
                        let at = choose|k: int| 0 <= k < i + 1 && #[trigger] next[k] == other;
                        assert(self.used@.take(i as int)[at] == other);
                    }
                    assert(had.dom().contains(other) <==> self.used@.take(i as int).contains(
                        other,
                    ));
                }
            }
            i = i + 1;
        }
        proof {
            assert(self.used@.take(i as int) =~= self.used@);
        }
        let keys = owners_keys(&self.owners);
        let mut released: Vec<u64> = Vec::new();
        let mut j: usize = 0;
        while j < keys.len()
            invariant
                j <= keys@.len(),
                keys@.no_duplicates(),
                forall|key: MatrixKey| #[trigger]
                    keys@.contains(key) <==> before.dom().contains(key),
                forall|key: MatrixKey| #[trigger]
                    live@.dom().contains(key) <==> used.contains(key),
                forall|one: MatrixKey, two: MatrixKey|
                    #![trigger before[one], before[two]]
                    before.dom().contains(one) && before.dom().contains(two) && before[one]
                        == before[two] ==> one == two,
                self.used@ == used,
                self.last == old(self).last,
                forall|key: MatrixKey| #[trigger]
                    self.owners@.dom().contains(key) <==> before.dom().contains(key) && (
                    used.contains(key) || !keys@.take(j as int).contains(key)),
                forall|key: MatrixKey| #[trigger]
                    self.owners@.dom().contains(key) ==> self.owners@[key] == before[key],
                released@.no_duplicates(),
                forall|owner: u64| #[trigger]
                    released@.contains(owner) <==> exists|key: MatrixKey|
                        keys@.take(j as int).contains(key) && !used.contains(key)
                            && #[trigger] before[key] == owner,
            decreases keys@.len() - j,
        {
            let key = keys[j];
            let ghost done = keys@.take(j as int);
            let ghost next = keys@.take(j + 1);
            let ghost had = self.owners@;
            let ghost gone = released@;
            proof {
                assert(next =~= done.push(key));
                assert(keys@.contains(key));
                assert(!done.contains(key)) by {
                    if done.contains(key) {
                        let at = choose|k: int| 0 <= k < j && #[trigger] done[k] == key;
                        assert(keys@[at] == keys@[j as int]);
                    }
                }
                assert forall|other: MatrixKey| #[trigger]
                    next.contains(other) <==> done.contains(other) || other == key by {
                    if done.contains(other) {
                        let at = choose|k: int| 0 <= k < j && #[trigger] done[k] == other;
                        assert(next[at] == other);
                    }
                    if other == key {
                        assert(next[j as int] == key);
                    }
                    if next.contains(other) && other != key {
                        let at = choose|k: int| 0 <= k < j + 1 && #[trigger] next[k] == other;
                        assert(done[at] == other);
                    }
                }
            }
            match owners_get(&live, key) {
                Some(_) => {
                    proof {
                        assert(used.contains(key));
                        assert forall|owner: u64| #[trigger]
                            released@.contains(owner) <==> exists|other: MatrixKey|
                                next.contains(other) && !used.contains(other)
                                    && #[trigger] before[other] == owner by {
                            if released@.contains(owner) {
                                let other = choose|other: MatrixKey|
                                    done.contains(other) && !used.contains(other)
                                        && #[trigger] before[other] == owner;
                                assert(next.contains(other) && before[other] == owner);
                            }
                        }
                    }
                },
                None => {
                    match owners_get(&self.owners, key) {
                        Some(owner) => {
                            released.push(owner);
                            proof {
                                assert(owner == before[key]);
                                assert forall|other: MatrixKey| #[trigger]
                                    done.contains(other) implies before.dom().contains(other) by {
                                    let at = choose|k: int|
                                        0 <= k < j && #[trigger] done[k] == other;
                                    assert(keys@[at] == other);
                                    assert(keys@.contains(other));
                                }
                                lemma_one_more_released(
                                    gone,
                                    released@,
                                    owner,
                                    before,
                                    used,
                                    done,
                                    next,
                                    key,
                                    keys@,
                                );
                            }
                        },
                        None => {
                            proof {
                                assert(had.dom().contains(key));
                                assert(false);
                            }
                        },
                    }
                    owners_remove(&mut self.owners, key);
                },
            }
            j = j + 1;
        }
        proof {
            assert(keys@.take(j as int) =~= keys@);
            assert(self.owners@ =~= before.restrict(used.to_set()));
            assert forall|owner: u64| #[trigger]
                released@.contains(owner) <==> idle(before, used, owner) by {
                if released@.contains(owner) {
                    let key = choose|key: MatrixKey|
                        keys@.contains(key) && !used.contains(key)
                            && #[trigger] before[key] == owner;
                    assert(before.dom().contains(key) && before[key] == owner);
                }
                if exists|key: MatrixKey|
                    before.dom().contains(key) && !used.contains(key)
                        && #[trigger] before[key] == owner {
                    let key = choose|key: MatrixKey|
                        before.dom().contains(key) && !used.contains(key)
                            && #[trigger] before[key] == owner;
                    assert(keys@.contains(key) && before[key] == owner);
                }
            }
        }
        self.used.clear();
        proof {
            assert(before == old(self).owners());
            assert(used == old(self).used());
            assert forall|key: MatrixKey| #[trigger] self.owners().dom().contains(key) implies 1
                <= self.owners()[key] <= self.last() by {
                assert(old(self).owners().dom().contains(key));
            }
            assert forall|one: MatrixKey, two: MatrixKey|
                #![trigger self.owners()[one], self.owners()[two]]
                self.owners().dom().contains(one) && self.owners().dom().contains(two)
                    && self.owners()[one] == self.owners()[two] implies one == two by {
                assert(before[one] == before[two]);
            }
        }
        released
    }

    /// The coordinate system for a sprite's transform.
    ///
    /// The identity, which is nearly every sprite, is the viewport itself and costs no owner.
    pub fn id_for(&mut self, transform: &TransformationMatrix) -> (space: Space)
        requires
            old(self).wf(),
            old(self).last() < u64::MAX,
        ensures
            final(self).wf(),
            interns(*old(self), *transform, *final(self), space),
    {
        if transform.unit() {
            return Space::Viewport;
        }
        let affine = affine_of(transform);
        let key = matrix_key(&affine);
        let owner: u64 = match owners_get(&self.owners, key) {
            Some(owner) => owner,
            None => {
                self.last = self.last + 1;
                owners_insert(&mut self.owners, key, self.last);
                self.last
            },
        };
        self.used.push(key);
        proof {
            let before = old(self).owners();
            assert forall|one: MatrixKey, two: MatrixKey|
                #![trigger self.owners()[one], self.owners()[two]]
                self.owners().dom().contains(one) && self.owners().dom().contains(two)
                    && self.owners()[one] == self.owners()[two] implies one == two by {
                assert(before.dom().contains(one) ==> before[one] <= old(self).last());
                assert(before.dom().contains(two) ==> before[two] <= old(self).last());
                assert(before[one] == before[two] && before.dom().contains(one)
                    && before.dom().contains(two) ==> one == two);
            }
            assert forall|i: int| 0 <= i < self.used@.len() implies self.owners@.dom().contains(
                #[trigger] self.used@[i],
            ) by {
                if i < old(self).used@.len() {
                    assert(old(self).used()[i] == self.used@[i]);
                }
            }
        }
        Space::Owned { owner, affine }
    }
}

/// Whether asking for the space of `transform` takes `before` to `after` and gives `space`: the
/// viewport for the identity, which changes nothing; the owner its matrix already has; or else the
/// next owner, which the matrix then has.
pub open spec fn interns(
    before: Transforms,
    transform: TransformationMatrix,
    after: Transforms,
    space: Space,
) -> bool {
    let affine = coefficients(transform);
    let key = key_of(affine);
    let next = (before.last() + 1) as u64;
    if transform.is_unit() {
        space == Space::Viewport && after == before
    } else if before.owners().dom().contains(key) {
        &&& space == Space::Owned { owner: before.owners()[key], affine }
        &&& after.used() == before.used().push(key)
        &&& after.owners() == before.owners()
        &&& after.last() == before.last()
    } else {
        &&& space == Space::Owned { owner: next, affine }
        &&& after.used() == before.used().push(key)
        &&& after.owners() == before.owners().insert(key, next)
        &&& after.last() == next
    }
}

proof fn lemma_one_more_released(
    gone: Seq<u64>,
    released: Seq<u64>,
    owner: u64,
    before: Map<MatrixKey, u64>,
    used: Seq<MatrixKey>,
    done: Seq<MatrixKey>,
    next: Seq<MatrixKey>,
    key: MatrixKey,
    keys: Seq<MatrixKey>,
)
    requires
        released == gone.push(owner),
        gone.no_duplicates(),
        before.dom().contains(key),
        before[key] == owner,
        !used.contains(key),
        !done.contains(key),
        forall|other: MatrixKey| #[trigger]
            next.contains(other) <==> done.contains(other) || other == key,
        forall|other: MatrixKey| #[trigger] done.contains(other) ==> before.dom().contains(other),
        forall|one: MatrixKey, two: MatrixKey|
            #![trigger before[one], before[two]]
            before.dom().contains(one) && before.dom().contains(two) && before[one] == before[two]
                ==> one == two,
        forall|owner: u64| #[trigger]
            gone.contains(owner) <==> exists|key: MatrixKey|
                done.contains(key) && !used.contains(key) && #[trigger] before[key] == owner,
    ensures
        released.no_duplicates(),
        forall|owner: u64| #[trigger]
            released.contains(owner) <==> exists|key: MatrixKey|
                next.contains(key) && !used.contains(key) && #[trigger] before[key] == owner,
{
    assert(!gone.contains(owner)) by {
        if gone.contains(owner) {
            let other = choose|other: MatrixKey|
                done.contains(other) && !used.contains(other) && #[trigger] before[other] == owner;
            assert(before[other] == before[key]);
        }
    }
    assert(released.last() == owner);
    assert forall|any: u64| #[trigger]
        released.contains(any) <==> exists|other: MatrixKey|
            next.contains(other) && !used.contains(other) && #[trigger] before[other] == any by {
        if released.contains(any) {
            if any == owner {
                assert(next.contains(key) && before[key] == any);
            } else {
                let at = choose|k: int| 0 <= k < released.len() && #[trigger] released[k] == any;
                assert(gone[at] == any);
                assert(gone.contains(any));
                let other = choose|other: MatrixKey|
                    done.contains(other) && !used.contains(other)
                        && #[trigger] before[other] == any;
                assert(next.contains(other) && before[other] == any);
            }
        }
        if exists|other: MatrixKey|
            next.contains(other) && !used.contains(other) && #[trigger] before[other] == any {
            let other = choose|other: MatrixKey|
                next.contains(other) && !used.contains(other) && #[trigger] before[other] == any;
            if other == key {
                assert(released[gone.len() as int] == any);
            } else {
                assert(done.contains(other) && before[other] == any);
                assert(gone.contains(any));
                let at = choose|k: int| 0 <= k < gone.len() && #[trigger] gone[k] == any;
                assert(released[at] == any);
            }
        }
    }
}

/// Two matrices get one key exactly where their coefficients are equal as numbers, zeros of either
/// sign being the same number.
pub proof fn law_equal_matrices_share_a_key(one: Affine, two: Affine)
    ensures
        key_of(one) == key_of(two) <==> {
            &&& one.a == two.a || (is_zero(one.a) && is_zero(two.a))
            &&& one.b == two.b || (is_zero(one.b) && is_zero(two.b))
            &&& one.c == two.c || (is_zero(one.c) && is_zero(two.c))
            &&& one.d == two.d || (is_zero(one.d) && is_zero(two.d))
            &&& one.tx == two.tx || (is_zero(one.tx) && is_zero(two.tx))
            &&& one.ty == two.ty || (is_zero(one.ty) && is_zero(two.ty))
        },
{
}

/// Within a frame, equal matrices get one owner, and different ones different owners.
pub proof fn law_one_owner_per_matrix(
    before: Transforms,
    one: TransformationMatrix,
    between: Transforms,
    first: Space,
    two: TransformationMatrix,
    after: Transforms,
    second: Space,
)
    requires
        before.wf(),
        before.last() < u64::MAX - 1,
        !one.is_unit(),
        !two.is_unit(),
        interns(before, one, between, first),
        interns(between, two, after, second),
    ensures
        first->owner == second->owner <==> key_of(coefficients(one)) == key_of(coefficients(two)),
{
    let (key1, key2) = (key_of(coefficients(one)), key_of(coefficients(two)));
    if before.owners().dom().contains(key1) && before.owners().dom().contains(key2) {
        assert(before.owners()[key1] == before.owners()[key2] ==> key1 == key2);
    }
}

/// An owner is never given twice: one given to a new matrix is past every owner that any matrix
/// holds or that was released.
pub proof fn law_owners_are_never_reused(
    before: Transforms,
    transform: TransformationMatrix,
    after: Transforms,
    space: Space,
)
    requires
        before.wf(),
        before.last() < u64::MAX,
        !transform.is_unit(),
        !before.owners().dom().contains(key_of(coefficients(transform))),
        interns(before, transform, after, space),
    ensures
        space->owner > before.last(),
        after.last() == space->owner,
        forall|key: MatrixKey| #[trigger]
            before.owners().dom().contains(key) ==> before.owners()[key] < space->owner,
{
}

/// An owner is released exactly where its matrix was not asked for: one that is in use never is,
/// and one that is held and not in use always is.
pub proof fn law_owners_in_use_are_kept(transforms: Transforms, key: MatrixKey)
    requires
        transforms.wf(),
        transforms.owners().dom().contains(key),
    ensures
        idle(transforms.owners(), transforms.used(), transforms.owners()[key])
            <==> !transforms.used().contains(key),
{
    let (owners, used) = (transforms.owners(), transforms.used());
    if idle(owners, used, owners[key]) {
        let other = choose|other: MatrixKey|
            owners.dom().contains(other) && !used.contains(other) && #[trigger] owners[other]
                == owners[key];
        assert(owners[other] == owners[key]);
    }
}

} // verus!
