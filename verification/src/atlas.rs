//! The sprite atlas: rasters cached under structured keys.
//!
//! Every distinct key is handed a fresh sequence number, the handle under which the texture atlas
//! knows it, so that two keys never stand for one raster. Handles are never used twice. Content
//! that was evicted misses on the next lookup and is rebuilt under the handle it had.

use std::collections::HashMap;
use std::hash::Hash;

use rustc_hash::FxBuildHasher;
use vstd::prelude::*;
use vstd::std_specs::hash::obeys_key_model;
use zgui_atlas::Atlas;

use crate::fx::fx_clear;
use crate::fx::fx_get;
use crate::fx::fx_insert;
use crate::fx::fx_map;
use crate::fx::fx_remove;
use crate::geom::Rect;
use crate::pool::atlas_begin_frame;
use crate::pool::atlas_clear;
use crate::pool::atlas_contains;
use crate::pool::atlas_evict_all_unused;
use crate::pool::atlas_evict_to_soft_limit;
use crate::pool::atlas_get;
use crate::pool::atlas_insert;
use crate::pool::atlas_new;
use crate::pool::atlas_remove;
use crate::pool::atlas_resident;
use crate::pool::atlas_room;
use crate::pool::contents;
use crate::pool::sized;
use crate::pool::texel_bytes;
use crate::pool::AtlasLimits;
use crate::pool::Contents;
use crate::pool::Refusal;
use crate::pool::Tile;
use crate::pool::Upload;
use crate::pool::LONGEST_SIDE;
use crate::pool::POOLS;

verus! {

/// How many times an out-of-space allocation is retried after evicting cold content.
///
/// One round of eviction frees every unreferenced tile of the pool, so a second failure means the
/// frame genuinely wants more than the pool can hold.
pub const EVICTION_RETRIES: usize = 2;

/// What a raster holds: coverage, colour, or coverage per channel.
#[derive(Clone, Copy, Debug, PartialEq, Eq, Structural)]
pub enum AtlasTextureKind {
    Monochrome,
    Polychrome,
    Subpixel,
}

/// A raster's identity: its kind, and what sets it apart from others of its kind.
#[derive(Clone, Debug)]
pub struct AtlasKey<K> {
    pub kind: AtlasTextureKind,
    pub id: K,
}

/// A tile, as a sprite carries it.
#[derive(Clone, Copy, Debug, PartialEq, Eq, Structural)]
pub struct AtlasTile {
    pub texture_index: u32,
    pub texture_kind: AtlasTextureKind,
    pub tile_id: u32,
    pub padding: u32,
    pub bounds: Rect,
}

/// Why a raster got no tile.
#[derive(Clone, Copy, Debug, PartialEq, Eq, Structural)]
pub enum PlaceError {
    /// The pool is full of content in use this frame, so there was nothing to evict.
    PoolFull { kind: AtlasTextureKind },
    /// The retries ran out. One round of eviction frees everything that may go, so a raster that
    /// still has no room finds the pool full instead, and this is never given.
    OutOfSpace { width: i32, height: i32 },
    /// A side is longer than any texture's.
    TooLarge { width: i32, height: i32 },
    /// The bytes are not as many as the raster needs.
    WrongByteCount { width: i32, height: i32, actual: usize },
}

/// Why looking a raster up gave no tile.
#[derive(Debug)]
pub enum LookupError<E> {
    /// Building the raster failed.
    Build(E),
    /// The raster was built and got no tile.
    Place(PlaceError),
}

/// The pool a kind of raster is held in.
pub open spec fn pool_of(kind: AtlasTextureKind) -> int {
    match kind {
        AtlasTextureKind::Monochrome => 0,
        AtlasTextureKind::Subpixel => 1,
        AtlasTextureKind::Polychrome => 2,
    }
}

/// The kind of raster a pool holds: the pool of images holds colour too.
pub open spec fn kind_of(pool: int) -> AtlasTextureKind {
    if pool == 0 {
        AtlasTextureKind::Monochrome
    } else if pool == 1 {
        AtlasTextureKind::Subpixel
    } else {
        AtlasTextureKind::Polychrome
    }
}

/// The pool a kind of raster is held in.
pub fn texture_kind(kind: AtlasTextureKind) -> (pool: usize)
    ensures
        pool == pool_of(kind),
        pool < POOLS,
{
    match kind {
        AtlasTextureKind::Monochrome => 0,
        AtlasTextureKind::Subpixel => 1,
        AtlasTextureKind::Polychrome => 2,
    }
}

/// The kind of raster a pool holds.
pub fn atlas_texture_kind(pool: usize) -> (kind: AtlasTextureKind)
    requires
        pool < POOLS,
    ensures
        kind == kind_of(pool as int),
{
    match pool {
        0 => AtlasTextureKind::Monochrome,
        1 => AtlasTextureKind::Subpixel,
        _ => AtlasTextureKind::Polychrome,
    }
}

/// A pool's tile as a sprite carries it.
pub open spec fn sprite_tile(pool: int, tile: Tile) -> AtlasTile {
    AtlasTile {
        texture_index: tile.index,
        texture_kind: kind_of(pool),
        tile_id: tile.tile,
        padding: 0,
        bounds: tile.bounds,
    }
}

/// A pool's tile as a sprite carries it.
pub fn tile_for(pool: usize, tile: Tile) -> (sprite: AtlasTile)
    requires
        pool < POOLS,
    ensures
        sprite == sprite_tile(pool as int, tile),
{
    AtlasTile {
        texture_index: tile.index,
        texture_kind: atlas_texture_kind(pool),
        tile_id: tile.tile,
        padding: 0,
        bounds: tile.bounds,
    }
}

/// Bytes in the channel order a pool expects: in every whole texel of a four-channel pool, the
/// first and the third channel change places.
pub open spec fn reordered(pool: int, bytes: Seq<u8>) -> Seq<u8> {
    if texel_bytes(pool) == 4 {
        Seq::new(
            bytes.len(),
            |i: int|
                if i - i % 4 + 4 > bytes.len() {
                    bytes[i]
                } else if i % 4 == 0 {
                    bytes[i + 2]
                } else if i % 4 == 2 {
                    bytes[i - 2]
                } else {
                    bytes[i]
                },
        )
    } else {
        bytes
    }
}

/// The bytes for a pool, in the channel order that pool expects.
pub fn upload_bytes(pool: usize, bytes: Vec<u8>) -> (ordered: Vec<u8>)
    requires
        pool < POOLS,
    ensures
        ordered@ == reordered(pool as int, bytes@),
{
    let mut ordered = bytes;
    let ghost given = bytes@;
    if pool == 0 {
        return ordered;
    }
    let mut at: usize = 0;
    while ordered.len() - at >= 4
        invariant
            at <= ordered@.len(),
            at % 4 == 0,
            ordered@.len() == given.len(),
            forall|i: int| at <= i < given.len() ==> ordered@[i] == #[trigger] given[i],
            forall|i: int|
                0 <= i < at ==> #[trigger] ordered@[i] == (if i % 4 == 0 {
                    given[i + 2]
                } else if i % 4 == 2 {
                    given[i - 2]
                } else {
                    given[i]
                }),
        decreases ordered@.len() - at,
    {
        let blue = ordered[at];
        let red = ordered[at + 2];
        ordered.set(at, red);
        ordered.set(at + 2, blue);
        at = at + 4;
    }
    assert(ordered@ =~= reordered(pool as int, given));
    ordered
}

/// Whether keys can be told apart and copied: equal keys are the same, hash alike, and a copy of a
/// key is that key.
pub open spec fn lawful<K: Eq + Hash + Clone>() -> bool {
    &&& obeys_key_model::<K>()
    &&& forall|key: K, copy: K| #[trigger] cloned(key, copy) ==> key == copy
}

/// Whether no two keys share a handle, and every handle was given before the next one.
pub open spec fn names_apart<K>(handles: Map<K, u64>, next: u64) -> bool {
    &&& forall|key: K| #[trigger] handles.dom().contains(key) ==> handles[key] < next
    &&& forall|one: K, two: K|
        #![trigger handles[one], handles[two]]
        handles.dom().contains(one) && handles.dom().contains(two) && handles[one] == handles[two]
            ==> one == two
}

/// The handle of every key that has one, and the one that the next new key is given.
#[verifier::reject_recursive_types(K)]
#[verifier::ext_equal]
pub struct Naming<K> {
    pub handles: Map<K, u64>,
    pub next: u64,
}

impl<K> Naming<K> {
    /// The handle `id` has, or will be given.
    pub open spec fn handle_of(self, id: K) -> u64 {
        if self.handles.dom().contains(id) {
            self.handles[id]
        } else {
            self.next
        }
    }

    /// What is known once `id` was looked up: it keeps its handle, or has the next one.
    pub open spec fn looked_up(self, id: K) -> Naming<K> {
        if self.handles.dom().contains(id) {
            self
        } else {
            Naming { handles: self.handles.insert(id, self.next), next: (self.next + 1) as u64 }
        }
    }

    /// What is known once `id` was removed: it has no handle, and the next one stays the next.
    pub open spec fn removed(self, id: K) -> Naming<K> {
        if self.handles.dom().contains(id) {
            Naming { handles: self.handles.remove(id), next: self.next }
        } else {
            self
        }
    }

    /// What is known once everything was cleared: no key has a handle, and the next one stays the
    /// next.
    pub open spec fn cleared(self) -> Naming<K> {
        Naming { handles: Map::empty(), next: self.next }
    }
}

/// Giving a key the next handle, and taking one away, keep every handle to one key.
proof fn lemma_names_apart<K>(handles: Map<K, u64>, next: u64, key: K)
    requires
        names_apart(handles, next),
    ensures
        next < u64::MAX ==> names_apart(handles.insert(key, next), (next + 1) as u64),
        names_apart(handles.remove(key), next),
{
    let given = handles.insert(key, next);
    let rest = handles.remove(key);
    assert forall|one: K, two: K|
        #![trigger given[one], given[two]]
        given.dom().contains(one) && given.dom().contains(two) && given[one]
            == given[two] implies one == two by {
        assert(one != key ==> handles.dom().contains(one) && given[one] == handles[one]);
        assert(two != key ==> handles.dom().contains(two) && given[two] == handles[two]);
    }
    assert forall|one: K, two: K|
        #![trigger rest[one], rest[two]]
        rest.dom().contains(one) && rest.dom().contains(two) && rest[one]
            == rest[two] implies one == two by {
        assert(rest[one] == handles[one] && rest[two] == handles[two]);
    }
}

/// The sprite atlas, whose keys are the caller's.
#[verifier::reject_recursive_types(K)]
pub struct ZguiAtlas<K> {
    atlas: Atlas,
    /// The handle each key was given.
    ///
    /// Entries are not removed on eviction: a handle whose content went away misses on its next
    /// lookup and is inserted again under the same handle.
    handles: HashMap<K, u64, FxBuildHasher>,
    /// The next unused handle. Never reused, so a handle names one key for good.
    next_handle: u64,
}

impl<K: Eq + Hash + Clone> ZguiAtlas<K> {
    /// What the texture atlas holds.
    pub closed spec fn held(self) -> Contents {
        contents(self.atlas)
    }

    /// The rasters there is room for, each as its pool, its width and its height.
    pub closed spec fn room(self) -> Set<(int, i32, i32)> {
        atlas_room(self.atlas)
    }

    /// How many bytes the textures take.
    pub closed spec fn resident(self) -> u64 {
        atlas_resident(self.atlas)
    }

    /// Whether the textures take no more bytes than the soft limit, or there is none.
    pub open spec fn within_soft_limit(self) -> bool {
        match self.held().soft {
            Some(soft) => self.resident() <= soft,
            None => true,
        }
    }

    /// The handle of every key that has one.
    pub closed spec fn handles(self) -> Map<K, u64> {
        self.handles@
    }

    /// The handle that the next new key is given.
    pub closed spec fn next(self) -> u64 {
        self.next_handle
    }

    /// Whether keys can be told apart, no two of them share a handle, every handle was given before
    /// the next one, and the textures are within range.
    pub open spec fn wf(self) -> bool {
        &&& lawful::<K>()
        &&& names_apart(self.handles(), self.next())
        &&& self.held().limit <= LONGEST_SIDE
    }

    /// The keys' handles.
    pub open spec fn naming(self) -> Naming<K> {
        Naming { handles: self.handles(), next: self.next() }
    }

    /// The handle `key` has, or will be given.
    pub open spec fn handle_of(self, key: AtlasKey<K>) -> u64 {
        self.naming().handle_of(key.id)
    }

    /// The texture atlas's key for `key`.
    pub open spec fn key_of(self, key: AtlasKey<K>) -> (u64, int) {
        (self.handle_of(key), pool_of(key.kind))
    }

    /// Whether the raster of `key` is cached.
    pub open spec fn caches(self, key: AtlasKey<K>) -> bool {
        &&& self.handles().dom().contains(key.id)
        &&& self.held().tiles.dom().contains(self.key_of(key))
    }

    /// An atlas allocating within `limits`.
    pub fn new(limits: AtlasLimits) -> (atlas: ZguiAtlas<K>)
        requires
            lawful::<K>(),
            limits.max_texture_size <= LONGEST_SIDE,
        ensures
            atlas.wf(),
            (atlas.handles() == Map::<K, u64>::empty()),
            atlas.next() == 0,
            atlas.held() == (Contents {
                tiles: Map::empty(),
                used: Set::empty(),
                pinned: Set::empty(),
                pending: Seq::empty(),
                limit: limits.max_texture_size,
                textures: limits.max_textures_per_pool,
                soft: limits.soft_bytes,
            }),
            limits.max_textures_per_pool > 0 ==> forall|pool: int|
                !#[trigger] atlas.held().may_be_full(pool),
    {
        let atlas = ZguiAtlas { atlas: atlas_new(limits), handles: fx_map(), next_handle: 0 };
        proof {
            assert forall|pool: int|
                limits.max_textures_per_pool > 0 implies !#[trigger] atlas.held().may_be_full(
                pool,
            ) by {
                assert(!atlas.held().uses_texture(pool, 0));
            }
        }
        atlas
    }

    /// Marks the start of a frame, so that eviction can tell hot content from cold, and takes the
    /// atlas back under its soft limit where it has one: content under the limit stays, and content
    /// past it goes until the textures are within the limit or nothing cold is left.
    pub fn begin_frame(&mut self)
        requires
            old(self).wf(),
        ensures
            final(self).wf(),
            final(self).handles() == old(self).handles(),
            final(self).next() == old(self).next(),
            (Contents { used: Set::empty(), ..old(self).held() }).evicts_to(final(self).held()),
            old(self).within_soft_limit() ==> {
                &&& final(self).held() == (Contents { used: Set::empty(), ..old(self).held() })
                &&& final(self).room() == old(self).room()
                &&& final(self).resident() == old(self).resident()
            },
            (final(self).within_soft_limit() || final(self).held().cold() == Set::<
                (u64, int),
            >::empty()),
    {
        atlas_begin_frame(&mut self.atlas);
        atlas_evict_to_soft_limit(&mut self.atlas);
    }

    /// Drops every cached tile, for when the device was lost and its textures with it.
    pub fn clear(&mut self)
        requires
            old(self).wf(),
        ensures
            final(self).wf(),
            final(self).naming() == old(self).naming().cleared(),
            final(self).held() == (Contents {
                tiles: Map::empty(),
                used: Set::empty(),
                pinned: Set::empty(),
                pending: Seq::empty(),
                ..old(self).held()
            }),
    {
        atlas_clear(&mut self.atlas);
        fx_clear(&mut self.handles);
    }

    /// The texture atlas itself, for what is done to it as a whole: sending what waits to a device.
    pub fn with_atlas(&mut self) -> (atlas: &mut Atlas)
        ensures
            contents(*atlas) == old(self).held(),
            atlas_room(*atlas) == old(self).room(),
            atlas_resident(*atlas) == old(self).resident(),
            final(self).held() == contents(*final(atlas)),
            final(self).room() == atlas_room(*final(atlas)),
            final(self).resident() == atlas_resident(*final(atlas)),
            final(self).handles() == old(self).handles(),
            final(self).next() == old(self).next(),
    {
        &mut self.atlas
    }

    /// Whether there is a handle left for one more key.
    pub fn has_handle(&self) -> (left: bool)
        ensures
            left == (self.next() < u64::MAX),
    {
        self.next_handle < u64::MAX
    }

    /// The handle for `key`, giving it one the first time it is asked for.
    pub fn zgui_key(&mut self, key: &AtlasKey<K>) -> (handle: u64)
        requires
            old(self).wf(),
            old(self).next() < u64::MAX,
        ensures
            final(self).wf(),
            handle == old(self).handle_of(*key),
            final(self).naming() == old(self).naming().looked_up(key.id),
            final(self).held() == old(self).held(),
            final(self).room() == old(self).room(),
            final(self).resident() == old(self).resident(),
            final(self).handles().dom().contains(key.id),
            final(self).handle_of(*key) == handle,
    {
        match fx_get(&self.handles, &key.id) {
            Some(handle) => handle,
            None => {
                let handle = self.next_handle;
                let id = key.id.clone();
                self.next_handle = self.next_handle + 1;
                fx_insert(&mut self.handles, id, handle);
                proof {
                    assert(cloned(key.id, id));
                    lemma_names_apart(old(self).handles(), old(self).next(), key.id);
                }
                handle
            },
        }
    }

    /// Frees cold content, and says whether anything was released.
    ///
    /// An entry this frame has looked up is never evicted, so no tile is reclaimed whose place is
    /// already in a sprite of the same frame.
    fn evict(&mut self) -> (freed: bool)
        ensures
            final(self).held() == old(self).held().swept(),
            !freed <==> old(self).held().cold() == Set::<(u64, int)>::empty(),
            !freed ==> final(self).room() == old(self).room(),
            final(self).handles() == old(self).handles(),
            final(self).next() == old(self).next(),
    {
        let tiles = atlas_evict_all_unused(&mut self.atlas);
        proof {
            let cold = old(self).held().cold();
            if cold.len() == 0 {
                cold.lemma_len0_is_empty();
            }
        }
        tiles > 0
    }

    /// The tile for `key`, building the raster where it is not cached.
    ///
    /// A hit gives the tile without building. On a miss, a build that fails or declines leaves the
    /// cached rasters as they are, and a built raster is placed as [`ZguiAtlas::place`] says.
    pub fn get_or_insert_with<E, F: FnOnce() -> Result<Option<(i32, i32, Vec<u8>)>, E>>(
        &mut self,
        key: &AtlasKey<K>,
        build: F,
    ) -> (found: Result<Option<AtlasTile>, LookupError<E>>)
        requires
            old(self).wf(),
            old(self).next() < u64::MAX,
            !old(self).held().tiles.dom().contains(old(self).key_of(*key)) ==> build.requires(()),
        ensures
            final(self).wf(),
            final(self).naming() == old(self).naming().looked_up(key.id),
            old(self).held().disjoint() ==> final(self).held().disjoint(),
            old(self).held().tiles.dom().contains(old(self).key_of(*key)) ==> {
                &&& found == Ok::<Option<AtlasTile>, LookupError<E>>(
                    Some(
                        sprite_tile(
                            pool_of(key.kind),
                            old(self).held().tiles[old(self).key_of(*key)],
                        ),
                    ),
                )
                &&& final(self).held() == old(self).held().touched(old(self).key_of(*key))
                &&& final(self).room() == old(self).room()
            },
            !old(self).held().tiles.dom().contains(old(self).key_of(*key)) ==> exists|
                built: Result<Option<(i32, i32, Vec<u8>)>, E>,
            | #[trigger]
                build.ensures((), built) && fills(
                    old(self).held(),
                    old(self).room(),
                    old(self).key_of(*key),
                    built,
                    final(self).held(),
                    final(self).room(),
                    found,
                ),
    {
        let pool = texture_kind(key.kind);
        let handle = self.zgui_key(key);
        if let Some(tile) = atlas_get(&mut self.atlas, handle, pool) {
            return Ok(Some(tile_for(pool, tile)));
        }
        match build() {
            Err(error) => Err(LookupError::Build(error)),
            Ok(None) => Ok(None),
            Ok(Some((width, height, bytes))) => match self.place_at(
                handle,
                key.kind,
                width,
                height,
                bytes,
            ) {
                Ok(tile) => Ok(Some(tile)),
                Err(error) => Err(LookupError::Place(error)),
            },
        }
    }

    /// Places the raster of a key that has none, evicting cold content where its pool has no room.
    pub fn place(&mut self, key: &AtlasKey<K>, width: i32, height: i32, bytes: Vec<u8>) -> (placed:
        Result<AtlasTile, PlaceError>)
        requires
            old(self).wf(),
            old(self).next() < u64::MAX,
            !old(self).held().tiles.dom().contains(old(self).key_of(*key)),
        ensures
            final(self).wf(),
            final(self).naming() == old(self).naming().looked_up(key.id),
            places(
                old(self).held(),
                old(self).room(),
                old(self).key_of(*key),
                width,
                height,
                bytes@,
                final(self).held(),
                final(self).room(),
                placed,
            ),
    {
        let handle = self.zgui_key(key);
        self.place_at(handle, key.kind, width, height, bytes)
    }

    fn place_at(
        &mut self,
        handle: u64,
        kind: AtlasTextureKind,
        width: i32,
        height: i32,
        bytes: Vec<u8>,
    ) -> (placed: Result<AtlasTile, PlaceError>)
        requires
            old(self).wf(),
            !old(self).held().tiles.dom().contains((handle, pool_of(kind))),
        ensures
            final(self).wf(),
            final(self).handles() == old(self).handles(),
            final(self).next() == old(self).next(),
            places(
                old(self).held(),
                old(self).room(),
                (handle, pool_of(kind)),
                width,
                height,
                bytes@,
                final(self).held(),
                final(self).room(),
                placed,
            ),
    {
        let pool = texture_kind(kind);
        let actual = bytes.len();
        let ordered = upload_bytes(pool, bytes);
        let ghost id = (handle, pool as int);
        let ghost start = self.held();
        let ghost room = self.room();
        proof {
            lemma_swept(start);
            lemma_reordered_len(pool as int, bytes@);
        }
        let mut attempt: usize = 0;
        loop
            invariant
                pool == pool_of(kind),
                pool < POOLS,
                id == (handle, pool as int),
                actual == bytes@.len(),
                ordered@ == reordered(pool as int, bytes@),
                ordered@.len() == bytes@.len(),
                attempt <= 1,
                self.wf(),
                self.handles() == old(self).handles(),
                self.next() == old(self).next(),
                start == old(self).held(),
                room == old(self).room(),
                attempt == 0 ==> self.held() == start && self.room() == room,
                attempt == 1 ==> self.held() == start.swept(),
                attempt == 1 ==> width <= 0 || height <= 0 || {
                    &&& sized(start.limit, width, height)
                    &&& !room.contains((pool as int, width, height))
                    &&& start.may_be_full(pool as int)
                },
                start.swept().swept() == start.swept(),
                (start.swept().cold() == Set::<(u64, int)>::empty()),
                (start.cold() == Set::<(u64, int)>::empty()) ==> start.swept() == start,
                start.disjoint() ==> start.swept().disjoint(),
                !start.tiles.dom().contains(id),
                !start.swept().tiles.dom().contains(id),
            decreases EVICTION_RETRIES - attempt,
        {
            let ghost before = self.held();
            match atlas_insert(
                &mut self.atlas,
                handle,
                pool,
                (width, height),
                ordered.clone(),
            ) {
                Ok(tile) => {
                    proof {
                        assert(self.held() == before.with(id, tile, reordered(id.1, bytes@)));
                    }
                    return Ok(tile_for(pool, tile));
                },
                Err(Refusal::OutOfSpace) => {
                    if attempt >= EVICTION_RETRIES {
                        return Err(PlaceError::OutOfSpace { width, height });
                    }
                    let freed = self.evict();
                    if !freed {
                        return Err(PlaceError::PoolFull { kind });
                    }
                    attempt = attempt + 1;
                },
                Err(Refusal::TooLarge) => {
                    return Err(PlaceError::TooLarge { width, height });
                },
                Err(Refusal::WrongByteCount) => {
                    return Err(PlaceError::WrongByteCount { width, height, actual });
                },
            }
        }
    }
}

impl<K: Eq + Hash + Clone> ZguiAtlas<K> {
    /// Forgets the raster of `key` and the handle it had.
    pub fn remove(&mut self, key: &AtlasKey<K>)
        requires
            old(self).wf(),
        ensures
            final(self).wf(),
            final(self).naming() == old(self).naming().removed(key.id),
            final(self).held() == if old(self).handles().dom().contains(key.id) {
                old(self).held().without(old(self).key_of(*key))
            } else {
                old(self).held()
            },
    {
        let pool = texture_kind(key.kind);
        match fx_get(&self.handles, &key.id) {
            Some(handle) => {
                fx_remove(&mut self.handles, &key.id);
                atlas_remove(&mut self.atlas, handle, pool);
                proof {
                    lemma_names_apart(old(self).handles(), old(self).next(), key.id);
                }
            },
            None => {},
        }
    }

    /// Whether the raster of `key` is currently cached.
    pub fn is_cached(&self, key: &AtlasKey<K>) -> (cached: bool)
        requires
            self.wf(),
        ensures
            cached == self.caches(*key),
    {
        let pool = texture_kind(key.kind);
        match fx_get(&self.handles, &key.id) {
            Some(handle) => atlas_contains(&self.atlas, handle, pool),
            None => false,
        }
    }
}

/// What is left of `before` once there was to be room for a raster: all of it where there was room
/// already, and otherwise what is not cold.
pub open spec fn makes_room(
    before: Contents,
    room: Set<(int, i32, i32)>,
    pool: int,
    width: i32,
    height: i32,
) -> Contents {
    if room.contains((pool, width, height)) {
        before
    } else {
        before.swept()
    }
}

/// Whether, from `before` and its `room`, a raster of the given size and bytes got the tile that
/// `placed` says and the atlas then holds `after` and has room for `left`. Where there was room
/// nothing is evicted; where there was none everything cold is, and what this frame used stays
/// where it is. A raster that is too large is refused as such, and one for which there is no room
/// even then finds the pool full.
pub open spec fn places(
    before: Contents,
    room: Set<(int, i32, i32)>,
    key: (u64, int),
    width: i32,
    height: i32,
    bytes: Seq<u8>,
    after: Contents,
    left: Set<(int, i32, i32)>,
    placed: Result<AtlasTile, PlaceError>,
) -> bool {
    match placed {
        Ok(tile) => {
            &&& sized(before.limit, width, height)
            &&& bytes.len() == texel_bytes(key.1) * width * height
            &&& exists|kept: Contents, at: Tile|
                {
                    &&& kept == makes_room(before, room, key.1, width, height)
                    &&& at.bounds.width == width
                    &&& at.bounds.height == height
                    &&& tile == sprite_tile(key.1, at)
                    &&& after == #[trigger] kept.with(key, at, reordered(key.1, bytes))
                }
            &&& before.disjoint() ==> after.disjoint()
        },
        Err(PlaceError::TooLarge { width: w, height: h }) => {
            &&& w == width && h == height
            &&& width > 0 && height > 0
            &&& width > before.limit || height > before.limit
            &&& after == before
        },
        Err(PlaceError::WrongByteCount { width: w, height: h, actual }) => {
            &&& w == width && h == height && actual == bytes.len()
            &&& sized(before.limit, width, height)
            &&& bytes.len() != texel_bytes(key.1) * width * height
            &&& after == makes_room(before, room, key.1, width, height)
        },
        Err(PlaceError::OutOfSpace { .. }) => false,
        Err(PlaceError::PoolFull { kind }) => {
            &&& kind == kind_of(key.1)
            &&& width <= 0 || height <= 0 || {
                &&& sized(before.limit, width, height)
                &&& !room.contains((key.1, width, height))
                &&& !left.contains((key.1, width, height))
                &&& before.may_be_full(key.1)
                &&& before.swept().may_be_full(key.1)
            }
            &&& after == before.swept()
        },
    }
}

/// Whether, from `before` and its `room`, a miss for which the build gave `built` was answered by
/// `found` and the atlas then holds `after` and has room for `left`.
pub open spec fn fills<E>(
    before: Contents,
    room: Set<(int, i32, i32)>,
    key: (u64, int),
    built: Result<Option<(i32, i32, Vec<u8>)>, E>,
    after: Contents,
    left: Set<(int, i32, i32)>,
    found: Result<Option<AtlasTile>, LookupError<E>>,
) -> bool {
    match built {
        Err(error) => {
            &&& found == Err::<Option<AtlasTile>, LookupError<E>>(LookupError::Build(error))
            &&& after == before && left == room
        },
        Ok(None) => {
            &&& found == Ok::<Option<AtlasTile>, LookupError<E>>(None)
            &&& after == before && left == room
        },
        Ok(Some((width, height, bytes))) => match found {
            Ok(Some(tile)) => places(
                before,
                room,
                key,
                width,
                height,
                bytes@,
                after,
                left,
                Ok(tile),
            ),
            Err(LookupError::Place(error)) => places(
                before,
                room,
                key,
                width,
                height,
                bytes@,
                after,
                left,
                Err(error),
            ),
            _ => false,
        },
    }
}

proof fn lemma_reordered_len(pool: int, bytes: Seq<u8>)
    ensures
        reordered(pool, bytes).len() == bytes.len(),
{
}

/// What is left without some keys is as disjoint as what was held.
pub proof fn lemma_rest_disjoint(before: Contents, gone: Set<(u64, int)>)
    ensures
        before.disjoint() ==> before.without_all(gone).disjoint(),
{
    let after = before.without_all(gone);
    if before.disjoint() {
        assert forall|one: (u64, int), two: (u64, int)|
            #![trigger after.tiles[one], after.tiles[two]]
            after.tiles.dom().contains(one) && after.tiles.dom().contains(two) && one != two
                && one.1 == two.1 && after.tiles[one].index
                == after.tiles[two].index implies {
            &&& !after.tiles[one].bounds.meets(after.tiles[two].bounds)
            &&& after.tiles[one].tile != after.tiles[two].tile
        } by {
            assert(before.tiles[one] == after.tiles[one]);
            assert(before.tiles[two] == after.tiles[two]);
        }
    }
}

/// Leaving out no key changes nothing.
proof fn lemma_without_none(held: Contents)
    ensures
        held.without_all(Set::empty()) == held,
{
    let none = Set::<(u64, int)>::empty();
    let stays = |upload: Upload|
        !exists|key: (u64, int)|
            none.contains(key) && #[trigger] crate::pool::uploads_to(
                upload,
                key.1,
                held.tiles[key],
            );
    lemma_filter_all(held.pending, stays);
    assert(held.tiles.remove_keys(none) =~= held.tiles);
}

/// Sweeping leaves nothing cold, is no different the second time, and changes nothing where nothing
/// was cold.
proof fn lemma_swept(held: Contents)
    ensures
        (held.swept().cold() == Set::<(u64, int)>::empty()),
        held.swept().swept() == held.swept(),
        (held.cold() == Set::<(u64, int)>::empty()) ==> held.swept() == held,
        held.disjoint() ==> held.swept().disjoint(),
{
    assert(held.swept().cold() =~= Set::<(u64, int)>::empty());
    lemma_without_none(held.swept());
    lemma_without_none(held);
    lemma_rest_disjoint(held, held.cold());
}

proof fn lemma_filter_all(items: Seq<Upload>, keep: spec_fn(Upload) -> bool)
    requires
        forall|upload: Upload| #[trigger] keep(upload),
    ensures
        items.filter(keep) == items,
    decreases items.len(),
{
    reveal(Seq::filter);
    if items.len() > 0 {
        lemma_filter_all(items.drop_last(), keep);
        assert(keep(items.last()));
        assert(items.drop_last().push(items.last()) =~= items);
    }
}

/// Two keys never stand for one raster: different keys have different handles, and so different
/// keys in the texture atlas.
pub proof fn law_distinct_keys_have_distinct_handles<K: Eq + Hash + Clone>(
    atlas: ZguiAtlas<K>,
    one: AtlasKey<K>,
    two: AtlasKey<K>,
)
    requires
        atlas.wf(),
        atlas.handles().dom().contains(one.id),
        atlas.handles().dom().contains(two.id),
    ensures
        atlas.key_of(one) == atlas.key_of(two) <==> one == two,
{
    assert(atlas.handles()[one.id] == atlas.handles()[two.id] ==> one.id == two.id);
}

/// What is done with a key: it is looked up, it is removed, or every key is.
pub enum KeyStep<K> {
    LookUp(K),
    Remove(K),
    Clear,
}

/// The keys' handles after some steps, in order.
pub open spec fn named_after<K>(start: Naming<K>, steps: Seq<KeyStep<K>>) -> Naming<K>
    decreases steps.len(),
{
    if steps.len() == 0 {
        start
    } else {
        let before = named_after(start, steps.drop_last());
        match steps.last() {
            KeyStep::LookUp(id) => before.looked_up(id),
            KeyStep::Remove(id) => before.removed(id),
            KeyStep::Clear => before.cleared(),
        }
    }
}

/// The handle that the look-up at `at` gives.
pub open spec fn handle_at<K>(start: Naming<K>, steps: Seq<KeyStep<K>>, at: int) -> u64 {
    named_after(start, steps.take(at)).handle_of(steps[at]->LookUp_0)
}

/// Every key keeps to its own handle, however many steps there are.
proof fn lemma_named_apart<K>(start: Naming<K>, steps: Seq<KeyStep<K>>)
    requires
        names_apart(start.handles, start.next),
        start.next + steps.len() <= u64::MAX,
    ensures
        ({
            let after = named_after(start, steps);
            &&& names_apart(after.handles, after.next)
            &&& start.next <= after.next <= start.next + steps.len()
        }),
    decreases steps.len(),
{
    if steps.len() > 0 {
        lemma_named_apart(start, steps.drop_last());
        let before = named_after(start, steps.drop_last());
        match steps.last() {
            KeyStep::LookUp(id) => {
                lemma_names_apart(before.handles, before.next, id);
            },
            KeyStep::Remove(id) => {
                lemma_names_apart(before.handles, before.next, id);
            },
            KeyStep::Clear => {},
        }
    }
}

/// A handle that was given at `at` names that key and no other ever after, and names it for as long
/// as neither it nor everything is removed.
proof fn lemma_given_for_good<K>(start: Naming<K>, steps: Seq<KeyStep<K>>, at: int, upto: int)
    requires
        names_apart(start.handles, start.next),
        start.next + steps.len() <= u64::MAX,
        0 <= at < upto <= steps.len(),
        steps[at] is LookUp,
    ensures
        ({
            let id = steps[at]->LookUp_0;
            let handle = handle_at(start, steps, at);
            let state = named_after(start, steps.take(upto));
            &&& state.next > handle
            &&& forall|other: K| #[trigger]
                state.handles.dom().contains(other) && state.handles[other] == handle ==> other
                    == id
            &&& (forall|k: int|
                at < k < upto ==> #[trigger] steps[k] is LookUp || (steps[k] is Remove
                    && steps[k]->Remove_0 != id)) ==> state.handles.dom().contains(id)
                && state.handles[id] == handle
        }),
    decreases upto,
{
    let id = steps[at]->LookUp_0;
    let handle = handle_at(start, steps, at);
    assert(steps.take(upto).drop_last() =~= steps.take(upto - 1));
    assert(steps.take(upto).last() == steps[upto - 1]);
    let before = named_after(start, steps.take(upto - 1));
    lemma_named_apart(start, steps.take(upto - 1));
    if upto == at + 1 {
        let state = before.looked_up(id);
        assert forall|other: K| #[trigger]
            state.handles.dom().contains(other) && state.handles[other]
                == handle implies other == id by {
            if other != id {
                assert(before.handles.dom().contains(other));
                assert(before.handles[other] == state.handles[other]);
                if before.handles.dom().contains(id) {
                    assert(before.handles[other] == before.handles[id]);
                }
            }
        }
    } else {
        lemma_given_for_good(start, steps, at, upto - 1);
        let state = named_after(start, steps.take(upto));
        assert forall|other: K| #[trigger]
            state.handles.dom().contains(other) && state.handles[other]
                == handle implies other == id by {
            if before.handles.dom().contains(other) {
                assert(before.handles[other] == state.handles[other]);
            }
        }
    }
}

/// A handle is given to one key only, however many look-ups, removals and clears there are: two
/// look-ups that give one handle are of one key, and two look-ups of one key give one handle unless
/// the key was removed in between, by itself or with all others.
pub proof fn law_handles_are_never_reused<K>(
    start: Naming<K>,
    steps: Seq<KeyStep<K>>,
    one: int,
    two: int,
)
    requires
        names_apart(start.handles, start.next),
        start.next + steps.len() <= u64::MAX,
        0 <= one < two < steps.len(),
        steps[one] is LookUp,
        steps[two] is LookUp,
    ensures
        handle_at(start, steps, one) == handle_at(start, steps, two) ==> steps[one]->LookUp_0
            == steps[two]->LookUp_0,
        steps[one]->LookUp_0 == steps[two]->LookUp_0 && (forall|k: int|
            one < k < two ==> #[trigger] steps[k] is LookUp || (steps[k] is Remove
                && steps[k]->Remove_0 != steps[one]->LookUp_0)) ==> handle_at(start, steps, one)
            == handle_at(start, steps, two),
{
    lemma_given_for_good(start, steps, one, two);
}

/// Tiles of one texture stay apart: neither evicting nor removing brings two of them together.
pub proof fn law_tiles_stay_apart(before: Contents, after: Contents, key: (u64, int))
    requires
        before.disjoint(),
        before.evicts_to(after) || after == before.without(key),
    ensures
        after.disjoint(),
{
    if before.evicts_to(after) {
        let gone = choose|gone: Set<(u64, int)>| #[trigger]
            gone.subset_of(before.cold()) && after == before.without_all(gone);
        lemma_rest_disjoint(before, gone);
    } else {
        assert forall|one: (u64, int), two: (u64, int)|
            #![trigger after.tiles[one], after.tiles[two]]
            after.tiles.dom().contains(one) && after.tiles.dom().contains(two) && one != two
                && one.1 == two.1 && after.tiles[one].index
                == after.tiles[two].index implies {
            &&& !after.tiles[one].bounds.meets(after.tiles[two].bounds)
            &&& after.tiles[one].tile != after.tiles[two].tile
        } by {
            assert(before.tiles[one] == after.tiles[one]);
            assert(before.tiles[two] == after.tiles[two]);
        }
    }
}

/// What this frame used is never evicted to make room: it keeps its tile, and so the place already
/// in a sprite stays right.
pub proof fn law_used_tiles_stay(
    before: Contents,
    room: Set<(int, i32, i32)>,
    key: (u64, int),
    width: i32,
    height: i32,
    bytes: Seq<u8>,
    after: Contents,
    left: Set<(int, i32, i32)>,
    placed: Result<AtlasTile, PlaceError>,
    other: (u64, int),
)
    requires
        places(before, room, key, width, height, bytes, after, left, placed),
        !before.tiles.dom().contains(key),
        before.tiles.dom().contains(other),
        before.used.contains(other),
    ensures
        after.tiles.dom().contains(other),
        after.tiles[other] == before.tiles[other],
{
    assert(before.swept().tiles.dom().contains(other));
}

/// One round of eviction frees everything that may go, so a raster that finds its pool full leaves
/// only what this frame used or what is held, and would find it full again.
pub proof fn law_full_pool_is_all_hot(
    before: Contents,
    room: Set<(int, i32, i32)>,
    key: (u64, int),
    width: i32,
    height: i32,
    bytes: Seq<u8>,
    after: Contents,
    left: Set<(int, i32, i32)>,
    kind: AtlasTextureKind,
)
    requires
        places(
            before,
            room,
            key,
            width,
            height,
            bytes,
            after,
            left,
            Err(PlaceError::PoolFull { kind }),
        ),
    ensures
        forall|other: (u64, int)| #[trigger]
            after.tiles.dom().contains(other) ==> after.is_hot(other),
        after.swept() == after,
{
    lemma_swept(before);
}

/// A raster gets a tile wherever there is room for one, and then nothing is evicted for it. There
/// is room while a texture that its pool may have holds no tile.
pub proof fn law_raster_with_room_is_placed(
    before: Contents,
    room: Set<(int, i32, i32)>,
    key: (u64, int),
    width: i32,
    height: i32,
    bytes: Seq<u8>,
    after: Contents,
    left: Set<(int, i32, i32)>,
    placed: Result<AtlasTile, PlaceError>,
)
    requires
        places(before, room, key, width, height, bytes, after, left, placed),
        sized(before.limit, width, height),
        bytes.len() == texel_bytes(key.1) * width * height,
    ensures
        room.contains((key.1, width, height)) ==> {
            &&& placed is Ok
            &&& after.tiles.dom() == before.tiles.dom().insert(key)
        },
        !before.may_be_full(key.1) ==> placed is Ok,
        placed is Err ==> !left.contains((key.1, width, height)),
{
}

/// A pool has room while it holds fewer tiles than it may have textures, whatever their sizes.
pub proof fn law_few_tiles_leave_room(held: Contents, pool: int, keys: Set<(u64, int)>)
    requires
        forall|key: (u64, int)| #[trigger]
            held.tiles.dom().contains(key) && key.1 == pool ==> keys.contains(key),
        keys.finite(),
        keys.len() < held.textures,
    ensures
        !held.may_be_full(pool),
{
    if held.may_be_full(pool) {
        let holder = |index: int|
            choose|key: (u64, int)|
                keys.contains(key) && (#[trigger] held.tiles[key]).index == index;
        let indices = vstd::set_lib::set_int_range(0, held.textures as int);
        vstd::set_lib::lemma_int_range(0, held.textures as int);
        assert forall|index: int| indices.contains(index) implies keys.contains(
            #[trigger] holder(index),
        ) && held.tiles[holder(index)].index == index by {
            assert(held.uses_texture(pool, index as u32));
            let key = choose|key: (u64, int)| #[trigger]
                held.tiles.dom().contains(key) && key.1 == pool && held.tiles[key].index
                    == index as u32;
            assert(keys.contains(key) && held.tiles[key].index == index);
        }
        vstd::set_lib::lemma_map_size(indices, indices.map(holder), holder);
        assert(indices.map(holder).subset_of(keys));
        vstd::set_lib::lemma_len_subset(indices.map(holder), keys);
    }
}

/// A raster that was placed is found again: its tile is the one that was given.
pub proof fn law_placed_raster_is_found(
    before: Contents,
    room: Set<(int, i32, i32)>,
    key: (u64, int),
    width: i32,
    height: i32,
    bytes: Seq<u8>,
    after: Contents,
    left: Set<(int, i32, i32)>,
    tile: AtlasTile,
)
    requires
        places(before, room, key, width, height, bytes, after, left, Ok(tile)),
    ensures
        after.tiles.dom().contains(key),
        sprite_tile(key.1, after.tiles[key]) == tile,
        after.used.contains(key),
        after.pending.last().bytes == reordered(key.1, bytes),
{
}

/// A removed raster is forgotten: it is not cached, and its key gets a new handle next time.
pub proof fn law_removed_key_is_forgotten<K: Eq + Hash + Clone>(
    before: ZguiAtlas<K>,
    key: AtlasKey<K>,
    after: ZguiAtlas<K>,
)
    requires
        before.wf(),
        before.handles().dom().contains(key.id),
        after.naming() == before.naming().removed(key.id),
        after.held() == before.held().without(before.key_of(key)),
    ensures
        !after.caches(key),
        !after.held().tiles.dom().contains(before.key_of(key)),
        after.handle_of(key) != before.handle_of(key),
{
}

/// Exchanging the first and the third channel twice gives the bytes back.
pub proof fn law_reordering_twice_is_nothing(pool: int, bytes: Seq<u8>)
    ensures
        reordered(pool, reordered(pool, bytes)) == bytes,
{
    assert(reordered(pool, reordered(pool, bytes)) =~= bytes);
}

/// Every kind of raster has its own pool: coverage the first, coverage per channel the second, and
/// colour the third. The fourth, of images, holds colour too.
pub proof fn law_every_kind_has_its_pool(kind: AtlasTextureKind, pool: int)
    requires
        0 <= pool < 4,
    ensures
        kind is Monochrome <==> pool_of(kind) == 0,
        kind is Subpixel <==> pool_of(kind) == 1,
        kind is Polychrome <==> pool_of(kind) == 2,
        kind_of(pool_of(kind)) == kind,
        pool < 3 ==> pool_of(kind_of(pool)) == pool,
        kind_of(3) is Polychrome,
        POOLS == 4,
{
}

/// A sprite carries its tile as it is: the texture, the handle in it, and the part it occupies.
pub proof fn law_sprites_carry_their_tile(pool: int, tile: Tile)
    ensures
        sprite_tile(pool, tile).texture_index == tile.index,
        sprite_tile(pool, tile).tile_id == tile.tile,
        sprite_tile(pool, tile).bounds == tile.bounds,
        sprite_tile(pool, tile).texture_kind == kind_of(pool),
        sprite_tile(pool, tile).padding == 0,
{
}

/// A texel of coverage is one byte, and any other four.
pub proof fn law_texels_have_their_bytes(pool: int)
    ensures
        texel_bytes(pool) == 1 <==> pool == 0,
        texel_bytes(pool) == 4 <==> pool != 0,
{
}

/// In a pool of four channels the first and the third channel of every whole texel change places,
/// and the second and the fourth stay. In the pool of coverage nothing is moved, and neither are
/// bytes past the last whole texel.
pub proof fn law_channels_change_places(pool: int, bytes: Seq<u8>, texel: int)
    requires
        0 <= texel,
    ensures
        reordered(pool, bytes).len() == bytes.len(),
        pool == 0 ==> reordered(pool, bytes) == bytes,
        pool != 0 && 4 * texel + 4 <= bytes.len() ==> {
            &&& reordered(pool, bytes)[4 * texel] == bytes[4 * texel + 2]
            &&& reordered(pool, bytes)[4 * texel + 1] == bytes[4 * texel + 1]
            &&& reordered(pool, bytes)[4 * texel + 2] == bytes[4 * texel]
            &&& reordered(pool, bytes)[4 * texel + 3] == bytes[4 * texel + 3]
        },
        pool != 0 && bytes.len() < 4 * texel + 4 ==> forall|i: int|
            4 * texel <= i < bytes.len() ==> #[trigger] reordered(pool, bytes)[i] == bytes[i],
{
}

/// A key that has a handle keeps it, and one that has none gets the next; looking it up again gives
/// the same, and no other key's handle changes.
pub proof fn law_keys_keep_their_handle<K>(names: Naming<K>, id: K, other: K)
    requires
        names.next < u64::MAX,
    ensures
        names.looked_up(id).handles.dom().contains(id),
        names.looked_up(id).handles[id] == names.handle_of(id),
        names.looked_up(id).looked_up(id) == names.looked_up(id),
        names.handles.dom().contains(id) ==> names.looked_up(id) == names && names.handle_of(id)
            == names.handles[id],
        !names.handles.dom().contains(id) ==> names.handle_of(id) == names.next && names.looked_up(
            id,
        ).next == names.next + 1,
        other != id && names.handles.dom().contains(other) ==> names.looked_up(
            id,
        ).handles.dom().contains(other) && names.looked_up(id).handles[other]
            == names.handles[other],
{
}

/// Removing a key takes its handle alone, and clearing takes every one. Neither gives a handle
/// back.
pub proof fn law_removed_handles_are_spent<K>(names: Naming<K>, id: K, other: K)
    ensures
        !names.removed(id).handles.dom().contains(id),
        other != id ==> (names.removed(id).handles.dom().contains(other)
            <==> names.handles.dom().contains(other)),
        other != id && names.handles.dom().contains(other) ==> names.removed(id).handles[other]
            == names.handles[other],
        names.removed(id).next == names.next,
        !names.cleared().handles.dom().contains(id),
        names.cleared().next == names.next,
{
}

/// A raster is answered as its build was: a failure is passed on as it is, one that declined gives
/// no tile, and neither touches what is held. One that was built and got a tile is held from then
/// on, with as many bytes waiting as were built, and nothing that this frame used is gone.
pub proof fn law_misses_are_answered_as_built<E>(
    before: Contents,
    room: Set<(int, i32, i32)>,
    key: (u64, int),
    built: Result<Option<(i32, i32, Vec<u8>)>, E>,
    after: Contents,
    left: Set<(int, i32, i32)>,
    found: Result<Option<AtlasTile>, LookupError<E>>,
)
    requires
        fills(before, room, key, built, after, left, found),
    ensures
        built matches Err(error) ==> found == Err::<Option<AtlasTile>, LookupError<E>>(
            LookupError::Build(error),
        ) && after == before,
        built matches Ok(None) ==> found == Ok::<Option<AtlasTile>, LookupError<E>>(None) && after
            == before,
        built matches Ok(Some(_)) ==> !(found matches Ok(None)) && !(found matches Err(
            LookupError::Build(_),
        )),
        found matches Ok(Some(tile)) ==> {
            &&& built matches Ok(Some((width, height, bytes))) && tile.bounds.width == width
                && tile.bounds.height == height && after.pending.last().bytes.len() == bytes@.len()
            &&& after.tiles.dom().contains(key)
            &&& after.used.contains(key)
        },
{
    if let Ok(Some((_, _, bytes))) = built {
        law_channels_change_places(key.1, bytes@, 0);
    }
}

/// Why a raster got no tile is said as it is: too long a side exactly where one is, the wrong
/// number of bytes only where it is, and a full pool only of the raster's own kind. The retries
/// never run out, as one round of eviction frees all that may go.
pub proof fn law_refusals_say_why(
    before: Contents,
    room: Set<(int, i32, i32)>,
    key: (u64, int),
    width: i32,
    height: i32,
    bytes: Seq<u8>,
    after: Contents,
    left: Set<(int, i32, i32)>,
    placed: Result<AtlasTile, PlaceError>,
)
    requires
        places(before, room, key, width, height, bytes, after, left, placed),
        width > 0,
        height > 0,
    ensures
        width > before.limit || height > before.limit <==> placed
            == Err::<AtlasTile, PlaceError>(PlaceError::TooLarge { width, height }),
        placed matches Err(PlaceError::WrongByteCount { width: w, height: h, actual }) ==> {
            &&& w == width && h == height
            &&& actual == bytes.len()
            &&& actual != texel_bytes(key.1) * width * height
        },
        placed matches Err(PlaceError::PoolFull { kind }) ==> kind == kind_of(key.1)
            && !room.contains((key.1, width, height)),
        !(placed matches Err(PlaceError::OutOfSpace { .. })),
        placed is Ok ==> bytes.len() == texel_bytes(key.1) * width * height && width <= before.limit
            && height <= before.limit,
        EVICTION_RETRIES >= 1,
{
}

/// What makes room is eviction alone, and only where there is none: where there is room everything
/// stays, and where there is none everything that is hot does and nothing else.
pub proof fn law_room_is_made_by_eviction(
    before: Contents,
    room: Set<(int, i32, i32)>,
    pool: int,
    width: i32,
    height: i32,
    key: (u64, int),
)
    ensures
        room.contains((pool, width, height)) ==> makes_room(before, room, pool, width, height)
            == before,
        !room.contains((pool, width, height)) ==> (makes_room(
            before,
            room,
            pool,
            width,
            height,
        ).tiles.dom().contains(key) <==> before.tiles.dom().contains(key) && (
        before.used.contains(key) || before.pinned.contains(key))),
{
}

/// Using a key keeps it from eviction and changes no tile; taking one out takes its tile and marks
/// alone; putting one in adds its tile, used, with its bytes last among those that wait.
pub proof fn law_contents_change_by_one_key(
    held: Contents,
    key: (u64, int),
    other: (u64, int),
    tile: Tile,
    bytes: Seq<u8>,
)
    requires
        other != key,
    ensures
        held.touched(key).is_hot(key),
        held.touched(key).tiles == held.tiles && held.touched(key).pending == held.pending,
        !held.without(key).tiles.dom().contains(key),
        held.without(key).tiles.dom().contains(other) <==> held.tiles.dom().contains(other),
        held.tiles.dom().contains(other) ==> held.without(key).tiles[other] == held.tiles[other],
        held.with(key, tile, bytes).tiles[key] == tile,
        held.with(key, tile, bytes).tiles.dom().contains(key),
        held.with(key, tile, bytes).is_hot(key),
        held.tiles.dom().contains(other) ==> held.with(key, tile, bytes).tiles[other]
            == held.tiles[other],
        held.with(key, tile, bytes).pending.len() == held.pending.len() + 1,
        held.with(key, tile, bytes).pending.last().bytes == bytes,
        held.with(key, tile, bytes).pending.last().bounds == tile.bounds,
        held.with(key, tile, bytes).pending.last().index == tile.index,
        held.with(key, tile, bytes).pending.last().pool == key.1,
        held.cold().contains(other) <==> held.tiles.dom().contains(other) && !held.used.contains(
            other,
        ) && !held.pinned.contains(other),
{
}

/// A raster can have a tile exactly where it has pixels and neither side is past the limit.
pub proof fn law_rasters_within_the_limit_can_have_a_tile(limit: i32, width: i32, height: i32)
    ensures
        sized(limit, width, height) <==> 1 <= width <= limit && 1 <= height <= limit,
{
}

/// A raster is cached exactly where its key has a handle and a tile is held under that handle in
/// the pool of its kind.
pub proof fn law_cached_rasters_have_a_tile<K: Eq + Hash + Clone>(
    atlas: ZguiAtlas<K>,
    key: AtlasKey<K>,
)
    ensures
        atlas.caches(key) <==> atlas.handles().dom().contains(key.id)
            && atlas.held().tiles.dom().contains((atlas.handles()[key.id], pool_of(key.kind))),
        atlas.key_of(key).0 == atlas.handle_of(key) && atlas.key_of(key).1 == pool_of(key.kind),
        atlas.naming().handles == atlas.handles() && atlas.naming().next == atlas.next(),
{
}

/// An atlas without a soft limit is always within it, and one with such a limit exactly while its
/// textures take no more bytes than that.
pub proof fn law_soft_limits_are_in_bytes<K: Eq + Hash + Clone>(atlas: ZguiAtlas<K>)
    ensures
        atlas.held().soft is None ==> atlas.within_soft_limit(),
        atlas.held().soft matches Some(soft) ==> (atlas.within_soft_limit() <==> atlas.resident()
            <= soft),
{
}

/// A raster that finds its pool full would find it full with everything cold gone, too: every
/// texture the pool may have then still holds a tile.
pub proof fn law_full_pools_stay_full(
    before: Contents,
    room: Set<(int, i32, i32)>,
    key: (u64, int),
    width: i32,
    height: i32,
    bytes: Seq<u8>,
    after: Contents,
    left: Set<(int, i32, i32)>,
    kind: AtlasTextureKind,
)
    requires
        places(
            before,
            room,
            key,
            width,
            height,
            bytes,
            after,
            left,
            Err(PlaceError::PoolFull { kind }),
        ),
        width > 0,
        height > 0,
    ensures
        after == before.swept(),
        before.may_be_full(key.1),
        after.may_be_full(key.1),
        !left.contains((key.1, width, height)),
{
}

} // verus!
