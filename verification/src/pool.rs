//! The texture atlas that holds cached rasters, and what is known of it.
//!
//! The atlas keeps a tile per key. A key is a handle and the pool the raster belongs to: coverage
//! in one channel, coverage per channel, colour, or an image.

use vstd::prelude::*;
use zgui_atlas::Atlas;

use crate::geom::Rect;

verus! {

/// The atlas itself.
#[verifier::external_type_specification]
#[verifier::external_body]
pub struct ExAtlas(zgui_atlas::Atlas);

/// How much an atlas may hold.
#[derive(Clone, Copy, Debug, PartialEq, Eq, Structural)]
pub struct AtlasLimits {
    /// The usual side of a texture.
    pub texture_size: i32,
    /// The longest side a texture, and so a tile, may have.
    pub max_texture_size: i32,
    pub max_textures_per_pool: u32,
    /// The bytes above which cold content is released, where there is such a limit.
    pub soft_bytes: Option<u64>,
}

/// A cached raster's place: the texture of its pool, its handle in that texture, and the part of
/// the texture it occupies.
#[derive(Clone, Copy, Debug, PartialEq, Eq, Structural)]
pub struct Tile {
    pub index: u32,
    pub tile: u32,
    pub bounds: Rect,
}

/// Bytes that wait to be written into a texture.
#[verifier::ext_equal]
pub struct Upload {
    pub pool: int,
    pub index: u32,
    pub tile: u32,
    pub bounds: Rect,
    pub bytes: Seq<u8>,
}

/// Why an atlas made no tile.
#[derive(Clone, Copy, Debug, PartialEq, Eq, Structural)]
pub enum Refusal {
    /// A side is longer than any texture's.
    TooLarge,
    /// No texture of the pool has room.
    OutOfSpace,
    /// The bytes are not as many as the raster needs.
    WrongByteCount,
}

/// How many pools an atlas has.
pub const POOLS: usize = 4;

/// The longest texture side for which a texture's area is within range.
pub const LONGEST_SIDE: i32 = 46340;

/// The tile of every key the atlas holds: a key is a handle and a pool.
pub uninterp spec fn atlas_tiles(atlas: Atlas) -> Map<(u64, int), Tile>;

/// The keys that were looked up or inserted since the frame began.
pub uninterp spec fn atlas_used(atlas: Atlas) -> Set<(u64, int)>;

/// The keys that something holds against eviction.
pub uninterp spec fn atlas_pinned(atlas: Atlas) -> Set<(u64, int)>;

/// The bytes that wait to be written, in order.
pub uninterp spec fn atlas_pending(atlas: Atlas) -> Seq<Upload>;

/// The longest side a tile may have.
pub uninterp spec fn atlas_limit(atlas: Atlas) -> i32;

/// How many textures a pool may have.
pub uninterp spec fn atlas_textures(atlas: Atlas) -> u32;

/// The bytes above which cold content is released, where there is such a limit.
pub uninterp spec fn atlas_soft(atlas: Atlas) -> Option<u64>;

/// The rasters that an atlas has room for, each as its pool, its width and its height.
pub uninterp spec fn atlas_room(atlas: Atlas) -> Set<(int, i32, i32)>;

/// How many bytes the atlas's textures take.
pub uninterp spec fn atlas_resident(atlas: Atlas) -> u64;

/// What an atlas holds.
#[verifier::ext_equal]
pub struct Contents {
    pub tiles: Map<(u64, int), Tile>,
    pub used: Set<(u64, int)>,
    pub pinned: Set<(u64, int)>,
    pub pending: Seq<Upload>,
    pub limit: i32,
    pub textures: u32,
    pub soft: Option<u64>,
}

/// What `atlas` holds.
pub open spec fn contents(atlas: Atlas) -> Contents {
    Contents {
        tiles: atlas_tiles(atlas),
        used: atlas_used(atlas),
        pinned: atlas_pinned(atlas),
        pending: atlas_pending(atlas),
        limit: atlas_limit(atlas),
        textures: atlas_textures(atlas),
        soft: atlas_soft(atlas),
    }
}

/// How many bytes a texel of a pool takes.
pub open spec fn texel_bytes(pool: int) -> int {
    if pool == 0 {
        1
    } else {
        4
    }
}

/// Whether an upload is of the tile `tile` of `pool`.
pub open spec fn uploads_to(upload: Upload, pool: int, tile: Tile) -> bool {
    upload.pool == pool && upload.index == tile.index && upload.tile == tile.tile
}

impl Contents {
    /// Whether no two tiles of one texture share a texel or a handle in it.
    pub open spec fn disjoint(self) -> bool {
        forall|one: (u64, int), two: (u64, int)|
            #![trigger self.tiles[one], self.tiles[two]]
            self.tiles.dom().contains(one) && self.tiles.dom().contains(two) && one != two
                && one.1 == two.1 && self.tiles[one].index == self.tiles[two].index ==> {
                &&& !self.tiles[one].bounds.meets(self.tiles[two].bounds)
                &&& self.tiles[one].tile != self.tiles[two].tile
            }
    }

    /// Whether the texture of the pool holds a tile.
    pub open spec fn uses_texture(self, pool: int, index: u32) -> bool {
        exists|key: (u64, int)| #[trigger]
            self.tiles.dom().contains(key) && key.1 == pool && self.tiles[key].index == index
    }

    /// Whether the pool may lack room: every texture that it may have holds a tile.
    pub open spec fn may_be_full(self, pool: int) -> bool {
        forall|index: u32| index < self.textures ==> #[trigger] self.uses_texture(pool, index)
    }

    /// The contents with `key` marked as used.
    pub open spec fn touched(self, key: (u64, int)) -> Contents {
        Contents { used: self.used.insert(key), ..self }
    }

    /// The contents without `key`, and without the bytes that wait for its tile.
    pub open spec fn without(self, key: (u64, int)) -> Contents {
        if self.tiles.dom().contains(key) {
            Contents {
                tiles: self.tiles.remove(key),
                used: self.used.remove(key),
                pinned: self.pinned.remove(key),
                pending: self.pending.filter(
                    |upload: Upload| !uploads_to(upload, key.1, self.tiles[key]),
                ),
                ..self
            }
        } else {
            self
        }
    }

    /// The contents with a new tile for `key`, used, and its bytes waiting.
    pub open spec fn with(self, key: (u64, int), tile: Tile, bytes: Seq<u8>) -> Contents {
        Contents {
            tiles: self.tiles.insert(key, tile),
            used: self.used.insert(key),
            pending: self.pending.push(
                Upload {
                    pool: key.1,
                    index: tile.index,
                    tile: tile.tile,
                    bounds: tile.bounds,
                    bytes,
                },
            ),
            ..self
        }
    }

    /// Whether the key was used this frame or is held against eviction.
    pub open spec fn is_hot(self, key: (u64, int)) -> bool {
        self.used.contains(key) || self.pinned.contains(key)
    }

    /// The keys that may be evicted.
    pub open spec fn cold(self) -> Set<(u64, int)> {
        self.tiles.dom().filter(|key: (u64, int)| !self.is_hot(key))
    }

    /// The contents without the keys of `gone`, and without the bytes that wait for their tiles.
    pub open spec fn without_all(self, gone: Set<(u64, int)>) -> Contents {
        Contents {
            tiles: self.tiles.remove_keys(gone),
            pending: self.pending.filter(
                |upload: Upload|
                    !exists|key: (u64, int)|
                        gone.contains(key) && #[trigger] uploads_to(
                            upload,
                            key.1,
                            self.tiles[key],
                        ),
            ),
            ..self
        }
    }

    /// The contents once everything cold is gone.
    pub open spec fn swept(self) -> Contents {
        self.without_all(self.cold())
    }

    /// Whether `after` is left when some of the keys that are cold are evicted.
    pub open spec fn evicts_to(self, after: Contents) -> bool {
        exists|gone: Set<(u64, int)>| #[trigger]
            gone.subset_of(self.cold()) && after == self.without_all(gone)
    }
}

/// Whether a raster of the given size can have a tile at all.
pub open spec fn sized(limit: i32, width: i32, height: i32) -> bool {
    0 < width <= limit && 0 < height <= limit
}

/// Whether `reply` is the answer to asking `before`, which has `room`, for the tile of `key`, with
/// a raster of the given size and bytes where there is none yet, and `after` is what the atlas then
/// holds.
pub open spec fn answers(
    before: Contents,
    room: Set<(int, i32, i32)>,
    key: (u64, int),
    width: i32,
    height: i32,
    bytes: Seq<u8>,
    after: Contents,
    reply: Result<Tile, Refusal>,
) -> bool {
    if before.tiles.dom().contains(key) {
        reply == Ok::<Tile, Refusal>(before.tiles[key]) && after == before.touched(key)
    } else {
        match reply {
            Ok(tile) => {
                &&& sized(before.limit, width, height)
                &&& room.contains((key.1, width, height))
                &&& bytes.len() == texel_bytes(key.1) * width * height
                &&& tile.bounds.width == width
                &&& tile.bounds.height == height
                &&& after == before.with(key, tile, bytes)
                &&& before.disjoint() ==> after.disjoint()
            },
            Err(Refusal::TooLarge) => {
                &&& width > 0 && height > 0
                &&& width > before.limit || height > before.limit
                &&& after == before
            },
            Err(Refusal::WrongByteCount) => {
                &&& sized(before.limit, width, height)
                &&& room.contains((key.1, width, height))
                &&& bytes.len() != texel_bytes(key.1) * width * height
                &&& after == before
            },
            Err(Refusal::OutOfSpace) => {
                &&& width <= 0 || height <= 0 || {
                    &&& sized(before.limit, width, height)
                    &&& !room.contains((key.1, width, height))
                    &&& before.may_be_full(key.1)
                }
                &&& after == before
            },
        }
    }
}

/// Whether the textures take no more bytes than the soft limit, or there is none.
pub open spec fn within_soft_limit(atlas: Atlas) -> bool {
    match atlas_soft(atlas) {
        Some(soft) => atlas_resident(atlas) <= soft,
        None => true,
    }
}

/// Calls `zgui_atlas::Atlas::new`: an atlas that holds nothing and keeps its limits. A longer side
/// is left out because a texture's area would leave the range its allocator counts in.
#[verifier::external_body]
pub(crate) fn atlas_new(limits: AtlasLimits) -> (atlas: Atlas)
    requires
        limits.max_texture_size <= LONGEST_SIDE,
    ensures
        (atlas_tiles(atlas) == Map::<(u64, int), Tile>::empty()),
        (atlas_used(atlas) == Set::<(u64, int)>::empty()),
        (atlas_pinned(atlas) == Set::<(u64, int)>::empty()),
        atlas_pending(atlas) == Seq::<Upload>::empty(),
        atlas_limit(atlas) == limits.max_texture_size,
        atlas_textures(atlas) == limits.max_textures_per_pool,
        atlas_soft(atlas) == limits.soft_bytes,
{
    Atlas::new(
        zgui_atlas::AtlasLimits {
            texture_size: limits.texture_size,
            max_texture_size: limits.max_texture_size,
            max_textures_per_pool: limits.max_textures_per_pool,
            soft_bytes: limits.soft_bytes,
        },
    )
}

/// Calls `zgui_atlas::Atlas::begin_frame`: no key counts as used any more. The textures stay as
/// they are.
#[verifier::external_body]
pub(crate) fn atlas_begin_frame(atlas: &mut Atlas)
    ensures
        contents(*final(atlas)) == (Contents { used: Set::empty(), ..contents(*old(atlas)) }),
        atlas_room(*final(atlas)) == atlas_room(*old(atlas)),
        atlas_resident(*final(atlas)) == atlas_resident(*old(atlas)),
{
    atlas.begin_frame()
}

/// Calls `zgui_atlas::Atlas::evict_to_soft_limit`: keys that are neither used this frame nor held
/// may go, and no others. Without a soft limit, and where the textures take no more bytes than it,
/// nothing changes; otherwise such keys go until the textures are within the limit or none is left.
/// Which of them go first, their ages decide.
#[verifier::external_body]
pub(crate) fn atlas_evict_to_soft_limit(atlas: &mut Atlas)
    ensures
        contents(*old(atlas)).evicts_to(contents(*final(atlas))),
        within_soft_limit(*old(atlas)) ==> {
            &&& contents(*final(atlas)) == contents(*old(atlas))
            &&& atlas_room(*final(atlas)) == atlas_room(*old(atlas))
            &&& atlas_resident(*final(atlas)) == atlas_resident(*old(atlas))
        },
        (within_soft_limit(*final(atlas)) || contents(*final(atlas)).cold() == Set::<
            (u64, int),
        >::empty()),
{
    atlas.evict_to_soft_limit();
}

/// Calls `zgui_atlas::Atlas::evict_all_unused` and gives the number of tiles it evicted: every key
/// that is neither used this frame nor held goes, and no other. Where none goes, the room stays as
/// it is.
#[verifier::external_body]
pub(crate) fn atlas_evict_all_unused(atlas: &mut Atlas) -> (tiles: usize)
    ensures
        contents(*final(atlas)) == contents(*old(atlas)).swept(),
        contents(*old(atlas)).cold().finite() && tiles == contents(*old(atlas)).cold().len(),
        tiles == 0 ==> atlas_room(*final(atlas)) == atlas_room(*old(atlas)),
{
    atlas.evict_all_unused().tiles
}

/// Calls `zgui_atlas::Atlas::contains`: whether the key has a tile.
#[verifier::external_body]
pub(crate) fn atlas_contains(atlas: &Atlas, handle: u64, pool: usize) -> (cached: bool)
    requires
        pool < POOLS,
    ensures
        cached == atlas_tiles(*atlas).dom().contains((handle, pool as int)),
{
    atlas.contains(zgui_atlas::AtlasKey::new(handle, zgui_atlas::TextureKind::ALL[pool]))
}

/// Calls `zgui_atlas::Atlas::get`: the key's tile, which then counts as used, or nothing. The
/// textures stay as they are.
#[verifier::external_body]
pub(crate) fn atlas_get(atlas: &mut Atlas, handle: u64, pool: usize) -> (tile: Option<Tile>)
    requires
        pool < POOLS,
    ensures
        ({
            let key = (handle, pool as int);
            if atlas_tiles(*old(atlas)).dom().contains(key) {
                &&& tile == Some(atlas_tiles(*old(atlas))[key])
                &&& contents(*final(atlas)) == contents(*old(atlas)).touched(key)
            } else {
                tile is None && contents(*final(atlas)) == contents(*old(atlas))
            }
        }),
        atlas_room(*final(atlas)) == atlas_room(*old(atlas)),
{
    atlas.get(zgui_atlas::AtlasKey::new(handle, zgui_atlas::TextureKind::ALL[pool])).map(
        |tile| Tile {
            index: tile.texture.index,
            tile: tile.tile.0,
            bounds: Rect {
                x: tile.bounds.origin.x,
                y: tile.bounds.origin.y,
                width: tile.bounds.size.width,
                height: tile.bounds.size.height,
            },
        },
    )
}

/// Calls `zgui_atlas::Atlas::get_or_insert`: the key's tile where it has one. Otherwise a new tile
/// of the given size with the bytes waiting to be written, sharing neither a texel nor a handle
/// with the others of its texture; or a refusal, which leaves what the atlas holds as it was.
/// Whether there is room is a function of the atlas, the pool and the size, and finding none leaves
/// the room as it was. A texture goes with its last tile, textures are numbered below the number
/// that a pool may have, and a new one has room for any tile within the limit; so a pool has room
/// while one of its textures holds no tile. For other pools the room is named and not spelled out.
#[verifier::external_body]
pub(crate) fn atlas_insert(
    atlas: &mut Atlas,
    handle: u64,
    pool: usize,
    size: (i32, i32),
    bytes: Vec<u8>,
) -> (reply: Result<Tile, Refusal>)
    requires
        pool < POOLS,
        atlas_limit(*old(atlas)) <= LONGEST_SIDE,
    ensures
        answers(
            contents(*old(atlas)),
            atlas_room(*old(atlas)),
            (handle, pool as int),
            size.0,
            size.1,
            bytes@,
            contents(*final(atlas)),
            reply,
        ),
        reply == Err::<Tile, Refusal>(Refusal::OutOfSpace) ==> atlas_room(*final(atlas))
            == atlas_room(*old(atlas)),
{
    let key = zgui_atlas::AtlasKey::new(handle, zgui_atlas::TextureKind::ALL[pool]);
    match atlas.get_or_insert(key, zgui_geom::Size::new(size.0, size.1), move || bytes) {
        Ok(tile) => {
            let (at, size) = (tile.bounds.origin, tile.bounds.size);
            let bounds = Rect { x: at.x, y: at.y, width: size.width, height: size.height };
            Ok(Tile { index: tile.texture.index, tile: tile.tile.0, bounds })
        },
        Err(zgui_atlas::AtlasError::TooLarge { .. }) => Err(Refusal::TooLarge),
        Err(zgui_atlas::AtlasError::WrongByteCount { .. }) => Err(Refusal::WrongByteCount),
        Err(_) => Err(Refusal::OutOfSpace),
    }
}

/// Calls `zgui_atlas::Atlas::remove`: the key has no tile any more, and nothing waits to be
/// written for it.
#[verifier::external_body]
pub(crate) fn atlas_remove(atlas: &mut Atlas, handle: u64, pool: usize)
    requires
        pool < POOLS,
    ensures
        contents(*final(atlas)) == contents(*old(atlas)).without((handle, pool as int)),
{
    atlas.remove(zgui_atlas::AtlasKey::new(handle, zgui_atlas::TextureKind::ALL[pool]));
}

/// Calls `zgui_atlas::Atlas::clear`: the atlas holds nothing and keeps its limits.
#[verifier::external_body]
pub(crate) fn atlas_clear(atlas: &mut Atlas)
    ensures
        contents(*final(atlas)) == (Contents {
            tiles: Map::empty(),
            used: Set::empty(),
            pinned: Set::empty(),
            pending: Seq::empty(),
            ..contents(*old(atlas))
        }),
{
    atlas.clear()
}

/// Leaving keys out takes their tiles and no others, and the bytes that wait for a tile stay
/// exactly where no key that is left out has that tile.
pub proof fn law_left_out_keys_take_their_own(
    held: Contents,
    gone: Set<(u64, int)>,
    key: (u64, int),
)
    ensures
        held.without_all(gone).tiles.dom().contains(key) <==> held.tiles.dom().contains(key)
            && !gone.contains(key),
        held.tiles.dom().contains(key) && !gone.contains(key) ==> held.without_all(gone).tiles[key]
            == held.tiles[key],
        held.without_all(gone).used == held.used && held.without_all(gone).pinned == held.pinned,
        held.without_all(gone).limit == held.limit && held.without_all(gone).soft == held.soft,
        held.swept().tiles.dom().contains(key) <==> held.tiles.dom().contains(key) && held.is_hot(
            key,
        ),
        held.without_all(gone).pending.len() <= held.pending.len(),
{
    let stays = |upload: Upload|
        !exists|key: (u64, int)|
            gone.contains(key) && #[trigger] uploads_to(upload, key.1, held.tiles[key]);
    held.pending.lemma_filter_len(stays);
}

/// A pool may be full only where each texture it may have holds a tile of that pool.
pub proof fn law_full_pools_hold_a_tile_in_every_texture(held: Contents, pool: int, index: u32)
    requires
        held.may_be_full(pool),
        index < held.textures,
    ensures
        exists|key: (u64, int)| #[trigger]
            held.tiles.dom().contains(key) && key.1 == pool && held.tiles[key].index == index,
{
    assert(held.uses_texture(pool, index));
}

} // verus!
