//! The sprite atlas: what a hit, a miss, an eviction and a refusal do.

use gpui_zgui::atlas::atlas_texture_kind;
use gpui_zgui::atlas::texture_kind;
use gpui_zgui::atlas::upload_bytes;
use gpui_zgui::atlas::AtlasKey;
use gpui_zgui::atlas::AtlasTextureKind;
use gpui_zgui::atlas::AtlasTile;
use gpui_zgui::atlas::LookupError;
use gpui_zgui::atlas::PlaceError;
use gpui_zgui::atlas::ZguiAtlas;
use gpui_zgui::pool::AtlasLimits;
use gpui_zgui::renderer::atlas_limits;
use gpui_zgui::renderer::ATLAS_SOFT_BYTES;
use zgui_atlas::MemorySink;

fn limits() -> AtlasLimits {
    AtlasLimits {
        texture_size: 1024,
        max_texture_size: 4096,
        max_textures_per_pool: 16,
        soft_bytes: None,
    }
}

/// One small texture to a pool, so that a pool is soon full.
fn tight_limits() -> AtlasLimits {
    AtlasLimits {
        texture_size: 64,
        max_texture_size: 64,
        max_textures_per_pool: 1,
        soft_bytes: None,
    }
}

/// What sets one raster apart from another.
#[derive(Clone, Debug, PartialEq, Eq, Hash)]
enum Id {
    Glyph(u64),
    Image { image: u64, frame: usize },
}

type Sprites = ZguiAtlas<Id>;

fn image_key(id: u64) -> AtlasKey<Id> {
    AtlasKey { kind: AtlasTextureKind::Polychrome, id: Id::Image { image: id, frame: 0 } }
}

fn glyph_key(id: u64) -> AtlasKey<Id> {
    AtlasKey { kind: AtlasTextureKind::Monochrome, id: Id::Glyph(id) }
}

fn place(atlas: &mut Sprites, key: &AtlasKey<Id>, side: i32) -> Result<AtlasTile, PlaceError> {
    let texel = match key.kind {
        AtlasTextureKind::Monochrome => 1,
        _ => 4,
    };
    let bytes = vec![7u8; (side * side) as usize * texel];
    atlas.place(key, side, side, bytes)
}

#[test]
fn a_miss_builds_and_a_hit_does_not() {
    let mut atlas = Sprites::new(limits());
    let key = image_key(1);
    let mut builds = 0;

    for _ in 0..3 {
        let found: Result<Option<AtlasTile>, LookupError<()>> =
            atlas.get_or_insert_with(&key, || {
                builds += 1;
                Ok(Some((2, 2, vec![0u8; 2 * 2 * 4])))
            });
        let tile = match found {
            Ok(tile) => tile.expect("the build produced content"),
            Err(_) => panic!("the tile fits"),
        };
        assert_eq!(tile.bounds.width, 2);
    }

    assert_eq!(builds, 1, "a cached tile must not be rasterised again");
}

#[test]
fn distinct_keys_never_share_a_tile() {
    let mut atlas = Sprites::new(limits());
    let mut tile_for = |id: u64| {
        let found: Result<Option<AtlasTile>, LookupError<()>> =
            atlas.get_or_insert_with(&image_key(id), || {
                Ok(Some((4, 4, vec![0u8; 4 * 4 * 4])))
            });
        match found {
            Ok(tile) => tile.expect("the build produced content"),
            Err(_) => panic!("the tile fits"),
        }
    };
    let first = tile_for(1);
    let second = tile_for(2);
    assert_ne!(first.tile_id, second.tile_id);
    let apart = first.texture_index != second.texture_index
        || first.bounds.x + 4 <= second.bounds.x
        || second.bounds.x + 4 <= first.bounds.x
        || first.bounds.y + 4 <= second.bounds.y
        || second.bounds.y + 4 <= first.bounds.y;
    assert!(apart, "{first:?} and {second:?} overlap");
}

#[test]
fn a_build_that_declines_produces_no_tile() {
    let mut atlas = Sprites::new(limits());
    let found: Result<Option<AtlasTile>, LookupError<()>> =
        atlas.get_or_insert_with(&image_key(7), || Ok(None));
    match found {
        Ok(tile) => assert!(tile.is_none()),
        Err(_) => panic!("declining is not an error"),
    }
}

#[test]
fn removing_a_key_forgets_it() {
    let mut atlas = Sprites::new(limits());
    let key = image_key(9);
    let mut builds = 0;
    let build = |atlas: &mut Sprites, builds: &mut i32| {
        let found: Result<Option<AtlasTile>, LookupError<()>> =
            atlas.get_or_insert_with(&key, || {
                *builds += 1;
                Ok(Some((2, 2, vec![0u8; 2 * 2 * 4])))
            });
        assert!(found.is_ok(), "the tile fits");
    };
    build(&mut atlas, &mut builds);
    atlas.remove(&key);
    build(&mut atlas, &mut builds);
    assert_eq!(builds, 2, "a removed tile must be rasterised again");
}

#[test]
fn four_channel_uploads_are_swizzled_to_rgba() {
    // One pixel: blue=1, green=2, red=3, alpha=4.
    let bytes = upload_bytes(texture_kind(AtlasTextureKind::Polychrome), vec![1, 2, 3, 4]);
    assert_eq!(bytes, vec![3, 2, 1, 4], "red and blue must be exchanged");
}

#[test]
fn single_channel_uploads_are_left_alone() {
    let bytes = upload_bytes(texture_kind(AtlasTextureKind::Monochrome), vec![1, 2, 3, 4]);
    assert_eq!(bytes, vec![1, 2, 3, 4]);
}

#[test]
fn a_trailing_part_of_a_pixel_is_left_alone() {
    let bytes = upload_bytes(texture_kind(AtlasTextureKind::Subpixel), vec![1, 2, 3, 4, 5, 6]);
    assert_eq!(bytes, vec![3, 2, 1, 4, 5, 6]);
}

#[test]
fn reordering_twice_gives_the_bytes_back() {
    let pool = texture_kind(AtlasTextureKind::Polychrome);
    let bytes = vec![9, 8, 7, 6, 5, 4, 3, 2];
    assert_eq!(upload_bytes(pool, upload_bytes(pool, bytes.clone())), bytes);
}

#[test]
fn every_kind_has_its_pool() {
    for kind in [
        AtlasTextureKind::Monochrome,
        AtlasTextureKind::Polychrome,
        AtlasTextureKind::Subpixel,
    ] {
        assert_eq!(atlas_texture_kind(texture_kind(kind)), kind);
    }
}

#[test]
fn a_failed_build_is_reported_and_caches_nothing() {
    let mut atlas = Sprites::new(limits());
    let key = image_key(3);
    let found = atlas.get_or_insert_with(&key, || Err("no such image"));
    match found {
        Err(LookupError::Build(error)) => assert_eq!(error, "no such image"),
        _ => panic!("the build failed"),
    }
    assert!(!atlas.is_cached(&key));
}

#[test]
fn a_raster_past_the_limit_is_too_large() {
    let mut atlas = Sprites::new(tight_limits());
    let refused = atlas.place(&glyph_key(1), 65, 2, vec![0; 130]);
    assert_eq!(refused, Err(PlaceError::TooLarge { width: 65, height: 2 }));
    assert!(!atlas.is_cached(&glyph_key(1)));
}

#[test]
fn a_raster_of_the_wrong_length_is_refused() {
    let mut atlas = Sprites::new(limits());
    let refused = atlas.place(&image_key(1), 2, 2, vec![0; 15]);
    assert_eq!(refused, Err(PlaceError::WrongByteCount { width: 2, height: 2, actual: 15 }));
}

#[test]
fn a_pool_full_of_what_this_frame_shows_refuses_more() {
    let mut atlas = Sprites::new(tight_limits());
    let mut placed = 0;
    let refused = loop {
        match place(&mut atlas, &glyph_key(placed), 32) {
            Ok(_) => placed += 1,
            Err(error) => break error,
        }
    };
    assert!(placed >= 1);
    assert_eq!(refused, PlaceError::PoolFull { kind: AtlasTextureKind::Monochrome });
    // What the frame used stays, so a sprite of the frame never loses its tile.
    for id in 0..placed {
        assert!(atlas.is_cached(&glyph_key(id)));
    }
}

#[test]
fn a_pool_that_is_full_after_eviction_stays_full() {
    let mut atlas = Sprites::new(tight_limits());
    assert!(place(&mut atlas, &glyph_key(0), 8).is_ok());
    atlas.begin_frame();
    let mut placed = 1;
    while place(&mut atlas, &glyph_key(placed), 32).is_ok() {
        placed += 1;
    }
    assert!(placed > 1);
    assert!(!atlas.is_cached(&glyph_key(0)), "the cold raster went to make room");
    for _ in 0..2 {
        let refused = place(&mut atlas, &glyph_key(placed), 32);
        assert_eq!(refused, Err(PlaceError::PoolFull { kind: AtlasTextureKind::Monochrome }));
        for id in 1..placed {
            assert!(atlas.is_cached(&glyph_key(id)));
        }
    }
}

#[test]
fn cold_content_makes_room() {
    let mut atlas = Sprites::new(tight_limits());
    let mut placed = 0;
    while place(&mut atlas, &glyph_key(placed), 32).is_ok() {
        placed += 1;
    }
    atlas.begin_frame();
    let hot: Result<Option<AtlasTile>, LookupError<()>> =
        atlas.get_or_insert_with(&glyph_key(0), || Ok(None));
    assert!(matches!(hot, Ok(Some(_))), "the first raster is still cached");
    assert!(place(&mut atlas, &glyph_key(1000), 32).is_ok());
    assert!(atlas.is_cached(&glyph_key(0)), "what the frame used stays");
    assert!(atlas.is_cached(&glyph_key(1000)));
    for id in 1..placed {
        assert!(!atlas.is_cached(&glyph_key(id)), "cold content was released");
    }
}

#[test]
fn an_empty_raster_has_no_place() {
    let mut atlas = Sprites::new(limits());
    let refused = atlas.place(&glyph_key(1), 0, 4, vec![]);
    assert_eq!(refused, Err(PlaceError::PoolFull { kind: AtlasTextureKind::Monochrome }));
}

#[test]
fn a_placed_raster_is_found_again() {
    let mut atlas = Sprites::new(limits());
    assert!(!atlas.is_cached(&image_key(1)));
    let tile = place(&mut atlas, &image_key(1), 8).expect("the tile fits");
    assert_eq!(tile.texture_kind, AtlasTextureKind::Polychrome);
    assert_eq!(tile.padding, 0);
    assert_eq!((tile.bounds.width, tile.bounds.height), (8, 8));
    assert!(atlas.is_cached(&image_key(1)));
    let found: Result<Option<AtlasTile>, LookupError<()>> =
        atlas.get_or_insert_with(&image_key(1), || Ok(None));
    assert!(matches!(found, Ok(Some(again)) if again == tile));
}

#[test]
fn the_same_id_under_another_kind_is_another_raster() {
    let mut atlas = Sprites::new(limits());
    let glyph = AtlasKey { kind: AtlasTextureKind::Monochrome, id: Id::Glyph(5) };
    let image = AtlasKey { kind: AtlasTextureKind::Polychrome, id: Id::Glyph(5) };
    assert!(place(&mut atlas, &glyph, 4).is_ok());
    assert!(atlas.is_cached(&glyph));
    assert!(!atlas.is_cached(&image));
}

#[test]
fn clearing_forgets_everything() {
    let mut atlas = Sprites::new(limits());
    assert!(place(&mut atlas, &image_key(1), 4).is_ok());
    assert!(place(&mut atlas, &glyph_key(1), 4).is_ok());
    atlas.clear();
    assert!(!atlas.is_cached(&image_key(1)));
    assert!(!atlas.is_cached(&glyph_key(1)));
    assert!(atlas.with_atlas().is_empty());
}

#[test]
fn a_removed_key_leaves_the_others() {
    let mut atlas = Sprites::new(limits());
    assert!(place(&mut atlas, &image_key(1), 4).is_ok());
    assert!(place(&mut atlas, &image_key(2), 4).is_ok());
    atlas.remove(&image_key(1));
    atlas.remove(&image_key(3));
    assert!(!atlas.is_cached(&image_key(1)));
    assert!(atlas.is_cached(&image_key(2)));
}

#[test]
fn a_frame_under_the_soft_limit_keeps_cold_content() {
    let mut atlas = Sprites::new(atlas_limits(4096));
    assert!(place(&mut atlas, &image_key(1), 16).is_ok());
    atlas.begin_frame();
    atlas.begin_frame();
    assert!(atlas.is_cached(&image_key(1)));
}

#[test]
fn a_frame_over_the_soft_limit_releases_cold_content() {
    let mut atlas = Sprites::new(AtlasLimits { soft_bytes: Some(1), ..limits() });
    assert!(place(&mut atlas, &image_key(1), 16).is_ok());
    atlas.begin_frame();
    assert!(!atlas.is_cached(&image_key(1)));
}

#[test]
fn what_waits_is_sent_in_the_pools_own_order() {
    let mut atlas = Sprites::new(limits());
    let tile = match atlas.place(&image_key(1), 1, 1, vec![1, 2, 3, 4]) {
        Ok(tile) => tile,
        Err(_) => panic!("the tile fits"),
    };
    let mut sink = MemorySink::new();
    atlas.with_atlas().flush_uploads(&mut sink).expect("memory takes every upload");
    let texture = zgui_atlas::TextureId {
        index: tile.texture_index,
        kind: zgui_atlas::TextureKind::Color,
    };
    assert_eq!(sink.texel(texture, tile.bounds.x, tile.bounds.y), Some(&[3u8, 2, 1, 4][..]));
}

#[test]
fn an_empty_pool_has_room_for_any_raster_within_the_limit() {
    // The texture is as large as it may be, and so is the raster.
    let mut atlas = Sprites::new(tight_limits());
    let tile = place(&mut atlas, &glyph_key(1), 64).expect("the pool holds nothing");
    assert_eq!((tile.bounds.x, tile.bounds.y), (0, 0));
    // Once its only tile is gone the pool has room again.
    atlas.remove(&glyph_key(1));
    assert!(place(&mut atlas, &glyph_key(2), 64).is_ok());
    // Content that is cold makes room as well, without being asked to.
    atlas.begin_frame();
    assert!(place(&mut atlas, &glyph_key(3), 64).is_ok());
    assert!(!atlas.is_cached(&glyph_key(2)));
}

#[test]
fn a_pool_with_room_evicts_nothing() {
    let mut atlas = Sprites::new(tight_limits());
    assert!(place(&mut atlas, &glyph_key(1), 64).is_ok());
    atlas.begin_frame();
    assert!(place(&mut atlas, &image_key(1), 64).is_ok());
    assert!(atlas.is_cached(&glyph_key(1)), "the other pool was not asked for room");
}

#[test]
fn cold_content_stays_while_its_pool_has_room() {
    let mut atlas = Sprites::new(limits());
    assert!(place(&mut atlas, &glyph_key(1), 8).is_ok());
    atlas.begin_frame();
    for id in 2..20 {
        assert!(place(&mut atlas, &glyph_key(id), 8).is_ok(), "there is room for another");
    }
    assert!(atlas.is_cached(&glyph_key(1)), "nothing had to go");
}

#[test]
fn a_second_texture_makes_room_when_the_first_is_full() {
    let two = AtlasLimits { max_textures_per_pool: 2, ..tight_limits() };
    let mut atlas = Sprites::new(two);
    let first = place(&mut atlas, &glyph_key(1), 64).expect("the pool holds nothing");
    let second = place(&mut atlas, &glyph_key(2), 64).expect("one texture holds no tile");
    assert_ne!(first.texture_index, second.texture_index);
    let refused = place(&mut atlas, &glyph_key(3), 64);
    assert_eq!(refused, Err(PlaceError::PoolFull { kind: AtlasTextureKind::Monochrome }));
}

#[test]
fn a_frame_over_the_soft_limit_keeps_what_it_used() {
    let mut atlas = Sprites::new(AtlasLimits { soft_bytes: Some(1), ..limits() });
    assert!(place(&mut atlas, &image_key(1), 16).is_ok());
    assert!(place(&mut atlas, &glyph_key(1), 16).is_ok());
    assert!(atlas.is_cached(&image_key(1)) && atlas.is_cached(&glyph_key(1)));
    atlas.begin_frame();
    assert!(!atlas.is_cached(&image_key(1)) && !atlas.is_cached(&glyph_key(1)));
    assert_eq!(atlas.with_atlas().resident_bytes(), 0);
}

#[test]
fn a_frame_just_within_the_soft_limit_releases_nothing() {
    // One texture of coverage takes as many bytes as it has texels.
    let exact = AtlasLimits { soft_bytes: Some(64 * 64), ..tight_limits() };
    let mut atlas = Sprites::new(exact);
    assert!(place(&mut atlas, &glyph_key(1), 16).is_ok());
    atlas.begin_frame();
    assert!(atlas.is_cached(&glyph_key(1)));
    let short = AtlasLimits { soft_bytes: Some(64 * 64 - 1), ..tight_limits() };
    let mut atlas = Sprites::new(short);
    assert!(place(&mut atlas, &glyph_key(1), 16).is_ok());
    atlas.begin_frame();
    assert!(!atlas.is_cached(&glyph_key(1)));
}

#[test]
fn a_handle_is_given_to_one_key_for_good() {
    let mut atlas = Sprites::new(limits());
    let one = atlas.zgui_key(&image_key(1));
    let two = atlas.zgui_key(&image_key(2));
    assert_ne!(one, two);
    assert_eq!(atlas.zgui_key(&image_key(1)), one);
    atlas.remove(&image_key(1));
    assert_eq!(atlas.zgui_key(&image_key(2)), two);
    let again = atlas.zgui_key(&image_key(1));
    assert!(again != one && again != two);
    atlas.clear();
    let later = atlas.zgui_key(&glyph_key(7));
    assert!(![one, two, again].contains(&later));
}

#[test]
fn a_pool_that_may_have_no_texture_is_full() {
    let mut atlas = Sprites::new(AtlasLimits { max_textures_per_pool: 0, ..limits() });
    let refused = place(&mut atlas, &glyph_key(1), 4);
    assert_eq!(refused, Err(PlaceError::PoolFull { kind: AtlasTextureKind::Monochrome }));
}

#[test]
fn a_key_is_told_apart_by_every_part_of_it() {
    let mut atlas = Sprites::new(limits());
    let frame = |frame: usize| AtlasKey {
        kind: AtlasTextureKind::Polychrome,
        id: Id::Image { image: 4, frame },
    };
    let first = place(&mut atlas, &frame(0), 4).expect("the tile fits");
    let second = place(&mut atlas, &frame(1), 4).expect("the tile fits");
    assert_ne!((first.texture_index, first.tile_id), (second.texture_index, second.tile_id));
    assert!(atlas.is_cached(&frame(0)) && atlas.is_cached(&frame(1)));
    assert!(!atlas.is_cached(&frame(2)));
}

#[test]
fn looking_up_removing_and_clearing_never_mixes_keys_up() {
    let mut atlas = Sprites::new(limits());
    let mut side = 1;
    let mut look_up = |atlas: &mut Sprites, id: u64| -> AtlasTile {
        side += 1;
        let found: Result<Option<AtlasTile>, LookupError<()>> =
            atlas.get_or_insert_with(&image_key(id), || {
                Ok(Some((side, side, vec![0u8; (side * side) as usize * 4])))
            });
        match found {
            Ok(tile) => tile.expect("the build produced content"),
            Err(_) => panic!("the tile fits"),
        }
    };
    let one = look_up(&mut atlas, 1);
    let two = look_up(&mut atlas, 2);
    // The same key finds the same raster, whatever happened to another.
    atlas.remove(&image_key(2));
    assert_eq!(look_up(&mut atlas, 1), one);
    // A removed key is built anew, and so is the other once everything was cleared.
    let again = look_up(&mut atlas, 2);
    assert_ne!(again.bounds.width, two.bounds.width);
    atlas.clear();
    let rebuilt = look_up(&mut atlas, 1);
    assert_ne!(rebuilt.bounds.width, one.bounds.width);
    assert!(!atlas.is_cached(&image_key(2)));
    assert!(atlas.has_handle());
}

#[test]
fn a_window_holds_so_much_before_releasing() {
    assert_eq!(
        atlas_limits(8192),
        AtlasLimits {
            texture_size: 1024,
            max_texture_size: 8192,
            max_textures_per_pool: 16,
            soft_bytes: Some(64 * 1024 * 1024),
        }
    );
    assert_eq!(ATLAS_SOFT_BYTES, 64 * 1024 * 1024);
}
