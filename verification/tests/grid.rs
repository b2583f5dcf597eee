use sorot::atlas::SdfAtlas;
use sorot::flatten::FlattenVerb;
use sorot::path::{FillRule, PathVerb};
use sorot::tile::{Tile, TileCoord, TileMap, TILE_SIZE};

#[test]
fn point_counts() {
    assert_eq!(PathVerb::MoveTo.point_count(), 1);
    assert_eq!(PathVerb::LineTo.point_count(), 1);
    assert_eq!(PathVerb::QuadTo.point_count(), 2);
    assert_eq!(PathVerb::CubicTo.point_count(), 3);
    assert_eq!(PathVerb::Close.point_count(), 0);
    assert_ne!(FillRule::Winding, FillRule::EvenOdd);
    assert_ne!(FlattenVerb::MoveTo, FlattenVerb::Close);
}

#[test]
fn new_tile_is_dirty_and_empty() {
    let t = Tile::new(TileCoord { x: 3, y: -1 });
    assert_eq!(t.coord, TileCoord { x: 3, y: -1 });
    assert!(t.shape_ids.is_empty());
    assert!(t.dirty);
}

#[test]
fn tile_map_covers_screen() {
    assert_eq!(TILE_SIZE, 32);
    let m = TileMap::new(65, 32);
    assert_eq!(m.screen_width, 65);
    assert_eq!(m.screen_height, 32);
    assert_eq!(m.tiles.len(), 3);
    let tiles = m.tiles.values();
    let coords: Vec<TileCoord> = tiles.iter().map(|t| t.coord).collect();
    assert_eq!(
        coords,
        vec![TileCoord { x: 0, y: 0 }, TileCoord { x: 1, y: 0 }, TileCoord { x: 2, y: 0 }]
    );
    assert!(tiles.iter().all(|t| t.dirty && t.shape_ids.is_empty()));
    assert_eq!(TileMap::new(0, 100).tiles.len(), 0);
    assert_eq!(TileMap::new(64, 64).tiles.len(), 4);
}

#[test]
fn clear_dirty_resets_every_tile() {
    let mut m = TileMap::new(40, 40);
    m.clear_dirty();
    let tiles = m.tiles.values();
    assert_eq!(tiles.len(), 4);
    assert!(tiles.iter().all(|t| !t.dirty && t.shape_ids.is_empty()));
    assert_eq!(tiles[3].coord, TileCoord { x: 1, y: 1 });
}

#[test]
fn tiles_for_bounds_row_by_row() {
    let m = TileMap::new(32, 32);
    let coords = m.tiles_for_bounds(TileCoord { x: -1, y: 5 }, TileCoord { x: 0, y: 6 });
    assert_eq!(
        coords,
        vec![
            TileCoord { x: -1, y: 5 },
            TileCoord { x: 0, y: 5 },
            TileCoord { x: -1, y: 6 },
            TileCoord { x: 0, y: 6 },
        ]
    );
    assert!(m.tiles_for_bounds(TileCoord { x: 1, y: 0 }, TileCoord { x: 0, y: 3 }).is_empty());
    assert_eq!(
        m.tiles_for_bounds(TileCoord { x: i32::MAX, y: 0 }, TileCoord { x: i32::MAX, y: 0 }),
        vec![TileCoord { x: i32::MAX, y: 0 }]
    );
}

#[test]
fn atlas_allocates_cells_in_order() {
    let mut a = SdfAtlas::new(64, 32);
    assert_eq!(a.allocate(), Some((0, 0)));
    assert_eq!(a.allocate(), Some((32, 0)));
    assert_eq!(a.allocate(), Some((0, 32)));
    assert_eq!(a.allocate(), Some((32, 32)));
    assert_eq!(a.allocate(), None);
    assert_eq!(a.allocate(), None);
}

#[test]
fn atlas_with_no_cells() {
    let mut a = SdfAtlas::new(16, 32);
    assert_eq!(a.allocate(), None);
}

#[test]
fn atlas_cells_for_texture_coordinates() {
    let atlas = SdfAtlas::new(256, 64);
    assert_eq!(atlas.cols(), 4);
    assert_eq!(atlas.rows(), 4);
    assert_eq!(atlas.uv_cell(0), (0, 0));
    assert_eq!(atlas.uv_cell(5), (1, 1));
    assert_eq!(atlas.uv_cell(15), (3, 3));
}

#[test]
fn clear_dirty_twice_is_clearing_once() {
    let mut once = TileMap::new(70, 33);
    once.clear_dirty();
    let mut twice = TileMap::new(70, 33);
    twice.clear_dirty();
    twice.clear_dirty();
    let a = once.tiles.values();
    let b = twice.tiles.values();
    assert_eq!(a.len(), 6);
    assert_eq!(a.len(), b.len());
    for (x, y) in a.iter().zip(b.iter()) {
        assert_eq!(x.coord, y.coord);
        assert_eq!(x.dirty, y.dirty);
        assert_eq!(x.shape_ids, y.shape_ids);
    }
}

#[test]
fn tile_counts_follow_single_precision_widths() {
    // 2^24 + 1 rounds down to 2^24 in single precision: 2^19 tiles across.
    assert_eq!(TileMap::new(16_777_217, 1).tiles.len(), 524_288);
    // 2^24 + 3 is a tie that rounds up to 2^24 + 4: one more tile.
    assert_eq!(TileMap::new(16_777_219, 1).tiles.len(), 524_289);
    assert_eq!(TileMap::new(16_777_216, 1).tiles.len(), 524_288);
    assert_eq!(TileMap::new(33, 31).tiles.len(), 2);
}

#[test]
fn tile_maps_clone() {
    let m = TileMap::new(64, 32);
    let c = m.clone();
    assert_eq!(c.tiles.len(), 2);
    assert_eq!(c.screen_width, 64);
    assert_eq!(c.tiles.values()[1].coord, TileCoord { x: 1, y: 0 });
}
