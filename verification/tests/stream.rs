use ferraria::client::world_view::WorldView;
use ferraria::grid::World;
use ferraria::sim::chunks::{batch_cells, cells_for};
use ferraria::sim::stream::{chunk_tiles, ChunkCache};
use ferraria::tile::{Tile, TileId};

fn world() -> World {
    let mut w = World::new(100, 70);
    for x in 0..100 {
        for y in 30..70 {
            w.set_tile(x, y, Tile::of(TileId::Stone));
        }
    }
    w.set_tile(65, 3, Tile::of(TileId::Dirt));
    w
}

#[test]
fn a_chunk_is_read_row_by_row() {
    let w = world();
    let tiles = chunk_tiles(&w, (1, 0));
    assert_eq!(tiles.len(), 4096);
    assert_eq!(tiles[3 * 64 + 1].id, TileId::Dirt);
    assert_eq!(tiles[30 * 64].id, TileId::Stone);
    assert_eq!(tiles[29 * 64].id, TileId::Air);
    // Columns from 100 on lie beyond the world.
    assert_eq!(tiles[30 * 64 + 35].id, TileId::Stone);
    assert_eq!(tiles[30 * 64 + 36].id, TileId::Air);
}

#[test]
fn a_kept_chunk_is_dropped_with_a_change() {
    let mut w = world();
    let mut cache = ChunkCache::new();
    let first = cache.chunk_frame(&w, (0, 0));
    assert_eq!(first[0].id, TileId::Air);
    assert_eq!(cache.chunk_frame(&w, (0, 0)), first);
    cache.chunk_frame(&w, (1, 0));
    assert_eq!(cache.chunks.len(), 2);
    w.set_tile(0, 0, Tile::of(TileId::Clay));
    cache.forget(0, 0);
    assert_eq!(cache.chunks.len(), 1);
    assert_eq!(cache.chunks[0].0, (1, 0));
    assert_eq!(cache.chunk_frame(&w, (0, 0))[0].id, TileId::Clay);
    // A change elsewhere leaves it alone.
    cache.forget(99, 69);
    assert_eq!(cache.chunks.len(), 2);
}

#[test]
fn a_client_shows_its_chunks_as_they_are() {
    let mut w = world();
    let mut cache = ChunkCache::new();
    let mut view = WorldView::new(100, 70, (50, 20));
    let chunks = vec![(0, 0), (0, 1)];
    for &c in &chunks {
        let tiles = cache.chunk_frame(&w, c);
        view.apply_chunk(c.0, c.1, &tiles);
    }
    let changed = vec![(70, 5), (3, 66), (3, 5), (3, 5)];
    for &(x, y) in &changed {
        w.set_tile(x, y, Tile::of(TileId::Sand));
        cache.forget(x, y);
    }
    let cells = batch_cells(&w, changed);
    assert_eq!(cells, vec![(3, 5), (3, 66), (70, 5)]);
    let mine = cells_for(&cells, &chunks);
    assert_eq!(mine, vec![(3, 5), (3, 66)]);
    for &(x, y) in &mine {
        view.apply_tile(x, y, w.tile(x, y));
    }
    for x in 0..64 {
        for y in 0..70 {
            assert_eq!(view.world.tile(x, y), w.tile(x, y));
        }
    }
    assert_eq!(view.world.tile(70, 5).id, TileId::Air);
    let tiles = cache.chunk_frame(&w, (1, 0));
    view.apply_chunk(1, 0, &tiles);
    assert_eq!(view.world.tile(70, 5).id, TileId::Sand);
}
