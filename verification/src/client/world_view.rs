//! The client's copy of the world: chunks as they come, and single changes.

use vstd::prelude::*;

use crate::grid::{group_grid, Grid, World, MAX_SIDE};
use crate::sim::chunks::{has_cell, player_chunk, spec_clamped_chunk, CHUNK_SIZE};
use crate::sim::world_tick::{add_cell, with_cell};
use crate::tile::{Tile, TileId};

verus! {

/// Cells of a chunk.
pub const CHUNK_CELLS: usize = 4096;

pub struct WorldView {
    pub world: World,
    /// Chunks that came at least once.
    pub loaded: Vec<(u32, u32)>,
}

/// The cell `(x, y)` lies in the chunk.
pub open spec fn in_chunk(cx: u32, cy: u32, x: int, y: int) -> bool {
    cx * CHUNK_SIZE <= x < (cx + 1) * CHUNK_SIZE && cy * CHUNK_SIZE <= y < (cy + 1) * CHUNK_SIZE
}

/// Where the cell stands among those of its chunk, which come row by row.
pub open spec fn chunk_index(cx: u32, cy: u32, x: int, y: int) -> int {
    (y - cy * CHUNK_SIZE) * CHUNK_SIZE + (x - cx * CHUNK_SIZE)
}

/// The chunk's tiles are in place, and nothing else changed.
pub open spec fn chunk_applied(before: Grid, after: Grid, cx: u32, cy: u32, tiles: Seq<Tile>) -> bool {
    &&& after.width == before.width
    &&& after.height == before.height
    &&& forall|x: int, y: int|
        before.inside(x, y) ==> #[trigger] after.at(x, y) == (if in_chunk(cx, cy, x, y) {
            tiles[chunk_index(cx, cy, x, y)]
        } else {
            before.at(x, y)
        })
}

impl WorldView {
    pub open spec fn wf(&self) -> bool {
        self.world.wf() && self.world.width > 0 && self.world.height > 0
    }

    /// An empty world.
    pub fn new(width: u32, height: u32, spawn: (u32, u32)) -> (v: WorldView)
        requires
            1 <= width <= MAX_SIDE,
            1 <= height <= MAX_SIDE,
            width * height <= u32::MAX,
        ensures
            v.wf(),
            v.world.width == width,
            v.world.height == height,
            v.world.spawn == spawn,
            v.loaded@.len() == 0,
            forall|x: int, y: int|
                v.world@.inside(x, y) ==> #[trigger] v.world@.at(x, y) == Tile::spec_of(TileId::Air),
    {
        let mut world = World::new(width, height);
        world.spawn = spawn;
        WorldView { world, loaded: Vec::new() }
    }

    /// Takes a chunk.
    pub fn apply_chunk(&mut self, cx: u32, cy: u32, tiles: &Vec<Tile>)
        requires
            old(self).wf(),
            tiles.len() == CHUNK_CELLS,
            forall|i: int| 0 <= i < tiles.len() ==> (#[trigger] tiles@[i]).wf(),
            cx < 0x400_0000,
            cy < 0x400_0000,
        ensures
            final(self).wf(),
            final(self).world.spawn == old(self).world.spawn,
            chunk_applied(old(self).world@, final(self).world@, cx, cy, tiles@),
            final(self).loaded@ == with_cell(old(self).loaded@, (cx, cy)),
    {
        let (x0, y0): (u32, u32) = (cx * CHUNK_SIZE, cy * CHUNK_SIZE);
        let ghost g = self.world@;
        let mut dy: u32 = 0;
        while dy < CHUNK_SIZE
            invariant
                dy <= CHUNK_SIZE,
                x0 == cx * CHUNK_SIZE,
                y0 == cy * CHUNK_SIZE,
                cx < 0x400_0000,
                cy < 0x400_0000,
                tiles.len() == CHUNK_CELLS,
                forall|i: int| 0 <= i < tiles.len() ==> (#[trigger] tiles@[i]).wf(),
                self.wf(),
                self.world.spawn == old(self).world.spawn,
                self.loaded == old(self).loaded,
                self.world@.width == g.width,
                self.world@.height == g.height,
                forall|x: int, y: int|
                    g.inside(x, y) ==> #[trigger] self.world@.at(x, y) == (if in_chunk(cx, cy, x, y)
                        && y < y0 + dy {
                        tiles@[chunk_index(cx, cy, x, y)]
                    } else {
                        g.at(x, y)
                    }),
            decreases CHUNK_SIZE - dy,
        {
            let mut dx: u32 = 0;
            while dx < CHUNK_SIZE
                invariant
                    dx <= CHUNK_SIZE,
                    dy < CHUNK_SIZE,
                    x0 == cx * CHUNK_SIZE,
                    y0 == cy * CHUNK_SIZE,
                    cx < 0x400_0000,
                    cy < 0x400_0000,
                    tiles.len() == CHUNK_CELLS,
                    forall|i: int| 0 <= i < tiles.len() ==> (#[trigger] tiles@[i]).wf(),
                    self.wf(),
                    self.world.spawn == old(self).world.spawn,
                    self.loaded == old(self).loaded,
                    self.world@.width == g.width,
                    self.world@.height == g.height,
                    forall|x: int, y: int|
                        g.inside(x, y) ==> #[trigger] self.world@.at(x, y) == (if in_chunk(
                            cx,
                            cy,
                            x,
                            y,
                        ) && (y < y0 + dy || (y == y0 + dy && x < x0 + dx)) {
                            tiles@[chunk_index(cx, cy, x, y)]
                        } else {
                            g.at(x, y)
                        }),
                decreases CHUNK_SIZE - dx,
            {
                broadcast use group_grid;

                let (x, y): (u32, u32) = (x0 + dx, y0 + dy);
                if self.world.in_bounds(x, y) {
                    let t: Tile = tiles[(dy * CHUNK_SIZE + dx) as usize];
                    assert(dy * CHUNK_SIZE + dx == chunk_index(cx, cy, x as int, y as int));
                    self.world.set_tile(x, y, t);
                }
                dx = dx + 1;
            }
            dy = dy + 1;
        }
        add_cell(&mut self.loaded, (cx, cy));
    }

    /// Takes a single change; one outside of the world changes nothing.
    pub fn apply_tile(&mut self, x: u32, y: u32, tile: Tile)
        requires
            old(self).wf(),
            tile.wf(),
        ensures
            final(self).wf(),
            final(self).loaded == old(self).loaded,
            final(self).world.spawn == old(self).world.spawn,
            final(self).world.width == old(self).world.width,
            final(self).world.height == old(self).world.height,
            final(self).world@ == (if old(self).world@.inside(x as int, y as int) {
                old(self).world@.put(x as int, y as int, tile)
            } else {
                old(self).world@
            }),
    {
        if self.world.in_bounds(x, y) {
            self.world.set_tile(x, y, tile);
        }
    }

    /// How many chunks came.
    pub fn loaded_chunks(&self) -> (n: usize)
        ensures
            n == self.loaded@.len(),
    {
        self.loaded.len()
    }

    /// Whether the chunk of a cell came; cells outside count as the nearest
    /// inside.
    pub fn chunk_loaded_at(&self, x: u32, y: u32) -> (b: bool)
        requires
            self.wf(),
        ensures
            b == self.loaded@.contains(
                (
                    spec_clamped_chunk(x, self.world.width),
                    spec_clamped_chunk(y, self.world.height),
                ),
            ),
    {
        let c = player_chunk(&self.world, x, y);
        has_cell(&self.loaded, c)
    }
}

/// A chunk fills its own square of sixty-four cells a side, row by row, and nothing else.
pub proof fn law_chunks_fill_their_square(
    before: Grid,
    after: Grid,
    cx: u32,
    cy: u32,
    tiles: Seq<Tile>,
    i: int,
    j: int,
)
    requires
        chunk_applied(before, after, cx, cy, tiles),
    ensures
        0 <= i < 64 && 0 <= j < 64 && before.inside(64 * cx + i, 64 * cy + j) ==> after.at(
            64 * cx + i,
            64 * cy + j,
        ) == tiles[64 * j + i],
        !(0 <= i < 64 && 0 <= j < 64) && before.inside(64 * cx + i, 64 * cy + j) ==> after.at(
            64 * cx + i,
            64 * cy + j,
        ) == before.at(64 * cx + i, 64 * cy + j),
        after.width == before.width && after.height == before.height,
{
    let (x, y) = (64 * cx + i, 64 * cy + j);
    if before.inside(x, y) {
        let t = after.at(x, y);
    }
}

} // verus!
