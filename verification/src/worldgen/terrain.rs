//! The base layers, and the brush that carves and paints into them.

use vstd::prelude::*;

use crate::grid::{group_grid, Grid, World};
use crate::tile::{Liquid, Tile, TileId, TileState, WallId};
use crate::worldgen::params::GenParams;

verus! {

/// What lies at row `y` of a column whose surface is row `s`: dirt, stone and
/// ash in layers, with a natural wall behind dirt and stone below the surface
/// row.
pub open spec fn base_tile(p: GenParams, s: int, y: int) -> Tile {
    Tile {
        id: if y < p.dirt_to_stone {
            TileId::Dirt
        } else if y < p.stone_to_ash {
            TileId::Stone
        } else {
            TileId::Ash
        },
        wall: if y <= s || y >= p.stone_to_ash {
            WallId::Air
        } else if y < p.dirt_to_stone {
            WallId::Dirt
        } else {
            WallId::Stone
        },
        liquid: Liquid::Empty,
        state: TileState::spec_clear(),
    }
}

/// Fills every column from its surface down.
pub fn fill_base(world: &mut World, params: &GenParams, surface: &Vec<u32>)
    requires
        old(world).wf(),
        surface.len() == old(world).width,
    ensures
        final(world).wf(),
        final(world)@.width == old(world)@.width,
        final(world)@.height == old(world)@.height,
        final(world).spawn == old(world).spawn,
        forall|x: int, y: int|
            old(world)@.inside(x, y) ==> #[trigger] final(world)@.at(x, y) == (if y >= surface@[x] {
                base_tile(*params, surface@[x] as int, y)
            } else {
                old(world)@.at(x, y)
            }),
        forall|x: int, y: int|
            old(world)@.inside(x, y) && surface@[x] <= y && y < params.dirt_to_stone ==> (
            #[trigger] final(world)@.at(x, y)).id == TileId::Dirt,
        forall|x: int, y: int|
            old(world)@.inside(x, y) && surface@[x] <= y && params.dirt_to_stone <= y
                < params.stone_to_ash ==> (#[trigger] final(world)@.at(x, y)).id == TileId::Stone,
        forall|x: int, y: int|
            old(world)@.inside(x, y) && surface@[x] <= y && params.dirt_to_stone <= y
                && params.stone_to_ash <= y ==> (#[trigger] final(world)@.at(x, y)).id
                == TileId::Ash,
{
    let ghost g = world@;
    let mut x: u32 = 0;
    while x < world.width
        invariant
            world.wf(),
            world@.width == g.width,
            world@.height == g.height,
            g == old(world)@,
            world.spawn == old(world).spawn,
            surface.len() == world.width,
            forall|a: int, b: int|
                g.inside(a, b) ==> #[trigger] world@.at(a, b) == (if a < x && b >= surface@[a] {
                    base_tile(*params, surface@[a] as int, b)
                } else {
                    g.at(a, b)
                }),
        decreases world.width - x,
    {
        let s: u32 = surface[x as usize];
        let mut y: u32 = s;
        while y < world.height
            invariant
                world.wf(),
                world@.width == g.width,
                world@.height == g.height,
                world.spawn == old(world).spawn,
                surface.len() == world.width,
                x < world.width,
                s == surface@[x as int],
                s <= y,
                forall|a: int, b: int|
                    g.inside(a, b) ==> #[trigger] world@.at(a, b) == (if (a < x && b >= surface@[a])
                        || (a == x && s <= b < y) {
                        base_tile(*params, surface@[a] as int, b)
                    } else {
                        g.at(a, b)
                    }),
            decreases world.height - y,
        {
            broadcast use group_grid;

            let id: TileId = if y < params.dirt_to_stone {
                TileId::Dirt
            } else if y < params.stone_to_ash {
                TileId::Stone
            } else {
                TileId::Ash
            };
            let wall: WallId = if y <= s || y >= params.stone_to_ash {
                WallId::Air
            } else if y < params.dirt_to_stone {
                WallId::Dirt
            } else {
                WallId::Stone
            };
            let t = Tile { id, wall, liquid: Liquid::Empty, state: TileState::clear() };
            world.set_tile(x, y, t);
            y = y + 1;
        }
        x = x + 1;
    }
}

/// What a worm does to the cells it passes.
pub enum Brush {
    /// Opens them; walls and liquids stay.
    Carve,
    /// Turns the foregrounds listed in `replaces` into `tile`.
    Paint { tile: TileId, replaces: Vec<TileId> },
}

impl Brush {
    pub open spec fn spec_paint(&self, t: Tile) -> Tile {
        match self {
            Brush::Carve => if t.id == TileId::Air {
                t
            } else {
                Tile { id: TileId::Air, state: TileState::spec_clear(), ..t }
            },
            Brush::Paint { tile, replaces } => if replaces@.contains(t.id) {
                Tile { id: *tile, state: TileState::spec_clear(), ..t }
            } else {
                t
            },
        }
    }

    /// What the brush makes of a tile.
    pub fn paint(&self, t: Tile) -> (r: Tile)
        ensures
            r == self.spec_paint(t),
    {
        let mut r = t;
        match self {
            Brush::Carve => {
                if t.id != TileId::Air {
                    r.id = TileId::Air;
                    r.state = TileState::clear();
                }
            },
            Brush::Paint { tile, replaces } => {
                if contains(replaces, t.id) {
                    r.id = *tile;
                    r.state = TileState::clear();
                }
            },
        }
        r
    }
}

fn contains(ids: &Vec<TileId>, id: TileId) -> (b: bool)
    ensures
        b == ids@.contains(id),
{
    let mut i: usize = 0;
    while i < ids.len()
        invariant
            i <= ids.len(),
            forall|k: int| 0 <= k < i ==> ids@[k] != id,
        decreases ids.len() - i,
    {
        if ids[i] == id {
            assert(ids@[i as int] == id);
            return true;
        }
        i = i + 1;
    }
    false
}

/// How far a brush may reach: rows, and per column the row it must stay above.
pub struct Reach {
    pub rows: (u32, u32),
    pub column_limit: Option<Vec<u32>>,
}

impl Reach {
    /// The brush may touch `(x, y)`.
    pub open spec fn spec_allows(&self, x: int, y: int) -> bool {
        &&& self.rows.0 <= y < self.rows.1
        &&& self.column_limit matches Some(limit) ==> y < limit@[x]
    }

    pub open spec fn covers(&self, g: Grid) -> bool {
        self.column_limit matches Some(limit) ==> limit@.len() >= g.width
    }

    /// Whether the brush may touch `(x, y)`.
    pub fn allows(&self, x: u32, y: u32) -> (b: bool)
        requires
            self.column_limit matches Some(limit) ==> x < limit@.len(),
        ensures
            b == self.spec_allows(x as int, y as int),
    {
        if y < self.rows.0 || y >= self.rows.1 {
            return false;
        }
        match &self.column_limit {
            None => true,
            Some(limit) => y < limit[x as usize],
        }
    }
}

/// Applies a brush to one cell: nothing happens outside of the world or
/// beyond the reach.
pub fn apply_brush(world: &mut World, brush: &Brush, reach: &Reach, x: u32, y: u32)
    requires
        old(world).wf(),
        reach.covers(old(world)@),
    ensures
        final(world).wf(),
        final(world).spawn == old(world).spawn,
        final(world)@ == (if old(world)@.inside(x as int, y as int) && reach.spec_allows(
            x as int,
            y as int,
        ) {
            old(world)@.put(
                x as int,
                y as int,
                brush.spec_paint(old(world)@.at(x as int, y as int)),
            )
        } else {
            old(world)@
        }),
{
    if world.in_bounds(x, y) && reach.allows(x, y) {
        let t = brush.paint(world.tile(x, y));
        world.set_tile(x, y, t);
    }
}

/// Carving keeps every wall and every liquid; painting keeps every wall, and
/// touches only what it may replace.
pub proof fn law_brush_keeps_walls(brush: Brush, t: Tile)
    ensures
        brush.spec_paint(t).wall == t.wall,
        brush.spec_paint(t).liquid == t.liquid,
        brush matches Brush::Paint { replaces, .. } && !replaces@.contains(t.id)
            ==> brush.spec_paint(t) == t,
{
}

/// The ground lies in layers: dirt down to the stone line, stone from there to
/// the ash line, ash below. Behind it stand dirt walls in the dirt and stone
/// walls in the stone; the surface row and the ash have none. It is dry.
pub proof fn law_ground_lies_in_layers(p: GenParams, s: int, y: int)
    requires
        p.dirt_to_stone <= p.stone_to_ash,
    ensures
        y < p.dirt_to_stone ==> base_tile(p, s, y).id == TileId::Dirt,
        p.dirt_to_stone <= y < p.stone_to_ash ==> base_tile(p, s, y).id == TileId::Stone,
        p.stone_to_ash <= y ==> base_tile(p, s, y).id == TileId::Ash,
        s < y < p.dirt_to_stone ==> base_tile(p, s, y).wall == WallId::Dirt,
        s < y && p.dirt_to_stone <= y < p.stone_to_ash ==> base_tile(p, s, y).wall
            == WallId::Stone,
        y == s || p.stone_to_ash <= y ==> base_tile(p, s, y).wall == WallId::Air,
        base_tile(p, s, y).liquid is Empty,
        !base_tile(p, s, y).state.wall_placed,
{
}

/// A carved cell is air; a painted cell has the tile of the brush where that
/// may replace what is there.
pub proof fn law_brushes_do_their_work(brush: Brush, t: Tile)
    ensures
        brush is Carve ==> brush.spec_paint(t).id == TileId::Air,
        brush matches Brush::Paint { tile, replaces } ==> brush.spec_paint(t).id == (
        if exists|i: int| 0 <= i < replaces@.len() && replaces@[i] == t.id {
            tile
        } else {
            t.id
        }),
        brush.spec_paint(t).id != t.id ==> brush.spec_paint(t).state == TileState::spec_clear(),
{
    if let Brush::Paint { tile, replaces } = brush {
        if replaces@.contains(t.id) {
        }
    }
}

/// A brush stays between its rows, and above the limit of the column where
/// there is one.
pub proof fn law_reach_is_bounded(reach: Reach, x: int, y: int)
    ensures
        reach.spec_allows(x, y) ==> reach.rows.0 <= y && y < reach.rows.1,
        reach.spec_allows(x, y) && reach.column_limit is Some ==> y < reach.column_limit->Some_0@[x],
        reach.rows.0 <= y < reach.rows.1 && reach.column_limit is None ==> reach.spec_allows(x, y),
        reach.rows.0 <= y < reach.rows.1 && reach.column_limit is Some && y
            < reach.column_limit->Some_0@[x] ==> reach.spec_allows(x, y),
{
}

} // verus!
