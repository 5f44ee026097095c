//! The worms behind caves, blobs and veins: what they do to the cells on
//! their way, where they start and how often they branch.
//!
//! A worm walks in fractions of a cell. What comes in here are the cells
//! that it covered, step by step.

use vstd::prelude::*;

use crate::grid::{group_grid, Grid, World};
use crate::tile::{Liquid, Tile, TileId, TileState, WallId};
use crate::worldgen::params::{GenParams, OreBed, OreSpec};
use crate::worldgen::terrain::{apply_brush, Brush, Reach};

verus! {

/// Most branches of one worm.
pub const MAX_BRANCHES: u32 = 32;

/// Whether a worm branches here: its roll says so, it has branched less than
/// it may, and it is thick enough for a child.
pub fn may_branch(rolled: bool, branches: u32, thick: bool) -> (b: bool)
    ensures
        b == (rolled && thick && branches < 32),
        b ==> branches + 1 <= 32,
        rolled && thick && branches <= 31 ==> b,
{
    rolled && branches < MAX_BRANCHES && thick
}

/// How many steps a branch takes: half as many as the first worm, at least
/// one.
pub fn child_steps(steps: u32) -> (n: u32)
    ensures
        n == (if steps >= 2 {
            steps / 2
        } else {
            1
        }),
        n >= 1,
        steps >= 2 ==> 2 * n <= steps <= 2 * n + 1,
{
    if steps / 2 >= 1 {
        steps / 2
    } else {
        1
    }
}

/// `after` is `before` brushed at `cells`, as far as the brush reaches.
pub open spec fn brushed(
    before: Grid,
    after: Grid,
    brush: Brush,
    reach: Reach,
    cells: Set<(u32, u32)>,
) -> bool {
    &&& after.width == before.width
    &&& after.height == before.height
    &&& forall|x: int, y: int|
        before.inside(x, y) ==> #[trigger] after.at(x, y) == (if cells.contains(
            (x as u32, y as u32),
        ) && reach.spec_allows(x, y) {
            brush.spec_paint(before.at(x, y))
        } else {
            before.at(x, y)
        })
}

/// The cells of the first `n` steps.
pub open spec fn covered(steps: Seq<Vec<(u32, u32)>>, n: int) -> Set<(u32, u32)>
    decreases n,
{
    if n <= 0 {
        Set::empty()
    } else {
        covered(steps, n - 1).union(steps[n - 1]@.to_set())
    }
}

pub proof fn lemma_brushed_twice(
    a: Grid,
    b: Grid,
    c: Grid,
    brush: Brush,
    reach: Reach,
    first: Set<(u32, u32)>,
    second: Set<(u32, u32)>,
)
    requires
        brushed(a, b, brush, reach, first),
        brushed(b, c, brush, reach, second),
    ensures
        brushed(a, c, brush, reach, first.union(second)),
{
    assert forall|x: int, y: int| a.inside(x, y) implies #[trigger] c.at(x, y) == (
    if first.union(second).contains((x as u32, y as u32)) && reach.spec_allows(x, y) {
        brush.spec_paint(a.at(x, y))
    } else {
        a.at(x, y)
    }) by {
        assert(b.inside(x, y));
        assert(b.at(x, y) == b.at(x, y));
    }
}

/// Brushes the cells that one step covers.
pub fn apply_circle(world: &mut World, brush: &Brush, reach: &Reach, cells: &Vec<(u32, u32)>)
    requires
        old(world).wf(),
        reach.covers(old(world)@),
    ensures
        final(world).wf(),
        final(world).width == old(world).width,
        final(world).height == old(world).height,
        final(world).spawn == old(world).spawn,
        brushed(old(world)@, final(world)@, *brush, *reach, cells@.to_set()),
{
    let ghost g = world@;
    let mut i: usize = 0;
    while i < cells.len()
        invariant
            world.wf(),
            world.width == old(world).width,
            world.height == old(world).height,
            world.spawn == old(world).spawn,
            g == old(world)@,
            reach.covers(world@),
            i <= cells.len(),
            brushed(g, world@, *brush, *reach, cells@.subrange(0, i as int).to_set()),
        decreases cells.len() - i,
    {
        broadcast use group_grid;

        let (x, y) = cells[i];
        let ghost m = world@;
        apply_brush(world, brush, reach, x, y);
        proof {
            let seen = cells@.subrange(0, i as int);
            let one = set![(x, y)];
            assert(brushed(m, world@, *brush, *reach, one));
            lemma_brushed_twice(g, m, world@, *brush, *reach, seen.to_set(), one);
            let more = cells@.subrange(0, i + 1);
            assert(more == seen.push((x, y)));
            assert(more.to_set() =~= seen.to_set().union(one)) by {
                assert forall|c: (u32, u32)| more.contains(c) implies seen.contains(c) || c == (
                    x,
                    y,
                ) by {
                    let k = choose|k: int| 0 <= k < more.len() && more[k] == c;
                    if k < i {
                        assert(seen[k] == c);
                    }
                }
                assert forall|c: (u32, u32)| seen.contains(c) implies more.contains(c) by {
                    let k = choose|k: int| 0 <= k < seen.len() && seen[k] == c;
                    assert(more[k] == c);
                }
                assert(more[i as int] == (x, y));
            }
        }
        i = i + 1;
    }
    assert(cells@.subrange(0, cells@.len() as int) =~= cells@);
}

/// Brushes everything on the way of a worm and its branches.
pub fn tile_runner(world: &mut World, brush: &Brush, reach: &Reach, steps: &Vec<Vec<(u32, u32)>>)
    requires
        old(world).wf(),
        reach.covers(old(world)@),
    ensures
        final(world).wf(),
        final(world).width == old(world).width,
        final(world).height == old(world).height,
        final(world).spawn == old(world).spawn,
        brushed(
            old(world)@,
            final(world)@,
            *brush,
            *reach,
            covered(steps@, steps@.len() as int),
        ),
{
    let mut i: usize = 0;
    while i < steps.len()
        invariant
            world.wf(),
            world.width == old(world).width,
            world.height == old(world).height,
            world.spawn == old(world).spawn,
            reach.covers(world@),
            i <= steps.len(),
            brushed(old(world)@, world@, *brush, *reach, covered(steps@, i as int)),
        decreases steps.len() - i,
    {
        let ghost m = world@;
        apply_circle(world, brush, reach, &steps[i]);
        proof {
            lemma_brushed_twice(
                old(world)@,
                m,
                world@,
                *brush,
                *reach,
                covered(steps@, i as int),
                steps@[i as int]@.to_set(),
            );
        }
        i = i + 1;
    }
}

/// A worm keeps every wall and every liquid, leaves alone what it does not
/// reach, and a painting one leaves alone what it must not replace.
pub proof fn law_worms_keep_walls(
    before: Grid,
    after: Grid,
    brush: Brush,
    reach: Reach,
    cells: Set<(u32, u32)>,
    x: int,
    y: int,
)
    requires
        brushed(before, after, brush, reach, cells),
        before.inside(x, y),
    ensures
        after.at(x, y).wall == before.at(x, y).wall,
        after.at(x, y).liquid == before.at(x, y).liquid,
        !reach.spec_allows(x, y) ==> after.at(x, y) == before.at(x, y),
        brush matches Brush::Paint { replaces, .. } && !replaces@.contains(before.at(x, y).id)
            ==> after.at(x, y) == before.at(x, y),
{
    assert(after.at(x, y) == after.at(x, y));
}

/// The brush and the reach of a vein: it paints its ore into its bed, within
/// its rows.
pub fn ore_brush(spec: &OreSpec) -> (b: (Brush, Reach))
    ensures
        b.0 matches Brush::Paint { tile, replaces } && tile == spec.tile && forall|id: TileId|
            replaces@.contains(id) == spec.replaces.spec_accepts(id),
        b.1.rows == spec.rows,
        b.1.column_limit is None,
{
    let mut replaces: Vec<TileId> = Vec::new();
    match spec.replaces {
        OreBed::Ground => {
            replaces.push(TileId::Stone);
            replaces.push(TileId::Dirt);
            replaces.push(TileId::Ash);
            assert(replaces@[0] == TileId::Stone && replaces@[1] == TileId::Dirt && replaces@[2]
                == TileId::Ash);
        },
        OreBed::Ash => {
            replaces.push(TileId::Ash);
            assert(replaces@[0] == TileId::Ash);
        },
    }
    (Brush::Paint { tile: spec.tile, replaces }, Reach { rows: spec.rows, column_limit: None })
}

/// The rows in which a blob of stone starts, in a column whose surface is
/// row `surface`: from there to the stone, at least one.
pub fn stone_blob_rows(params: &GenParams, surface: u32) -> (rows: (u32, u32))
    requires
        params.dirt_to_stone >= 1,
    ensures
        rows.1 == params.dirt_to_stone,
        rows.0 == (if surface < params.dirt_to_stone {
            surface as int
        } else {
            params.dirt_to_stone - 1
        }),
        rows.0 < rows.1,
        surface < params.dirt_to_stone ==> rows.0 == surface,
{
    let last: u32 = params.dirt_to_stone - 1;
    (
        if surface < last {
            surface
        } else {
            last
        },
        params.dirt_to_stone,
    )
}

/// Below which row sand may not reach, for each column.
pub fn sand_limits(params: &GenParams, surface: &Vec<u32>) -> (limits: Vec<u32>)
    ensures
        limits.len() == surface.len(),
        forall|x: int|
            0 <= x < surface.len() ==> #[trigger] limits@[x] == (if surface@[x]
                + params.sand_max_depth + 1 <= params.height {
                surface@[x] + params.sand_max_depth + 1
            } else {
                params.height as int
            }),
{
    let mut limits: Vec<u32> = Vec::new();
    let mut x: usize = 0;
    while x < surface.len()
        invariant
            x <= surface.len(),
            limits.len() == x,
            forall|k: int|
                0 <= k < x ==> #[trigger] limits@[k] == (if surface@[k] + params.sand_max_depth + 1
                    <= params.height {
                    surface@[k] + params.sand_max_depth + 1
                } else {
                    params.height as int
                }),
        decreases surface.len() - x,
    {
        let below: u64 = surface[x] as u64 + params.sand_max_depth as u64 + 1;
        limits.push(
            if below <= params.height as u64 {
                below as u32
            } else {
                params.height
            },
        );
        x = x + 1;
    }
    limits
}

/// A column far enough from the middle of the world for sand.
pub open spec fn sandy(p: GenParams, x: u32) -> bool {
    let middle = p.width / 2;
    if x >= middle {
        x - middle >= p.sand_min_spawn_dist
    } else {
        middle - x >= p.sand_min_spawn_dist
    }
}

/// Where a sand patch starts: the first drawn column far enough from the
/// middle, or the last one drawn.
pub fn sand_start(params: &GenParams, draws: &Vec<u32>) -> (x: u32)
    requires
        draws.len() >= 1,
    ensures
        exists|i: int|
            {
                &&& 0 <= i < draws.len()
                &&& #[trigger] draws@[i] == x
                &&& forall|k: int| 0 <= k < i ==> !sandy(*params, #[trigger] draws@[k])
                &&& sandy(*params, x) || i == draws.len() - 1
            },
{
    let middle: u32 = params.width / 2;
    let mut i: usize = 0;
    while i + 1 < draws.len()
        invariant
            draws.len() >= 1,
            i < draws.len(),
            middle == params.width / 2,
            forall|k: int| 0 <= k < i ==> !sandy(*params, #[trigger] draws@[k]),
        decreases draws.len() - i,
    {
        let x = draws[i];
        let far: bool = if x >= middle {
            x - middle >= params.sand_min_spawn_dist
        } else {
            middle - x >= params.sand_min_spawn_dist
        };
        if far {
            assert(draws@[i as int] == x);
            return x;
        }
        i = i + 1;
    }
    assert(draws@[i as int] == draws@[i as int]);
    draws[i]
}

/// A row of the surface, held within the surface band.
pub open spec fn held(p: GenParams, v: i64) -> int {
    if v < p.surface_min {
        p.surface_min as int
    } else if v > p.surface_max {
        p.surface_max as int
    } else {
        v as int
    }
}

/// The surface of every column, from the rounded heights of the noise.
pub fn heightmap(params: &GenParams, heights: &Vec<i64>) -> (surface: Vec<u32>)
    requires
        params.surface_min <= params.surface_max,
    ensures
        surface.len() == heights.len(),
        forall|x: int|
            0 <= x < heights.len() ==> #[trigger] surface@[x] == held(*params, heights@[x]),
{
    let mut surface: Vec<u32> = Vec::new();
    let mut x: usize = 0;
    while x < heights.len()
        invariant
            params.surface_min <= params.surface_max,
            x <= heights.len(),
            surface.len() == x,
            forall|k: int| 0 <= k < x ==> #[trigger] surface@[k] == held(*params, heights@[k]),
        decreases heights.len() - x,
    {
        let v = heights[x];
        surface.push(
            if v < params.surface_min as i64 {
                params.surface_min
            } else if v > params.surface_max as i64 {
                params.surface_max
            } else {
                v as u32
            },
        );
        x = x + 1;
    }
    surface
}

/// Nothing at all.
pub open spec fn open_air() -> Tile {
    Tile {
        id: TileId::Air,
        wall: WallId::Air,
        liquid: Liquid::Empty,
        state: TileState::spec_clear(),
    }
}

/// Opens the lava lake band of the underworld: in every column everything
/// from its ceiling row down to above its floor row.
pub fn underworld_band(world: &mut World, ceilings: &Vec<u32>, floors: &Vec<u32>)
    requires
        old(world).wf(),
        ceilings.len() == old(world).width,
        floors.len() == old(world).width,
    ensures
        final(world).wf(),
        final(world).width == old(world).width,
        final(world).height == old(world).height,
        final(world).spawn == old(world).spawn,
        forall|x: int, y: int|
            old(world)@.inside(x, y) ==> #[trigger] final(world)@.at(x, y) == (if ceilings@[x] <= y
                < floors@[x] {
                open_air()
            } else {
                old(world)@.at(x, y)
            }),
{
    let ghost g = world@;
    let mut x: u32 = 0;
    while x < world.width
        invariant
            world.wf(),
            world.width == old(world).width,
            world.height == old(world).height,
            world.spawn == old(world).spawn,
            g == old(world)@,
            ceilings.len() == world.width,
            floors.len() == world.width,
            forall|a: int, b: int|
                g.inside(a, b) ==> #[trigger] world@.at(a, b) == (if a < x && ceilings@[a] <= b
                    < floors@[a] {
                    open_air()
                } else {
                    g.at(a, b)
                }),
        decreases world.width - x,
    {
        let (top, floor): (u32, u32) = (ceilings[x as usize], floors[x as usize]);
        let mut y: u32 = top;
        while y < world.height && y < floor
            invariant
                world.wf(),
                world.width == old(world).width,
                world.height == old(world).height,
                world.spawn == old(world).spawn,
                g == old(world)@,
                x < world.width,
                ceilings.len() == world.width,
                floors.len() == world.width,
                top == ceilings@[x as int],
                floor == floors@[x as int],
                top <= y,
                y <= floor || y == top,
                forall|a: int, b: int|
                    g.inside(a, b) ==> #[trigger] world@.at(a, b) == (if (a < x && ceilings@[a] <= b
                        < floors@[a]) || (a == x && top <= b < y) {
                        open_air()
                    } else {
                        g.at(a, b)
                    }),
            decreases world.height - y,
        {
            broadcast use group_grid;

            let t = Tile {
                id: TileId::Air,
                wall: WallId::Air,
                liquid: Liquid::Empty,
                state: TileState::clear(),
            };
            world.set_tile(x, y, t);
            y = y + 1;
        }
        x = x + 1;
    }
}

/// A heightmap keeps to the band of the surface: heights within it stay, the
/// others are brought to its edge.
pub proof fn law_surfaces_stay_in_their_band(p: GenParams, v: i64)
    requires
        p.surface_min <= p.surface_max,
    ensures
        p.surface_min <= held(p, v) <= p.surface_max,
        p.surface_min <= v <= p.surface_max ==> held(p, v) == v,
        v < p.surface_min ==> held(p, v) == p.surface_min,
        v > p.surface_max ==> held(p, v) == p.surface_max,
{
}

/// Sand keeps its distance from the middle of the world, to either side.
pub proof fn law_sand_keeps_off_the_middle(p: GenParams, x: u32)
    ensures
        sandy(p, x) <==> x + p.sand_min_spawn_dist <= p.width / 2 || p.width / 2
            + p.sand_min_spawn_dist <= x,
{
}

/// A worm covers the cells of each of its steps, and no others.
pub proof fn law_worms_cover_their_steps(steps: Seq<Vec<(u32, u32)>>, n: int, c: (u32, u32))
    requires
        0 <= n <= steps.len(),
    ensures
        covered(steps, n).contains(c) <==> exists|i: int|
            0 <= i < n && (#[trigger] steps[i])@.contains(c),
    decreases n,
{
    if n > 0 {
        law_worms_cover_their_steps(steps, n - 1, c);
        if exists|i: int| 0 <= i < n && (#[trigger] steps[i])@.contains(c) {
            let i = choose|i: int| 0 <= i < n && (#[trigger] steps[i])@.contains(c);
            assert(i < n - 1 || i == n - 1);
        }
        if steps[n - 1]@.to_set().contains(c) {
            assert(steps[n - 1]@.contains(c));
        }
    }
}

/// The underworld is hollow: air without wall or liquid.
pub proof fn law_the_underworld_is_hollow()
    ensures
        open_air().id == TileId::Air && open_air().wall == WallId::Air && open_air().liquid is Empty,
        !open_air().solid(),
        MAX_BRANCHES == 32,
{
}

} // verus!
