//! What the world does by itself: fluids on their beat, falling sand, growing
//! grass and trees, drying puddles.

use vstd::prelude::*;

use crate::cellmap::CellMap;
use crate::grid::{group_grid, lemma_put_total, total, Grid, World};
use crate::sim::chunks::{has_cell, lemma_push_contains};
use crate::sim::fluids::{marked, volume, FluidSim};
use crate::sort::{lemma_sorted_cells, sort_cells, CellOrder};
use crate::tile::{Liquid, LiquidKind, Tile, TileId};
use crate::worldgen::flora::{plant_tree, room_for_tree, with_tree};

verus! {

/// Water moves every so many ticks.
pub const WATER_UPDATE_TICKS: u64 = 2;

/// Lava moves every so many ticks.
pub const LAVA_UPDATE_TICKS: u64 = 5;

/// Ticks after which a puddle is dry.
pub const PUDDLE_TICKS: u64 = 3600;

/// Per tick one cell in so many gets a random update.
pub const GRASS_SPREAD_DENOM: u64 = 600;

/// Free cells a sapling needs above it.
pub const SAPLING_AIR_NEEDED: u32 = 7;

/// Most segments of a tree.
pub const TREE_HEIGHT_MAX: u32 = 16;

/// Which liquids move at `tick`: water, lava.
pub fn fluids_due(tick: u64) -> (due: (bool, bool))
    ensures
        due.0 == (tick % WATER_UPDATE_TICKS == 0),
        due.1 == (tick % LAVA_UPDATE_TICKS == 0),
        due.0 <==> tick % 2 == 0,
        due.1 <==> tick % 5 == 0,
{
    (tick % WATER_UPDATE_TICKS == 0, tick % LAVA_UPDATE_TICKS == 0)
}

/// Random updates per tick.
pub open spec fn spec_random_budget(g: Grid) -> int {
    let n = (g.width * g.height) / GRASS_SPREAD_DENOM as int;
    if n >= 1 {
        n
    } else {
        1
    }
}

/// How many random updates a world gets per tick.
pub fn random_tick_budget(world: &World) -> (n: u64)
    ensures
        n == spec_random_budget(world@),
{
    assert(0 <= world.width * world.height <= 0xffff_ffff * 0xffff_ffff) by (nonlinear_arith)
        requires
            0 <= world.width <= 0xffff_ffff,
            0 <= world.height <= 0xffff_ffff,
    ;
    let area: u64 = world.width as u64 * world.height as u64;
    let n: u64 = area / GRASS_SPREAD_DENOM;
    if n >= 1 {
        n
    } else {
        1
    }
}

// ---- Sand ------------------------------------------------------------------

/// Sand in fall: the grid, the fluid queue, the sand to look at next tick and
/// the cells that changed.
#[verifier::ext_equal]
pub struct SandFall {
    pub grid: Grid,
    pub queue: Seq<(u32, u32)>,
    pub next: Seq<(u32, u32)>,
    pub staged: Seq<(u32, u32)>,
}

/// `cells` with `c` added, unless it is there.
pub open spec fn with_cell(cells: Seq<(u32, u32)>, c: (u32, u32)) -> Seq<(u32, u32)> {
    if cells.contains(c) {
        cells
    } else {
        cells.push(c)
    }
}

/// Sand at `(x, y)` falls: the cell below is inside and has no foreground.
pub open spec fn sand_falls(g: Grid, x: int, y: int) -> bool {
    g.at(x, y).id == TileId::Sand && g.inside(x, y + 1) && g.at(x, y + 1).id == TileId::Air
}

/// The cell that sand leaves: it takes the liquid from below.
pub open spec fn vacated(t: Tile, below: Tile) -> Tile {
    Tile { id: TileId::Air, liquid: below.liquid, state: t.state.spec_wall_only(), ..t }
}

/// The cell that sand comes to.
pub open spec fn landed(below: Tile) -> Tile {
    Tile {
        id: TileId::Sand,
        liquid: Liquid::Empty,
        state: below.state.spec_wall_only(),
        ..below
    }
}

pub open spec fn sunk(g: Grid, x: int, y: int) -> Grid {
    g.put(x, y, vacated(g.at(x, y), g.at(x, y + 1))).put(x, y + 1, landed(g.at(x, y + 1)))
}

/// The fluid queue after sand fell from `(x, y)`.
pub open spec fn sand_marks(q: Seq<(u32, u32)>, w: int, h: int, x: int, y: int) -> Seq<(u32, u32)> {
    let q = marked(q, w, h, x, y);
    let q = marked(q, w, h, x, y - 1);
    let q = marked(q, w, h, x, y + 2);
    let q = marked(q, w, h, x - 1, y + 1);
    marked(q, w, h, x + 1, y + 1)
}

impl SandFall {
    /// One cell is looked at.
    pub open spec fn visit(self, c: (u32, u32)) -> SandFall {
        let (x, y) = (c.0 as int, c.1 as int);
        if !sand_falls(self.grid, x, y) {
            self
        } else {
            let below = (c.0, (y + 1) as u32);
            let next = with_cell(self.next, below);
            SandFall {
                grid: sunk(self.grid, x, y),
                queue: sand_marks(self.queue, self.grid.width, self.grid.height, x, y),
                next: if y > 0 && self.grid.at(x, y - 1).id == TileId::Sand {
                    with_cell(next, (c.0, (y - 1) as u32))
                } else {
                    next
                },
                staged: self.staged + seq![c, below],
            }
        }
    }

    pub open spec fn visits(self, cells: Seq<(u32, u32)>, n: nat) -> SandFall
        decreases n,
    {
        if n == 0 {
            self
        } else {
            self.visits(cells, (n - 1) as nat).visit(cells[n - 1])
        }
    }
}

/// Adds a cell to a list, unless it is there.
pub fn add_cell(cells: &mut Vec<(u32, u32)>, c: (u32, u32))
    ensures
        final(cells)@ == with_cell(old(cells)@, c),
{
    if !has_cell(cells, c) {
        cells.push(c);
    }
}

/// Lets the sand in `active` fall by one cell where it can, the lowest first,
/// so that a whole column moves at once. Sand sinks through liquid, which
/// comes up in its place. Returns the sand to look at next tick.
pub fn step_sand(
    world: &mut World,
    fluids: &mut FluidSim,
    active: Vec<(u32, u32)>,
    staged: &mut Vec<(u32, u32)>,
) -> (next: Vec<(u32, u32)>)
    requires
        old(world).wf(),
        old(fluids).fits(old(world)@),
        forall|i: int|
            0 <= i < active.len() ==> (#[trigger] active@[i]).0 < old(world).width && active@[i].1
                < old(world).height,
    ensures
        final(world).wf(),
        final(world).width == old(world).width,
        final(world).height == old(world).height,
        final(world).spawn == old(world).spawn,
        final(fluids).fits(final(world)@),
        ({
            let start = (SandFall {
                grid: old(world)@,
                queue: old(fluids)@,
                next: seq![],
                staged: old(staged)@,
            });
            let cells = CellOrder::BottomUp.sorted(active@);
            let end = start.visits(cells, cells.len());
            &&& final(world)@ == end.grid
            &&& final(fluids)@ == end.queue
            &&& next@ == end.next
            &&& final(staged)@ == end.staged
        }),
        forall|i: int|
            0 <= i < next.len() ==> (#[trigger] next@[i]).0 < final(world).width && next@[i].1
                < final(world).height,
{
    let ghost all = active@;
    let cells = sort_cells(CellOrder::BottomUp, active);
    proof {
        lemma_sorted_cells(CellOrder::BottomUp, all);
        assert forall|i: int| 0 <= i < cells@.len() implies (#[trigger] cells@[i]).0 < world.width
            && cells@[i].1 < world.height by {
            assert(cells@.contains(cells@[i]));
            assert(all.contains(cells@[i]));
            let k = all.index_of(cells@[i]);
            assert(all[k] == cells@[i]);
        }
    }
    let mut next: Vec<(u32, u32)> = Vec::new();
    let ghost start = SandFall {
        grid: world@,
        queue: fluids@,
        next: seq![],
        staged: staged@,
    };
    let mut i: usize = 0;
    while i < cells.len()
        invariant
            world.wf(),
            world.width == old(world).width,
            world.height == old(world).height,
            world.spawn == old(world).spawn,
            fluids.fits(world@),
            i <= cells.len(),
            forall|k: int|
                0 <= k < cells@.len() ==> (#[trigger] cells@[k]).0 < world.width && cells@[k].1
                    < world.height,
            forall|k: int|
                0 <= k < next@.len() ==> (#[trigger] next@[k]).0 < world.width && next@[k].1
                    < world.height,
            (SandFall { grid: world@, queue: fluids@, next: next@, staged: staged@ })
                == start.visits(cells@, i as nat),
        decreases cells.len() - i,
    {
        broadcast use group_grid;

        let (x, y) = cells[i];
        let ghost now = SandFall {
            grid: world@,
            queue: fluids@,
            next: next@,
            staged: staged@,
        };
        let t = world.tile(x, y);
        if t.id == TileId::Sand && y + 1 < world.height {
            let below = world.tile(x, y + 1);
            if below.id == TileId::Air {
                let mut src = t;
                let mut dst = below;
                dst.id = TileId::Sand;
                dst.liquid = Liquid::Empty;
                dst.state = below.state.wall_only();
                src.id = TileId::Air;
                src.liquid = below.liquid;
                src.state = t.state.wall_only();
                world.set_tile(x, y, src);
                world.set_tile(x, y + 1, dst);
                staged.push((x, y));
                staged.push((x, y + 1));
                fluids.mark(x, y);
                fluids.mark(x, y.wrapping_sub(1));
                fluids.mark(x, y + 2);
                fluids.mark(x.wrapping_sub(1), y + 1);
                fluids.mark(x + 1, y + 1);
                add_cell(&mut next, (x, y + 1));
                if y > 0 && world.tile(x, y - 1).id == TileId::Sand {
                    add_cell(&mut next, (x, y - 1));
                }
                assert(staged@ =~= now.staged + seq![(x, y), (x, (y + 1) as u32)]);
            }
        }
        assert((SandFall { grid: world@, queue: fluids@, next: next@, staged: staged@ })
            =~= now.visit(cells@[i as int]));
        i = i + 1;
    }
    next
}

/// How many cells of sand there are.
pub open spec fn sand_count(g: Grid) -> int {
    total(
        g.cells,
        |i: int, t: Tile|
            if t.id == TileId::Sand {
                1
            } else {
                0
            },
    )
}

/// Falling keeps the sand and the liquids: as many cells of sand as before,
/// and as much of each liquid, as long as the sand itself holds none.
pub proof fn law_sand_is_conserved(g: Grid, x: int, y: int, kind: LiquidKind)
    requires
        g.wf(),
        g.inside(x, y),
        sand_falls(g, x, y),
    ensures
        sunk(g, x, y).wf(),
        sand_count(sunk(g, x, y)) == sand_count(g),
        g.at(x, y).liquid == Liquid::Empty ==> volume(sunk(g, x, y), kind) == volume(g, kind),
{
    broadcast use group_grid;

    let a = vacated(g.at(x, y), g.at(x, y + 1));
    let b = landed(g.at(x, y + 1));
    let mid = g.put(x, y, a);
    let sand = |i: int, t: Tile|
        if t.id == TileId::Sand {
            1int
        } else {
            0
        };
    lemma_put_total(g, sand, x, y, a);
    lemma_put_total(mid, sand, x, y + 1, b);
    let wet = |i: int, t: Tile| t.liquid.amount(kind);
    lemma_put_total(g, wet, x, y, a);
    lemma_put_total(mid, wet, x, y + 1, b);
}

// ---- Grass -----------------------------------------------------------------

/// Some side of the cell is not solid. The edge of the world counts as solid.
pub open spec fn exposed(g: Grid, x: int, y: int) -> bool {
    !g.solid(x - 1, y) || !g.solid(x + 1, y) || !g.solid(x, y - 1) || !g.solid(x, y + 1)
}

/// Whether some side of an inside cell is open.
pub fn air_exposed(world: &World, x: u32, y: u32) -> (b: bool)
    requires
        world.wf(),
        world@.inside(x as int, y as int),
    ensures
        b == exposed(world@, x as int, y as int),
{
    let (xi, yi): (i32, i32) = (x as i32, y as i32);
    !world.is_solid(xi - 1, yi) || !world.is_solid(xi + 1, yi) || !world.is_solid(xi, yi - 1)
        || !world.is_solid(xi, yi + 1)
}

/// Dirt to which grass may spread.
pub open spec fn greenable(g: Grid, x: int, y: int) -> Seq<(u32, u32)> {
    if g.inside(x, y) && g.at(x, y).id == TileId::Dirt && exposed(g, x, y) {
        seq![(x as u32, y as u32)]
    } else {
        seq![]
    }
}

/// The cells around `(x, y)` to which grass may spread, row by row.
pub open spec fn greenable_around(g: Grid, x: int, y: int) -> Seq<(u32, u32)> {
    greenable(g, x - 1, y - 1) + greenable(g, x, y - 1) + greenable(g, x + 1, y - 1) + greenable(
        g,
        x - 1,
        y,
    ) + greenable(g, x + 1, y) + greenable(g, x - 1, y + 1) + greenable(g, x, y + 1) + greenable(
        g,
        x + 1,
        y + 1,
    )
}

fn push_greenable(world: &World, x: i64, y: i64, out: &mut Vec<(u32, u32)>)
    requires
        world.wf(),
    ensures
        final(out)@ == old(out)@ + greenable(world@, x as int, y as int),
{
    if x >= 0 && y >= 0 && x < world.width as i64 && y < world.height as i64 && world.tile(
        x as u32,
        y as u32,
    ).id == TileId::Dirt && air_exposed(world, x as u32, y as u32) {
        out.push((x as u32, y as u32));
        assert(out@ =~= old(out)@ + seq![(x as u32, y as u32)]);
    } else {
        assert(out@ =~= old(out)@ + seq![]);
    }
}

/// Where grass at `(x, y)` may spread to.
pub fn grass_candidates(world: &World, x: u32, y: u32) -> (out: Vec<(u32, u32)>)
    requires
        world.wf(),
        world@.inside(x as int, y as int),
    ensures
        out@ == greenable_around(world@, x as int, y as int),
{
    let (cx, cy): (i64, i64) = (x as i64, y as i64);
    let mut out: Vec<(u32, u32)> = Vec::new();
    push_greenable(world, cx - 1, cy - 1, &mut out);
    push_greenable(world, cx, cy - 1, &mut out);
    push_greenable(world, cx + 1, cy - 1, &mut out);
    push_greenable(world, cx - 1, cy, &mut out);
    push_greenable(world, cx + 1, cy, &mut out);
    push_greenable(world, cx - 1, cy + 1, &mut out);
    push_greenable(world, cx, cy + 1, &mut out);
    push_greenable(world, cx + 1, cy + 1, &mut out);
    assert(out@ =~= greenable_around(world@, x as int, y as int));
    out
}

/// What a random update does to a cell.
#[derive(Debug, Clone, Copy)]
pub enum RandomTick {
    Nothing,
    /// Covered grass turns to dirt.
    Dies,
    /// Grass spreads to this cell.
    Spreads((u32, u32)),
    /// A torch under water goes out and breaks.
    Snuffed,
}

pub open spec fn random_tick(g: Grid, x: int, y: int, choice: int) -> RandomTick {
    let t = g.at(x, y);
    let around = greenable_around(g, x, y);
    if t.id == TileId::Grass {
        if !exposed(g, x, y) {
            RandomTick::Dies
        } else if around.len() == 0 {
            RandomTick::Nothing
        } else {
            RandomTick::Spreads(around[choice % (around.len() as int)])
        }
    } else if t.id == TileId::Torch && t.liquid.spec_kind() == Some(LiquidKind::Water) {
        RandomTick::Snuffed
    } else {
        RandomTick::Nothing
    }
}

/// The grid after a random update; a snuffed torch is left to be broken.
pub open spec fn after_random_tick(g: Grid, x: int, y: int, r: RandomTick) -> Grid {
    match r {
        RandomTick::Dies => g.put(x, y, Tile { id: TileId::Dirt, ..g.at(x, y) }),
        RandomTick::Spreads(c) => g.put(
            c.0 as int,
            c.1 as int,
            Tile { id: TileId::Grass, ..g.at(c.0 as int, c.1 as int) },
        ),
        _ => g,
    }
}

/// A random update of an inside cell; `choice` picks where grass spreads to.
pub fn random_tick_cell(world: &mut World, x: u32, y: u32, choice: usize) -> (r: RandomTick)
    requires
        old(world).wf(),
        old(world)@.inside(x as int, y as int),
    ensures
        final(world).wf(),
        final(world).width == old(world).width,
        final(world).height == old(world).height,
        final(world).spawn == old(world).spawn,
        r == random_tick(old(world)@, x as int, y as int, choice as int),
        final(world)@ == after_random_tick(old(world)@, x as int, y as int, r),
{
    broadcast use group_grid;

    let mut t = world.tile(x, y);
    if t.id == TileId::Grass {
        if !air_exposed(world, x, y) {
            t.id = TileId::Dirt;
            world.set_tile(x, y, t);
            return RandomTick::Dies;
        }
        let around = grass_candidates(world, x, y);
        if around.len() == 0 {
            return RandomTick::Nothing;
        }
        let c: (u32, u32) = around[choice % around.len()];
        proof {
            lemma_greenable_inside(world@, x as int, y as int, choice as int % around@.len() as int);
        }
        let mut n = world.tile(c.0, c.1);
        n.id = TileId::Grass;
        world.set_tile(c.0, c.1, n);
        RandomTick::Spreads(c)
    } else if t.id == TileId::Torch && t.liquid.holds(LiquidKind::Water) {
        RandomTick::Snuffed
    } else {
        RandomTick::Nothing
    }
}

/// Grass spreads only to exposed dirt next to it.
pub proof fn lemma_greenable_inside(g: Grid, x: int, y: int, k: int)
    requires
        0 <= k < greenable_around(g, x, y).len(),
        g.width <= u32::MAX,
        g.height <= u32::MAX,
    ensures
        ({
            let c = greenable_around(g, x, y)[k];
            let (a, b) = (c.0 as int, c.1 as int);
            &&& g.inside(a, b)
            &&& g.at(a, b).id == TileId::Dirt
            &&& exposed(g, a, b)
            &&& x - 1 <= a <= x + 1
            &&& y - 1 <= b <= y + 1
        }),
{
}

// ---- Trees -----------------------------------------------------------------

/// Free cells right above `(x, y)`, at most `limit`.
pub open spec fn free_above(g: Grid, x: int, y: int, limit: nat) -> nat
    decreases limit,
{
    if limit == 0 || !g.vacant(x, y - 1) {
        0
    } else {
        1 + free_above(g, x, y - 1, (limit - 1) as nat)
    }
}

proof fn lemma_free_above(g: Grid, x: int, y: int, limit: nat, n: nat)
    requires
        n <= free_above(g, x, y, limit),
    ensures
        forall|b: int| y - n <= b < y ==> #[trigger] g.vacant(x, b),
    decreases limit,
{
    if n > 0 {
        lemma_free_above(g, x, y - 1, (limit - 1) as nat, (n - 1) as nat);
    }
}

/// What becomes of a sapling.
#[derive(Debug, Clone, Copy, PartialEq, Eq, Structural)]
pub enum Growth {
    /// There is no sapling any more.
    Lost,
    /// There is not enough room above it.
    Blocked,
    /// It is a tree with so many segments.
    Grown(u32),
}

/// What becomes of the sapling at `(x, y)` when a tree of `rolled` segments
/// is due: it needs room, and fills at most the room there is.
pub open spec fn growth(g: Grid, x: int, y: int, rolled: int) -> Growth {
    let air = free_above(g, x, y, TREE_HEIGHT_MAX as nat);
    if g.at(x, y).id != TileId::Sapling {
        Growth::Lost
    } else if air < SAPLING_AIR_NEEDED {
        Growth::Blocked
    } else {
        Growth::Grown(
            (if rolled < air + 1 {
                rolled
            } else {
                (air + 1) as int
            }) as u32,
        )
    }
}

/// Lets a due sapling grow. The lowest segment takes the place of the
/// sapling.
pub fn grow_sapling(world: &mut World, x: u32, y: u32, rolled: u32) -> (r: Growth)
    requires
        old(world).wf(),
        old(world)@.inside(x as int, y as int),
    ensures
        final(world).wf(),
        final(world).width == old(world).width,
        final(world).height == old(world).height,
        final(world).spawn == old(world).spawn,
        r == growth(old(world)@, x as int, y as int, rolled as int),
        match r {
            Growth::Grown(n) => {
                let bare = old(world)@.put(
                    x as int,
                    y as int,
                    (Tile { id: TileId::Air, ..old(world)@.at(x as int, y as int) }),
                );
                with_tree(bare, final(world)@, x as int, y + 1, n as int)
            },
            _ => final(world)@ == old(world)@,
        },
{
    broadcast use group_grid;

    let ghost g = world@;
    let mut t = world.tile(x, y);
    if t.id != TileId::Sapling {
        return Growth::Lost;
    }
    let mut air: u32 = 0;
    while air < TREE_HEIGHT_MAX && y > air && world.is_empty(x, y - air - 1)
        invariant
            world.wf(),
            world@ == g,
            air <= TREE_HEIGHT_MAX,
            air <= y,
            free_above(g, x as int, y as int, TREE_HEIGHT_MAX as nat) == air + free_above(
                g,
                x as int,
                y - air,
                (TREE_HEIGHT_MAX - air) as nat,
            ),
        decreases TREE_HEIGHT_MAX - air,
    {
        air = air + 1;
    }
    assert(free_above(g, x as int, y as int, TREE_HEIGHT_MAX as nat) == air);
    if air < SAPLING_AIR_NEEDED {
        return Growth::Blocked;
    }
    let height: u32 = if rolled < air + 1 {
        rolled
    } else {
        air + 1
    };
    t.id = TileId::Air;
    world.set_tile(x, y, t);
    let ghost bare = world@;
    proof {
        lemma_free_above(g, x as int, y as int, TREE_HEIGHT_MAX as nat, air as nat);
        assert forall|b: int| y + 1 - height <= b < y + 1 implies #[trigger] bare.vacant(
            x as int,
            b,
        ) by {
            if b < y {
                assert(g.vacant(x as int, b));
            }
        }
        assert(room_for_tree(bare, x as int, y + 1, height as int));
    }
    let planted = plant_tree(world, x, y + 1, height);
    Growth::Grown(height)
}

// ---- Puddles ---------------------------------------------------------------

/// One level of liquid on solid ground.
pub open spec fn puddle(g: Grid, x: int, y: int) -> bool {
    g.at(x, y).liquid.spec_level() == 1 && g.solid(x, y + 1)
}

/// Whether an inside cell is a puddle.
pub fn is_puddle(world: &World, x: u32, y: u32) -> (b: bool)
    requires
        world.wf(),
        world@.inside(x as int, y as int),
    ensures
        b == puddle(world@, x as int, y as int),
{
    let t = world.tile(x, y);
    t.liquid.is_some() && t.liquid.level() == 1 && world.is_solid(x as i32, y as i32 + 1)
}

/// What is known of puddles after a look at `(x, y)`.
pub open spec fn puddles_after(
    puddles: Map<(u32, u32), u64>,
    g: Grid,
    x: int,
    y: int,
    tick: u64,
) -> Map<(u32, u32), u64> {
    let c = (x as u32, y as u32);
    if !g.inside(x, y) {
        puddles
    } else if puddle(g, x, y) {
        if puddles.dom().contains(c) {
            puddles
        } else {
            puddles.insert(c, tick)
        }
    } else {
        puddles.remove(c)
    }
}

/// Notes since when a cell is a puddle, and forgets one that is none.
pub fn track_puddle(world: &World, puddles: &mut CellMap<u64>, x: u32, y: u32, tick: u64)
    requires
        world.wf(),
    ensures
        final(puddles)@ == puddles_after(old(puddles)@, world@, x as int, y as int, tick),
{
    if !world.in_bounds(x, y) {
        return;
    }
    if is_puddle(world, x, y) {
        if puddles.get((x, y)).is_none() {
            puddles.insert((x, y), tick);
        }
    } else {
        puddles.remove((x, y));
    }
}

/// Notes all puddles of a world as there from the start.
pub fn scan_initial_puddles(world: &World) -> (puddles: CellMap<u64>)
    requires
        world.wf(),
    ensures
        forall|c: (u32, u32)| #[trigger]
            puddles@.dom().contains(c) <==> world@.inside(c.0 as int, c.1 as int) && puddle(
                world@,
                c.0 as int,
                c.1 as int,
            ),
        forall|c: (u32, u32)| #[trigger] puddles@.dom().contains(c) ==> puddles@[c] == 0,
{
    let mut puddles: CellMap<u64> = CellMap::new();
    let mut y: u32 = 0;
    while y < world.height
        invariant
            world.wf(),
            forall|c: (u32, u32)| #[trigger]
                puddles@.dom().contains(c) <==> world@.inside(c.0 as int, c.1 as int) && c.1 < y
                    && puddle(world@, c.0 as int, c.1 as int),
            forall|c: (u32, u32)| #[trigger] puddles@.dom().contains(c) ==> puddles@[c] == 0,
        decreases world.height - y,
    {
        let mut x: u32 = 0;
        while x < world.width
            invariant
                world.wf(),
                y < world.height,
                forall|c: (u32, u32)| #[trigger]
                    puddles@.dom().contains(c) <==> world@.inside(c.0 as int, c.1 as int) && (c.1
                        < y || (c.1 == y && c.0 < x)) && puddle(world@, c.0 as int, c.1 as int),
                forall|c: (u32, u32)| #[trigger] puddles@.dom().contains(c) ==> puddles@[c] == 0,
            decreases world.width - x,
        {
            if is_puddle(world, x, y) {
                puddles.insert((x, y), 0);
            }
            x = x + 1;
        }
        y = y + 1;
    }
    puddles
}

/// A noted puddle is dry: it is one, and has been for long enough.
pub open spec fn dries(g: Grid, c: (u32, u32), since: u64, tick: u64) -> bool {
    puddle(g, c.0 as int, c.1 as int) && (if tick >= since {
        tick - since
    } else {
        0
    }) >= PUDDLE_TICKS
}

/// Dries the puddles that are old enough, and forgets those that are none any
/// more. Appends the dried cells to `staged`.
pub fn evaporate_puddles(
    world: &mut World,
    puddles: &mut CellMap<u64>,
    tick: u64,
    staged: &mut Vec<(u32, u32)>,
)
    requires
        old(world).wf(),
        forall|c: (u32, u32)| #[trigger]
            old(puddles)@.dom().contains(c) ==> old(world)@.inside(c.0 as int, c.1 as int),
    ensures
        final(world).wf(),
        final(world).width == old(world).width,
        final(world).height == old(world).height,
        final(world).spawn == old(world).spawn,
        forall|a: int, b: int|
            old(world)@.inside(a, b) ==> #[trigger] final(world)@.at(a, b) == (if old(
                puddles,
            )@.dom().contains((a as u32, b as u32)) && dries(
                old(world)@,
                (a as u32, b as u32),
                old(puddles)@[(a as u32, b as u32)],
                tick,
            ) {
                old(world)@.at(a, b).with_liquid(Liquid::Empty)
            } else {
                old(world)@.at(a, b)
            }),
        forall|c: (u32, u32)| #[trigger]
            final(puddles)@.dom().contains(c) <==> {
                &&& old(puddles)@.dom().contains(c)
                &&& puddle(old(world)@, c.0 as int, c.1 as int)
                &&& !dries(old(world)@, c, old(puddles)@[c], tick)
            },
        forall|c: (u32, u32)| #[trigger]
            final(puddles)@.dom().contains(c) ==> final(puddles)@[c] == old(puddles)@[c],
        forall|c: (u32, u32)| #[trigger]
            final(staged)@.contains(c) <==> old(staged)@.contains(c) || (old(puddles)@.dom().contains(
                c,
            ) && dries(old(world)@, c, old(puddles)@[c], tick)),
{
    let ghost g = world@;
    let ghost before = puddles@;
    let ghost told = staged@;
    let cells = puddles.cells();
    let mut i: usize = 0;
    assert(cells@.take(0) =~= Seq::<(u32, u32)>::empty());
    while i < cells.len()
        invariant
            i <= cells.len(),
            world.wf(),
            world.width == old(world).width,
            world.height == old(world).height,
            world.spawn == old(world).spawn,
            g == old(world)@,
            before == old(puddles)@,
            told == old(staged)@,
            cells@.no_duplicates(),
            forall|c: (u32, u32)| #[trigger] cells@.contains(c) <==> before.dom().contains(c),
            forall|c: (u32, u32)| #[trigger]
                before.dom().contains(c) ==> g.inside(c.0 as int, c.1 as int),
            forall|c: (u32, u32)| #[trigger]
                puddles@.dom().contains(c) <==> before.dom().contains(c) && !(cells@.take(
                    i as int,
                ).contains(c) && (!puddle(g, c.0 as int, c.1 as int) || dries(
                    g,
                    c,
                    before[c],
                    tick,
                ))),
            forall|c: (u32, u32)| #[trigger]
                puddles@.dom().contains(c) ==> puddles@[c] == before[c],
            forall|a: int, b: int|
                g.inside(a, b) ==> #[trigger] world@.at(a, b) == (if cells@.take(
                    i as int,
                ).contains((a as u32, b as u32)) && dries(
                    g,
                    (a as u32, b as u32),
                    before[(a as u32, b as u32)],
                    tick,
                ) {
                    g.at(a, b).with_liquid(Liquid::Empty)
                } else {
                    g.at(a, b)
                }),
            forall|c: (u32, u32)| #[trigger]
                staged@.contains(c) <==> told.contains(c) || (cells@.take(i as int).contains(c)
                    && dries(g, c, before[c], tick)),
        decreases cells.len() - i,
    {
        broadcast use group_grid;

        let c: (u32, u32) = cells[i];
        let (x, y): (u32, u32) = c;
        proof {
            let t0 = cells@.take(i as int);
            assert(cells@.contains(cells@[i as int]));
            assert(cells@.take(i + 1) =~= t0.push(c));
            lemma_push_contains(t0, c);
            lemma_push_contains(staged@, c);
            if t0.contains(c) {
                let k = t0.index_of(c);
                assert(cells@[k] == cells@[i as int]);
            }
        }
        assert(world@.at(x as int, y as int) == g.at(x as int, y as int));
        assert(world@.solid(x as int, y + 1) == g.solid(x as int, y + 1));
        if let Some(since) = puddles.get(c) {
            if !is_puddle(world, x, y) {
                puddles.remove(c);
            } else if tick.saturating_sub(since) >= PUDDLE_TICKS {
                puddles.remove(c);
                let mut t = world.tile(x, y);
                t.liquid = Liquid::Empty;
                world.set_tile(x, y, t);
                staged.push(c);
            }
        }
        i = i + 1;
    }
    assert(cells@.take(i as int) =~= cells@);
}

/// The fluid queue after the cells of `dried` ran dry.
pub open spec fn dry_marks(
    q: Seq<(u32, u32)>,
    w: int,
    h: int,
    dried: Seq<(u32, u32)>,
    n: nat,
) -> Seq<(u32, u32)>
    decreases n,
{
    if n == 0 {
        q
    } else {
        let (x, y) = (dried[n - 1].0 as int, dried[n - 1].1 as int);
        let q = dry_marks(q, w, h, dried, (n - 1) as nat);
        let q = marked(q, w, h, x, y);
        let q = marked(q, w, h, x - 1, y);
        let q = marked(q, w, h, x + 1, y);
        marked(q, w, h, x, y - 1)
    }
}

/// Queues what may flow into dried cells, from index `from` on.
pub fn mark_dried(fluids: &mut FluidSim, dried: &Vec<(u32, u32)>, from: usize)
    requires
        old(fluids).wf(),
        from <= dried.len(),
        forall|i: int| 0 <= i < dried.len() ==> (#[trigger] dried@[i]).0 < u32::MAX,
    ensures
        final(fluids).wf(),
        final(fluids).spec_width() == old(fluids).spec_width(),
        final(fluids).spec_height() == old(fluids).spec_height(),
        final(fluids)@ == dry_marks(
            old(fluids)@,
            old(fluids).spec_width() as int,
            old(fluids).spec_height() as int,
            dried@.skip(from as int),
            (dried.len() - from) as nat,
        ),
{
    let mut i: usize = from;
    while i < dried.len()
        invariant
            from <= i <= dried.len(),
            fluids.wf(),
            fluids.spec_width() == old(fluids).spec_width(),
            fluids.spec_height() == old(fluids).spec_height(),
            forall|k: int| 0 <= k < dried.len() ==> (#[trigger] dried@[k]).0 < u32::MAX,
            fluids@ == dry_marks(
                old(fluids)@,
                old(fluids).spec_width() as int,
                old(fluids).spec_height() as int,
                dried@.skip(from as int),
                (i - from) as nat,
            ),
        decreases dried.len() - i,
    {
        let (x, y) = dried[i];
        assert(dried@.skip(from as int)[i - from] == dried@[i as int]);
        fluids.mark(x, y);
        fluids.mark(x.wrapping_sub(1), y);
        fluids.mark(x + 1, y);
        fluids.mark(x, y.wrapping_sub(1));
        i = i + 1;
    }
}

/// Evaporation makes no liquid and takes at most one level per cell: only
/// puddles of one level dry.
pub proof fn law_only_puddles_dry(g: Grid, c: (u32, u32), since: u64, tick: u64)
    requires
        dries(g, c, since, tick),
    ensures
        g.at(c.0 as int, c.1 as int).liquid.spec_level() == 1,
        tick - since >= PUDDLE_TICKS,
{
}

// ---- What the world does by itself -----------------------------------------

/// Every sixth hundredth part of the cells gets its turn each tick, and at
/// least one cell.
pub proof fn law_a_share_of_cells_gets_its_turn(g: Grid)
    requires
        g.width >= 0,
        g.height >= 0,
    ensures
        spec_random_budget(g) >= 1,
        g.width * g.height >= 600 ==> 600 * spec_random_budget(g) <= g.width * g.height < 600 * (
        spec_random_budget(g) + 1),
        g.width * g.height < 600 ==> spec_random_budget(g) == 1,
{
}

/// Sand falls into air below it and into nothing else; the two cells swap
/// sand, air and liquid, and each keeps its wall. Nothing else changes.
pub proof fn law_sand_falls_into_air(g: Grid, x: int, y: int)
    requires
        g.wf(),
        g.inside(x, y),
    ensures
        sand_falls(g, x, y) <==> g.at(x, y).id == TileId::Sand && y + 1 < g.height && g.at(
            x,
            y + 1,
        ).id == TileId::Air,
        sand_falls(g, x, y) ==> {
            let h = sunk(g, x, y);
            &&& h.at(x, y).id == TileId::Air
            &&& h.at(x, y + 1).id == TileId::Sand
            &&& h.at(x, y).liquid == g.at(x, y + 1).liquid
            &&& h.at(x, y + 1).liquid is Empty
            &&& h.at(x, y).wall == g.at(x, y).wall
            &&& h.at(x, y + 1).wall == g.at(x, y + 1).wall
            &&& h.at(x, y).state.wall_placed == g.at(x, y).state.wall_placed
            &&& h.at(x, y + 1).state.wall_placed == g.at(x, y + 1).state.wall_placed
            &&& forall|a: int, b: int|
                g.inside(a, b) && (a, b) != (x, y) && (a, b) != (x, y + 1) ==> #[trigger] h.at(a, b)
                    == g.at(a, b)
        },
{
    broadcast use group_grid;

    if sand_falls(g, x, y) {
        assert(g.at(x, y).wf());
        assert(g.at(x, y + 1).wf());
        let t = vacated(g.at(x, y), g.at(x, y + 1));
        assert(t.wf());
    }
}

/// A grain that fell is looked at again in the next step, and so is the sand
/// that lay on it; a cell where nothing fell changes nothing.
pub proof fn law_falling_sand_goes_on(f: SandFall, c: (u32, u32))
    requires
        f.grid.width <= u32::MAX,
        f.grid.height <= u32::MAX,
        f.grid.inside(c.0 as int, c.1 as int),
    ensures
        !sand_falls(f.grid, c.0 as int, c.1 as int) ==> f.visit(c) == f,
        sand_falls(f.grid, c.0 as int, c.1 as int) ==> {
            let after = f.visit(c);
            &&& after.next.contains((c.0, (c.1 + 1) as u32))
            &&& c.1 > 0 && f.grid.at(c.0 as int, c.1 - 1).id == TileId::Sand
                ==> after.next.contains((c.0, (c.1 - 1) as u32))
            &&& after.staged.contains(c) && after.staged.contains((c.0, (c.1 + 1) as u32))
            &&& forall|d: (u32, u32)| f.next.contains(d) ==> #[trigger] after.next.contains(d)
        },
{
    if sand_falls(f.grid, c.0 as int, c.1 as int) {
        let below = (c.0, (c.1 + 1) as u32);
        let above = (c.0, (c.1 - 1) as u32);
        let mid = with_cell(f.next, below);
        lemma_with_cell(f.next, below);
        lemma_with_cell(mid, above);
        let s = f.staged + seq![c, below];
        assert(s[f.staged.len() as int] == c);
        assert(s[f.staged.len() as int + 1] == below);
    }
}

proof fn lemma_with_cell(cells: Seq<(u32, u32)>, c: (u32, u32))
    ensures
        with_cell(cells, c).contains(c),
        forall|d: (u32, u32)| cells.contains(d) ==> #[trigger] with_cell(cells, c).contains(d),
{
    let after = with_cell(cells, c);
    if !cells.contains(c) {
        assert(after[cells.len() as int] == c);
    }
    assert forall|d: (u32, u32)| cells.contains(d) implies #[trigger] after.contains(d) by {
        assert(after[cells.index_of(d)] == d);
    }
}

/// Grass without air beside, above or below it turns to dirt.
pub proof fn law_buried_grass_dies(g: Grid, x: int, y: int, choice: int)
    requires
        g.wf(),
        g.inside(x, y),
        g.at(x, y).id == TileId::Grass,
    ensures
        random_tick(g, x, y, choice) is Dies <==> (x == 0 || g.at(x - 1, y).solid()) && (x + 1
            == g.width || g.at(x + 1, y).solid()) && (y == 0 || g.at(x, y - 1).solid()) && (y + 1
            == g.height || g.at(x, y + 1).solid()),
        after_random_tick(g, x, y, RandomTick::Dies).at(x, y).id == TileId::Dirt,
        after_random_tick(g, x, y, RandomTick::Dies).at(x, y).wall == g.at(x, y).wall,
{
    broadcast use group_grid;

}

/// Whether `(a, b)` is bare dirt with air beside, above or below it.
pub open spec fn bare(g: Grid, a: int, b: int) -> bool {
    &&& 0 <= a < g.width && 0 <= b < g.height
    &&& g.at(a, b).id == TileId::Dirt
    &&& !(g.solid(a - 1, b) && g.solid(a + 1, b) && g.solid(a, b - 1) && g.solid(a, b + 1))
}

/// Grass with air spreads to one of the eight cells around it, to bare dirt
/// alone, and to some of it if there is any.
pub proof fn law_grass_spreads_to_bare_dirt(g: Grid, x: int, y: int, choice: int, a: int, b: int)
    requires
        g.wf(),
        g.width <= u32::MAX,
        g.height <= u32::MAX,
        g.inside(x, y),
        0 <= choice,
        exposed(g, x, y),
        g.at(x, y).id == TileId::Grass,
        -1 <= a - x <= 1,
        -1 <= b - y <= 1,
    ensures
        random_tick(g, x, y, choice) matches RandomTick::Spreads(c) ==> {
            &&& bare(g, c.0 as int, c.1 as int)
            &&& -1 <= c.0 - x <= 1
            &&& -1 <= c.1 - y <= 1
            &&& after_random_tick(g, x, y, RandomTick::Spreads(c)).at(c.0 as int, c.1 as int).id
                == TileId::Grass
            &&& after_random_tick(g, x, y, RandomTick::Spreads(c)).at(c.0 as int, c.1 as int).wall
                == g.at(c.0 as int, c.1 as int).wall
        },
        bare(g, a, b) ==> random_tick(g, x, y, choice) is Spreads,
{
    broadcast use group_grid;

    let around = greenable_around(g, x, y);
    lemma_around(g, x, y);
    if bare(g, a, b) {
        assert(greenable(g, a, b).len() == 1);
        assert((a, b) != (x, y));
        assert(around.len() >= 1);
    }
    if around.len() > 0 {
        let k = choice % (around.len() as int);
        assert(0 <= k < around.len()) by (nonlinear_arith)
            requires
                k == choice % (around.len() as int),
                around.len() > 0,
        ;
        let c = around[k];
    }
}

proof fn lemma_around(g: Grid, x: int, y: int)
    requires
        g.width <= u32::MAX,
        g.height <= u32::MAX,
    ensures
        forall|k: int|
            0 <= k < greenable_around(g, x, y).len() ==> {
                let c = #[trigger] greenable_around(g, x, y)[k];
                &&& bare(g, c.0 as int, c.1 as int)
                &&& -1 <= c.0 - x <= 1
                &&& -1 <= c.1 - y <= 1
            },
{
    let s1 = greenable(g, x - 1, y - 1);
    let s2 = greenable(g, x, y - 1);
    let s3 = greenable(g, x + 1, y - 1);
    let s4 = greenable(g, x - 1, y);
    let s5 = greenable(g, x + 1, y);
    let s6 = greenable(g, x - 1, y + 1);
    let s7 = greenable(g, x, y + 1);
    let s8 = greenable(g, x + 1, y + 1);
    assert(greenable_around(g, x, y) == s1 + s2 + s3 + s4 + s5 + s6 + s7 + s8);
}

/// A torch under water goes out; nothing but grass and drowned torches changes
/// when its turn comes.
pub proof fn law_only_grass_and_wet_torches_change(g: Grid, x: int, y: int, choice: int)
    ensures
        random_tick(g, x, y, choice) is Snuffed <==> g.at(x, y).id == TileId::Torch && g.at(
            x,
            y,
        ).liquid is Filled && g.at(x, y).liquid->kind == LiquidKind::Water,
        g.at(x, y).id != TileId::Grass && g.at(x, y).id != TileId::Torch ==> random_tick(
            g,
            x,
            y,
            choice,
        ) is Nothing,
        g.at(x, y).id != TileId::Grass ==> !(random_tick(g, x, y, choice) is Dies) && !(
        random_tick(g, x, y, choice) is Spreads),
        after_random_tick(g, x, y, RandomTick::Nothing) == g,
{
}

/// The free cells above are all free, and the next one is not, unless that is
/// as many as are asked for.
pub proof fn law_free_cells_are_counted(g: Grid, x: int, y: int, limit: nat, k: int)
    ensures
        free_above(g, x, y, limit) <= limit,
        1 <= k <= free_above(g, x, y, limit) ==> g.inside(x, y - k) && g.at(x, y - k).id
            == TileId::Air,
        free_above(g, x, y, limit) < limit ==> !g.vacant(x, y - free_above(g, x, y, limit) - 1),
    decreases limit,
{
    if limit > 0 && g.vacant(x, y - 1) {
        law_free_cells_are_counted(g, x, y - 1, (limit - 1) as nat, k - 1);
    }
}

/// A sapling becomes a tree where seven cells above it are free, of the height
/// that was rolled as far as there is room; else it waits.
pub proof fn law_saplings_need_room(g: Grid, x: int, y: int, rolled: int)
    requires
        0 <= rolled <= u32::MAX,
    ensures
        ({
            let r = growth(g, x, y, rolled);
            &&& g.at(x, y).id != TileId::Sapling <==> r is Lost
            &&& g.at(x, y).id == TileId::Sapling && (exists|k: int|
                1 <= k <= 7 && !(#[trigger] g.vacant(x, y - k))) ==> r is Blocked
            &&& g.at(x, y).id == TileId::Sapling && (forall|k: int|
                1 <= k <= 7 ==> #[trigger] g.vacant(x, y - k)) ==> r is Grown
            &&& r matches Growth::Grown(n) ==> {
                &&& n <= rolled
                &&& n <= 17
                &&& rolled <= 8 ==> n == rolled
                &&& forall|k: int| 1 <= k < n ==> #[trigger] g.vacant(x, y - k)
                &&& n < rolled ==> n == 17 || !g.vacant(x, y - n)
            }
        }),
{
    let air = free_above(g, x, y, 16);
    assert forall|k: int| 1 <= k <= air implies #[trigger] g.vacant(x, y - k) by {
        law_free_cells_are_counted(g, x, y, 16, k);
    }
    law_free_cells_are_counted(g, x, y, 16, 0);
    if air < 7 {
        assert(!g.vacant(x, y - (air + 1)));
    }
}

/// A puddle is one level of liquid on solid ground. It dries up after a
/// minute, and a cell that is none is no longer watched.
pub proof fn law_puddles_dry_in_a_minute(
    puddles: Map<(u32, u32), u64>,
    g: Grid,
    x: u32,
    y: u32,
    since: u64,
    tick: u64,
)
    requires
        g.wf(),
        g.inside(x as int, y as int),
    ensures
        puddle(g, x as int, y as int) <==> g.at(x as int, y as int).liquid is Filled && g.at(
            x as int,
            y as int,
        ).liquid->level == 1 && (y + 1 == g.height || g.at(x as int, y + 1).solid()),
        since <= tick ==> (dries(g, (x, y), since, tick) <==> puddle(g, x as int, y as int) && tick
            >= since + 60 * 60),
        ({
            let after = puddles_after(puddles, g, x as int, y as int, tick);
            &&& after.dom().contains((x, y)) <==> puddle(g, x as int, y as int)
            &&& puddle(g, x as int, y as int) && puddles.dom().contains((x, y)) ==> after[(x, y)]
                == puddles[(x, y)]
            &&& puddle(g, x as int, y as int) && !puddles.dom().contains((x, y)) ==> after[(x, y)]
                == tick
        }),
{
}

proof fn lemma_marked(q: Seq<(u32, u32)>, w: int, h: int, x: int, y: int, c: (u32, u32))
    requires
        0 <= w <= u32::MAX,
        0 <= h <= u32::MAX,
    ensures
        marked(q, w, h, x, y).contains(c) <==> q.contains(c) || (c.0 == x && c.1 == y && x < w && y
            < h),
{
    let e = (x as u32, y as u32);
    crate::sim::chunks::lemma_push_contains(q, e);
}

/// Sand that falls wakes the liquids around the two cells it moves between, and no others.
pub proof fn law_falling_sand_wakes_liquids(
    q: Seq<(u32, u32)>,
    w: int,
    h: int,
    x: int,
    y: int,
    c: (u32, u32),
)
    requires
        0 <= w <= u32::MAX,
        0 <= h <= u32::MAX,
    ensures
        ({
            let (a, b) = (c.0 as int, c.1 as int);
            sand_marks(q, w, h, x, y).contains(c) <==> q.contains(c) || (a < w && b < h && ((a == x
                && (b == y - 1 || b == y || b == y + 2)) || (b == y + 1 && (a == x - 1 || a == x
                + 1))))
        }),
{
    let q1 = marked(q, w, h, x, y);
    let q2 = marked(q1, w, h, x, y - 1);
    let q3 = marked(q2, w, h, x, y + 2);
    let q4 = marked(q3, w, h, x - 1, y + 1);
    lemma_marked(q, w, h, x, y, c);
    lemma_marked(q1, w, h, x, y - 1, c);
    lemma_marked(q2, w, h, x, y + 2, c);
    lemma_marked(q3, w, h, x - 1, y + 1, c);
    lemma_marked(q4, w, h, x + 1, y + 1, c);
}

} // verus!
