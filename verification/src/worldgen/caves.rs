//! Smoothing carved caves, and finding the surface.

use vstd::prelude::*;

use crate::grid::{group_grid, Grid, World};
use crate::tile::{Solidity, Tile, TileId, TileState};
use crate::worldgen::params::GenParams;

verus! {

/// A block that counts for smoothing: solid whatever its state.
pub open spec fn block(id: TileId) -> bool {
    id.spec_solidity() == Solidity::Solid
}

/// The block at a neighbouring cell, if there is one.
pub open spec fn seen(g: Grid, x: int, y: int) -> Seq<TileId> {
    if g.inside(x, y) && block(g.at(x, y).id) {
        seq![g.at(x, y).id]
    } else {
        seq![]
    }
}

/// One for a neighbour that is a block or lies outside of the world.
pub open spec fn filled(g: Grid, x: int, y: int) -> int {
    if !g.inside(x, y) || block(g.at(x, y).id) {
        1
    } else {
        0
    }
}

/// The blocks around a cell, row by row.
pub open spec fn blocks_around(g: Grid, x: int, y: int) -> Seq<TileId> {
    seen(g, x - 1, y - 1) + seen(g, x, y - 1) + seen(g, x + 1, y - 1) + seen(g, x - 1, y) + seen(
        g,
        x + 1,
        y,
    ) + seen(g, x - 1, y + 1) + seen(g, x, y + 1) + seen(g, x + 1, y + 1)
}

/// How many of the eight cells around a cell are blocks; outside of the world
/// counts as one.
pub open spec fn fill_around(g: Grid, x: int, y: int) -> int {
    filled(g, x - 1, y - 1) + filled(g, x, y - 1) + filled(g, x + 1, y - 1) + filled(g, x - 1, y)
        + filled(g, x + 1, y) + filled(g, x - 1, y + 1) + filled(g, x, y + 1) + filled(
        g,
        x + 1,
        y + 1,
    )
}

/// How often `id` occurs.
pub open spec fn occurrences(ids: Seq<TileId>, id: TileId) -> nat
    decreases ids.len(),
{
    if ids.len() == 0 {
        0
    } else {
        occurrences(ids.drop_last(), id) + if ids.last() == id {
            1nat
        } else {
            0
        }
    }
}

/// `id` is the most frequent of `ids`, and of equally frequent ones the first.
pub open spec fn is_majority(ids: Seq<TileId>, id: TileId) -> bool {
    exists|i: int|
        {
            &&& 0 <= i < ids.len()
            &&& #[trigger] ids[i] == id
            &&& forall|j: int|
                0 <= j < ids.len() ==> occurrences(ids, #[trigger] ids[j]) <= occurrences(ids, id)
            &&& forall|j: int|
                0 <= j < i ==> occurrences(ids, #[trigger] ids[j]) < occurrences(ids, id)
        }
}

/// What smoothing makes of a cell: a lonely block opens, a nearly closed gap
/// fills with the most common block around it. Walls and liquids stay.
pub open spec fn smoothed(g: Grid, x: int, y: int, t: Tile) -> bool {
    let before = g.at(x, y);
    if block(before.id) && fill_around(g, x, y) <= 3 {
        t == Tile { id: TileId::Air, state: TileState::spec_clear(), ..before }
    } else if before.id == TileId::Air && fill_around(g, x, y) >= 6 {
        &&& is_majority(blocks_around(g, x, y), t.id)
        &&& t == Tile { id: t.id, state: TileState::spec_clear(), ..before }
    } else {
        t == before
    }
}

/// Counts `id` in `ids`.
fn count(ids: &Vec<TileId>, id: TileId) -> (n: usize)
    ensures
        n == occurrences(ids@, id),
        n <= ids.len(),
{
    let mut n: usize = 0;
    let mut i: usize = 0;
    while i < ids.len()
        invariant
            i <= ids.len(),
            n <= i,
            n == occurrences(ids@.take(i as int), id),
        decreases ids.len() - i,
    {
        assert(ids@.take(i + 1).drop_last() =~= ids@.take(i as int));
        if ids[i] == id {
            n = n + 1;
        }
        i = i + 1;
    }
    assert(ids@.take(i as int) =~= ids@);
    n
}

/// The most frequent of `ids`; of equally frequent ones the first.
fn majority(ids: &Vec<TileId>) -> (best: TileId)
    requires
        ids.len() > 0,
    ensures
        is_majority(ids@, best),
{
    let mut best: TileId = ids[0];
    let mut at: usize = 0;
    let mut best_count: usize = count(ids, best);
    let mut i: usize = 1;
    while i < ids.len()
        invariant
            1 <= i <= ids.len(),
            at < i,
            best == ids@[at as int],
            best_count == occurrences(ids@, best),
            forall|j: int|
                0 <= j < i ==> occurrences(ids@, #[trigger] ids@[j]) <= best_count,
            forall|j: int|
                0 <= j < at ==> occurrences(ids@, #[trigger] ids@[j]) < best_count,
        decreases ids.len() - i,
    {
        let n: usize = count(ids, ids[i]);
        if n > best_count {
            best = ids[i];
            at = i;
            best_count = n;
        }
        i = i + 1;
    }
    assert(ids@[at as int] == best);
    best
}

/// Looks at one neighbour: adds a block to `ids`; returns whether it fills.
fn look(world: &World, x: i64, y: i64, ids: &mut Vec<TileId>) -> (n: u32)
    requires
        world.wf(),
    ensures
        n == filled(world@, x as int, y as int),
        final(ids)@ == old(ids)@ + seen(world@, x as int, y as int),
{
    if x < 0 || y < 0 || x >= world.width as i64 || y >= world.height as i64 {
        assert(ids@ =~= old(ids)@ + seq![]);
        return 1;
    }
    let id: TileId = world.tile(x as u32, y as u32).id;
    if id.solidity() == Solidity::Solid {
        ids.push(id);
        assert(ids@ =~= old(ids)@ + seq![id]);
        1
    } else {
        assert(ids@ =~= old(ids)@ + seq![]);
        0
    }
}

/// What becomes of one cell.
fn smooth_cell(world: &World, x: u32, y: u32) -> (t: Tile)
    requires
        world.wf(),
        world.width >= 2,
        world.height >= 2,
        world@.inside(x as int, y as int),
    ensures
        smoothed(world@, x as int, y as int, t),
        t.wf(),
{
    broadcast use group_grid;

    let (cx, cy): (i64, i64) = (x as i64, y as i64);
    let mut ids: Vec<TileId> = Vec::new();
    let a: u32 = look(world, cx - 1, cy - 1, &mut ids);
    let b: u32 = look(world, cx, cy - 1, &mut ids);
    let c: u32 = look(world, cx + 1, cy - 1, &mut ids);
    let d: u32 = look(world, cx - 1, cy, &mut ids);
    let e: u32 = look(world, cx + 1, cy, &mut ids);
    let f: u32 = look(world, cx - 1, cy + 1, &mut ids);
    let g: u32 = look(world, cx, cy + 1, &mut ids);
    let h: u32 = look(world, cx + 1, cy + 1, &mut ids);
    let fill: u32 = a + b + c + d + e + f + g + h;
    assert(ids@ =~= blocks_around(world@, x as int, y as int));
    let mut t = world.tile(x, y);
    if t.id.solidity() == Solidity::Solid && fill <= 3 {
        t.id = TileId::Air;
        t.state = TileState::clear();
    } else if t.id == TileId::Air && fill >= 6 {
        assert(ids.len() > 0);
        t.id = majority(&ids);
        t.state = TileState::clear();
    }
    t
}

/// `after` is `before` smoothed once from row `y_start` down.
pub open spec fn smooth_pass(before: Grid, after: Grid, y_start: int) -> bool {
    &&& after.width == before.width
    &&& after.height == before.height
    &&& forall|x: int, y: int|
        before.inside(x, y) ==> if y < y_start {
            #[trigger] after.at(x, y) == before.at(x, y)
        } else {
            smoothed(before, x, y, after.at(x, y))
        }
}

/// A row of grids, each the one before it smoothed once.
pub open spec fn smooth_trail(trail: Seq<Grid>, y_start: int) -> bool {
    forall|i: int|
        0 <= i < trail.len() - 1 ==> smooth_pass(#[trigger] trail[i], trail[i + 1], y_start)
}

/// `after` is `before` smoothed `passes` times.
pub open spec fn smooth_run(before: Grid, after: Grid, y_start: int, passes: nat) -> bool {
    exists|trail: Seq<Grid>|
        {
            &&& #[trigger] smooth_trail(trail, y_start)
            &&& trail.len() == passes + 1
            &&& trail[0] == before
            &&& trail[passes as int] == after
        }
}

/// One smoothing pass over the rows from `y_start` on: every cell is judged
/// by how the world was before.
pub fn smooth_once(world: &mut World, y_start: u32)
    requires
        old(world).wf(),
        old(world).width >= 2,
        old(world).height >= 2,
    ensures
        final(world).wf(),
        final(world).spawn == old(world).spawn,
        smooth_pass(old(world)@, final(world)@, y_start as int),
{
    broadcast use group_grid;

    let before = World {
        width: world.width,
        height: world.height,
        tiles: world.tiles.clone(),
        spawn: world.spawn,
    };
    let ghost g = world@;
    assert(before@ =~= g);
    let mut y: u32 = y_start;
    while y < world.height
        invariant
            world.wf(),
            before.wf(),
            before@ == g,
            g.width >= 2,
            g.height >= 2,
            world@.width == g.width,
            world@.height == g.height,
            world.spawn == old(world).spawn,
            y_start <= y,
            forall|a: int, b: int|
                g.inside(a, b) ==> if y_start <= b < y {
                    smoothed(g, a, b, #[trigger] world@.at(a, b))
                } else {
                    world@.at(a, b) == g.at(a, b)
                },
        decreases world.height - y,
    {
        let mut x: u32 = 0;
        while x < world.width
            invariant
                world.wf(),
                before.wf(),
                before@ == g,
                g.width >= 2,
                g.height >= 2,
                world@.width == g.width,
                world@.height == g.height,
                world.spawn == old(world).spawn,
                y_start <= y < world.height,
                forall|a: int, b: int|
                    g.inside(a, b) ==> if y_start <= b && (b < y || (b == y && a < x)) {
                        smoothed(g, a, b, #[trigger] world@.at(a, b))
                    } else {
                        world@.at(a, b) == g.at(a, b)
                    },
            decreases world.width - x,
        {
            broadcast use group_grid;

            let t = smooth_cell(&before, x, y);
            world.set_tile(x, y, t);
            x = x + 1;
        }
        y = y + 1;
    }
}

/// Smooths the caves: everything from ten rows above the surface band down,
/// as often as the parameters say.
pub fn smooth(world: &mut World, params: &GenParams)
    requires
        old(world).wf(),
        old(world).width >= 2,
        old(world).height >= 2,
    ensures
        final(world).wf(),
        final(world).width == old(world).width,
        final(world).height == old(world).height,
        final(world).spawn == old(world).spawn,
        smooth_run(
            old(world)@,
            final(world)@,
            if params.surface_min >= 10 {
                params.surface_min - 10
            } else {
                0
            },
            params.smoothing_passes as nat,
        ),
{
    let y_start: u32 = params.surface_min.saturating_sub(10);
    let ghost mut trail: Seq<Grid> = seq![world@];
    let mut n: u32 = 0;
    while n < params.smoothing_passes
        invariant
            trail.len() == n + 1,
            trail[0] == old(world)@,
            trail[n as int] == world@,
            smooth_trail(trail, y_start as int),
            world.wf(),
            world.width >= 2,
            world.height >= 2,
            world.width == old(world).width,
            world.height == old(world).height,
            world.spawn == old(world).spawn,
            n <= params.smoothing_passes,
        decreases params.smoothing_passes - n,
    {
        smooth_once(world, y_start);
        proof {
            trail = trail.push(world@);
        }
        n = n + 1;
    }
}

/// The first solid row of each column, the height where there is none.
pub open spec fn surface_row(g: Grid, x: int, y: int) -> bool {
    &&& 0 <= y <= g.height
    &&& forall|b: int| 0 <= b < y ==> !(#[trigger] g.at(x, b)).solid()
    &&& y < g.height ==> g.at(x, y).solid()
}

pub open spec fn is_surface(g: Grid, surface: Seq<u32>) -> bool {
    &&& surface.len() == g.width
    &&& forall|x: int| 0 <= x < g.width ==> surface_row(g, x, (#[trigger] surface[x]) as int)
}

/// Finds the surface of every column.
pub fn surface_scan(world: &World) -> (surface: Vec<u32>)
    requires
        world.wf(),
    ensures
        is_surface(world@, surface@),
{
    let mut surface: Vec<u32> = Vec::new();
    let mut x: u32 = 0;
    while x < world.width
        invariant
            world.wf(),
            x <= world.width,
            surface.len() == x,
            forall|a: int| 0 <= a < x ==> surface_row(world@, a, (#[trigger] surface@[a]) as int),
        decreases world.width - x,
    {
        let mut y: u32 = 0;
        while y < world.height && !world.tile(x, y).is_solid()
            invariant
                world.wf(),
                x < world.width,
                y <= world.height,
                forall|b: int| 0 <= b < y ==> !(#[trigger] world@.at(x as int, b)).solid(),
            decreases world.height - y,
        {
            y = y + 1;
        }
        surface.push(y);
        x = x + 1;
    }
    surface
}

/// How many of the eight cells around `(x, y)` are filled; what lies outside
/// of the world counts.
pub open spec fn walls_around(g: Grid, x: int, y: int) -> int {
    let n = |a: int, b: int|
        if !g.inside(a, b) || g.at(a, b).id.spec_solidity() == Solidity::Solid {
            1int
        } else {
            0
        };
    n(x - 1, y - 1) + n(x, y - 1) + n(x + 1, y - 1) + n(x - 1, y) + n(x + 1, y) + n(x - 1, y + 1)
        + n(x, y + 1) + n(x + 1, y + 1)
}

/// Smoothing wears a block away when three or fewer of the cells around it are
/// filled, fills air when six or more are, and leaves everything else. The
/// wall and the liquid stay.
pub proof fn law_smoothing_rounds_caves(g: Grid, x: int, y: int, t: Tile)
    requires
        g.inside(x, y),
        smoothed(g, x, y, t),
    ensures
        ({
            let solid = g.at(x, y).id.spec_solidity() == Solidity::Solid;
            let n = walls_around(g, x, y);
            &&& solid && n <= 3 ==> t.id == TileId::Air
            &&& solid && n > 3 ==> t == g.at(x, y)
            &&& g.at(x, y).id == TileId::Air && n >= 6 ==> t.id.spec_solidity() == Solidity::Solid
            &&& g.at(x, y).id == TileId::Air && n < 6 ==> t == g.at(x, y)
            &&& !solid && g.at(x, y).id != TileId::Air ==> t == g.at(x, y)
            &&& t.wall == g.at(x, y).wall && t.liquid == g.at(x, y).liquid
        }),
{
    assert(walls_around(g, x, y) == fill_around(g, x, y));
    if g.at(x, y).id == TileId::Air && fill_around(g, x, y) >= 6 {
        let ids = blocks_around(g, x, y);
        lemma_blocks(g, x, y);
        let i = choose|i: int|
            {
                &&& 0 <= i < ids.len()
                &&& #[trigger] ids[i] == t.id
                &&& forall|j: int|
                    0 <= j < ids.len() ==> occurrences(ids, #[trigger] ids[j]) <= occurrences(
                        ids,
                        t.id,
                    )
                &&& forall|j: int|
                    0 <= j < i ==> occurrences(ids, #[trigger] ids[j]) < occurrences(ids, t.id)
            };
        assert(block(ids[i]));
    }
}

proof fn lemma_blocks(g: Grid, x: int, y: int)
    ensures
        forall|i: int|
            0 <= i < blocks_around(g, x, y).len() ==> block(#[trigger] blocks_around(g, x, y)[i]),
{
    let s1 = seen(g, x - 1, y - 1);
    let s2 = seen(g, x, y - 1);
    let s3 = seen(g, x + 1, y - 1);
    let s4 = seen(g, x - 1, y);
    let s5 = seen(g, x + 1, y);
    let s6 = seen(g, x - 1, y + 1);
    let s7 = seen(g, x, y + 1);
    let s8 = seen(g, x + 1, y + 1);
    assert(blocks_around(g, x, y) == s1 + s2 + s3 + s4 + s5 + s6 + s7 + s8);
}

/// What fills a gap is what most of its filled neighbours are: no other tile
/// occurs more often around it.
pub proof fn law_gaps_take_the_commonest(ids: Seq<TileId>, id: TileId, j: int)
    requires
        is_majority(ids, id),
        0 <= j < ids.len(),
    ensures
        ids.contains(id),
        occurrences(ids, ids[j]) <= occurrences(ids, id),
        occurrences(ids, id) >= 1,
{
    let i = choose|i: int|
        {
            &&& 0 <= i < ids.len()
            &&& #[trigger] ids[i] == id
            &&& forall|j: int|
                0 <= j < ids.len() ==> occurrences(ids, #[trigger] ids[j]) <= occurrences(ids, id)
            &&& forall|j: int|
                0 <= j < i ==> occurrences(ids, #[trigger] ids[j]) < occurrences(ids, id)
        };
    assert(ids.contains(id));
    law_occurrences_are_counted(ids, id);
    lemma_some(ids, id, i);
}

proof fn lemma_some(ids: Seq<TileId>, id: TileId, i: int)
    requires
        0 <= i < ids.len(),
        ids[i] == id,
    ensures
        occurrences(ids, id) >= 1,
    decreases ids.len(),
{
    if i < ids.len() - 1 {
        lemma_some(ids.drop_last(), id, i);
    }
}

/// A tile occurs as often as it is there.
pub proof fn law_occurrences_are_counted(ids: Seq<TileId>, id: TileId)
    ensures
        occurrences(ids, id) == ids.filter(|t: TileId| t == id).len(),
    decreases ids.len(),
{
    reveal(Seq::filter);
    if ids.len() > 0 {
        law_occurrences_are_counted(ids.drop_last(), id);
    }
}

/// The surface of a column is its first solid cell from the top.
pub proof fn law_the_surface_is_the_first_solid(g: Grid, x: int, y: int, b: int)
    requires
        surface_row(g, x, y),
        0 <= b < g.height,
    ensures
        b < y ==> !g.at(x, b).solid(),
        b == y ==> g.at(x, b).solid(),
        g.at(x, b).solid() ==> y <= b,
{
}

} // verus!
