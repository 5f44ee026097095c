//! The ground of a world: layers, blobs, clay, caves, the lava lake band,
//! smoothing and ore veins.

use vstd::prelude::*;

use crate::grid::{Grid, World};
use crate::tile::{Tile, TileId, TileState};
use crate::worldgen::caves::{
    blocks_around, fill_around, filled, is_majority, occurrences, seen, smooth, smooth_pass,
    smooth_run, smooth_trail, smoothed,
};
use crate::worldgen::params::{GenParams, OreSpec};
use crate::worldgen::runner::{
    brushed, covered, heightmap, held, open_air, ore_brush, sand_limits, tile_runner,
    underworld_band,
};
use crate::worldgen::terrain::{base_tile, fill_base, Brush, Reach};

verus! {

/// A worm and its branches: the cells that each step covered.
pub type Worm = Vec<Vec<(u32, u32)>>;

/// The cells on the way of the first `n` worms.
pub open spec fn on_the_way(worms: Seq<Worm>, n: int) -> Set<(u32, u32)>
    decreases n,
{
    if n <= 0 {
        Set::empty()
    } else {
        on_the_way(worms, n - 1).union(covered(worms[n - 1]@, worms[n - 1]@.len() as int))
    }
}

/// All cells on the way of worms.
pub open spec fn all_on_the_way(worms: Seq<Worm>) -> Set<(u32, u32)> {
    on_the_way(worms, worms.len() as int)
}

/// `after` is `before` with `cells` dug out: no foreground is left there, walls
/// and liquids are.
pub open spec fn carved(before: Grid, after: Grid, cells: Set<(u32, u32)>) -> bool {
    &&& after.width == before.width
    &&& after.height == before.height
    &&& forall|x: int, y: int|
        before.inside(x, y) ==> #[trigger] after.at(x, y) == (if cells.contains(
            (x as u32, y as u32),
        ) && before.at(x, y).id != TileId::Air {
            Tile { id: TileId::Air, state: TileState::spec_clear(), ..before.at(x, y) }
        } else {
            before.at(x, y)
        })
}

/// Where paint may land: within rows, and above a row for each column where
/// there is such a limit.
pub open spec fn lands(rows: (u32, u32), limits: Option<Seq<u32>>, x: int, y: int) -> bool {
    &&& rows.0 <= y < rows.1
    &&& limits matches Some(l) ==> y < l[x]
}

/// `after` is `before` with `tile` painted over the foregrounds in `bed` at
/// `cells`, where paint may land.
pub open spec fn painted(
    before: Grid,
    after: Grid,
    tile: TileId,
    bed: Seq<TileId>,
    rows: (u32, u32),
    limits: Option<Seq<u32>>,
    cells: Set<(u32, u32)>,
) -> bool {
    &&& after.width == before.width
    &&& after.height == before.height
    &&& forall|x: int, y: int|
        before.inside(x, y) ==> #[trigger] after.at(x, y) == (if cells.contains(
            (x as u32, y as u32),
        ) && lands(rows, limits, x, y) && bed.contains(before.at(x, y).id) {
            Tile { id: tile, state: TileState::spec_clear(), ..before.at(x, y) }
        } else {
            before.at(x, y)
        })
}

/// All rows.
pub open spec fn any_row() -> (u32, u32) {
    (0, u32::MAX)
}

/// Runs worms with one brush.
fn run_worms(world: &mut World, brush: &Brush, reach: &Reach, worms: &Vec<Worm>)
    requires
        old(world).wf(),
        reach.covers(old(world)@),
    ensures
        final(world).wf(),
        final(world).width == old(world).width,
        final(world).height == old(world).height,
        final(world).spawn == old(world).spawn,
        brushed(old(world)@, final(world)@, *brush, *reach, all_on_the_way(worms@)),
{
    let mut i: usize = 0;
    while i < worms.len()
        invariant
            world.wf(),
            world.width == old(world).width,
            world.height == old(world).height,
            world.spawn == old(world).spawn,
            reach.covers(world@),
            i <= worms.len(),
            brushed(old(world)@, world@, *brush, *reach, on_the_way(worms@, i as int)),
        decreases worms.len() - i,
    {
        let ghost m = world@;
        tile_runner(world, brush, reach, &worms[i]);
        proof {
            crate::worldgen::runner::lemma_brushed_twice(
                old(world)@,
                m,
                world@,
                *brush,
                *reach,
                on_the_way(worms@, i as int),
                covered(worms@[i as int]@, worms@[i as int]@.len() as int),
            );
        }
        i = i + 1;
    }
}

/// Paints `tile` over what is in `bed` on the way of worms.
fn paint_worms(world: &mut World, tile: TileId, bed: Vec<TileId>, reach: Reach, worms: &Vec<Worm>)
    requires
        old(world).wf(),
        reach.covers(old(world)@),
    ensures
        final(world).wf(),
        final(world).width == old(world).width,
        final(world).height == old(world).height,
        final(world).spawn == old(world).spawn,
        painted(
            old(world)@,
            final(world)@,
            tile,
            bed@,
            reach.rows,
            match reach.column_limit {
                Some(l) => Some(l@),
                None => None,
            },
            all_on_the_way(worms@),
        ),
{
    let brush = Brush::Paint { tile, replaces: bed };
    run_worms(world, &brush, &reach, worms);
}

/// Digs the caves that start at the surface.
pub fn surface_caves(world: &mut World, worms: &Vec<Worm>)
    requires
        old(world).wf(),
    ensures
        final(world).wf(),
        final(world).width == old(world).width,
        final(world).height == old(world).height,
        final(world).spawn == old(world).spawn,
        carved(old(world)@, final(world)@, all_on_the_way(worms@)),
{
    let reach = Reach { rows: (0, u32::MAX), column_limit: None };
    run_worms(world, &Brush::Carve, &reach, worms);
}

/// Digs the caves of the cavern layer.
pub fn cavern_caves(world: &mut World, worms: &Vec<Worm>)
    requires
        old(world).wf(),
    ensures
        final(world).wf(),
        final(world).width == old(world).width,
        final(world).height == old(world).height,
        final(world).spawn == old(world).spawn,
        carved(old(world)@, final(world)@, all_on_the_way(worms@)),
{
    let reach = Reach { rows: (0, u32::MAX), column_limit: None };
    run_worms(world, &Brush::Carve, &reach, worms);
}

/// Blobs of stone in the dirt, then blobs of dirt in the stone.
pub fn stone_dirt_blobs(world: &mut World, stones: &Vec<Worm>, dirts: &Vec<Worm>)
    requires
        old(world).wf(),
    ensures
        final(world).wf(),
        final(world).width == old(world).width,
        final(world).height == old(world).height,
        final(world).spawn == old(world).spawn,
        blobbed(old(world)@, final(world)@, stones@, dirts@),
{
    let any = Reach { rows: (0, u32::MAX), column_limit: None };
    let dirt: Vec<TileId> = vec![TileId::Dirt];
    assert(dirt@ =~= seq![TileId::Dirt]);
    paint_worms(world, TileId::Stone, dirt, any, stones);
    let ghost mid = world@;
    let any = Reach { rows: (0, u32::MAX), column_limit: None };
    let stone: Vec<TileId> = vec![TileId::Stone];
    assert(stone@ =~= seq![TileId::Stone]);
    paint_worms(world, TileId::Dirt, stone, any, dirts);
    proof {
        assert(painted(
            old(world)@,
            mid,
            TileId::Stone,
            seq![TileId::Dirt],
            any_row(),
            None,
            all_on_the_way(stones@),
        ));
    }
}

/// `after` is `before` with blobs of stone in the dirt and, after that, blobs
/// of dirt in the stone.
pub open spec fn blobbed(before: Grid, after: Grid, stones: Seq<Worm>, dirts: Seq<Worm>) -> bool {
    exists|mid: Grid|
        {
            &&& #[trigger] painted(
                before,
                mid,
                TileId::Stone,
                seq![TileId::Dirt],
                any_row(),
                None,
                all_on_the_way(stones),
            )
            &&& painted(
                mid,
                after,
                TileId::Dirt,
                seq![TileId::Stone],
                any_row(),
                None,
                all_on_the_way(dirts),
            )
        }
}

/// Blobs of clay in dirt and stone.
pub fn clay(world: &mut World, worms: &Vec<Worm>)
    requires
        old(world).wf(),
    ensures
        final(world).wf(),
        final(world).width == old(world).width,
        final(world).height == old(world).height,
        final(world).spawn == old(world).spawn,
        painted(
            old(world)@,
            final(world)@,
            TileId::Clay,
            seq![TileId::Dirt, TileId::Stone],
            any_row(),
            None,
            all_on_the_way(worms@),
        ),
{
    let any = Reach { rows: (0, u32::MAX), column_limit: None };
    let bed: Vec<TileId> = vec![TileId::Dirt, TileId::Stone];
    assert(bed@ =~= seq![TileId::Dirt, TileId::Stone]);
    paint_worms(world, TileId::Clay, bed, any, worms);
}

/// `after` is `before` with the veins of one ore at `cells`: in its bed and
/// within its rows.
pub open spec fn veined(
    before: Grid,
    after: Grid,
    ore: OreSpec,
    cells: Set<(u32, u32)>,
) -> bool {
    &&& after.width == before.width
    &&& after.height == before.height
    &&& forall|x: int, y: int|
        before.inside(x, y) ==> #[trigger] after.at(x, y) == (if cells.contains(
            (x as u32, y as u32),
        ) && ore.rows.0 <= y < ore.rows.1 && ore.replaces.spec_accepts(before.at(x, y).id) {
            Tile { id: ore.tile, state: TileState::spec_clear(), ..before.at(x, y) }
        } else {
            before.at(x, y)
        })
}

/// The grids between the ores of a table, one vein list for each ore.
pub open spec fn veins_run(trail: Seq<Grid>, ores: Seq<OreSpec>, veins: Seq<Vec<Worm>>) -> bool {
    &&& trail.len() == ores.len() + 1
    &&& forall|i: int|
        0 <= i < ores.len() ==> #[trigger] veined(
            trail[i],
            trail[i + 1],
            ores[i],
            all_on_the_way(veins[i]@),
        )
}

/// `after` is `before` with all veins.
pub open spec fn ores_laid(
    before: Grid,
    after: Grid,
    ores: Seq<OreSpec>,
    veins: Seq<Vec<Worm>>,
) -> bool {
    exists|trail: Seq<Grid>|
        {
            &&& #[trigger] veins_run(trail, ores, veins)
            &&& trail[0] == before
            &&& trail[ores.len() as int] == after
        }
}

/// Lays the veins of every ore, in the order of the table.
pub fn ore_veins(world: &mut World, params: &GenParams, veins: &Vec<Vec<Worm>>)
    requires
        old(world).wf(),
        veins.len() == params.ores.len(),
    ensures
        final(world).wf(),
        final(world).width == old(world).width,
        final(world).height == old(world).height,
        final(world).spawn == old(world).spawn,
        ores_laid(old(world)@, final(world)@, params.ores@, veins@),
{
    let ghost mut trail: Seq<Grid> = seq![world@];
    let mut i: usize = 0;
    while i < params.ores.len()
        invariant
            world.wf(),
            world.width == old(world).width,
            world.height == old(world).height,
            world.spawn == old(world).spawn,
            veins.len() == params.ores.len(),
            i <= params.ores.len(),
            trail.len() == i + 1,
            trail[0] == old(world)@,
            trail[i as int] == world@,
            forall|k: int|
                0 <= k < i ==> #[trigger] veined(
                    trail[k],
                    trail[k + 1],
                    params.ores@[k],
                    all_on_the_way(veins@[k]@),
                ),
        decreases params.ores.len() - i,
    {
        let (brush, reach) = ore_brush(&params.ores[i]);
        let ghost before = world@;
        let ghost kept = trail;
        run_worms(world, &brush, &reach, &veins[i]);
        proof {
            let cells = all_on_the_way(veins@[i as int]@);
            assert(brushed(before, world@, brush, reach, cells));
            assert(veined(before, world@, params.ores@[i as int], cells));
            trail = trail.push(world@);
            assert forall|k: int| 0 <= k < i + 1 implies #[trigger] veined(
                trail[k],
                trail[k + 1],
                params.ores@[k],
                all_on_the_way(veins@[k]@),
            ) by {
                if k < i {
                    assert(veined(
                        kept[k],
                        kept[k + 1],
                        params.ores@[k],
                        all_on_the_way(veins@[k]@),
                    ));
                }
            }
        }
        i = i + 1;
    }
    assert(veins_run(trail, params.ores@, veins@));
}

/// The row that sand stays above, for each column.
pub open spec fn spec_sand_limits(p: GenParams, surface: Seq<u32>) -> Seq<u32> {
    Seq::new(
        surface.len(),
        |x: int|
            if surface[x] + p.sand_max_depth + 1 <= p.height {
                (surface[x] + p.sand_max_depth + 1) as u32
            } else {
                p.height
            },
    )
}

/// Patches of sand in dirt, stone and clay, not far below the surface.
pub fn sand_patches(world: &mut World, params: &GenParams, surface: &Vec<u32>, worms: &Vec<Worm>)
    requires
        old(world).wf(),
        surface.len() == old(world).width,
    ensures
        final(world).wf(),
        final(world).width == old(world).width,
        final(world).height == old(world).height,
        final(world).spawn == old(world).spawn,
        painted(
            old(world)@,
            final(world)@,
            TileId::Sand,
            seq![TileId::Dirt, TileId::Stone, TileId::Clay],
            any_row(),
            Some(spec_sand_limits(*params, surface@)),
            all_on_the_way(worms@),
        ),
{
    let limits = sand_limits(params, surface);
    assert(limits@ =~= spec_sand_limits(*params, surface@));
    let reach = Reach { rows: (0, u32::MAX), column_limit: Some(limits) };
    let bed: Vec<TileId> = vec![TileId::Dirt, TileId::Stone, TileId::Clay];
    assert(bed@ =~= seq![TileId::Dirt, TileId::Stone, TileId::Clay]);
    paint_worms(world, TileId::Sand, bed, reach, worms);
}

/// Everything drawn for the ground of a world.
pub struct GroundDraws {
    /// The height of the noise in each column.
    pub heights: Vec<i64>,
    pub stones: Vec<Worm>,
    pub dirts: Vec<Worm>,
    pub clays: Vec<Worm>,
    pub surface_worms: Vec<Worm>,
    pub cavern_worms: Vec<Worm>,
    /// The ceiling and the floor of the lava lake band in each column.
    pub ceilings: Vec<u32>,
    pub floors: Vec<u32>,
    /// The veins of each ore.
    pub veins: Vec<Vec<Worm>>,
}

/// `after` is `before` filled with layers below the surface.
pub open spec fn layered(before: Grid, after: Grid, p: GenParams, surface: Seq<u32>) -> bool {
    &&& after.width == before.width
    &&& after.height == before.height
    &&& forall|x: int, y: int|
        before.inside(x, y) ==> #[trigger] after.at(x, y) == (if y >= surface[x] {
            base_tile(p, surface[x] as int, y)
        } else {
            before.at(x, y)
        })
}

/// `after` is `before` with nothing at all between ceilings and floors.
pub open spec fn opened(
    before: Grid,
    after: Grid,
    ceilings: Seq<u32>,
    floors: Seq<u32>,
) -> bool {
    &&& after.width == before.width
    &&& after.height == before.height
    &&& forall|x: int, y: int|
        before.inside(x, y) ==> #[trigger] after.at(x, y) == (if ceilings[x] <= y < floors[x] {
            open_air()
        } else {
            before.at(x, y)
        })
}

/// The first row that is smoothed.
pub open spec fn smooth_start(p: GenParams) -> int {
    if p.surface_min >= 10 {
        p.surface_min - 10
    } else {
        0
    }
}

/// The grids between the steps that lay the ground, in their order.
pub open spec fn ground_laid(
    t: Seq<Grid>,
    p: GenParams,
    d: GroundDraws,
    surface: Seq<u32>,
) -> bool {
    &&& t.len() == 9
    &&& surface.len() == d.heights@.len()
    &&& forall|x: int|
        0 <= x < surface.len() ==> #[trigger] surface[x] == held(p, d.heights@[x])
    &&& layered(t[0], t[1], p, surface)
    &&& blobbed(t[1], t[2], d.stones@, d.dirts@)
    &&& painted(
        t[2],
        t[3],
        TileId::Clay,
        seq![TileId::Dirt, TileId::Stone],
        any_row(),
        None,
        all_on_the_way(d.clays@),
    )
    &&& carved(t[3], t[4], all_on_the_way(d.surface_worms@))
    &&& carved(t[4], t[5], all_on_the_way(d.cavern_worms@))
    &&& opened(t[5], t[6], d.ceilings@, d.floors@)
    &&& smooth_run(t[6], t[7], smooth_start(p), p.smoothing_passes as nat)
    &&& ores_laid(t[7], t[8], p.ores@, d.veins@)
}

/// Lays the ground: layers below the surface, blobs, clay, caves, the lava
/// lake band, smoothing and veins, in this order. Returns the surface that the
/// layers start at.
pub fn lay_ground(world: &mut World, params: &GenParams, draws: &GroundDraws) -> (surface: Vec<u32>)
    requires
        old(world).wf(),
        old(world).width >= 2,
        old(world).height >= 2,
        params.surface_min <= params.surface_max,
        draws.heights.len() == old(world).width,
        draws.ceilings.len() == old(world).width,
        draws.floors.len() == old(world).width,
        draws.veins.len() == params.ores.len(),
    ensures
        final(world).wf(),
        final(world).width == old(world).width,
        final(world).height == old(world).height,
        final(world).spawn == old(world).spawn,
        surface.len() == old(world).width,
        exists|t: Seq<Grid>|
            {
                &&& #[trigger] ground_laid(t, *params, *draws, surface@)
                &&& t[0] == old(world)@
                &&& t[8] == final(world)@
            },
{
    let ghost g0 = world@;
    let surface = heightmap(params, &draws.heights);
    fill_base(world, params, &surface);
    let ghost g1 = world@;
    stone_dirt_blobs(world, &draws.stones, &draws.dirts);
    let ghost g2 = world@;
    clay(world, &draws.clays);
    let ghost g3 = world@;
    surface_caves(world, &draws.surface_worms);
    let ghost g4 = world@;
    cavern_caves(world, &draws.cavern_worms);
    let ghost g5 = world@;
    underworld_band(world, &draws.ceilings, &draws.floors);
    let ghost g6 = world@;
    smooth(world, params);
    let ghost g7 = world@;
    ore_veins(world, params, &draws.veins);
    proof {
        let t = seq![g0, g1, g2, g3, g4, g5, g6, g7, world@];
        assert(ground_laid(t, *params, *draws, surface@));
    }
    surface
}

/// No cell holds the foreground `id`.
pub open spec fn free_of(g: Grid, id: TileId) -> bool {
    forall|x: int, y: int| g.inside(x, y) ==> (#[trigger] g.at(x, y)).id != id
}

/// A step that only brings other foregrounds.
proof fn lemma_free_of_step(before: Grid, after: Grid, id: TileId)
    requires
        free_of(before, id),
        after.width == before.width,
        after.height == before.height,
        forall|x: int, y: int|
            before.inside(x, y) ==> (#[trigger] after.at(x, y)).id != id || after.at(x, y).id
                == before.at(x, y).id,
    ensures
        free_of(after, id),
{
    assert forall|x: int, y: int| after.inside(x, y) implies (#[trigger] after.at(x, y)).id
        != id by {
        assert(before.at(x, y).id != id);
    }
}

/// The blocks around a cell lie in the world.
proof fn lemma_blocks_are_there(g: Grid, x: int, y: int, i: int, id: TileId)
    requires
        g.inside(x, y),
        free_of(g, id),
        id != TileId::Air,
        0 <= i < blocks_around(g, x, y).len(),
    ensures
        blocks_around(g, x, y)[i] != id,
{
    assert forall|a: int, b: int, k: int|
        0 <= k < seen(g, a, b).len() implies #[trigger] seen(g, a, b)[k] != id by {
        assert(g.at(a, b).id == g.at(a, b).id);
    }
}

proof fn lemma_veins_same_shape(
    trail: Seq<Grid>,
    ores: Seq<OreSpec>,
    veins: Seq<Vec<Worm>>,
    n: int,
)
    requires
        veins_run(trail, ores, veins),
        0 <= n <= ores.len(),
    ensures
        trail[n].width == trail[0].width,
        trail[n].height == trail[0].height,
    decreases n,
{
    if n > 0 {
        lemma_veins_same_shape(trail, ores, veins, n - 1);
        assert(veined(trail[n - 1], trail[n - 1 + 1], ores[n - 1], all_on_the_way(veins[n - 1]@)));
    }
}

/// What smoothing fills a gap with was there before.
proof fn lemma_smoothing_brings_nothing(before: Grid, after: Grid, y_start: int, id: TileId)
    requires
        smooth_pass(before, after, y_start),
        free_of(before, id),
        id != TileId::Air,
    ensures
        free_of(after, id),
{
    assert forall|x: int, y: int| after.inside(x, y) implies (#[trigger] after.at(x, y)).id
        != id by {
        assert(before.inside(x, y));
        assert(before.at(x, y).id != id);
        if y >= y_start {
            let t = after.at(x, y);
            assert(smoothed(before, x, y, t));
            if is_majority(blocks_around(before, x, y), t.id) {
                let ids = blocks_around(before, x, y);
                let i = choose|i: int| 0 <= i < ids.len() && #[trigger] ids[i] == t.id;
                lemma_blocks_are_there(before, x, y, i, id);
            }
        }
    }
}

proof fn lemma_smoothings_bring_nothing(trail: Seq<Grid>, y_start: int, id: TileId, n: int)
    requires
        smooth_trail(trail, y_start),
        0 <= n < trail.len(),
        free_of(trail[0], id),
        id != TileId::Air,
    ensures
        free_of(trail[n], id),
    decreases n,
{
    if n > 0 {
        lemma_smoothings_bring_nothing(trail, y_start, id, n - 1);
        assert(smooth_pass(trail[n - 1], trail[n - 1 + 1], y_start));
        lemma_smoothing_brings_nothing(trail[n - 1], trail[n], y_start, id);
    }
}

/// Where veins lie after the first `n` ores.
proof fn lemma_veins_lie_in_rows(
    trail: Seq<Grid>,
    ores: Seq<OreSpec>,
    veins: Seq<Vec<Worm>>,
    n: int,
    x: int,
    y: int,
)
    requires
        veins_run(trail, ores, veins),
        0 <= n <= ores.len(),
        trail[0].inside(x, y),
    ensures
        trail[n].inside(x, y),
        trail[n].at(x, y).id == trail[0].at(x, y).id || exists|i: int|
            0 <= i < n && (#[trigger] ores[i]).tile == trail[n].at(x, y).id && ores[i].rows.0 <= y
                < ores[i].rows.1,
    decreases n,
{
    if n > 0 {
        lemma_veins_lie_in_rows(trail, ores, veins, n - 1, x, y);
        assert(veined(trail[n - 1], trail[n - 1 + 1], ores[n - 1], all_on_the_way(veins[n - 1]@)));
        assert(trail[n].at(x, y) == trail[n].at(x, y));
        assert(ores[n - 1] == ores[n - 1]);
    }
}

/// In freshly laid ground every ore lies within the rows of its table entry.
pub proof fn law_ores_keep_their_rows(
    t: Seq<Grid>,
    p: GenParams,
    d: GroundDraws,
    surface: Seq<u32>,
    ore: TileId,
    x: int,
    y: int,
)
    requires
        ground_laid(t, p, d, surface),
        free_of(t[0], ore),
        ore != TileId::Air,
        ore != TileId::Dirt,
        ore != TileId::Stone,
        ore != TileId::Ash,
        ore != TileId::Clay,
        t[8].inside(x, y),
        t[8].at(x, y).id == ore,
    ensures
        exists|i: int|
            0 <= i < p.ores@.len() && (#[trigger] p.ores@[i]).tile == ore && p.ores@[i].rows.0 <= y
                < p.ores@[i].rows.1,
{
    assert(free_of(t[1], ore)) by {
        assert forall|a: int, b: int| t[1].inside(a, b) implies (#[trigger] t[1].at(a, b)).id
            != ore by {
            assert(t[0].at(a, b).id != ore);
        }
    }
    let mid = choose|mid: Grid|
        {
            &&& #[trigger] painted(
                t[1],
                mid,
                TileId::Stone,
                seq![TileId::Dirt],
                any_row(),
                None,
                all_on_the_way(d.stones@),
            )
            &&& painted(
                mid,
                t[2],
                TileId::Dirt,
                seq![TileId::Stone],
                any_row(),
                None,
                all_on_the_way(d.dirts@),
            )
        };
    lemma_free_of_step(t[1], mid, ore);
    lemma_free_of_step(mid, t[2], ore);
    lemma_free_of_step(t[2], t[3], ore);
    lemma_free_of_step(t[3], t[4], ore);
    lemma_free_of_step(t[4], t[5], ore);
    lemma_free_of_step(t[5], t[6], ore);
    let n = p.smoothing_passes as nat;
    let trail = choose|trail: Seq<Grid>|
        {
            &&& #[trigger] smooth_trail(trail, smooth_start(p))
            &&& trail.len() == n + 1
            &&& trail[0] == t[6]
            &&& trail[n as int] == t[7]
        };
    lemma_smoothings_bring_nothing(trail, smooth_start(p), ore, n as int);
    let veins = choose|v: Seq<Grid>|
        {
            &&& #[trigger] veins_run(v, p.ores@, d.veins@)
            &&& v[0] == t[7]
            &&& v[p.ores@.len() as int] == t[8]
        };
    lemma_veins_same_shape(veins, p.ores@, d.veins@, p.ores@.len() as int);
    lemma_veins_lie_in_rows(veins, p.ores@, d.veins@, p.ores@.len() as int, x, y);
    assert(t[7].at(x, y).id != ore);
}

/// Two grids show the same everywhere.
pub open spec fn agree(g: Grid, h: Grid) -> bool {
    &&& g.width == h.width
    &&& g.height == h.height
    &&& forall|x: int, y: int| g.inside(x, y) ==> #[trigger] g.at(x, y) == h.at(x, y)
}

/// Of equally frequent blocks the first one is the only majority.
proof fn lemma_one_majority(ids: Seq<TileId>, a: TileId, b: TileId)
    requires
        is_majority(ids, a),
        is_majority(ids, b),
    ensures
        a == b,
{
    let i = choose|i: int|
        {
            &&& 0 <= i < ids.len()
            &&& #[trigger] ids[i] == a
            &&& forall|j: int|
                0 <= j < ids.len() ==> occurrences(ids, #[trigger] ids[j]) <= occurrences(ids, a)
            &&& forall|j: int|
                0 <= j < i ==> occurrences(ids, #[trigger] ids[j]) < occurrences(ids, a)
        };
    let k = choose|i: int|
        {
            &&& 0 <= i < ids.len()
            &&& #[trigger] ids[i] == b
            &&& forall|j: int|
                0 <= j < ids.len() ==> occurrences(ids, #[trigger] ids[j]) <= occurrences(ids, b)
            &&& forall|j: int|
                0 <= j < i ==> occurrences(ids, #[trigger] ids[j]) < occurrences(ids, b)
        };
    assert(ids[i] == a && ids[k] == b);
}

proof fn lemma_agree_smooth(g: Grid, h: Grid, g2: Grid, h2: Grid, y_start: int)
    requires
        agree(g, h),
        smooth_pass(g, g2, y_start),
        smooth_pass(h, h2, y_start),
    ensures
        agree(g2, h2),
{
    assert forall|x: int, y: int| g2.inside(x, y) implies #[trigger] g2.at(x, y) == h2.at(
        x,
        y,
    ) by {
        assert(g.inside(x, y) && h.inside(x, y));
        assert(g.at(x, y) == h.at(x, y));
        assert(h2.at(x, y) == h2.at(x, y));
        assert forall|a: int, b: int| #[trigger] seen(g, a, b) == seen(h, a, b) && filled(g, a, b)
            == filled(h, a, b) by {
            if g.inside(a, b) {
                assert(g.at(a, b) == h.at(a, b));
            }
        }
        assert(blocks_around(g, x, y) == blocks_around(h, x, y));
        assert(fill_around(g, x, y) == fill_around(h, x, y));
        if y >= y_start {
            let (s, t) = (g2.at(x, y), h2.at(x, y));
            assert(smoothed(g, x, y, s) && smoothed(h, x, y, t));
            if g.at(x, y).id == TileId::Air && fill_around(g, x, y) >= 6 {
                lemma_one_majority(blocks_around(g, x, y), s.id, t.id);
            }
        }
    }
}

proof fn lemma_agree_smooth_trail(s: Seq<Grid>, t: Seq<Grid>, y_start: int, n: int)
    requires
        smooth_trail(s, y_start),
        smooth_trail(t, y_start),
        0 <= n < s.len(),
        s.len() == t.len(),
        agree(s[0], t[0]),
    ensures
        agree(s[n], t[n]),
    decreases n,
{
    if n > 0 {
        lemma_agree_smooth_trail(s, t, y_start, n - 1);
        assert(smooth_pass(s[n - 1], s[n - 1 + 1], y_start));
        assert(smooth_pass(t[n - 1], t[n - 1 + 1], y_start));
        lemma_agree_smooth(s[n - 1], t[n - 1], s[n], t[n], y_start);
    }
}

proof fn lemma_agree_painted(
    g: Grid,
    h: Grid,
    g2: Grid,
    h2: Grid,
    tile: TileId,
    bed: Seq<TileId>,
    cells: Set<(u32, u32)>,
)
    requires
        agree(g, h),
        painted(g, g2, tile, bed, any_row(), None, cells),
        painted(h, h2, tile, bed, any_row(), None, cells),
    ensures
        agree(g2, h2),
{
    assert forall|x: int, y: int| g2.inside(x, y) implies #[trigger] g2.at(x, y) == h2.at(
        x,
        y,
    ) by {
        assert(g.at(x, y) == h.at(x, y));
        assert(h2.at(x, y) == h2.at(x, y));
    }
}

proof fn lemma_agree_carved(g: Grid, h: Grid, g2: Grid, h2: Grid, cells: Set<(u32, u32)>)
    requires
        agree(g, h),
        carved(g, g2, cells),
        carved(h, h2, cells),
    ensures
        agree(g2, h2),
{
    assert forall|x: int, y: int| g2.inside(x, y) implies #[trigger] g2.at(x, y) == h2.at(
        x,
        y,
    ) by {
        assert(g.at(x, y) == h.at(x, y));
        assert(h2.at(x, y) == h2.at(x, y));
    }
}

proof fn lemma_agree_blobbed(
    g: Grid,
    h: Grid,
    g2: Grid,
    h2: Grid,
    stones: Seq<Worm>,
    dirts: Seq<Worm>,
)
    requires
        agree(g, h),
        blobbed(g, g2, stones, dirts),
        blobbed(h, h2, stones, dirts),
    ensures
        agree(g2, h2),
{
    let (dirt, stone) = (seq![TileId::Dirt], seq![TileId::Stone]);
    let cells = all_on_the_way(stones);
    let m = choose|m: Grid|
        {
            &&& #[trigger] painted(g, m, TileId::Stone, dirt, any_row(), None, cells)
            &&& painted(m, g2, TileId::Dirt, stone, any_row(), None, all_on_the_way(dirts))
        };
    let n = choose|m: Grid|
        {
            &&& #[trigger] painted(h, m, TileId::Stone, dirt, any_row(), None, cells)
            &&& painted(m, h2, TileId::Dirt, stone, any_row(), None, all_on_the_way(dirts))
        };
    lemma_agree_painted(g, h, m, n, TileId::Stone, dirt, cells);
    lemma_agree_painted(m, n, g2, h2, TileId::Dirt, stone, all_on_the_way(dirts));
}

proof fn lemma_agree_veins(
    s: Seq<Grid>,
    t: Seq<Grid>,
    ores: Seq<OreSpec>,
    veins: Seq<Vec<Worm>>,
    n: int,
)
    requires
        veins_run(s, ores, veins),
        veins_run(t, ores, veins),
        0 <= n <= ores.len(),
        agree(s[0], t[0]),
    ensures
        agree(s[n], t[n]),
    decreases n,
{
    if n > 0 {
        lemma_agree_veins(s, t, ores, veins, n - 1);
        let (g, h) = (s[n - 1], t[n - 1]);
        assert(veined(s[n - 1], s[n - 1 + 1], ores[n - 1], all_on_the_way(veins[n - 1]@)));
        assert(veined(t[n - 1], t[n - 1 + 1], ores[n - 1], all_on_the_way(veins[n - 1]@)));
        assert forall|x: int, y: int| s[n].inside(x, y) implies #[trigger] s[n].at(x, y) == t[n].at(
            x,
            y,
        ) by {
            assert(g.at(x, y) == h.at(x, y));
            assert(t[n].at(x, y) == t[n].at(x, y));
        }
    }
}

/// Equal draws lay equal ground: the same surface, and the same in every cell.
pub proof fn law_equal_draws_equal_ground(
    s: Seq<Grid>,
    t: Seq<Grid>,
    p: GenParams,
    d: GroundDraws,
    a: Seq<u32>,
    b: Seq<u32>,
)
    requires
        ground_laid(s, p, d, a),
        ground_laid(t, p, d, b),
        agree(s[0], t[0]),
        d.heights@.len() == s[0].width,
    ensures
        a == b,
        agree(s[8], t[8]),
{
    assert(a =~= b);
    assert(agree(s[1], t[1])) by {
        assert forall|x: int, y: int| s[1].inside(x, y) implies #[trigger] s[1].at(x, y) == t[1].at(
            x,
            y,
        ) by {
            assert(s[0].at(x, y) == t[0].at(x, y));
            assert(t[1].at(x, y) == t[1].at(x, y));
        }
    }
    lemma_agree_blobbed(s[1], t[1], s[2], t[2], d.stones@, d.dirts@);
    lemma_agree_painted(
        s[2],
        t[2],
        s[3],
        t[3],
        TileId::Clay,
        seq![TileId::Dirt, TileId::Stone],
        all_on_the_way(d.clays@),
    );
    lemma_agree_carved(s[3], t[3], s[4], t[4], all_on_the_way(d.surface_worms@));
    lemma_agree_carved(s[4], t[4], s[5], t[5], all_on_the_way(d.cavern_worms@));
    assert(agree(s[6], t[6])) by {
        assert forall|x: int, y: int| s[6].inside(x, y) implies #[trigger] s[6].at(x, y) == t[6].at(
            x,
            y,
        ) by {
            assert(s[5].at(x, y) == t[5].at(x, y));
            assert(t[6].at(x, y) == t[6].at(x, y));
        }
    }
    let n = p.smoothing_passes as nat;
    let u = choose|u: Seq<Grid>|
        {
            &&& #[trigger] smooth_trail(u, smooth_start(p))
            &&& u.len() == n + 1
            &&& u[0] == s[6]
            &&& u[n as int] == s[7]
        };
    let v = choose|u: Seq<Grid>|
        {
            &&& #[trigger] smooth_trail(u, smooth_start(p))
            &&& u.len() == n + 1
            &&& u[0] == t[6]
            &&& u[n as int] == t[7]
        };
    lemma_agree_smooth_trail(u, v, smooth_start(p), n as int);
    let k = p.ores@.len() as int;
    let y = choose|u: Seq<Grid>|
        {
            &&& #[trigger] veins_run(u, p.ores@, d.veins@)
            &&& u[0] == s[7]
            &&& u[k] == s[8]
        };
    let z = choose|u: Seq<Grid>|
        {
            &&& #[trigger] veins_run(u, p.ores@, d.veins@)
            &&& u[0] == t[7]
            &&& u[k] == t[8]
        };
    lemma_agree_veins(y, z, p.ores@, d.veins@, k);
}

// ---- What each pass does to the ground -------------------------------------

/// Carving opens every cell on its way, keeps walls and liquids, and touches
/// nothing else.
pub proof fn law_worms_carve_their_way(before: Grid, after: Grid, cells: Set<(u32, u32)>, x: int, y: int)
    requires
        carved(before, after, cells),
        before.inside(x, y),
    ensures
        cells.contains((x as u32, y as u32)) ==> after.at(x, y).id == TileId::Air,
        !cells.contains((x as u32, y as u32)) ==> after.at(x, y) == before.at(x, y),
        after.at(x, y).wall == before.at(x, y).wall && after.at(x, y).liquid == before.at(
            x,
            y,
        ).liquid,
{
}

/// Painting turns what it may replace, on its way and where it may land, into
/// its tile, and touches nothing else.
pub proof fn law_worms_paint_their_bed(
    before: Grid,
    after: Grid,
    tile: TileId,
    bed: Seq<TileId>,
    rows: (u32, u32),
    limits: Option<Seq<u32>>,
    cells: Set<(u32, u32)>,
    x: int,
    y: int,
)
    requires
        painted(before, after, tile, bed, rows, limits, cells),
        before.inside(x, y),
    ensures
        ({
            let hit = cells.contains((x as u32, y as u32)) && rows.0 <= y && y < rows.1 && (
            limits is Some ==> y < limits->Some_0[x]) && bed.contains(before.at(x, y).id);
            &&& hit ==> after.at(x, y).id == tile
            &&& !hit ==> after.at(x, y) == before.at(x, y)
            &&& after.at(x, y).wall == before.at(x, y).wall
        }),
{
}

/// The ground is laid as it is meant to be. It starts in layers of dirt, stone
/// and ash under the surface; stone goes into dirt and dirt into stone; clay
/// into both; then caves are opened and the underworld is hollowed out.
pub proof fn law_the_ground_is_laid_in_passes(
    t: Seq<Grid>,
    p: GenParams,
    d: GroundDraws,
    surface: Seq<u32>,
    x: int,
    y: int,
)
    requires
        ground_laid(t, p, d, surface),
        t[0].inside(x, y),
        surface.len() == t[0].width,
        p.dirt_to_stone <= p.stone_to_ash,
        t[0].width <= u32::MAX,
        t[0].height < u32::MAX,
    ensures
        y < surface[x] ==> t[1].at(x, y) == t[0].at(x, y),
        surface[x] <= y < p.dirt_to_stone ==> t[1].at(x, y).id == TileId::Dirt,
        surface[x] <= y && p.dirt_to_stone <= y < p.stone_to_ash ==> t[1].at(x, y).id
            == TileId::Stone,
        surface[x] <= y && p.stone_to_ash <= y ==> t[1].at(x, y).id == TileId::Ash,
        t[2].at(x, y).id != t[1].at(x, y).id ==> {
            ||| t[1].at(x, y).id == TileId::Dirt && t[2].at(x, y).id == TileId::Stone
            ||| t[1].at(x, y).id == TileId::Stone && t[2].at(x, y).id == TileId::Dirt
        },
        all_on_the_way(d.stones@).contains((x as u32, y as u32)) && !all_on_the_way(
            d.dirts@,
        ).contains((x as u32, y as u32)) && t[1].at(x, y).id == TileId::Dirt ==> t[2].at(x, y).id
            == TileId::Stone,
        all_on_the_way(d.dirts@).contains((x as u32, y as u32)) && t[1].at(x, y).id
            == TileId::Stone ==> t[2].at(x, y).id == TileId::Dirt,
        t[3].at(x, y).id != t[2].at(x, y).id ==> t[3].at(x, y).id == TileId::Clay && (t[2].at(
            x,
            y,
        ).id == TileId::Dirt || t[2].at(x, y).id == TileId::Stone),
        all_on_the_way(d.clays@).contains((x as u32, y as u32)) && (t[2].at(x, y).id
            == TileId::Dirt || t[2].at(x, y).id == TileId::Stone) ==> t[3].at(x, y).id
            == TileId::Clay,
        all_on_the_way(d.surface_worms@).contains((x as u32, y as u32)) ==> t[4].at(x, y).id
            == TileId::Air,
        all_on_the_way(d.cavern_worms@).contains((x as u32, y as u32)) ==> t[5].at(x, y).id
            == TileId::Air,
        d.ceilings@[x] <= y < d.floors@[x] ==> t[6].at(x, y).id == TileId::Air && t[6].at(
            x,
            y,
        ).wall == crate::tile::WallId::Air && t[6].at(x, y).liquid is Empty,
        !(d.ceilings@[x] <= y < d.floors@[x]) ==> t[6].at(x, y) == t[5].at(x, y),
{
    assert(t[1].inside(x, y));
    let mid = choose|mid: Grid|
        {
            &&& #[trigger] painted(
                t[1],
                mid,
                TileId::Stone,
                seq![TileId::Dirt],
                any_row(),
                None,
                all_on_the_way(d.stones@),
            )
            &&& painted(
                mid,
                t[2],
                TileId::Dirt,
                seq![TileId::Stone],
                any_row(),
                None,
                all_on_the_way(d.dirts@),
            )
        };
    let (sd, ss) = (seq![TileId::Dirt], seq![TileId::Stone]);
    let sc = seq![TileId::Dirt, TileId::Stone];
    assert forall|id: TileId| #[trigger] sd.contains(id) <==> id == TileId::Dirt by {
        assert(sd[0] == TileId::Dirt);
    }
    assert forall|id: TileId| #[trigger] ss.contains(id) <==> id == TileId::Stone by {
        assert(ss[0] == TileId::Stone);
    }
    assert forall|id: TileId| #[trigger] sc.contains(id) <==> id == TileId::Dirt || id
        == TileId::Stone by {
        assert(sc[0] == TileId::Dirt && sc[1] == TileId::Stone);
    }
    assert(t[1].at(x, y) == t[1].at(x, y));
    assert(mid.inside(x, y) && mid.at(x, y) == mid.at(x, y));
    assert(t[2].inside(x, y) && t[2].at(x, y) == t[2].at(x, y));
    assert(t[3].inside(x, y) && t[3].at(x, y) == t[3].at(x, y));
    assert(t[4].inside(x, y) && t[4].at(x, y) == t[4].at(x, y));
    assert(t[5].inside(x, y) && t[5].at(x, y) == t[5].at(x, y));
    assert(t[6].at(x, y) == t[6].at(x, y));
}

/// Each vein turns what its ore may replace into ore, between the rows of the
/// ore, and nothing else.
pub proof fn law_veins_turn_to_ore(
    before: Grid,
    after: Grid,
    ore: OreSpec,
    cells: Set<(u32, u32)>,
    x: int,
    y: int,
)
    requires
        veined(before, after, ore, cells),
        before.inside(x, y),
    ensures
        ({
            let id = before.at(x, y).id;
            let ground = id == TileId::Ash || (ore.replaces is Ground && (id == TileId::Dirt || id
                == TileId::Stone));
            let hit = cells.contains((x as u32, y as u32)) && ore.rows.0 <= y && y < ore.rows.1
                && ground;
            &&& hit ==> after.at(x, y).id == ore.tile
            &&& !hit ==> after.at(x, y) == before.at(x, y)
        }),
{
}

/// Sand reaches no deeper under the surface than it may.
pub proof fn law_sand_stays_shallow(p: GenParams, surface: Seq<u32>, x: int)
    requires
        0 <= x < surface.len(),
        surface[x] + p.sand_max_depth < u32::MAX,
    ensures
        spec_sand_limits(p, surface).len() == surface.len(),
        spec_sand_limits(p, surface)[x] <= surface[x] + p.sand_max_depth + 1,
        spec_sand_limits(p, surface)[x] <= p.height || surface[x] + p.sand_max_depth + 1
            <= p.height,
        surface[x] + p.sand_max_depth < p.height ==> spec_sand_limits(p, surface)[x] == surface[x]
            + p.sand_max_depth + 1,
{
}

/// Smoothing starts ten rows above the highest surface, or at the top.
pub proof fn law_smoothing_starts_above_ground(p: GenParams)
    ensures
        p.surface_min >= 10 ==> smooth_start(p) + 10 == p.surface_min,
        p.surface_min < 10 ==> smooth_start(p) == 0,
{
}

} // verus!
