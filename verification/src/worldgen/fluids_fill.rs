//! Filling enclosed pockets with water or lava, and the lakes of the
//! underworld.

use vstd::prelude::*;

use crate::grid::{group_grid, lemma_index_inside, Grid, World};
use crate::sim::fluids::{only_hardens, settle, settled, settles_in, unsettled, MAX_SETTLE_ROUNDS};
use crate::tile::{Liquid, LiquidKind, Tile, TileId, LIQUID_MAX_LEVEL};
use crate::worldgen::params::GenParams;
use crate::worldgen::pockets::{Pockets, Region};

verus! {

/// The random numbers of one pocket.
#[derive(Debug, Clone, Copy)]
pub struct PocketRoll {
    /// The pocket is filled, if it is filled with water.
    pub water: bool,
    /// The pocket is filled, if it is filled with lava.
    pub lava: bool,
    /// How many rows are filled, before rounding up to one.
    pub rows: u32,
}

/// What a pocket is filled with, and from which row on.
#[derive(Debug, Clone, Copy, PartialEq, Eq, Structural)]
pub struct Fill {
    pub kind: LiquidKind,
    pub from: u32,
}

/// A pocket that may be filled: enclosed, and entirely within the liquid
/// rows.
pub open spec fn fillable(p: GenParams, r: Region) -> bool {
    !r.open_to_sky && r.min_y >= p.water_rows.0 && r.max_y < p.lava_rows.1
}

/// The liquid of the band in which the middle of a pocket lies.
pub open spec fn pocket_kind(p: GenParams, r: Region) -> LiquidKind {
    if (r.min_y + r.max_y) / 2 < p.water_rows.1 {
        LiquidKind::Water
    } else {
        LiquidKind::Lava
    }
}

pub open spec fn spec_choose_fill(p: GenParams, r: Region, roll: PocketRoll) -> Option<Fill> {
    let kind = pocket_kind(p, r);
    let hit = match kind {
        LiquidKind::Water => roll.water,
        LiquidKind::Lava => roll.lava,
    };
    if !fillable(p, r) || !hit {
        None
    } else {
        let rows = if roll.rows < 1 {
            1
        } else {
            roll.rows as int
        };
        Some(Fill { kind, from: (r.max_y + 1 - rows) as u32 })
    }
}

/// A roll fills at most the whole pocket.
pub open spec fn roll_fits(r: Region, roll: PocketRoll) -> bool {
    &&& r.min_y <= r.max_y < u32::MAX
    &&& roll.rows <= r.max_y - r.min_y + 1
}

/// Decides what one pocket is filled with.
pub fn choose_fill(params: &GenParams, region: &Region, roll: PocketRoll) -> (f: Option<Fill>)
    requires
        roll_fits(*region, roll),
    ensures
        f == spec_choose_fill(*params, *region, roll),
        f matches Some(fill) ==> region.min_y <= fill.from <= region.max_y,
{
    if region.open_to_sky || region.min_y < params.water_rows.0 || region.max_y
        >= params.lava_rows.1 {
        return None;
    }
    let mid: u64 = (region.min_y as u64 + region.max_y as u64) / 2;
    let (kind, hit): (LiquidKind, bool) = if mid < params.water_rows.1 as u64 {
        (LiquidKind::Water, roll.water)
    } else {
        (LiquidKind::Lava, roll.lava)
    };
    if !hit {
        return None;
    }
    let rows: u32 = if roll.rows < 1 {
        1
    } else {
        roll.rows
    };
    Some(Fill { kind, from: region.max_y + 1 - rows })
}

/// What filling makes of a cell: a pocket cell at or below its fill line is
/// full, and every open cell below the lava line holds lava.
pub open spec fn filled_tile(
    p: GenParams,
    g: Grid,
    label: Seq<u32>,
    fills: Seq<Option<Fill>>,
    x: int,
    y: int,
) -> Tile {
    let t = g.at(x, y);
    let id = label[g.index(x, y)];
    let t1 = if p.water_rows.0 <= y < p.lava_rows.1 && id != 0 && (fills[id - 1] matches Some(f)
        && y >= f.from) {
        t.with_liquid(
            (Liquid::Filled { kind: fills[id - 1]->Some_0.kind, level: LIQUID_MAX_LEVEL }),
        )
    } else {
        t
    };
    if y > p.hell_lava_row && t.id == TileId::Air {
        t1.with_liquid((Liquid::Filled { kind: LiquidKind::Lava, level: LIQUID_MAX_LEVEL }))
    } else {
        t1
    }
}

/// The labels and fills belong to the world.
pub open spec fn fills_fit(g: Grid, label: Seq<u32>, fills: Seq<Option<Fill>>) -> bool {
    &&& label.len() == g.cells.len()
    &&& forall|i: int| 0 <= i < label.len() ==> #[trigger] label[i] <= fills.len()
}

/// Pours the chosen fills and the lakes of the underworld into the world.
pub fn pour(world: &mut World, params: &GenParams, label: &Vec<u32>, fills: &Vec<Option<Fill>>)
    requires
        old(world).wf(),
        fills_fit(old(world)@, label@, fills@),
    ensures
        final(world).wf(),
        final(world).width == old(world).width,
        final(world).height == old(world).height,
        final(world).spawn == old(world).spawn,
        forall|x: int, y: int|
            old(world)@.inside(x, y) ==> #[trigger] final(world)@.at(x, y) == filled_tile(
                *params,
                old(world)@,
                label@,
                fills@,
                x,
                y,
            ),
{
    let ghost g = world@;
    let mut y: u32 = 0;
    while y < world.height
        invariant
            world.wf(),
            g == old(world)@,
            g.wf(),
            world.width == old(world).width,
            world.height == old(world).height,
            world.spawn == old(world).spawn,
            fills_fit(g, label@, fills@),
            forall|a: int, b: int|
                g.inside(a, b) ==> #[trigger] world@.at(a, b) == (if b < y {
                    filled_tile(*params, g, label@, fills@, a, b)
                } else {
                    g.at(a, b)
                }),
        decreases world.height - y,
    {
        let mut x: u32 = 0;
        while x < world.width
            invariant
                world.wf(),
                g == old(world)@,
                g.wf(),
                world.width == old(world).width,
                world.height == old(world).height,
                world.spawn == old(world).spawn,
                y < world.height,
                fills_fit(g, label@, fills@),
                forall|a: int, b: int|
                    g.inside(a, b) ==> #[trigger] world@.at(a, b) == (if b < y || (b == y && a
                        < x) {
                        filled_tile(*params, g, label@, fills@, a, b)
                    } else {
                        g.at(a, b)
                    }),
            decreases world.width - x,
        {
            broadcast use group_grid;

            let mut t = world.tile(x, y);
            proof {
                lemma_index_inside(g, x as int, y as int);
            }
            assert(0 <= y * world.width <= y * world.width + x);
            let id: u32 = label[(y * world.width + x) as usize];
            if y >= params.water_rows.0 && y < params.lava_rows.1 && id != 0 {
                match fills[(id - 1) as usize] {
                    Some(f) => {
                        if y >= f.from {
                            t.liquid = Liquid::new(f.kind, LIQUID_MAX_LEVEL);
                        }
                    },
                    None => {},
                }
            }
            if y > params.hell_lava_row && t.id == TileId::Air {
                t.liquid = Liquid::new(LiquidKind::Lava, LIQUID_MAX_LEVEL);
            }
            world.set_tile(x, y, t);
            x = x + 1;
        }
        y = y + 1;
    }
}

/// `after` is `before` with the liquids that were rolled for its pockets, and
/// lava below.
pub open spec fn poured(
    before: Grid,
    after: Grid,
    p: GenParams,
    pockets: Pockets,
    rolls: Seq<PocketRoll>,
) -> bool {
    let fills = Seq::new(
        rolls.len(),
        |i: int| spec_choose_fill(p, pockets.regions@[i], rolls[i]),
    );
    &&& after.wf()
    &&& after.width == before.width
    &&& after.height == before.height
    &&& forall|x: int, y: int|
        before.inside(x, y) ==> #[trigger] after.at(x, y) == filled_tile(
            p,
            before,
            pockets.label@,
            fills,
            x,
            y,
        )
}

/// Fills the labelled pockets as rolled and lets everything settle. Returns
/// the rounds that took; below the cap no liquid can move any more and no
/// water touches lava.
pub fn fill_and_settle(
    world: &mut World,
    params: &GenParams,
    pockets: &Pockets,
    rolls: &Vec<PocketRoll>,
) -> (rounds: u32)
    requires
        old(world).wf(),
        pockets.label.len() == old(world)@.cells.len(),
        forall|i: int|
            0 <= i < pockets.label.len() ==> #[trigger] pockets.label@[i] <= pockets.regions.len(),
        rolls.len() == pockets.regions.len(),
        forall|i: int|
            0 <= i < rolls.len() ==> roll_fits(#[trigger] pockets.regions@[i], rolls@[i]),
    ensures
        final(world).wf(),
        final(world).width == old(world).width,
        final(world).height == old(world).height,
        final(world).spawn == old(world).spawn,
        exists|filled: Grid|
            {
                &&& #[trigger] poured(old(world)@, filled, *params, *pockets, rolls@)
                &&& final(world)@ == unsettled(filled).rounds(rounds as nat).grid
                &&& settles_in(unsettled(filled), rounds as nat)
            },
        rounds < MAX_SETTLE_ROUNDS ==> settled(final(world)@),
        only_hardens(old(world)@, final(world)@),
{
    let mut fills: Vec<Option<Fill>> = Vec::new();
    let mut i: usize = 0;
    while i < pockets.regions.len()
        invariant
            i <= pockets.regions.len(),
            fills.len() == i,
            rolls.len() == pockets.regions.len(),
            forall|k: int|
                0 <= k < rolls.len() ==> roll_fits(#[trigger] pockets.regions@[k], rolls@[k]),
            forall|k: int|
                0 <= k < i ==> #[trigger] fills@[k] == spec_choose_fill(
                    *params,
                    pockets.regions@[k],
                    rolls@[k],
                ),
        decreases pockets.regions.len() - i,
    {
        fills.push(choose_fill(params, &pockets.regions[i], rolls[i]));
        i = i + 1;
    }
    assert(fills@ =~= Seq::new(
        rolls@.len(),
        |i: int| spec_choose_fill(*params, pockets.regions@[i], rolls@[i]),
    ));
    pour(world, params, &pockets.label, &fills);
    let ghost filled = world@;
    assert(poured(old(world)@, filled, *params, *pockets, rolls@));
    let rounds: u32 = settle(world);
    proof {
        let g = old(world)@;
        assert forall|a: int, b: int|
            #![trigger world@.at(a, b)]
            g.inside(a, b) implies (world@.at(a, b).id == g.at(a, b).id || world@.at(a, b).id
            == TileId::Obsidian) && world@.at(a, b).wall == g.at(a, b).wall by {
            assert(filled.at(a, b) == filled.at(a, b));
        }
    }
    rounds
}

/// A closed pocket within the rows of the liquids takes water if its middle
/// lies above the water line and lava if it lies below, when its roll says so;
/// it is filled from the bottom, one row at least.
pub proof fn law_pockets_fill_by_depth(p: GenParams, r: Region, roll: PocketRoll)
    requires
        roll_fits(r, roll),
    ensures
        ({
            let f = spec_choose_fill(p, r, roll);
            let deep = (r.min_y + r.max_y) / 2 >= p.water_rows.1;
            let closed = !r.open_to_sky && r.min_y >= p.water_rows.0 && r.max_y < p.lava_rows.1;
            &&& !closed ==> f is None
            &&& closed && !deep ==> (f is Some <==> roll.water)
            &&& closed && deep ==> (f is Some <==> roll.lava)
            &&& f is Some ==> (f->Some_0.kind == LiquidKind::Lava <==> deep)
            &&& f is Some && roll.rows >= 1 ==> r.max_y + 1 - f->Some_0.from == roll.rows
            &&& f is Some && roll.rows == 0 ==> f->Some_0.from == r.max_y
        }),
{
}

/// Poured cells are full; under the lava line of the underworld all air is
/// lava; foregrounds and walls stay.
pub proof fn law_pouring_fills_cells(
    p: GenParams,
    g: Grid,
    label: Seq<u32>,
    fills: Seq<Option<Fill>>,
    x: int,
    y: int,
)
    ensures
        ({
            let t = filled_tile(p, g, label, fills, x, y);
            let id = label[g.index(x, y)];
            &&& t.id == g.at(x, y).id && t.wall == g.at(x, y).wall && t.state == g.at(x, y).state
            &&& y > p.hell_lava_row && g.at(x, y).id == TileId::Air ==> t.liquid
                == (Liquid::Filled { kind: LiquidKind::Lava, level: 8 })
            &&& y <= p.hell_lava_row && p.water_rows.0 <= y && y < p.lava_rows.1 && id != 0
                && fills[id - 1] is Some && y >= fills[id - 1]->Some_0.from ==> t.liquid
                == (Liquid::Filled { kind: fills[id - 1]->Some_0.kind, level: 8 })
            &&& y <= p.hell_lava_row && (id == 0 || fills[id - 1] is None || y
                < fills[id - 1]->Some_0.from) ==> t.liquid == g.at(x, y).liquid
        }),
{
}

} // verus!
