//! The passes that dress laid ground with settled liquids: sand, grass and
//! trees, and a last settling. And what all the passes are called.

use vstd::prelude::*;

use crate::grid::{only_brings, Grid, World};
use crate::sim::fluids::{
    only_hardens, settle, settled, settles_in, unsettled, MAX_SETTLE_ROUNDS,
};
use crate::tile::TileId;
use crate::worldgen::caves::is_surface;
use crate::worldgen::flora::{
    flora_run, grass_and_flora, greens, grown_over, FloraRoll, FloraWalk,
};
use crate::worldgen::ground::{
    all_on_the_way, any_row, painted, sand_patches, spec_sand_limits, Worm,
};
use crate::worldgen::params::{GenParams, MIN_SIDE};

verus! {

/// Whether a world of this size has room for its layers.
pub fn has_room(width: u32, height: u32) -> (b: bool)
    ensures
        b == (width >= 300 && height >= 300),
{
    width >= MIN_SIDE && height >= MIN_SIDE
}

/// What pass number `n` is called, counting from one.
pub open spec fn spec_pass_name(n: usize) -> Option<Seq<char>> {
    if n == 1 {
        Some("surface heightmap"@)
    } else if n == 2 {
        Some("stone/dirt blobs"@)
    } else if n == 3 {
        Some("clay"@)
    } else if n == 4 {
        Some("caves (TileRunner)"@)
    } else if n == 5 {
        Some("smoothing (CA)"@)
    } else if n == 6 {
        Some("ore veins"@)
    } else if n == 7 {
        Some("fluid pockets + settle"@)
    } else if n == 8 {
        Some("sand patches"@)
    } else if n == 9 {
        Some("grass & flora"@)
    } else if n == 10 {
        Some("obsidian (settle check)"@)
    } else if n == 11 {
        Some("structures"@)
    } else if n == 12 {
        Some("spawn point"@)
    } else {
        None
    }
}

/// The name of a pass, counting from one.
pub fn pass_name(n: usize) -> (name: Option<&'static str>)
    ensures
        match name {
            Some(s) => spec_pass_name(n) == Some(s@),
            None => spec_pass_name(n) is None,
        },
{
    if n == 1 {
        Some("surface heightmap")
    } else if n == 2 {
        Some("stone/dirt blobs")
    } else if n == 3 {
        Some("clay")
    } else if n == 4 {
        Some("caves (TileRunner)")
    } else if n == 5 {
        Some("smoothing (CA)")
    } else if n == 6 {
        Some("ore veins")
    } else if n == 7 {
        Some("fluid pockets + settle")
    } else if n == 8 {
        Some("sand patches")
    } else if n == 9 {
        Some("grass & flora")
    } else if n == 10 {
        Some("obsidian (settle check)")
    } else if n == 11 {
        Some("structures")
    } else if n == 12 {
        Some("spawn point")
    } else {
        None
    }
}

/// Everything drawn for sand and plants.
pub struct DressDraws {
    pub sand: Vec<Worm>,
    /// Columns before the first tree.
    pub first_gap: u32,
    pub flora: Vec<FloraRoll>,
}

/// `after` is `before` with grass, trees and mushrooms.
pub open spec fn greened(
    before: Grid,
    after: Grid,
    separation: int,
    first_gap: u32,
    rolls: Seq<FloraRoll>,
) -> bool {
    exists|grids: Seq<Grid>, walks: Seq<FloraWalk>, surface: Seq<u32>|
        {
            &&& #[trigger] flora_run(grids, walks, surface, separation, rolls)
            &&& is_surface(grids[0], surface)
            &&& grids[0].width == before.width
            &&& grids[0].height == before.height
            &&& forall|x: int, y: int|
                before.inside(x, y) ==> #[trigger] grids[0].at(x, y) == grown_over(before, x, y)
            &&& walks[0] == (FloraWalk { next_tree: first_gap, last_tree: None })
            &&& grids[surface.len() as int] == after
        }
}

/// The grids between sand, grass and settling.
pub open spec fn dressed(
    t: Seq<Grid>,
    p: GenParams,
    surface: Seq<u32>,
    d: DressDraws,
    rounds: nat,
) -> bool {
    &&& t.len() == 4
    &&& forall|i: int| 0 <= i < 4 ==> (#[trigger] t[i]).wf()
    &&& painted(
        t[0],
        t[1],
        TileId::Sand,
        seq![TileId::Dirt, TileId::Stone, TileId::Clay],
        any_row(),
        Some(spec_sand_limits(p, surface)),
        all_on_the_way(d.sand@),
    )
    &&& greened(t[1], t[2], p.tree_min_separation as int, d.first_gap, d.flora@)
    &&& only_brings(t[1], t[2], greens())
    &&& t[3] == unsettled(t[2]).rounds(rounds).grid
    &&& settles_in(unsettled(t[2]), rounds)
    &&& only_hardens(t[2], t[3])
}

/// Dresses laid ground: sand not far below the surface that the ground was
/// laid with, grass and trees, then a last settling of the liquids. Returns
/// the rounds that the settling took; below the cap no liquid can move any
/// more and no water touches lava.
pub fn dress(
    world: &mut World,
    params: &GenParams,
    surface: &Vec<u32>,
    draws: &DressDraws,
) -> (rounds: u32)
    requires
        old(world).wf(),
        surface.len() == old(world).width,
        draws.flora.len() >= old(world).width,
    ensures
        final(world).wf(),
        final(world).width == old(world).width,
        final(world).height == old(world).height,
        final(world).spawn == old(world).spawn,
        exists|t: Seq<Grid>|
            {
                &&& #[trigger] dressed(t, *params, surface@, *draws, rounds as nat)
                &&& t[0] == old(world)@
                &&& t[3] == final(world)@
            },
        rounds < MAX_SETTLE_ROUNDS ==> settled(final(world)@),
{
    let ghost g0 = world@;
    sand_patches(world, params, surface, &draws.sand);
    let ghost g1 = world@;
    grass_and_flora(world, params.tree_min_separation, draws.first_gap, &draws.flora);
    let ghost g2 = world@;
    assert(greened(g1, g2, params.tree_min_separation as int, draws.first_gap, draws.flora@));
    let rounds: u32 = settle(world);
    proof {
        let t = seq![g0, g1, g2, world@];
        assert(dressed(t, *params, surface@, *draws, rounds as nat));
    }
    rounds
}

/// Sand replaces dirt, stone and clay on its way, near the surface; grass then
/// grows on bare dirt, and nothing but grass and trees is new after it.
pub proof fn law_the_world_is_dressed(
    t: Seq<Grid>,
    p: GenParams,
    surface: Seq<u32>,
    d: DressDraws,
    rounds: nat,
    x: int,
    y: int,
)
    requires
        dressed(t, p, surface, d, rounds),
        t[0].inside(x, y),
        surface.len() == t[0].width,
    ensures
        t[1].at(x, y).id != t[0].at(x, y).id ==> t[1].at(x, y).id == TileId::Sand && (t[0].at(
            x,
            y,
        ).id == TileId::Dirt || t[0].at(x, y).id == TileId::Stone || t[0].at(x, y).id
            == TileId::Clay),
        t[1].at(x, y).id == TileId::Sand && t[0].at(x, y).id != TileId::Sand ==> all_on_the_way(
            d.sand@,
        ).contains((x as u32, y as u32)) && y < spec_sand_limits(p, surface)[x],
        t[2].at(x, y).id != t[1].at(x, y).id ==> t[2].at(x, y).id == TileId::Grass || t[2].at(
            x,
            y,
        ).id == TileId::TreeTrunk,
        t[3].at(x, y).id != t[2].at(x, y).id ==> t[3].at(x, y).id == TileId::Obsidian,
{
    let bed = seq![TileId::Dirt, TileId::Stone, TileId::Clay];
    assert forall|id: TileId| #[trigger] bed.contains(id) implies id == TileId::Dirt || id
        == TileId::Stone || id == TileId::Clay by {}
    assert(t[1].inside(x, y) && t[1].at(x, y) == t[1].at(x, y));
    assert(t[2].inside(x, y) && t[2].at(x, y) == t[2].at(x, y));
    assert(t[3].at(x, y) == t[3].at(x, y));
}

/// A world is made in twelve passes, each with its name.
pub proof fn law_passes_have_names(n: usize)
    ensures
        spec_pass_name(n) is Some <==> 1 <= n <= 12,
        1 <= n <= 12 ==> spec_pass_name(n) == Some(
            seq![
                "surface heightmap"@,
                "stone/dirt blobs"@,
                "clay"@,
                "caves (TileRunner)"@,
                "smoothing (CA)"@,
                "ore veins"@,
                "fluid pockets + settle"@,
                "sand patches"@,
                "grass & flora"@,
                "obsidian (settle check)"@,
                "structures"@,
                "spawn point"@,
            ][n - 1],
        ),
{
}

} // verus!
