//! What holds of a finished world, after all passes.

use vstd::prelude::*;

use crate::chest::ChestStore;
use crate::grid::{lemma_only_brings_twice, only_brings, Grid};
use crate::item::InvSlot;
use crate::sim::fluids::{meets_below, meets_right, only_hardens, settled};
use crate::tile::TileId;
use crate::worldgen::dress::{dressed, DressDraws};
use crate::worldgen::ground::{free_of, ground_laid, law_ores_keep_their_rows, GroundDraws};
use crate::worldgen::hoard::{
    in_slices, law_chests_have_contents, law_spawn_leaves_no_halves, whole,
};
use crate::worldgen::kept::built;
use crate::worldgen::params::GenParams;
use crate::worldgen::pockets::Pockets;
use crate::worldgen::scatter::{passes_run, Passes, StructureDraws};
use crate::worldgen::spawn::{doomed, origins, spawn_picked, spec_candidates};

verus! {

/// The foregrounds that veins are made of.
pub open spec fn is_ore(id: TileId) -> bool {
    ||| id == TileId::CopperOre
    ||| id == TileId::IronOre
    ||| id == TileId::SilverOre
    ||| id == TileId::GoldOre
    ||| id == TileId::Hellstone
}

/// The worlds between the stages of generation: empty, with its ground, with
/// settled liquids, dressed, with structures, and with its start.
pub struct Stages {
    pub ground: Seq<Grid>,
    pub surface: Seq<u32>,
    pub settled: Grid,
    pub dressing: Seq<Grid>,
    pub rounds: nat,
    pub furnished: Grid,
    pub finished: Grid,
}

/// The stages follow on each other.
pub open spec fn generated(s: Stages, p: GenParams, g: GroundDraws, d: DressDraws) -> bool {
    &&& ground_laid(s.ground, p, g, s.surface)
    &&& only_hardens(s.ground[8], s.settled)
    &&& dressed(s.dressing, p, s.surface, d, s.rounds)
    &&& s.dressing[0] == s.settled
    &&& only_brings(s.dressing[3], s.furnished, built())
    &&& only_brings(s.furnished, s.finished, built())
}

/// In a finished world every ore lies within the rows of its table entry.
pub proof fn law_ores_lie_in_their_rows(
    s: Stages,
    p: GenParams,
    g: GroundDraws,
    d: DressDraws,
    ore: TileId,
    x: int,
    y: int,
)
    requires
        generated(s, p, g, d),
        is_ore(ore),
        free_of(s.ground[0], ore),
        s.finished.inside(x, y),
        s.finished.at(x, y).id == ore,
    ensures
        exists|i: int|
            0 <= i < p.ores@.len() && (#[trigger] p.ores@[i]).tile == ore && p.ores@[i].rows.0 <= y
                < p.ores@[i].rows.1,
{
    let (laid, t) = (s.ground[8], s.dressing);
    lemma_only_brings_twice(t[3], s.furnished, s.finished, built());
    assert(t[3].inside(x, y) && t[2].inside(x, y) && t[1].inside(x, y) && t[0].inside(x, y));
    assert(s.finished.at(x, y).id == t[3].at(x, y).id);
    assert(t[3].at(x, y).id == t[2].at(x, y).id);
    assert(t[2].at(x, y).id == t[1].at(x, y).id);
    assert(t[1].at(x, y).id == t[0].at(x, y).id);
    assert(s.settled.at(x, y).id == laid.at(x, y).id);
    law_ores_keep_their_rows(s.ground, p, g, s.surface, ore, x, y);
}

/// In a finished world water and lava touch nowhere, if the liquids came to
/// rest before the structures were built.
pub proof fn law_water_keeps_off_lava(
    s: Stages,
    p: GenParams,
    g: GroundDraws,
    d: DressDraws,
    x: int,
    y: int,
)
    requires
        generated(s, p, g, d),
        settled(s.dressing[3]),
    ensures
        !meets_right(s.finished, x, y),
        !meets_below(s.finished, x, y),
{
    let (rest, end) = (s.dressing[3], s.finished);
    lemma_only_brings_twice(rest, s.furnished, end, built());
    assert forall|a: int, b: int|
        #![trigger end.liquid(a, b)]
        end.liquid(a, b) == rest.liquid(a, b) || end.liquid(a, b) == crate::tile::Liquid::Empty by {
        if end.inside(a, b) {
            assert(end.at(a, b) == end.at(a, b));
        }
    }
    assert(end.liquid(x, y) == end.liquid(x, y));
    assert(end.liquid(x + 1, y) == end.liquid(x + 1, y));
    assert(end.liquid(x, y + 1) == end.liquid(x, y + 1));
    assert(rest.liquid(x, y) == rest.liquid(x, y));
}

/// In a finished world every chest stands whole and has contents, and there
/// are no contents without a chest: those of the structures, less the ones
/// that stood in the way of the spawn platform. Each ruin is drawn in a slice
/// of its own.
pub proof fn law_chests_and_contents_belong_together(
    s: Stages,
    p: GenParams,
    g: GroundDraws,
    d: DressDraws,
    run: Passes,
    pockets: Pockets,
    draws: StructureDraws,
    surface: Seq<u32>,
    cuts: Seq<int>,
    chests: ChestStore,
    c: int,
    cleared: Grid,
    spawn: (u32, u32),
    left: Set<(u32, u32)>,
)
    requires
        generated(s, p, g, d),
        free_of(s.ground[0], TileId::Chest),
        forall|i: int| 0 <= i < p.ores@.len() ==> (#[trigger] p.ores@[i]).tile != TileId::Chest,
        s.dressing[3].width == p.width,
        s.dressing[3].height == p.height,
        p.height >= 4,
        p.underground_chest_rows.0 <= p.height,
        3 <= p.ruin_size.0,
        2 <= p.ruin_size.1,
        run.worlds[0] == s.dressing[3],
        run.worlds[7] == s.furnished,
        passes_run(run, p, pockets, draws, surface, Map::empty(), chests@),
        draws.fit(run.worlds[0], p, pockets),
        in_slices(draws.ruins@, cuts, p.ruin_size.0 as int),
        forall|i: int| 0 <= i < cuts.len() ==> #[trigger] cuts[i] <= u32::MAX,
        chests.wf(),
        exists|surface: Seq<u32>| #[trigger]
            spawn_picked(
                p,
                s.furnished,
                origins(chests),
                surface,
                c,
                cleared,
                s.finished,
                spawn,
            ),
        forall|o: (u32, u32)| #[trigger]
            left.contains(o) <==> chests@.dom().contains(o) && !doomed(
                o,
                c - p.spawn_flat_width / 2,
                c + p.spawn_flat_width / 2,
                spawn.1 + 1,
            ),
    ensures
        whole(s.finished, left),
{
    let (laid, t) = (s.ground[8], s.dressing);
    assert forall|x: int, y: int| t[3].inside(x, y) implies (#[trigger] t[3].at(x, y)).id
        != TileId::Chest by {
        assert(t[2].inside(x, y) && t[1].inside(x, y) && t[0].inside(x, y));
        assert(t[3].at(x, y).id == t[2].at(x, y).id || t[3].at(x, y).id != TileId::Chest);
        assert(t[2].at(x, y).id == t[1].at(x, y).id || t[2].at(x, y).id != TileId::Chest);
        assert(t[1].at(x, y).id == t[0].at(x, y).id || t[1].at(x, y).id != TileId::Chest);
        if s.settled.at(x, y).id == TileId::Chest {
            assert(laid.at(x, y).id == TileId::Chest);
            law_ores_keep_their_rows(s.ground, p, g, s.surface, TileId::Chest, x, y);
        }
    }
    let none = Map::<(u32, u32), Seq<Option<InvSlot>>>::empty();
    assert(whole(t[3], none.dom()));
    law_chests_have_contents(run, p, pockets, draws, surface, none, chests@, cuts);
    let at = choose|surface: Seq<u32>| #[trigger]
        spawn_picked(
            p,
            s.furnished,
            origins(chests),
            surface,
            c,
            cleared,
            s.finished,
            spawn,
        );
    law_spawn_leaves_no_halves(
        p,
        s.furnished,
        chests,
        at,
        c,
        cleared,
        s.finished,
        spawn,
        left,
    );
}

/// The layers and sizes of the parameters leave room for every pass.
pub open spec fn laid_out(p: GenParams) -> bool {
    &&& p.width >= 2
    &&& p.height >= 4
    &&& p.surface_min <= p.surface_max
    &&& 1 <= p.dirt_to_stone
    &&& p.stone_to_ash <= p.height
    &&& p.underground_chest_rows.0 <= p.height
    &&& 3 <= p.ruin_size.0 <= u32::MAX - 4
    &&& 2 <= p.ruin_size.1
    &&& 2 <= p.spawn_flat_width
    &&& p.spawn_flat_width / 2 <= p.width / 2
    &&& p.width / 2 + p.spawn_search_radius <= u32::MAX
    &&& spec_candidates(p).0 <= spec_candidates(p).1
}

/// Whether the parameters leave room for every pass.
pub fn is_laid_out(p: &GenParams) -> (b: bool)
    ensures
        b == laid_out(*p),
{
    if p.width < 2 || p.height < 4 || p.surface_min > p.surface_max || p.dirt_to_stone < 1
        || p.stone_to_ash > p.height || p.underground_chest_rows.0 > p.height || p.ruin_size.0 < 3
        || p.ruin_size.0 > u32::MAX - 4 || p.ruin_size.1 < 2 || p.spawn_flat_width < 2 {
        return false;
    }
    let (center, half): (u32, u32) = (p.width / 2, p.spawn_flat_width / 2);
    if half > center || p.spawn_search_radius > u32::MAX - center {
        return false;
    }
    let lo: u32 = center.saturating_sub(p.spawn_search_radius);
    let hi: u32 = center + p.spawn_search_radius;
    let last: u32 = p.width - half - 1;
    let first: u32 = if lo < half {
        half
    } else {
        lo
    };
    let end: u32 = if hi < last {
        hi
    } else {
        last
    };
    first <= end
}

/// Copper, iron, silver, gold and hellstone are the ores.
pub proof fn law_there_are_five_ores(id: TileId)
    ensures
        is_ore(id) ==> set![
            TileId::CopperOre,
            TileId::IronOre,
            TileId::SilverOre,
            TileId::GoldOre,
            TileId::Hellstone,
        ].contains(id),
        is_ore(TileId::CopperOre) && is_ore(TileId::IronOre) && is_ore(TileId::SilverOre),
        is_ore(TileId::GoldOre) && is_ore(TileId::Hellstone),
{
}

} // verus!
