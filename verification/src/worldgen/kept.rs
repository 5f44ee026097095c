//! What the late passes leave alone: they bring a few kinds of foreground, and
//! no liquid.

use vstd::prelude::*;

use crate::grid::{
    group_grid, lemma_only_brings_all, lemma_only_brings_twice, only_brings, Grid,
};
use crate::item::InvSlot;
use crate::tile::TileId;
use crate::worldgen::params::GenParams;
use crate::worldgen::scatter::{
    adorned, chest_size, inner, law_ornaments_take_their_ground, pockets_webbed, put_down,
    ruin_raised, ruin_step, ruins_rise, ruins_stand, stands, stood, surface_stands, surface_stood,
    surveyed, web_run, Ornament, WebSeed,
};
use crate::worldgen::spawn::spawn_picked;
use crate::worldgen::structures::{
    cluster_cell, cluster_grid, cluster_hit, furnished, ruin_built, ruin_site, shell_built,
    webbable,
};

verus! {

/// The foregrounds that structures and the start of the world are made of.
pub open spec fn built() -> Set<TileId> {
    set![
        TileId::Air,
        TileId::Dirt,
        TileId::Grass,
        TileId::EmberBrick,
        TileId::InfernalForge,
        TileId::Chest,
        TileId::RitualAltar,
        TileId::LifeCrystal,
        TileId::Pot,
        TileId::Cobweb,
    ]
}

/// Objects on cave floors.
pub proof fn lemma_stood_kept(
    before: Grid,
    after: Grid,
    spots: Seq<Option<(u32, u32)>>,
    requests: Seq<Vec<Vec<(u32, u32)>>>,
    id: TileId,
    size: (u32, u32),
    spacing: int,
)
    requires
        stood(before, after, spots, requests, id, size, spacing),
        built().contains(id),
    ensures
        only_brings(before, after, built()),
{
    let trail = choose|trail: Seq<Grid>|
        {
            &&& #[trigger] stands(trail, spots, requests, id, size, spacing)
            &&& trail[0] == before
            &&& trail[spots.len() as int] == after
        };
    assert forall|i: int| 0 <= i < spots.len() implies only_brings(
        #[trigger] trail[i],
        trail[i + 1],
        built(),
    ) by {
        assert(spots[i] == spots[i]);
        lemma_put_down_kept(trail[i], trail[i + 1], id, size, spots[i]);
    }
    lemma_only_brings_all(trail, spots.len() as int, built());
}

proof fn lemma_put_down_kept(
    before: Grid,
    after: Grid,
    id: TileId,
    size: (u32, u32),
    spot: Option<(u32, u32)>,
)
    requires
        put_down(before, after, id, size, spot),
        built().contains(id),
    ensures
        only_brings(before, after, built()),
{
}

/// Chests near the surface.
pub proof fn lemma_surface_stood_kept(
    before: Grid,
    after: Grid,
    spots: Seq<Option<(u32, u32)>>,
    requests: Seq<Vec<u32>>,
    surface: Seq<u32>,
    limit: int,
)
    requires
        surface_stood(before, after, spots, requests, surface, limit),
    ensures
        only_brings(before, after, built()),
{
    let trail = choose|trail: Seq<Grid>|
        {
            &&& #[trigger] surface_stands(trail, spots, requests, surface, limit)
            &&& trail[0] == before
            &&& trail[spots.len() as int] == after
        };
    assert forall|i: int| 0 <= i < spots.len() implies only_brings(
        #[trigger] trail[i],
        trail[i + 1],
        built(),
    ) by {
        assert(spots[i] == spots[i]);
        lemma_put_down_kept(trail[i], trail[i + 1], TileId::Chest, chest_size(), spots[i]);
    }
    lemma_only_brings_all(trail, spots.len() as int, built());
}

/// Crystals and pots.
pub proof fn lemma_adorned_kept(
    g: Grid,
    what: Ornament,
    requests: Seq<Vec<(u32, u32)>>,
)
    requires
        g.wf(),
        adorned(g, what, requests, requests.len()).width == g.width,
        adorned(g, what, requests, requests.len()).height == g.height,
        forall|i: int, j: int|
            0 <= i < requests.len() && 0 <= j < requests[i].len() ==> inner(
                g,
                #[trigger] requests[i]@[j],
            ),
    ensures
        only_brings(g, adorned(g, what, requests, requests.len()), built()),
{
    let after = adorned(g, what, requests, requests.len());
    assert forall|x: int, y: int|
        #![trigger after.at(x, y)]
        g.inside(x, y) implies (after.at(x, y).id == g.at(x, y).id || built().contains(
        after.at(x, y).id,
    )) && after.at(x, y).liquid == g.at(x, y).liquid by {
        law_ornaments_take_their_ground(g, what, requests, requests.len(), x, y);
    }
}

proof fn lemma_furnished_kept(
    before: Grid,
    after: Grid,
    id: TileId,
    x: int,
    y: int,
    w: int,
    h: int,
)
    requires
        furnished(before, after, id, x, y, w, h),
        built().contains(id),
    ensures
        only_brings(before, after, built()),
{
}

proof fn lemma_shell_kept(before: Grid, after: Grid, x0: int, base: int, w: int, h: int)
    requires
        shell_built(before, after, x0, base, w, h),
    ensures
        only_brings(before, after, built()),
{
}

proof fn lemma_ruin_kept(
    before: Grid,
    after: Grid,
    p: GenParams,
    forge: (u32, u32),
    xs: Seq<u32>,
    chests: Map<(u32, u32), Seq<Option<InvSlot>>>,
    after_chests: Map<(u32, u32), Seq<Option<InvSlot>>>,
    loot: Seq<Option<InvSlot>>,
)
    requires
        ruin_step(before, after, p, forge, xs, chests, after_chests, loot),
    ensures
        only_brings(before, after, built()),
{
    let found = choose|found: Seq<(u32, Option<u32>)>|
        {
            &&& #[trigger] surveyed(before, p, xs, found)
            &&& ruin_raised(before, after, p, forge, found, chests, after_chests, loot)
        };
    match ruin_site(p, found, found.len() as int) {
        Some((x0, base)) => {
            let (shell, forged) = choose|shell: Grid, forged: Grid| #[trigger]
                ruin_built(
                    before,
                    shell,
                    forged,
                    after,
                    x0 as int,
                    base as int,
                    p.ruin_size,
                    forge,
                );
            let (w, h) = (p.ruin_size.0 as int, p.ruin_size.1 as int);
            lemma_shell_kept(before, shell, x0 as int, base as int, w, h);
            lemma_furnished_kept(
                shell,
                forged,
                TileId::InfernalForge,
                x0 + 1,
                base - 2,
                forge.0 as int,
                forge.1 as int,
            );
            lemma_furnished_kept(forged, after, TileId::Chest, x0 + w - 3, base - 2, 2, 2);
            lemma_only_brings_twice(before, shell, forged, built());
            lemma_only_brings_twice(before, forged, after, built());
        },
        None => {},
    }
}

/// The ruins of the underworld.
pub proof fn lemma_ruins_kept(
    before: Grid,
    after: Grid,
    chests: Map<(u32, u32), Seq<Option<InvSlot>>>,
    after_chests: Map<(u32, u32), Seq<Option<InvSlot>>>,
    p: GenParams,
    forge: (u32, u32),
    draws: Seq<Vec<u32>>,
    loots: Seq<Vec<Option<InvSlot>>>,
)
    requires
        ruins_stand(before, after, chests, after_chests, p, forge, draws, loots),
    ensures
        only_brings(before, after, built()),
{
    if p.width >= p.ruin_size.0 + 4 {
        let n = draws.len() as int;
        let (worlds, stores) = choose|
            worlds: Seq<Grid>,
            stores: Seq<Map<(u32, u32), Seq<Option<InvSlot>>>>,
        |
            {
                &&& #[trigger] ruins_rise(worlds, stores, p, forge, draws, loots, n)
                &&& worlds[0] == before
                &&& stores[0] == chests
                &&& worlds[n] == after
                &&& stores[n] == after_chests
            };
        assert forall|i: int| 0 <= i < n implies only_brings(
            #[trigger] worlds[i],
            worlds[i + 1],
            built(),
        ) by {
            lemma_ruin_kept(
                worlds[i],
                worlds[i + 1],
                p,
                forge,
                draws[i]@,
                stores[i],
                stores[i + 1],
                loots[i]@,
            );
        }
        lemma_only_brings_all(worlds, n, built());
    }
}

/// Small pockets full of cobwebs.
pub proof fn lemma_pockets_webbed_kept(
    before: Grid,
    after: Grid,
    p: GenParams,
    label: Seq<u32>,
    fill: Seq<bool>,
)
    requires
        pockets_webbed(before, after, p, label, fill),
    ensures
        only_brings(before, after, built()),
{
}

proof fn lemma_cluster_kept(g: Grid, x: int, y: int, coins: Seq<bool>, n: nat)
    requires
        g.wf(),
    ensures
        cluster_grid(g, x, y, coins, n).wf(),
        only_brings(g, cluster_grid(g, x, y, coins, n), built()),
    decreases n,
{
    broadcast use group_grid;

    if n > 0 {
        lemma_cluster_kept(g, x, y, coins, (n - 1) as nat);
        let before = cluster_grid(g, x, y, coins, (n - 1) as nat);
        let after = cluster_grid(g, x, y, coins, n);
        let (a, b) = cluster_cell(x, y, n - 1);
        if cluster_hit(before, x, y, coins, n - 1) {
            assert(webbable(before, a, b));
            assert(only_brings(before, after, built()));
            lemma_only_brings_twice(g, before, after, built());
        }
    }
}

/// Cobwebs in nooks.
pub proof fn lemma_web_run_kept(
    g: Grid,
    placed: nat,
    target: nat,
    seeds: Seq<WebSeed>,
    from: int,
)
    requires
        g.wf(),
    ensures
        only_brings(g, web_run(g, placed, target, seeds, from).0, built()),
    decreases seeds.len() - from,
{
    if from < 0 || from >= seeds.len() || placed >= target {
    } else {
        let (x, y, coins) = (seeds[from].x as int, seeds[from].y as int, seeds[from].coins@);
        let m = cluster_grid(g, x, y, coins, 7);
        let more = crate::worldgen::structures::cluster_count(g, x, y, coins, 7);
        lemma_cluster_kept(g, x, y, coins, 7);
        lemma_web_run_kept(m, placed + more, target, seeds, from + 1);
        lemma_only_brings_twice(
            g,
            m,
            web_run(m, placed + more, target, seeds, from + 1).0,
            built(),
        );
        lemma_web_run_kept(g, placed, target, seeds, from + 1);
    }
}

/// The platform at the start of the world.
pub proof fn lemma_spawn_kept(
    p: GenParams,
    before: Grid,
    chests: Seq<(u32, u32)>,
    surface: Seq<u32>,
    c: int,
    cleared: Grid,
    after: Grid,
    spawn: (u32, u32),
)
    requires
        spawn_picked(p, before, chests, surface, c, cleared, after, spawn),
        after.width == before.width,
        after.height == before.height,
    ensures
        only_brings(before, after, built()),
{
    assert(only_brings(before, cleared, built()));
    assert forall|x: int, y: int|
        #![trigger after.at(x, y)]
        cleared.inside(x, y) implies (after.at(x, y).id == cleared.at(x, y).id || built().contains(
        after.at(x, y).id,
    )) && (after.at(x, y).liquid == cleared.at(x, y).liquid || after.at(x, y).liquid
        == crate::tile::Liquid::Empty) by {
        assert(before.inside(x, y));
    }
    lemma_only_brings_twice(before, cleared, after, built());
}

} // verus!
