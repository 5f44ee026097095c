//! Chests and their contents belong together: every chest in a generated
//! world stands whole and has contents, and there are no contents without a
//! chest.

use vstd::prelude::*;

use crate::chest::{lemma_has, lemma_lookup, ChestStore};
use crate::grid::{box_vacant, group_grid, in_box, with_object, Grid};
use crate::item::InvSlot;
use crate::tile::{Tile, TileId};
use crate::worldgen::params::GenParams;
use crate::worldgen::pockets::Pockets;
use crate::worldgen::scatter::{
    adorn_once, adorned, altar_size, chest_size, chosen_spot, column_spot, columns_ok, inner,
    law_ornaments_take_their_ground, lemma_first_chest_floor, lemma_ruin_site,
    lemma_scan_hit_vacant, passes_run, pockets_webbed, requests_ok, ruin_raised, ruin_step,
    ruins_rise, scan_ok, scans_ok, spec_ruin_slice, stands, stocked, surface_stands, surveyed,
    taken, web_run, webbed_regions, webs_spun, Ornament, Passes, StructureDraws, WebSeed,
};
use crate::worldgen::spawn::{
    doomed, leveled_tile, origins, spawn_picked, spec_platform_row, under_doomed, without_chest,
    PLATFORM_FILL,
};
use crate::worldgen::structures::{
    cluster_cell, cluster_count, cluster_grid, cluster_hit, first_chest_floor, furnished,
    open_depth, ruin_built, ruin_site, scan_hit, shell_built, spaced, webbable, webs_before,
};

verus! {

/// The cell of a chest that lies `dx` columns and `dy` rows from its origin.
pub open spec fn chest_part(t: Tile, dx: int, dy: int) -> bool {
    t.id == TileId::Chest && t.state.part_x == dx && t.state.part_y == dy
}

/// A whole chest stands at `o`.
pub open spec fn chest_at(g: Grid, o: (u32, u32)) -> bool {
    forall|a: int, b: int| #[trigger]
        in_box(o.0 as int, o.1 as int, 2, 2, a, b) ==> g.inside(a, b) && chest_part(
            g.at(a, b),
            a - o.0,
            b - o.1,
        )
}

/// The chests of a grid are those at `origins`, all of them whole.
pub open spec fn whole(g: Grid, origins: Set<(u32, u32)>) -> bool {
    &&& forall|o: (u32, u32)| #[trigger] origins.contains(o) ==> chest_at(g, o)
    &&& forall|a: int, b: int|
        g.inside(a, b) && (#[trigger] g.at(a, b)).id == TileId::Chest ==> {
            let s = g.at(a, b).state;
            &&& s.part_x <= 1
            &&& s.part_y <= 1
            &&& s.part_x <= a
            &&& s.part_y <= b
            &&& origins.contains(((a - s.part_x) as u32, (b - s.part_y) as u32))
        }
}

/// Nothing has happened to chests.
pub open spec fn keeps_chests(before: Grid, after: Grid) -> bool {
    &&& after.width == before.width
    &&& after.height == before.height
    &&& forall|a: int, b: int|
        #![trigger after.at(a, b)]
        #![trigger before.at(a, b)]
        before.inside(a, b) && (after.at(a, b).id == TileId::Chest || before.at(a, b).id
            == TileId::Chest) ==> after.at(a, b) == before.at(a, b)
}

pub proof fn lemma_whole_kept(before: Grid, after: Grid, origins: Set<(u32, u32)>)
    requires
        whole(before, origins),
        keeps_chests(before, after),
    ensures
        whole(after, origins),
{
    assert forall|o: (u32, u32)| #[trigger] origins.contains(o) implies chest_at(after, o) by {
        assert(chest_at(before, o));
        assert forall|a: int, b: int| #[trigger]
            in_box(o.0 as int, o.1 as int, 2, 2, a, b) implies after.inside(a, b) && chest_part(
            after.at(a, b),
            a - o.0,
            b - o.1,
        ) by {
            assert(chest_part(before.at(a, b), a - o.0, b - o.1));
        }
    }
    assert forall|a: int, b: int|
        after.inside(a, b) && (#[trigger] after.at(a, b)).id == TileId::Chest implies {
        let s = after.at(a, b).state;
        &&& s.part_x <= 1
        &&& s.part_y <= 1
        &&& s.part_x <= a
        &&& s.part_y <= b
        &&& origins.contains(((a - s.part_x) as u32, (b - s.part_y) as u32))
    } by {
        assert(before.at(a, b) == after.at(a, b));
    }
}

pub proof fn lemma_kept_twice(f: Grid, g: Grid, h: Grid)
    requires
        keeps_chests(f, g),
        keeps_chests(g, h),
    ensures
        keeps_chests(f, h),
{
    assert forall|a: int, b: int|
        #![trigger h.at(a, b)]
        #![trigger f.at(a, b)]
        f.inside(a, b) && (h.at(a, b).id == TileId::Chest || f.at(a, b).id
            == TileId::Chest) implies h.at(a, b) == f.at(a, b) by {
        assert(g.inside(a, b));
        assert(g.at(a, b) == g.at(a, b));
    }
}

/// A chest put down where there was nothing.
pub proof fn lemma_whole_more(before: Grid, after: Grid, origins: Set<(u32, u32)>, o: (u32, u32))
    requires
        whole(before, origins),
        with_object(before, after, TileId::Chest, o.0 as int, o.1 as int, 2, 2),
        box_vacant(before, o.0 as int, o.1 as int, 2, 2),
    ensures
        whole(after, origins.insert(o)),
{
    assert forall|c: (u32, u32)| #[trigger] origins.insert(o).contains(c) implies chest_at(
        after,
        c,
    ) by {
        assert forall|a: int, b: int| #[trigger]
            in_box(c.0 as int, c.1 as int, 2, 2, a, b) implies after.inside(a, b) && chest_part(
            after.at(a, b),
            a - c.0,
            b - c.1,
        ) by {
            if c == o {
                assert(before.vacant(a, b));
                assert(after.at(a, b) == after.at(a, b));
            } else {
                assert(chest_at(before, c));
                assert(chest_part(before.at(a, b), a - c.0, b - c.1));
                assert(!in_box(o.0 as int, o.1 as int, 2, 2, a, b)) by {
                    if in_box(o.0 as int, o.1 as int, 2, 2, a, b) {
                        assert(before.vacant(a, b));
                    }
                }
                assert(after.at(a, b) == before.at(a, b));
            }
        }
    }
    assert forall|a: int, b: int|
        after.inside(a, b) && (#[trigger] after.at(a, b)).id == TileId::Chest implies {
        let s = after.at(a, b).state;
        &&& s.part_x <= 1
        &&& s.part_y <= 1
        &&& s.part_x <= a
        &&& s.part_y <= b
        &&& origins.insert(o).contains(((a - s.part_x) as u32, (b - s.part_y) as u32))
    } by {
        assert(before.inside(a, b));
        if !in_box(o.0 as int, o.1 as int, 2, 2, a, b) {
            assert(after.at(a, b) == before.at(a, b));
        }
    }
}

/// Something else put down where there was nothing.
proof fn lemma_other_object(
    before: Grid,
    after: Grid,
    id: TileId,
    x: int,
    y: int,
    w: int,
    h: int,
)
    requires
        with_object(before, after, id, x, y, w, h),
        box_vacant(before, x, y, w, h),
        id != TileId::Chest,
    ensures
        keeps_chests(before, after),
{
    assert forall|a: int, b: int|
        #![trigger after.at(a, b)]
        #![trigger before.at(a, b)]
        before.inside(a, b) && (after.at(a, b).id == TileId::Chest || before.at(a, b).id
            == TileId::Chest) implies after.at(a, b) == before.at(a, b) by {
        if in_box(x, y, w, h, a, b) {
            assert(before.vacant(a, b));
        }
    }
}

proof fn lemma_chosen_vacant(
    g: Grid,
    scans: Seq<Vec<(u32, u32)>>,
    placed: Seq<(u32, u32)>,
    spacing: int,
    size: (u32, u32),
    from: int,
)
    requires
        scans_ok(g, scans, size.0 as int),
        chosen_spot(g, scans, placed, spacing, size, from) is Some,
    ensures
        ({
            let s = chosen_spot(g, scans, placed, spacing, size, from)->Some_0;
            box_vacant(g, s.0 as int, s.1 as int, size.0 as int, size.1 as int)
        }),
    decreases scans.len() - from,
{
    if from < 0 || from >= scans.len() {
    } else {
        assert(scan_ok(g, scans[from]@, size.0 as int));
        match scan_hit(g, scans[from]@, size.0, size.1, 0) {
            Some(s) if spaced(placed, s, spacing) => {
                lemma_scan_hit_vacant(g, scans[from]@, size.0, size.1, 0);
            },
            _ => {
                lemma_chosen_vacant(g, scans, placed, spacing, size, from + 1);
            },
        }
    }
}

proof fn lemma_column_vacant(
    g: Grid,
    surface: Seq<u32>,
    limit: int,
    columns: Seq<u32>,
    from: int,
)
    requires
        columns_ok(g, columns),
        limit <= g.height,
        limit <= u32::MAX,
        column_spot(g, surface, limit, columns, from) is Some,
    ensures
        ({
            let s = column_spot(g, surface, limit, columns, from)->Some_0;
            box_vacant(g, s.0 as int, s.1 as int, 2, 2)
        }),
    decreases columns.len() - from,
{
    if from < 0 || from >= columns.len() {
    } else {
        let x = columns[from];
        match first_chest_floor(g, x as int, surface[x as int] as int, limit) {
            Some(f) => {
                lemma_first_chest_floor(g, x as int, surface[x as int] as int, limit);
            },
            None => {
                lemma_column_vacant(g, surface, limit, columns, from + 1);
            },
        }
    }
}

/// Underground chests.
proof fn lemma_stands_whole(
    trail: Seq<Grid>,
    spots: Seq<Option<(u32, u32)>>,
    requests: Seq<Vec<Vec<(u32, u32)>>>,
    spacing: int,
    m: Map<(u32, u32), Seq<Option<InvSlot>>>,
    loots: Seq<Vec<Option<InvSlot>>>,
    n: int,
)
    requires
        stands(trail, spots, requests, TileId::Chest, chest_size(), spacing),
        0 <= n <= spots.len(),
        spots.len() == requests.len(),
        requests_ok(trail[0], requests, 2),
        whole(trail[0], m.dom()),
    ensures
        trail[n].width == trail[0].width,
        trail[n].height == trail[0].height,
        whole(trail[n], stocked(m, spots, loots, n).dom()),
    decreases n,
{
    if n > 0 {
        lemma_stands_whole(trail, spots, requests, spacing, m, loots, n - 1);
        let (g, h) = (trail[n - 1], trail[n - 1 + 1]);
        assert(spots[n - 1] == spots[n - 1]);
        assert(scans_ok(trail[0], requests[n - 1]@, 2));
        assert(scans_ok(g, requests[n - 1]@, 2)) by {
            assert forall|i: int| 0 <= i < requests[n - 1]@.len() implies scan_ok(
                g,
                (#[trigger] requests[n - 1]@[i])@,
                2,
            ) by {
                assert(scan_ok(trail[0], requests[n - 1]@[i]@, 2));
            }
        }
        let before = stocked(m, spots, loots, n - 1);
        match spots[n - 1] {
            Some(s) => {
                lemma_chosen_vacant(
                    g,
                    requests[n - 1]@,
                    taken(spots, n - 1),
                    spacing,
                    chest_size(),
                    0,
                );
                lemma_whole_more(g, h, before.dom(), s);
                assert(stocked(m, spots, loots, n).dom() =~= before.dom().insert(s));
            },
            None => {},
        }
    }
}

/// Surface chests.
proof fn lemma_surface_stands_whole(
    trail: Seq<Grid>,
    spots: Seq<Option<(u32, u32)>>,
    requests: Seq<Vec<u32>>,
    surface: Seq<u32>,
    limit: int,
    m: Map<(u32, u32), Seq<Option<InvSlot>>>,
    loots: Seq<Vec<Option<InvSlot>>>,
    n: int,
)
    requires
        surface_stands(trail, spots, requests, surface, limit),
        0 <= n <= spots.len(),
        spots.len() == requests.len(),
        limit <= trail[0].height,
        limit <= u32::MAX,
        forall|i: int|
            0 <= i < requests.len() ==> columns_ok(trail[0], (#[trigger] requests[i])@),
        whole(trail[0], m.dom()),
    ensures
        trail[n].width == trail[0].width,
        trail[n].height == trail[0].height,
        whole(trail[n], stocked(m, spots, loots, n).dom()),
    decreases n,
{
    if n > 0 {
        lemma_surface_stands_whole(trail, spots, requests, surface, limit, m, loots, n - 1);
        let (g, h) = (trail[n - 1], trail[n - 1 + 1]);
        assert(spots[n - 1] == spots[n - 1]);
        assert(columns_ok(trail[0], requests[n - 1]@));
        let before = stocked(m, spots, loots, n - 1);
        match spots[n - 1] {
            Some(s) => {
                lemma_column_vacant(g, surface, limit, requests[n - 1]@, 0);
                lemma_whole_more(g, h, before.dom(), s);
                assert(stocked(m, spots, loots, n).dom() =~= before.dom().insert(s));
            },
            None => {},
        }
    }
}

/// Altars leave chests alone.
proof fn lemma_altars_kept(
    trail: Seq<Grid>,
    spots: Seq<Option<(u32, u32)>>,
    requests: Seq<Vec<Vec<(u32, u32)>>>,
    n: int,
)
    requires
        stands(trail, spots, requests, TileId::RitualAltar, altar_size(), 0),
        0 <= n <= spots.len(),
        spots.len() == requests.len(),
        requests_ok(trail[0], requests, 3),
    ensures
        keeps_chests(trail[0], trail[n]),
    decreases n,
{
    if n > 0 {
        lemma_altars_kept(trail, spots, requests, n - 1);
        let (g, h) = (trail[n - 1], trail[n - 1 + 1]);
        assert(spots[n - 1] == spots[n - 1]);
        assert(scans_ok(trail[0], requests[n - 1]@, 3));
        assert(scans_ok(g, requests[n - 1]@, 3)) by {
            assert forall|i: int| 0 <= i < requests[n - 1]@.len() implies scan_ok(
                g,
                (#[trigger] requests[n - 1]@[i])@,
                3,
            ) by {
                assert(scan_ok(trail[0], requests[n - 1]@[i]@, 3));
            }
        }
        match spots[n - 1] {
            Some(s) => {
                lemma_chosen_vacant(g, requests[n - 1]@, taken(spots, n - 1), 0, altar_size(), 0);
                lemma_other_object(
                    g,
                    h,
                    TileId::RitualAltar,
                    s.0 as int,
                    s.1 as int,
                    altar_size().0 as int,
                    altar_size().1 as int,
                );
                lemma_kept_twice(trail[0], g, h);
            },
            None => {},
        }
    }
}

/// Crystals and pots leave chests alone.
proof fn lemma_adorned_keeps(g: Grid, what: Ornament, requests: Seq<Vec<(u32, u32)>>, after: Grid)
    requires
        g.wf(),
        after == adorned(g, what, requests, requests.len()),
        after.width == g.width,
        after.height == g.height,
        forall|i: int, j: int|
            0 <= i < requests.len() && 0 <= j < requests[i].len() ==> inner(
                g,
                #[trigger] requests[i]@[j],
            ),
    ensures
        keeps_chests(g, after),
{
    assert forall|a: int, b: int|
        #![trigger after.at(a, b)]
        #![trigger g.at(a, b)]
        g.inside(a, b) && (after.at(a, b).id == TileId::Chest || g.at(a, b).id
            == TileId::Chest) implies after.at(a, b) == g.at(a, b) by {
        law_ornaments_take_their_ground(g, what, requests, requests.len(), a, b);
    }
}

proof fn lemma_cluster_keeps(g: Grid, x: int, y: int, coins: Seq<bool>, n: nat)
    requires
        g.wf(),
    ensures
        cluster_grid(g, x, y, coins, n).wf(),
        keeps_chests(g, cluster_grid(g, x, y, coins, n)),
    decreases n,
{
    broadcast use group_grid;

    if n > 0 {
        lemma_cluster_keeps(g, x, y, coins, (n - 1) as nat);
        let before = cluster_grid(g, x, y, coins, (n - 1) as nat);
        let after = cluster_grid(g, x, y, coins, n);
        let (a, b) = cluster_cell(x, y, n - 1);
        if cluster_hit(before, x, y, coins, n - 1) {
            assert(webbable(before, a, b));
            assert(keeps_chests(before, after));
            lemma_kept_twice(g, before, after);
        }
    }
}

proof fn lemma_web_run_keeps(
    g: Grid,
    placed: nat,
    target: nat,
    seeds: Seq<WebSeed>,
    from: int,
)
    requires
        g.wf(),
    ensures
        keeps_chests(g, web_run(g, placed, target, seeds, from).0),
    decreases seeds.len() - from,
{
    if from < 0 || from >= seeds.len() || placed >= target {
    } else {
        let (x, y, coins) = (seeds[from].x as int, seeds[from].y as int, seeds[from].coins@);
        let m = cluster_grid(g, x, y, coins, 7);
        let more = cluster_count(g, x, y, coins, 7);
        lemma_cluster_keeps(g, x, y, coins, 7);
        lemma_web_run_keeps(m, placed + more, target, seeds, from + 1);
        lemma_kept_twice(g, m, web_run(m, placed + more, target, seeds, from + 1).0);
        lemma_web_run_keeps(g, placed, target, seeds, from + 1);
    }
}

/// Cobwebs leave chests alone.
proof fn lemma_webs_keep(
    before: Grid,
    after: Grid,
    n: nat,
    p: GenParams,
    pockets: Pockets,
    coins: Seq<bool>,
    seeds: Seq<WebSeed>,
)
    requires
        webs_spun(before, after, n, p, pockets, coins, seeds),
    ensures
        keeps_chests(before, after),
{
    let fill = webbed_regions(p, pockets, coins);
    let count = webs_before(p, before, pockets.label@, fill, before.cells.len()) as nat;
    let m = choose|m: Grid|
        {
            &&& #[trigger] pockets_webbed(before, m, p, pockets.label@, fill)
            &&& m.wf()
            &&& (after, n) == web_run(m, count, p.cobweb_target as nat, seeds, 0)
        };
    assert(keeps_chests(before, m));
    lemma_web_run_keeps(m, count, p.cobweb_target as nat, seeds, 0);
    lemma_kept_twice(before, m, after);
}

/// All chests stand left of column `c`.
pub open spec fn chests_left_of(g: Grid, c: int) -> bool {
    forall|a: int, b: int|
        g.inside(a, b) && (#[trigger] g.at(a, b)).id == TileId::Chest ==> a < c
}

/// The ruins drawn lie in slices of the world, one slice each.
pub open spec fn in_slices(draws: Seq<Vec<u32>>, cuts: Seq<int>, width: int) -> bool {
    &&& cuts.len() == draws.len() + 1
    &&& forall|i: int| 0 <= i < draws.len() ==> #[trigger] cuts[i] <= cuts[i + 1]
    &&& forall|i: int, j: int|
        0 <= i < draws.len() && 0 <= j < draws[i].len() ==> cuts[i] <= #[trigger] draws[i]@[j]
            && draws[i]@[j] + width <= cuts[i + 1]
}

/// Draws from the range of each ruin lie in slices, where a slice has room
/// for a ruin and two columns on either side.
pub proof fn law_ranges_part_ruins(p: GenParams, draws: Seq<Vec<u32>>)
    requires
        0 < p.ruins,
        draws.len() <= p.ruins,
        p.ruin_size.0 + 4 <= p.width / p.ruins,
        forall|i: int, j: int|
            0 <= i < draws.len() && 0 <= j < draws[i].len() ==> spec_ruin_slice(p, i).0
                <= #[trigger] draws[i]@[j] < spec_ruin_slice(p, i).1,
    ensures
        in_slices(
            draws,
            Seq::new(draws.len() + 1, |i: int| i * (p.width as int / p.ruins as int)),
            p.ruin_size.0 as int,
        ),
{
    let slice = p.width as int / p.ruins as int;
    let cuts = Seq::new(draws.len() + 1, |i: int| i * slice);
    assert forall|i: int| 0 <= i < draws.len() implies #[trigger] cuts[i] <= cuts[i + 1] by {
        assert((i + 1) * slice == i * slice + slice) by (nonlinear_arith);
    }
    assert forall|i: int, j: int|
        0 <= i < draws.len() && 0 <= j < draws[i].len() implies cuts[i] <= #[trigger] draws[i]@[j]
        && draws[i]@[j] + p.ruin_size.0 <= cuts[i + 1] by {
        assert((i + 1) * slice == i * slice + slice) by (nonlinear_arith);
        assert((i + 1) * slice <= p.width) by (nonlinear_arith)
            requires
                i + 1 <= p.ruins,
                0 < p.ruins,
                slice == p.width as int / p.ruins as int,
        ;
    }
}

proof fn lemma_ruin_whole(
    before: Grid,
    after: Grid,
    p: GenParams,
    forge: (u32, u32),
    xs: Seq<u32>,
    chests: Map<(u32, u32), Seq<Option<InvSlot>>>,
    after_chests: Map<(u32, u32), Seq<Option<InvSlot>>>,
    loot: Seq<Option<InvSlot>>,
    lo: int,
    hi: int,
)
    requires
        ruin_step(before, after, p, forge, xs, chests, after_chests, loot),
        whole(before, chests.dom()),
        chests_left_of(before, lo),
        lo <= hi,
        3 <= p.ruin_size.0,
        2 <= p.ruin_size.1,
        forall|j: int|
            0 <= j < xs.len() ==> lo <= #[trigger] xs[j] && xs[j] + p.ruin_size.0 <= hi,
        hi <= u32::MAX,
    ensures
        whole(after, after_chests.dom()),
        chests_left_of(after, hi),
        after.width == before.width,
        after.height == before.height,
{
    let found = choose|found: Seq<(u32, Option<u32>)>|
        {
            &&& #[trigger] surveyed(before, p, xs, found)
            &&& ruin_raised(before, after, p, forge, found, chests, after_chests, loot)
        };
    match ruin_site(p, found, found.len() as int) {
        Some((x0, base)) => {
            lemma_ruin_site(p, found, found.len() as int);
            let k = choose|k: int| 0 <= k < found.len() && (#[trigger] found[k]).0 == x0;
            assert(found[k].0 == xs[k]);
            assert(lo <= xs[k] && xs[k] + p.ruin_size.0 <= hi);
            let (w, h) = (p.ruin_size.0 as int, p.ruin_size.1 as int);
            let (shell, forged) = choose|shell: Grid, forged: Grid|
                {
                    &&& #[trigger] ruin_built(
                        before,
                        shell,
                        forged,
                        after,
                        x0 as int,
                        base as int,
                        p.ruin_size,
                        forge,
                    )
                    &&& after_chests == (if box_vacant(forged, x0 + w - 3, base - 2, 2, 2) {
                        chests.insert(((x0 + w - 3) as u32, (base - 2) as u32), loot)
                    } else {
                        chests
                    })
                };
            lemma_shell_keeps(before, shell, x0 as int, base as int, w, h, lo);
            lemma_whole_kept(before, shell, chests.dom());
            if box_vacant(shell, x0 + 1, base - 2, forge.0 as int, forge.1 as int) {
                lemma_other_object(
                    shell,
                    forged,
                    TileId::InfernalForge,
                    x0 + 1,
                    base - 2,
                    forge.0 as int,
                    forge.1 as int,
                );
            }
            lemma_whole_kept(shell, forged, chests.dom());
            lemma_kept_twice(before, shell, forged);
            let o = ((x0 + w - 3) as u32, (base - 2) as u32);
            assert(o.0 == x0 + w - 3 && o.1 == base - 2);
            assert(furnished(forged, after, TileId::Chest, x0 + w - 3, base - 2, 2, 2));
            if box_vacant(forged, x0 + w - 3, base - 2, 2, 2) {
                lemma_whole_more(forged, after, chests.dom(), o);
                assert(after_chests.dom() =~= chests.dom().insert(o));
            }
            assert forall|a: int, b: int|
                after.inside(a, b) && (#[trigger] after.at(a, b)).id == TileId::Chest implies a
                < hi by {
                if !in_box(x0 + w - 3, base - 2, 2, 2, a, b) {
                    assert(forged.at(a, b) == after.at(a, b));
                    assert(before.at(a, b) == forged.at(a, b));
                }
            }
        },
        None => {},
    }
}

/// The shell of a ruin right of all chests leaves them alone.
proof fn lemma_shell_keeps(
    before: Grid,
    after: Grid,
    x0: int,
    base: int,
    w: int,
    h: int,
    lo: int,
)
    requires
        shell_built(before, after, x0, base, w, h),
        chests_left_of(before, lo),
        lo <= x0,
    ensures
        keeps_chests(before, after),
{
    assert forall|a: int, b: int|
        #![trigger after.at(a, b)]
        #![trigger before.at(a, b)]
        before.inside(a, b) && (after.at(a, b).id == TileId::Chest || before.at(a, b).id
            == TileId::Chest) implies after.at(a, b) == before.at(a, b) by {
        assert(after.at(a, b) == after.at(a, b));
    }
}

proof fn lemma_ruins_whole(
    worlds: Seq<Grid>,
    stores: Seq<Map<(u32, u32), Seq<Option<InvSlot>>>>,
    p: GenParams,
    forge: (u32, u32),
    draws: Seq<Vec<u32>>,
    loots: Seq<Vec<Option<InvSlot>>>,
    cuts: Seq<int>,
    n: int,
)
    requires
        ruins_rise(worlds, stores, p, forge, draws, loots, draws.len() as int),
        in_slices(draws, cuts, p.ruin_size.0 as int),
        0 <= n <= draws.len(),
        3 <= p.ruin_size.0,
        2 <= p.ruin_size.1,
        whole(worlds[0], stores[0].dom()),
        chests_left_of(worlds[0], cuts[0]),
        forall|i: int| 0 <= i < cuts.len() ==> #[trigger] cuts[i] <= u32::MAX,
    ensures
        whole(worlds[n], stores[n].dom()),
        chests_left_of(worlds[n], cuts[n]),
        worlds[n].width == worlds[0].width,
        worlds[n].height == worlds[0].height,
    decreases n,
{
    if n > 0 {
        lemma_ruins_whole(worlds, stores, p, forge, draws, loots, cuts, n - 1);
        let i = n - 1;
        assert(cuts[i] <= cuts[i + 1]);
        assert(ruin_step(
            worlds[i],
            worlds[i + 1],
            p,
            forge,
            draws[i]@,
            stores[i],
            stores[i + 1],
            loots[i]@,
        ));
        assert forall|j: int| 0 <= j < draws[i]@.len() implies cuts[i] <= #[trigger] draws[i]@[j]
            && draws[i]@[j] + p.ruin_size.0 <= cuts[i + 1] by {}
        lemma_ruin_whole(
            worlds[i],
            worlds[i + 1],
            p,
            forge,
            draws[i]@,
            stores[i],
            stores[i + 1],
            loots[i]@,
            cuts[i],
            cuts[i + 1],
        );
    }
}

/// The structures of a world without chests bring chests and contents
/// together, where every ruin is drawn in a slice of its own.
pub proof fn law_chests_have_contents(
    s: Passes,
    p: GenParams,
    pockets: Pockets,
    d: StructureDraws,
    surface: Seq<u32>,
    chests: Map<(u32, u32), Seq<Option<InvSlot>>>,
    after_chests: Map<(u32, u32), Seq<Option<InvSlot>>>,
    cuts: Seq<int>,
)
    requires
        passes_run(s, p, pockets, d, surface, chests, after_chests),
        d.fit(s.worlds[0], p, pockets),
        p.underground_chest_rows.0 <= s.worlds[0].height,
        3 <= p.ruin_size.0,
        2 <= p.ruin_size.1,
        whole(s.worlds[0], chests.dom()),
        in_slices(d.ruins@, cuts, p.ruin_size.0 as int),
        chests_left_of(s.worlds[0], cuts[0]),
        forall|i: int| 0 <= i < cuts.len() ==> #[trigger] cuts[i] <= u32::MAX,
    ensures
        whole(s.worlds[7], after_chests.dom()),
{
    let w = s.worlds;
    // Ruins.
    if p.width >= p.ruin_size.0 + 4 {
        let n = d.ruins@.len() as int;
        let (worlds, stores) = choose|
            worlds: Seq<Grid>,
            stores: Seq<Map<(u32, u32), Seq<Option<InvSlot>>>>,
        |
            {
                &&& #[trigger] ruins_rise(
                    worlds,
                    stores,
                    p,
                    d.forge,
                    d.ruins@,
                    d.ruin_loots@,
                    n,
                )
                &&& worlds[0] == w[0]
                &&& stores[0] == chests
                &&& worlds[n] == w[1]
                &&& stores[n] == s.ruin_chests
            };
        lemma_ruins_whole(worlds, stores, p, d.forge, d.ruins@, d.ruin_loots@, cuts, n);
    }
    assert(whole(w[1], s.ruin_chests.dom()));
    // Underground chests.
    let t = choose|t: Seq<Grid>|
        {
            &&& #[trigger] stands(
                t,
                s.underground_spots,
                d.underground@,
                TileId::Chest,
                chest_size(),
                p.chest_spacing as int,
            )
            &&& t[0] == w[1]
            &&& t[s.underground_spots.len() as int] == w[2]
        };
    lemma_requests_shape(w[0], w[1], d.underground@, 2);
    lemma_stands_whole(
        t,
        s.underground_spots,
        d.underground@,
        p.chest_spacing as int,
        s.ruin_chests,
        d.underground_loots@,
        s.underground_spots.len() as int,
    );
    // Surface chests.
    let limit = p.underground_chest_rows.0 as int;
    let t = choose|t: Seq<Grid>|
        {
            &&& #[trigger] surface_stands(t, s.surface_spots, d.surface@, surface, limit)
            &&& t[0] == w[2]
            &&& t[s.surface_spots.len() as int] == w[3]
        };
    assert forall|i: int| 0 <= i < d.surface@.len() implies columns_ok(
        w[2],
        (#[trigger] d.surface@[i])@,
    ) by {
        assert(columns_ok(w[0], d.surface@[i]@));
    }
    lemma_surface_stands_whole(
        t,
        s.surface_spots,
        d.surface@,
        surface,
        limit,
        s.underground_chests,
        d.surface_loots@,
        s.surface_spots.len() as int,
    );
    assert(whole(w[3], after_chests.dom()));
    // Altars.
    let t = choose|t: Seq<Grid>|
        {
            &&& #[trigger] stands(
                t,
                s.altar_spots,
                d.altars@,
                TileId::RitualAltar,
                altar_size(),
                0,
            )
            &&& t[0] == w[3]
            &&& t[s.altar_spots.len() as int] == w[4]
        };
    lemma_requests_shape(w[0], w[3], d.altars@, 3);
    lemma_altars_kept(t, s.altar_spots, d.altars@, s.altar_spots.len() as int);
    lemma_whole_kept(w[3], w[4], after_chests.dom());
    // Crystals, pots and cobwebs.
    assert(w[4].wf() && w[5].wf());
    lemma_adorned_shape(w[4], Ornament::LifeCrystal, d.crystals@, w[0]);
    lemma_adorned_keeps(w[4], Ornament::LifeCrystal, d.crystals@, w[5]);
    lemma_whole_kept(w[4], w[5], after_chests.dom());
    lemma_adorned_shape(w[5], Ornament::Pot, d.pots@, w[0]);
    lemma_adorned_keeps(w[5], Ornament::Pot, d.pots@, w[6]);
    lemma_whole_kept(w[5], w[6], after_chests.dom());
    lemma_webs_keep(w[6], w[7], s.webs, p, pockets, d.web_coins@, d.web_seeds@);
    lemma_whole_kept(w[6], w[7], after_chests.dom());
}

proof fn lemma_requests_shape(g: Grid, h: Grid, requests: Seq<Vec<Vec<(u32, u32)>>>, w: int)
    requires
        requests_ok(g, requests, w),
        h.width == g.width,
        h.height == g.height,
    ensures
        requests_ok(h, requests, w),
{
    assert forall|i: int| 0 <= i < requests.len() implies scans_ok(
        h,
        (#[trigger] requests[i])@,
        w,
    ) by {
        assert(scans_ok(g, requests[i]@, w));
        assert forall|j: int| 0 <= j < requests[i]@.len() implies scan_ok(
            h,
            (#[trigger] requests[i]@[j])@,
            w,
        ) by {
            assert(scan_ok(g, requests[i]@[j]@, w));
        }
    }
}

/// Scattering keeps the size of the grid.
proof fn lemma_adorned_shape(
    g: Grid,
    what: Ornament,
    requests: Seq<Vec<(u32, u32)>>,
    start: Grid,
)
    requires
        g.wf(),
        g.width == start.width,
        g.height == start.height,
        forall|i: int, j: int|
            0 <= i < requests.len() && 0 <= j < requests[i].len() ==> inner(
                start,
                #[trigger] requests[i]@[j],
            ),
    ensures
        adorned(g, what, requests, requests.len()).width == g.width,
        adorned(g, what, requests, requests.len()).height == g.height,
        forall|i: int, j: int|
            0 <= i < requests.len() && 0 <= j < requests[i].len() ==> inner(
                g,
                #[trigger] requests[i]@[j],
            ),
{
    assert forall|i: int, j: int|
        0 <= i < requests.len() && 0 <= j < requests[i].len() implies inner(
        g,
        #[trigger] requests[i]@[j],
    ) by {
        assert(inner(start, requests[i]@[j]));
    }
    lemma_adorned_same_size(g, what, requests, requests.len());
}

proof fn lemma_adorned_same_size(g: Grid, what: Ornament, requests: Seq<Vec<(u32, u32)>>, n: nat)
    requires
        n <= requests.len(),
    ensures
        adorned(g, what, requests, n).width == g.width,
        adorned(g, what, requests, n).height == g.height,
    decreases n,
{
    if n > 0 {
        lemma_adorned_same_size(g, what, requests, (n - 1) as nat);
        lemma_adorn_same_size(
            adorned(g, what, requests, (n - 1) as nat),
            what,
            requests[n - 1]@,
            0,
        );
    }
}

proof fn lemma_adorn_same_size(g: Grid, what: Ornament, tries: Seq<(u32, u32)>, from: int)
    ensures
        adorn_once(g, what, tries, from).width == g.width,
        adorn_once(g, what, tries, from).height == g.height,
    decreases tries.len() - from,
{
    reveal(Grid::put);
    if from < 0 || from >= tries.len() {
    } else {
        lemma_adorn_same_size(g, what, tries, from + 1);
    }
}

proof fn lemma_depth_limit(g: Grid, x: int, y: int, limit: nat)
    ensures
        open_depth(g, x, y, limit) <= limit,
    decreases limit,
{
    if limit > 0 && 0 <= y < g.height && !g.at(x, y).solid() {
        lemma_depth_limit(g, x, y + 1, (limit - 1) as nat);
    }
}

/// Levelling the spawn platform leaves no contents without a chest and no
/// part of a chest behind: the chests that remain stand whole, and are those
/// that were not in the way.
pub proof fn law_spawn_leaves_no_halves(
    p: GenParams,
    before: Grid,
    chests: ChestStore,
    surface: Seq<u32>,
    c: int,
    cleared: Grid,
    after: Grid,
    spawn: (u32, u32),
    left: Set<(u32, u32)>,
)
    requires
        spawn_picked(p, before, origins(chests), surface, c, cleared, after, spawn),
        chests.wf(),
        p.height >= 4,
        before.width == p.width,
        before.height == p.height,
        after.width == before.width,
        after.height == before.height,
        whole(before, chests@.dom()),
        forall|o: (u32, u32)| #[trigger]
            left.contains(o) <==> chests@.dom().contains(o) && !doomed(
                o,
                c - p.spawn_flat_width / 2,
                c + p.spawn_flat_width / 2,
                spawn.1 + 1,
            ),
    ensures
        whole(after, left),
{
    let all = origins(chests);
    let (x0, x1) = (c - p.spawn_flat_width / 2, c + p.spawn_flat_width / 2);
    let target = spec_platform_row(surface, x0, x1, p.height as int);
    assert(spawn.1 + 1 == target);
    assert forall|k: int| 0 <= k < all.len() implies chests@.dom().contains(
        #[trigger] all[k],
    ) by {
        lemma_lookup(chests.chests@, k);
    }
    assert forall|o: (u32, u32)| #[trigger] left.contains(o) implies chest_at(after, o) by {
        assert(chest_at(before, o));
        assert forall|a: int, b: int| #[trigger]
            in_box(o.0 as int, o.1 as int, 2, 2, a, b) implies after.inside(a, b) && chest_part(
            after.at(a, b),
            a - o.0,
            b - o.1,
        ) by {
            assert(chest_part(before.at(a, b), a - o.0, b - o.1));
            if under_doomed(all, x0, x1, target, a, b) {
                let k = choose|k: int|
                    {
                        &&& 0 <= k < all.len()
                        &&& doomed(#[trigger] all[k], x0, x1, target)
                        &&& in_box(all[k].0 as int, all[k].1 as int, 2, 2, a, b)
                    };
                assert(chest_at(before, all[k]));
                assert(chest_part(before.at(a, b), a - all[k].0, b - all[k].1));
                assert(all[k] == o);
            }
            assert(cleared.at(a, b) == before.at(a, b));
            lemma_depth_limit(cleared, a, target, PLATFORM_FILL as nat);
            assert(after.at(a, b) == leveled_tile(cleared, x0, x1, target, a, b));
        }
    }
    assert forall|a: int, b: int|
        after.inside(a, b) && (#[trigger] after.at(a, b)).id == TileId::Chest implies {
        let s = after.at(a, b).state;
        &&& s.part_x <= 1
        &&& s.part_y <= 1
        &&& s.part_x <= a
        &&& s.part_y <= b
        &&& left.contains(((a - s.part_x) as u32, (b - s.part_y) as u32))
    } by {
        assert(after.at(a, b) == leveled_tile(cleared, x0, x1, target, a, b));
        assert(after.at(a, b) == cleared.at(a, b));
        assert(cleared.at(a, b) == without_chest(before, all, x0, x1, target, a, b));
        assert(before.at(a, b) == after.at(a, b));
        let s = before.at(a, b).state;
        let o = ((a - s.part_x) as u32, (b - s.part_y) as u32);
        assert(chest_at(before, o));
        let i = lemma_has(chests.chests@, o);
        assert(all[i] == o);
        assert(o.0 == a - s.part_x && o.1 == b - s.part_y);
        assert(in_box(o.0 as int, o.1 as int, 2, 2, a, b));
    }
}

} // verus!
