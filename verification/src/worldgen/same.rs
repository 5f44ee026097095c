//! Equal draws make equal worlds: every later pass has one outcome.

use vstd::prelude::*;

use crate::grid::{with_object, Grid};
use crate::item::InvSlot;
use crate::sim::fluids::{lemma_settles_once, settles_in, unsettled};
use crate::tile::TileId;
use crate::worldgen::caves::{is_surface, surface_row};
use crate::worldgen::dress::{dressed, greened, DressDraws};
use crate::worldgen::flora::{flora_run, flora_step, grown_over, FloraRoll, FloraWalk};
use crate::worldgen::fluids_fill::{poured, PocketRoll};
use crate::worldgen::ground::agree;
use crate::worldgen::params::GenParams;
use crate::worldgen::pockets::Pockets;
use crate::worldgen::scatter::{
    altar_size, chest_size, passes_run, pockets_webbed, put_down, ruin_raised, ruin_step,
    ruins_rise, stands, stood, surface_stands, surface_stood, surveyed, taken,
    webbed_regions, Passes, StructureDraws,
};
use crate::worldgen::spawn::spawn_picked;
use crate::worldgen::structures::{
    band_floor, band_top, furnished, ruin_built, ruin_site, shell_built,
};

verus! {

/// Grids that agree in every cell are one grid.
pub proof fn lemma_agree_is_equal(g: Grid, h: Grid)
    requires
        g.wf(),
        h.wf(),
        agree(g, h),
    ensures
        g == h,
{
    reveal(Grid::at);
    assert forall|i: int| 0 <= i < g.cells.len() implies g.cells[i] == h.cells[i] by {
        let w = g.width;
        let (x, y) = (i % w, i / w);
        assert(0 < w && 0 <= i % w < w && i == (i / w) * w + i % w && 0 <= i / w < g.height)
            by (nonlinear_arith)
            requires
                0 <= i < w * g.height,
                0 <= w,
                x == i % w,
                y == i / w,
        ;
        assert(g.inside(x, y));
        assert(g.at(x, y) == h.at(x, y));
    }
    assert(g.cells =~= h.cells);
}

proof fn lemma_same_surface(g: Grid, a: Seq<u32>, b: Seq<u32>)
    requires
        is_surface(g, a),
        is_surface(g, b),
    ensures
        a == b,
{
    assert forall|x: int| 0 <= x < g.width implies a[x] == b[x] by {
        assert(surface_row(g, x, a[x] as int));
        assert(surface_row(g, x, b[x] as int));
        if a[x] < b[x] {
            assert(!g.at(x, a[x] as int).solid());
        } else if b[x] < a[x] {
            assert(!g.at(x, b[x] as int).solid());
        }
    }
    assert(a =~= b);
}

// ---- Filling ---------------------------------------------------------------

/// Equal rolls fill equally, and the settling takes as long.
pub proof fn law_equal_rolls_equal_pools(
    before: Grid,
    p: GenParams,
    pockets: Pockets,
    rolls: Seq<PocketRoll>,
    a: Grid,
    b: Grid,
    m: nat,
    n: nat,
)
    requires
        poured(before, a, p, pockets, rolls),
        poured(before, b, p, pockets, rolls),
        settles_in(unsettled(a), m),
        settles_in(unsettled(b), n),
    ensures
        m == n,
        unsettled(a).rounds(m).grid == unsettled(b).rounds(n).grid,
{
    assert forall|x: int, y: int| a.inside(x, y) implies #[trigger] a.at(x, y) == b.at(x, y) by {
        assert(b.at(x, y) == b.at(x, y));
    }
    lemma_agree_is_equal(a, b);
    lemma_settles_once(unsettled(a), m, n);
}

// ---- Dressing --------------------------------------------------------------

proof fn lemma_same_flora(
    g: Seq<Grid>,
    h: Seq<Grid>,
    v: Seq<FloraWalk>,
    w: Seq<FloraWalk>,
    surface: Seq<u32>,
    separation: int,
    rolls: Seq<FloraRoll>,
    n: int,
)
    requires
        flora_run(g, v, surface, separation, rolls),
        flora_run(h, w, surface, separation, rolls),
        g[0] == h[0],
        v[0] == w[0],
        0 <= n <= surface.len(),
    ensures
        g[n] == h[n],
        v[n] == w[n],
    decreases n,
{
    if n > 0 {
        let x = n - 1;
        lemma_same_flora(g, h, v, w, surface, separation, rolls, x);
        assert(g[x + 1].wf() && h[x + 1].wf());
        assert(v[x + 1] == w[x + 1]);
        let sy = surface[x] as int;
        assert(flora_step(g[x], g[x + 1], v[x], x, sy, separation, rolls[x]));
        assert(flora_step(h[x], h[x + 1], w[x], x, sy, separation, rolls[x]));
        assert(g[n] == h[n]) by {
            let (a, b) = (g[n], h[n]);
            if a.width == b.width && a.height == b.height {
                if a != b {
                    assert forall|i: int, j: int| a.inside(i, j) implies #[trigger] a.at(i, j)
                        == b.at(i, j) by {
                        assert(b.at(i, j) == b.at(i, j));
                    }
                    lemma_agree_is_equal(a, b);
                }
            }
        }
    }
}

proof fn lemma_same_green(
    before: Grid,
    a: Grid,
    b: Grid,
    separation: int,
    first_gap: u32,
    rolls: Seq<FloraRoll>,
)
    requires
        greened(before, a, separation, first_gap, rolls),
        greened(before, b, separation, first_gap, rolls),
    ensures
        a == b,
{
    let (g, v, s) = choose|grids: Seq<Grid>, walks: Seq<FloraWalk>, surface: Seq<u32>|
        {
            &&& #[trigger] flora_run(grids, walks, surface, separation, rolls)
            &&& is_surface(grids[0], surface)
            &&& grids[0].width == before.width
            &&& grids[0].height == before.height
            &&& forall|x: int, y: int|
                before.inside(x, y) ==> #[trigger] grids[0].at(x, y) == grown_over(before, x, y)
            &&& walks[0] == (FloraWalk { next_tree: first_gap, last_tree: None })
            &&& grids[surface.len() as int] == a
        };
    let (h, w, t) = choose|grids: Seq<Grid>, walks: Seq<FloraWalk>, surface: Seq<u32>|
        {
            &&& #[trigger] flora_run(grids, walks, surface, separation, rolls)
            &&& is_surface(grids[0], surface)
            &&& grids[0].width == before.width
            &&& grids[0].height == before.height
            &&& forall|x: int, y: int|
                before.inside(x, y) ==> #[trigger] grids[0].at(x, y) == grown_over(before, x, y)
            &&& walks[0] == (FloraWalk { next_tree: first_gap, last_tree: None })
            &&& grids[surface.len() as int] == b
        };
    assert(g[0].wf() && h[0].wf());
    assert forall|x: int, y: int| g[0].inside(x, y) implies #[trigger] g[0].at(x, y) == h[0].at(
        x,
        y,
    ) by {
        assert(h[0].at(x, y) == h[0].at(x, y));
    }
    lemma_agree_is_equal(g[0], h[0]);
    lemma_same_surface(g[0], s, t);
    lemma_same_flora(g, h, v, w, s, separation, rolls, s.len() as int);
}

/// Equal draws dress equal ground equally.
pub proof fn law_equal_draws_equal_dress(
    s: Seq<Grid>,
    t: Seq<Grid>,
    p: GenParams,
    surface: Seq<u32>,
    d: DressDraws,
    m: nat,
    n: nat,
)
    requires
        dressed(s, p, surface, d, m),
        dressed(t, p, surface, d, n),
        s[0] == t[0],
    ensures
        m == n,
        s[3] == t[3],
{
    assert(s[1].wf() && t[1].wf());
    assert forall|x: int, y: int| s[1].inside(x, y) implies #[trigger] s[1].at(x, y) == t[1].at(
        x,
        y,
    ) by {
        assert(t[1].at(x, y) == t[1].at(x, y));
    }
    lemma_agree_is_equal(s[1], t[1]);
    lemma_same_green(
        s[1],
        s[2],
        t[2],
        p.tree_min_separation as int,
        d.first_gap,
        d.flora@,
    );
    lemma_settles_once(unsettled(s[2]), m, n);
}

// ---- Structures ------------------------------------------------------------

proof fn lemma_same_object(
    before: Grid,
    a: Grid,
    b: Grid,
    id: TileId,
    x: int,
    y: int,
    w: int,
    h: int,
)
    requires
        with_object(before, a, id, x, y, w, h),
        with_object(before, b, id, x, y, w, h),
        a.wf(),
        b.wf(),
    ensures
        a == b,
{
    assert forall|i: int, j: int| a.inside(i, j) implies #[trigger] a.at(i, j) == b.at(i, j) by {
        assert(b.at(i, j) == b.at(i, j));
    }
    lemma_agree_is_equal(a, b);
}

proof fn lemma_same_furniture(
    before: Grid,
    a: Grid,
    b: Grid,
    id: TileId,
    x: int,
    y: int,
    w: int,
    h: int,
)
    requires
        furnished(before, a, id, x, y, w, h),
        furnished(before, b, id, x, y, w, h),
        a.wf(),
        b.wf(),
    ensures
        a == b,
{
    if a != b {
        lemma_same_object(before, a, b, id, x, y, w, h);
    }
}

proof fn lemma_same_floor(g: Grid, x: int, from: int, a: int, b: int)
    requires
        band_floor(g, x, from, a),
        band_floor(g, x, from, b),
    ensures
        a == b,
{
    let s = choose|top: int|
        {
            &&& #[trigger] band_top(g, x, from, top)
            &&& top <= a <= g.height
            &&& forall|b: int| top <= b < a ==> !(#[trigger] g.at(x, b)).solid()
            &&& a < g.height ==> g.at(x, a).solid()
        };
    let t = choose|top: int|
        {
            &&& #[trigger] band_top(g, x, from, top)
            &&& top <= b <= g.height
            &&& forall|c: int| top <= c < b ==> !(#[trigger] g.at(x, c)).solid()
            &&& b < g.height ==> g.at(x, b).solid()
        };
    if s < t {
        assert(g.at(x, s).id != TileId::Air);
    } else if t < s {
        assert(g.at(x, t).id != TileId::Air);
    }
    if a < b {
        assert(!g.at(x, a).solid());
    } else if b < a {
        assert(!g.at(x, b).solid());
    }
}

proof fn lemma_same_ruin(
    before: Grid,
    a: Grid,
    b: Grid,
    p: GenParams,
    forge: (u32, u32),
    xs: Seq<u32>,
    chests: Map<(u32, u32), Seq<Option<InvSlot>>>,
    c: Map<(u32, u32), Seq<Option<InvSlot>>>,
    d: Map<(u32, u32), Seq<Option<InvSlot>>>,
    loot: Seq<Option<InvSlot>>,
)
    requires
        ruin_step(before, a, p, forge, xs, chests, c, loot),
        ruin_step(before, b, p, forge, xs, chests, d, loot),
        a.wf(),
        b.wf(),
    ensures
        a == b,
        c == d,
{
    let f = choose|found: Seq<(u32, Option<u32>)>|
        {
            &&& #[trigger] surveyed(before, p, xs, found)
            &&& ruin_raised(before, a, p, forge, found, chests, c, loot)
        };
    let e = choose|found: Seq<(u32, Option<u32>)>|
        {
            &&& #[trigger] surveyed(before, p, xs, found)
            &&& ruin_raised(before, b, p, forge, found, chests, d, loot)
        };
    assert forall|i: int| 0 <= i < xs.len() implies f[i] == e[i] by {
        let (x, from) = (xs[i] + p.ruin_size.0 / 2, p.stone_to_ash as int);
        let u = match f[i].1 {
            Some(v) => v as int,
            None => before.height,
        };
        let w = match e[i].1 {
            Some(v) => v as int,
            None => before.height,
        };
        assert(f[i].0 == xs[i] && e[i].0 == xs[i]);
        lemma_same_floor(before, x, from, u, w);
    }
    assert(f =~= e);
    match ruin_site(p, f, f.len() as int) {
        Some((x0, base)) => {
            let (w, h) = (p.ruin_size.0 as int, p.ruin_size.1 as int);
            let (s1, g1) = choose|shell: Grid, forged: Grid|
                {
                    &&& #[trigger] ruin_built(
                        before,
                        shell,
                        forged,
                        a,
                        x0 as int,
                        base as int,
                        p.ruin_size,
                        forge,
                    )
                    &&& c == (if crate::grid::box_vacant(forged, x0 + w - 3, base - 2, 2, 2) {
                        chests.insert(((x0 + w - 3) as u32, (base - 2) as u32), loot)
                    } else {
                        chests
                    })
                };
            let (s2, g2) = choose|shell: Grid, forged: Grid|
                {
                    &&& #[trigger] ruin_built(
                        before,
                        shell,
                        forged,
                        b,
                        x0 as int,
                        base as int,
                        p.ruin_size,
                        forge,
                    )
                    &&& d == (if crate::grid::box_vacant(forged, x0 + w - 3, base - 2, 2, 2) {
                        chests.insert(((x0 + w - 3) as u32, (base - 2) as u32), loot)
                    } else {
                        chests
                    })
                };
            assert(shell_built(before, s1, x0 as int, base as int, w, h));
            assert(shell_built(before, s2, x0 as int, base as int, w, h));
            assert forall|i: int, j: int| s1.inside(i, j) implies #[trigger] s1.at(i, j) == s2.at(
                i,
                j,
            ) by {
                assert(s2.at(i, j) == s2.at(i, j));
            }
            lemma_agree_is_equal(s1, s2);
            lemma_same_furniture(
                s1,
                g1,
                g2,
                TileId::InfernalForge,
                x0 + 1,
                base - 2,
                forge.0 as int,
                forge.1 as int,
            );
            lemma_same_furniture(g1, a, b, TileId::Chest, x0 + w - 3, base - 2, 2, 2);
        },
        None => {},
    }
}

proof fn lemma_same_ruins(
    v: Seq<Grid>,
    w: Seq<Grid>,
    c: Seq<Map<(u32, u32), Seq<Option<InvSlot>>>>,
    d: Seq<Map<(u32, u32), Seq<Option<InvSlot>>>>,
    p: GenParams,
    forge: (u32, u32),
    draws: Seq<Vec<u32>>,
    loots: Seq<Vec<Option<InvSlot>>>,
    n: int,
)
    requires
        ruins_rise(v, c, p, forge, draws, loots, draws.len() as int),
        ruins_rise(w, d, p, forge, draws, loots, draws.len() as int),
        v[0] == w[0],
        c[0] == d[0],
        0 <= n <= draws.len(),
    ensures
        v[n] == w[n],
        c[n] == d[n],
    decreases n,
{
    if n > 0 {
        let i = n - 1;
        lemma_same_ruins(v, w, c, d, p, forge, draws, loots, i);
        assert(v[i + 1].wf() && w[i + 1].wf());
        assert(ruin_step(v[i], v[i + 1], p, forge, draws[i]@, c[i], c[i + 1], loots[i]@));
        assert(ruin_step(w[i], w[i + 1], p, forge, draws[i]@, d[i], d[i + 1], loots[i]@));
        lemma_same_ruin(
            v[i],
            v[i + 1],
            w[i + 1],
            p,
            forge,
            draws[i]@,
            c[i],
            c[i + 1],
            d[i + 1],
            loots[i]@,
        );
    }
}

proof fn lemma_same_taken(a: Seq<Option<(u32, u32)>>, b: Seq<Option<(u32, u32)>>, n: int)
    requires
        forall|i: int| 0 <= i < n ==> a[i] == b[i],
    ensures
        taken(a, n) == taken(b, n),
    decreases n,
{
    if n > 0 {
        lemma_same_taken(a, b, n - 1);
        assert(a[n - 1] == b[n - 1]);
    }
}

proof fn lemma_same_put(
    before: Grid,
    a: Grid,
    b: Grid,
    id: TileId,
    size: (u32, u32),
    spot: Option<(u32, u32)>,
)
    requires
        put_down(before, a, id, size, spot),
        put_down(before, b, id, size, spot),
        a.wf(),
        b.wf(),
    ensures
        a == b,
{
    match spot {
        Some(s) => {
            lemma_same_object(
                before,
                a,
                b,
                id,
                s.0 as int,
                s.1 as int,
                size.0 as int,
                size.1 as int,
            );
        },
        None => {},
    }
}

proof fn lemma_same_stands(
    v: Seq<Grid>,
    w: Seq<Grid>,
    a: Seq<Option<(u32, u32)>>,
    b: Seq<Option<(u32, u32)>>,
    requests: Seq<Vec<Vec<(u32, u32)>>>,
    id: TileId,
    size: (u32, u32),
    spacing: int,
    n: int,
)
    requires
        stands(v, a, requests, id, size, spacing),
        stands(w, b, requests, id, size, spacing),
        a.len() == b.len(),
        v[0] == w[0],
        0 <= n <= a.len(),
    ensures
        v[n] == w[n],
        forall|i: int| 0 <= i < n ==> a[i] == b[i],
    decreases n,
{
    if n > 0 {
        let k = n - 1;
        lemma_same_stands(v, w, a, b, requests, id, size, spacing, k);
        lemma_same_taken(a, b, k);
        assert(a[k] == b[k]);
        assert(v[k + 1].wf() && w[k + 1].wf());
        lemma_same_put(v[k], v[k + 1], w[k + 1], id, size, a[k]);
    }
}

proof fn lemma_same_stood(
    before: Grid,
    g: Grid,
    h: Grid,
    a: Seq<Option<(u32, u32)>>,
    b: Seq<Option<(u32, u32)>>,
    requests: Seq<Vec<Vec<(u32, u32)>>>,
    id: TileId,
    size: (u32, u32),
    spacing: int,
)
    requires
        stood(before, g, a, requests, id, size, spacing),
        stood(before, h, b, requests, id, size, spacing),
        a.len() == b.len(),
    ensures
        g == h,
        a == b,
{
    let v = choose|t: Seq<Grid>|
        {
            &&& #[trigger] stands(t, a, requests, id, size, spacing)
            &&& t[0] == before
            &&& t[a.len() as int] == g
        };
    let w = choose|t: Seq<Grid>|
        {
            &&& #[trigger] stands(t, b, requests, id, size, spacing)
            &&& t[0] == before
            &&& t[b.len() as int] == h
        };
    lemma_same_stands(v, w, a, b, requests, id, size, spacing, a.len() as int);
    assert(a =~= b);
}

proof fn lemma_same_surface_stands(
    v: Seq<Grid>,
    w: Seq<Grid>,
    a: Seq<Option<(u32, u32)>>,
    b: Seq<Option<(u32, u32)>>,
    requests: Seq<Vec<u32>>,
    surface: Seq<u32>,
    limit: int,
    n: int,
)
    requires
        surface_stands(v, a, requests, surface, limit),
        surface_stands(w, b, requests, surface, limit),
        a.len() == b.len(),
        v[0] == w[0],
        0 <= n <= a.len(),
    ensures
        v[n] == w[n],
        forall|i: int| 0 <= i < n ==> a[i] == b[i],
    decreases n,
{
    if n > 0 {
        let k = n - 1;
        lemma_same_surface_stands(v, w, a, b, requests, surface, limit, k);
        assert(a[k] == b[k]);
        assert(v[k + 1].wf() && w[k + 1].wf());
        lemma_same_put(v[k], v[k + 1], w[k + 1], TileId::Chest, chest_size(), a[k]);
    }
}

proof fn lemma_same_surface_stood(
    before: Grid,
    g: Grid,
    h: Grid,
    a: Seq<Option<(u32, u32)>>,
    b: Seq<Option<(u32, u32)>>,
    requests: Seq<Vec<u32>>,
    surface: Seq<u32>,
    limit: int,
)
    requires
        surface_stood(before, g, a, requests, surface, limit),
        surface_stood(before, h, b, requests, surface, limit),
        a.len() == b.len(),
    ensures
        g == h,
        a == b,
{
    let v = choose|t: Seq<Grid>|
        {
            &&& #[trigger] surface_stands(t, a, requests, surface, limit)
            &&& t[0] == before
            &&& t[a.len() as int] == g
        };
    let w = choose|t: Seq<Grid>|
        {
            &&& #[trigger] surface_stands(t, b, requests, surface, limit)
            &&& t[0] == before
            &&& t[b.len() as int] == h
        };
    lemma_same_surface_stands(v, w, a, b, requests, surface, limit, a.len() as int);
    assert(a =~= b);
}

/// Equal draws furnish equal worlds equally: the same in every cell, and the
/// same contents in every chest.
pub proof fn law_equal_draws_equal_structures(
    s: Passes,
    t: Passes,
    p: GenParams,
    pockets: Pockets,
    d: StructureDraws,
    surface: Seq<u32>,
    chests: Map<(u32, u32), Seq<Option<InvSlot>>>,
    a: Map<(u32, u32), Seq<Option<InvSlot>>>,
    b: Map<(u32, u32), Seq<Option<InvSlot>>>,
)
    requires
        passes_run(s, p, pockets, d, surface, chests, a),
        passes_run(t, p, pockets, d, surface, chests, b),
        s.worlds[0] == t.worlds[0],
    ensures
        s.worlds[7] == t.worlds[7],
        a == b,
{
    let (v, w) = (s.worlds, t.worlds);
    let n = d.ruins@.len() as int;
    if p.width >= p.ruin_size.0 + 4 {
        let (g, c) = choose|
            worlds: Seq<Grid>,
            stores: Seq<Map<(u32, u32), Seq<Option<InvSlot>>>>,
        |
            {
                &&& #[trigger] ruins_rise(worlds, stores, p, d.forge, d.ruins@, d.ruin_loots@, n)
                &&& worlds[0] == v[0]
                &&& stores[0] == chests
                &&& worlds[n] == v[1]
                &&& stores[n] == s.ruin_chests
            };
        let (h, e) = choose|
            worlds: Seq<Grid>,
            stores: Seq<Map<(u32, u32), Seq<Option<InvSlot>>>>,
        |
            {
                &&& #[trigger] ruins_rise(worlds, stores, p, d.forge, d.ruins@, d.ruin_loots@, n)
                &&& worlds[0] == w[0]
                &&& stores[0] == chests
                &&& worlds[n] == w[1]
                &&& stores[n] == t.ruin_chests
            };
        lemma_same_ruins(g, h, c, e, p, d.forge, d.ruins@, d.ruin_loots@, n);
    }
    assert(v[1] == w[1] && s.ruin_chests == t.ruin_chests);
    lemma_same_stood(
        v[1],
        v[2],
        w[2],
        s.underground_spots,
        t.underground_spots,
        d.underground@,
        TileId::Chest,
        chest_size(),
        p.chest_spacing as int,
    );
    lemma_same_surface_stood(
        v[2],
        v[3],
        w[3],
        s.surface_spots,
        t.surface_spots,
        d.surface@,
        surface,
        p.underground_chest_rows.0 as int,
    );
    lemma_same_stood(
        v[3],
        v[4],
        w[4],
        s.altar_spots,
        t.altar_spots,
        d.altars@,
        TileId::RitualAltar,
        altar_size(),
        0,
    );
    assert(v[6] == w[6]);
    let fill = webbed_regions(p, pockets, d.web_coins@);
    let x = choose|m: Grid|
        {
            &&& #[trigger] pockets_webbed(v[6], m, p, pockets.label@, fill)
            &&& m.wf()
            &&& (v[7], s.webs) == crate::worldgen::scatter::web_run(
                m,
                crate::worldgen::structures::webs_before(
                    p,
                    v[6],
                    pockets.label@,
                    fill,
                    v[6].cells.len(),
                ) as nat,
                p.cobweb_target as nat,
                d.web_seeds@,
                0,
            )
        };
    let y = choose|m: Grid|
        {
            &&& #[trigger] pockets_webbed(w[6], m, p, pockets.label@, fill)
            &&& m.wf()
            &&& (w[7], t.webs) == crate::worldgen::scatter::web_run(
                m,
                crate::worldgen::structures::webs_before(
                    p,
                    w[6],
                    pockets.label@,
                    fill,
                    w[6].cells.len(),
                ) as nat,
                p.cobweb_target as nat,
                d.web_seeds@,
                0,
            )
        };
    assert forall|i: int, j: int| x.inside(i, j) implies #[trigger] x.at(i, j) == y.at(i, j) by {
        assert(y.at(i, j) == y.at(i, j));
    }
    lemma_agree_is_equal(x, y);
}

// ---- The spawn -------------------------------------------------------------

/// Equal worlds get the same spawn, on the same platform.
pub proof fn law_equal_worlds_equal_spawn(
    p: GenParams,
    before: Grid,
    chests: Seq<(u32, u32)>,
    s: Seq<u32>,
    t: Seq<u32>,
    c: int,
    d: int,
    g: Grid,
    h: Grid,
    a: Grid,
    b: Grid,
    at: (u32, u32),
    to: (u32, u32),
)
    requires
        spawn_picked(p, before, chests, s, c, g, a, at),
        spawn_picked(p, before, chests, t, d, h, b, to),
    ensures
        a == b,
        at == to,
{
    lemma_same_surface(before, s, t);
    let half = p.spawn_flat_width / 2;
    if c < d {
        assert(crate::worldgen::spawn::spec_unevenness(s, d - half, d + half)
            < crate::worldgen::spawn::spec_unevenness(s, c - half, c + half));
    } else if d < c {
        assert(crate::worldgen::spawn::spec_unevenness(s, c - half, c + half)
            < crate::worldgen::spawn::spec_unevenness(s, d - half, d + half));
    }
    assert forall|i: int, j: int| g.inside(i, j) implies #[trigger] g.at(i, j) == h.at(i, j) by {
        assert(h.at(i, j) == h.at(i, j));
    }
    lemma_agree_is_equal(g, h);
    assert forall|i: int, j: int| a.inside(i, j) implies #[trigger] a.at(i, j) == b.at(i, j) by {
        assert(b.at(i, j) == b.at(i, j));
    }
    lemma_agree_is_equal(a, b);
}

} // verus!
