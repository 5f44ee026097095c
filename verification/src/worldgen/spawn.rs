//! Choosing and levelling the spawn platform.

use vstd::prelude::*;

use crate::chest::ChestStore;
use crate::grid::{group_grid, in_box, only_brings, Grid, World, MAX_SIDE};
use crate::tile::{Tile, TileId, TileState};
use crate::worldgen::caves::{is_surface, surface_row, surface_scan};
use crate::worldgen::kept::{built, lemma_spawn_kept};
use crate::worldgen::params::GenParams;
use crate::worldgen::structures::{fill_down, open_depth, plugged};

verus! {

/// Rows that may be filled below the platform.
pub const PLATFORM_FILL: u32 = 30;

pub open spec fn spec_candidates(p: GenParams) -> (int, int) {
    let center = p.width / 2;
    let half = p.spawn_flat_width / 2;
    let lo = if center < p.spawn_search_radius {
        0
    } else {
        center - p.spawn_search_radius
    };
    let hi = center + p.spawn_search_radius;
    let last = p.width - half - 1;
    (
        if lo < half {
            half as int
        } else {
            lo
        },
        if hi < last {
            hi
        } else {
            last
        },
    )
}

/// The first and the last column on which the platform may be centered.
pub fn spawn_candidates(params: &GenParams) -> (range: (u32, u32))
    requires
        params.spawn_flat_width / 2 < params.width,
        params.width / 2 + params.spawn_search_radius <= u32::MAX,
    ensures
        range.0 == spec_candidates(*params).0,
        range.1 == spec_candidates(*params).1,
{
    let center: u32 = params.width / 2;
    let half: u32 = params.spawn_flat_width / 2;
    let lo: u32 = center.saturating_sub(params.spawn_search_radius);
    let hi: u32 = center + params.spawn_search_radius;
    let last: u32 = params.width - half - 1;
    (
        if lo < half {
            half
        } else {
            lo
        },
        if hi < last {
            hi
        } else {
            last
        },
    )
}

/// The first of the lowest scores; the scores belong to the columns from `lo`
/// on. Without any score it is `center`.
pub fn best_column(center: u32, lo: u32, scores: &Vec<i128>) -> (c: u32)
    requires
        lo + scores.len() <= u32::MAX,
    ensures
        scores.len() == 0 ==> c == center,
        scores.len() > 0 ==> {
            &&& lo <= c < lo + scores.len()
            &&& forall|k: int|
                0 <= k < scores.len() ==> scores@[c - lo] <= #[trigger] scores@[k]
            &&& forall|k: int| 0 <= k < c - lo ==> scores@[c - lo] < #[trigger] scores@[k]
        },
{
    if scores.len() == 0 {
        return center;
    }
    let mut best: usize = 0;
    let mut i: usize = 1;
    while i < scores.len()
        invariant
            1 <= i <= scores.len(),
            best < i,
            forall|k: int| 0 <= k < i ==> scores@[best as int] <= #[trigger] scores@[k],
            forall|k: int| 0 <= k < best ==> scores@[best as int] < #[trigger] scores@[k],
        decreases scores.len() - i,
    {
        if scores[i] < scores[best] {
            best = i;
        }
        i = i + 1;
    }
    lo + best as u32
}

pub open spec fn sum(heights: Seq<u32>, from: int, to: int) -> int
    decreases to - from,
{
    if from >= to {
        0
    } else {
        sum(heights, from, to - 1) + heights[to - 1]
    }
}

pub open spec fn sum_of_squares(heights: Seq<u32>, from: int, to: int) -> int
    decreases to - from,
{
    if from >= to {
        0
    } else {
        sum_of_squares(heights, from, to - 1) + heights[to - 1] * heights[to - 1]
    }
}

/// How uneven the surface of a window is: its variance, times the square of its
/// width, which orders windows of one width as their variance does.
pub open spec fn spec_unevenness(surface: Seq<u32>, from: int, to: int) -> int {
    (to - from) * sum_of_squares(surface, from, to) - sum(surface, from, to) * sum(
        surface,
        from,
        to,
    )
}

/// Computes how uneven the surface of the window is.
pub fn unevenness(surface: &Vec<u32>, from: u32, to: u32) -> (v: i128)
    requires
        from <= to <= surface.len(),
        to <= MAX_SIDE,
        forall|k: int| 0 <= k < surface.len() ==> #[trigger] surface@[k] <= MAX_SIDE,
    ensures
        v == spec_unevenness(surface@, from as int, to as int),
{
    let mut s: i128 = 0;
    let mut q: i128 = 0;
    let mut i: u32 = from;
    while i < to
        invariant
            from <= i <= to <= surface.len(),
            to <= MAX_SIDE,
            forall|k: int| 0 <= k < surface.len() ==> #[trigger] surface@[k] <= MAX_SIDE,
            s == sum(surface@, from as int, i as int),
            q == sum_of_squares(surface@, from as int, i as int),
            0 <= s <= (i - from) * MAX_SIDE,
            0 <= q <= (i - from) * (MAX_SIDE * MAX_SIDE),
        decreases to - i,
    {
        let h: i128 = surface[i as usize] as i128;
        assert(surface@[i as int] <= MAX_SIDE);
        assert(0 <= h * h <= MAX_SIDE * MAX_SIDE) by (nonlinear_arith)
            requires
                0 <= h <= MAX_SIDE,
        ;
        assert((i + 1 - from) * MAX_SIDE == (i - from) * MAX_SIDE + MAX_SIDE) by (nonlinear_arith);
        assert((i + 1 - from) * (MAX_SIDE * MAX_SIDE) == (i - from) * (MAX_SIDE * MAX_SIDE)
            + MAX_SIDE * MAX_SIDE) by (nonlinear_arith);
        assert((i - from) * MAX_SIDE <= MAX_SIDE * MAX_SIDE) by (nonlinear_arith)
            requires
                0 <= i - from <= MAX_SIDE,
        ;
        assert((i - from) * (MAX_SIDE * MAX_SIDE) <= MAX_SIDE * (MAX_SIDE * MAX_SIDE))
            by (nonlinear_arith)
            requires
                0 <= i - from <= MAX_SIDE,
        ;
        s = s + h;
        q = q + h * h;
        i = i + 1;
    }
    let n: i128 = (to - from) as i128;
    assert(0 <= n * q <= MAX_SIDE * (MAX_SIDE * (MAX_SIDE * MAX_SIDE))) by (nonlinear_arith)
        requires
            0 <= n <= MAX_SIDE,
            0 <= q <= n * (MAX_SIDE * MAX_SIDE),
    ;
    assert(0 <= s * s <= (MAX_SIDE * MAX_SIDE) * (MAX_SIDE * MAX_SIDE)) by (nonlinear_arith)
        requires
            0 <= n <= MAX_SIDE,
            0 <= s <= n * MAX_SIDE,
    ;
    n * q - s * s
}

/// The row of the platform: the mean surface row of the window, rounded down
/// and kept off the edges of the world.
pub open spec fn spec_platform_row(surface: Seq<u32>, from: int, to: int, height: int) -> int {
    let mean = sum(surface, from, to) / (to - from);
    if mean < 2 {
        2
    } else if mean > height - 2 {
        height - 2
    } else {
        mean
    }
}

/// Computes the row of the platform over the columns `from` to `to`.
pub fn platform_row(surface: &Vec<u32>, from: u32, to: u32, height: u32) -> (row: u32)
    requires
        from < to <= surface.len(),
        height >= 4,
    ensures
        row == spec_platform_row(surface@, from as int, to as int, height as int),
{
    let mut total: u64 = 0;
    let mut i: u32 = from;
    while i < to
        invariant
            from <= i <= to <= surface.len(),
            total == sum(surface@, from as int, i as int),
            total <= (i - from) * u32::MAX,
        decreases to - i,
    {
        assert((i - from) * u32::MAX + u32::MAX <= u64::MAX) by (nonlinear_arith)
            requires
                0 <= i - from < u32::MAX,
        ;
        assert((i + 1 - from) * u32::MAX == (i - from) * u32::MAX + u32::MAX) by (nonlinear_arith);
        total = total + surface[i as usize] as u64;
        i = i + 1;
    }
    let mean: u64 = total / (to - from) as u64;
    if mean < 2 {
        2
    } else if mean > (height - 2) as u64 {
        height - 2
    } else {
        mean as u32
    }
}

/// A chest that stands in the way of the platform over the columns `x0` to
/// `x1`.
pub open spec fn doomed(o: (u32, u32), x0: int, x1: int, target: int) -> bool {
    o.0 + 2 > x0 && o.0 < x1 && o.1 < target + 32
}

/// One of the doomed chests among the first `n` covers `(a, b)`.
pub open spec fn under_doomed(
    origins: Seq<(u32, u32)>,
    x0: int,
    x1: int,
    target: int,
    a: int,
    b: int,
) -> bool {
    exists|k: int|
        {
            &&& 0 <= k < origins.len()
            &&& doomed(#[trigger] origins[k], x0, x1, target)
            &&& in_box(origins[k].0 as int, origins[k].1 as int, 2, 2, a, b)
        }
}

/// What is left of a cell once the chests in `origins` that are in the way
/// are gone.
pub open spec fn without_chest(
    g: Grid,
    origins: Seq<(u32, u32)>,
    x0: int,
    x1: int,
    target: int,
    a: int,
    b: int,
) -> Tile {
    if g.at(a, b).id == TileId::Chest && under_doomed(origins, x0, x1, target, a, b) {
        Tile { id: TileId::Air, state: TileState::spec_clear(), ..g.at(a, b) }
    } else {
        g.at(a, b)
    }
}

/// Removes the chest cells of one two by two chest.
fn clear_chest(world: &mut World, o: (u32, u32))
    requires
        old(world).wf(),
        o.0 + 2 <= old(world).width,
        o.1 + 2 <= old(world).height,
    ensures
        final(world).wf(),
        final(world).width == old(world).width,
        final(world).height == old(world).height,
        final(world).spawn == old(world).spawn,
        forall|a: int, b: int|
            old(world)@.inside(a, b) ==> #[trigger] final(world)@.at(a, b) == (if in_box(
                o.0 as int,
                o.1 as int,
                2,
                2,
                a,
                b,
            ) && old(world)@.at(a, b).id == TileId::Chest {
                Tile { id: TileId::Air, state: TileState::spec_clear(), ..old(world)@.at(a, b) }
            } else {
                old(world)@.at(a, b)
            }),
{
    let ghost g = world@;
    let mut dy: u32 = 0;
    while dy < 2
        invariant
            world.wf(),
            world.width == old(world).width,
            world.height == old(world).height,
            world.spawn == old(world).spawn,
            g == old(world)@,
            o.0 + 2 <= world.width,
            o.1 + 2 <= world.height,
            dy <= 2,
            forall|a: int, b: int|
                g.inside(a, b) ==> #[trigger] world@.at(a, b) == (if in_box(
                    o.0 as int,
                    o.1 as int,
                    2,
                    dy as int,
                    a,
                    b,
                ) && g.at(a, b).id == TileId::Chest {
                    Tile { id: TileId::Air, state: TileState::spec_clear(), ..g.at(a, b) }
                } else {
                    g.at(a, b)
                }),
        decreases 2 - dy,
    {
        let mut dx: u32 = 0;
        while dx < 2
            invariant
                world.wf(),
                world.width == old(world).width,
                world.height == old(world).height,
                world.spawn == old(world).spawn,
                g == old(world)@,
                o.0 + 2 <= world.width,
                o.1 + 2 <= world.height,
                dy < 2,
                dx <= 2,
                forall|a: int, b: int|
                    g.inside(a, b) ==> #[trigger] world@.at(a, b) == (if (in_box(
                        o.0 as int,
                        o.1 as int,
                        2,
                        dy as int,
                        a,
                        b,
                    ) || (b == o.1 + dy && o.0 <= a < o.0 + dx)) && g.at(a, b).id
                        == TileId::Chest {
                        Tile { id: TileId::Air, state: TileState::spec_clear(), ..g.at(a, b) }
                    } else {
                        g.at(a, b)
                    }),
            decreases 2 - dx,
        {
            broadcast use group_grid;

            let mut t = world.tile(o.0 + dx, o.1 + dy);
            if t.id == TileId::Chest {
                t.id = TileId::Air;
                t.state = TileState::clear();
                world.set_tile(o.0 + dx, o.1 + dy, t);
            }
            dx = dx + 1;
        }
        dy = dy + 1;
    }
}

/// The cell `(a, b)` of the levelled platform over the columns `x0` to `x1`:
/// air above row `target`, grass on it, dirt below as far as the ground was
/// open.
pub open spec fn leveled_tile(
    g: Grid,
    x0: int,
    x1: int,
    target: int,
    a: int,
    b: int,
) -> Tile {
    let depth = open_depth(g, a, target, PLATFORM_FILL as nat);
    if !(x0 <= a < x1) {
        g.at(a, b)
    } else if b < target {
        Tile::spec_of(TileId::Air)
    } else if b == target {
        let ground = if depth > 0 {
            plugged(g.at(a, b), TileId::Dirt)
        } else {
            g.at(a, b)
        };
        Tile { id: TileId::Grass, state: TileState::spec_clear(), ..ground }
    } else if b < target + depth {
        plugged(g.at(a, b), TileId::Dirt)
    } else {
        g.at(a, b)
    }
}

/// Levels one column.
fn level_column(world: &mut World, x: u32, target: u32)
    requires
        old(world).wf(),
        x < old(world).width,
        target < old(world).height,
    ensures
        final(world).wf(),
        final(world).width == old(world).width,
        final(world).height == old(world).height,
        final(world).spawn == old(world).spawn,
        forall|a: int, b: int|
            old(world)@.inside(a, b) ==> #[trigger] final(world)@.at(a, b) == leveled_tile(
                old(world)@,
                x as int,
                x + 1,
                target as int,
                a,
                b,
            ),
{
    broadcast use group_grid;

    let ghost g = world@;
    let mut y: u32 = 0;
    while y < target
        invariant
            world.wf(),
            world.width == old(world).width,
            world.height == old(world).height,
            world.spawn == old(world).spawn,
            g == old(world)@,
            x < world.width,
            y <= target < world.height,
            forall|a: int, b: int|
                g.inside(a, b) ==> #[trigger] world@.at(a, b) == (if a == x && b < y {
                    Tile::spec_of(TileId::Air)
                } else {
                    g.at(a, b)
                }),
        decreases target - y,
    {
        broadcast use group_grid;

        world.set_tile(x, y, Tile::of(TileId::Air));
        y = y + 1;
    }
    let ghost g1 = world@;
    proof {
        crate::worldgen::structures::lemma_open_depth_same(
            g1,
            g,
            x as int,
            target as int,
            PLATFORM_FILL as nat,
        );
    }
    fill_down(world, x, target, TileId::Dirt, PLATFORM_FILL);
    let ghost g2 = world@;
    let mut top = world.tile(x, target);
    top.id = TileId::Grass;
    top.state = TileState::clear();
    world.set_tile(x, target, top);
    assert forall|a: int, b: int| g.inside(a, b) implies #[trigger] world@.at(a, b) == leveled_tile(
        g,
        x as int,
        x + 1,
        target as int,
        a,
        b,
    ) by {
        assert(g2.inside(a, b) && g1.inside(a, b));
        assert(g1.at(a, b) == (if a == x && b < target {
            Tile::spec_of(TileId::Air)
        } else {
            g.at(a, b)
        }));
    }
}

/// Levels the columns `x0` to `x1`.
pub fn flatten(world: &mut World, x0: u32, x1: u32, target: u32)
    requires
        old(world).wf(),
        x0 <= x1 <= old(world).width,
        target < old(world).height,
    ensures
        final(world).wf(),
        final(world).width == old(world).width,
        final(world).height == old(world).height,
        final(world).spawn == old(world).spawn,
        forall|a: int, b: int|
            old(world)@.inside(a, b) ==> #[trigger] final(world)@.at(a, b) == leveled_tile(
                old(world)@,
                x0 as int,
                x1 as int,
                target as int,
                a,
                b,
            ),
{
    let ghost g = world@;
    let mut x: u32 = x0;
    while x < x1
        invariant
            world.wf(),
            world.width == old(world).width,
            world.height == old(world).height,
            world.spawn == old(world).spawn,
            g == old(world)@,
            x0 <= x <= x1 <= world.width,
            target < world.height,
            forall|a: int, b: int|
                g.inside(a, b) ==> #[trigger] world@.at(a, b) == leveled_tile(
                    g,
                    x0 as int,
                    x as int,
                    target as int,
                    a,
                    b,
                ),
        decreases x1 - x,
    {
        let ghost h = world@;
        proof {
            crate::worldgen::structures::lemma_open_depth_same(
                h,
                g,
                x as int,
                target as int,
                PLATFORM_FILL as nat,
            );
        }
        level_column(world, x, target);
        assert forall|a: int, b: int| g.inside(a, b) implies #[trigger] world@.at(a, b)
            == leveled_tile(g, x0 as int, x + 1, target as int, a, b) by {
            assert(h.inside(a, b));
            assert(h.at(a, b) == leveled_tile(g, x0 as int, x as int, target as int, a, b));
        }
        x = x + 1;
    }
}

/// The origins of all chests, in the order of the store.
pub open spec fn origins(chests: ChestStore) -> Seq<(u32, u32)> {
    chests.chests@.map_values(|c: crate::chest::Chest| c.origin)
}

/// Removes the chests that stand in the way of the platform, cells and
/// contents together.
pub fn clear_chests(world: &mut World, chests: &mut ChestStore, x0: u32, x1: u32, target: u32)
    requires
        old(world).wf(),
        old(chests).wf(),
        forall|k: int|
            #![trigger old(chests).chests@[k]]
            0 <= k < old(chests).chests@.len() ==> old(chests).chests@[k].origin.0 + 2
                <= old(world).width && old(chests).chests@[k].origin.1 + 2 <= old(world).height,
    ensures
        final(world).wf(),
        final(world).width == old(world).width,
        final(world).height == old(world).height,
        final(world).spawn == old(world).spawn,
        final(chests).wf(),
        forall|a: int, b: int|
            old(world)@.inside(a, b) ==> #[trigger] final(world)@.at(a, b) == without_chest(
                old(world)@,
                origins(*old(chests)),
                x0 as int,
                x1 as int,
                target as int,
                a,
                b,
            ),
        forall|o: (u32, u32)| #[trigger]
            final(chests)@.dom().contains(o) <==> old(chests)@.dom().contains(o) && !doomed(
                o,
                x0 as int,
                x1 as int,
                target as int,
            ),
        forall|o: (u32, u32)| #[trigger]
            final(chests)@.dom().contains(o) ==> final(chests)@[o] == old(chests)@[o],
{
    let mut list: Vec<(u32, u32)> = Vec::new();
    let mut i: usize = 0;
    while i < chests.chests.len()
        invariant
            i <= chests.chests.len(),
            list.len() == i,
            forall|k: int| 0 <= k < i ==> #[trigger] list@[k] == chests.chests@[k].origin,
        decreases chests.chests.len() - i,
    {
        list.push(chests.chests[i].origin);
        i = i + 1;
    }
    assert(list@ =~= origins(*chests));
    let ghost all = list@;
    let ghost g = world@;
    let ghost store = chests@;
    let mut k: usize = 0;
    while k < list.len()
        invariant
            world.wf(),
            world.width == old(world).width,
            world.height == old(world).height,
            world.spawn == old(world).spawn,
            chests.wf(),
            g == old(world)@,
            k <= list.len(),
            list@ == all,
            forall|m: int|
                0 <= m < all.len() ==> (#[trigger] all[m]).0 + 2 <= world.width && all[m].1 + 2
                    <= world.height,
            forall|a: int, b: int|
                g.inside(a, b) ==> #[trigger] world@.at(a, b) == without_chest(
                    g,
                    all.take(k as int),
                    x0 as int,
                    x1 as int,
                    target as int,
                    a,
                    b,
                ),
            forall|o: (u32, u32)| #[trigger]
                chests@.dom().contains(o) <==> store.dom().contains(o) && !(all.take(
                    k as int,
                ).contains(o) && doomed(o, x0 as int, x1 as int, target as int)),
            forall|o: (u32, u32)| #[trigger]
                chests@.dom().contains(o) ==> chests@[o] == store[o],
        decreases list.len() - k,
    {
        let o: (u32, u32) = list[k];
        let ghost h = world@;
        let ghost t0 = all.take(k as int);
        let ghost t1 = all.take(k + 1);
        proof {
            assert(t1 =~= t0.push(o));
            assert(t1[k as int] == o);
            assert forall|c: (u32, u32)| #[trigger] t1.contains(c) <==> t0.contains(c) || c == o by {
                if t0.contains(c) {
                    let m = t0.index_of(c);
                    assert(t1[m] == c);
                }
                if t1.contains(c) {
                    let m = t1.index_of(c);
                    if m < k {
                        assert(t0[m] == c);
                    }
                }
            }
        }
        if o.0 as u64 + 2 > x0 as u64 && o.0 < x1 && (o.1 as u64) < target as u64 + 32 {
            clear_chest(world, o);
            chests.remove(o);
        }
        proof {
            let dead = doomed(o, x0 as int, x1 as int, target as int);
            assert forall|a: int, b: int| g.inside(a, b) implies #[trigger] world@.at(a, b)
                == without_chest(g, t1, x0 as int, x1 as int, target as int, a, b) by {
                assert(h.inside(a, b));
                assert(h.at(a, b) == without_chest(
                    g,
                    t0,
                    x0 as int,
                    x1 as int,
                    target as int,
                    a,
                    b,
                ));
                let u0 = under_doomed(t0, x0 as int, x1 as int, target as int, a, b);
                let u1 = under_doomed(t1, x0 as int, x1 as int, target as int, a, b);
                if u0 {
                    let m = choose|m: int|
                        {
                            &&& 0 <= m < t0.len()
                            &&& doomed(#[trigger] t0[m], x0 as int, x1 as int, target as int)
                            &&& in_box(t0[m].0 as int, t0[m].1 as int, 2, 2, a, b)
                        };
                    assert(t1[m] == t0[m]);
                    assert(u1);
                }
                if dead && in_box(o.0 as int, o.1 as int, 2, 2, a, b) {
                    assert(u1);
                } else if u1 {
                    let m = choose|m: int|
                        {
                            &&& 0 <= m < t1.len()
                            &&& doomed(#[trigger] t1[m], x0 as int, x1 as int, target as int)
                            &&& in_box(t1[m].0 as int, t1[m].1 as int, 2, 2, a, b)
                        };
                    assert(m < k);
                    assert(t0[m] == t1[m]);
                    assert(u0);
                }
            }
        }
        k = k + 1;
    }
    proof {
        assert(all.take(k as int) =~= all);
        assert forall|o: (u32, u32)| store.dom().contains(o) implies #[trigger] all.contains(o) by {
            let m = crate::chest::lemma_has(old(chests).chests@, o);
            assert(all[m] == o);
        }
        assert forall|o: (u32, u32)| #[trigger]
            chests@.dom().contains(o) <==> store.dom().contains(o) && !doomed(
                o,
                x0 as int,
                x1 as int,
                target as int,
            ) by {
            if store.dom().contains(o) {
                assert(all.contains(o));
            }
        }
    }
}

/// `after` is `before` with the platform levelled around the best column `c`;
/// `cleared` is what it was without the chests in the way.
pub open spec fn spawn_picked(
    p: GenParams,
    before: Grid,
    chests: Seq<(u32, u32)>,
    surface: Seq<u32>,
    c: int,
    cleared: Grid,
    after: Grid,
    spawn: (u32, u32),
) -> bool {
    let (lo, hi) = spec_candidates(p);
    let half = p.spawn_flat_width / 2;
    let (x0, x1) = (c - half, c + half);
    let target = spec_platform_row(surface, x0, x1, p.height as int);
    &&& is_surface(before, surface)
    &&& lo <= c <= hi
    &&& forall|k: int|
        lo <= k <= hi ==> spec_unevenness(surface, x0, x1) <= #[trigger] spec_unevenness(
            surface,
            k - half,
            k + half,
        )
    &&& forall|k: int|
        lo <= k < c ==> spec_unevenness(surface, x0, x1) < #[trigger] spec_unevenness(
            surface,
            k - half,
            k + half,
        )
    &&& cleared.wf()
    &&& after.wf()
    &&& cleared.width == before.width
    &&& after.width == before.width
    &&& after.height == before.height
    &&& cleared.height == before.height
    &&& forall|a: int, b: int|
        before.inside(a, b) ==> #[trigger] cleared.at(a, b) == without_chest(
            before,
            chests,
            x0,
            x1,
            target,
            a,
            b,
        )
    &&& forall|a: int, b: int|
        before.inside(a, b) ==> #[trigger] after.at(a, b) == leveled_tile(
            cleared,
            x0,
            x1,
            target,
            a,
            b,
        )
    &&& spawn == (c as u32, (target - 1) as u32)
}

/// How uneven the surface is around each candidate column.
fn score_columns(surface: &Vec<u32>, lo: u32, hi: u32, half: u32) -> (scores: Vec<i128>)
    requires
        half <= lo <= hi,
        hi + half <= surface.len(),
        surface.len() <= MAX_SIDE,
        forall|k: int| 0 <= k < surface.len() ==> #[trigger] surface@[k] <= MAX_SIDE,
    ensures
        scores.len() == hi - lo + 1,
        forall|k: int|
            0 <= k < scores.len() ==> #[trigger] scores@[k] == spec_unevenness(
                surface@,
                lo + k - half,
                lo + k + half,
            ),
{
    let mut scores: Vec<i128> = Vec::new();
    let mut c: u32 = lo;
    while c <= hi
        invariant
            half <= lo <= c <= hi + 1,
            hi + half <= surface.len(),
            surface.len() <= MAX_SIDE,
            forall|k: int| 0 <= k < surface.len() ==> #[trigger] surface@[k] <= MAX_SIDE,
            scores.len() == c - lo,
            forall|k: int|
                0 <= k < scores.len() ==> #[trigger] scores@[k] == spec_unevenness(
                    surface@,
                    lo + k - half,
                    lo + k + half,
                ),
        decreases hi + 1 - c,
    {
        scores.push(unevenness(surface, c - half, c + half));
        c = c + 1;
    }
    scores
}

/// Chooses the candidate column around which the surface is flattest, levels
/// the platform there, and puts the spawn one cell above it.
pub fn pick_spawn(world: &mut World, chests: &mut ChestStore, params: &GenParams)
    requires
        old(world).wf(),
        old(chests).wf(),
        params.width == old(world).width,
        params.height == old(world).height,
        params.height >= 4,
        params.spawn_flat_width >= 2,
        params.spawn_flat_width / 2 <= params.width / 2,
        params.width / 2 + params.spawn_search_radius <= u32::MAX,
        spec_candidates(*params).0 <= spec_candidates(*params).1,
        forall|k: int|
            #![trigger old(chests).chests@[k]]
            0 <= k < old(chests).chests@.len() ==> old(chests).chests@[k].origin.0 + 2
                <= old(world).width && old(chests).chests@[k].origin.1 + 2 <= old(world).height,
    ensures
        final(world).wf(),
        final(chests).wf(),
        final(world).width == old(world).width,
        final(world).height == old(world).height,
        exists|surface: Seq<u32>, c: int, cleared: Grid| #[trigger]
            spawn_picked(
                *params,
                old(world)@,
                origins(*old(chests)),
                surface,
                c,
                cleared,
                final(world)@,
                final(world).spawn,
            ) && forall|o: (u32, u32)| #[trigger]
                final(chests)@.dom().contains(o) <==> old(chests)@.dom().contains(o) && !doomed(
                    o,
                    c - params.spawn_flat_width / 2,
                    c + params.spawn_flat_width / 2,
                    final(world).spawn.1 + 1,
                ),
        forall|o: (u32, u32)| #[trigger]
            final(chests)@.dom().contains(o) ==> final(chests)@[o] == old(chests)@[o],
        only_brings(old(world)@, final(world)@, built()),
{
    let surface = surface_scan(world);
    let (lo, hi) = spawn_candidates(params);
    let half: u32 = params.spawn_flat_width / 2;
    proof {
        assert forall|k: int| 0 <= k < surface.len() implies #[trigger] surface@[k] <= MAX_SIDE by {
            assert(surface_row(world@, k, surface@[k] as int));
        }
    }
    let scores = score_columns(&surface, lo, hi, half);
    let c: u32 = best_column(params.width / 2, lo, &scores);
    proof {
        assert forall|k: int| lo <= k <= hi implies spec_unevenness(
            surface@,
            c - half,
            c + half,
        ) <= #[trigger] spec_unevenness(surface@, k - half, k + half) by {
            assert(scores@[c - lo] <= scores@[k - lo]);
        }
        assert forall|k: int| lo <= k < c implies spec_unevenness(surface@, c - half, c + half)
            < #[trigger] spec_unevenness(surface@, k - half, k + half) by {
            assert(scores@[c - lo] < scores@[k - lo]);
        }
    }
    let (x0, x1): (u32, u32) = (c - half, c + half);
    let target: u32 = platform_row(&surface, x0, x1, params.height);
    clear_chests(world, chests, x0, x1, target);
    let ghost cleared = world@;
    flatten(world, x0, x1, target);
    world.spawn = (c, target - 1);
    proof {
        assert(spawn_picked(
            *params,
            old(world)@,
            origins(*old(chests)),
            surface@,
            c as int,
            cleared,
            world@,
            world.spawn,
        ));
        lemma_spawn_kept(
            *params,
            old(world)@,
            origins(*old(chests)),
            surface@,
            c as int,
            cleared,
            world@,
            world.spawn,
        );
    }
}

/// A levelled platform carries: its row is solid, and the cell above every
/// column is free air.
pub proof fn law_platform_stands(g: Grid, x0: int, x1: int, target: int, a: int)
    requires
        x0 <= a < x1,
        1 <= target,
    ensures
        leveled_tile(g, x0, x1, target, a, target).solid(),
        leveled_tile(g, x0, x1, target, a, target - 1) == Tile::spec_of(TileId::Air),
{
}

/// Players start near the middle of the world, within the search radius, and
/// far enough from the edges for the platform.
pub proof fn law_spawns_are_sought_in_the_middle(p: GenParams, c: int)
    requires
        spec_candidates(p).0 <= c <= spec_candidates(p).1,
        p.spawn_flat_width / 2 <= p.width / 2,
    ensures
        c <= p.width / 2 + p.spawn_search_radius,
        c - p.spawn_flat_width / 2 >= 0,
        c + p.spawn_flat_width / 2 < p.width,
        p.width / 2 >= p.spawn_search_radius + p.spawn_flat_width / 2 ==> c >= p.width / 2
            - p.spawn_search_radius,
        p.width / 2 >= p.spawn_search_radius + p.spawn_flat_width / 2 ==> spec_candidates(p).0
            == p.width / 2 - p.spawn_search_radius,
        p.width / 2 + p.spawn_search_radius + p.spawn_flat_width / 2 < p.width
            ==> spec_candidates(p).1 == p.width / 2 + p.spawn_search_radius,
{
}

/// Level ground is not uneven at all: unevenness is none exactly where all the
/// heights are one, and never negative.
pub proof fn law_level_ground_is_even(surface: Seq<u32>, from: int, to: int, h: u32)
    requires
        0 <= from <= to <= surface.len(),
        forall|k: int| from <= k < to ==> #[trigger] surface[k] == h,
    ensures
        spec_unevenness(surface, from, to) == 0,
        from < to ==> sum(surface, from, to) / (to - from) == h,
{
    lemma_level_sums(surface, from, to, h);
    let n = to - from;
    let hi = h as int;
    assert(n * (n * (hi * hi)) == (n * hi) * (n * hi)) by (nonlinear_arith);
    if from < to {
        assert((n * hi) / n == hi) by (nonlinear_arith)
            requires
                n > 0,
        ;
    }
}

proof fn lemma_level_sums(surface: Seq<u32>, from: int, to: int, h: u32)
    requires
        0 <= from <= to <= surface.len(),
        forall|k: int| from <= k < to ==> #[trigger] surface[k] == h,
    ensures
        sum(surface, from, to) == (to - from) * h,
        sum_of_squares(surface, from, to) == (to - from) * (h * h),
    decreases to - from,
{
    if from < to {
        lemma_level_sums(surface, from, to - 1, h);
        let (n, hi) = (to - from, h as int);
        assert((n - 1) * hi + hi == n * hi) by (nonlinear_arith);
        assert((n - 1) * (hi * hi) + hi * hi == n * (hi * hi)) by (nonlinear_arith);
        assert(surface[to - 1] == h);
    }
}

/// A step of one in otherwise level ground makes it uneven.
pub proof fn law_steps_make_ground_uneven(surface: Seq<u32>, from: int, to: int, h: u32)
    requires
        0 <= from,
        from + 1 < to <= surface.len(),
        h < u32::MAX,
        forall|k: int| from <= k < to - 1 ==> #[trigger] surface[k] == h,
        surface[to - 1] == h + 1,
    ensures
        spec_unevenness(surface, from, to) > 0,
{
    lemma_level_sums(surface, from, to - 1, h);
    let (n, hi) = (to - from, h as int);
    let s = (n - 1) * hi + (hi + 1);
    let q = (n - 1) * (hi * hi) + (hi + 1) * (hi + 1);
    assert(surface[to - 1] * surface[to - 1] == (hi + 1) * (hi + 1));
    assert(n * q - s * s == n - 1) by (nonlinear_arith)
        requires
            s == (n - 1) * hi + (hi + 1),
            q == (n - 1) * (hi * hi) + (hi + 1) * (hi + 1),
    ;
}

/// The platform lies at the mean height of its columns, and inside the world.
pub proof fn law_platforms_lie_at_the_mean(surface: Seq<u32>, from: int, to: int, height: int)
    requires
        from < to,
        height >= 4,
    ensures
        ({
            let row = spec_platform_row(surface, from, to, height);
            let mean = sum(surface, from, to) / (to - from);
            &&& 2 <= row <= height - 2
            &&& 2 <= mean <= height - 2 ==> row == mean
            &&& mean < 2 ==> row == 2
            &&& mean > height - 2 ==> row == height - 2
        }),
{
}

/// A platform is grass on filled ground with nothing but air above it; beside
/// it nothing changes.
pub proof fn law_platforms_are_grass_under_air(
    g: Grid,
    x0: int,
    x1: int,
    target: int,
    a: int,
    b: int,
)
    ensures
        ({
            let t = leveled_tile(g, x0, x1, target, a, b);
            &&& a < x0 || a >= x1 ==> t == g.at(a, b)
            &&& x0 <= a < x1 && b < target ==> t.id == TileId::Air && t.liquid is Empty && t.wall
                == crate::tile::WallId::Air
            &&& x0 <= a < x1 && b == target ==> t.id == TileId::Grass
            &&& x0 <= a < x1 && b > target ==> t == g.at(a, b) || (t.id == TileId::Dirt
                && t.liquid is Empty)
            &&& x0 <= a < x1 && b > target + 30 ==> t == g.at(a, b)
        }),
{
    lemma_depth(g, a, target, PLATFORM_FILL as nat);
}

proof fn lemma_depth(g: Grid, x: int, y: int, limit: nat)
    ensures
        open_depth(g, x, y, limit) <= limit,
    decreases limit,
{
    if limit > 0 && 0 <= y < g.height && !g.at(x, y).solid() {
        lemma_depth(g, x, y + 1, (limit - 1) as nat);
    }
}

/// A chest is removed if the platform or what is filled below would cut it.
pub proof fn law_chests_in_the_way_go(o: (u32, u32), x0: int, x1: int, target: int)
    ensures
        doomed(o, x0, x1, target) <==> x0 < o.0 + 2 && o.0 < x1 && o.1 < target + 32,
        o.0 >= x1 || o.0 + 2 <= x0 || o.1 >= target + 32 ==> !doomed(o, x0, x1, target),
{
}

} // verus!
