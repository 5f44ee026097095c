//! Placing chests, ruins, altars, crystals, pots and cobwebs.
//!
//! Every random position comes in as a candidate; the functions here decide
//! whether it is any good and build on it.

use vstd::prelude::*;

use crate::chest::ChestStore;
use crate::grid::{box_vacant, group_grid, in_box, with_object, Grid, World};
use crate::item::InvSlot;
use crate::tile::{Liquid, LiquidKind, Tile, TileId, TileState, WallId};
use crate::worldgen::params::GenParams;
use crate::worldgen::pockets::Region;

verus! {

/// The `w` cells from `(x, y)` to the right are solid.
pub open spec fn solid_floor(g: Grid, x: int, y: int, w: int) -> bool {
    forall|a: int| x <= a < x + w ==> (#[trigger] g.at(a, y)).solid()
}

/// A cell of air, without lava unless that is allowed.
pub open spec fn clear_cell(t: Tile, allow_lava: bool) -> bool {
    t.id == TileId::Air && (allow_lava || t.liquid.spec_kind() != Some(LiquidKind::Lava))
}

/// The `w` by `h` box is all air.
pub open spec fn clear_box(g: Grid, x: int, y: int, w: int, h: int, allow_lava: bool) -> bool {
    forall|a: int, b: int| #[trigger]
        in_box(x, y, w, h, a, b) ==> clear_cell(g.at(a, b), allow_lava)
}

/// Whether `w` cells are solid.
pub fn solid_run(world: &World, x: u32, y: u32, w: u32) -> (b: bool)
    requires
        world.wf(),
        x + w <= world.width,
        y < world.height,
    ensures
        b == solid_floor(world@, x as int, y as int, w as int),
{
    let mut dx: u32 = 0;
    while dx < w
        invariant
            world.wf(),
            x + w <= world.width,
            y < world.height,
            dx <= w,
            forall|a: int| x <= a < x + dx ==> (#[trigger] world@.at(a, y as int)).solid(),
        decreases w - dx,
    {
        if !world.tile(x + dx, y).is_solid() {
            assert(!world@.at(x + dx, y as int).solid());
            return false;
        }
        dx = dx + 1;
    }
    true
}

/// Whether a box is all air, optionally free of lava.
pub fn air_box(world: &World, x: u32, y: u32, w: u32, h: u32, allow_lava: bool) -> (r: bool)
    requires
        world.wf(),
        x + w <= world.width,
        y + h <= world.height,
    ensures
        r == clear_box(world@, x as int, y as int, w as int, h as int, allow_lava),
{
    let mut dy: u32 = 0;
    while dy < h
        invariant
            world.wf(),
            x + w <= world.width,
            y + h <= world.height,
            dy <= h,
            forall|a: int, b: int| #[trigger]
                in_box(x as int, y as int, w as int, h as int, a, b) && b < y + dy ==> clear_cell(
                    world@.at(a, b),
                    allow_lava,
                ),
        decreases h - dy,
    {
        let mut dx: u32 = 0;
        while dx < w
            invariant
                world.wf(),
                x + w <= world.width,
                y + h <= world.height,
                dy < h,
                dx <= w,
                forall|a: int, b: int| #[trigger]
                    in_box(x as int, y as int, w as int, h as int, a, b) && (b < y + dy || (b == y
                        + dy && a < x + dx)) ==> clear_cell(world@.at(a, b), allow_lava),
            decreases w - dx,
        {
            let t = world.tile(x + dx, y + dy);
            if t.id != TileId::Air || (!allow_lava && t.liquid.holds(LiquidKind::Lava)) {
                assert(in_box(x as int, y as int, w as int, h as int, x + dx, y + dy));
                assert(!clear_cell(t, allow_lava));
                return false;
            }
            dx = dx + 1;
        }
        dy = dy + 1;
    }
    true
}

/// A `w` by `h` object fits on the floor at row `floor`, from column `x`.
pub open spec fn fits_floor(g: Grid, x: int, floor: int, w: int, h: int) -> bool {
    &&& floor >= h + 1
    &&& solid_floor(g, x, floor, w)
    &&& clear_box(g, x, floor - h, w, h, false)
}

/// The top left cell of a `w` by `h` object on the first candidate from index
/// `from` on that it fits.
pub open spec fn scan_hit(
    g: Grid,
    candidates: Seq<(u32, u32)>,
    w: u32,
    h: u32,
    from: int,
) -> Option<(u32, u32)>
    decreases candidates.len() - from,
{
    if from < 0 || from >= candidates.len() {
        None
    } else {
        let (x, floor) = candidates[from];
        if fits_floor(g, x as int, floor as int, w as int, h as int) {
            Some((x, (floor - h) as u32))
        } else {
            scan_hit(g, candidates, w, h, from + 1)
        }
    }
}

/// The first candidate `(x, floor)` on which a `w` by `h` object fits; gives
/// the object's top left cell.
pub fn find_floor_spot(world: &World, candidates: &Vec<(u32, u32)>, w: u32, h: u32) -> (spot: Option<
    (u32, u32),
>)
    requires
        world.wf(),
        h < u32::MAX,
        forall|i: int|
            0 <= i < candidates.len() ==> (#[trigger] candidates@[i]).0 + w <= world.width
                && candidates@[i].1 < world.height,
    ensures
        spot == scan_hit(world@, candidates@, w, h, 0),
{
    let mut i: usize = 0;
    while i < candidates.len()
        invariant
            world.wf(),
            h < u32::MAX,
            i <= candidates.len(),
            forall|k: int|
                0 <= k < candidates.len() ==> (#[trigger] candidates@[k]).0 + w <= world.width
                    && candidates@[k].1 < world.height,
            scan_hit(world@, candidates@, w, h, 0) == scan_hit(
                world@,
                candidates@,
                w,
                h,
                i as int,
            ),
        decreases candidates.len() - i,
    {
        let (x, floor) = candidates[i];
        if floor >= h + 1 && solid_run(world, x, floor, w) && air_box(
            world,
            x,
            floor - h,
            w,
            h,
            false,
        ) {
            return Some((x, floor - h));
        }
        i = i + 1;
    }
    None
}

pub open spec fn distance(a: int, b: int) -> int {
    if a < b {
        b - a
    } else {
        a - b
    }
}

/// The squared distance of two cells.
pub open spec fn distance_sq(a: (u32, u32), b: (u32, u32)) -> int {
    let dx = distance(a.0 as int, b.0 as int);
    let dy = distance(a.1 as int, b.1 as int);
    dx * dx + dy * dy
}

/// `spot` is at least `spacing` from all of `placed`.
pub open spec fn spaced(placed: Seq<(u32, u32)>, spot: (u32, u32), spacing: int) -> bool {
    forall|i: int|
        0 <= i < placed.len() ==> distance_sq(#[trigger] placed[i], spot) >= spacing * spacing
}

/// Whether `spot` is at least `spacing` from all of `placed`.
pub fn far_enough(placed: &Vec<(u32, u32)>, spot: (u32, u32), spacing: u32) -> (b: bool)
    ensures
        b == spaced(placed@, spot, spacing as int),
{
    assert(0 <= spacing * spacing <= 0xffff_ffff * 0xffff_ffff) by (nonlinear_arith)
        requires
            0 <= spacing <= 0xffff_ffff,
    ;
    let limit: u128 = spacing as u128 * spacing as u128;
    let mut i: usize = 0;
    while i < placed.len()
        invariant
            i <= placed.len(),
            limit == spacing * spacing,
            forall|k: int|
                0 <= k < i ==> distance_sq(#[trigger] placed@[k], spot) >= spacing * spacing,
        decreases placed.len() - i,
    {
        let p: (u32, u32) = placed[i];
        let dx: u128 = if p.0 < spot.0 {
            (spot.0 - p.0) as u128
        } else {
            (p.0 - spot.0) as u128
        };
        let dy: u128 = if p.1 < spot.1 {
            (spot.1 - p.1) as u128
        } else {
            (p.1 - spot.1) as u128
        };
        assert(dx * dx <= 0xffff_ffff * 0xffff_ffff) by (nonlinear_arith)
            requires
                0 <= dx <= 0xffff_ffff,
        ;
        assert(dy * dy <= 0xffff_ffff * 0xffff_ffff) by (nonlinear_arith)
            requires
                0 <= dy <= 0xffff_ffff,
        ;
        if dx * dx + dy * dy < limit {
            assert(distance_sq(placed@[i as int], spot) < spacing * spacing);
            return false;
        }
        i = i + 1;
    }
    true
}

/// A two cells wide floor with room for a chest.
pub open spec fn chest_floor(g: Grid, x: int, floor: int) -> bool {
    floor >= 2 && solid_floor(g, x, floor, 2) && clear_box(g, x, floor - 2, 2, 2, false)
}

/// The first row from `top` down, above `limit`, on which a chest fits at
/// column `x`.
pub open spec fn first_chest_floor(g: Grid, x: int, top: int, limit: int) -> Option<int>
    decreases limit - top,
{
    if top >= limit {
        None
    } else if chest_floor(g, x, top) {
        Some(top)
    } else {
        first_chest_floor(g, x, top + 1, limit)
    }
}

/// Finds the first floor for a chest in a column.
pub fn surface_chest_floor(world: &World, x: u32, top: u32, limit: u32) -> (floor: Option<u32>)
    requires
        world.wf(),
        x + 2 <= world.width,
        limit <= world.height,
    ensures
        match floor {
            Some(f) => first_chest_floor(world@, x as int, top as int, limit as int) == Some(
                f as int,
            ),
            None => first_chest_floor(world@, x as int, top as int, limit as int) is None,
        },
{
    let mut f: u32 = top;
    while f < limit
        invariant
            world.wf(),
            x + 2 <= world.width,
            limit <= world.height,
            top <= f,
            first_chest_floor(world@, x as int, top as int, limit as int) == first_chest_floor(
                world@,
                x as int,
                f as int,
                limit as int,
            ),
        decreases limit - f,
    {
        if solid_run(world, x, f, 2) && f >= 2 && air_box(world, x, f - 2, 2, 2, false) {
            return Some(f);
        }
        f = f + 1;
    }
    None
}

/// The first row of the open band of the underworld, from the ash line down.
pub open spec fn band_top(g: Grid, x: int, from: int, y: int) -> bool {
    &&& from <= y <= g.height
    &&& forall|b: int| from <= b < y ==> (#[trigger] g.at(x, b)).id != TileId::Air
    &&& y < g.height ==> g.at(x, y).id == TileId::Air
}

/// The floor of the open band of the underworld.
pub open spec fn band_floor(g: Grid, x: int, from: int, floor: int) -> bool {
    exists|top: int|
        {
            &&& #[trigger] band_top(g, x, from, top)
            &&& top <= floor <= g.height
            &&& forall|b: int| top <= b < floor ==> !(#[trigger] g.at(x, b)).solid()
            &&& floor < g.height ==> g.at(x, floor).solid()
        }
}

/// The first solid row below the open band of the underworld at column `x`.
pub fn underworld_floor(world: &World, ash_row: u32, x: u32) -> (floor: Option<u32>)
    requires
        world.wf(),
        x < world.width,
        ash_row <= world.height,
    ensures
        match floor {
            Some(f) => f < world.height && band_floor(world@, x as int, ash_row as int, f as int),
            None => band_floor(world@, x as int, ash_row as int, world.height as int),
        },
{
    let mut y: u32 = ash_row;
    while y < world.height && world.tile(x, y).id != TileId::Air
        invariant
            world.wf(),
            x < world.width,
            ash_row <= y <= world.height,
            forall|b: int| ash_row <= b < y ==> (#[trigger] world@.at(x as int, b)).id
                != TileId::Air,
        decreases world.height - y,
    {
        y = y + 1;
    }
    let ghost top = y as int;
    assert(band_top(world@, x as int, ash_row as int, top));
    while y < world.height && !world.tile(x, y).is_solid()
        invariant
            world.wf(),
            x < world.width,
            top <= y <= world.height,
            forall|b: int| top <= b < y ==> !(#[trigger] world@.at(x as int, b)).solid(),
        decreases world.height - y,
    {
        y = y + 1;
    }
    if y < world.height {
        Some(y)
    } else {
        None
    }
}

/// Whether a floor found under the middle of a ruin can carry it: neither at
/// the bottom of the world nor too close below the ash line.
pub fn ruin_floor_ok(params: &GenParams, floor: u32) -> (b: bool)
    ensures
        b == (floor + 2 < params.height && floor >= params.stone_to_ash + params.ruin_size.1),
        b ==> floor + 3 <= params.height && floor - params.ruin_size.1 >= params.stone_to_ash,
{
    (floor as u64 + 2) < params.height as u64 && floor as u64 >= params.stone_to_ash as u64
        + params.ruin_size.1 as u64
}

/// The site of a ruin out of candidates `(x, floor)` in the order they were
/// drawn: the first on dry ground, else the last one that can carry it.
pub open spec fn ruin_site(
    p: GenParams,
    candidates: Seq<(u32, Option<u32>)>,
    n: int,
) -> Option<(u32, u32)>
    decreases n,
{
    if n <= 0 {
        None
    } else {
        let before = ruin_site(p, candidates, n - 1);
        match before {
            Some((_, floor)) if floor <= p.hell_lava_row => before,
            _ => match candidates[n - 1].1 {
                Some(floor) if floor + 2 < p.height && floor >= p.stone_to_ash + p.ruin_size.1 => Some(
                    (candidates[n - 1].0, floor),
                ),
                _ => before,
            },
        }
    }
}

/// Chooses the site of a ruin.
pub fn choose_ruin_site(params: &GenParams, candidates: &Vec<(u32, Option<u32>)>) -> (site: Option<
    (u32, u32),
>)
    ensures
        site == ruin_site(*params, candidates@, candidates@.len() as int),
{
    let mut site: Option<(u32, u32)> = None;
    let mut i: usize = 0;
    while i < candidates.len()
        invariant
            i <= candidates.len(),
            site == ruin_site(*params, candidates@, i as int),
        decreases candidates.len() - i,
    {
        let (x, floor) = candidates[i];
        let dry: bool = match site {
            Some((_, f)) => f <= params.hell_lava_row,
            None => false,
        };
        if !dry {
            match floor {
                Some(f) => {
                    if ruin_floor_ok(params, f) {
                        site = Some((x, f));
                    }
                },
                None => {},
            }
        }
        i = i + 1;
    }
    site
}

/// One cell of the shell of a ruin.
pub open spec fn shell_tile(dx: int, dy: int, w: int, h: int) -> Tile {
    let edge = dx == 0 || dx == w - 1 || dy == 0 || dy == h - 1;
    Tile {
        id: if edge {
            TileId::EmberBrick
        } else {
            TileId::Air
        },
        wall: if edge {
            WallId::Air
        } else {
            WallId::Stone
        },
        liquid: Liquid::Empty,
        state: TileState::spec_clear(),
    }
}

/// How many cells from `(x, y)` down are open, at most `limit`.
pub open spec fn open_depth(g: Grid, x: int, y: int, limit: nat) -> nat
    decreases limit,
{
    if limit == 0 || !(0 <= y < g.height) || g.at(x, y).solid() {
        0
    } else {
        1 + open_depth(g, x, y + 1, (limit - 1) as nat)
    }
}

/// `t` filled up with solid `id`.
pub open spec fn plugged(t: Tile, id: TileId) -> Tile {
    Tile { id, liquid: Liquid::Empty, state: TileState::spec_clear(), ..t }
}

/// Fills the open cells from `(x, y)` down with `id`, at most `limit` of
/// them.
pub fn fill_down(world: &mut World, x: u32, y: u32, id: TileId, limit: u32)
    requires
        old(world).wf(),
        x < old(world).width,
    ensures
        final(world).wf(),
        final(world).width == old(world).width,
        final(world).height == old(world).height,
        final(world).spawn == old(world).spawn,
        forall|a: int, b: int|
            old(world)@.inside(a, b) ==> #[trigger] final(world)@.at(a, b) == (if a == x && y <= b
                < y + open_depth(old(world)@, x as int, y as int, limit as nat) {
                plugged(old(world)@.at(a, b), id)
            } else {
                old(world)@.at(a, b)
            }),
{
    let ghost g = world@;
    let mut b: u32 = y;
    let mut filled: u32 = 0;
    while b < world.height && filled < limit && !world.tile(x, b).is_solid()
        invariant
            world.wf(),
            world.width == old(world).width,
            world.height == old(world).height,
            world.spawn == old(world).spawn,
            g == old(world)@,
            x < world.width,
            filled <= limit,
            b == y + filled,
            open_depth(g, x as int, y as int, limit as nat) == filled + open_depth(
                g,
                x as int,
                b as int,
                (limit - filled) as nat,
            ),
            forall|a: int, c: int|
                g.inside(a, c) ==> #[trigger] world@.at(a, c) == (if a == x && y <= c < b {
                    plugged(g.at(a, c), id)
                } else {
                    g.at(a, c)
                }),
        decreases limit - filled,
    {
        broadcast use group_grid;

        let mut t = world.tile(x, b);
        t.id = id;
        t.liquid = Liquid::Empty;
        t.state = TileState::clear();
        world.set_tile(x, b, t);
        b = b + 1;
        filled = filled + 1;
    }
    assert(open_depth(g, x as int, b as int, (limit - filled) as nat) == 0) by {
        if b < world.height && filled < limit {
            assert(world@.at(x as int, b as int) == g.at(x as int, b as int));
        }
    }
}

/// The shell and the pillars of a ruin: `base` is the row of its floor.
pub open spec fn shell_built(
    before: Grid,
    after: Grid,
    x0: int,
    base: int,
    w: int,
    h: int,
) -> bool {
    let top = base + 1 - h;
    &&& after.width == before.width
    &&& after.height == before.height
    &&& forall|a: int, b: int|
        before.inside(a, b) ==> #[trigger] after.at(a, b) == (if in_box(x0, top, w, h, a, b) {
            shell_tile(a - x0, b - top, w, h)
        } else if x0 <= a < x0 + w && base < b <= base + open_depth(before, a, base + 1, 15) {
            plugged(before.at(a, b), TileId::EmberBrick)
        } else {
            before.at(a, b)
        })
}

/// Builds the shell of a ruin and the pillars that carry it.
pub fn build_shell(world: &mut World, x0: u32, base: u32, w: u32, h: u32)
    requires
        old(world).wf(),
        1 <= h <= base + 1,
        base < old(world).height,
        x0 + w <= old(world).width,
    ensures
        final(world).wf(),
        final(world).width == old(world).width,
        final(world).height == old(world).height,
        final(world).spawn == old(world).spawn,
        shell_built(old(world)@, final(world)@, x0 as int, base as int, w as int, h as int),
{
    let ghost g = world@;
    let top: u32 = base + 1 - h;
    let mut dy: u32 = 0;
    while dy < h
        invariant
            world.wf(),
            world.width == old(world).width,
            world.height == old(world).height,
            world.spawn == old(world).spawn,
            g == old(world)@,
            top + h == base + 1,
            base < world.height,
            x0 + w <= world.width,
            dy <= h,
            forall|a: int, b: int|
                g.inside(a, b) ==> #[trigger] world@.at(a, b) == (if in_box(
                    x0 as int,
                    top as int,
                    w as int,
                    dy as int,
                    a,
                    b,
                ) {
                    shell_tile(a - x0, b - top, w as int, h as int)
                } else {
                    g.at(a, b)
                }),
        decreases h - dy,
    {
        let mut dx: u32 = 0;
        while dx < w
            invariant
                world.wf(),
                world.width == old(world).width,
                world.height == old(world).height,
                world.spawn == old(world).spawn,
                g == old(world)@,
                top + h == base + 1,
                base < world.height,
                x0 + w <= world.width,
                dy < h,
                dx <= w,
                forall|a: int, b: int|
                    g.inside(a, b) ==> #[trigger] world@.at(a, b) == (if in_box(
                        x0 as int,
                        top as int,
                        w as int,
                        dy as int,
                        a,
                        b,
                    ) || (b == top + dy && x0 <= a < x0 + dx) {
                        shell_tile(a - x0, b - top, w as int, h as int)
                    } else {
                        g.at(a, b)
                    }),
            decreases w - dx,
        {
            broadcast use group_grid;

            let edge: bool = dx == 0 || dx == w - 1 || dy == 0 || dy == h - 1;
            let tile = Tile {
                id: if edge {
                    TileId::EmberBrick
                } else {
                    TileId::Air
                },
                wall: if edge {
                    WallId::Air
                } else {
                    WallId::Stone
                },
                liquid: Liquid::Empty,
                state: TileState::clear(),
            };
            world.set_tile(x0 + dx, top + dy, tile);
            dx = dx + 1;
        }
        dy = dy + 1;
    }
    let ghost g1 = world@;
    let mut dx: u32 = 0;
    while dx < w
        invariant
            world.wf(),
            world.width == old(world).width,
            world.height == old(world).height,
            world.spawn == old(world).spawn,
            g == old(world)@,
            top + h == base + 1,
            base < world.height,
            x0 + w <= world.width,
            dx <= w,
            forall|a: int, b: int|
                g.inside(a, b) ==> #[trigger] world@.at(a, b) == (if in_box(
                    x0 as int,
                    top as int,
                    w as int,
                    h as int,
                    a,
                    b,
                ) {
                    shell_tile(a - x0, b - top, w as int, h as int)
                } else if x0 <= a < x0 + dx && base < b <= base + open_depth(g, a, base + 1, 15) {
                    plugged(g.at(a, b), TileId::EmberBrick)
                } else {
                    g.at(a, b)
                }),
        decreases w - dx,
    {
        proof {
            lemma_open_depth_same(world@, g, x0 + dx, base + 1, 15);
        }
        fill_down(world, x0 + dx, base + 1, TileId::EmberBrick, 15);
        dx = dx + 1;
    }
}

/// `after` is `before` with the object `id` where it has room, and `before`
/// itself where it has none.
pub open spec fn furnished(
    before: Grid,
    after: Grid,
    id: TileId,
    x: int,
    y: int,
    w: int,
    h: int,
) -> bool {
    if box_vacant(before, x, y, w, h) {
        with_object(before, after, id, x, y, w, h)
    } else {
        after == before
    }
}

/// A ruin stands on row `base`: its shell, a forge at the left and a chest at
/// the right of its floor.
pub open spec fn ruin_built(
    before: Grid,
    shell: Grid,
    forged: Grid,
    after: Grid,
    x0: int,
    base: int,
    size: (u32, u32),
    forge: (u32, u32),
) -> bool {
    &&& shell.wf()
    &&& forged.wf()
    &&& shell_built(before, shell, x0, base, size.0 as int, size.1 as int)
    &&& furnished(
        shell,
        forged,
        TileId::InfernalForge,
        x0 + 1,
        base - 2,
        forge.0 as int,
        forge.1 as int,
    )
    &&& furnished(forged, after, TileId::Chest, x0 + size.0 - 3, base - 2, 2, 2)
}

/// Builds a ruin and stocks its chest, if the chest has room.
pub fn build_ruin(
    world: &mut World,
    chests: &mut ChestStore,
    size: (u32, u32),
    forge: (u32, u32),
    x0: u32,
    base: u32,
    loot: Vec<Option<InvSlot>>,
) -> (stocked: bool)
    requires
        old(world).wf(),
        old(chests).wf(),
        3 <= size.0,
        1 <= size.1 <= base + 1,
        2 <= base < old(world).height,
        x0 + size.0 <= old(world).width,
        1 <= forge.0 <= 256,
        1 <= forge.1 <= 256,
    ensures
        final(world).wf(),
        final(world).width == old(world).width,
        final(world).height == old(world).height,
        final(world).spawn == old(world).spawn,
        final(chests).wf(),
        exists|shell: Grid, forged: Grid|
            {
                &&& #[trigger] ruin_built(
                    old(world)@,
                    shell,
                    forged,
                    final(world)@,
                    x0 as int,
                    base as int,
                    size,
                    forge,
                )
                &&& stocked == box_vacant(forged, x0 + size.0 - 3, base - 2, 2, 2)
            },
        final(chests)@ == (if stocked {
            old(chests)@.insert(((x0 + size.0 - 3) as u32, (base - 2) as u32), loot@)
        } else {
            old(chests)@
        }),
{
    build_shell(world, x0, base, size.0, size.1);
    let ghost shell = world@;
    let forged_now = world.place_multitile(x0 + 1, base - 2, TileId::InfernalForge, forge.0, forge.1);
    let ghost forged = world@;
    let stocked = world.place_multitile(x0 + size.0 - 3, base - 2, TileId::Chest, 2, 2);
    if stocked {
        chests.insert((x0 + size.0 - 3, base - 2), loot);
    }
    proof {
        assert(ruin_built(
            old(world)@,
            shell,
            forged,
            world@,
            x0 as int,
            base as int,
            size,
            forge,
        ));
    }
    stocked
}

/// The open depth of a column depends only on the cells from its start down.
pub proof fn lemma_open_depth_same(g: Grid, h: Grid, x: int, y: int, limit: nat)
    requires
        g.width == h.width,
        g.height == h.height,
        forall|b: int| y <= b < g.height ==> #[trigger] g.at(x, b) == h.at(x, b),
    ensures
        open_depth(g, x, y, limit) == open_depth(h, x, y, limit),
    decreases limit,
{
    if limit == 0 || !(0 <= y < g.height) || g.at(x, y).solid() {
    } else {
        lemma_open_depth_same(g, h, x, y + 1, (limit - 1) as nat);
    }
}

/// Whether a stone cell touches air.
pub open spec fn crystal_site(g: Grid, x: int, y: int) -> bool {
    &&& g.at(x, y).id == TileId::Stone
    &&& (g.at(x - 1, y).id == TileId::Air || g.at(x + 1, y).id == TileId::Air || g.at(x, y - 1).id
        == TileId::Air || g.at(x, y + 1).id == TileId::Air)
}

/// Turns a stone cell that touches air into a life crystal.
pub fn place_life_crystal(world: &mut World, x: u32, y: u32) -> (done: bool)
    requires
        old(world).wf(),
        1 <= x,
        x + 1 < old(world).width,
        1 <= y,
        y + 1 < old(world).height,
    ensures
        final(world).wf(),
        final(world).width == old(world).width,
        final(world).height == old(world).height,
        final(world).spawn == old(world).spawn,
        done == crystal_site(old(world)@, x as int, y as int),
        final(world)@ == (if done {
            old(world)@.put(
                x as int,
                y as int,
                Tile {
                    id: TileId::LifeCrystal,
                    state: TileState::spec_clear(),
                    ..old(world)@.at(x as int, y as int)
                },
            )
        } else {
            old(world)@
        }),
{
    let mut t = world.tile(x, y);
    if t.id != TileId::Stone {
        return false;
    }
    if world.tile(x - 1, y).id == TileId::Air || world.tile(x + 1, y).id == TileId::Air
        || world.tile(x, y - 1).id == TileId::Air || world.tile(x, y + 1).id == TileId::Air {
        t.id = TileId::LifeCrystal;
        t.state = TileState::clear();
        world.set_tile(x, y, t);
        true
    } else {
        false
    }
}

/// A cell of air without lava on a solid floor.
pub open spec fn pot_site(g: Grid, x: int, y: int) -> bool {
    &&& clear_cell(g.at(x, y), false)
    &&& g.at(x, y + 1).solid()
}

/// Puts a pot on a cave floor.
pub fn place_pot(world: &mut World, x: u32, y: u32) -> (done: bool)
    requires
        old(world).wf(),
        x < old(world).width,
        y + 1 < old(world).height,
    ensures
        final(world).wf(),
        final(world).width == old(world).width,
        final(world).height == old(world).height,
        final(world).spawn == old(world).spawn,
        done == pot_site(old(world)@, x as int, y as int),
        final(world)@ == (if done {
            old(world)@.put(
                x as int,
                y as int,
                Tile {
                    id: TileId::Pot,
                    state: TileState::spec_clear(),
                    ..old(world)@.at(x as int, y as int)
                },
            )
        } else {
            old(world)@
        }),
{
    let mut t = world.tile(x, y);
    if t.id == TileId::Air && !t.liquid.holds(LiquidKind::Lava) && world.tile(x, y + 1).is_solid() {
        t.id = TileId::Pot;
        t.state = TileState::clear();
        world.set_tile(x, y, t);
        true
    } else {
        false
    }
}

/// A small enclosed pocket within the cobweb rows: it may be webbed as a
/// whole.
pub open spec fn spec_small_pocket(p: GenParams, r: Region) -> bool {
    !r.open_to_sky && r.cells <= p.cobweb_max_pocket && r.min_y >= p.cobweb_rows.0 && r.max_y
        < p.cobweb_rows.1
}

pub fn small_pocket(params: &GenParams, r: &Region) -> (b: bool)
    ensures
        b == spec_small_pocket(*params, *r),
{
    !r.open_to_sky && r.cells <= params.cobweb_max_pocket && r.min_y >= params.cobweb_rows.0
        && r.max_y < params.cobweb_rows.1
}

/// A cell that takes a cobweb: air without liquid.
pub open spec fn webbable(g: Grid, x: int, y: int) -> bool {
    g.inside(x, y) && g.at(x, y).id == TileId::Air && g.at(x, y).liquid == Liquid::Empty
}

pub open spec fn webbed(t: Tile) -> Tile {
    Tile { id: TileId::Cobweb, state: TileState::spec_clear(), ..t }
}

/// Whether a cell takes a cobweb.
pub fn is_webbable(world: &World, x: u32, y: u32) -> (b: bool)
    requires
        world.wf(),
    ensures
        b == webbable(world@, x as int, y as int),
{
    if !world.in_bounds(x, y) {
        return false;
    }
    let t = world.tile(x, y);
    t.id == TileId::Air && t.liquid.is_none()
}

/// Puts a cobweb into a cell that takes one.
pub fn place_cobweb(world: &mut World, x: u32, y: u32) -> (done: bool)
    requires
        old(world).wf(),
    ensures
        final(world).wf(),
        final(world).width == old(world).width,
        final(world).height == old(world).height,
        final(world).spawn == old(world).spawn,
        done == webbable(old(world)@, x as int, y as int),
        final(world)@ == (if done {
            old(world)@.put(x as int, y as int, webbed(old(world)@.at(x as int, y as int)))
        } else {
            old(world)@
        }),
{
    if is_webbable(world, x, y) {
        let mut t = world.tile(x, y);
        t.id = TileId::Cobweb;
        t.state = TileState::clear();
        world.set_tile(x, y, t);
        true
    } else {
        false
    }
}

/// A cell of a pocket that is to be webbed.
pub open spec fn in_webbed_pocket(
    p: GenParams,
    g: Grid,
    label: Seq<u32>,
    fill: Seq<bool>,
    x: int,
    y: int,
) -> bool {
    let id = label[g.index(x, y)];
    &&& p.cobweb_rows.0 <= y < p.cobweb_rows.1
    &&& id != 0
    &&& fill[id - 1]
    &&& webbable(g, x, y)
}

/// One for every cell up to `(x, y)`, row by row, that is webbed.
pub open spec fn webs_before(
    p: GenParams,
    g: Grid,
    label: Seq<u32>,
    fill: Seq<bool>,
    n: nat,
) -> nat
    decreases n,
{
    if n == 0 {
        0
    } else {
        let i = n - 1;
        webs_before(p, g, label, fill, i as nat) + if in_webbed_pocket(
            p,
            g,
            label,
            fill,
            i % g.width,
            i / g.width,
        ) {
            1nat
        } else {
            0
        }
    }
}

/// Fills the chosen pockets with cobwebs; returns how many cells took one.
pub fn web_pockets(
    world: &mut World,
    params: &GenParams,
    label: &Vec<u32>,
    fill: &Vec<bool>,
) -> (placed: u32)
    requires
        old(world).wf(),
        label.len() == old(world)@.cells.len(),
        forall|i: int| 0 <= i < label.len() ==> #[trigger] label@[i] <= fill.len(),
    ensures
        final(world).wf(),
        final(world).width == old(world).width,
        final(world).height == old(world).height,
        final(world).spawn == old(world).spawn,
        forall|x: int, y: int|
            old(world)@.inside(x, y) ==> #[trigger] final(world)@.at(x, y) == (
            if in_webbed_pocket(*params, old(world)@, label@, fill@, x, y) {
                webbed(old(world)@.at(x, y))
            } else {
                old(world)@.at(x, y)
            }),
        placed == webs_before(*params, old(world)@, label@, fill@, old(world)@.cells.len()),
{
    let ghost g = world@;
    let mut placed: u32 = 0;
    let mut y: u32 = 0;
    assert(0 * world.width == 0);
    while y < world.height
        invariant
            world.wf(),
            world.width == old(world).width,
            world.height == old(world).height,
            world.spawn == old(world).spawn,
            g == old(world)@,
            g.wf(),
            y <= world.height,
            label.len() == g.cells.len(),
            forall|i: int| 0 <= i < label.len() ==> #[trigger] label@[i] <= fill.len(),
            0 <= y * world.width,
            placed == webs_before(*params, g, label@, fill@, (y * world.width) as nat),
            placed <= y * world.width,
            forall|a: int, b: int|
                g.inside(a, b) ==> #[trigger] world@.at(a, b) == (if b < y && in_webbed_pocket(
                    *params,
                    g,
                    label@,
                    fill@,
                    a,
                    b,
                ) {
                    webbed(g.at(a, b))
                } else {
                    g.at(a, b)
                }),
        decreases world.height - y,
    {
        let mut x: u32 = 0;
        while x < world.width
            invariant
                world.wf(),
                world.width == old(world).width,
                world.height == old(world).height,
                world.spawn == old(world).spawn,
                g == old(world)@,
                g.wf(),
                y < world.height,
                x <= world.width,
                label.len() == g.cells.len(),
                forall|i: int| 0 <= i < label.len() ==> #[trigger] label@[i] <= fill.len(),
                0 <= y * world.width,
                placed == webs_before(*params, g, label@, fill@, (y * world.width + x) as nat),
                placed <= y * world.width + x,
                forall|a: int, b: int|
                    g.inside(a, b) ==> #[trigger] world@.at(a, b) == (if (b < y || (b == y && a
                        < x)) && in_webbed_pocket(*params, g, label@, fill@, a, b) {
                        webbed(g.at(a, b))
                    } else {
                        g.at(a, b)
                    }),
            decreases world.width - x,
        {
            broadcast use group_grid;

            proof {
                crate::grid::lemma_index_inside(g, x as int, y as int);
                vstd::arithmetic::div_mod::lemma_fundamental_div_mod_converse(
                    y * world.width + x,
                    world.width as int,
                    y as int,
                    x as int,
                );
            }
            let id: u32 = label[(y * world.width + x) as usize];
            if y >= params.cobweb_rows.0 && y < params.cobweb_rows.1 && id != 0 && fill[(id
                - 1) as usize] {
                if place_cobweb(world, x, y) {
                    placed = placed + 1;
                }
            }
            x = x + 1;
        }
        assert((y + 1) * world.width == y * world.width + world.width) by (nonlinear_arith);
        y = y + 1;
    }
    assert(world.height * world.width == world.width * world.height) by (nonlinear_arith);
    placed
}

pub open spec fn one_if(b: bool) -> int {
    if b {
        1
    } else {
        0
    }
}

/// How many of the eight cells around `(x, y)` are solid.
pub open spec fn solid_around(g: Grid, x: int, y: int) -> int {
    one_if(g.solid(x - 1, y - 1)) + one_if(g.solid(x, y - 1)) + one_if(g.solid(x + 1, y - 1))
        + one_if(g.solid(x - 1, y)) + one_if(g.solid(x + 1, y)) + one_if(g.solid(x - 1, y + 1))
        + one_if(g.solid(x, y + 1)) + one_if(g.solid(x + 1, y + 1))
}

fn solid_one(world: &World, x: i32, y: i32) -> (n: u32)
    requires
        world.wf(),
    ensures
        n == one_if(world@.solid(x as int, y as int)),
{
    if world.is_solid(x, y) {
        1
    } else {
        0
    }
}

/// Counts the solid cells around an inside position.
pub fn solid_8_neighbors(world: &World, x: u32, y: u32) -> (n: u32)
    requires
        world.wf(),
        world@.inside(x as int, y as int),
    ensures
        n == solid_around(world@, x as int, y as int),
{
    let (cx, cy): (i32, i32) = (x as i32, y as i32);
    solid_one(world, cx - 1, cy - 1) + solid_one(world, cx, cy - 1) + solid_one(
        world,
        cx + 1,
        cy - 1,
    ) + solid_one(world, cx - 1, cy) + solid_one(world, cx + 1, cy) + solid_one(
        world,
        cx - 1,
        cy + 1,
    ) + solid_one(world, cx, cy + 1) + solid_one(world, cx + 1, cy + 1)
}

/// A nook: a cell that takes a cobweb and hugs at least four solid cells.
pub fn is_nook(world: &World, x: u32, y: u32) -> (b: bool)
    requires
        world.wf(),
    ensures
        b == (webbable(world@, x as int, y as int) && solid_around(world@, x as int, y as int)
            >= 4),
{
    is_webbable(world, x, y) && solid_8_neighbors(world, x, y) >= 4
}

/// The cells of a web cluster around its seed, the seed first.
pub open spec fn cluster_cell(x: int, y: int, k: int) -> (int, int) {
    if k == 0 {
        (x, y)
    } else if k == 1 {
        (x + 1, y)
    } else if k == 2 {
        (x - 1, y)
    } else if k == 3 {
        (x, y + 1)
    } else if k == 4 {
        (x, y - 1)
    } else if k == 5 {
        (x + 1, y + 1)
    } else {
        (x - 1, y - 1)
    }
}

/// The cell `k` of a cluster is webbed: the seed always, the others by coin.
pub open spec fn cluster_hit(g: Grid, x: int, y: int, coins: Seq<bool>, k: int) -> bool {
    let (a, b) = cluster_cell(x, y, k);
    (k == 0 || coins[k - 1]) && webbable(g, a, b)
}

/// The grid after the first `n` cells of a cluster.
pub open spec fn cluster_grid(g: Grid, x: int, y: int, coins: Seq<bool>, n: nat) -> Grid
    decreases n,
{
    if n == 0 {
        g
    } else {
        let before = cluster_grid(g, x, y, coins, (n - 1) as nat);
        let (a, b) = cluster_cell(x, y, n - 1);
        if cluster_hit(before, x, y, coins, n - 1) {
            before.put(a, b, webbed(before.at(a, b)))
        } else {
            before
        }
    }
}

/// How many of the first `n` cells of a cluster are webbed.
pub open spec fn cluster_count(g: Grid, x: int, y: int, coins: Seq<bool>, n: nat) -> nat
    decreases n,
{
    if n == 0 {
        0
    } else {
        let before = cluster_grid(g, x, y, coins, (n - 1) as nat);
        cluster_count(g, x, y, coins, (n - 1) as nat) + if cluster_hit(
            before,
            x,
            y,
            coins,
            n - 1,
        ) {
            1nat
        } else {
            0
        }
    }
}

/// Spins a cluster of cobwebs around a nook; returns how many cells took one.
pub fn spin_cluster(world: &mut World, x: u32, y: u32, coins: &Vec<bool>) -> (placed: u32)
    requires
        old(world).wf(),
        1 <= x,
        x + 1 < old(world).width,
        1 <= y,
        y < old(world).height,
        coins.len() == 6,
    ensures
        final(world).wf(),
        final(world).width == old(world).width,
        final(world).height == old(world).height,
        final(world).spawn == old(world).spawn,
        final(world)@ == cluster_grid(old(world)@, x as int, y as int, coins@, 7),
        placed == cluster_count(old(world)@, x as int, y as int, coins@, 7),
        placed <= 7,
{
    let ghost g = world@;
    let mut placed: u32 = 0;
    let mut k: u32 = 0;
    while k < 7
        invariant
            world.wf(),
            world.width == old(world).width,
            world.height == old(world).height,
            world.spawn == old(world).spawn,
            g == old(world)@,
            1 <= x,
            x + 1 < world.width,
            1 <= y,
            y < world.height,
            coins.len() == 6,
            k <= 7,
            placed <= k,
            world@ == cluster_grid(g, x as int, y as int, coins@, k as nat),
            placed == cluster_count(g, x as int, y as int, coins@, k as nat),
        decreases 7 - k,
    {
        let (a, b): (u32, u32) = if k == 0 {
            (x, y)
        } else if k == 1 {
            (x + 1, y)
        } else if k == 2 {
            (x - 1, y)
        } else if k == 3 {
            (x, y + 1)
        } else if k == 4 {
            (x, y - 1)
        } else if k == 5 {
            (x + 1, y + 1)
        } else {
            (x - 1, y - 1)
        };
        if k == 0 || coins[(k - 1) as usize] {
            if place_cobweb(world, a, b) {
                placed = placed + 1;
            }
        }
        k = k + 1;
    }
    placed
}

// ---- Where things stand ----------------------------------------------------

/// Something fits on a floor that is solid all along, with room above it that
/// is air and holds no lava.
pub proof fn law_things_stand_on_floors(g: Grid, x: int, floor: int, w: int, h: int, a: int, b: int)
    requires
        fits_floor(g, x, floor, w, h),
        x <= a < x + w,
    ensures
        g.at(a, floor).solid(),
        floor - h <= b < floor ==> g.at(a, b).id == TileId::Air,
        floor - h <= b < floor ==> g.at(a, b).liquid is Empty || g.at(a, b).liquid->kind
            == LiquidKind::Water,
{
    if floor - h <= b < floor {
        assert(in_box(x, floor - h, w, h, a, b));
    }
}

/// The first place that fits is taken, right above its floor.
pub proof fn law_the_first_fit_is_taken(
    g: Grid,
    candidates: Seq<(u32, u32)>,
    w: u32,
    h: u32,
    from: int,
    i: int,
)
    requires
        0 <= from <= i < candidates.len(),
        fits_floor(g, candidates[i].0 as int, candidates[i].1 as int, w as int, h as int),
        forall|k: int|
            from <= k < i ==> !fits_floor(
                g,
                (#[trigger] candidates[k]).0 as int,
                candidates[k].1 as int,
                w as int,
                h as int,
            ),
    ensures
        scan_hit(g, candidates, w, h, from) == Some(
            (candidates[i].0, (candidates[i].1 - h) as u32),
        ),
    decreases i - from,
{
    if from < i {
        assert(!fits_floor(
            g,
            candidates[from].0 as int,
            candidates[from].1 as int,
            w as int,
            h as int,
        ));
        law_the_first_fit_is_taken(g, candidates, w, h, from + 1, i);
    }
}

/// Distance is what it is in the plane: the same both ways, and none only from
/// a place to itself.
pub proof fn law_distance_is_in_the_plane(a: (u32, u32), b: (u32, u32))
    ensures
        distance_sq(a, b) == (a.0 - b.0) * (a.0 - b.0) + (a.1 - b.1) * (a.1 - b.1),
        distance_sq(a, b) == distance_sq(b, a),
{
    let (x, y) = (a.0 - b.0, a.1 - b.1);
    assert(x * x == (-x) * (-x) && y * y == (-y) * (-y)) by (nonlinear_arith);
}

/// Two things that are spaced lie at least that far apart.
pub proof fn law_spaced_things_are_apart(
    placed: Seq<(u32, u32)>,
    spot: (u32, u32),
    spacing: int,
    i: int,
)
    requires
        spaced(placed, spot, spacing),
        0 <= i < placed.len(),
    ensures
        (placed[i].0 - spot.0) * (placed[i].0 - spot.0) + (placed[i].1 - spot.1) * (placed[i].1
            - spot.1) >= spacing * spacing,
{
    law_distance_is_in_the_plane(placed[i], spot);
}

/// A surface chest stands on the first floor from the top that carries it.
pub proof fn law_surface_chests_stand_high(g: Grid, x: int, top: int, limit: int, f: int)
    requires
        first_chest_floor(g, x, top, limit) == Some(f),
    ensures
        top <= f < limit,
        f >= 2 && g.at(x, f).solid() && g.at(x + 1, f).solid(),
        g.at(x, f - 1).id == TileId::Air && g.at(x + 1, f - 1).id == TileId::Air && g.at(
            x,
            f - 2,
        ).id == TileId::Air && g.at(x + 1, f - 2).id == TileId::Air,
        forall|k: int| top <= k < f ==> !(#[trigger] chest_floor(g, x, k)),
    decreases limit - top,
{
    if !chest_floor(g, x, top) {
        law_surface_chests_stand_high(g, x, top + 1, limit, f);
    } else {
        assert(in_box(x, f - 2, 2, 2, x, f - 1) && in_box(x, f - 2, 2, 2, x + 1, f - 1) && in_box(
            x,
            f - 2,
            2,
            2,
            x,
            f - 2,
        ) && in_box(x, f - 2, 2, 2, x + 1, f - 2));
    }
}

/// A ruin stands on a floor deep enough for it; one above the lava is kept as
/// soon as it is found.
pub proof fn law_ruins_stand_above_lava(p: GenParams, candidates: Seq<(u32, Option<u32>)>, n: int)
    requires
        0 <= n <= candidates.len(),
    ensures
        ruin_site(p, candidates, n) matches Some((x, floor)) ==> {
            &&& floor + 2 < p.height
            &&& floor >= p.stone_to_ash + p.ruin_size.1
            &&& exists|i: int|
                0 <= i < n && (#[trigger] candidates[i]).0 == x && candidates[i].1 == Some(floor)
        },
        n < candidates.len() && ruin_site(p, candidates, n) is Some && ruin_site(
            p,
            candidates,
            n,
        )->Some_0.1 <= p.hell_lava_row ==> ruin_site(p, candidates, n + 1) == ruin_site(
            p,
            candidates,
            n,
        ),
    decreases n,
{
    if n > 0 {
        law_ruins_stand_above_lava(p, candidates, n - 1);
        if let Some((x, floor)) = ruin_site(p, candidates, n) {
            if ruin_site(p, candidates, n) == ruin_site(p, candidates, n - 1) {
                let i = choose|i: int|
                    0 <= i < n - 1 && (#[trigger] candidates[i]).0 == x && candidates[i].1
                        == Some(floor);
                assert(candidates[i].0 == x);
            } else {
                assert(candidates[n - 1].0 == x);
            }
        }
    }
}

/// A ruin is a box of ember brick around dry air with stone walls behind.
pub proof fn law_ruins_are_hollow(dx: int, dy: int, w: int, h: int)
    requires
        0 <= dx < w,
        0 <= dy < h,
    ensures
        shell_tile(dx, dy, w, h).id == TileId::EmberBrick <==> dx == 0 || dy == 0 || dx + 1 == w
            || dy + 1 == h,
        0 < dx < w - 1 && 0 < dy < h - 1 ==> shell_tile(dx, dy, w, h).id == TileId::Air
            && shell_tile(dx, dy, w, h).wall == WallId::Stone,
        shell_tile(dx, dy, w, h).liquid is Empty,
{
}

/// What is open below is filled down to the first solid, and no further than
/// it may be.
pub proof fn law_gaps_are_filled_to_the_ground(g: Grid, x: int, y: int, limit: nat, b: int)
    requires
        0 <= y,
    ensures
        open_depth(g, x, y, limit) <= limit,
        y <= b < y + open_depth(g, x, y, limit) ==> b < g.height && !g.at(x, b).solid(),
        open_depth(g, x, y, limit) < limit && y + open_depth(g, x, y, limit) < g.height ==> g.at(
            x,
            y + open_depth(g, x, y, limit),
        ).solid(),
    decreases limit,
{
    if limit > 0 && y < g.height && !g.at(x, y).solid() {
        law_gaps_are_filled_to_the_ground(g, x, y + 1, (limit - 1) as nat, b);
    }
}

/// What plugs a gap is its tile, dry, before the wall that is there.
pub proof fn law_plugs_are_dry(t: Tile, id: TileId)
    ensures
        plugged(t, id).id == id && plugged(t, id).liquid is Empty && plugged(t, id).wall == t.wall,
        webbed(t).id == TileId::Cobweb && webbed(t).liquid == t.liquid && webbed(t).wall == t.wall,
{
}

/// A life crystal grows in stone next to air; a pot stands in air without lava
/// on solid ground; a cobweb hangs in dry air.
pub proof fn law_small_things_have_their_places(g: Grid, x: int, y: int)
    ensures
        crystal_site(g, x, y) ==> g.at(x, y).id == TileId::Stone,
        g.at(x, y).id == TileId::Stone && (g.at(x - 1, y).id == TileId::Air || g.at(x + 1, y).id
            == TileId::Air || g.at(x, y - 1).id == TileId::Air || g.at(x, y + 1).id == TileId::Air)
            ==> crystal_site(g, x, y),
        g.at(x - 1, y).id != TileId::Air && g.at(x + 1, y).id != TileId::Air && g.at(x, y - 1).id
            != TileId::Air && g.at(x, y + 1).id != TileId::Air ==> !crystal_site(g, x, y),
        pot_site(g, x, y) <==> g.at(x, y).id == TileId::Air && (g.at(x, y).liquid is Empty || g.at(
            x,
            y,
        ).liquid->kind == LiquidKind::Water) && g.at(x, y + 1).solid(),
        webbable(g, x, y) <==> 0 <= x < g.width && 0 <= y < g.height && g.at(x, y).id
            == TileId::Air && g.at(x, y).liquid is Empty,
{
}

/// Webs fill closed pockets between their rows that are no larger than they
/// may be.
pub proof fn law_webs_fill_small_pockets(p: GenParams, r: Region)
    ensures
        spec_small_pocket(p, r) ==> !r.open_to_sky && r.cells <= p.cobweb_max_pocket,
        spec_small_pocket(p, r) ==> p.cobweb_rows.0 <= r.min_y && r.max_y < p.cobweb_rows.1,
        !r.open_to_sky && r.cells <= p.cobweb_max_pocket && p.cobweb_rows.0 <= r.min_y && r.max_y
            < p.cobweb_rows.1 ==> spec_small_pocket(p, r),
{
}

/// A web of a cluster hangs next to its middle or in it, and no two in one
/// cell.
pub proof fn law_clusters_hang_together(x: int, y: int, k: int, j: int)
    requires
        0 <= k < 7,
        0 <= j < 7,
    ensures
        cluster_cell(x, y, 0) == (x, y),
        -1 <= cluster_cell(x, y, k).0 - x <= 1,
        -1 <= cluster_cell(x, y, k).1 - y <= 1,
        k != j ==> cluster_cell(x, y, k) != cluster_cell(x, y, j),
{
}

/// Cells outside of the world count as solid around a cell.
pub proof fn law_eight_neighbours_are_counted(g: Grid, x: int, y: int)
    ensures
        0 <= solid_around(g, x, y) <= 8,
        (forall|a: int, b: int|
            -1 <= a - x <= 1 && -1 <= b - y <= 1 ==> #[trigger] g.solid(a, b)) ==> solid_around(
            g,
            x,
            y,
        ) == 8,
        (forall|a: int, b: int|
            -1 <= a - x <= 1 && -1 <= b - y <= 1 ==> !(#[trigger] g.solid(a, b)))
            ==> solid_around(g, x, y) == 0,
{
}

/// In a ruin a forge stands at the left and a chest at the right of the floor, where there is room
/// for them.
pub proof fn law_ruins_hold_a_forge_and_a_chest(
    before: Grid,
    shell: Grid,
    forged: Grid,
    after: Grid,
    x0: int,
    base: int,
    size: (u32, u32),
    forge: (u32, u32),
    a: int,
    b: int,
)
    requires
        ruin_built(before, shell, forged, after, x0, base, size, forge),
        before.inside(a, b),
    ensures
        in_box(x0 + size.0 - 3, base - 2, 2, 2, a, b) && box_vacant(
            forged,
            x0 + size.0 - 3,
            base - 2,
            2,
            2,
        ) ==> after.at(a, b).id == TileId::Chest,
        in_box(x0 + 1, base - 2, forge.0 as int, forge.1 as int, a, b) && box_vacant(
            shell,
            x0 + 1,
            base - 2,
            forge.0 as int,
            forge.1 as int,
        ) ==> forged.at(a, b).id == TileId::InfernalForge,
        !in_box(x0, base + 1 - size.1, size.0 as int, size.1 as int, a, b) && !(x0 <= a < x0
            + size.0 && base < b <= base + 15) ==> shell.at(a, b) == before.at(a, b),
{
    let s = shell.at(a, b);
    if x0 <= a < x0 + size.0 && base + 1 >= 0 {
        law_gaps_are_filled_to_the_ground(before, a, base + 1, 15, b);
    }
    let f = forged.at(a, b);
    let t = after.at(a, b);
}

} // verus!
