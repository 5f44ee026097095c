//! Grass, trees and mushrooms.

use vstd::prelude::*;

use crate::grid::{group_grid, lemma_only_brings_twice, only_brings, Grid, World};
use crate::tile::{
    Tile, TileId, TileState, GRASS_MUSHROOM, TREE_SEGMENT_TOP, TREE_SEGMENT_TRUNK,
};
use crate::worldgen::caves::{is_surface, surface_scan};

verus! {

/// Dirt under open air grows grass.
pub open spec fn grown_over(g: Grid, x: int, y: int) -> Tile {
    if y >= 1 && g.at(x, y).id == TileId::Dirt && g.at(x, y - 1).id == TileId::Air {
        Tile { id: TileId::Grass, ..g.at(x, y) }
    } else {
        g.at(x, y)
    }
}

/// Turns all dirt with air right above it into grass.
pub fn grow_grass(world: &mut World)
    requires
        old(world).wf(),
    ensures
        final(world).wf(),
        final(world)@.width == old(world)@.width,
        final(world)@.height == old(world)@.height,
        final(world).spawn == old(world).spawn,
        forall|x: int, y: int|
            old(world)@.inside(x, y) ==> #[trigger] final(world)@.at(x, y) == grown_over(
                old(world)@,
                x,
                y,
            ),
{
    let ghost g = world@;
    let mut y: u32 = 1;
    while y < world.height
        invariant
            world.wf(),
            1 <= y,
            g == old(world)@,
            world@.width == g.width,
            world@.height == g.height,
            world.spawn == old(world).spawn,
            forall|a: int, b: int|
                g.inside(a, b) ==> #[trigger] world@.at(a, b) == (if b < y {
                    grown_over(g, a, b)
                } else {
                    g.at(a, b)
                }),
        decreases world.height - y,
    {
        let mut x: u32 = 0;
        while x < world.width
            invariant
                world.wf(),
                1 <= y < world.height,
                world@.width == g.width,
                world@.height == g.height,
                world.spawn == old(world).spawn,
                forall|a: int, b: int|
                    g.inside(a, b) ==> #[trigger] world@.at(a, b) == (if b < y || (b == y && a
                        < x) {
                        grown_over(g, a, b)
                    } else {
                        g.at(a, b)
                    }),
            decreases world.width - x,
        {
            broadcast use group_grid;

            let mut t = world.tile(x, y);
            let above = world.tile(x, y - 1);
            assert(above == grown_over(g, x as int, y - 1));
            assert((above.id == TileId::Air) == (g.at(x as int, y - 1).id == TileId::Air));
            if t.id == TileId::Dirt && above.id == TileId::Air {
                t.id = TileId::Grass;
                world.set_tile(x, y, t);
            }
            x = x + 1;
        }
        y = y + 1;
    }
}

/// The `height` cells above `(x, ground)` are free.
pub open spec fn room_for_tree(g: Grid, x: int, ground: int, height: int) -> bool {
    &&& ground >= height
    &&& forall|b: int| ground - height <= b < ground ==> #[trigger] g.vacant(x, b)
}

/// The trunk cell `up` cells above the ground of a tree.
pub open spec fn trunk(t: Tile, up: int, height: int) -> Tile {
    Tile {
        id: TileId::TreeTrunk,
        state: TileState::spec_of_variant(
            if up == height {
                TREE_SEGMENT_TOP
            } else {
                TREE_SEGMENT_TRUNK
            },
        ),
        ..t
    }
}

/// A tree stands on `(x, ground)` and nothing else has changed.
pub open spec fn with_tree(before: Grid, after: Grid, x: int, ground: int, height: int) -> bool {
    &&& after.width == before.width
    &&& after.height == before.height
    &&& forall|a: int, b: int|
        before.inside(a, b) ==> #[trigger] after.at(a, b) == (if a == x && ground - height <= b
            < ground {
            trunk(before.at(a, b), ground - b, height)
        } else {
            before.at(a, b)
        })
}

/// Plants a tree whose lowest segment stands on `(x, ground)`. Plants nothing
/// if any of its cells is taken.
pub fn plant_tree(world: &mut World, x: u32, ground: u32, height: u32) -> (planted: bool)
    requires
        old(world).wf(),
    ensures
        final(world).wf(),
        final(world).spawn == old(world).spawn,
        planted == room_for_tree(old(world)@, x as int, ground as int, height as int),
        planted ==> with_tree(
            old(world)@,
            final(world)@,
            x as int,
            ground as int,
            height as int,
        ),
        !planted ==> final(world)@ == old(world)@,
{
    let ghost g = world@;
    if ground < height {
        return false;
    }
    let mut i: u32 = 0;
    while i < height
        invariant
            world.wf(),
            world@ == g,
            i <= height <= ground,
            forall|b: int| ground - i <= b < ground ==> #[trigger] g.vacant(x as int, b),
        decreases height - i,
    {
        if !world.is_empty(x, ground - i - 1) {
            assert(!g.vacant(x as int, ground - i - 1));
            return false;
        }
        i = i + 1;
    }
    let mut k: u32 = 0;
    while k < height
        invariant
            world.wf(),
            world.spawn == old(world).spawn,
            k <= height,
            room_for_tree(g, x as int, ground as int, height as int),
            world@.width == g.width,
            world@.height == g.height,
            forall|a: int, b: int|
                g.inside(a, b) ==> #[trigger] world@.at(a, b) == (if a == x && ground - k <= b
                    < ground {
                    trunk(g.at(a, b), ground - b, height as int)
                } else {
                    g.at(a, b)
                }),
        decreases height - k,
    {
        broadcast use group_grid;

        let y: u32 = ground - k - 1;
        assert(g.vacant(x as int, y as int));
        let mut t = world.tile(x, y);
        t.id = TileId::TreeTrunk;
        t.state = TileState::of_variant(
            if k + 1 == height {
                TREE_SEGMENT_TOP
            } else {
                TREE_SEGMENT_TRUNK
            },
        );
        world.set_tile(x, y, t);
        k = k + 1;
    }
    true
}

/// The random numbers of one column.
#[derive(Debug, Clone, Copy)]
pub struct FloraRoll {
    /// Columns to skip after a tree.
    pub gap: u32,
    /// Segments of a tree planted here.
    pub height: u32,
    /// A mushroom grows here.
    pub mushroom: bool,
}

/// Where the walk along the surface is with its trees.
#[derive(Debug, Clone, Copy, PartialEq, Eq, Structural)]
pub struct FloraWalk {
    /// Columns left to skip.
    pub next_tree: u32,
    /// The column of the last tree.
    pub last_tree: Option<u32>,
}

impl FloraWalk {
    /// The walk wants a tree at column `x`, if grass grows there.
    pub open spec fn wants_tree(self, x: int, separation: int) -> bool {
        &&& self.next_tree == 0
        &&& self.last_tree matches Some(last) ==> x - last >= separation
    }

    /// The walk after column `x`.
    pub open spec fn after(self, x: u32, planted: bool, gap: u32) -> FloraWalk {
        if self.next_tree > 0 {
            FloraWalk { next_tree: (self.next_tree - 1) as u32, ..self }
        } else if planted {
            FloraWalk { next_tree: gap, last_tree: Some(x) }
        } else {
            self
        }
    }

    /// The last tree, if any, stands left of column `x`.
    pub open spec fn behind(self, x: int) -> bool {
        self.last_tree matches Some(last) ==> last < x
    }
}

/// A tree is planted in column `x`, whose surface is row `sy`.
pub open spec fn plants(
    g: Grid,
    walk: FloraWalk,
    x: int,
    sy: int,
    separation: int,
    roll: FloraRoll,
) -> bool {
    &&& 0 < sy < g.height
    &&& g.at(x, sy).id == TileId::Grass
    &&& walk.wants_tree(x, separation)
    &&& room_for_tree(g, x, sy, roll.height as int)
}

/// What happens in column `x`: a tree where one is due and has room, else a
/// mushroom on the grass if one is rolled.
pub open spec fn flora_step(
    before: Grid,
    after: Grid,
    walk: FloraWalk,
    x: int,
    sy: int,
    separation: int,
    roll: FloraRoll,
) -> bool {
    let grass = 0 < sy < before.height && before.at(x, sy).id == TileId::Grass;
    if plants(before, walk, x, sy, separation, roll) {
        with_tree(before, after, x, sy, roll.height as int)
    } else if grass && roll.mushroom {
        after == before.put(
            x,
            sy,
            Tile { state: TileState::spec_of_variant(GRASS_MUSHROOM), ..before.at(x, sy) },
        )
    } else {
        after == before
    }
}

/// The foregrounds that plants are made of.
pub open spec fn greens() -> Set<TileId> {
    set![TileId::Grass, TileId::TreeTrunk]
}

proof fn lemma_flora_step_brings(
    before: Grid,
    after: Grid,
    walk: FloraWalk,
    x: int,
    sy: int,
    separation: int,
    roll: FloraRoll,
)
    requires
        before.wf(),
        0 <= x < before.width,
        after.width == before.width,
        after.height == before.height,
        flora_step(before, after, walk, x, sy, separation, roll),
    ensures
        only_brings(before, after, greens()),
{
    broadcast use group_grid;

}

/// Visits one column of the surface.
pub fn visit_column(
    world: &mut World,
    walk: FloraWalk,
    x: u32,
    sy: u32,
    separation: u32,
    roll: FloraRoll,
) -> (next: FloraWalk)
    requires
        old(world).wf(),
        x < old(world).width,
        walk.behind(x as int),
    ensures
        final(world).wf(),
        final(world).width == old(world).width,
        final(world).height == old(world).height,
        final(world).spawn == old(world).spawn,
        flora_step(
            old(world)@,
            final(world)@,
            walk,
            x as int,
            sy as int,
            separation as int,
            roll,
        ),
        next == (if 0 < sy < old(world).height {
            walk.after(
                x,
                plants(old(world)@, walk, x as int, sy as int, separation as int, roll),
                roll.gap,
            )
        } else {
            walk
        }),
{
    if sy == 0 || sy >= world.height {
        return walk;
    }
    let mut next = walk;
    let on_grass = world.tile(x, sy).id == TileId::Grass;
    let mut planted = false;
    if next.next_tree > 0 {
        next.next_tree = next.next_tree - 1;
    } else {
        let far: bool = match next.last_tree {
            Some(last) => x - last >= separation,
            None => true,
        };
        if on_grass && far && plant_tree(world, x, sy, roll.height) {
            next.last_tree = Some(x);
            next.next_tree = roll.gap;
            planted = true;
        }
    }
    if on_grass && !planted && roll.mushroom {
        let mut t = world.tile(x, sy);
        t.state = TileState::of_variant(GRASS_MUSHROOM);
        world.set_tile(x, sy, t);
    }
    next
}

/// The grids and walks of a whole pass over the surface, column by column.
pub open spec fn flora_run(
    grids: Seq<Grid>,
    walks: Seq<FloraWalk>,
    surface: Seq<u32>,
    separation: int,
    rolls: Seq<FloraRoll>,
) -> bool {
    &&& grids.len() == walks.len() == surface.len() + 1
    &&& forall|i: int| 0 <= i < grids.len() ==> (#[trigger] grids[i]).wf()
    &&& rolls.len() >= surface.len()
    &&& forall|x: int|
        #![trigger grids[x + 1]]
        #![trigger walks[x + 1]]
        0 <= x < surface.len() ==> {
            let sy = surface[x] as int;
            &&& flora_step(grids[x], grids[x + 1], walks[x], x, sy, separation, rolls[x])
            &&& walks[x + 1] == (if 0 < sy < grids[x].height {
                walks[x].after(
                    x as u32,
                    plants(grids[x], walks[x], x, sy, separation, rolls[x]),
                    rolls[x].gap,
                )
            } else {
                walks[x]
            })
        }
}

/// Grows grass, then walks the surface from left to right: trees at the
/// rolled distances where they have room, mushrooms on the remaining grass.
/// `first_gap` columns pass before the first tree.
pub fn grass_and_flora(
    world: &mut World,
    separation: u32,
    first_gap: u32,
    rolls: &Vec<FloraRoll>,
)
    requires
        old(world).wf(),
        rolls.len() >= old(world).width,
    ensures
        final(world).wf(),
        final(world).width == old(world).width,
        final(world).height == old(world).height,
        final(world).spawn == old(world).spawn,
        exists|grids: Seq<Grid>, walks: Seq<FloraWalk>, surface: Seq<u32>|
            {
                &&& #[trigger] flora_run(grids, walks, surface, separation as int, rolls@)
                &&& is_surface(grids[0], surface)
                &&& grids[0].width == old(world)@.width
                &&& grids[0].height == old(world)@.height
                &&& forall|x: int, y: int|
                    old(world)@.inside(x, y) ==> #[trigger] grids[0].at(x, y) == grown_over(
                        old(world)@,
                        x,
                        y,
                    )
                &&& walks[0] == (FloraWalk { next_tree: first_gap, last_tree: None })
                &&& grids[surface.len() as int] == final(world)@
            },
        only_brings(old(world)@, final(world)@, greens()),
{
    grow_grass(world);
    let surface = surface_scan(world);
    let mut walk = FloraWalk { next_tree: first_gap, last_tree: None };
    let ghost start = world@;
    assert(only_brings(old(world)@, start, greens()));
    let ghost mut grids: Seq<Grid> = seq![world@];
    let ghost mut walks: Seq<FloraWalk> = seq![walk];
    let mut x: u32 = 0;
    while x < world.width
        invariant
            world.wf(),
            x <= world.width,
            world.width == old(world).width,
            world.height == old(world).height,
            world.spawn == old(world).spawn,
            surface.len() == world.width,
            rolls.len() >= world.width,
            only_brings(old(world)@, world@, greens()),
            walk.behind(x as int),
            grids.len() == x + 1,
            walks.len() == x + 1,
            forall|i: int| 0 <= i < grids.len() ==> (#[trigger] grids[i]).wf(),
            grids[0] == start,
            grids[x as int] == world@,
            walks[0] == (FloraWalk { next_tree: first_gap, last_tree: None }),
            walks[x as int] == walk,
            forall|k: int|
                #![trigger grids[k + 1]]
                #![trigger walks[k + 1]]
                0 <= k < x ==> {
                    let sy = surface@[k] as int;
                    &&& flora_step(
                        grids[k],
                        grids[k + 1],
                        walks[k],
                        k,
                        sy,
                        separation as int,
                        rolls@[k],
                    )
                    &&& walks[k + 1] == (if 0 < sy < grids[k].height {
                        walks[k].after(
                            k as u32,
                            plants(grids[k], walks[k], k, sy, separation as int, rolls@[k]),
                            rolls@[k].gap,
                        )
                    } else {
                        walks[k]
                    })
                },
        decreases world.width - x,
    {
        let ghost before = world@;
        let ghost at = walk;
        walk = visit_column(world, walk, x, surface[x as usize], separation, rolls[x as usize]);
        proof {
            lemma_flora_step_brings(
                before,
                world@,
                at,
                x as int,
                surface@[x as int] as int,
                separation as int,
                rolls@[x as int],
            );
            lemma_only_brings_twice(old(world)@, before, world@, greens());
            let (grids0, walks0) = (grids, walks);
            grids = grids.push(world@);
            walks = walks.push(walk);
            assert forall|k: int|
                #![trigger grids[k + 1]]
                #![trigger walks[k + 1]]
                0 <= k < x + 1 implies {
                let sy = surface@[k] as int;
                &&& flora_step(
                    grids[k],
                    grids[k + 1],
                    walks[k],
                    k,
                    sy,
                    separation as int,
                    rolls@[k],
                )
                &&& walks[k + 1] == (if 0 < sy < grids[k].height {
                    walks[k].after(
                        k as u32,
                        plants(grids[k], walks[k], k, sy, separation as int, rolls@[k]),
                        rolls@[k].gap,
                    )
                } else {
                    walks[k]
                })
            } by {
                if k < x {
                    assert(grids[k + 1] == grids0[k + 1]);
                    assert(walks[k + 1] == walks0[k + 1]);
                }
            }
        }
        x = x + 1;
    }
    proof {
        assert(flora_run(grids, walks, surface@, separation as int, rolls@));
        assert(is_surface(grids[0], surface@));
    }
}

/// The last tree of a walk never moves left, and moves only by at least the
/// separation.
pub proof fn law_trees_keep_apart(
    walk: FloraWalk,
    x: u32,
    planted: bool,
    gap: u32,
    separation: int,
)
    requires
        planted ==> walk.wants_tree(x as int, separation),
    ensures
        ({
            let next = walk.after(x, planted, gap);
            match (walk.last_tree, next.last_tree) {
                (Some(a), Some(b)) => b == a || b - a >= separation,
                (Some(a), None) => false,
                (None, Some(b)) => b == x,
                (None, None) => true,
            }
        }),
{
}

/// Dirt under air turns to grass, and nothing else does.
pub proof fn law_grass_grows_under_air(g: Grid, x: int, y: int)
    requires
        g.inside(x, y),
    ensures
        grown_over(g, x, y).id == TileId::Grass <==> g.at(x, y).id == TileId::Grass || (y >= 1
            && g.at(x, y).id == TileId::Dirt && g.at(x, y - 1).id == TileId::Air),
        grown_over(g, x, y).id != g.at(x, y).id ==> grown_over(g, x, y).id == TileId::Grass,
        grown_over(g, x, y).wall == g.at(x, y).wall && grown_over(g, x, y).liquid == g.at(
            x,
            y,
        ).liquid,
{
}

/// A tree stands on its ground, as high as it is, and ends in its top; it
/// needs that many free cells.
pub proof fn law_trees_stand_on_their_ground(
    before: Grid,
    after: Grid,
    x: int,
    ground: int,
    height: int,
    b: int,
)
    requires
        with_tree(before, after, x, ground, height),
        before.inside(x, b),
    ensures
        ground - height <= b < ground ==> after.at(x, b).id == TileId::TreeTrunk,
        b == ground - height && height > 0 ==> after.at(x, b).state.variant == 1,
        ground - height < b < ground ==> after.at(x, b).state.variant == 0,
        b < ground - height || b >= ground ==> after.at(x, b) == before.at(x, b),
        after.at(x, b).wall == before.at(x, b).wall,
        room_for_tree(before, x, ground, height) && ground - height <= b < ground ==> before.at(
            x,
            b,
        ).id == TileId::Air,
{
    assert(after.at(x, b) == after.at(x, b));
    if room_for_tree(before, x, ground, height) && ground - height <= b < ground {
        assert(before.vacant(x, b));
    }
}

/// A tree is planted on grass, when its turn has come and far enough from the
/// last one; else a mushroom may stand on the grass.
pub proof fn law_flora_grows_on_grass(
    before: Grid,
    after: Grid,
    walk: FloraWalk,
    x: int,
    sy: int,
    separation: int,
    roll: FloraRoll,
)
    requires
        before.wf(),
        before.inside(x, sy),
        flora_step(before, after, walk, x, sy, separation, roll),
    ensures
        before.at(x, sy).id != TileId::Grass ==> after == before,
        walk.next_tree > 0 ==> !plants(before, walk, x, sy, separation, roll),
        walk.last_tree is Some && x - walk.last_tree->Some_0 < separation ==> !plants(
            before,
            walk,
            x,
            sy,
            separation,
            roll,
        ),
        walk.next_tree == 0 && walk.last_tree is None && sy > 0 && before.at(x, sy).id
            == TileId::Grass && room_for_tree(before, x, sy, roll.height as int) ==> plants(
            before,
            walk,
            x,
            sy,
            separation,
            roll,
        ),
        !plants(before, walk, x, sy, separation, roll) && sy > 0 && before.at(x, sy).id
            == TileId::Grass && roll.mushroom ==> after.at(x, sy).state.variant == 1 && after.at(
            x,
            sy,
        ).id == TileId::Grass,
        !plants(before, walk, x, sy, separation, roll) && !roll.mushroom ==> after == before,
{
    broadcast use crate::grid::group_grid;

}

/// Between trees as many columns are passed as were drawn.
pub proof fn law_gaps_are_counted_down(walk: FloraWalk, x: u32, planted: bool, gap: u32)
    ensures
        walk.next_tree > 0 ==> walk.after(x, planted, gap).next_tree == walk.next_tree - 1
            && walk.after(x, planted, gap).last_tree == walk.last_tree,
        walk.next_tree == 0 && planted ==> walk.after(x, planted, gap).next_tree == gap
            && walk.after(x, planted, gap).last_tree == Some(x),
        walk.next_tree == 0 && !planted ==> walk.after(x, planted, gap) == walk,
{
}

} // verus!
