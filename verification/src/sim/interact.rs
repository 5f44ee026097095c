//! Mining, placing and doors.

use vstd::prelude::*;

use crate::cellmap::CellMap;
use crate::chest::ChestStore;
use crate::grid::{
    box_vacant, group_grid, in_box, lemma_at_wf, part_of, spec_origin, with_object, Grid, World,
};
use crate::item::{InvSlot, ItemId, CHEST_SLOTS, HOTBAR};
use crate::sim::chunks::lemma_push_contains;
use crate::sim::edits::{
    box_edits, edited, edits_fit, lemma_box_edits, lemma_edited, lemma_edited_push,
    lemma_edited_twice, row_edits,
};
use crate::sim::live::{Live, LiveView};
use crate::sim::player::Hands;
use crate::sim::roster::{said, Outgoing, Roster};
use crate::sim::session::{change_news, edit_news};
use crate::tile::{Liquid, LiquidKind, Solidity, Tile, TileId, TileState, WallId};

verus! {

/// Wood in one segment of a tree.
pub const WOOD_PER_TREE_SEGMENT: u16 = 10;

#[derive(Debug, Clone, Copy, PartialEq, Eq, Structural)]
pub enum ToolKind {
    Pick,
    Axe,
    Hammer,
    /// Anything will do.
    Any,
    /// Nothing will.
    Unbreakable,
}

/// The tool in a hand.
#[derive(Debug, Clone, Copy, PartialEq, Eq, Structural)]
pub struct ToolStats {
    pub kind: ToolKind,
    pub power: u32,
}

/// What mining and placing need to know of a tile.
#[derive(Debug, Clone, Copy, PartialEq, Eq, Structural)]
pub struct TileData {
    pub breakable: bool,
    pub tool: ToolKind,
    pub min_power: u32,
    /// Breaks at the first hit.
    pub one_hit: bool,
    pub furniture: bool,
    pub width: u8,
    pub height: u8,
    pub drops: Option<InvSlot>,
}

pub open spec fn spec_tool_matches(required: ToolKind, tool: Option<ToolStats>) -> bool {
    match required {
        ToolKind::Any => true,
        ToolKind::Unbreakable => false,
        _ => tool matches Some(t) && t.kind == required,
    }
}

/// Whether a tool is the one a tile asks for.
pub fn tool_matches(required: ToolKind, tool: Option<ToolStats>) -> (b: bool)
    ensures
        b == spec_tool_matches(required, tool),
{
    match required {
        ToolKind::Any => true,
        ToolKind::Unbreakable => false,
        _ => match tool {
            Some(t) => t.kind == required,
            None => false,
        },
    }
}

// ---- Support ---------------------------------------------------------------

/// An inside cell that carries things: solid or a platform. The edge of the
/// world carries nothing.
pub open spec fn carries(g: Grid, x: int, y: int) -> bool {
    g.inside(x, y) && (g.at(x, y).solid() || g.at(x, y).platform())
}

/// A cell has support: a wall behind it, or something that carries beside it.
pub open spec fn supported(g: Grid, x: int, y: int) -> bool {
    ||| g.at(x, y).wall != WallId::Air
    ||| carries(g, x - 1, y)
    ||| carries(g, x + 1, y)
    ||| carries(g, x, y - 1)
    ||| carries(g, x, y + 1)
}

fn carries_at(world: &World, x: i32, y: i32) -> (b: bool)
    requires
        world.wf(),
    ensures
        b == carries(world@, x as int, y as int),
{
    if x < 0 || y < 0 || !world.in_bounds(x as u32, y as u32) {
        return false;
    }
    let t = world.tile(x as u32, y as u32);
    t.is_solid() || t.id == TileId::Platform
}

/// Whether a cell has support.
pub fn has_support(world: &World, x: u32, y: u32) -> (b: bool)
    requires
        world.wf(),
        world@.inside(x as int, y as int),
    ensures
        b == supported(world@, x as int, y as int),
{
    if world.tile(x, y).wall != WallId::Air {
        return true;
    }
    let (xi, yi): (i32, i32) = (x as i32, y as i32);
    carries_at(world, xi - 1, yi) || carries_at(world, xi + 1, yi) || carries_at(world, xi, yi - 1)
        || (yi < 0x7fff_ffff && carries_at(world, xi, yi + 1))
}

/// Every cell below the box is solid or a platform.
pub open spec fn on_floor(g: Grid, x: int, y: int, w: int, h: int) -> bool {
    forall|a: int|
        x <= a < x + w ==> #[trigger] g.solid(a, y + h) || g.platform(a, y + h)
}

/// Whether a box stands on a floor.
pub fn floor_under(world: &World, x: u32, y: u32, w: u32, h: u32) -> (b: bool)
    requires
        world.wf(),
        x + w <= i32::MAX,
        y + h <= i32::MAX,
    ensures
        b == on_floor(world@, x as int, y as int, w as int, h as int),
{
    let mut dx: u32 = 0;
    while dx < w
        invariant
            world.wf(),
            x + w <= i32::MAX,
            y + h <= i32::MAX,
            dx <= w,
            forall|a: int|
                x <= a < x + dx ==> #[trigger] world@.solid(a, y + h) || world@.platform(a, y + h),
        decreases w - dx,
    {
        let (fx, fy): (i32, i32) = ((x + dx) as i32, (y + h) as i32);
        if !world.is_solid(fx, fy) && !world.is_platform(fx, fy) {
            assert(!world@.solid(x + dx, y + h));
            return false;
        }
        dx = dx + 1;
    }
    true
}

// ---- Swings ----------------------------------------------------------------

/// A swing at `tick` is accepted: the last one was `use_ticks` ago, give or
/// take one tick.
pub open spec fn swing_due(h: Hands, tick: u64, use_ticks: u64) -> bool {
    match h.last_swing_tick {
        None => true,
        Some(last) => (if tick >= last {
            tick - last
        } else {
            0
        }) + 1 >= use_ticks,
    }
}

/// Accepts a swing that is in reach and not too fast, and remembers it.
pub fn accept_swing(h: Hands, tick: u64, use_ticks: u64, in_reach: bool) -> (r: Option<Hands>)
    ensures
        r == (if in_reach && swing_due(h, tick, use_ticks) {
            Some(Hands { last_swing_tick: Some(tick), ..h })
        } else {
            None
        }),
{
    if !in_reach {
        return None;
    }
    match h.last_swing_tick {
        Some(last) => {
            let passed: u64 = tick.saturating_sub(last);
            if passed < u64::MAX && passed + 1 < use_ticks {
                return None;
            }
        },
        None => {},
    }
    let mut next = h;
    next.last_swing_tick = Some(tick);
    Some(next)
}

/// What a hit on a tile does.
#[derive(Debug, Clone, Copy, PartialEq, Eq, Structural)]
pub enum Hit {
    /// The tool is wrong or too weak.
    Nothing,
    /// The tile breaks at once.
    Breaks,
    /// The tile takes damage.
    Damages,
}

pub open spec fn spec_hit_effect(data: TileData, tool: Option<ToolStats>, deals: bool) -> Hit {
    let power = match tool {
        Some(t) => t.power,
        None => 0,
    };
    if !spec_tool_matches(data.tool, tool) || power < data.min_power {
        Hit::Nothing
    } else if data.one_hit {
        Hit::Breaks
    } else if deals {
        Hit::Damages
    } else {
        Hit::Nothing
    }
}

/// What an accepted swing does to a tile; `deals` says whether the tool's
/// power and the tile's hardness leave any damage.
pub fn hit_effect(data: &TileData, tool: Option<ToolStats>, deals: bool) -> (h: Hit)
    ensures
        h == spec_hit_effect(*data, tool, deals),
{
    let power: u32 = match tool {
        Some(t) => t.power,
        None => 0,
    };
    if !tool_matches(data.tool, tool) || power < data.min_power {
        Hit::Nothing
    } else if data.one_hit {
        Hit::Breaks
    } else if deals {
        Hit::Damages
    } else {
        Hit::Nothing
    }
}

/// Whether a tile can be hit at all: not air, and not unbreakable.
pub fn is_target(id: TileId, data: &TileData) -> (b: bool)
    ensures
        b == (id != TileId::Air && data.breakable),
{
    id != TileId::Air && data.breakable
}

/// Damage dealt to a cell: its amount as a number only the physics reads, and
/// when it was last hit.
#[derive(Debug, Clone, Copy, PartialEq, Eq, Structural)]
pub struct TileDamage {
    pub damage: u32,
    pub last_hit_tick: u64,
}

/// Damage after one more hit.
#[derive(Debug, Clone, Copy, PartialEq, Eq, Structural)]
pub struct DamageSum {
    pub damage: u32,
    /// It is enough to break the cell.
    pub breaks: bool,
}

/// The hit counts alone: there was no damage, or it has worn off.
pub open spec fn damage_worn_off(entry: Option<TileDamage>, tick: u64, reset_ticks: u64) -> bool {
    match entry {
        None => true,
        Some(d) => (if tick >= d.last_hit_tick {
            tick - d.last_hit_tick
        } else {
            0
        }) > reset_ticks,
    }
}

/// Adds a hit to the damage of a cell. `alone` is what the hit comes to by
/// itself, `added` what it comes to on top of the damage there. Returns the
/// sum that counts; a broken cell keeps no damage.
pub fn apply_damage(
    map: &mut CellMap<TileDamage>,
    cell: (u32, u32),
    tick: u64,
    reset_ticks: u64,
    alone: DamageSum,
    added: DamageSum,
) -> (sum: DamageSum)
    requires
    ensures
        ({
            let entry = if old(map)@.dom().contains(cell) {
                Some(old(map)@[cell])
            } else {
                None
            };
            sum == (if damage_worn_off(entry, tick, reset_ticks) {
                alone
            } else {
                added
            })
        }),
        final(map)@ == (if sum.breaks {
            old(map)@.remove(cell)
        } else {
            old(map)@.insert(
                cell,
                (TileDamage { damage: sum.damage, last_hit_tick: tick }),
            )
        }),
{
    let worn: bool = match map.get(cell) {
        None => true,
        Some(d) => tick.saturating_sub(d.last_hit_tick) > reset_ticks,
    };
    let sum: DamageSum = if worn {
        alone
    } else {
        added
    };
    if sum.breaks {
        map.remove(cell);
    } else {
        map.insert(cell, TileDamage { damage: sum.damage, last_hit_tick: tick });
    }
    sum
}

/// Forgets damage that has worn off.
pub fn purge_stale_damage(map: &mut CellMap<TileDamage>, tick: u64, reset_ticks: u64)
    requires
    ensures
        forall|c: (u32, u32)| #[trigger]
            final(map)@.dom().contains(c) <==> old(map)@.dom().contains(c) && !damage_worn_off(
                Some(old(map)@[c]),
                tick,
                reset_ticks,
            ),
        forall|c: (u32, u32)| #[trigger]
            final(map)@.dom().contains(c) ==> final(map)@[c] == old(map)@[c],
{
    let ghost before = map@;
    let cells = map.cells();
    let mut i: usize = 0;
    assert(cells@.take(0) =~= Seq::<(u32, u32)>::empty());
    while i < cells.len()
        invariant
            i <= cells.len(),
            before == old(map)@,
            cells@.no_duplicates(),
            forall|c: (u32, u32)| #[trigger] cells@.contains(c) <==> before.dom().contains(c),
            forall|c: (u32, u32)| #[trigger]
                map@.dom().contains(c) <==> before.dom().contains(c) && !(cells@.take(
                    i as int,
                ).contains(c) && damage_worn_off(Some(before[c]), tick, reset_ticks)),
            forall|c: (u32, u32)| #[trigger] map@.dom().contains(c) ==> map@[c] == before[c],
        decreases cells.len() - i,
    {
        let c: (u32, u32) = cells[i];
        proof {
            let t0 = cells@.take(i as int);
            assert(cells@.contains(cells@[i as int]));
            assert(cells@.take(i + 1) =~= t0.push(c));
            lemma_push_contains(t0, c);
            if t0.contains(c) {
                let k = t0.index_of(c);
                assert(cells@[k] == cells@[i as int]);
            }
        }
        if let Some(d) = map.get(c) {
            if tick.saturating_sub(d.last_hit_tick) > reset_ticks {
                map.remove(c);
            }
        }
        i = i + 1;
    }
    assert(cells@.take(i as int) =~= cells@);
}

// ---- Breaking --------------------------------------------------------------

/// Items that fall out at a place, given in half cells.
#[derive(Debug, Clone, Copy, PartialEq, Eq, Structural)]
pub struct Drop {
    pub stack: InvSlot,
    pub half_x: u64,
    pub half_y: u64,
}

/// Items at the middle of a cell.
pub open spec fn drop_at(item: ItemId, count: u16, x: int, y: int) -> Drop {
    Drop {
        stack: InvSlot { item, count },
        half_x: (2 * x + 1) as u64,
        half_y: (2 * y + 1) as u64,
    }
}

pub open spec fn opened(t: Tile) -> Tile {
    Tile { id: TileId::Air, state: t.state.spec_wall_only(), ..t }
}

impl Tile {
    /// The tile with its foreground cleared; wall, liquid and the mark of a
    /// placed wall stay.
    pub fn opened(self) -> (t: Tile)
        ensures
            t == opened(self),
            self.wf() ==> t.wf(),
    {
        Tile { id: TileId::Air, state: self.state.wall_only(), ..self }
    }
}

/// Segments of the tree from row `y` up.
pub open spec fn tree_height(g: Grid, x: int, y: int) -> nat
    decreases y + 1,
{
    if y < 0 || g.at(x, y).id != TileId::TreeTrunk {
        0
    } else {
        1 + tree_height(g, x, y - 1)
    }
}

/// The cells from `(x, y)` up, `n` of them.
pub open spec fn column_up(x: int, y: int, n: nat) -> Seq<(u32, u32)> {
    Seq::new(n, |k: int| (x as u32, (y - k) as u32))
}

/// What `n` segments from row `y` up drop: wood each, and acorns as rolled.
pub open spec fn tree_drops(x: int, y: int, acorns: Seq<bool>, n: nat) -> Seq<Drop>
    decreases n,
{
    if n == 0 {
        seq![]
    } else {
        let k = n - 1;
        let before = tree_drops(x, y, acorns, k as nat).push(
            drop_at(ItemId::Wood, WOOD_PER_TREE_SEGMENT, x, y - k),
        );
        if acorns[k] {
            before.push(drop_at(ItemId::Acorn, 1, x, y - k))
        } else {
            before
        }
    }
}

/// A tree is felled at `(x, y)`: its segments from there up are gone.
pub open spec fn felled(before: Grid, after: Grid, x: int, y: int) -> bool {
    let n = tree_height(before, x, y);
    &&& after.width == before.width
    &&& after.height == before.height
    &&& forall|a: int, b: int|
        before.inside(a, b) ==> #[trigger] after.at(a, b) == (if a == x && y - n < b <= y {
            opened(before.at(a, b))
        } else {
            before.at(a, b)
        })
}

/// The height of a tree depends only on the cells from its foot up.
proof fn lemma_tree_height_same(g: Grid, h: Grid, x: int, y: int)
    requires
        forall|b: int| 0 <= b <= y ==> #[trigger] g.at(x, b) == h.at(x, b),
    ensures
        tree_height(g, x, y) == tree_height(h, x, y),
    decreases y + 1,
{
    if y >= 0 && g.at(x, y).id == TileId::TreeTrunk {
        lemma_tree_height_same(g, h, x, y - 1);
    }
}

/// The tree is no taller than its distance to the top of the world.
proof fn lemma_tree_height_bound(g: Grid, x: int, y: int)
    ensures
        y >= -1 ==> tree_height(g, x, y) <= y + 1,
    decreases y + 1,
{
    if y >= 0 && g.at(x, y).id == TileId::TreeTrunk {
        lemma_tree_height_bound(g, x, y - 1);
    }
}

/// The edits that open `n` segments from row `y` up.
pub open spec fn tree_edits(g: Grid, x: int, y: int, n: nat) -> Seq<(u32, u32, Tile)> {
    Seq::new(n, |k: int| (x as u32, (y - k) as u32, opened(g.at(x, y - k))))
}

proof fn lemma_tree_edits(g: Grid, x: int, y: int, n: nat)
    requires
        g.wf(),
        g.width <= u32::MAX,
        g.height <= u32::MAX,
        g.inside(x, y),
        n <= y + 1,
    ensures
        ({
            let h = edited(g, tree_edits(g, x, y, n));
            &&& edits_fit(g, tree_edits(g, x, y, n))
            &&& h.wf()
            &&& h.width == g.width
            &&& h.height == g.height
            &&& forall|a: int, b: int|
                g.inside(a, b) ==> #[trigger] h.at(a, b) == (if a == x && y - n < b <= y {
                    opened(g.at(a, b))
                } else {
                    g.at(a, b)
                })
        }),
    decreases n,
{
    broadcast use group_grid;

    let edits = tree_edits(g, x, y, n);
    assert forall|i: int| 0 <= i < edits.len() implies g.inside(
        (#[trigger] edits[i]).0 as int,
        edits[i].1 as int,
    ) && edits[i].2.wf() by {
        lemma_at_wf(g, x, y - i);
    }
    if n > 0 {
        let m = (n - 1) as nat;
        lemma_tree_edits(g, x, y, m);
        let less = tree_edits(g, x, y, m);
        assert(edits.drop_last() =~= less);
        let (h0, h) = (edited(g, less), edited(g, edits));
        assert(edits_fit(g, edits));
        lemma_edited(g, edits);
        assert forall|a: int, b: int| g.inside(a, b) implies #[trigger] h.at(a, b) == (if a == x && y
            - n < b <= y {
            opened(g.at(a, b))
        } else {
            g.at(a, b)
        }) by {
            assert(h0.at(a, b) == h0.at(a, b));
            assert(h0.inside(a, b));
        }
    }
}

/// The edits do fell the tree.
pub proof fn lemma_felled(g: Grid, x: int, y: int)
    requires
        g.wf(),
        g.width <= u32::MAX,
        g.height <= u32::MAX,
        g.inside(x, y),
    ensures
        edits_fit(g, tree_edits(g, x, y, tree_height(g, x, y))),
        felled(g, edited(g, tree_edits(g, x, y, tree_height(g, x, y))), x, y),
{
    lemma_tree_height_bound(g, x, y);
    lemma_tree_edits(g, x, y, tree_height(g, x, y));
}

/// Plans the fall of the tree from `(x, y)` up. Every segment drops wood, and
/// an acorn where `acorns` says so, counted from the foot.
pub fn fell_tree(
    world: &World,
    x: u32,
    y: u32,
    acorns: &Vec<bool>,
    edits: &mut Vec<(u32, u32, Tile)>,
    drops: &mut Vec<Drop>,
)
    requires
        world.wf(),
        world@.inside(x as int, y as int),
        acorns.len() > y,
    ensures
        final(edits)@ == old(edits)@ + tree_edits(
            world@,
            x as int,
            y as int,
            tree_height(world@, x as int, y as int),
        ),
        final(drops)@ == old(drops)@ + tree_drops(
            x as int,
            y as int,
            acorns@,
            tree_height(world@, x as int, y as int),
        ),
{
    let ghost g = world@;
    let ghost total = tree_height(g, x as int, y as int);
    proof {
        lemma_tree_height_bound(g, x as int, y as int);
    }
    let mut k: u32 = 0;
    assert(edits@ =~= old(edits)@ + tree_edits(g, x as int, y as int, 0));
    assert(drops@ =~= old(drops)@ + tree_drops(x as int, y as int, acorns@, 0));
    while k <= y && world.tile(x, y - k).id == TileId::TreeTrunk
        invariant
            world.wf(),
            g == world@,
            g.inside(x as int, y as int),
            acorns.len() > y,
            k <= y + 1,
            total == tree_height(g, x as int, y as int),
            total == k + tree_height(g, x as int, y - k),
            total <= y + 1,
            edits@ == old(edits)@ + tree_edits(g, x as int, y as int, k as nat),
            drops@ == old(drops)@ + tree_drops(x as int, y as int, acorns@, k as nat),
        decreases y + 1 - k,
    {
        let row: u32 = y - k;
        edits.push((x, row, world.tile(x, row).opened()));
        assert(edits@ =~= old(edits)@ + tree_edits(g, x as int, y as int, (k + 1) as nat));
        let (hx, hy): (u64, u64) = (2 * (x as u64) + 1, 2 * (row as u64) + 1);
        drops.push(
            Drop {
                stack: InvSlot { item: ItemId::Wood, count: WOOD_PER_TREE_SEGMENT },
                half_x: hx,
                half_y: hy,
            },
        );
        if acorns[k as usize] {
            drops.push(
                Drop {
                    stack: InvSlot { item: ItemId::Acorn, count: 1 },
                    half_x: hx,
                    half_y: hy,
                },
            );
        }
        assert(drops@ =~= old(drops)@ + tree_drops(
            x as int,
            y as int,
            acorns@,
            (k + 1) as nat,
        ));
        k = k + 1;
    }
}

/// What happens above a solid cell that is opened: a tree falls, a sapling is
/// lost.
pub open spec fn toppled(before: Grid, after: Grid, x: int, y: int) -> bool {
    if y >= 0 && before.at(x, y).id == TileId::TreeTrunk {
        felled(before, after, x, y)
    } else if y >= 0 && before.at(x, y).id == TileId::Sapling {
        after == before.put(x, y, opened(before.at(x, y)))
    } else {
        after == before
    }
}

/// `after` is `before` with the foreground of `(x, y)` cleared.
pub open spec fn cleared(before: Grid, after: Grid, x: int, y: int) -> bool {
    let mid = before.put(x, y, opened(before.at(x, y)));
    if before.at(x, y).solid() {
        toppled(mid, after, x, y - 1)
    } else {
        after == mid
    }
}

/// What stood on a cell that is cleared.
pub open spec fn stood_on(g: Grid, x: int, y: int) -> TileId {
    if g.at(x, y).solid() && y > 0 {
        g.at(x, y - 1).id
    } else {
        TileId::Air
    }
}

/// The edits that clear `(x, y)`: it, and what stood on it.
pub open spec fn clear_edits(g: Grid, x: int, y: int) -> Seq<(u32, u32, Tile)> {
    seq![(x as u32, y as u32, opened(g.at(x, y)))] + (match stood_on(g, x, y) {
        TileId::TreeTrunk => tree_edits(g, x, y - 1, tree_height(g, x, y - 1)),
        TileId::Sapling => seq![(x as u32, (y - 1) as u32, opened(g.at(x, y - 1)))],
        _ => seq![],
    })
}

/// The edits do clear the cell.
proof fn lemma_clear_edits(g: Grid, x: int, y: int)
    requires
        g.wf(),
        g.width <= u32::MAX,
        g.height <= u32::MAX,
        g.inside(x, y),
    ensures
        edits_fit(g, clear_edits(g, x, y)),
        cleared(g, edited(g, clear_edits(g, x, y)), x, y),
{
    broadcast use group_grid;

    let t = opened(g.at(x, y));
    let e = (x as u32, y as u32, t);
    let first = seq![e];
    let mid = g.put(x, y, t);
    lemma_at_wf(g, x, y);
    assert(first.drop_last() =~= Seq::<(u32, u32, Tile)>::empty());
    assert(edited(g, first.drop_last()) == g);
    assert(edited(g, first) == mid);
    assert(mid.wf() && mid.width == g.width && mid.height == g.height) by {
        assert(edits_fit(g, first));
        lemma_edited(g, first);
    }
    match stood_on(g, x, y) {
        TileId::TreeTrunk => {
            let n = tree_height(g, x, y - 1);
            assert forall|b: int| 0 <= b <= y - 1 implies #[trigger] mid.at(x, b) == g.at(x, b) by {
                assert(g.inside(x, b));
            }
            lemma_tree_height_same(mid, g, x, y - 1);
            lemma_tree_height_bound(g, x, y - 1);
            let rest = tree_edits(g, x, y - 1, n);
            assert forall|k: int| 0 <= k < n implies mid.at(x, y - 1 - k) == #[trigger] g.at(
                x,
                y - 1 - k,
            ) by {}
            assert(rest =~= tree_edits(mid, x, y - 1, n));
            lemma_tree_edits(mid, x, y - 1, n);
            lemma_tree_edits(g, x, y - 1, n);
            lemma_edited_twice(g, first, rest);
        },
        TileId::Sapling => {
            let d = (x as u32, (y - 1) as u32, opened(g.at(x, y - 1)));
            lemma_at_wf(g, x, y - 1);
            assert(clear_edits(g, x, y) =~= first.push(d));
            lemma_edited_push(g, first, d);
            assert(mid.at(x, y - 1) == g.at(x, y - 1));
        },
        _ => {
            assert(clear_edits(g, x, y) =~= first);
            if y > 0 {
                assert(g.inside(x, y - 1));
                assert(mid.at(x, y - 1) == g.at(x, y - 1));
            }
        },
    }
}

/// What falls to the ground when `(x, y)` is cleared.
pub open spec fn clear_drops(g: Grid, x: int, y: int, acorns: Seq<bool>) -> Seq<Drop> {
    if stood_on(g, x, y) == TileId::TreeTrunk {
        tree_drops(x, y - 1, acorns, tree_height(g, x, y - 1))
    } else {
        seq![]
    }
}

/// The saplings that are left when `(x, y)` is cleared.
pub open spec fn clear_saplings(
    saplings: Map<(u32, u32), u64>,
    g: Grid,
    x: int,
    y: int,
) -> Map<(u32, u32), u64> {
    if stood_on(g, x, y) == TileId::Sapling {
        saplings.remove((x as u32, (y - 1) as u32))
    } else {
        saplings
    }
}

/// Plans the clearing of a cell; what grew on it goes too: a tree above falls,
/// a sapling above is lost.
pub fn clear_cell(
    world: &World,
    saplings: &mut CellMap<u64>,
    x: u32,
    y: u32,
    acorns: &Vec<bool>,
    edits: &mut Vec<(u32, u32, Tile)>,
    drops: &mut Vec<Drop>,
)
    requires
        world.wf(),
        world@.inside(x as int, y as int),
        acorns.len() > y,
    ensures
        final(saplings)@ == clear_saplings(old(saplings)@, world@, x as int, y as int),
        final(edits)@ == old(edits)@ + clear_edits(world@, x as int, y as int),
        final(drops)@ == old(drops)@ + clear_drops(world@, x as int, y as int, acorns@),
        edits_fit(world@, clear_edits(world@, x as int, y as int)),
        cleared(
            world@,
            edited(world@, clear_edits(world@, x as int, y as int)),
            x as int,
            y as int,
        ),
{
    let ghost g = world@;
    proof {
        lemma_clear_edits(g, x as int, y as int);
    }
    let t = world.tile(x, y);
    edits.push((x, y, t.opened()));
    if t.is_solid() && y > 0 {
        let above = world.tile(x, y - 1);
        if above.id == TileId::TreeTrunk {
            fell_tree(world, x, y - 1, acorns, edits, drops);
        } else if above.id == TileId::Sapling {
            saplings.remove((x, y - 1));
            edits.push((x, y - 1, above.opened()));
        }
    }
    assert(edits@ =~= old(edits)@ + clear_edits(g, x as int, y as int));
    assert(drops@ =~= old(drops)@ + clear_drops(g, x as int, y as int, acorns@));
}

/// Somebody's things are in the slots.
pub open spec fn occupied(slots: Seq<Option<InvSlot>>) -> bool {
    exists|i: int| 0 <= i < slots.len() && #[trigger] slots[i] is Some
}

fn is_occupied(slots: &Vec<Option<InvSlot>>) -> (b: bool)
    ensures
        b == occupied(slots@),
{
    let mut i: usize = 0;
    while i < slots.len()
        invariant
            i <= slots.len(),
            forall|k: int| 0 <= k < i ==> #[trigger] slots@[k] is None,
        decreases slots.len() - i,
    {
        if slots[i].is_some() {
            assert(slots@[i as int] is Some);
            return true;
        }
        i = i + 1;
    }
    false
}

/// A cell of the object `id` in the box at `(ox, oy)`.
pub open spec fn object_cell(
    g: Grid,
    id: TileId,
    ox: int,
    oy: int,
    w: int,
    h: int,
    a: int,
    b: int,
) -> bool {
    in_box(ox, oy, w, h, a, b) && g.inside(a, b) && g.at(a, b).id == id
}

/// The object `id` is gone from the box, and nothing else has changed.
pub open spec fn without_object(
    before: Grid,
    after: Grid,
    id: TileId,
    ox: int,
    oy: int,
    w: int,
    h: int,
) -> bool {
    &&& after.width == before.width
    &&& after.height == before.height
    &&& forall|a: int, b: int|
        before.inside(a, b) ==> #[trigger] after.at(a, b) == (if object_cell(
            before,
            id,
            ox,
            oy,
            w,
            h,
            a,
            b,
        ) {
            opened(before.at(a, b))
        } else {
            before.at(a, b)
        })
}

/// What becomes of the cells of the object `id` when it goes.
pub open spec fn object_gone(g: Grid, id: TileId) -> spec_fn(int, int) -> Option<Tile> {
    |a: int, b: int|
        if g.inside(a, b) && g.at(a, b).id == id {
            Some(opened(g.at(a, b)))
        } else {
            None
        }
}

/// The edits that clear an object, row by row.
pub open spec fn object_edits(g: Grid, id: TileId, ox: int, oy: int, w: int, h: int) -> Seq<
    (u32, u32, Tile),
> {
    box_edits(object_gone(g, id), ox, oy, w as nat, h as nat)
}

/// The edits do clear the object.
proof fn lemma_object_edits(g: Grid, id: TileId, ox: int, oy: int, w: int, h: int)
    requires
        g.wf(),
        g.width <= u32::MAX,
        g.height <= u32::MAX,
        0 <= ox,
        0 <= oy,
        0 <= w,
        0 <= h,
    ensures
        edits_fit(g, object_edits(g, id, ox, oy, w, h)),
        without_object(g, edited(g, object_edits(g, id, ox, oy, w, h)), id, ox, oy, w, h),
{
    let f = object_gone(g, id);
    assert forall|a: int, b: int| (#[trigger] f(a, b)) is Some implies g.inside(a, b) && f(
        a,
        b,
    )->Some_0.wf() by {
        lemma_at_wf(g, a, b);
    }
    lemma_box_edits(g, f, ox, oy, w as nat, h as nat, 0);
    let edits = object_edits(g, id, ox, oy, w, h);
    assert(edits + row_edits(f, ox, oy + h, 0) =~= edits);
    let after = edited(g, edits);
    assert forall|a: int, b: int| g.inside(a, b) implies #[trigger] after.at(a, b) == (
    if object_cell(g, id, ox, oy, w, h, a, b) {
        opened(g.at(a, b))
    } else {
        g.at(a, b)
    }) by {
        assert(f(a, b) is Some <==> g.at(a, b).id == id);
    }
}

/// Plans the clearing of the cells of an object.
fn clear_object(
    world: &World,
    id: TileId,
    ox: u32,
    oy: u32,
    w: u32,
    h: u32,
    edits: &mut Vec<(u32, u32, Tile)>,
)
    requires
        world.wf(),
        ox + w <= u32::MAX,
        oy + h <= u32::MAX,
    ensures
        final(edits)@ == old(edits)@ + object_edits(
            world@,
            id,
            ox as int,
            oy as int,
            w as int,
            h as int,
        ),
{
    let ghost f = object_gone(world@, id);
    let ghost base = edits@;
    let mut dy: u32 = 0;
    assert(edits@ =~= base + box_edits(f, ox as int, oy as int, w as nat, 0));
    while dy < h
        invariant
            world.wf(),
            f == object_gone(world@, id),
            ox + w <= u32::MAX,
            oy + h <= u32::MAX,
            dy <= h,
            edits@ == base + box_edits(f, ox as int, oy as int, w as nat, dy as nat),
        decreases h - dy,
    {
        let ghost above = edits@;
        let mut dx: u32 = 0;
        assert(edits@ =~= above + row_edits(f, ox as int, oy + dy, 0));
        while dx < w
            invariant
                world.wf(),
                f == object_gone(world@, id),
                ox + w <= u32::MAX,
                oy + h <= u32::MAX,
                dy < h,
                dx <= w,
                edits@ == above + row_edits(f, ox as int, oy + dy, dx as nat),
            decreases w - dx,
        {
            let (x, y): (u32, u32) = (ox + dx, oy + dy);
            if world.in_bounds(x, y) {
                let t = world.tile(x, y);
                if t.id == id {
                    edits.push((x, y, t.opened()));
                }
            }
            assert(edits@ =~= above + row_edits(f, ox as int, oy + dy, (dx + 1) as nat));
            dx = dx + 1;
        }
        assert(edits@ =~= base + box_edits(f, ox as int, oy as int, w as nat, (dy + 1) as nat));
        dy = dy + 1;
    }
}

/// A chest that holds something cannot be broken.
pub open spec fn chest_blocked(
    id: TileId,
    chests: Map<(u32, u32), Seq<Option<InvSlot>>>,
    origin: (u32, u32),
) -> bool {
    id == TileId::Chest && chests.dom().contains(origin) && occupied(chests[origin])
}

/// Plans the end of the multi-cell object at `(x, y)`, which breaks as a
/// whole; a chest goes with its contents' entry. Returns whether it breaks.
pub fn break_multitile(
    world: &World,
    chests: &mut ChestStore,
    x: u32,
    y: u32,
    data: &TileData,
    edits: &mut Vec<(u32, u32, Tile)>,
    drops: &mut Vec<Drop>,
) -> (broke: bool)
    requires
        world.wf(),
        old(chests).wf(),
        world@.inside(x as int, y as int),
    ensures
        final(chests).wf(),
        ({
            let g = world@;
            let o = spec_origin(g, x, y);
            let id = g.at(o.0 as int, o.1 as int).id;
            let (w, h) = (data.width as int, data.height as int);
            &&& broke == !chest_blocked(id, old(chests)@, o)
            &&& broke ==> {
                let list = object_edits(g, id, o.0 as int, o.1 as int, w, h);
                &&& final(edits)@ == old(edits)@ + list
                &&& edits_fit(g, list)
                &&& without_object(g, edited(g, list), id, o.0 as int, o.1 as int, w, h)
                &&& final(chests)@ == (if id == TileId::Chest {
                    old(chests)@.remove(o)
                } else {
                    old(chests)@
                })
                &&& final(drops)@ == (match data.drops {
                    Some(stack) => old(drops)@.push(
                        Drop {
                            stack,
                            half_x: (2 * o.0 + w) as u64,
                            half_y: (2 * o.1 + h) as u64,
                        },
                    ),
                    None => old(drops)@,
                })
            }
            &&& !broke ==> {
                &&& final(chests)@ == old(chests)@
                &&& final(edits)@ == old(edits)@
                &&& final(drops)@ == old(drops)@
            }
        }),
{
    let o: (u32, u32) = world.multitile_origin(x, y);
    let id: TileId = world.tile(o.0, o.1).id;
    proof {
        lemma_object_edits(
            world@,
            id,
            o.0 as int,
            o.1 as int,
            data.width as int,
            data.height as int,
        );
    }
    if id == TileId::Chest {
        let full: bool = match chests.get(o) {
            Some(slots) => is_occupied(slots),
            None => false,
        };
        if full {
            return false;
        }
        chests.remove(o);
    }
    clear_object(world, id, o.0, o.1, data.width as u32, data.height as u32, edits);
    match data.drops {
        Some(stack) => {
            drops.push(
                Drop {
                    stack,
                    half_x: 2 * (o.0 as u64) + data.width as u64,
                    half_y: 2 * (o.1 as u64) + data.height as u64,
                },
            );
        },
        None => {},
    }
    true
}

/// How a foreground breaks.
#[derive(Debug, Clone, Copy, PartialEq, Eq, Structural)]
pub enum Breaking {
    Nothing,
    /// The tree falls from here up.
    Tree,
    /// The pot gives way to loot.
    Pot,
    Sapling,
    /// Furniture breaks as a whole.
    Object,
    /// A plain cell.
    Plain,
}

/// How the foreground `id` breaks.
pub fn breaking(id: TileId, data: &TileData) -> (b: Breaking)
    ensures
        b == (match id {
            TileId::Air => Breaking::Nothing,
            TileId::TreeTrunk => Breaking::Tree,
            TileId::Pot => Breaking::Pot,
            TileId::Sapling => Breaking::Sapling,
            _ => if data.width != 1 || data.height != 1 {
                Breaking::Object
            } else {
                Breaking::Plain
            },
        }),
        id == TileId::Air <==> b is Nothing,
        id == TileId::TreeTrunk <==> b is Tree,
        id == TileId::Pot <==> b is Pot,
        id == TileId::Sapling <==> b is Sapling,
        b is Object ==> data.width > 1 || data.height > 1 || data.width == 0 || data.height == 0,
{
    match id {
        TileId::Air => Breaking::Nothing,
        TileId::TreeTrunk => Breaking::Tree,
        TileId::Pot => Breaking::Pot,
        TileId::Sapling => Breaking::Sapling,
        _ => if data.width != 1 || data.height != 1 {
            Breaking::Object
        } else {
            Breaking::Plain
        },
    }
}

/// What a broken wall leaves: only one placed by a player drops its item.
pub open spec fn wall_gone(t: Tile) -> Tile {
    Tile { wall: WallId::Air, state: TileState { wall_placed: false, ..t.state }, ..t }
}

impl Live {
    /// Breaks the wall of a cell; `item` is what a placed one leaves.
    pub fn break_wall(
        &mut self,
        roster: &Roster,
        x: u32,
        y: u32,
        item: Option<ItemId>,
        tick: u64,
        drops: &mut Vec<Drop>,
        out: &mut Vec<Outgoing>,
    )
        requires
            old(self).wf(),
            old(self).world@.inside(x as int, y as int),
        ensures
            final(self).wf(),
            final(self).world.width == old(self).world.width,
            final(self).world.height == old(self).world.height,
            ({
                let e = (x, y, wall_gone(old(self)@.grid.at(x as int, y as int)));
                &&& final(self)@ == old(self)@.change(e, tick)
                &&& said(final(out)@) == said(old(out)@) + change_news(roster.players@, e)
            }),
            final(drops)@ == (match item {
                Some(i) if old(self)@.grid.at(x as int, y as int).state.wall_placed => old(
                    drops,
                )@.push(drop_at(i, 1, x as int, y as int)),
                _ => old(drops)@,
            }),
    {
        let mut t = self.world.tile(x, y);
        if t.state.wall_placed {
            match item {
                Some(i) => {
                    drops.push(
                        Drop {
                            stack: InvSlot { item: i, count: 1 },
                            half_x: 2 * (x as u64) + 1,
                            half_y: 2 * (y as u64) + 1,
                        },
                    );
                },
                None => {},
            }
        }
        t.wall = WallId::Air;
        t.state.wall_placed = false;
        self.change_tile(roster, x, y, t, tick, out);
    }
}

// ---- Placing ---------------------------------------------------------------

/// The rule that a placed tile keeps to.
pub open spec fn place_rule(g: Grid, id: TileId, data: TileData, x: int, y: int) -> bool {
    let (w, h) = (data.width as int, data.height as int);
    match id {
        TileId::Sapling => y + 1 < g.height && g.at(x, y + 1).id == TileId::Grass,
        TileId::Torch => g.at(x, y).liquid.spec_kind() != Some(LiquidKind::Water) && supported(
            g,
            x,
            y,
        ),
        TileId::Door => y > 0 && g.solid(x, y - 1) && g.solid(x, y + h),
        _ => if data.furniture && (w != 1 || h != 1) {
            on_floor(g, x, y, w, h)
        } else if data.furniture {
            on_floor(g, x, y, w, h) || supported(g, x, y)
        } else {
            supported(g, x, y)
        },
    }
}

/// The tile `id` may be placed at `(x, y)`: its cells are free, its rule
/// holds, and a solid one hits nobody.
pub open spec fn placeable(
    g: Grid,
    id: TileId,
    data: TileData,
    x: int,
    y: int,
    overlaps: bool,
) -> bool {
    &&& box_vacant(g, x, y, data.width as int, data.height as int)
    &&& place_rule(g, id, data, x, y)
    &&& !(id.spec_solidity() == Solidity::Solid && overlaps)
}

/// Whether `id` may be placed; `overlaps` says whether its cells hold a
/// player or another body.
pub fn can_place(world: &World, id: TileId, data: &TileData, x: u32, y: u32, overlaps: bool) -> (b:
    bool)
    requires
        world.wf(),
        world@.inside(x as int, y as int),
        data.width >= 1,
        data.height >= 1,
    ensures
        b == placeable(world@, id, *data, x as int, y as int, overlaps),
{
    let (w, h): (u32, u32) = (data.width as u32, data.height as u32);
    if !world.box_is_vacant(x, y, w, h) {
        return false;
    }
    proof {
        assert(in_box(x as int, y as int, w as int, h as int, x + w - 1, y + h - 1));
        assert(world@.vacant(x + w - 1, y + h - 1));
    }
    let rule: bool = match id {
        TileId::Sapling => y + 1 < world.height && world.tile(x, y + 1).id == TileId::Grass,
        TileId::Torch => !world.tile(x, y).liquid.holds(LiquidKind::Water) && has_support(
            world,
            x,
            y,
        ),
        TileId::Door => y > 0 && world.is_solid(x as i32, y as i32 - 1) && world.is_solid(
            x as i32,
            (y + h) as i32,
        ),
        _ => if data.furniture && (w != 1 || h != 1) {
            floor_under(world, x, y, w, h)
        } else if data.furniture {
            floor_under(world, x, y, w, h) || has_support(world, x, y)
        } else {
            has_support(world, x, y)
        },
    };
    rule && !(id.solidity() == Solidity::Solid && overlaps)
}

/// A single placed tile: it replaces the foreground, and a solid one the
/// liquid too.
pub open spec fn placed_tile(t: Tile, id: TileId) -> Tile {
    Tile {
        id,
        state: t.state.spec_wall_only(),
        liquid: if id.spec_solidity() == Solidity::Solid {
            Liquid::Empty
        } else {
            t.liquid
        },
        ..t
    }
}

/// The tile `id` stands at `(x, y)`.
pub open spec fn placed(
    before: Grid,
    after: Grid,
    id: TileId,
    data: TileData,
    x: int,
    y: int,
) -> bool {
    if data.width == 1 && data.height == 1 {
        after == before.put(x, y, placed_tile(before.at(x, y), id))
    } else {
        with_object(before, after, id, x, y, data.width as int, data.height as int)
    }
}

/// A request to place something: which slot of the hotbar, where, and what
/// the rules around it found out.
#[derive(Debug, Clone, Copy)]
pub struct Placing {
    pub slot: u8,
    pub x: u32,
    pub y: u32,
    pub in_reach: bool,
    /// The cells hold a player or another body.
    pub overlaps: bool,
    /// When a sapling planted now becomes a tree.
    pub grow_tick: u64,
}

/// The request is granted: the cell is inside and in reach, the slot of the
/// hotbar holds something that places `id`, and `id` may stand there.
pub open spec fn place_granted(
    g: Grid,
    inventory: Seq<Option<InvSlot>>,
    places: Option<TileId>,
    data: TileData,
    at: Placing,
) -> bool {
    &&& g.inside(at.x as int, at.y as int)
    &&& at.slot < HOTBAR
    &&& at.in_reach
    &&& at.slot < inventory.len()
    &&& inventory[at.slot as int] is Some
    &&& places is Some
    &&& placeable(g, places->Some_0, data, at.x as int, at.y as int, at.overlaps)
}

/// One item less in slot `i`.
pub open spec fn spent(inventory: Seq<Option<InvSlot>>, i: int) -> Seq<Option<InvSlot>> {
    match inventory[i] {
        Some(s) => inventory.update(
            i,
            if s.count <= 1 {
                None
            } else {
                Some(InvSlot { item: s.item, count: (s.count - 1) as u16 })
            },
        ),
        None => inventory,
    }
}

/// Takes one item out of a slot.
pub fn consume_item(inventory: &mut Vec<Option<InvSlot>>, slot: u8)
    ensures
        final(inventory)@ == (if slot < old(inventory)@.len() {
            spent(old(inventory)@, slot as int)
        } else {
            old(inventory)@
        }),
{
    let i: usize = slot as usize;
    if i < inventory.len() {
        match inventory[i] {
            Some(s) => {
                if s.count <= 1 {
                    inventory.set(i, None);
                } else {
                    inventory.set(i, Some(InvSlot { item: s.item, count: s.count - 1 }));
                }
            },
            None => {},
        }
    }
}

/// What becomes of the cells of the object `id` placed at `(x, y)`.
pub open spec fn object_placed(g: Grid, id: TileId, x: int, y: int) -> spec_fn(
    int,
    int,
) -> Option<Tile> {
    |a: int, b: int| Some(part_of(g.at(a, b), id, a - x, b - y))
}

/// The edits that place `id` at `(x, y)`, row by row.
pub open spec fn place_edits(g: Grid, id: TileId, data: TileData, x: int, y: int) -> Seq<
    (u32, u32, Tile),
> {
    if data.width == 1 && data.height == 1 {
        seq![(x as u32, y as u32, placed_tile(g.at(x, y), id))]
    } else {
        box_edits(object_placed(g, id, x, y), x, y, data.width as nat, data.height as nat)
    }
}

/// The edits do place it.
proof fn lemma_place_edits(g: Grid, id: TileId, data: TileData, x: int, y: int)
    requires
        g.wf(),
        g.width <= u32::MAX,
        g.height <= u32::MAX,
        g.inside(x, y),
        box_vacant(g, x, y, data.width as int, data.height as int),
    ensures
        edits_fit(g, place_edits(g, id, data, x, y)),
        placed(g, edited(g, place_edits(g, id, data, x, y)), id, data, x, y),
{
    let edits = place_edits(g, id, data, x, y);
    if data.width == 1 && data.height == 1 {
        lemma_at_wf(g, x, y);
        assert(edits.drop_last() =~= Seq::<(u32, u32, Tile)>::empty());
        assert(edited(g, edits.drop_last()) == g);
    } else {
        let f = object_placed(g, id, x, y);
        let (w, h) = (data.width as nat, data.height as nat);
        assert forall|a: int, b: int|
            (#[trigger] f(a, b)) is Some && (in_box(x, y, w as int, h as int, a, b) || in_box(
                x,
                y + h,
                0,
                1,
                a,
                b,
            )) implies g.inside(a, b) && f(a, b)->Some_0.wf() by {
            assert(g.vacant(a, b));
            lemma_at_wf(g, a, b);
        }
        lemma_box_edits(g, f, x, y, w, h, 0);
        assert(edits + row_edits(f, x, y + h, 0) =~= edits);
    }
}

/// Plans an object of several cells.
fn plan_object(world: &World, id: TileId, data: &TileData, x: u32, y: u32) -> (edits: Vec<
    (u32, u32, Tile),
>)
    requires
        world.wf(),
        x + data.width <= world.width,
        y + data.height <= world.height,
    ensures
        edits@ == box_edits(
            object_placed(world@, id, x as int, y as int),
            x as int,
            y as int,
            data.width as nat,
            data.height as nat,
        ),
{
    let (w, h): (u32, u32) = (data.width as u32, data.height as u32);
    let ghost f = object_placed(world@, id, x as int, y as int);
    let mut edits: Vec<(u32, u32, Tile)> = Vec::new();
    let mut dy: u32 = 0;
    while dy < h
        invariant
            world.wf(),
            f == object_placed(world@, id, x as int, y as int),
            w <= 255,
            h <= 255,
            x + w <= world.width,
            y + h <= world.height,
            dy <= h,
            edits@ == box_edits(f, x as int, y as int, w as nat, dy as nat),
        decreases h - dy,
    {
        let ghost above = edits@;
        let mut dx: u32 = 0;
        assert(edits@ =~= above + row_edits(f, x as int, y + dy, 0));
        while dx < w
            invariant
                world.wf(),
                f == object_placed(world@, id, x as int, y as int),
                w <= 255,
                h <= 255,
                x + w <= world.width,
                y + h <= world.height,
                dy < h,
                dx <= w,
                edits@ == above + row_edits(f, x as int, y + dy, dx as nat),
            decreases w - dx,
        {
            let mut t = world.tile(x + dx, y + dy);
            let mut s = TileState::part(dx as u8, dy as u8);
            s.wall_placed = t.state.wall_placed;
            t.id = id;
            t.state = s;
            edits.push((x + dx, y + dy, t));
            assert(edits@ =~= above + row_edits(f, x as int, y + dy, (dx + 1) as nat));
            dx = dx + 1;
        }
        dy = dy + 1;
    }
    edits
}

/// The slots of a new chest.
fn empty_chest() -> (slots: Vec<Option<InvSlot>>)
    ensures
        slots@ == Seq::new(CHEST_SLOTS as nat, |k: int| None::<InvSlot>),
{
    let mut slots: Vec<Option<InvSlot>> = Vec::new();
    while slots.len() < CHEST_SLOTS
        invariant
            slots.len() <= CHEST_SLOTS,
            forall|k: int| 0 <= k < slots.len() ==> slots@[k] is None,
        decreases CHEST_SLOTS - slots.len(),
    {
        slots.push(None);
    }
    assert(slots@ =~= Seq::new(CHEST_SLOTS as nat, |k: int| None::<InvSlot>));
    slots
}

impl Live {
    /// Places the tile that the item in a hotbar slot stands for, and spends
    /// the item. A placed chest starts empty, a planted sapling gets its time.
    /// Every cell of it is put in turn, and those who receive it are told.
    /// Returns whether anything was placed; a refused request changes nothing.
    pub fn place_tile(
        &mut self,
        roster: &Roster,
        chests: &mut ChestStore,
        inventory: &mut Vec<Option<InvSlot>>,
        places: Option<TileId>,
        data: &TileData,
        at: Placing,
        tick: u64,
        out: &mut Vec<Outgoing>,
    ) -> (done: bool)
        requires
            old(self).wf(),
            old(chests).wf(),
            data.width >= 1,
            data.height >= 1,
        ensures
            final(self).wf(),
            final(chests).wf(),
            final(self).world.width == old(self).world.width,
            final(self).world.height == old(self).world.height,
            done == place_granted(old(self)@.grid, old(inventory)@, places, *data, at),
            done ==> {
                let id = places->Some_0;
                let g = old(self)@.grid;
                let edits = place_edits(g, id, *data, at.x as int, at.y as int);
                &&& placed(g, final(self)@.grid, id, *data, at.x as int, at.y as int)
                &&& final(self)@ == (LiveView {
                    saplings: if id == TileId::Sapling {
                        old(self)@.saplings.insert((at.x, at.y), at.grow_tick)
                    } else {
                        old(self)@.saplings
                    },
                    ..old(self)@
                }).changes(edits, tick)
                &&& said(final(out)@) == said(old(out)@) + edit_news(roster.players@, edits)
                &&& final(inventory)@ == spent(old(inventory)@, at.slot as int)
                &&& final(chests)@ == (if id == TileId::Chest && (data.width != 1 || data.height
                    != 1) {
                    old(chests)@.insert(
                        (at.x, at.y),
                        Seq::new(CHEST_SLOTS as nat, |k: int| None),
                    )
                } else {
                    old(chests)@
                })
            },
            !done ==> {
                &&& *final(self) == *old(self)
                &&& final(out)@ == old(out)@
                &&& final(inventory)@ == old(inventory)@
                &&& final(chests)@ == old(chests)@
            },
    {
        let (x, y): (u32, u32) = (at.x, at.y);
        if !self.world.in_bounds(x, y) || at.slot as usize >= HOTBAR || !at.in_reach
            || at.slot as usize >= inventory.len() || inventory[at.slot as usize].is_none() {
            return false;
        }
        let id: TileId = match places {
            Some(id) => id,
            None => {
                return false;
            },
        };
        if !can_place(&self.world, id, data, x, y, at.overlaps) {
            return false;
        }
        let ghost g = self.world@;
        proof {
            lemma_place_edits(g, id, *data, x as int, y as int);
            let (w, h) = (data.width as int, data.height as int);
            assert(in_box(x as int, y as int, w, h, x + w - 1, y + h - 1));
            assert(g.vacant(x + w - 1, y + h - 1));
        }
        let edits: Vec<(u32, u32, Tile)> = if data.width == 1 && data.height == 1 {
            let mut t = self.world.tile(x, y);
            t.id = id;
            t.state = t.state.wall_only();
            if id.solidity() == Solidity::Solid {
                t.liquid = Liquid::Empty;
            }
            let mut one: Vec<(u32, u32, Tile)> = Vec::new();
            one.push((x, y, t));
            assert(one@ =~= place_edits(g, id, *data, x as int, y as int));
            one
        } else {
            if id == TileId::Chest {
                chests.insert((x, y), empty_chest());
            }
            plan_object(&self.world, id, data, x, y)
        };
        if id == TileId::Sapling {
            self.saplings.insert((x, y), at.grow_tick);
        }
        self.apply(roster, &edits, tick, out);
        consume_item(inventory, at.slot);
        true
    }
}

/// A cell beside which a wall finds hold: another wall, or something that
/// carries.
pub open spec fn holds_wall(g: Grid, x: int, y: int) -> bool {
    g.inside(x, y) && (g.at(x, y).wall != WallId::Air || carries(g, x, y))
}

/// A wall may be placed at `(x, y)`.
pub open spec fn wall_placeable(g: Grid, x: int, y: int) -> bool {
    &&& g.at(x, y).wall == WallId::Air
    &&& !g.at(x, y).solid()
    &&& (holds_wall(g, x - 1, y) || holds_wall(g, x + 1, y) || holds_wall(g, x, y - 1)
        || holds_wall(g, x, y + 1))
}

fn wall_hold(world: &World, x: i32, y: i32) -> (b: bool)
    requires
        world.wf(),
    ensures
        b == holds_wall(world@, x as int, y as int),
{
    if x < 0 || y < 0 || !world.in_bounds(x as u32, y as u32) {
        return false;
    }
    world.tile(x as u32, y as u32).wall != WallId::Air || carries_at(world, x, y)
}

pub open spec fn with_wall(t: Tile, wall: WallId) -> Tile {
    Tile { wall, state: TileState { wall_placed: true, ..t.state }, ..t }
}

impl Live {
    /// Places the wall that the item in a hotbar slot stands for, and spends
    /// the item. The wall is marked, so that it drops when broken.
    pub fn place_wall(
        &mut self,
        roster: &Roster,
        inventory: &mut Vec<Option<InvSlot>>,
        places: Option<WallId>,
        at: Placing,
        tick: u64,
        out: &mut Vec<Outgoing>,
    ) -> (done: bool)
        requires
            old(self).wf(),
        ensures
            final(self).wf(),
            final(self).world.width == old(self).world.width,
            final(self).world.height == old(self).world.height,
            done == {
                &&& old(self)@.grid.inside(at.x as int, at.y as int)
                &&& at.slot < HOTBAR
                &&& at.in_reach
                &&& at.slot < old(inventory)@.len()
                &&& old(inventory)@[at.slot as int] is Some
                &&& places is Some
                &&& wall_placeable(old(self)@.grid, at.x as int, at.y as int)
            },
            done ==> {
                let t = with_wall(old(self)@.grid.at(at.x as int, at.y as int), places->Some_0);
                let e = (at.x, at.y, t);
                &&& final(self)@ == old(self)@.change(e, tick)
                &&& said(final(out)@) == said(old(out)@) + change_news(roster.players@, e)
                &&& final(inventory)@ == spent(old(inventory)@, at.slot as int)
            },
            !done ==> {
                &&& *final(self) == *old(self)
                &&& final(out)@ == old(out)@
                &&& final(inventory)@ == old(inventory)@
            },
    {
        let (x, y): (u32, u32) = (at.x, at.y);
        if !self.world.in_bounds(x, y) || at.slot as usize >= HOTBAR || !at.in_reach
            || at.slot as usize >= inventory.len() || inventory[at.slot as usize].is_none() {
            return false;
        }
        let wall: WallId = match places {
            Some(w) => w,
            None => {
                return false;
            },
        };
        let mut t = self.world.tile(x, y);
        if t.wall != WallId::Air || t.is_solid() {
            return false;
        }
        let (xi, yi): (i32, i32) = (x as i32, y as i32);
        if !(wall_hold(&self.world, xi - 1, yi) || wall_hold(&self.world, xi + 1, yi) || wall_hold(
            &self.world,
            xi,
            yi - 1,
        ) || wall_hold(&self.world, xi, yi + 1)) {
            return false;
        }
        t.wall = wall;
        t.state.wall_placed = true;
        self.change_tile(roster, x, y, t, tick, out);
        consume_item(inventory, at.slot);
        true
    }
}

// ---- Doors -----------------------------------------------------------------

/// Cells of a door, from top to bottom.
pub const DOOR_HEIGHT: u32 = 3;

/// The column `x` beside a door is free.
pub open spec fn side_clear(g: Grid, x: int, y: int) -> bool {
    forall|b: int| y <= b < y + DOOR_HEIGHT ==> g.inside(x, b) && !(#[trigger] g.at(x, b)).solid()
}

fn side_is_clear(world: &World, x: i64, y: u32) -> (b: bool)
    requires
        world.wf(),
        y + DOOR_HEIGHT <= world.height,
    ensures
        b == side_clear(world@, x as int, y as int),
{
    if x < 0 || x >= world.width as i64 {
        proof {
            if side_clear(world@, x as int, y as int) {
                assert(!world@.at(x as int, y as int).solid());
                assert(world@.inside(x as int, y as int));
            }
        }
        return false;
    }
    let mut dy: u32 = 0;
    while dy < DOOR_HEIGHT
        invariant
            world.wf(),
            0 <= x < world.width,
            y + DOOR_HEIGHT <= world.height,
            dy <= DOOR_HEIGHT,
            forall|b: int|
                y <= b < y + dy ==> world@.inside(x as int, b) && !(#[trigger] world@.at(
                    x as int,
                    b,
                )).solid(),
        decreases DOOR_HEIGHT - dy,
    {
        if world.tile(x as u32, y + dy).is_solid() {
            assert(world@.at(x as int, y + dy).solid());
            return false;
        }
        dy = dy + 1;
    }
    true
}

/// What toggling a door does.
#[derive(Debug, Clone, Copy, PartialEq, Eq, Structural)]
pub enum DoorMove {
    /// Somebody stands in the doorway, or both sides are blocked.
    Stuck,
    Closes,
    /// The panel swings to the left or to the right.
    Opens { left: bool },
}

/// What toggling the door with its top cell at `(x, y)` does: it closes unless
/// somebody stands in it, and opens away from the player if that side is
/// free, else to the other.
pub open spec fn door_move(g: Grid, x: int, y: int, away_left: bool, overlaps: bool) -> DoorMove {
    let (first, second) = if away_left {
        (x - 1, x + 1)
    } else {
        (x + 1, x - 1)
    };
    if g.at(x, y).state.door_open {
        if overlaps {
            DoorMove::Stuck
        } else {
            DoorMove::Closes
        }
    } else if side_clear(g, first, y) {
        DoorMove::Opens { left: away_left }
    } else if side_clear(g, second, y) {
        DoorMove::Opens { left: !away_left }
    } else {
        DoorMove::Stuck
    }
}

/// A door cell after the move.
pub open spec fn door_cell(t: Tile, open: bool, left: bool) -> Tile {
    Tile { state: TileState { door_open: open, door_open_left: left, ..t.state }, ..t }
}

/// All cells of the door at `(x, y)` are set, and nothing else has changed.
pub open spec fn door_set(before: Grid, after: Grid, x: int, y: int, open: bool, left: bool) -> bool {
    &&& after.width == before.width
    &&& after.height == before.height
    &&& forall|a: int, b: int|
        before.inside(a, b) ==> #[trigger] after.at(a, b) == (if a == x && y <= b < y
            + DOOR_HEIGHT {
            door_cell(before.at(a, b), open, left)
        } else {
            before.at(a, b)
        })
}

/// What becomes of the cells of a door.
pub open spec fn door_moved(g: Grid, open: bool, left: bool) -> spec_fn(int, int) -> Option<Tile> {
    |a: int, b: int| Some(door_cell(g.at(a, b), open, left))
}

/// The edits that move a door, from top to bottom.
pub open spec fn door_edits(g: Grid, x: int, y: int, open: bool, left: bool) -> Seq<
    (u32, u32, Tile),
> {
    box_edits(door_moved(g, open, left), x, y, 1, DOOR_HEIGHT as nat)
}

/// The edits do move it.
proof fn lemma_door_edits(g: Grid, x: int, y: int, open: bool, left: bool)
    requires
        g.wf(),
        g.width <= u32::MAX,
        g.height <= u32::MAX,
        g.inside(x, y),
        y + DOOR_HEIGHT <= g.height,
    ensures
        edits_fit(g, door_edits(g, x, y, open, left)),
        door_set(g, edited(g, door_edits(g, x, y, open, left)), x, y, open, left),
{
    let f = door_moved(g, open, left);
    assert forall|a: int, b: int|
        (#[trigger] f(a, b)) is Some && (in_box(x, y, 1, DOOR_HEIGHT as int, a, b) || in_box(
            x,
            y + DOOR_HEIGHT,
            0,
            1,
            a,
            b,
        )) implies g.inside(a, b) && f(a, b)->Some_0.wf() by {
        lemma_at_wf(g, a, b);
    }
    lemma_box_edits(g, f, x, y, 1, DOOR_HEIGHT as nat, 0);
    let edits = door_edits(g, x, y, open, left);
    assert(edits + row_edits(f, x, y + DOOR_HEIGHT, 0) =~= edits);
}

fn plan_door(world: &World, x: u32, y: u32, open: bool, left: bool) -> (edits: Vec<
    (u32, u32, Tile),
>)
    requires
        world.wf(),
        x < world.width,
        y + DOOR_HEIGHT <= world.height,
    ensures
        edits@ == door_edits(world@, x as int, y as int, open, left),
        edits_fit(world@, edits@),
        door_set(world@, edited(world@, edits@), x as int, y as int, open, left),
{
    let ghost f = door_moved(world@, open, left);
    let mut edits: Vec<(u32, u32, Tile)> = Vec::new();
    let mut dy: u32 = 0;
    while dy < DOOR_HEIGHT
        invariant
            world.wf(),
            f == door_moved(world@, open, left),
            x < world.width,
            y + DOOR_HEIGHT <= world.height,
            dy <= DOOR_HEIGHT,
            edits@ == box_edits(f, x as int, y as int, 1, dy as nat),
        decreases DOOR_HEIGHT - dy,
    {
        let ghost above = edits@;
        let mut t = world.tile(x, y + dy);
        t.state.door_open = open;
        t.state.door_open_left = left;
        edits.push((x, y + dy, t));
        proof {
            assert(row_edits(f, x as int, y + dy, 0) =~= Seq::<(u32, u32, Tile)>::empty());
            assert(row_edits(f, x as int, y + dy, 1) =~= seq![(x, (y + dy) as u32, t)]);
            assert(edits@ =~= above + row_edits(f, x as int, y + dy, 1));
        }
        dy = dy + 1;
    }
    proof {
        lemma_door_edits(world@, x as int, y as int, open, left);
    }
    edits
}

/// A door was toggled less than `cooldown` ticks ago.
pub open spec fn door_rests(hands: Hands, tick: u64, cooldown: u64) -> bool {
    hands.last_door_toggle_tick matches Some(t) && tick - t < cooldown
}

/// The hands after a door was asked to move.
pub open spec fn after_door(hands: Hands, m: Option<DoorMove>, tick: u64) -> Hands {
    match m {
        Some(DoorMove::Closes) | Some(DoorMove::Opens { .. }) => Hands {
            last_door_toggle_tick: Some(tick),
            ..hands
        },
        _ => hands,
    }
}

/// The edits of a door's move.
pub open spec fn move_edits(g: Grid, x: int, y: int, m: Option<DoorMove>) -> Seq<(u32, u32, Tile)> {
    match m {
        Some(DoorMove::Closes) => door_edits(g, x, y, false, false),
        Some(DoorMove::Opens { left }) => door_edits(g, x, y, true, left),
        _ => seq![],
    }
}

impl Live {
    /// Toggles the door at `(x, y)`. `away_left` is the side away from the
    /// player, `overlaps` says whether somebody stands in the doorway. Every
    /// cell of the door is put in turn, and those who receive it are told.
    /// Nothing happens out of reach, where no door stands, or within
    /// `cooldown` ticks of the last door that the player moved.
    pub fn toggle_door(
        &mut self,
        roster: &Roster,
        hands: &mut Hands,
        x: u32,
        y: u32,
        in_reach: bool,
        away_left: bool,
        overlaps: bool,
        tick: u64,
        cooldown: u64,
        out: &mut Vec<Outgoing>,
    ) -> (m: Option<DoorMove>)
        requires
            old(self).wf(),
        ensures
            final(self).wf(),
            final(self).world.width == old(self).world.width,
            final(self).world.height == old(self).world.height,
            *final(hands) == after_door(*old(hands), m, tick),
            ({
                let g = old(self)@.grid;
                let o = spec_origin(g, x, y);
                let door = g.inside(x as int, y as int) && g.at(x as int, y as int).id
                    == TileId::Door && in_reach && o.1 + DOOR_HEIGHT <= g.height && !door_rests(
                    *old(hands),
                    tick,
                    cooldown,
                );
                let edits = move_edits(g, o.0 as int, o.1 as int, m);
                &&& m == (if door {
                    Some(door_move(g, o.0 as int, o.1 as int, away_left, overlaps))
                } else {
                    None
                })
                &&& final(self)@ == old(self)@.changes(edits, tick)
                &&& said(final(out)@) == said(old(out)@) + edit_news(roster.players@, edits)
                &&& match m {
                    Some(DoorMove::Closes) => door_set(
                        g,
                        final(self)@.grid,
                        o.0 as int,
                        o.1 as int,
                        false,
                        false,
                    ),
                    Some(DoorMove::Opens { left }) => door_set(
                        g,
                        final(self)@.grid,
                        o.0 as int,
                        o.1 as int,
                        true,
                        left,
                    ),
                    _ => *final(self) == *old(self) && final(out)@ == old(out)@,
                }
            }),
    {
        assert(said(out@) + edit_news(roster.players@, seq![]) =~= said(out@));
        if !self.world.in_bounds(x, y) || self.world.tile(x, y).id != TileId::Door || !in_reach {
            return None;
        }
        if let Some(t) = hands.last_door_toggle_tick {
            if tick < t || tick - t < cooldown {
                return None;
            }
        }
        let o: (u32, u32) = self.world.multitile_origin(x, y);
        if o.1 as u64 + DOOR_HEIGHT as u64 > self.world.height as u64 {
            return None;
        }
        if self.world.tile(o.0, o.1).state.door_open {
            if overlaps {
                return Some(DoorMove::Stuck);
            }
            let edits = plan_door(&self.world, o.0, o.1, false, false);
            self.apply(roster, &edits, tick, out);
            hands.last_door_toggle_tick = Some(tick);
            return Some(DoorMove::Closes);
        }
        let (lx, rx): (i64, i64) = (o.0 as i64 - 1, o.0 as i64 + 1);
        let (first, second): (i64, i64) = if away_left {
            (lx, rx)
        } else {
            (rx, lx)
        };
        if side_is_clear(&self.world, first, o.1) {
            let edits = plan_door(&self.world, o.0, o.1, true, away_left);
            self.apply(roster, &edits, tick, out);
            hands.last_door_toggle_tick = Some(tick);
            Some(DoorMove::Opens { left: away_left })
        } else if side_is_clear(&self.world, second, o.1) {
            let edits = plan_door(&self.world, o.0, o.1, true, !away_left);
            self.apply(roster, &edits, tick, out);
            hands.last_door_toggle_tick = Some(tick);
            Some(DoorMove::Opens { left: !away_left })
        } else {
            Some(DoorMove::Stuck)
        }
    }
}

/// A door that a player moved stays put for the cooldown: until then no door
/// moves for them, and from then on doors move again.
pub proof fn law_doors_rest(hands: Hands, m: DoorMove, tick: u64, later: u64, cooldown: u64)
    requires
        m is Closes || m is Opens,
        tick <= later,
    ensures
        door_rests(after_door(hands, Some(m), tick), later, cooldown) <==> later < tick + cooldown,
{
}

/// An open door lets through, a closed one does not: toggling turns one into
/// the other.
pub proof fn law_toggling_door_changes_solidity(t: Tile, left: bool)
    requires
        t.id == TileId::Door,
    ensures
        !door_cell(t, true, left).solid(),
        door_cell(t, false, left).solid(),
{
}

// ---- What may be placed, and what breaks -----------------------------------

/// `(a, b)` lies directly beside, above or below `(x, y)`.
pub open spec fn beside(x: int, y: int, a: int, b: int) -> bool {
    (b == y && (a == x - 1 || a == x + 1)) || (a == x && (b == y - 1 || b == y + 1))
}

/// `(x, y)` has something to hold on to: a wall behind it, or a solid or a
/// platform beside it.
pub open spec fn held(g: Grid, x: int, y: int) -> bool {
    g.at(x, y).wall != WallId::Air || exists|a: int, b: int|
        beside(x, y, a, b) && 0 <= a < g.width && 0 <= b < g.height && ((#[trigger] g.at(
            a,
            b,
        )).solid() || g.at(a, b).id == TileId::Platform)
}

proof fn lemma_held(g: Grid, x: int, y: int)
    ensures
        supported(g, x, y) <==> held(g, x, y),
{
    if supported(g, x, y) && g.at(x, y).wall == WallId::Air {
        if carries(g, x - 1, y) {
            assert(beside(x, y, x - 1, y) && g.at(x - 1, y) == g.at(x - 1, y));
        } else if carries(g, x + 1, y) {
            assert(beside(x, y, x + 1, y) && g.at(x + 1, y) == g.at(x + 1, y));
        } else if carries(g, x, y - 1) {
            assert(beside(x, y, x, y - 1) && g.at(x, y - 1) == g.at(x, y - 1));
        } else {
            assert(beside(x, y, x, y + 1) && g.at(x, y + 1) == g.at(x, y + 1));
        }
    }
}

/// Whether a one-cell thing fits: its cell is inside and empty.
proof fn lemma_one_cell(g: Grid, x: int, y: int)
    ensures
        box_vacant(g, x, y, 1, 1) <==> g.inside(x, y) && g.at(x, y).id == TileId::Air,
{
    assert(in_box(x, y, 1, 1, x, y));
    if g.inside(x, y) && g.at(x, y).id == TileId::Air {
        assert forall|a: int, b: int| #[trigger] in_box(x, y, 1, 1, a, b) implies g.vacant(
            a,
            b,
        ) by {
            assert(a == x && b == y);
        }
    }
}

/// A torch goes into an empty cell without water that has something to hold
/// on to, and nowhere else: never into water.
pub proof fn law_torches_stay_out_of_water(
    g: Grid,
    data: TileData,
    x: int,
    y: int,
    overlaps: bool,
)
    requires
        g.inside(x, y),
        data.width == 1,
        data.height == 1,
    ensures
        placeable(g, TileId::Torch, data, x, y, overlaps) <==> {
            &&& g.at(x, y).id == TileId::Air
            &&& g.at(x, y).liquid is Empty || g.at(x, y).liquid->kind == LiquidKind::Lava
            &&& held(g, x, y)
        },
        g.at(x, y).liquid is Filled && g.at(x, y).liquid->kind == LiquidKind::Water ==> !placeable(
            g,
            TileId::Torch,
            data,
            x,
            y,
            overlaps,
        ),
{
    lemma_held(g, x, y);
    lemma_one_cell(g, x, y);
}

/// A sapling goes into an empty cell right above grass, and nowhere else.
pub proof fn law_saplings_want_grass(g: Grid, data: TileData, x: int, y: int, overlaps: bool)
    requires
        g.inside(x, y),
        data.width == 1,
        data.height == 1,
    ensures
        placeable(g, TileId::Sapling, data, x, y, overlaps) <==> {
            &&& g.at(x, y).id == TileId::Air
            &&& y + 1 < g.height
            &&& g.at(x, y + 1).id == TileId::Grass
        },
{
    lemma_one_cell(g, x, y);
}

/// A door goes between a solid lintel and a solid sill.
pub proof fn law_doors_want_a_frame(g: Grid, data: TileData, x: int, y: int, overlaps: bool)
    requires
        g.inside(x, y),
        data.width == 1,
        data.height == 3,
    ensures
        placeable(g, TileId::Door, data, x, y, overlaps) <==> {
            &&& y >= 1 && y + 2 < g.height
            &&& g.at(x, y).id == TileId::Air && g.at(x, y + 1).id == TileId::Air && g.at(
                x,
                y + 2,
            ).id == TileId::Air
            &&& g.at(x, y - 1).solid()
            &&& y + 3 < g.height ==> g.at(x, y + 3).solid()
        },
{
    assert(in_box(x, y, 1, 3, x, y) && in_box(x, y, 1, 3, x, y + 1) && in_box(
        x,
        y,
        1,
        3,
        x,
        y + 2,
    ));
    if y + 2 < g.height && g.at(x, y).id == TileId::Air && g.at(x, y + 1).id == TileId::Air
        && g.at(x, y + 2).id == TileId::Air {
        assert forall|a: int, b: int| #[trigger] in_box(x, y, 1, 3, a, b) implies g.vacant(
            a,
            b,
        ) by {
            assert(a == x && (b == y || b == y + 1 || b == y + 2));
        }
    }
}

/// A plain block goes into an empty cell that has something to hold on to, and
/// a solid one only where nobody stands.
pub proof fn law_blocks_want_a_hold(
    g: Grid,
    id: TileId,
    data: TileData,
    x: int,
    y: int,
    overlaps: bool,
)
    requires
        g.inside(x, y),
        data.width == 1,
        data.height == 1,
        !data.furniture,
        id != TileId::Torch && id != TileId::Sapling && id != TileId::Door,
    ensures
        placeable(g, id, data, x, y, overlaps) <==> {
            &&& g.at(x, y).id == TileId::Air
            &&& held(g, x, y)
            &&& overlaps ==> !(Tile::spec_of(id).solid())
        },
{
    lemma_held(g, x, y);
    lemma_one_cell(g, x, y);
}

/// Furniture stands on a floor: below each of its columns is a solid or a
/// platform. Only furniture of one cell may hang on instead.
pub proof fn law_furniture_stands_on_a_floor(
    g: Grid,
    id: TileId,
    data: TileData,
    x: int,
    y: int,
    overlaps: bool,
)
    requires
        g.inside(x, y),
        data.furniture,
        data.width >= 1,
        data.height >= 1,
        id != TileId::Torch && id != TileId::Sapling && id != TileId::Door,
    ensures
        ({
            let clear = forall|a: int, b: int|
                x <= a < x + data.width && y <= b < y + data.height ==> a < g.width && b < g.height
                    && (#[trigger] g.at(a, b)).id == TileId::Air;
            let floor = forall|a: int|
                x <= a < x + data.width && a < g.width && y + data.height < g.height ==> (
                #[trigger] g.at(a, y + data.height)).solid() || g.at(a, y + data.height).id
                    == TileId::Platform;
            let can = placeable(g, id, data, x, y, overlaps);
            &&& can ==> clear
            &&& can && (data.width > 1 || data.height > 1) ==> floor
            &&& can && data.width == 1 && data.height == 1 ==> floor || held(g, x, y)
            &&& clear && floor && !overlaps ==> can
            &&& clear && data.width == 1 && data.height == 1 && held(g, x, y) && !overlaps ==> can
        }),
{
    lemma_held(g, x, y);
    let (w, h) = (data.width as int, data.height as int);
    if placeable(g, id, data, x, y, overlaps) {
        assert forall|a: int, b: int| x <= a < x + w && y <= b < y + h implies a < g.width && b
            < g.height && (#[trigger] g.at(a, b)).id == TileId::Air by {
            assert(in_box(x, y, w, h, a, b));
            assert(g.vacant(a, b));
        }
    }
    if on_floor(g, x, y, w, h) {
        assert forall|a: int| x <= a < x + w && a < g.width && y + h < g.height implies (
        #[trigger] g.at(a, y + h)).solid() || g.at(a, y + h).id == TileId::Platform by {
            assert(g.solid(a, y + h) || g.platform(a, y + h));
        }
    }
    if forall|a: int|
        x <= a < x + w && a < g.width && y + h < g.height ==> (#[trigger] g.at(a, y + h)).solid()
            || g.at(a, y + h).id == TileId::Platform {
        assert(on_floor(g, x, y, w, h)) by {
            assert forall|a: int| x <= a < x + w implies #[trigger] g.solid(a, y + h) || g.platform(
                a,
                y + h,
            ) by {
                if g.inside(a, y + h) {
                    assert(g.at(a, y + h) == g.at(a, y + h));
                }
            }
        }
    }
    if forall|a: int, b: int|
        x <= a < x + w && y <= b < y + h ==> a < g.width && b < g.height && (#[trigger] g.at(
            a,
            b,
        )).id == TileId::Air {
        assert(box_vacant(g, x, y, w, h)) by {
            assert forall|a: int, b: int| #[trigger] in_box(x, y, w, h, a, b) implies g.vacant(
                a,
                b,
            ) by {
                assert(g.at(a, b).id == TileId::Air);
            }
        }
    }
}

/// What is placed is there afterwards; the wall behind stays. A solid block
/// drives the liquid out of its cell, anything else leaves it.
pub proof fn law_solids_displace_liquids(t: Tile, id: TileId)
    ensures
        placed_tile(t, id).id == id,
        placed_tile(t, id).wall == t.wall,
        placed_tile(t, id).state.wall_placed == t.state.wall_placed,
        Tile::spec_of(id).solid() && id != TileId::Door ==> placed_tile(t, id).liquid is Empty,
        !Tile::spec_of(id).solid() ==> placed_tile(t, id).liquid == t.liquid,
        part_of(t, id, 0, 0).id == id && part_of(t, id, 0, 0).wall == t.wall && part_of(
            t,
            id,
            0,
            0,
        ).liquid == t.liquid,
{
}

/// Placing takes exactly one item out of the slot, and something out of the
/// hotbar alone, in reach.
pub proof fn law_placing_costs_one(
    g: Grid,
    inventory: Seq<Option<InvSlot>>,
    places: Option<TileId>,
    data: TileData,
    at: Placing,
    k: int,
)
    requires
        place_granted(g, inventory, places, data, at),
        inventory[at.slot as int]->Some_0.count >= 1,
        0 <= k < inventory.len(),
    ensures
        at.slot < 10 && at.in_reach && places is Some,
        ({
            let after = spent(inventory, at.slot as int);
            let had = inventory[at.slot as int]->Some_0;
            &&& after.len() == inventory.len()
            &&& k != at.slot ==> after[k] == inventory[k]
            &&& had.count == 1 <==> after[at.slot as int] is None
            &&& had.count > 1 ==> after[at.slot as int]->Some_0.item == had.item
                && after[at.slot as int]->Some_0.count == had.count - 1
        }),
{
}

/// Nothing is placed out of reach, from behind the hotbar, from an empty slot
/// or outside of the world.
pub proof fn law_placing_has_its_conditions(
    g: Grid,
    inventory: Seq<Option<InvSlot>>,
    places: Option<TileId>,
    data: TileData,
    at: Placing,
)
    ensures
        !at.in_reach || at.slot >= 10 || places is None ==> !place_granted(
            g,
            inventory,
            places,
            data,
            at,
        ),
        at.slot < inventory.len() && inventory[at.slot as int] is None ==> !place_granted(
            g,
            inventory,
            places,
            data,
            at,
        ),
        at.x >= g.width || at.y >= g.height ==> !place_granted(g, inventory, places, data, at),
        at.in_reach && at.slot < 10 && at.slot < inventory.len() && inventory[at.slot as int] is Some
            && places is Some && at.x < g.width && at.y < g.height && placeable(
            g,
            places->Some_0,
            data,
            at.x as int,
            at.y as int,
            at.overlaps,
        ) ==> place_granted(g, inventory, places, data, at),
{
}

/// A wall goes where there is none and no solid, next to another wall, a solid
/// or a platform; it counts as placed, and the foreground stays.
pub proof fn law_walls_want_a_neighbour(g: Grid, x: int, y: int, t: Tile, wall: WallId)
    requires
        g.inside(x, y),
    ensures
        wall_placeable(g, x, y) <==> {
            &&& g.at(x, y).wall == WallId::Air
            &&& !g.at(x, y).solid()
            &&& exists|a: int, b: int|
                beside(x, y, a, b) && 0 <= a < g.width && 0 <= b < g.height && {
                    ||| (#[trigger] g.at(a, b)).wall != WallId::Air
                    ||| g.at(a, b).solid()
                    ||| g.at(a, b).id == TileId::Platform
                }
        },
        with_wall(t, wall).wall == wall && with_wall(t, wall).state.wall_placed && with_wall(
            t,
            wall,
        ).id == t.id && with_wall(t, wall).liquid == t.liquid,
        wall_gone(t).wall == WallId::Air && !wall_gone(t).state.wall_placed && wall_gone(t).id
            == t.id && wall_gone(t).liquid == t.liquid,
{
    if wall_placeable(g, x, y) {
        if holds_wall(g, x - 1, y) {
            assert(beside(x, y, x - 1, y) && g.at(x - 1, y) == g.at(x - 1, y));
        } else if holds_wall(g, x + 1, y) {
            assert(beside(x, y, x + 1, y) && g.at(x + 1, y) == g.at(x + 1, y));
        } else if holds_wall(g, x, y - 1) {
            assert(beside(x, y, x, y - 1) && g.at(x, y - 1) == g.at(x, y - 1));
        } else {
            assert(beside(x, y, x, y + 1) && g.at(x, y + 1) == g.at(x, y + 1));
        }
    }
}

/// A tool works on what asks for its kind and no more power than it has, and
/// bare hands on what anything breaks; nothing breaks the unbreakable. What
/// breaks at once does so at the first blow.
pub proof fn law_tools_have_their_use(data: TileData, tool: Option<ToolStats>, deals: bool)
    ensures
        ({
            let hit = spec_hit_effect(data, tool, deals);
            let fits = match data.tool {
                ToolKind::Any => tool is Some ==> tool->Some_0.power >= data.min_power,
                ToolKind::Unbreakable => false,
                ToolKind::Pick => tool is Some && tool->Some_0.kind == ToolKind::Pick
                    && tool->Some_0.power >= data.min_power,
                ToolKind::Axe => tool is Some && tool->Some_0.kind == ToolKind::Axe
                    && tool->Some_0.power >= data.min_power,
                ToolKind::Hammer => tool is Some && tool->Some_0.kind == ToolKind::Hammer
                    && tool->Some_0.power >= data.min_power,
            } && (tool is None ==> data.min_power == 0);
            &&& !fits ==> hit is Nothing
            &&& fits && data.one_hit ==> hit is Breaks
            &&& fits && !data.one_hit && deals ==> hit is Damages
            &&& fits && !data.one_hit && !deals ==> hit is Nothing
        }),
{
}

/// A tool can be swung again once its time is up, less one tick; a hand that
/// never swung can at once.
pub proof fn law_swings_take_their_time(h: Hands, tick: u64, later: u64, use_ticks: u64)
    requires
        tick <= later,
    ensures
        h.last_swing_tick is None ==> swing_due(h, tick, use_ticks),
        swing_due((Hands { last_swing_tick: Some(tick), ..h }), later, use_ticks) <==> later + 1
            >= tick + use_ticks,
{
}

/// Damage is forgotten when nobody has hit the cell for longer than it lasts.
pub proof fn law_damage_wears_off(damage: u32, hit: u64, later: u64, lasts: u64)
    requires
        hit <= later,
    ensures
        damage_worn_off(Some(TileDamage { damage, last_hit_tick: hit }), later, lasts) <==> later
            > hit + lasts,
        damage_worn_off(None, later, lasts),
{
}

/// Where the foreground goes away there is air; wall and liquid stay. What
/// falls lies in the middle of its cell.
pub proof fn law_broken_cells_are_air(t: Tile, item: ItemId, count: u16, x: u32, y: u32)
    ensures
        opened(t).id == TileId::Air && opened(t).wall == t.wall && opened(t).liquid == t.liquid,
        opened(t).state.wall_placed == t.state.wall_placed && !opened(t).solid(),
        drop_at(item, count, x as int, y as int).stack.item == item,
        drop_at(item, count, x as int, y as int).stack.count == count,
        drop_at(item, count, x as int, y as int).half_x == 2 * x + 1,
        drop_at(item, count, x as int, y as int).half_y == 2 * y + 1,
{
}

/// A tree reaches up from where it is cut for as long as there is trunk.
pub proof fn law_trees_reach_up(g: Grid, x: int, y: int, b: int)
    requires
        y >= -1,
    ensures
        tree_height(g, x, y) <= y + 1,
        y - tree_height(g, x, y) < b <= y ==> g.at(x, b).id == TileId::TreeTrunk,
        y - tree_height(g, x, y) >= 0 ==> g.at(x, y - tree_height(g, x, y)).id
            != TileId::TreeTrunk,
    decreases y + 1,
{
    if y >= 0 && g.at(x, y).id == TileId::TreeTrunk {
        law_trees_reach_up(g, x, y - 1, b);
    }
}

/// How many of `drops` are `item`, counted by items.
pub open spec fn dropped_of(drops: Seq<Drop>, item: ItemId) -> int
    decreases drops.len(),
{
    if drops.len() == 0 {
        0
    } else {
        dropped_of(drops.drop_last(), item) + if drops.last().stack.item == item {
            drops.last().stack.count as int
        } else {
            0
        }
    }
}

/// How many of the first `n` flags are up.
pub open spec fn ups(flags: Seq<bool>, n: nat) -> int
    decreases n,
{
    if n == 0 {
        0
    } else {
        ups(flags, (n - 1) as nat) + if flags[n - 1] {
            1int
        } else {
            0
        }
    }
}

proof fn lemma_dropped_push(drops: Seq<Drop>, d: Drop, item: ItemId)
    ensures
        dropped_of(drops.push(d), item) == dropped_of(drops, item) + if d.stack.item == item {
            d.stack.count as int
        } else {
            0
        },
{
    assert(drops.push(d).drop_last() =~= drops);
}

/// A felled tree gives ten wood for each of its segments, an acorn for each
/// that had one, and nothing else.
pub proof fn law_trees_give_wood(x: int, y: int, acorns: Seq<bool>, n: nat, item: ItemId)
    requires
        n <= acorns.len(),
    ensures
        dropped_of(tree_drops(x, y, acorns, n), item) == (match item {
            ItemId::Wood => 10int * n,
            ItemId::Acorn => ups(acorns, n),
            _ => 0,
        }),
    decreases n,
{
    if n > 0 {
        law_trees_give_wood(x, y, acorns, (n - 1) as nat, item);
        let k = n - 1;
        let before = tree_drops(x, y, acorns, k as nat);
        let wood = drop_at(ItemId::Wood, WOOD_PER_TREE_SEGMENT, x, y - k);
        lemma_dropped_push(before, wood, item);
        if acorns[k] {
            lemma_dropped_push(before.push(wood), drop_at(ItemId::Acorn, 1, x, y - k), item);
        }
    }
}

/// A tree stands on the solid below it: what takes that away fells the tree,
/// or uproots the sapling. What is not solid carries neither.
pub proof fn law_trees_fall_with_their_ground(g: Grid, after: Grid, x: int, y: int)
    requires
        g.wf(),
        g.inside(x, y),
        cleared(g, after, x, y),
    ensures
        after.at(x, y).id == TileId::Air,
        after.at(x, y).wall == g.at(x, y).wall,
        g.at(x, y).solid() && y > 0 && (g.at(x, y - 1).id == TileId::TreeTrunk || g.at(
            x,
            y - 1,
        ).id == TileId::Sapling) ==> after.at(x, y - 1).id == TileId::Air,
        y > 0 && g.at(x, y - 1).id != TileId::TreeTrunk && g.at(x, y - 1).id != TileId::Sapling
            ==> after.at(x, y - 1) == g.at(x, y - 1),
        !g.at(x, y).solid() && y > 0 ==> after.at(x, y - 1) == g.at(x, y - 1),
        forall|a: int, b: int|
            g.inside(a, b) && (a != x || b > y) ==> #[trigger] after.at(a, b) == g.at(a, b),
{
    broadcast use group_grid;

    let mid = g.put(x, y, opened(g.at(x, y)));
    if y > 0 {
        assert(mid.at(x, y - 1) == g.at(x, y - 1));
        law_trees_reach_up(mid, x, y - 1, y - 1);
    }
}

/// A chest with something in it does not break; anything else does.
pub proof fn law_only_empty_chests_break(
    id: TileId,
    chests: Map<(u32, u32), Seq<Option<InvSlot>>>,
    origin: (u32, u32),
    i: int,
)
    ensures
        id == TileId::Chest && chests.dom().contains(origin) && 0 <= i < chests[origin].len()
            && chests[origin][i] is Some ==> chest_blocked(id, chests, origin),
        id != TileId::Chest || !chests.dom().contains(origin) ==> !chest_blocked(
            id,
            chests,
            origin,
        ),
        (forall|k: int| 0 <= k < chests[origin].len() ==> (#[trigger] chests[origin][k]) is None)
            ==> !chest_blocked(id, chests, origin),
{
}

/// An open door closes unless somebody stands in it. A closed one opens away
/// from whoever opens it if there is room for its three cells, else to the
/// other side, else not at all.
pub proof fn law_doors_open_away(g: Grid, x: int, y: int, away_left: bool, overlaps: bool)
    ensures
        ({
            let m = door_move(g, x, y, away_left, overlaps);
            let free = |a: int|
                forall|b: int| y <= b < y + 3 ==> g.inside(a, b) && !(#[trigger] g.at(a, b)).solid();
            let away = if away_left {
                x - 1
            } else {
                x + 1
            };
            let back = 2 * x - away;
            if g.at(x, y).state.door_open {
                &&& m is Closes <==> !overlaps
                &&& m is Stuck <==> overlaps
            } else {
                &&& free(away) ==> m == (DoorMove::Opens { left: away_left })
                &&& !free(away) && free(back) ==> m == (DoorMove::Opens { left: !away_left })
                &&& !free(away) && !free(back) ==> m is Stuck
            }
        }),
{
    assert(side_clear(g, x - 1, y) == (forall|b: int|
        y <= b < y + 3 ==> g.inside(x - 1, b) && !(#[trigger] g.at(x - 1, b)).solid()));
    assert(side_clear(g, x + 1, y) == (forall|b: int|
        y <= b < y + 3 ==> g.inside(x + 1, b) && !(#[trigger] g.at(x + 1, b)).solid()));
}

/// A toggled door changes in all its three cells, and nowhere else.
pub proof fn law_doors_move_whole(
    before: Grid,
    after: Grid,
    x: int,
    y: int,
    open: bool,
    left: bool,
    a: int,
    b: int,
)
    requires
        door_set(before, after, x, y, open, left),
        before.inside(a, b),
    ensures
        a == x && y <= b <= y + 2 ==> after.at(a, b).state.door_open == open && after.at(
            a,
            b,
        ).state.door_open_left == left && after.at(a, b).id == before.at(a, b).id && after.at(
            a,
            b,
        ).wall == before.at(a, b).wall && after.at(a, b).liquid == before.at(a, b).liquid,
        a != x || b < y || b > y + 2 ==> after.at(a, b) == before.at(a, b),
{
}

} // verus!
