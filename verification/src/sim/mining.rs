//! Swings at tiles and walls, and what breaks.

use vstd::prelude::*;

use crate::cellmap::CellMap;
use crate::chest::ChestStore;
use crate::grid::{spec_origin, Grid, World};
use crate::item::InvSlot;
use crate::sim::edits::edited;
use crate::sim::interact::{
    accept_swing, apply_damage, break_multitile, breaking, chest_blocked, clear_cell, clear_drops,
    clear_edits, clear_saplings, cleared, damage_worn_off, drop_at, fell_tree, felled, hit_effect,
    is_target, lemma_felled, object_edits, spec_hit_effect, swing_due, tree_drops, tree_edits,
    tree_height, without_object, Breaking, DamageSum, Drop, Hit, TileDamage, TileData, ToolKind,
    ToolStats,
};
use crate::sim::inventory::{one_opener, shut_for_all};
use crate::sim::live::{Live, LiveView};
use crate::sim::player::{Hands, Player};
use crate::sim::roster::{said, Outgoing, Roster};
use crate::sim::session::edit_news;
use crate::tile::{Tile, TileId, WallId};

verus! {

/// A swing: what is held, how long it takes, whether the cell is in reach, and
/// the damage it comes to, alone or on top of what was there.
#[derive(Debug, Clone, Copy, PartialEq, Eq, Structural)]
pub struct Swing {
    pub tool: Option<ToolStats>,
    pub use_ticks: u64,
    pub in_reach: bool,
    /// The tool does damage to the target at all.
    pub deals: bool,
    pub alone: DamageSum,
    pub added: DamageSum,
}

/// What a swing did.
#[derive(Debug, Clone, Copy, PartialEq, Eq, Structural)]
pub struct SwingResult {
    /// The hands after it, if there was one.
    pub hands: Option<Hands>,
    /// The damage that is seen now.
    pub crack: Option<DamageSum>,
    pub breaks: bool,
}

/// The damage entry of a cell.
pub open spec fn entry_of(m: Map<(u32, u32), TileDamage>, c: (u32, u32)) -> Option<TileDamage> {
    if m.dom().contains(c) {
        Some(m[c])
    } else {
        None
    }
}

/// The damage after a swing that does some.
pub open spec fn summed(
    m: Map<(u32, u32), TileDamage>,
    c: (u32, u32),
    s: Swing,
    tick: u64,
    reset_ticks: u64,
) -> DamageSum {
    if damage_worn_off(entry_of(m, c), tick, reset_ticks) {
        s.alone
    } else {
        s.added
    }
}

pub open spec fn damage_after(
    m: Map<(u32, u32), TileDamage>,
    c: (u32, u32),
    sum: DamageSum,
    tick: u64,
) -> Map<(u32, u32), TileDamage> {
    if sum.breaks {
        m.remove(c)
    } else {
        m.insert(c, TileDamage { damage: sum.damage, last_hit_tick: tick })
    }
}

/// What the swing at a tile comes to.
pub open spec fn tile_hit(g: Grid, x: u32, y: u32, data: TileData, h: Hands, s: Swing, tick: u64) -> Option<
    Hit,
> {
    let id = g.at(x as int, y as int).id;
    if id == TileId::Air || !data.breakable || !s.in_reach || !swing_due(h, tick, s.use_ticks) {
        None
    } else {
        Some(spec_hit_effect(data, s.tool, s.deals))
    }
}

/// A swing at the foreground of an inside cell.
pub fn hit_tile(
    world: &World,
    damage: &mut CellMap<TileDamage>,
    x: u32,
    y: u32,
    data: &TileData,
    h: Hands,
    s: Swing,
    tick: u64,
    reset_ticks: u64,
) -> (r: SwingResult)
    requires
        world.wf(),
        world@.inside(x as int, y as int),
    ensures
        ({
            let swung = (Hands { last_swing_tick: Some(tick), ..h });
            let sum = summed(old(damage)@, (x, y), s, tick, reset_ticks);
            match tile_hit(world@, x, y, *data, h, s, tick) {
                None => {
                    &&& r == (SwingResult { hands: None, crack: None, breaks: false })
                    &&& final(damage)@ == old(damage)@
                },
                Some(Hit::Nothing) => {
                    &&& r == (SwingResult { hands: Some(swung), crack: None, breaks: false })
                    &&& final(damage)@ == old(damage)@
                },
                Some(Hit::Breaks) => {
                    &&& r == (SwingResult { hands: Some(swung), crack: None, breaks: true })
                    &&& final(damage)@ == old(damage)@
                },
                Some(Hit::Damages) => {
                    &&& r == (SwingResult {
                        hands: Some(swung),
                        crack: if sum.breaks {
                            None
                        } else {
                            Some(sum)
                        },
                        breaks: sum.breaks,
                    })
                    &&& final(damage)@ == damage_after(old(damage)@, (x, y), sum, tick)
                },
            }
        }),
{
    let missed = SwingResult { hands: None, crack: None, breaks: false };
    if !is_target(world.tile(x, y).id, data) {
        return missed;
    }
    let hands: Hands = match accept_swing(h, tick, s.use_ticks, s.in_reach) {
        Some(n) => n,
        None => {
            return missed;
        },
    };
    match hit_effect(data, s.tool, s.deals) {
        Hit::Nothing => SwingResult { hands: Some(hands), crack: None, breaks: false },
        Hit::Breaks => SwingResult { hands: Some(hands), crack: None, breaks: true },
        Hit::Damages => {
            let sum = apply_damage(damage, (x, y), tick, reset_ticks, s.alone, s.added);
            let crack: Option<DamageSum> = if sum.breaks {
                None
            } else {
                Some(sum)
            };
            SwingResult { hands: Some(hands), crack, breaks: sum.breaks }
        },
    }
}

/// A hammer is held.
pub open spec fn is_hammer(tool: Option<ToolStats>) -> bool {
    tool is Some && tool->Some_0.kind == ToolKind::Hammer
}

/// A swing at the wall of an inside cell: only hammers do anything.
pub fn hit_wall(
    world: &World,
    damage: &mut CellMap<TileDamage>,
    x: u32,
    y: u32,
    h: Hands,
    s: Swing,
    tick: u64,
    reset_ticks: u64,
) -> (r: SwingResult)
    requires
        world.wf(),
        world@.inside(x as int, y as int),
    ensures
        ({
            let swung = (Hands { last_swing_tick: Some(tick), ..h });
            let sum = summed(old(damage)@, (x, y), s, tick, reset_ticks);
            if world@.at(x as int, y as int).wall == WallId::Air || !s.in_reach || !swing_due(
                h,
                tick,
                s.use_ticks,
            ) {
                &&& r == (SwingResult { hands: None, crack: None, breaks: false })
                &&& final(damage)@ == old(damage)@
            } else if !is_hammer(s.tool) || !s.deals {
                &&& r == (SwingResult { hands: Some(swung), crack: None, breaks: false })
                &&& final(damage)@ == old(damage)@
            } else {
                &&& r == (SwingResult {
                    hands: Some(swung),
                    crack: if sum.breaks {
                        None
                    } else {
                        Some(sum)
                    },
                    breaks: sum.breaks,
                })
                &&& final(damage)@ == damage_after(old(damage)@, (x, y), sum, tick)
            }
        }),
{
    let missed = SwingResult { hands: None, crack: None, breaks: false };
    if world.tile(x, y).wall == WallId::Air {
        return missed;
    }
    let hands: Hands = match accept_swing(h, tick, s.use_ticks, s.in_reach) {
        Some(n) => n,
        None => {
            return missed;
        },
    };
    let hammer: bool = match s.tool {
        Some(t) => t.kind == ToolKind::Hammer,
        None => false,
    };
    if !hammer || !s.deals {
        return SwingResult { hands: Some(hands), crack: None, breaks: false };
    }
    let sum = apply_damage(damage, (x, y), tick, reset_ticks, s.alone, s.added);
    let crack: Option<DamageSum> = if sum.breaks {
        None
    } else {
        Some(sum)
    };
    SwingResult { hands: Some(hands), crack, breaks: sum.breaks }
}

/// What breaking a cell does to it: which rule applies.
pub open spec fn break_kind(id: TileId, data: TileData) -> Breaking {
    match id {
        TileId::Air => Breaking::Nothing,
        TileId::TreeTrunk => Breaking::Tree,
        TileId::Pot => Breaking::Pot,
        TileId::Sapling => Breaking::Sapling,
        _ => if data.width != 1 || data.height != 1 {
            Breaking::Object
        } else {
            Breaking::Plain
        },
    }
}

/// The break takes a chest away: the object there is one, and it is empty.
pub open spec fn takes_chest(
    g: Grid,
    chests: Map<(u32, u32), Seq<Option<InvSlot>>>,
    x: u32,
    y: u32,
    kind: Breaking,
) -> bool {
    let o = spec_origin(g, x, y);
    &&& kind == Breaking::Object
    &&& g.at(o.0 as int, o.1 as int).id == TileId::Chest
    &&& !chest_blocked(TileId::Chest, chests, o)
}

/// The edits of a break.
pub open spec fn break_edits(
    g: Grid,
    chests: Map<(u32, u32), Seq<Option<InvSlot>>>,
    x: u32,
    y: u32,
    data: TileData,
    kind: Breaking,
) -> Seq<(u32, u32, Tile)> {
    let (a, b) = (x as int, y as int);
    let o = spec_origin(g, x, y);
    let id = g.at(o.0 as int, o.1 as int).id;
    match kind {
        Breaking::Nothing => seq![],
        Breaking::Tree => tree_edits(g, a, b, tree_height(g, a, b)),
        Breaking::Object => if chest_blocked(id, chests, o) {
            seq![]
        } else {
            object_edits(
                g,
                id,
                o.0 as int,
                o.1 as int,
                data.width as int,
                data.height as int,
            )
        },
        _ => clear_edits(g, a, b),
    }
}

/// The saplings that a break leaves.
pub open spec fn break_saplings(
    saplings: Map<(u32, u32), u64>,
    g: Grid,
    x: u32,
    y: u32,
    kind: Breaking,
) -> Map<(u32, u32), u64> {
    let (a, b) = (x as int, y as int);
    match kind {
        Breaking::Pot | Breaking::Plain => clear_saplings(saplings, g, a, b),
        Breaking::Sapling => clear_saplings(saplings.remove((x, y)), g, a, b),
        _ => saplings,
    }
}

/// What a break leaves on the ground.
pub open spec fn break_drops(
    g: Grid,
    chests: Map<(u32, u32), Seq<Option<InvSlot>>>,
    x: u32,
    y: u32,
    data: TileData,
    pot: InvSlot,
    acorns: Seq<bool>,
    kind: Breaking,
) -> Seq<Drop> {
    let (a, b) = (x as int, y as int);
    let o = spec_origin(g, x, y);
    let id = g.at(o.0 as int, o.1 as int).id;
    match kind {
        Breaking::Nothing => seq![],
        Breaking::Tree => tree_drops(a, b, acorns, tree_height(g, a, b)),
        Breaking::Pot => clear_drops(g, a, b, acorns).push(drop_at(pot.item, pot.count, a, b)),
        Breaking::Sapling => clear_drops(g, a, b, acorns),
        Breaking::Plain => match data.drops {
            Some(s) => clear_drops(g, a, b, acorns).push(drop_at(s.item, s.count, a, b)),
            None => clear_drops(g, a, b, acorns),
        },
        Breaking::Object => match data.drops {
            Some(stack) if !chest_blocked(id, chests, o) => seq![
                Drop {
                    stack,
                    half_x: (2 * o.0 + data.width) as u64,
                    half_y: (2 * o.1 + data.height) as u64,
                },
            ],
            _ => seq![],
        },
    }
}

/// The grid after a break, rule by rule.
pub open spec fn broken(
    g: Grid,
    after: Grid,
    chests: Map<(u32, u32), Seq<Option<InvSlot>>>,
    x: u32,
    y: u32,
    data: TileData,
    kind: Breaking,
) -> bool {
    let (a, b) = (x as int, y as int);
    let o = spec_origin(g, x, y);
    let id = g.at(o.0 as int, o.1 as int).id;
    match kind {
        Breaking::Nothing => after == g,
        Breaking::Tree => felled(g, after, a, b),
        Breaking::Object => if chest_blocked(id, chests, o) {
            after == g
        } else {
            without_object(
                g,
                after,
                id,
                o.0 as int,
                o.1 as int,
                data.width as int,
                data.height as int,
            )
        },
        _ => cleared(g, after, a, b),
    }
}

impl Live {
    /// Breaks the foreground of an inside cell: trees fall, pots give way to
    /// what was rolled for them, furniture breaks as a whole, and all else
    /// leaves what it is worth. Every cell that goes is put in turn, and those
    /// who receive it are told. A chest that goes is closed for the player who
    /// had it open.
    pub fn break_tile(
        &mut self,
        chests: &mut ChestStore,
        roster: &mut Roster,
        x: u32,
        y: u32,
        data: &TileData,
        pot: InvSlot,
        acorns: &Vec<bool>,
        tick: u64,
        drops: &mut Vec<Drop>,
        out: &mut Vec<Outgoing>,
    ) -> (kind: Breaking)
        requires
            old(self).wf(),
            old(chests).wf(),
            old(roster).wf(),
            one_opener(old(roster).players@),
            old(self).world@.inside(x as int, y as int),
            acorns.len() > y,
        ensures
            final(self).wf(),
            final(self).world.width == old(self).world.width,
            final(self).world.height == old(self).world.height,
            final(chests).wf(),
            final(roster).wf(),
            one_opener(final(roster).players@),
            final(roster).players@ == (if takes_chest(old(self)@.grid, old(chests)@, x, y, kind) {
                shut_for_all(old(roster).players@, spec_origin(old(self)@.grid, x, y))
            } else {
                old(roster).players@
            }),
            final(roster).offline == old(roster).offline,
            final(roster).next_player_id == old(roster).next_player_id,
            final(roster).next_epoch == old(roster).next_epoch,
            kind == break_kind(old(self)@.grid.at(x as int, y as int).id, *data),
            final(chests)@ == (if takes_chest(old(self)@.grid, old(chests)@, x, y, kind) {
                old(chests)@.remove(spec_origin(old(self)@.grid, x, y))
            } else {
                old(chests)@
            }),
            final(drops)@ == old(drops)@ + break_drops(
                old(self)@.grid,
                old(chests)@,
                x,
                y,
                *data,
                pot,
                acorns@,
                kind,
            ),
            broken(old(self)@.grid, final(self)@.grid, old(chests)@, x, y, *data, kind),
            ({
                let g = old(self)@.grid;
                let edits = break_edits(g, old(chests)@, x, y, *data, kind);
                &&& final(self)@ == (LiveView {
                    saplings: break_saplings(old(self)@.saplings, g, x, y, kind),
                    ..old(self)@
                }).changes(edits, tick)
                &&& said(final(out)@) == said(old(out)@) + edit_news(old(roster).players@, edits)
            }),
    {
        let ghost g = self.world@;
        let ghost kept = chests@;
        let mut edits: Vec<(u32, u32, Tile)> = Vec::new();
        let id = self.world.tile(x, y).id;
        let kind = breaking(id, data);
        let mut freed: Option<(u32, u32)> = None;
        match kind {
            Breaking::Nothing => {},
            Breaking::Tree => {
                fell_tree(&self.world, x, y, acorns, &mut edits, drops);
                proof {
                    lemma_felled(g, x as int, y as int);
                }
            },
            Breaking::Pot => {
                clear_cell(&self.world, &mut self.saplings, x, y, acorns, &mut edits, drops);
                drops.push(
                    Drop { stack: pot, half_x: 2 * x as u64 + 1, half_y: 2 * y as u64 + 1 },
                );
            },
            Breaking::Sapling => {
                self.saplings.remove((x, y));
                clear_cell(&self.world, &mut self.saplings, x, y, acorns, &mut edits, drops);
            },
            Breaking::Object => {
                let o: (u32, u32) = self.world.multitile_origin(x, y);
                let chest: bool = self.world.tile(o.0, o.1).id == TileId::Chest;
                let broke = break_multitile(&self.world, chests, x, y, data, &mut edits, drops);
                if chest && broke {
                    freed = Some(o);
                }
            },
            Breaking::Plain => {
                clear_cell(&self.world, &mut self.saplings, x, y, acorns, &mut edits, drops);
                match data.drops {
                    Some(stack) => {
                        drops.push(
                            Drop { stack, half_x: 2 * x as u64 + 1, half_y: 2 * y as u64 + 1 },
                        );
                    },
                    None => {},
                }
            },
        }
        assert(edits@ =~= break_edits(g, kept, x, y, *data, kind));
        assert(drops@ =~= old(drops)@ + break_drops(g, kept, x, y, *data, pot, acorns@, kind));
        assert(broken(g, edited(g, edits@), kept, x, y, *data, kind));
        self.apply(roster, &edits, tick, out);
        if let Some(o) = freed {
            roster.release_gone_chest(o);
        }
        kind
    }
}

/// Breaking a chest frees it: nobody has it open afterwards.
pub proof fn law_breaking_frees_the_chest(
    before: Grid,
    chests: Map<(u32, u32), Seq<Option<InvSlot>>>,
    x: u32,
    y: u32,
    kind: Breaking,
    players: Seq<Player>,
    after: Seq<Player>,
    k: int,
)
    requires
        takes_chest(before, chests, x, y, kind),
        after == shut_for_all(players, spec_origin(before, x, y)),
        0 <= k < after.len(),
    ensures
        after[k].open_chest != Some(spec_origin(before, x, y)),
        after[k] == (Player { open_chest: after[k].open_chest, ..players[k] }),
        players[k].open_chest != Some(spec_origin(before, x, y)) ==> after[k] == players[k],
{
}

/// A chest with something in it never breaks.
pub proof fn law_filled_chests_stand(
    before: Grid,
    chests: Map<(u32, u32), Seq<Option<InvSlot>>>,
    x: u32,
    y: u32,
)
    requires
        before.at(x as int, y as int).id == TileId::Chest,
        spec_origin(before, x, y) == (x, y),
        chests.dom().contains((x, y)),
        exists|i: int| 0 <= i < chests[(x, y)].len() && #[trigger] chests[(x, y)][i] is Some,
    ensures
        chest_blocked(TileId::Chest, chests, (x, y)),
{
}

/// A hit needs something breakable in reach, and a hand that is ready.
pub proof fn law_hits_need_something_to_hit(
    g: Grid,
    x: u32,
    y: u32,
    data: TileData,
    h: Hands,
    s: Swing,
    tick: u64,
)
    ensures
        tile_hit(g, x, y, data, h, s, tick) is Some <==> data.breakable && s.in_reach && swing_due(
            h,
            tick,
            s.use_ticks,
        ) && g.at(x as int, y as int).id != TileId::Air,
        tile_hit(g, x, y, data, h, s, tick) is Some ==> tile_hit(g, x, y, data, h, s, tick)
            == Some(spec_hit_effect(data, s.tool, s.deals)),
{
}

/// Hits add up until the damage has worn off, and then the next one counts alone. A broken cell
/// keeps no damage, and other cells keep theirs.
pub proof fn law_hits_add_up(
    m: Map<(u32, u32), TileDamage>,
    c: (u32, u32),
    s: Swing,
    tick: u64,
    reset_ticks: u64,
    sum: DamageSum,
    other: (u32, u32),
)
    ensures
        !m.dom().contains(c) ==> summed(m, c, s, tick, reset_ticks) == s.alone,
        m.dom().contains(c) && tick <= m[c].last_hit_tick + reset_ticks ==> summed(
            m,
            c,
            s,
            tick,
            reset_ticks,
        ) == s.added,
        m.dom().contains(c) && tick > m[c].last_hit_tick + reset_ticks ==> summed(
            m,
            c,
            s,
            tick,
            reset_ticks,
        ) == s.alone,
        sum.breaks ==> !damage_after(m, c, sum, tick).dom().contains(c),
        !sum.breaks ==> damage_after(m, c, sum, tick).dom().contains(c) && damage_after(
            m,
            c,
            sum,
            tick,
        )[c].damage == sum.damage && damage_after(m, c, sum, tick)[c].last_hit_tick == tick,
        other != c && m.dom().contains(other) ==> damage_after(m, c, sum, tick).dom().contains(
            other,
        ) && damage_after(m, c, sum, tick)[other] == m[other],
        other != c && !m.dom().contains(other) ==> !damage_after(m, c, sum, tick).dom().contains(
            other,
        ),
{
}

/// Only a hammer takes down walls.
pub proof fn law_hammers_take_walls(t: ToolStats)
    ensures
        !is_hammer(None),
        is_hammer(Some(t)) <==> t.kind is Hammer,
{
}

/// Trees, pots and saplings break in their own way, other things whole or as a single cell, by
/// their size.
pub proof fn law_things_break_in_their_way(id: TileId, data: TileData)
    ensures
        break_kind(id, data) is Nothing <==> id == TileId::Air,
        break_kind(id, data) is Tree <==> id == TileId::TreeTrunk,
        break_kind(id, data) is Pot <==> id == TileId::Pot,
        break_kind(id, data) is Sapling <==> id == TileId::Sapling,
        id != TileId::Air && id != TileId::TreeTrunk && id != TileId::Pot && id != TileId::Sapling
            ==> (break_kind(id, data) is Plain <==> data.width == 1 && data.height == 1) && (
        break_kind(id, data) is Object <==> data.width != 1 || data.height != 1),
{
}

/// A pot gives what was in it and a plain tile what it gives, at the cell; a big thing gives what
/// it gives at its middle, and a chest with contents nothing.
pub proof fn law_broken_things_give_their_drops(
    g: Grid,
    chests: Map<(u32, u32), Seq<Option<InvSlot>>>,
    x: u32,
    y: u32,
    data: TileData,
    pot: InvSlot,
    acorns: Seq<bool>,
)
    ensures
        ({
            let o = spec_origin(g, x, y);
            let shut = chest_blocked(g.at(o.0 as int, o.1 as int).id, chests, o);
            let gives = |kind: Breaking| break_drops(g, chests, x, y, data, pot, acorns, kind);
            &&& gives(Breaking::Nothing).len() == 0
            &&& gives(Breaking::Pot).len() > 0 && gives(Breaking::Pot).last().stack == pot
            &&& data.drops is Some ==> gives(Breaking::Plain).last().stack == data.drops->Some_0
            &&& data.drops is None ==> gives(Breaking::Plain) == gives(Breaking::Sapling)
            &&& shut || data.drops is None ==> gives(Breaking::Object).len() == 0
            &&& !shut && data.drops is Some ==> gives(Breaking::Object).len() == 1 && gives(
                Breaking::Object,
            )[0].stack == data.drops->Some_0
            &&& !shut && data.drops is Some && o.0 < 0x1000_0000 && o.1 < 0x1000_0000 ==> gives(
                Breaking::Object,
            )[0].half_x == o.0 + o.0 + data.width && gives(Breaking::Object)[0].half_y == o.1 + o.1
                + data.height
        }),
{
}

/// Only an empty chest that breaks is taken out of the store.
pub proof fn law_only_empty_chests_are_taken(
    g: Grid,
    chests: Map<(u32, u32), Seq<Option<InvSlot>>>,
    x: u32,
    y: u32,
    kind: Breaking,
)
    ensures
        ({
            let o = spec_origin(g, x, y);
            let t = g.at(o.0 as int, o.1 as int);
            takes_chest(g, chests, x, y, kind) <==> kind is Object && t.id == TileId::Chest
                && !chest_blocked(t.id, chests, o)
        }),
{
}

/// A broken sapling is forgotten, and a pot or a tile takes the sapling on it along.
pub proof fn law_broken_saplings_are_forgotten(
    saplings: Map<(u32, u32), u64>,
    g: Grid,
    x: u32,
    y: u32,
)
    ensures
        break_saplings(saplings, g, x, y, Breaking::Nothing) == saplings,
        break_saplings(saplings, g, x, y, Breaking::Tree) == saplings,
        break_saplings(saplings, g, x, y, Breaking::Object) == saplings,
        break_saplings(saplings, g, x, y, Breaking::Pot) == clear_saplings(
            saplings,
            g,
            x as int,
            y as int,
        ),
        break_saplings(saplings, g, x, y, Breaking::Plain) == clear_saplings(
            saplings,
            g,
            x as int,
            y as int,
        ),
        !break_saplings(saplings, g, x, y, Breaking::Sapling).dom().contains((x, y)),
{
}

} // verus!
