//! Life and death of players: damage, coins lost, returning, afflictions,
//! potions, breath and slow healing.
//!
//! What floating point decides comes in as an argument: how much damage
//! armour leaves, whole points of damage or healing that fell due, and where
//! a player's body is.

use vstd::prelude::*;

use crate::grid::{Grid, World};
use crate::item::{item_count, InvSlot, ItemId, ARMOR_START};
use crate::sim::entities::{touches, touches_liquid};
use crate::sim::interact::{consume_item, spent};
use crate::sim::player::{ActiveDebuff, Debuff, Fall, Motion, Player, Point, Vitals};
use crate::sim::roster::{respawn_hp, spec_respawn_hp};
use crate::tile::{LiquidKind, TileId, LIQUID_MAX_LEVEL};

verus! {

/// Ticks for which a hit player cannot be hit again.
pub const PLAYER_IFRAME_TICKS: u64 = 40;

pub const RESPAWN_TICKS: u64 = 600;

/// Ticks until a player may return while a boss is about.
pub const RESPAWN_TICKS_BOSS_ALIVE: u64 = 1200;

pub const PLAYER_BASE_MAX_HP: u16 = 100;

pub const PLAYER_MAX_MAX_HP: u16 = 400;

pub const PLAYER_MAX_BREATH: u16 = 200;

/// Under water a unit of breath goes every so many ticks.
pub const BREATH_DRAIN_INTERVAL_TICKS: u64 = 7;

pub const BREATH_REFILL_PER_TICK: u16 = 3;

/// A player who breathes again is told of it every so many ticks.
pub const BREATH_SYNC_TICKS: u64 = 6;

/// Healing begins so many ticks after the last damage.
pub const REGEN_DELAY_TICKS: u64 = 480;

pub const LAVA_BURN_TICKS: u32 = 420;

pub const HELLSTONE_BURN_TICKS: u32 = 120;

// ---- Damage ----------------------------------------------------------------

/// How damage comes.
#[derive(Debug, Clone, Copy, PartialEq, Eq, Structural)]
pub enum Hurt {
    /// A blow: armour counts, and for a while no other blow does.
    Hit,
    /// A fall, fire or lack of air.
    Raw,
}

/// What damage did.
#[derive(Debug, Clone, Copy, PartialEq, Eq, Structural)]
pub struct Harm {
    pub vitals: Vitals,
    /// Damage was done.
    pub applied: bool,
    /// It was deadly.
    pub died: bool,
}

/// A player with `v` takes `damage` at `tick`.
pub open spec fn spec_hurt(v: Vitals, damage: u32, how: Hurt, tick: u64) -> Harm {
    if v.dead || (how == Hurt::Hit && tick < v.iframe_until) {
        Harm { vitals: v, applied: false, died: false }
    } else {
        let shielded = if how == Hurt::Hit {
            Vitals { iframe_until: (tick + PLAYER_IFRAME_TICKS) as u64, ..v }
        } else {
            v
        };
        if damage == 0 {
            Harm { vitals: shielded, applied: false, died: false }
        } else {
            let hp = if damage >= v.hp {
                0
            } else {
                (v.hp - damage) as u16
            };
            Harm {
                vitals: Vitals { hp, last_damage_tick: tick, ..shielded },
                applied: true,
                died: hp == 0,
            }
        }
    }
}

/// Damages a player. The dead take none, and within the grace after a blow
/// no further blow counts.
pub fn hurt_player(v: Vitals, damage: u32, how: Hurt, tick: u64) -> (h: Harm)
    requires
        tick <= u64::MAX - PLAYER_IFRAME_TICKS,
    ensures
        h == spec_hurt(v, damage, how, tick),
{
    if v.dead {
        return Harm { vitals: v, applied: false, died: false };
    }
    let mut vitals = v;
    if how == Hurt::Hit {
        if tick < v.iframe_until {
            return Harm { vitals: v, applied: false, died: false };
        }
        vitals.iframe_until = tick + PLAYER_IFRAME_TICKS;
    }
    if damage == 0 {
        return Harm { vitals, applied: false, died: false };
    }
    vitals.hp = if damage >= v.hp as u32 {
        0
    } else {
        v.hp - damage as u16
    };
    vitals.last_damage_tick = tick;
    let died: bool = vitals.hp == 0;
    Harm { vitals, applied: true, died }
}

/// Between two blows that count, at least the grace passes.
pub proof fn law_blows_are_apart(v: Vitals, first: u32, second: u32, t1: u64, t2: u64)
    requires
        t1 <= u64::MAX - PLAYER_IFRAME_TICKS,
        spec_hurt(v, first, Hurt::Hit, t1).applied,
        spec_hurt(spec_hurt(v, first, Hurt::Hit, t1).vitals, second, Hurt::Hit, t2).applied,
    ensures
        t2 >= t1 + PLAYER_IFRAME_TICKS,
{
}

/// Health never rises by damage, and the dead take none.
pub proof fn law_damage_never_heals(v: Vitals, damage: u32, how: Hurt, tick: u64)
    ensures
        spec_hurt(v, damage, how, tick).vitals.hp <= v.hp,
        spec_hurt(v, damage, how, tick).vitals.max_hp == v.max_hp,
        v.dead ==> spec_hurt(v, damage, how, tick).vitals == v,
        spec_hurt(v, damage, how, tick).applied ==> (spec_hurt(v, damage, how, tick).died
            <==> damage >= v.hp),
{
}

// ---- Death -----------------------------------------------------------------

/// What is left of a player who died.
pub open spec fn spec_dead(v: Vitals, tick: u64, boss_alive: bool) -> Vitals {
    Vitals {
        dead: true,
        hp: 0,
        respawn_ready_tick: (tick + if boss_alive {
            RESPAWN_TICKS_BOSS_ALIVE
        } else {
            RESPAWN_TICKS
        }) as u64,
        ..v
    }
}

/// How many coins of a stack a dead player drops: half, rounded down; nothing
/// of other items.
pub open spec fn coins_lost(s: Option<InvSlot>) -> u16 {
    match s {
        Some(stack) => if stack.item.spec_coin_value() is Some {
            stack.count / 2
        } else {
            0
        },
        None => 0,
    }
}

/// What is left in a slot.
pub open spec fn coins_left(s: Option<InvSlot>) -> Option<InvSlot> {
    match s {
        Some(stack) => if coins_lost(s) == 0 {
            s
        } else {
            Some(InvSlot { item: stack.item, count: (stack.count - coins_lost(s)) as u16 })
        },
        None => s,
    }
}

/// The coins that the first `n` slots lose.
pub open spec fn spilled(slots: Seq<Option<InvSlot>>, n: nat) -> Seq<(ItemId, u16)>
    decreases n,
{
    if n == 0 {
        seq![]
    } else {
        let before = spilled(slots, (n - 1) as nat);
        if coins_lost(slots[n - 1]) > 0 {
            before.push((slots[n - 1]->Some_0.item, coins_lost(slots[n - 1])))
        } else {
            before
        }
    }
}

/// The slots after death: half of each coin stack is gone from what is
/// carried, and equipment is untouched.
pub open spec fn robbed(before: Seq<Option<InvSlot>>, after: Seq<Option<InvSlot>>) -> bool {
    &&& after.len() == before.len()
    &&& forall|i: int|
        0 <= i < before.len() ==> #[trigger] after[i] == (if i < ARMOR_START {
            coins_left(before[i])
        } else {
            before[i]
        })
}

/// Takes half of each carried coin stack and returns what falls to the
/// ground.
pub fn drop_coins(inventory: &mut Vec<Option<InvSlot>>) -> (dropped: Vec<(ItemId, u16)>)
    requires
        old(inventory).len() >= ARMOR_START,
    ensures
        robbed(old(inventory)@, final(inventory)@),
        dropped@ == spilled(old(inventory)@, ARMOR_START as nat),
{
    let mut dropped: Vec<(ItemId, u16)> = Vec::new();
    let mut i: usize = 0;
    while i < ARMOR_START
        invariant
            i <= ARMOR_START,
            inventory.len() == old(inventory).len(),
            inventory.len() >= ARMOR_START,
            dropped@ == spilled(old(inventory)@, i as nat),
            forall|k: int|
                0 <= k < inventory@.len() ==> #[trigger] inventory@[k] == (if k < i {
                    coins_left(old(inventory)@[k])
                } else {
                    old(inventory)@[k]
                }),
        decreases ARMOR_START - i,
    {
        assert(inventory@[i as int] == old(inventory)@[i as int]);
        match inventory[i] {
            Some(stack) => {
                if stack.item.coin_value().is_some() {
                    let lost: u16 = stack.count / 2;
                    if lost > 0 {
                        inventory.set(
                            i,
                            Some(InvSlot { item: stack.item, count: stack.count - lost }),
                        );
                        dropped.push((stack.item, lost));
                    }
                }
            },
            None => {},
        }
        i = i + 1;
    }
    dropped
}

/// How many of `item` lie in a heap.
pub open spec fn heap_count(heap: Seq<(ItemId, u16)>, item: ItemId) -> int
    decreases heap.len(),
{
    if heap.len() == 0 {
        0
    } else {
        heap_count(heap.drop_last(), item) + if heap.last().0 == item {
            heap.last().1 as int
        } else {
            0
        }
    }
}

/// Death keeps the coins: what the player loses lies on the ground.
pub proof fn law_death_keeps_coins(
    before: Seq<Option<InvSlot>>,
    after: Seq<Option<InvSlot>>,
    item: ItemId,
)
    requires
        robbed(before, after),
        before.len() >= ARMOR_START,
    ensures
        item_count(after, item) + heap_count(spilled(before, ARMOR_START as nat), item)
            == item_count(before, item),
{
    lemma_spilled_prefix(before, after, item, before.len());
    assert(before.take(before.len() as int) =~= before);
    assert(after.take(before.len() as int) =~= after);
}

proof fn lemma_spilled_prefix(
    before: Seq<Option<InvSlot>>,
    after: Seq<Option<InvSlot>>,
    item: ItemId,
    n: nat,
)
    requires
        robbed(before, after),
        before.len() >= ARMOR_START,
        n <= before.len(),
    ensures
        item_count(after.take(n as int), item) + heap_count(
            spilled(
                before,
                if n < ARMOR_START {
                    n
                } else {
                    ARMOR_START as nat
                },
            ),
            item,
        ) == item_count(before.take(n as int), item),
    decreases n,
{
    if n > 0 {
        lemma_spilled_prefix(before, after, item, (n - 1) as nat);
        assert(before.take(n as int).drop_last() =~= before.take(n - 1));
        assert(after.take(n as int).drop_last() =~= after.take(n - 1));
        assert(after[n - 1] == after.take(n as int).last());
        assert(before[n - 1] == before.take(n as int).last());
        if n <= ARMOR_START && coins_lost(before[n - 1]) > 0 {
            let heap = spilled(before, n);
            assert(heap.drop_last() =~= spilled(before, (n - 1) as nat));
        }
    }
}

/// A player dies: coins fall, afflictions and a swing end, and the wait
/// begins.
pub fn kill_player(p: &mut Player, tick: u64, boss_alive: bool) -> (dropped: Vec<(ItemId, u16)>)
    requires
        old(p).inventory.len() >= ARMOR_START,
        tick <= u64::MAX - RESPAWN_TICKS_BOSS_ALIVE,
    ensures
        *final(p) == (Player {
            vitals: spec_dead(old(p).vitals, tick, boss_alive),
            inventory: final(p).inventory,
            debuffs: final(p).debuffs,
            swing: None,
            ..*old(p)
        }),
        final(p).debuffs@.len() == 0,
        robbed(old(p).inventory@, final(p).inventory@),
        dropped@ == spilled(old(p).inventory@, ARMOR_START as nat),
{
    p.vitals.dead = true;
    p.vitals.hp = 0;
    p.swing = None;
    p.debuffs = Vec::new();
    let wait: u64 = if boss_alive {
        RESPAWN_TICKS_BOSS_ALIVE
    } else {
        RESPAWN_TICKS
    };
    p.vitals.respawn_ready_tick = tick + wait;
    drop_coins(&mut p.inventory)
}

// ---- Returning -------------------------------------------------------------

/// Where a player returns.
#[derive(Debug, Clone, Copy)]
pub enum ReturnAt {
    Bed((u32, u32)),
    WorldSpawn,
}

pub open spec fn spec_return_at(g: Grid, bed: Option<(u32, u32)>) -> ReturnAt {
    match bed {
        Some(o) => if g.inside(o.0 as int, o.1 as int) && g.at(o.0 as int, o.1 as int).id
            == TileId::Bed {
            ReturnAt::Bed(o)
        } else {
            ReturnAt::WorldSpawn
        },
        None => ReturnAt::WorldSpawn,
    }
}

/// The bed, if it still stands, or else the spawn of the world.
pub fn bed_spawn_pos(world: &World, bed: Option<(u32, u32)>) -> (r: ReturnAt)
    requires
        world.wf(),
    ensures
        r == spec_return_at(world@, bed),
{
    match bed {
        Some(o) => {
            if world.in_bounds(o.0, o.1) && world.tile(o.0, o.1).id == TileId::Bed {
                ReturnAt::Bed(o)
            } else {
                ReturnAt::WorldSpawn
            }
        },
        None => ReturnAt::WorldSpawn,
    }
}

/// The life of a player who returns at `tick`.
pub open spec fn alive_again(v: Vitals, tick: u64) -> Vitals {
    Vitals {
        dead: false,
        hp: spec_respawn_hp(v.max_hp, PLAYER_BASE_MAX_HP),
        breath: PLAYER_MAX_BREATH,
        iframe_until: (tick + PLAYER_IFRAME_TICKS) as u64,
        ..v
    }
}

/// A player who returned to `pos`: alive, at rest, on the ground, and to be
/// shown anew.
pub open spec fn returned(p: Player, pos: Point, tick: u64) -> Player {
    Player {
        vitals: alive_again(p.vitals, tick),
        motion: Motion { pos, vel: Point { x: 0, y: 0 }, moved: true, ..p.motion },
        fall: Fall { height: 0, was_grounded: true },
        ..p
    }
}

/// A dead player returns, once the wait is over: to their bed, if it still
/// stands, or else to the spawn of the world. `by_bed` and `at_spawn` are those
/// two places. Says whether they returned.
pub fn respawn_player(
    p: &mut Player,
    world: &World,
    by_bed: Point,
    at_spawn: Point,
    tick: u64,
) -> (back: bool)
    requires
        world.wf(),
        tick <= u64::MAX - PLAYER_IFRAME_TICKS,
    ensures
        back == (old(p).vitals.dead && tick >= old(p).vitals.respawn_ready_tick),
        back ==> !final(p).vitals.dead && final(p).vitals.breath == 200,
        !back ==> *final(p) == *old(p),
        !old(p).vitals.dead || tick < old(p).vitals.respawn_ready_tick ==> !back,
        *final(p) == (if back {
            returned(
                *old(p),
                match spec_return_at(world@, old(p).bed_spawn) {
                    ReturnAt::Bed(_) => by_bed,
                    ReturnAt::WorldSpawn => at_spawn,
                },
                tick,
            )
        } else {
            *old(p)
        }),
{
    if !p.vitals.dead || tick < p.vitals.respawn_ready_tick {
        return false;
    }
    let pos: Point = match bed_spawn_pos(world, p.bed_spawn) {
        ReturnAt::Bed(_) => by_bed,
        ReturnAt::WorldSpawn => at_spawn,
    };
    p.vitals.dead = false;
    p.vitals.hp = respawn_hp(p.vitals.max_hp, PLAYER_BASE_MAX_HP);
    p.vitals.breath = PLAYER_MAX_BREATH;
    p.vitals.iframe_until = tick + PLAYER_IFRAME_TICKS;
    p.fall = Fall { height: 0, was_grounded: true };
    p.motion.pos = pos;
    p.motion.vel = Point { x: 0, y: 0 };
    p.motion.moved = true;
    true
}

/// Who returns has health, and at most as much as there can be.
pub proof fn law_returns_alive(max_hp: u16)
    requires
        max_hp >= 1,
    ensures
        1 <= spec_respawn_hp(max_hp, PLAYER_BASE_MAX_HP) <= max_hp,
        max_hp >= PLAYER_BASE_MAX_HP ==> spec_respawn_hp(max_hp, PLAYER_BASE_MAX_HP)
            >= PLAYER_BASE_MAX_HP,
{
}

/// Claims the bed at `(x, y)` as the place to return to; gives its top left
/// cell.
pub fn set_bed_spawn(world: &World, x: u32, y: u32, in_reach: bool) -> (r: Option<(u32, u32)>)
    requires
        world.wf(),
    ensures
        r == (if world@.inside(x as int, y as int) && world@.at(x as int, y as int).id
            == TileId::Bed && in_reach {
            Some(crate::grid::spec_origin(world@, x, y))
        } else {
            None
        }),
        r is Some <==> in_reach && x < world.width && y < world.height && world@.at(
            x as int,
            y as int,
        ).id == TileId::Bed,
{
    if !world.in_bounds(x, y) || world.tile(x, y).id != TileId::Bed || !in_reach {
        return None;
    }
    Some(world.multitile_origin(x, y))
}

// ---- Afflictions -----------------------------------------------------------

/// The affliction is there.
pub open spec fn afflicted(list: Seq<ActiveDebuff>, debuff: Debuff) -> bool {
    exists|i: int| 0 <= i < list.len() && (#[trigger] list[i]).debuff == debuff
}

/// No affliction is there twice.
pub open spec fn each_once(list: Seq<ActiveDebuff>) -> bool {
    forall|i: int, j: int|
        0 <= i < j < list.len() ==> (#[trigger] list[i]).debuff != (#[trigger] list[j]).debuff
}

pub fn has_debuff(list: &Vec<ActiveDebuff>, debuff: Debuff) -> (b: bool)
    ensures
        b == afflicted(list@, debuff),
{
    let mut i: usize = 0;
    while i < list.len()
        invariant
            i <= list.len(),
            forall|k: int| 0 <= k < i ==> (#[trigger] list@[k]).debuff != debuff,
        decreases list.len() - i,
    {
        if list[i].debuff == debuff {
            assert(list@[i as int].debuff == debuff);
            return true;
        }
        i = i + 1;
    }
    false
}

/// The list after an affliction came: a new one is added, one that is there
/// lasts for the longer of the two times.
pub open spec fn worsened(
    before: Seq<ActiveDebuff>,
    after: Seq<ActiveDebuff>,
    debuff: Debuff,
    ticks: u32,
) -> bool {
    if afflicted(before, debuff) {
        &&& after.len() == before.len()
        &&& forall|i: int|
            0 <= i < before.len() ==> #[trigger] after[i] == (if before[i].debuff == debuff
                && before[i].ticks < ticks {
                ActiveDebuff { debuff, ticks }
            } else {
                before[i]
            })
    } else {
        after == before.push(ActiveDebuff { debuff, ticks })
    }
}

/// Afflicts a player, unless they are dead, or fire cannot hurt them.
pub fn add_debuff(
    list: &mut Vec<ActiveDebuff>,
    dead: bool,
    burn_immune: bool,
    debuff: Debuff,
    ticks: u32,
) -> (added: bool)
    requires
        each_once(old(list)@),
    ensures
        each_once(final(list)@),
        added == (!dead && !(debuff == Debuff::Burning && burn_immune)),
        dead ==> !added,
        added <==> !dead && (debuff == Debuff::Burning ==> !burn_immune),
        if added {
            worsened(old(list)@, final(list)@, debuff, ticks)
        } else {
            *final(list) == *old(list)
        },
{
    if dead || (debuff == Debuff::Burning && burn_immune) {
        return false;
    }
    let mut i: usize = 0;
    while i < list.len()
        invariant
            i <= list.len(),
            *list == *old(list),
            each_once(list@),
            !dead,
            !(debuff == Debuff::Burning && burn_immune),
            forall|k: int| 0 <= k < i ==> (#[trigger] list@[k]).debuff != debuff,
        decreases list.len() - i,
    {
        let d: ActiveDebuff = list[i];
        if d.debuff == debuff {
            assert(afflicted(list@, debuff));
            if d.ticks < ticks {
                list.set(i, ActiveDebuff { debuff, ticks });
            }
            return true;
        }
        i = i + 1;
    }
    list.push(ActiveDebuff { debuff, ticks });
    true
}

/// What of the first `n` afflictions is left a tick later.
pub open spec fn a_tick_later(list: Seq<ActiveDebuff>, n: nat) -> Seq<ActiveDebuff>
    decreases n,
{
    if n == 0 {
        seq![]
    } else {
        let before = a_tick_later(list, (n - 1) as nat);
        let d = list[n - 1];
        if d.ticks > 1 {
            before.push(ActiveDebuff { debuff: d.debuff, ticks: (d.ticks - 1) as u32 })
        } else {
            before
        }
    }
}

/// Lets a tick pass for afflictions; says whether one ended.
pub fn tick_debuffs(list: &mut Vec<ActiveDebuff>) -> (expired: bool)
    ensures
        final(list)@ == a_tick_later(old(list)@, old(list)@.len()),
        expired == (final(list)@.len() < old(list)@.len()),
{
    let mut left: Vec<ActiveDebuff> = Vec::new();
    let mut i: usize = 0;
    while i < list.len()
        invariant
            i <= list.len(),
            *list == *old(list),
            left@ == a_tick_later(list@, i as nat),
            left@.len() <= i,
        decreases list.len() - i,
    {
        let d: ActiveDebuff = list[i];
        if d.ticks > 1 {
            left.push(ActiveDebuff { debuff: d.debuff, ticks: d.ticks - 1 });
        }
        i = i + 1;
    }
    let expired: bool = left.len() < list.len();
    *list = left;
    expired
}

/// What is left after `n` ticks.
pub open spec fn ticks_later(list: Seq<ActiveDebuff>, n: nat) -> Seq<ActiveDebuff>
    decreases n,
{
    if n == 0 {
        list
    } else {
        let before = ticks_later(list, (n - 1) as nat);
        a_tick_later(before, before.len())
    }
}

/// An affliction is there as long as it was to last, and no tick longer.
pub proof fn law_debuff_runs_out(d: ActiveDebuff, n: nat)
    requires
        d.ticks > 0,
    ensures
        ticks_later(seq![d], n) == (if n < d.ticks {
            seq![ActiveDebuff { debuff: d.debuff, ticks: (d.ticks - n) as u32 }]
        } else {
            Seq::<ActiveDebuff>::empty()
        }),
    decreases n,
{
    reveal_with_fuel(a_tick_later, 2);
    if n > 0 {
        law_debuff_runs_out(d, (n - 1) as nat);
    }
    assert(ticks_later(seq![d], n) =~= (if n < d.ticks {
        seq![ActiveDebuff { debuff: d.debuff, ticks: (d.ticks - n) as u32 }]
    } else {
        Seq::<ActiveDebuff>::empty()
    }));
}

// ---- Healing ---------------------------------------------------------------

pub open spec fn healed(v: Vitals, by: int) -> u16 {
    if v.hp + by < v.max_hp {
        (v.hp + by) as u16
    } else {
        v.max_hp
    }
}

fn heal_by(v: Vitals, by: u16) -> (hp: u16)
    ensures
        hp == healed(v, by as int),
{
    let sum: u32 = v.hp as u32 + by as u32;
    if sum < v.max_hp as u32 {
        sum as u16
    } else {
        v.max_hp
    }
}

/// A potion can be drunk: no sickness, alive, and hurt.
pub open spec fn may_drink(p: Player) -> bool {
    !afflicted(p.debuffs@, Debuff::PotionSickness) && !p.vitals.dead && p.vitals.hp
        < p.vitals.max_hp
}

/// Drinks a potion out of a slot; `sick_ticks` of sickness follow.
pub fn drink_healing(p: &mut Player, slot: u8, heal: u16, sick_ticks: u32) -> (drunk: bool)
    requires
        each_once(old(p).debuffs@),
    ensures
        drunk == may_drink(*old(p)),
        each_once(final(p).debuffs@),
        if drunk {
            &&& *final(p) == (Player {
                vitals: Vitals { hp: healed(old(p).vitals, heal as int), ..old(p).vitals },
                inventory: final(p).inventory,
                debuffs: final(p).debuffs,
                ..*old(p)
            })
            &&& final(p).inventory@ == (if slot < old(p).inventory@.len() {
                spent(old(p).inventory@, slot as int)
            } else {
                old(p).inventory@
            })
            &&& worsened(
                old(p).debuffs@,
                final(p).debuffs@,
                Debuff::PotionSickness,
                sick_ticks,
            )
        } else {
            *final(p) == *old(p)
        },
{
    if has_debuff(&p.debuffs, Debuff::PotionSickness) || p.vitals.dead || p.vitals.hp
        >= p.vitals.max_hp {
        return false;
    }
    p.vitals.hp = heal_by(p.vitals, heal);
    consume_item(&mut p.inventory, slot);
    let added = add_debuff(&mut p.debuffs, false, false, Debuff::PotionSickness, sick_ticks);
    true
}

/// A second potion is refused as long as the first one's sickness lasts.
pub proof fn law_sickness_blocks_potions(before: Seq<ActiveDebuff>, after: Player, ticks: u32)
    requires
        worsened(before, after.debuffs@, Debuff::PotionSickness, ticks),
    ensures
        !may_drink(after),
{
    if afflicted(before, Debuff::PotionSickness) {
        let i = choose|i: int|
            0 <= i < before.len() && (#[trigger] before[i]).debuff == Debuff::PotionSickness;
        assert(after.debuffs@[i].debuff == Debuff::PotionSickness);
    } else {
        assert(after.debuffs@[before.len() as int].debuff == Debuff::PotionSickness);
    }
}

/// Uses a life crystal: more health at most, up to the cap, and as much more
/// health.
pub fn use_life_crystal(p: &mut Player, slot: u8, add: u16) -> (used: bool)
    requires
        add <= u16::MAX - PLAYER_MAX_MAX_HP,
    ensures
        used == (!old(p).vitals.dead && old(p).vitals.max_hp < PLAYER_MAX_MAX_HP),
        used <==> !old(p).vitals.dead && old(p).vitals.max_hp < 400,
        used ==> final(p).vitals.max_hp <= 400,
        used && old(p).vitals.max_hp + add <= 400 ==> final(p).vitals.max_hp
            == old(p).vitals.max_hp + add,
        used && old(p).vitals.hp <= old(p).vitals.max_hp && old(p).vitals.max_hp + add <= 400
            ==> final(p).vitals.hp == old(p).vitals.hp + add,
        if used {
            let max_hp = if old(p).vitals.max_hp + add < PLAYER_MAX_MAX_HP {
                (old(p).vitals.max_hp + add) as u16
            } else {
                PLAYER_MAX_MAX_HP
            };
            let raised = (Vitals { max_hp, ..old(p).vitals });
            &&& *final(p) == (Player {
                vitals: Vitals { hp: healed(raised, add as int), ..raised },
                inventory: final(p).inventory,
                ..*old(p)
            })
            &&& final(p).inventory@ == (if slot < old(p).inventory@.len() {
                spent(old(p).inventory@, slot as int)
            } else {
                old(p).inventory@
            })
        } else {
            *final(p) == *old(p)
        },
{
    if p.vitals.dead || p.vitals.max_hp >= PLAYER_MAX_MAX_HP {
        return false;
    }
    let sum: u16 = p.vitals.max_hp + add;
    p.vitals.max_hp = if sum < PLAYER_MAX_MAX_HP {
        sum
    } else {
        PLAYER_MAX_MAX_HP
    };
    p.vitals.hp = heal_by(p.vitals, add);
    consume_item(&mut p.inventory, slot);
    true
}

// ---- Every tick ------------------------------------------------------------

/// What a tick did to a player's breath.
#[derive(Debug, Clone, Copy, PartialEq, Eq, Structural)]
pub struct BreathTick {
    pub breath: u16,
    /// The player is told.
    pub tell: bool,
    /// There was no breath left: damage falls due.
    pub drowning: bool,
}

pub open spec fn spec_breath(v: Vitals, head_under: bool, tick: u64) -> BreathTick {
    if v.dead {
        BreathTick { breath: v.breath, tell: false, drowning: false }
    } else if head_under {
        if tick % BREATH_DRAIN_INTERVAL_TICKS != 0 {
            BreathTick { breath: v.breath, tell: false, drowning: false }
        } else if v.breath > 0 {
            BreathTick { breath: (v.breath - 1) as u16, tell: true, drowning: false }
        } else {
            BreathTick { breath: 0, tell: false, drowning: true }
        }
    } else if v.breath < PLAYER_MAX_BREATH {
        let breath = if v.breath + BREATH_REFILL_PER_TICK < PLAYER_MAX_BREATH {
            (v.breath + BREATH_REFILL_PER_TICK) as u16
        } else {
            PLAYER_MAX_BREATH
        };
        BreathTick {
            breath,
            tell: tick % BREATH_SYNC_TICKS == 0 || breath == PLAYER_MAX_BREATH,
            drowning: false,
        }
    } else {
        BreathTick { breath: v.breath, tell: false, drowning: false }
    }
}

/// Drains the breath of a player whose head is under water, and gives it back
/// to one who can breathe.
pub fn tick_breath(v: Vitals, head_under: bool, tick: u64) -> (b: BreathTick)
    ensures
        b == spec_breath(v, head_under, tick),
{
    let still = BreathTick { breath: v.breath, tell: false, drowning: false };
    if v.dead {
        return still;
    }
    if head_under {
        if tick % BREATH_DRAIN_INTERVAL_TICKS != 0 {
            return still;
        }
        if v.breath > 0 {
            return BreathTick { breath: v.breath - 1, tell: true, drowning: false };
        }
        return BreathTick { breath: 0, tell: false, drowning: true };
    }
    if v.breath < PLAYER_MAX_BREATH {
        let sum: u16 = v.breath + BREATH_REFILL_PER_TICK;
        let breath: u16 = if sum < PLAYER_MAX_BREATH {
            sum
        } else {
            PLAYER_MAX_BREATH
        };
        let tell: bool = tick % BREATH_SYNC_TICKS == 0 || breath == PLAYER_MAX_BREATH;
        return BreathTick { breath, tell, drowning: false };
    }
    still
}

/// Whether slow healing goes on: alive, hurt, and long enough since the last
/// damage.
pub fn regen_due(v: Vitals, tick: u64) -> (b: bool)
    ensures
        b == (!v.dead && 0 < v.hp < v.max_hp && tick >= v.last_damage_tick && tick
            - v.last_damage_tick >= REGEN_DELAY_TICKS),
        b ==> tick >= v.last_damage_tick + 480,
        !v.dead && 0 < v.hp && v.hp < v.max_hp && tick >= v.last_damage_tick + 480 ==> b,
        v.dead || v.hp == 0 || v.hp >= v.max_hp ==> !b,
{
    !v.dead && v.hp != 0 && v.hp < v.max_hp && tick.saturating_sub(v.last_damage_tick)
        >= REGEN_DELAY_TICKS
}

/// Gives whole points of health back, up to the most there can be.
pub fn regen(v: Vitals, whole: u16) -> (r: Vitals)
    ensures
        r == (Vitals { hp: healed(v, whole as int), ..v }),
        v.hp <= v.max_hp ==> v.hp <= r.hp <= v.max_hp,
        v.hp + whole <= v.max_hp ==> r.hp == v.hp + whole,
{
    let mut r = v;
    r.hp = heal_by(v, whole);
    r
}

/// The liquid over a point in cell `(x, y)`, of which `eighth` eighths of the
/// cell's height lie above the point: a liquid fills a cell from below.
pub open spec fn liquid_over(g: Grid, x: int, y: int, eighth: int) -> Option<LiquidKind> {
    let l = g.liquid(x, y);
    if eighth + l.spec_level() >= LIQUID_MAX_LEVEL {
        l.spec_kind()
    } else {
        None
    }
}

/// The liquid over a point, if any.
pub fn point_in_liquid(world: &World, x: i32, y: i32, eighth: u8) -> (r: Option<LiquidKind>)
    requires
        world.wf(),
        eighth < 8,
    ensures
        r == liquid_over(world@, x as int, y as int, eighth as int),
{
    let l = world.liquid(x, y);
    if eighth as u32 + l.level() as u32 >= LIQUID_MAX_LEVEL as u32 {
        l.kind()
    } else {
        None
    }
}

/// A cell between `(x0, y0)` and `(x1, y1)` is hellstone.
pub open spec fn on_hellstone(g: Grid, x0: int, y0: int, x1: int, y1: int) -> bool {
    exists|x: int, y: int|
        x0 <= x <= x1 && y0 <= y <= y1 && g.inside(x, y) && #[trigger] g.at(x, y).id
            == TileId::Hellstone
}

/// Whether a body covers hellstone.
pub fn touches_hellstone(world: &World, x0: i32, y0: i32, x1: i32, y1: i32) -> (b: bool)
    requires
        world.wf(),
        x1 < i32::MAX,
        y1 < i32::MAX,
    ensures
        b == on_hellstone(world@, x0 as int, y0 as int, x1 as int, y1 as int),
{
    let mut y: i32 = y0;
    while y <= y1
        invariant
            world.wf(),
            x1 < i32::MAX,
            y1 < i32::MAX,
            y0 <= y,
            forall|a: int, b: int|
                x0 <= a <= x1 && y0 <= b < y && world@.inside(a, b) ==> #[trigger] world@.at(
                    a,
                    b,
                ).id != TileId::Hellstone,
        decreases y1 + 1 - y,
    {
        let mut x: i32 = x0;
        while x <= x1
            invariant
                world.wf(),
                x1 < i32::MAX,
                y1 < i32::MAX,
                x0 <= x,
                y0 <= y <= y1,
                forall|a: int, b: int|
                    x0 <= a <= x1 && y0 <= b < y && world@.inside(a, b) ==> #[trigger] world@.at(
                        a,
                        b,
                    ).id != TileId::Hellstone,
                forall|a: int|
                    x0 <= a < x && world@.inside(a, y as int) ==> #[trigger] world@.at(
                        a,
                        y as int,
                    ).id != TileId::Hellstone,
            decreases x1 + 1 - x,
        {
            if x >= 0 && y >= 0 && world.in_bounds(x as u32, y as u32) && world.tile(
                x as u32,
                y as u32,
            ).id == TileId::Hellstone {
                assert(world@.at(x as int, y as int).id == TileId::Hellstone);
                return true;
            }
            x = x + 1;
        }
        y = y + 1;
    }
    false
}

/// Whether a body covers lava.
pub fn touches_lava(world: &World, x0: i32, y0: i32, x1: i32, y1: i32) -> (b: bool)
    requires
        world.wf(),
        x1 < i32::MAX,
        y1 < i32::MAX,
    ensures
        b == touches(world@, x0 as int, y0 as int, x1 as int, y1 as int, LiquidKind::Lava),
{
    touches_liquid(world, x0, y0, x1, y1, LiquidKind::Lava)
}

/// What surrounds a player this tick.
#[derive(Debug, Clone, Copy, PartialEq, Eq, Structural)]
pub struct Surroundings {
    pub lava: bool,
    pub hellstone: bool,
    pub burn_immune: bool,
    /// Damage that lava does to this player.
    pub lava_damage: u32,
}

/// What came of the surroundings.
#[derive(Debug)]
pub struct Contact {
    /// Lava hurt.
    pub hurt: bool,
    /// It killed; these coins fall to the ground.
    pub died: Option<Vec<(ItemId, u16)>>,
    /// The player caught fire, or burns on.
    pub burns: bool,
}

/// What the surroundings make of `a`: lava hurts and burns, hellstone burns.
pub open spec fn contacted(
    a: Player,
    b: Player,
    s: Surroundings,
    tick: u64,
    boss_alive: bool,
    c: Contact,
) -> bool {
    let harm = if s.lava {
        spec_hurt(a.vitals, s.lava_damage, Hurt::Hit, tick)
    } else {
        Harm { vitals: a.vitals, applied: false, died: false }
    };
    let alive = !a.vitals.dead && !harm.died;
    let by_lava = alive && harm.applied && !s.burn_immune;
    let by_stone = alive && s.hellstone && !s.burn_immune;
    &&& c.hurt == harm.applied
    &&& c.died is Some == harm.died
    &&& c.burns == (by_lava || by_stone)
    &&& b == (Player {
        vitals: if harm.died {
            spec_dead(harm.vitals, tick, boss_alive)
        } else {
            harm.vitals
        },
        inventory: b.inventory,
        debuffs: b.debuffs,
        swing: if harm.died {
            None
        } else {
            a.swing
        },
        ..a
    })
    &&& if harm.died {
        &&& robbed(a.inventory@, b.inventory@)
        &&& c.died->Some_0@ == spilled(a.inventory@, ARMOR_START as nat)
        &&& b.debuffs@.len() == 0
    } else {
        &&& b.inventory == a.inventory
        &&& if by_lava {
            worsened(a.debuffs@, b.debuffs@, Debuff::Burning, LAVA_BURN_TICKS)
        } else if by_stone {
            worsened(a.debuffs@, b.debuffs@, Debuff::Burning, HELLSTONE_BURN_TICKS)
        } else {
            b.debuffs == a.debuffs
        }
    }
}

/// Lava burns and hurts, hellstone burns.
pub fn tick_contact_hazards(p: &mut Player, s: Surroundings, tick: u64, boss_alive: bool) -> (c:
    Contact)
    requires
        each_once(old(p).debuffs@),
        old(p).inventory.len() >= ARMOR_START,
        tick <= u64::MAX - RESPAWN_TICKS_BOSS_ALIVE,
    ensures
        each_once(final(p).debuffs@),
        contacted(*old(p), *final(p), s, tick, boss_alive, c),
{
    let mut hurt: bool = false;
    let mut died: Option<Vec<(ItemId, u16)>> = None;
    let mut burns: bool = false;
    if p.vitals.dead {
        return Contact { hurt, died, burns };
    }
    let ghost before = p.debuffs@;
    if s.lava {
        let harm = hurt_player(p.vitals, s.lava_damage, Hurt::Hit, tick);
        p.vitals = harm.vitals;
        hurt = harm.applied;
        if harm.died {
            died = Some(kill_player(p, tick, boss_alive));
        } else if harm.applied {
            burns = add_debuff(
                &mut p.debuffs,
                false,
                s.burn_immune,
                Debuff::Burning,
                LAVA_BURN_TICKS,
            );
        }
    }
    let ghost lit = p.debuffs@;
    if !s.burn_immune && s.hellstone {
        let more = add_debuff(
            &mut p.debuffs,
            p.vitals.dead,
            s.burn_immune,
            Debuff::Burning,
            HELLSTONE_BURN_TICKS,
        );
        if more {
            proof {
                if burns {
                    lemma_shorter_burn(before, lit, p.debuffs@);
                }
            }
            burns = true;
        }
    }
    Contact { hurt, died, burns }
}

/// A shorter burn after a longer one changes nothing.
proof fn lemma_shorter_burn(
    before: Seq<ActiveDebuff>,
    lit: Seq<ActiveDebuff>,
    after: Seq<ActiveDebuff>,
)
    requires
        worsened(before, lit, Debuff::Burning, LAVA_BURN_TICKS),
        worsened(lit, after, Debuff::Burning, HELLSTONE_BURN_TICKS),
    ensures
        after == lit,
{
    if afflicted(before, Debuff::Burning) {
        let i = choose|i: int|
            0 <= i < before.len() && (#[trigger] before[i]).debuff == Debuff::Burning;
        assert(lit[i].debuff == Debuff::Burning);
    } else {
        assert(lit[before.len() as int].debuff == Debuff::Burning);
    }
    assert forall|k: int| 0 <= k < lit.len() implies after[k] == lit[k] by {
        if lit[k].debuff == Debuff::Burning {
            if afflicted(before, Debuff::Burning) {
                assert(lit[k].ticks >= LAVA_BURN_TICKS);
            } else if k < before.len() {
                assert(before[k].debuff != Debuff::Burning);
            }
        }
    }
    assert(after =~= lit);
}

// ---- Falling ---------------------------------------------------------------

/// What a movement report says. Heights are carried as they come, not computed
/// with.
#[derive(Debug, Clone, Copy, PartialEq, Eq, Structural)]
pub struct MoveReport {
    pub grounded: bool,
    pub air_jumped: bool,
    /// The player wears what allows a jump in the air.
    pub has_air_jump: bool,
    pub submerged: bool,
    /// The player wears what takes the harm out of falls.
    pub no_fall_damage: bool,
    /// The way down of this report.
    pub way: u32,
    /// The height fallen so far and that way, together.
    pub counted: u32,
}

/// What follows from a report.
#[derive(Debug, Clone, Copy, PartialEq, Eq, Structural)]
pub struct FallStep {
    pub fall: Fall,
    /// The height from which the player came down, where that may hurt.
    pub fell: Option<u32>,
}

/// The height fallen so far, with a report: deep liquid and a jump in the air
/// start the count again, and only ways between two steps on the ground do
/// not count.
pub open spec fn height_with(fall: Fall, m: MoveReport) -> u32 {
    let jumped = m.air_jumped && m.has_air_jump;
    if m.submerged {
        0
    } else if m.grounded && fall.was_grounded {
        if jumped {
            0
        } else {
            fall.height
        }
    } else if jumped {
        m.way
    } else {
        m.counted
    }
}

/// The player comes down to the ground with a report.
pub open spec fn lands(fall: Fall, m: MoveReport) -> bool {
    m.grounded && !fall.was_grounded
}

/// Watches a player fall. A landing ends the fall: nothing of it is left, and
/// the height of it may hurt.
pub fn observe_movement(dead: bool, fall: Fall, m: MoveReport) -> (f: FallStep)
    ensures
        f == (if dead {
            FallStep { fall: (Fall { height: 0, ..fall }), fell: None }
        } else {
            FallStep {
                fall: (Fall {
                    height: if lands(fall, m) {
                        0
                    } else {
                        height_with(fall, m)
                    },
                    was_grounded: m.grounded,
                }),
                fell: if lands(fall, m) && !m.no_fall_damage {
                    Some(height_with(fall, m))
                } else {
                    None
                },
            }
        }),
        dead ==> f.fell is None && f.fall.height == 0,
        !dead ==> f.fall.was_grounded == m.grounded,
        f.fell is Some ==> m.grounded && !fall.was_grounded && !m.no_fall_damage,
        !dead && m.grounded && !fall.was_grounded && !m.no_fall_damage ==> f.fell is Some,
        !dead && m.grounded && !fall.was_grounded && !m.no_fall_damage && m.submerged ==> f.fell
            == Some(0u32),
        !dead && !m.submerged && !m.grounded && m.air_jumped && m.has_air_jump ==> f.fall.height
            == m.way,
        !dead && !m.submerged && !m.grounded && !(m.air_jumped && m.has_air_jump)
            ==> f.fall.height == m.counted,
        !dead && m.submerged ==> f.fall.height == 0,
        !dead && m.grounded && !fall.was_grounded ==> f.fall.height == 0,
{
    if dead {
        return FallStep { fall: Fall { height: 0, ..fall }, fell: None };
    }
    let jumped: bool = m.air_jumped && m.has_air_jump;
    let mut height: u32 = fall.height;
    if m.submerged {
        height = 0;
    } else if !(m.grounded && fall.was_grounded) {
        height = if jumped {
            m.way
        } else {
            m.counted
        };
    } else if jumped {
        height = 0;
    }
    if m.grounded && !fall.was_grounded {
        let fell: Option<u32> = if m.no_fall_damage {
            None
        } else {
            Some(height)
        };
        return FallStep { fall: Fall { height: 0, was_grounded: true }, fell };
    }
    FallStep { fall: Fall { height, was_grounded: m.grounded }, fell: None }
}

/// Whoever walks on after a landing is not hurt again: a fall is paid for
/// once.
pub proof fn law_a_fall_is_paid_once(fall: Fall, landing: MoveReport, next: MoveReport)
    requires
        lands(fall, landing),
        next.grounded,
    ensures
        ({
            let rest = Fall { height: 0, was_grounded: landing.grounded };
            &&& !lands(rest, next)
            &&& height_with(rest, next) == 0
        }),
{
}

// ---- What becomes of a player ----------------------------------------------

/// A blow takes its damage off the health, down to nothing, and shields for
/// forty ticks from the next blow; raw damage heeds no shield and raises none.
/// The dead feel nothing, and whoever has no health left has died.
pub proof fn law_damage_takes_health(v: Vitals, damage: u32, how: Hurt, tick: u64)
    requires
        tick <= u64::MAX - 40,
    ensures
        ({
            let h = spec_hurt(v, damage, how, tick);
            let struck = !v.dead && (how == Hurt::Hit ==> tick >= v.iframe_until);
            &&& h.applied <==> struck && damage > 0
            &&& struck && damage < v.hp ==> h.vitals.hp == v.hp - damage
            &&& struck && damage > 0 && damage >= v.hp ==> h.vitals.hp == 0
            &&& !struck ==> h.vitals == v
            &&& h.died <==> h.applied && damage >= v.hp
            &&& struck && how == Hurt::Hit ==> h.vitals.iframe_until == tick + 40
            &&& how == Hurt::Raw ==> h.vitals.iframe_until == v.iframe_until
            &&& h.applied ==> h.vitals.last_damage_tick == tick
            &&& h.vitals.max_hp == v.max_hp && h.vitals.breath == v.breath && h.vitals.dead
                == v.dead
        }),
{
}

/// The dead wait ten seconds before they can return, and twenty while a boss
/// lives.
pub proof fn law_the_dead_wait(v: Vitals, tick: u64, boss_alive: bool)
    requires
        tick <= u64::MAX - 1200,
    ensures
        spec_dead(v, tick, boss_alive).dead && spec_dead(v, tick, boss_alive).hp == 0,
        !boss_alive ==> spec_dead(v, tick, boss_alive).respawn_ready_tick == tick + 10 * 60,
        boss_alive ==> spec_dead(v, tick, boss_alive).respawn_ready_tick == tick + 20 * 60,
        spec_dead(v, tick, boss_alive).max_hp == v.max_hp,
{
}

/// Of every stack of coins half is lost, rounded down, and the rest kept;
/// what is no coin stays whole.
pub proof fn law_half_the_coins_are_lost(s: InvSlot)
    ensures
        s.item == ItemId::CopperCoin || s.item == ItemId::SilverCoin || s.item == ItemId::GoldCoin
            || s.item == ItemId::PlatinumCoin ==> {
            &&& 2 * coins_lost(Some(s)) <= s.count <= 2 * coins_lost(Some(s)) + 1
            &&& coins_left(Some(s)) is Some
            &&& coins_left(Some(s))->Some_0.item == s.item
            &&& coins_left(Some(s))->Some_0.count + coins_lost(Some(s)) == s.count
        },
        s.item != ItemId::CopperCoin && s.item != ItemId::SilverCoin && s.item != ItemId::GoldCoin
            && s.item != ItemId::PlatinumCoin ==> coins_left(Some(s)) == Some(s) && coins_lost(
            Some(s),
        ) == 0,
        coins_left(None) is None && coins_lost(None) == 0,
{
}

/// Whoever returns does so at their bed while it stands, and else at the spawn
/// of the world.
pub proof fn law_beds_are_returned_to(g: Grid, x: u32, y: u32)
    ensures
        spec_return_at(g, None) is WorldSpawn,
        x < g.width && y < g.height && g.at(x as int, y as int).id == TileId::Bed
            ==> spec_return_at(g, Some((x, y))) == ReturnAt::Bed((x, y)),
        x >= g.width || y >= g.height || g.at(x as int, y as int).id != TileId::Bed
            ==> spec_return_at(g, Some((x, y))) is WorldSpawn,
{
}

/// Whoever returns is alive with half of their health, at least a hundred and
/// no more than they can have, with all their breath, shielded, and at rest.
pub proof fn law_returning_restores(p: Player, pos: Point, tick: u64)
    requires
        tick <= u64::MAX - 40,
    ensures
        ({
            let q = returned(p, pos, tick);
            let m = p.vitals.max_hp;
            &&& !q.vitals.dead && q.vitals.max_hp == m
            &&& m >= 200 ==> q.vitals.hp == m / 2
            &&& 100 <= m < 200 ==> q.vitals.hp == 100
            &&& m < 100 ==> q.vitals.hp == m
            &&& q.vitals.breath == 200
            &&& q.vitals.iframe_until == tick + 40
            &&& q.motion.pos == pos && q.motion.vel.x == 0 && q.motion.vel.y == 0
            &&& q.motion.moved && q.motion.facing == p.motion.facing
            &&& q.fall.height == 0 && q.fall.was_grounded
            &&& q.inventory == p.inventory && q.bed_spawn == p.bed_spawn && q.id == p.id
        }),
{
}

/// A new affliction lasts as long as it is to; one that is there already is
/// only ever drawn out, and all others stay.
pub proof fn law_afflictions_do_not_add_up(
    before: Seq<ActiveDebuff>,
    after: Seq<ActiveDebuff>,
    debuff: Debuff,
    ticks: u32,
    i: int,
)
    requires
        worsened(before, after, debuff, ticks),
        0 <= i < before.len(),
    ensures
        afflicted(after, debuff),
        after[i].debuff == before[i].debuff,
        before[i].debuff != debuff ==> after[i] == before[i],
        before[i].debuff == debuff ==> after[i].ticks >= ticks && after[i].ticks
            >= before[i].ticks && (after[i].ticks == ticks || after[i].ticks == before[i].ticks),
        (forall|k: int| 0 <= k < before.len() ==> (#[trigger] before[k]).debuff != debuff)
            ==> after.len() == before.len() + 1 && after.last().debuff == debuff
            && after.last().ticks == ticks,
{
    if afflicted(before, debuff) {
        let k = choose|k: int| 0 <= k < before.len() && (#[trigger] before[k]).debuff == debuff;
        assert(after[k].debuff == debuff);
        assert(after[i] == after[i]);
    } else {
        assert(after[before.len() as int].debuff == debuff);
        assert(before[i].debuff != debuff);
    }
}

/// A tick takes one off every affliction; those that had one tick left or none
/// are gone.
pub proof fn law_afflictions_run_down(list: Seq<ActiveDebuff>, n: nat, debuff: Debuff, t: u32)
    requires
        n <= list.len(),
    ensures
        a_tick_later(list, n).contains(ActiveDebuff { debuff, ticks: t }) <==> t >= 1 && t
            < u32::MAX && list.take(n as int).contains(
            ActiveDebuff { debuff, ticks: (t + 1) as u32 },
        ),
        a_tick_later(list, n).len() <= n,
    decreases n,
{
    let what = ActiveDebuff { debuff, ticks: t };
    let was = ActiveDebuff { debuff, ticks: (t + 1) as u32 };
    if n > 0 {
        law_afflictions_run_down(list, (n - 1) as nat, debuff, t);
        let (a, b) = (a_tick_later(list, n), a_tick_later(list, (n - 1) as nat));
        let (s, r) = (list.take(n as int), list.take(n - 1));
        assert(s =~= r.push(list[n - 1]));
        assert(s.contains(was) <==> r.contains(was) || list[n - 1] == was) by {
            assert(s[n - 1] == list[n - 1]);
            if r.contains(was) {
                assert(s[r.index_of(was)] == was);
            }
            if s.contains(was) {
                let k = s.index_of(was);
                if k < n - 1 {
                    assert(r[k] == was);
                }
            }
        }
        if list[n - 1].ticks > 1 {
            let last = ActiveDebuff {
                debuff: list[n - 1].debuff,
                ticks: (list[n - 1].ticks - 1) as u32,
            };
            assert(a == b.push(last));
            assert(a.contains(what) <==> b.contains(what) || last == what) by {
                assert(a[b.len() as int] == last);
                if b.contains(what) {
                    assert(a[b.index_of(what)] == what);
                }
                if a.contains(what) {
                    let k = a.index_of(what);
                    if k < b.len() {
                        assert(b[k] == what);
                    }
                }
            }
        }
    }
}

/// Healing adds health up to all that a player can have.
pub proof fn law_healing_stops_at_the_most(v: Vitals, by: int)
    requires
        v.hp <= v.max_hp,
        0 <= by,
    ensures
        v.hp + by <= v.max_hp ==> healed(v, by) == v.hp + by,
        v.hp + by > v.max_hp ==> healed(v, by) == v.max_hp,
{
}

/// A potion works on the living who lack health and are not sick of the last.
pub proof fn law_potions_help_the_hurt(p: Player)
    ensures
        may_drink(p) ==> !p.vitals.dead && p.vitals.hp < p.vitals.max_hp,
        !p.vitals.dead && p.vitals.hp < p.vitals.max_hp && (forall|i: int|
            0 <= i < p.debuffs@.len() ==> (#[trigger] p.debuffs@[i]).debuff
                != Debuff::PotionSickness) ==> may_drink(p),
        (exists|i: int|
            0 <= i < p.debuffs@.len() && (#[trigger] p.debuffs@[i]).debuff
                == Debuff::PotionSickness) ==> !may_drink(p),
{
}

/// Under water one breath goes every seventh tick, and whoever has none drowns
/// then; in the air three come back each tick, up to two hundred. The dead do
/// not breathe.
pub proof fn law_breath_runs_out_and_comes_back(v: Vitals, under: bool, tick: u64)
    requires
        v.breath <= 200,
    ensures
        ({
            let b = spec_breath(v, under, tick);
            &&& v.dead ==> b.breath == v.breath && !b.drowning && !b.tell
            &&& !v.dead && under && tick % 7 == 0 && v.breath > 0 ==> b.breath == v.breath - 1
                && b.tell
            &&& !v.dead && under && tick % 7 != 0 ==> b.breath == v.breath && !b.tell
            &&& b.drowning <==> !v.dead && under && tick % 7 == 0 && v.breath == 0
            &&& !v.dead && !under && v.breath <= 197 ==> b.breath == v.breath + 3
            &&& !v.dead && !under && v.breath > 197 ==> b.breath == 200
            &&& !v.dead && !under && v.breath < 200 && (tick % 6 == 0 || b.breath == 200)
                ==> b.tell
            &&& !v.dead && !under && tick % 6 != 0 && b.breath < 200 ==> !b.tell
            &&& b.breath <= 200
        }),
{
}

/// A point is in a liquid when the liquid of its cell reaches up to it: of a
/// full cell anywhere, of a half full one in the lower half.
pub proof fn law_liquids_reach_their_level(g: Grid, x: int, y: int, eighth: int)
    requires
        g.wf(),
        0 <= eighth < 8,
    ensures
        liquid_over(g, x, y, eighth) is Some <==> 0 <= x < g.width && 0 <= y < g.height && g.at(
            x,
            y,
        ).liquid is Filled && eighth >= 8 - g.at(x, y).liquid->level,
        liquid_over(g, x, y, eighth) is Some ==> liquid_over(g, x, y, eighth)->Some_0 == g.at(
            x,
            y,
        ).liquid->kind,
{
    if g.inside(x, y) {
        crate::grid::lemma_at_wf(g, x, y);
    }
}

/// Lava strikes whoever stands in it and sets them alight for seven seconds;
/// hellstone alone for two. Who cannot burn is not set alight.
pub proof fn law_hazards_burn(
    a: Player,
    b: Player,
    s: Surroundings,
    tick: u64,
    boss_alive: bool,
    c: Contact,
)
    requires
        contacted(a, b, s, tick, boss_alive, c),
        each_once(a.debuffs@),
        tick <= u64::MAX - 1200,
        a.vitals.hp > 0,
    ensures
        c.hurt <==> s.lava && s.lava_damage > 0 && !a.vitals.dead && tick
            >= a.vitals.iframe_until,
        c.hurt && s.lava_damage < a.vitals.hp ==> b.vitals.hp == a.vitals.hp - s.lava_damage,
        c.hurt && s.lava_damage >= a.vitals.hp ==> c.died is Some && b.vitals.dead,
        !c.hurt ==> c.died is None && b.vitals.hp == a.vitals.hp,
        s.burn_immune || a.vitals.dead ==> !c.burns,
        !s.burn_immune && !a.vitals.dead && c.died is None && (c.hurt || s.hellstone) ==> c.burns,
        !s.lava && !s.hellstone ==> !c.burns && !c.hurt,
        c.burns ==> afflicted(b.debuffs@, Debuff::Burning),
        c.burns && c.hurt && !afflicted(a.debuffs@, Debuff::Burning) ==> b.debuffs@.last().ticks
            == 7 * 60,
        c.burns && !c.hurt && !afflicted(a.debuffs@, Debuff::Burning) ==> b.debuffs@.last().ticks
            == 2 * 60,
        !c.burns && c.died is None ==> b.debuffs == a.debuffs,
{
    if c.burns {
        if afflicted(a.debuffs@, Debuff::Burning) {
            let k = choose|k: int|
                0 <= k < a.debuffs@.len() && (#[trigger] a.debuffs@[k]).debuff == Debuff::Burning;
            assert(b.debuffs@[k].debuff == Debuff::Burning);
        } else {
            assert(b.debuffs@[a.debuffs@.len() as int].debuff == Debuff::Burning);
        }
    }
}

} // verus!
