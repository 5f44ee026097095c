//! A tick of a player's life: breath, surroundings, afflictions and slow
//! healing, in this order.

use vstd::prelude::*;

use crate::item::{ItemId, ARMOR_START};
use crate::sim::player::{ActiveDebuff, Debuff, Player, Vitals};
use crate::sim::survival::{
    a_tick_later, afflicted, contacted, each_once, has_debuff, healed, hurt_player, kill_player,
    regen, regen_due, robbed, spec_breath, spec_dead, spec_hurt, spilled, tick_breath,
    tick_contact_hazards, tick_debuffs, Contact, Hurt, Surroundings, REGEN_DELAY_TICKS,
    RESPAWN_TICKS_BOSS_ALIVE,
};

verus! {

/// What a tick brings to a player.
#[derive(Debug, Clone, Copy, PartialEq, Eq, Structural)]
pub struct VitalsInput {
    /// The head is under water.
    pub head_under: bool,
    /// Whole points of damage that fall due if there is no breath left.
    pub drown: u32,
    pub around: Surroundings,
    /// Whole points of damage that fall due if the player burns.
    pub burn: u32,
    /// Whole points of health that fall due if the player heals.
    pub regen: u16,
    pub boss_alive: bool,
}

/// What came of a tick.
#[derive(Debug)]
pub struct VitalsNews {
    /// The player is told of their breath.
    pub breath: bool,
    /// The player drowned; these coins fall to the ground.
    pub drowned: Option<Vec<(ItemId, u16)>>,
    pub contact: Contact,
    /// The player burnt to death; these coins fall to the ground.
    pub burnt: Option<Vec<(ItemId, u16)>>,
    /// An affliction is over.
    pub expired: bool,
    /// Healing fell due.
    pub healed: bool,
}

/// `b` is `a` after raw damage; who dies of it drops coins.
pub open spec fn harmed(
    a: Player,
    b: Player,
    damage: u32,
    tick: u64,
    boss_alive: bool,
    died: Option<Vec<(ItemId, u16)>>,
) -> bool {
    let h = spec_hurt(a.vitals, damage, Hurt::Raw, tick);
    if h.died {
        &&& b == (Player {
            vitals: spec_dead(h.vitals, tick, boss_alive),
            inventory: b.inventory,
            debuffs: b.debuffs,
            swing: None,
            ..a
        })
        &&& b.debuffs@.len() == 0
        &&& robbed(a.inventory@, b.inventory@)
        &&& died is Some
        &&& died->Some_0@ == spilled(a.inventory@, ARMOR_START as nat)
    } else {
        b == (Player { vitals: h.vitals, ..a }) && died is None
    }
}

/// `b` is `a` after a breath, or without one.
pub open spec fn breathed(
    a: Player,
    b: Player,
    v: VitalsInput,
    tick: u64,
    died: Option<Vec<(ItemId, u16)>>,
) -> bool {
    let air = spec_breath(a.vitals, v.head_under, tick);
    let with_air = (Player { vitals: Vitals { breath: air.breath, ..a.vitals }, ..a });
    if air.drowning {
        harmed(with_air, b, v.drown, tick, v.boss_alive, died)
    } else {
        b == with_air && died is None
    }
}

/// `b` is `a` with other afflictions.
pub open spec fn with_debuffs(a: Player, b: Player, debuffs: Seq<ActiveDebuff>) -> bool {
    b == (Player { debuffs: b.debuffs, ..a }) && b.debuffs@ == debuffs
}

/// `b` is `a` a tick of their afflictions later.
pub open spec fn suffered(
    a: Player,
    b: Player,
    v: VitalsInput,
    tick: u64,
    died: Option<Vec<(ItemId, u16)>>,
    expired: bool,
) -> bool {
    if a.vitals.dead || a.debuffs@.len() == 0 {
        b == a && died is None && !expired
    } else {
        let later = a_tick_later(a.debuffs@, a.debuffs@.len());
        &&& expired == (later.len() < a.debuffs@.len())
        &&& exists|m: Player|
            {
                &&& #[trigger] with_debuffs(a, m, later)
                &&& if afflicted(a.debuffs@, Debuff::Burning) {
                    harmed(m, b, v.burn, tick, v.boss_alive, died)
                } else {
                    b == m && died is None
                }
            }
    }
}

/// Healing falls due.
pub open spec fn heals(v: Vitals, tick: u64) -> bool {
    !v.dead && 0 < v.hp < v.max_hp && tick >= v.last_damage_tick && tick - v.last_damage_tick
        >= REGEN_DELAY_TICKS
}

/// The player between the parts of a tick.
pub open spec fn lived(
    t: Seq<Player>,
    v: VitalsInput,
    tick: u64,
    n: VitalsNews,
) -> bool {
    &&& t.len() == 5
    &&& n.breath == spec_breath(t[0].vitals, v.head_under, tick).tell
    &&& breathed(t[0], t[1], v, tick, n.drowned)
    &&& contacted(t[1], t[2], v.around, tick, v.boss_alive, n.contact)
    &&& suffered(t[2], t[3], v, tick, n.burnt, n.expired)
    &&& n.healed == heals(t[3].vitals, tick)
    &&& t[4] == (if n.healed {
        Player {
            vitals: Vitals { hp: healed(t[3].vitals, v.regen as int), ..t[3].vitals },
            ..t[3]
        }
    } else {
        t[3]
    })
}

fn harm(p: &mut Player, damage: u32, tick: u64, boss_alive: bool) -> (died: Option<
    Vec<(ItemId, u16)>,
>)
    requires
        old(p).inventory.len() >= ARMOR_START,
        tick <= u64::MAX - RESPAWN_TICKS_BOSS_ALIVE,
    ensures
        harmed(*old(p), *final(p), damage, tick, boss_alive, died),
{
    let h = hurt_player(p.vitals, damage, Hurt::Raw, tick);
    p.vitals = h.vitals;
    if h.died {
        Some(kill_player(p, tick, boss_alive))
    } else {
        None
    }
}

/// A tick of a player's life.
pub fn tick_player_vitals(p: &mut Player, v: VitalsInput, tick: u64) -> (n: VitalsNews)
    requires
        each_once(old(p).debuffs@),
        old(p).inventory.len() >= ARMOR_START,
        tick <= u64::MAX - RESPAWN_TICKS_BOSS_ALIVE,
    ensures
        exists|t: Seq<Player>|
            {
                &&& #[trigger] lived(t, v, tick, n)
                &&& t[0] == *old(p)
                &&& t[4] == *final(p)
            },
{
    let ghost p0 = *p;
    let air = tick_breath(p.vitals, v.head_under, tick);
    p.vitals.breath = air.breath;
    let drowned = if air.drowning {
        harm(p, v.drown, tick, v.boss_alive)
    } else {
        None
    };
    let ghost p1 = *p;
    assert(breathed(p0, p1, v, tick, drowned));
    assert(p1.inventory@.len() >= ARMOR_START);
    assert(each_once(p1.debuffs@));
    let contact = tick_contact_hazards(p, v.around, tick, v.boss_alive);
    let ghost p2 = *p;
    let mut expired: bool = false;
    let mut burnt: Option<Vec<(ItemId, u16)>> = None;
    if !p.vitals.dead && p.debuffs.len() > 0 {
        let burns = has_debuff(&p.debuffs, Debuff::Burning);
        expired = tick_debuffs(&mut p.debuffs);
        let ghost m = *p;
        if burns {
            burnt = harm(p, v.burn, tick, v.boss_alive);
        }
        proof {
            assert(with_debuffs(p2, m, a_tick_later(p2.debuffs@, p2.debuffs@.len())));
        }
    }
    let ghost p3 = *p;
    assert(suffered(p2, p3, v, tick, burnt, expired));
    let due = regen_due(p.vitals, tick);
    if due {
        p.vitals = regen(p.vitals, v.regen);
    }
    let n = VitalsNews { breath: air.tell, drowned, contact, burnt, expired, healed: due };
    assert(lived(seq![p0, p1, p2, p3, *p], v, tick, n));
    n
}

/// A tick brings death at most once, and the dead neither breathe, burn nor
/// heal.
pub proof fn law_death_comes_once(t: Seq<Player>, v: VitalsInput, tick: u64, n: VitalsNews)
    requires
        lived(t, v, tick, n),
    ensures
        t[0].vitals.dead ==> n.drowned is None && n.contact.died is None && n.burnt is None
            && t[4].vitals == t[0].vitals,
        n.drowned is Some ==> n.contact.died is None && n.burnt is None && t[4].vitals.dead,
        n.contact.died is Some ==> n.burnt is None && t[4].vitals.dead,
        n.burnt is Some ==> t[4].vitals.dead,
{
}

/// Whoever burns is hurt each tick until the fire is out, whoever drowns when
/// it falls due; raw damage, so nothing shields from it.
pub proof fn law_fire_and_water_hurt(
    a: Player,
    b: Player,
    damage: u32,
    tick: u64,
    boss_alive: bool,
    died: Option<Vec<(ItemId, u16)>>,
)
    requires
        harmed(a, b, damage, tick, boss_alive, died),
        tick <= u64::MAX - 1200,
        !a.vitals.dead,
        a.vitals.hp > 0,
    ensures
        damage < a.vitals.hp ==> b.vitals.hp == a.vitals.hp - damage && died is None
            && !b.vitals.dead,
        damage >= a.vitals.hp ==> b.vitals.dead && died is Some && b.vitals.hp == 0
            && b.debuffs@.len() == 0,
        b.vitals.iframe_until == a.vitals.iframe_until,
{
}

/// Health comes back to the living who lack some, once nothing has hurt them
/// for eight seconds.
pub proof fn law_rest_heals(v: Vitals, tick: u64)
    ensures
        heals(v, tick) <==> !v.dead && v.hp > 0 && v.hp < v.max_hp && tick >= v.last_damage_tick
            + 8 * 60,
{
}

} // verus!
