//! Fighting: what a used item does, blows that land, arrows, and the harm
//! that enemies do by touch.

use vstd::prelude::*;

use crate::item::{InvSlot, ItemId, ARMOR_START, HOTBAR};
use crate::sim::enemies::{AiState, EnemyKind, Foe};
use crate::sim::entities::{Entity, EntityKind, EntityStore};
use crate::sim::interact::swing_due;
use crate::sim::player::Hands;

verus! {

/// Every so many ticks graces that are over are forgotten.
pub const IFRAME_PURGE_TICKS: u64 = 600;

// ---- Using items -----------------------------------------------------------

#[derive(Debug, Clone, Copy, PartialEq, Eq, Structural)]
pub enum WeaponKind {
    Melee,
    Bow,
    Arrow,
}

#[derive(Debug, Clone, Copy, PartialEq, Eq, Structural)]
pub enum Consumable {
    Heal(u16),
    MaxHpUp(u16),
    SummonBoss,
    TeleportToSpawn,
}

/// What an item is good for.
#[derive(Debug, Clone, Copy, PartialEq, Eq, Structural)]
pub struct ItemUse {
    pub weapon: Option<WeaponKind>,
    pub consumable: Option<Consumable>,
    /// Ticks that one use takes.
    pub use_ticks: u64,
}

/// What using an item starts.
#[derive(Debug, Clone, Copy, PartialEq, Eq, Structural)]
pub enum UseAction {
    Swing,
    Shoot,
    Heal(u16),
    MaxHpUp(u16),
}

/// Weapons come first; arrows by themselves do nothing.
pub open spec fn action_of(u: ItemUse) -> Option<UseAction> {
    if u.weapon == Some(WeaponKind::Melee) {
        Some(UseAction::Swing)
    } else if u.weapon == Some(WeaponKind::Bow) {
        Some(UseAction::Shoot)
    } else {
        match u.consumable {
            Some(Consumable::Heal(n)) => Some(UseAction::Heal(n)),
            Some(Consumable::MaxHpUp(n)) => Some(UseAction::MaxHpUp(n)),
            _ => None,
        }
    }
}

/// Starts the use of the item in a slot of the hotbar, if the player lives,
/// holds one, and the last use is long enough ago. Returns what starts, and
/// the hands after it.
pub fn use_item(
    slot: u8,
    dead: bool,
    stack: Option<InvSlot>,
    u: ItemUse,
    hands: Hands,
    tick: u64,
) -> (r: Option<(UseAction, Hands)>)
    ensures
        r == (if slot < HOTBAR && !dead && stack is Some && swing_due(hands, tick, u.use_ticks) {
            match action_of(u) {
                Some(a) => Some((a, Hands { last_swing_tick: Some(tick), ..hands })),
                None => None,
            }
        } else {
            None
        }),
        dead || slot >= 10 || stack is None ==> r is None,
        r is Some ==> r->Some_0.1.last_swing_tick == Some(tick) && r->Some_0.1.held_slot
            == hands.held_slot,
        !dead && slot < 10 && stack is Some && hands.last_swing_tick is None && action_of(u) is Some
            ==> r is Some && Some(r->Some_0.0) == action_of(u),
        hands.last_swing_tick is Some && tick >= hands.last_swing_tick->Some_0 && tick + 1
            < hands.last_swing_tick->Some_0 + u.use_ticks ==> r is None,
{
    if slot as usize >= HOTBAR || dead || stack.is_none() {
        return None;
    }
    let due: bool = match hands.last_swing_tick {
        Some(last) => {
            let passed: u64 = tick.saturating_sub(last);
            !(passed < u64::MAX && passed + 1 < u.use_ticks)
        },
        None => true,
    };
    if !due {
        return None;
    }
    let action: UseAction = match u.weapon {
        Some(WeaponKind::Melee) => UseAction::Swing,
        Some(WeaponKind::Bow) => UseAction::Shoot,
        _ => match u.consumable {
            Some(Consumable::Heal(n)) => UseAction::Heal(n),
            Some(Consumable::MaxHpUp(n)) => UseAction::MaxHpUp(n),
            _ => {
                return None;
            },
        },
    };
    let mut after = hands;
    after.last_swing_tick = Some(tick);
    Some((action, after))
}

/// A swing of a blade: it hits what it meets until it is over.
#[derive(Debug, Clone, Copy, PartialEq, Eq, Structural)]
pub struct MeleeSwing {
    pub until_tick: u64,
    pub attack: u32,
    /// Left or right, as -1 or 1.
    pub facing: i8,
    /// It can set enemies on fire.
    pub burns: bool,
}

/// A new swing.
pub fn start_melee_swing(
    item: ItemId,
    attack: u32,
    aims_right: bool,
    tick: u64,
    use_ticks: u64,
) -> (s: MeleeSwing)
    requires
        tick + use_ticks <= u64::MAX,
    ensures
        s.until_tick == tick + use_ticks,
        s.attack == attack,
        s.facing == (if aims_right {
            1
        } else {
            -1int
        }),
        s.burns == (item == ItemId::EmberBlade),
{
    let facing: i8 = if aims_right {
        1
    } else {
        -1
    };
    MeleeSwing { until_tick: tick + use_ticks, attack, facing, burns: item == ItemId::EmberBlade }
}

/// The swing that a player still has at `tick`, and whether it hits: the dead
/// hit nobody.
pub fn tick_swing(s: Option<MeleeSwing>, dead: bool, tick: u64) -> (r: (Option<MeleeSwing>, bool))
    ensures
        r.0 == (match s {
            Some(m) => if tick >= m.until_tick {
                None
            } else {
                Some(m)
            },
            None => None,
        }),
        r.1 == (r.0 is Some && !dead),
        s is Some && tick < s->Some_0.until_tick ==> r.0 == s && (r.1 <==> !dead),
        s is None || tick >= s->Some_0.until_tick ==> r.0 is None && !r.1,
{
    match s {
        Some(m) => {
            if tick >= m.until_tick {
                (None, false)
            } else {
                (Some(m), !dead)
            }
        },
        None => (None, false),
    }
}

// ---- Hurting enemies -------------------------------------------------------

/// Who or what does harm. Players and projectiles are numbered apart.
#[derive(Debug, Clone, Copy, PartialEq, Eq, Structural)]
pub enum DamageSource {
    Player(u32),
    Projectile(u32),
}

/// One grace: the enemy, the source, and the tick at which it is over.
#[derive(Debug, Clone, Copy, PartialEq, Eq, Structural)]
pub struct Grace {
    pub enemy: u32,
    pub source: DamageSource,
    pub until: u64,
}

/// The graces of all enemies.
#[derive(Debug)]
pub struct Graces {
    pub entries: Vec<Grace>,
}

/// The entry for an enemy and a source.
pub open spec fn grace_at(entries: Seq<Grace>, enemy: u32, source: DamageSource, i: int) -> bool {
    0 <= i < entries.len() && entries[i].enemy == enemy && entries[i].source == source
}

/// Until when the enemy is safe from the source.
pub open spec fn safe_until(entries: Seq<Grace>, enemy: u32, source: DamageSource) -> Option<u64> {
    if exists|i: int| grace_at(entries, enemy, source, i) {
        let i = choose|i: int| grace_at(entries, enemy, source, i);
        Some(entries[i].until)
    } else {
        None
    }
}

impl Graces {
    /// One entry per enemy and source.
    pub open spec fn wf(&self) -> bool {
        forall|i: int, j: int|
            0 <= i < j < self.entries@.len() ==> !((#[trigger] self.entries@[i]).enemy == (
            #[trigger] self.entries@[j]).enemy && self.entries@[i].source
                == self.entries@[j].source)
    }

    pub open spec fn until(&self, enemy: u32, source: DamageSource) -> Option<u64> {
        safe_until(self.entries@, enemy, source)
    }

    proof fn lemma_until(&self, i: int)
        requires
            self.wf(),
            0 <= i < self.entries@.len(),
        ensures
            self.until(self.entries@[i].enemy, self.entries@[i].source) == Some(
                self.entries@[i].until,
            ),
    {
        let g = self.entries@[i];
        assert(grace_at(self.entries@, g.enemy, g.source, i));
        let k = choose|k: int| grace_at(self.entries@, g.enemy, g.source, k);
        if k < i {
            assert(!(self.entries@[k].enemy == self.entries@[i].enemy && self.entries@[k].source
                == self.entries@[i].source));
        } else if i < k {
            assert(!(self.entries@[i].enemy == self.entries@[k].enemy && self.entries@[i].source
                == self.entries@[k].source));
        }
    }

    pub fn new() -> (g: Graces)
        ensures
            g.wf(),
            forall|e: u32, s: DamageSource| #[trigger] g.until(e, s) is None,
    {
        Graces { entries: Vec::new() }
    }

    fn find(&self, enemy: u32, source: DamageSource) -> (r: Option<usize>)
        ensures
            match r {
                Some(i) => grace_at(self.entries@, enemy, source, i as int),
                None => forall|i: int| !grace_at(self.entries@, enemy, source, i),
            },
    {
        let mut i: usize = 0;
        while i < self.entries.len()
            invariant
                i <= self.entries.len(),
                forall|k: int| 0 <= k < i ==> !grace_at(self.entries@, enemy, source, k),
            decreases self.entries.len() - i,
        {
            if self.entries[i].enemy == enemy && self.entries[i].source == source {
                return Some(i);
            }
            i = i + 1;
        }
        None
    }

    /// Whether the enemy is safe from the source at `tick`.
    pub fn safe(&self, enemy: u32, source: DamageSource, tick: u64) -> (b: bool)
        requires
            self.wf(),
        ensures
            b == (match self.until(enemy, source) {
                Some(t) => tick < t,
                None => false,
            }),
    {
        match self.find(enemy, source) {
            Some(i) => {
                proof {
                    self.lemma_until(i as int);
                }
                tick < self.entries[i].until
            },
            None => false,
        }
    }

    /// The enemy is safe from the source until `until`.
    pub fn grant(&mut self, enemy: u32, source: DamageSource, until: u64)
        requires
            old(self).wf(),
        ensures
            final(self).wf(),
            final(self).until(enemy, source) == Some(until),
            forall|e: u32, s: DamageSource|
                e != enemy || s != source ==> #[trigger] final(self).until(e, s) == old(
                    self,
                ).until(e, s),
    {
        let ghost before = *self;
        let found = self.find(enemy, source);
        let at: usize;
        match found {
            Some(i) => {
                self.entries.set(i, Grace { enemy, source, until });
                at = i;
            },
            None => {
                at = self.entries.len();
                self.entries.push(Grace { enemy, source, until });
                proof {
                    assert forall|i: int, j: int|
                        0 <= i < j < self.entries@.len() implies !((
                    #[trigger] self.entries@[i]).enemy == (#[trigger] self.entries@[j]).enemy
                        && self.entries@[i].source == self.entries@[j].source) by {
                        if j == at {
                            assert(!grace_at(before.entries@, enemy, source, i));
                        }
                    }
                }
            },
        }
        proof {
            self.lemma_until(at as int);
            assert forall|e: u32, s: DamageSource| e != enemy || s != source implies
                #[trigger] self.until(e, s) == before.until(e, s) by {
                if exists|i: int| grace_at(before.entries@, e, s, i) {
                    let i = choose|i: int| grace_at(before.entries@, e, s, i);
                    before.lemma_until(i);
                    assert(self.entries@[i] == before.entries@[i]);
                    self.lemma_until(i);
                } else if exists|i: int| grace_at(self.entries@, e, s, i) {
                    let i = choose|i: int| grace_at(self.entries@, e, s, i);
                    assert(grace_at(before.entries@, e, s, i));
                }
            }
        }
    }

    /// Forgets what is over at `tick`.
    pub fn purge(&mut self, tick: u64)
        requires
            old(self).wf(),
        ensures
            final(self).wf(),
            forall|e: u32, s: DamageSource| #[trigger]
                final(self).until(e, s) == (match old(self).until(e, s) {
                    Some(t) => if t > tick {
                        Some(t)
                    } else {
                        None
                    },
                    None => None,
                }),
    {
        let ghost before = *self;
        let mut kept: Vec<Grace> = Vec::new();
        let ghost mut from: Seq<int> = seq![];
        let mut i: usize = 0;
        while i < self.entries.len()
            invariant
                i <= self.entries.len(),
                *self == before,
                from.len() == kept@.len(),
                forall|k: int|
                    0 <= k < from.len() ==> 0 <= (#[trigger] from[k]) < i && kept@[k]
                        == before.entries@[from[k]] && kept@[k].until > tick,
                forall|k: int, m: int|
                    0 <= k < m < from.len() ==> (#[trigger] from[k]) < (#[trigger] from[m]),
                forall|j: int|
                    0 <= j < i && (#[trigger] before.entries@[j]).until > tick ==> from.contains(
                        j,
                    ),
            decreases self.entries.len() - i,
        {
            if self.entries[i].until > tick {
                kept.push(self.entries[i]);
                proof {
                    let old_from = from;
                    from = from.push(i as int);
                    assert(from[old_from.len() as int] == i);
                    assert forall|j: int|
                        0 <= j < i + 1 && (#[trigger] before.entries@[j]).until
                            > tick implies from.contains(j) by {
                        if j < i {
                            let k = old_from.index_of(j);
                            assert(from[k] == j);
                        }
                    }
                }
            }
            i = i + 1;
        }
        self.entries = kept;
        proof {
            assert forall|a: int, b: int| 0 <= a < b < self.entries@.len() implies !((
            #[trigger] self.entries@[a]).enemy == (#[trigger] self.entries@[b]).enemy
                && self.entries@[a].source == self.entries@[b].source) by {
                assert(from[a] < from[b]);
            }
            assert forall|e: u32, s: DamageSource| #[trigger]
                self.until(e, s) == (match before.until(e, s) {
                    Some(t) => if t > tick {
                        Some(t)
                    } else {
                        None
                    },
                    None => None,
                }) by {
                if exists|k: int| grace_at(self.entries@, e, s, k) {
                    let k = choose|k: int| grace_at(self.entries@, e, s, k);
                    self.lemma_until(k);
                    before.lemma_until(from[k]);
                } else if exists|j: int| grace_at(before.entries@, e, s, j) {
                    let j = choose|j: int| grace_at(before.entries@, e, s, j);
                    before.lemma_until(j);
                    if before.entries@[j].until > tick {
                        let k = from.index_of(j);
                        assert(grace_at(self.entries@, e, s, k));
                    }
                }
            }
        }
    }
}

/// A blow at an enemy.
#[derive(Debug, Clone, Copy, PartialEq, Eq, Structural)]
pub struct Blow {
    pub source: DamageSource,
    /// What armour leaves of it.
    pub dealt: u32,
    /// It hits twice as hard.
    pub crit: bool,
    /// Ticks for which it sets the enemy on fire.
    pub burn_ticks: u32,
}

/// The damage of a blow: a lucky one does twice what armour left.
pub open spec fn blow_damage(b: Blow) -> int {
    b.dealt * (if b.crit {
        2int
    } else {
        1
    })
}

/// An enemy after a blow that landed: hurt, told of, angry for good, and
/// perhaps on fire.
pub open spec fn struck(f: Foe, b: Blow) -> Foe {
    Foe {
        hp: if blow_damage(b) >= f.hp {
            0
        } else {
            (f.hp - blow_damage(b)) as u16
        },
        hp_dirty: true,
        ai: AiState {
            passive: false,
            aggroed: true,
            burn_ticks: if f.ai.burn_ticks < b.burn_ticks {
                b.burn_ticks
            } else {
                f.ai.burn_ticks
            },
            ..f.ai
        },
        ..f
    }
}

/// What a blow did.
#[derive(Debug, Clone, Copy, PartialEq, Eq, Structural)]
pub struct Struck {
    pub foe: Foe,
    pub damage: u32,
    pub killed: bool,
}

/// The enemy is safe from the source at `tick`.
pub open spec fn is_safe(graces: Graces, enemy: u32, source: DamageSource, tick: u64) -> bool {
    match graces.until(enemy, source) {
        Some(t) => tick < t,
        None => false,
    }
}

/// The graces after a blow of `source` landed on the enemy.
pub open spec fn grace_given(
    before: Graces,
    after: Graces,
    enemy: u32,
    source: DamageSource,
    until: u64,
) -> bool {
    &&& after.until(enemy, source) == Some(until)
    &&& forall|e: u32, s: DamageSource|
        e != enemy || s != source ==> #[trigger] after.until(e, s) == before.until(e, s)
}

/// Hits an enemy, unless it is still safe from the source of the blow. A blow
/// that lands makes it safe from that source for `grace` ticks.
pub fn hurt_enemy(
    graces: &mut Graces,
    enemy: u32,
    f: Foe,
    b: Blow,
    tick: u64,
    grace: u64,
) -> (r: Option<Struck>)
    requires
        old(graces).wf(),
        tick + grace <= u64::MAX,
        blow_damage(b) <= u32::MAX,
    ensures
        final(graces).wf(),
        if is_safe(*old(graces), enemy, b.source, tick) {
            &&& r is None
            &&& *final(graces) == *old(graces)
        } else {
            &&& r == Some(
                Struck {
                    foe: struck(f, b),
                    damage: blow_damage(b) as u32,
                    killed: blow_damage(b) >= f.hp,
                },
            )
            &&& grace_given(
                *old(graces),
                *final(graces),
                enemy,
                b.source,
                (tick + grace) as u64,
            )
        },
{
    if graces.safe(enemy, b.source, tick) {
        return None;
    }
    graces.grant(enemy, b.source, tick + grace);
    let mut damage: u32 = b.dealt;
    if b.crit {
        damage = damage * 2;
    }
    let mut foe = f;
    foe.hp = if damage >= f.hp as u32 {
        0
    } else {
        f.hp - damage as u16
    };
    foe.hp_dirty = true;
    foe.ai.passive = false;
    foe.ai.aggroed = true;
    if f.ai.burn_ticks < b.burn_ticks {
        foe.ai.burn_ticks = b.burn_ticks;
    }
    let killed: bool = foe.hp == 0;
    Some(Struck { foe, damage, killed })
}

/// A blow that does damage hurts, and an enemy that was hurt is not harmless.
pub proof fn law_blows_hurt(f: Foe, b: Blow)
    requires
        f.hp > 0,
        b.dealt > 0,
    ensures
        struck(f, b).hp < f.hp,
        !struck(f, b).ai.passive,
        struck(f, b).ai.aggroed,
{
}

/// After a blow landed at `tick`, further blows of its source do nothing until
/// the grace is over, and then land again; for every other source, and for
/// every other enemy, nothing has changed. A player and a projectile of the
/// same number are different sources.
pub proof fn law_grace_is_per_source(
    before: Graces,
    after: Graces,
    enemy: u32,
    source: DamageSource,
    tick: u64,
    grace: u64,
    later: u64,
    other: u32,
    by: DamageSource,
    n: u32,
)
    requires
        tick + grace <= u64::MAX,
        grace_given(before, after, enemy, source, (tick + grace) as u64),
        other != enemy || by != source,
    ensures
        is_safe(after, enemy, source, later) <==> later < tick + grace,
        is_safe(after, other, by, later) == is_safe(before, other, by, later),
        DamageSource::Player(n) != DamageSource::Projectile(n),
{
    assert(after.until(other, by) == before.until(other, by));
}

// ---- Arrows ----------------------------------------------------------------

/// The slot at `i` holds arrows.
pub open spec fn is_ammo(slots: Seq<Option<InvSlot>>, arrows: Seq<ItemId>, i: int) -> bool {
    match slots[i] {
        Some(s) => arrows.contains(s.item),
        None => false,
    }
}

fn lists(items: &Vec<ItemId>, item: ItemId) -> (b: bool)
    ensures
        b == items@.contains(item),
{
    let mut i: usize = 0;
    while i < items.len()
        invariant
            i <= items.len(),
            forall|k: int| 0 <= k < i ==> (#[trigger] items@[k]) != item,
        decreases items.len() - i,
    {
        if items[i] == item {
            assert(items@[i as int] == item);
            return true;
        }
        i = i + 1;
    }
    false
}

/// The first slot with arrows among those that are carried.
pub open spec fn first_ammo(slots: Seq<Option<InvSlot>>, arrows: Seq<ItemId>, k: int) -> bool {
    &&& 0 <= k < ARMOR_START
    &&& is_ammo(slots, arrows, k)
    &&& forall|i: int| 0 <= i < k ==> !(#[trigger] is_ammo(slots, arrows, i))
}

/// What flies: the bow of cinders sets wooden arrows on fire.
pub open spec fn in_flight(bow: ItemId, arrow: ItemId) -> ItemId {
    if bow == ItemId::Cinderbow && arrow == ItemId::WoodenArrow {
        ItemId::FlamingArrow
    } else {
        arrow
    }
}

/// A shot: the slot that the arrow came from, and what flies.
#[derive(Debug, Clone, Copy, PartialEq, Eq, Structural)]
pub struct Shot {
    pub slot: usize,
    pub fired: ItemId,
}

/// Takes an arrow for a shot: of the first stack that is carried. `arrows`
/// lists the items that are arrows.
pub fn fire_bow(inventory: &mut Vec<Option<InvSlot>>, bow: ItemId, arrows: &Vec<ItemId>) -> (r:
    Option<Shot>)
    requires
        old(inventory).len() >= ARMOR_START,
        forall|i: int|
            0 <= i < ARMOR_START && (#[trigger] old(inventory)@[i]) is Some ==> old(
                inventory,
            )@[i]->Some_0.count >= 1,
    ensures
        match r {
            Some(s) => {
                &&& first_ammo(old(inventory)@, arrows@, s.slot as int)
                &&& s.fired == in_flight(bow, old(inventory)@[s.slot as int]->Some_0.item)
                &&& final(inventory)@ == old(inventory)@.update(
                    s.slot as int,
                    if old(inventory)@[s.slot as int]->Some_0.count == 1 {
                        None
                    } else {
                        Some(
                            InvSlot {
                                item: old(inventory)@[s.slot as int]->Some_0.item,
                                count: (old(inventory)@[s.slot as int]->Some_0.count
                                    - 1) as u16,
                            },
                        )
                    },
                )
            },
            None => {
                &&& forall|i: int|
                    0 <= i < ARMOR_START ==> !(#[trigger] is_ammo(
                        old(inventory)@,
                        arrows@,
                        i,
                    ))
                &&& *final(inventory) == *old(inventory)
            },
        },
        r is Some ==> r->Some_0.slot < 50,
        r is Some && bow != ItemId::Cinderbow ==> r->Some_0.fired == old(
            inventory,
        )@[r->Some_0.slot as int]->Some_0.item,
        (exists|i: int|
            0 <= i < 50 && (#[trigger] old(inventory)@[i]) is Some && arrows@.contains(
                old(inventory)@[i]->Some_0.item,
            )) ==> r is Some,
{
    let mut i: usize = 0;
    while i < ARMOR_START
        invariant
            i <= ARMOR_START,
            *inventory == *old(inventory),
            inventory.len() >= ARMOR_START,
            forall|k: int|
                0 <= k < ARMOR_START && (#[trigger] inventory@[k]) is Some
                    ==> inventory@[k]->Some_0.count >= 1,
            forall|k: int| 0 <= k < i ==> !(#[trigger] is_ammo(inventory@, arrows@, k)),
        decreases ARMOR_START - i,
    {
        match inventory[i] {
            Some(stack) => {
                if lists(arrows, stack.item) {
                    assert(is_ammo(inventory@, arrows@, i as int));
                    assert(inventory@[i as int] is Some);
                    let fired: ItemId = if bow == ItemId::Cinderbow && stack.item
                        == ItemId::WoodenArrow {
                        ItemId::FlamingArrow
                    } else {
                        stack.item
                    };
                    let left: u16 = stack.count - 1;
                    if left > 0 {
                        inventory.set(i, Some(InvSlot { item: stack.item, count: left }));
                    } else {
                        inventory.set(i, None);
                    }
                    return Some(Shot { slot: i, fired });
                }
            },
            None => {},
        }
        i = i + 1;
    }
    proof {
        assert forall|i: int| 0 <= i < 50 && (#[trigger] inventory@[i]) is Some implies !arrows@.contains(
            inventory@[i]->Some_0.item,
        ) by {
            assert(!is_ammo(inventory@, arrows@, i));
        }
    }
    None
}

/// The first entry that is an enemy and meets a projectile.
pub open spec fn first_met(entries: Seq<(u32, Entity)>, meets: Seq<bool>, k: int) -> bool {
    &&& 0 <= k < entries.len()
    &&& entries[k].1.kind is Enemy && meets[k]
    &&& forall|i: int| 0 <= i < k ==> !((#[trigger] entries[i]).1.kind is Enemy && meets[i])
}

/// What becomes of an arrow this tick.
#[derive(Debug, Clone, Copy, PartialEq, Eq, Structural)]
pub enum ArrowFate {
    Flies,
    /// It hits the ground or a wall; some can be picked up again.
    Stuck { recovered: bool },
    /// It flew for too long.
    Spent,
    /// It hits the enemy at this index.
    Hits(usize),
}

/// Decides for an arrow: walls come first, then its time, then the first
/// enemy in its way.
pub fn step_arrow(
    store: &EntityStore,
    hit_tile: bool,
    recovered: bool,
    age: u64,
    lifetime: u64,
    meets: &Vec<bool>,
) -> (r: ArrowFate)
    requires
        meets.len() == store.entries.len(),
    ensures
        if hit_tile {
            r == (ArrowFate::Stuck { recovered })
        } else if age >= lifetime {
            r == ArrowFate::Spent
        } else {
            match r {
                ArrowFate::Hits(k) => first_met(store.entries@, meets@, k as int),
                ArrowFate::Flies => forall|i: int|
                    0 <= i < store.entries.len() ==> !((#[trigger] store.entries@[i]).1.kind is Enemy
                        && meets@[i]),
                _ => false,
            }
        },
        r is Stuck <==> hit_tile,
        r is Spent ==> !hit_tile && age >= lifetime,
        r is Hits ==> !hit_tile && age < lifetime && meets@[r->Hits_0 as int]
            && store.entries@[r->Hits_0 as int].1.kind is Enemy,
        !hit_tile && age < lifetime && (exists|i: int|
            0 <= i < store.entries.len() && (#[trigger] store.entries@[i]).1.kind is Enemy
                && meets@[i]) ==> r is Hits,
{
    if hit_tile {
        return ArrowFate::Stuck { recovered };
    }
    if age >= lifetime {
        return ArrowFate::Spent;
    }
    let mut i: usize = 0;
    while i < store.entries.len()
        invariant
            i <= store.entries.len(),
            meets.len() == store.entries.len(),
            !hit_tile,
            age < lifetime,
            forall|k: int|
                0 <= k < i ==> !((#[trigger] store.entries@[k]).1.kind is Enemy && meets@[k]),
        decreases store.entries.len() - i,
    {
        match store.entries[i].1.kind {
            EntityKind::Enemy(_) => {
                if meets[i] {
                    return ArrowFate::Hits(i);
                }
            },
            _ => {},
        }
        i = i + 1;
    }
    ArrowFate::Flies
}

/// What becomes of a sickle this tick.
#[derive(Debug, Clone, Copy, PartialEq, Eq, Structural)]
pub enum SickleFate {
    Flies,
    /// It broke, or flew for too long.
    Breaks,
    /// It meets the player at this index.
    Meets(usize),
}

/// A player in the way of a sickle.
#[derive(Debug, Clone, Copy, PartialEq, Eq, Structural)]
pub struct InTheWay {
    pub dead: bool,
    pub meets: bool,
}

/// Decides for a sickle: it breaks at walls and after its time; else it meets
/// the first living player in its way.
pub fn step_sickle(hit_tile: bool, age: u64, lifetime: u64, players: &Vec<InTheWay>) -> (r:
    SickleFate)
    ensures
        if hit_tile || age >= lifetime {
            r == SickleFate::Breaks
        } else {
            match r {
                SickleFate::Meets(k) => {
                    &&& k < players.len()
                    &&& players@[k as int] == (InTheWay { dead: false, meets: true })
                    &&& forall|i: int|
                        0 <= i < k ==> (#[trigger] players@[i]) != (InTheWay {
                            dead: false,
                            meets: true,
                        })
                },
                SickleFate::Flies => forall|i: int|
                    0 <= i < players.len() ==> (#[trigger] players@[i]) != (InTheWay {
                        dead: false,
                        meets: true,
                    }),
                SickleFate::Breaks => false,
            }
        },
        r is Breaks <==> hit_tile || age >= lifetime,
        r is Meets ==> !players@[r->Meets_0 as int].dead && players@[r->Meets_0 as int].meets,
        !hit_tile && age < lifetime && (exists|i: int|
            0 <= i < players.len() && !(#[trigger] players@[i]).dead && players@[i].meets)
            ==> r is Meets,
{
    if hit_tile || age >= lifetime {
        return SickleFate::Breaks;
    }
    let mut i: usize = 0;
    while i < players.len()
        invariant
            i <= players.len(),
            !hit_tile,
            age < lifetime,
            forall|k: int|
                0 <= k < i ==> (#[trigger] players@[k]) != (InTheWay { dead: false, meets: true }),
        decreases players.len() - i,
    {
        if !players[i].dead && players[i].meets {
            return SickleFate::Meets(i);
        }
        i = i + 1;
    }
    SickleFate::Flies
}

// ---- Touch -----------------------------------------------------------------

/// An enemy that may touch a player.
#[derive(Debug, Clone, Copy, PartialEq, Eq, Structural)]
pub struct Toucher {
    pub kind: EnemyKind,
    pub passive: bool,
    pub overlaps: bool,
}

/// The touch hurts: harmless slimes do no harm, nor do slimes to their
/// friends.
pub open spec fn harmful(t: Toucher, slime_friend: bool) -> bool {
    t.overlaps && !t.passive && !(slime_friend && t.kind.spec_day_passive_slime())
}

/// The enemy whose touch hurts a player this tick: the first one, and none
/// while the player is dead or has a grace.
pub fn tick_enemy_contact(
    touchers: &Vec<Toucher>,
    slime_friend: bool,
    dead: bool,
    iframe_until: u64,
    tick: u64,
) -> (r: Option<usize>)
    ensures
        match r {
            Some(k) => {
                &&& !dead && tick >= iframe_until
                &&& k < touchers.len()
                &&& harmful(touchers@[k as int], slime_friend)
                &&& forall|i: int|
                    0 <= i < k ==> !harmful(#[trigger] touchers@[i], slime_friend)
            },
            None => dead || tick < iframe_until || forall|i: int|
                0 <= i < touchers.len() ==> !harmful(#[trigger] touchers@[i], slime_friend),
        },
        r is Some ==> touchers@[r->Some_0 as int].overlaps && !touchers@[r->Some_0 as int].passive,
        dead || tick < iframe_until ==> r is None,
{
    if dead || tick < iframe_until {
        return None;
    }
    let mut i: usize = 0;
    while i < touchers.len()
        invariant
            i <= touchers.len(),
            !dead,
            tick >= iframe_until,
            forall|k: int| 0 <= k < i ==> !harmful(#[trigger] touchers@[k], slime_friend),
        decreases touchers.len() - i,
    {
        let t: Toucher = touchers[i];
        if t.overlaps && !t.passive && !(slime_friend && t.kind.day_passive_slime()) {
            return Some(i);
        }
        i = i + 1;
    }
    None
}

/// A sword is swung, a bow shot, a potion drunk and a crystal used up; of a
/// weapon the weapon counts, and arrows, boss calls and mirrors are not used
/// this way.
pub proof fn law_items_are_used_for_what_they_are(u: ItemUse)
    ensures
        action_of(u) is Some && action_of(u)->Some_0 is Swing <==> u.weapon is Some
            && u.weapon->Some_0 == WeaponKind::Melee,
        action_of(u) is Some && action_of(u)->Some_0 is Shoot <==> u.weapon is Some
            && u.weapon->Some_0 == WeaponKind::Bow,
        u.weapon is None && u.consumable is Some ==> match u.consumable->Some_0 {
            Consumable::Heal(n) => action_of(u) == Some(UseAction::Heal(n)),
            Consumable::MaxHpUp(n) => action_of(u) == Some(UseAction::MaxHpUp(n)),
            Consumable::SummonBoss => action_of(u) is None,
            Consumable::TeleportToSpawn => action_of(u) is None,
        },
        u.weapon is None && u.consumable is None ==> action_of(u) is None,
{
}

/// A blow takes what it deals off the health of an enemy, twice that if it is
/// critical, down to nothing; the enemy is angry from then on, and burns on
/// for as long as the longer fire does.
pub proof fn law_blows_take_health(f: Foe, b: Blow)
    ensures
        !b.crit ==> blow_damage(b) == b.dealt,
        b.crit ==> blow_damage(b) == b.dealt + b.dealt,
        blow_damage(b) < f.hp ==> struck(f, b).hp == f.hp - blow_damage(b),
        blow_damage(b) >= f.hp ==> struck(f, b).hp == 0,
        struck(f, b).hp_dirty && struck(f, b).ai.aggroed && !struck(f, b).ai.passive,
        struck(f, b).ai.burn_ticks >= f.ai.burn_ticks && struck(f, b).ai.burn_ticks
            >= b.burn_ticks,
        struck(f, b).ai.burn_ticks == f.ai.burn_ticks || struck(f, b).ai.burn_ticks
            == b.burn_ticks,
        struck(f, b).kind == f.kind && struck(f, b).ai.dir == f.ai.dir && struck(
            f,
            b,
        ).ai.fleeing == f.ai.fleeing,
{
}

/// Arrows fly as what they are; from a cinderbow wooden ones burn.
pub proof fn law_cinderbows_light_arrows(bow: ItemId, arrow: ItemId)
    ensures
        in_flight(bow, arrow) != arrow ==> bow == ItemId::Cinderbow && arrow
            == ItemId::WoodenArrow && in_flight(bow, arrow) == ItemId::FlamingArrow,
        in_flight(ItemId::Cinderbow, ItemId::WoodenArrow) != ItemId::WoodenArrow,
{
}

/// The first arrows of hotbar and backpack are shot: none lie before them.
pub proof fn law_the_first_arrows_are_shot(
    slots: Seq<Option<InvSlot>>,
    arrows: Seq<ItemId>,
    k: int,
    i: int,
)
    requires
        first_ammo(slots, arrows, k),
        0 <= i < k,
    ensures
        k < 50,
        slots[k] is Some && arrows.contains(slots[k]->Some_0.item),
        slots[i] is Some ==> !arrows.contains(slots[i]->Some_0.item),
{
    assert(!is_ammo(slots, arrows, i));
}

/// Enemies hurt by touch unless they are harmless; green and blue slimes spare
/// their friends, the others do not.
pub proof fn law_touch_hurts(t: Toucher, slime_friend: bool)
    ensures
        !t.overlaps || t.passive ==> !harmful(t, slime_friend),
        t.overlaps && !t.passive && !slime_friend ==> harmful(t, slime_friend),
        t.overlaps && !t.passive && slime_friend ==> (harmful(t, slime_friend) <==> t.kind
            != EnemyKind::GreenSlime && t.kind != EnemyKind::BlueSlime),
{
}

/// An enemy is safe from a source up to, but not at, the tick that was set;
/// stale entries are dropped after ten seconds.
pub proof fn law_grace_ends(graces: Graces, enemy: u32, source: DamageSource, tick: u64)
    ensures
        graces.until(enemy, source) is None ==> !is_safe(graces, enemy, source, tick),
        graces.until(enemy, source) is Some ==> (is_safe(graces, enemy, source, tick) <==> tick
            < graces.until(enemy, source)->Some_0),
        IFRAME_PURGE_TICKS == 10 * 60,
{
}

} // verus!
