//! Players: who is connected, and what the server keeps of each.

use vstd::prelude::*;

use crate::item::{InvSlot, ItemId, HOTBAR};
use crate::sim::combat::MeleeSwing;

verus! {

/// Timed afflictions.
#[derive(Debug, Clone, Copy, PartialEq, Eq, Structural)]
pub enum Debuff {
    Burning,
    PotionSickness,
    Darkness,
}

/// An affliction and the ticks it still lasts.
#[derive(Debug, Clone, Copy, PartialEq, Eq, Structural)]
pub struct ActiveDebuff {
    pub debuff: Debuff,
    pub ticks: u32,
}

/// A point of the world as the bits of its two coordinates. Rules carry
/// points along; only the physics looks into them.
#[derive(Debug, Clone, Copy, PartialEq, Eq, Structural)]
pub struct Point {
    pub x: u32,
    pub y: u32,
}

/// Where a player is and how it moves.
#[derive(Debug, Clone, Copy, PartialEq, Eq, Structural)]
pub struct Motion {
    pub pos: Point,
    pub vel: Point,
    pub facing: i8,
    pub anim: u8,
    /// Changed since the last snapshot.
    pub moved: bool,
}

/// What a player holds, and when they last acted.
#[derive(Debug, Clone, Copy, PartialEq, Eq, Structural)]
pub struct Hands {
    pub held_slot: u8,
    pub last_swing_tick: Option<u64>,
    pub last_door_toggle_tick: Option<u64>,
    /// When the selection was last announced.
    pub last_held_broadcast_tick: Option<u64>,
    /// A selection still waits to be announced.
    pub held_broadcast_dirty: bool,
}

/// Life and death.
#[derive(Debug, Clone, Copy, PartialEq, Eq, Structural)]
pub struct Vitals {
    pub hp: u16,
    pub max_hp: u16,
    pub dead: bool,
    /// While dead: the tick from which on the player may return.
    pub respawn_ready_tick: u64,
    /// Hits are ignored until this tick.
    pub iframe_until: u64,
    pub last_damage_tick: u64,
    pub breath: u16,
}

/// A fall, as far as the server has watched it.
#[derive(Debug, Clone, Copy, PartialEq, Eq, Structural)]
pub struct Fall {
    /// The bits of the height fallen so far; 0 stands for none.
    pub height: u32,
    pub was_grounded: bool,
}

/// A connected player.
pub struct Player {
    pub id: u32,
    pub name: String,
    pub token: u128,
    /// The session; commands of another one are stale.
    pub epoch: u64,
    pub motion: Motion,
    pub hands: Hands,
    pub inventory: Vec<Option<InvSlot>>,
    pub open_chest: Option<(u32, u32)>,
    /// The chunks the player receives.
    pub chunks: Vec<(u32, u32)>,
    pub vitals: Vitals,
    pub debuffs: Vec<ActiveDebuff>,
    /// The bed at which the player returns.
    pub bed_spawn: Option<(u32, u32)>,
    pub fall: Fall,
    /// The swing of a weapon that is under way.
    pub swing: Option<MeleeSwing>,
}

/// What the server keeps of a player who left.
pub struct OfflinePlayer {
    pub id: u32,
    pub name: String,
    pub token: u128,
    pub pos: Point,
    pub held_slot: u8,
    pub inventory: Vec<Option<InvSlot>>,
    pub hp: u16,
    pub max_hp: u16,
    pub bed_spawn: Option<(u32, u32)>,
}

/// The item in slot `i`.
pub open spec fn item_in(inventory: Seq<Option<InvSlot>>, i: int) -> Option<ItemId> {
    if 0 <= i < inventory.len() {
        match inventory[i] {
            Some(s) => Some(s.item),
            None => None,
        }
    } else {
        None
    }
}

impl Player {
    pub open spec fn spec_held_item(&self) -> Option<ItemId> {
        item_in(self.inventory@, self.hands.held_slot as int)
    }

    /// The item in the player's hand.
    pub fn held_item(&self) -> (item: Option<ItemId>)
        ensures
            item == self.spec_held_item(),
    {
        let i: usize = self.hands.held_slot as usize;
        if i < self.inventory.len() {
            match self.inventory[i] {
                Some(s) => Some(s.item),
                None => None,
            }
        } else {
            None
        }
    }
}

impl Hands {
    /// A selection may be announced: none was in the last `min_ticks`.
    pub open spec fn may_announce(self, tick: u64, min_ticks: u64) -> bool {
        match self.last_held_broadcast_tick {
            None => true,
            Some(t) => (if tick >= t {
                tick - t
            } else {
                0
            }) >= min_ticks,
        }
    }

    pub open spec fn spec_select(self, slot: u8, tick: u64, min_ticks: u64) -> Hands {
        if slot >= HOTBAR {
            self
        } else if self.may_announce(tick, min_ticks) {
            Hands {
                held_slot: slot,
                last_held_broadcast_tick: Some(tick),
                held_broadcast_dirty: false,
                ..self
            }
        } else {
            Hands { held_slot: slot, held_broadcast_dirty: true, ..self }
        }
    }

    /// Selects a hotbar slot. Returns the new state and whether to announce
    /// the selection now; within `min_ticks` of the last announcement it is
    /// only noted.
    pub fn select(self, slot: u8, tick: u64, min_ticks: u64) -> (r: (Hands, bool))
        ensures
            r.0 == self.spec_select(slot, tick, min_ticks),
            r.1 == (slot < HOTBAR && self.may_announce(tick, min_ticks)),
    {
        let mut h = self;
        if slot as usize >= HOTBAR {
            return (h, false);
        }
        h.held_slot = slot;
        if self.announce_due(tick, min_ticks) {
            h.last_held_broadcast_tick = Some(tick);
            h.held_broadcast_dirty = false;
            (h, true)
        } else {
            h.held_broadcast_dirty = true;
            (h, false)
        }
    }

    fn announce_due(self, tick: u64, min_ticks: u64) -> (b: bool)
        ensures
            b == self.may_announce(tick, min_ticks),
    {
        match self.last_held_broadcast_tick {
            None => true,
            Some(t) => tick.saturating_sub(t) >= min_ticks,
        }
    }

    pub open spec fn spec_flush(self, tick: u64, min_ticks: u64) -> Hands {
        if self.held_broadcast_dirty && self.may_announce(tick, min_ticks) {
            Hands { last_held_broadcast_tick: Some(tick), held_broadcast_dirty: false, ..self }
        } else {
            self
        }
    }

    /// Announces a noted selection once it may be.
    pub fn flush(self, tick: u64, min_ticks: u64) -> (r: (Hands, bool))
        ensures
            r.0 == self.spec_flush(tick, min_ticks),
            r.1 == (self.held_broadcast_dirty && self.may_announce(tick, min_ticks)),
    {
        if self.held_broadcast_dirty && self.announce_due(tick, min_ticks) {
            let mut h = self;
            h.last_held_broadcast_tick = Some(tick);
            h.held_broadcast_dirty = false;
            (h, true)
        } else {
            (self, false)
        }
    }
}

/// However often a slot is selected, two announcements are at least
/// `min_ticks` apart: an announcement at `tick` needs a last one that long
/// ago, and becomes the last one itself.
pub proof fn law_announcements_are_rare(h: Hands, slot: u8, tick: u64, min_ticks: u64)
    ensures
        ({
            let next = h.spec_select(slot, tick, min_ticks);
            &&& next.last_held_broadcast_tick != h.last_held_broadcast_tick ==> {
                &&& next.last_held_broadcast_tick == Some(tick)
                &&& h.last_held_broadcast_tick matches Some(t) ==> tick - t >= min_ticks
                    || min_ticks == 0
            }
        }),
        ({
            let next = h.spec_flush(tick, min_ticks);
            &&& next.last_held_broadcast_tick != h.last_held_broadcast_tick ==> {
                &&& next.last_held_broadcast_tick == Some(tick)
                &&& h.last_held_broadcast_tick matches Some(t) ==> tick - t >= min_ticks
                    || min_ticks == 0
            }
        }),
{
}

/// A selection is never lost: it is held at once, and either announced at
/// once or noted for later.
pub proof fn law_selection_is_announced(h: Hands, slot: u8, tick: u64, min_ticks: u64)
    requires
        slot < HOTBAR,
    ensures
        ({
            let next = h.spec_select(slot, tick, min_ticks);
            &&& next.held_slot == slot
            &&& next.held_broadcast_dirty <==> !h.may_announce(tick, min_ticks)
        }),
{
}

/// What is held is what lies in the chosen slot; only the ten slots of the
/// hotbar can be chosen, and a choice is kept whether it is announced or not.
pub proof fn law_selection_is_kept(h: Hands, slot: u8, tick: u64, min_ticks: u64)
    ensures
        slot < 10 ==> h.spec_select(slot, tick, min_ticks).held_slot == slot,
        slot >= 10 ==> h.spec_select(slot, tick, min_ticks) == h,
        slot < 10 && h.last_held_broadcast_tick is None ==> !h.spec_select(
            slot,
            tick,
            min_ticks,
        ).held_broadcast_dirty,
        slot < 10 && h.last_held_broadcast_tick is Some && tick
            >= h.last_held_broadcast_tick->Some_0 ==> (h.spec_select(
            slot,
            tick,
            min_ticks,
        ).held_broadcast_dirty <==> tick < h.last_held_broadcast_tick->Some_0 + min_ticks),
        h.spec_select(slot, tick, min_ticks).last_swing_tick == h.last_swing_tick,
{
}

/// The item of a slot is that of the stack in it.
pub proof fn law_slots_show_their_item(inventory: Seq<Option<InvSlot>>, i: int)
    ensures
        0 <= i < inventory.len() && inventory[i] is Some ==> item_in(inventory, i) == Some(
            inventory[i]->Some_0.item,
        ),
        i < 0 || i >= inventory.len() || inventory[i] is None ==> item_in(inventory, i) is None,
{
}

} // verus!
