//! Dropping, crafting and chests.

use vstd::prelude::*;
use vstd::string::*;

use crate::chest::ChestStore;
use crate::grid::{spec_origin, Grid, World};
use crate::item::{item_count, InvSlot, ItemId, ARMOR_START, CHEST_SLOTS};
use crate::sim::player::Player;
use crate::sim::roster::{held_of, said, Message, Outgoing, Roster, Said};
use crate::stacks::{
    add_items, count_before, law_add_keeps_count, law_take_removes_exactly, leftover, take_items,
    with_items, without,
};
use crate::text::{decimal, push_decimal};
use crate::tile::TileId;

verus! {

/// Which slot, of a player or of the open chest.
#[derive(Debug, Clone, Copy, PartialEq, Eq, Structural)]
pub enum SlotAddr {
    Inv(usize),
    Chest(usize),
}

/// A changed slot and what it holds now.
#[derive(Debug, Clone, Copy, PartialEq, Eq, Structural)]
pub struct SlotDelta {
    pub addr: SlotAddr,
    pub stack: Option<InvSlot>,
}

// ---- Dropping --------------------------------------------------------------

/// What `count` of slot `slot` leave behind; `None` for a request that is
/// refused.
pub open spec fn after_drop(slots: Seq<Option<InvSlot>>, slot: int, count: int) -> Option<
    Option<InvSlot>,
> {
    if 0 <= slot < slots.len() {
        match slots[slot] {
            Some(s) => if count == 0 || count > s.count {
                None
            } else if count == s.count {
                Some(None)
            } else {
                Some(Some(InvSlot { item: s.item, count: (s.count - count) as u16 }))
            },
            None => None,
        }
    } else {
        None
    }
}

/// Drops `count` items of a slot. Returns what falls to the ground; a bad slot
/// or count changes nothing.
pub fn drop_item(slots: &mut Vec<Option<InvSlot>>, slot: u8, count: u16) -> (dropped: Option<
    InvSlot,
>)
    ensures
        match after_drop(old(slots)@, slot as int, count as int) {
            Some(rest) => {
                &&& final(slots)@ == old(slots)@.update(slot as int, rest)
                &&& dropped == Some(
                    InvSlot { item: old(slots)@[slot as int]->Some_0.item, count },
                )
            },
            None => final(slots)@ == old(slots)@ && dropped is None,
        },
{
    let i: usize = slot as usize;
    if i >= slots.len() {
        return None;
    }
    match slots[i] {
        None => None,
        Some(s) => {
            if count == 0 || count > s.count {
                return None;
            }
            let rest: Option<InvSlot> = if count == s.count {
                None
            } else {
                Some(InvSlot { item: s.item, count: s.count - count })
            };
            slots.set(i, rest);
            Some(InvSlot { item: s.item, count })
        },
    }
}

/// What is dropped and what stays add up to what was there.
pub proof fn law_drop_splits_stack(slots: Seq<Option<InvSlot>>, slot: int, count: int, item: ItemId)
    requires
        0 <= count,
        after_drop(slots, slot, count) is Some,
    ensures
        crate::stacks::holds(after_drop(slots, slot, count)->Some_0, item) + (if slots[slot]->Some_0.item
            == item {
            count
        } else {
            0
        }) == crate::stacks::holds(slots[slot], item),
{
}

// ---- Deltas ----------------------------------------------------------------

/// The slots before `n` that differ, in order.
pub open spec fn differences(
    before: Seq<Option<InvSlot>>,
    after: Seq<Option<InvSlot>>,
    n: nat,
) -> Seq<SlotDelta>
    decreases n,
{
    if n == 0 {
        seq![]
    } else {
        let d = differences(before, after, (n - 1) as nat);
        if before[n - 1] != after[n - 1] {
            d.push(SlotDelta { addr: SlotAddr::Inv((n - 1) as usize), stack: after[n - 1] })
        } else {
            d
        }
    }
}

fn same_slot(a: Option<InvSlot>, b: Option<InvSlot>) -> (same: bool)
    ensures
        same == (a == b),
{
    match (a, b) {
        (None, None) => true,
        (Some(s), Some(t)) => s == t,
        _ => false,
    }
}

/// The slots that changed, with what they hold now.
pub fn slot_deltas(before: &Vec<Option<InvSlot>>, after: &Vec<Option<InvSlot>>) -> (d: Vec<SlotDelta>)
    requires
        before.len() == after.len(),
    ensures
        d@ == differences(before@, after@, before@.len()),
{
    let mut d: Vec<SlotDelta> = Vec::new();
    let mut i: usize = 0;
    while i < before.len()
        invariant
            i <= before.len(),
            before.len() == after.len(),
            d@ == differences(before@, after@, i as nat),
        decreases before.len() - i,
    {
        if !same_slot(before[i], after[i]) {
            d.push(SlotDelta { addr: SlotAddr::Inv(i), stack: after[i] });
        }
        i = i + 1;
    }
    d
}

/// One of the deltas is the slot in the player's hand.
pub open spec fn touches_hand(deltas: Seq<SlotDelta>, held_slot: int) -> bool {
    exists|i: int|
        0 <= i < deltas.len() && (#[trigger] deltas[i]).addr == SlotAddr::Inv(held_slot as usize)
}

/// Whether the item in the player's hand is among the changes, so that the
/// others have to hear of it.
pub fn held_changed(deltas: &Vec<SlotDelta>, held_slot: u8) -> (b: bool)
    ensures
        b == touches_hand(deltas@, held_slot as int),
{
    let mut i: usize = 0;
    while i < deltas.len()
        invariant
            i <= deltas.len(),
            forall|k: int|
                0 <= k < i ==> (#[trigger] deltas@[k]).addr != SlotAddr::Inv(held_slot as usize),
        decreases deltas.len() - i,
    {
        if deltas[i].addr == SlotAddr::Inv(held_slot as usize) {
            assert(deltas@[i as int].addr == SlotAddr::Inv(held_slot as usize));
            return true;
        }
        i = i + 1;
    }
    false
}

// ---- Crafting --------------------------------------------------------------

/// Where a recipe is made.
#[derive(Debug, Clone, Copy, PartialEq, Eq, Structural)]
pub enum Station {
    Hands,
    Workbench,
    Furnace,
    Anvil,
    InfernalForge,
    RitualAltar,
    Bottle,
}

/// The stations near a player.
#[derive(Debug, Clone, Copy, PartialEq, Eq, Structural)]
pub struct StationSet {
    pub workbench: bool,
    pub furnace: bool,
    pub anvil: bool,
    pub infernal_forge: bool,
    pub ritual_altar: bool,
    pub bottle: bool,
}

impl StationSet {
    pub open spec fn spec_contains(self, s: Station) -> bool {
        match s {
            Station::Hands => true,
            Station::Workbench => self.workbench,
            Station::Furnace => self.furnace,
            Station::Anvil => self.anvil,
            Station::InfernalForge => self.infernal_forge,
            Station::RitualAltar => self.ritual_altar,
            Station::Bottle => self.bottle,
        }
    }

    /// Whether a station is there; hands always are.
    pub fn contains(self, s: Station) -> (b: bool)
        ensures
            b == self.spec_contains(s),
    {
        match s {
            Station::Hands => true,
            Station::Workbench => self.workbench,
            Station::Furnace => self.furnace,
            Station::Anvil => self.anvil,
            Station::InfernalForge => self.infernal_forge,
            Station::RitualAltar => self.ritual_altar,
            Station::Bottle => self.bottle,
        }
    }
}

/// How something is made.
pub struct Recipe {
    pub id: u16,
    pub station: Station,
    pub inputs: Vec<(ItemId, u16)>,
    pub output: ItemId,
    pub count: u16,
}

impl Recipe {
    /// No input is listed twice.
    pub open spec fn wf(&self) -> bool {
        forall|i: int, j: int|
            0 <= i < j < self.inputs@.len() ==> (#[trigger] self.inputs@[i]).0 != (
            #[trigger] self.inputs@[j]).0
    }

    /// The slots before `end` hold all inputs.
    pub open spec fn supplied(&self, slots: Seq<Option<InvSlot>>, end: int) -> bool {
        forall|k: int|
            0 <= k < self.inputs@.len() ==> count_before(slots, (#[trigger] self.inputs@[k]).0, end)
                >= self.inputs@[k].1
    }
}

/// Counts `item` in the slots before `end`.
fn count_in(slots: &Vec<Option<InvSlot>>, item: ItemId, end: usize) -> (n: u64)
    requires
        end <= slots.len(),
        end <= 0xffff,
    ensures
        n == count_before(slots@, item, end as int),
{
    let mut n: u64 = 0;
    let mut i: usize = 0;
    while i < end
        invariant
            i <= end <= slots.len(),
            end <= 0xffff,
            n == count_before(slots@, item, i as int),
            n <= i * 0xffff,
        decreases end - i,
    {
        match slots[i] {
            Some(s) => {
                if s.item == item {
                    n = n + s.count as u64;
                }
            },
            None => {},
        }
        i = i + 1;
    }
    n
}

/// Whether hotbar and backpack hold the inputs of a recipe.
pub fn can_craft(recipe: &Recipe, slots: &Vec<Option<InvSlot>>, end: usize) -> (b: bool)
    requires
        end <= slots.len(),
        end <= 0xffff,
    ensures
        b == recipe.supplied(slots@, end as int),
{
    let mut k: usize = 0;
    while k < recipe.inputs.len()
        invariant
            end <= slots.len(),
            end <= 0xffff,
            k <= recipe.inputs.len(),
            forall|m: int|
                0 <= m < k ==> count_before(
                    slots@,
                    (#[trigger] recipe.inputs@[m]).0,
                    end as int,
                ) >= recipe.inputs@[m].1,
        decreases recipe.inputs.len() - k,
    {
        let (item, need) = recipe.inputs[k];
        if count_in(slots, item, end) < need as u64 {
            assert(count_before(slots@, recipe.inputs@[k as int].0, end as int)
                < recipe.inputs@[k as int].1);
            return false;
        }
        k = k + 1;
    }
    true
}

/// `stages` are the slots before, after each input was taken, and after the
/// output was put in.
pub open spec fn crafted(
    recipe: Recipe,
    stages: Seq<Seq<Option<InvSlot>>>,
    max_stack: int,
    end: int,
) -> bool {
    let n = recipe.inputs@.len() as int;
    &&& stages.len() == n + 2
    &&& forall|k: int|
        #![trigger stages[k + 1]]
        0 <= k < n ==> without(
            stages[k],
            stages[k + 1],
            recipe.inputs@[k].0,
            recipe.inputs@[k].1 as int,
            end,
        )
    &&& with_items(
        stages[n],
        stages[n + 1],
        recipe.output,
        recipe.count as int,
        max_stack,
        end,
    )
}

/// Taking out one item leaves the others.
proof fn lemma_without_other(
    before: Seq<Option<InvSlot>>,
    after: Seq<Option<InvSlot>>,
    item: ItemId,
    n: int,
    end: int,
    other: ItemId,
    i: int,
)
    requires
        without(before, after, item, n, end),
        other != item,
        0 <= i <= before.len(),
    ensures
        count_before(after, other, i) == count_before(before, other, i),
    decreases i,
{
    if i > 0 {
        lemma_without_other(before, after, item, n, end, other, i - 1);
        assert(after[i - 1] == (if i - 1 < end {
            crate::stacks::slot_without(before, item, n, i - 1)
        } else {
            before[i - 1]
        }));
    }
}

/// Makes a recipe at the given stations out of hotbar and backpack. Returns
/// how much of the output found no room; `None`, with nothing changed, if the
/// station is missing or an input is.
pub fn craft(
    recipe: &Recipe,
    stations: StationSet,
    slots: &mut Vec<Option<InvSlot>>,
    max_stack: u16,
) -> (overflow: Option<u16>)
    requires
        recipe.wf(),
        old(slots).len() >= ARMOR_START,
        max_stack >= 1,
    ensures
        overflow is Some <==> stations.spec_contains(recipe.station) && recipe.supplied(
            old(slots)@,
            ARMOR_START as int,
        ),
        overflow is Some ==> at_station(recipe.station, stations),
        at_station(recipe.station, stations) && recipe.supplied(old(slots)@, 50) ==> overflow is Some,
        overflow is None ==> final(slots)@ == old(slots)@,
        overflow matches Some(n) ==> exists|stages: Seq<Seq<Option<InvSlot>>>|
            {
                &&& #[trigger] crafted(*recipe, stages, max_stack as int, ARMOR_START as int)
                &&& stages[0] == old(slots)@
                &&& stages.last() == final(slots)@
                &&& n == leftover(
                    stages[recipe.inputs@.len() as int],
                    recipe.output,
                    recipe.count as int,
                    max_stack as int,
                    ARMOR_START as int,
                )
            },
{
    if !stations.contains(recipe.station) || !can_craft(recipe, slots, ARMOR_START) {
        return None;
    }
    let ghost mut stages: Seq<Seq<Option<InvSlot>>> = seq![slots@];
    let mut k: usize = 0;
    while k < recipe.inputs.len()
        invariant
            recipe.wf(),
            slots.len() == old(slots).len(),
            slots.len() >= ARMOR_START,
            k <= recipe.inputs.len(),
            stages.len() == k + 1,
            stages[0] == old(slots)@,
            stages[k as int] == slots@,
            forall|m: int|
                #![trigger stages[m + 1]]
                0 <= m < k ==> without(
                    stages[m],
                    stages[m + 1],
                    recipe.inputs@[m].0,
                    recipe.inputs@[m].1 as int,
                    ARMOR_START as int,
                ),
            forall|m: int|
                k <= m < recipe.inputs@.len() ==> count_before(
                    slots@,
                    (#[trigger] recipe.inputs@[m]).0,
                    ARMOR_START as int,
                ) >= recipe.inputs@[m].1,
        decreases recipe.inputs.len() - k,
    {
        let (item, need) = recipe.inputs[k];
        let ghost before = slots@;
        take_items(slots, item, need, ARMOR_START);
        proof {
            let old_stages = stages;
            stages = stages.push(slots@);
            assert forall|m: int|
                #![trigger stages[m + 1]]
                0 <= m < k + 1 implies without(
                stages[m],
                stages[m + 1],
                recipe.inputs@[m].0,
                recipe.inputs@[m].1 as int,
                ARMOR_START as int,
            ) by {
                if m < k {
                    assert(stages[m + 1] == old_stages[m + 1]);
                    assert(stages[m] == old_stages[m]);
                }
            }
            assert forall|m: int| k + 1 <= m < recipe.inputs@.len() implies count_before(
                slots@,
                (#[trigger] recipe.inputs@[m]).0,
                ARMOR_START as int,
            ) >= recipe.inputs@[m].1 by {
                assert(recipe.inputs@[k as int].0 != recipe.inputs@[m].0);
                lemma_without_other(
                    before,
                    slots@,
                    item,
                    need as int,
                    ARMOR_START as int,
                    recipe.inputs@[m].0,
                    ARMOR_START as int,
                );
            }
        }
        k = k + 1;
    }
    let left: u16 = add_items(slots, recipe.output, recipe.count, max_stack, ARMOR_START);
    proof {
        let old_stages = stages;
        stages = stages.push(slots@);
        assert forall|m: int|
            #![trigger stages[m + 1]]
            0 <= m < recipe.inputs@.len() implies without(
            stages[m],
            stages[m + 1],
            recipe.inputs@[m].0,
            recipe.inputs@[m].1 as int,
            ARMOR_START as int,
        ) by {
            assert(stages[m + 1] == old_stages[m + 1]);
            assert(stages[m] == old_stages[m]);
        }
        assert(crafted(*recipe, stages, max_stack as int, ARMOR_START as int));
    }
    Some(left)
}

/// Crafting touches hotbar and backpack only: armor, accessories and trash
/// stay as they are.
pub proof fn law_craft_spares_equipment(
    recipe: Recipe,
    stages: Seq<Seq<Option<InvSlot>>>,
    max_stack: int,
    end: int,
    k: int,
    i: int,
)
    requires
        crafted(recipe, stages, max_stack, end),
        0 <= k < stages.len(),
        0 <= end <= i < stages[0].len(),
    ensures
        stages[k].len() == stages[0].len(),
        stages[k][i] == stages[0][i],
    decreases k,
{
    if k > 0 {
        law_craft_spares_equipment(recipe, stages, max_stack, end, k - 1, i);
        if k - 1 < recipe.inputs@.len() {
            assert(without(
                stages[k - 1],
                stages[k - 1 + 1],
                recipe.inputs@[k - 1].0,
                recipe.inputs@[k - 1].1 as int,
                end,
            ));
        }
    }
}

/// What a crafter reads when the output did not fit.
pub open spec fn overflow_text(n: nat, name: Seq<char>) -> Seq<char> {
    "Dropped "@ + decimal(n) + " "@ + name + " (inventory full)"@
}

pub fn overflow_toast(n: u16, name: &str) -> (s: String)
    ensures
        s@ == overflow_text(n as nat, name@),
{
    let mut s = String::new();
    s.append("Dropped ");
    push_decimal(&mut s, n as u64);
    s.append(" ");
    s.append(name);
    s.append(" (inventory full)");
    assert(s@ =~= overflow_text(n as nat, name@));
    s
}

/// The inventory of a new player: the kit in the first slots.
pub fn starting_inventory(kit: &Vec<InvSlot>, slots: usize) -> (inv: Vec<Option<InvSlot>>)
    ensures
        inv.len() == slots,
        forall|i: int|
            0 <= i < slots ==> #[trigger] inv@[i] == (if i < kit.len() {
                Some(kit@[i])
            } else {
                None
            }),
{
    let mut inv: Vec<Option<InvSlot>> = Vec::new();
    while inv.len() < slots
        invariant
            inv.len() <= slots,
            forall|i: int|
                0 <= i < inv.len() ==> #[trigger] inv@[i] == (if i < kit.len() {
                    Some(kit@[i])
                } else {
                    None
                }),
        decreases slots - inv.len(),
    {
        let i: usize = inv.len();
        if i < kit.len() {
            inv.push(Some(kit[i]));
        } else {
            inv.push(None);
        }
    }
    inv
}

// ---- Chests ----------------------------------------------------------------

/// A chest is open to at most one player.
pub open spec fn one_opener(players: Seq<Player>) -> bool {
    forall|i: int, j: int|
        0 <= i < j < players.len() && (#[trigger] players[i]).open_chest is Some ==> (
        #[trigger] players[j]).open_chest != players[i].open_chest
}

/// The players once nobody has the chest at `origin` open.
pub open spec fn shut_for_all(players: Seq<Player>, origin: (u32, u32)) -> Seq<Player> {
    Seq::new(
        players.len(),
        |k: int|
            if players[k].open_chest == Some(origin) {
                Player { open_chest: None, ..players[k] }
            } else {
                players[k]
            },
    )
}

/// The top left cell of a chest.
pub open spec fn is_chest(g: Grid, x: u32, y: u32) -> bool {
    &&& g.inside(x as int, y as int)
    &&& g.at(x as int, y as int).id == TileId::Chest
    &&& spec_origin(g, x, y) == (x, y)
}

/// Somebody but the player at index `i` holds the chest open.
pub open spec fn held_by_other(players: Seq<Player>, i: int, origin: (u32, u32)) -> bool {
    exists|k: int|
        0 <= k < players.len() && k != i && (#[trigger] players[k]).open_chest == Some(origin)
}

/// How a request to open a chest ends.
#[derive(Debug, Clone, Copy, PartialEq, Eq, Structural)]
pub enum OpenChest {
    /// There is no chest, or it is too far away.
    Ignored,
    /// Somebody else holds it open.
    Denied,
    Opened,
}

pub open spec fn open_outcome(
    g: Grid,
    players: Seq<Player>,
    i: int,
    x: u32,
    y: u32,
    in_reach: bool,
) -> OpenChest {
    if !is_chest(g, x, y) || !in_reach {
        OpenChest::Ignored
    } else if held_by_other(players, i, (x, y)) {
        OpenChest::Denied
    } else {
        OpenChest::Opened
    }
}

impl Roster {
    /// Whether somebody but the player at index `i` holds a chest open.
    fn chest_held(&self, i: usize, origin: (u32, u32)) -> (b: bool)
        ensures
            b == held_by_other(self.players@, i as int, origin),
    {
        let mut k: usize = 0;
        while k < self.players.len()
            invariant
                k <= self.players.len(),
                forall|m: int|
                    0 <= m < k && m != i ==> (#[trigger] self.players@[m]).open_chest != Some(
                        origin,
                    ),
            decreases self.players.len() - k,
        {
            if k != i {
                match self.players[k].open_chest {
                    Some(o) => {
                        if o.0 == origin.0 && o.1 == origin.1 {
                            assert(self.players@[k as int].open_chest == Some(origin));
                            return true;
                        }
                    },
                    None => {},
                }
            }
            k = k + 1;
        }
        false
    }

    /// Sets which chest the player at index `i` holds open.
    fn set_open_chest(&mut self, i: usize, chest: Option<(u32, u32)>)
        requires
            old(self).wf(),
            i < old(self).players.len(),
        ensures
            final(self).wf(),
            final(self).players@ == old(self).players@.update(
                i as int,
                (Player { open_chest: chest, ..old(self).players@[i as int] }),
            ),
            final(self).offline == old(self).offline,
            final(self).next_player_id == old(self).next_player_id,
            final(self).next_epoch == old(self).next_epoch,
    {
        let ghost before = self.players@;
        self.players[i].open_chest = chest;
        assert(self.players@ =~= before.update(
            i as int,
            Player { open_chest: chest, ..before[i as int] },
        ));
        assert(forall|k: int|
            0 <= k < before.len() ==> (#[trigger] self.players@[k]).id == before[k].id
                && self.players@[k].name == before[k].name && self.players@[k].epoch
                == before[k].epoch);
    }

    /// Opens the chest at `(x, y)` for the player at index `i`: only its top
    /// left cell counts, it must be in reach, and nobody else may hold it
    /// open. A chest that was open before is released.
    pub fn open_chest(
        &mut self,
        world: &World,
        chests: &mut ChestStore,
        i: usize,
        x: u32,
        y: u32,
        in_reach: bool,
    ) -> (r: OpenChest)
        requires
            old(self).wf(),
            one_opener(old(self).players@),
            world.wf(),
            old(chests).wf(),
            i < old(self).players.len(),
        ensures
            final(self).wf(),
            one_opener(final(self).players@),
            final(chests).wf(),
            r == open_outcome(world@, old(self).players@, i as int, x, y, in_reach),
            r == OpenChest::Opened ==> {
                &&& final(self).players@ == old(self).players@.update(
                    i as int,
                    (Player { open_chest: Some((x, y)), ..old(self).players@[i as int] }),
                )
                &&& final(chests)@ == (if old(chests)@.dom().contains((x, y)) {
                    old(chests)@
                } else {
                    old(chests)@.insert(
                        (x, y),
                        Seq::new(CHEST_SLOTS as nat, |k: int| None),
                    )
                })
            },
            r != OpenChest::Opened ==> *final(self) == *old(self) && final(chests)@ == old(chests)@,
            final(self).offline == old(self).offline,
            final(self).next_player_id == old(self).next_player_id,
            final(self).next_epoch == old(self).next_epoch,
    {
        if !world.in_bounds(x, y) {
            return OpenChest::Ignored;
        }
        let o: (u32, u32) = world.multitile_origin(x, y);
        if world.tile(x, y).id != TileId::Chest || o.0 != x || o.1 != y || !in_reach {
            return OpenChest::Ignored;
        }
        if self.chest_held(i, (x, y)) {
            return OpenChest::Denied;
        }
        self.set_open_chest(i, Some((x, y)));
        chests.ensure((x, y));
        OpenChest::Opened
    }

    /// Closes whatever chest the player at index `i` holds open.
    pub fn release_chest(&mut self, i: usize)
        requires
            old(self).wf(),
            one_opener(old(self).players@),
            i < old(self).players.len(),
        ensures
            final(self).wf(),
            one_opener(final(self).players@),
            final(self).players@ == old(self).players@.update(
                i as int,
                (Player { open_chest: None, ..old(self).players@[i as int] }),
            ),
            final(self).offline == old(self).offline,
            final(self).next_player_id == old(self).next_player_id,
            final(self).next_epoch == old(self).next_epoch,
    {
        self.set_open_chest(i, None);
    }

    /// Closes the chests of all players who are out of reach of theirs;
    /// `in_reach` says so per player.
    pub fn close_out_of_reach_chests(&mut self, in_reach: &Vec<bool>)
        requires
            old(self).wf(),
            one_opener(old(self).players@),
            in_reach.len() == old(self).players.len(),
        ensures
            final(self).wf(),
            one_opener(final(self).players@),
            final(self).players@ == Seq::new(
                old(self).players@.len(),
                |k: int|
                    if in_reach@[k] {
                        old(self).players@[k]
                    } else {
                        Player { open_chest: None, ..old(self).players@[k] }
                    },
            ),
            final(self).offline == old(self).offline,
            final(self).next_player_id == old(self).next_player_id,
            final(self).next_epoch == old(self).next_epoch,
    {
        let ghost before = self.players@;
        let mut k: usize = 0;
        while k < self.players.len()
            invariant
                self.wf(),
                one_opener(self.players@),
                k <= self.players.len(),
                self.players@.len() == before.len(),
                in_reach.len() == self.players.len(),
                self.offline == old(self).offline,
                self.next_player_id == old(self).next_player_id,
                self.next_epoch == old(self).next_epoch,
                forall|m: int|
                    0 <= m < before.len() ==> #[trigger] self.players@[m] == (if m < k
                        && !in_reach@[m] {
                        Player { open_chest: None, ..before[m] }
                    } else {
                        before[m]
                    }),
            decreases self.players.len() - k,
        {
            if !in_reach[k] {
                self.release_chest(k);
            }
            k = k + 1;
        }
        assert(self.players@ =~= Seq::new(
            before.len(),
            |k: int|
                if in_reach@[k] {
                    before[k]
                } else {
                    Player { open_chest: None, ..before[k] }
                },
        ));
    }

    /// Closes the chest at `origin` for whoever holds it open: it is gone.
    pub fn release_gone_chest(&mut self, origin: (u32, u32))
        requires
            old(self).wf(),
            one_opener(old(self).players@),
        ensures
            final(self).wf(),
            one_opener(final(self).players@),
            final(self).players@ == shut_for_all(old(self).players@, origin),
            final(self).offline == old(self).offline,
            final(self).next_player_id == old(self).next_player_id,
            final(self).next_epoch == old(self).next_epoch,
    {
        let ghost before = self.players@;
        let mut k: usize = 0;
        while k < self.players.len()
            invariant
                self.wf(),
                one_opener(self.players@),
                k <= self.players.len(),
                self.players@.len() == before.len(),
                self.offline == old(self).offline,
                self.next_player_id == old(self).next_player_id,
                self.next_epoch == old(self).next_epoch,
                forall|m: int|
                    0 <= m < before.len() ==> #[trigger] self.players@[m] == (if m < k
                        && before[m].open_chest == Some(origin) {
                        Player { open_chest: None, ..before[m] }
                    } else {
                        before[m]
                    }),
            decreases self.players.len() - k,
        {
            let held: bool = match self.players[k].open_chest {
                Some(o) => o.0 == origin.0 && o.1 == origin.1,
                None => false,
            };
            assert(held == (before[k as int].open_chest == Some(origin)));
            if held {
                self.release_chest(k);
            }
            k = k + 1;
        }
        assert(self.players@ =~= Seq::new(
            before.len(),
            |k: int|
                if before[k].open_chest == Some(origin) {
                    Player { open_chest: None, ..before[k] }
                } else {
                    before[k]
                },
        ));
    }
}

/// While one player holds a chest open, every other request for it is denied;
/// once it is released the next one is granted.
pub proof fn law_chest_is_locked(
    g: Grid,
    players: Seq<Player>,
    holder: int,
    i: int,
    x: u32,
    y: u32,
)
    requires
        one_opener(players),
        is_chest(g, x, y),
        0 <= holder < players.len(),
        0 <= i < players.len(),
        i != holder,
        players[holder].open_chest == Some((x, y)),
    ensures
        open_outcome(g, players, i, x, y, true) == OpenChest::Denied,
        open_outcome(
            g,
            players.update(holder, (Player { open_chest: None, ..players[holder] })),
            i,
            x,
            y,
            true,
        ) == OpenChest::Opened,
{
    let freed = players.update(holder, Player { open_chest: None, ..players[holder] });
    assert forall|k: int| 0 <= k < freed.len() && k != i implies (#[trigger] freed[k]).open_chest
        != Some((x, y)) by {
        if k != holder {
            if k < holder {
                assert(players[k].open_chest != players[holder].open_chest);
            } else {
                assert(players[holder].open_chest != players[k].open_chest);
            }
        }
    }
}

/// Between which slots a player moves a stack into or out of the chest they
/// have open: nowhere while they have none open, or one that is gone.
pub fn chest_move_slot(
    open_chest: Option<(u32, u32)>,
    chests: &ChestStore,
    chest_slot: u8,
    inv_slot: u8,
    to_chest: bool,
) -> (m: Option<((u32, u32), SlotAddr, SlotAddr)>)
    requires
        chests.wf(),
    ensures
        m == (match open_chest {
            Some(key) if chests@.dom().contains(key) => Some(
                (
                    key,
                    if to_chest {
                        SlotAddr::Inv(inv_slot as usize)
                    } else {
                        SlotAddr::Chest(chest_slot as usize)
                    },
                    if to_chest {
                        SlotAddr::Chest(chest_slot as usize)
                    } else {
                        SlotAddr::Inv(inv_slot as usize)
                    },
                ),
            ),
            _ => None,
        }),
        m is Some ==> open_chest == Some(m->Some_0.0),
        m is Some && to_chest ==> m->Some_0.1 is Inv && m->Some_0.2 is Chest,
        m is Some && !to_chest ==> m->Some_0.1 is Chest && m->Some_0.2 is Inv,
{
    let key: (u32, u32) = match open_chest {
        Some(k) => k,
        None => {
            return None;
        },
    };
    if chests.get(key).is_none() {
        return None;
    }
    let (inv, chest) = (SlotAddr::Inv(inv_slot as usize), SlotAddr::Chest(chest_slot as usize));
    if to_chest {
        Some((key, inv, chest))
    } else {
        Some((key, chest, inv))
    }
}

/// A changed slot as its owner is told of it.
pub open spec fn slot_said(d: SlotDelta) -> Said {
    match d.addr {
        SlotAddr::Inv(i) => Said::Slot { idx: i as u8, stack: d.stack },
        SlotAddr::Chest(i) => Said::ChestSlot { idx: i as u8, stack: d.stack },
    }
}

/// Changed slots as the player `to` is told of them.
pub open spec fn slots_said(to: u32, deltas: Seq<SlotDelta>) -> Seq<Message> {
    Seq::new(deltas.len(), |i: int| Message { to, what: slot_said(deltas[i]) })
}

/// What came of moving a stack between an inventory and a chest.
pub struct ChestMove {
    pub inventory: Vec<Option<InvSlot>>,
    pub chest: Vec<Option<InvSlot>>,
    pub deltas: Vec<SlotDelta>,
}

impl Roster {
    /// The notices about changed slots of the player at index `k`: to them
    /// every slot, and to the others what they hold now, where that is one of
    /// the slots.
    pub open spec fn slot_news(&self, k: int, deltas: Seq<SlotDelta>) -> Seq<Message> {
        let p = self.players@[k];
        slots_said(p.id, deltas) + (if touches_hand(deltas, p.hands.held_slot as int) {
            self.news(held_of(p), Some(p.id), self.players@.len())
        } else {
            seq![]
        })
    }

    /// Tells the player at index `k` of changed slots, and the others where
    /// the held item is among them.
    pub fn send_slot_deltas(&self, k: usize, deltas: &Vec<SlotDelta>, out: &mut Vec<Outgoing>)
        requires
            k < self.players.len(),
        ensures
            said(final(out)@) == said(old(out)@) + self.slot_news(k as int, deltas@),
    {
        let id: u32 = self.players[k].id;
        let ghost base = said(out@);
        self.tell_slots(k, deltas, out);
        if held_changed(deltas, self.players[k].hands.held_slot) {
            self.broadcast(&self.players[k].held(), Some(id), out);
        }
        assert(said(out@) =~= base + self.slot_news(k as int, deltas@));
    }

    /// Takes over what came of a move between the inventory of the player at
    /// index `k` and the chest that they have open, and tells of it. Nothing
    /// happens where they have no chest open, or one that is gone; `m` is
    /// nothing where the move was refused.
    pub fn settle_chest_move(
        &mut self,
        k: usize,
        chests: &mut ChestStore,
        m: Option<ChestMove>,
        out: &mut Vec<Outgoing>,
    )
        requires
            old(self).wf(),
            k < old(self).players.len(),
            old(chests).wf(),
        ensures
            final(self).wf(),
            final(self).offline == old(self).offline,
            final(self).next_player_id == old(self).next_player_id,
            final(self).next_epoch == old(self).next_epoch,
            final(chests).wf(),
            ({
                let p = old(self).players@[k as int];
                match (p.open_chest, m) {
                    (Some(key), Some(done)) if old(chests)@.dom().contains(key) => {
                        &&& final(chests)@ == old(chests)@.insert(key, done.chest@)
                        &&& final(self).players@ == old(self).players@.update(
                            k as int,
                            (Player { inventory: done.inventory, ..p }),
                        )
                        &&& said(final(out)@) == said(old(out)@) + final(self).slot_news(
                            k as int,
                            done.deltas@,
                        )
                    },
                    _ => {
                        &&& final(chests)@ == old(chests)@
                        &&& *final(self) == *old(self)
                        &&& final(out)@ == old(out)@
                    },
                }
            }),
    {
        let key: (u32, u32) = match self.players[k].open_chest {
            Some(c) => c,
            None => {
                return;
            },
        };
        if chests.get(key).is_none() {
            return;
        }
        let done: ChestMove = match m {
            Some(d) => d,
            None => {
                return;
            },
        };
        let ChestMove { inventory, chest, deltas } = done;
        chests.insert(key, chest);
        self.players[k].inventory = inventory;
        self.send_slot_deltas(k, &deltas, out);
    }
}

// ---- What crafting and chests come to --------------------------------------

/// The station stands near: hands always do.
pub open spec fn at_station(s: Station, near: StationSet) -> bool {
    ||| s == Station::Hands
    ||| s == Station::Workbench && near.workbench
    ||| s == Station::Furnace && near.furnace
    ||| s == Station::Anvil && near.anvil
    ||| s == Station::InfernalForge && near.infernal_forge
    ||| s == Station::RitualAltar && near.ritual_altar
    ||| s == Station::Bottle && near.bottle
}

/// Each station counts by its own flag: with it alone up, what is made there
/// and by hand can be made, and nothing else.
pub proof fn law_stations_serve_their_own(near: StationSet, s: Station)
    ensures
        near.spec_contains(Station::Hands),
        near.spec_contains(Station::Workbench) <==> near.workbench,
        near.spec_contains(Station::Furnace) <==> near.furnace,
        near.spec_contains(Station::Anvil) <==> near.anvil,
        near.spec_contains(Station::InfernalForge) <==> near.infernal_forge,
        near.spec_contains(Station::RitualAltar) <==> near.ritual_altar,
        near.spec_contains(Station::Bottle) <==> near.bottle,
        near.spec_contains(s) <==> at_station(s, near),
{
}

/// How many of `item` the first `n` of `inputs` ask for.
pub open spec fn asked(inputs: Seq<(ItemId, u16)>, item: ItemId, n: nat) -> int
    decreases n,
{
    if n == 0 {
        0
    } else {
        asked(inputs, item, (n - 1) as nat) + if inputs[n - 1].0 == item {
            inputs[n - 1].1 as int
        } else {
            0
        }
    }
}

proof fn lemma_stages(
    recipe: Recipe,
    stages: Seq<Seq<Option<InvSlot>>>,
    max_stack: int,
    end: int,
    k: nat,
    item: ItemId,
)
    requires
        recipe.wf(),
        crafted(recipe, stages, max_stack, end),
        recipe.supplied(stages[0], end),
        0 <= end <= stages[0].len(),
        k <= recipe.inputs@.len(),
    ensures
        stages[k as int].len() == stages[0].len(),
        item_count(stages[k as int], item) == item_count(stages[0], item) - asked(
            recipe.inputs@,
            item,
            k,
        ),
        forall|m: int|
            k <= m < recipe.inputs@.len() ==> count_before(
                stages[k as int],
                (#[trigger] recipe.inputs@[m]).0,
                end,
            ) >= recipe.inputs@[m].1,
    decreases k,
{
    if k > 0 {
        lemma_stages(recipe, stages, max_stack, end, (k - 1) as nat, item);
        let (a, b) = (stages[k - 1], stages[k - 1 + 1]);
        let (it, n) = (recipe.inputs@[k - 1].0, recipe.inputs@[k - 1].1 as int);
        assert(without(a, b, it, n, end));
        law_take_removes_exactly(a, b, it, n, end, item);
        assert forall|m: int| k <= m < recipe.inputs@.len() implies count_before(
            b,
            (#[trigger] recipe.inputs@[m]).0,
            end,
        ) >= recipe.inputs@[m].1 by {
            assert(recipe.inputs@[k - 1].0 != recipe.inputs@[m].0);
            lemma_without_other(a, b, it, n, end, recipe.inputs@[m].0, end);
        }
    }
}

/// Crafting uses up exactly the inputs of the recipe and makes exactly its
/// output, less what finds no room; all other items stay.
pub proof fn law_crafting_trades_inputs_for_output(
    recipe: Recipe,
    stages: Seq<Seq<Option<InvSlot>>>,
    max_stack: int,
    end: int,
    item: ItemId,
)
    requires
        recipe.wf(),
        crafted(recipe, stages, max_stack, end),
        recipe.supplied(stages[0], end),
        0 <= end <= stages[0].len(),
        1 <= max_stack <= u16::MAX,
    ensures
        item_count(stages.last(), item) == item_count(stages[0], item) - asked(
            recipe.inputs@,
            item,
            recipe.inputs@.len(),
        ) + (if item == recipe.output {
            recipe.count - leftover(
                stages[recipe.inputs@.len() as int],
                recipe.output,
                recipe.count as int,
                max_stack,
                end,
            )
        } else {
            0
        }),
{
    let n = recipe.inputs@.len();
    lemma_stages(recipe, stages, max_stack, end, n, item);
    law_add_keeps_count(
        stages[n as int],
        stages[n as int + 1],
        recipe.output,
        recipe.count as int,
        max_stack,
        end,
        item,
    );
}

/// A recipe is supplied exactly if the slots hold at least as many of each
/// input as it asks for.
pub proof fn law_recipes_ask_for_all_inputs(recipe: Recipe, slots: Seq<Option<InvSlot>>, end: int, k: int)
    requires
        0 <= end <= slots.len(),
        0 <= k < recipe.inputs@.len(),
    ensures
        item_count(slots.take(end), recipe.inputs@[k].0) < recipe.inputs@[k].1 ==> !recipe.supplied(
            slots,
            end,
        ),
        !recipe.supplied(slots, end) ==> exists|m: int|
            0 <= m < recipe.inputs@.len() && item_count(
                slots.take(end),
                (#[trigger] recipe.inputs@[m]).0,
            ) < recipe.inputs@[m].1,
{
    assert forall|m: int| 0 <= m < recipe.inputs@.len() implies count_before(
        slots,
        (#[trigger] recipe.inputs@[m]).0,
        end,
    ) == item_count(slots.take(end), recipe.inputs@[m].0) by {
        crate::stacks::lemma_count_before(slots, recipe.inputs@[m].0, end);
    }
}

/// Something is dropped exactly if the slot holds that many and at least one
/// is asked for; the rest stays in the slot.
pub proof fn law_drops_come_out_of_the_slot(slots: Seq<Option<InvSlot>>, slot: int, count: int)
    requires
        0 <= count,
    ensures
        after_drop(slots, slot, count) is Some <==> 0 <= slot < slots.len() && slots[slot] is Some
            && 1 <= count <= slots[slot]->Some_0.count,
        after_drop(slots, slot, count) matches Some(Some(rest)) ==> rest.item
            == slots[slot]->Some_0.item && rest.count == slots[slot]->Some_0.count - count
            && rest.count >= 1,
        after_drop(slots, slot, count) matches Some(None) ==> count == slots[slot]->Some_0.count,
{
}

/// A slot is told exactly if it changed, with what it holds now.
pub proof fn law_changed_slots_are_told(
    before: Seq<Option<InvSlot>>,
    after: Seq<Option<InvSlot>>,
    n: nat,
    i: int,
)
    requires
        n <= before.len(),
        before.len() == after.len(),
        before.len() <= usize::MAX,
        0 <= i < n,
    ensures
        before[i] != after[i] <==> differences(before, after, n).contains(
            SlotDelta { addr: SlotAddr::Inv(i as usize), stack: after[i] },
        ),
        forall|k: int|
            0 <= k < differences(before, after, n).len() ==> (#[trigger] differences(
                before,
                after,
                n,
            )[k]).addr is Inv && differences(before, after, n)[k].addr->Inv_0 < n,
    decreases n,
{
    let d = differences(before, after, n);
    let e = differences(before, after, (n - 1) as nat);
    let what = SlotDelta { addr: SlotAddr::Inv(i as usize), stack: after[i] };
    lemma_differences_below(before, after, (n - 1) as nat);
    lemma_differences_below(before, after, n);
    if i < n - 1 {
        law_changed_slots_are_told(before, after, (n - 1) as nat, i);
        if e.contains(what) {
            assert(d[e.index_of(what)] == what);
        }
        if d.contains(what) {
            let k = d.index_of(what);
            if k < e.len() {
                assert(e[k] == what);
            }
        }
    } else {
        if before[i] != after[i] {
            assert(d[e.len() as int] == what);
        } else if d.contains(what) {
            let k = d.index_of(what);
            assert(e[k].addr->Inv_0 < n - 1);
        }
    }
}

proof fn lemma_differences_below(
    before: Seq<Option<InvSlot>>,
    after: Seq<Option<InvSlot>>,
    n: nat,
)
    requires
        n <= before.len(),
        before.len() == after.len(),
        before.len() <= usize::MAX,
    ensures
        forall|k: int|
            0 <= k < differences(before, after, n).len() ==> (#[trigger] differences(
                before,
                after,
                n,
            )[k]).addr is Inv && differences(before, after, n)[k].addr->Inv_0 < n,
    decreases n,
{
    if n > 0 {
        lemma_differences_below(before, after, (n - 1) as nat);
    }
}

/// A chest opens at its upper left cell, in reach, and unless somebody else
/// has it open, who then keeps it.
pub proof fn law_chests_open_in_reach(
    g: Grid,
    players: Seq<Player>,
    i: int,
    x: u32,
    y: u32,
    in_reach: bool,
)
    ensures
        ({
            let r = open_outcome(g, players, i, x, y, in_reach);
            let chest = x < g.width && y < g.height && g.at(x as int, y as int).id == TileId::Chest
                && g.at(x as int, y as int).state.part_x == 0 && g.at(
                x as int,
                y as int,
            ).state.part_y == 0;
            let taken = exists|k: int|
                0 <= k < players.len() && k != i && (#[trigger] players[k]).open_chest is Some
                    && players[k].open_chest->Some_0 == (x, y);
            &&& !in_reach ==> r is Ignored
            &&& chest && in_reach && taken ==> r is Denied
            &&& chest && in_reach && !taken ==> r is Opened
            &&& x >= g.width || y >= g.height || g.at(x as int, y as int).id != TileId::Chest
                ==> r is Ignored
        }),
{
    if held_by_other(players, i, (x, y)) {
        let k = choose|k: int|
            0 <= k < players.len() && k != i && (#[trigger] players[k]).open_chest == Some((x, y));
        assert(players[k].open_chest is Some);
    }
}

/// Who had the chest open has none open any more; everybody else is as before.
pub proof fn law_a_gone_chest_is_shut(players: Seq<Player>, origin: (u32, u32), k: int)
    requires
        0 <= k < players.len(),
    ensures
        shut_for_all(players, origin).len() == players.len(),
        shut_for_all(players, origin)[k].open_chest != Some(origin),
        players[k].open_chest != Some(origin) ==> shut_for_all(players, origin)[k] == players[k],
        shut_for_all(players, origin)[k].inventory == players[k].inventory && shut_for_all(
            players,
            origin,
        )[k].id == players[k].id,
{
}

/// The owner hears of every changed slot, own slots and chest slots by their
/// numbers; the others hear of it when the hand is among them.
pub proof fn law_owners_hear_of_their_slots(to: u32, deltas: Seq<SlotDelta>, i: int)
    requires
        0 <= i < deltas.len(),
    ensures
        slots_said(to, deltas).len() == deltas.len(),
        slots_said(to, deltas)[i].to == to,
        match deltas[i].addr {
            SlotAddr::Inv(n) => n < 256 ==> (slots_said(to, deltas)[i].what matches Said::Slot {
                idx,
                stack,
            } && idx == n && stack == deltas[i].stack),
            SlotAddr::Chest(n) => n < 256 ==> (slots_said(
                to,
                deltas,
            )[i].what matches Said::ChestSlot { idx, stack } && idx == n && stack
                == deltas[i].stack),
        },
        deltas[i].addr is Inv && deltas[i].addr->Inv_0 < 256 ==> touches_hand(
            deltas,
            deltas[i].addr->Inv_0 as int,
        ),
{
}

} // verus!
