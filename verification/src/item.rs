//! Items and the slots that hold them.

use vstd::prelude::*;

verus! {

/// The items that rules name; the rest of the catalogue goes by number.
#[derive(Debug, Clone, Copy, PartialEq, Eq, Structural)]
pub enum ItemId {
    Wood,
    Acorn,
    Gel,
    Torch,
    Stone,
    Obsidian,
    Hellstone,
    Platform,
    Workbench,
    WoodPickaxe,
    WoodSword,
    GoldSword,
    EmberBlade,
    ZombieArm,
    WoodenBow,
    Cinderbow,
    WoodenArrow,
    FlamingArrow,
    SilverBar,
    GoldBar,
    CopperCoin,
    SilverCoin,
    GoldCoin,
    PlatinumCoin,
    LesserHealingPotion,
    HealingPotion,
    LifeCrystal,
    WarpMirror,
    GustJar,
    SwiftBoots,
    BandOfVigor,
    ObsidianCharm,
    LuckyCharm,
    IronHelmet,
    IronGreaves,
    Other(u16),
}

/// A stack of items in one slot.
#[derive(Debug, Clone, Copy, PartialEq, Eq, Structural)]
pub struct InvSlot {
    pub item: ItemId,
    pub count: u16,
}

impl InvSlot {
    pub fn new(item: ItemId, count: u16) -> (s: InvSlot)
        ensures
            s == (InvSlot { item, count }),
    {
        InvSlot { item, count }
    }
}

// The layout of the slots and the worth of coins are taken as given: client and
// server have to agree on them.

/// Slots of the hotbar.
pub const HOTBAR: usize = 10;

/// First slot of the backpack.
pub const BACKPACK_START: usize = 10;

/// First armor slot; the slots before it carry plain items.
pub const ARMOR_START: usize = 50;

/// First accessory slot.
pub const ACCESSORY_START: usize = 53;

/// The trash slot.
pub const TRASH: usize = 56;

/// Slots of a player.
pub const INVENTORY_SLOTS: usize = 57;

/// Slots of a chest.
pub const CHEST_SLOTS: usize = 40;

/// Copper in a silver coin.
pub const COPPER_PER_SILVER: u32 = 100;

/// Copper in a gold coin.
pub const COPPER_PER_GOLD: u32 = 10_000;

/// Copper in a platinum coin.
pub const COPPER_PER_PLATINUM: u32 = 1_000_000;

impl ItemId {
    /// What a coin is worth in copper, `None` for other items.
    pub open spec fn spec_coin_value(self) -> Option<u32> {
        match self {
            ItemId::CopperCoin => Some(1),
            ItemId::SilverCoin => Some(COPPER_PER_SILVER),
            ItemId::GoldCoin => Some(COPPER_PER_GOLD),
            ItemId::PlatinumCoin => Some(COPPER_PER_PLATINUM),
            _ => None,
        }
    }

    /// What a coin is worth in copper, `None` for other items.
    pub fn coin_value(self) -> (v: Option<u32>)
        ensures
            v == self.spec_coin_value(),
    {
        match self {
            ItemId::CopperCoin => Some(1),
            ItemId::SilverCoin => Some(COPPER_PER_SILVER),
            ItemId::GoldCoin => Some(COPPER_PER_GOLD),
            ItemId::PlatinumCoin => Some(COPPER_PER_PLATINUM),
            _ => None,
        }
    }
}

/// How many of `item` the slots hold.
pub open spec fn item_count(slots: Seq<Option<InvSlot>>, item: ItemId) -> nat
    decreases slots.len(),
{
    if slots.len() == 0 {
        0
    } else {
        item_count(slots.drop_last(), item) + match slots.last() {
            Some(s) if s.item == item => s.count as nat,
            _ => 0,
        }
    }
}

/// Counts `item` over the slots.
pub fn count_item(slots: &Vec<Option<InvSlot>>, item: ItemId) -> (n: u64)
    requires
        slots.len() <= u32::MAX,
    ensures
        n == item_count(slots@, item),
{
    let mut n: u64 = 0;
    let mut i: usize = 0;
    while i < slots.len()
        invariant
            slots.len() <= u32::MAX,
            i <= slots.len(),
            n == item_count(slots@.take(i as int), item),
            n <= i * 0xffff,
        decreases slots.len() - i,
    {
        assert(slots@.take(i + 1).drop_last() =~= slots@.take(i as int));
        match slots[i] {
            Some(s) => {
                if s.item == item {
                    n = n + s.count as u64;
                }
            },
            None => {},
        }
        i = i + 1;
    }
    assert(slots@.take(i as int) =~= slots@);
    n
}

/// A hundred coins of each metal are worth one of the next.
pub proof fn law_coins_have_their_worth(item: ItemId)
    ensures
        ItemId::CopperCoin.spec_coin_value() == Some(1u32),
        ItemId::SilverCoin.spec_coin_value()->Some_0 == 100 * ItemId::CopperCoin.spec_coin_value()->Some_0,
        ItemId::GoldCoin.spec_coin_value()->Some_0 == 100 * ItemId::SilverCoin.spec_coin_value()->Some_0,
        ItemId::PlatinumCoin.spec_coin_value()->Some_0 == 100 * ItemId::GoldCoin.spec_coin_value()->Some_0,
        item.spec_coin_value() is Some <==> item == ItemId::CopperCoin || item
            == ItemId::SilverCoin || item == ItemId::GoldCoin || item == ItemId::PlatinumCoin,
{
}

/// The slots of a player: ten in the hotbar, forty in the backpack, three
/// for armor, three for accessories, one for trash. A chest has forty.
pub proof fn law_slots_have_their_places()
    ensures
        HOTBAR == 10 && BACKPACK_START == 10 && ARMOR_START == BACKPACK_START + 40,
        ACCESSORY_START == ARMOR_START + 3 && TRASH == ACCESSORY_START + 3,
        INVENTORY_SLOTS == TRASH + 1 && CHEST_SLOTS == 40,
{
}

/// A slot counts for the items that it holds, and for no others.
pub proof fn law_slots_are_counted(slots: Seq<Option<InvSlot>>, slot: Option<InvSlot>, item: ItemId)
    ensures
        item_count(seq![], item) == 0,
        item_count(slots.push(slot), item) == item_count(slots, item) + (if slot is Some
            && slot->Some_0.item == item {
            slot->Some_0.count as int
        } else {
            0
        }),
{
    assert(slots.push(slot).drop_last() =~= slots);
}

} // verus!
