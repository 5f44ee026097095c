//! What a client asks the server for.

use vstd::prelude::*;

use crate::item::ItemId;

verus! {

#[derive(Debug, Clone, Copy, PartialEq, Eq, Structural)]
pub enum ClientMessage {
    SelectSlot { slot: u8 },
    HitTile { x: u32, y: u32 },
    HitWall { x: u32, y: u32 },
    PlaceTile { x: u32, y: u32, hotbar_slot: u8 },
    PlaceWall { x: u32, y: u32, hotbar_slot: u8 },
    ToggleDoor { x: u32, y: u32 },
    OpenChest { x: u32, y: u32 },
    MoveSlot { from: u8, to: u8 },
    SplitSlot { from: u8, to: u8 },
    ChestMoveSlot { chest_slot: u8, inv_slot: u8, to_chest: bool },
    DropItem { slot: u8, count: u16 },
    Craft { recipe_id: u16 },
    BuyItem { npc_id: u32, item: ItemId, count: u16 },
    NurseHeal,
}

} // verus!
