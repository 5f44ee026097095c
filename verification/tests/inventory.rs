use ferraria::chest::ChestStore;
use ferraria::grid::World;
use ferraria::item::{InvSlot, ItemId, ARMOR_START, CHEST_SLOTS, INVENTORY_SLOTS, TRASH};
use ferraria::sim::entities::EntityStore;
use ferraria::sim::interact::{Breaking, Drop, TileData, ToolKind};
use ferraria::sim::inventory::{
    can_craft, chest_move_slot, craft, drop_item, held_changed, overflow_toast, slot_deltas,
    starting_inventory, ChestMove, OpenChest, Recipe, SlotAddr, SlotDelta, Station, StationSet,
};
use ferraria::sim::live::Live;
use ferraria::sim::player::Point;
use ferraria::sim::roster::{Fresh, Joined, Limits, Notice, Outgoing, Roster, Scene};
use ferraria::stacks::{add_items, copy_slots, take_items};
use ferraria::tile::TileId;

const SCENE: Scene =
    Scene { width: 320, height: 320, spawn: (160, 100), time: 16200, day: 0, flags: 0 };

const NOWHERE: StationSet = StationSet {
    workbench: false,
    furnace: false,
    anvil: false,
    infernal_forge: false,
    ritual_altar: false,
    bottle: false,
};

fn recipe(id: u16, station: Station, inputs: Vec<(ItemId, u16)>, output: ItemId, count: u16) -> Recipe {
    Recipe { id, station, inputs, output, count }
}

fn workbench() -> Recipe {
    recipe(1, Station::Hands, vec![(ItemId::Wood, 10)], ItemId::Workbench, 1)
}

fn torches() -> Recipe {
    recipe(2, Station::Hands, vec![(ItemId::Wood, 1), (ItemId::Gel, 1)], ItemId::Torch, 3)
}

fn platforms() -> Recipe {
    recipe(4, Station::Workbench, vec![(ItemId::Wood, 1)], ItemId::Platform, 2)
}

fn kit() -> Vec<Option<InvSlot>> {
    let kit = vec![
        InvSlot::new(ItemId::WoodSword, 1),
        InvSlot::new(ItemId::WoodPickaxe, 1),
        InvSlot::new(ItemId::Other(1), 1),
        InvSlot::new(ItemId::Torch, 5),
    ];
    starting_inventory(&kit, INVENTORY_SLOTS)
}

fn two_players() -> (Roster, Joined, Joined) {
    let mut r = Roster::new();
    let limits = Limits { max_players: 16, max_name_chars: 20, base_hp: 100, max_breath: 200 };
    let fresh = |token| Fresh { token, pos: Point { x: 0, y: 0 }, inventory: kit() };
    let mut live = Live::new(World::new(40, 40));
    let none = EntityStore::new();
    let mut join = |name: &str, token| {
        let mut out = Vec::new();
        r.join(name, None, fresh(token), limits, SCENE, &mut live, &none, (9, 9), 99, &mut out)
            .expect("joins")
    };
    let (a, b) = (join("alice", 1), join("bob", 2));
    (r, a, b)
}

#[test]
fn craft_validates_station_inputs_and_emits_deltas() {
    let mut inv = kit();
    inv[10] = Some(InvSlot::new(ItemId::Wood, 12));

    // Platforms need a workbench: none nearby.
    assert_eq!(craft(&platforms(), NOWHERE, &mut inv, 999), None);
    assert_eq!(inv[10], Some(InvSlot::new(ItemId::Wood, 12)));

    // A workbench is made by hand, anywhere.
    let before = copy_slots(&inv);
    assert_eq!(craft(&workbench(), NOWHERE, &mut inv, 99), Some(0));
    let changes = slot_deltas(&before, &inv);
    let now = |i: usize| changes.iter().find(|d| d.addr == SlotAddr::Inv(i)).map(|d| d.stack);
    assert_eq!(now(10), Some(Some(InvSlot::new(ItemId::Wood, 2))));
    assert!(changes.iter().any(|d| d.stack == Some(InvSlot::new(ItemId::Workbench, 1))));
    assert_eq!(changes.len(), 2);

    // Missing ingredients change nothing: a torch needs gel.
    assert!(!can_craft(&torches(), &inv, ARMOR_START));
    assert_eq!(craft(&torches(), NOWHERE, &mut inv, 999), None);

    // Next to a workbench platforms work.
    let near = StationSet { workbench: true, ..NOWHERE };
    assert_eq!(craft(&platforms(), near, &mut inv, 999), Some(0));
    assert_eq!(inv[10], Some(InvSlot::new(ItemId::Wood, 1)));
    assert!(inv.contains(&Some(InvSlot::new(ItemId::Platform, 2))));
}

#[test]
fn craft_consumes_exactly_across_split_stacks_and_stacks_output() {
    let mut inv = kit();
    inv[10] = Some(InvSlot::new(ItemId::Wood, 1));
    inv[11] = Some(InvSlot::new(ItemId::Wood, 4));
    inv[12] = Some(InvSlot::new(ItemId::Gel, 2));
    assert_eq!(craft(&torches(), NOWHERE, &mut inv, 999), Some(0));
    assert_eq!(inv[10], None, "first wood stack emptied");
    assert_eq!(inv[12], Some(InvSlot::new(ItemId::Gel, 1)));
    assert_eq!(inv[3], Some(InvSlot::new(ItemId::Torch, 8)), "stacked onto the torches");
    assert_eq!(inv[11], Some(InvSlot::new(ItemId::Wood, 4)));

    // Crafting never touches armor, accessories or trash.
    inv[ARMOR_START] = Some(InvSlot::new(ItemId::IronHelmet, 1));
    inv[TRASH] = Some(InvSlot::new(ItemId::Gel, 50));
    inv[12] = Some(InvSlot::new(ItemId::Gel, 1));
    inv[13] = Some(InvSlot::new(ItemId::Wood, 1));
    assert_eq!(craft(&torches(), NOWHERE, &mut inv, 999), Some(0));
    assert_eq!(inv[12], None, "gel consumed from backpack");
    assert_eq!(inv[TRASH], Some(InvSlot::new(ItemId::Gel, 50)), "trash gel untouched");
    assert_eq!(craft(&torches(), NOWHERE, &mut inv, 999), None);
}

#[test]
fn craft_overflow_spawns_an_item_drop() {
    let mut inv = kit();
    for slot in inv.iter_mut().take(ARMOR_START) {
        *slot = Some(InvSlot::new(ItemId::Stone, 999));
    }
    inv[0] = Some(InvSlot::new(ItemId::Wood, 2));
    inv[1] = Some(InvSlot::new(ItemId::Gel, 2));
    // The whole output overflows.
    assert_eq!(craft(&torches(), NOWHERE, &mut inv, 999), Some(3));
    assert!(overflow_toast(3, "Torch").contains("inventory full"));
    // Inputs were still consumed.
    assert_eq!(inv[0], Some(InvSlot::new(ItemId::Wood, 1)));
    assert_eq!(inv[1], Some(InvSlot::new(ItemId::Gel, 1)));
}

#[test]
fn drop_item_validates_slot_and_count() {
    let mut inv = kit();
    // Bad counts: nothing happens.
    assert_eq!(drop_item(&mut inv, 3, 0), None);
    assert_eq!(drop_item(&mut inv, 3, 6), None);
    assert_eq!(drop_item(&mut inv, 20, 1), None);
    assert_eq!(drop_item(&mut inv, 200, 1), None);
    assert_eq!(inv[3], Some(InvSlot::new(ItemId::Torch, 5)));

    assert_eq!(drop_item(&mut inv, 3, 2), Some(InvSlot::new(ItemId::Torch, 2)));
    assert_eq!(inv[3], Some(InvSlot::new(ItemId::Torch, 3)));
    // Dropping the whole stack empties the slot.
    assert_eq!(drop_item(&mut inv, 3, 3), Some(InvSlot::new(ItemId::Torch, 3)));
    assert_eq!(inv[3], None);
}

#[test]
fn moving_the_held_slot_rebroadcasts_the_held_item() {
    let before = kit();
    let mut after = kit();
    after[9] = after[0];
    after[0] = None;
    let deltas = slot_deltas(&before, &after);
    assert_eq!(deltas.len(), 2);
    assert!(held_changed(&deltas, 0));
    assert!(held_changed(&deltas, 9));
    assert!(!held_changed(&deltas, 1));
}

#[test]
fn chest_lock_denies_second_player_until_closed() {
    let (mut r, _, _) = two_players();
    let mut world = World::new(40, 40);
    let mut chests = ChestStore::new();
    let (cx, cy) = (12, 10);
    assert!(world.place_multitile(cx, cy, TileId::Chest, 2, 2));

    // Opening another cell than the first, or from too far, does nothing.
    assert_eq!(r.open_chest(&world, &mut chests, 0, cx + 1, cy, true), OpenChest::Ignored);
    assert_eq!(r.open_chest(&world, &mut chests, 0, cx, cy, false), OpenChest::Ignored);
    assert_eq!(r.open_chest(&world, &mut chests, 0, cx, cy, true), OpenChest::Opened);
    assert_eq!(chests.get((cx, cy)).map(|s| s.len()), Some(CHEST_SLOTS));

    // Second player: denied while held open.
    assert_eq!(r.open_chest(&world, &mut chests, 1, cx, cy, true), OpenChest::Denied);
    // Takeover after close.
    r.release_chest(0);
    assert_eq!(r.open_chest(&world, &mut chests, 1, cx, cy, true), OpenChest::Opened);
}

#[test]
fn chest_moves_update_both_sides_and_close_on_walkaway() {
    let (mut r, _, _) = two_players();
    let mut world = World::new(40, 40);
    let mut chests = ChestStore::new();
    let (cx, cy) = (12, 10);
    assert!(world.place_multitile(cx, cy, TileId::Chest, 2, 2));
    assert_eq!(r.open_chest(&world, &mut chests, 0, cx, cy, true), OpenChest::Opened);

    // Into the chest and out of it, for the one who has it open.
    let open = r.players[0].open_chest;
    assert_eq!(
        chest_move_slot(open, &chests, 0, 3, true),
        Some(((cx, cy), SlotAddr::Inv(3), SlotAddr::Chest(0)))
    );
    assert_eq!(
        chest_move_slot(open, &chests, 0, 9, false),
        Some(((cx, cy), SlotAddr::Chest(0), SlotAddr::Inv(9)))
    );
    // Deposit the starting torches (slot 3) into chest slot 0.
    let torches = Some(InvSlot::new(ItemId::Torch, 5));
    assert_eq!(r.players[0].inventory[3], torches);
    let moved = |from: SlotAddr, to: SlotAddr, inventory: Vec<_>, chest: Vec<_>| {
        let deltas = vec![
            SlotDelta { addr: from, stack: None },
            SlotDelta { addr: to, stack: torches },
        ];
        Some(ChestMove { inventory, chest, deltas })
    };
    let mut inv = copy_slots(&r.players[0].inventory);
    inv[3] = None;
    let mut slots = vec![None; CHEST_SLOTS];
    slots[0] = torches;
    let mut out = Vec::new();
    let m = moved(SlotAddr::Inv(3), SlotAddr::Chest(0), inv, copy_slots(&slots));
    r.settle_chest_move(0, &mut chests, m, &mut out);
    let alice = r.players[0].id;
    assert_eq!(
        out,
        vec![
            Outgoing { to: alice, what: Notice::Slot { idx: 3, stack: None } },
            Outgoing { to: alice, what: Notice::ChestSlot { idx: 0, stack: torches } },
        ]
    );
    assert_eq!(r.players[0].inventory[3], None);
    assert_eq!(chests.get((cx, cy)).map(|s| s[0]), Some(torches));

    // Without an open chest the move is rejected (bob).
    out.clear();
    assert_eq!(chest_move_slot(r.players[1].open_chest, &chests, 0, 0, true), None);
    assert_eq!(chest_move_slot(Some((1, 1)), &chests, 0, 0, true), None);
    let inv = copy_slots(&r.players[1].inventory);
    let m = moved(SlotAddr::Inv(0), SlotAddr::Chest(0), inv, vec![None; CHEST_SLOTS]);
    r.settle_chest_move(1, &mut chests, m, &mut out);
    assert!(out.is_empty());
    assert_eq!(chests.get((cx, cy)).map(|s| s[0]), Some(torches));

    // Walking out of reach frees the chest; bob can then open it and sees the
    // deposited torches.
    r.close_out_of_reach_chests(&vec![false, true]);
    assert!(r.players[0].open_chest.is_none(), "lock released");
    assert_eq!(r.open_chest(&world, &mut chests, 1, cx, cy, true), OpenChest::Opened);
    assert_eq!(chests.get((cx, cy)).map(|s| s[0]), Some(torches));

    // Withdraw back out (bob), into the hand: alice sees it.
    let mut inv = copy_slots(&r.players[1].inventory);
    inv[0] = torches;
    slots[0] = None;
    let m = moved(SlotAddr::Chest(0), SlotAddr::Inv(0), inv, copy_slots(&slots));
    r.settle_chest_move(1, &mut chests, m, &mut out);
    let bob = r.players[1].id;
    assert_eq!(r.players[1].inventory[0], torches);
    let held = Notice::Held { id: bob, slot: 0, item: Some(ItemId::Torch) };
    assert_eq!(
        out,
        vec![
            Outgoing { to: bob, what: Notice::ChestSlot { idx: 0, stack: None } },
            Outgoing { to: bob, what: Notice::Slot { idx: 0, stack: torches } },
            Outgoing { to: alice, what: held },
        ]
    );
}

#[test]
fn disconnect_releases_the_chest_lock() {
    let (mut r, a, _) = two_players();
    let mut world = World::new(40, 40);
    let mut chests = ChestStore::new();
    assert!(world.place_multitile(12, 10, TileId::Chest, 2, 2));
    assert_eq!(r.open_chest(&world, &mut chests, 0, 12, 10, true), OpenChest::Opened);
    assert!(r.disconnect(a.id, a.epoch, Point { x: 0, y: 0 }, 100, &mut Vec::new()));
    assert_eq!(r.open_chest(&world, &mut chests, 0, 12, 10, true), OpenChest::Opened);
}

#[test]
fn breaking_an_open_empty_chest_releases_the_lock() {
    let (mut r, _, _) = two_players();
    let mut live = Live::new(World::new(40, 40));
    let mut chests = ChestStore::new();
    let (cx, cy) = (12, 10);
    assert!(live.world.place_multitile(cx, cy, TileId::Chest, 2, 2));
    assert_eq!(r.open_chest(&live.world, &mut chests, 0, cx, cy, true), OpenChest::Opened);
    assert_eq!(r.players[0].open_chest, Some((cx, cy)));

    let data = TileData {
        breakable: true,
        tool: ToolKind::Axe,
        min_power: 0,
        one_hit: false,
        furniture: true,
        width: 2,
        height: 2,
        drops: Some(InvSlot::new(ItemId::Other(7), 1)),
    };
    let acorns = vec![false; 40];
    let pot = InvSlot::new(ItemId::CopperCoin, 1);
    let mut out = Vec::new();
    let mut drops: Vec<Drop> = Vec::new();
    let kind = live.break_tile(
        &mut chests, &mut r, cx, cy, &data, pot, &acorns, 7, &mut drops, &mut out,
    );
    assert_eq!(kind, Breaking::Object);
    assert_eq!(live.world.tile(cx, cy).id, TileId::Air, "empty chest broke");
    assert_eq!(live.world.tile(cx + 1, cy + 1).id, TileId::Air);
    assert_eq!(drops.len(), 1);
    // Everyone around sees all four cells go.
    let told = out.iter().filter(|o| matches!(o.what, Notice::Tile { .. })).count();
    assert_eq!(told, 2 * 4);
    out.clear();
    assert!(chests.get((cx, cy)).is_none());
    assert!(r.players[0].open_chest.is_none());
    assert!(r.players[1].open_chest.is_none());

    // A filled chest stands.
    assert!(live.world.place_multitile(cx, cy, TileId::Chest, 2, 2));
    let mut slots = vec![None; CHEST_SLOTS];
    slots[5] = Some(InvSlot::new(ItemId::Wood, 1));
    chests.insert((cx, cy), slots);
    live.break_tile(
        &mut chests, &mut r, cx, cy, &data, pot, &acorns, 7, &mut drops, &mut out,
    );
    assert_eq!(live.world.tile(cx, cy).id, TileId::Chest);
    assert!(out.is_empty());
    assert!(chests.get((cx, cy)).is_some());
}

#[test]
fn items_are_taken_and_added_in_order() {
    let mut inv = kit();
    inv[4] = Some(InvSlot::new(ItemId::Torch, 998));
    // The first stack fills up before a new one is begun.
    assert_eq!(add_items(&mut inv, ItemId::Torch, 995, 999, ARMOR_START), 0);
    assert_eq!(inv[3], Some(InvSlot::new(ItemId::Torch, 999)));
    assert_eq!(inv[4], Some(InvSlot::new(ItemId::Torch, 999)));
    take_items(&mut inv, ItemId::Torch, 1000, ARMOR_START);
    assert_eq!(inv[3], None);
    assert_eq!(inv[4], Some(InvSlot::new(ItemId::Torch, 998)));
}
