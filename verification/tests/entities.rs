use ferraria::grid::World;
use ferraria::item::{InvSlot, ItemId, ARMOR_START, INVENTORY_SLOTS};
use ferraria::sim::entities::{
    armed_drops, merge_item_drops, merge_plan, nearest_player, pickup_item_drop,
    pickup_item_drops, step_item_drops, touches_liquid, Body, DespawnReason, DropStep, Entity,
    EntityKind, EntityStore, Offer,
};
use ferraria::sim::inventory::SlotAddr;
use ferraria::sim::live::Live;
use ferraria::sim::player::{Player, Point};
use ferraria::sim::roster::{Fresh, Limits, Roster, Scene};
use ferraria::tile::{Liquid, LiquidKind, Tile, TileId};

const SCENE: Scene =
    Scene { width: 320, height: 320, spawn: (160, 100), time: 16200, day: 0, flags: 0 };

const TEN_MINUTES: u64 = 10 * 60 * 60;

fn body(chunk: (u32, u32)) -> Body {
    Body { pos: Point { x: 1, y: 2 }, vel: Point { x: 3, y: 4 }, chunk }
}

fn drop_of(item: ItemId, count: u16, spawn_tick: u64) -> Entity {
    Entity {
        body: body((0, 0)),
        kind: EntityKind::ItemDrop { item, count },
        spawn_tick,
        awake: true,
    }
}

fn still() -> DropStep {
    DropStep { body: body((0, 0)), moved: false, burns: false }
}

fn players(n: u32) -> Vec<Player> {
    let mut r = Roster::new();
    let mut live = Live::new(World::new(320, 320));
    let limits = Limits { max_players: 16, max_name_chars: 20, base_hp: 100, max_breath: 200 };
    for i in 0..n {
        let fresh = Fresh {
            token: i as u128,
            pos: Point { x: 0, y: 0 },
            inventory: vec![None; INVENTORY_SLOTS],
        };
        let (none, mut out) = (EntityStore::new(), Vec::new());
        let name = format!("p{i}");
        r.join(&name, None, fresh, limits, SCENE, &mut live, &none, (160, 98), 99, &mut out)
            .expect("joins");
    }
    r.players
}

fn lying(store: &EntityStore, what: ItemId) -> u32 {
    store
        .entries
        .iter()
        .map(|(_, e)| match e.kind {
            EntityKind::ItemDrop { item, count } if item == what => count as u32,
            _ => 0,
        })
        .sum()
}

#[test]
fn drops_fall_arm_and_get_picked_up() {
    let mut store = EntityStore::new();
    let mut all = players(1);
    let id = store.insert(drop_of(ItemId::Gel, 3, 100));
    // A falling drop is told about.
    let falls = DropStep { moved: true, ..still() };
    assert!(step_item_drops(&mut store, &vec![falls], 101).is_empty());
    assert_eq!(store.updates_for(&vec![(0, 0)]).len(), 1);
    // Within the arming window nothing is collected.
    assert!(armed_drops(&store, 120).is_empty());
    // Once armed, the player near collects.
    assert_eq!(armed_drops(&store, 130), vec![id]);
    let p = pickup_item_drop(&mut store, &mut all, id, &vec![Some(5)], 999, body((0, 0)));
    let p = p.expect("picked up");
    assert_eq!((p.by, p.taken, p.rest), (0, 3, None));
    assert_eq!(p.deltas.len(), 1);
    assert_eq!(p.deltas[0].addr, SlotAddr::Inv(0));
    assert!(p.held_changed, "slot 0 is in hand");
    assert!(store.find(id).is_none());
    assert_eq!(all[0].inventory[0], Some(InvSlot::new(ItemId::Gel, 3)));
}

#[test]
fn full_inventories_leave_drops_on_the_ground() {
    let mut store = EntityStore::new();
    let mut all = players(1);
    for i in 0..ARMOR_START {
        all[0].inventory[i] = Some(InvSlot::new(ItemId::Stone, 999));
    }
    let gel = store.insert(drop_of(ItemId::Gel, 5, 0));
    let near = vec![Some(1)];
    assert!(pickup_item_drop(&mut store, &mut all, gel, &near, 999, body((0, 0))).is_none());
    assert!(store.find(gel).is_some(), "no room: stays");

    // Partial room: 2 of 5 fit onto a stack of 997.
    all[0].inventory[0] = Some(InvSlot::new(ItemId::Stone, 997));
    let stone = store.insert(drop_of(ItemId::Stone, 5, 0));
    let p = pickup_item_drop(&mut store, &mut all, stone, &near, 999, body((0, 0)));
    assert_eq!(p.expect("picked up").taken, 2);
    assert!(store.find(stone).is_none(), "the first one is picked up");
    assert_eq!(all[0].inventory[0], Some(InvSlot::new(ItemId::Stone, 999)));
    assert_eq!(lying(&store, ItemId::Stone), 3, "the rest is a fresh drop");
}

#[test]
fn nearby_same_item_drops_merge() {
    let mut store = EntityStore::new();
    let a = store.insert(drop_of(ItemId::Wood, 10, 0));
    let b = store.insert(drop_of(ItemId::Wood, 7, 0));
    // A different item nearby must not merge in.
    let c = store.insert(drop_of(ItemId::Gel, 1, 0));
    let near = vec![vec![true; 3]; 3];
    let most = vec![999, 999, 999];
    assert_eq!(merge_plan(&store.entries, &near, &most), vec![(0, 1)]);
    let merges = merge_item_drops(&mut store, &near, &most);
    assert_eq!(merges.len(), 1);
    assert_eq!((merges[0].first, merges[0].second), (a, b));
    assert!(store.find(a).is_none());
    assert!(store.find(b).is_none());
    assert!(store.find(c).is_some());
    assert_eq!(lying(&store, ItemId::Wood), 17, "one merged stack");
    assert_eq!(store.entries.len(), 2);
}

#[test]
fn merged_drops_keep_the_oldest_spawn_tick() {
    let mut store = EntityStore::new();
    store.insert(drop_of(ItemId::Wood, 1, 100));
    store.insert(drop_of(ItemId::Wood, 1, 900));
    let near = vec![vec![true; 2]; 2];
    merge_item_drops(&mut store, &near, &vec![999, 999]);
    assert_eq!(store.entries.len(), 1);
    assert_eq!(store.entries[0].1.spawn_tick, 100, "despawn timer not reset");
}

#[test]
fn stacks_that_would_not_fit_stay_apart() {
    let mut store = EntityStore::new();
    store.insert(drop_of(ItemId::Wood, 600, 0));
    store.insert(drop_of(ItemId::Wood, 600, 0));
    let near = vec![vec![true; 2]; 2];
    assert!(merge_item_drops(&mut store, &near, &vec![999, 999]).is_empty());
    assert_eq!(store.entries.len(), 2);
}

#[test]
fn lava_destroys_drops_except_the_immune_tier() {
    let mut w = World::new(20, 20);
    let mut t = Tile::of(TileId::Air);
    t.liquid = Liquid::new(LiquidKind::Lava, 8);
    w.set_tile(6, 9, t);
    assert!(touches_liquid(&w, 6, 9, 6, 9, LiquidKind::Lava));
    assert!(!touches_liquid(&w, 6, 9, 6, 9, LiquidKind::Water));

    let mut store = EntityStore::new();
    let wood = store.insert(drop_of(ItemId::Wood, 5, 0));
    let obsidian = store.insert(drop_of(ItemId::Obsidian, 5, 0));
    let burning = DropStep { burns: true, ..still() };
    let gone = step_item_drops(&mut store, &vec![burning, still()], 2);
    assert_eq!(gone.len(), 1);
    assert_eq!(gone[0].0, wood);
    assert!(store.find(wood).is_none(), "wood burned");
    assert!(store.find(obsidian).is_some(), "obsidian floats");
}

#[test]
fn drops_despawn_after_ten_minutes() {
    let mut store = EntityStore::new();
    let id = store.insert(drop_of(ItemId::Wood, 1, 0));
    assert!(step_item_drops(&mut store, &vec![still()], TEN_MINUTES - 1).is_empty());
    assert!(store.find(id).is_some(), "one tick early");
    let gone = step_item_drops(&mut store, &vec![still()], TEN_MINUTES);
    assert_eq!(gone, vec![(id, DespawnReason::Despawned)]);
    assert!(store.find(id).is_none(), "gone at 10 min");
}

#[test]
fn updates_are_filtered_by_chunk_window_and_spawns_replay_on_subscribe() {
    let mut store = EntityStore::new();
    let mut inside = drop_of(ItemId::Gel, 1, 0);
    inside.body = body((150 / 64, 70 / 64));
    let id = store.insert(inside);
    assert_eq!(store.updates_for(&vec![(2, 1)])[0].0, id);
    assert!(store.updates_for(&vec![(0, 0)]).is_empty());
    assert_eq!(store.spawn_messages_in_chunk((2, 1))[0].0, id);
    assert!(store.spawn_messages_in_chunk((0, 0)).is_empty());
    // Told once, a resting drop is quiet.
    store.calm();
    assert!(store.updates_for(&vec![(2, 1)]).is_empty());
    assert_eq!(store.spawn_messages_in_chunk((2, 1)).len(), 1);
}

#[test]
fn the_nearest_player_collects() {
    let all = players(3);
    assert_eq!(nearest_player(&all, &vec![Some(9), Some(4), Some(4)]), Some(1));
    assert_eq!(nearest_player(&all, &vec![None, None, Some(4)]), Some(2));
    assert_eq!(nearest_player(&all, &vec![None, None, None]), None);
}

#[test]
fn picking_up_keeps_every_item() {
    let mut store = EntityStore::new();
    let mut all = players(2);
    let ids: Vec<u32> = (0..3).map(|n| store.insert(drop_of(ItemId::Gel, 10 + n, 0))).collect();
    let offers: Vec<Offer> = ids
        .iter()
        .enumerate()
        .map(|(i, &id)| Offer {
            id,
            distance: if i == 1 { vec![None, Some(3)] } else { vec![Some(2), Some(3)] },
            max_stack: 99,
            rest_body: body((0, 0)),
        })
        .collect();
    let done = pickup_item_drops(&mut store, &mut all, &offers);
    assert_eq!(done.iter().flatten().map(|p| p.by).collect::<Vec<_>>(), vec![0, 1, 0]);
    assert_eq!(all[0].inventory[0], Some(InvSlot::new(ItemId::Gel, 22)));
    assert_eq!(all[1].inventory[0], Some(InvSlot::new(ItemId::Gel, 11)));
    assert!(store.entries.is_empty());
}

#[test]
fn a_full_player_does_not_keep_a_drop_from_others() {
    let mut store = EntityStore::new();
    let mut all = players(2);
    for slot in all[0].inventory.iter_mut() {
        *slot = Some(InvSlot::new(ItemId::Stone, 99));
    }
    let id = store.insert(drop_of(ItemId::Gel, 10, 0));
    let near = vec![Some(1), Some(5)];
    let p = pickup_item_drop(&mut store, &mut all, id, &near, 99, body((0, 0))).expect("taken");
    assert_eq!((p.by, p.taken, p.rest), (1, 10, None));
    assert_eq!(all[1].inventory[0], Some(InvSlot::new(ItemId::Gel, 10)));
    assert!(all[0].inventory.iter().all(|s| *s == Some(InvSlot::new(ItemId::Stone, 99))));
    assert!(store.entries.is_empty());
    // With nobody in range who has room it stays.
    let id = store.insert(drop_of(ItemId::Gel, 10, 0));
    let alone = vec![Some(1), None];
    assert!(pickup_item_drop(&mut store, &mut all, id, &alone, 99, body((0, 0))).is_none());
    assert_eq!(store.entries.len(), 1);
}
